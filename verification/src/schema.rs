//! The statements of the bulk writes: for each table the columns that a
//! write fills, the columns of its natural key, and the text of an "insert,
//! or update on conflict" statement around the rows.
//!
//! On a conflict on the natural key every column that is not part of the
//! key takes the incoming value; no column is kept from the old row.
use crate::store::Table;
use vstd::prelude::*;
use vstd::string::*;

verus! {

/// The views of a list of names.
pub open spec fn names(list: Seq<String>) -> Seq<Seq<char>> {
    list.map_values(|s: String| s@)
}

/// The name of a table.
pub open spec fn table_name(table: Table) -> Seq<char> {
    match table {
        Table::Lines => "lines"@,
        Table::Routes => "routes"@,
        Table::Stops => "stops"@,
        Table::LineStops => "line_stops"@,
        Table::RoutePaths => "route_paths"@,
        Table::Timetables => "timetable"@,
    }
}

/// The columns that a write fills, in the order in which the values of a
/// row are bound.
pub open spec fn table_columns(table: Table) -> Seq<Seq<char>> {
    match table {
        Table::Lines => seq!["code"@, "title"@, "city"@],
        Table::Routes => seq![
            "agency_id"@,
            "route_short_name"@,
            "route_long_name"@,
            "route_type"@,
            "route_desc"@,
            "route_code"@,
            "city"@,
        ],
        Table::Stops => seq![
            "stop_code"@,
            "stop_name"@,
            "x_coord"@,
            "y_coord"@,
            "province"@,
            "city"@,
        ],
        Table::LineStops => seq![
            "line_code"@,
            "stop_code"@,
            "stop_order"@,
            "city"@,
            "route_code"@,
        ],
        Table::RoutePaths => seq!["route_code"@, "route_path"@, "city"@],
        Table::Timetables => seq![
            "route_code"@,
            "city"@,
            "sunday"@,
            "monday"@,
            "tuesday"@,
            "wednesday"@,
            "thursday"@,
            "friday"@,
            "saturday"@,
        ],
    }
}

/// The columns of the natural key.
pub open spec fn key_columns(table: Table) -> Seq<Seq<char>> {
    match table {
        Table::Lines => seq!["code"@, "city"@],
        Table::Routes => seq!["route_code"@, "city"@],
        Table::Stops => seq!["stop_code"@, "city"@],
        Table::LineStops => seq!["route_code"@, "stop_code"@, "city"@],
        Table::RoutePaths => seq!["route_code"@, "city"@],
        Table::Timetables => seq!["route_code"@, "city"@],
    }
}

/// The columns outside a key, in their order.
pub open spec fn outside(columns: Seq<Seq<char>>, key: Seq<Seq<char>>) -> Seq<Seq<char>>
    decreases columns.len(),
{
    if columns.len() == 0 {
        Seq::empty()
    } else if key.contains(columns.last()) {
        outside(columns.drop_last(), key)
    } else {
        outside(columns.drop_last(), key).push(columns.last())
    }
}

/// The columns that a conflict overwrites: all that are not part of the
/// natural key.
pub open spec fn updated_columns(table: Table) -> Seq<Seq<char>> {
    outside(table_columns(table), key_columns(table))
}

/// The texts with `", "` between them.
pub open spec fn listed(items: Seq<Seq<char>>) -> Seq<char>
    decreases items.len(),
{
    if items.len() == 0 {
        Seq::empty()
    } else if items.len() == 1 {
        items[0]
    } else {
        listed(items.drop_last()) + ", "@ + items.last()
    }
}

/// The assignment that gives a column the incoming value.
pub open spec fn assignment(column: Seq<char>) -> Seq<char> {
    column + "=EXCLUDED."@ + column
}

/// The assignments of the columns.
pub open spec fn assignments(columns: Seq<Seq<char>>) -> Seq<Seq<char>> {
    columns.map_values(|c: Seq<char>| assignment(c))
}

/// The text before the rows of a bulk write.
pub open spec fn insert_head(table: Table) -> Seq<char> {
    "INSERT INTO "@ + table_name(table) + " ("@ + listed(table_columns(table)) + ") "@
}

/// The text after the rows of a bulk write: on a conflict on the natural
/// key, every other column is overwritten.
pub open spec fn conflict_tail(table: Table) -> Seq<char> {
    " ON CONFLICT ("@ + listed(key_columns(table)) + ") DO UPDATE SET "@ + listed(
        assignments(updated_columns(table)),
    )
}

/// A column is left out exactly when it is part of the key.
pub proof fn lemma_outside(columns: Seq<Seq<char>>, key: Seq<Seq<char>>, column: Seq<char>)
    ensures
        outside(columns, key).contains(column) <==> columns.contains(column) && !key.contains(
            column,
        ),
    decreases columns.len(),
{
    if columns.len() > 0 {
        let rest = columns.drop_last();
        let out = outside(columns, key);
        lemma_outside(rest, key, column);
        if out.contains(column) {
            let i = choose|i: int| 0 <= i < out.len() && out[i] == column;
            if i < outside(rest, key).len() {
                assert(outside(rest, key)[i] == column);
                let j = choose|j: int| 0 <= j < rest.len() && rest[j] == column;
                assert(columns[j] == column);
            } else {
                assert(columns[columns.len() - 1] == column);
            }
        }
        if columns.contains(column) && !key.contains(column) {
            let j = choose|j: int| 0 <= j < columns.len() && columns[j] == column;
            if j < rest.len() {
                assert(rest[j] == column);
                let i = choose|i: int|
                    0 <= i < outside(rest, key).len() && outside(rest, key)[i] == column;
                assert(out[i] == column);
            } else {
                assert(out[out.len() - 1] == column);
            }
        }
    }
}

/// The conflict policy: of the columns that a write fills, each is either
/// part of the natural key or overwritten on a conflict, and never both;
/// and every column of the key is a column that the write fills.
pub proof fn lemma_conflict_policy(table: Table, column: Seq<char>)
    ensures
        table_columns(table).contains(column) ==> (key_columns(table).contains(column)
            != updated_columns(table).contains(column)),
        key_columns(table).contains(column) ==> table_columns(table).contains(column),
        updated_columns(table).contains(column) ==> table_columns(table).contains(column),
{
    lemma_outside(table_columns(table), key_columns(table), column);
    let columns = table_columns(table);
    let key = key_columns(table);
    if key.contains(column) {
        let i = choose|i: int| 0 <= i < key.len() && key[i] == column;
        match table {
            Table::Lines => {
                assert(columns[0] == key[0] && columns[2] == key[1]);
            },
            Table::Routes => {
                assert(columns[5] == key[0] && columns[6] == key[1]);
            },
            Table::Stops => {
                assert(columns[0] == key[0] && columns[5] == key[1]);
            },
            Table::LineStops => {
                assert(columns[4] == key[0] && columns[1] == key[1] && columns[3] == key[2]);
            },
            Table::RoutePaths => {
                assert(columns[0] == key[0] && columns[2] == key[1]);
            },
            Table::Timetables => {
                assert(columns[0] == key[0] && columns[1] == key[1]);
            },
        }
    }
}

fn holds(list: &Vec<String>, name: &String) -> (r: bool)
    ensures
        r == names(list@).contains(name@),
{
    let mut i: usize = 0;
    while i < list.len()
        invariant
            i <= list.len(),
            forall|j: int| 0 <= j < i ==> names(list@)[j] != name@,
        decreases list.len() - i,
    {
        if list[i] == *name {
            assert(names(list@)[i as int] == name@);
            return true;
        }
        i += 1;
    }
    false
}

fn named(list: &Vec<&'static str>) -> (r: Vec<String>)
    ensures
        r.len() == list.len(),
        forall|i: int| 0 <= i < r.len() ==> (#[trigger] r[i])@ == list[i]@,
{
    let mut r: Vec<String> = Vec::new();
    let mut i: usize = 0;
    while i < list.len()
        invariant
            i <= list.len(),
            r.len() == i,
            forall|j: int| 0 <= j < i ==> (#[trigger] r[j])@ == list[j]@,
        decreases list.len() - i,
    {
        r.push(list[i].to_owned());
        i += 1;
    }
    r
}

impl Table {
    /// The name of the table.
    pub fn name(&self) -> (r: &'static str)
        ensures
            r@ == table_name(*self),
    {
        match self {
            Table::Lines => "lines",
            Table::Routes => "routes",
            Table::Stops => "stops",
            Table::LineStops => "line_stops",
            Table::RoutePaths => "route_paths",
            Table::Timetables => "timetable",
        }
    }

    /// The columns that a write fills, in the order in which the values of
    /// a row are bound.
    pub fn columns(&self) -> (r: Vec<String>)
        ensures
            names(r@) == table_columns(*self),
    {
        let list = match self {
            Table::Lines => vec!["code", "title", "city"],
            Table::Routes => vec![
                "agency_id",
                "route_short_name",
                "route_long_name",
                "route_type",
                "route_desc",
                "route_code",
                "city",
            ],
            Table::Stops => vec!["stop_code", "stop_name", "x_coord", "y_coord", "province", "city"],
            Table::LineStops => vec!["line_code", "stop_code", "stop_order", "city", "route_code"],
            Table::RoutePaths => vec!["route_code", "route_path", "city"],
            Table::Timetables => vec![
                "route_code",
                "city",
                "sunday",
                "monday",
                "tuesday",
                "wednesday",
                "thursday",
                "friday",
                "saturday",
            ],
        };
        let r = named(&list);
        assert(names(r@) =~= table_columns(*self));
        r
    }

    /// The columns of the natural key.
    pub fn key(&self) -> (r: Vec<String>)
        ensures
            names(r@) == key_columns(*self),
    {
        let list = match self {
            Table::Lines => vec!["code", "city"],
            Table::Routes => vec!["route_code", "city"],
            Table::Stops => vec!["stop_code", "city"],
            Table::LineStops => vec!["route_code", "stop_code", "city"],
            Table::RoutePaths => vec!["route_code", "city"],
            Table::Timetables => vec!["route_code", "city"],
        };
        let r = named(&list);
        assert(names(r@) =~= key_columns(*self));
        r
    }

    /// The columns that a conflict overwrites.
    pub fn updated(&self) -> (r: Vec<String>)
        ensures
            names(r@) == updated_columns(*self),
    {
        let columns = self.columns();
        let key = self.key();
        let mut r: Vec<String> = Vec::new();
        let mut i: usize = 0;
        proof {
            assert(names(columns@).take(0) =~= Seq::<Seq<char>>::empty());
            assert(names(r@) =~= outside(names(columns@).take(0), names(key@)));
        }
        while i < columns.len()
            invariant
                i <= columns.len(),
                names(r@) =~= outside(names(columns@).take(i as int), names(key@)),
            decreases columns.len() - i,
        {
            proof {
                let next = names(columns@).take(i + 1);
                assert(next.drop_last() =~= names(columns@).take(i as int));
                assert(next.last() == columns[i as int]@);
            }
            if !holds(&key, &columns[i]) {
                let ghost before = names(r@);
                r.push(columns[i].clone());
                assert(names(r@) =~= before.push(columns[i as int]@));
            }
            i += 1;
        }
        assert(names(columns@).take(i as int) =~= names(columns@));
        r
    }

    /// The text before the rows of a bulk write.
    pub fn insert_head(&self) -> (r: String)
        ensures
            r@ == insert_head(*self),
    {
        let columns = self.columns();
        "INSERT INTO ".to_owned().concat(self.name()).concat(" (").concat(
            list(&columns).as_str(),
        ).concat(") ")
    }

    /// The text after the rows of a bulk write.
    pub fn conflict_tail(&self) -> (r: String)
        ensures
            r@ == conflict_tail(*self),
    {
        let key = self.key();
        let updated = self.updated();
        let mut assigned: Vec<String> = Vec::new();
        let mut i: usize = 0;
        let ghost wanted = assignments(names(updated@));
        while i < updated.len()
            invariant
                i <= updated.len(),
                wanted == assignments(names(updated@)),
                names(assigned@) =~= wanted.take(i as int),
            decreases updated.len() - i,
        {
            let ghost before = names(assigned@);
            assigned.push(
                updated[i].clone().concat("=EXCLUDED.").concat(updated[i].as_str()),
            );
            assert(names(assigned@) =~= before.push(wanted[i as int]));
            i += 1;
        }
        assert(wanted.take(i as int) =~= wanted);
        " ON CONFLICT (".to_owned().concat(list(&key).as_str()).concat(
            ") DO UPDATE SET ",
        ).concat(list(&assigned).as_str())
    }
}

/// Writes the texts with `", "` between them.
pub fn list(items: &Vec<String>) -> (r: String)
    ensures
        r@ == listed(names(items@)),
{
    let mut r = String::new();
    let mut i: usize = 0;
    proof {
        assert(names(items@).take(0) =~= Seq::<Seq<char>>::empty());
    }
    while i < items.len()
        invariant
            i <= items.len(),
            r@ == listed(names(items@).take(i as int)),
        decreases items.len() - i,
    {
        proof {
            let next = names(items@).take(i + 1);
            assert(next.drop_last() =~= names(items@).take(i as int));
            assert(next.last() == items[i as int]@);
            if i > 0 {
                assert(next.len() > 1);
            } else {
                assert(next[0] == items[0]@);
                assert(listed(names(items@).take(0)) =~= Seq::<char>::empty());
            }
        }
        if i > 0 {
            r = r.concat(", ");
        }
        let ghost before = r@;
        r = r.concat(items[i].as_str());
        proof {
            if i == 0 {
                assert(r@ =~= items[0]@);
            }
        }
        i += 1;
    }
    assert(names(items@).take(i as int) =~= names(items@));
    r
}

} // verus!
