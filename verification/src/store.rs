//! The relational store as the pipeline sees it: rows found by their natural
//! key, written by "insert, or overwrite on conflict".
//!
//! The model is a map from natural keys to rows. A write of a row puts the
//! row at its key, whatever was there: every column that is not part of the
//! key takes the incoming value, and no write removes a key.
use crate::models::database::{
    DatabaseRoute, DatabaseTimetable, Line, LineStop, LineStopView, LineView, RoutePath,
    RoutePathView, RouteView, Stop, StopView, TimetableView,
};
use vstd::prelude::*;

verus! {

/// The tables of the schema.
#[derive(Clone, Copy, Debug, PartialEq, Eq, Structural)]
pub enum Table {
    Lines,
    Routes,
    Stops,
    LineStops,
    RoutePaths,
    Timetables,
}

/// A row of one of the tables.
#[derive(Clone, Debug)]
pub enum Entity {
    Line(Line),
    Route(DatabaseRoute),
    Stop(Stop),
    LineStop(LineStop),
    RoutePath(RoutePath),
    Timetable(DatabaseTimetable),
}

/// The view of a row.
pub enum EntityView {
    Line(LineView),
    Route(RouteView),
    Stop(StopView),
    LineStop(LineStopView),
    RoutePath(RoutePathView),
    Timetable(TimetableView),
}

impl View for Entity {
    type V = EntityView;

    open spec fn view(&self) -> EntityView {
        match self {
            Entity::Line(r) => EntityView::Line(r@),
            Entity::Route(r) => EntityView::Route(r@),
            Entity::Stop(r) => EntityView::Stop(r@),
            Entity::LineStop(r) => EntityView::LineStop(r@),
            Entity::RoutePath(r) => EntityView::RoutePath(r@),
            Entity::Timetable(r) => EntityView::Timetable(r@),
        }
    }
}

impl DeepView for Entity {
    type V = EntityView;

    open spec fn deep_view(&self) -> EntityView {
        self@
    }
}

/// A natural key: the table, and the columns that identify a row in it. A
/// column that a table's key does not have is empty here.
pub struct Key {
    pub table: Table,
    pub code: Seq<char>,
    pub stop_code: Option<i32>,
    pub city: Seq<char>,
}

/// The text of an optional column, empty where the column is not set.
pub open spec fn text_or_empty(text: Option<Seq<char>>) -> Seq<char> {
    match text {
        Some(t) => t,
        None => Seq::empty(),
    }
}

/// The natural key of a row: `(code, city)` of a line, `(route_code, city)`
/// of a route, a route path and a timetable, `(stop_code, city)` of a stop,
/// `(route_code, stop_code, city)` of a line stop.
///
/// A route without a code has the key of the empty code here. The model
/// is meant for rows that are [`identified`]; every route that a stage
/// of this library writes is.
pub open spec fn key_of(row: EntityView) -> Key {
    match row {
        EntityView::Line(r) => Key {
            table: Table::Lines,
            code: r.code,
            stop_code: None,
            city: r.city,
        },
        EntityView::Route(r) => Key {
            table: Table::Routes,
            code: text_or_empty(r.route_code),
            stop_code: None,
            city: r.city,
        },
        EntityView::Stop(r) => Key {
            table: Table::Stops,
            code: Seq::empty(),
            stop_code: Some(r.stop_code),
            city: r.city,
        },
        EntityView::LineStop(r) => Key {
            table: Table::LineStops,
            code: r.route_code,
            stop_code: Some(r.stop_code),
            city: r.city,
        },
        EntityView::RoutePath(r) => Key {
            table: Table::RoutePaths,
            code: r.route_code,
            stop_code: None,
            city: r.city,
        },
        EntityView::Timetable(r) => Key {
            table: Table::Timetables,
            code: r.route_code,
            stop_code: None,
            city: r.city,
        },
    }
}

/// The row carries every column of its natural key: a route has a code.
/// The rows of the other tables cannot be without theirs.
pub open spec fn identified(row: EntityView) -> bool {
    match row {
        EntityView::Route(r) => r.route_code is Some,
        _ => true,
    }
}

/// Two routes that have codes share a key exactly when they have the same
/// code and the same city.
pub proof fn lemma_route_keys(a: EntityView, b: EntityView)
    requires
        a is Route,
        b is Route,
        identified(a),
        identified(b),
    ensures
        key_of(a) == key_of(b) <==> a->Route_0.route_code == b->Route_0.route_code
            && a->Route_0.city == b->Route_0.city,
{
}

/// The contents of a store.
pub type Rows = Map<Key, EntityView>;

/// The store after a write of one row.
pub open spec fn upsert(rows: Rows, row: EntityView) -> Rows {
    rows.insert(key_of(row), row)
}

/// The store after the writes of the rows, in their order.
pub open spec fn upsert_all(rows: Rows, batch: Seq<EntityView>) -> Rows
    decreases batch.len(),
{
    if batch.len() == 0 {
        rows
    } else {
        upsert(upsert_all(rows, batch.drop_last()), batch.last())
    }
}

/// A write on a key that is taken leaves one row at that key, the incoming
/// one: the second of two writes on one key wins, and no other row changes.
pub proof fn lemma_upsert_overwrites(rows: Rows, old_row: EntityView, new_row: EntityView)
    requires
        key_of(old_row) == key_of(new_row),
    ensures
        upsert(upsert(rows, old_row), new_row) == upsert(rows, new_row),
        upsert(rows, new_row)[key_of(new_row)] == new_row,
        upsert(upsert(rows, old_row), new_row).dom() == upsert(rows, old_row).dom(),
{
    assert(upsert(upsert(rows, old_row), new_row) =~= upsert(rows, new_row));
    assert(upsert(upsert(rows, old_row), new_row).dom() =~= upsert(rows, old_row).dom());
}

/// A write adds at most one row: none where the key is taken, one where it
/// is free.
pub proof fn lemma_upsert_count(rows: Rows, row: EntityView)
    requires
        rows.dom().finite(),
    ensures
        upsert(rows, row).dom().finite(),
        rows.contains_key(key_of(row)) ==> upsert(rows, row).len() == rows.len(),
        !rows.contains_key(key_of(row)) ==> upsert(rows, row).len() == rows.len() + 1,
{
    assert(upsert(rows, row).dom() =~= rows.dom().insert(key_of(row)));
}

/// The writes of a batch on any store are the store overlaid with the writes
/// of the batch on the empty store.
pub proof fn lemma_upsert_all_overlays(rows: Rows, batch: Seq<EntityView>)
    ensures
        upsert_all(rows, batch) == rows.union_prefer_right(upsert_all(Map::empty(), batch)),
    decreases batch.len(),
{
    if batch.len() == 0 {
        assert(rows =~= rows.union_prefer_right(Map::<Key, EntityView>::empty()));
    } else {
        lemma_upsert_all_overlays(rows, batch.drop_last());
        assert(upsert_all(rows, batch) =~= rows.union_prefer_right(
            upsert_all(Map::empty(), batch),
        ));
    }
}

/// Writing a batch a second time changes nothing: the store after the
/// second run is the store after the first, row for row.
pub proof fn lemma_upsert_all_idempotent(rows: Rows, batch: Seq<EntityView>)
    ensures
        upsert_all(upsert_all(rows, batch), batch) == upsert_all(rows, batch),
{
    let once = upsert_all(rows, batch);
    let writes = upsert_all(Map::empty(), batch);
    lemma_upsert_all_overlays(rows, batch);
    lemma_upsert_all_overlays(once, batch);
    assert(once.union_prefer_right(writes) =~= once);
}

/// No write destroys a row's key, and a finite store stays finite.
pub proof fn lemma_upsert_all_keeps_keys(rows: Rows, batch: Seq<EntityView>)
    ensures
        rows.dom().subset_of(upsert_all(rows, batch).dom()),
        rows.dom().finite() ==> upsert_all(rows, batch).dom().finite(),
    decreases batch.len(),
{
    if batch.len() > 0 {
        lemma_upsert_all_keeps_keys(rows, batch.drop_last());
        let before = upsert_all(rows, batch.drop_last());
        if rows.dom().finite() {
            lemma_upsert_count(before, batch.last());
        }
    }
}

/// A second run of the same writes leaves the number of rows as it was
/// after the first run.
pub proof fn lemma_second_run_keeps_count(rows: Rows, batch: Seq<EntityView>)
    requires
        rows.dom().finite(),
    ensures
        upsert_all(upsert_all(rows, batch), batch).len() == upsert_all(rows, batch).len(),
{
    lemma_upsert_all_idempotent(rows, batch);
}

/// The keys of the rows are pairwise different.
pub open spec fn distinct_keys(rows: Seq<EntityView>) -> bool {
    forall|i: int, j: int|
        0 <= i < j < rows.len() ==> key_of(#[trigger] rows[i]) != key_of(#[trigger] rows[j])
}

proof fn lemma_replace_row(rows: Seq<EntityView>, i: int, row: EntityView)
    requires
        0 <= i < rows.len(),
        distinct_keys(rows),
        key_of(rows[i]) == key_of(row),
    ensures
        upsert_all(Map::empty(), rows.update(i, row)) == upsert(upsert_all(Map::empty(), rows), row),
        distinct_keys(rows.update(i, row)),
    decreases rows.len(),
{
    let changed = rows.update(i, row);
    let rest = rows.drop_last();
    assert forall|a: int, b: int| 0 <= a < b < changed.len() implies key_of(
        #[trigger] changed[a],
    ) != key_of(#[trigger] changed[b]) by {
        assert(key_of(rows[a]) != key_of(rows[b]));
    }
    if i == rows.len() - 1 {
        assert(changed.drop_last() =~= rest);
        assert(upsert_all(Map::empty(), changed) =~= upsert(upsert_all(Map::empty(), rows), row));
    } else {
        assert(changed.drop_last() =~= rest.update(i, row));
        assert forall|a: int, b: int| 0 <= a < b < rest.len() implies key_of(#[trigger] rest[a])
            != key_of(#[trigger] rest[b]) by {
            assert(key_of(rows[a]) != key_of(rows[b]));
        }
        lemma_replace_row(rest, i, row);
        assert(key_of(rows[i]) != key_of(rows[rows.len() - 1]));
        assert(upsert_all(Map::empty(), changed) =~= upsert(upsert_all(Map::empty(), rows), row));
    }
}

proof fn lemma_rows_of_distinct(rows: Seq<EntityView>)
    requires
        distinct_keys(rows),
    ensures
        upsert_all(Map::empty(), rows).dom().finite(),
        upsert_all(Map::empty(), rows).len() == rows.len(),
        forall|k: Key|
            upsert_all(Map::empty(), rows).contains_key(k) <==> exists|i: int|
                0 <= i < rows.len() && key_of(#[trigger] rows[i]) == k,
        forall|i: int|
            0 <= i < rows.len() ==> upsert_all(Map::empty(), rows)[key_of(#[trigger] rows[i])]
                == rows[i],
    decreases rows.len(),
{
    if rows.len() > 0 {
        let rest = rows.drop_last();
        let last = rows.last();
        assert forall|a: int, b: int| 0 <= a < b < rest.len() implies key_of(#[trigger] rest[a])
            != key_of(#[trigger] rest[b]) by {
            assert(key_of(rows[a]) != key_of(rows[b]));
        }
        lemma_rows_of_distinct(rest);
        let before = upsert_all(Map::empty(), rest);
        let after = upsert_all(Map::empty(), rows);
        if before.contains_key(key_of(last)) {
            let i = choose|i: int| 0 <= i < rest.len() && key_of(#[trigger] rest[i]) == key_of(last);
            assert(key_of(rows[i]) != key_of(rows[rows.len() - 1]));
        }
        lemma_upsert_count(before, last);
        assert forall|k: Key| after.contains_key(k) <==> exists|i: int|
            0 <= i < rows.len() && key_of(#[trigger] rows[i]) == k by {
            if after.contains_key(k) {
                if k == key_of(last) {
                    assert(key_of(rows[rows.len() - 1]) == k);
                } else {
                    let i = choose|i: int| 0 <= i < rest.len() && key_of(#[trigger] rest[i]) == k;
                    assert(key_of(rows[i]) == k);
                }
            }
            if exists|i: int| 0 <= i < rows.len() && key_of(#[trigger] rows[i]) == k {
                let i = choose|i: int| 0 <= i < rows.len() && key_of(#[trigger] rows[i]) == k;
                if i < rest.len() {
                    assert(key_of(rest[i]) == k);
                }
            }
        }
        assert forall|i: int| 0 <= i < rows.len() implies after[key_of(#[trigger] rows[i])]
            == rows[i] by {
            if i < rest.len() {
                assert(rest[i] == rows[i]);
                assert(key_of(rows[i]) != key_of(rows[rows.len() - 1]));
            }
        }
    }
}

fn same_optional_text(a: &Option<String>, b: &Option<String>) -> (r: bool)
    ensures
        r == (text_or_empty(a.deep_view()) == text_or_empty(b.deep_view())),
{
    match (a, b) {
        (Some(x), Some(y)) => *x == *y,
        (Some(x), None) => {
            assert(x@.len() == 0 <==> x@ =~= Seq::<char>::empty());
            x.as_str().is_empty()
        },
        (None, Some(y)) => {
            assert(y@.len() == 0 <==> y@ =~= Seq::<char>::empty());
            y.as_str().is_empty()
        },
        (None, None) => true,
    }
}

impl Entity {
    /// The table that the row belongs to.
    pub fn table(&self) -> (t: Table)
        ensures
            t == key_of(self@).table,
    {
        match self {
            Entity::Line(_) => Table::Lines,
            Entity::Route(_) => Table::Routes,
            Entity::Stop(_) => Table::Stops,
            Entity::LineStop(_) => Table::LineStops,
            Entity::RoutePath(_) => Table::RoutePaths,
            Entity::Timetable(_) => Table::Timetables,
        }
    }

    /// Whether two rows have the same natural key.
    pub fn same_key(&self, other: &Entity) -> (r: bool)
        ensures
            r == (key_of(self@) == key_of(other@)),
    {
        match (self, other) {
            (Entity::Line(a), Entity::Line(b)) => a.code == b.code && a.city == b.city,
            (Entity::Route(a), Entity::Route(b)) => same_optional_text(
                &a.route_code,
                &b.route_code,
            ) && a.city == b.city,
            (Entity::Stop(a), Entity::Stop(b)) => a.stop_code == b.stop_code && a.city == b.city,
            (Entity::LineStop(a), Entity::LineStop(b)) => a.route_code == b.route_code
                && a.stop_code == b.stop_code && a.city == b.city,
            (Entity::RoutePath(a), Entity::RoutePath(b)) => a.route_code == b.route_code && a.city
                == b.city,
            (Entity::Timetable(a), Entity::Timetable(b)) => a.route_code == b.route_code && a.city
                == b.city,
            _ => false,
        }
    }

    /// A copy of the row.
    pub fn duplicate(&self) -> (r: Entity)
        ensures
            r@ == self@,
    {
        match self {
            Entity::Line(a) => Entity::Line(a.duplicate()),
            Entity::Route(a) => Entity::Route(a.duplicate()),
            Entity::Stop(a) => Entity::Stop(a.duplicate()),
            Entity::LineStop(a) => Entity::LineStop(a.duplicate()),
            Entity::RoutePath(a) => Entity::RoutePath(a.duplicate()),
            Entity::Timetable(a) => Entity::Timetable(a.duplicate()),
        }
    }
}

/// A store in memory: the rows of all tables, one row for each natural key.
pub struct Store {
    rows: Vec<Entity>,
}

impl View for Store {
    type V = Rows;

    closed spec fn view(&self) -> Rows {
        upsert_all(Map::empty(), self.rows.deep_view())
    }
}

impl Store {
    /// No two rows of the store share a natural key.
    pub closed spec fn well_formed(&self) -> bool {
        distinct_keys(self.rows.deep_view())
    }

    /// The empty store.
    pub fn new() -> (store: Store)
        ensures
            store.well_formed(),
            store@ == Map::<Key, EntityView>::empty(),
    {
        Store { rows: Vec::new() }
    }

    fn position(&self, probe: &Entity) -> (r: Option<usize>)
        requires
            self.well_formed(),
        ensures
            match r {
                Some(i) => i < self.rows.len() && key_of(self.rows[i as int]@) == key_of(probe@),
                None => !self@.contains_key(key_of(probe@)),
            },
    {
        let mut i: usize = 0;
        while i < self.rows.len()
            invariant
                i <= self.rows.len(),
                forall|j: int| 0 <= j < i ==> key_of(#[trigger] self.rows[j]@) != key_of(probe@),
            decreases self.rows.len() - i,
        {
            if self.rows[i].same_key(probe) {
                return Some(i);
            }
            i += 1;
        }
        proof {
            let rows = self.rows.deep_view();
            lemma_rows_of_distinct(rows);
            if self@.contains_key(key_of(probe@)) {
                let j = choose|j: int| 0 <= j < rows.len() && key_of(#[trigger] rows[j]) == key_of(
                    probe@,
                );
                assert(rows[j] == self.rows[j]@);
            }
        }
        None
    }

    /// The number of rows.
    pub fn count(&self) -> (n: usize)
        requires
            self.well_formed(),
        ensures
            self@.dom().finite(),
            n == self@.len(),
    {
        proof {
            lemma_rows_of_distinct(self.rows.deep_view());
        }
        self.rows.len()
    }

    /// The row at the natural key of `probe`, if the store has one.
    pub fn lookup(&self, probe: &Entity) -> (r: Option<&Entity>)
        requires
            self.well_formed(),
        ensures
            match r {
                Some(row) => self@.contains_key(key_of(probe@)) && self@[key_of(probe@)] == row@,
                None => !self@.contains_key(key_of(probe@)),
            },
    {
        match self.position(probe) {
            Some(i) => {
                proof {
                    let rows = self.rows.deep_view();
                    lemma_rows_of_distinct(rows);
                    assert(rows[i as int] == self.rows[i as int]@);
                }
                Some(&self.rows[i])
            },
            None => None,
        }
    }

    /// Writes one row: inserts it, or overwrites the row that has its key.
    pub fn upsert(&mut self, row: Entity)
        requires
            old(self).well_formed(),
        ensures
            final(self).well_formed(),
            final(self)@ == upsert(old(self)@, row@),
    {
        let ghost before = self.rows.deep_view();
        match self.position(&row) {
            Some(i) => {
                proof {
                    assert(before[i as int] == self.rows[i as int]@);
                    lemma_replace_row(before, i as int, row@);
                }
                self.rows[i] = row;
                assert(self.rows.deep_view() =~= before.update(i as int, row@));
            },
            None => {
                proof {
                    lemma_rows_of_distinct(before);
                }
                self.rows.push(row);
                proof {
                    let after = self.rows.deep_view();
                    assert(after =~= before.push(row@));
                    assert(after.drop_last() =~= before);
                    assert forall|a: int, b: int| 0 <= a < b < after.len() implies key_of(
                        #[trigger] after[a],
                    ) != key_of(#[trigger] after[b]) by {
                        if b == after.len() - 1 {
                            assert(after[a] == before[a]);
                        } else {
                            assert(key_of(before[a]) != key_of(before[b]));
                        }
                    }
                }
            },
        }
    }

    /// Writes the rows of a batch, in their order.
    pub fn upsert_all(&mut self, batch: &Vec<Entity>)
        requires
            old(self).well_formed(),
        ensures
            final(self).well_formed(),
            final(self)@ == upsert_all(old(self)@, batch.deep_view()),
    {
        let mut i: usize = 0;
        assert(batch.deep_view().take(0) =~= Seq::<EntityView>::empty());
        while i < batch.len()
            invariant
                i <= batch.len(),
                self.well_formed(),
                self@ == upsert_all(old(self)@, batch.deep_view().take(i as int)),
            decreases batch.len() - i,
        {
            proof {
                let next = batch.deep_view().take(i + 1);
                assert(next.drop_last() =~= batch.deep_view().take(i as int));
                assert(next.last() == batch[i as int]@);
            }
            self.upsert(batch[i].duplicate());
            i += 1;
        }
        assert(batch.deep_view().take(i as int) =~= batch.deep_view());
    }
}

} // verus!
