//! What every source shares: the requests that a stage asks for, the
//! effects that it decides on, the credentials that it carries, and the
//! order of the stages.
//!
//! A stage never performs anything. It says which request comes next,
//! takes the decoded response, and answers with the effects to perform, in
//! order, before the next request: writes to the store and pauses.
use crate::models::database::{
    DatabaseLine, DatabaseRoute, DatabaseTimetable, Line, LineStop, LineStopView, LineView, RoutePath,
    RoutePathView, RouteView, Stop, StopView, TimetableView,
};
use crate::store::{
    key_of, lemma_upsert_all_idempotent, upsert_all, Entity, EntityView, Key, Rows, Store, Table,
};
use vstd::prelude::*;
use vstd::string::*;

verus! {

/// A name and a value: a header of a request, or a parameter of its query.
#[derive(Clone, Debug)]
pub struct Field {
    pub name: String,
    pub value: String,
}

/// The view of a field.
pub struct FieldView {
    pub name: Seq<char>,
    pub value: Seq<char>,
}

impl View for Field {
    type V = FieldView;

    open spec fn view(&self) -> FieldView {
        FieldView { name: self.name@, value: self.value@ }
    }
}

impl DeepView for Field {
    type V = FieldView;

    open spec fn deep_view(&self) -> FieldView {
        self@
    }
}

impl Field {
    /// A field of a name and a value.
    pub fn new(name: &str, value: &str) -> (f: Field)
        ensures
            f@ == (FieldView { name: name@, value: value@ }),
    {
        Field { name: name.to_owned(), value: value.to_owned() }
    }

    /// A copy of the field.
    pub fn duplicate(&self) -> (f: Field)
        ensures
            f@ == self@,
    {
        Field { name: self.name.clone(), value: self.value.clone() }
    }
}

/// A copy of a list of fields.
pub fn copy_fields(fields: &Vec<Field>) -> (r: Vec<Field>)
    ensures
        r.deep_view() == fields.deep_view(),
{
    let mut r: Vec<Field> = Vec::new();
    let mut i: usize = 0;
    while i < fields.len()
        invariant
            i <= fields.len(),
            r.deep_view() =~= fields.deep_view().take(i as int),
        decreases fields.len() - i,
    {
        let ghost before = r.deep_view();
        r.push(fields[i].duplicate());
        assert(r.deep_view() =~= before.push(fields[i as int]@));
        i += 1;
    }
    assert(fields.deep_view().take(i as int) =~= fields.deep_view());
    r
}

/// The method of a request.
#[derive(Clone, Copy, Debug, PartialEq, Eq, Structural)]
pub enum Method {
    Get,
    Post,
}

/// A request to an authority, as plain values.
#[derive(Clone, Debug)]
pub struct HttpRequest {
    pub method: Method,
    pub url: String,
    pub headers: Vec<Field>,
    pub query: Vec<Field>,
    pub body: Option<String>,
}

/// The view of a request.
pub struct RequestView {
    pub method: Method,
    pub url: Seq<char>,
    pub headers: Seq<FieldView>,
    pub query: Seq<FieldView>,
    pub body: Option<Seq<char>>,
}

impl View for HttpRequest {
    type V = RequestView;

    open spec fn view(&self) -> RequestView {
        RequestView {
            method: self.method,
            url: self.url@,
            headers: self.headers.deep_view(),
            query: self.query.deep_view(),
            body: self.body.deep_view(),
        }
    }
}

/// The value of an `Authorization` header that carries a bearer token.
pub open spec fn bearer(token: Seq<char>) -> Seq<char> {
    "Bearer "@ + token
}

/// The `Authorization` header of a bearer token.
pub open spec fn authorization(token: Seq<char>) -> FieldView {
    FieldView { name: "Authorization"@, value: bearer(token) }
}

/// The `Authorization` header of a bearer token.
pub fn authorization_header(token: &str) -> (f: Field)
    ensures
        f@ == authorization(token@),
{
    let value = "Bearer ".to_owned().concat(token);
    Field { name: "Authorization".to_owned(), value }
}

/// The headers that go with every request of a source once its credentials
/// have been acquired. A value of this type is made by the acquisition of
/// credentials and by nothing else, and is never changed.
#[derive(Debug)]
pub struct AuthContext {
    headers: Vec<Field>,
}

impl View for AuthContext {
    type V = Seq<FieldView>;

    closed spec fn view(&self) -> Seq<FieldView> {
        self.headers.deep_view()
    }
}

impl AuthContext {
    /// The context of a source: its own headers, then the `Authorization`
    /// header of the token.
    pub(crate) fn issue(base: &Vec<Field>, token: &str) -> (context: AuthContext)
        ensures
            context@ == base.deep_view().push(authorization(token@)),
    {
        let mut headers = copy_fields(base);
        let ghost before = headers.deep_view();
        headers.push(authorization_header(token));
        assert(headers.deep_view() =~= before.push(authorization(token@)));
        AuthContext { headers }
    }

    /// The headers, for a request.
    pub fn headers(&self) -> (r: Vec<Field>)
        ensures
            r.deep_view() == self@,
    {
        copy_fields(&self.headers)
    }
}

/// The JSON string literal of a text, quotes included, as serde_json
/// writes it.
pub uninterp spec fn json_text_of(text: Seq<char>) -> Seq<char>;

/// `Display` of `serde_json::Value`, on a `Value::String`: the compact JSON
/// of a string. The result is a function of the text alone.
#[verifier::external_body]
pub(crate) fn json_quote(text: &str) -> (r: String)
    ensures
        r@ == json_text_of(text@),
{
    serde_json::Value::String(text.to_owned()).to_string()
}

/// The rows of one bulk write: all of one table.
#[derive(Debug)]
pub enum Batch {
    Lines(Vec<Line>),
    Routes(Vec<DatabaseRoute>),
    Stops(Vec<Stop>),
    LineStops(Vec<LineStop>),
    RoutePaths(Vec<RoutePath>),
    Timetables(Vec<DatabaseTimetable>),
}

/// The view of a batch.
pub enum BatchView {
    Lines(Seq<LineView>),
    Routes(Seq<RouteView>),
    Stops(Seq<StopView>),
    LineStops(Seq<LineStopView>),
    RoutePaths(Seq<RoutePathView>),
    Timetables(Seq<TimetableView>),
}

impl View for Batch {
    type V = BatchView;

    open spec fn view(&self) -> BatchView {
        match self {
            Batch::Lines(rows) => BatchView::Lines(rows.deep_view()),
            Batch::Routes(rows) => BatchView::Routes(rows.deep_view()),
            Batch::Stops(rows) => BatchView::Stops(rows.deep_view()),
            Batch::LineStops(rows) => BatchView::LineStops(rows.deep_view()),
            Batch::RoutePaths(rows) => BatchView::RoutePaths(rows.deep_view()),
            Batch::Timetables(rows) => BatchView::Timetables(rows.deep_view()),
        }
    }
}

impl BatchView {
    /// The table that the batch is written to.
    pub open spec fn table(self) -> Table {
        match self {
            BatchView::Lines(_) => Table::Lines,
            BatchView::Routes(_) => Table::Routes,
            BatchView::Stops(_) => Table::Stops,
            BatchView::LineStops(_) => Table::LineStops,
            BatchView::RoutePaths(_) => Table::RoutePaths,
            BatchView::Timetables(_) => Table::Timetables,
        }
    }

    /// The rows of the batch, as rows of the store.
    pub open spec fn rows(self) -> Seq<EntityView> {
        match self {
            BatchView::Lines(rows) => rows.map_values(|r: LineView| EntityView::Line(r)),
            BatchView::Routes(rows) => rows.map_values(|r: RouteView| EntityView::Route(r)),
            BatchView::Stops(rows) => rows.map_values(|r: StopView| EntityView::Stop(r)),
            BatchView::LineStops(rows) => rows.map_values(
                |r: LineStopView| EntityView::LineStop(r),
            ),
            BatchView::RoutePaths(rows) => rows.map_values(
                |r: RoutePathView| EntityView::RoutePath(r),
            ),
            BatchView::Timetables(rows) => rows.map_values(
                |r: TimetableView| EntityView::Timetable(r),
            ),
        }
    }
}

impl Batch {
    /// The table that the batch is written to.
    pub fn table(&self) -> (t: Table)
        ensures
            t == self@.table(),
    {
        match self {
            Batch::Lines(_) => Table::Lines,
            Batch::Routes(_) => Table::Routes,
            Batch::Stops(_) => Table::Stops,
            Batch::LineStops(_) => Table::LineStops,
            Batch::RoutePaths(_) => Table::RoutePaths,
            Batch::Timetables(_) => Table::Timetables,
        }
    }

    /// The number of rows.
    pub fn len(&self) -> (n: usize)
        ensures
            n == self@.rows().len(),
    {
        match self {
            Batch::Lines(rows) => rows.len(),
            Batch::Routes(rows) => rows.len(),
            Batch::Stops(rows) => rows.len(),
            Batch::LineStops(rows) => rows.len(),
            Batch::RoutePaths(rows) => rows.len(),
            Batch::Timetables(rows) => rows.len(),
        }
    }

    fn entity(&self, i: usize) -> (row: Entity)
        requires
            i < self@.rows().len(),
        ensures
            row@ == self@.rows()[i as int],
    {
        match self {
            Batch::Lines(rows) => Entity::Line(rows[i].duplicate()),
            Batch::Routes(rows) => Entity::Route(rows[i].duplicate()),
            Batch::Stops(rows) => Entity::Stop(rows[i].duplicate()),
            Batch::LineStops(rows) => Entity::LineStop(rows[i].duplicate()),
            Batch::RoutePaths(rows) => Entity::RoutePath(rows[i].duplicate()),
            Batch::Timetables(rows) => Entity::Timetable(rows[i].duplicate()),
        }
    }

    /// The rows of the batch, as rows of the store.
    pub fn entities(&self) -> (rows: Vec<Entity>)
        ensures
            rows.deep_view() == self@.rows(),
    {
        let mut rows: Vec<Entity> = Vec::new();
        let n = self.len();
        let mut i: usize = 0;
        while i < n
            invariant
                i <= n,
                n == self@.rows().len(),
                rows.deep_view() =~= self@.rows().take(i as int),
            decreases n - i,
        {
            let ghost before = rows.deep_view();
            let row = self.entity(i);
            rows.push(row);
            assert(rows.deep_view() =~= before.push(self@.rows()[i as int]));
            i += 1;
        }
        assert(self@.rows().take(i as int) =~= self@.rows());
        rows
    }
}

/// What a stage decides on: a bulk write, or a pause of so many seconds.
#[derive(Debug)]
pub enum Effect {
    Write(Batch),
    Sleep(u64),
}

/// The view of an effect.
pub enum EffectView {
    Write(BatchView),
    Sleep(u64),
}

impl View for Effect {
    type V = EffectView;

    open spec fn view(&self) -> EffectView {
        match self {
            Effect::Write(batch) => EffectView::Write(batch@),
            Effect::Sleep(seconds) => EffectView::Sleep(*seconds),
        }
    }
}

impl DeepView for Effect {
    type V = EffectView;

    open spec fn deep_view(&self) -> EffectView {
        self@
    }
}

/// The write of a batch, unless the batch is empty: an empty batch is
/// skipped, it is no error.
pub open spec fn write_unless_empty(batch: BatchView) -> Seq<EffectView> {
    if batch.rows().len() == 0 {
        Seq::empty()
    } else {
        seq![EffectView::Write(batch)]
    }
}

/// Appends the write of a batch to the effects, unless the batch is empty.
pub fn push_write(effects: &mut Vec<Effect>, batch: Batch)
    ensures
        final(effects).deep_view() == old(effects).deep_view() + write_unless_empty(batch@),
{
    let ghost before = effects.deep_view();
    if batch.len() > 0 {
        effects.push(Effect::Write(batch));
        assert(effects.deep_view() =~= before + seq![EffectView::Write(batch@)]);
    } else {
        assert(effects.deep_view() =~= before + Seq::<EffectView>::empty());
    }
}

/// Appends a pause to the effects.
pub fn push_sleep(effects: &mut Vec<Effect>, seconds: u64)
    ensures
        final(effects).deep_view() == old(effects).deep_view() + seq![EffectView::Sleep(seconds)],
{
    let ghost before = effects.deep_view();
    effects.push(Effect::Sleep(seconds));
    assert(effects.deep_view() =~= before + seq![EffectView::Sleep(seconds)]);
}

/// Appends the effects of one answer to those of the answers before it.
pub fn append_effects(effects: &mut Vec<Effect>, step: Vec<Effect>)
    ensures
        final(effects).deep_view() == old(effects).deep_view() + step.deep_view(),
{
    let ghost before = effects.deep_view();
    let ghost added = step.deep_view();
    let mut step = step;
    effects.append(&mut step);
    assert(effects.deep_view() =~= before + added);
}

/// The views of a list of lists.
pub open spec fn lists<T>(list: Seq<Vec<T>>) -> Seq<Seq<T>> {
    list.map_values(|l: Vec<T>| l@)
}

/// Where a walk through `lines` lines with `steps` requests each stands
/// after so many answers: the position of the line, and the number of
/// requests already answered for it.
pub open spec fn cursor_after(lines: int, steps: int, answers: nat) -> (int, int)
    decreases answers,
{
    if answers == 0 {
        (0, 0)
    } else {
        let (line, step) = cursor_after(lines, steps, (answers - 1) as nat);
        if line >= lines {
            (line, step)
        } else if step + 1 == steps {
            (line + 1, 0)
        } else {
            (line, step + 1)
        }
    }
}

/// The rows that the effects write, in order.
pub open spec fn written(effects: Seq<EffectView>) -> Seq<EntityView>
    decreases effects.len(),
{
    if effects.len() == 0 {
        Seq::empty()
    } else {
        match effects.last() {
            EffectView::Write(batch) => written(effects.drop_last()) + batch.rows(),
            EffectView::Sleep(_) => written(effects.drop_last()),
        }
    }
}

/// Writing one batch after another is writing the two as one.
pub proof fn lemma_upsert_all_append(rows: Rows, first: Seq<EntityView>, second: Seq<EntityView>)
    ensures
        upsert_all(rows, first + second) == upsert_all(upsert_all(rows, first), second),
    decreases second.len(),
{
    if second.len() == 0 {
        assert(first + second =~= first);
    } else {
        lemma_upsert_all_append(rows, first, second.drop_last());
        assert((first + second).drop_last() =~= first + second.drop_last());
        assert((first + second).last() == second.last());
    }
}

/// Idempotence of a run: where a second run decides on the same effects as
/// the first, because the authority has answered the same, the store after
/// the second run is the store after the first, row for row, and so has as
/// many rows.
pub proof fn lemma_second_run_changes_nothing(rows: Rows, effects: Seq<EffectView>)
    ensures
        upsert_all(upsert_all(rows, written(effects)), written(effects)) == upsert_all(
            rows,
            written(effects),
        ),
        upsert_all(upsert_all(rows, written(effects)), written(effects)).len() == upsert_all(
            rows,
            written(effects),
        ).len(),
{
    lemma_upsert_all_idempotent(rows, written(effects));
}

/// No effect writes to the table.
pub open spec fn leaves(effects: Seq<EffectView>, table: Table) -> bool {
    forall|i: int|
        0 <= i < effects.len() ==> match #[trigger] effects[i] {
            EffectView::Write(batch) => batch.table() != table,
            EffectView::Sleep(_) => true,
        }
}

/// Effects that leave a table, one list after the other, leave it.
pub proof fn lemma_leaves_both(first: Seq<EffectView>, second: Seq<EffectView>, table: Table)
    requires
        leaves(first, table),
        leaves(second, table),
    ensures
        leaves(first + second, table),
{
    assert forall|i: int| 0 <= i < (first + second).len() implies match #[trigger] (first
        + second)[i] {
        EffectView::Write(batch) => batch.table() != table,
        EffectView::Sleep(_) => true,
    } by {
        if i < first.len() {
            assert((first + second)[i] == first[i]);
        } else {
            assert((first + second)[i] == second[i - first.len()]);
        }
    }
}

/// The write of a batch, where it is not empty, leaves every table but
/// that of the batch.
pub proof fn lemma_write_leaves(batch: BatchView, table: Table)
    requires
        batch.table() != table,
    ensures
        leaves(write_unless_empty(batch), table),
        leaves(seq![EffectView::Write(batch)], table),
{
}

/// Every row of a batch has its key in the table of the batch.
pub proof fn lemma_batch_table(batch: BatchView)
    ensures
        forall|j: int|
            0 <= j < batch.rows().len() ==> key_of(#[trigger] batch.rows()[j]).table
                == batch.table(),
{
}

proof fn lemma_written_leaves(effects: Seq<EffectView>, table: Table)
    requires
        leaves(effects, table),
    ensures
        forall|k: int|
            0 <= k < written(effects).len() ==> key_of(#[trigger] written(effects)[k]).table
                != table,
    decreases effects.len(),
{
    if effects.len() > 0 {
        let rest = effects.drop_last();
        assert forall|i: int| 0 <= i < rest.len() implies match #[trigger] rest[i] {
            EffectView::Write(batch) => batch.table() != table,
            EffectView::Sleep(_) => true,
        } by {
            assert(rest[i] == effects[i]);
        }
        lemma_written_leaves(rest, table);
        let last = effects[effects.len() - 1];
        match last {
            EffectView::Write(batch) => {
                lemma_batch_table(batch);
                let before = written(rest);
                assert forall|k: int| 0 <= k < written(effects).len() implies key_of(
                    #[trigger] written(effects)[k],
                ).table != table by {
                    if k < before.len() {
                        assert(written(effects)[k] == before[k]);
                    } else {
                        assert(written(effects)[k] == batch.rows()[k - before.len()]);
                    }
                }
            },
            EffectView::Sleep(_) => {},
        }
    }
}

proof fn lemma_rows_untouched(rows: Rows, batch: Seq<EntityView>, table: Table)
    requires
        forall|k: int| 0 <= k < batch.len() ==> key_of(#[trigger] batch[k]).table != table,
    ensures
        forall|key: Key|
            key.table == table ==> (#[trigger] upsert_all(rows, batch).contains_key(key)
                <==> rows.contains_key(key)),
        forall|key: Key|
            key.table == table && rows.contains_key(key) ==> #[trigger] upsert_all(
                rows,
                batch,
            )[key] == rows[key],
    decreases batch.len(),
{
    if batch.len() > 0 {
        let rest = batch.drop_last();
        let last = batch[batch.len() - 1];
        assert forall|k: int| 0 <= k < rest.len() implies key_of(#[trigger] rest[k]).table
            != table by {
            assert(rest[k] == batch[k]);
        }
        lemma_rows_untouched(rows, rest, table);
        assert(key_of(last).table != table);
        assert forall|key: Key| key.table == table implies (#[trigger] upsert_all(
            rows,
            batch,
        ).contains_key(key) <==> rows.contains_key(key)) by {
            assert(upsert_all(rows, rest).contains_key(key) <==> rows.contains_key(key));
            assert(key != key_of(last));
        }
        assert forall|key: Key| key.table == table && rows.contains_key(key) implies #[trigger] upsert_all(
            rows,
            batch,
        )[key] == rows[key] by {
            assert(upsert_all(rows, rest)[key] == rows[key]);
            assert(key != key_of(last));
        }
    }
}

/// What a run does not write to it does not change: where no effect
/// writes to a table, the store holds for every key of that table what it
/// held before. So a stage that reads the lines, or the routes, of the
/// store finds in a second run what it found in the first.
pub proof fn lemma_untouched(rows: Rows, effects: Seq<EffectView>, table: Table)
    requires
        leaves(effects, table),
    ensures
        forall|key: Key|
            key.table == table ==> (#[trigger] upsert_all(rows, written(effects)).contains_key(
                key,
            ) <==> rows.contains_key(key)),
        forall|key: Key|
            key.table == table && rows.contains_key(key) ==> #[trigger] upsert_all(
                rows,
                written(effects),
            )[key] == rows[key],
{
    lemma_written_leaves(effects, table);
    lemma_rows_untouched(rows, written(effects), table);
}

/// Performs the writes of the effects on a store in memory, in order; the
/// pauses are passed over.
pub fn perform(store: &mut Store, effects: &Vec<Effect>)
    requires
        old(store).well_formed(),
    ensures
        final(store).well_formed(),
        final(store)@ == upsert_all(old(store)@, written(effects.deep_view())),
{
    let mut i: usize = 0;
    proof {
        assert(effects.deep_view().take(0) =~= Seq::<EffectView>::empty());
    }
    while i < effects.len()
        invariant
            i <= effects.len(),
            store.well_formed(),
            store@ == upsert_all(old(store)@, written(effects.deep_view().take(i as int))),
        decreases effects.len() - i,
    {
        proof {
            let next = effects.deep_view().take(i + 1);
            assert(next.drop_last() =~= effects.deep_view().take(i as int));
            assert(next.last() == effects[i as int]@);
        }
        match &effects[i] {
            Effect::Write(batch) => {
                proof {
                    lemma_upsert_all_append(
                        old(store)@,
                        written(effects.deep_view().take(i as int)),
                        batch@.rows(),
                    );
                }
                let rows = batch.entities();
                store.upsert_all(&rows);
            },
            Effect::Sleep(_) => {},
        }
        i += 1;
    }
    assert(effects.deep_view().take(i as int) =~= effects.deep_view());
}

/// The sources.
#[derive(Clone, Copy, Debug, PartialEq, Eq, Structural)]
pub enum Source {
    Istanbul,
    Izmir,
}

/// The stages of a synchronization, in their order.
#[derive(Clone, Copy, Debug, PartialEq, Eq, Structural)]
pub enum Stage {
    Lines,
    Routes,
    Stops,
    RoutePaths,
    Timetable,
}

/// Whether a source has a stage.
#[derive(Clone, Copy, Debug, PartialEq, Eq, Structural)]
pub enum Support {
    /// The source runs the stage.
    Runs,
    /// The source has no such stage: what the stage would write is written
    /// by another stage of the source, or not at all.
    NotApplicable,
}

impl Stage {
    /// The place of the stage in the order: lines, routes, stops, route
    /// paths, timetable.
    pub open spec fn order(self) -> nat {
        match self {
            Stage::Lines => 0,
            Stage::Routes => 1,
            Stage::Stops => 2,
            Stage::RoutePaths => 3,
            Stage::Timetable => 4,
        }
    }

    /// The place of the stage in the order.
    pub fn position(&self) -> (n: u8)
        ensures
            n == self.order(),
    {
        match self {
            Stage::Lines => 0,
            Stage::Routes => 1,
            Stage::Stops => 2,
            Stage::RoutePaths => 3,
            Stage::Timetable => 4,
        }
    }
}

impl Source {
    /// The name of the city, as the rows carry it.
    pub open spec fn city(self) -> Seq<char> {
        match self {
            Source::Istanbul => "istanbul"@,
            Source::Izmir => "izmir"@,
        }
    }

    /// The name of the city, as the rows carry it.
    pub fn city_name(&self) -> (name: String)
        ensures
            name@ == self.city(),
    {
        match self {
            Source::Istanbul => "istanbul".to_owned(),
            Source::Izmir => "izmir".to_owned(),
        }
    }

    /// Istanbul runs all five stages. Izmir runs the stage of the lines,
    /// which writes the routes too, and the stage of the stops, which
    /// writes the route paths and the timetables too.
    pub open spec fn support(self, stage: Stage) -> Support {
        match self {
            Source::Istanbul => Support::Runs,
            Source::Izmir => match stage {
                Stage::Lines => Support::Runs,
                Stage::Stops => Support::Runs,
                _ => Support::NotApplicable,
            },
        }
    }

    /// Whether the source has the stage.
    pub fn supports(&self, stage: Stage) -> (s: Support)
        ensures
            s == self.support(stage),
    {
        match self {
            Source::Istanbul => Support::Runs,
            Source::Izmir => match stage {
                Stage::Lines => Support::Runs,
                Stage::Stops => Support::Runs,
                _ => Support::NotApplicable,
            },
        }
    }

    /// The stages that the source runs, in the order in which it runs
    /// them.
    pub open spec fn plan(self) -> Seq<Stage> {
        match self {
            Source::Istanbul => seq![
                Stage::Lines,
                Stage::Routes,
                Stage::Stops,
                Stage::RoutePaths,
                Stage::Timetable,
            ],
            Source::Izmir => seq![Stage::Lines, Stage::Stops],
        }
    }

    /// The stage that runs after `done`, or the first stage where nothing
    /// has run; nothing after the last stage.
    pub open spec fn stage_after(self, done: Option<Stage>) -> Option<Stage> {
        match done {
            None => Some(Stage::Lines),
            Some(stage) => match self {
                Source::Istanbul => match stage {
                    Stage::Lines => Some(Stage::Routes),
                    Stage::Routes => Some(Stage::Stops),
                    Stage::Stops => Some(Stage::RoutePaths),
                    Stage::RoutePaths => Some(Stage::Timetable),
                    Stage::Timetable => None,
                },
                Source::Izmir => match stage {
                    Stage::Lines => Some(Stage::Stops),
                    Stage::Routes => Some(Stage::Stops),
                    _ => None,
                },
            },
        }
    }

    /// The stage to run after `done`; the first stage where nothing has run.
    pub fn next_stage(&self, done: Option<Stage>) -> (next: Option<Stage>)
        ensures
            next == self.stage_after(done),
    {
        match done {
            None => Some(Stage::Lines),
            Some(stage) => match self {
                Source::Istanbul => match stage {
                    Stage::Lines => Some(Stage::Routes),
                    Stage::Routes => Some(Stage::Stops),
                    Stage::Stops => Some(Stage::RoutePaths),
                    Stage::RoutePaths => Some(Stage::Timetable),
                    Stage::Timetable => None,
                },
                Source::Izmir => match stage {
                    Stage::Lines => Some(Stage::Stops),
                    Stage::Routes => Some(Stage::Stops),
                    _ => None,
                },
            },
        }
    }
}

/// The order of the stages is strict: the stage that follows a stage comes
/// later in the order, the source runs it, and the source runs no stage in
/// between.
pub proof fn lemma_stage_order(source: Source, done: Stage)
    ensures
        match source.stage_after(Some(done)) {
            Some(next) => {
                &&& done.order() < next.order()
                &&& source.support(next) == Support::Runs
                &&& forall|between: Stage|
                    done.order() < between.order() < next.order() ==> source.support(between)
                        == Support::NotApplicable
            },
            None => forall|later: Stage|
                done.order() < later.order() ==> source.support(later) == Support::NotApplicable,
        },
{
}

/// Following the order from the start visits exactly the plan of the
/// source.
pub proof fn lemma_plan_follows_order(source: Source)
    ensures
        source.stage_after(None) == Some(source.plan()[0]),
        forall|i: int|
            0 <= i < source.plan().len() - 1 ==> source.stage_after(Some(#[trigger] source.plan()[i]))
                == Some(source.plan()[i + 1]),
        source.stage_after(Some(source.plan().last())) == None::<Stage>,
        forall|stage: Stage|
            source.plan().contains(stage) <==> source.support(stage) == Support::Runs,
{
    match source {
        Source::Istanbul => {
            let plan = source.plan();
            assert(plan[0] == Stage::Lines && plan[1] == Stage::Routes && plan[2] == Stage::Stops
                && plan[3] == Stage::RoutePaths && plan[4] == Stage::Timetable);
            assert forall|stage: Stage| plan.contains(stage) by {
                match stage {
                    Stage::Lines => assert(plan[0] == stage),
                    Stage::Routes => assert(plan[1] == stage),
                    Stage::Stops => assert(plan[2] == stage),
                    Stage::RoutePaths => assert(plan[3] == stage),
                    Stage::Timetable => assert(plan[4] == stage),
                }
            }
        },
        Source::Izmir => {
            let plan = source.plan();
            assert(plan[0] == Stage::Lines && plan[1] == Stage::Stops);
            assert forall|stage: Stage| plan.contains(stage) <==> source.support(stage)
                == Support::Runs by {
                match stage {
                    Stage::Lines => assert(plan[0] == stage),
                    Stage::Stops => assert(plan[1] == stage),
                    _ => {},
                }
            }
        },
    }
}

/// The walk of a stage through the lines of a city: for each line, in the
/// order of the list, a fixed number of requests.
pub struct Walk {
    lines: Vec<DatabaseLine>,
    line: usize,
    step: usize,
    steps: usize,
}

impl Walk {
    #[verifier::type_invariant]
    spec fn inv(self) -> bool {
        &&& self.steps >= 1
        &&& self.line <= self.lines.len()
        &&& self.step < self.steps
    }

    /// The lines to walk through.
    pub closed spec fn lines(&self) -> Seq<DatabaseLine> {
        self.lines@
    }

    /// The position of the line that the walk stands at.
    pub closed spec fn line(&self) -> int {
        self.line as int
    }

    /// The number of requests already answered for that line.
    pub closed spec fn step(&self) -> int {
        self.step as int
    }

    /// The number of requests for each line.
    pub closed spec fn steps(&self) -> int {
        self.steps as int
    }

    /// No line is left.
    pub open spec fn finished(&self) -> bool {
        self.line() >= self.lines().len()
    }

    /// The walk after one more answer: the next request of the same line,
    /// or the first of the next line. A finished walk stays as it is.
    pub open spec fn follows(&self, before: &Walk) -> bool {
        &&& self.lines() == before.lines()
        &&& self.steps() == before.steps()
        &&& if before.finished() {
            self.line() == before.line() && self.step() == before.step()
        } else if before.step() + 1 == before.steps() {
            self.line() == before.line() + 1 && self.step() == 0
        } else {
            self.line() == before.line() && self.step() == before.step() + 1
        }
    }

    pub(crate) fn new(lines: Vec<DatabaseLine>, steps: usize) -> (walk: Walk)
        requires
            steps >= 1,
        ensures
            walk.lines() == lines@,
            walk.line() == 0,
            walk.step() == 0,
            walk.steps() == steps,
    {
        Walk { lines, line: 0, step: 0, steps }
    }

    /// Whether no line is left.
    pub fn is_finished(&self) -> (r: bool)
        ensures
            r == self.finished(),
            0 <= self.line() <= self.lines().len(),
            0 <= self.step() < self.steps(),
    {
        proof {
            use_type_invariant(self);
        }
        self.line >= self.lines.len()
    }

    /// The line that the walk stands at.
    pub fn current(&self) -> (r: Option<&DatabaseLine>)
        ensures
            match r {
                Some(line) => !self.finished() && *line == self.lines()[self.line()],
                None => self.finished(),
            },
    {
        proof {
            use_type_invariant(self);
        }
        if self.line < self.lines.len() {
            Some(&self.lines[self.line])
        } else {
            None
        }
    }

    /// The number of requests already answered for the line.
    pub fn current_step(&self) -> (r: usize)
        ensures
            r == self.step(),
            r < self.steps(),
    {
        proof {
            use_type_invariant(self);
        }
        self.step
    }

    /// Moves on by one answer. Says whether that was the last answer for
    /// its line.
    pub fn advance(&mut self) -> (last: bool)
        ensures
            final(self).follows(old(self)),
            last == (!old(self).finished() && old(self).step() + 1 == old(self).steps()),
    {
        proof {
            use_type_invariant(&*self);
        }
        if self.line >= self.lines.len() {
            false
        } else if self.step + 1 == self.steps {
            self.line = self.line + 1;
            self.step = 0;
            true
        } else {
            self.step = self.step + 1;
            false
        }
    }
}

/// A source of transit data: one of the cities.
pub trait Updater {
    spec fn source_of(&self) -> Source;

    /// The city that the updater synchronizes.
    fn source(&self) -> (s: Source)
        ensures
            s == self.source_of(),
    ;
}

} // verus!
