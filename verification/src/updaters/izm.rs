//! Izmir: the lines from a paginated datastore, everything else from the
//! assistant of the transit authority, which knows a line by an identifier
//! of its own.
use crate::dedup::{
    first_indices, first_occurrences, lemma_first_indices_are_first, lemma_first_indices_cover,
    lemma_first_indices_increase, positions,
};
use crate::geometry::{parse_tracks, strings, tracks_points};
use crate::models::database::{
    DatabaseLine, DatabaseRoute, DatabaseTimetable, Line, LineStop, LineStopView, LineView,
    RoutePath, RoutePathView, RouteView, Stop, StopView,
};
use crate::models::izm::{
    Direction, EShotLineData, EshotLineResponse, EshotLineStation, EshotTimetable, IzmLine,
    IzmLinesResponse, IzmLoginBody, IzmLoginBodyResponse, IzmSearchResponse, IzmSearchResult,
};
use crate::number::{
    decimal_i32, decimal_of_i32, decimal_of_u64, decimal_text, parse_decimal_i32,
    signed_decimal_text,
};
use crate::timetable::{
    days_of_mask, mask_days, parse_time, time_of_text, timetable_of, Departure,
};
use crate::store::{identified, upsert_all, Rows, Table};
use crate::updater::{
    append_effects, leaves, lemma_leaves_both, lemma_second_run_changes_nothing,
    lemma_write_leaves, authorization, authorization_header, copy_fields, json_quote, json_text_of, push_sleep,
    push_write, written, AuthContext, Batch, BatchView, Effect, EffectView, Field, FieldView,
    HttpRequest, Method, RequestView, Source, Updater, Walk, write_unless_empty,
};
use vstd::prelude::*;
use vstd::string::*;

verus! {

/// Where the login is made.
pub const IZM_LOGIN_URL: &'static str = "https://appapi.eshot.gov.tr/api/Transportation/Login";

/// Where the token of the login is exchanged for the token of an anonymous
/// user.
pub const IZM_ANONYMOUS_URL: &'static str =
    "https://appapi.eshot.gov.tr/api/TransportationUser/getAnonymousUser";

/// The datastore of the lines.
pub const IZM_LINES_URL: &'static str =
    "https://acikveri.bizizmir.com/api/3/action/datastore_search";

/// The resource of the datastore that holds the lines.
pub const IZM_LINES_RESOURCE: &'static str = "bd6c84f8-49ba-4cf4-81f8-81a0fbb5caa3";

/// The search for a line by its name.
pub const IZM_SEARCH_URL: &'static str =
    "https://appapi.eshot.gov.tr/api/Assistant/getLineOrStationByName";

/// The details of a line.
pub const IZM_LINE_URL: &'static str = "https://appapi.eshot.gov.tr/api/Assistant/getLine";

/// The number of records of one page of the datastore.
pub const IZM_PAGE_SIZE: u64 = 100;

/// The seconds to pause after a line that the search does not find.
pub const IZM_MISS_PAUSE: u64 = 5;

/// The seconds to pause after the details of a line.
pub const IZM_LINE_PAUSE: u64 = 10;

/// The headers of every request to the assistant.
pub open spec fn izm_base_headers() -> Seq<FieldView> {
    seq![FieldView { name: "Content-Type"@, value: "application/json; charset=UTF-8"@ }]
}

/// The body of the login, from the JSON texts of the name and the
/// password.
pub open spec fn izm_login_body(user_name: Seq<char>, password: Seq<char>) -> Seq<char> {
    "{\"userName\":"@ + user_name + ",\"password\":"@ + password + "}"@
}

/// Writes the body of the login.
pub fn login_body(user_name: &str, password: &str) -> (r: String)
    ensures
        r@ == izm_login_body(user_name@, password@),
{
    "{\"userName\":".to_owned().concat(user_name).concat(",\"password\":").concat(
        password,
    ).concat("}")
}

/// The request of the login.
pub open spec fn izm_login_request(headers: Seq<FieldView>, login: IzmLoginBody) -> RequestView {
    RequestView {
        method: Method::Post,
        url: IZM_LOGIN_URL@,
        headers,
        query: Seq::empty(),
        body: Some(
            izm_login_body(json_text_of(login.user_name@), json_text_of(login.password@)),
        ),
    }
}

/// The request that exchanges the token of the login.
pub open spec fn izm_anonymous_request(headers: Seq<FieldView>, token: Seq<char>) -> RequestView {
    RequestView {
        method: Method::Get,
        url: IZM_ANONYMOUS_URL@,
        headers: headers.push(authorization(token)),
        query: Seq::empty(),
        body: None,
    }
}

/// The updater of Izmir: the headers that the assistant asks for.
#[derive(Debug)]
pub struct IzmUpdater {
    pub headers: Vec<Field>,
}

impl Updater for IzmUpdater {
    open spec fn source_of(&self) -> Source {
        Source::Izmir
    }

    fn source(&self) -> (s: Source) {
        Source::Izmir
    }
}

/// The account of the login: the one that the authority publishes for its
/// own applications.
pub fn public_account() -> (login: IzmLoginBody)
    ensures
        login.user_name@ == "tur"@,
        login.password@ == "t@r!"@,
{
    IzmLoginBody { user_name: "tur".to_owned(), password: "t@r!".to_owned() }
}

/// The acquisition of credentials, in two hops: the login gives a token,
/// and that token is exchanged for the token of an anonymous user, which
/// is the one that counts.
pub struct IzmLogin {
    headers: Vec<Field>,
    login: IzmLoginBody,
    token: Option<String>,
}

impl IzmLogin {
    /// The headers of the source.
    pub closed spec fn headers(&self) -> Seq<FieldView> {
        self.headers.deep_view()
    }

    /// The account of the login.
    pub closed spec fn account(&self) -> IzmLoginBody {
        self.login
    }

    /// The token of the login, once the first hop is made.
    pub closed spec fn login_token(&self) -> Option<Seq<char>> {
        self.token.deep_view()
    }

    /// The request of the hop that comes next.
    pub fn next_request(&self) -> (r: HttpRequest)
        ensures
            r@ == match self.login_token() {
                None => izm_login_request(self.headers(), self.account()),
                Some(token) => izm_anonymous_request(self.headers(), token),
            },
    {
        match &self.token {
            None => {
                let name = json_quote(self.login.user_name.as_str());
                let password = json_quote(self.login.password.as_str());
                let body = login_body(name.as_str(), password.as_str());
                let r = HttpRequest {
                    method: Method::Post,
                    url: IZM_LOGIN_URL.to_owned(),
                    headers: copy_fields(&self.headers),
                    query: Vec::new(),
                    body: Some(body),
                };
                assert(r.query.deep_view() =~= Seq::<FieldView>::empty());
                r
            },
            Some(token) => {
                let mut headers = copy_fields(&self.headers);
                let ghost before = headers.deep_view();
                headers.push(authorization_header(token.as_str()));
                assert(headers.deep_view() =~= before.push(authorization(token@)));
                let r = HttpRequest {
                    method: Method::Get,
                    url: IZM_ANONYMOUS_URL.to_owned(),
                    headers,
                    query: Vec::new(),
                    body: None,
                };
                assert(r.query.deep_view() =~= Seq::<FieldView>::empty());
                r
            },
        }
    }

    /// Takes the answer to the last request. The first answer is kept for
    /// the second hop and gives no context; the second answer gives the
    /// context of all later requests, with the token of the anonymous user
    /// as the bearer token.
    pub fn on_response(&mut self, response: &IzmLoginBodyResponse) -> (context: Option<AuthContext>)
        ensures
            final(self).headers() == old(self).headers(),
            final(self).account() == old(self).account(),
            match old(self).login_token() {
                None => context is None && final(self).login_token() == Some(response.data.token@),
                Some(token) => final(self).login_token() == Some(token) && context is Some
                    && context->0@ == old(self).headers().push(
                    authorization(response.data.token@),
                ),
            },
    {
        match &self.token {
            None => {
                self.token = Some(response.data.token.clone());
                None
            },
            Some(_) => Some(AuthContext::issue(&self.headers, response.data.token.as_str())),
        }
    }
}

// ---------------------------------------------------------------------------
// Lines
// ---------------------------------------------------------------------------

/// The offset of the page after the page at `offset`.
pub open spec fn next_offset(offset: u64) -> u64 {
    if offset + IZM_PAGE_SIZE > u64::MAX {
        u64::MAX
    } else {
        (offset + IZM_PAGE_SIZE) as u64
    }
}

/// The number of pages that are asked for from `offset` on, where every
/// page reports `total` records: pages are asked for until the offset of
/// the next page is greater than the total.
pub open spec fn pages_from(offset: u64, total: u32) -> nat
    decreases total + 1 - offset,
{
    if offset > total || next_offset(offset) > total {
        1
    } else {
        1 + pages_from(next_offset(offset), total)
    }
}

/// A datastore of `total` records is read in `total / 100 + 1` pages, at
/// the offsets 0, 100, 200 and so on: the reading ends, and it ends with
/// the first page whose successor would start behind the last record.
pub proof fn lemma_pages(total: u32)
    ensures
        pages_from(0, total) == total / 100 + 1,
{
    lemma_pages_from(0, total);
}

proof fn lemma_pages_from(k: nat, total: u32)
    requires
        100 * k <= total,
    ensures
        pages_from((100 * k) as u64, total) == total / 100 + 1 - k,
    decreases total - 100 * k,
{
    let offset = (100 * k) as u64;
    if next_offset(offset) > total {
        assert(total / 100 == k);
    } else {
        lemma_pages_from(k + 1, total);
    }
}

/// The request of the page at `offset`.
pub open spec fn izm_page_request(offset: u64) -> RequestView {
    RequestView {
        method: Method::Get,
        url: IZM_LINES_URL@,
        headers: Seq::empty(),
        query: seq![
            FieldView { name: "resource_id"@, value: IZM_LINES_RESOURCE@ },
            FieldView { name: "offset"@, value: decimal_text(offset as nat) },
        ],
        body: None,
    }
}

/// The row of a line.
pub open spec fn izm_line_row(line: IzmLine) -> LineView {
    LineView {
        code: decimal_text(line.line_code as nat),
        title: line.line_name@,
        city: Source::Izmir.city(),
    }
}

/// The code of a route: the code of its line, the letter of its direction,
/// and the number of its variant, which is always 0.
pub open spec fn izm_route_code(line_code: Seq<char>, direction: Direction) -> Seq<char> {
    line_code + seq!['_', direction.letter(), '_', 'D', '0']
}

/// The route that a line has in a direction, whatever else is known of
/// it.
pub open spec fn izm_default_route(line: IzmLine, direction: Direction) -> RouteView {
    RouteView {
        agency_id: Some(1i32),
        route_short_name: Some(decimal_text(line.line_code as nat)),
        route_long_name: Some(line.line_start@ + " - "@ + line.line_end@),
        route_type: Some(3i32),
        route_desc: None,
        route_code: Some(izm_route_code(decimal_text(line.line_code as nat), direction)),
        city: Source::Izmir.city(),
    }
}

/// The routes of the lines: for each line, in order, its outbound and its
/// inbound route.
pub open spec fn izm_default_routes(lines: Seq<IzmLine>) -> Seq<RouteView>
    decreases lines.len(),
{
    if lines.len() == 0 {
        Seq::empty()
    } else {
        izm_default_routes(lines.drop_last()).push(
            izm_default_route(lines.last(), Direction::G),
        ).push(izm_default_route(lines.last(), Direction::D))
    }
}

/// Every route that the stage of the lines writes has a code.
pub proof fn lemma_izm_routes_identified(lines: Seq<IzmLine>)
    ensures
        izm_default_routes(lines).len() == 2 * lines.len(),
        forall|k: int|
            0 <= k < izm_default_routes(lines).len() ==> identified(
                #[trigger] BatchView::Routes(izm_default_routes(lines)).rows()[k],
            ),
    decreases lines.len(),
{
    if lines.len() > 0 {
        lemma_izm_routes_identified(lines.drop_last());
        let before = izm_default_routes(lines.drop_last());
        let all = izm_default_routes(lines);
        assert forall|k: int| 0 <= k < all.len() implies identified(
            #[trigger] BatchView::Routes(all).rows()[k],
        ) by {
            if k < before.len() {
                assert(all[k] == before[k]);
                assert(identified(BatchView::Routes(before).rows()[k]));
            }
        }
    }
}

/// The effects at the end of the reading: the write of all lines, then the
/// write of their routes.
pub open spec fn izm_lines_effects(lines: Seq<IzmLine>) -> Seq<EffectView> {
    write_unless_empty(BatchView::Lines(lines.map_values(|l: IzmLine| izm_line_row(l))))
        + write_unless_empty(BatchView::Routes(izm_default_routes(lines)))
}

/// The code of a route.
pub fn route_code_of(line_code: &str, direction: Direction) -> (code: String)
    ensures
        code@ == izm_route_code(line_code@, direction),
{
    let tail = match direction {
        Direction::G => "_G_D0",
        Direction::D => "_D_D0",
        Direction::R => "_R_D0",
    };
    proof {
        reveal_strlit("_G_D0");
        reveal_strlit("_D_D0");
        reveal_strlit("_R_D0");
        assert(tail@ =~= seq!['_', direction.letter(), '_', 'D', '0']);
    }
    line_code.to_owned().concat(tail)
}

fn default_route(line: &IzmLine, direction: Direction) -> (route: DatabaseRoute)
    ensures
        route@ == izm_default_route(*line, direction),
{
    let code = decimal_of_u64(line.line_code as u64);
    DatabaseRoute {
        agency_id: Some(1),
        route_short_name: Some(code.clone()),
        route_long_name: Some(
            line.line_start.clone().concat(" - ").concat(line.line_end.as_str()),
        ),
        route_type: Some(3),
        route_desc: None,
        route_code: Some(route_code_of(code.as_str(), direction)),
        city: Source::Izmir.city_name(),
    }
}

fn lines_effects(lines: &Vec<IzmLine>) -> (effects: Vec<Effect>)
    ensures
        effects.deep_view() == izm_lines_effects(lines@),
{
    let mut rows: Vec<Line> = Vec::new();
    let mut routes: Vec<DatabaseRoute> = Vec::new();
    let mut i: usize = 0;
    let ghost wanted = lines@.map_values(|l: IzmLine| izm_line_row(l));
    proof {
        assert(lines@.take(0) =~= Seq::<IzmLine>::empty());
    }
    while i < lines.len()
        invariant
            i <= lines.len(),
            wanted == lines@.map_values(|l: IzmLine| izm_line_row(l)),
            rows.deep_view() =~= wanted.take(i as int),
            routes.deep_view() =~= izm_default_routes(lines@.take(i as int)),
        decreases lines.len() - i,
    {
        let line = &lines[i];
        let ghost before = rows.deep_view();
        let ghost before_routes = routes.deep_view();
        proof {
            let next = lines@.take(i + 1);
            assert(next.drop_last() =~= lines@.take(i as int));
            assert(next.last() == *line);
        }
        rows.push(
            Line {
                code: decimal_of_u64(line.line_code as u64),
                title: line.line_name.clone(),
                city: Source::Izmir.city_name(),
            },
        );
        routes.push(default_route(line, Direction::G));
        routes.push(default_route(line, Direction::D));
        assert(rows.deep_view() =~= before.push(wanted[i as int]));
        assert(routes.deep_view() =~= before_routes.push(
            izm_default_route(*line, Direction::G),
        ).push(izm_default_route(*line, Direction::D)));
        i += 1;
    }
    assert(wanted.take(i as int) =~= wanted);
    assert(lines@.take(i as int) =~= lines@);
    let mut effects: Vec<Effect> = Vec::new();
    push_write(&mut effects, Batch::Lines(rows));
    push_write(&mut effects, Batch::Routes(routes));
    assert(effects.deep_view() =~= izm_lines_effects(lines@));
    effects
}

/// The stage of the lines: the datastore is read page by page, and at the
/// end all lines are written, and two routes for each of them.
pub struct IzmLinesSync {
    offset: u64,
    records: Vec<IzmLine>,
    done: bool,
}

impl IzmLinesSync {
    /// The offset of the page to ask for next.
    pub closed spec fn offset(&self) -> u64 {
        self.offset
    }

    /// The records read so far.
    pub closed spec fn records(&self) -> Seq<IzmLine> {
        self.records@
    }

    /// The reading has ended.
    pub closed spec fn done(&self) -> bool {
        self.done
    }

    /// The request to make next; none when the reading has ended.
    pub fn next_request(&self) -> (r: Option<HttpRequest>)
        ensures
            match r {
                Some(request) => !self.done() && request@ == izm_page_request(self.offset()),
                None => self.done(),
            },
    {
        if self.done {
            return None;
        }
        let mut query: Vec<Field> = Vec::new();
        query.push(Field::new("resource_id", IZM_LINES_RESOURCE));
        query.push(Field { name: "offset".to_owned(), value: decimal_of_u64(self.offset) });
        let r = HttpRequest {
            method: Method::Get,
            url: IZM_LINES_URL.to_owned(),
            headers: Vec::new(),
            query,
            body: None,
        };
        assert(r.headers.deep_view() =~= Seq::<FieldView>::empty());
        assert(r.query.deep_view() =~= izm_page_request(self.offset()).query);
        Some(r)
    }

    /// Takes a page. The records of the page join those read before, and
    /// the offset moves on by a page; once it is greater than the total
    /// that the page reports, the reading has ended and everything is
    /// written.
    pub fn on_response(&mut self, page: &IzmLinesResponse) -> (effects: Vec<Effect>)
        ensures
            if old(self).done() {
                &&& final(self).done()
                &&& final(self).offset() == old(self).offset()
                &&& final(self).records() == old(self).records()
                &&& effects.deep_view() == Seq::<EffectView>::empty()
            } else {
                &&& final(self).records() == old(self).records() + page.result.records@
                &&& final(self).offset() == next_offset(old(self).offset())
                &&& final(self).done() == (final(self).offset() > page.result.total)
                &&& effects.deep_view() == if final(self).done() {
                    izm_lines_effects(final(self).records())
                } else {
                    Seq::<EffectView>::empty()
                }
            },
    {
        let mut effects: Vec<Effect> = Vec::new();
        if self.done {
            assert(effects.deep_view() =~= Seq::<EffectView>::empty());
            return effects;
        }
        let mut i: usize = 0;
        while i < page.result.records.len()
            invariant
                i <= page.result.records.len(),
                self.offset == old(self).offset,
                self.done == old(self).done,
                self.records@ =~= old(self).records@ + page.result.records@.take(i as int),
            decreases page.result.records.len() - i,
        {
            let record = &page.result.records[i];
            self.records.push(
                IzmLine {
                    line_code: record.line_code,
                    line_name: record.line_name.clone(),
                    line_start: record.line_start.clone(),
                    line_end: record.line_end.clone(),
                },
            );
            i += 1;
        }
        assert(page.result.records@.take(i as int) =~= page.result.records@);
        self.offset = self.offset.saturating_add(IZM_PAGE_SIZE);
        if self.offset > page.result.total as u64 {
            self.done = true;
            effects = lines_effects(&self.records);
        } else {
            assert(effects.deep_view() =~= Seq::<EffectView>::empty());
        }
        effects
    }
}

impl IzmUpdater {
    /// The updater, with the headers of the assistant.
    pub fn new() -> (updater: IzmUpdater)
        ensures
            updater.headers.deep_view() == izm_base_headers(),
    {
        let mut headers: Vec<Field> = Vec::new();
        headers.push(Field::new("Content-Type", "application/json; charset=UTF-8"));
        assert(headers.deep_view() =~= izm_base_headers());
        IzmUpdater { headers }
    }

    /// Starts the acquisition of credentials, with the public account.
    pub fn get_credentials(&self) -> (login: IzmLogin)
        ensures
            login.headers() == self.headers.deep_view(),
            login.login_token() == None::<Seq<char>>,
            login.account().user_name@ == "tur"@,
            login.account().password@ == "t@r!"@,
    {
        IzmLogin { headers: copy_fields(&self.headers), login: public_account(), token: None }
    }

    /// The stage of the lines.
    pub fn insert_lines(&self) -> (stage: IzmLinesSync)
        ensures
            stage.offset() == 0,
            stage.records() == Seq::<IzmLine>::empty(),
            !stage.done(),
    {
        IzmLinesSync { offset: 0, records: Vec::new(), done: false }
    }
}

// ---------------------------------------------------------------------------
// Stops, route paths and timetables
// ---------------------------------------------------------------------------

/// A hit of the search, as plain values.
pub struct SearchHit {
    pub id: i32,
    pub name: Seq<char>,
    pub code: Seq<char>,
}

impl View for IzmSearchResult {
    type V = SearchHit;

    open spec fn view(&self) -> SearchHit {
        SearchHit { id: self.id, name: self.name@, code: self.code@ }
    }
}

impl DeepView for IzmSearchResult {
    type V = SearchHit;

    open spec fn deep_view(&self) -> SearchHit {
        self@
    }
}

/// The position of the first hit with the code, or the length of the list
/// where no hit has it.
pub open spec fn hit_position(hits: Seq<SearchHit>, code: Seq<char>) -> int
    decreases hits.len(),
{
    if hits.len() == 0 {
        0
    } else {
        let before = hit_position(hits.drop_last(), code);
        if before < hits.len() - 1 || hits.last().code == code {
            before
        } else {
            hits.len() as int
        }
    }
}

/// The first hit with the code, if there is one.
pub open spec fn first_hit(hits: Seq<SearchHit>, code: Seq<char>) -> Option<SearchHit> {
    if hit_position(hits, code) < hits.len() {
        Some(hits[hit_position(hits, code)])
    } else {
        None
    }
}

/// The position of the first hit is within the list or just behind it; a
/// hit at it has the code, and no hit before it has.
pub proof fn lemma_hit_position(hits: Seq<SearchHit>, code: Seq<char>)
    ensures
        0 <= hit_position(hits, code) <= hits.len(),
        hit_position(hits, code) < hits.len() ==> hits[hit_position(hits, code)].code == code,
        forall|j: int| 0 <= j < hit_position(hits, code) ==> (#[trigger] hits[j]).code != code,
    decreases hits.len(),
{
    if hits.len() > 0 {
        let rest = hits.drop_last();
        lemma_hit_position(rest, code);
        assert forall|j: int| 0 <= j < hit_position(hits, code) implies (#[trigger] hits[j]).code
            != code by {
            if j < rest.len() {
                assert(rest[j] == hits[j]);
            }
        }
    }
}

/// The cache after one more hit: a hit that the cache holds already is not
/// added again.
pub open spec fn cache_with_hit(cache: Seq<SearchHit>, hit: SearchHit) -> Seq<SearchHit> {
    if cache.contains(hit) {
        cache
    } else {
        cache.push(hit)
    }
}

/// The cache after the hits of an answer, added in their order.
pub open spec fn cache_with(cache: Seq<SearchHit>, hits: Seq<SearchHit>) -> Seq<SearchHit>
    decreases hits.len(),
{
    if hits.len() == 0 {
        cache
    } else {
        cache_with_hit(cache_with(cache, hits.drop_last()), hits.last())
    }
}

/// A cache in which nothing occurs twice stays so, and what it holds stays
/// where it is.
pub proof fn lemma_cache_with(cache: Seq<SearchHit>, hits: Seq<SearchHit>)
    requires
        cache.no_duplicates(),
    ensures
        cache_with(cache, hits).no_duplicates(),
        cache.len() <= cache_with(cache, hits).len(),
        forall|j: int| 0 <= j < cache.len() ==> cache_with(cache, hits)[j] == cache[j],
    decreases hits.len(),
{
    if hits.len() > 0 {
        lemma_cache_with(cache, hits.drop_last());
    }
}

/// The request of the search for a line.
pub open spec fn izm_search_request(headers: Seq<FieldView>, line_code: Seq<char>) -> RequestView {
    RequestView {
        method: Method::Post,
        url: IZM_SEARCH_URL@,
        headers,
        query: Seq::empty(),
        body: Some(json_text_of(line_code)),
    }
}

/// The request of the details of a line that the assistant knows by `id`.
pub open spec fn izm_line_request(headers: Seq<FieldView>, id: i32) -> RequestView {
    RequestView {
        method: Method::Post,
        url: IZM_LINE_URL@,
        headers,
        query: Seq::empty(),
        body: Some(signed_decimal_text(id as int)),
    }
}

/// The stations whose code is a number, in order.
pub open spec fn readable_stations(stations: Seq<EshotLineStation>) -> Seq<EshotLineStation>
    decreases stations.len(),
{
    if stations.len() == 0 {
        Seq::empty()
    } else {
        let before = readable_stations(stations.drop_last());
        if decimal_i32(stations.last().code@) is Some {
            before.push(stations.last())
        } else {
            before
        }
    }
}

/// The stop code of a station whose code is a number.
pub open spec fn station_code(station: EshotLineStation) -> i32 {
    decimal_i32(station.code@)->0
}

/// The stop codes of stations, in order.
pub open spec fn station_codes(stations: Seq<EshotLineStation>) -> Seq<i32> {
    stations.map_values(|s: EshotLineStation| station_code(s))
}

/// The stations that are kept: those whose code is a number, and of each
/// stop code the first, in the order of the answer.
pub open spec fn kept_stations(stations: Seq<EshotLineStation>) -> Seq<EshotLineStation> {
    let readable = readable_stations(stations);
    first_indices(station_codes(readable)).map_values(|i: int| readable[i])
}

/// Among the stations that are kept no stop code occurs twice; every
/// station whose code is a number has its stop code among them; and each
/// of them is the first station of the answer with its stop code.
pub proof fn lemma_izm_stations_deduplicated(stations: Seq<EshotLineStation>)
    ensures
        forall|k1: int, k2: int|
            0 <= k1 < k2 < kept_stations(stations).len() ==> station_code(
                #[trigger] kept_stations(stations)[k1],
            ) != station_code(#[trigger] kept_stations(stations)[k2]),
        forall|i: int|
            0 <= i < readable_stations(stations).len() ==> exists|k: int|
                0 <= k < kept_stations(stations).len() && station_code(
                    #[trigger] kept_stations(stations)[k],
                ) == station_code(#[trigger] readable_stations(stations)[i]),
        forall|k: int|
            0 <= k < kept_stations(stations).len() ==> {
                let i = first_indices(station_codes(readable_stations(stations)))[k];
                &&& 0 <= i < readable_stations(stations).len()
                &&& #[trigger] kept_stations(stations)[k] == readable_stations(stations)[i]
                &&& forall|j: int|
                    0 <= j < i ==> station_code(#[trigger] readable_stations(stations)[j])
                        != station_code(readable_stations(stations)[i])
            },
{
    let readable = readable_stations(stations);
    let codes = station_codes(readable);
    let fi = first_indices(codes);
    let kept = kept_stations(stations);
    lemma_first_indices_increase(codes);
    lemma_first_indices_are_first(codes);
    assert forall|k1: int, k2: int| 0 <= k1 < k2 < kept.len() implies station_code(
        #[trigger] kept[k1],
    ) != station_code(#[trigger] kept[k2]) by {
        assert(fi[k1] < fi[k2]);
        assert(codes[fi[k1]] != codes[fi[k2]]);
    }
    assert forall|i: int| 0 <= i < readable.len() implies exists|k: int|
        0 <= k < kept.len() && station_code(#[trigger] kept[k]) == station_code(
            #[trigger] readable[i],
        ) by {
        lemma_first_indices_cover(codes, i);
        let k = choose|k: int|
            0 <= k < fi.len() && 0 <= #[trigger] fi[k] <= i && codes[fi[k]] == codes[i];
        assert(station_code(kept[k]) == station_code(readable[i]));
    }
    assert forall|k: int| 0 <= k < kept.len() implies {
        let i = fi[k];
        &&& 0 <= i < readable.len()
        &&& #[trigger] kept[k] == readable[i]
        &&& forall|j: int|
            0 <= j < i ==> station_code(#[trigger] readable[j]) != station_code(readable[i])
    } by {
        let i = fi[k];
        assert forall|j: int| 0 <= j < i implies station_code(#[trigger] readable[j])
            != station_code(readable[i]) by {
            assert(codes[j] != codes[fi[k]]);
        }
    }
}

/// The row of a station.
pub open spec fn izm_stop_row(station: EshotLineStation) -> StopView {
    StopView {
        stop_code: station_code(station),
        stop_name: station.name@,
        x_coord: station.lng@,
        y_coord: station.lat@,
        province: None,
        city: Source::Izmir.city(),
    }
}

/// The place of a station on its route.
pub open spec fn izm_line_stop_row(
    line_code: Seq<char>,
    route_code: Seq<char>,
    station: EshotLineStation,
) -> LineStopView {
    LineStopView {
        line_code,
        stop_code: station_code(station),
        stop_order: None,
        route_code,
        city: Source::Izmir.city(),
    }
}

/// The departures of a route.
pub open spec fn izm_departures(times: Seq<EshotTimetable>) -> Seq<Departure> {
    times.map_values(
        |t: EshotTimetable| Departure { time: time_of_text(t.time@), days: mask_days(t.day) },
    )
}

/// The effects of one direction of a line: the write of its stops, that of
/// their places on the route, that of the path of the route and that of
/// its timetable. A direction that the authority numbers otherwise than
/// 1, 2 or 3 is left out.
pub open spec fn izm_route_effects(line_code: Seq<char>, route: EShotLineData) -> Seq<EffectView> {
    match Direction::of(route.direction) {
        None => Seq::empty(),
        Some(direction) => {
            let route_code = izm_route_code(line_code, direction);
            let kept = kept_stations(route.stations@);
            write_unless_empty(
                BatchView::Stops(kept.map_values(|s: EshotLineStation| izm_stop_row(s))),
            ) + write_unless_empty(
                BatchView::LineStops(
                    kept.map_values(
                        |s: EshotLineStation| izm_line_stop_row(line_code, route_code, s),
                    ),
                ),
            ) + seq![
                EffectView::Write(
                    BatchView::RoutePaths(
                        seq![
                            RoutePathView {
                                route_code,
                                route_path: tracks_points(strings(route.tracks@)),
                                city: Source::Izmir.city(),
                            },
                        ],
                    ),
                ),
                EffectView::Write(
                    BatchView::Timetables(
                        seq![
                            timetable_of(
                                route_code,
                                Source::Izmir.city(),
                                izm_departures(route.times@),
                            ),
                        ],
                    ),
                ),
            ]
        },
    }
}

/// The effects of the directions of a line, one direction after the
/// other.
pub open spec fn izm_routes_effects(line_code: Seq<char>, routes: Seq<EShotLineData>) -> Seq<
    EffectView,
>
    decreases routes.len(),
{
    if routes.len() == 0 {
        Seq::empty()
    } else {
        izm_routes_effects(line_code, routes.drop_last()) + izm_route_effects(
            line_code,
            routes.last(),
        )
    }
}

/// The effects of the details of a line: those of its directions, and a
/// pause.
pub open spec fn izm_line_effects(line_code: Seq<char>, routes: Seq<EShotLineData>) -> Seq<
    EffectView,
> {
    izm_routes_effects(line_code, routes) + seq![EffectView::Sleep(IZM_LINE_PAUSE)]
}

/// The effects of a line that the search does not find: a pause, and no
/// write.
pub open spec fn izm_miss_effects() -> Seq<EffectView> {
    seq![EffectView::Sleep(IZM_MISS_PAUSE)]
}

/// A line that is not found writes nothing.
pub proof fn lemma_miss_writes_nothing()
    ensures
        written(izm_miss_effects()).len() == 0,
{
    let effects = izm_miss_effects();
    assert(effects.drop_last() =~= Seq::<EffectView>::empty());
    assert(written(effects) =~= written(Seq::<EffectView>::empty()));
}

fn find_hit(cache: &Vec<IzmSearchResult>, code: &String) -> (r: Option<usize>)
    ensures
        match r {
            Some(i) => i < cache.len() && i == hit_position(cache.deep_view(), code@),
            None => hit_position(cache.deep_view(), code@) == cache.len(),
        },
{
    proof {
        lemma_hit_position(cache.deep_view(), code@);
    }
    let mut i: usize = 0;
    while i < cache.len()
        invariant
            i <= cache.len(),
            forall|j: int| 0 <= j < i ==> (#[trigger] cache.deep_view()[j]).code != code@,
        decreases cache.len() - i,
    {
        if cache[i].code == *code {
            proof {
                lemma_hit_position(cache.deep_view(), code@);
                assert(cache.deep_view()[i as int].code == code@);
            }
            return Some(i);
        }
        i += 1;
    }
    None
}

fn holds_hit(cache: &Vec<IzmSearchResult>, hit: &IzmSearchResult) -> (r: bool)
    ensures
        r == cache.deep_view().contains(hit@),
{
    let mut i: usize = 0;
    while i < cache.len()
        invariant
            i <= cache.len(),
            forall|j: int| 0 <= j < i ==> (#[trigger] cache.deep_view()[j]) != hit@,
        decreases cache.len() - i,
    {
        if cache[i].id == hit.id && cache[i].name == hit.name && cache[i].code == hit.code {
            assert(cache.deep_view()[i as int] == hit@);
            return true;
        }
        i += 1;
    }
    false
}

fn readable(stations: &Vec<EshotLineStation>) -> (r: (Vec<usize>, Vec<i32>))
    ensures
        r.0.len() == r.1.len(),
        r.0.len() == readable_stations(stations@).len(),
        r.1@ == station_codes(readable_stations(stations@)),
        forall|k: int|
            0 <= k < r.0.len() ==> (#[trigger] r.0[k]) < stations.len() && stations[r.0[k] as int]
                == readable_stations(stations@)[k],
{
    let mut indices: Vec<usize> = Vec::new();
    let mut codes: Vec<i32> = Vec::new();
    let mut i: usize = 0;
    proof {
        assert(stations@.take(0) =~= Seq::<EshotLineStation>::empty());
        assert(codes@ =~= station_codes(readable_stations(stations@.take(0))));
    }
    while i < stations.len()
        invariant
            i <= stations.len(),
            indices.len() == codes.len(),
            indices.len() == readable_stations(stations@.take(i as int)).len(),
            codes@ =~= station_codes(readable_stations(stations@.take(i as int))),
            forall|k: int|
                0 <= k < indices.len() ==> (#[trigger] indices[k]) < stations.len()
                    && stations[indices[k] as int] == readable_stations(
                    stations@.take(i as int),
                )[k],
        decreases stations.len() - i,
    {
        proof {
            let next = stations@.take(i + 1);
            assert(next.drop_last() =~= stations@.take(i as int));
            assert(next.last() == stations[i as int]);
        }
        match parse_decimal_i32(stations[i].code.as_str()) {
            Some(code) => {
                indices.push(i);
                codes.push(code);
            },
            None => {},
        }
        i += 1;
    }
    assert(stations@.take(i as int) =~= stations@);
    (indices, codes)
}

fn push_route_effects(effects: &mut Vec<Effect>, line_code: &String, route: &EShotLineData)
    ensures
        final(effects).deep_view() == old(effects).deep_view() + izm_route_effects(
            line_code@,
            *route,
        ),
{
    let ghost start = effects.deep_view();
    let direction = match Direction::try_from(route.direction) {
        Ok(direction) => direction,
        Err(_) => {
            assert(effects.deep_view() =~= start + Seq::<EffectView>::empty());
            return ;
        },
    };
    let route_code = route_code_of(line_code.as_str(), direction);
    let (indices, codes) = readable(&route.stations);
    let kept = first_occurrences(&codes);
    let ghost all = readable_stations(route.stations@);
    let ghost fi = first_indices(station_codes(all));
    let ghost wanted = kept_stations(route.stations@);
    let ghost wanted_stops = wanted.map_values(|s: EshotLineStation| izm_stop_row(s));
    let ghost wanted_places = wanted.map_values(
        |s: EshotLineStation| izm_line_stop_row(line_code@, route_code@, s),
    );
    proof {
        lemma_first_indices_increase(station_codes(all));
    }
    let mut stops: Vec<Stop> = Vec::new();
    let mut places: Vec<LineStop> = Vec::new();
    let mut k: usize = 0;
    while k < kept.len()
        invariant
            k <= kept.len(),
            positions(kept@) == fi,
            all == readable_stations(route.stations@),
            fi == first_indices(station_codes(all)),
            wanted == kept_stations(route.stations@),
            wanted_stops == wanted.map_values(|s: EshotLineStation| izm_stop_row(s)),
            wanted_places == wanted.map_values(
                |s: EshotLineStation| izm_line_stop_row(line_code@, route_code@, s),
            ),
            indices.len() == all.len(),
            codes@ == station_codes(all),
            forall|j: int| 0 <= j < fi.len() ==> 0 <= #[trigger] fi[j] < all.len(),
            forall|j: int|
                0 <= j < indices.len() ==> (#[trigger] indices[j]) < route.stations.len()
                    && route.stations[indices[j] as int] == all[j],
            stops.deep_view() =~= wanted_stops.take(k as int),
            places.deep_view() =~= wanted_places.take(k as int),
        decreases kept.len() - k,
    {
        let position = kept[k];
        assert(positions(kept@)[k as int] == position);
        assert(0 <= fi[k as int] < all.len());
        let station = &route.stations[indices[position]];
        assert(*station == all[position as int]);
        assert(wanted[k as int] == *station);
        let code = codes[position];
        assert(code == station_code(*station));
        let ghost before_stops = stops.deep_view();
        let ghost before_places = places.deep_view();
        stops.push(
            Stop {
                stop_code: code,
                stop_name: station.name.clone(),
                x_coord: station.lng.clone(),
                y_coord: station.lat.clone(),
                province: None,
                city: Source::Izmir.city_name(),
            },
        );
        places.push(
            LineStop {
                line_code: line_code.clone(),
                stop_code: code,
                stop_order: None,
                route_code: route_code.clone(),
                city: Source::Izmir.city_name(),
            },
        );
        assert(stops.deep_view() =~= before_stops.push(wanted_stops[k as int]));
        assert(places.deep_view() =~= before_places.push(wanted_places[k as int]));
        k += 1;
    }
    assert(wanted_stops.take(k as int) =~= wanted_stops);
    assert(wanted_places.take(k as int) =~= wanted_places);
    let mut paths: Vec<RoutePath> = Vec::new();
    paths.push(
        RoutePath {
            route_code: route_code.clone(),
            route_path: parse_tracks(&route.tracks),
            city: Source::Izmir.city_name(),
        },
    );
    let mut table = DatabaseTimetable::new(route_code.clone(), Source::Izmir.city_name());
    let mut t: usize = 0;
    proof {
        assert(route.times@.take(0) =~= Seq::<EshotTimetable>::empty());
        assert(izm_departures(route.times@.take(0)) =~= Seq::<Departure>::empty());
    }
    while t < route.times.len()
        invariant
            t <= route.times.len(),
            table@ == timetable_of(
                route_code@,
                Source::Izmir.city(),
                izm_departures(route.times@.take(t as int)),
            ),
        decreases route.times.len() - t,
    {
        let entry = &route.times[t];
        proof {
            let next = izm_departures(route.times@.take(t + 1));
            assert(next.drop_last() =~= izm_departures(route.times@.take(t as int)));
            assert(next.last() == (Departure {
                time: time_of_text(entry.time@),
                days: mask_days(entry.day),
            }));
        }
        table.push(parse_time(entry.time.as_str()), days_of_mask(entry.day));
        t += 1;
    }
    assert(route.times@.take(t as int) =~= route.times@);
    let mut tables: Vec<DatabaseTimetable> = Vec::new();
    tables.push(table);
    push_write(effects, Batch::Stops(stops));
    push_write(effects, Batch::LineStops(places));
    let ghost middle = effects.deep_view();
    let ghost path_view = RoutePathView {
        route_code: route_code@,
        route_path: tracks_points(strings(route.tracks@)),
        city: Source::Izmir.city(),
    };
    let ghost table_view = timetable_of(
        route_code@,
        Source::Izmir.city(),
        izm_departures(route.times@),
    );
    assert(paths.deep_view() =~= seq![path_view]);
    assert(tables.deep_view() =~= seq![table_view]);
    let write_paths = Effect::Write(Batch::RoutePaths(paths));
    let write_tables = Effect::Write(Batch::Timetables(tables));
    assert(write_paths@ == EffectView::Write(BatchView::RoutePaths(seq![path_view])));
    assert(write_tables@ == EffectView::Write(BatchView::Timetables(seq![table_view])));
    effects.push(write_paths);
    effects.push(write_tables);
    assert(middle == start + write_unless_empty(BatchView::Stops(wanted_stops))
        + write_unless_empty(BatchView::LineStops(wanted_places)));
    assert(effects.deep_view() =~= middle + seq![write_paths@, write_tables@]);
    assert(Direction::of(route.direction) == Some(direction));
    assert(effects.deep_view() =~= start + izm_route_effects(line_code@, *route));
}

fn line_effects(line_code: &String, routes: &Vec<EShotLineData>) -> (effects: Vec<Effect>)
    ensures
        effects.deep_view() == izm_line_effects(line_code@, routes@),
{
    let mut effects: Vec<Effect> = Vec::new();
    let mut i: usize = 0;
    proof {
        assert(routes@.take(0) =~= Seq::<EShotLineData>::empty());
        assert(effects.deep_view() =~= izm_routes_effects(line_code@, routes@.take(0)));
    }
    while i < routes.len()
        invariant
            i <= routes.len(),
            effects.deep_view() =~= izm_routes_effects(line_code@, routes@.take(i as int)),
        decreases routes.len() - i,
    {
        proof {
            let next = routes@.take(i + 1);
            assert(next.drop_last() =~= routes@.take(i as int));
            assert(next.last() == routes[i as int]);
        }
        push_route_effects(&mut effects, line_code, &routes[i]);
        i += 1;
    }
    assert(routes@.take(i as int) =~= routes@);
    push_sleep(&mut effects, IZM_LINE_PAUSE);
    effects
}

/// What the stage of the stops asks for next.
#[derive(Debug)]
pub enum IzmStopsRequest {
    /// The search for the line by its code; the answer goes to
    /// `on_search`.
    Search(HttpRequest),
    /// The details of the line; the answer goes to `on_line`.
    Line(HttpRequest),
}

/// The stage of the stops, which writes the route paths and the
/// timetables too. For every line the assistant's identifier of the line
/// is looked up, in what earlier searches of this run have found or else
/// by a search; with it the details of the line are asked for. A line
/// that the search does not find is left out, and the stage goes on with
/// the next line.
pub struct IzmStopsSync {
    walk: Walk,
    cache: Vec<IzmSearchResult>,
    headers: Vec<Field>,
}

impl IzmStopsSync {
    /// How far the stage has come.
    pub closed spec fn walk(&self) -> Walk {
        self.walk
    }

    /// What the searches of this run have found.
    pub closed spec fn cache(&self) -> Seq<SearchHit> {
        self.cache.deep_view()
    }

    /// The headers of its requests.
    pub closed spec fn headers(&self) -> Seq<FieldView> {
        self.headers.deep_view()
    }

    /// The code of the line that the stage stands at.
    pub open spec fn line_code(&self) -> Seq<char> {
        self.walk().lines()[self.walk().line()].code@
    }

    /// The request to make next; none when all lines are done.
    pub fn next_request(&self) -> (r: Option<IzmStopsRequest>)
        ensures
            match r {
                None => self.walk().finished(),
                Some(IzmStopsRequest::Search(request)) => {
                    &&& !self.walk().finished()
                    &&& first_hit(self.cache(), self.line_code()) is None
                    &&& request@ == izm_search_request(self.headers(), self.line_code())
                },
                Some(IzmStopsRequest::Line(request)) => {
                    &&& !self.walk().finished()
                    &&& first_hit(self.cache(), self.line_code()) is Some
                    &&& request@ == izm_line_request(
                        self.headers(),
                        first_hit(self.cache(), self.line_code())->0.id,
                    )
                },
            },
    {
        let line = match self.walk.current() {
            Some(line) => line,
            None => {
                return None;
            },
        };
        match find_hit(&self.cache, &line.code) {
            Some(i) => {
                let r = HttpRequest {
                    method: Method::Post,
                    url: IZM_LINE_URL.to_owned(),
                    headers: copy_fields(&self.headers),
                    query: Vec::new(),
                    body: Some(decimal_of_i32(self.cache[i].id)),
                };
                assert(r.query.deep_view() =~= Seq::<FieldView>::empty());
                assert(self.cache.deep_view()[i as int] == self.cache[i as int]@);
                Some(IzmStopsRequest::Line(r))
            },
            None => {
                let r = HttpRequest {
                    method: Method::Post,
                    url: IZM_SEARCH_URL.to_owned(),
                    headers: copy_fields(&self.headers),
                    query: Vec::new(),
                    body: Some(json_quote(line.code.as_str())),
                };
                assert(r.query.deep_view() =~= Seq::<FieldView>::empty());
                Some(IzmStopsRequest::Search(r))
            },
        }
    }

    /// Takes the answer of a search. Its hits join the cache. Where the
    /// line is among what is known now, nothing is to do and the details of
    /// the line are asked for next; where it is not, the line is left out:
    /// nothing is written, and after a pause the stage goes on with the
    /// next line.
    pub fn on_search(&mut self, response: &IzmSearchResponse) -> (effects: Vec<Effect>)
        ensures
            final(self).headers() == old(self).headers(),
            final(self).walk().lines() == old(self).walk().lines(),
            final(self).walk().steps() == old(self).walk().steps(),
            if old(self).walk().finished() {
                &&& final(self).walk().follows(&old(self).walk())
                &&& final(self).cache() == old(self).cache()
                &&& effects.deep_view() == Seq::<EffectView>::empty()
            } else {
                &&& final(self).cache() == cache_with(old(self).cache(), response.data.deep_view())
                &&& if first_hit(final(self).cache(), old(self).line_code()) is Some {
                    &&& final(self).walk() == old(self).walk()
                    &&& effects.deep_view() == Seq::<EffectView>::empty()
                } else {
                    &&& final(self).walk().follows(&old(self).walk())
                    &&& effects.deep_view() == izm_miss_effects()
                }
            },
    {
        let mut effects: Vec<Effect> = Vec::new();
        let code = match self.walk.current() {
            Some(line) => line.code.clone(),
            None => {
                self.walk.advance();
                assert(effects.deep_view() =~= Seq::<EffectView>::empty());
                return effects;
            },
        };
        let mut i: usize = 0;
        proof {
            assert(response.data.deep_view().take(0) =~= Seq::<SearchHit>::empty());
        }
        while i < response.data.len()
            invariant
                i <= response.data.len(),
                self.walk == old(self).walk,
                self.headers == old(self).headers,
                self.cache.deep_view() == cache_with(
                    old(self).cache.deep_view(),
                    response.data.deep_view().take(i as int),
                ),
            decreases response.data.len() - i,
        {
            let hit = &response.data[i];
            proof {
                let next = response.data.deep_view().take(i + 1);
                assert(next.drop_last() =~= response.data.deep_view().take(i as int));
                assert(next.last() == hit@);
            }
            if !holds_hit(&self.cache, hit) {
                let ghost before = self.cache.deep_view();
                self.cache.push(
                    IzmSearchResult {
                        id: hit.id,
                        name: hit.name.clone(),
                        code: hit.code.clone(),
                    },
                );
                assert(self.cache.deep_view() =~= before.push(hit@));
            }
            i += 1;
        }
        assert(response.data.deep_view().take(i as int) =~= response.data.deep_view());
        match find_hit(&self.cache, &code) {
            Some(_) => {
                assert(effects.deep_view() =~= Seq::<EffectView>::empty());
            },
            None => {
                self.walk.advance();
                push_sleep(&mut effects, IZM_MISS_PAUSE);
                assert(effects.deep_view() =~= izm_miss_effects());
            },
        }
        effects
    }

    /// Takes the details of a line and says what to write; the stage goes
    /// on with the next line.
    pub fn on_line(&mut self, response: &EshotLineResponse) -> (effects: Vec<Effect>)
        ensures
            final(self).headers() == old(self).headers(),
            final(self).cache() == old(self).cache(),
            final(self).walk().follows(&old(self).walk()),
            effects.deep_view() == if old(self).walk().finished() {
                Seq::<EffectView>::empty()
            } else {
                izm_line_effects(old(self).line_code(), response.data@)
            },
    {
        let code = match self.walk.current() {
            Some(line) => line.code.clone(),
            None => {
                self.walk.advance();
                let effects: Vec<Effect> = Vec::new();
                assert(effects.deep_view() =~= Seq::<EffectView>::empty());
                return effects;
            },
        };
        self.walk.advance();
        line_effects(&code, &response.data)
    }
}

impl IzmUpdater {
    /// The stage of the stops, for the lines that the store holds for
    /// Izmir.
    pub fn insert_line_stops(&self, auth: &AuthContext, lines: Vec<DatabaseLine>) -> (stage:
        IzmStopsSync)
        ensures
            stage.headers() == auth@,
            stage.cache() == Seq::<SearchHit>::empty(),
            stage.walk().lines() == lines@,
            stage.walk().line() == 0,
            stage.walk().step() == 0,
            stage.walk().steps() == 1,
    {
        let stage = IzmStopsSync {
            walk: Walk::new(lines, 1),
            cache: Vec::new(),
            headers: auth.headers(),
        };
        assert(stage.cache.deep_view() =~= Seq::<SearchHit>::empty());
        stage
    }
}

// ---------------------------------------------------------------------------
// Whole runs
// ---------------------------------------------------------------------------

/// How far the reading of the datastore has come.
pub struct Reading {
    pub offset: u64,
    pub records: Seq<IzmLine>,
    pub done: bool,
}

/// The reading after the pages, in the order in which they arrive. Pages
/// that arrive after the end of the reading change nothing.
pub open spec fn izm_reading_after(pages: Seq<IzmLinesResponse>) -> Reading
    decreases pages.len(),
{
    if pages.len() == 0 {
        Reading { offset: 0, records: Seq::empty(), done: false }
    } else {
        let before = izm_reading_after(pages.drop_last());
        if before.done {
            before
        } else {
            Reading {
                offset: next_offset(before.offset),
                records: before.records + pages.last().result.records@,
                done: next_offset(before.offset) > pages.last().result.total,
            }
        }
    }
}

/// The effects of a whole run of the stage of the lines: nothing until the
/// reading ends, and then the writes of all that was read.
pub open spec fn izm_lines_run(pages: Seq<IzmLinesResponse>) -> Seq<EffectView>
    decreases pages.len(),
{
    if pages.len() == 0 {
        Seq::empty()
    } else {
        let before = izm_reading_after(pages.drop_last());
        let after = izm_reading_after(pages);
        izm_lines_run(pages.drop_last()) + if !before.done && after.done {
            izm_lines_effects(after.records)
        } else {
            Seq::<EffectView>::empty()
        }
    }
}

/// Idempotence of the stage of the lines: a second run that gets the pages
/// of the first changes nothing in the store, row for row, and so leaves
/// the number of lines and of routes as it was.
pub proof fn lemma_izm_lines_idempotent(rows: Rows, pages: Seq<IzmLinesResponse>)
    ensures
        ({
            let once = upsert_all(rows, written(izm_lines_run(pages)));
            let twice = upsert_all(once, written(izm_lines_run(pages)));
            twice == once && twice.len() == once.len()
        }),
{
    lemma_second_run_changes_nothing(rows, izm_lines_run(pages));
}

/// An answer to a request of the stage of the stops.
#[derive(Debug)]
pub enum IzmStopsAnswer {
    /// The answer of a search.
    Search(IzmSearchResponse),
    /// The details of a line.
    Line(EshotLineResponse),
}

/// How far the stage of the stops has come: the position of the line, and
/// what the searches have found.
pub struct Progress {
    pub line: int,
    pub cache: Seq<SearchHit>,
}

/// The progress after one more answer.
pub open spec fn izm_stops_step(lines: Seq<DatabaseLine>, before: Progress, answer: IzmStopsAnswer)
    -> Progress {
    if before.line >= lines.len() {
        before
    } else {
        match answer {
            IzmStopsAnswer::Search(response) => {
                let cache = cache_with(before.cache, response.data.deep_view());
                if first_hit(cache, lines[before.line].code@) is Some {
                    Progress { line: before.line, cache }
                } else {
                    Progress { line: before.line + 1, cache }
                }
            },
            IzmStopsAnswer::Line(_) => Progress { line: before.line + 1, cache: before.cache },
        }
    }
}

/// The effects of one more answer.
pub open spec fn izm_stops_step_effects(
    lines: Seq<DatabaseLine>,
    before: Progress,
    answer: IzmStopsAnswer,
) -> Seq<EffectView> {
    if before.line >= lines.len() {
        Seq::empty()
    } else {
        match answer {
            IzmStopsAnswer::Search(response) => {
                let cache = cache_with(before.cache, response.data.deep_view());
                if first_hit(cache, lines[before.line].code@) is Some {
                    Seq::empty()
                } else {
                    izm_miss_effects()
                }
            },
            IzmStopsAnswer::Line(response) => izm_line_effects(
                lines[before.line].code@,
                response.data@,
            ),
        }
    }
}

/// The progress after the answers, from the first line and an empty cache.
pub open spec fn izm_stops_after(lines: Seq<DatabaseLine>, answers: Seq<IzmStopsAnswer>)
    -> Progress
    decreases answers.len(),
{
    if answers.len() == 0 {
        Progress { line: 0, cache: Seq::empty() }
    } else {
        izm_stops_step(lines, izm_stops_after(lines, answers.drop_last()), answers.last())
    }
}

/// The effects of a whole run of the stage of the stops: those of the
/// answers, in the order in which they arrive.
pub open spec fn izm_stops_run(lines: Seq<DatabaseLine>, answers: Seq<IzmStopsAnswer>) -> Seq<
    EffectView,
>
    decreases answers.len(),
{
    if answers.len() == 0 {
        Seq::empty()
    } else {
        izm_stops_run(lines, answers.drop_last()) + izm_stops_step_effects(
            lines,
            izm_stops_after(lines, answers.drop_last()),
            answers.last(),
        )
    }
}

proof fn lemma_izm_routes_effects_leave_lines(line_code: Seq<char>, routes: Seq<EShotLineData>)
    ensures
        leaves(izm_routes_effects(line_code, routes), Table::Lines),
    decreases routes.len(),
{
    if routes.len() > 0 {
        lemma_izm_routes_effects_leave_lines(line_code, routes.drop_last());
        let route = routes[routes.len() - 1];
        match Direction::of(route.direction) {
            None => {},
            Some(direction) => {
                let route_code = izm_route_code(line_code, direction);
                let kept = kept_stations(route.stations@);
                let stops = BatchView::Stops(
                    kept.map_values(|s: EshotLineStation| izm_stop_row(s)),
                );
                let places = BatchView::LineStops(
                    kept.map_values(
                        |s: EshotLineStation| izm_line_stop_row(line_code, route_code, s),
                    ),
                );
                lemma_write_leaves(stops, Table::Lines);
                lemma_write_leaves(places, Table::Lines);
                lemma_leaves_both(
                    write_unless_empty(stops),
                    write_unless_empty(places),
                    Table::Lines,
                );
                let head = (write_unless_empty(stops) + write_unless_empty(places)).len() as int;
                let all = izm_route_effects(line_code, route);
                let rest = all.skip(head);
                assert(all =~= write_unless_empty(stops) + write_unless_empty(places) + rest);
                assert(rest.len() == 2);
                assert(leaves(rest, Table::Lines)) by {
                    assert(rest[0] == all[head]);
                    assert(rest[1] == all[head + 1]);
                }
                lemma_leaves_both(
                    write_unless_empty(stops) + write_unless_empty(places),
                    rest,
                    Table::Lines,
                );
            },
        }
        lemma_leaves_both(
            izm_routes_effects(line_code, routes.drop_last()),
            izm_route_effects(line_code, route),
            Table::Lines,
        );
    }
}

/// No run of the stage of the stops writes a line: the lines that the
/// stage reads from the store are after its run what they were before.
pub proof fn lemma_izm_stops_run_leaves_lines(
    lines: Seq<DatabaseLine>,
    answers: Seq<IzmStopsAnswer>,
)
    ensures
        leaves(izm_stops_run(lines, answers), Table::Lines),
    decreases answers.len(),
{
    if answers.len() > 0 {
        lemma_izm_stops_run_leaves_lines(lines, answers.drop_last());
        let before = izm_stops_after(lines, answers.drop_last());
        let answer = answers[answers.len() - 1];
        let added = izm_stops_step_effects(lines, before, answer);
        if before.line < lines.len() {
            match answer {
                IzmStopsAnswer::Search(_) => {},
                IzmStopsAnswer::Line(response) => {
                    lemma_izm_routes_effects_leave_lines(lines[before.line].code@, response.data@);
                    lemma_leaves_both(
                        izm_routes_effects(lines[before.line].code@, response.data@),
                        seq![EffectView::Sleep(IZM_LINE_PAUSE)],
                        Table::Lines,
                    );
                },
            }
        }
        lemma_leaves_both(izm_stops_run(lines, answers.drop_last()), added, Table::Lines);
    }
}

/// Idempotence of the stage of the stops: a second run that gets the
/// answers of the first changes nothing in the store, row for row; the
/// path of a route and the lists of a timetable are overwritten, not added
/// to.
pub proof fn lemma_izm_stops_idempotent(
    rows: Rows,
    lines: Seq<DatabaseLine>,
    answers: Seq<IzmStopsAnswer>,
)
    ensures
        ({
            let once = upsert_all(rows, written(izm_stops_run(lines, answers)));
            let twice = upsert_all(once, written(izm_stops_run(lines, answers)));
            twice == once && twice.len() == once.len()
        }),
{
    lemma_second_run_changes_nothing(rows, izm_stops_run(lines, answers));
}

impl IzmUpdater {
    /// Runs the whole stage of the lines on pages that are at hand, in the
    /// order in which they would arrive.
    pub fn run_lines(&self, pages: &Vec<IzmLinesResponse>) -> (effects: Vec<Effect>)
        ensures
            effects.deep_view() == izm_lines_run(pages@),
    {
        let mut stage = self.insert_lines();
        let mut effects: Vec<Effect> = Vec::new();
        let mut k: usize = 0;
        proof {
            assert(pages@.take(0) =~= Seq::<IzmLinesResponse>::empty());
            assert(effects.deep_view() =~= izm_lines_run(pages@.take(0)));
        }
        while k < pages.len()
            invariant
                k <= pages.len(),
                stage.offset() == izm_reading_after(pages@.take(k as int)).offset,
                stage.records() == izm_reading_after(pages@.take(k as int)).records,
                stage.done() == izm_reading_after(pages@.take(k as int)).done,
                effects.deep_view() == izm_lines_run(pages@.take(k as int)),
            decreases pages.len() - k,
        {
            proof {
                let next = pages@.take(k + 1);
                assert(next.drop_last() =~= pages@.take(k as int));
                assert(next.last() == pages[k as int]);
            }
            let step = stage.on_response(&pages[k]);
            append_effects(&mut effects, step);
            k += 1;
        }
        assert(pages@.take(k as int) =~= pages@);
        effects
    }

    /// Runs the whole stage of the stops on answers that are at hand, in
    /// the order in which they would arrive.
    pub fn run_line_stops(
        &self,
        auth: &AuthContext,
        lines: Vec<DatabaseLine>,
        answers: &Vec<IzmStopsAnswer>,
    ) -> (effects: Vec<Effect>)
        ensures
            effects.deep_view() == izm_stops_run(lines@, answers@),
    {
        let ghost all = lines@;
        let mut stage = self.insert_line_stops(auth, lines);
        let mut effects: Vec<Effect> = Vec::new();
        let mut k: usize = 0;
        proof {
            assert(answers@.take(0) =~= Seq::<IzmStopsAnswer>::empty());
            assert(effects.deep_view() =~= izm_stops_run(all, answers@.take(0)));
        }
        while k < answers.len()
            invariant
                k <= answers.len(),
                stage.walk().lines() == all,
                stage.walk().steps() == 1,
                stage.walk().step() == 0,
                stage.walk().line() == izm_stops_after(all, answers@.take(k as int)).line,
                stage.cache() == izm_stops_after(all, answers@.take(k as int)).cache,
                effects.deep_view() == izm_stops_run(all, answers@.take(k as int)),
            decreases answers.len() - k,
        {
            proof {
                let next = answers@.take(k + 1);
                assert(next.drop_last() =~= answers@.take(k as int));
                assert(next.last() == answers[k as int]);
            }
            let step = match &answers[k] {
                IzmStopsAnswer::Search(response) => stage.on_search(response),
                IzmStopsAnswer::Line(response) => stage.on_line(response),
            };
            append_effects(&mut effects, step);
            k += 1;
        }
        assert(answers@.take(k as int) =~= answers@);
        effects
    }
}

} // verus!
