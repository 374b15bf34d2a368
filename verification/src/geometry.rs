//! The geometry normalizer: three wire formats of a route's path, one ordered
//! list of points.
//!
//! A coordinate pair that cannot be read is left out; the points around it
//! stay, in their order.
use crate::models::database::{LatLng, LatLngView};
use crate::number::{check_float_literal, is_float_literal};
use crate::text::{split, split_on, split_tokens, texts, to_chars, to_text, tokens, Separator};
use vstd::prelude::*;

verus! {

/// Both coordinates are floating-point literals.
pub open spec fn valid_point(p: LatLngView) -> bool {
    is_float_literal(p.lat) && is_float_literal(p.lng)
}

/// The views of a list of strings.
pub open spec fn strings(list: Seq<String>) -> Seq<Seq<char>> {
    list.map_values(|s: String| s@)
}

// ---------------------------------------------------------------------------
// Well-known text: `LINESTRING (x y, x y, ..)` segments, `|` between them.
// ---------------------------------------------------------------------------

/// The point that a coordinate pair of a `LINESTRING` denotes: exactly two
/// tokens, both floating-point literals, the longitude first.
pub open spec fn wkt_point(pair: Seq<char>) -> Option<LatLngView> {
    let t = tokens(pair);
    if t.len() == 2 && is_float_literal(t[0]) && is_float_literal(t[1]) {
        Some(LatLngView { lat: t[1], lng: t[0] })
    } else {
        None
    }
}

/// The points of the pairs that can be read, in order.
pub open spec fn wkt_pairs_points(pairs: Seq<Seq<char>>) -> Seq<LatLngView>
    decreases pairs.len(),
{
    if pairs.len() == 0 {
        Seq::empty()
    } else {
        let before = wkt_pairs_points(pairs.drop_last());
        match wkt_point(pairs.last()) {
            Some(p) => before.push(p),
            None => before,
        }
    }
}

/// What stands between the first `(` of a segment and the next `)`, if the
/// segment has both.
pub open spec fn wkt_body(segment: Seq<char>) -> Option<Seq<char>> {
    let opened = split(segment, Separator::Char('('));
    if opened.len() < 2 {
        None
    } else {
        let closed = split(opened[1], Separator::Char(')'));
        if closed.len() < 2 {
            None
        } else {
            Some(closed[0])
        }
    }
}

/// The points of one segment: those of the pairs that `,` separates in its
/// body.
pub open spec fn wkt_segment_points(segment: Seq<char>) -> Seq<LatLngView> {
    match wkt_body(segment) {
        Some(body) => wkt_pairs_points(split(body, Separator::Char(','))),
        None => Seq::empty(),
    }
}

/// The points of the segments, one segment after the other.
pub open spec fn wkt_segments_points(segments: Seq<Seq<char>>) -> Seq<LatLngView>
    decreases segments.len(),
{
    if segments.len() == 0 {
        Seq::empty()
    } else {
        wkt_segments_points(segments.drop_last()) + wkt_segment_points(segments.last())
    }
}

/// The points of a well-known text of `LINESTRING` segments.
pub open spec fn wkt_points(text: Seq<char>) -> Seq<LatLngView> {
    wkt_segments_points(split(text, Separator::Char('|')))
}

fn read_wkt_point(pair: &Vec<char>) -> (r: Option<LatLng>)
    ensures
        r.deep_view() == wkt_point(pair@),
{
    let found = split_tokens(pair);
    if found.len() != 2 {
        return None;
    }
    assert(texts(found@)[0] == found[0]@);
    assert(texts(found@)[1] == found[1]@);
    if check_float_literal(&found[0]) && check_float_literal(&found[1]) {
        Some(LatLng { lat: to_text(&found[1]), lng: to_text(&found[0]) })
    } else {
        None
    }
}

fn push_wkt_segment(points: &mut Vec<LatLng>, segment: &Vec<char>)
    ensures
        final(points).deep_view() == old(points).deep_view() + wkt_segment_points(segment@),
{
    let opened = split_on(segment, Separator::Char('('));
    if opened.len() < 2 {
        assert(points.deep_view() =~= old(points).deep_view() + wkt_segment_points(segment@));
        return ;
    }
    assert(texts(opened@)[1] == opened[1]@);
    let closed = split_on(&opened[1], Separator::Char(')'));
    if closed.len() < 2 {
        assert(points.deep_view() =~= old(points).deep_view() + wkt_segment_points(segment@));
        return ;
    }
    assert(texts(closed@)[0] == closed[0]@);
    let pairs = split_on(&closed[0], Separator::Char(','));
    let mut i: usize = 0;
    assert(texts(pairs@).take(0) =~= Seq::<Seq<char>>::empty());
    assert(points.deep_view() =~= old(points).deep_view() + wkt_pairs_points(
        texts(pairs@).take(0),
    ));
    while i < pairs.len()
        invariant
            i <= pairs.len(),
            points.deep_view() =~= old(points).deep_view() + wkt_pairs_points(
                texts(pairs@).take(i as int),
            ),
        decreases pairs.len() - i,
    {
        proof {
            let next = texts(pairs@).take(i + 1);
            assert(next.drop_last() =~= texts(pairs@).take(i as int));
            assert(next.last() == pairs[i as int]@);
        }
        let ghost before = points.deep_view();
        match read_wkt_point(&pairs[i]) {
            Some(p) => {
                points.push(p);
                assert(points.deep_view() =~= before.push(p@));
            },
            None => {},
        }
        i += 1;
    }
    assert(texts(pairs@).take(i as int) =~= texts(pairs@));
}

/// Reads the points of a well-known text of `LINESTRING` segments.
pub fn parse_wkt(text: &str) -> (points: Vec<LatLng>)
    ensures
        points.deep_view() == wkt_points(text@),
{
    let chars = to_chars(text);
    let segments = split_on(&chars, Separator::Char('|'));
    let mut points: Vec<LatLng> = Vec::new();
    let mut i: usize = 0;
    assert(texts(segments@).take(0) =~= Seq::<Seq<char>>::empty());
    assert(points.deep_view() =~= wkt_segments_points(texts(segments@).take(0)));
    while i < segments.len()
        invariant
            i <= segments.len(),
            points.deep_view() =~= wkt_segments_points(texts(segments@).take(i as int)),
        decreases segments.len() - i,
    {
        proof {
            let next = texts(segments@).take(i + 1);
            assert(next.drop_last() =~= texts(segments@).take(i as int));
            assert(next.last() == segments[i as int]@);
        }
        push_wkt_segment(&mut points, &segments[i]);
        i += 1;
    }
    assert(texts(segments@).take(i as int) =~= texts(segments@));
    points
}

/// Every point of a well-known text has coordinates that can be read as
/// numbers.
pub proof fn lemma_wkt_points_valid(text: Seq<char>)
    ensures
        forall|i: int| 0 <= i < wkt_points(text).len() ==> valid_point(#[trigger] wkt_points(text)[i]),
{
    lemma_wkt_segments_valid(split(text, Separator::Char('|')));
}

proof fn lemma_wkt_segments_valid(segments: Seq<Seq<char>>)
    ensures
        forall|i: int|
            0 <= i < wkt_segments_points(segments).len() ==> valid_point(
                #[trigger] wkt_segments_points(segments)[i],
            ),
    decreases segments.len(),
{
    if segments.len() > 0 {
        lemma_wkt_segments_valid(segments.drop_last());
        match wkt_body(segments.last()) {
            Some(body) => lemma_wkt_pairs_valid(split(body, Separator::Char(','))),
            None => {},
        }
        let before = wkt_segments_points(segments.drop_last());
        let added = wkt_segment_points(segments.last());
        assert forall|i: int| 0 <= i < wkt_segments_points(segments).len() implies valid_point(
            #[trigger] wkt_segments_points(segments)[i],
        ) by {
            if i < before.len() {
                assert(wkt_segments_points(segments)[i] == before[i]);
            } else {
                assert(wkt_segments_points(segments)[i] == added[i - before.len()]);
            }
        }
    }
}

proof fn lemma_wkt_pairs_valid(pairs: Seq<Seq<char>>)
    ensures
        forall|i: int|
            0 <= i < wkt_pairs_points(pairs).len() ==> valid_point(
                #[trigger] wkt_pairs_points(pairs)[i],
            ),
    decreases pairs.len(),
{
    if pairs.len() > 0 {
        lemma_wkt_pairs_valid(pairs.drop_last());
        let before = wkt_pairs_points(pairs.drop_last());
        assert forall|i: int| 0 <= i < wkt_pairs_points(pairs).len() implies valid_point(
            #[trigger] wkt_pairs_points(pairs)[i],
        ) by {
            if i < before.len() {
                assert(wkt_pairs_points(pairs)[i] == before[i]);
            } else {
                assert(wkt_point(pairs.last()) == Some(wkt_pairs_points(pairs)[i]));
            }
        }
    }
}

// ---------------------------------------------------------------------------
// Track lists: `lat,lng` pairs with whitespace between them.
// ---------------------------------------------------------------------------

/// The point that a pair of a track denotes: at least two parts between
/// commas, the first two floating-point literals, the latitude first.
pub open spec fn track_point(pair: Seq<char>) -> Option<LatLngView> {
    let parts = split(pair, Separator::Char(','));
    if parts.len() >= 2 && is_float_literal(parts[0]) && is_float_literal(parts[1]) {
        Some(LatLngView { lat: parts[0], lng: parts[1] })
    } else {
        None
    }
}

/// The points of the pairs that can be read, in order.
pub open spec fn track_pairs_points(pairs: Seq<Seq<char>>) -> Seq<LatLngView>
    decreases pairs.len(),
{
    if pairs.len() == 0 {
        Seq::empty()
    } else {
        let before = track_pairs_points(pairs.drop_last());
        match track_point(pairs.last()) {
            Some(p) => before.push(p),
            None => before,
        }
    }
}

/// The points of one track.
pub open spec fn track_points(track: Seq<char>) -> Seq<LatLngView> {
    track_pairs_points(tokens(track))
}

/// The points of the tracks, one track after the other.
pub open spec fn tracks_points(tracks: Seq<Seq<char>>) -> Seq<LatLngView>
    decreases tracks.len(),
{
    if tracks.len() == 0 {
        Seq::empty()
    } else {
        tracks_points(tracks.drop_last()) + track_points(tracks.last())
    }
}

fn read_track_point(pair: &Vec<char>) -> (r: Option<LatLng>)
    ensures
        r.deep_view() == track_point(pair@),
{
    let parts = split_on(pair, Separator::Char(','));
    if parts.len() < 2 {
        return None;
    }
    assert(texts(parts@)[0] == parts[0]@);
    assert(texts(parts@)[1] == parts[1]@);
    if check_float_literal(&parts[0]) && check_float_literal(&parts[1]) {
        Some(LatLng { lat: to_text(&parts[0]), lng: to_text(&parts[1]) })
    } else {
        None
    }
}

fn push_track(points: &mut Vec<LatLng>, track: &str)
    ensures
        final(points).deep_view() == old(points).deep_view() + track_points(track@),
{
    let chars = to_chars(track);
    let pairs = split_tokens(&chars);
    let mut i: usize = 0;
    assert(texts(pairs@).take(0) =~= Seq::<Seq<char>>::empty());
    assert(points.deep_view() =~= old(points).deep_view() + track_pairs_points(
        texts(pairs@).take(0),
    ));
    while i < pairs.len()
        invariant
            i <= pairs.len(),
            points.deep_view() =~= old(points).deep_view() + track_pairs_points(
                texts(pairs@).take(i as int),
            ),
        decreases pairs.len() - i,
    {
        proof {
            let next = texts(pairs@).take(i + 1);
            assert(next.drop_last() =~= texts(pairs@).take(i as int));
            assert(next.last() == pairs[i as int]@);
        }
        let ghost before = points.deep_view();
        match read_track_point(&pairs[i]) {
            Some(p) => {
                points.push(p);
                assert(points.deep_view() =~= before.push(p@));
            },
            None => {},
        }
        i += 1;
    }
    assert(texts(pairs@).take(i as int) =~= texts(pairs@));
}

/// Reads the points of a list of tracks, the tracks joined in their order.
pub fn parse_tracks(tracks: &Vec<String>) -> (points: Vec<LatLng>)
    ensures
        points.deep_view() == tracks_points(strings(tracks@)),
{
    let mut points: Vec<LatLng> = Vec::new();
    let mut i: usize = 0;
    assert(strings(tracks@).take(0) =~= Seq::<Seq<char>>::empty());
    assert(points.deep_view() =~= tracks_points(strings(tracks@).take(0)));
    while i < tracks.len()
        invariant
            i <= tracks.len(),
            points.deep_view() =~= tracks_points(strings(tracks@).take(i as int)),
        decreases tracks.len() - i,
    {
        proof {
            let next = strings(tracks@).take(i + 1);
            assert(next.drop_last() =~= strings(tracks@).take(i as int));
            assert(next.last() == tracks[i as int]@);
        }
        push_track(&mut points, tracks[i].as_str());
        i += 1;
    }
    assert(strings(tracks@).take(i as int) =~= strings(tracks@));
    points
}

/// Every point of a list of tracks has coordinates that can be read as
/// numbers.
pub proof fn lemma_tracks_points_valid(tracks: Seq<Seq<char>>)
    ensures
        forall|i: int|
            0 <= i < tracks_points(tracks).len() ==> valid_point(#[trigger] tracks_points(tracks)[i]),
    decreases tracks.len(),
{
    if tracks.len() > 0 {
        lemma_tracks_points_valid(tracks.drop_last());
        lemma_track_pairs_valid(tokens(tracks.last()));
        let before = tracks_points(tracks.drop_last());
        let added = track_points(tracks.last());
        assert forall|i: int| 0 <= i < tracks_points(tracks).len() implies valid_point(
            #[trigger] tracks_points(tracks)[i],
        ) by {
            if i < before.len() {
                assert(tracks_points(tracks)[i] == before[i]);
            } else {
                assert(tracks_points(tracks)[i] == added[i - before.len()]);
            }
        }
    }
}

proof fn lemma_track_pairs_valid(pairs: Seq<Seq<char>>)
    ensures
        forall|i: int|
            0 <= i < track_pairs_points(pairs).len() ==> valid_point(
                #[trigger] track_pairs_points(pairs)[i],
            ),
    decreases pairs.len(),
{
    if pairs.len() > 0 {
        lemma_track_pairs_valid(pairs.drop_last());
        let before = track_pairs_points(pairs.drop_last());
        assert forall|i: int| 0 <= i < track_pairs_points(pairs).len() implies valid_point(
            #[trigger] track_pairs_points(pairs)[i],
        ) by {
            if i < before.len() {
                assert(track_pairs_points(pairs)[i] == before[i]);
            } else {
                assert(track_point(pairs.last()) == Some(track_pairs_points(pairs)[i]));
            }
        }
    }
}

// ---------------------------------------------------------------------------
// `MultiLineString` coordinates: lines of positions of numbers.
// ---------------------------------------------------------------------------

/// The point that a position denotes: at least two numbers, the first two
/// floating-point literals, the longitude first.
pub open spec fn position_point(position: Seq<Seq<char>>) -> Option<LatLngView> {
    if position.len() >= 2 && is_float_literal(position[0]) && is_float_literal(position[1]) {
        Some(LatLngView { lat: position[1], lng: position[0] })
    } else {
        None
    }
}

/// The points of the positions that can be read, in order.
pub open spec fn positions_points(positions: Seq<Seq<Seq<char>>>) -> Seq<LatLngView>
    decreases positions.len(),
{
    if positions.len() == 0 {
        Seq::empty()
    } else {
        let before = positions_points(positions.drop_last());
        match position_point(positions.last()) {
            Some(p) => before.push(p),
            None => before,
        }
    }
}

/// The points of the lines, one line after the other: one level of nesting
/// less.
pub open spec fn multiline_points(lines: Seq<Seq<Seq<Seq<char>>>>) -> Seq<LatLngView>
    decreases lines.len(),
{
    if lines.len() == 0 {
        Seq::empty()
    } else {
        multiline_points(lines.drop_last()) + positions_points(lines.last())
    }
}

fn read_position(position: &Vec<String>) -> (r: Option<LatLng>)
    ensures
        r.deep_view() == position_point(position.deep_view()),
{
    if position.len() < 2 {
        return None;
    }
    let first = to_chars(position[0].as_str());
    let second = to_chars(position[1].as_str());
    assert(position.deep_view()[0] == position[0]@);
    assert(position.deep_view()[1] == position[1]@);
    if check_float_literal(&first) && check_float_literal(&second) {
        Some(LatLng { lat: to_text(&second), lng: to_text(&first) })
    } else {
        None
    }
}

fn push_positions(points: &mut Vec<LatLng>, positions: &Vec<Vec<String>>)
    ensures
        final(points).deep_view() == old(points).deep_view() + positions_points(
            positions.deep_view(),
        ),
{
    let mut i: usize = 0;
    assert(positions.deep_view().take(0) =~= Seq::<Seq<Seq<char>>>::empty());
    assert(points.deep_view() =~= old(points).deep_view() + positions_points(
        positions.deep_view().take(0),
    ));
    while i < positions.len()
        invariant
            i <= positions.len(),
            points.deep_view() =~= old(points).deep_view() + positions_points(
                positions.deep_view().take(i as int),
            ),
        decreases positions.len() - i,
    {
        proof {
            let next = positions.deep_view().take(i + 1);
            assert(next.drop_last() =~= positions.deep_view().take(i as int));
            assert(next.last() == positions[i as int].deep_view());
        }
        let ghost before = points.deep_view();
        match read_position(&positions[i]) {
            Some(p) => {
                points.push(p);
                assert(points.deep_view() =~= before.push(p@));
            },
            None => {},
        }
        i += 1;
    }
    assert(positions.deep_view().take(i as int) =~= positions.deep_view());
}

/// Flattens the coordinates of a `MultiLineString` into one list of points.
pub fn flatten_multiline(coordinates: &Vec<Vec<Vec<String>>>) -> (points: Vec<LatLng>)
    ensures
        points.deep_view() == multiline_points(coordinates.deep_view()),
{
    let mut points: Vec<LatLng> = Vec::new();
    append_multiline(&mut points, coordinates);
    assert(points.deep_view() =~= multiline_points(coordinates.deep_view()));
    points
}

/// Appends the points of a `MultiLineString` to those already gathered.
pub fn append_multiline(points: &mut Vec<LatLng>, coordinates: &Vec<Vec<Vec<String>>>)
    ensures
        final(points).deep_view() == old(points).deep_view() + multiline_points(
            coordinates.deep_view(),
        ),
{
    let mut i: usize = 0;
    assert(coordinates.deep_view().take(0) =~= Seq::<Seq<Seq<Seq<char>>>>::empty());
    assert(points.deep_view() =~= old(points).deep_view() + multiline_points(
        coordinates.deep_view().take(0),
    ));
    while i < coordinates.len()
        invariant
            i <= coordinates.len(),
            points.deep_view() =~= old(points).deep_view() + multiline_points(
                coordinates.deep_view().take(i as int),
            ),
        decreases coordinates.len() - i,
    {
        proof {
            let next = coordinates.deep_view().take(i + 1);
            assert(next.drop_last() =~= coordinates.deep_view().take(i as int));
            assert(next.last() == coordinates[i as int].deep_view());
        }
        push_positions(points, &coordinates[i]);
        i += 1;
    }
    assert(coordinates.deep_view().take(i as int) =~= coordinates.deep_view());
}

/// Every point of a `MultiLineString` has coordinates that can be read as
/// numbers.
pub proof fn lemma_multiline_points_valid(lines: Seq<Seq<Seq<Seq<char>>>>)
    ensures
        forall|i: int|
            0 <= i < multiline_points(lines).len() ==> valid_point(
                #[trigger] multiline_points(lines)[i],
            ),
    decreases lines.len(),
{
    if lines.len() > 0 {
        lemma_multiline_points_valid(lines.drop_last());
        lemma_positions_points_valid(lines.last());
        let before = multiline_points(lines.drop_last());
        let added = positions_points(lines.last());
        assert forall|i: int| 0 <= i < multiline_points(lines).len() implies valid_point(
            #[trigger] multiline_points(lines)[i],
        ) by {
            if i < before.len() {
                assert(multiline_points(lines)[i] == before[i]);
            } else {
                assert(multiline_points(lines)[i] == added[i - before.len()]);
            }
        }
    }
}

proof fn lemma_positions_points_valid(positions: Seq<Seq<Seq<char>>>)
    ensures
        forall|i: int|
            0 <= i < positions_points(positions).len() ==> valid_point(
                #[trigger] positions_points(positions)[i],
            ),
    decreases positions.len(),
{
    if positions.len() > 0 {
        lemma_positions_points_valid(positions.drop_last());
        let before = positions_points(positions.drop_last());
        assert forall|i: int| 0 <= i < positions_points(positions).len() implies valid_point(
            #[trigger] positions_points(positions)[i],
        ) by {
            if i < before.len() {
                assert(positions_points(positions)[i] == before[i]);
            } else {
                assert(position_point(positions.last()) == Some(positions_points(positions)[i]));
            }
        }
    }
}

} // verus!
