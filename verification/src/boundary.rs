//! From a volume's boundary to the points of its outline.
//!
//! A boundary is first read into steps: points, full rings, and sweeps about
//! a centre. Where things stand on the ground at a bearing is not worked out
//! here: the caller samples the rings and sweeps at the bearings given, and
//! the samples are then put together into the outline.

use crate::error::ConversionError;
use crate::geo::{
    distance_fits, is_distance, is_latlon, lat_seconds, latlon_to_degrees, lon_seconds,
    magnitude_places, radius_to_metres, scaled_metres, LatLon, Metres,
};
use crate::yaixm::{Arc, Boundary, Circle};
use vstd::prelude::*;
use vstd::string::*;

verus! {

/// One step of an outline.
#[derive(Clone, Copy, Debug, PartialEq, Eq, Structural)]
pub enum Step {
    /// A corner.
    Point(LatLon),
    /// A full circle about `centre`.
    Ring { centre: LatLon, radius: Metres },
    /// A part of a circle about `centre`, from the point reached so far to `to`.
    Sweep { centre: LatLon, radius: Metres, from: LatLon, to: LatLon, clockwise: bool },
}

/// The steps read so far, and the point that an arc would start from.
pub struct Plan {
    pub steps: Seq<Step>,
    pub cursor: Option<LatLon>,
}

/// What a position literal reads as, where it is one.
pub open spec fn position(s: Seq<char>) -> Option<LatLon> {
    if is_latlon(s) {
        Some(LatLon { lat: lat_seconds(s) as i32, lon: lon_seconds(s) as i32 })
    } else {
        None
    }
}

/// What a distance literal reads as, where it is one and can be held.
pub open spec fn distance(s: Seq<char>) -> Option<Metres> {
    if is_distance(s) && distance_fits(s) {
        Some(Metres { scaled: scaled_metres(s) as u64, places: magnitude_places(s) as u32 })
    } else {
        None
    }
}

/// The direction literal is `cw`.
pub open spec fn is_clockwise(dir: Seq<char>) -> bool {
    dir =~= seq!['c', 'w']
}

/// The corners of a line, or nothing where a literal is malformed.
pub open spec fn corners(literals: Seq<String>) -> Option<Seq<LatLon>>
    decreases literals.len(),
{
    if literals.len() == 0 {
        Some(Seq::empty())
    } else {
        match (corners(literals.drop_last()), position(literals.last()@)) {
            (Some(earlier), Some(p)) => Some(earlier.push(p)),
            _ => None,
        }
    }
}

/// The plan with a line behind it: its corners become points, and the last
/// of them the cursor.
pub open spec fn after_line(plan: Plan, literals: Seq<String>) -> Result<Plan, ConversionError> {
    match corners(literals) {
        Some(points) => Ok(
            Plan {
                steps: plan.steps + points.map_values(|p: LatLon| Step::Point(p)),
                cursor: if points.len() > 0 {
                    Some(points.last())
                } else {
                    plan.cursor
                },
            },
        ),
        None => Err(ConversionError::MalformedCoordinate),
    }
}

/// The plan with a circle behind it. A circle leaves no point to start an
/// arc from.
pub open spec fn after_circle(plan: Plan, circle: Circle) -> Result<Plan, ConversionError> {
    match position(circle.centre@) {
        None => Err(ConversionError::MalformedCoordinate),
        Some(centre) => match distance(circle.radius@) {
            None => Err(ConversionError::MalformedDistance),
            Some(radius) => Ok(Plan { steps: plan.steps.push(Step::Ring { centre, radius }), cursor: None }),
        },
    }
}

/// The plan with an arc behind it. The arc starts at the cursor and ends
/// at `to`, which becomes the cursor.
pub open spec fn after_arc(plan: Plan, arc: Arc) -> Result<Plan, ConversionError> {
    match plan.cursor {
        None => Err(ConversionError::AmbiguousArcStart),
        Some(from) => match (position(arc.centre@), position(arc.to@)) {
            (Some(centre), Some(to)) => match distance(arc.radius@) {
                None => Err(ConversionError::MalformedDistance),
                Some(radius) => Ok(
                    Plan {
                        steps: plan.steps.push(
                            Step::Sweep { centre, radius, from, to, clockwise: is_clockwise(arc.dir@) },
                        ),
                        cursor: Some(to),
                    },
                ),
            },
            _ => Err(ConversionError::MalformedCoordinate),
        },
    }
}

/// The plan with one more segment behind it.
pub open spec fn after_segment(plan: Plan, segment: Boundary) -> Result<Plan, ConversionError> {
    match segment {
        Boundary::Line(literals) => after_line(plan, literals@),
        Boundary::Circle(circle) => after_circle(plan, circle),
        Boundary::Arc(arc) => after_arc(plan, arc),
    }
}

/// The plan of a boundary, read segment by segment; the first segment that
/// cannot be read decides the error.
pub open spec fn planned(boundary: Seq<Boundary>) -> Result<Plan, ConversionError>
    decreases boundary.len(),
{
    if boundary.len() == 0 {
        Ok(Plan { steps: Seq::empty(), cursor: None })
    } else {
        match planned(boundary.drop_last()) {
            Ok(plan) => after_segment(plan, boundary.last()),
            Err(e) => Err(e),
        }
    }
}

/// The steps of a boundary.
pub open spec fn planned_steps(boundary: Seq<Boundary>) -> Result<Seq<Step>, ConversionError> {
    match planned(boundary) {
        Ok(plan) => Ok(plan.steps),
        Err(e) => Err(e),
    }
}

/// Reads a position literal.
fn read_position(literal: &String) -> (res: Option<LatLon>)
    ensures
        res == position(literal@),
{
    match latlon_to_degrees(literal.as_str()) {
        Ok(p) => Some(p),
        Err(_) => None,
    }
}

/// Reads a distance literal.
fn read_distance(literal: &String) -> (res: Option<Metres>)
    ensures
        res == distance(literal@),
{
    match radius_to_metres(literal.as_str()) {
        Ok(d) => Some(d),
        Err(_) => None,
    }
}

/// Whether the direction literal is `cw`.
fn read_clockwise(dir: &String) -> (b: bool)
    ensures
        b == is_clockwise(dir@),
{
    let s = dir.as_str();
    s.unicode_len() == 2 && s.get_char(0) == 'c' && s.get_char(1) == 'w'
}

/// Puts the corners of a line behind `steps`. Gives the last corner, if
/// the line has one, or fails on the first malformed literal.
fn plan_line(steps: &mut Vec<Step>, literals: &Vec<String>) -> (res: Option<Option<LatLon>>)
    ensures
        res is Some <==> corners(literals@) is Some,
        res matches Some(last) ==> {
            let points = corners(literals@)->0;
            &&& final(steps)@ == old(steps)@ + points.map_values(|p: LatLon| Step::Point(p))
            &&& last == if points.len() > 0 {
                Some(points.last())
            } else {
                None::<LatLon>
            }
        },
{
    let mut last: Option<LatLon> = None;
    let mut i: usize = 0;
    assert(literals@.take(0) =~= Seq::<String>::empty());
    assert(steps@ =~= old(steps)@ + Seq::<LatLon>::empty().map_values(|p: LatLon| Step::Point(p)));
    while i < literals.len()
        invariant
            i <= literals@.len(),
            corners(literals@.take(i as int)) is Some,
            steps@ == old(steps)@ + corners(literals@.take(i as int))->0.map_values(
                |p: LatLon| Step::Point(p),
            ),
            last == if corners(literals@.take(i as int))->0.len() > 0 {
                Some(corners(literals@.take(i as int))->0.last())
            } else {
                None::<LatLon>
            },
        decreases literals@.len() - i,
    {
        proof {
            let next = literals@.take(i + 1);
            assert(next.drop_last() =~= literals@.take(i as int));
            assert(next.last() == literals@[i as int]);
        }
        match read_position(&literals[i]) {
            Some(p) => {
                let ghost before = corners(literals@.take(i as int))->0;
                steps.push(Step::Point(p));
                last = Some(p);
                assert(steps@ =~= old(steps)@ + before.push(p).map_values(
                    |p: LatLon| Step::Point(p),
                ));
            },
            None => {
                proof {
                    lemma_corners_prefix(literals@, i + 1);
                }
                return None;
            },
        }
        i += 1;
    }
    assert(literals@.take(literals@.len() as int) =~= literals@);
    Some(last)
}

/// A line whose beginning cannot be read cannot be read.
pub proof fn lemma_corners_prefix(literals: Seq<String>, n: int)
    requires
        0 <= n <= literals.len(),
        corners(literals.take(n)) is None,
    ensures
        corners(literals) is None,
    decreases literals.len(),
{
    if n < literals.len() {
        assert(literals.drop_last().take(n) =~= literals.take(n));
        lemma_corners_prefix(literals.drop_last(), n);
    } else {
        assert(literals.take(n) =~= literals);
    }
}

/// A boundary whose beginning cannot be read fails with the same error.
pub proof fn lemma_planned_prefix(boundary: Seq<Boundary>, n: int)
    requires
        0 <= n <= boundary.len(),
        planned(boundary.take(n)) is Err,
    ensures
        planned(boundary) == planned(boundary.take(n)),
    decreases boundary.len(),
{
    if n < boundary.len() {
        assert(boundary.drop_last().take(n) =~= boundary.take(n));
        lemma_planned_prefix(boundary.drop_last(), n);
    } else {
        assert(boundary.take(n) =~= boundary);
    }
}

/// Reads a boundary into steps.
///
/// Fails with the error of the first segment that cannot be read: a
/// malformed literal, or an arc where no line or arc before it has left a
/// point to start from.
pub fn plan(boundary: &Vec<Boundary>) -> (res: Result<Vec<Step>, ConversionError>)
    ensures
        match planned_steps(boundary@) {
            Ok(steps) => res is Ok && res->Ok_0@ == steps,
            Err(e) => res == Err::<Vec<Step>, ConversionError>(e),
        },
{
    let mut steps: Vec<Step> = Vec::new();
    let mut cursor: Option<LatLon> = None;
    let mut i: usize = 0;
    assert(boundary@.take(0) =~= Seq::<Boundary>::empty());
    while i < boundary.len()
        invariant
            i <= boundary@.len(),
            planned(boundary@.take(i as int)) == Ok::<Plan, ConversionError>(
                Plan { steps: steps@, cursor },
            ),
        decreases boundary@.len() - i,
    {
        proof {
            let next = boundary@.take(i + 1);
            assert(next.drop_last() =~= boundary@.take(i as int));
            assert(next.last() == boundary@[i as int]);
        }
        let ghost before = Plan { steps: steps@, cursor };
        let outcome: Result<Option<LatLon>, ConversionError> = match &boundary[i] {
            Boundary::Line(literals) => {
                match plan_line(&mut steps, literals) {
                    Some(Some(p)) => Ok(Some(p)),
                    Some(None) => Ok(cursor),
                    None => Err(ConversionError::MalformedCoordinate),
                }
            },
            Boundary::Circle(circle) => {
                match read_position(&circle.centre) {
                    None => Err(ConversionError::MalformedCoordinate),
                    Some(centre) => match read_distance(&circle.radius) {
                        None => Err(ConversionError::MalformedDistance),
                        Some(radius) => {
                            steps.push(Step::Ring { centre, radius });
                            Ok(None)
                        },
                    },
                }
            },
            Boundary::Arc(arc) => {
                match cursor {
                    None => Err(ConversionError::AmbiguousArcStart),
                    Some(from) => match (read_position(&arc.centre), read_position(&arc.to)) {
                        (Some(centre), Some(to)) => match read_distance(&arc.radius) {
                            None => Err(ConversionError::MalformedDistance),
                            Some(radius) => {
                                let clockwise = read_clockwise(&arc.dir);
                                steps.push(Step::Sweep { centre, radius, from, to, clockwise });
                                Ok(Some(to))
                            },
                        },
                        _ => Err(ConversionError::MalformedCoordinate),
                    },
                }
            },
        };
        match outcome {
            Ok(next_cursor) => {
                cursor = next_cursor;
                assert(after_segment(before, boundary@[i as int]) == Ok::<Plan, ConversionError>(
                    Plan { steps: steps@, cursor },
                ));
            },
            Err(e) => {
                proof {
                    assert(after_segment(before, boundary@[i as int]) == Err::<
                        Plan,
                        ConversionError,
                    >(e));
                    lemma_planned_prefix(boundary@, i + 1);
                }
                return Err(e);
            },
        }
        i += 1;
    }
    assert(boundary@.take(boundary@.len() as int) =~= boundary@);
    Ok(steps)
}

/// The number of samples that a ring is made of, one to the degree.
pub const RING_SAMPLES: usize = 360;

/// The bearings at which a ring is sampled: every whole degree once, from
/// north clockwise.
pub fn ring_bearings() -> (bearings: Vec<u16>)
    ensures
        bearings@.len() == RING_SAMPLES,
        forall|i: int| 0 <= i < bearings@.len() ==> #[trigger] bearings@[i] == i,
{
    let mut bearings: Vec<u16> = Vec::new();
    let mut b: u16 = 0;
    while b < 360
        invariant
            b <= 360,
            bearings@.len() == b,
            forall|i: int| 0 <= i < b ==> #[trigger] bearings@[i] == i,
        decreases 360 - b,
    {
        bearings.push(b);
        b += 1;
    }
    bearings
}

/// How many whole degrees lie strictly between two bearings, going one way
/// round. Equal bearings have none between them.
pub open spec fn sweep_len(from: int, to: int, clockwise: bool) -> int {
    let turn = if clockwise {
        (to + 360 - from) % 360
    } else {
        (from + 360 - to) % 360
    };
    if turn == 0 {
        0
    } else {
        turn - 1
    }
}

/// The bearing of the sample with the given index, counted from the start
/// of the sweep.
pub open spec fn sweep_bearing(from: int, clockwise: bool, index: int) -> int {
    if clockwise {
        (from + 1 + index) % 360
    } else {
        (from + 359 - index) % 360
    }
}

/// The whole degrees at which a sweep is sampled: those strictly between
/// the bearing it starts at and the bearing it ends at, in the order in
/// which the sweep passes them. Bearings count from north, clockwise, and
/// are taken modulo 360.
pub fn sweep_bearings(from: u16, to: u16, clockwise: bool) -> (bearings: Vec<u16>)
    ensures
        bearings@.len() == sweep_len(from as int % 360, to as int % 360, clockwise),
        forall|i: int|
            0 <= i < bearings@.len() ==> #[trigger] bearings@[i] == sweep_bearing(
                from as int % 360,
                clockwise,
                i,
            ),
{
    let start: u16 = from % 360;
    let end: u16 = to % 360;
    let turn: u16 = if clockwise {
        (end + 360 - start) % 360
    } else {
        (start + 360 - end) % 360
    };
    let count: u16 = if turn == 0 {
        0
    } else {
        turn - 1
    };
    let mut bearings: Vec<u16> = Vec::new();
    let mut i: u16 = 0;
    while i < count
        invariant
            i <= count < 360,
            start < 360,
            bearings@.len() == i,
            forall|k: int|
                0 <= k < i ==> #[trigger] bearings@[k] == sweep_bearing(start as int, clockwise, k),
        decreases count - i,
    {
        let bearing: u16 = if clockwise {
            (start + 1 + i) % 360
        } else {
            (start + 359 - i) % 360
        };
        bearings.push(bearing);
        i += 1;
    }
    bearings
}

/// The points that one step gives, with its samples. A point needs none.
/// A ring needs one sample per degree, from north clockwise, and ends on
/// its first sample again. A sweep is its samples and then its end point.
pub open spec fn step_points(step: Step, samples: Seq<LatLon>) -> Option<Seq<LatLon>> {
    match step {
        Step::Point(p) => Some(seq![p]),
        Step::Ring { .. } => if samples.len() == RING_SAMPLES {
            Some(samples.push(samples[0]))
        } else {
            None
        },
        Step::Sweep { to, .. } => Some(samples.push(to)),
    }
}

/// The points of the steps, one step after the other. There is none where
/// the samples do not fit the steps.
pub open spec fn traced(steps: Seq<Step>, samples: Seq<Vec<LatLon>>) -> Option<Seq<LatLon>>
    decreases steps.len(),
{
    if steps.len() != samples.len() {
        None
    } else if steps.len() == 0 {
        Some(Seq::empty())
    } else {
        match (
            traced(steps.drop_last(), samples.drop_last()),
            step_points(steps.last(), samples.last()@),
        ) {
            (Some(earlier), Some(points)) => Some(earlier + points),
            _ => None,
        }
    }
}

/// The points as a closed ring: where the last is not the first, the first
/// is put behind it.
pub open spec fn closed(points: Seq<LatLon>) -> Seq<LatLon> {
    if points.len() > 0 && points.last() != points.first() {
        points.push(points.first())
    } else {
        points
    }
}

/// The points of an outline: those of its steps, closed to a ring.
pub open spec fn outline_points(steps: Seq<Step>, samples: Seq<Vec<LatLon>>) -> Option<Seq<LatLon>> {
    match traced(steps, samples) {
        Some(points) => Some(closed(points)),
        None => None,
    }
}

/// Steps whose beginning has no points have none.
pub proof fn lemma_traced_prefix(steps: Seq<Step>, samples: Seq<Vec<LatLon>>, n: int)
    requires
        steps.len() == samples.len(),
        0 <= n <= steps.len(),
        traced(steps.take(n), samples.take(n)) is None,
    ensures
        traced(steps, samples) is None,
    decreases steps.len(),
{
    if n < steps.len() {
        assert(steps.drop_last().take(n) =~= steps.take(n));
        assert(samples.drop_last().take(n) =~= samples.take(n));
        lemma_traced_prefix(steps.drop_last(), samples.drop_last(), n);
    } else {
        assert(steps.take(n) =~= steps);
        assert(samples.take(n) =~= samples);
    }
}

/// A sampled ring is closed: it has one point more than it has samples,
/// and its last point is its first.
pub proof fn lemma_ring_is_closed(centre: LatLon, radius: Metres, samples: Seq<LatLon>)
    requires
        samples.len() == RING_SAMPLES,
    ensures
        step_points(Step::Ring { centre, radius }, samples) is Some,
        step_points(Step::Ring { centre, radius }, samples)->0.len() == RING_SAMPLES + 1,
        step_points(Step::Ring { centre, radius }, samples)->0.first() == step_points(
            Step::Ring { centre, radius },
            samples,
        )->0.last(),
{
}

/// Every outline is a closed ring: its last point is its first.
pub proof fn lemma_outline_is_closed(steps: Seq<Step>, samples: Seq<Vec<LatLon>>)
    requires
        outline_points(steps, samples) is Some,
        outline_points(steps, samples)->0.len() > 0,
    ensures
        outline_points(steps, samples)->0.first() == outline_points(steps, samples)->0.last(),
{
}

/// The outline of a boundary that is one circle has one point for each
/// sample and one more that closes it, the same as the first.
pub proof fn lemma_circle_outline_is_closed(
    centre: LatLon,
    radius: Metres,
    samples: Seq<Vec<LatLon>>,
)
    requires
        samples.len() == 1,
        samples[0]@.len() == RING_SAMPLES,
    ensures
        outline_points(seq![Step::Ring { centre, radius }], samples) is Some,
        outline_points(seq![Step::Ring { centre, radius }], samples)->0.len() == RING_SAMPLES + 1,
        outline_points(seq![Step::Ring { centre, radius }], samples)->0.first() == outline_points(
            seq![Step::Ring { centre, radius }],
            samples,
        )->0.last(),
{
    let steps = seq![Step::Ring { centre, radius }];
    assert(steps.drop_last() =~= Seq::<Step>::empty());
    assert(traced(steps.drop_last(), samples.drop_last()) == Some(Seq::<LatLon>::empty()));
    let ring = step_points(steps.last(), samples.last()@)->0;
    assert(traced(steps, samples)->0 =~= ring);
    assert(closed(ring) == ring);
}

/// Puts the steps and their samples together into the points of the
/// outline, and closes it.
///
/// `samples` holds one list for each step: for a ring its `RING_SAMPLES`
/// positions, for a sweep the positions at its bearings, for a point
/// anything, as it is not read.
pub fn assemble(steps: &Vec<Step>, samples: &Vec<Vec<LatLon>>) -> (res: Option<Vec<LatLon>>)
    ensures
        res is Some <==> outline_points(steps@, samples@) is Some,
        res matches Some(points) ==> points@ == outline_points(steps@, samples@)->0,
{
    match trace(steps, samples) {
        Some(mut points) => {
            let n = points.len();
            if n > 0 && points[n - 1] != points[0] {
                let first = points[0];
                points.push(first);
            }
            Some(points)
        },
        None => None,
    }
}

/// Puts the steps and their samples together, one step after the other.
fn trace(steps: &Vec<Step>, samples: &Vec<Vec<LatLon>>) -> (res: Option<Vec<LatLon>>)
    ensures
        res is Some <==> traced(steps@, samples@) is Some,
        res matches Some(points) ==> points@ == traced(steps@, samples@)->0,
{
    if steps.len() != samples.len() {
        return None;
    }
    let mut points: Vec<LatLon> = Vec::new();
    let mut i: usize = 0;
    assert(steps@.take(0) =~= Seq::<Step>::empty());
    while i < steps.len()
        invariant
            i <= steps@.len() == samples@.len(),
            traced(steps@.take(i as int), samples@.take(i as int)) == Some(points@),
        decreases steps@.len() - i,
    {
        proof {
            let next = steps@.take(i + 1);
            assert(next.drop_last() =~= steps@.take(i as int));
            assert(next.last() == steps@[i as int]);
            let next_samples = samples@.take(i + 1);
            assert(next_samples.drop_last() =~= samples@.take(i as int));
            assert(next_samples.last() == samples@[i as int]);
        }
        let ghost before = points@;
        match steps[i] {
            Step::Point(p) => {
                points.push(p);
                assert(points@ =~= before + seq![p]);
            },
            Step::Ring { .. } => {
                if samples[i].len() != RING_SAMPLES {
                    proof {
                        lemma_traced_prefix(steps@, samples@, i + 1);
                    }
                    return None;
                }
                push_all(&mut points, &samples[i]);
                points.push(samples[i][0]);
                assert(points@ =~= before + samples@[i as int]@.push(samples@[i as int]@[0]));
            },
            Step::Sweep { to, .. } => {
                push_all(&mut points, &samples[i]);
                points.push(to);
                assert(points@ =~= before + samples@[i as int]@.push(to));
            },
        }
        i += 1;
    }
    assert(steps@.take(steps@.len() as int) =~= steps@);
    assert(samples@.take(samples@.len() as int) =~= samples@);
    Some(points)
}

/// Puts a copy of each of `more` behind `points`.
fn push_all(points: &mut Vec<LatLon>, more: &Vec<LatLon>)
    ensures
        final(points)@ == old(points)@ + more@,
{
    let mut i: usize = 0;
    assert(points@ =~= old(points)@ + more@.take(0));
    while i < more.len()
        invariant
            i <= more@.len(),
            points@ == old(points)@ + more@.take(i as int),
        decreases more@.len() - i,
    {
        points.push(more[i]);
        assert(points@ =~= old(points)@ + more@.take(i + 1));
        i += 1;
    }
    assert(more@.take(more@.len() as int) =~= more@);
}

/// An outline as it is written: a circle by centre and radius, or a polygon
/// by its points.
#[derive(Clone, Debug, PartialEq, Eq)]
pub enum Shape {
    Circle { centre: LatLon, radius: Metres },
    Polygon(Vec<LatLon>),
}

/// The steps are one ring and nothing else.
pub open spec fn is_lone_ring(steps: Seq<Step>) -> bool {
    steps.len() == 1 && steps[0] is Ring
}

/// Gives the shape of an outline. A boundary that is one circle and
/// nothing else stays a circle, and its samples are not read; anything
/// else becomes the polygon of its points.
pub fn shape(steps: &Vec<Step>, samples: &Vec<Vec<LatLon>>) -> (res: Option<Shape>)
    ensures
        is_lone_ring(steps@) ==> res == Some(
            Shape::Circle { centre: steps@[0]->Ring_centre, radius: steps@[0]->Ring_radius },
        ),
        !is_lone_ring(steps@) ==> (res is Some <==> outline_points(steps@, samples@) is Some),
        !is_lone_ring(steps@) ==> (res matches Some(s) ==> s matches Shape::Polygon(points)
            && points@ == outline_points(steps@, samples@)->0),
{
    if steps.len() == 1 {
        match steps[0] {
            Step::Ring { centre, radius } => {
                return Some(Shape::Circle { centre, radius });
            },
            _ => {},
        }
    }
    match assemble(steps, samples) {
        Some(points) => Some(Shape::Polygon(points)),
        None => None,
    }
}

} // verus!
