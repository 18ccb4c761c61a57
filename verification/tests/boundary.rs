use asselect::boundary::{
    assemble, plan, ring_bearings, shape, sweep_bearings, Shape, Step, RING_SAMPLES,
};
use asselect::error::ConversionError;
use asselect::geo::{LatLon, Metres};
use asselect::yaixm::{Arc, Boundary, Circle};

const HERE: &str = "515812N 0001550W";
const THERE: &str = "520000N 0010000E";
const YONDER: &str = "500000S 0000001W";

fn at(lat: i32, lon: i32) -> LatLon {
    LatLon { lat, lon }
}

fn here() -> LatLon {
    at(187092, -950)
}

fn there() -> LatLon {
    at(187200, 3600)
}

fn yonder() -> LatLon {
    at(-180000, -1)
}

fn five_nm() -> Metres {
    Metres { scaled: 9260, places: 0 }
}

fn line(points: &[&str]) -> Boundary {
    Boundary::Line(points.iter().map(|p| p.to_string()).collect())
}

fn circle(centre: &str, radius: &str) -> Boundary {
    Boundary::Circle(Circle { centre: centre.to_string(), radius: radius.to_string() })
}

fn arc(centre: &str, dir: &str, radius: &str, to: &str) -> Boundary {
    Boundary::Arc(Arc {
        centre: centre.to_string(),
        dir: dir.to_string(),
        radius: radius.to_string(),
        to: to.to_string(),
    })
}

#[test]
fn plan_of_nothing_is_empty() {
    assert_eq!(plan(&Vec::new()), Ok(Vec::new()));
    assert_eq!(plan(&vec![line(&[])]), Ok(Vec::new()));
}

#[test]
fn plan_of_a_line_is_its_points_in_order() {
    assert_eq!(
        plan(&vec![line(&[HERE, THERE]), line(&[YONDER])]),
        Ok(vec![Step::Point(here()), Step::Point(there()), Step::Point(yonder())])
    );
}

#[test]
fn plan_of_a_circle_is_a_ring() {
    assert_eq!(
        plan(&vec![circle(HERE, "5 nm")]),
        Ok(vec![Step::Ring { centre: here(), radius: five_nm() }])
    );
}

#[test]
fn plan_of_an_arc_starts_where_the_line_ended() {
    assert_eq!(
        plan(&vec![line(&[HERE, THERE]), arc(HERE, "cw", "5 nm", YONDER)]),
        Ok(vec![
            Step::Point(here()),
            Step::Point(there()),
            Step::Sweep { centre: here(), radius: five_nm(), from: there(), to: yonder(), clockwise: true },
        ])
    );
}

#[test]
fn plan_of_an_arc_after_an_arc_starts_where_that_one_ended() {
    assert_eq!(
        plan(&vec![line(&[HERE]), arc(THERE, "ccw", "3 km", YONDER), line(&[]), arc(YONDER, "cw", "5 nm", HERE)]),
        Ok(vec![
            Step::Point(here()),
            Step::Sweep {
                centre: there(),
                radius: Metres { scaled: 3000, places: 0 },
                from: here(),
                to: yonder(),
                clockwise: false,
            },
            Step::Sweep { centre: yonder(), radius: five_nm(), from: yonder(), to: here(), clockwise: true },
        ])
    );
}

#[test]
fn arc_direction_other_than_cw_is_counter_clockwise() {
    for dir in ["ccw", "CW", "cw ", "", "clockwise"] {
        let steps = plan(&vec![line(&[HERE]), arc(THERE, dir, "5 nm", YONDER)]).unwrap();
        assert_eq!(
            steps[1],
            Step::Sweep { centre: there(), radius: five_nm(), from: here(), to: yonder(), clockwise: false }
        );
    }
}

#[test]
fn arc_with_nothing_before_it_is_ambiguous() {
    assert_eq!(plan(&vec![arc(HERE, "cw", "5 nm", THERE)]), Err(ConversionError::AmbiguousArcStart));
    assert_eq!(
        plan(&vec![line(&[]), arc(HERE, "cw", "5 nm", THERE)]),
        Err(ConversionError::AmbiguousArcStart)
    );
    assert_eq!(
        plan(&vec![arc("nonsense", "cw", "nonsense", "nonsense")]),
        Err(ConversionError::AmbiguousArcStart)
    );
}

#[test]
fn arc_after_a_circle_is_ambiguous() {
    assert_eq!(
        plan(&vec![line(&[HERE]), circle(HERE, "5 nm"), arc(HERE, "cw", "5 nm", THERE)]),
        Err(ConversionError::AmbiguousArcStart)
    );
}

#[test]
fn malformed_position_fails_the_plan() {
    assert_eq!(plan(&vec![line(&[HERE, "515812N0001550W"])]), Err(ConversionError::MalformedCoordinate));
    assert_eq!(plan(&vec![circle("", "5 nm")]), Err(ConversionError::MalformedCoordinate));
    assert_eq!(
        plan(&vec![line(&[HERE]), arc("x", "cw", "5 nm", THERE)]),
        Err(ConversionError::MalformedCoordinate)
    );
    assert_eq!(
        plan(&vec![line(&[HERE]), arc(HERE, "cw", "5 nm", "x")]),
        Err(ConversionError::MalformedCoordinate)
    );
}

#[test]
fn malformed_distance_fails_the_plan() {
    assert_eq!(plan(&vec![circle(HERE, "5nm")]), Err(ConversionError::MalformedDistance));
    assert_eq!(
        plan(&vec![line(&[HERE]), arc(HERE, "cw", "far", THERE)]),
        Err(ConversionError::MalformedDistance)
    );
}

#[test]
fn first_segment_that_cannot_be_read_decides_the_error() {
    assert_eq!(
        plan(&vec![circle(HERE, "far"), line(&["x"])]),
        Err(ConversionError::MalformedDistance)
    );
    assert_eq!(
        plan(&vec![line(&["x"]), circle(HERE, "far")]),
        Err(ConversionError::MalformedCoordinate)
    );
    assert_eq!(plan(&vec![circle("x", "far")]), Err(ConversionError::MalformedCoordinate));
    assert_eq!(
        plan(&vec![line(&[HERE]), arc("x", "cw", "far", THERE)]),
        Err(ConversionError::MalformedCoordinate)
    );
}

#[test]
fn sweep_clockwise_through_north() {
    let expected: Vec<u16> = (351..360).chain(0..10).collect();
    assert_eq!(sweep_bearings(350, 10, true), expected);
    assert_eq!(expected.len(), 19);
}

#[test]
fn sweep_counter_clockwise_through_north() {
    let expected: Vec<u16> = (0..10).rev().chain((351..360).rev()).collect();
    assert_eq!(sweep_bearings(10, 350, false), expected);
}

#[test]
fn sweep_the_long_way_round() {
    let cw: Vec<u16> = (11..350).collect();
    assert_eq!(sweep_bearings(10, 350, true), cw);
    let ccw: Vec<u16> = (1..359).collect();
    assert_eq!(sweep_bearings(0, 359, true), ccw);
    assert_eq!(sweep_bearings(0, 359, false), Vec::<u16>::new());
}

#[test]
fn sweep_between_near_bearings() {
    assert_eq!(sweep_bearings(10, 10, true), Vec::<u16>::new());
    assert_eq!(sweep_bearings(10, 10, false), Vec::<u16>::new());
    assert_eq!(sweep_bearings(10, 11, true), Vec::<u16>::new());
    assert_eq!(sweep_bearings(10, 12, true), vec![11]);
    assert_eq!(sweep_bearings(12, 10, false), vec![11]);
    assert_eq!(sweep_bearings(359, 1, true), vec![0]);
    assert_eq!(sweep_bearings(1, 359, false), vec![0]);
}

#[test]
fn sweep_bearings_are_taken_modulo_a_turn() {
    assert_eq!(sweep_bearings(370, 732, true), vec![11]);
    assert_eq!(sweep_bearings(360, 720, true), Vec::<u16>::new());
    assert_eq!(sweep_bearings(65535, 65535, false), Vec::<u16>::new());
    assert_eq!(sweep_bearings(65535, 17, true), vec![16]);
}

#[test]
fn outline_of_points_and_a_sweep() {
    let steps = vec![
        Step::Point(at(1, 1)),
        Step::Sweep { centre: at(0, 0), radius: five_nm(), from: at(1, 1), to: at(9, 9), clockwise: true },
        Step::Point(at(10, 10)),
    ];
    let samples = vec![vec![at(77, 77)], vec![at(2, 2), at(3, 3)], Vec::new()];
    assert_eq!(
        assemble(&steps, &samples),
        Some(vec![at(1, 1), at(2, 2), at(3, 3), at(9, 9), at(10, 10), at(1, 1)])
    );
}

#[test]
fn outline_that_ends_where_it_began_gets_no_point_more() {
    let steps = vec![Step::Point(at(1, 1)), Step::Point(at(2, 2)), Step::Point(at(1, 1))];
    let samples = vec![Vec::new(), Vec::new(), Vec::new()];
    assert_eq!(assemble(&steps, &samples), Some(vec![at(1, 1), at(2, 2), at(1, 1)]));
    assert_eq!(assemble(&steps[..1].to_vec(), &samples[..1].to_vec()), Some(vec![at(1, 1)]));
}

#[test]
fn outline_of_a_ring_is_closed() {
    let ring: Vec<LatLon> = (0..360).map(|b| at(b, -b)).collect();
    assert_eq!(ring.len(), RING_SAMPLES);
    let steps = vec![Step::Point(at(500, 500)), Step::Ring { centre: at(0, 0), radius: five_nm() }];
    let points = assemble(&steps, &vec![Vec::new(), ring.clone()]).unwrap();
    assert_eq!(points.len(), 1 + RING_SAMPLES + 1 + 1);
    assert_eq!(points[1], points[361]);
    assert_eq!(&points[1..361], &ring[..]);
    assert_eq!(points.first(), points.last());
    let alone = assemble(&steps[1..].to_vec(), &vec![ring]).unwrap();
    assert_eq!(alone.len(), 361);
    assert_eq!(alone.first(), alone.last());
}

#[test]
fn outline_needs_samples_that_fit() {
    let ring = Step::Ring { centre: at(0, 0), radius: five_nm() };
    let short: Vec<LatLon> = (0..359).map(|b| at(b, b)).collect();
    let long: Vec<LatLon> = (0..361).map(|b| at(b, b)).collect();
    assert_eq!(assemble(&vec![Step::Point(at(1, 1)), ring], &vec![Vec::new(), short]), None);
    assert_eq!(assemble(&vec![ring, Step::Point(at(1, 1))], &vec![long, Vec::new()]), None);
    assert_eq!(assemble(&vec![Step::Point(at(1, 1))], &Vec::new()), None);
    assert_eq!(assemble(&Vec::new(), &vec![Vec::new()]), None);
    assert_eq!(assemble(&Vec::new(), &Vec::new()), Some(Vec::new()));
}

#[test]
fn shape_of_a_lone_circle_stays_a_circle() {
    let steps = vec![Step::Ring { centre: here(), radius: five_nm() }];
    assert_eq!(
        shape(&steps, &Vec::new()),
        Some(Shape::Circle { centre: here(), radius: five_nm() })
    );
}

#[test]
fn shape_of_anything_else_is_a_polygon() {
    let steps = vec![Step::Point(here()), Step::Point(there())];
    assert_eq!(
        shape(&steps, &vec![Vec::new(), Vec::new()]),
        Some(Shape::Polygon(vec![here(), there(), here()]))
    );
    assert_eq!(shape(&steps, &Vec::new()), None);
    assert_eq!(shape(&Vec::new(), &Vec::new()), Some(Shape::Polygon(Vec::new())));
    let ring: Vec<LatLon> = (0..360).map(|b| at(b, b)).collect();
    let two = vec![Step::Point(here()), Step::Ring { centre: here(), radius: five_nm() }];
    match shape(&two, &vec![Vec::new(), ring]) {
        Some(Shape::Polygon(points)) => assert_eq!(points.len(), 363),
        other => panic!("not a polygon: {:?}", other),
    }
}

#[test]
fn ring_is_sampled_at_every_degree_once() {
    let bearings = ring_bearings();
    assert_eq!(bearings.len(), RING_SAMPLES);
    let expected: Vec<u16> = (0..360).collect();
    assert_eq!(bearings, expected);
}
