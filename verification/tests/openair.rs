use asselect::boundary::Shape;
use asselect::convert::{export, prepare, OverlayData, FILENAME};
use asselect::error::ConversionError;
use asselect::geo::{LatLon, Metres};
use asselect::openair::{openair, Block, OpenairClass};
use asselect::select::Entry;
use asselect::settings::{Overlay, Settings};
use asselect::yaixm::{
    Boundary, Circle, Feature, IcaoClass, IcaoType, Loa, LoaArea, LocalType, Release, Rule, Volume,
    Yaixm,
};

fn release() -> Release {
    Release {
        airac_date: "2024-01-25".to_string(),
        timestamp: "2024-01-01T12:00:00Z".to_string(),
        schema_version: 1,
        note: "A note".to_string(),
        commit: "abcdef".to_string(),
    }
}

fn circle_volume(lower: &str, upper: &str) -> Volume {
    Volume {
        id: None,
        name: None,
        lower: lower.to_string(),
        upper: upper.to_string(),
        icao_class: None,
        rules: None,
        seq: None,
        frequency: None,
        boundary: vec![Boundary::Circle(Circle {
            centre: "515812N 0001550W".to_string(),
            radius: "5 nm".to_string(),
        })],
    }
}

fn line_volume(points: &[&str]) -> Volume {
    let mut v = circle_volume("1500 ft", "FL195");
    v.boundary = vec![Boundary::Line(points.iter().map(|p| p.to_string()).collect())];
    v
}

fn feature(name: &str, icao_type: IcaoType, class: Option<IcaoClass>, geometry: Vec<Volume>) -> Feature {
    Feature {
        id: None,
        name: name.to_string(),
        icao_type,
        local_type: None,
        icao_class: class,
        rules: None,
        geometry,
    }
}

fn dataset(airspace: Vec<Feature>) -> Yaixm {
    Yaixm {
        airspace,
        rat: Vec::new(),
        loa: Vec::new(),
        obstacle: Vec::new(),
        service: Vec::new(),
        release: release(),
    }
}

fn class_of(f: &Feature) -> &'static str {
    OpenairClass::of(f, &f.geometry[0]).code()
}

fn block_text(f: &Feature, shape: Shape) -> String {
    let blocks = vec![Block { entry: Entry { feature: f, volume: &f.geometry[0] }, shape }];
    let text = openair(&release(), "", &blocks);
    text.strip_prefix("* AIRAC: 2024-01-25\n* Client: \n*\n").unwrap().to_string()
}

fn circle_line(shape: Shape) -> String {
    let f = feature("X", IcaoType::Ctr, None, vec![circle_volume("SFC", "UNL")]);
    let text = block_text(&f, shape);
    text.strip_prefix("AC G\nAN X\nAL SFC\nAH UNL\n").unwrap().strip_suffix("*\n").unwrap().to_string()
}

fn level_line(level: &str) -> String {
    let f = feature("X", IcaoType::Ctr, None, vec![circle_volume(level, "UNL")]);
    let text = block_text(&f, Shape::Polygon(Vec::new()));
    text.strip_prefix("AC G\nAN X\n").unwrap().strip_suffix("AH UNL\n*\n").unwrap().to_string()
}

#[test]
fn one_ctr_with_a_circle_end_to_end() {
    let y = dataset(vec![feature(
        "TEST CTR",
        IcaoType::Ctr,
        Some(IcaoClass::D),
        vec![circle_volume("SFC", "FL65")],
    )]);
    let settings = Settings::default();
    let jobs = prepare(&y, &settings).unwrap();
    assert_eq!(jobs.len(), 1);
    let mut blocks = Vec::new();
    for job in jobs {
        blocks.push(job.block(&Vec::new()).unwrap());
    }
    let text = export(&y.release, "test-agent", &blocks, settings.overlay, None);
    assert_eq!(
        text,
        "* AIRAC: 2024-01-25\n\
         * Client: test-agent\n\
         *\n\
         AC D\n\
         AN TEST CTR\n\
         AL SFC\n\
         AH FL65\n\
         V X=51:58:12 N 000:15:50 W\n\
         DC 5.000\n\
         *\n"
    );
    assert_eq!(text.matches("AC ").count(), 1);
}

#[test]
fn download_has_a_name() {
    assert_eq!(FILENAME, "openair.txt");
}

#[test]
fn export_of_nothing_is_the_header() {
    assert_eq!(
        openair(&release(), "Mozilla/5.0 (X11)", &Vec::new()),
        "* AIRAC: 2024-01-25\n* Client: Mozilla/5.0 (X11)\n*\n"
    );
}

#[test]
fn polygon_is_written_point_by_point() {
    let f = feature(
        "AREA",
        IcaoType::Cta,
        Some(IcaoClass::A),
        vec![line_volume(&["515812N 0001550W", "010203S 1234556E", "000000N 0000000E"])],
    );
    let y = dataset(vec![f]);
    let jobs = prepare(&y, &Settings::default()).unwrap();
    let samples = vec![Vec::new(), Vec::new(), Vec::new()];
    let blocks: Vec<Block> = jobs.into_iter().map(|j| j.block(&samples).unwrap()).collect();
    assert_eq!(
        openair(&y.release, "c", &blocks),
        "* AIRAC: 2024-01-25\n* Client: c\n*\n\
         AC A\nAN AREA\nAL 1500 ft\nAH FL195\n\
         DP 51:58:12 N 000:15:50 W\n\
         DP 01:02:03 S 123:45:56 E\n\
         DP 00:00:00 N 000:00:00 E\n\
         DP 51:58:12 N 000:15:50 W\n\
         *\n"
    );
}

#[test]
fn blocks_follow_one_another() {
    let f = feature(
        "TWO PARTS",
        IcaoType::Tma,
        Some(IcaoClass::C),
        vec![circle_volume("SFC", "FL65"), circle_volume("FL65", "FL195")],
    );
    let y = dataset(vec![f]);
    let jobs = prepare(&y, &Settings::default()).unwrap();
    let blocks: Vec<Block> = jobs.into_iter().map(|j| j.block(&Vec::new()).unwrap()).collect();
    let circle = "V X=51:58:12 N 000:15:50 W\nDC 5.000\n*\n";
    assert_eq!(
        openair(&y.release, "c", &blocks),
        format!(
            "* AIRAC: 2024-01-25\n* Client: c\n*\n\
             AC C\nAN TWO PARTS\nAL SFC\nAH FL65\n{}\
             AC C\nAN TWO PARTS\nAL FL65\nAH FL195\n{}",
            circle, circle
        )
    );
}

#[test]
fn positions_are_written_in_degrees_minutes_seconds() {
    let line = |lat: i32, lon: i32| {
        let f = feature("X", IcaoType::Ctr, None, vec![circle_volume("SFC", "UNL")]);
        let text = block_text(&f, Shape::Polygon(vec![LatLon { lat, lon }]));
        text.strip_prefix("AC G\nAN X\nAL SFC\nAH UNL\n").unwrap().strip_suffix("*\n").unwrap().to_string()
    };
    assert_eq!(line(187092, -950), "DP 51:58:12 N 000:15:50 W\n");
    assert_eq!(line(-1, 1), "DP 00:00:01 S 000:00:01 E\n");
    assert_eq!(line(0, 0), "DP 00:00:00 N 000:00:00 E\n");
    assert_eq!(line(59, -3599), "DP 00:00:59 N 000:59:59 W\n");
    assert_eq!(line(324000, 648000), "DP 90:00:00 N 180:00:00 E\n");
    assert_eq!(line(-362439, -3602439), "DP 100:40:39 S 1000:40:39 W\n");
    assert_eq!(line(i32::MIN, i32::MAX), "DP 596523:14:08 S 596523:14:07 E\n");
}

#[test]
fn radius_is_written_in_nautical_miles() {
    let line = |scaled: u64, places: u32| {
        circle_line(Shape::Circle {
            centre: LatLon { lat: 0, lon: 0 },
            radius: Metres { scaled, places },
        })
    };
    let at = "V X=00:00:00 N 000:00:00 E\n";
    assert_eq!(line(9260, 0), format!("{}DC 5.000\n", at));
    assert_eq!(line(46300, 1), format!("{}DC 2.500\n", at));
    assert_eq!(line(3000, 0), format!("{}DC 1.620\n", at));
    assert_eq!(line(0, 0), format!("{}DC 0.000\n", at));
    assert_eq!(line(926, 3), format!("{}DC 0.001\n", at));
    assert_eq!(line(925, 3), format!("{}DC 0.000\n", at));
    assert_eq!(line(1852, 18), format!("{}DC 0.000\n", at));
    assert_eq!(line(u64::MAX, 25), format!("{}DC 0.000\n", at));
    assert_eq!(line(u64::MAX, 20), format!("{}DC 0.000\n", at));
    assert_eq!(line(18520000, 0), format!("{}DC 10000.000\n", at));
    let most = (u128::from(u64::MAX) * 2000 + 1852) / 3704;
    assert_eq!(line(u64::MAX, 0), format!("{}DC {}.{:03}\n", at, most / 1000, most % 1000));
}

#[test]
fn levels_are_normalised() {
    assert_eq!(level_line("SFC"), "AL SFC\n");
    assert_eq!(level_line("surface"), "AL SFC\n");
    assert_eq!(level_line("UNL"), "AL UNL\n");
    assert_eq!(level_line("unlimited"), "AL UNL\n");
    assert_eq!(level_line("65"), "AL FL65\n");
    assert_eq!(level_line("FL65"), "AL FL65\n");
    assert_eq!(level_line("1500 ft"), "AL 1500 ft\n");
    assert_eq!(level_line("Surface"), "AL Surface\n");
    assert_eq!(level_line(""), "AL \n");
}

#[test]
fn name_is_the_volume_name_or_the_feature_name() {
    let mut f = feature("FEATURE", IcaoType::Ctr, None, vec![circle_volume("SFC", "UNL")]);
    let name = |f: &Feature| {
        let text = block_text(f, Shape::Polygon(Vec::new()));
        text.strip_prefix("AC G\n").unwrap().strip_suffix("AL SFC\nAH UNL\n*\n").unwrap().to_string()
    };
    assert_eq!(name(&f), "AN FEATURE\n");
    f.geometry[0].seq = Some("B".to_string());
    assert_eq!(name(&f), "AN FEATURE B\n");
    f.geometry[0].name = Some("VOLUME".to_string());
    assert_eq!(name(&f), "AN VOLUME B\n");
    f.geometry[0].seq = None;
    assert_eq!(name(&f), "AN VOLUME\n");
}

#[test]
fn class_of_controlled_airspace_is_its_icao_class() {
    for t in [IcaoType::Awy, IcaoType::Cta, IcaoType::Ctr, IcaoType::Tma] {
        let letters = [
            (IcaoClass::A, "A"),
            (IcaoClass::B, "B"),
            (IcaoClass::C, "C"),
            (IcaoClass::D, "D"),
            (IcaoClass::E, "E"),
            (IcaoClass::F, "F"),
            (IcaoClass::G, "G"),
        ];
        for (class, letter) in letters {
            let f = feature("X", t, Some(class), vec![circle_volume("SFC", "UNL")]);
            assert_eq!(class_of(&f), letter);
        }
        let f = feature("X", t, None, vec![circle_volume("SFC", "UNL")]);
        assert_eq!(class_of(&f), "G");
    }
}

#[test]
fn class_and_rules_of_the_volume_go_before_the_feature() {
    let mut f = feature("X", IcaoType::Cta, Some(IcaoClass::A), vec![circle_volume("SFC", "UNL")]);
    f.geometry[0].icao_class = Some(IcaoClass::E);
    assert_eq!(class_of(&f), "E");
    f.rules = Some(vec![Rule::Tmz]);
    assert_eq!(class_of(&f), "TMZ");
    f.geometry[0].rules = Some(vec![Rule::Rmz]);
    assert_eq!(class_of(&f), "RMZ");
    f.geometry[0].rules = Some(Vec::new());
    assert_eq!(class_of(&f), "E");
    f.geometry[0].rules = Some(vec![Rule::Rmz, Rule::Tmz]);
    assert_eq!(class_of(&f), "TMZ");
}

#[test]
fn class_by_type() {
    let typed = |t: IcaoType, local: Option<LocalType>, rules: Option<Vec<Rule>>| {
        let mut f = feature("X", t, Some(IcaoClass::A), vec![circle_volume("SFC", "UNL")]);
        f.local_type = local;
        f.rules = rules;
        class_of(&f)
    };
    assert_eq!(typed(IcaoType::Atz, None, None), "CTR");
    assert_eq!(typed(IcaoType::D, None, None), "Q");
    assert_eq!(typed(IcaoType::D, None, Some(vec![Rule::Si])), "P");
    assert_eq!(typed(IcaoType::DOther, None, None), "Q");
    assert_eq!(typed(IcaoType::DOther, Some(LocalType::Dz), None), "Q");
    assert_eq!(typed(IcaoType::DOther, Some(LocalType::Glider), None), "W");
    assert_eq!(typed(IcaoType::P, None, None), "P");
    assert_eq!(typed(IcaoType::R, None, None), "R");
    assert_eq!(typed(IcaoType::P, None, Some(vec![Rule::Tmz])), "P");
    assert_eq!(typed(IcaoType::Other, None, None), "Q");
    assert_eq!(typed(IcaoType::Other, Some(LocalType::Glider), None), "W");
    assert_eq!(typed(IcaoType::Other, Some(LocalType::Rmz), None), "RMZ");
    assert_eq!(typed(IcaoType::Other, Some(LocalType::Tmz), None), "TMZ");
    assert_eq!(typed(IcaoType::Other, Some(LocalType::Rat), None), "P");
    assert_eq!(typed(IcaoType::Other, Some(LocalType::Matz), None), "CTR");
    assert_eq!(typed(IcaoType::Other, Some(LocalType::Ils), None), "G");
    assert_eq!(typed(IcaoType::Other, Some(LocalType::NoAtz), None), "G");
    assert_eq!(typed(IcaoType::Other, Some(LocalType::Ul), None), "G");
    assert_eq!(typed(IcaoType::Other, Some(LocalType::Dz), None), "Q");
    assert_eq!(typed(IcaoType::Other, Some(LocalType::Gvs), None), "Q");
    assert_eq!(typed(IcaoType::Other, Some(LocalType::Hirta), None), "Q");
    assert_eq!(typed(IcaoType::Other, Some(LocalType::Laser), None), "Q");
    assert_eq!(typed(IcaoType::Other, Some(LocalType::Obstacle), None), "Q");
}

#[test]
fn class_of_what_is_active_by_notam_is_g() {
    for t in [IcaoType::Atz, IcaoType::D, IcaoType::P, IcaoType::Ctr, IcaoType::Other] {
        let mut f = feature("X", t, Some(IcaoClass::A), vec![circle_volume("SFC", "UNL")]);
        f.rules = Some(vec![Rule::Si, Rule::Notam]);
        assert_eq!(class_of(&f), "G");
    }
}

#[test]
fn failing_boundary_fails_the_export() {
    let mut bad = circle_volume("SFC", "FL65");
    bad.boundary = vec![Boundary::Circle(Circle {
        centre: "515812N 0001550W".to_string(),
        radius: "5".to_string(),
    })];
    bad.seq = Some("BAD".to_string());
    let mut worse = line_volume(&["nowhere"]);
    worse.seq = Some("WORSE".to_string());
    let y = dataset(vec![
        feature("GOOD", IcaoType::Ctr, None, vec![circle_volume("SFC", "FL65")]),
        feature("BROKEN", IcaoType::Ctr, None, vec![circle_volume("SFC", "FL65"), bad, worse]),
    ]);
    let failure = prepare(&y, &Settings::default()).unwrap_err();
    assert_eq!(failure.error, ConversionError::MalformedDistance);
    assert_eq!(failure.entry.feature.name, "BROKEN");
    assert_eq!(failure.entry.volume.seq, Some("BAD".to_string()));
}

#[test]
fn boundary_that_is_not_selected_is_not_read() {
    let mut wave = feature("WAVE", IcaoType::DOther, None, vec![line_volume(&["nowhere"])]);
    wave.local_type = Some(LocalType::Glider);
    let y = dataset(vec![wave]);
    assert!(prepare(&y, &Settings::default()).unwrap().is_empty());
    let mut s = Settings::default();
    s.wave = vec!["WAVE".to_string()];
    assert_eq!(prepare(&y, &s).unwrap_err().error, ConversionError::MalformedCoordinate);
}

#[test]
fn prepared_jobs_follow_the_selection() {
    let mut y = dataset(vec![feature(
        "BASE",
        IcaoType::Ctr,
        None,
        vec![line_volume(&["515812N 0001550W"]), circle_volume("SFC", "FL65")],
    )]);
    y.loa = vec![Loa {
        name: "BASELINE".to_string(),
        default: Some(true),
        areas: vec![LoaArea {
            name: "AREA".to_string(),
            add: vec![feature("ADDED", IcaoType::Cta, None, vec![line_volume(&[])])],
            replace: None,
        }],
    }];
    let jobs = prepare(&y, &Settings::default()).unwrap();
    let summary: Vec<(String, usize)> =
        jobs.iter().map(|j| (j.entry.feature.name.clone(), j.steps.len())).collect();
    assert_eq!(
        summary,
        vec![("BASE".to_string(), 1), ("BASE".to_string(), 1), ("ADDED".to_string(), 0)]
    );
}

#[test]
fn overlay_is_put_behind_the_airspace() {
    let data = OverlayData {
        overlay_195: Some("AC A\nAN OVERLAY 195\n".to_string()),
        overlay_105: None,
        overlay_atzdz: Some(String::new()),
    };
    let head = "* AIRAC: 2024-01-25\n* Client: c\n*\n";
    let run = |choice: Option<Overlay>, data: Option<&OverlayData>| {
        export(&release(), "c", &Vec::new(), choice, data)
    };
    assert_eq!(run(None, None), head);
    assert_eq!(run(None, Some(&data)), head);
    assert_eq!(run(Some(Overlay::FL195), Some(&data)), format!("{}AC A\nAN OVERLAY 195\n", head));
    assert_eq!(run(Some(Overlay::FL105), Some(&data)), format!("{}* Missing overlay data", head));
    assert_eq!(run(Some(Overlay::AtzDz), Some(&data)), head);
    assert_eq!(run(Some(Overlay::FL195), None), format!("{}* Overlay data not loaded", head));
}
