//! The airspace dataset: features, volumes, boundaries, local agreements,
//! obstacles, services and release details, and the lists of names that a
//! user can choose from.

pub use crate::geo::{latlon_to_degrees, radius_to_metres};
use vstd::prelude::*;

verus! {

/// ICAO airspace class.
#[derive(Clone, Copy, Debug, PartialEq, Eq, Structural)]
pub enum IcaoClass {
    A,
    B,
    C,
    D,
    E,
    F,
    G,
}

/// Primary classification of a feature.
#[derive(Clone, Copy, Debug, PartialEq, Eq, Structural)]
pub enum IcaoType {
    Atz,
    Awy,
    Cta,
    Ctr,
    D,
    DOther,
    Other,
    P,
    R,
    Tma,
}

/// Local, finer classification of a feature.
#[derive(Clone, Copy, Debug, PartialEq, Eq, Structural)]
pub enum LocalType {
    Dz,
    Glider,
    Gvs,
    Hirta,
    Ils,
    Laser,
    Matz,
    NoAtz,
    Obstacle,
    Rat,
    Rmz,
    Ul,
    Tmz,
}

/// A rule that applies to a feature or to one of its volumes.
#[derive(Clone, Copy, Debug, PartialEq, Eq, Hash, Structural)]
pub enum Rule {
    Intense,
    Loa,
    NoSsr,
    Notam,
    Raz,
    Rmz,
    Si,
    Tra,
    Tmz,
}

/// A full circle: centre as a position literal, radius as a distance literal.
#[derive(Clone, Debug)]
pub struct Circle {
    pub centre: String,
    pub radius: String,
}

/// An arc about `centre` that ends at `to`; `dir` is `cw` for clockwise.
#[derive(Clone, Debug)]
pub struct Arc {
    pub centre: String,
    pub dir: String,
    pub radius: String,
    pub to: String,
}

/// One segment of a volume's boundary.
#[derive(Clone, Debug)]
pub enum Boundary {
    Circle(Circle),
    Arc(Arc),
    Line(Vec<String>),
}

/// One volume of a feature: vertical limits and a closed boundary.
///
/// `frequency` is the radio frequency in kilohertz.
#[derive(Clone, Debug)]
pub struct Volume {
    pub id: Option<String>,
    pub name: Option<String>,
    pub lower: String,
    pub upper: String,
    pub icao_class: Option<IcaoClass>,
    pub rules: Option<Vec<Rule>>,
    pub seq: Option<String>,
    pub frequency: Option<u32>,
    pub boundary: Vec<Boundary>,
}

/// A named piece of airspace with one or more volumes.
#[derive(Clone, Debug)]
pub struct Feature {
    pub id: Option<String>,
    pub name: String,
    pub icao_type: IcaoType,
    pub local_type: Option<LocalType>,
    pub icao_class: Option<IcaoClass>,
    pub rules: Option<Vec<Rule>>,
    pub geometry: Vec<Volume>,
}

/// New volumes for the feature whose identifier is `id`.
#[derive(Clone, Debug)]
pub struct Replace {
    pub id: String,
    pub geometry: Vec<Volume>,
}

/// One area of a local agreement: features to add, volumes to replace.
#[derive(Clone, Debug)]
pub struct LoaArea {
    pub name: String,
    pub add: Vec<Feature>,
    pub replace: Option<Vec<Replace>>,
}

/// A local agreement. One marked `default` is in force without being chosen.
#[derive(Clone, Debug)]
pub struct Loa {
    pub name: String,
    pub default: Option<bool>,
    pub areas: Vec<LoaArea>,
}

/// An obstacle, with its three fields as they stand in the dataset.
#[derive(Clone, Debug)]
pub struct Obstacle {
    pub elevation: String,
    pub name: String,
    pub position: String,
}

/// An air traffic service; `frequency` is in kilohertz.
#[derive(Clone, Debug)]
pub struct Service {
    pub callsign: String,
    pub frequency: u32,
    pub controls: Vec<String>,
}

/// Details of the dataset's release.
#[derive(Clone, Debug)]
pub struct Release {
    pub airac_date: String,
    pub timestamp: String,
    pub schema_version: u8,
    pub note: String,
    pub commit: String,
}

/// The whole dataset.
#[derive(Clone, Debug)]
pub struct Yaixm {
    pub airspace: Vec<Feature>,
    pub rat: Vec<Feature>,
    pub loa: Vec<Loa>,
    pub obstacle: Vec<Obstacle>,
    pub service: Vec<Service>,
    pub release: Release,
}

/// The texts of a list of strings.
pub open spec fn texts(v: Seq<String>) -> Seq<Seq<char>> {
    Seq::new(v.len(), |i: int| v[i]@)
}

/// The names of all the features, in order.
pub open spec fn feature_names(features: Seq<Feature>) -> Seq<Seq<char>> {
    Seq::new(features.len(), |i: int| features[i].name@)
}

/// A feature of the given type that is locally classed as a glider feature.
pub open spec fn is_glider(feature: Feature, icao_type: IcaoType) -> bool {
    feature.icao_type == icao_type && feature.local_type == Some(LocalType::Glider)
}

/// A gliding site: type `Other`, local type `Glider`.
pub open spec fn is_gliding_site(feature: Feature) -> bool {
    is_glider(feature, IcaoType::Other)
}

/// A wave box: type `DOther`, local type `Glider`.
pub open spec fn is_wave_box(feature: Feature) -> bool {
    is_glider(feature, IcaoType::DOther)
}

/// The names of the glider features of the given type, in order.
pub open spec fn glider_names(features: Seq<Feature>, icao_type: IcaoType) -> Seq<Seq<char>>
    decreases features.len(),
{
    if features.len() == 0 {
        Seq::empty()
    } else {
        let earlier = glider_names(features.drop_last(), icao_type);
        if is_glider(features.last(), icao_type) {
            earlier.push(features.last().name@)
        } else {
            earlier
        }
    }
}

/// The agreement is in force whether or not it is chosen.
pub open spec fn is_default(loa: Loa) -> bool {
    loa.default == Some(true)
}

/// The names of the local agreements that are not in force by default.
pub open spec fn optional_loa_names(loas: Seq<Loa>) -> Seq<Seq<char>>
    decreases loas.len(),
{
    if loas.len() == 0 {
        Seq::empty()
    } else {
        let earlier = optional_loa_names(loas.drop_last());
        if is_default(loas.last()) {
            earlier
        } else {
            earlier.push(loas.last().name@)
        }
    }
}

impl Feature {
    /// Whether the feature has the given type and is locally a glider feature.
    pub fn is_glider(&self, icao_type: IcaoType) -> (b: bool)
        ensures
            b == is_glider(*self, icao_type),
    {
        self.icao_type == icao_type && match self.local_type {
            Some(LocalType::Glider) => true,
            _ => false,
        }
    }
}

impl Loa {
    /// Whether the agreement is in force without being chosen.
    pub fn is_default(&self) -> (b: bool)
        ensures
            b == is_default(*self),
    {
        match self.default {
            Some(flag) => flag,
            None => false,
        }
    }
}

/// Collects the names of the glider features of one type.
fn names_of_gliders(features: &Vec<Feature>, icao_type: IcaoType) -> (names: Vec<String>)
    ensures
        texts(names@) == glider_names(features@, icao_type),
{
    let mut names: Vec<String> = Vec::new();
    let mut i: usize = 0;
    while i < features.len()
        invariant
            i <= features@.len(),
            texts(names@) == glider_names(features@.take(i as int), icao_type),
        decreases features@.len() - i,
    {
        proof {
            let next = features@.take(i + 1);
            assert(next.drop_last() =~= features@.take(i as int));
            assert(next.last() == features@[i as int]);
        }
        if features[i].is_glider(icao_type) {
            let ghost before = names@;
            names.push(features[i].name.clone());
            assert(texts(names@) =~= texts(before).push(features@[i as int].name@));
        }
        i += 1;
    }
    assert(features@.take(features@.len() as int) =~= features@);
    names
}

/// The names of the gliding sites, in the dataset's order.
pub fn gliding_sites(yaixm: &Yaixm) -> (names: Vec<String>)
    ensures
        texts(names@) == glider_names(yaixm.airspace@, IcaoType::Other),
{
    names_of_gliders(&yaixm.airspace, IcaoType::Other)
}

/// The names of the temporary restrictions, in the dataset's order.
pub fn rat_names(yaixm: &Yaixm) -> (names: Vec<String>)
    ensures
        texts(names@) == feature_names(yaixm.rat@),
{
    let mut names: Vec<String> = Vec::new();
    let mut i: usize = 0;
    while i < yaixm.rat.len()
        invariant
            i <= yaixm.rat@.len(),
            names@.len() == i,
            forall|k: int| 0 <= k < i ==> (#[trigger] names@[k])@ == yaixm.rat@[k].name@,
        decreases yaixm.rat@.len() - i,
    {
        names.push(yaixm.rat[i].name.clone());
        i += 1;
    }
    assert(texts(names@) =~= feature_names(yaixm.rat@));
    names
}

/// The names of the local agreements that a user can choose, in the
/// dataset's order: those that are not in force by default.
pub fn loa_names(yaixm: &Yaixm) -> (names: Vec<String>)
    ensures
        texts(names@) == optional_loa_names(yaixm.loa@),
{
    let mut names: Vec<String> = Vec::new();
    let mut i: usize = 0;
    while i < yaixm.loa.len()
        invariant
            i <= yaixm.loa@.len(),
            texts(names@) == optional_loa_names(yaixm.loa@.take(i as int)),
        decreases yaixm.loa@.len() - i,
    {
        proof {
            let next = yaixm.loa@.take(i + 1);
            assert(next.drop_last() =~= yaixm.loa@.take(i as int));
            assert(next.last() == yaixm.loa@[i as int]);
        }
        if !yaixm.loa[i].is_default() {
            let ghost before = names@;
            names.push(yaixm.loa[i].name.clone());
            assert(texts(names@) =~= texts(before).push(yaixm.loa@[i as int].name@));
        }
        i += 1;
    }
    assert(yaixm.loa@.take(yaixm.loa@.len() as int) =~= yaixm.loa@);
    names
}

/// The names of the wave boxes, in the dataset's order.
pub fn wave_names(yaixm: &Yaixm) -> (names: Vec<String>)
    ensures
        texts(names@) == glider_names(yaixm.airspace@, IcaoType::DOther),
{
    names_of_gliders(&yaixm.airspace, IcaoType::DOther)
}

} // verus!
