//! OpenAir text.
//!
//! An export is a header of comment lines and then one block for each
//! volume: its class, its name, its lower and upper limit, and its outline,
//! either as a circle or as a list of points. A line of its own with a star
//! ends each block.

use crate::boundary::Shape;
use crate::geo::{all_digits, LatLon};
use crate::select::Entry;
use crate::text::{
    is_number, nm_text, position_text, push_nm, push_position, text_is,
};
use crate::yaixm::{Feature, IcaoClass, IcaoType, LocalType, Release, Rule, Volume};
use vstd::prelude::*;
use vstd::string::*;

verus! {

/// The class that a volume is given in OpenAir.
#[derive(Clone, Copy, Debug, PartialEq, Eq, Structural)]
pub enum OpenairClass {
    A,
    B,
    C,
    D,
    E,
    F,
    G,
    Ctr,
    P,
    Q,
    R,
    W,
    Rmz,
    Tmz,
}

/// One volume with its outline, ready to be written.
#[derive(Debug)]
pub struct Block<'a> {
    pub entry: Entry<'a>,
    pub shape: Shape,
}

/// The rules that hold for a volume: its own where it has any, else its
/// feature's.
pub open spec fn rules_in_force(feature: Feature, volume: Volume) -> Option<Vec<Rule>> {
    if volume.rules is Some {
        volume.rules
    } else {
        feature.rules
    }
}

/// The class that holds for a volume: its own where it has one, else its
/// feature's.
pub open spec fn class_in_force(feature: Feature, volume: Volume) -> Option<IcaoClass> {
    if volume.icao_class is Some {
        volume.icao_class
    } else {
        feature.icao_class
    }
}

/// `rule` is among the rules.
pub open spec fn has_rule(rules: Option<Vec<Rule>>, rule: Rule) -> bool {
    match rules {
        Some(r) => r@.contains(rule),
        None => false,
    }
}

/// The OpenAir class of an ICAO class; airspace without a class counts as G.
pub open spec fn class_of_icao(class: Option<IcaoClass>) -> OpenairClass {
    match class {
        Some(IcaoClass::A) => OpenairClass::A,
        Some(IcaoClass::B) => OpenairClass::B,
        Some(IcaoClass::C) => OpenairClass::C,
        Some(IcaoClass::D) => OpenairClass::D,
        Some(IcaoClass::E) => OpenairClass::E,
        Some(IcaoClass::F) => OpenairClass::F,
        Some(IcaoClass::G) => OpenairClass::G,
        None => OpenairClass::G,
    }
}

/// The OpenAir class of a feature of type `Other`, by its local type.
pub open spec fn class_of_local(local_type: Option<LocalType>) -> OpenairClass {
    match local_type {
        Some(LocalType::Glider) => OpenairClass::W,
        Some(LocalType::Rmz) => OpenairClass::Rmz,
        Some(LocalType::Tmz) => OpenairClass::Tmz,
        Some(LocalType::Rat) => OpenairClass::P,
        Some(LocalType::Matz) => OpenairClass::Ctr,
        Some(LocalType::Ils) => OpenairClass::G,
        Some(LocalType::NoAtz) => OpenairClass::G,
        Some(LocalType::Ul) => OpenairClass::G,
        Some(LocalType::Dz) => OpenairClass::Q,
        Some(LocalType::Gvs) => OpenairClass::Q,
        Some(LocalType::Hirta) => OpenairClass::Q,
        Some(LocalType::Laser) => OpenairClass::Q,
        Some(LocalType::Obstacle) => OpenairClass::Q,
        None => OpenairClass::Q,
    }
}

/// The OpenAir class of a volume.
///
/// What is active by NOTAM only is class G. Otherwise the feature's type
/// decides; for controlled airspace a transponder or radio zone goes
/// before the ICAO class.
pub open spec fn class_of(feature: Feature, volume: Volume) -> OpenairClass {
    let rules = rules_in_force(feature, volume);
    if has_rule(rules, Rule::Notam) {
        OpenairClass::G
    } else {
        match feature.icao_type {
            IcaoType::Atz => OpenairClass::Ctr,
            IcaoType::D => if has_rule(rules, Rule::Si) {
                OpenairClass::P
            } else {
                OpenairClass::Q
            },
            IcaoType::DOther => if feature.local_type == Some(LocalType::Glider) {
                OpenairClass::W
            } else {
                OpenairClass::Q
            },
            IcaoType::Other => class_of_local(feature.local_type),
            IcaoType::P => OpenairClass::P,
            IcaoType::R => OpenairClass::R,
            IcaoType::Awy | IcaoType::Cta | IcaoType::Ctr | IcaoType::Tma => if has_rule(
                rules,
                Rule::Tmz,
            ) {
                OpenairClass::Tmz
            } else if has_rule(rules, Rule::Rmz) {
                OpenairClass::Rmz
            } else {
                class_of_icao(class_in_force(feature, volume))
            },
        }
    }
}

/// The word that OpenAir has for a class.
pub open spec fn class_text(class: OpenairClass) -> Seq<char> {
    match class {
        OpenairClass::A => "A"@,
        OpenairClass::B => "B"@,
        OpenairClass::C => "C"@,
        OpenairClass::D => "D"@,
        OpenairClass::E => "E"@,
        OpenairClass::F => "F"@,
        OpenairClass::G => "G"@,
        OpenairClass::Ctr => "CTR"@,
        OpenairClass::P => "P"@,
        OpenairClass::Q => "Q"@,
        OpenairClass::R => "R"@,
        OpenairClass::W => "W"@,
        OpenairClass::Rmz => "RMZ"@,
        OpenairClass::Tmz => "TMZ"@,
    }
}

/// The name of a volume: its own or else its feature's, and behind it,
/// after a space, the volume's sequence mark where it has one.
pub open spec fn name_text(feature: Feature, volume: Volume) -> Seq<char> {
    let base = match volume.name {
        Some(n) => n@,
        None => feature.name@,
    };
    match volume.seq {
        Some(s) => base + " "@ + s@,
        None => base,
    }
}

/// A vertical limit: `SFC` for the surface, `UNL` for unlimited, a bare
/// number as a flight level with `FL` before it, anything else as it stands.
pub open spec fn level_text(level: Seq<char>) -> Seq<char> {
    if level == "surface"@ || level == "SFC"@ {
        "SFC"@
    } else if level == "unlimited"@ || level == "UNL"@ {
        "UNL"@
    } else if level.len() > 0 && all_digits(level, 0, level.len() as int) {
        "FL"@ + level
    } else {
        level
    }
}

/// One line for each point.
pub open spec fn points_text(points: Seq<LatLon>) -> Seq<char>
    decreases points.len(),
{
    if points.len() == 0 {
        Seq::empty()
    } else {
        points_text(points.drop_last()) + "DP "@ + position_text(points.last()) + "\n"@
    }
}

/// The lines of an outline: centre and radius of a circle, or the points
/// of a polygon as they are given, without a closing point of their own.
pub open spec fn shape_text(shape: Shape) -> Seq<char> {
    match shape {
        Shape::Circle { centre, radius } => "V X="@ + position_text(centre) + "\n"@ + "DC "@
            + nm_text(radius) + "\n"@,
        Shape::Polygon(points) => points_text(points@),
    }
}

/// The block of one volume.
pub open spec fn block_text(feature: Feature, volume: Volume, shape: Shape) -> Seq<char> {
    "AC "@ + class_text(class_of(feature, volume)) + "\n"@ + "AN "@ + name_text(feature, volume)
        + "\n"@ + "AL "@ + level_text(volume.lower@) + "\n"@ + "AH "@ + level_text(volume.upper@)
        + "\n"@ + shape_text(shape) + "*\n"@
}

/// The blocks, one after the other.
pub open spec fn blocks_text(blocks: Seq<Block>) -> Seq<char>
    decreases blocks.len(),
{
    if blocks.len() == 0 {
        Seq::empty()
    } else {
        blocks_text(blocks.drop_last()) + block_text(
            *blocks.last().entry.feature,
            *blocks.last().entry.volume,
            blocks.last().shape,
        )
    }
}

/// The header: the date of the AIRAC cycle and the client, as comments.
pub open spec fn header_text(release: Release, client_id: Seq<char>) -> Seq<char> {
    "* AIRAC: "@ + release.airac_date@ + "\n"@ + "* Client: "@ + client_id + "\n"@ + "*\n"@
}

/// The whole export.
pub open spec fn openair_text(release: Release, client_id: Seq<char>, blocks: Seq<Block>) -> Seq<
    char,
> {
    header_text(release, client_id) + blocks_text(blocks)
}

/// Whether `rule` is among the rules.
fn rules_have(rules: &Option<Vec<Rule>>, rule: Rule) -> (b: bool)
    ensures
        b == has_rule(*rules, rule),
{
    match rules {
        Some(r) => {
            let mut i: usize = 0;
            while i < r.len()
                invariant
                    *rules == Some(*r),
                    i <= r@.len(),
                    forall|k: int| 0 <= k < i ==> r@[k] != rule,
                decreases r@.len() - i,
            {
                if r[i] == rule {
                    assert(r@[i as int] == rule);
                    return true;
                }
                i += 1;
            }
            false
        },
        None => false,
    }
}

impl OpenairClass {
    /// The class of a volume of a feature.
    pub fn of(feature: &Feature, volume: &Volume) -> (class: OpenairClass)
        ensures
            class == class_of(*feature, *volume),
    {
        let rules = if volume.rules.is_some() {
            &volume.rules
        } else {
            &feature.rules
        };
        if rules_have(rules, Rule::Notam) {
            return OpenairClass::G;
        }
        match feature.icao_type {
            IcaoType::Atz => OpenairClass::Ctr,
            IcaoType::D => if rules_have(rules, Rule::Si) {
                OpenairClass::P
            } else {
                OpenairClass::Q
            },
            IcaoType::DOther => match feature.local_type {
                Some(LocalType::Glider) => OpenairClass::W,
                _ => OpenairClass::Q,
            },
            IcaoType::Other => match feature.local_type {
                Some(LocalType::Glider) => OpenairClass::W,
                Some(LocalType::Rmz) => OpenairClass::Rmz,
                Some(LocalType::Tmz) => OpenairClass::Tmz,
                Some(LocalType::Rat) => OpenairClass::P,
                Some(LocalType::Matz) => OpenairClass::Ctr,
                Some(LocalType::Ils) => OpenairClass::G,
                Some(LocalType::NoAtz) => OpenairClass::G,
                Some(LocalType::Ul) => OpenairClass::G,
                Some(LocalType::Dz) => OpenairClass::Q,
                Some(LocalType::Gvs) => OpenairClass::Q,
                Some(LocalType::Hirta) => OpenairClass::Q,
                Some(LocalType::Laser) => OpenairClass::Q,
                Some(LocalType::Obstacle) => OpenairClass::Q,
                None => OpenairClass::Q,
            },
            IcaoType::P => OpenairClass::P,
            IcaoType::R => OpenairClass::R,
            IcaoType::Awy | IcaoType::Cta | IcaoType::Ctr | IcaoType::Tma => {
                if rules_have(rules, Rule::Tmz) {
                    OpenairClass::Tmz
                } else if rules_have(rules, Rule::Rmz) {
                    OpenairClass::Rmz
                } else {
                    let class = if volume.icao_class.is_some() {
                        volume.icao_class
                    } else {
                        feature.icao_class
                    };
                    match class {
                        Some(IcaoClass::A) => OpenairClass::A,
                        Some(IcaoClass::B) => OpenairClass::B,
                        Some(IcaoClass::C) => OpenairClass::C,
                        Some(IcaoClass::D) => OpenairClass::D,
                        Some(IcaoClass::E) => OpenairClass::E,
                        Some(IcaoClass::F) => OpenairClass::F,
                        Some(IcaoClass::G) => OpenairClass::G,
                        None => OpenairClass::G,
                    }
                }
            },
        }
    }

    /// The word that OpenAir has for the class.
    pub fn code(&self) -> (word: &'static str)
        ensures
            word@ == class_text(*self),
    {
        match self {
            OpenairClass::A => "A",
            OpenairClass::B => "B",
            OpenairClass::C => "C",
            OpenairClass::D => "D",
            OpenairClass::E => "E",
            OpenairClass::F => "F",
            OpenairClass::G => "G",
            OpenairClass::Ctr => "CTR",
            OpenairClass::P => "P",
            OpenairClass::Q => "Q",
            OpenairClass::R => "R",
            OpenairClass::W => "W",
            OpenairClass::Rmz => "RMZ",
            OpenairClass::Tmz => "TMZ",
        }
    }
}

/// Writes the name of a volume behind `out`.
fn push_name(out: &mut String, feature: &Feature, volume: &Volume)
    ensures
        final(out)@ == old(out)@ + name_text(*feature, *volume),
{
    match &volume.name {
        Some(n) => out.append(n.as_str()),
        None => out.append(feature.name.as_str()),
    }
    match &volume.seq {
        Some(s) => {
            out.append(" ");
            out.append(s.as_str());
        },
        None => {},
    }
    assert(out@ =~= old(out)@ + name_text(*feature, *volume));
}

/// Writes a vertical limit behind `out`.
fn push_level(out: &mut String, level: &String)
    ensures
        final(out)@ == old(out)@ + level_text(level@),
{
    let s = level.as_str();
    if text_is(s, "surface") || text_is(s, "SFC") {
        out.append("SFC");
    } else if text_is(s, "unlimited") || text_is(s, "UNL") {
        out.append("UNL");
    } else if is_number(s) {
        out.append("FL");
        out.append(s);
        assert(out@ =~= old(out)@ + ("FL"@ + level@));
    } else {
        out.append(s);
    }
}

/// Writes one line for each point behind `out`.
fn push_points(out: &mut String, points: &Vec<LatLon>)
    ensures
        final(out)@ == old(out)@ + points_text(points@),
{
    let mut i: usize = 0;
    assert(out@ =~= old(out)@ + points_text(points@.take(0)));
    while i < points.len()
        invariant
            i <= points@.len(),
            out@ == old(out)@ + points_text(points@.take(i as int)),
        decreases points@.len() - i,
    {
        proof {
            let next = points@.take(i + 1);
            assert(next.drop_last() =~= points@.take(i as int));
            assert(next.last() == points@[i as int]);
        }
        out.append("DP ");
        push_position(out, points[i]);
        out.append("\n");
        assert(out@ =~= old(out)@ + points_text(points@.take(i + 1)));
        i += 1;
    }
    assert(points@.take(points@.len() as int) =~= points@);
}

/// Writes the lines of an outline behind `out`.
fn push_shape(out: &mut String, shape: &Shape)
    ensures
        final(out)@ == old(out)@ + shape_text(*shape),
{
    match shape {
        Shape::Circle { centre, radius } => {
            out.append("V X=");
            push_position(out, *centre);
            out.append("\n");
            out.append("DC ");
            push_nm(out, *radius);
            out.append("\n");
            assert(out@ =~= old(out)@ + shape_text(*shape));
        },
        Shape::Polygon(points) => {
            push_points(out, points);
        },
    }
}

/// Writes the block of one volume behind `out`.
fn push_block(out: &mut String, block: &Block)
    ensures
        final(out)@ == old(out)@ + block_text(
            *block.entry.feature,
            *block.entry.volume,
            block.shape,
        ),
{
    let feature = block.entry.feature;
    let volume = block.entry.volume;
    out.append("AC ");
    out.append(OpenairClass::of(feature, volume).code());
    out.append("\n");
    out.append("AN ");
    push_name(out, feature, volume);
    out.append("\n");
    out.append("AL ");
    push_level(out, &volume.lower);
    out.append("\n");
    out.append("AH ");
    push_level(out, &volume.upper);
    out.append("\n");
    push_shape(out, &block.shape);
    out.append("*\n");
    assert(out@ =~= old(out)@ + block_text(*feature, *volume, block.shape));
}

/// Writes an export: the header, then the blocks in the order given.
pub fn openair(release: &Release, client_id: &str, blocks: &Vec<Block>) -> (out: String)
    ensures
        out@ == openair_text(*release, client_id@, blocks@),
{
    let mut out = String::new();
    out.append("* AIRAC: ");
    out.append(release.airac_date.as_str());
    out.append("\n");
    out.append("* Client: ");
    out.append(client_id);
    out.append("\n");
    out.append("*\n");
    assert(out@ =~= header_text(*release, client_id@));
    let ghost header = out@;
    let mut i: usize = 0;
    assert(out@ =~= header + blocks_text(blocks@.take(0)));
    while i < blocks.len()
        invariant
            i <= blocks@.len(),
            out@ == header + blocks_text(blocks@.take(i as int)),
        decreases blocks@.len() - i,
    {
        proof {
            let next = blocks@.take(i + 1);
            assert(next.drop_last() =~= blocks@.take(i as int));
            assert(next.last() == blocks@[i as int]);
        }
        push_block(&mut out, &blocks[i]);
        assert(out@ =~= header + blocks_text(blocks@.take(i + 1)));
        i += 1;
    }
    assert(blocks@.take(blocks@.len() as int) =~= blocks@);
    out
}

} // verus!
