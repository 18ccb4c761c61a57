//! What a user is offered to choose from.

use crate::yaixm::{
    feature_names, glider_names, gliding_sites, loa_names, optional_loa_names, rat_names, texts,
    wave_names, IcaoType, Release, Yaixm,
};
use vstd::prelude::*;
use vstd::string::*;

verus! {

/// The names on offer, each list sorted.
#[derive(Clone, Debug)]
pub struct Choices {
    pub gliding_sites: Vec<String>,
    pub rat: Vec<String>,
    pub loa: Vec<String>,
    pub wave: Vec<String>,
}

/// `a` is `b` or comes before it in the order of the code points: the
/// first character in which they differ decides, and a text comes before
/// every text that it begins.
pub open spec fn text_le(a: Seq<char>, b: Seq<char>) -> bool
    decreases a.len(),
{
    if a.len() == 0 {
        true
    } else if b.len() == 0 {
        false
    } else if a[0] != b[0] {
        (a[0] as u32) < (b[0] as u32)
    } else {
        text_le(a.drop_first(), b.drop_first())
    }
}

/// Each text is followed only by texts that it is or comes before.
pub open spec fn is_sorted(names: Seq<Seq<char>>) -> bool {
    forall|i: int, j: int| 0 <= i <= j < names.len() ==> text_le(names[i], names[j])
}

/// `sorted` holds what `names` holds, as often, in sorted order.
pub open spec fn is_sorting_of(sorted: Seq<Seq<char>>, names: Seq<Seq<char>>) -> bool {
    is_sorted(sorted) && sorted.to_multiset() == names.to_multiset()
}

/// Sorts the names with `sort` of the standard library's slices. Trusted:
/// that `sort` leaves the same strings, as often, in ascending order, and
/// that strings are ordered by their code points, the first difference
/// deciding.
#[verifier::external_body]
fn sort_names(names: &mut Vec<String>)
    ensures
        is_sorting_of(texts(final(names)@), texts(old(names)@)),
{
    names.sort();
}

/// The names that a user is offered, as they are shown: every list holds
/// what the dataset gives for it, sorted.
pub fn choices(yaixm: &Yaixm) -> (offer: Choices)
    ensures
        is_sorting_of(texts(offer.rat@), feature_names(yaixm.rat@)),
        is_sorting_of(texts(offer.gliding_sites@), glider_names(yaixm.airspace@, IcaoType::Other)),
        is_sorting_of(texts(offer.loa@), optional_loa_names(yaixm.loa@)),
        is_sorting_of(texts(offer.wave@), glider_names(yaixm.airspace@, IcaoType::DOther)),
{
    let mut rat = rat_names(yaixm);
    let mut loa = loa_names(yaixm);
    let mut wave = wave_names(yaixm);
    sort_names(&mut rat);
    sort_names(&mut loa);
    sort_names(&mut wave);
    let mut sites = gliding_sites(yaixm);
    sort_names(&mut sites);
    Choices { gliding_sites: sites, rat, loa, wave }
}

/// The day of the AIRAC cycle: the first ten characters of its date, or
/// all of it where it is shorter.
pub open spec fn airac_day_text(date: Seq<char>) -> Seq<char> {
    if date.len() < 10 {
        date
    } else {
        date.subrange(0, 10)
    }
}

/// The day of the release's AIRAC cycle, as it is shown.
pub fn airac_day(release: &Release) -> (day: String)
    ensures
        day@ == airac_day_text(release.airac_date@),
{
    let date = release.airac_date.as_str();
    let n = date.unicode_len();
    if n < 10 {
        String::from_str(date)
    } else {
        String::from_str(date.substring_char(0, 10))
    }
}

} // verus!
