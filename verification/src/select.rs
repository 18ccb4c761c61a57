//! Which volumes go into an export, and in what order.
//!
//! The airspace features come first, in the dataset's order, each with the
//! volumes that the local agreements in force leave it. The features that
//! those agreements add follow, and the chosen temporary restrictions come
//! last. Nothing is sorted.

use crate::settings::{GlidingSites, Settings};
use crate::yaixm::{
    is_default, is_gliding_site, is_wave_box, texts, Feature, IcaoType, Loa, LoaArea, Replace, Rule,
    Volume, Yaixm,
};
use vstd::prelude::*;

verus! {

/// One volume to emit, with the feature that it belongs to.
#[derive(Clone, Copy, Debug)]
pub struct Entry<'a> {
    pub feature: &'a Feature,
    pub volume: &'a Volume,
}

/// The entries as pairs of feature and volume.
pub open spec fn pairs(entries: Seq<Entry>) -> Seq<(Feature, Volume)> {
    Seq::new(entries.len(), |i: int| (*entries[i].feature, *entries[i].volume))
}

/// `name` is among `names`.
pub open spec fn chosen(names: Seq<String>, name: Seq<char>) -> bool {
    texts(names).contains(name)
}

/// The agreement is applied: in force by default, or chosen by name.
pub open spec fn applied(loa: Loa, settings: Settings) -> bool {
    is_default(loa) || chosen(settings.loa@, loa.name@)
}

/// The rules are given, and are `Notam` and nothing else.
pub open spec fn only_notam(rules: Option<Vec<Rule>>) -> bool {
    match rules {
        Some(r) => r@.len() > 0 && forall|i: int| 0 <= i < r@.len() ==> #[trigger] r@[i] == Rule::Notam,
        None => false,
    }
}

/// The feature passes the filters that hold for every feature.
pub open spec fn passes(feature: Feature, settings: Settings) -> bool {
    &&& !(settings.exclude_notam && only_notam(feature.rules))
    &&& !(settings.gliding == GlidingSites::Exclude && is_gliding_site(feature))
}

/// An airspace feature is kept: it passes the filters, and a wave box is kept
/// only where its name is chosen.
pub open spec fn keeps_airspace(feature: Feature, settings: Settings) -> bool {
    passes(feature, settings) && (is_wave_box(feature) ==> chosen(settings.wave@, feature.name@))
}

/// A temporary restriction is kept: it passes the filters and its name is chosen.
pub open spec fn keeps_rat(feature: Feature, settings: Settings) -> bool {
    passes(feature, settings) && chosen(settings.rat@, feature.name@)
}

/// The replacements of one area.
pub open spec fn area_replaces(area: LoaArea) -> Seq<Replace> {
    match area.replace {
        Some(r) => r@,
        None => Seq::empty(),
    }
}

/// The replacements of a list of areas, in order.
pub open spec fn areas_replaces(areas: Seq<LoaArea>) -> Seq<Replace>
    decreases areas.len(),
{
    if areas.len() == 0 {
        Seq::empty()
    } else {
        areas_replaces(areas.drop_last()) + area_replaces(areas.last())
    }
}

/// The replacements of the agreements that are applied, in order.
pub open spec fn replaces(loas: Seq<Loa>, settings: Settings) -> Seq<Replace>
    decreases loas.len(),
{
    if loas.len() == 0 {
        Seq::empty()
    } else if applied(loas.last(), settings) {
        replaces(loas.drop_last(), settings) + areas_replaces(loas.last().areas@)
    } else {
        replaces(loas.drop_last(), settings)
    }
}

/// The last replacement for the identifier `id`, if there is one.
pub open spec fn last_with_id(reps: Seq<Replace>, id: Seq<char>) -> Option<Replace>
    decreases reps.len(),
{
    if reps.len() == 0 {
        None
    } else if reps.last().id@ == id {
        Some(reps.last())
    } else {
        last_with_id(reps.drop_last(), id)
    }
}

/// The volumes that the replacements leave a feature: those of the last
/// replacement for its identifier, or its own where there is none or it has
/// no identifier.
pub open spec fn geometry(feature: Feature, reps: Seq<Replace>) -> Seq<Volume> {
    match feature.id {
        Some(id) => match last_with_id(reps, id@) {
            Some(r) => r.geometry@,
            None => feature.geometry@,
        },
        None => feature.geometry@,
    }
}

/// The feature paired with each of the volumes.
pub open spec fn pair_up(feature: Feature, volumes: Seq<Volume>) -> Seq<(Feature, Volume)> {
    Seq::new(volumes.len(), |i: int| (feature, volumes[i]))
}

/// The entries of the airspace features that are kept.
pub open spec fn airspace_entries(
    features: Seq<Feature>,
    reps: Seq<Replace>,
    settings: Settings,
) -> Seq<(Feature, Volume)>
    decreases features.len(),
{
    if features.len() == 0 {
        Seq::empty()
    } else if keeps_airspace(features.last(), settings) {
        airspace_entries(features.drop_last(), reps, settings) + pair_up(
            features.last(),
            geometry(features.last(), reps),
        )
    } else {
        airspace_entries(features.drop_last(), reps, settings)
    }
}

/// The entries of the features that pass the filters, each with its own volumes.
pub open spec fn plain_entries(features: Seq<Feature>, settings: Settings) -> Seq<(Feature, Volume)>
    decreases features.len(),
{
    if features.len() == 0 {
        Seq::empty()
    } else if passes(features.last(), settings) {
        plain_entries(features.drop_last(), settings) + pair_up(
            features.last(),
            features.last().geometry@,
        )
    } else {
        plain_entries(features.drop_last(), settings)
    }
}

/// The entries of the features that a list of areas adds.
pub open spec fn areas_entries(areas: Seq<LoaArea>, settings: Settings) -> Seq<(Feature, Volume)>
    decreases areas.len(),
{
    if areas.len() == 0 {
        Seq::empty()
    } else {
        areas_entries(areas.drop_last(), settings) + plain_entries(areas.last().add@, settings)
    }
}

/// The entries of the features that the applied agreements add.
pub open spec fn added_entries(loas: Seq<Loa>, settings: Settings) -> Seq<(Feature, Volume)>
    decreases loas.len(),
{
    if loas.len() == 0 {
        Seq::empty()
    } else if applied(loas.last(), settings) {
        added_entries(loas.drop_last(), settings) + areas_entries(loas.last().areas@, settings)
    } else {
        added_entries(loas.drop_last(), settings)
    }
}

/// The entries of the temporary restrictions that are kept.
pub open spec fn rat_entries(features: Seq<Feature>, settings: Settings) -> Seq<(Feature, Volume)>
    decreases features.len(),
{
    if features.len() == 0 {
        Seq::empty()
    } else if keeps_rat(features.last(), settings) {
        rat_entries(features.drop_last(), settings) + pair_up(
            features.last(),
            features.last().geometry@,
        )
    } else {
        rat_entries(features.drop_last(), settings)
    }
}

/// What an export holds: airspace, then added features, then temporary
/// restrictions.
pub open spec fn selection(yaixm: Yaixm, settings: Settings) -> Seq<(Feature, Volume)> {
    airspace_entries(yaixm.airspace@, replaces(yaixm.loa@, settings), settings) + added_entries(
        yaixm.loa@,
        settings,
    ) + rat_entries(yaixm.rat@, settings)
}

/// The replacements that a list of references points to.
pub open spec fn targets(list: Seq<&Replace>) -> Seq<Replace> {
    Seq::new(list.len(), |i: int| *list[i])
}

/// Whether `name` is among `names`.
pub fn is_chosen(names: &Vec<String>, name: &String) -> (b: bool)
    ensures
        b == chosen(names@, name@),
{
    let mut i: usize = 0;
    while i < names.len()
        invariant
            i <= names@.len(),
            forall|k: int| 0 <= k < i ==> texts(names@)[k] != name@,
        decreases names@.len() - i,
    {
        if names[i] == *name {
            assert(texts(names@)[i as int] == name@);
            return true;
        }
        i += 1;
    }
    false
}

impl Loa {
    /// Whether the agreement is applied under the settings.
    pub fn is_applied(&self, settings: &Settings) -> (b: bool)
        ensures
            b == applied(*self, *settings),
    {
        self.is_default() || is_chosen(&settings.loa, &self.name)
    }
}

impl Feature {
    /// Whether the feature's rules are given and are `Notam` and nothing else.
    pub fn is_only_notam(&self) -> (b: bool)
        ensures
            b == only_notam(self.rules),
    {
        match &self.rules {
            Some(rules) => {
                let mut i: usize = 0;
                while i < rules.len()
                    invariant
                        self.rules == Some(*rules),
                        i <= rules@.len(),
                        forall|k: int| 0 <= k < i ==> rules@[k] == Rule::Notam,
                    decreases rules@.len() - i,
                {
                    if rules[i] != Rule::Notam {
                        assert(rules@[i as int] != Rule::Notam);
                        return false;
                    }
                    i += 1;
                }
                rules.len() > 0
            },
            None => false,
        }
    }

    /// Whether the feature passes the filters that hold for every feature.
    pub fn passes(&self, settings: &Settings) -> (b: bool)
        ensures
            b == passes(*self, *settings),
    {
        if settings.exclude_notam && self.is_only_notam() {
            return false;
        }
        !(settings.gliding == GlidingSites::Exclude && self.is_glider(IcaoType::Other))
    }
}

/// Puts the replacements of one area behind `list`.
fn gather_area<'a>(list: &mut Vec<&'a Replace>, area: &'a LoaArea)
    ensures
        targets(final(list)@) == targets(old(list)@) + area_replaces(*area),
{
    match &area.replace {
        Some(reps) => {
            let mut k: usize = 0;
            while k < reps.len()
                invariant
                    k <= reps@.len(),
                    targets(list@) == targets(old(list)@) + reps@.take(k as int),
                decreases reps@.len() - k,
            {
                let ghost before = list@;
                list.push(&reps[k]);
                assert(targets(list@) =~= targets(before).push(reps@[k as int]));
                assert(reps@.take(k + 1) =~= reps@.take(k as int).push(reps@[k as int]));
                k += 1;
            }
            assert(reps@.take(reps@.len() as int) =~= reps@);
        },
        None => {
            assert(targets(list@) =~= targets(old(list)@) + Seq::<Replace>::empty());
        },
    }
}

/// Puts the replacements of one agreement behind `list`.
fn gather_loa<'a>(list: &mut Vec<&'a Replace>, loa: &'a Loa)
    ensures
        targets(final(list)@) == targets(old(list)@) + areas_replaces(loa.areas@),
{
    let mut j: usize = 0;
    assert(targets(list@) =~= targets(old(list)@) + areas_replaces(loa.areas@.take(0)));
    while j < loa.areas.len()
        invariant
            j <= loa.areas@.len(),
            targets(list@) == targets(old(list)@) + areas_replaces(loa.areas@.take(j as int)),
        decreases loa.areas@.len() - j,
    {
        proof {
            let next = loa.areas@.take(j + 1);
            assert(next.drop_last() =~= loa.areas@.take(j as int));
            assert(next.last() == loa.areas@[j as int]);
        }
        gather_area(list, &loa.areas[j]);
        assert(targets(list@) =~= targets(old(list)@) + areas_replaces(loa.areas@.take(j + 1)));
        j += 1;
    }
    assert(loa.areas@.take(loa.areas@.len() as int) =~= loa.areas@);
}

/// The replacements of the agreements that are applied, in order.
fn gather_replaces<'a>(loas: &'a Vec<Loa>, settings: &Settings) -> (list: Vec<&'a Replace>)
    ensures
        targets(list@) == replaces(loas@, *settings),
{
    let mut list: Vec<&'a Replace> = Vec::new();
    let mut i: usize = 0;
    assert(targets(list@) =~= replaces(loas@.take(0), *settings));
    while i < loas.len()
        invariant
            i <= loas@.len(),
            targets(list@) == replaces(loas@.take(i as int), *settings),
        decreases loas@.len() - i,
    {
        proof {
            let next = loas@.take(i + 1);
            assert(next.drop_last() =~= loas@.take(i as int));
            assert(next.last() == loas@[i as int]);
        }
        if loas[i].is_applied(settings) {
            gather_loa(&mut list, &loas[i]);
        }
        i += 1;
    }
    assert(loas@.take(loas@.len() as int) =~= loas@);
    list
}

/// The volumes that the replacements leave the feature.
fn effective_geometry<'a>(feature: &'a Feature, reps: &Vec<&'a Replace>) -> (volumes: &'a Vec<
    Volume,
>)
    ensures
        volumes@ == geometry(*feature, targets(reps@)),
{
    match &feature.id {
        Some(id) => {
            let ghost all = targets(reps@);
            let mut k: usize = reps.len();
            assert(all.take(k as int) =~= all);
            while k > 0
                invariant
                    k <= reps@.len(),
                    feature.id == Some(*id),
                    all == targets(reps@),
                    last_with_id(all, id@) == last_with_id(all.take(k as int), id@),
                decreases k,
            {
                k -= 1;
                proof {
                    let upto = all.take(k + 1);
                    assert(upto.drop_last() =~= all.take(k as int));
                    assert(upto.last() == *reps@[k as int]);
                }
                if reps[k].id == *id {
                    return &reps[k].geometry;
                }
            }
            &feature.geometry
        },
        None => &feature.geometry,
    }
}

/// Puts the feature, once with each of the volumes, behind `out`.
fn push_feature<'a>(out: &mut Vec<Entry<'a>>, feature: &'a Feature, volumes: &'a Vec<Volume>)
    ensures
        pairs(final(out)@) == pairs(old(out)@) + pair_up(*feature, volumes@),
{
    let mut n: usize = 0;
    assert(pairs(out@) =~= pairs(old(out)@) + pair_up(*feature, volumes@.take(0)));
    while n < volumes.len()
        invariant
            n <= volumes@.len(),
            pairs(out@) == pairs(old(out)@) + pair_up(*feature, volumes@.take(n as int)),
        decreases volumes@.len() - n,
    {
        let ghost before = pairs(out@);
        out.push(Entry { feature, volume: &volumes[n] });
        assert(pairs(out@) =~= before.push((*feature, volumes@[n as int])));
        assert(pair_up(*feature, volumes@.take(n + 1)) =~= pair_up(
            *feature,
            volumes@.take(n as int),
        ).push((*feature, volumes@[n as int])));
        n += 1;
    }
    assert(volumes@.take(volumes@.len() as int) =~= volumes@);
}

/// Puts the features that pass the filters, each with its own volumes,
/// behind `out`.
fn push_plain<'a>(out: &mut Vec<Entry<'a>>, features: &'a Vec<Feature>, settings: &Settings)
    ensures
        pairs(final(out)@) == pairs(old(out)@) + plain_entries(features@, *settings),
{
    let mut i: usize = 0;
    assert(pairs(out@) =~= pairs(old(out)@) + plain_entries(features@.take(0), *settings));
    while i < features.len()
        invariant
            i <= features@.len(),
            pairs(out@) == pairs(old(out)@) + plain_entries(features@.take(i as int), *settings),
        decreases features@.len() - i,
    {
        proof {
            let next = features@.take(i + 1);
            assert(next.drop_last() =~= features@.take(i as int));
            assert(next.last() == features@[i as int]);
        }
        if features[i].passes(settings) {
            push_feature(out, &features[i], &features[i].geometry);
            assert(pairs(out@) =~= pairs(old(out)@) + plain_entries(
                features@.take(i + 1),
                *settings,
            ));
        }
        i += 1;
    }
    assert(features@.take(features@.len() as int) =~= features@);
}

/// Puts the features that the agreement's areas add behind `out`.
fn push_areas<'a>(out: &mut Vec<Entry<'a>>, areas: &'a Vec<LoaArea>, settings: &Settings)
    ensures
        pairs(final(out)@) == pairs(old(out)@) + areas_entries(areas@, *settings),
{
    let mut j: usize = 0;
    assert(pairs(out@) =~= pairs(old(out)@) + areas_entries(areas@.take(0), *settings));
    while j < areas.len()
        invariant
            j <= areas@.len(),
            pairs(out@) == pairs(old(out)@) + areas_entries(areas@.take(j as int), *settings),
        decreases areas@.len() - j,
    {
        proof {
            let next = areas@.take(j + 1);
            assert(next.drop_last() =~= areas@.take(j as int));
            assert(next.last() == areas@[j as int]);
        }
        push_plain(out, &areas[j].add, settings);
        assert(pairs(out@) =~= pairs(old(out)@) + areas_entries(areas@.take(j + 1), *settings));
        j += 1;
    }
    assert(areas@.take(areas@.len() as int) =~= areas@);
}

/// The volumes of an export, in the order in which they are emitted.
///
/// The result is a function of the dataset and the settings alone, and the
/// dataset is only read: a second call with the same two gives the same list.
pub fn select<'a>(yaixm: &'a Yaixm, settings: &Settings) -> (out: Vec<Entry<'a>>)
    ensures
        pairs(out@) == selection(*yaixm, *settings),
{
    let reps = gather_replaces(&yaixm.loa, settings);
    let mut out: Vec<Entry<'a>> = Vec::new();
    let ghost all = targets(reps@);

    let mut i: usize = 0;
    assert(pairs(out@) =~= airspace_entries(yaixm.airspace@.take(0), all, *settings));
    while i < yaixm.airspace.len()
        invariant
            i <= yaixm.airspace@.len(),
            all == targets(reps@),
            pairs(out@) == airspace_entries(yaixm.airspace@.take(i as int), all, *settings),
        decreases yaixm.airspace@.len() - i,
    {
        proof {
            let next = yaixm.airspace@.take(i + 1);
            assert(next.drop_last() =~= yaixm.airspace@.take(i as int));
            assert(next.last() == yaixm.airspace@[i as int]);
        }
        let feature = &yaixm.airspace[i];
        if feature.passes(settings) && (!feature.is_glider(IcaoType::DOther) || is_chosen(
            &settings.wave,
            &feature.name,
        )) {
            push_feature(&mut out, feature, effective_geometry(feature, &reps));
        }
        i += 1;
    }
    assert(yaixm.airspace@.take(yaixm.airspace@.len() as int) =~= yaixm.airspace@);
    let ghost airspace_part = pairs(out@);

    let mut k: usize = 0;
    assert(pairs(out@) =~= airspace_part + added_entries(yaixm.loa@.take(0), *settings));
    while k < yaixm.loa.len()
        invariant
            k <= yaixm.loa@.len(),
            pairs(out@) == airspace_part + added_entries(yaixm.loa@.take(k as int), *settings),
        decreases yaixm.loa@.len() - k,
    {
        proof {
            let next = yaixm.loa@.take(k + 1);
            assert(next.drop_last() =~= yaixm.loa@.take(k as int));
            assert(next.last() == yaixm.loa@[k as int]);
        }
        if yaixm.loa[k].is_applied(settings) {
            push_areas(&mut out, &yaixm.loa[k].areas, settings);
            assert(pairs(out@) =~= airspace_part + added_entries(
                yaixm.loa@.take(k + 1),
                *settings,
            ));
        }
        k += 1;
    }
    assert(yaixm.loa@.take(yaixm.loa@.len() as int) =~= yaixm.loa@);
    let ghost added_part = pairs(out@);

    let mut r: usize = 0;
    assert(pairs(out@) =~= added_part + rat_entries(yaixm.rat@.take(0), *settings));
    while r < yaixm.rat.len()
        invariant
            r <= yaixm.rat@.len(),
            pairs(out@) == added_part + rat_entries(yaixm.rat@.take(r as int), *settings),
        decreases yaixm.rat@.len() - r,
    {
        proof {
            let next = yaixm.rat@.take(r + 1);
            assert(next.drop_last() =~= yaixm.rat@.take(r as int));
            assert(next.last() == yaixm.rat@[r as int]);
        }
        let feature = &yaixm.rat[r];
        if feature.passes(settings) && is_chosen(&settings.rat, &feature.name) {
            push_feature(&mut out, feature, &feature.geometry);
            assert(pairs(out@) =~= added_part + rat_entries(yaixm.rat@.take(r + 1), *settings));
        }
        r += 1;
    }
    assert(yaixm.rat@.take(yaixm.rat@.len() as int) =~= yaixm.rat@);
    out
}

} // verus!
