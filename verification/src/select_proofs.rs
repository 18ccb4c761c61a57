//! What holds of every selection.

use crate::select::{
    added_entries, airspace_entries, applied, areas_entries, areas_replaces, chosen, geometry,
    keeps_airspace, last_with_id, pair_up, pairs, plain_entries, rat_entries, replaces, selection,
    Entry,
};
use crate::settings::Settings;
use crate::yaixm::{
    feature_names, is_default, texts, Feature, Loa, LoaArea, Replace, Volume, Yaixm,
};
use vstd::prelude::*;

verus! {

/// Two settings treat the dataset alike: the same filters, the same
/// agreements applied, and the same verdict on the name of every temporary
/// restriction and of every airspace feature.
pub open spec fn alike(yaixm: Yaixm, a: Settings, b: Settings) -> bool {
    &&& a.gliding == b.gliding
    &&& a.exclude_notam == b.exclude_notam
    &&& forall|i: int|
        0 <= i < yaixm.loa@.len() ==> applied(#[trigger] yaixm.loa@[i], a) == applied(
            yaixm.loa@[i],
            b,
        )
    &&& forall|i: int|
        0 <= i < yaixm.airspace@.len() ==> chosen(a.wave@, (#[trigger] yaixm.airspace@[i]).name@)
            == chosen(b.wave@, yaixm.airspace@[i].name@)
    &&& forall|i: int|
        0 <= i < yaixm.rat@.len() ==> chosen(a.rat@, (#[trigger] yaixm.rat@[i]).name@) == chosen(
            b.rat@,
            yaixm.rat@[i].name@,
        )
}

proof fn lemma_replaces_alike(loas: Seq<Loa>, a: Settings, b: Settings)
    requires
        forall|i: int| 0 <= i < loas.len() ==> applied(#[trigger] loas[i], a) == applied(loas[i], b),
    ensures
        replaces(loas, a) == replaces(loas, b),
    decreases loas.len(),
{
    if loas.len() > 0 {
        assert(applied(loas[loas.len() - 1], a) == applied(loas[loas.len() - 1], b));
        assert forall|i: int| 0 <= i < loas.drop_last().len() implies applied(
            #[trigger] loas.drop_last()[i],
            a,
        ) == applied(loas.drop_last()[i], b) by {
            assert(loas.drop_last()[i] == loas[i]);
        }
        lemma_replaces_alike(loas.drop_last(), a, b);
    }
}

proof fn lemma_plain_alike(features: Seq<Feature>, a: Settings, b: Settings)
    requires
        a.gliding == b.gliding,
        a.exclude_notam == b.exclude_notam,
    ensures
        plain_entries(features, a) == plain_entries(features, b),
    decreases features.len(),
{
    if features.len() > 0 {
        lemma_plain_alike(features.drop_last(), a, b);
    }
}

proof fn lemma_areas_alike(areas: Seq<LoaArea>, a: Settings, b: Settings)
    requires
        a.gliding == b.gliding,
        a.exclude_notam == b.exclude_notam,
    ensures
        areas_entries(areas, a) == areas_entries(areas, b),
    decreases areas.len(),
{
    if areas.len() > 0 {
        lemma_areas_alike(areas.drop_last(), a, b);
        lemma_plain_alike(areas.last().add@, a, b);
    }
}

proof fn lemma_added_alike(loas: Seq<Loa>, a: Settings, b: Settings)
    requires
        a.gliding == b.gliding,
        a.exclude_notam == b.exclude_notam,
        forall|i: int| 0 <= i < loas.len() ==> applied(#[trigger] loas[i], a) == applied(loas[i], b),
    ensures
        added_entries(loas, a) == added_entries(loas, b),
    decreases loas.len(),
{
    if loas.len() > 0 {
        assert(applied(loas[loas.len() - 1], a) == applied(loas[loas.len() - 1], b));
        assert forall|i: int| 0 <= i < loas.drop_last().len() implies applied(
            #[trigger] loas.drop_last()[i],
            a,
        ) == applied(loas.drop_last()[i], b) by {
            assert(loas.drop_last()[i] == loas[i]);
        }
        lemma_added_alike(loas.drop_last(), a, b);
        lemma_areas_alike(loas.last().areas@, a, b);
    }
}

proof fn lemma_airspace_alike(features: Seq<Feature>, reps: Seq<Replace>, a: Settings, b: Settings)
    requires
        a.gliding == b.gliding,
        a.exclude_notam == b.exclude_notam,
        forall|i: int|
            0 <= i < features.len() ==> chosen(a.wave@, (#[trigger] features[i]).name@) == chosen(
                b.wave@,
                features[i].name@,
            ),
    ensures
        airspace_entries(features, reps, a) == airspace_entries(features, reps, b),
    decreases features.len(),
{
    if features.len() > 0 {
        let last = features[features.len() - 1];
        assert(chosen(a.wave@, last.name@) == chosen(b.wave@, last.name@));
        assert forall|i: int| 0 <= i < features.drop_last().len() implies chosen(
            a.wave@,
            (#[trigger] features.drop_last()[i]).name@,
        ) == chosen(b.wave@, features.drop_last()[i].name@) by {
            assert(features.drop_last()[i] == features[i]);
        }
        lemma_airspace_alike(features.drop_last(), reps, a, b);
    }
}

proof fn lemma_rat_alike(features: Seq<Feature>, a: Settings, b: Settings)
    requires
        a.gliding == b.gliding,
        a.exclude_notam == b.exclude_notam,
        forall|i: int|
            0 <= i < features.len() ==> chosen(a.rat@, (#[trigger] features[i]).name@) == chosen(
                b.rat@,
                features[i].name@,
            ),
    ensures
        rat_entries(features, a) == rat_entries(features, b),
    decreases features.len(),
{
    if features.len() > 0 {
        let last = features[features.len() - 1];
        assert(chosen(a.rat@, last.name@) == chosen(b.rat@, last.name@));
        assert forall|i: int| 0 <= i < features.drop_last().len() implies chosen(
            a.rat@,
            (#[trigger] features.drop_last()[i]).name@,
        ) == chosen(b.rat@, features.drop_last()[i].name@) by {
            assert(features.drop_last()[i] == features[i]);
        }
        lemma_rat_alike(features.drop_last(), a, b);
    }
}

/// Settings that treat the dataset alike select the same volumes in the
/// same order.
pub proof fn lemma_alike_settings_select_alike(yaixm: Yaixm, a: Settings, b: Settings)
    requires
        alike(yaixm, a, b),
    ensures
        selection(yaixm, a) == selection(yaixm, b),
{
    lemma_replaces_alike(yaixm.loa@, a, b);
    lemma_airspace_alike(yaixm.airspace@, replaces(yaixm.loa@, a), a, b);
    lemma_added_alike(yaixm.loa@, a, b);
    lemma_rat_alike(yaixm.rat@, a, b);
}

/// Two runs on the same dataset with the same settings give the same
/// volumes in the same order: whatever two lists meet what `select`
/// promises are one list.
pub proof fn lemma_select_twice_is_select_once(
    yaixm: Yaixm,
    settings: Settings,
    first: Seq<Entry>,
    second: Seq<Entry>,
)
    requires
        pairs(first) == selection(yaixm, settings),
        pairs(second) == selection(yaixm, settings),
    ensures
        first.len() == second.len(),
        forall|i: int|
            0 <= i < first.len() ==> *(#[trigger] first[i]).feature == *second[i].feature
                && *first[i].volume == *second[i].volume,
{
    assert(pairs(first).len() == first.len());
    assert(pairs(second).len() == second.len());
    assert forall|i: int| 0 <= i < first.len() implies *(#[trigger] first[i]).feature
        == *second[i].feature && *first[i].volume == *second[i].volume by {
        assert(pairs(first)[i] == (*first[i].feature, *first[i].volume));
        assert(pairs(second)[i] == (*second[i].feature, *second[i].volume));
    }
}

/// The selection depends on the three name lists as sets only: with the
/// same filters and the same names chosen, in whatever order and however
/// often, the same volumes are selected in the same order.
pub proof fn lemma_selection_reads_names_as_sets(yaixm: Yaixm, a: Settings, b: Settings)
    requires
        a.gliding == b.gliding,
        a.exclude_notam == b.exclude_notam,
        texts(a.rat@).to_set() == texts(b.rat@).to_set(),
        texts(a.loa@).to_set() == texts(b.loa@).to_set(),
        texts(a.wave@).to_set() == texts(b.wave@).to_set(),
    ensures
        selection(yaixm, a) == selection(yaixm, b),
{
    assert forall|name: Seq<char>| chosen(a.rat@, name) == chosen(b.rat@, name) by {
        assert(texts(a.rat@).to_set().contains(name) <==> texts(a.rat@).contains(name));
        assert(texts(b.rat@).to_set().contains(name) <==> texts(b.rat@).contains(name));
    }
    assert forall|name: Seq<char>| chosen(a.loa@, name) == chosen(b.loa@, name) by {
        assert(texts(a.loa@).to_set().contains(name) <==> texts(a.loa@).contains(name));
        assert(texts(b.loa@).to_set().contains(name) <==> texts(b.loa@).contains(name));
    }
    assert forall|name: Seq<char>| chosen(a.wave@, name) == chosen(b.wave@, name) by {
        assert(texts(a.wave@).to_set().contains(name) <==> texts(a.wave@).contains(name));
        assert(texts(b.wave@).to_set().contains(name) <==> texts(b.wave@).contains(name));
    }
    lemma_alike_settings_select_alike(yaixm, a, b);
}

/// Choosing the name of a temporary restriction that the dataset does not
/// hold changes nothing: the name is passed over.
pub proof fn lemma_unknown_rat_name_is_passed_over(
    yaixm: Yaixm,
    a: Settings,
    b: Settings,
    name: Seq<char>,
)
    requires
        !feature_names(yaixm.rat@).contains(name),
        texts(b.rat@) == texts(a.rat@).push(name),
        texts(b.loa@) == texts(a.loa@),
        texts(b.wave@) == texts(a.wave@),
        a.gliding == b.gliding,
        a.exclude_notam == b.exclude_notam,
    ensures
        selection(yaixm, a) == selection(yaixm, b),
{
    assert forall|i: int| 0 <= i < yaixm.rat@.len() implies chosen(
        a.rat@,
        (#[trigger] yaixm.rat@[i]).name@,
    ) == chosen(b.rat@, yaixm.rat@[i].name@) by {
        let n = yaixm.rat@[i].name@;
        assert(feature_names(yaixm.rat@)[i] == n);
        assert(n != name);
        let ta = texts(a.rat@);
        let tb = texts(b.rat@);
        if ta.contains(n) {
            let k = choose|k: int| 0 <= k < ta.len() && ta[k] == n;
            assert(tb[k] == n);
        }
        if tb.contains(n) {
            let k = choose|k: int| 0 <= k < tb.len() && tb[k] == n;
            assert(k < ta.len());
            assert(ta[k] == n);
        }
    }
    lemma_alike_settings_select_alike(yaixm, a, b);
}

/// The replacements of two lists of agreements, one after the other.
pub proof fn lemma_replaces_concat(a: Seq<Loa>, b: Seq<Loa>, settings: Settings)
    ensures
        replaces(a + b, settings) == replaces(a, settings) + replaces(b, settings),
    decreases b.len(),
{
    if b.len() == 0 {
        assert(a + b =~= a);
        assert(replaces(a, settings) + replaces(b, settings) =~= replaces(a, settings));
    } else {
        lemma_replaces_concat(a, b.drop_last(), settings);
        assert((a + b).drop_last() =~= a + b.drop_last());
        assert((a + b).last() == b.last());
        assert(replaces(a + b, settings) =~= replaces(a, settings) + replaces(b, settings));
    }
}

/// The added features of two lists of agreements, one after the other.
pub proof fn lemma_added_concat(a: Seq<Loa>, b: Seq<Loa>, settings: Settings)
    ensures
        added_entries(a + b, settings) == added_entries(a, settings) + added_entries(b, settings),
    decreases b.len(),
{
    if b.len() == 0 {
        assert(a + b =~= a);
        assert(added_entries(a, settings) + added_entries(b, settings) =~= added_entries(
            a,
            settings,
        ));
    } else {
        lemma_added_concat(a, b.drop_last(), settings);
        assert((a + b).drop_last() =~= a + b.drop_last());
        assert((a + b).last() == b.last());
        assert(added_entries(a + b, settings) =~= added_entries(a, settings) + added_entries(
            b,
            settings,
        ));
    }
}

/// The airspace entries of two lists of features, one after the other.
pub proof fn lemma_airspace_concat(
    a: Seq<Feature>,
    b: Seq<Feature>,
    reps: Seq<Replace>,
    settings: Settings,
)
    ensures
        airspace_entries(a + b, reps, settings) == airspace_entries(a, reps, settings)
            + airspace_entries(b, reps, settings),
    decreases b.len(),
{
    if b.len() == 0 {
        assert(a + b =~= a);
        assert(airspace_entries(a, reps, settings) + airspace_entries(b, reps, settings)
            =~= airspace_entries(a, reps, settings));
    } else {
        lemma_airspace_concat(a, b.drop_last(), reps, settings);
        assert((a + b).drop_last() =~= a + b.drop_last());
        assert((a + b).last() == b.last());
        assert(airspace_entries(a + b, reps, settings) =~= airspace_entries(a, reps, settings)
            + airspace_entries(b, reps, settings));
    }
}

/// An agreement that is applied has its effects in the selection, at its
/// place among the agreements: its replacements stand among the
/// replacements, and the features of its areas among the added features.
pub proof fn lemma_applied_loa_takes_effect(loas: Seq<Loa>, settings: Settings, k: int)
    requires
        0 <= k < loas.len(),
        applied(loas[k], settings),
    ensures
        replaces(loas, settings) == replaces(loas.take(k), settings) + areas_replaces(
            loas[k].areas@,
        ) + replaces(loas.skip(k + 1), settings),
        added_entries(loas, settings) == added_entries(loas.take(k), settings) + areas_entries(
            loas[k].areas@,
            settings,
        ) + added_entries(loas.skip(k + 1), settings),
{
    let one = seq![loas[k]];
    assert(one.drop_last() =~= Seq::<Loa>::empty());
    assert(one.last() == loas[k]);
    assert(replaces(one.drop_last(), settings) =~= Seq::<Replace>::empty());
    assert(added_entries(one.drop_last(), settings) =~= Seq::<(Feature, Volume)>::empty());
    assert(replaces(one, settings) =~= areas_replaces(loas[k].areas@));
    assert(added_entries(one, settings) =~= areas_entries(loas[k].areas@, settings));
    assert(loas =~= (loas.take(k) + one) + loas.skip(k + 1));
    lemma_replaces_concat(loas.take(k) + one, loas.skip(k + 1), settings);
    lemma_replaces_concat(loas.take(k), one, settings);
    lemma_added_concat(loas.take(k) + one, loas.skip(k + 1), settings);
    lemma_added_concat(loas.take(k), one, settings);
}

/// An agreement in force by default takes effect under every settings,
/// chosen or not.
pub proof fn lemma_default_loa_takes_effect(loas: Seq<Loa>, settings: Settings, k: int)
    requires
        0 <= k < loas.len(),
        is_default(loas[k]),
    ensures
        applied(loas[k], settings),
        replaces(loas, settings) == replaces(loas.take(k), settings) + areas_replaces(
            loas[k].areas@,
        ) + replaces(loas.skip(k + 1), settings),
        added_entries(loas, settings) == added_entries(loas.take(k), settings) + areas_entries(
            loas[k].areas@,
            settings,
        ) + added_entries(loas.skip(k + 1), settings),
{
    lemma_applied_loa_takes_effect(loas, settings, k);
}

/// For an agreement in force by default it is all one whether its name is
/// chosen or not, as long as no other agreement of the dataset bears that
/// name: the same volumes are selected in the same order.
pub proof fn lemma_default_loa_needs_no_choosing(yaixm: Yaixm, a: Settings, b: Settings, k: int)
    requires
        0 <= k < yaixm.loa@.len(),
        is_default(yaixm.loa@[k]),
        forall|j: int|
            0 <= j < yaixm.loa@.len() && j != k ==> (#[trigger] yaixm.loa@[j]).name@
                != yaixm.loa@[k].name@,
        texts(b.loa@) == texts(a.loa@).push(yaixm.loa@[k].name@),
        texts(b.rat@) == texts(a.rat@),
        texts(b.wave@) == texts(a.wave@),
        a.gliding == b.gliding,
        a.exclude_notam == b.exclude_notam,
    ensures
        selection(yaixm, a) == selection(yaixm, b),
{
    let name = yaixm.loa@[k].name@;
    let ta = texts(a.loa@);
    let tb = texts(b.loa@);
    assert forall|j: int| 0 <= j < yaixm.loa@.len() implies applied(#[trigger] yaixm.loa@[j], a)
        == applied(yaixm.loa@[j], b) by {
        let n = yaixm.loa@[j].name@;
        if j != k {
            assert(n != name);
            if ta.contains(n) {
                let i = choose|i: int| 0 <= i < ta.len() && ta[i] == n;
                assert(tb[i] == n);
            }
            if tb.contains(n) {
                let i = choose|i: int| 0 <= i < tb.len() && tb[i] == n;
                assert(i < ta.len());
                assert(ta[i] == n);
            }
        }
    }
    lemma_alike_settings_select_alike(yaixm, a, b);
}

/// The replacement in force for an identifier is the last one that names it.
pub proof fn lemma_last_with_id(reps: Seq<Replace>, id: Seq<char>, j: int)
    requires
        0 <= j < reps.len(),
        reps[j].id@ == id,
        forall|later: int| j < later < reps.len() ==> (#[trigger] reps[later]).id@ != id,
    ensures
        last_with_id(reps, id) == Some(reps[j]),
    decreases reps.len(),
{
    if j < reps.len() - 1 {
        assert(reps[reps.len() - 1].id@ != id);
        assert forall|later: int| j < later < reps.drop_last().len() implies (
        #[trigger] reps.drop_last()[later]).id@ != id by {
            assert(reps.drop_last()[later] == reps[later]);
        }
        lemma_last_with_id(reps.drop_last(), id, j);
    }
}

/// Where a replacement is in force for a feature's identifier, the feature
/// stands in the selection with the replacement's volumes, and with none
/// of its own: what the features before it and after it contribute lies
/// around exactly those pairs.
pub proof fn lemma_replaced_feature_has_the_new_volumes(
    yaixm: Yaixm,
    settings: Settings,
    i: int,
    replacement: Replace,
)
    requires
        0 <= i < yaixm.airspace@.len(),
        keeps_airspace(yaixm.airspace@[i], settings),
        yaixm.airspace@[i].id is Some,
        last_with_id(replaces(yaixm.loa@, settings), yaixm.airspace@[i].id->0@) == Some(replacement),
    ensures
        geometry(yaixm.airspace@[i], replaces(yaixm.loa@, settings)) == replacement.geometry@,
        selection(yaixm, settings) == airspace_entries(
            yaixm.airspace@.take(i),
            replaces(yaixm.loa@, settings),
            settings,
        ) + pair_up(yaixm.airspace@[i], replacement.geometry@) + airspace_entries(
            yaixm.airspace@.skip(i + 1),
            replaces(yaixm.loa@, settings),
            settings,
        ) + added_entries(yaixm.loa@, settings) + rat_entries(yaixm.rat@, settings),
{
    let features = yaixm.airspace@;
    let reps = replaces(yaixm.loa@, settings);
    let one = seq![features[i]];
    assert(one.drop_last() =~= Seq::<Feature>::empty());
    assert(one.last() == features[i]);
    assert(airspace_entries(one.drop_last(), reps, settings) =~= Seq::<(Feature, Volume)>::empty());
    assert(airspace_entries(one, reps, settings) =~= pair_up(features[i], replacement.geometry@));
    assert(features =~= (features.take(i) + one) + features.skip(i + 1));
    lemma_airspace_concat(features.take(i) + one, features.skip(i + 1), reps, settings);
    lemma_airspace_concat(features.take(i), one, reps, settings);
}

} // verus!
