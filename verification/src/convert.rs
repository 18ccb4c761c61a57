//! An export from end to end.
//!
//! `prepare` selects the volumes and reads each boundary into steps. The
//! caller samples the rings and sweeps, and `Job::block` makes a block of
//! each job and its samples. `export` writes the blocks, and the overlay
//! behind them.

use crate::boundary::{outline_points, is_lone_ring, plan, planned_steps, shape, Shape, Step};
use crate::error::ConversionError;
use crate::geo::LatLon;
use crate::openair::{openair, openair_text, Block};
use crate::select::{pairs, select, selection, Entry};
use crate::settings::{Overlay, Settings};
use crate::yaixm::{Feature, Release, Volume, Yaixm};
use vstd::prelude::*;
use vstd::string::*;

verus! {

/// A selected volume with the steps of its outline.
#[derive(Debug)]
pub struct Job<'a> {
    pub entry: Entry<'a>,
    pub steps: Vec<Step>,
}

/// The volume whose boundary could not be read, and why.
#[derive(Debug)]
pub struct Failure<'a> {
    pub entry: Entry<'a>,
    pub error: ConversionError,
}

/// The overlay texts as far as they were fetched.
#[derive(Clone, Debug)]
pub struct OverlayData {
    pub overlay_195: Option<String>,
    pub overlay_105: Option<String>,
    pub overlay_atzdz: Option<String>,
}

/// The name under which an export is offered for download.
pub const FILENAME: &'static str = "openair.txt";

/// The steps of every volume, or the place and the error of the first
/// volume whose boundary cannot be read.
pub open spec fn planned_all(entries: Seq<(Feature, Volume)>) -> Result<
    Seq<Seq<Step>>,
    (int, ConversionError),
>
    decreases entries.len(),
{
    if entries.len() == 0 {
        Ok(Seq::empty())
    } else {
        match planned_all(entries.drop_last()) {
            Err(failure) => Err(failure),
            Ok(earlier) => match planned_steps(entries.last().1.boundary@) {
                Ok(steps) => Ok(earlier.push(steps)),
                Err(e) => Err((entries.len() - 1, e)),
            },
        }
    }
}

/// Where the beginning of a list fails, the list fails at the same place
/// with the same error.
pub proof fn lemma_planned_all_prefix(entries: Seq<(Feature, Volume)>, n: int)
    requires
        0 <= n <= entries.len(),
        planned_all(entries.take(n)) is Err,
    ensures
        planned_all(entries) == planned_all(entries.take(n)),
    decreases entries.len(),
{
    if n < entries.len() {
        assert(entries.drop_last().take(n) =~= entries.take(n));
        lemma_planned_all_prefix(entries.drop_last(), n);
    } else {
        assert(entries.take(n) =~= entries);
    }
}

/// Reads the boundary of each entry.
fn plan_entries<'a>(entries: &Vec<Entry<'a>>) -> (res: Result<Vec<Job<'a>>, Failure<'a>>)
    ensures
        match planned_all(pairs(entries@)) {
            Ok(all) => res matches Ok(jobs) && jobs@.len() == all.len() && all.len()
                == entries@.len() && forall|i: int|
                0 <= i < all.len() ==> (#[trigger] jobs@[i]).steps@ == all[i] && jobs@[i].entry
                    == entries@[i],
            Err((at, e)) => res matches Err(failure) && failure.error == e && 0 <= at
                < entries@.len() && failure.entry == entries@[at],
        },
{
    let ghost chosen = pairs(entries@);
    let ghost mut done: Seq<Seq<Step>> = Seq::empty();
    let mut jobs: Vec<Job<'a>> = Vec::new();
    let mut i: usize = 0;
    assert(chosen.take(0) =~= Seq::<(Feature, Volume)>::empty());
    while i < entries.len()
        invariant
            i <= entries@.len(),
            chosen == pairs(entries@),
            planned_all(chosen.take(i as int)) == Ok::<Seq<Seq<Step>>, (int, ConversionError)>(done),
            jobs@.len() == i,
            done.len() == i,
            forall|k: int|
                0 <= k < i ==> (#[trigger] jobs@[k]).steps@ == done[k] && jobs@[k].entry
                    == entries@[k],
        decreases entries@.len() - i,
    {
        let entry = entries[i];
        proof {
            let next = chosen.take(i + 1);
            assert(next.drop_last() =~= chosen.take(i as int));
            assert(next.last() == chosen[i as int]);
            assert(next.last().1 == *entry.volume);
        }
        match plan(&entry.volume.boundary) {
            Ok(steps) => {
                proof {
                    done = done.push(steps@);
                }
                jobs.push(Job { entry, steps });
            },
            Err(error) => {
                proof {
                    lemma_planned_all_prefix(chosen, i + 1);
                }
                return Err(Failure { entry, error });
            },
        }
        i += 1;
    }
    assert(chosen.take(chosen.len() as int) =~= chosen);
    Ok(jobs)
}

/// Selects the volumes of an export and reads the boundary of each.
///
/// One boundary that cannot be read fails the whole export: the volume is
/// handed back with the error, and nothing is left out in silence.
pub fn prepare<'a>(yaixm: &'a Yaixm, settings: &Settings) -> (res: Result<
    Vec<Job<'a>>,
    Failure<'a>,
>)
    ensures
        match planned_all(selection(*yaixm, *settings)) {
            Ok(all) => res matches Ok(jobs) && jobs@.len() == all.len() && all.len() == selection(
                *yaixm,
                *settings,
            ).len() && forall|i: int|
                0 <= i < all.len() ==> (#[trigger] jobs@[i]).steps@ == all[i] && (
                    *jobs@[i].entry.feature,
                    *jobs@[i].entry.volume,
                ) == selection(*yaixm, *settings)[i],
            Err((at, e)) => res matches Err(failure) && failure.error == e && 0 <= at < selection(
                *yaixm,
                *settings,
            ).len() && (*failure.entry.feature, *failure.entry.volume) == selection(
                *yaixm,
                *settings,
            )[at],
        },
{
    let entries = select(yaixm, settings);
    let res = plan_entries(&entries);
    proof {
        let chosen = selection(*yaixm, *settings);
        assert(chosen == pairs(entries@));
        assert forall|i: int| 0 <= i < entries@.len() implies (
            *(#[trigger] entries@[i]).feature,
            *entries@[i].volume,
        ) == chosen[i] by {}
    }
    res
}

impl<'a> Job<'a> {
    /// Makes the block of the job from the samples of its steps. There is
    /// none where the samples do not fit the steps.
    pub fn block(self, samples: &Vec<Vec<LatLon>>) -> (res: Option<Block<'a>>)
        ensures
            res matches Some(block) ==> block.entry == self.entry,
            is_lone_ring(self.steps@) ==> res is Some && res->0.shape == (Shape::Circle {
                centre: self.steps@[0]->Ring_centre,
                radius: self.steps@[0]->Ring_radius,
            }),
            !is_lone_ring(self.steps@) ==> (res is Some <==> outline_points(self.steps@, samples@)
                is Some),
            !is_lone_ring(self.steps@) ==> (res matches Some(block) ==> block.shape matches Shape::Polygon(
                points,
            ) && points@ == outline_points(self.steps@, samples@)->0),
    {
        match shape(&self.steps, samples) {
            Some(shape) => Some(Block { entry: self.entry, shape }),
            None => None,
        }
    }
}

/// What is put behind the airspace for an overlay: nothing where none is
/// chosen, the chosen text where it was fetched, and else a comment that
/// says what is missing.
pub open spec fn overlay_text(choice: Option<Overlay>, data: Option<OverlayData>) -> Seq<char> {
    match choice {
        None => ""@,
        Some(overlay) => match data {
            None => "* Overlay data not loaded"@,
            Some(texts) => {
                let text = match overlay {
                    Overlay::FL195 => texts.overlay_195,
                    Overlay::FL105 => texts.overlay_105,
                    Overlay::AtzDz => texts.overlay_atzdz,
                };
                match text {
                    Some(t) => t@,
                    None => "* Missing overlay data"@,
                }
            },
        },
    }
}

/// Writes the whole download: the export, and behind it the overlay text
/// as it stands, or the comment that says why there is none.
pub fn export(
    release: &Release,
    client_id: &str,
    blocks: &Vec<Block>,
    choice: Option<Overlay>,
    data: Option<&OverlayData>,
) -> (out: String)
    ensures
        out@ == openair_text(*release, client_id@, blocks@) + overlay_text(
            choice,
            match data {
                Some(d) => Some(*d),
                None => None,
            },
        ),
{
    let mut out = openair(release, client_id, blocks);
    match choice {
        None => {
            proof {
                reveal_strlit("");
            }
            assert(out@ =~= out@ + ""@);
        },
        Some(overlay) => match data {
            None => out.append("* Overlay data not loaded"),
            Some(texts) => {
                let text = match overlay {
                    Overlay::FL195 => &texts.overlay_195,
                    Overlay::FL105 => &texts.overlay_105,
                    Overlay::AtzDz => &texts.overlay_atzdz,
                };
                match text {
                    Some(t) => out.append(t.as_str()),
                    None => out.append("* Missing overlay data"),
                }
            },
        },
    }
    out
}

} // verus!
