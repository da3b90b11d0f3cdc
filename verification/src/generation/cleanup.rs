//! The clean-up of old generations.

use vstd::prelude::*;
use crate::generation::metadata::{
    is_ordered, occurrences, recorded, FileSystemMetadata, Generation,
};
use crate::generation::steps::{
    fleet_metadata_path, generation_path, get_generation_path, push_step, Change, Step,
};
use crate::text::{chained, same_text};

verus! {

/// What a clean-up does to a list of generations.
pub struct Sweep {
    /// The generations that were not looked at.
    pub kept: Seq<(u64, Seq<char>)>,
    /// The ids of the generations that are removed, the oldest first.
    pub removed: Seq<Seq<char>>,
    /// The active generation, where the clean-up came across it.
    pub aside: Option<(u64, Seq<char>)>,
}

/// Goes through the generations from the oldest on until `quota` of them
/// are removed or none is left: a generation with the active id is set
/// aside, every other one is removed.
pub open spec fn sweep(
    generations: Seq<(u64, Seq<char>)>,
    active: Option<Seq<char>>,
    quota: nat,
) -> Sweep
    decreases generations.len(),
{
    if quota == 0 || generations.len() == 0 {
        Sweep { kept: generations, removed: Seq::empty(), aside: None }
    } else if active == Some(generations[0].1) {
        let rest = sweep(generations.drop_first(), active, quota);
        Sweep {
            kept: rest.kept,
            removed: rest.removed,
            aside: if rest.aside.is_some() {
                rest.aside
            } else {
                Some(generations[0])
            },
        }
    } else {
        let rest = sweep(generations.drop_first(), active, (quota - 1) as nat);
        Sweep {
            kept: rest.kept,
            removed: seq![generations[0].1] + rest.removed,
            aside: rest.aside,
        }
    }
}

/// How many generations a clean-up that keeps `to_keep` of them sets out to
/// remove: those beyond `to_keep`, and none where there are fewer.
pub open spec fn quota(count: nat, to_keep: nat) -> nat {
    if count > to_keep {
        (count - to_keep) as nat
    } else {
        0
    }
}

/// The generations that are left after a clean-up: those not looked at, and
/// before them the active one if it was set aside.
pub open spec fn cleaned(
    generations: Seq<(u64, Seq<char>)>,
    active: Option<Seq<char>>,
    to_keep: nat,
) -> Seq<(u64, Seq<char>)> {
    let swept = sweep(generations, active, quota(generations.len(), to_keep));
    match swept.aside {
        Some(entry) => seq![entry] + swept.kept,
        None => swept.kept,
    }
}

/// The generations that a clean-up removes, the oldest first.
pub open spec fn swept_away(
    generations: Seq<(u64, Seq<char>)>,
    active: Option<Seq<char>>,
    to_keep: nat,
) -> Seq<Seq<char>> {
    sweep(generations, active, quota(generations.len(), to_keep)).removed
}

/// How often the active generation is recorded; zero where none is active.
pub open spec fn active_occurrences(
    generations: Seq<(u64, Seq<char>)>,
    active: Option<Seq<char>>,
) -> nat {
    match active {
        Some(id) => occurrences(generations, id),
        None => 0,
    }
}

/// What a sweep leaves is the end of the list, and what it sets aside
/// stood before that end.
pub proof fn lemma_sweep_shape(
    generations: Seq<(u64, Seq<char>)>,
    active: Option<Seq<char>>,
    quota: nat,
) -> (cut: int)
    ensures
        0 <= cut <= generations.len(),
        sweep(generations, active, quota).kept == generations.skip(cut),
        match sweep(generations, active, quota).aside {
            Some(entry) => exists|i: int| 0 <= i < cut && generations[i] == entry,
            None => true,
        },
    decreases generations.len(),
{
    if quota == 0 || generations.len() == 0 {
        assert(generations.skip(0) =~= generations);
        0
    } else {
        let rest = generations.drop_first();
        let next = if active == Some(generations[0].1) {
            quota
        } else {
            (quota - 1) as nat
        };
        let cut = lemma_sweep_shape(rest, active, next);
        assert(rest.skip(cut) =~= generations.skip(cut + 1));
        match sweep(rest, active, next).aside {
            Some(entry) => {
                let i = choose|i: int| 0 <= i < cut && rest[i] == entry;
                assert(generations[i + 1] == entry);
            },
            None => {
                assert(generations[0] == generations[0]);
            },
        }
        cut + 1
    }
}

/// A clean-up keeps the order of the timestamps.
pub proof fn lemma_cleaned_is_ordered(
    generations: Seq<(u64, Seq<char>)>,
    active: Option<Seq<char>>,
    to_keep: nat,
)
    requires
        is_ordered(generations),
    ensures
        is_ordered(cleaned(generations, active, to_keep)),
{
    let swept = sweep(generations, active, quota(generations.len(), to_keep));
    let cut = lemma_sweep_shape(generations, active, quota(generations.len(), to_keep));
    let after = cleaned(generations, active, to_keep);
    assert forall|a: int, b: int| 0 <= a < b < after.len() implies after[a].0 < after[b].0 by {
        match swept.aside {
            Some(entry) => {
                let i = choose|i: int| 0 <= i < cut && generations[i] == entry;
                assert(after[b] == generations[cut + b - 1]);
                if a > 0 {
                    assert(after[a] == generations[cut + a - 1]);
                }
            },
            None => {
                assert(after[a] == generations[cut + a]);
                assert(after[b] == generations[cut + b]);
            },
        }
    }
}

/// What a sweep removes and what it leaves, by number, where the active
/// generation is recorded at most once.
pub proof fn lemma_sweep_counts(
    generations: Seq<(u64, Seq<char>)>,
    active: Option<Seq<char>>,
    quota: nat,
)
    requires
        active_occurrences(generations, active) <= 1,
    ensures
        ({
            let swept = sweep(generations, active, quota);
            let others = generations.len() - active_occurrences(generations, active);
            &&& swept.removed.len() == if quota <= others {
                quota as int
            } else {
                others
            }
            &&& swept.kept.len() + swept.removed.len() + if swept.aside.is_some() {
                1int
            } else {
                0int
            } == generations.len()
            &&& swept.aside.is_some() ==> active_occurrences(generations, active) == 1
                && active == Some(swept.aside.unwrap().1)
            &&& active_occurrences(generations, active) == 1 ==> swept.aside.is_some()
                || exists|i: int| 0 <= i < swept.kept.len() && swept.kept[i].1 == active.unwrap()
        }),
    decreases generations.len(),
{
    if quota == 0 || generations.len() == 0 {
        if active_occurrences(generations, active) == 1 {
            lemma_occurs(generations, active.unwrap());
        }
    } else {
        let rest = generations.drop_first();
        let swept = sweep(generations, active, quota);
        if active == Some(generations[0].1) {
            assert(active_occurrences(generations, active) == active_occurrences(rest, active)
                + 1);
            lemma_sweep_counts(rest, active, quota);
            let inner = sweep(rest, active, quota);
            assert(inner.aside.is_none());
            assert(swept.aside == Some(generations[0]));
            assert(swept.kept == inner.kept);
            assert(swept.removed == inner.removed);
        } else {
            assert(active_occurrences(generations, active) == active_occurrences(rest, active));
            lemma_sweep_counts(rest, active, (quota - 1) as nat);
            let inner = sweep(rest, active, (quota - 1) as nat);
            assert(swept.aside == inner.aside);
            assert(swept.kept == inner.kept);
            assert(swept.removed.len() == inner.removed.len() + 1);
        }
    }
}

/// An id that is recorded stands somewhere in the list.
pub proof fn lemma_occurs(generations: Seq<(u64, Seq<char>)>, id: Seq<char>)
    requires
        occurrences(generations, id) >= 1,
    ensures
        exists|i: int| 0 <= i < generations.len() && generations[i].1 == id,
    decreases generations.len(),
{
    if generations[0].1 == id {
    } else {
        lemma_occurs(generations.drop_first(), id);
        let i = choose|i: int|
            0 <= i < generations.drop_first().len() && generations.drop_first()[i].1 == id;
        assert(generations[i + 1].1 == id);
    }
}

/// After a clean-up that keeps `to_keep` generations, their number is the
/// smaller of the number before and the larger of `to_keep` and one, and
/// the active generation is among them. This holds where the active
/// generation is recorded at most once, and is recorded at all where
/// nothing is to be kept of a list that is not empty.
pub proof fn lemma_clean_up_keeps(
    generations: Seq<(u64, Seq<char>)>,
    active: Option<Seq<char>>,
    to_keep: nat,
)
    requires
        active_occurrences(generations, active) <= 1,
        to_keep == 0 && generations.len() > 0 ==> active_occurrences(generations, active) == 1,
    ensures
        cleaned(generations, active, to_keep).len() == vstd::math::min(
            generations.len() as int,
            vstd::math::max(to_keep as int, 1),
        ),
        active_occurrences(generations, active) == 1 ==> exists|i: int|
            0 <= i < cleaned(generations, active, to_keep).len() && cleaned(
                generations,
                active,
                to_keep,
            )[i].1 == active.unwrap(),
{
    lemma_sweep_counts(generations, active, quota(generations.len(), to_keep));
    let swept = sweep(generations, active, quota(generations.len(), to_keep));
    let after = cleaned(generations, active, to_keep);
    if active_occurrences(generations, active) == 1 {
        if swept.aside.is_some() {
            assert(after[0].1 == active.unwrap());
        } else {
            let i = choose|i: int| 0 <= i < swept.kept.len() && swept.kept[i].1 == active.unwrap();
            assert(after[i].1 == active.unwrap());
        }
    }
}

/// A list in which the id `id` is recorded nowhere holds it exactly once
/// after it is recorded, at the timestamp under which it was recorded.
pub proof fn lemma_recorded_once(generations: Seq<(u64, Seq<char>)>, timestamp: u64, id: Seq<char>)
    requires
        occurrences(generations, id) == 0,
    ensures
        occurrences(recorded(generations, timestamp, id), id) == 1,
        forall|i: int|
            0 <= i < recorded(generations, timestamp, id).len() && (#[trigger] recorded(
                generations,
                timestamp,
                id,
            )[i]).1 == id ==> recorded(generations, timestamp, id)[i] == (timestamp, id),
    decreases generations.len(),
{
    let after = recorded(generations, timestamp, id);
    if generations.len() == 0 {
        assert(after.drop_first() =~= Seq::empty());
        assert(occurrences(after.drop_first(), id) == 0);
        assert(after[0].1 == id);
    } else if generations[0].0 < timestamp {
        let rest = generations.drop_first();
        assert(occurrences(rest, id) == 0 && generations[0].1 != id);
        lemma_recorded_once(rest, timestamp, id);
        let tail = recorded(rest, timestamp, id);
        assert(after.drop_first() =~= tail);
        assert(after[0] == generations[0]);
        assert forall|i: int| 0 <= i < after.len() && (#[trigger] after[i]).1 == id implies after[i]
            == (timestamp, id) by {
            if i > 0 {
                assert(after[i] == tail[i - 1]);
            }
        }
    } else if generations[0].0 == timestamp {
        assert(after.drop_first() =~= generations.drop_first());
        assert(occurrences(generations.drop_first(), id) == 0);
        assert(after[0].1 == id);
        lemma_not_recorded(generations.drop_first(), id);
        assert forall|i: int| 0 <= i < after.len() && (#[trigger] after[i]).1 == id implies after[i]
            == (timestamp, id) by {
            if i > 0 {
                assert(after[i] == generations.drop_first()[i - 1]);
            }
        }
    } else {
        assert(after.drop_first() =~= generations);
        assert(after[0].1 == id);
        lemma_not_recorded(generations, id);
        assert forall|i: int| 0 <= i < after.len() && (#[trigger] after[i]).1 == id implies after[i]
            == (timestamp, id) by {
            if i > 0 {
                assert(after[i] == generations[i - 1]);
            }
        }
    }
}

/// An id that is recorded nowhere stands nowhere in the list.
pub proof fn lemma_not_recorded(generations: Seq<(u64, Seq<char>)>, id: Seq<char>)
    requires
        occurrences(generations, id) == 0,
    ensures
        forall|i: int| 0 <= i < generations.len() ==> (#[trigger] generations[i]).1 != id,
    decreases generations.len(),
{
    if generations.len() > 0 {
        lemma_not_recorded(generations.drop_first(), id);
        assert forall|i: int| 0 <= i < generations.len() implies (#[trigger] generations[i]).1
            != id by {
            if i > 0 {
                assert(generations[i] == generations.drop_first()[i - 1]);
            }
        }
    }
}

/// After an installation under an id that was not recorded before, and the
/// clean-up that keeps one generation, the record holds the new generation
/// and no other.
pub proof fn lemma_install_leaves_the_new_generation(
    generations: Seq<(u64, Seq<char>)>,
    timestamp: u64,
    id: Seq<char>,
)
    requires
        occurrences(generations, id) == 0,
    ensures
        cleaned(recorded(generations, timestamp, id), Some(id), 1) == seq![(timestamp, id)],
{
    let after = recorded(generations, timestamp, id);
    let active = Some(id);
    lemma_recorded_once(generations, timestamp, id);
    lemma_occurs(after, id);
    lemma_clean_up_keeps(after, active, 1);
    let left = cleaned(after, active, 1);
    let swept = sweep(after, active, quota(after.len(), 1));
    let cut = lemma_sweep_shape(after, active, quota(after.len(), 1));
    assert(left.len() == 1);
    assert(left[0].1 == id);
    match swept.aside {
        Some(entry) => {
            let at = choose|at: int| 0 <= at < cut && after[at] == entry;
            assert(left[0] == after[at]);
        },
        None => {
            assert(left[0] == after[cut]);
        },
    }
    assert(left =~= seq![(timestamp, id)]);
}

/// The steps that remove the directories of the generations `ids`.
pub open spec fn directory_removals(basedir: Seq<char>, ids: Seq<Seq<char>>) -> Seq<Change> {
    Seq::new(ids.len(), |i: int| Change::RemoveDirAll { path: generation_path(basedir, ids[i]) })
}

/// A planned clean-up.
#[derive(Debug, Clone, PartialEq, Eq)]
pub struct Cleanup {
    /// The record of the base directory after the clean-up.
    pub metadata: FileSystemMetadata,
    /// What is to be done, in this order.
    pub steps: Vec<Step>,
}

/// `planned` is the clean-up of the record `metadata` that keeps `to_keep`
/// generations: its record holds the generations that are left and the same
/// active generation, and its steps remove the directories of the others
/// and write the record.
pub open spec fn is_cleanup_of(
    planned: Cleanup,
    basedir: Seq<char>,
    metadata: FileSystemMetadata,
    to_keep: nat,
) -> bool {
    &&& planned.metadata@.generations == cleaned(
        metadata@.generations,
        metadata@.active_generation,
        to_keep,
    )
    &&& planned.metadata@.active_generation == metadata@.active_generation
    &&& planned.steps.deep_view() == directory_removals(
        basedir,
        swept_away(metadata@.generations, metadata@.active_generation, to_keep),
    ) + seq![Change::WriteFleetMetadata { path: fleet_metadata_path(basedir), lenient: false }]
}

/// Plans the removal of old generations so that `to_keep` of them are
/// left: the oldest ones go first, and the active one never goes.
pub fn clean_old_generations(basedir: &str, metadata: FileSystemMetadata, to_keep: usize) -> (planned:
    Cleanup)
    ensures
        is_cleanup_of(planned, basedir@, metadata, to_keep as nat),
        metadata.wf() ==> planned.metadata.wf(),
{
    let ghost all = metadata@.generations;
    let ghost active = metadata@.active_generation;
    let FileSystemMetadata { generations, active_generation } = metadata;
    let n = generations.len();
    let limit: usize = if n > to_keep {
        n - to_keep
    } else {
        0
    };
    let mut steps: Vec<Step> = Vec::new();
    let mut aside: Option<Generation> = None;
    let mut removed: usize = 0;
    let mut i: usize = 0;
    let ghost mut gone: Seq<Seq<char>> = Seq::empty();
    proof {
        assert(all.skip(0) =~= all);
        assert(steps.deep_view() =~= directory_removals(basedir@, gone));
        assert(gone + sweep(all, active, limit as nat).removed =~= sweep(
            all,
            active,
            limit as nat,
        ).removed);
    }
    while removed < limit && i < n
        invariant
            i <= n,
            removed <= limit,
            n == generations.len(),
            all == generations.deep_view(),
            active == active_generation.deep_view(),
            steps.deep_view() == directory_removals(basedir@, gone),
            sweep(all, active, limit as nat).kept == sweep(
                all.skip(i as int),
                active,
                (limit - removed) as nat,
            ).kept,
            sweep(all, active, limit as nat).removed == gone + sweep(
                all.skip(i as int),
                active,
                (limit - removed) as nat,
            ).removed,
            sweep(all, active, limit as nat).aside == (if sweep(
                all.skip(i as int),
                active,
                (limit - removed) as nat,
            ).aside.is_some() {
                sweep(all.skip(i as int), active, (limit - removed) as nat).aside
            } else {
                aside.deep_view()
            }),
        decreases n - i,
    {
        let entry = &generations[i];
        proof {
            assert(all.skip(i as int)[0] == all[i as int]);
            assert(all[i as int] == (entry.timestamp, entry.id@));
            assert(all.skip(i as int).drop_first() =~= all.skip(i + 1));
        }
        let is_active = match &active_generation {
            Some(id) => same_text(id.as_str(), entry.id.as_str()),
            None => false,
        };
        if is_active {
            aside = Some(Generation { timestamp: entry.timestamp, id: entry.id.clone() });
        } else {
            removed += 1;
            push_step(
                &mut steps,
                Step::RemoveDirAll { path: get_generation_path(basedir, entry.id.as_str()) },
            );
            proof {
                let ghost before = gone;
                gone = gone.push(entry.id@);
                assert(steps.deep_view() =~= directory_removals(basedir@, gone));
                assert(before + (seq![entry.id@] + sweep(
                    all.skip(i + 1),
                    active,
                    (limit - removed) as nat,
                ).removed) =~= gone + sweep(
                    all.skip(i + 1),
                    active,
                    (limit - removed) as nat,
                ).removed);
            }
        }
        i += 1;
    }
    proof {
        let rest = sweep(all.skip(i as int), active, (limit - removed) as nat);
        assert(rest.kept == all.skip(i as int));
        assert(rest.removed =~= Seq::empty());
        assert(rest.aside.is_none());
        assert(gone + rest.removed =~= gone);
    }
    let mut kept: Vec<Generation> = Vec::new();
    match aside {
        Some(entry) => {
            kept.push(entry);
        },
        None => {},
    }
    let ghost front = kept.deep_view();
    let mut j: usize = i;
    assert(kept.deep_view() =~= front + all.subrange(i as int, j as int));
    while j < n
        invariant
            i <= j <= n,
            n == generations.len(),
            all == generations.deep_view(),
            kept.deep_view() == front + all.subrange(i as int, j as int),
        decreases n - j,
    {
        let entry = &generations[j];
        let ghost before = kept.deep_view();
        kept.push(Generation { timestamp: entry.timestamp, id: entry.id.clone() });
        assert(kept.deep_view() =~= before.push(all[j as int]));
        assert(kept.deep_view() =~= front + all.subrange(i as int, j + 1));
        j += 1;
    }
    assert(all.subrange(i as int, n as int) =~= all.skip(i as int));
    push_step(
        &mut steps,
        Step::WriteFleetMetadata { path: chained(basedir, "/metadata.json"), lenient: false },
    );
    let planned = Cleanup {
        metadata: FileSystemMetadata { generations: kept, active_generation },
        steps,
    };
    proof {
        assert(planned.metadata@.generations =~= cleaned(all, active, to_keep as nat));
        assert(planned.steps.deep_view() =~= directory_removals(basedir@, gone) + seq![
            Change::WriteFleetMetadata { path: fleet_metadata_path(basedir@), lenient: false },
        ]);
        if is_ordered(all) {
            lemma_cleaned_is_ordered(all, active, to_keep as nat);
        }
    }
    planned
}

} // verus!
