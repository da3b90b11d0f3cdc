//! What a base directory records of its generations.

use vstd::prelude::*;

verus! {


/// One installed generation: when it was installed, in seconds since the
/// epoch, and its id.
#[derive(Debug, Clone, PartialEq, Eq)]
pub struct Generation {
    pub timestamp: u64,
    pub id: String,
}

impl DeepView for Generation {
    type V = (u64, Seq<char>);

    open spec fn deep_view(&self) -> (u64, Seq<char>) {
        (self.timestamp, self.id@)
    }
}

/// What a base directory records of its generations.
#[derive(Debug, Clone, PartialEq, Eq)]
pub struct FileSystemMetadata {
    /// The generations, the oldest first, no two at one timestamp.
    pub generations: Vec<Generation>,
    pub active_generation: Option<String>,
}

/// The record as a mathematical value.
pub struct Fleet {
    pub generations: Seq<(u64, Seq<char>)>,
    pub active_generation: Option<Seq<char>>,
}

/// The timestamps rise strictly along the list.
pub open spec fn is_ordered(generations: Seq<(u64, Seq<char>)>) -> bool {
    forall|i: int, j: int| 0 <= i < j < generations.len() ==> generations[i].0 < generations[j].0
}

/// How often the id `id` is recorded.
pub open spec fn occurrences(generations: Seq<(u64, Seq<char>)>, id: Seq<char>) -> nat
    decreases generations.len(),
{
    if generations.len() == 0 {
        0
    } else {
        occurrences(generations.drop_first(), id) + if generations[0].1 == id {
            1nat
        } else {
            0nat
        }
    }
}

impl View for FileSystemMetadata {
    type V = Fleet;

    open spec fn view(&self) -> Fleet {
        Fleet {
            generations: self.generations.deep_view(),
            active_generation: self.active_generation.deep_view(),
        }
    }
}

/// What one generation published outside the base directory.
#[derive(Debug, Clone, PartialEq, Eq)]
pub struct DeployedSecretsMetadata {
    pub generation: String,
    pub secret_files: Vec<String>,
}

/// The list with `id` recorded at `timestamp`: in the place that the
/// timestamp gives it, and instead of what was recorded at that timestamp
/// before.
pub open spec fn recorded(generations: Seq<(u64, Seq<char>)>, timestamp: u64, id: Seq<char>) -> Seq<
    (u64, Seq<char>),
>
    decreases generations.len(),
{
    if generations.len() == 0 {
        seq![(timestamp, id)]
    } else if generations[0].0 < timestamp {
        seq![generations[0]] + recorded(generations.drop_first(), timestamp, id)
    } else if generations[0].0 == timestamp {
        seq![(timestamp, id)] + generations.drop_first()
    } else {
        seq![(timestamp, id)] + generations
    }
}

impl FileSystemMetadata {
    /// The record of a base directory in which nothing was installed yet.
    pub fn new() -> (metadata: FileSystemMetadata)
        ensures
            metadata@.generations.len() == 0,
            metadata@.active_generation.is_none(),
            metadata.wf(),
    {
        let metadata = FileSystemMetadata { generations: Vec::new(), active_generation: None };
        assert(metadata.generations.deep_view() =~= Seq::empty());
        metadata
    }

    /// The generations are in the order of their timestamps.
    pub open spec fn wf(&self) -> bool {
        is_ordered(self@.generations)
    }

    /// Whether the generations are in the order of their timestamps.
    pub fn is_wf(&self) -> (ordered: bool)
        ensures
            ordered == self.wf(),
    {
        let n = self.generations.len();
        if n == 0 {
            return true;
        }
        let mut i: usize = 1;
        while i < n
            invariant
                1 <= i <= n,
                n == self.generations.len(),
                forall|a: int, b: int|
                    0 <= a < b < i ==> self@.generations[a].0 < self@.generations[b].0,
            decreases n - i,
        {
            if self.generations[i - 1].timestamp >= self.generations[i].timestamp {
                assert(!(self@.generations[i - 1].0 < self@.generations[i as int].0));
                return false;
            }
            assert forall|a: int, b: int| 0 <= a < b < i + 1 implies self@.generations[a].0
                < self@.generations[b].0 by {
                if b == i && a < i - 1 {
                    assert(self@.generations[a].0 < self@.generations[i - 1].0);
                }
            }
            i += 1;
        }
        true
    }

    /// Records the generation `id` as installed at `timestamp` and makes it
    /// the active one. Returns the generation that was active before.
    pub fn record(&mut self, timestamp: u64, id: &str) -> (previous: Option<String>)
        requires
            old(self).wf(),
        ensures
            final(self).wf(),
            final(self)@.generations == recorded(old(self)@.generations, timestamp, id@),
            final(self)@.active_generation == Some(id@),
            previous.deep_view() == old(self)@.active_generation,
    {
        let ghost before = self@.generations;
        let n = self.generations.len();
        let mut i: usize = 0;
        while i < n && self.generations[i].timestamp < timestamp
            invariant
                i <= n,
                n == self.generations.len(),
                self@.generations == before,
                forall|j: int| 0 <= j < i ==> before[j].0 < timestamp,
            decreases n - i,
        {
            i += 1;
        }
        proof {
            lemma_recorded_at(before, timestamp, id@, i as int);
            lemma_recorded_is_ordered(before, timestamp, id@, i as int);
        }
        let entry = Generation { timestamp, id: id.to_owned() };
        if i < n && self.generations[i].timestamp == timestamp {
            self.generations[i] = entry;
            assert(self@.generations =~= before.take(i as int) + seq![(timestamp, id@)]
                + before.skip(i + 1));
        } else {
            self.generations.insert(i, entry);
            assert(self@.generations =~= before.take(i as int) + seq![(timestamp, id@)]
                + before.skip(i as int));
        }
        let previous = self.active_generation.take();
        self.active_generation = Some(id.to_owned());
        previous
    }
}

/// Where a new timestamp falls in an ordered list, the list is cut there
/// and the new entry set in, over the entry of the same timestamp if there
/// is one.
pub proof fn lemma_recorded_at(
    generations: Seq<(u64, Seq<char>)>,
    timestamp: u64,
    id: Seq<char>,
    at: int,
)
    requires
        0 <= at <= generations.len(),
        forall|j: int| 0 <= j < at ==> generations[j].0 < timestamp,
        at < generations.len() ==> generations[at].0 >= timestamp,
    ensures
        recorded(generations, timestamp, id) == generations.take(at) + seq![(timestamp, id)] + (
        if at < generations.len() && generations[at].0 == timestamp {
            generations.skip(at + 1)
        } else {
            generations.skip(at)
        }),
    decreases at,
{
    let tail = if at < generations.len() && generations[at].0 == timestamp {
        generations.skip(at + 1)
    } else {
        generations.skip(at)
    };
    if at == 0 {
        if generations.len() > 0 {
            assert(generations.skip(1) =~= generations.drop_first());
        }
        assert(generations.skip(0) =~= generations);
        assert(recorded(generations, timestamp, id) =~= generations.take(0) + seq![
            (timestamp, id),
        ] + tail);
    } else {
        let rest = generations.drop_first();
        assert(generations[0].0 < timestamp);
        assert forall|j: int| 0 <= j < at - 1 implies rest[j].0 < timestamp by {
            assert(rest[j] == generations[j + 1]);
        }
        lemma_recorded_at(rest, timestamp, id, at - 1);
        assert(rest.take(at - 1) =~= generations.take(at).drop_first());
        assert(rest.skip(at - 1) =~= generations.skip(at));
        if at < generations.len() {
            assert(rest[at - 1] == generations[at]);
            assert(rest.skip(at) =~= generations.skip(at + 1));
        }
        assert(recorded(generations, timestamp, id) =~= generations.take(at) + seq![
            (timestamp, id),
        ] + tail);
    }
}

/// Recording keeps the order of the timestamps.
pub proof fn lemma_recorded_is_ordered(
    generations: Seq<(u64, Seq<char>)>,
    timestamp: u64,
    id: Seq<char>,
    at: int,
)
    requires
        is_ordered(generations),
        0 <= at <= generations.len(),
        forall|j: int| 0 <= j < at ==> generations[j].0 < timestamp,
        at < generations.len() ==> generations[at].0 >= timestamp,
    ensures
        is_ordered(recorded(generations, timestamp, id)),
{
    lemma_recorded_at(generations, timestamp, id, at);
    let after = recorded(generations, timestamp, id);
    let replaces = at < generations.len() && generations[at].0 == timestamp;
    assert forall|a: int, b: int| 0 <= a < b < after.len() implies after[a].0 < after[b].0 by {
        let shift = if replaces {
            0int
        } else {
            1int
        };
        if b > at {
            assert(after[b] == generations[b - shift]);
            if b - shift > at {
                assert(generations[at].0 < generations[b - shift].0);
            }
        }
        if a > at {
            assert(after[a] == generations[a - shift]);
        }
        if a < at {
            assert(after[a] == generations[a]);
        }
        if b < at {
            assert(after[b] == generations[b]);
        }
    }
}

} // verus!
