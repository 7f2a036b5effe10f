//! The process registry: the table of currently running supervised jobs,
//! keyed by a caller-chosen identifier.  Every exit path removes the job's
//! entry, and at orderly shutdown the whole table is drained so that no
//! child process outlives the application.  The caller wraps one registry
//! in its lock; the logic here is the table itself.

use vstd::prelude::*;
use crate::text::str_eq;

verus! {

/// One running job: its identifier and the live child handle.
pub struct RegistryEntry {
    pub id: String,
    pub handle: tokio::process::Child,
}

/// The table of currently running supervised jobs.  Identifiers are unique:
/// registering under a taken identifier replaces the old entry.
pub struct ProcessRegistry {
    entries: Vec<RegistryEntry>,
}

impl ProcessRegistry {
    /// The identifiers of the registered jobs, in insertion order.
    pub closed spec fn ids(self) -> Seq<Seq<char>> {
        Seq::new(self.entries@.len(), |i: int| self.entries@[i].id@)
    }

    /// A job with this identifier is registered.
    pub closed spec fn contains_id(self, id: Seq<char>) -> bool {
        self.ids().contains(id)
    }

    /// No two entries share an identifier.
    pub closed spec fn well_formed(self) -> bool {
        self.ids().no_duplicates()
    }

    /// An empty registry.
    pub fn new() -> (r: Self)
        ensures
            r.ids() == Seq::<Seq<char>>::empty(),
            forall|id: Seq<char>| !r.contains_id(id),
            r.well_formed(),
    {
        let r = ProcessRegistry { entries: Vec::new() };
        proof {
            assert(r.ids() =~= Seq::<Seq<char>>::empty());
        }
        r
    }

    /// How many jobs are registered.
    pub fn job_count(&self) -> (r: usize)
        ensures
            r == self.ids().len(),
    {
        self.entries.len()
    }

    /// Whether a job with this identifier is registered.
    pub fn contains_job(&self, id: &str) -> (r: bool)
        ensures
            r == self.contains_id(id@),
    {
        let mut i: usize = 0;
        while i < self.entries.len()
            invariant
                i <= self.entries@.len(),
                forall|j: int| 0 <= j < i ==> self.ids()[j] != id@,
            decreases self.entries@.len() - i,
        {
            if str_eq(self.entries[i].id.as_str(), id) {
                assert(self.ids()[i as int] == id@);
                return true;
            }
            i = i + 1;
        }
        false
    }

    /// Removes the job registered under `id`; absence is not an error.
    pub fn unregister_process(&mut self, id: &str)
        requires
            old(self).well_formed(),
        ensures
            !final(self).contains_id(id@),
            forall|other: Seq<char>|
                other != id@ ==> (final(self).contains_id(other) <==> old(self).contains_id(
                    other,
                )),
            final(self).well_formed(),
            final(self).ids().len() >= old(self).ids().len() - 1,
    {
        let ghost ids0 = self.ids();
        let mut i: usize = 0;
        while i < self.entries.len()
            invariant
                *self == *old(self),
                ids0 == self.ids(),
                ids0.no_duplicates(),
                i <= ids0.len(),
                ids0.len() == self.entries@.len(),
                forall|j: int| 0 <= j < i ==> ids0[j] != id@,
            decreases ids0.len() - i,
        {
            if str_eq(self.entries[i].id.as_str(), id) {
                proof {
                    assert(ids0[i as int] == id@);
                }
                self.entries.remove(i);
                proof {
                    assert(self.ids() =~= ids0.remove(i as int));
                    let now = self.ids();
                    assert(ids0.no_duplicates());
                    assert forall|j: int| 0 <= j < now.len() implies now[j] != id@ by {
                        if j < i {
                            assert(now[j] == ids0[j]);
                        } else {
                            assert(now[j] == ids0[j + 1]);
                            assert(ids0[j + 1] != ids0[i as int]);
                        }
                    }
                    if self.contains_id(id@) {
                        let j = choose|j: int| 0 <= j < now.len() && now[j] == id@;
                        assert(false);
                    }
                    assert forall|other: Seq<char>| other != id@ implies (
                    self.contains_id(other) <==> old(self).contains_id(other)) by {
                        if self.contains_id(other) {
                            let j = choose|j: int| 0 <= j < now.len() && now[j] == other;
                            if j < i {
                                assert(ids0[j] == other);
                            } else {
                                assert(ids0[j + 1] == other);
                            }
                        }
                        if old(self).contains_id(other) {
                            let j = choose|j: int| 0 <= j < ids0.len() && ids0[j] == other;
                            if j < i {
                                assert(now[j] == other);
                            } else if j > i {
                                assert(now[j - 1] == other);
                            }
                        }
                    }
                    assert forall|a: int, b: int|
                        0 <= a < b < now.len() implies now[a] != now[b] by {
                        let a0 = if a < i {
                            a
                        } else {
                            a + 1
                        };
                        let b0 = if b < i {
                            b
                        } else {
                            b + 1
                        };
                        assert(now[a] == ids0[a0]);
                        assert(now[b] == ids0[b0]);
                        assert(0 <= a0 < ids0.len() && 0 <= b0 < ids0.len() && a0 != b0);
                        assert(ids0[a0] != ids0[b0]);
                    }
                }
                return ;
            }
            i = i + 1;
        }
    }

    /// Registers a job under `id`, replacing any entry with that identifier.
    pub fn register_process(&mut self, id: String, handle: tokio::process::Child)
        requires
            old(self).well_formed(),
        ensures
            final(self).contains_id(id@),
            forall|other: Seq<char>|
                other != id@ ==> (final(self).contains_id(other) <==> old(self).contains_id(
                    other,
                )),
            final(self).well_formed(),
    {
        self.unregister_process(id.as_str());
        let ghost mid = *self;
        self.entries.push(RegistryEntry { id, handle });
        proof {
            let now = self.ids();
            assert(now =~= mid.ids().push(id@));
            assert(now[now.len() - 1] == id@);
            assert forall|other: Seq<char>| other != id@ implies (self.contains_id(other)
                <==> mid.contains_id(other)) by {
                if self.contains_id(other) {
                    let j = choose|j: int| 0 <= j < now.len() && now[j] == other;
                    assert(mid.ids()[j] == other);
                }
                if mid.contains_id(other) {
                    let j = choose|j: int| 0 <= j < mid.ids().len() && mid.ids()[j] == other;
                    assert(now[j] == other);
                }
            }
            assert forall|a: int, b: int| 0 <= a < b < now.len() implies now[a] != now[b] by {
                if b == now.len() - 1 {
                    assert(now[a] == mid.ids()[a]);
                    if now[a] == id@ {
                        assert(mid.contains_id(id@));
                        assert(false);
                    }
                } else {
                    assert(now[a] == mid.ids()[a]);
                    assert(now[b] == mid.ids()[b]);
                }
            }
        }
    }

    /// Takes every entry out, newest first, leaving the registry empty; the
    /// caller reaps each returned job's process tree.
    pub fn drain_jobs(&mut self) -> (out: Vec<RegistryEntry>)
        ensures
            final(self).ids() == Seq::<Seq<char>>::empty(),
            Seq::new(out@.len(), |i: int| out@[i].id@) == old(self).ids().reverse(),
    {
        let ghost ids0 = self.ids();
        let mut out: Vec<RegistryEntry> = Vec::new();
        while self.entries.len() > 0
            invariant
                ids0.len() == old(self).ids().len(),
                ids0 == old(self).ids(),
                self.ids() =~= ids0.take(self.entries@.len() as int),
                self.entries@.len() + out@.len() == ids0.len(),
                forall|i: int| 0 <= i < out@.len() ==> out@[i].id@ == ids0[ids0.len() - 1 - i],
            decreases self.entries@.len(),
        {
            let ghost k = self.entries@.len() as int;
            let ghost pre_ids = self.ids();
            let e = self.entries.pop().unwrap();
            proof {
                assert(pre_ids[k - 1] == ids0[k - 1]);
                assert(e.id@ == pre_ids[k - 1]);
            }
            out.push(e);
            proof {
                assert(self.ids() =~= ids0.take(self.entries@.len() as int));
            }
        }
        proof {
            assert(self.ids() =~= Seq::<Seq<char>>::empty());
            assert(Seq::new(out@.len(), |i: int| out@[i].id@) =~= ids0.reverse());
        }
        out
    }
}

} // verus!
