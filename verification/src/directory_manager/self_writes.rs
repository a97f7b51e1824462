//! What the daemon itself has just written to disk.
//!
//! Each write is recorded, so that the watcher event that it causes can be told from
//! an action of the user.

use vstd::prelude::*;
use crate::path_text::{components, same_path};
use crate::text::{optional_str, optional_text, same_text};

verus! {

/// The last record for a path, by the path's components.
pub open spec fn last_record(
    records: Seq<(String, Option<String>)>,
    path: Seq<Seq<char>>,
) -> Option<Option<Seq<char>>>
    decreases records.len(),
{
    if records.len() == 0 {
        None
    } else if components(records.last().0@) == path {
        Some(optional_text(records.last().1))
    } else {
        last_record(records.drop_last(), path)
    }
}

/// The writes of the daemon that no watcher event has been matched with yet.
pub struct SelfWrites {
    records: Vec<(String, Option<String>)>,
}

/// Whether an event for a path reflects a recorded write. `observed` is the digest of
/// what now lies there, where the event is about content: it must not contradict the
/// record.
pub open spec fn reflects(
    writes: Map<Seq<Seq<char>>, Option<Seq<char>>>,
    path: Seq<char>,
    observed: Option<Seq<char>>,
) -> bool {
    writes.contains_key(components(path)) && (observed is None || writes[components(path)] is None
        || observed == writes[components(path)])
}

/// The writes that remain once an event for a path has been matched.
pub open spec fn after_event(
    writes: Map<Seq<Seq<char>>, Option<Seq<char>>>,
    path: Seq<char>,
    observed: Option<Seq<char>>,
) -> Map<Seq<Seq<char>>, Option<Seq<char>>> {
    if reflects(writes, path, observed) {
        writes.remove(components(path))
    } else {
        writes
    }
}

impl SelfWrites {
    /// For each written path, by its components, the digest of what was written:
    /// `None` for a removal or a rename.
    pub closed spec fn view(&self) -> Map<Seq<Seq<char>>, Option<Seq<char>>> {
        Map::new(
            |path: Seq<Seq<char>>| last_record(self.records@, path) is Some,
            |path: Seq<Seq<char>>| last_record(self.records@, path)->0,
        )
    }

    pub fn new() -> (r: Self)
        ensures
            r@ == Map::<Seq<Seq<char>>, Option<Seq<char>>>::empty(),
    {
        let r = SelfWrites { records: Vec::new() };
        assert(r@ =~= Map::<Seq<Seq<char>>, Option<Seq<char>>>::empty());
        r
    }

    fn forget(&mut self, path: &str)
        ensures
            final(self)@ == old(self)@.remove(components(path@)),
    {
        let ghost gone = components(path@);
        let mut kept: Vec<(String, Option<String>)> = Vec::new();
        let mut i: usize = 0;
        while i < self.records.len()
            invariant
                i <= self.records.len(),
                gone == components(path@),
                *self == *old(self),
                forall|key: Seq<Seq<char>>| #[trigger]
                    last_record(kept@, key) == if key == gone {
                        None
                    } else {
                        last_record(self.records@.take(i as int), key)
                    },
            decreases self.records.len() - i,
        {
            let ghost before = kept@;
            let ghost part = self.records@.take(i + 1);
            assert(part.drop_last() =~= self.records@.take(i as int));
            assert(part.last() == self.records@[i as int]);
            let same = same_path(self.records[i].0.as_str(), path);
            if !same {
                let name = self.records[i].0.clone();
                let hash = match &self.records[i].1 {
                    Some(hash) => Some(hash.clone()),
                    None => None,
                };
                kept.push((name, hash));
                assert(kept@.drop_last() =~= before);
            }
            proof {
                assert forall|key: Seq<Seq<char>>| #[trigger]
                    last_record(kept@, key) == if key == gone {
                        None
                    } else {
                        last_record(part, key)
                    } by {
                    assert(last_record(before, key) == if key == gone {
                        None
                    } else {
                        last_record(self.records@.take(i as int), key)
                    });
                }
            }
            i = i + 1;
        }
        assert(self.records@.take(i as int) =~= self.records@);
        self.records = kept;
        assert(self@ =~= old(self)@.remove(gone));
    }

    /// Records that the daemon wrote a path.
    pub fn record_self_write(&mut self, path: &str, content_hash: Option<String>)
        ensures
            final(self)@ == old(self)@.insert(components(path@), optional_text(content_hash)),
    {
        let ghost key = components(path@);
        let ghost value = optional_text(content_hash);
        self.forget(path);
        let ghost before = self.records@;
        let ghost known = self@;
        self.records.push((path.to_owned(), content_hash));
        proof {
            assert(self.records@.drop_last() =~= before);
            assert(self@ =~= known.insert(key, value));
            assert(old(self)@.remove(key).insert(key, value) =~= old(self)@.insert(key, value));
        }
    }

    /// Decides whether an event for a path reflects a write of the daemon, and if so
    /// consumes the record. A record that `observed` contradicts stays.
    pub fn take_matching_self_write(&mut self, path: &str, observed: Option<&str>) -> (r: bool)
        ensures
            r == reflects(old(self)@, path@, optional_str(observed)),
            final(self)@ == after_event(old(self)@, path@, optional_str(observed)),
    {
        let ghost key = components(path@);
        let mut i: usize = self.records.len();
        assert(self.records@.take(i as int) =~= self.records@);
        while i > 0
            invariant
                i <= self.records.len(),
                key == components(path@),
                *self == *old(self),
                last_record(self.records@, key) == last_record(self.records@.take(i as int), key),
            decreases i,
        {
            let ghost part = self.records@.take(i as int);
            assert(part.drop_last() =~= self.records@.take(i - 1));
            assert(part.last() == self.records@[i - 1]);
            if same_path(self.records[i - 1].0.as_str(), path) {
                let agrees = match (observed, &self.records[i - 1].1) {
                    (Some(now), Some(recorded)) => same_text(now, recorded.as_str()),
                    _ => true,
                };
                assert(self@.contains_key(key));
                if !agrees {
                    return false;
                }
                self.forget(path);
                return true;
            }
            i = i - 1;
        }
        assert(!self@.contains_key(key));
        false
    }
}

/// A write is matched once: the first event for its path is ignored, and the next one
/// is not, whatever either observes, unless the daemon writes there again.
pub proof fn law_a_write_is_matched_once(
    writes: Map<Seq<Seq<char>>, Option<Seq<char>>>,
    path: Seq<char>,
    written: Option<Seq<char>>,
    next: Option<Seq<char>>,
)
    ensures
        ({
            let recorded = writes.insert(components(path), written);
            &&& reflects(recorded, path, None)
            &&& reflects(recorded, path, written)
            &&& !reflects(after_event(recorded, path, None), path, next)
            &&& !reflects(after_event(recorded, path, written), path, next)
        }),
{
}

/// A user's edit is never taken for the daemon's own write: where other content lies
/// than the daemon wrote, the event is let through and the record stays.
pub proof fn law_an_edit_is_not_swallowed(
    writes: Map<Seq<Seq<char>>, Option<Seq<char>>>,
    path: Seq<char>,
    written: Seq<char>,
    observed: Seq<char>,
)
    requires
        observed != written,
    ensures
        ({
            let recorded = writes.insert(components(path), Some(written));
            &&& !reflects(recorded, path, Some(observed))
            &&& after_event(recorded, path, Some(observed)) == recorded
        }),
{
}

/// An event leaves the records of every other path alone.
pub proof fn law_other_paths_are_untouched(
    writes: Map<Seq<Seq<char>>, Option<Seq<char>>>,
    path: Seq<char>,
    other: Seq<char>,
    observed: Option<Seq<char>>,
    next: Option<Seq<char>>,
)
    requires
        components(path) != components(other),
    ensures
        reflects(after_event(writes, path, observed), other, next) == reflects(writes, other, next),
{
}

} // verus!
