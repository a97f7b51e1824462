//! Walks over the tag hierarchy.

use vstd::prelude::*;
use super::{
    file_key, subtag_key, DatabaseError, DatabaseView, EntryKey, EntryState, EntryType,
    FileDatabase, SubtagRule,
};
use crate::ids::{FileId, TagId};
use crate::table::{has_key, Key, Table};

verus! {

/// One step through the hierarchy: from a tag to its subtag, or upward from a subtag
/// to a tag it belongs to.
pub open spec fn step(db: DatabaseView, upward: bool, from: TagId, to: TagId) -> bool {
    if upward {
        db.live(subtag_key(to, from))
    } else {
        db.live(subtag_key(from, to))
    }
}

/// Whether `n` steps lead from one tag to another.
pub open spec fn leads_to(db: DatabaseView, upward: bool, from: TagId, to: TagId, n: nat) -> bool
    decreases n,
{
    if n == 0 {
        from == to
    } else {
        exists|middle: TagId| #[trigger]
            step(db, upward, from, middle) && leads_to(
                db,
                upward,
                middle,
                to,
                (n - 1) as nat,
            )
    }
}

/// Whether one or more steps lead from one tag to another.
pub open spec fn reaches(db: DatabaseView, upward: bool, from: TagId, to: TagId) -> bool {
    exists|n: nat| n > 0 && #[trigger] leads_to(db, upward, from, to, n)
}

/// Whether one or more steps lead to `to` from one of several tags.
pub open spec fn reached_from(
    db: DatabaseView,
    upward: bool,
    starts: Seq<TagId>,
    to: TagId,
) -> bool {
    exists|i: int| 0 <= i < starts.len() && #[trigger] reaches(db, upward, starts[i], to)
}

/// Whether a walk from `from` under `rule` finds `to`: its direct neighbours, or all
/// that steps lead to.
pub open spec fn walk_finds(
    db: DatabaseView,
    upward: bool,
    rule: SubtagRule,
    from: TagId,
    to: TagId,
) -> bool {
    match rule {
        SubtagRule::Exclude => step(db, upward, from, to),
        SubtagRule::Include => reaches(db, upward, from, to),
    }
}

/// Whether a file carries a tag under `rule`: directly, or through a subtag.
pub open spec fn file_carries(
    db: DatabaseView,
    rule: SubtagRule,
    file_id: FileId,
    tag_id: TagId,
) -> bool {
    ||| db.live(file_key(tag_id, file_id))
    ||| rule == SubtagRule::Include && exists|direct: TagId| #[trigger]
        db.live(file_key(direct, file_id)) && reaches(db, true, direct, tag_id)
}

/// Whether a list holds exactly the tags of a set, in ascending order.
pub open spec fn lists_tags(list: Seq<TagId>, set: spec_fn(TagId) -> bool) -> bool {
    &&& forall|i: int, j: int|
        0 <= i < j < list.len() ==> (#[trigger] list[i]).value < (#[trigger] list[j]).value
    &&& forall|t: TagId| #[trigger] list.contains(t) <==> set(t)
}

/// Whether a list holds exactly the files of a set, in ascending order.
pub open spec fn lists_files(list: Seq<FileId>, set: spec_fn(FileId) -> bool) -> bool {
    &&& forall|i: int, j: int|
        0 <= i < j < list.len() ==> (#[trigger] list[i]).value < (#[trigger] list[j]).value
    &&& forall|f: FileId| #[trigger] list.contains(f) <==> set(f)
}

proof fn lemma_leads_append(
    db: DatabaseView,
    upward: bool,
    from: TagId,
    middle: TagId,
    to: TagId,
    n: nat,
)
    requires
        leads_to(db, upward, from, middle, n),
        step(db, upward, middle, to),
    ensures
        leads_to(db, upward, from, to, n + 1),
    decreases n,
{
    if n == 0 {
        assert(leads_to(db, upward, to, to, 0));
        assert(step(db, upward, from, to));
    } else {
        let next = choose|next: TagId| #[trigger]
            step(db, upward, from, next) && leads_to(db, upward, next, middle, (n - 1) as nat);
        lemma_leads_append(db, upward, next, middle, to, (n - 1) as nat);
        assert(((n - 1) as nat) + 1 == n);
        assert(step(db, upward, from, next));
    }
}

/// A chain of steps downward, walked backward, is a chain of steps upward.
pub proof fn law_walks_are_inverse(db: DatabaseView, from: TagId, to: TagId)
    ensures
        reaches(db, false, from, to) <==> reaches(db, true, to, from),
{
    if reaches(db, false, from, to) {
        let n = choose|n: nat| n > 0 && #[trigger] leads_to(db, false, from, to, n);
        lemma_reverse(db, false, from, to, n);
    }
    if reaches(db, true, to, from) {
        let n = choose|n: nat| n > 0 && #[trigger] leads_to(db, true, to, from, n);
        lemma_reverse(db, true, to, from, n);
    }
}

proof fn lemma_reverse(db: DatabaseView, upward: bool, from: TagId, to: TagId, n: nat)
    requires
        leads_to(db, upward, from, to, n),
    ensures
        leads_to(db, !upward, to, from, n),
    decreases n,
{
    if n > 0 {
        let next = choose|next: TagId| #[trigger]
            step(db, upward, from, next) && leads_to(db, upward, next, to, (n - 1) as nat);
        lemma_reverse(db, upward, next, to, (n - 1) as nat);
        assert(step(db, !upward, next, from));
        lemma_leads_append(db, !upward, to, next, from, (n - 1) as nat);
    }
}

/// Whether every step from a start or from a found tag ends in a found tag, unless
/// the tag still waits in `pending`.
spec fn expanded(
    db: DatabaseView,
    upward: bool,
    starts: Seq<TagId>,
    found: Map<TagId, ()>,
    pending: Seq<TagId>,
) -> bool {
    forall|t: TagId, x: TagId|
        (starts.contains(t) || found.contains_key(t)) && !pending.contains(t) && #[trigger] step(
            db,
            upward,
            t,
            x,
        ) ==> found.contains_key(x)
}

proof fn lemma_complete(
    db: DatabaseView,
    upward: bool,
    starts: Seq<TagId>,
    found: Map<TagId, ()>,
    from: TagId,
    to: TagId,
    n: nat,
)
    requires
        expanded(db, upward, starts, found, Seq::empty()),
        starts.contains(from) || found.contains_key(from),
        n > 0,
        leads_to(db, upward, from, to, n),
    ensures
        found.contains_key(to),
    decreases n,
{
    let next = choose|next: TagId| #[trigger]
        step(db, upward, from, next) && leads_to(db, upward, next, to, (n - 1) as nat);
    assert(!Seq::<TagId>::empty().contains(from));
    assert(found.contains_key(next));
    if n > 1 {
        lemma_complete(db, upward, starts, found, next, to, (n - 1) as nat);
    }
}

/// The tags that entries mention.
spec fn universe(rows: Seq<(EntryKey, EntryState)>) -> Set<TagId> {
    rows.map_values(|row: (EntryKey, EntryState)| row.0.tag_id).to_set() + rows.map_values(
        |row: (EntryKey, EntryState)| TagId { value: row.0.target },
    ).to_set()
}

proof fn lemma_universe(rows: Seq<(EntryKey, EntryState)>)
    ensures
        universe(rows).finite(),
        forall|i: int|
            0 <= i < rows.len() ==> universe(rows).contains((#[trigger] rows[i]).0.tag_id)
                && universe(rows).contains(TagId { value: rows[i].0.target }),
{
    let a = rows.map_values(|row: (EntryKey, EntryState)| row.0.tag_id);
    let b = rows.map_values(|row: (EntryKey, EntryState)| TagId { value: row.0.target });
    vstd::seq_lib::seq_to_set_is_finite(a);
    vstd::seq_lib::seq_to_set_is_finite(b);
    assert forall|i: int| 0 <= i < rows.len() implies universe(rows).contains(
        (#[trigger] rows[i]).0.tag_id,
    ) && universe(rows).contains(TagId { value: rows[i].0.target }) by {
        assert(a[i] == rows[i].0.tag_id);
        assert(b[i] == (TagId { value: rows[i].0.target }));
        assert(a.contains(a[i]));
        assert(b.contains(b[i]));
    }
}

/// The keys of a table that stands for a set of tags, in ascending order.
pub(super) fn tag_list(set: &Table<TagId, ()>) -> (r: Vec<TagId>)
    ensures
        lists_tags(r@, |t: TagId| set@.contains_key(t)),
{
    let mut list: Vec<TagId> = Vec::new();
    let n: usize = set.len();
    let ghost rows = set.rows();
    let mut i: usize = 0;
    while i < n
        invariant
            i <= n,
            n == rows.len(),
            rows == set.rows(),
            set.well_formed(),
            list@.len() == i,
            forall|j: int| 0 <= j < i ==> #[trigger] list@[j] == rows[j].0,
        decreases n - i,
    {
        list.push(set.key_at(i));
        i = i + 1;
    }
    proof {
        assert forall|a: int, b: int| 0 <= a < b < list@.len() implies (#[trigger] list@[a]).value
            < (#[trigger] list@[b]).value by {
            assert(rows[a].0.precedes(rows[b].0));
        }
        assert forall|t: TagId| #[trigger] list@.contains(t) <==> set@.contains_key(t) by {
            if list@.contains(t) {
                let k = choose|k: int| 0 <= k < list@.len() && list@[k] == t;
                assert(rows[k].0 == t);
            }
            if set@.contains_key(t) {
                assert(has_key(rows, t));
                let k = choose|k: int| 0 <= k < rows.len() && (#[trigger] rows[k]).0 == t;
                assert(list@[k] == t);
            }
        }
    }
    list
}

/// The keys of a table that stands for a set of files, in ascending order.
pub(super) fn file_list(set: &Table<FileId, ()>) -> (r: Vec<FileId>)
    ensures
        lists_files(r@, |f: FileId| set@.contains_key(f)),
{
    let mut list: Vec<FileId> = Vec::new();
    let n: usize = set.len();
    let ghost rows = set.rows();
    let mut i: usize = 0;
    while i < n
        invariant
            i <= n,
            n == rows.len(),
            rows == set.rows(),
            set.well_formed(),
            list@.len() == i,
            forall|j: int| 0 <= j < i ==> #[trigger] list@[j] == rows[j].0,
        decreases n - i,
    {
        list.push(set.key_at(i));
        i = i + 1;
    }
    proof {
        assert forall|a: int, b: int| 0 <= a < b < list@.len() implies (#[trigger] list@[a]).value
            < (#[trigger] list@[b]).value by {
            assert(rows[a].0.precedes(rows[b].0));
        }
        assert forall|t: FileId| #[trigger] list@.contains(t) <==> set@.contains_key(t) by {
            if list@.contains(t) {
                let k = choose|k: int| 0 <= k < list@.len() && list@[k] == t;
                assert(rows[k].0 == t);
            }
            if set@.contains_key(t) {
                assert(has_key(rows, t));
                let k = choose|k: int| 0 <= k < rows.len() && (#[trigger] rows[k]).0 == t;
                assert(list@[k] == t);
            }
        }
    }
    list
}

impl FileDatabase {
    /// The tag that a row leads to from `from`, if it is a live step.
    fn step_of_row(&self, i: usize, upward: bool, from: TagId) -> (r: Option<TagId>)
        requires
            i < self.entries.rows().len(),
        ensures
            match r {
                Some(to) => step(self@, upward, from, to) && self.entries.rows()[i as int].0 == (
                if upward {
                    subtag_key(to, from)
                } else {
                    subtag_key(from, to)
                }),
                None => forall|to: TagId| #[trigger]
                    step(self@, upward, from, to) ==> self.entries.rows()[i as int].0 != (
                    if upward {
                        subtag_key(to, from)
                    } else {
                        subtag_key(from, to)
                    }),
            },
    {
        let key = self.entries.key_at(i);
        let state = *self.entries.value_at(i);
        if state.deleted || key.kind != EntryType::Tag {
            return None;
        }
        if upward {
            if key.target == from.value {
                Some(key.tag_id)
            } else {
                None
            }
        } else if key.tag_id == from {
            Some(TagId { value: key.target })
        } else {
            None
        }
    }

    /// The tags that one step leads to from `from`.
    fn neighbours(&self, upward: bool, from: TagId) -> (r: Table<TagId, ()>)
        ensures
            forall|t: TagId| #[trigger] r@.contains_key(t) <==> step(self@, upward, from, t),
    {
        let mut found: Table<TagId, ()> = Table::new();
        let n: usize = self.entries.len();
        let ghost rows = self.entries.rows();
        let mut i: usize = 0;
        while i < n
            invariant
                i <= n,
                n == rows.len(),
                rows == self.entries.rows(),
                self.entries.well_formed(),
                forall|t: TagId| #[trigger]
                    found@.contains_key(t) ==> step(self@, upward, from, t),
                forall|t: TagId, j: int|
                    0 <= j < i && (#[trigger] rows[j]).0 == (if upward {
                        subtag_key(t, from)
                    } else {
                        subtag_key(from, t)
                    }) && #[trigger] step(self@, upward, from, t) ==> found@.contains_key(t),
            decreases n - i,
        {
            match self.step_of_row(i, upward, from) {
                Some(to) => {
                    found.insert(to, ());
                },
                None => {},
            }
            i = i + 1;
        }
        proof {
            assert forall|t: TagId| step(self@, upward, from, t) implies #[trigger]
                found@.contains_key(t) by {
                let key = if upward {
                    subtag_key(t, from)
                } else {
                    subtag_key(from, t)
                };
                assert(has_key(rows, key));
                let k = choose|k: int| 0 <= k < rows.len() && (#[trigger] rows[k]).0 == key;
                assert(rows[k].0 == key);
            }
        }
        found
    }

    /// The tags that one or more steps lead to from one of `starts`. Each tag is
    /// expanded once, so that cycles end.
    fn closure(&self, upward: bool, starts: &Vec<TagId>) -> (r: Table<TagId, ()>)
        ensures
            forall|t: TagId| #[trigger]
                r@.contains_key(t) <==> reached_from(self@, upward, starts@, t),
    {
        let mut found: Table<TagId, ()> = Table::new();
        let mut pending: Vec<TagId> = crate::state::copy_tags(starts);
        let n: usize = self.entries.len();
        let ghost rows = self.entries.rows();
        proof {
            lemma_universe(rows);
            assert(found@.dom() =~= Set::<TagId>::empty());
        }
        while pending.len() > 0
            invariant
                n == rows.len(),
                rows == self.entries.rows(),
                self.entries.well_formed(),
                universe(rows).finite(),
                found@.dom().finite(),
                found@.dom().subset_of(universe(rows)),
                forall|i: int|
                    0 <= i < rows.len() ==> universe(rows).contains((#[trigger] rows[i]).0.tag_id)
                        && universe(rows).contains(TagId { value: rows[i].0.target }),
                forall|t: TagId| #[trigger]
                    found@.contains_key(t) ==> reached_from(self@, upward, starts@, t),
                forall|t: TagId| #[trigger]
                    pending@.contains(t) ==> starts@.contains(t) || found@.contains_key(t),
                expanded(self@, upward, starts@, found@, pending@),
            decreases universe(rows).len() - found@.dom().len(), pending.len(),
        {
            proof {
                vstd::set_lib::lemma_len_subset(found@.dom(), universe(rows));
            }
            let ghost waiting = pending@;
            let ghost found_before = found@;
            let tag = match pending.pop() {
                Some(tag) => tag,
                None => {
                    return found;
                },
            };
            assert(waiting =~= pending@.push(tag));
            assert(waiting.contains(tag)) by {
                assert(waiting[waiting.len() - 1] == tag);
            }
            let ghost rest = pending@;
            let mut i: usize = 0;
            while i < n
                invariant
                    i <= n,
                    n == rows.len(),
                    rows == self.entries.rows(),
                    self.entries.well_formed(),
                    universe(rows).finite(),
                    found@.dom().finite(),
                    found@.dom().subset_of(universe(rows)),
                    forall|k: int|
                        0 <= k < rows.len() ==> universe(rows).contains(
                            (#[trigger] rows[k]).0.tag_id,
                        ) && universe(rows).contains(TagId { value: rows[k].0.target }),
                    starts@.contains(tag) || found_before.contains_key(tag),
                    forall|t: TagId| #[trigger]
                        found_before.contains_key(t) ==> found@.contains_key(t) && reached_from(
                            self@,
                            upward,
                            starts@,
                            t,
                        ),
                    forall|t: TagId| #[trigger]
                        found@.contains_key(t) ==> reached_from(self@, upward, starts@, t),
                    forall|t: TagId| #[trigger]
                        found@.contains_key(t) ==> found_before.contains_key(t)
                            || pending@.contains(t),
                    forall|t: TagId| #[trigger]
                        pending@.contains(t) ==> rest.contains(t) || found@.contains_key(t),
                    forall|t: TagId| #[trigger] rest.contains(t) ==> pending@.contains(t),
                    forall|t: TagId, j: int|
                        0 <= j < i && (#[trigger] rows[j]).0 == (if upward {
                            subtag_key(t, tag)
                        } else {
                            subtag_key(tag, t)
                        }) && #[trigger] step(self@, upward, tag, t) ==> found@.contains_key(t),
                    found@.dom().len() == found_before.dom().len() ==> found@ == found_before
                        && pending@ == rest,
                    found@.dom().len() >= found_before.dom().len(),
                decreases n - i,
            {
                match self.step_of_row(i, upward, tag) {
                    Some(to) => {
                        if !found.contains(to) {
                            let ghost pending_before = pending@;
                            let ghost found_now = found@;
                            proof {
                                if starts@.contains(tag) {
                                    let s = choose|s: int|
                                        0 <= s < starts@.len() && starts@[s] == tag;
                                    assert(leads_to(self@, upward, tag, tag, 0));
                                    lemma_leads_append(self@, upward, tag, tag, to, 0);
                                    assert(reaches(self@, upward, starts@[s], to));
                                } else {
                                    let s = choose|s: int|
                                        0 <= s < starts@.len() && #[trigger] reaches(
                                            self@,
                                            upward,
                                            starts@[s],
                                            tag,
                                        );
                                    let m = choose|m: nat|
                                        m > 0 && #[trigger] leads_to(
                                            self@,
                                            upward,
                                            starts@[s],
                                            tag,
                                            m,
                                        );
                                    lemma_leads_append(self@, upward, starts@[s], tag, to, m);
                                    assert(reaches(self@, upward, starts@[s], to));
                                }
                            }
                            found.insert(to, ());
                            pending.push(to);
                            proof {
                                assert(found@.dom() =~= found_now.dom().insert(to));
                                assert(universe(rows).contains(to)) by {
                                    assert(rows[i as int].0.tag_id == to || (TagId {
                                        value: rows[i as int].0.target,
                                    }) == to);
                                }
                                assert forall|t: TagId| #[trigger]
                                    pending@.contains(t) <==> pending_before.contains(t) || t
                                        == to by {
                                    if pending_before.contains(t) {
                                        let k = choose|k: int|
                                            0 <= k < pending_before.len() && pending_before[k]
                                                == t;
                                        assert(pending@[k] == t);
                                    }
                                    assert(pending@[pending_before.len() as int] == to);
                                    if pending@.contains(t) && t != to {
                                        let k = choose|k: int|
                                            0 <= k < pending@.len() && pending@[k] == t;
                                        assert(pending_before[k] == t);
                                    }
                                }
                            }
                        }
                    },
                    None => {},
                }
                i = i + 1;
            }
            proof {
                assert forall|t: TagId| #[trigger] waiting.contains(t) <==> rest.contains(t) || t
                    == tag by {
                    if rest.contains(t) {
                        let k = choose|k: int| 0 <= k < rest.len() && rest[k] == t;
                        assert(waiting[k] == t);
                    }
                    if waiting.contains(t) && t != tag {
                        let k = choose|k: int| 0 <= k < waiting.len() && waiting[k] == t;
                        assert(rest[k] == t);
                    }
                }
                assert forall|t: TagId, x: TagId|
                    (starts@.contains(t) || found@.contains_key(t)) && !pending@.contains(t)
                        && #[trigger] step(self@, upward, t, x) implies found@.contains_key(x) by {
                    if t == tag {
                        let key = if upward {
                            subtag_key(x, tag)
                        } else {
                            subtag_key(tag, x)
                        };
                        assert(has_key(rows, key));
                        let k = choose|k: int| 0 <= k < rows.len() && (#[trigger] rows[k]).0 == key;
                        assert(rows[k].0 == key);
                    } else {
                        assert(!waiting.contains(t));
                        assert(starts@.contains(t) || found_before.contains_key(t));
                        assert(found_before.contains_key(x));
                    }
                }
                assert forall|t: TagId| #[trigger] pending@.contains(t) implies starts@.contains(t)
                    || found@.contains_key(t) by {
                    if rest.contains(t) {
                        assert(waiting.contains(t));
                    }
                }
                vstd::set_lib::lemma_len_subset(found@.dom(), universe(rows));
            }
        }
        proof {
            assert(pending@ =~= Seq::<TagId>::empty());
            assert forall|t: TagId| reached_from(self@, upward, starts@, t) implies #[trigger]
                found@.contains_key(t) by {
                let s = choose|s: int|
                    0 <= s < starts@.len() && #[trigger] reaches(self@, upward, starts@[s], t);
                let m = choose|m: nat|
                    m > 0 && #[trigger] leads_to(self@, upward, starts@[s], t, m);
                assert(starts@.contains(starts@[s]));
                lemma_complete(self@, upward, starts@, found@, starts@[s], t, m);
            }
        }
        found
    }

    /// What a walk from `from` finds.
    fn walk(&self, upward: bool, from: TagId, rule: SubtagRule) -> (r: Table<TagId, ()>)
        ensures
            forall|t: TagId| #[trigger]
                r@.contains_key(t) <==> walk_finds(self@, upward, rule, from, t),
    {
        match rule {
            SubtagRule::Exclude => self.neighbours(upward, from),
            SubtagRule::Include => {
                let mut starts: Vec<TagId> = Vec::new();
                starts.push(from);
                let found = self.closure(upward, &starts);
                proof {
                    assert forall|t: TagId| reached_from(self@, upward, starts@, t) <==> reaches(
                        self@,
                        upward,
                        from,
                        t,
                    ) by {
                        assert(starts@[0] == from);
                    }
                }
                found
            },
        }
    }

    /// The subtags of a tag, in ascending order.
    pub fn subtag_ids_for_tag(&self, tag_id: TagId, subtag_rule: SubtagRule) -> (r: Result<
        Vec<TagId>,
        DatabaseError,
    >)
        ensures
            r matches Ok(list) && lists_tags(
                list@,
                |t: TagId| walk_finds(self@, false, subtag_rule, tag_id, t),
            ),
    {
        let found = self.walk(false, tag_id, subtag_rule);
        Ok(tag_list(&found))
    }

    /// The tags that a tag is a subtag of, in ascending order.
    pub fn tag_ids_for_subtag(&self, subtag_id: TagId, subtag_rule: SubtagRule) -> (r: Result<
        Vec<TagId>,
        DatabaseError,
    >)
        ensures
            r matches Ok(list) && lists_tags(
                list@,
                |t: TagId| walk_finds(self@, true, subtag_rule, subtag_id, t),
            ),
    {
        let found = self.walk(true, subtag_id, subtag_rule);
        Ok(tag_list(&found))
    }

    /// The tags that stand on a file itself.
    fn direct_tags(&self, file_id: FileId) -> (r: Table<TagId, ()>)
        ensures
            forall|t: TagId| #[trigger] r@.contains_key(t) <==> self@.live(file_key(t, file_id)),
    {
        let mut found: Table<TagId, ()> = Table::new();
        let n: usize = self.entries.len();
        let ghost rows = self.entries.rows();
        let mut i: usize = 0;
        while i < n
            invariant
                i <= n,
                n == rows.len(),
                rows == self.entries.rows(),
                self.entries.well_formed(),
                forall|t: TagId| #[trigger]
                    found@.contains_key(t) ==> self@.live(file_key(t, file_id)),
                forall|t: TagId, j: int|
                    0 <= j < i && (#[trigger] rows[j]).0 == #[trigger] file_key(t, file_id)
                        && self@.live(file_key(t, file_id)) ==> found@.contains_key(t),
            decreases n - i,
        {
            let key = self.entries.key_at(i);
            let state = *self.entries.value_at(i);
            if !state.deleted && key.kind == EntryType::File && key.target == file_id.value {
                assert(key == file_key(key.tag_id, file_id));
                found.insert(key.tag_id, ());
            }
            i = i + 1;
        }
        proof {
            assert forall|t: TagId| self@.live(file_key(t, file_id)) implies #[trigger]
                found@.contains_key(t) by {
                let key = file_key(t, file_id);
                assert(has_key(rows, key));
                let k = choose|k: int| 0 <= k < rows.len() && (#[trigger] rows[k]).0 == key;
                assert(rows[k].0 == file_key(t, file_id));
            }
        }
        found
    }

    /// The tags that a file carries, in ascending order: those on the file itself
    /// and, where subtags count, all tags above them.
    pub fn tag_ids_for_file(&self, file_id: FileId, subtag_rule: SubtagRule) -> (r: Result<
        Vec<TagId>,
        DatabaseError,
    >)
        ensures
            r matches Ok(list) && lists_tags(
                list@,
                |t: TagId| file_carries(self@, subtag_rule, file_id, t),
            ),
    {
        let mut found = self.direct_tags(file_id);
        let ghost direct = found@;
        if subtag_rule == SubtagRule::Include {
            let starts = tag_list(&found);
            let above = self.closure(true, &starts);
            let n: usize = above.len();
            let ghost rows = above.rows();
            let mut i: usize = 0;
            while i < n
                invariant
                    i <= n,
                    n == rows.len(),
                    rows == above.rows(),
                    above.well_formed(),
                    forall|t: TagId| #[trigger]
                        found@.contains_key(t) ==> direct.contains_key(t) || above@.contains_key(
                            t,
                        ),
                    forall|t: TagId| #[trigger]
                        direct.contains_key(t) ==> found@.contains_key(t),
                    forall|j: int| 0 <= j < i ==> found@.contains_key((#[trigger] rows[j]).0),
                decreases n - i,
            {
                found.insert(above.key_at(i), ());
                i = i + 1;
            }
            proof {
                assert forall|t: TagId| #[trigger] above@.contains_key(t) implies
                    found@.contains_key(t) by {
                    assert(has_key(rows, t));
                    let k = choose|k: int| 0 <= k < rows.len() && (#[trigger] rows[k]).0 == t;
                    assert(rows[k].0 == t);
                }
                assert forall|t: TagId| #[trigger] above@.contains_key(t) <==> exists|d: TagId|
                 #[trigger]
                    self@.live(file_key(d, file_id)) && reaches(self@, true, d, t) by {
                    if above@.contains_key(t) {
                        let s = choose|s: int|
                            0 <= s < starts@.len() && #[trigger] reaches(
                                self@,
                                true,
                                starts@[s],
                                t,
                            );
                        assert(starts@.contains(starts@[s]));
                        assert(direct.contains_key(starts@[s]));
                        assert(self@.live(file_key(starts@[s], file_id)));
                    }
                    if exists|d: TagId| #[trigger]
                        self@.live(file_key(d, file_id)) && reaches(self@, true, d, t) {
                        let d = choose|d: TagId| #[trigger]
                            self@.live(file_key(d, file_id)) && reaches(self@, true, d, t);
                        assert(direct.contains_key(d));
                        assert(starts@.contains(d));
                        let s = choose|s: int| 0 <= s < starts@.len() && starts@[s] == d;
                        assert(reaches(self@, true, starts@[s], t));
                    }
                }
                assert forall|t: TagId| #[trigger] found@.contains_key(t) <==> file_carries(
                    self@,
                    subtag_rule,
                    file_id,
                    t,
                ) by {
                    assert(direct.contains_key(t) <==> self@.live(file_key(t, file_id)));
                    if file_carries(self@, subtag_rule, file_id, t) && !direct.contains_key(t) {
                        assert(above@.contains_key(t));
                    }
                    if found@.contains_key(t) && !direct.contains_key(t) {
                        assert(above@.contains_key(t));
                    }
                }
            }
        }
        Ok(tag_list(&found))
    }

    /// The files that carry a tag, in ascending order: those the tag stands on and,
    /// where subtags count, those that a tag below it stands on.
    pub fn file_ids_for_tag(&self, tag_id: TagId, subtag_rule: SubtagRule) -> (r: Result<
        Vec<FileId>,
        DatabaseError,
    >)
        ensures
            r matches Ok(list) && lists_files(
                list@,
                |f: FileId| file_carries(self@, subtag_rule, f, tag_id),
            ),
    {
        let below = match subtag_rule {
            SubtagRule::Exclude => Table::new(),
            SubtagRule::Include => self.walk(false, tag_id, subtag_rule),
        };
        let mut found: Table<FileId, ()> = Table::new();
        let n: usize = self.entries.len();
        let ghost rows = self.entries.rows();
        let mut i: usize = 0;
        while i < n
            invariant
                i <= n,
                n == rows.len(),
                rows == self.entries.rows(),
                self.entries.well_formed(),
                forall|f: FileId| #[trigger]
                    found@.contains_key(f) ==> exists|t: TagId| #[trigger]
                        self@.live(file_key(t, f)) && (t == tag_id || below@.contains_key(t)),
                forall|f: FileId, t: TagId, j: int|
                    0 <= j < i && (#[trigger] rows[j]).0 == #[trigger] file_key(t, f) && self@.live(
                        file_key(t, f),
                    ) && (t == tag_id || below@.contains_key(t)) ==> found@.contains_key(f),
            decreases n - i,
        {
            let key = self.entries.key_at(i);
            let state = *self.entries.value_at(i);
            if !state.deleted && key.kind == EntryType::File && (key.tag_id == tag_id
                || below.contains(key.tag_id)) {
                let file_id = FileId { value: key.target };
                assert(key == file_key(key.tag_id, file_id));
                assert(self@.live(file_key(key.tag_id, file_id)));
                found.insert(file_id, ());
            }
            i = i + 1;
        }
        let list = file_list(&found);
        proof {
            assert forall|f: FileId| #[trigger] list@.contains(f) <==> file_carries(
                self@,
                subtag_rule,
                f,
                tag_id,
            ) by {
                if found@.contains_key(f) {
                    let t = choose|t: TagId| #[trigger]
                        self@.live(file_key(t, f)) && (t == tag_id || below@.contains_key(t));
                    if t != tag_id {
                        law_walks_are_inverse(self@, tag_id, t);
                    }
                }
                if file_carries(self@, subtag_rule, f, tag_id) {
                    let t = if self@.live(file_key(tag_id, f)) {
                        tag_id
                    } else {
                        choose|d: TagId| #[trigger]
                            self@.live(file_key(d, f)) && reaches(self@, true, d, tag_id)
                    };
                    law_walks_are_inverse(self@, tag_id, t);
                    let key = file_key(t, f);
                    assert(has_key(rows, key));
                    let k = choose|k: int| 0 <= k < rows.len() && (#[trigger] rows[k]).0 == key;
                    assert(rows[k].0 == file_key(t, f));
                }
            }
        }
        Ok(list)
    }
}

} // verus!
