//! What a configuration asks for, and how peers are found in it.

use vstd::prelude::*;
use super::{
    all_tags, entry_of, external_type, first_peer, lemma_entry_of, placement, shown_name, wants,
    Peer, RuntimeConfiguration, SyncDirectory, SyncType, SyncTypeView,
};
use crate::ids::{id_text, lemma_id_text_injective, FileId, TagId};

verus! {

/// A directory for every file wants every file, and one for tags just those that carry each
/// of its tags. A further tag on a file never takes it out of a directory.
pub proof fn law_what_a_directory_wants(
    keep_deleted_files: bool,
    wanted: Seq<TagId>,
    tags: Seq<TagId>,
    kind: SyncTypeView,
    more: TagId,
)
    ensures
        wants(SyncTypeView::Universal { keep_deleted_files }, tags),
        wants(SyncTypeView::TagBased { tags: wanted }, tags) <==> forall|k: int|
            0 <= k < wanted.len() ==> tags.contains(#[trigger] wanted[k]),
        wants(kind, tags) ==> wants(kind, tags.push(more)),
{
    if forall|k: int| 0 <= k < wanted.len() ==> tags.contains(#[trigger] wanted[k]) {
        assert forall|t: TagId| #[trigger] wanted.contains(t) implies tags.contains(t) by {
            let k = choose|k: int| 0 <= k < wanted.len() && wanted[k] == t;
            assert(tags.contains(wanted[k]));
        }
    }
    if wants(SyncTypeView::TagBased { tags: wanted }, tags) {
        assert forall|k: int| 0 <= k < wanted.len() implies tags.contains(#[trigger] wanted[k]) by {
            assert(wanted.contains(wanted[k]));
        }
    }
    if wants(kind, tags) {
        match kind {
            SyncTypeView::TagBased { tags: asked } => {
                assert forall|t: TagId| #[trigger] asked.contains(t) implies tags.push(
                    more,
                ).contains(t) by {
                    let i = choose|i: int| 0 <= i < tags.len() && tags[i] == t;
                    assert(tags.push(more)[i] == t);
                }
            },
            _ => {},
        }
    }
}

/// A directory for every file stores no two files at one place, and knows the place by the
/// identifier alone; one for tags stores a file where its logical path says.
pub proof fn law_where_a_file_is_stored(
    keep_deleted_files: bool,
    wanted: Seq<TagId>,
    file_id: FileId,
    other: FileId,
    path: Seq<char>,
    other_path: Seq<char>,
)
    ensures
        placement(SyncTypeView::Universal { keep_deleted_files }, path, file_id) == id_text(
            file_id.value,
        ),
        placement(SyncTypeView::Universal { keep_deleted_files }, path, file_id) == placement(
            SyncTypeView::Universal { keep_deleted_files },
            other_path,
            other,
        ) <==> file_id == other,
        placement(SyncTypeView::TagBased { tags: wanted }, path, file_id) == path,
{
    if id_text(file_id.value) == id_text(other.value) {
        lemma_id_text_injective(file_id.value, other.value);
    }
}

/// A peer is reached through its own entry, whatever place that has, and one without an entry
/// is not reached at all.
pub proof fn law_a_peer_is_reached_through_its_entry(
    runtime: RuntimeConfiguration,
    i: int,
    stranger: Seq<char>,
)
    requires
        runtime.distinct(),
        0 <= i < runtime.peers@.len(),
        forall|k: int| 0 <= k < runtime.peers@.len() ==> (#[trigger] runtime.peers@[k]).0@
            != stranger,
    ensures
        runtime.knows(runtime.peers@[i].0@),
        runtime.outbound(runtime.peers@[i].0@) == runtime.peers@[i].1.outbound,
        runtime.commands(runtime.peers@[i].0@) == runtime.peers@[i].1.commands,
        !runtime.knows(stranger),
        runtime.outbound(stranger) is None,
        runtime.commands(stranger) is None,
{
    lemma_entry_of(runtime.peers@, runtime.peers@[i].0@, 0);
    lemma_entry_of(runtime.peers@, stranger, 0);
    let k = entry_of(runtime.peers@, runtime.peers@[i].0@, 0)->0;
    assert(runtime.peers@[k].0@ == runtime.peers@[i].0@);
    assert(k == i);
}

proof fn lemma_first(peers: Seq<Peer>, key: Seq<char>, from: int)
    requires
        0 <= from <= peers.len(),
    ensures
        match first_peer(peers, key, from) {
            Some(i) => from <= i < peers.len() && peers[i].public_key@ == key && forall|k: int|
                from <= k < i ==> (#[trigger] peers[k]).public_key@ != key,
            None => forall|k: int| from <= k < peers.len() ==> (#[trigger] peers[k]).public_key@
                != key,
        },
    decreases peers.len() - from,
{
    if from < peers.len() && peers[from].public_key@ != key {
        lemma_first(peers, key, from + 1);
    }
}

/// A peer is shown under its name, the first where its key has several, and under its key
/// where it has none.
pub proof fn law_a_peer_is_shown_under_its_name(peers: Seq<Peer>, key: Seq<char>, i: int)
    requires
        forall|k: int| 0 <= k < i ==> (#[trigger] peers[k]).public_key@ != key,
        0 <= i <= peers.len(),
        i < peers.len() ==> peers[i].public_key@ == key,
    ensures
        i < peers.len() ==> shown_name(peers, key) == peers[i].name@,
        i == peers.len() ==> shown_name(peers, key) == key,
{
    lemma_first(peers, key, 0);
}

/// Whether a directory asks for a tag by name.
pub open spec fn names_tag(directory: SyncDirectory, tag_id: TagId) -> bool {
    match directory.sync_type {
        SyncType::Universal { .. } => false,
        SyncType::TagBased { tags } => tags@.contains(tag_id),
    }
}

proof fn lemma_all_tags(directories: Seq<SyncDirectory>, tag_id: TagId)
    ensures
        all_tags(directories).contains(tag_id) <==> exists|i: int|
            0 <= i < directories.len() && names_tag(#[trigger] directories[i], tag_id),
    decreases directories.len(),
{
    if directories.len() > 0 {
        let init = directories.drop_last();
        lemma_all_tags(init, tag_id);
        let own = match directories.last().sync_type@ {
            SyncTypeView::Universal { .. } => Seq::<TagId>::empty(),
            SyncTypeView::TagBased { tags } => tags,
        };
        let before = all_tags(init);
        let all = all_tags(directories);
        assert(all == before + own);
        if all.contains(tag_id) {
            let k = choose|k: int| 0 <= k < all.len() && all[k] == tag_id;
            if k < before.len() {
                assert(before[k] == tag_id);
                let i = choose|i: int|
                    0 <= i < init.len() && names_tag(#[trigger] init[i], tag_id);
                assert(directories[i] == init[i]);
            } else {
                assert(own[k - before.len()] == tag_id);
                assert(names_tag(directories[directories.len() - 1], tag_id));
            }
        }
        if exists|i: int|
            0 <= i < directories.len() && names_tag(#[trigger] directories[i], tag_id) {
            let i = choose|i: int|
                0 <= i < directories.len() && names_tag(#[trigger] directories[i], tag_id);
            if i < init.len() {
                assert(names_tag(init[i], tag_id));
                let k = choose|k: int| 0 <= k < before.len() && before[k] == tag_id;
                assert(all[k] == tag_id);
            } else {
                let k = choose|k: int| 0 <= k < own.len() && own[k] == tag_id;
                assert(all[before.len() + k] == tag_id);
            }
        }
    }
}

/// A device asks its peers for every file just where one of its directories does, and else for
/// the tags that its directories ask for: each of them, and no other.
pub proof fn law_a_device_asks_for_what_its_directories_do(
    directories: Seq<SyncDirectory>,
    tag_id: TagId,
)
    ensures
        external_type(directories) is Universal <==> exists|i: int|
            0 <= i < directories.len() && (#[trigger] directories[i]).sync_type is Universal,
        external_type(directories) matches SyncTypeView::TagBased { tags } ==> (tags.contains(
            tag_id,
        ) <==> exists|i: int|
            0 <= i < directories.len() && names_tag(#[trigger] directories[i], tag_id)),
        external_type(directories) matches SyncTypeView::Universal { keep_deleted_files }
            ==> !keep_deleted_files,
{
    lemma_all_tags(directories, tag_id);
    if exists|i: int|
        0 <= i < directories.len() && (#[trigger] directories[i]).sync_type is Universal {
        let i = choose|i: int|
            0 <= i < directories.len() && (#[trigger] directories[i]).sync_type is Universal;
        assert(super::is_universal(directories[i]));
    }
}

} // verus!
