//! What a fetch is for: whoever asks gets the content that they asked for, or learns that
//! nobody has it.

use vstd::prelude::*;
use super::{
    after_found, after_local_fetch, after_missing, after_request, after_timeout, asked,
    asked_among, flooded, is_pull_for, FetchAction, FetchActionView, FetchesView, FoundAction,
    FoundThen, PendingView, ReplyView,
};
use crate::bus::FetchError;
use crate::configuration::{RuntimeConfiguration, RuntimePeer};
use crate::ids::{FileId, RequestId};
use crate::state::SyncMessage;

verus! {

/// Whether a peer is to be asked: it is connected, and it is not the one that the request
/// came from.
pub open spec fn is_neighbour(
    runtime: RuntimeConfiguration,
    i: int,
    from: Option<Seq<char>>,
) -> bool {
    &&& 0 <= i < runtime.peers@.len()
    &&& runtime.peers@[i].1.outbound is Some
    &&& from != Some(runtime.peers@[i].0@)
}

/// Whether somebody is to be asked.
pub open spec fn has_neighbour(runtime: RuntimeConfiguration, from: Option<Seq<char>>) -> bool {
    exists|i: int| #[trigger] is_neighbour(runtime, i, from)
}

/// Whether actions ask each neighbour once for a content, under one number, then wait, and
/// do nothing else.
pub open spec fn asks_every_neighbour(
    runtime: RuntimeConfiguration,
    from: Option<Seq<char>>,
    actions: Seq<FetchActionView>,
    request_id: RequestId,
    file_id: FileId,
    expected_hash: Seq<char>,
) -> bool {
    &&& actions.len() > 0
    &&& actions.last() == (FetchActionView::ArmTimeout { request_id })
    &&& forall|i: int| #[trigger]
        is_neighbour(runtime, i, from) ==> actions.contains(
            FetchActionView::Request {
                to: runtime.peers@[i].0@,
                request_id,
                file_id,
                expected_hash,
            },
        )
    &&& forall|k: int|
        0 <= k < actions.len() - 1 ==> exists|i: int| #[trigger]
            is_neighbour(runtime, i, from) && #[trigger] actions[k] == (FetchActionView::Request {
                to: runtime.peers@[i].0@,
                request_id,
                file_id,
                expected_hash,
            })
    &&& actions.len() - 1 <= runtime.peers@.len()
}

/// Whether a set holds the keys of the neighbours.
pub open spec fn are_neighbours(
    runtime: RuntimeConfiguration,
    from: Option<Seq<char>>,
    keys: Set<Seq<char>>,
) -> bool {
    forall|key: Seq<char>| #[trigger]
        keys.contains(key) <==> exists|i: int| #[trigger]
            is_neighbour(runtime, i, from) && runtime.peers@[i].0@ == key
}

spec fn is_key_of(
    peers: Seq<(String, RuntimePeer)>,
    from: Option<Seq<char>>,
    n: int,
    key: Seq<char>,
) -> bool {
    exists|i: int|
        0 <= i < n && (#[trigger] peers[i]).1.outbound is Some && from != Some(peers[i].0@)
            && peers[i].0@ == key
}

proof fn lemma_asked(peers: Seq<(String, RuntimePeer)>, from: Option<Seq<char>>, n: int)
    requires
        0 <= n <= peers.len(),
    ensures
        asked_among(peers, from, n).len() <= n,
        forall|i: int|
            0 <= i < n && (#[trigger] peers[i]).1.outbound is Some && from != Some(peers[i].0@)
                ==> asked_among(peers, from, n).contains(peers[i].0@),
        forall|k: int|
            0 <= k < asked_among(peers, from, n).len() ==> is_key_of(
                peers,
                from,
                n,
                #[trigger] asked_among(peers, from, n)[k],
            ),
    decreases n,
{
    if n > 0 {
        lemma_asked(peers, from, n - 1);
        let before = asked_among(peers, from, n - 1);
        let all = asked_among(peers, from, n);
        assert forall|i: int|
            0 <= i < n && (#[trigger] peers[i]).1.outbound is Some && from != Some(
                peers[i].0@,
            ) implies all.contains(peers[i].0@) by {
            if i < n - 1 {
                assert(before.contains(peers[i].0@));
                let k = choose|k: int| 0 <= k < before.len() && before[k] == peers[i].0@;
                assert(all[k] == peers[i].0@);
            } else {
                assert(all[before.len() as int] == peers[i].0@);
            }
        }
        assert forall|k: int| 0 <= k < all.len() implies is_key_of(
            peers,
            from,
            n,
            #[trigger] all[k],
        ) by {
            if k < before.len() {
                assert(all[k] == before[k]);
                assert(is_key_of(peers, from, n - 1, before[k]));
                let i = choose|i: int|
                    0 <= i < n - 1 && (#[trigger] peers[i]).1.outbound is Some && from != Some(
                        peers[i].0@,
                    ) && peers[i].0@ == before[k];
                assert(peers[i].0@ == all[k]);
            } else {
                assert(peers[n - 1].0@ == all[k]);
            }
        }
    }
}

proof fn lemma_flooded(
    runtime: RuntimeConfiguration,
    from: Option<Seq<char>>,
    request_id: RequestId,
    file_id: FileId,
    expected_hash: Seq<char>,
)
    ensures
        asks_every_neighbour(
            runtime,
            from,
            flooded(asked(runtime, from), request_id, file_id, expected_hash),
            request_id,
            file_id,
            expected_hash,
        ),
        are_neighbours(runtime, from, asked(runtime, from).to_set()),
        (asked(runtime, from).len() == 0) == !has_neighbour(runtime, from),
{
    let peers = runtime.peers@;
    let keys = asked(runtime, from);
    let n = peers.len() as int;
    let actions = flooded(keys, request_id, file_id, expected_hash);
    lemma_asked(peers, from, n);
    assert forall|i: int| #[trigger] is_neighbour(runtime, i, from) implies actions.contains(
        FetchActionView::Request { to: peers[i].0@, request_id, file_id, expected_hash },
    ) && keys.contains(peers[i].0@) by {
        assert(keys.contains(peers[i].0@));
        let k = choose|k: int| 0 <= k < keys.len() && keys[k] == peers[i].0@;
        assert(actions[k] == (FetchActionView::Request {
            to: peers[i].0@,
            request_id,
            file_id,
            expected_hash,
        }));
    }
    assert forall|k: int| 0 <= k < actions.len() - 1 implies exists|i: int| #[trigger]
        is_neighbour(runtime, i, from) && #[trigger] actions[k] == (FetchActionView::Request {
            to: peers[i].0@,
            request_id,
            file_id,
            expected_hash,
        }) by {
        assert(is_key_of(peers, from, n, keys[k]));
        let i = choose|i: int|
            0 <= i < n && (#[trigger] peers[i]).1.outbound is Some && from != Some(peers[i].0@)
                && peers[i].0@ == keys[k];
        assert(is_neighbour(runtime, i, from));
    }
    assert forall|key: Seq<char>| #[trigger] keys.to_set().contains(key) <==> exists|i: int|
     #[trigger]
        is_neighbour(runtime, i, from) && peers[i].0@ == key by {
        if keys.to_set().contains(key) {
            let k = choose|k: int| 0 <= k < keys.len() && keys[k] == key;
            assert(is_key_of(peers, from, n, keys[k]));
            let i = choose|i: int|
                0 <= i < n && (#[trigger] peers[i]).1.outbound is Some && from != Some(
                    peers[i].0@,
                ) && peers[i].0@ == keys[k];
            assert(is_neighbour(runtime, i, from));
        }
        if exists|i: int| #[trigger] is_neighbour(runtime, i, from) && peers[i].0@ == key {
            let i = choose|i: int| #[trigger]
                is_neighbour(runtime, i, from) && peers[i].0@ == key;
            assert(keys.contains(peers[i].0@));
        }
    }
    if keys.len() > 0 {
        assert(is_key_of(peers, from, n, keys[0]));
        let i = choose|i: int|
            0 <= i < n && (#[trigger] peers[i]).1.outbound is Some && from != Some(peers[i].0@)
                && peers[i].0@ == keys[0];
        assert(is_neighbour(runtime, i, from));
    }
}

/// What an action says is the message that it sends.
pub proof fn law_an_action_is_its_message(action: FetchAction)
    ensures
        match action@ {
            FetchActionView::Request { to, request_id, file_id, expected_hash } => action matches
                FetchAction::Send {
                public_key,
                message: SyncMessage::FetchRequest {
                    request_id: r,
                    file_id: f,
                    expected_hash: h,
                },
            } && public_key@ == to && r == request_id && f == file_id && h@ == expected_hash,
            FetchActionView::Found { to, request_id, file_id, content_hash, size } => action
                matches FetchAction::Send {
                public_key,
                message: SyncMessage::FetchFound {
                    request_id: r,
                    file_id: f,
                    content_hash: h,
                    size: s,
                },
            } && public_key@ == to && r == request_id && f == file_id && h@ == content_hash && s
                == size,
            FetchActionView::Missing { to, request_id } => action matches FetchAction::Send {
                public_key,
                message: SyncMessage::FetchMissing { request_id: r },
            } && public_key@ == to && r == request_id,
            FetchActionView::Fail { waiter, error } => action == (FetchAction::Fail {
                waiter,
                error,
            }),
            FetchActionView::ArmTimeout { request_id } => action == (FetchAction::ArmTimeout {
                request_id,
            }),
            FetchActionView::Other => true,
        },
{
}

/// A local fetch asks every connected peer and remembers who waits; where nobody is
/// connected, the one who asked learns at once that the content is not to be had.
pub proof fn law_a_local_fetch_asks_all(
    before: FetchesView,
    runtime: RuntimeConfiguration,
    request_id: RequestId,
    file_id: FileId,
    expected_hash: Seq<char>,
    waiter: u64,
)
    ensures
        ({
            let (after, actions) = after_local_fetch(
                before,
                runtime,
                request_id,
                file_id,
                expected_hash,
                waiter,
            );
            if has_neighbour(runtime, None) {
                &&& asks_every_neighbour(
                    runtime,
                    None,
                    actions,
                    request_id,
                    file_id,
                    expected_hash,
                )
                &&& after.table.contains_key(request_id)
                &&& after.table[request_id].reply_to == ReplyView::Local(waiter)
                &&& after.table[request_id].expected_hash == expected_hash
                &&& after.table[request_id].file_id == file_id
                &&& are_neighbours(runtime, None, after.table[request_id].children)
                &&& after.table.remove(request_id) == before.table.remove(request_id)
                &&& after.cache == before.cache
                &&& after.providers == before.providers
            } else {
                &&& after == before
                &&& actions.len() == 1
                &&& actions[0] == (FetchActionView::Fail {
                    waiter,
                    error: FetchError::NotAvailable,
                })
            }
        }),
{
    lemma_flooded(runtime, None, request_id, file_id, expected_hash);
    let after = after_local_fetch(
        before,
        runtime,
        request_id,
        file_id,
        expected_hash,
        waiter,
    ).0;
    assert(after.table.remove(request_id) =~= before.table.remove(request_id));
}

/// A peer's request for what is held here is answered to that peer, with the content asked
/// for and its size. One for what is not held goes to every other connected peer, and who
/// asked is remembered; where there is no other, that peer is told that it is missing.
pub proof fn law_a_request_is_answered_or_passed_on(
    before: FetchesView,
    runtime: RuntimeConfiguration,
    from: Seq<char>,
    request_id: RequestId,
    file_id: FileId,
    expected_hash: Seq<char>,
    local_size: Option<u64>,
)
    requires
        runtime.outbound(from) is Some,
        !before.table.contains_key(request_id),
    ensures
        ({
            let (after, actions) = after_request(
                before,
                runtime,
                from,
                request_id,
                file_id,
                expected_hash,
                local_size,
            );
            match local_size {
                Some(size) => {
                    &&& after == before
                    &&& actions.len() == 1
                    &&& actions[0] == (FetchActionView::Found {
                        to: from,
                        request_id,
                        file_id,
                        content_hash: expected_hash,
                        size,
                    })
                },
                None => if has_neighbour(runtime, Some(from)) {
                    &&& asks_every_neighbour(
                        runtime,
                        Some(from),
                        actions,
                        request_id,
                        file_id,
                        expected_hash,
                    )
                    &&& after.table.contains_key(request_id)
                    &&& after.table[request_id].reply_to == ReplyView::Peer(from)
                    &&& after.table[request_id].expected_hash == expected_hash
                    &&& after.table[request_id].file_id == file_id
                    &&& are_neighbours(runtime, Some(from), after.table[request_id].children)
                    &&& after.table.remove(request_id) == before.table
                    &&& after.cache == before.cache
                    &&& after.providers == before.providers
                } else {
                    &&& after == before
                    &&& actions.len() == 1
                    &&& actions[0] == (FetchActionView::Missing { to: from, request_id })
                },
            }
        }),
{
    lemma_flooded(runtime, Some(from), request_id, file_id, expected_hash);
    let after = after_request(
        before,
        runtime,
        from,
        request_id,
        file_id,
        expected_hash,
        local_size,
    ).0;
    assert(after.table.remove(request_id) =~= before.table);
}

/// A request that is pending already is passed on again, and stays as it was registered.
pub proof fn law_a_pending_request_keeps_its_asker(
    before: FetchesView,
    runtime: RuntimeConfiguration,
    from: Seq<char>,
    request_id: RequestId,
    file_id: FileId,
    expected_hash: Seq<char>,
    local_size: Option<u64>,
)
    requires
        before.table.contains_key(request_id),
    ensures
        after_request(
            before,
            runtime,
            from,
            request_id,
            file_id,
            expected_hash,
            local_size,
        ).0 == before,
{
}

/// The first peer that has the content wins: it is pulled from that peer for the one who
/// waits, and the fetch is settled, so that any later word on it is ignored. Word on another
/// content, or on a fetch that nobody waits for, is ignored.
pub proof fn law_the_first_found_wins(
    before: FetchesView,
    runtime: RuntimeConfiguration,
    request_id: RequestId,
    content_hash: Seq<char>,
    later_hash: Seq<char>,
    later_from: Seq<char>,
)
    ensures
        ({
            let (after, target) = after_found(before, request_id, content_hash);
            let waits = before.table.contains_key(request_id)
                && before.table[request_id].expected_hash == content_hash;
            &&& waits ==> target == Some(before.table[request_id].reply_to)
            &&& !waits ==> target is None && after == before
            &&& waits ==> !after.table.contains_key(request_id)
            &&& waits ==> after_found(after, request_id, later_hash) == (
                after,
                None::<ReplyView>,
            )
            &&& waits ==> after_missing(after, runtime, later_from, request_id) == (
                after,
                Seq::<FetchActionView>::empty(),
            )
            &&& waits ==> after_timeout(after, runtime, request_id).1.len() == 0
            &&& forall|r: RequestId|
                r != request_id && before.table.contains_key(r) ==> after.table.contains_key(r)
                    && #[trigger] after.table[r] == before.table[r]
            &&& after.cache == before.cache
            &&& after.providers == before.providers
        }),
{
}

/// The pull after a find is from the peer that has it, of the file and content that were
/// found: for a waiter here it is delivered to that waiter, and for a peer it is relayed to
/// that peer under the same number.
pub proof fn law_a_find_is_pulled_for_the_asker(
    action: Option<FoundAction>,
    reply_to: Option<ReplyView>,
    from: Seq<char>,
    request_id: RequestId,
    file_id: FileId,
    content_hash: Seq<char>,
    size: u64,
)
    requires
        is_pull_for(action, reply_to, from, request_id, file_id, content_hash, size),
    ensures
        (action is Some) == (reply_to is Some),
        action matches Some(
            FoundAction::Receive { from_peer, file_id: f, expected_hash, expected_size, then },
        ) ==> {
            &&& from_peer@ == from
            &&& f == file_id
            &&& expected_hash@ == content_hash
            &&& expected_size == size
            &&& reply_to matches Some(ReplyView::Local(waiter)) ==> then
                == FoundThen::DeliverLocal(waiter)
            &&& reply_to matches Some(ReplyView::Peer(parent)) ==> (then matches FoundThen::RelayUp {
                parent_peer,
                request_id: r,
                file_id: g,
                content_hash: h,
                size: s,
            } && parent_peer@ == parent && r == request_id && g == file_id && h@ == content_hash
                && s == size)
        },
{
}

/// Whoever waits learns that a content is missing: of a local fetch the waiter, of a relayed
/// one the peer that asked, where it is connected. Others learn nothing.
pub open spec fn is_told_missing(
    runtime: RuntimeConfiguration,
    request_id: RequestId,
    reply_to: ReplyView,
    actions: Seq<FetchActionView>,
) -> bool {
    match reply_to {
        ReplyView::Local(waiter) => actions.len() == 1 && actions[0] == (FetchActionView::Fail {
            waiter,
            error: FetchError::NotAvailable,
        }),
        ReplyView::Peer(parent) => if runtime.outbound(parent) is Some {
            actions.len() == 1 && actions[0] == (FetchActionView::Missing {
                to: parent,
                request_id,
            })
        } else {
            actions.len() == 0
        },
    }
}

/// A peer's word that it lacks the content takes it off the list of those that are waited
/// for. While others are left nobody is told; once none is, the one who asked is, and the
/// fetch is settled.
pub proof fn law_missing_is_told_at_last(
    before: FetchesView,
    runtime: RuntimeConfiguration,
    from: Seq<char>,
    request_id: RequestId,
)
    requires
        before.table.contains_key(request_id),
    ensures
        ({
            let (after, actions) = after_missing(before, runtime, from, request_id);
            let entry = before.table[request_id];
            let others = exists|key: Seq<char>| #[trigger]
                entry.children.contains(key) && key != from;
            &&& if others {
                &&& actions.len() == 0
                &&& after.table.contains_key(request_id)
                &&& after.table[request_id] == (PendingView {
                    children: entry.children.remove(from),
                    ..entry
                })
            } else {
                &&& !after.table.contains_key(request_id)
                &&& is_told_missing(runtime, request_id, entry.reply_to, actions)
            }
            &&& forall|r: RequestId|
                r != request_id && before.table.contains_key(r) ==> after.table.contains_key(r)
                    && #[trigger] after.table[r] == before.table[r]
            &&& after.cache == before.cache
            &&& after.providers == before.providers
        }),
{
    let entry = before.table[request_id];
    let left = entry.children.remove(from);
    if exists|key: Seq<char>| #[trigger] entry.children.contains(key) && key != from {
        let key = choose|key: Seq<char>| #[trigger] entry.children.contains(key) && key != from;
        assert(left.contains(key));
        assert(!(left =~= Set::empty()));
    } else {
        assert(left =~= Set::empty());
    }
}

/// A fetch that still waits when its time is up is settled as missing, and the one who asked
/// is told; one that is settled leads to nothing.
pub proof fn law_a_fetch_ends_in_time(
    before: FetchesView,
    runtime: RuntimeConfiguration,
    request_id: RequestId,
)
    ensures
        ({
            let (after, actions) = after_timeout(before, runtime, request_id);
            &&& after.table == before.table.remove(request_id)
            &&& after.cache == before.cache
            &&& after.providers == before.providers
            &&& before.table.contains_key(request_id) ==> is_told_missing(
                runtime,
                request_id,
                before.table[request_id].reply_to,
                actions,
            )
            &&& !before.table.contains_key(request_id) ==> actions.len() == 0
        }),
{
}

} // verus!
