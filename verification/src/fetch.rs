//! On-demand fetch across the tree of live peers.
//!
//! A request that cannot be met here goes to all neighbours but the one it came from.
//! The first neighbour that has the content wins. A node reports that the content is
//! missing only once every neighbour it asked did so, or time ran out.

use vstd::prelude::*;

pub mod laws;

use crate::bus::FetchError;
use crate::configuration::{entry_of, lemma_entry_of, RuntimeConfiguration, RuntimePeer};
use crate::file_bytes::FileBytes;
use crate::ids::{FileId, RequestId};
use crate::state::SyncMessage;
use crate::table::Table;
use crate::text::same_text;

verus! {

/// Seconds that a hop waits for its neighbours.
pub const HOP_TIMEOUT_SECONDS: u64 = 8;

/// Whom the answer to a fetch goes to.
#[derive(Debug, PartialEq, Eq)]
pub enum ReplyTarget {
    /// Someone who waits on this device, named by a number.
    Local(u64),
    /// The peer that relayed the request.
    Peer(String),
}

/// The mathematical value of a [`ReplyTarget`].
#[verifier::ext_equal]
pub enum ReplyView {
    Local(u64),
    Peer(Seq<char>),
}

impl View for ReplyTarget {
    type V = ReplyView;

    open spec fn view(&self) -> ReplyView {
        match *self {
            ReplyTarget::Local(waiter) => ReplyView::Local(waiter),
            ReplyTarget::Peer(public_key) => ReplyView::Peer(public_key@),
        }
    }
}

/// A fetch that waits for answers.
#[derive(Debug, PartialEq, Eq)]
pub struct PendingFetch {
    pub file_id: FileId,
    pub expected_hash: String,
    pub reply_to: ReplyTarget,
    /// The peers that were asked and have not answered.
    pub children_outstanding: Vec<String>,
}

/// The mathematical value of a [`PendingFetch`].
#[verifier::ext_equal]
pub struct PendingView {
    pub file_id: FileId,
    pub expected_hash: Seq<char>,
    pub reply_to: ReplyView,
    pub children: Set<Seq<char>>,
}

/// The set of the texts in a list.
pub open spec fn text_set(list: Seq<String>) -> Set<Seq<char>> {
    Set::new(|k: Seq<char>| exists|i: int| 0 <= i < list.len() && (#[trigger] list[i])@ == k)
}

impl View for PendingFetch {
    type V = PendingView;

    open spec fn view(&self) -> PendingView {
        PendingView {
            file_id: self.file_id,
            expected_hash: self.expected_hash@,
            reply_to: self.reply_to@,
            children: text_set(self.children_outstanding@),
        }
    }
}

/// What to do with the bytes once a fetch's transfer is complete.
#[derive(Debug, PartialEq, Eq)]
pub enum FoundThen {
    /// Hand them to the waiter.
    DeliverLocal(u64),
    /// Keep them for the peer that asked, and tell it that they were found.
    RelayUp {
        parent_peer: String,
        request_id: RequestId,
        file_id: FileId,
        content_hash: String,
        size: u64,
    },
}

/// What to do about a peer that has the content.
#[derive(Debug, PartialEq, Eq)]
pub enum FoundAction {
    /// Pull the file from the peer.
    Receive {
        from_peer: String,
        file_id: FileId,
        expected_hash: String,
        expected_size: u64,
        then: FoundThen,
    },
}

/// What the daemon does for a fetch.
#[derive(Debug, PartialEq, Eq)]
pub enum FetchAction {
    /// Send a message to a peer.
    Send { public_key: String, message: SyncMessage },
    /// Tell a waiter that the fetch failed.
    Fail { waiter: u64, error: FetchError },
    /// Call [`PendingFetches::hop_timed_out`] after [`HOP_TIMEOUT_SECONDS`].
    ArmTimeout { request_id: RequestId },
}

/// The mathematical value of a [`FetchAction`].
#[verifier::ext_equal]
pub enum FetchActionView {
    Request { to: Seq<char>, request_id: RequestId, file_id: FileId, expected_hash: Seq<char> },
    Found {
        to: Seq<char>,
        request_id: RequestId,
        file_id: FileId,
        content_hash: Seq<char>,
        size: u64,
    },
    Missing { to: Seq<char>, request_id: RequestId },
    Fail { waiter: u64, error: FetchError },
    ArmTimeout { request_id: RequestId },
    Other,
}

impl View for FetchAction {
    type V = FetchActionView;

    open spec fn view(&self) -> FetchActionView {
        match *self {
            FetchAction::Send {
                public_key,
                message: SyncMessage::FetchRequest { request_id, file_id, expected_hash },
            } => FetchActionView::Request {
                to: public_key@,
                request_id,
                file_id,
                expected_hash: expected_hash@,
            },
            FetchAction::Send {
                public_key,
                message: SyncMessage::FetchFound { request_id, file_id, content_hash, size },
            } => FetchActionView::Found {
                to: public_key@,
                request_id,
                file_id,
                content_hash: content_hash@,
                size,
            },
            FetchAction::Send { public_key, message: SyncMessage::FetchMissing { request_id } } =>
                FetchActionView::Missing { to: public_key@, request_id },
            FetchAction::Send { .. } => FetchActionView::Other,
            FetchAction::Fail { waiter, error } => FetchActionView::Fail { waiter, error },
            FetchAction::ArmTimeout { request_id } => FetchActionView::ArmTimeout { request_id },
        }
    }
}

/// The mathematical value of a list of actions.
pub open spec fn fetch_views(actions: Seq<FetchAction>) -> Seq<FetchActionView> {
    actions.map_values(|a: FetchAction| a@)
}

/// Whether a peer is asked: it is connected, and not the one to leave out.
pub open spec fn is_asked(peer: (String, RuntimePeer), exclude: Option<Seq<char>>) -> bool {
    &&& peer.1.outbound is Some
    &&& exclude != Some(peer.0@)
}

/// The public keys of those of the first `n` peers that are asked.
pub open spec fn asked_among(
    peers: Seq<(String, RuntimePeer)>,
    exclude: Option<Seq<char>>,
    n: int,
) -> Seq<Seq<char>>
    decreases n,
{
    if n <= 0 {
        Seq::empty()
    } else {
        let before = asked_among(peers, exclude, n - 1);
        if is_asked(peers[n - 1], exclude) {
            before.push(peers[n - 1].0@)
        } else {
            before
        }
    }
}

/// The public keys of all peers that are asked.
pub open spec fn asked(runtime: RuntimeConfiguration, exclude: Option<Seq<char>>) -> Seq<
    Seq<char>,
> {
    asked_among(runtime.peers@, exclude, runtime.peers@.len() as int)
}

/// A request sent to each of some peers, and the timeout armed.
pub open spec fn flooded(
    keys: Seq<Seq<char>>,
    request_id: RequestId,
    file_id: FileId,
    expected_hash: Seq<char>,
) -> Seq<FetchActionView> {
    keys.map_values(
        |to: Seq<char>| FetchActionView::Request { to, request_id, file_id, expected_hash },
    ).push(FetchActionView::ArmTimeout { request_id })
}

/// A message to a peer, where it is connected.
pub open spec fn if_connected(
    runtime: RuntimeConfiguration,
    to: Seq<char>,
    action: FetchActionView,
) -> Seq<FetchActionView> {
    if runtime.outbound(to) is Some {
        seq![action]
    } else {
        Seq::empty()
    }
}

/// The report that a fetch found nothing.
pub open spec fn reported_missing(
    runtime: RuntimeConfiguration,
    request_id: RequestId,
    reply_to: ReplyView,
) -> Seq<FetchActionView> {
    match reply_to {
        ReplyView::Local(waiter) => seq![
            FetchActionView::Fail { waiter, error: FetchError::NotAvailable },
        ],
        ReplyView::Peer(parent) => if_connected(
            runtime,
            parent,
            FetchActionView::Missing { to: parent, request_id },
        ),
    }
}

/// Things kept by file and content hash.
pub struct Shelf<V> {
    rows: Vec<(FileId, String, V)>,
}

spec fn shelf_has<V>(rows: Seq<(FileId, String, V)>, key: (FileId, Seq<char>)) -> bool {
    exists|i: int| 0 <= i < rows.len() && (#[trigger] rows[i]).0 == key.0 && rows[i].1@ == key.1
}

spec fn shelf_map<V>(rows: Seq<(FileId, String, V)>) -> Map<(FileId, Seq<char>), V> {
    Map::new(
        |key: (FileId, Seq<char>)| shelf_has(rows, key),
        |key: (FileId, Seq<char>)|
            rows[choose|i: int|
                0 <= i < rows.len() && (#[trigger] rows[i]).0 == key.0 && rows[i].1@ == key.1].2,
    )
}

spec fn shelf_distinct<V>(rows: Seq<(FileId, String, V)>) -> bool {
    forall|i: int, j: int|
        0 <= i < j < rows.len() ==> !((#[trigger] rows[i]).0 == (#[trigger] rows[j]).0
            && rows[i].1@ == rows[j].1@)
}

proof fn lemma_shelf_at<V>(rows: Seq<(FileId, String, V)>, i: int)
    requires
        shelf_distinct(rows),
        0 <= i < rows.len(),
    ensures
        shelf_map(rows).contains_key((rows[i].0, rows[i].1@)),
        shelf_map(rows)[(rows[i].0, rows[i].1@)] == rows[i].2,
{
    let key = (rows[i].0, rows[i].1@);
    let j = choose|j: int|
        0 <= j < rows.len() && (#[trigger] rows[j]).0 == key.0 && rows[j].1@ == key.1;
    assert(rows[j].0 == rows[i].0 && rows[j].1@ == rows[i].1@);
    if i < j {
        assert(false);
    }
    if j < i {
        assert(false);
    }
}

proof fn lemma_shelf_push<V>(rows: Seq<(FileId, String, V)>, row: (FileId, String, V))
    requires
        shelf_distinct(rows),
        !shelf_has(rows, (row.0, row.1@)),
    ensures
        shelf_distinct(rows.push(row)),
        shelf_map(rows.push(row)) == shelf_map(rows).insert((row.0, row.1@), row.2),
{
    let after = rows.push(row);
    assert forall|i: int, j: int| 0 <= i < j < after.len() implies !((#[trigger] after[i]).0 == (
    #[trigger] after[j]).0 && after[i].1@ == after[j].1@) by {
        assert(after[i] == rows[i]);
        if j < rows.len() {
            assert(after[j] == rows[j]);
        } else if rows[i].0 == row.0 && rows[i].1@ == row.1@ {
            assert(shelf_has(rows, (row.0, row.1@)));
        }
    }
    assert forall|key: (FileId, Seq<char>)| shelf_has(after, key) <==> shelf_has(rows, key) || key
        == (row.0, row.1@) by {
        if shelf_has(rows, key) {
            let i = choose|i: int|
                0 <= i < rows.len() && (#[trigger] rows[i]).0 == key.0 && rows[i].1@ == key.1;
            assert(after[i] == rows[i]);
        }
        assert(after[rows.len() as int] == row);
        if shelf_has(after, key) && key != (row.0, row.1@) {
            let i = choose|i: int|
                0 <= i < after.len() && (#[trigger] after[i]).0 == key.0 && after[i].1@ == key.1;
            assert(rows[i] == after[i]);
        }
    }
    assert forall|key: (FileId, Seq<char>)| shelf_map(after).contains_key(key) implies shelf_map(
        after,
    )[key] == shelf_map(rows).insert((row.0, row.1@), row.2)[key] by {
        let i = choose|i: int|
            0 <= i < after.len() && (#[trigger] after[i]).0 == key.0 && after[i].1@ == key.1;
        lemma_shelf_at(after, i);
        if i < rows.len() {
            assert(after[i] == rows[i]);
            lemma_shelf_at(rows, i);
        }
    }
    assert(shelf_map(after) =~= shelf_map(rows).insert((row.0, row.1@), row.2));
}

proof fn lemma_shelf_remove<V>(rows: Seq<(FileId, String, V)>, at: int)
    requires
        shelf_distinct(rows),
        0 <= at < rows.len(),
    ensures
        shelf_distinct(rows.remove(at)),
        shelf_map(rows.remove(at)) == shelf_map(rows).remove((rows[at].0, rows[at].1@)),
{
    let after = rows.remove(at);
    let gone = (rows[at].0, rows[at].1@);
    assert forall|i: int, j: int| 0 <= i < j < after.len() implies !((#[trigger] after[i]).0 == (
    #[trigger] after[j]).0 && after[i].1@ == after[j].1@) by {
        let i0 = if i < at { i } else { i + 1 };
        let j0 = if j < at { j } else { j + 1 };
        assert(after[i] == rows[i0]);
        assert(after[j] == rows[j0]);
    }
    assert forall|key: (FileId, Seq<char>)| shelf_has(after, key) <==> shelf_has(rows, key) && key
        != gone by {
        if shelf_has(after, key) {
            let i = choose|i: int|
                0 <= i < after.len() && (#[trigger] after[i]).0 == key.0 && after[i].1@ == key.1;
            let i0 = if i < at { i } else { i + 1 };
            assert(rows[i0] == after[i]);
            assert(shelf_has(rows, key));
            if key == gone {
                if i0 < at {
                    assert(rows[i0].0 == rows[at].0);
                } else {
                    assert(rows[at].0 == rows[i0].0);
                }
            }
        }
        if shelf_has(rows, key) && key != gone {
            let i = choose|i: int|
                0 <= i < rows.len() && (#[trigger] rows[i]).0 == key.0 && rows[i].1@ == key.1;
            let i1 = if i < at { i } else { i - 1 };
            assert(after[i1] == rows[i]);
        }
    }
    assert forall|key: (FileId, Seq<char>)| shelf_map(after).contains_key(key) implies shelf_map(
        after,
    )[key] == shelf_map(rows).remove(gone)[key] by {
        let i = choose|i: int|
            0 <= i < after.len() && (#[trigger] after[i]).0 == key.0 && after[i].1@ == key.1;
        let i0 = if i < at { i } else { i + 1 };
        assert(rows[i0] == after[i]);
        lemma_shelf_at(after, i);
        lemma_shelf_at(rows, i0);
    }
    assert(shelf_map(after) =~= shelf_map(rows).remove(gone));
}

impl<V> Shelf<V> {
    #[verifier::type_invariant]
    spec fn inv(self) -> bool {
        shelf_distinct(self.rows@)
    }

    pub closed spec fn view(&self) -> Map<(FileId, Seq<char>), V> {
        shelf_map(self.rows@)
    }

    pub fn new() -> (r: Self)
        ensures
            r@ == Map::<(FileId, Seq<char>), V>::empty(),
    {
        let rows: Vec<(FileId, String, V)> = Vec::new();
        assert(shelf_map(rows@) =~= Map::<(FileId, Seq<char>), V>::empty());
        Shelf { rows }
    }

    fn position(&self, file_id: FileId, content_hash: &str) -> (r: Option<usize>)
        ensures
            match r {
                Some(i) => i < self.rows@.len() && self.rows@[i as int].0 == file_id
                    && self.rows@[i as int].1@ == content_hash@,
                None => !shelf_has(self.rows@, (file_id, content_hash@)),
            },
    {
        let mut i: usize = 0;
        while i < self.rows.len()
            invariant
                i <= self.rows.len(),
                forall|j: int|
                    0 <= j < i ==> !((#[trigger] self.rows@[j]).0 == file_id && self.rows@[j].1@
                        == content_hash@),
            decreases self.rows.len() - i,
        {
            if self.rows[i].0 == file_id && same_text(self.rows[i].1.as_str(), content_hash) {
                return Some(i);
            }
            i = i + 1;
        }
        None
    }

    /// Puts a thing in place of what was kept under the same file and hash.
    pub fn put(&mut self, file_id: FileId, content_hash: String, value: V)
        ensures
            final(self)@ == old(self)@.insert((file_id, content_hash@), value),
    {
        let _ = self.take(file_id, content_hash.as_str());
        let ghost key = (file_id, content_hash@);
        let ghost before = self@;
        assert(before == old(self)@.remove(key));
        proof {
            use_type_invariant(&*self);
        }
        let mut rows: Vec<(FileId, String, V)> = Vec::new();
        core::mem::swap(&mut self.rows, &mut rows);
        proof {
            if shelf_has(rows@, key) {
                assert(before.contains_key(key));
            }
            lemma_shelf_push(rows@, (file_id, content_hash, value));
            assert(before.insert(key, value) =~= old(self)@.insert(key, value));
        }
        rows.push((file_id, content_hash, value));
        self.rows = rows;
    }

    /// Takes what is kept under a file and hash away.
    pub fn take(&mut self, file_id: FileId, content_hash: &str) -> (r: Option<V>)
        ensures
            final(self)@ == old(self)@.remove((file_id, content_hash@)),
            match r {
                Some(value) => old(self)@.contains_key((file_id, content_hash@))
                    && old(self)@[(file_id, content_hash@)] == value,
                None => !old(self)@.contains_key((file_id, content_hash@)),
            },
    {
        proof {
            use_type_invariant(&*self);
        }
        match self.position(file_id, content_hash) {
            Some(at) => {
                let mut rows: Vec<(FileId, String, V)> = Vec::new();
                core::mem::swap(&mut self.rows, &mut rows);
                proof {
                    lemma_shelf_at(rows@, at as int);
                    lemma_shelf_remove(rows@, at as int);
                }
                let row = rows.remove(at);
                self.rows = rows;
                Some(row.2)
            },
            None => {
                assert(old(self)@.remove((file_id, content_hash@)) =~= old(self)@);
                None
            },
        }
    }

    /// What is kept under a file and hash.
    pub fn get(&self, file_id: FileId, content_hash: &str) -> (r: Option<&V>)
        ensures
            match r {
                Some(value) => self@.contains_key((file_id, content_hash@))
                    && self@[(file_id, content_hash@)] == *value,
                None => !self@.contains_key((file_id, content_hash@)),
            },
    {
        proof {
            use_type_invariant(self);
        }
        match self.position(file_id, content_hash) {
            Some(at) => {
                proof {
                    lemma_shelf_at(self.rows@, at as int);
                }
                Some(&self.rows[at].2)
            },
            None => None,
        }
    }
}

/// The mathematical value of the fetch subsystem.
#[verifier::ext_equal]
pub struct FetchesView {
    /// The fetches that wait for answers.
    pub table: Map<RequestId, PendingView>,
    /// Files received for a peer further up, until they are served.
    pub cache: Map<(FileId, Seq<char>), FileBytes>,
    /// Files that clients serve on demand, and over which connection.
    pub providers: Map<(FileId, Seq<char>), u64>,
}

/// What a fetch for a waiter on this device leads to.
pub open spec fn after_local_fetch(
    before: FetchesView,
    runtime: RuntimeConfiguration,
    request_id: RequestId,
    file_id: FileId,
    expected_hash: Seq<char>,
    respond_to: u64,
) -> (FetchesView, Seq<FetchActionView>) {
    let keys = asked(runtime, None);
    if keys.len() == 0 {
        (
            before,
            seq![FetchActionView::Fail { waiter: respond_to, error: FetchError::NotAvailable }],
        )
    } else {
        (
            FetchesView {
                table: before.table.insert(
                    request_id,
                    PendingView {
                        file_id,
                        expected_hash,
                        reply_to: ReplyView::Local(respond_to),
                        children: keys.to_set(),
                    },
                ),
                ..before
            },
            flooded(keys, request_id, file_id, expected_hash),
        )
    }
}

/// What a request of a peer leads to, given the size of the file where it is held here.
pub open spec fn after_request(
    before: FetchesView,
    runtime: RuntimeConfiguration,
    from: Seq<char>,
    request_id: RequestId,
    file_id: FileId,
    expected_hash: Seq<char>,
    local_size: Option<u64>,
) -> (FetchesView, Seq<FetchActionView>) {
    let keys = asked(runtime, Some(from));
    match local_size {
        Some(size) => (
            before,
            if_connected(
                runtime,
                from,
                FetchActionView::Found {
                    to: from,
                    request_id,
                    file_id,
                    content_hash: expected_hash,
                    size,
                },
            ),
        ),
        None => if keys.len() == 0 {
            (
                before,
                if_connected(runtime, from, FetchActionView::Missing { to: from, request_id }),
            )
        } else {
            (
                if before.table.contains_key(request_id) {
                    before
                } else {
                    FetchesView {
                        table: before.table.insert(
                            request_id,
                            PendingView {
                                file_id,
                                expected_hash,
                                reply_to: ReplyView::Peer(from),
                                children: keys.to_set(),
                            },
                        ),
                        ..before
                    }
                },
                flooded(keys, request_id, file_id, expected_hash),
            )
        },
    }
}

/// What a peer's word that it has a content leads to: whom the content is for, if anybody
/// still waits for it.
pub open spec fn after_found(
    before: FetchesView,
    request_id: RequestId,
    content_hash: Seq<char>,
) -> (FetchesView, Option<ReplyView>) {
    if before.table.contains_key(request_id) && before.table[request_id].expected_hash
        == content_hash {
        (
            FetchesView { table: before.table.remove(request_id), ..before },
            Some(before.table[request_id].reply_to),
        )
    } else {
        (before, None)
    }
}

/// Whether a pull brings a content of a peer to whom it is for.
pub open spec fn is_pull_for(
    action: Option<FoundAction>,
    reply_to: Option<ReplyView>,
    from: Seq<char>,
    request_id: RequestId,
    file_id: FileId,
    content_hash: Seq<char>,
    size: u64,
) -> bool {
    match (action, reply_to) {
        (None, None) => true,
        (
            Some(FoundAction::Receive { from_peer, file_id: f, expected_hash, expected_size, then }),
            Some(target),
        ) => {
            &&& from_peer@ == from
            &&& f == file_id
            &&& expected_hash@ == content_hash
            &&& expected_size == size
            &&& match target {
                ReplyView::Local(waiter) => then == FoundThen::DeliverLocal(waiter),
                ReplyView::Peer(parent) => then matches FoundThen::RelayUp {
                    parent_peer,
                    request_id: relayed,
                    file_id: g,
                    content_hash: h,
                    size: s,
                } && parent_peer@ == parent && relayed == request_id && g == file_id && h@
                    == content_hash && s == size,
            }
        },
        _ => false,
    }
}

/// What a peer's word that it lacks a content leads to.
pub open spec fn after_missing(
    before: FetchesView,
    runtime: RuntimeConfiguration,
    from: Seq<char>,
    request_id: RequestId,
) -> (FetchesView, Seq<FetchActionView>) {
    if before.table.contains_key(request_id) {
        let entry = before.table[request_id];
        let left = entry.children.remove(from);
        if left =~= Set::empty() {
            (
                FetchesView { table: before.table.remove(request_id), ..before },
                reported_missing(runtime, request_id, entry.reply_to),
            )
        } else {
            (
                FetchesView {
                    table: before.table.insert(request_id, PendingView { children: left, ..entry }),
                    ..before
                },
                Seq::empty(),
            )
        }
    } else {
        (before, Seq::empty())
    }
}

/// What the end of a hop's time leads to.
pub open spec fn after_timeout(
    before: FetchesView,
    runtime: RuntimeConfiguration,
    request_id: RequestId,
) -> (FetchesView, Seq<FetchActionView>) {
    (
        FetchesView { table: before.table.remove(request_id), ..before },
        if before.table.contains_key(request_id) {
            reported_missing(runtime, request_id, before.table[request_id].reply_to)
        } else {
            Seq::empty()
        },
    )
}

/// The fetch subsystem.
pub struct PendingFetches {
    table: Table<RequestId, PendingFetch>,
    cache: Shelf<FileBytes>,
    providers: Shelf<u64>,
}

impl PendingFetches {
    pub closed spec fn view(&self) -> FetchesView {
        FetchesView {
            table: self.table@.map_values(|p: PendingFetch| p@),
            cache: self.cache@,
            providers: self.providers@,
        }
    }

    pub fn new() -> (r: Self)
        ensures
            r@.table == Map::<RequestId, PendingView>::empty(),
            r@.cache == Map::<(FileId, Seq<char>), FileBytes>::empty(),
            r@.providers == Map::<(FileId, Seq<char>), u64>::empty(),
    {
        let r = PendingFetches {
            table: Table::new(),
            cache: Shelf::new(),
            providers: Shelf::new(),
        };
        assert(r@.table =~= Map::<RequestId, PendingView>::empty());
        r
    }

    /// Notes that a client serves a file, over a connection.
    pub fn register_provider(&mut self, file_id: FileId, content_hash: String, connection: u64)
        ensures
            final(self)@ == (FetchesView {
                providers: old(self)@.providers.insert((file_id, content_hash@), connection),
                ..old(self)@
            }),
    {
        self.providers.put(file_id, content_hash, connection);
    }

    /// Notes that a client no longer serves a file.
    pub fn unregister_provider(&mut self, file_id: FileId, content_hash: &str)
        ensures
            final(self)@ == (FetchesView {
                providers: old(self)@.providers.remove((file_id, content_hash@)),
                ..old(self)@
            }),
    {
        let _ = self.providers.take(file_id, content_hash);
    }

    /// The connection over which a client serves a file.
    pub fn provider_for(&self, file_id: FileId, content_hash: &str) -> (r: Option<u64>)
        ensures
            r == if self@.providers.contains_key((file_id, content_hash@)) {
                Some(self@.providers[(file_id, content_hash@)])
            } else {
                None
            },
    {
        match self.providers.get(file_id, content_hash) {
            Some(connection) => Some(*connection),
            None => None,
        }
    }

    /// Keeps a file that was received for a peer further up.
    pub fn cache_relay_file(&mut self, file_id: FileId, content_hash: String, content: FileBytes)
        ensures
            final(self)@ == (FetchesView {
                cache: old(self)@.cache.insert((file_id, content_hash@), content),
                ..old(self)@
            }),
    {
        self.cache.put(file_id, content_hash, content);
    }

    /// Takes a file that was kept, to serve it. It is kept no longer.
    pub fn take_fetch_cached(&mut self, file_id: FileId, content_hash: &str) -> (r: Option<
        FileBytes,
    >)
        ensures
            final(self)@ == (FetchesView {
                cache: old(self)@.cache.remove((file_id, content_hash@)),
                ..old(self)@
            }),
            r == if old(self)@.cache.contains_key((file_id, content_hash@)) {
                Some(old(self)@.cache[(file_id, content_hash@)])
            } else {
                None
            },
    {
        self.cache.take(file_id, content_hash)
    }

    /// Begins a fetch for a waiter on this device.
    pub fn start_local_fetch(
        &mut self,
        runtime: &RuntimeConfiguration,
        request_id: RequestId,
        file_id: FileId,
        expected_hash: String,
        respond_to: u64,
    ) -> (r: Vec<FetchAction>)
        ensures
            ({
                let keys = asked(*runtime, None);
                if keys.len() == 0 {
                    &&& final(self)@ == old(self)@
                    &&& fetch_views(r@) == seq![
                        FetchActionView::Fail {
                            waiter: respond_to,
                            error: FetchError::NotAvailable,
                        },
                    ]
                } else {
                    &&& final(self)@ == (FetchesView {
                        table: old(self)@.table.insert(
                            request_id,
                            (PendingView {
                                file_id,
                                expected_hash: expected_hash@,
                                reply_to: ReplyView::Local(respond_to),
                                children: keys.to_set(),
                            }),
                        ),
                        ..old(self)@
                    })
                    &&& fetch_views(r@) == flooded(keys, request_id, file_id, expected_hash@)
                }
            }),
            (final(self)@, fetch_views(r@)) == after_local_fetch(
                old(self)@,
                *runtime,
                request_id,
                file_id,
                expected_hash@,
                respond_to,
            ),
    {
        let peers = connected_peers(runtime, None);
        let mut actions: Vec<FetchAction> = Vec::new();
        if peers.len() == 0 {
            actions.push(FetchAction::Fail { waiter: respond_to, error: FetchError::NotAvailable });
            assert(fetch_views(actions@) =~= seq![actions@[0]@]);
            return actions;
        }
        let actions = flood(&peers, request_id, file_id, &expected_hash);
        proof {
            lemma_text_set(peers@);
        }
        let entry = PendingFetch {
            file_id,
            expected_hash,
            reply_to: ReplyTarget::Local(respond_to),
            children_outstanding: peers,
        };
        self.table.insert(request_id, entry);
        assert(self@.table =~= old(self)@.table.insert(request_id, entry@));
        actions
    }

    /// Takes in a request of a peer. `local_size` is the file's size where a sync
    /// directory holds the wanted content.
    pub fn handle_incoming_request(
        &mut self,
        runtime: &RuntimeConfiguration,
        from_public_key: &str,
        request_id: RequestId,
        file_id: FileId,
        expected_hash: String,
        local_size: Option<u64>,
    ) -> (r: Vec<FetchAction>)
        ensures
            ({
                let from = from_public_key@;
                let keys = asked(*runtime, Some(from));
                match local_size {
                    Some(size) => {
                        &&& final(self)@ == old(self)@
                        &&& fetch_views(r@) == if_connected(
                            *runtime,
                            from,
                            (FetchActionView::Found {
                                to: from,
                                request_id,
                                file_id,
                                content_hash: expected_hash@,
                                size,
                            }),
                        )
                    },
                    None => if keys.len() == 0 {
                        &&& final(self)@ == old(self)@
                        &&& fetch_views(r@) == if_connected(
                            *runtime,
                            from,
                            (FetchActionView::Missing { to: from, request_id }),
                        )
                    } else {
                        &&& final(self)@ == (if old(self)@.table.contains_key(request_id) {
                            old(self)@
                        } else {
                            FetchesView {
                                table: old(self)@.table.insert(
                                    request_id,
                                    PendingView {
                                        file_id,
                                        expected_hash: expected_hash@,
                                        reply_to: ReplyView::Peer(from),
                                        children: keys.to_set(),
                                    },
                                ),
                                ..old(self)@
                            }
                        })
                        &&& fetch_views(r@) == flooded(keys, request_id, file_id, expected_hash@)
                    },
                }
            }),
            (final(self)@, fetch_views(r@)) == after_request(
                old(self)@,
                *runtime,
                from_public_key@,
                request_id,
                file_id,
                expected_hash@,
                local_size,
            ),
    {
        let mut actions: Vec<FetchAction> = Vec::new();
        assert(fetch_views(actions@) =~= Seq::<FetchActionView>::empty());
        if let Some(size) = local_size {
            if runtime.peer_outbound(from_public_key).is_some() {
                actions.push(
                    FetchAction::Send {
                        public_key: from_public_key.to_owned(),
                        message: SyncMessage::FetchFound {
                            request_id,
                            file_id,
                            content_hash: expected_hash,
                            size,
                        },
                    },
                );
                assert(fetch_views(actions@) =~= seq![actions@[0]@]);
            }
            return actions;
        }
        let peers = connected_peers(runtime, Some(from_public_key));
        if peers.len() == 0 {
            if runtime.peer_outbound(from_public_key).is_some() {
                actions.push(
                    FetchAction::Send {
                        public_key: from_public_key.to_owned(),
                        message: SyncMessage::FetchMissing { request_id },
                    },
                );
                assert(fetch_views(actions@) =~= seq![actions@[0]@]);
            }
            return actions;
        }
        let actions = flood(&peers, request_id, file_id, &expected_hash);
        if !self.table.contains(request_id) {
            proof {
                lemma_text_set(peers@);
            }
            let entry = PendingFetch {
                file_id,
                expected_hash,
                reply_to: ReplyTarget::Peer(from_public_key.to_owned()),
                children_outstanding: peers,
            };
            self.table.insert(request_id, entry);
            assert(self@.table =~= old(self)@.table.insert(request_id, entry@));
        }
        actions
    }

    /// Takes in a peer's word that it has the content. The first such word resolves
    /// the fetch; a later one, and one on another content, is ignored.
    pub fn handle_incoming_found(
        &mut self,
        from_public_key: &str,
        request_id: RequestId,
        file_id: FileId,
        content_hash: String,
        size: u64,
    ) -> (r: Option<FoundAction>)
        ensures
            if old(self)@.table.contains_key(request_id)
                && old(self)@.table[request_id].expected_hash == content_hash@ {
                &&& final(self)@ == (FetchesView {
                    table: old(self)@.table.remove(request_id),
                    ..old(self)@
                })
                &&& r matches Some(
                    FoundAction::Receive {
                        from_peer,
                        file_id: id,
                        expected_hash,
                        expected_size,
                        then,
                    },
                ) && {
                    &&& from_peer@ == from_public_key@
                    &&& id == file_id
                    &&& expected_hash@ == content_hash@
                    &&& expected_size == size
                    &&& match old(self)@.table[request_id].reply_to {
                        ReplyView::Local(waiter) => then == FoundThen::DeliverLocal(waiter),
                        ReplyView::Peer(parent) => then matches FoundThen::RelayUp {
                            parent_peer,
                            request_id: relayed,
                            file_id: relayed_file,
                            content_hash: relayed_hash,
                            size: relayed_size,
                        } && parent_peer@ == parent && relayed == request_id && relayed_file
                            == file_id && relayed_hash@ == content_hash@ && relayed_size == size,
                    }
                }
            } else {
                r is None && final(self)@ == old(self)@
            },
            final(self)@ == after_found(old(self)@, request_id, content_hash@).0,
            is_pull_for(
                r,
                after_found(old(self)@, request_id, content_hash@).1,
                from_public_key@,
                request_id,
                file_id,
                content_hash@,
                size,
            ),
    {
        match self.table.get(request_id) {
            Some(entry) => {
                assert(old(self)@.table[request_id] == entry@);
                if content_hash != entry.expected_hash {
                    return None;
                }
            },
            None => {
                return None;
            },
        }
        let removed = self.table.remove(request_id);
        assert(self@.table =~= old(self)@.table.remove(request_id));
        let entry = match removed {
            Some(entry) => entry,
            None => {
                return None;
            },
        };
        assert(old(self)@.table[request_id] == entry@);
        let then = match entry.reply_to {
            ReplyTarget::Local(waiter) => FoundThen::DeliverLocal(waiter),
            ReplyTarget::Peer(parent_peer) => FoundThen::RelayUp {
                parent_peer,
                request_id,
                file_id,
                content_hash: content_hash.clone(),
                size,
            },
        };
        Some(
            FoundAction::Receive {
                from_peer: from_public_key.to_owned(),
                file_id,
                expected_hash: content_hash,
                expected_size: size,
                then,
            },
        )
    }

    /// Takes in a peer's word that it does not have the content. Once all that were
    /// asked said so, the fetch is reported missing.
    pub fn handle_incoming_missing(
        &mut self,
        runtime: &RuntimeConfiguration,
        from_public_key: &str,
        request_id: RequestId,
    ) -> (r: Vec<FetchAction>)
        ensures
            if old(self)@.table.contains_key(request_id) {
                let entry = old(self)@.table[request_id];
                let left = entry.children.remove(from_public_key@);
                if left =~= Set::empty() {
                    &&& final(self)@ == (FetchesView {
                        table: old(self)@.table.remove(request_id),
                        ..old(self)@
                    })
                    &&& fetch_views(r@) == reported_missing(*runtime, request_id, entry.reply_to)
                } else {
                    &&& final(self)@ == (FetchesView {
                        table: old(self)@.table.insert(
                            request_id,
                            (PendingView { children: left, ..entry }),
                        ),
                        ..old(self)@
                    })
                    &&& r@.len() == 0
                }
            } else {
                final(self)@ == old(self)@ && r@.len() == 0
            },
            final(self)@ == after_missing(old(self)@, *runtime, from_public_key@, request_id).0,
            fetch_views(r@) =~= after_missing(
                old(self)@,
                *runtime,
                from_public_key@,
                request_id,
            ).1,
    {
        let removed = self.table.remove(request_id);
        assert(self@.table =~= old(self)@.table.remove(request_id));
        let mut entry = match removed {
            Some(entry) => entry,
            None => {
                assert(old(self)@.table.remove(request_id) =~= old(self)@.table);
                return Vec::new();
            },
        };
        let ghost given = entry@;
        assert(old(self)@.table[request_id] == given);
        let left = without_text(&entry.children_outstanding, from_public_key);
        if left.len() == 0 {
            assert(text_set(left@) =~= Set::empty());
            return report_missing(runtime, request_id, entry.reply_to);
        }
        assert(text_set(left@).contains(left@[0]@));
        entry.children_outstanding = left;
        self.table.insert(request_id, entry);
        assert(self@.table =~= old(self)@.table.insert(request_id, entry@));
        Vec::new()
    }

    /// Resolves a fetch as missing where it still waits after the time of a hop.
    pub fn hop_timed_out(&mut self, runtime: &RuntimeConfiguration, request_id: RequestId) -> (r:
        Vec<FetchAction>)
        ensures
            final(self)@ == (FetchesView {
                table: old(self)@.table.remove(request_id),
                ..old(self)@
            }),
            if old(self)@.table.contains_key(request_id) {
                fetch_views(r@) == reported_missing(
                    *runtime,
                    request_id,
                    old(self)@.table[request_id].reply_to,
                )
            } else {
                r@.len() == 0
            },
            fetch_views(r@) =~= after_timeout(old(self)@, *runtime, request_id).1,
    {
        let removed = self.table.remove(request_id);
        assert(self@.table =~= old(self)@.table.remove(request_id));
        match removed {
            Some(entry) => {
                assert(old(self)@.table[request_id] == entry@);
                report_missing(runtime, request_id, entry.reply_to)
            },
            None => Vec::new(),
        }
    }
}

/// The set of a list of texts is that of their characters.
proof fn lemma_text_set(list: Seq<String>)
    ensures
        text_set(list) == list.map_values(|s: String| s@).to_set(),
{
    let keys = list.map_values(|s: String| s@);
    assert forall|k: Seq<char>| text_set(list).contains(k) <==> keys.to_set().contains(k) by {
        if text_set(list).contains(k) {
            let i = choose|i: int| 0 <= i < list.len() && (#[trigger] list[i])@ == k;
            assert(keys[i] == k);
        }
        if keys.to_set().contains(k) {
            let i = choose|i: int| 0 <= i < keys.len() && keys[i] == k;
            assert(list[i]@ == k);
        }
    }
    assert(text_set(list) =~= keys.to_set());
}

/// The public keys of the connected peers but one.
fn connected_peers(runtime: &RuntimeConfiguration, exclude: Option<&str>) -> (r: Vec<String>)
    ensures
        r@.map_values(|s: String| s@) == asked(
            *runtime,
            match exclude {
                Some(key) => Some(key@),
                None => None,
            },
        ),
{
    let ghost left_out = match exclude {
        Some(key) => Some(key@),
        None => None,
    };
    let mut out: Vec<String> = Vec::new();
    let mut i: usize = 0;
    assert(out@.map_values(|s: String| s@) =~= Seq::<Seq<char>>::empty());
    while i < runtime.peers.len()
        invariant
            i <= runtime.peers.len(),
            left_out == (match exclude {
                Some(key) => Some(key@),
                None => None,
            }),
            out@.map_values(|s: String| s@) == asked_among(runtime.peers@, left_out, i as int),
        decreases runtime.peers.len() - i,
    {
        let excluded = match exclude {
            Some(key) => same_text(runtime.peers[i].0.as_str(), key),
            None => false,
        };
        if runtime.peers[i].1.outbound.is_some() && !excluded {
            let ghost before = out@;
            out.push(runtime.peers[i].0.clone());
            proof {
                assert(is_asked(runtime.peers@[i as int], left_out));
                assert(out@.map_values(|s: String| s@) =~= before.map_values(
                    |s: String| s@,
                ).push(runtime.peers@[i as int].0@));
            }
        }
        i = i + 1;
    }
    out
}

/// A request to each peer, and the timeout.
fn flood(
    peers: &Vec<String>,
    request_id: RequestId,
    file_id: FileId,
    expected_hash: &String,
) -> (r: Vec<FetchAction>)
    ensures
        fetch_views(r@) == flooded(
            peers@.map_values(|s: String| s@),
            request_id,
            file_id,
            expected_hash@,
        ),
{
    let ghost wanted = flooded(
        peers@.map_values(|s: String| s@),
        request_id,
        file_id,
        expected_hash@,
    );
    let mut actions: Vec<FetchAction> = Vec::new();
    let mut i: usize = 0;
    assert(fetch_views(actions@) =~= wanted.take(0));
    while i < peers.len()
        invariant
            i <= peers.len(),
            wanted == flooded(
                peers@.map_values(|s: String| s@),
                request_id,
                file_id,
                expected_hash@,
            ),
            fetch_views(actions@) == wanted.take(i as int),
        decreases peers.len() - i,
    {
        let ghost before = actions@;
        actions.push(
            FetchAction::Send {
                public_key: peers[i].clone(),
                message: SyncMessage::FetchRequest {
                    request_id,
                    file_id,
                    expected_hash: expected_hash.clone(),
                },
            },
        );
        proof {
            assert(fetch_views(actions@) =~= fetch_views(before).push(actions@.last()@));
            assert(wanted.take(i + 1) =~= wanted.take(i as int).push(wanted[i as int]));
        }
        i = i + 1;
    }
    let ghost before = actions@;
    actions.push(FetchAction::ArmTimeout { request_id });
    proof {
        assert(fetch_views(actions@) =~= fetch_views(before).push(actions@.last()@));
        assert(wanted =~= wanted.take(i as int).push(wanted[i as int]));
    }
    actions
}

/// The report that a fetch found nothing.
fn report_missing(
    runtime: &RuntimeConfiguration,
    request_id: RequestId,
    reply_to: ReplyTarget,
) -> (r: Vec<FetchAction>)
    ensures
        fetch_views(r@) == reported_missing(*runtime, request_id, reply_to@),
{
    let mut actions: Vec<FetchAction> = Vec::new();
    assert(fetch_views(actions@) =~= Seq::<FetchActionView>::empty());
    match reply_to {
        ReplyTarget::Local(waiter) => {
            actions.push(FetchAction::Fail { waiter, error: FetchError::NotAvailable });
            assert(fetch_views(actions@) =~= seq![actions@[0]@]);
        },
        ReplyTarget::Peer(parent) => {
            if runtime.peer_outbound(parent.as_str()).is_some() {
                actions.push(
                    FetchAction::Send {
                        public_key: parent,
                        message: SyncMessage::FetchMissing { request_id },
                    },
                );
                assert(fetch_views(actions@) =~= seq![actions@[0]@]);
            }
        },
    }
    actions
}

/// A list of texts without one text.
fn without_text(list: &Vec<String>, text: &str) -> (r: Vec<String>)
    ensures
        text_set(r@) == text_set(list@).remove(text@),
{
    let mut out: Vec<String> = Vec::new();
    let mut i: usize = 0;
    while i < list.len()
        invariant
            i <= list.len(),
            forall|j: int|
                0 <= j < out@.len() ==> (#[trigger] out@[j])@ != text@ && text_set(list@).contains(
                    out@[j]@,
                ),
            forall|j: int|
                0 <= j < i && (#[trigger] list@[j])@ != text@ ==> text_set(out@).contains(
                    list@[j]@,
                ),
        decreases list.len() - i,
    {
        let ghost before = out@;
        if !same_text(list[i].as_str(), text) {
            assert(text_set(list@).contains(list@[i as int]@));
            out.push(list[i].clone());
            assert(out@[before.len() as int]@ == list@[i as int]@);
        }
        proof {
            assert forall|j: int| 0 <= j < i + 1 && (#[trigger] list@[j])@ != text@ implies text_set(
                out@,
            ).contains(list@[j]@) by {
                if j < i {
                    assert(text_set(before).contains(list@[j]@));
                    let k = choose|k: int|
                        0 <= k < before.len() && (#[trigger] before[k])@ == list@[j]@;
                    assert(out@[k]@ == list@[j]@);
                } else {
                    assert(out@[before.len() as int]@ == list@[j]@);
                }
            }
        }
        i = i + 1;
    }
    proof {
        assert(text_set(out@) =~= text_set(list@).remove(text@)) by {
            assert forall|k: Seq<char>| text_set(list@).contains(k) && k != text@ implies text_set(
                out@,
            ).contains(k) by {
                let j = choose|j: int| 0 <= j < list@.len() && (#[trigger] list@[j])@ == k;
                assert(text_set(out@).contains(list@[j]@));
            }
        }
    }
    out
}

/// A relayed request never goes back to the peer it came from.
pub proof fn law_requests_are_not_echoed(runtime: RuntimeConfiguration, from: Seq<char>)
    ensures
        !asked(runtime, Some(from)).contains(from),
{
    lemma_not_asked(runtime.peers@, from, runtime.peers@.len() as int);
}

proof fn lemma_not_asked(peers: Seq<(String, RuntimePeer)>, from: Seq<char>, n: int)
    ensures
        !asked_among(peers, Some(from), n).contains(from),
    decreases n,
{
    if n > 0 {
        lemma_not_asked(peers, from, n - 1);
        let before = asked_among(peers, Some(from), n - 1);
        let all = asked_among(peers, Some(from), n);
        if all.contains(from) {
            let i = choose|i: int| 0 <= i < all.len() && all[i] == from;
            if i < before.len() {
                assert(before[i] == from);
            }
        }
    }
}

/// Only connected peers are asked.
pub proof fn law_only_connected_peers_are_asked(
    runtime: RuntimeConfiguration,
    exclude: Option<Seq<char>>,
    key: Seq<char>,
)
    requires
        runtime.distinct(),
        asked(runtime, exclude).contains(key),
    ensures
        runtime.outbound(key) is Some,
{
    lemma_asked_is_connected(runtime.peers@, exclude, key, runtime.peers@.len() as int);
    let i = choose|i: int|
        0 <= i < runtime.peers@.len() && (#[trigger] runtime.peers@[i]).0@ == key && is_asked(
            runtime.peers@[i],
            exclude,
        );
    lemma_entry_of(runtime.peers@, key, 0);
    let k = entry_of(runtime.peers@, key, 0)->0;
    assert(runtime.peers@[k].0@ == runtime.peers@[i].0@);
    assert(k == i);
}

proof fn lemma_asked_is_connected(
    peers: Seq<(String, RuntimePeer)>,
    exclude: Option<Seq<char>>,
    key: Seq<char>,
    n: int,
)
    requires
        0 <= n <= peers.len(),
        asked_among(peers, exclude, n).contains(key),
    ensures
        exists|i: int|
            0 <= i < n && (#[trigger] peers[i]).0@ == key && is_asked(peers[i], exclude),
    decreases n,
{
    let all = asked_among(peers, exclude, n);
    let k = choose|k: int| 0 <= k < all.len() && all[k] == key;
    let before = asked_among(peers, exclude, n - 1);
    if k < before.len() {
        assert(before[k] == key);
        lemma_asked_is_connected(peers, exclude, key, n - 1);
    } else {
        assert(peers[n - 1].0@ == key && is_asked(peers[n - 1], exclude));
    }
}

/// A node reports that a content is missing only after every peer it asked did: as
/// long as one has not answered, taking another's word in reports nothing.
pub proof fn law_missing_waits_for_all(children: Set<Seq<char>>, from: Seq<char>, other: Seq<char>)
    requires
        children.contains(other),
        other != from,
    ensures
        !(children.remove(from) =~= Set::<Seq<char>>::empty()),
{
    assert(children.remove(from).contains(other));
}

} // verus!
