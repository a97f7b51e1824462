//! What a query selects, and how tags stand on files.

use vstd::prelude::*;
use super::{
    chunk_selects_file, chunk_selects_tag, file_has_one, holds_text, query_selects_file,
    query_selects_tag, tag_has_one, term_selects_file, term_selects_tag, token_names,
    token_on_file, token_on_tag, QueryTerm,
};
use crate::api::{answers_with_files, answers_with_tags};
use crate::chunk::laws::{
    is_word, law_a_marked_chunk_is_read, law_a_marked_word_is_read, marks,
};
use crate::chunk::{chunks_of, in_quotes, law_blank_query_is_empty, ChunkKind, ChunkView};
use crate::database::hierarchy::{file_carries, leads_to, reaches, step, walk_finds};
use crate::database::short_ids::{known_tags, normalised, stands_for};
use crate::database::{DatabaseView, EntryKey, EntryType, SubtagRule, Tag};
use crate::ids::{id_text, FileId, TagId};
use crate::state::FileInfo;
use crate::text::{contains_text, lowercased, occurs_at};

verus! {

/// Whether a tag stands on a file itself.
pub open spec fn stands_on(db: DatabaseView, tag_id: TagId, file_id: FileId) -> bool {
    let key = EntryKey { tag_id, target: file_id.value, kind: EntryType::File };
    db.entries.contains_key(key) && !db.entries[key].deleted
}

/// Whether a tag is the direct parent of another.
pub open spec fn is_parent(db: DatabaseView, parent: TagId, child: TagId) -> bool {
    let key = EntryKey { tag_id: parent, target: child.value, kind: EntryType::Tag };
    db.entries.contains_key(key) && !db.entries[key].deleted
}

/// Whether a text holds another, both taken in lower case.
pub open spec fn mentions_text(name: Seq<char>, text: Seq<char>) -> bool {
    let (s, needle) = (lowercased(name), lowercased(text));
    exists|at: int|
        0 <= at && at + needle.len() <= s.len() && #[trigger] s.subrange(at, at + needle.len())
            == needle
}

/// Whether a text means a tag: it is the tag's name, or it spells digits with which the
/// identifier of this tag begins and that of no other.
pub open spec fn means_tag(db: DatabaseView, text: Seq<char>, tag_id: TagId) -> bool {
    &&& db.tags.contains_key(tag_id)
    &&& {
        ||| db.tags[tag_id].name == text
        ||| normalised(text) matches Some(digits) && digits.is_prefix_of(id_text(tag_id.value))
            && forall|t: TagId| #[trigger]
            db.tags.contains_key(t) && digits.is_prefix_of(id_text(t.value)) ==> t == tag_id
    }
}

proof fn lemma_mentions_text(name: Seq<char>, text: Seq<char>)
    ensures
        holds_text(name, text) == mentions_text(name, text),
{
    let (s, needle) = (lowercased(name), lowercased(text));
    if contains_text(s, needle) {
        let at = choose|at: int| occurs_at(s, needle, at);
        assert(s.subrange(at, at + needle.len()) == needle);
    }
    if mentions_text(name, text) {
        let at = choose|at: int|
            0 <= at && at + needle.len() <= s.len() && #[trigger] s.subrange(
                at,
                at + needle.len(),
            ) == needle;
        assert(occurs_at(s, needle, at));
    }
}

proof fn lemma_means_tag(db: DatabaseView, text: Seq<char>, tag_id: TagId)
    ensures
        token_names(db, text, tag_id) == means_tag(db, text, tag_id),
{
    let known = known_tags(db);
    match normalised(text) {
        Some(digits) => {
            if stands_for(known, digits, tag_id.value) {
                assert forall|t: TagId| #[trigger]
                    db.tags.contains_key(t) && digits.is_prefix_of(id_text(t.value)) implies t
                    == tag_id by {
                    assert(TagId { value: t.value } == t);
                    assert(known(t.value));
                }
            }
            if means_tag(db, text, tag_id) && db.tags[tag_id].name != text {
                assert(TagId { value: tag_id.value } == tag_id);
                assert(known(tag_id.value));
                assert forall|other: u128|
                    #![trigger known(other)]
                    known(other) && digits.is_prefix_of(id_text(other)) implies other
                    == tag_id.value by {
                    let t = TagId { value: other };
                    assert(db.tags.contains_key(t));
                }
            }
        },
        None => {},
    }
}

/// A file carries the tags that stand on it. Where subtags count, it also carries the
/// parents of every tag that it carries, and nothing else; where they do not, nothing else.
pub proof fn law_a_file_carries_its_tags_and_their_parents(
    db: DatabaseView,
    file_id: FileId,
    tag_id: TagId,
)
    ensures
        file_carries(db, SubtagRule::Exclude, file_id, tag_id) == stands_on(db, tag_id, file_id),
        stands_on(db, tag_id, file_id) ==> file_carries(
            db,
            SubtagRule::Include,
            file_id,
            tag_id,
        ),
        forall|child: TagId|
            #![trigger is_parent(db, tag_id, child)]
            file_carries(db, SubtagRule::Include, file_id, child) && is_parent(db, tag_id, child)
                ==> file_carries(db, SubtagRule::Include, file_id, tag_id),
        file_carries(db, SubtagRule::Include, file_id, tag_id) && !stands_on(db, tag_id, file_id)
            ==> exists|child: TagId|
            #![trigger is_parent(db, tag_id, child)]
            file_carries(db, SubtagRule::Include, file_id, child) && is_parent(db, tag_id, child),
{
    assert forall|child: TagId|
        #![trigger is_parent(db, tag_id, child)]
        file_carries(db, SubtagRule::Include, file_id, child) && is_parent(
            db,
            tag_id,
            child,
        ) implies file_carries(db, SubtagRule::Include, file_id, tag_id) by {
        assert(step(db, true, child, tag_id));
        if stands_on(db, child, file_id) {
            lemma_one_step(db, true, child, tag_id);
            assert(db.live(crate::database::file_key(child, file_id)));
        } else {
            let direct = choose|direct: TagId| #[trigger]
                db.live(crate::database::file_key(direct, file_id)) && reaches(
                    db,
                    true,
                    direct,
                    child,
                );
            lemma_one_more_step(db, true, direct, child, tag_id);
        }
    }
    if file_carries(db, SubtagRule::Include, file_id, tag_id) && !stands_on(db, tag_id, file_id) {
        let direct = choose|direct: TagId| #[trigger]
            db.live(crate::database::file_key(direct, file_id)) && reaches(
                db,
                true,
                direct,
                tag_id,
            );
        let child = lemma_last_step(db, true, direct, tag_id);
        assert(step(db, true, child, tag_id));
        assert(is_parent(db, tag_id, child));
        if child != direct {
            assert(reaches(db, true, direct, child));
        } else {
            assert(stands_on(db, child, file_id));
        }
    }
}

/// The tags above a tag are its parents and, where the hierarchy is walked, the tags above
/// those; the tags below it likewise.
pub proof fn law_the_hierarchy_is_walked(
    db: DatabaseView,
    upward: bool,
    from: TagId,
    to: TagId,
)
    ensures
        ({
            let next = |a: TagId, b: TagId|
                if upward {
                    is_parent(db, b, a)
                } else {
                    is_parent(db, a, b)
                };
            &&& walk_finds(db, upward, SubtagRule::Exclude, from, to) == next(from, to)
            &&& next(from, to) ==> walk_finds(db, upward, SubtagRule::Include, from, to)
            &&& forall|middle: TagId|
                #![trigger walk_finds(db, upward, SubtagRule::Include, from, middle)]
                walk_finds(db, upward, SubtagRule::Include, from, middle) && next(middle, to)
                    ==> walk_finds(db, upward, SubtagRule::Include, from, to)
            &&& walk_finds(db, upward, SubtagRule::Include, from, to) && !next(from, to) ==> exists|
                middle: TagId,
            |
                #![trigger walk_finds(db, upward, SubtagRule::Include, from, middle)]
                walk_finds(db, upward, SubtagRule::Include, from, middle) && next(middle, to)
        }),
{
    assert(step(db, upward, from, to) == (if upward {
        is_parent(db, to, from)
    } else {
        is_parent(db, from, to)
    }));
    if step(db, upward, from, to) {
        lemma_one_step(db, upward, from, to);
    }
    assert forall|middle: TagId|
        #![trigger walk_finds(db, upward, SubtagRule::Include, from, middle)]
        walk_finds(db, upward, SubtagRule::Include, from, middle) && step(
            db,
            upward,
            middle,
            to,
        ) implies walk_finds(db, upward, SubtagRule::Include, from, to) by {
        lemma_one_more_step(db, upward, from, middle, to);
    }
    if reaches(db, upward, from, to) && !step(db, upward, from, to) {
        let middle = lemma_last_step(db, upward, from, to);
        assert(step(db, upward, middle, to));
        assert(middle != from);
        assert(walk_finds(db, upward, SubtagRule::Include, from, middle));
    }
}

proof fn lemma_one_step(db: DatabaseView, upward: bool, from: TagId, to: TagId)
    requires
        step(db, upward, from, to),
    ensures
        reaches(db, upward, from, to),
{
    assert(leads_to(db, upward, to, to, 0));
    assert(step(db, upward, from, to) && leads_to(db, upward, to, to, (1 - 1) as nat));
    assert(leads_to(db, upward, from, to, 1));
}

proof fn lemma_append_step(
    db: DatabaseView,
    upward: bool,
    from: TagId,
    middle: TagId,
    to: TagId,
    n: nat,
)
    requires
        leads_to(db, upward, from, middle, n),
        step(db, upward, middle, to),
    ensures
        leads_to(db, upward, from, to, n + 1),
    decreases n,
{
    if n == 0 {
        assert(leads_to(db, upward, to, to, 0));
        assert(step(db, upward, from, to) && leads_to(db, upward, to, to, (1 - 1) as nat));
    } else {
        let next = choose|next: TagId| #[trigger]
            step(db, upward, from, next) && leads_to(db, upward, next, middle, (n - 1) as nat);
        lemma_append_step(db, upward, next, middle, to, (n - 1) as nat);
        assert(step(db, upward, from, next) && leads_to(
            db,
            upward,
            next,
            to,
            ((n + 1) - 1) as nat,
        ));
    }
}

proof fn lemma_one_more_step(
    db: DatabaseView,
    upward: bool,
    from: TagId,
    middle: TagId,
    to: TagId,
)
    requires
        reaches(db, upward, from, middle),
        step(db, upward, middle, to),
    ensures
        reaches(db, upward, from, to),
{
    let n = choose|n: nat| n > 0 && #[trigger] leads_to(db, upward, from, middle, n);
    lemma_append_step(db, upward, from, middle, to, n);
}

/// The last stop before the end of a walk: the start itself, or something that the walk
/// reaches.
proof fn lemma_last_step(db: DatabaseView, upward: bool, from: TagId, to: TagId) -> (middle: TagId)
    requires
        reaches(db, upward, from, to),
    ensures
        step(db, upward, middle, to),
        middle == from || reaches(db, upward, from, middle),
{
    let n = choose|n: nat| n > 0 && #[trigger] leads_to(db, upward, from, to, n);
    lemma_last_of(db, upward, from, to, n)
}

proof fn lemma_last_of(db: DatabaseView, upward: bool, from: TagId, to: TagId, n: nat) -> (middle:
    TagId)
    requires
        n > 0,
        leads_to(db, upward, from, to, n),
    ensures
        step(db, upward, middle, to),
        middle == from || reaches(db, upward, from, middle),
    decreases n,
{
    let next = choose|next: TagId| #[trigger]
        step(db, upward, from, next) && leads_to(db, upward, next, to, (n - 1) as nat);
    if n == 1 {
        assert(next == to);
        from
    } else {
        let middle = lemma_last_of(db, upward, next, to, (n - 1) as nat);
        if middle == next {
            lemma_one_step(db, upward, from, next);
        } else {
            let m = choose|m: nat| m > 0 && #[trigger] leads_to(db, upward, next, middle, m);
            assert(step(db, upward, from, next) && leads_to(
                db,
                upward,
                next,
                middle,
                ((m + 1) - 1) as nat,
            ));
            assert(leads_to(db, upward, from, middle, m + 1));
        }
        middle
    }
}

/// What each kind of chunk selects: `/n` files whose path holds the text, `/t` files that
/// carry a tag which the text means, and one without a prefix both. One on physical paths
/// leaves nothing out. Tags are selected by their name, and by the tags above them.
pub proof fn law_what_a_chunk_selects(
    db: DatabaseView,
    rule: SubtagRule,
    kind: ChunkKind,
    text: Seq<char>,
    file_id: FileId,
    tag_id: TagId,
)
    ensures
        ({
            let chunk = ChunkView { kind, text, negated: false };
            let by_path = mentions_text(db.files[file_id], text);
            let by_tag = exists|t: TagId| #[trigger]
                means_tag(db, text, t) && file_carries(db, rule, file_id, t);
            let by_name = mentions_text(db.tags[tag_id].name, text);
            let by_parent = exists|t: TagId| #[trigger]
                means_tag(db, text, t) && walk_finds(db, true, rule, tag_id, t);
            &&& chunk_selects_file(db, rule, chunk, file_id) == (match kind {
                ChunkKind::Any => by_path || by_tag,
                ChunkKind::Tag => by_tag,
                ChunkKind::Logical => by_path,
                ChunkKind::Physical => true,
            })
            &&& chunk_selects_tag(db, rule, chunk, tag_id) == (match kind {
                ChunkKind::Any => by_name || by_parent,
                ChunkKind::Tag => by_parent,
                ChunkKind::Logical => by_name,
                ChunkKind::Physical => true,
            })
        }),
{
    lemma_mentions_text(db.files[file_id], text);
    lemma_mentions_text(db.tags[tag_id].name, text);
    assert forall|t: TagId| #[trigger] means_tag(db, text, t) == token_names(db, text, t) by {
        lemma_means_tag(db, text, t);
    }
    assert forall|t: TagId| #[trigger] token_names(db, text, t) implies means_tag(db, text, t) by {
        lemma_means_tag(db, text, t);
    }
    if token_on_file(db, rule, text, file_id) {
        let t = choose|t: TagId| #[trigger]
            token_names(db, text, t) && file_carries(db, rule, file_id, t);
        assert(means_tag(db, text, t));
    }
    if token_on_tag(db, rule, text, tag_id) {
        let t = choose|t: TagId| #[trigger]
            token_names(db, text, t) && walk_finds(db, true, rule, tag_id, t);
        assert(means_tag(db, text, t));
    }
}

/// Negation inverts a chunk: the negated chunk holds of a file or a tag just where the same
/// chunk without negation does not. One on physical paths says nothing either way.
pub proof fn law_negation_inverts(
    db: DatabaseView,
    rule: SubtagRule,
    kind: ChunkKind,
    text: Seq<char>,
    file_id: FileId,
    tag_id: TagId,
)
    ensures
        ({
            let plain = ChunkView { kind, text, negated: false };
            let negated = ChunkView { kind, text, negated: true };
            if kind == ChunkKind::Physical {
                chunk_selects_file(db, rule, negated, file_id) && chunk_selects_tag(
                    db,
                    rule,
                    negated,
                    tag_id,
                )
            } else {
                &&& chunk_selects_file(db, rule, negated, file_id) != chunk_selects_file(
                    db,
                    rule,
                    plain,
                    file_id,
                )
                &&& chunk_selects_tag(db, rule, negated, tag_id) != chunk_selects_tag(
                    db,
                    rule,
                    plain,
                    tag_id,
                )
            }
        }),
{
}

proof fn lemma_one_more_chunk(
    db: DatabaseView,
    rule: SubtagRule,
    query: Seq<char>,
    chunk: ChunkView,
    rest: Seq<char>,
    file_id: FileId,
    tag_id: TagId,
)
    requires
        chunks_of(query) == seq![chunk] + chunks_of(rest),
    ensures
        query_selects_file(db, rule, query, file_id) == (chunk_selects_file(
            db,
            rule,
            chunk,
            file_id,
        ) && query_selects_file(db, rule, rest, file_id)),
        query_selects_tag(db, rule, query, tag_id) == (chunk_selects_tag(db, rule, chunk, tag_id)
            && query_selects_tag(db, rule, rest, tag_id)),
{
    let all = chunks_of(query);
    let others = chunks_of(rest);
    assert(all[0] == chunk);
    assert forall|i: int| 0 <= i < others.len() implies #[trigger] others[i] == all[i + 1] by {}
    if query_selects_file(db, rule, query, file_id) {
        assert(chunk_selects_file(db, rule, all[0], file_id));
        assert forall|i: int| 0 <= i < others.len() implies chunk_selects_file(
            db,
            rule,
            #[trigger] others[i],
            file_id,
        ) by {
            assert(chunk_selects_file(db, rule, all[i + 1], file_id));
        }
    }
    if chunk_selects_file(db, rule, chunk, file_id) && query_selects_file(
        db,
        rule,
        rest,
        file_id,
    ) {
        assert forall|i: int| 0 <= i < all.len() implies chunk_selects_file(
            db,
            rule,
            #[trigger] all[i],
            file_id,
        ) by {
            if i > 0 {
                assert(chunk_selects_file(db, rule, others[i - 1], file_id));
            }
        }
    }
    if query_selects_tag(db, rule, query, tag_id) {
        assert(chunk_selects_tag(db, rule, all[0], tag_id));
        assert forall|i: int| 0 <= i < others.len() implies chunk_selects_tag(
            db,
            rule,
            #[trigger] others[i],
            tag_id,
        ) by {
            assert(chunk_selects_tag(db, rule, all[i + 1], tag_id));
        }
    }
    if chunk_selects_tag(db, rule, chunk, tag_id) && query_selects_tag(db, rule, rest, tag_id) {
        assert forall|i: int| 0 <= i < all.len() implies chunk_selects_tag(
            db,
            rule,
            #[trigger] all[i],
            tag_id,
        ) by {
            if i > 0 {
                assert(chunk_selects_tag(db, rule, others[i - 1], tag_id));
            }
        }
    }
}

/// A query asks for everything at once: one that begins with a chunk selects just what that
/// chunk selects alone and the rest selects too.
pub proof fn law_every_chunk_counts(
    db: DatabaseView,
    rule: SubtagRule,
    negated: bool,
    kind: ChunkKind,
    text: Seq<char>,
    rest: Seq<char>,
    file_id: FileId,
    tag_id: TagId,
)
    ensures
        ({
            let first = marks(negated, kind) + in_quotes(text);
            &&& query_selects_file(db, rule, first + rest, file_id) == (query_selects_file(
                db,
                rule,
                first,
                file_id,
            ) && query_selects_file(db, rule, rest, file_id))
            &&& query_selects_tag(db, rule, first + rest, tag_id) == (query_selects_tag(
                db,
                rule,
                first,
                tag_id,
            ) && query_selects_tag(db, rule, rest, tag_id))
        }),
{
    let first = marks(negated, kind) + in_quotes(text);
    let chunk = ChunkView { kind, text, negated };
    law_a_marked_chunk_is_read(negated, kind, text, rest);
    law_a_marked_chunk_is_read(negated, kind, text, Seq::empty());
    law_blank_query_is_empty(Seq::empty());
    assert(first + Seq::<char>::empty() =~= first);
    lemma_one_more_chunk(db, rule, first + rest, chunk, rest, file_id, tag_id);
    lemma_one_more_chunk(db, rule, first, chunk, Seq::empty(), file_id, tag_id);
}

/// A query with nothing but a `!` in front of it selects just the known files and tags that
/// the query without it does not, whatever kind of chunk it is and whether its payload is a
/// word or quoted.
pub proof fn law_a_negated_query_selects_the_others(
    db: DatabaseView,
    rule: SubtagRule,
    kind: ChunkKind,
    payload: Seq<char>,
    file_id: FileId,
    tag_id: TagId,
)
    requires
        kind != ChunkKind::Physical,
        is_word(payload) || exists|text: Seq<char>| payload == #[trigger] in_quotes(text),
        db.files.contains_key(file_id),
        db.tags.contains_key(tag_id),
    ensures
        query_selects_file(db, rule, marks(true, kind) + payload, file_id) != query_selects_file(
            db,
            rule,
            marks(false, kind) + payload,
            file_id,
        ),
        query_selects_tag(db, rule, marks(true, kind) + payload, tag_id) != query_selects_tag(
            db,
            rule,
            marks(false, kind) + payload,
            tag_id,
        ),
{
    let none = Seq::<char>::empty();
    let text = if is_word(payload) {
        law_a_marked_word_is_read(true, kind, payload, none);
        law_a_marked_word_is_read(false, kind, payload, none);
        payload
    } else {
        let text = choose|text: Seq<char>| payload == #[trigger] in_quotes(text);
        law_a_marked_chunk_is_read(true, kind, text, none);
        law_a_marked_chunk_is_read(false, kind, text, none);
        text
    };
    law_blank_query_is_empty(none);
    let with = marks(true, kind) + payload;
    let without = marks(false, kind) + payload;
    assert(with + none =~= with);
    assert(without + none =~= without);
    let plain = ChunkView { kind, text, negated: false };
    let negated = ChunkView { kind, text, negated: true };
    lemma_one_more_chunk(db, rule, with, negated, none, file_id, tag_id);
    lemma_one_more_chunk(db, rule, without, plain, none, file_id, tag_id);
    law_negation_inverts(db, rule, kind, text, file_id, tag_id);
}

/// Only what is known is selected, and a query without a chunk leaves nothing known out.
pub proof fn law_only_known_things_are_selected(
    db: DatabaseView,
    rule: SubtagRule,
    query: Seq<char>,
    file_id: FileId,
    tag_id: TagId,
)
    ensures
        query_selects_file(db, rule, query, file_id) ==> db.files.contains_key(file_id),
        query_selects_tag(db, rule, query, tag_id) ==> db.tags.contains_key(tag_id),
        chunks_of(query).len() == 0 ==> query_selects_file(db, rule, query, file_id)
            == db.files.contains_key(file_id) && query_selects_tag(db, rule, query, tag_id)
            == db.tags.contains_key(tag_id),
{
}

/// What the terms of a query say: one on tags that the file carries one of them, one on text
/// that the path holds it, one on either that one of the two holds; and the negated ones the
/// opposite. Tags go by their name and by the tags above them.
pub proof fn law_what_a_term_says(
    db: DatabaseView,
    rule: SubtagRule,
    text: String,
    tags: Vec<TagId>,
    file_id: FileId,
    tag_id: TagId,
)
    ensures
        ({
            let by_path = mentions_text(db.files[file_id], text@);
            let by_tag = exists|t: TagId| #[trigger]
                tags@.contains(t) && file_carries(db, rule, file_id, t);
            let by_name = mentions_text(db.tags[tag_id].name, text@);
            let by_parent = exists|t: TagId| #[trigger]
                tags@.contains(t) && walk_finds(db, true, rule, tag_id, t);
            let file = |term: QueryTerm| term_selects_file(db, rule, term, file_id);
            let tag = |term: QueryTerm| term_selects_tag(db, rule, term, tag_id);
            &&& file(QueryTerm::HasTag(tags)) == by_tag
            &&& file(QueryTerm::NotTag(tags)) == !by_tag
            &&& file(QueryTerm::LogicalContains(text)) == by_path
            &&& file(QueryTerm::NotLogicalContains(text)) == !by_path
            &&& file(QueryTerm::AnyMatch(text, tags)) == (by_path || by_tag)
            &&& file(QueryTerm::NotAnyMatch(text, tags)) == !(by_path || by_tag)
            &&& tag(QueryTerm::HasTag(tags)) == by_parent
            &&& tag(QueryTerm::NotTag(tags)) == !by_parent
            &&& tag(QueryTerm::LogicalContains(text)) == by_name
            &&& tag(QueryTerm::NotLogicalContains(text)) == !by_name
            &&& tag(QueryTerm::AnyMatch(text, tags)) == (by_name || by_parent)
            &&& tag(QueryTerm::NotAnyMatch(text, tags)) == !(by_name || by_parent)
        }),
{
    lemma_mentions_text(db.files[file_id], text@);
    lemma_mentions_text(db.tags[tag_id].name, text@);
    assert(file_has_one(db, rule, tags@, file_id) == exists|t: TagId| #[trigger]
        tags@.contains(t) && file_carries(db, rule, file_id, t));
    assert(tag_has_one(db, rule, tags@, tag_id) == exists|t: TagId| #[trigger]
        tags@.contains(t) && walk_finds(db, true, rule, tag_id, t));
}

/// The answer to a query holds each selected file that has a version once, with its path and
/// the content hash and number of its latest version, and no other; and each selected tag
/// once, as it is defined.
pub proof fn law_an_answer_is_complete(
    db: DatabaseView,
    rule: SubtagRule,
    query: Seq<char>,
    files: Seq<FileInfo>,
    tags: Seq<Tag>,
)
    requires
        answers_with_files(db, query, rule, files),
        answers_with_tags(db, query, rule, tags),
    ensures
        forall|f: FileId|
            (exists|k: int| 0 <= k < files.len() && (#[trigger] files[k]).file_id == f) <==> (
            #[trigger] query_selects_file(db, rule, query, f) && db.files.contains_key(f)
                && db.versions.contains_key(f)),
        forall|k: int, l: int|
            0 <= k < l < files.len() ==> (#[trigger] files[k]).file_id != (
            #[trigger] files[l]).file_id,
        forall|k: int|
            0 <= k < files.len() ==> {
                let file_id = (#[trigger] files[k]).file_id;
                &&& files[k].logical_path@ == db.files[file_id]
                &&& files[k].content_hash@ == db.history(file_id).last().content_hash
                &&& files[k].version_number == db.history(file_id).last().version_number
            },
        forall|t: TagId|
            (exists|k: int| 0 <= k < tags.len() && (#[trigger] tags[k]).id == t) <==> (
            #[trigger] query_selects_tag(db, rule, query, t)),
        forall|k: int, l: int|
            0 <= k < l < tags.len() ==> (#[trigger] tags[k]).id != (#[trigger] tags[l]).id,
        forall|k: int|
            0 <= k < tags.len() ==> {
                let tag_id = (#[trigger] tags[k]).id;
                &&& tags[k].name@ == db.tags[tag_id].name
                &&& tags[k].color@ == db.tags[tag_id].color
            },
{
}

} // verus!
