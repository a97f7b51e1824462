//! Laws of the lexer: where it goes on, and what around a query does not matter.

use vstd::prelude::*;
use super::{
    as_list, carries, chunks_from, chunks_of, escaped, in_quotes, law_blank_query_is_empty,
    lemma_one_chunk_bounds, lemma_quoted_reads_escaped, one_chunk, prefix_kind, quoted, ChunkKind,
    ChunkView,
};
use crate::text::{
    blank, lemma_skip_white_space, lemma_token_end, skip_white_space, token_end, white_space,
};

verus! {

proof fn lemma_skip_white_space_shifts(s: Seq<char>, k: int, i: int)
    requires
        0 <= k <= s.len(),
        0 <= i <= s.len() - k,
    ensures
        skip_white_space(s, k + i) == k + skip_white_space(s.skip(k), i),
    decreases s.len() - k - i,
{
    if k + i < s.len() {
        assert(s.skip(k)[i] == s[k + i]);
        if white_space(s[k + i]) {
            lemma_skip_white_space_shifts(s, k, i + 1);
        }
    }
}

proof fn lemma_token_end_shifts(s: Seq<char>, k: int, i: int)
    requires
        0 <= k <= s.len(),
        0 <= i <= s.len() - k,
    ensures
        token_end(s, k + i) == k + token_end(s.skip(k), i),
    decreases s.len() - k - i,
{
    if k + i < s.len() {
        assert(s.skip(k)[i] == s[k + i]);
        if !white_space(s[k + i]) {
            lemma_token_end_shifts(s, k, i + 1);
        }
    }
}

proof fn lemma_quoted_shifts(s: Seq<char>, k: int, i: int, done: Seq<char>)
    requires
        0 <= k <= s.len(),
        0 <= i <= s.len() - k,
    ensures
        quoted(s, k + i, done) == match quoted(s.skip(k), i, done) {
            Some((text, end)) => Some((text, k + end)),
            None => None,
        },
    decreases s.len() - k - i,
{
    let t = s.skip(k);
    if k + i < s.len() {
        assert(t[i] == s[k + i]);
        if s[k + i] == '\\' {
            if k + i + 1 < s.len() {
                assert(t[i + 1] == s[k + i + 1]);
                lemma_quoted_shifts(s, k, i + 2, done.push(s[k + i + 1]));
                lemma_quoted_shifts(s, k, i + 2, done.push('\\').push(s[k + i + 1]));
            }
        } else if s[k + i] != '"' {
            lemma_quoted_shifts(s, k, i + 1, done.push(s[k + i]));
        }
    }
}

proof fn lemma_one_chunk_shifts(
    s: Seq<char>,
    k: int,
    i: int,
    negated: bool,
    kind: Option<ChunkKind>,
)
    requires
        0 <= k <= s.len(),
        0 <= i < s.len() - k,
        !white_space(s[k + i]),
    ensures
        ({
            let (chunk, rest) = one_chunk(s.skip(k), i, negated, kind);
            one_chunk(s, k + i, negated, kind) == (chunk, k + rest)
        }),
    decreases s.len() - k - i,
{
    let t = s.skip(k);
    let end = token_end(t, i);
    let token = t.subrange(i, end);
    let next = skip_white_space(t, end);
    assert(t[i] == s[k + i]);
    lemma_token_end(t, i);
    lemma_skip_white_space(t, end);
    lemma_token_end_shifts(s, k, i);
    lemma_skip_white_space_shifts(s, k, end);
    lemma_quoted_shifts(s, k, i + 1, Seq::empty());
    assert(s.subrange(k + i, k + end) =~= token);
    if next < t.len() {
        assert(t[next] == s[k + next]);
        lemma_one_chunk_shifts(s, k, next, true, kind);
        if prefix_kind(token) is Some {
            lemma_one_chunk_shifts(s, k, next, negated, prefix_kind(token));
        }
    }
}

proof fn lemma_chunks_shift(s: Seq<char>, k: int, i: int)
    requires
        0 <= k <= s.len(),
        0 <= i <= s.len() - k,
    ensures
        chunks_from(s, k + i) == chunks_from(s.skip(k), i),
    decreases s.len() - k - i,
{
    let t = s.skip(k);
    let start = skip_white_space(t, i);
    lemma_skip_white_space(t, i);
    lemma_skip_white_space_shifts(s, k, i);
    if start < t.len() {
        assert(t[start] == s[k + start]);
        lemma_one_chunk_bounds(t, start, false, None);
        lemma_one_chunk_shifts(s, k, start, false, None);
        let rest = one_chunk(t, start, false, None).1;
        lemma_chunks_shift(s, k, rest);
    }
}

/// Each reading of a chunk makes progress, and what it leaves carries all that is still to
/// be read: the chunks of a query are the one read first, unless that is discarded, and
/// those of the rest.
pub proof fn law_the_rest_carries_what_remains(query: Seq<char>)
    requires
        query.len() > 0,
        !white_space(query[0]),
    ensures
        ({
            let (chunk, rest) = one_chunk(query, 0, false, None);
            &&& 0 < rest <= query.len()
            &&& chunks_of(query) == as_list(chunk) + chunks_of(query.skip(rest))
        }),
{
    lemma_one_chunk_bounds(query, 0, false, None);
    lemma_rest_carries(query, 0);
    assert(query.skip(0) =~= query);
}

/// The same at any position of a query.
pub(crate) proof fn lemma_rest_carries(query: Seq<char>, start: int)
    requires
        0 <= start < query.len(),
        !white_space(query[start]),
    ensures
        carries(query, start),
{
    let (chunk, rest) = one_chunk(query, start, false, None);
    lemma_one_chunk_bounds(query, start, false, None);
    lemma_chunks_shift(query, start, 0);
    lemma_chunks_shift(query, rest, 0);
    let remaining = chunks_of(query.skip(rest));
    assert(Seq::<ChunkView>::empty() + remaining =~= remaining);
}

/// Whether a token is a prefix: `!`, or one that stands for a kind.
pub open spec fn is_prefix(token: Seq<char>) -> bool {
    token == seq!['!'] || prefix_kind(token) is Some
}

/// Whether a text holds no chunk however the query before it ends: white space, and at most
/// one prefix behind it.
spec fn is_idle(tail: Seq<char>, gap: int) -> bool {
    &&& 0 < gap <= tail.len()
    &&& blank(tail.take(gap))
    &&& gap == tail.len() || is_prefix(tail.skip(gap))
}

proof fn lemma_prefix_characters(token: Seq<char>)
    requires
        is_prefix(token),
    ensures
        token.len() > 0,
        forall|i: int|
            0 <= i < token.len() ==> !white_space(#[trigger] token[i]) && token[i] != '"',
{
    if token == seq!['!'] {
        assert(token.len() == 1 && token[0] == '!');
    } else if token == seq!['/', 't'] {
        assert(token.len() == 2 && token[0] == '/' && token[1] == 't');
    } else if token == seq!['/', 'n'] {
        assert(token.len() == 2 && token[0] == '/' && token[1] == 'n');
    } else {
        assert(token == seq!['/', 'p']);
        assert(token.len() == 2 && token[0] == '/' && token[1] == 'p');
    }
}

/// What stands in an idle tail.
proof fn lemma_idle_characters(query: Seq<char>, tail: Seq<char>, gap: int)
    requires
        is_idle(tail, gap),
    ensures
        ({
            let s = query + tail;
            let n = query.len() as int;
            &&& forall|j: int| n <= j < n + gap ==> white_space(#[trigger] s[j])
            &&& forall|j: int|
                n + gap <= j < s.len() ==> !white_space(#[trigger] s[j])
            &&& forall|j: int| n <= j < s.len() ==> #[trigger] s[j] != '"'
        }),
{
    let s = query + tail;
    let n = query.len() as int;
    let token = tail.skip(gap);
    if gap < tail.len() {
        lemma_prefix_characters(token);
    }
    assert forall|j: int| n <= j < n + gap implies white_space(#[trigger] s[j]) && s[j] != '"' by {
        assert(s[j] == tail.take(gap)[j - n]);
    }
    assert forall|j: int| n + gap <= j < s.len() implies !white_space(#[trigger] s[j]) && s[j]
        != '"' by {
        assert(s[j] == token[j - n - gap]);
    }
}

proof fn lemma_skip_over(s: Seq<char>, i: int, end: int)
    requires
        0 <= i <= end <= s.len(),
        forall|j: int| i <= j < end ==> white_space(#[trigger] s[j]),
        end < s.len() ==> !white_space(s[end]),
    ensures
        skip_white_space(s, i) == end,
    decreases end - i,
{
    if i < end {
        lemma_skip_over(s, i + 1, end);
    }
}

proof fn lemma_run_over(s: Seq<char>, i: int, end: int)
    requires
        0 <= i <= end <= s.len(),
        forall|j: int| i <= j < end ==> !white_space(#[trigger] s[j]),
        end < s.len() ==> white_space(s[end]),
    ensures
        token_end(s, i) == end,
    decreases end - i,
{
    if i < end {
        lemma_run_over(s, i + 1, end);
    }
}

/// Where a query is followed by an idle tail, tokens end where they did, and white space is
/// skipped to where it was, or to behind the gap.
proof fn lemma_positions(query: Seq<char>, tail: Seq<char>, gap: int, i: int)
    requires
        is_idle(tail, gap),
        0 <= i <= query.len(),
    ensures
        token_end(query + tail, i) == token_end(query, i),
        skip_white_space(query + tail, i) == if skip_white_space(query, i) < query.len() {
            skip_white_space(query, i)
        } else {
            query.len() + gap
        },
{
    let s = query + tail;
    lemma_idle_characters(query, tail, gap);
    lemma_token_end(query, i);
    lemma_skip_white_space(query, i);
    let end = token_end(query, i);
    assert forall|j: int| i <= j < end implies !white_space(#[trigger] s[j]) by {
        assert(s[j] == query[j]);
    }
    if end < query.len() {
        assert(s[end] == query[end]);
    }
    lemma_run_over(s, i, end);
    let start = skip_white_space(query, i);
    assert forall|j: int| i <= j < start implies white_space(#[trigger] s[j]) by {
        assert(s[j] == query[j]);
    }
    if start < query.len() {
        assert(s[start] == query[start]);
        lemma_skip_over(s, i, start);
    } else {
        lemma_skip_over(s, i, query.len() + gap);
    }
}

/// Without a quote ahead, no quoted payload ends.
proof fn lemma_unterminated(s: Seq<char>, i: int, done: Seq<char>)
    requires
        0 <= i,
        forall|j: int| i <= j < s.len() ==> #[trigger] s[j] != '"',
    ensures
        quoted(s, i, done) is None,
    decreases s.len() - i,
{
    if i < s.len() {
        if s[i] == '\\' {
            if i + 1 < s.len() {
                lemma_unterminated(s, i + 2, done.push(s[i + 1]));
                lemma_unterminated(s, i + 2, done.push('\\').push(s[i + 1]));
            }
        } else {
            lemma_unterminated(s, i + 1, done.push(s[i]));
        }
    }
}

/// A quoted payload is read the same where an idle tail follows the query.
proof fn lemma_quoted_stays(query: Seq<char>, tail: Seq<char>, gap: int, i: int, done: Seq<char>)
    requires
        is_idle(tail, gap),
        0 <= i <= query.len(),
    ensures
        quoted(query + tail, i, done) == quoted(query, i, done),
    decreases query.len() - i,
{
    let s = query + tail;
    lemma_idle_characters(query, tail, gap);
    if i == query.len() {
        lemma_unterminated(s, i, done);
    } else {
        assert(s[i] == query[i]);
        if query[i] == '\\' {
            if i + 1 < query.len() {
                assert(s[i + 1] == query[i + 1]);
                lemma_quoted_stays(query, tail, gap, i + 2, done.push(query[i + 1]));
                lemma_quoted_stays(query, tail, gap, i + 2, done.push('\\').push(query[i + 1]));
            } else {
                lemma_unterminated(s, i + 2, done.push(s[i + 1]));
                lemma_unterminated(s, i + 2, done.push('\\').push(s[i + 1]));
            }
        } else if query[i] != '"' {
            lemma_quoted_stays(query, tail, gap, i + 1, done.push(query[i]));
        }
    }
}

/// A prefix at the very end is discarded, with all that was begun before it.
proof fn lemma_dangling_prefix(
    query: Seq<char>,
    tail: Seq<char>,
    gap: int,
    negated: bool,
    kind: Option<ChunkKind>,
)
    requires
        is_idle(tail, gap),
        gap < tail.len(),
    ensures
        one_chunk(query + tail, query.len() + gap, negated, kind) == (
            None::<ChunkView>,
            (query + tail).len() as int,
        ),
{
    let s = query + tail;
    let at = query.len() + gap;
    lemma_idle_characters(query, tail, gap);
    lemma_run_over(s, at, s.len() as int);
    lemma_skip_over(s, s.len() as int, s.len() as int);
    assert(s.subrange(at, s.len() as int) =~= tail.skip(gap));
}

/// A chunk is read the same where an idle tail follows the query, or it is discarded with
/// all that is left.
proof fn lemma_one_chunk_stays(
    query: Seq<char>,
    tail: Seq<char>,
    gap: int,
    i: int,
    negated: bool,
    kind: Option<ChunkKind>,
)
    requires
        is_idle(tail, gap),
        0 <= i < query.len(),
        !white_space(query[i]),
    ensures
        ({
            let (a, end) = one_chunk(query, i, negated, kind);
            let (b, rest) = one_chunk(query + tail, i, negated, kind);
            &&& a == b
            &&& rest == end || a is None && end == query.len() && rest == (query + tail).len()
        }),
    decreases query.len() - i,
{
    let s = query + tail;
    let end = token_end(query, i);
    let token = query.subrange(i, end);
    let next = skip_white_space(query, end);
    assert(s[i] == query[i]);
    lemma_token_end(query, i);
    lemma_skip_white_space(query, end);
    lemma_positions(query, tail, gap, i);
    lemma_positions(query, tail, gap, end);
    assert(s.subrange(i, end) =~= token);
    lemma_quoted_stays(query, tail, gap, i + 1, Seq::empty());
    if next < query.len() {
        lemma_one_chunk_stays(query, tail, gap, next, true, kind);
        if prefix_kind(token) is Some {
            lemma_one_chunk_stays(query, tail, gap, next, negated, prefix_kind(token));
        }
    } else if gap < tail.len() {
        lemma_idle_characters(query, tail, gap);
        lemma_dangling_prefix(query, tail, gap, true, kind);
        lemma_dangling_prefix(query, tail, gap, negated, prefix_kind(token));
    }
}

proof fn lemma_chunks_stay(query: Seq<char>, tail: Seq<char>, gap: int, i: int)
    requires
        is_idle(tail, gap),
        0 <= i <= query.len(),
    ensures
        chunks_from(query + tail, i) == chunks_from(query, i),
    decreases query.len() - i,
{
    let s = query + tail;
    let start = skip_white_space(query, i);
    lemma_skip_white_space(query, i);
    lemma_positions(query, tail, gap, i);
    assert(skip_white_space(s, s.len() as int) == s.len());
    assert(chunks_from(s, s.len() as int) == Seq::<ChunkView>::empty());
    if start < query.len() {
        assert(s[start] == query[start]);
        lemma_one_chunk_bounds(query, start, false, None);
        lemma_one_chunk_stays(query, tail, gap, start, false, None);
        let end = one_chunk(query, start, false, None).1;
        lemma_chunks_stay(query, tail, gap, end);
        assert(skip_white_space(query, query.len() as int) == query.len());
        assert(chunks_from(query, query.len() as int) == Seq::<ChunkView>::empty());
    } else if gap < tail.len() {
        lemma_idle_characters(query, tail, gap);
        lemma_dangling_prefix(query, tail, gap, false, None);
    }
}

/// White space around a query changes nothing.
pub proof fn law_surrounding_white_space_is_ignored(
    before: Seq<char>,
    query: Seq<char>,
    after: Seq<char>,
)
    requires
        blank(before),
        blank(after),
    ensures
        chunks_of(before + query + after) == chunks_of(query),
{
    if after.len() == 0 {
        assert(before + query + after =~= before + query);
    } else {
        assert(after.take(after.len() as int) =~= after);
        lemma_chunks_stay(before + query, after, after.len() as int, 0);
    }
    let s = before + query;
    let k = before.len() as int;
    assert(s.skip(k) =~= query);
    assert forall|j: int| 0 <= j < k implies white_space(#[trigger] s[j]) by {
        assert(s[j] == before[j]);
    }
    lemma_skip_white_space(s, k);
    let start = skip_white_space(s, k);
    assert(skip_white_space(s, 0) == start) by {
        lemma_skip_over(s, 0, start);
    }
    assert(chunks_from(s, 0) == chunks_from(s, k));
    lemma_chunks_shift(s, k, 0);
}

/// A prefix with nothing behind it changes nothing, whatever stands before it.
pub proof fn law_a_trailing_prefix_is_ignored(query: Seq<char>, gap: Seq<char>, prefix: Seq<char>)
    requires
        gap.len() > 0,
        blank(gap),
        is_prefix(prefix),
    ensures
        chunks_of(query + gap + prefix) == chunks_of(query),
{
    let tail = gap + prefix;
    lemma_prefix_characters(prefix);
    assert(query + gap + prefix =~= query + tail);
    assert(tail.take(gap.len() as int) =~= gap);
    assert(tail.skip(gap.len() as int) =~= prefix);
    lemma_chunks_stay(query, tail, gap.len() as int, 0);
}

/// Whether a text is a bare payload: a run of characters that begins with no quote and is no
/// prefix.
pub open spec fn is_word(word: Seq<char>) -> bool {
    &&& word.len() > 0
    &&& forall|i: int| 0 <= i < word.len() ==> !white_space(#[trigger] word[i])
    &&& word[0] != '"'
    &&& !is_prefix(word)
}

/// How a chunk is marked as negated and as one of a kind, in front of its payload.
pub open spec fn marks(negated: bool, kind: ChunkKind) -> Seq<char> {
    (if negated {
        seq!['!', ' ']
    } else {
        Seq::empty()
    }) + match kind {
        ChunkKind::Any => Seq::empty(),
        ChunkKind::Tag => seq!['/', 't', ' '],
        ChunkKind::Logical => seq!['/', 'n', ' '],
        ChunkKind::Physical => seq!['/', 'p', ' '],
    }
}

/// Behind a prefix lexing goes on as it would at the start of what follows.
proof fn lemma_after_prefix(
    prefix: Seq<char>,
    next: Seq<char>,
    negated: bool,
    kind: Option<ChunkKind>,
)
    requires
        is_prefix(prefix),
        next.len() > 0,
        !white_space(next[0]),
        prefix == seq!['!'] ==> !negated,
        prefix != seq!['!'] ==> kind is None,
    ensures
        ({
            let (chunk, rest) = one_chunk(
                next,
                0,
                negated || prefix == seq!['!'],
                if prefix == seq!['!'] {
                    kind
                } else {
                    prefix_kind(prefix)
                },
            );
            one_chunk(prefix + seq![' '] + next, 0, negated, kind) == (
                chunk,
                prefix.len() + 1 + rest,
            )
        }),
{
    let s = prefix + seq![' '] + next;
    let n = prefix.len() as int;
    lemma_prefix_characters(prefix);
    assert(white_space(' '));
    assert forall|j: int| 0 <= j < n implies !white_space(#[trigger] s[j]) by {
        assert(s[j] == prefix[j]);
    }
    assert(s[n] == ' ');
    assert(s[n + 1] == next[0]);
    lemma_run_over(s, 0, n);
    lemma_skip_over(s, n, n + 1);
    assert(s.subrange(0, n) =~= prefix);
    assert(s.skip(n + 1) =~= next);
    let then_negated = negated || prefix == seq!['!'];
    let then_kind = if prefix == seq!['!'] {
        kind
    } else {
        prefix_kind(prefix)
    };
    lemma_one_chunk_shifts(s, n + 1, 0, then_negated, then_kind);
}

/// A bare payload is taken as it is, up to the next white space.
proof fn lemma_word(word: Seq<char>, tail: Seq<char>, negated: bool, kind: Option<ChunkKind>)
    requires
        is_word(word),
        tail.len() > 0 ==> white_space(tail[0]),
    ensures
        one_chunk(word + tail, 0, negated, kind) == (
            Some(
                ChunkView {
                    kind: match kind {
                        Some(k) => k,
                        None => ChunkKind::Any,
                    },
                    text: word,
                    negated,
                },
            ),
            word.len() as int,
        ),
{
    let s = word + tail;
    let n = word.len() as int;
    assert forall|j: int| 0 <= j < n implies !white_space(#[trigger] s[j]) by {
        assert(s[j] == word[j]);
    }
    if tail.len() > 0 {
        assert(s[n] == tail[0]);
    }
    lemma_run_over(s, 0, n);
    assert(s.subrange(0, n) =~= word);
}

/// A quoted payload is taken with the white space in it, and ends at its quote.
proof fn lemma_quoted_payload(
    text: Seq<char>,
    tail: Seq<char>,
    negated: bool,
    kind: Option<ChunkKind>,
)
    ensures
        one_chunk(in_quotes(text) + tail, 0, negated, kind) == (
            Some(
                ChunkView {
                    kind: match kind {
                        Some(k) => k,
                        None => ChunkKind::Any,
                    },
                    text,
                    negated,
                },
            ),
            in_quotes(text).len() as int,
        ),
{
    let s = in_quotes(text) + tail;
    let e = escaped(text);
    assert(s[0] == '"');
    assert(s.subrange(1, e.len() + 1int) =~= e);
    assert(s[e.len() + 1int] == '"');
    lemma_quoted_reads_escaped(s, 1, Seq::empty(), text);
    assert(Seq::<char>::empty() + text =~= text);
    assert(!white_space('"'));
    let token = s.subrange(0, token_end(s, 0));
    lemma_token_end(s, 0);
    assert(token[0] == '"');
    assert(token != seq!['!']) by {
        assert(seq!['!'][0] == '!');
    }
    assert(prefix_kind(token) is None) by {
        assert(seq!['/', 't'][0] == '/');
        assert(seq!['/', 'n'][0] == '/');
        assert(seq!['/', 'p'][0] == '/');
    }
}

/// What begins with a chunk that is read whole.
proof fn lemma_first_chunk(query: Seq<char>, chunk: ChunkView, end: int, rest: Seq<char>)
    requires
        query.len() > 0,
        !white_space(query[0]),
        one_chunk(query, 0, false, None) == (Some(chunk), end),
        0 <= end <= query.len(),
        query.skip(end) == rest,
    ensures
        chunks_of(query) == seq![chunk] + chunks_of(rest),
{
    law_the_rest_carries_what_remains(query);
}

proof fn lemma_marked(
    negated: bool,
    kind: ChunkKind,
    payload: Seq<char>,
    text: Seq<char>,
    rest: Seq<char>,
)
    requires
        payload.len() > 0,
        !white_space(payload[0]),
        forall|n: bool, k: Option<ChunkKind>| #[trigger]
            one_chunk(payload + rest, 0, n, k) == (
                Some(
                    ChunkView {
                        kind: match k {
                            Some(x) => x,
                            None => ChunkKind::Any,
                        },
                        text,
                        negated: n,
                    },
                ),
                payload.len() as int,
            ),
    ensures
        chunks_of(marks(negated, kind) + payload + rest) == seq![
            ChunkView { kind, text, negated },
        ] + chunks_of(rest),
{
    let next = payload + rest;
    assert(next[0] == payload[0]);
    let chunk = ChunkView { kind, text, negated };
    let bang = seq!['!'];
    assert(is_prefix(bang));
    let token = match kind {
        ChunkKind::Any => Seq::<char>::empty(),
        ChunkKind::Tag => seq!['/', 't'],
        ChunkKind::Logical => seq!['/', 'n'],
        ChunkKind::Physical => seq!['/', 'p'],
    };
    assert(seq!['/', 't'].len() == 2 && seq!['/', 't'][1] == 't');
    assert(seq!['/', 'n'].len() == 2 && seq!['/', 'n'][1] == 'n');
    assert(seq!['/', 'p'].len() == 2 && seq!['/', 'p'][1] == 'p');
    assert(bang.len() == 1);
    assert(!white_space('!') && !white_space('/'));
    let opt = if kind == ChunkKind::Any {
        None
    } else {
        Some(kind)
    };
    assert(one_chunk(next, 0, negated, opt).0 == Some(chunk));
    if kind == ChunkKind::Any {
        if negated {
            let query = bang + seq![' '] + next;
            assert(query =~= marks(negated, kind) + payload + rest);
            lemma_after_prefix(bang, next, false, None);
            assert(query[0] == '!');
            assert(query.skip(2 + payload.len() as int) =~= rest);
            lemma_first_chunk(query, chunk, 2 + payload.len() as int, rest);
        } else {
            assert(next =~= marks(negated, kind) + payload + rest);
            assert(next.skip(payload.len() as int) =~= rest);
            lemma_first_chunk(next, chunk, payload.len() as int, rest);
        }
    } else {
        assert(prefix_kind(token) == Some(kind));
        assert(token != bang);
        let inner = token + seq![' '] + next;
        assert(inner[0] == '/');
        lemma_after_prefix(token, next, negated, None);
        if negated {
            let query = bang + seq![' '] + inner;
            assert(query =~= marks(negated, kind) + payload + rest);
            lemma_after_prefix(bang, inner, false, None);
            assert(query[0] == '!');
            assert(query.skip(5 + payload.len() as int) =~= rest);
            lemma_first_chunk(query, chunk, 5 + payload.len() as int, rest);
        } else {
            assert(inner =~= marks(negated, kind) + payload + rest);
            assert(inner.skip(3 + payload.len() as int) =~= rest);
            lemma_first_chunk(inner, chunk, 3 + payload.len() as int, rest);
        }
    }
}

/// A chunk with a quoted payload is read as it is marked, whatever its text and whatever
/// follows: the chunks of a query are that one and those of the rest.
pub proof fn law_a_marked_chunk_is_read(
    negated: bool,
    kind: ChunkKind,
    text: Seq<char>,
    rest: Seq<char>,
)
    ensures
        chunks_of(marks(negated, kind) + in_quotes(text) + rest) == seq![
            ChunkView { kind, text, negated },
        ] + chunks_of(rest),
{
    let payload = in_quotes(text);
    assert(payload[0] == '"');
    assert(!white_space('"'));
    assert forall|n: bool, k: Option<ChunkKind>| #[trigger]
        one_chunk(payload + rest, 0, n, k) == (
            Some(
                ChunkView {
                    kind: match k {
                        Some(x) => x,
                        None => ChunkKind::Any,
                    },
                    text,
                    negated: n,
                },
            ),
            payload.len() as int,
        ) by {
        lemma_quoted_payload(text, rest, n, k);
    }
    lemma_marked(negated, kind, payload, text, rest);
}

/// A chunk with a bare word as its payload is read as it is marked, up to the next white
/// space: the chunks of a query are that one and those of the rest.
pub proof fn law_a_marked_word_is_read(
    negated: bool,
    kind: ChunkKind,
    word: Seq<char>,
    rest: Seq<char>,
)
    requires
        is_word(word),
        rest.len() > 0 ==> white_space(rest[0]),
    ensures
        chunks_of(marks(negated, kind) + word + rest) == seq![
            ChunkView { kind, text: word, negated },
        ] + chunks_of(rest),
{
    assert forall|n: bool, k: Option<ChunkKind>| #[trigger]
        one_chunk(word + rest, 0, n, k) == (
            Some(
                ChunkView {
                    kind: match k {
                        Some(x) => x,
                        None => ChunkKind::Any,
                    },
                    text: word,
                    negated: n,
                },
            ),
            word.len() as int,
        ) by {
        lemma_word(word, rest, n, k);
    }
    lemma_marked(negated, kind, word, word, rest);
}

/// A second `!`, and a second kind prefix, discard the chunk begun so far: lexing goes on
/// behind it.
pub proof fn law_conflicting_prefixes_are_dropped(
    first: Seq<char>,
    second: Seq<char>,
    rest: Seq<char>,
)
    requires
        is_prefix(first),
        is_prefix(second),
        (first == seq!['!']) == (second == seq!['!']),
        rest.len() > 0 ==> white_space(rest[0]),
    ensures
        chunks_of(first + seq![' '] + second + rest) == chunks_of(rest),
{
    let next = second + rest;
    let n = second.len() as int;
    lemma_prefix_characters(first);
    lemma_prefix_characters(second);
    assert(next[0] == second[0]);
    assert forall|j: int| 0 <= j < n implies !white_space(#[trigger] next[j]) by {
        assert(next[j] == second[j]);
    }
    if rest.len() > 0 {
        assert(next[n] == rest[0]);
    }
    lemma_run_over(next, 0, n);
    assert(next.subrange(0, n) =~= second);
    lemma_after_prefix(first, next, false, None);
    let query = first + seq![' '] + next;
    assert(query =~= first + seq![' '] + second + rest);
    assert(query[0] == first[0]);
    let end = first.len() + 1 + n;
    assert(one_chunk(query, 0, false, None) == (None::<ChunkView>, end));
    law_the_rest_carries_what_remains(query);
    assert(query.skip(end) =~= rest);
    assert(Seq::<ChunkView>::empty() + chunks_of(rest) =~= chunks_of(rest));
}

/// An unterminated quote discards the rest of the query.
pub proof fn law_an_unterminated_quote_is_dropped(text: Seq<char>)
    requires
        forall|i: int| 0 <= i < text.len() ==> #[trigger] text[i] != '"',
    ensures
        chunks_of(seq!['"'] + text) == Seq::<ChunkView>::empty(),
{
    let s = seq!['"'] + text;
    assert(s[0] == '"');
    assert(!white_space('"'));
    assert forall|j: int| 1 <= j < s.len() implies #[trigger] s[j] != '"' by {
        assert(s[j] == text[j - 1]);
    }
    lemma_unterminated(s, 1, Seq::empty());
    let token = s.subrange(0, token_end(s, 0));
    lemma_token_end(s, 0);
    assert(token[0] == '"');
    assert(token != seq!['!']) by {
        assert(seq!['!'][0] == '!');
    }
    assert(prefix_kind(token) is None) by {
        assert(seq!['/', 't'][0] == '/');
        assert(seq!['/', 'n'][0] == '/');
        assert(seq!['/', 'p'][0] == '/');
    }
    assert(one_chunk(s, 0, false, None) == (None::<ChunkView>, s.len() as int));
    law_the_rest_carries_what_remains(s);
    assert(s.skip(s.len() as int) =~= Seq::<char>::empty());
    law_blank_query_is_empty(Seq::empty());
    assert(Seq::<ChunkView>::empty() + Seq::<ChunkView>::empty() =~= Seq::<ChunkView>::empty());
}

proof fn lemma_plain_is_read(s: Seq<char>, i: int, done: Seq<char>, plain: Seq<char>)
    requires
        0 <= i,
        i + plain.len() <= s.len(),
        s.subrange(i, i + plain.len()) == plain,
        !plain.contains('"'),
        !plain.contains('\\'),
    ensures
        quoted(s, i, done) == quoted(s, i + plain.len(), done + plain),
    decreases plain.len(),
{
    if plain.len() == 0 {
        assert(done + plain =~= done);
    } else {
        let c = plain[0];
        let rest = plain.drop_first();
        assert(s[i] == c) by {
            assert(s.subrange(i, i + plain.len())[0] == s[i]);
        }
        assert(plain.contains(c));
        assert(s.subrange(i + 1, i + 1 + rest.len()) =~= rest) by {
            assert forall|k: int| 0 <= k < rest.len() implies s[i + 1 + k]
                == #[trigger] rest[k] by {
                assert(s.subrange(i, i + plain.len())[k + 1] == s[i + 1 + k]);
            }
        }
        assert forall|k: int| 0 <= k < rest.len() implies plain.contains(#[trigger] rest[k]) by {
            assert(plain[k + 1] == rest[k]);
        }
        if rest.contains('"') {
            let k = choose|k: int| 0 <= k < rest.len() && rest[k] == '"';
            assert(plain.contains(rest[k]));
        }
        if rest.contains('\\') {
            let k = choose|k: int| 0 <= k < rest.len() && rest[k] == '\\';
            assert(plain.contains(rest[k]));
        }
        lemma_plain_is_read(s, i + 1, done.push(c), rest);
        assert(done.push(c) + rest =~= done + plain);
    }
}

/// Behind a backslash only a quote and a backslash are special: before any other character
/// the backslash stays.
pub proof fn law_other_backslashes_stay(before: Seq<char>, c: char, done: Seq<char>, s: Seq<char>)
    requires
        !before.contains('"'),
        !before.contains('\\'),
        s == before + seq!['\\', c, '"'],
    ensures
        quoted(s, 0, done) == (if c == '"' || c == '\\' {
            Some((done + before + seq![c], s.len() as int))
        } else {
            Some((done + before + seq!['\\', c], s.len() as int))
        }),
{
    let n = before.len() as int;
    assert(s.subrange(0, n) =~= before);
    lemma_plain_is_read(s, 0, done, before);
    assert(s[n] == '\\' && s[n + 1] == c && s[n + 2] == '"');
    let read = done + before;
    assert(read.push(c) =~= read + seq![c]);
    assert(read.push('\\').push(c) =~= read + seq!['\\', c]);
    reveal_with_fuel(quoted, 3);
}

} // verus!
