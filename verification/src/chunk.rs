//! The query lexer: from the text of a search box to a list of chunks.
//!
//! A query is a sequence of chunks set apart by white space. A chunk is an optional
//! `!`, an optional kind prefix (`/t`, `/n` or `/p`), in either order and each a
//! token of its own, and a payload: a double-quoted string in which `\"` and `\\`
//! stand for `"` and `\`, or a bare run of characters that are no white space.
//!
//! Lexing never fails. A second `!` or a second kind prefix discards the chunk begun
//! so far and lexing goes on behind it; a prefix without a payload is discarded; an
//! unterminated quote discards the rest of the query.

use vstd::prelude::*;

pub mod laws;

use crate::text::{
    blank, chars_of, lemma_skip_white_space, lemma_token_end, skip_white_space,
    skip_white_space_from, string_of_range, token_end, token_end_from, white_space,
};

verus! {

/// What kind of filter a chunk expresses.
#[derive(Debug, Clone, Copy, PartialEq, Eq, Structural)]
pub enum ChunkKind {
    /// No prefix: match names and tags.
    Any,
    /// `/t`: the payload names a tag.
    Tag,
    /// `/n`: the payload is part of a logical path.
    Logical,
    /// `/p`: the payload is part of a physical path. Reserved.
    Physical,
}

/// One parsed chunk of a query.
#[derive(Debug, Clone, PartialEq, Eq)]
pub struct Chunk {
    pub kind: ChunkKind,
    pub text: String,
    pub negated: bool,
}

/// The mathematical value of a [`Chunk`].
#[verifier::ext_equal]
pub struct ChunkView {
    pub kind: ChunkKind,
    pub text: Seq<char>,
    pub negated: bool,
}

impl View for Chunk {
    type V = ChunkView;

    open spec fn view(&self) -> ChunkView {
        ChunkView { kind: self.kind, text: self.text@, negated: self.negated }
    }
}

/// The mathematical value of a list of chunks.
pub open spec fn chunk_views(chunks: Seq<Chunk>) -> Seq<ChunkView> {
    chunks.map_values(|c: Chunk| c@)
}

/// The kind that a token stands for, if it is a kind prefix.
pub open spec fn prefix_kind(token: Seq<char>) -> Option<ChunkKind> {
    if token == seq!['/', 't'] {
        Some(ChunkKind::Tag)
    } else if token == seq!['/', 'n'] {
        Some(ChunkKind::Logical)
    } else if token == seq!['/', 'p'] {
        Some(ChunkKind::Physical)
    } else {
        None
    }
}

/// Reads a quoted payload from `i` on, behind the opening quote: the text, after
/// `done`, and the position behind the closing quote. `None` where that quote is
/// missing.
pub open spec fn quoted(s: Seq<char>, i: int, done: Seq<char>) -> Option<(Seq<char>, int)>
    decreases s.len() - i,
{
    if i < 0 || i >= s.len() {
        None
    } else if s[i] == '"' {
        Some((done, i + 1))
    } else if s[i] == '\\' {
        if i + 1 >= s.len() {
            None
        } else if s[i + 1] == '"' || s[i + 1] == '\\' {
            quoted(s, i + 2, done.push(s[i + 1]))
        } else {
            quoted(s, i + 2, done.push('\\').push(s[i + 1]))
        }
    } else {
        quoted(s, i + 1, done.push(s[i]))
    }
}

/// Reads the payload of a chunk at `i`: the chunk, and the position behind it.
pub open spec fn payload(s: Seq<char>, i: int, negated: bool, kind: Option<ChunkKind>) -> (
    Option<ChunkView>,
    int,
) {
    let kind = match kind {
        Some(k) => k,
        None => ChunkKind::Any,
    };
    if s[i] == '"' {
        match quoted(s, i + 1, Seq::empty()) {
            Some((text, end)) => (Some(ChunkView { kind, text, negated }), end),
            None => (None, s.len() as int),
        }
    } else {
        let end = token_end(s, i);
        (Some(ChunkView { kind, text: s.subrange(i, end), negated }), end)
    }
}

/// Reads one chunk at `i`, where a character stands that is no white space, after
/// the prefixes read so far: the chunk, unless it is discarded, and the position
/// at which lexing goes on.
pub open spec fn one_chunk(s: Seq<char>, i: int, negated: bool, kind: Option<ChunkKind>) -> (
    Option<ChunkView>,
    int,
)
    decreases s.len() - i,
    when 0 <= i < s.len() && !white_space(s[i])
{
    let end = token_end(s, i);
    let token = s.subrange(i, end);
    let next = skip_white_space(s, end);
    proof {
        lemma_token_end(s, i);
        lemma_skip_white_space(s, end);
    }
    if token == seq!['!'] {
        if negated {
            (None, end)
        } else if next >= s.len() {
            (None, s.len() as int)
        } else {
            one_chunk(s, next, true, kind)
        }
    } else {
        match prefix_kind(token) {
            Some(k) => if kind is Some {
                (None, end)
            } else if next >= s.len() {
                (None, s.len() as int)
            } else {
                one_chunk(s, next, negated, Some(k))
            },
            None => payload(s, i, negated, kind),
        }
    }
}

proof fn lemma_quoted_bounds(s: Seq<char>, i: int, done: Seq<char>)
    requires
        0 <= i <= s.len(),
    ensures
        quoted(s, i, done) matches Some((_, end)) ==> i < end <= s.len(),
    decreases s.len() - i,
{
    if i < s.len() && s[i] != '"' {
        if s[i] == '\\' {
            if i + 1 < s.len() {
                if s[i + 1] == '"' || s[i + 1] == '\\' {
                    lemma_quoted_bounds(s, i + 2, done.push(s[i + 1]));
                } else {
                    lemma_quoted_bounds(s, i + 2, done.push('\\').push(s[i + 1]));
                }
            }
        } else {
            lemma_quoted_bounds(s, i + 1, done.push(s[i]));
        }
    }
}

/// Reading a chunk moves forward and stays inside the query.
pub proof fn lemma_one_chunk_bounds(s: Seq<char>, i: int, negated: bool, kind: Option<ChunkKind>)
    requires
        0 <= i < s.len(),
        !white_space(s[i]),
    ensures
        i < one_chunk(s, i, negated, kind).1 <= s.len(),
    decreases s.len() - i,
{
    let end = token_end(s, i);
    let token = s.subrange(i, end);
    let next = skip_white_space(s, end);
    lemma_token_end(s, i);
    lemma_skip_white_space(s, end);
    lemma_quoted_bounds(s, i + 1, Seq::empty());
    if next < s.len() {
        lemma_one_chunk_bounds(s, next, true, kind);
        if prefix_kind(token) is Some {
            lemma_one_chunk_bounds(s, next, negated, prefix_kind(token));
        }
    }
}

/// The chunks of a query from position `i` on.
pub open spec fn chunks_from(s: Seq<char>, i: int) -> Seq<ChunkView>
    decreases s.len() - i,
    when 0 <= i <= s.len()
{
    let start = skip_white_space(s, i);
    proof {
        lemma_skip_white_space(s, i);
        if start < s.len() {
            lemma_one_chunk_bounds(s, start, false, None);
        }
    }
    if start >= s.len() {
        Seq::empty()
    } else {
        let (chunk, rest) = one_chunk(s, start, false, None);
        match chunk {
            Some(c) => seq![c] + chunks_from(s, rest),
            None => chunks_from(s, rest),
        }
    }
}

/// The chunks of a query.
pub open spec fn chunks_of(query: Seq<char>) -> Seq<ChunkView> {
    chunks_from(query, 0)
}

/// Lexes a query into chunks.
pub fn lex_query(query: &str) -> (r: Vec<Chunk>)
    ensures
        chunk_views(r@) == chunks_of(query@),
{
    let s = chars_of(query);
    let mut chunks: Vec<Chunk> = Vec::new();
    let mut cursor: usize = skip_white_space_from(&s, 0);
    assert(chunk_views(chunks@) =~= Seq::<ChunkView>::empty());
    assert(chunk_views(chunks@) + chunks_from(s@, 0) =~= chunks_from(s@, 0));
    let ghost mut behind: int = 0;
    while cursor < s.len()
        invariant
            s@ == query@,
            0 <= behind <= cursor <= s.len(),
            cursor == skip_white_space(s@, behind),
            cursor < s.len() ==> !white_space(s@[cursor as int]),
            chunk_views(chunks@) + chunks_from(s@, behind) == chunks_of(query@),
        decreases s.len() - cursor,
    {
        proof {
            lemma_one_chunk_bounds(s@, cursor as int, false, None);
        }
        let (found, rest) = lex_one_chunk(&s, cursor);
        let ghost read = chunk_views(chunks@);
        match found {
            Some(chunk) => {
                let ghost before = chunks@;
                chunks.push(chunk);
                proof {
                    assert(chunk_views(chunks@) =~= read.push(chunk@));
                    assert(read + (seq![chunk@] + chunks_from(s@, rest as int)) =~= read.push(
                        chunk@,
                    ) + chunks_from(s@, rest as int));
                }
            },
            None => {},
        }
        proof {
            behind = rest as int;
        }
        cursor = skip_white_space_from(&s, rest);
    }
    assert(chunk_views(chunks@) + Seq::<ChunkView>::empty() =~= chunk_views(chunks@));
    chunks
}

/// A chunk as a list, empty where it was discarded.
pub open spec fn as_list(chunk: Option<ChunkView>) -> Seq<ChunkView> {
    match chunk {
        Some(c) => seq![c],
        None => Seq::empty(),
    }
}

/// Whether the reading of a chunk at `start` leaves all that is still to be lexed.
pub open spec fn carries(s: Seq<char>, start: int) -> bool {
    let (chunk, rest) = one_chunk(s, start, false, None);
    chunks_of(s.skip(start)) == as_list(chunk) + chunks_of(s.skip(rest))
}

/// Lexes one chunk at `start`, where no white space stands. Gives the chunk, unless it is
/// discarded, and the position of the rest, which is shorter and carries all that is still
/// to be lexed.
pub fn lex_one_chunk(s: &Vec<char>, start: usize) -> (r: (Option<Chunk>, usize))
    requires
        start < s.len(),
        !white_space(s@[start as int]),
    ensures
        r.1 == one_chunk(s@, start as int, false, None).1,
        start < r.1 <= s.len(),
        match r.0 {
            Some(chunk) => one_chunk(s@, start as int, false, None).0 == Some(chunk@),
            None => one_chunk(s@, start as int, false, None).0 is None,
        },
        chunks_of(s@.skip(start as int)) == as_list(
            match r.0 {
                Some(chunk) => Some(chunk@),
                None => None,
            },
        ) + chunks_of(s@.skip(r.1 as int)),
{
    proof {
        laws::lemma_rest_carries(s@, start as int);
    }
    read_chunk(s, start)
}

/// Reads one chunk at `start`.
fn read_chunk(s: &Vec<char>, start: usize) -> (r: (Option<Chunk>, usize))
    requires
        start < s.len(),
        !white_space(s@[start as int]),
    ensures
        r.1 == one_chunk(s@, start as int, false, None).1,
        start < r.1 <= s.len(),
        match r.0 {
            Some(chunk) => one_chunk(s@, start as int, false, None).0 == Some(chunk@),
            None => one_chunk(s@, start as int, false, None).0 is None,
        },
{
    let mut cursor: usize = start;
    let mut negated = false;
    let mut kind: Option<ChunkKind> = None;
    proof {
        lemma_one_chunk_bounds(s@, start as int, false, None);
    }
    loop
        invariant
            start <= cursor < s.len(),
            !white_space(s@[cursor as int]),
            one_chunk(s@, start as int, false, None) == one_chunk(
                s@,
                cursor as int,
                negated,
                kind,
            ),
            start < one_chunk(s@, start as int, false, None).1 <= s.len(),
        ensures
            start <= cursor < s.len(),
            !white_space(s@[cursor as int]),
            one_chunk(s@, start as int, false, None) == payload(s@, cursor as int, negated, kind),
            start < one_chunk(s@, start as int, false, None).1 <= s.len(),
        decreases s.len() - cursor,
    {
        let end: usize = token_end_from(s, cursor);
        let ghost token = s@.subrange(cursor as int, end as int);
        let next: usize = skip_white_space_from(s, end);
        if end - cursor == 1 && s[cursor] == '!' {
            assert(token =~= seq!['!']);
            if negated {
                return (None, end);
            }
            if next >= s.len() {
                return (None, s.len());
            }
            negated = true;
            cursor = next;
        } else {
            assert(token != seq!['!']) by {
                if token == seq!['!'] {
                    assert(token[0] == '!');
                }
            }
            let found = token_kind(s, cursor, end);
            match found {
                Some(k) => {
                    if kind.is_some() {
                        return (None, end);
                    }
                    if next >= s.len() {
                        return (None, s.len());
                    }
                    kind = Some(k);
                    cursor = next;
                },
                None => {
                    break ;
                },
            }
        }
    }
    let kind = match kind {
        Some(k) => k,
        None => ChunkKind::Any,
    };
    if s[cursor] == '"' {
        match read_quoted(s, cursor + 1) {
            Some((text, end)) => (Some(Chunk { kind, text, negated }), end),
            None => (None, s.len()),
        }
    } else {
        let end: usize = token_end_from(s, cursor);
        let text = string_of_range(s, cursor, end);
        (Some(Chunk { kind, text, negated }), end)
    }
}

/// The kind that the token `s[from..to]` stands for, if it is a kind prefix.
fn token_kind(s: &Vec<char>, from: usize, to: usize) -> (r: Option<ChunkKind>)
    requires
        from <= to <= s.len(),
    ensures
        r == prefix_kind(s@.subrange(from as int, to as int)),
{
    let ghost token = s@.subrange(from as int, to as int);
    proof {
        assert(seq!['/', 't'].len() == 2 && seq!['/', 't'][1] == 't');
        assert(seq!['/', 'n'].len() == 2 && seq!['/', 'n'][1] == 'n');
        assert(seq!['/', 'p'].len() == 2 && seq!['/', 'p'][1] == 'p');
    }
    if to - from != 2 {
        return None;
    }
    assert(token =~= seq![s@[from as int], s@[from + 1]]);
    if s[from] != '/' {
        assert(token[0] != '/');
        return None;
    }
    let letter: char = s[from + 1];
    assert(token[1] == letter);
    if letter == 't' {
        Some(ChunkKind::Tag)
    } else if letter == 'n' {
        Some(ChunkKind::Logical)
    } else if letter == 'p' {
        Some(ChunkKind::Physical)
    } else {
        None
    }
}

/// Reads a quoted payload that begins at `start`, behind the opening quote.
fn read_quoted(s: &Vec<char>, start: usize) -> (r: Option<(String, usize)>)
    requires
        start <= s.len(),
    ensures
        match r {
            Some((text, end)) => quoted(s@, start as int, Seq::empty()) == Some(
                (text@, end as int),
            ),
            None => quoted(s@, start as int, Seq::empty()) is None,
        },
{
    let mut out = String::new();
    let mut i: usize = start;
    while i < s.len()
        invariant
            start <= i <= s.len(),
            quoted(s@, start as int, Seq::empty()) == quoted(s@, i as int, out@),
        decreases s.len() - i,
    {
        let c: char = s[i];
        if c == '"' {
            return Some((out, i + 1));
        }
        if c == '\\' {
            if i + 1 >= s.len() {
                return None;
            }
            let escaped: char = s[i + 1];
            if escaped != '"' && escaped != '\\' {
                out.push('\\');
            }
            out.push(escaped);
            i = i + 2;
        } else {
            out.push(c);
            i = i + 1;
        }
    }
    None
}

/// A text with each `"` and each `\` preceded by a `\`.
pub open spec fn escaped(text: Seq<char>) -> Seq<char>
    decreases text.len(),
{
    if text.len() == 0 {
        Seq::empty()
    } else {
        let c = text[0];
        (if c == '"' || c == '\\' {
            seq!['\\', c]
        } else {
            seq![c]
        }) + escaped(text.drop_first())
    }
}

/// A text in double quotes, escaped.
pub open spec fn in_quotes(text: Seq<char>) -> Seq<char> {
    seq!['"'] + escaped(text) + seq!['"']
}

proof fn lemma_quoted_reads_escaped(s: Seq<char>, i: int, done: Seq<char>, text: Seq<char>)
    requires
        0 <= i,
        i + escaped(text).len() < s.len(),
        s.subrange(i, i + escaped(text).len()) == escaped(text),
        s[i + escaped(text).len()] == '"',
    ensures
        quoted(s, i, done) == Some((done + text, i + escaped(text).len() + 1)),
    decreases text.len(),
{
    let e = escaped(text);
    if text.len() == 0 {
        assert(done + text =~= done);
    } else {
        let c = text[0];
        let rest = text.drop_first();
        let n: int = if c == '"' || c == '\\' {
            2
        } else {
            1
        };
        assert(e.skip(n) =~= escaped(rest));
        assert(s.subrange(i + n, i + e.len()) =~= e.skip(n));
        assert(s[i] == e[0]) by {
            assert(s.subrange(i, i + e.len())[0] == s[i]);
        }
        if n == 2 {
            assert(s[i + 1] == e[1]) by {
                assert(s.subrange(i, i + e.len())[1] == s[i + 1]);
            }
        }
        lemma_quoted_reads_escaped(s, i + n, done.push(c), rest);
        assert(done.push(c) + rest =~= done + text);
    }
}

/// Quoting loses nothing: a text written in quotes is read back as one chunk that
/// holds exactly that text, whatever characters it is made of.
pub proof fn law_quoted_text_is_read_back(text: Seq<char>)
    ensures
        chunks_of(in_quotes(text)) == seq![
            ChunkView { kind: ChunkKind::Any, text, negated: false },
        ],
{
    let s = in_quotes(text);
    let e = escaped(text);
    assert(s[0] == '"');
    assert(s.subrange(1, e.len() + 1int) =~= e);
    assert(s[e.len() + 1int] == '"');
    lemma_quoted_reads_escaped(s, 1, Seq::empty(), text);
    assert(Seq::<char>::empty() + text =~= text);
    assert(!white_space('"'));
    assert(skip_white_space(s, 0) == 0);
    let token = s.subrange(0, token_end(s, 0));
    lemma_token_end(s, 0);
    assert(token[0] == '"');
    assert(token != seq!['!']) by {
        assert(seq!['!'][0] == '!');
    }
    assert(prefix_kind(token) is None) by {
        assert(seq!['/', 't'][0] == '/');
        assert(seq!['/', 'n'][0] == '/');
        assert(seq!['/', 'p'][0] == '/');
    }
    let chunk = ChunkView { kind: ChunkKind::Any, text, negated: false };
    assert(one_chunk(s, 0, false, None) == (Some(chunk), s.len() as int));
    assert(chunks_from(s, s.len() as int) =~= Seq::<ChunkView>::empty());
    assert(seq![chunk] + Seq::<ChunkView>::empty() =~= seq![chunk]);
}

/// A bare word that is neither a prefix nor begins with a quote is one chunk.
pub proof fn law_bare_word_is_one_chunk(word: Seq<char>)
    requires
        word.len() > 0,
        forall|i: int| 0 <= i < word.len() ==> !white_space(#[trigger] word[i]),
        word[0] != '"',
        word != seq!['!'],
        prefix_kind(word) is None,
    ensures
        chunks_of(word) == seq![ChunkView { kind: ChunkKind::Any, text: word, negated: false }],
{
    lemma_token_end(word, 0);
    let end = token_end(word, 0);
    assert(end == word.len());
    assert(word.subrange(0, end) =~= word);
    assert(skip_white_space(word, 0) == 0);
    let chunk = ChunkView { kind: ChunkKind::Any, text: word, negated: false };
    assert(one_chunk(word, 0, false, None) == (Some(chunk), word.len() as int));
    assert(chunks_from(word, word.len() as int) =~= Seq::<ChunkView>::empty());
    assert(seq![chunk] + Seq::<ChunkView>::empty() =~= seq![chunk]);
}

/// A query of white space alone holds no chunk.
pub proof fn law_blank_query_is_empty(query: Seq<char>)
    requires
        blank(query),
    ensures
        chunks_of(query) == Seq::<ChunkView>::empty(),
{
    lemma_skip_white_space(query, 0);
}

} // verus!
