//! The lexer of search queries.

use tagnetd::chunk::{lex_one_chunk, lex_query, Chunk, ChunkKind};

fn any(text: &str) -> Chunk {
    Chunk {
        kind: ChunkKind::Any,
        text: text.to_owned(),
        negated: false,
    }
}
fn tag(text: &str) -> Chunk {
    Chunk {
        kind: ChunkKind::Tag,
        text: text.to_owned(),
        negated: false,
    }
}
fn logical(text: &str) -> Chunk {
    Chunk {
        kind: ChunkKind::Logical,
        text: text.to_owned(),
        negated: false,
    }
}
fn negate(mut c: Chunk) -> Chunk {
    c.negated = true;
    c
}

#[test]
fn empty_and_whitespace_only_yield_no_chunks() {
    assert_eq!(lex_query(""), Vec::<Chunk>::new());
    assert_eq!(lex_query("   \t  "), Vec::<Chunk>::new());
}

#[test]
fn bare_words_become_any_chunks() {
    assert_eq!(lex_query("foo bar"), vec![any("foo"), any("bar")]);
}

#[test]
fn quoted_strings_capture_whitespace() {
    assert_eq!(
        lex_query(r#""foo bar" baz"#),
        vec![any("foo bar"), any("baz")],
    );
}

#[test]
fn quoted_string_supports_escapes() {
    assert_eq!(lex_query(r#""a\"b\\c""#), vec![any(r#"a"b\c"#)]);
}

#[test]
fn unknown_backslash_escape_is_kept_literally() {
    // `\n` is not a recognised escape; we keep it verbatim rather than
    // silently interpreting it, to match the "quotes are only for
    // whitespace capture" contract.
    assert_eq!(lex_query(r#""a\nb""#), vec![any(r"a\nb")]);
}

#[test]
fn kind_prefixes_apply_to_the_next_chunk() {
    assert_eq!(lex_query("/t foo"), vec![tag("foo")]);
    assert_eq!(lex_query("/n foo"), vec![logical("foo")]);
}

#[test]
fn kind_prefix_only_matches_as_standalone_token() {
    // `/tfoo` is not a `/t` prefix — it's a literal chunk starting with `/`.
    assert_eq!(lex_query("/tfoo"), vec![any("/tfoo")]);
}

#[test]
fn negation_alone_and_with_kind_prefix() {
    assert_eq!(lex_query("! foo"), vec![negate(any("foo"))]);
    assert_eq!(lex_query("! /t foo"), vec![negate(tag("foo"))]);
    // Order of `!` and `/t` doesn't matter.
    assert_eq!(lex_query("/t ! foo"), vec![negate(tag("foo"))]);
}

#[test]
fn negation_applies_to_quoted_payload() {
    assert_eq!(lex_query(r#"! /t "foo bar""#), vec![negate(tag("foo bar"))],);
}

#[test]
fn bang_without_space_is_literal_not_negation() {
    // `!foo` is a literal chunk whose text is `!foo`, matching the
    // "prefixes are standalone tokens" rule from the grammar.
    assert_eq!(lex_query("!foo"), vec![any("!foo")]);
}

#[test]
fn unknown_slash_prefix_is_literal() {
    // `/x` isn't a known kind prefix, so it's just a chunk payload.
    // This keeps paths like `/home/lucas` searchable.
    assert_eq!(lex_query("/x foo"), vec![any("/x"), any("foo")]);
    assert_eq!(lex_query("/home/lucas"), vec![any("/home/lucas")]);
}

#[test]
fn mixed_query_parses_end_to_end() {
    // A realistic mix: bare word, tag, quoted logical path, negated tag.
    let got = lex_query(r#"foo /t bar /n "my file.txt" ! /t old"#);
    assert_eq!(
        got,
        vec![
            any("foo"),
            tag("bar"),
            logical("my file.txt"),
            negate(tag("old")),
        ],
    );
}

// --- Error-recovery contract --------------------------------------
//
// The lexer is infallible: it drops the current chunk-in-progress on
// any grammar error and resumes at the next whitespace boundary. The
// tests below pin down exactly what "resume" means for each error
// shape.

#[test]
fn unterminated_quote_drops_rest_of_input() {
    // Prior chunks are kept; the broken quote and everything after it
    // are discarded (there is no whitespace *inside* the broken quote
    // that could rescue the remainder).
    assert_eq!(lex_query(r#"foo "bar baz"#), vec![any("foo")]);
    assert_eq!(lex_query(r#""foo"#), Vec::<Chunk>::new());
}

#[test]
fn trailing_prefix_is_silently_dropped() {
    // A prefix with no payload (`!`, `/t`, `! /t` at EOF) yields no
    // chunk but doesn't affect chunks already parsed.
    assert_eq!(lex_query("foo !"), vec![any("foo")]);
    assert_eq!(lex_query("foo /t"), vec![any("foo")]);
    assert_eq!(lex_query("foo ! /t"), vec![any("foo")]);
    // Just the bad prefix on its own is an empty result, not an error.
    assert_eq!(lex_query("!"), Vec::<Chunk>::new());
    assert_eq!(lex_query("/t"), Vec::<Chunk>::new());
}

#[test]
fn conflicting_kind_prefixes_drop_that_chunk_only() {
    // `/t /n` conflicts — that chunk-in-progress is discarded at the
    // conflict point, so lexing resumes with `foo bar` intact.
    assert_eq!(lex_query("/t /n foo bar"), vec![any("foo"), any("bar")],);
}

#[test]
fn duplicate_negation_drops_that_chunk_only() {
    // `! !` is a duplicate — drop it, keep everything else.
    assert_eq!(
        lex_query("first ! ! second third"),
        vec![any("first"), any("second"), any("third")],
    );
}

#[test]
fn errors_between_valid_chunks_do_not_bleed() {
    // Interleave several error shapes with valid chunks to prove each
    // recovery is local.
    let got = lex_query(r#"a /t /n b ! ! c "unterminated"#);
    assert_eq!(got, vec![any("a"), any("b"), any("c")]);
}

/// What stands around a query does not matter.
#[test]
fn surroundings_change_nothing() {
    let queries = ["", "foo", "! /t work", "/t /n foo", "\"open", "a \"b c\"", "! !", "\"x\\"];
    for query in queries {
        let chunks = lex_query(query);
        for space in [" ", "\t\n", "\u{2003} "] {
            assert_eq!(lex_query(&format!("{space}{query}")), chunks);
            assert_eq!(lex_query(&format!("{query}{space}")), chunks);
            for prefix in ["!", "/t", "/n", "/p"] {
                assert_eq!(lex_query(&format!("{query}{space}{prefix}")), chunks);
            }
        }
    }
}

/// One step reads the first chunk, and the rest carries the others.
#[test]
fn each_step_leaves_the_rest() {
    let text = "! /t work \"b c\" ! ! d";
    let chars: Vec<char> = text.chars().collect();
    let (first, rest) = lex_one_chunk(&chars, 0);
    assert_eq!(first, Some(negate(tag("work"))));
    let remaining: String = chars[rest..].iter().collect();
    assert_eq!(remaining, " \"b c\" ! ! d");
    assert_eq!(lex_query(&remaining), vec![any("b c"), any("d")]);
    let (discarded, rest) = lex_one_chunk(&chars, 16);
    assert_eq!(discarded, None);
    assert_eq!(chars[rest..].iter().collect::<String>(), " d");
}
