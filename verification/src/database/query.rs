//! Queries: which files and tags satisfy every chunk of a search text.

use vstd::prelude::*;

pub mod laws;

use super::hierarchy::{
    file_carries, file_list, lists_files, lists_tags, tag_list, walk_finds,
};
use super::short_ids::{known_tags, normalised, stands_for};
use super::{DatabaseError, DatabaseView, FileDatabase, SubtagRule};
use crate::chunk::{chunk_views, chunks_of, lex_query, Chunk, ChunkKind, ChunkView};
use crate::ids::{FileId, TagId};
use crate::table::{has_key, Key, Table};
use crate::text::{contains_text, has_text, lowercased, to_lowercase};

verus! {

/// One condition of a query, its tag references resolved.
#[derive(Debug, Clone, PartialEq, Eq)]
pub enum QueryTerm {
    /// One of the tags.
    HasTag(Vec<TagId>),
    /// None of the tags.
    NotTag(Vec<TagId>),
    /// The text in the logical path, or in the name of a tag.
    LogicalContains(String),
    /// Not the text in the logical path, or in the name of a tag.
    NotLogicalContains(String),
    /// The text or one of the tags.
    AnyMatch(String, Vec<TagId>),
    /// Neither the text nor one of the tags.
    NotAnyMatch(String, Vec<TagId>),
}

/// Whether a token names a tag: it is the tag's name, or digits that stand for the
/// tag alone.
pub open spec fn token_names(db: DatabaseView, token: Seq<char>, tag_id: TagId) -> bool {
    &&& db.tags.contains_key(tag_id)
    &&& {
        ||| db.tags[tag_id].name == token
        ||| normalised(token) matches Some(digits) && stands_for(
            known_tags(db),
            digits,
            tag_id.value,
        )
    }
}

/// Whether `name` holds `text`, both taken in lower case.
pub open spec fn holds_text(name: Seq<char>, text: Seq<char>) -> bool {
    contains_text(lowercased(name), lowercased(text))
}

/// Whether a file carries one of the tags.
pub open spec fn file_has_one(
    db: DatabaseView,
    rule: SubtagRule,
    tags: Seq<TagId>,
    file_id: FileId,
) -> bool {
    exists|t: TagId| #[trigger] tags.contains(t) && file_carries(db, rule, file_id, t)
}

/// Whether a tag is a subtag of one of the tags.
pub open spec fn tag_has_one(
    db: DatabaseView,
    rule: SubtagRule,
    tags: Seq<TagId>,
    tag_id: TagId,
) -> bool {
    exists|t: TagId| #[trigger] tags.contains(t) && walk_finds(db, true, rule, tag_id, t)
}

/// Whether a term holds, given whether the text and the tags match.
pub open spec fn term_holds(
    term: QueryTerm,
    text: spec_fn(Seq<char>) -> bool,
    tags: spec_fn(Seq<TagId>) -> bool,
) -> bool {
    match term {
        QueryTerm::HasTag(list) => tags(list@),
        QueryTerm::NotTag(list) => !tags(list@),
        QueryTerm::LogicalContains(s) => text(s@),
        QueryTerm::NotLogicalContains(s) => !text(s@),
        QueryTerm::AnyMatch(s, list) => text(s@) || tags(list@),
        QueryTerm::NotAnyMatch(s, list) => !(text(s@) || tags(list@)),
    }
}

/// Whether a file satisfies a term.
pub open spec fn term_selects_file(
    db: DatabaseView,
    rule: SubtagRule,
    term: QueryTerm,
    file_id: FileId,
) -> bool {
    term_holds(
        term,
        |s: Seq<char>| holds_text(db.files[file_id], s),
        |tags: Seq<TagId>| file_has_one(db, rule, tags, file_id),
    )
}

/// Whether a tag satisfies a term.
pub open spec fn term_selects_tag(
    db: DatabaseView,
    rule: SubtagRule,
    term: QueryTerm,
    tag_id: TagId,
) -> bool {
    term_holds(
        term,
        |s: Seq<char>| holds_text(db.tags[tag_id].name, s),
        |tags: Seq<TagId>| tag_has_one(db, rule, tags, tag_id),
    )
}

/// Whether a known file satisfies every term.
pub open spec fn terms_select_file(
    db: DatabaseView,
    rule: SubtagRule,
    terms: Seq<QueryTerm>,
    file_id: FileId,
) -> bool {
    &&& db.files.contains_key(file_id)
    &&& forall|i: int|
        0 <= i < terms.len() ==> term_selects_file(db, rule, #[trigger] terms[i], file_id)
}

/// Whether a known tag satisfies every term.
pub open spec fn terms_select_tag(
    db: DatabaseView,
    rule: SubtagRule,
    terms: Seq<QueryTerm>,
    tag_id: TagId,
) -> bool {
    &&& db.tags.contains_key(tag_id)
    &&& forall|i: int|
        0 <= i < terms.len() ==> term_selects_tag(db, rule, #[trigger] terms[i], tag_id)
}

/// Whether a file carries a tag that the token names.
pub open spec fn token_on_file(
    db: DatabaseView,
    rule: SubtagRule,
    token: Seq<char>,
    file_id: FileId,
) -> bool {
    exists|t: TagId| #[trigger] token_names(db, token, t) && file_carries(db, rule, file_id, t)
}

/// Whether a tag is a subtag of one that the token names.
pub open spec fn token_on_tag(
    db: DatabaseView,
    rule: SubtagRule,
    token: Seq<char>,
    tag_id: TagId,
) -> bool {
    exists|t: TagId| #[trigger]
        token_names(db, token, t) && walk_finds(db, true, rule, tag_id, t)
}

/// What a chunk says of something, given whether its text and its tag match. A chunk
/// on physical paths says nothing.
pub open spec fn chunk_holds(chunk: ChunkView, text: bool, tag: bool) -> bool {
    match chunk.kind {
        ChunkKind::Physical => true,
        ChunkKind::Tag => tag != chunk.negated,
        ChunkKind::Logical => text != chunk.negated,
        ChunkKind::Any => (text || tag) != chunk.negated,
    }
}

/// Whether a file satisfies a chunk.
pub open spec fn chunk_selects_file(
    db: DatabaseView,
    rule: SubtagRule,
    chunk: ChunkView,
    file_id: FileId,
) -> bool {
    chunk_holds(
        chunk,
        holds_text(db.files[file_id], chunk.text),
        token_on_file(db, rule, chunk.text, file_id),
    )
}

/// Whether a tag satisfies a chunk.
pub open spec fn chunk_selects_tag(
    db: DatabaseView,
    rule: SubtagRule,
    chunk: ChunkView,
    tag_id: TagId,
) -> bool {
    chunk_holds(
        chunk,
        holds_text(db.tags[tag_id].name, chunk.text),
        token_on_tag(db, rule, chunk.text, tag_id),
    )
}

/// Whether a query selects a file: it is known and satisfies every chunk.
pub open spec fn query_selects_file(
    db: DatabaseView,
    rule: SubtagRule,
    query: Seq<char>,
    file_id: FileId,
) -> bool {
    &&& db.files.contains_key(file_id)
    &&& forall|i: int|
        0 <= i < chunks_of(query).len() ==> chunk_selects_file(
            db,
            rule,
            #[trigger] chunks_of(query)[i],
            file_id,
        )
}

/// Whether a query selects a tag: it is known and satisfies every chunk.
pub open spec fn query_selects_tag(
    db: DatabaseView,
    rule: SubtagRule,
    query: Seq<char>,
    tag_id: TagId,
) -> bool {
    &&& db.tags.contains_key(tag_id)
    &&& forall|i: int|
        0 <= i < chunks_of(query).len() ==> chunk_selects_tag(
            db,
            rule,
            #[trigger] chunks_of(query)[i],
            tag_id,
        )
}

/// Whether terms select what a query selects, whatever the rule on subtags.
pub open spec fn same_selection(
    db: DatabaseView,
    terms: Seq<QueryTerm>,
    query: Seq<char>,
) -> bool {
    &&& forall|rule: SubtagRule, f: FileId| #[trigger]
        query_selects_file(db, rule, query, f) <==> terms_select_file(db, rule, terms, f)
    &&& forall|rule: SubtagRule, t: TagId| #[trigger]
        query_selects_tag(db, rule, query, t) <==> terms_select_tag(db, rule, terms, t)
}

/// Whether a list holds the tags that a token names.
pub open spec fn resolves(db: DatabaseView, token: Seq<char>, list: Seq<TagId>) -> bool {
    lists_tags(list, |t: TagId| token_names(db, token, t))
}

/// Whether a term says what a chunk says.
pub open spec fn is_term_of(db: DatabaseView, term: QueryTerm, chunk: ChunkView) -> bool {
    match (chunk.kind, chunk.negated) {
        (ChunkKind::Tag, false) => term matches QueryTerm::HasTag(list) && resolves(
            db,
            chunk.text,
            list@,
        ),
        (ChunkKind::Tag, true) => term matches QueryTerm::NotTag(list) && resolves(
            db,
            chunk.text,
            list@,
        ),
        (ChunkKind::Logical, false) => term matches QueryTerm::LogicalContains(s) && s@
            == chunk.text,
        (ChunkKind::Logical, true) => term matches QueryTerm::NotLogicalContains(s) && s@
            == chunk.text,
        (ChunkKind::Any, false) => term matches QueryTerm::AnyMatch(s, list) && s@ == chunk.text
            && resolves(db, chunk.text, list@),
        (ChunkKind::Any, true) => term matches QueryTerm::NotAnyMatch(s, list) && s@ == chunk.text
            && resolves(db, chunk.text, list@),
        (ChunkKind::Physical, _) => false,
    }
}

/// Whether terms say, one for one, what the chunks say; those on physical paths are
/// dropped.
pub open spec fn are_terms_of(
    db: DatabaseView,
    terms: Seq<QueryTerm>,
    chunks: Seq<ChunkView>,
) -> bool
    decreases chunks.len(),
{
    if chunks.len() == 0 {
        terms.len() == 0
    } else if chunks.last().kind == ChunkKind::Physical {
        are_terms_of(db, terms, chunks.drop_last())
    } else {
        &&& terms.len() > 0
        &&& is_term_of(db, terms.last(), chunks.last())
        &&& are_terms_of(db, terms.drop_last(), chunks.drop_last())
    }
}

proof fn lemma_term_selects(
    db: DatabaseView,
    rule: SubtagRule,
    term: QueryTerm,
    chunk: ChunkView,
    file_id: FileId,
    tag_id: TagId,
)
    requires
        is_term_of(db, term, chunk),
    ensures
        term_selects_file(db, rule, term, file_id) == chunk_selects_file(db, rule, chunk, file_id),
        term_selects_tag(db, rule, term, tag_id) == chunk_selects_tag(db, rule, chunk, tag_id),
{
    assert forall|list: Seq<TagId>| resolves(db, chunk.text, list) implies (file_has_one(
        db,
        rule,
        list,
        file_id,
    ) <==> token_on_file(db, rule, chunk.text, file_id)) && (tag_has_one(db, rule, list, tag_id)
        <==> token_on_tag(db, rule, chunk.text, tag_id)) by {
        assert forall|t: TagId| list.contains(t) <==> #[trigger] token_names(
            db,
            chunk.text,
            t,
        ) by {}
        if token_on_file(db, rule, chunk.text, file_id) {
            let t = choose|t: TagId| #[trigger]
                token_names(db, chunk.text, t) && file_carries(db, rule, file_id, t);
            assert(list.contains(t));
        }
        if token_on_tag(db, rule, chunk.text, tag_id) {
            let t = choose|t: TagId| #[trigger]
                token_names(db, chunk.text, t) && walk_finds(db, true, rule, tag_id, t);
            assert(list.contains(t));
        }
        if file_has_one(db, rule, list, file_id) {
            let t = choose|t: TagId| #[trigger]
                list.contains(t) && file_carries(db, rule, file_id, t);
            assert(token_names(db, chunk.text, t));
        }
        if tag_has_one(db, rule, list, tag_id) {
            let t = choose|t: TagId| #[trigger]
                list.contains(t) && walk_finds(db, true, rule, tag_id, t);
            assert(token_names(db, chunk.text, t));
        }
    }
}

proof fn lemma_terms_select(
    db: DatabaseView,
    rule: SubtagRule,
    terms: Seq<QueryTerm>,
    chunks: Seq<ChunkView>,
    file_id: FileId,
    tag_id: TagId,
)
    requires
        are_terms_of(db, terms, chunks),
    ensures
        (forall|i: int|
            0 <= i < terms.len() ==> term_selects_file(db, rule, #[trigger] terms[i], file_id))
            <==> (forall|i: int|
            0 <= i < chunks.len() ==> chunk_selects_file(db, rule, #[trigger] chunks[i], file_id)),
        (forall|i: int|
            0 <= i < terms.len() ==> term_selects_tag(db, rule, #[trigger] terms[i], tag_id))
            <==> (forall|i: int|
            0 <= i < chunks.len() ==> chunk_selects_tag(db, rule, #[trigger] chunks[i], tag_id)),
    decreases chunks.len(),
{
    if chunks.len() > 0 {
        let last = chunks.last();
        let init = chunks.drop_last();
        assert(chunks[chunks.len() - 1] == last);
        assert forall|i: int| 0 <= i < init.len() implies #[trigger] chunks[i] == init[i] by {}
        if last.kind == ChunkKind::Physical {
            lemma_terms_select(db, rule, terms, init, file_id, tag_id);
            assert forall|i: int| 0 <= i < init.len() implies #[trigger] init[i] == chunks[i] by {}
        } else {
            let fewer = terms.drop_last();
            lemma_terms_select(db, rule, fewer, init, file_id, tag_id);
            lemma_term_selects(db, rule, terms.last(), last, file_id, tag_id);
            assert(terms[terms.len() - 1] == terms.last());
            assert forall|i: int| 0 <= i < fewer.len() implies #[trigger] terms[i] == fewer[i] by {}
            assert forall|i: int| 0 <= i < fewer.len() implies #[trigger] fewer[i] == terms[i] by {}
            assert forall|i: int| 0 <= i < init.len() implies #[trigger] init[i] == chunks[i] by {}
        }
    }
}

/// Whether two lists of tags have one in common.
fn share_tag(a: &Vec<TagId>, b: &Vec<TagId>) -> (r: bool)
    ensures
        r == exists|t: TagId| #[trigger] a@.contains(t) && b@.contains(t),
{
    let mut i: usize = 0;
    while i < a.len()
        invariant
            i <= a.len(),
            forall|j: int| 0 <= j < i ==> !b@.contains(#[trigger] a@[j]),
        decreases a.len() - i,
    {
        if contains_tag(b, a[i]) {
            assert(a@.contains(a@[i as int]));
            return true;
        }
        i = i + 1;
    }
    proof {
        assert forall|t: TagId| #[trigger] a@.contains(t) implies !b@.contains(t) by {
            let j = choose|j: int| 0 <= j < a@.len() && a@[j] == t;
            assert(!b@.contains(a@[j]));
        }
    }
    false
}

/// Whether a list of tags holds a tag.
pub fn contains_tag(list: &Vec<TagId>, tag_id: TagId) -> (r: bool)
    ensures
        r == list@.contains(tag_id),
{
    let mut i: usize = 0;
    while i < list.len()
        invariant
            i <= list.len(),
            forall|j: int| 0 <= j < i ==> #[trigger] list@[j] != tag_id,
        decreases list.len() - i,
    {
        if list[i] == tag_id {
            assert(list@[i as int] == tag_id);
            return true;
        }
        i = i + 1;
    }
    false
}

/// Decides a term for something with `name`, in lower case, and the tags `carried`.
fn term_matches(term: &QueryTerm, name: &str, carried: &Vec<TagId>) -> (r: bool)
    ensures
        r == term_holds(
            *term,
            |s: Seq<char>| contains_text(name@, lowercased(s)),
            |tags: Seq<TagId>| exists|t: TagId| #[trigger] tags.contains(t) && carried@.contains(t),
        ),
{
    match term {
        QueryTerm::HasTag(list) => share_tag(list, carried),
        QueryTerm::NotTag(list) => !share_tag(list, carried),
        QueryTerm::LogicalContains(s) => has_text(name, to_lowercase(s.as_str()).as_str()),
        QueryTerm::NotLogicalContains(s) => !has_text(name, to_lowercase(s.as_str()).as_str()),
        QueryTerm::AnyMatch(s, list) => has_text(name, to_lowercase(s.as_str()).as_str())
            || share_tag(list, carried),
        QueryTerm::NotAnyMatch(s, list) => !(has_text(name, to_lowercase(s.as_str()).as_str())
            || share_tag(list, carried)),
    }
}

impl FileDatabase {
    /// The tags that a token names, in ascending order.
    pub fn tag_ids_matching_token(&self, token: &str) -> (r: Result<Vec<TagId>, DatabaseError>)
        ensures
            r matches Ok(list) && resolves(self@, token@, list@),
    {
        let wanted = token.to_owned();
        let mut found: Table<TagId, ()> = Table::new();
        let n: usize = self.tags.len();
        let ghost rows = self.tags.rows();
        let mut i: usize = 0;
        while i < n
            invariant
                i <= n,
                n == rows.len(),
                rows == self.tags.rows(),
                self.tags.well_formed(),
                wanted@ == token@,
                forall|t: TagId| #[trigger]
                    found@.contains_key(t) ==> self@.tags.contains_key(t) && self@.tags[t].name
                        == token@,
                forall|j: int|
                    0 <= j < i && (#[trigger] rows[j]).1.name@ == token@ ==> found@.contains_key(
                        rows[j].0,
                    ),
            decreases n - i,
        {
            if self.tags.value_at(i).name == wanted {
                found.insert(self.tags.key_at(i), ());
            }
            i = i + 1;
        }
        proof {
            assert forall|t: TagId| #[trigger] found@.contains_key(t) <==> self@.tags.contains_key(
                t,
            ) && self@.tags[t].name == token@ by {
                if self@.tags.contains_key(t) {
                    assert(has_key(rows, t));
                    let k = choose|k: int| 0 <= k < rows.len() && (#[trigger] rows[k]).0 == t;
                }
            }
        }
        let ghost named = found@;
        match self.resolve_tag_id_prefix(token) {
            Ok(tag_id) => {
                found.insert(tag_id, ());
                assert(known_tags(self@)(tag_id.value));
            },
            Err(_) => {},
        }
        proof {
            assert forall|t: TagId| #[trigger] found@.contains_key(t) <==> token_names(
                self@,
                token@,
                t,
            ) by {
                assert(named.contains_key(t) <==> self@.tags.contains_key(t) && self@.tags[t].name
                    == token@);
                if token_names(self@, token@, t) && !named.contains_key(t) {
                    assert(known_tags(self@)(t.value));
                }
            }
        }
        Ok(tag_list(&found))
    }

    /// The known files that satisfy every term, in ascending order.
    pub fn file_ids_for_query(&self, terms: &Vec<QueryTerm>, subtag_rule: SubtagRule) -> (r: Result<
        Vec<FileId>,
        DatabaseError,
    >)
        ensures
            r matches Ok(list) && lists_files(
                list@,
                |f: FileId| terms_select_file(self@, subtag_rule, terms@, f),
            ),
    {
        let mut found: Table<FileId, ()> = Table::new();
        let n: usize = self.files.len();
        let ghost rows = self.files.rows();
        let mut i: usize = 0;
        while i < n
            invariant
                i <= n,
                n == rows.len(),
                rows == self.files.rows(),
                self.files.well_formed(),
                forall|f: FileId| #[trigger]
                    found@.contains_key(f) ==> terms_select_file(self@, subtag_rule, terms@, f),
                forall|j: int|
                    0 <= j < i && terms_select_file(
                        self@,
                        subtag_rule,
                        terms@,
                        (#[trigger] rows[j]).0,
                    ) ==> found@.contains_key(rows[j].0),
            decreases n - i,
        {
            let file_id = self.files.key_at(i);
            let name = to_lowercase(self.files.value_at(i).as_str());
            let carried = match self.tag_ids_for_file(file_id, subtag_rule) {
                Ok(list) => list,
                Err(error) => {
                    return Err(error);
                },
            };
            let mut all = true;
            let mut j: usize = 0;
            while j < terms.len()
                invariant
                    j <= terms.len(),
                    name@ == lowercased(self@.files[file_id]),
                    lists_tags(
                        carried@,
                        |t: TagId| file_carries(self@, subtag_rule, file_id, t),
                    ),
                    all <==> forall|k: int|
                        0 <= k < j ==> term_selects_file(
                            self@,
                            subtag_rule,
                            #[trigger] terms@[k],
                            file_id,
                        ),
                decreases terms.len() - j,
            {
                let holds = term_matches(&terms[j], name.as_str(), &carried);
                proof {
                    assert forall|list: Seq<TagId>|
                        (exists|t: TagId| #[trigger] list.contains(t) && carried@.contains(t))
                            <==> #[trigger] file_has_one(self@, subtag_rule, list, file_id) by {
                        if exists|t: TagId| #[trigger] list.contains(t) && carried@.contains(t) {
                            let t = choose|t: TagId| #[trigger]
                                list.contains(t) && carried@.contains(t);
                            assert(file_carries(self@, subtag_rule, file_id, t));
                        }
                        if file_has_one(self@, subtag_rule, list, file_id) {
                            let t = choose|t: TagId| #[trigger]
                                list.contains(t) && file_carries(self@, subtag_rule, file_id, t);
                            assert(carried@.contains(t));
                        }
                    }
                    assert(holds == term_selects_file(
                        self@,
                        subtag_rule,
                        terms@[j as int],
                        file_id,
                    ));
                }
                all = all && holds;
                j = j + 1;
            }
            if all {
                found.insert(file_id, ());
            }
            i = i + 1;
        }
        proof {
            assert forall|f: FileId| #[trigger] found@.contains_key(f) <==> terms_select_file(
                self@,
                subtag_rule,
                terms@,
                f,
            ) by {
                if terms_select_file(self@, subtag_rule, terms@, f) {
                    assert(has_key(rows, f));
                    let k = choose|k: int| 0 <= k < rows.len() && (#[trigger] rows[k]).0 == f;
                    assert(terms_select_file(self@, subtag_rule, terms@, rows[k].0));
                }
            }
        }
        Ok(file_list(&found))
    }

    /// The known tags that satisfy every term, in ascending order.
    pub fn tag_ids_for_query(&self, terms: &Vec<QueryTerm>, subtag_rule: SubtagRule) -> (r: Result<
        Vec<TagId>,
        DatabaseError,
    >)
        ensures
            r matches Ok(list) && lists_tags(
                list@,
                |t: TagId| terms_select_tag(self@, subtag_rule, terms@, t),
            ),
    {
        let mut found: Table<TagId, ()> = Table::new();
        let n: usize = self.tags.len();
        let ghost rows = self.tags.rows();
        let mut i: usize = 0;
        while i < n
            invariant
                i <= n,
                n == rows.len(),
                rows == self.tags.rows(),
                self.tags.well_formed(),
                forall|f: TagId| #[trigger]
                    found@.contains_key(f) ==> terms_select_tag(self@, subtag_rule, terms@, f),
                forall|j: int|
                    0 <= j < i && terms_select_tag(
                        self@,
                        subtag_rule,
                        terms@,
                        (#[trigger] rows[j]).0,
                    ) ==> found@.contains_key(rows[j].0),
            decreases n - i,
        {
            let tag_id = self.tags.key_at(i);
            let name = to_lowercase(self.tags.value_at(i).name.as_str());
            let above = match self.tag_ids_for_subtag(tag_id, subtag_rule) {
                Ok(list) => list,
                Err(error) => {
                    return Err(error);
                },
            };
            let mut all = true;
            let mut j: usize = 0;
            while j < terms.len()
                invariant
                    j <= terms.len(),
                    name@ == lowercased(self@.tags[tag_id].name),
                    lists_tags(
                        above@,
                        |t: TagId| walk_finds(self@, true, subtag_rule, tag_id, t),
                    ),
                    all <==> forall|k: int|
                        0 <= k < j ==> term_selects_tag(
                            self@,
                            subtag_rule,
                            #[trigger] terms@[k],
                            tag_id,
                        ),
                decreases terms.len() - j,
            {
                let holds = term_matches(&terms[j], name.as_str(), &above);
                proof {
                    assert forall|list: Seq<TagId>|
                        (exists|t: TagId| #[trigger] list.contains(t) && above@.contains(t))
                            <==> #[trigger] tag_has_one(self@, subtag_rule, list, tag_id) by {
                        if exists|t: TagId| #[trigger] list.contains(t) && above@.contains(t) {
                            let t = choose|t: TagId| #[trigger]
                                list.contains(t) && above@.contains(t);
                            assert(walk_finds(self@, true, subtag_rule, tag_id, t));
                        }
                        if tag_has_one(self@, subtag_rule, list, tag_id) {
                            let t = choose|t: TagId| #[trigger]
                                list.contains(t) && walk_finds(
                                    self@,
                                    true,
                                    subtag_rule,
                                    tag_id,
                                    t,
                                );
                            assert(above@.contains(t));
                        }
                    }
                    assert(holds == term_selects_tag(
                        self@,
                        subtag_rule,
                        terms@[j as int],
                        tag_id,
                    ));
                }
                all = all && holds;
                j = j + 1;
            }
            if all {
                found.insert(tag_id, ());
            }
            i = i + 1;
        }
        proof {
            assert forall|f: TagId| #[trigger] found@.contains_key(f) <==> terms_select_tag(
                self@,
                subtag_rule,
                terms@,
                f,
            ) by {
                if terms_select_tag(self@, subtag_rule, terms@, f) {
                    assert(has_key(rows, f));
                    let k = choose|k: int| 0 <= k < rows.len() && (#[trigger] rows[k]).0 == f;
                    assert(terms_select_tag(self@, subtag_rule, terms@, rows[k].0));
                }
            }
        }
        Ok(tag_list(&found))
    }

    /// Resolves the chunks of a query into terms.
    pub fn parse_query(&self, query: &str) -> (r: Result<Vec<QueryTerm>, DatabaseError>)
        ensures
            r matches Ok(terms) && are_terms_of(self@, terms@, chunks_of(query@)),
            r matches Ok(terms) && same_selection(self@, terms@, query@),
    {
        let chunks = lex_query(query);
        let ghost views = chunks_of(query@);
        let mut terms: Vec<QueryTerm> = Vec::new();
        let mut i: usize = 0;
        assert(views.take(0) =~= Seq::<ChunkView>::empty());
        while i < chunks.len()
            invariant
                i <= chunks.len(),
                views == chunk_views(chunks@),
                are_terms_of(self@, terms@, views.take(i as int)),
            decreases chunks.len() - i,
        {
            let chunk = &chunks[i];
            let ghost before = terms@;
            proof {
                assert(views[i as int] == chunk@);
                assert(views.take(i + 1).drop_last() =~= views.take(i as int));
                assert(views.take(i + 1).last() == chunk@);
            }
            if chunk.kind != ChunkKind::Physical {
                match self.term_for(chunk) {
                    Ok(term) => {
                        terms.push(term);
                        assert(terms@.drop_last() =~= before);
                    },
                    Err(error) => {
                        return Err(error);
                    },
                }
            }
            i = i + 1;
        }
        proof {
            assert(views.take(i as int) =~= views);
            let any_tag = TagId { value: 0 };
            let any_file = FileId { value: 0 };
            assert forall|rule: SubtagRule, f: FileId| #[trigger] query_selects_file(
                self@,
                rule,
                query@,
                f,
            ) <==> terms_select_file(self@, rule, terms@, f) by {
                lemma_terms_select(self@, rule, terms@, views, f, any_tag);
            }
            assert forall|rule: SubtagRule, t: TagId| #[trigger] query_selects_tag(
                self@,
                rule,
                query@,
                t,
            ) <==> terms_select_tag(self@, rule, terms@, t) by {
                lemma_terms_select(self@, rule, terms@, views, any_file, t);
            }
        }
        Ok(terms)
    }

    /// The term that says what a chunk says.
    fn term_for(&self, chunk: &Chunk) -> (r: Result<QueryTerm, DatabaseError>)
        requires
            chunk.kind != ChunkKind::Physical,
        ensures
            r matches Ok(term) && is_term_of(self@, term, chunk@),
    {
        let text = chunk.text.clone();
        if chunk.kind == ChunkKind::Logical {
            return if chunk.negated {
                Ok(QueryTerm::NotLogicalContains(text))
            } else {
                Ok(QueryTerm::LogicalContains(text))
            };
        }
        let tags = match self.tag_ids_matching_token(chunk.text.as_str()) {
            Ok(tags) => tags,
            Err(error) => {
                return Err(error);
            },
        };
        match (chunk.kind, chunk.negated) {
            (ChunkKind::Tag, false) => Ok(QueryTerm::HasTag(tags)),
            (ChunkKind::Tag, true) => Ok(QueryTerm::NotTag(tags)),
            (_, false) => Ok(QueryTerm::AnyMatch(text, tags)),
            (_, true) => Ok(QueryTerm::NotAnyMatch(text, tags)),
        }
    }
}

} // verus!
