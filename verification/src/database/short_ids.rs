//! Short identifiers: the fewest leading digits that tell an identifier apart, and
//! the way back from a prefix to the identifier.

use vstd::prelude::*;
use super::{DatabaseError, DatabaseView, FileDatabase};
use crate::ids::{
    common_prefix, common_prefix_length, id_text, lemma_between_shares_leading,
    lemma_common_prefix, lemma_hex_digits_len, lemma_id_text_injective, same_leading, text_of_id,
    FileId, TagId, ID_DIGITS,
};
use crate::state::FileInfo;
use crate::table::{has_key, Key};
use crate::text::{begins_with, chars_of, string_of};
use crate::versions::version_views;

verus! {

/// Outcome of looking a prefix up among identifiers.
#[derive(Debug, Clone, PartialEq, Eq)]
pub enum PrefixResolution {
    /// Exactly one identifier begins with the prefix: its text.
    Unique(String),
    /// No identifier begins with the prefix.
    NotFound,
    /// More than one identifier begins with the prefix.
    Ambiguous,
}

/// Whether `c` is an ASCII hexadecimal digit.
pub open spec fn hex_char(c: char) -> bool {
    ||| '0' <= c <= '9'
    ||| 'a' <= c <= 'f'
    ||| 'A' <= c <= 'F'
}

/// The lower-case form of a hexadecimal digit.
pub open spec fn lower_hex(c: char) -> char {
    if c == 'A' {
        'a'
    } else if c == 'B' {
        'b'
    } else if c == 'C' {
        'c'
    } else if c == 'D' {
        'd'
    } else if c == 'E' {
        'e'
    } else if c == 'F' {
        'f'
    } else {
        c
    }
}

/// `s` without its hyphens.
pub open spec fn without_hyphens(s: Seq<char>) -> Seq<char>
    decreases s.len(),
{
    if s.len() == 0 {
        Seq::empty()
    } else if s.last() == '-' {
        without_hyphens(s.drop_last())
    } else {
        without_hyphens(s.drop_last()).push(s.last())
    }
}

/// The canonical form of an identifier or a prefix of one: without hyphens, in lower
/// case. `None` where nothing is left or something is no hexadecimal digit.
pub open spec fn normalised(s: Seq<char>) -> Option<Seq<char>> {
    let digits = without_hyphens(s);
    if digits.len() > 0 && forall|i: int| 0 <= i < digits.len() ==> hex_char(#[trigger] digits[i]) {
        Some(digits.map_values(|c: char| lower_hex(c)))
    } else {
        None
    }
}

/// Whether an identifier begins with a prefix.
pub open spec fn fits(id: u128, prefix: Seq<char>) -> bool {
    prefix.is_prefix_of(id_text(id))
}

/// Whether `n` is the least number of leading digits, at least one, that tells `id`
/// apart from all other known identifiers.
pub open spec fn shortest(known: spec_fn(u128) -> bool, id: u128, n: nat) -> bool {
    &&& 1 <= n <= ID_DIGITS
    &&& forall|other: u128|
        #![trigger known(other)]
        known(other) && other != id ==> !same_leading(id, other, n)
    &&& n == 1 || exists|other: u128|
        #![trigger known(other)]
        known(other) && other != id && same_leading(id, other, (n - 1) as nat)
}

/// The values of the known files' identifiers.
pub open spec fn known_files(db: DatabaseView) -> spec_fn(u128) -> bool {
    |v: u128| db.files.contains_key(FileId { value: v })
}

/// The values of the known tags' identifiers.
pub open spec fn known_tags(db: DatabaseView) -> spec_fn(u128) -> bool {
    |v: u128| db.tags.contains_key(TagId { value: v })
}

/// Whether a prefix stands for exactly one known identifier.
pub open spec fn stands_for(known: spec_fn(u128) -> bool, prefix: Seq<char>, id: u128) -> bool {
    &&& known(id)
    &&& fits(id, prefix)
    &&& forall|other: u128| #![trigger known(other)] known(other) && fits(other, prefix) ==> other
        == id
}

/// Whether a prefix fits no known identifier.
pub open spec fn stands_for_none(known: spec_fn(u128) -> bool, prefix: Seq<char>) -> bool {
    forall|other: u128| #![trigger known(other)] known(other) ==> !fits(other, prefix)
}

/// Whether a prefix fits more than one known identifier.
pub open spec fn stands_for_several(known: spec_fn(u128) -> bool, prefix: Seq<char>) -> bool {
    exists|a: u128, b: u128|
        #![trigger known(a), known(b)]
        known(a) && known(b) && a != b && fits(a, prefix) && fits(b, prefix)
}

/// Whether `info` is the row of a listed file, its short identifier taken among the
/// identifiers in `known`.
pub open spec fn is_file_row(
    db: DatabaseView,
    known: spec_fn(u128) -> bool,
    info: FileInfo,
) -> bool {
    &&& db.listed(info.file_id)
    &&& db.files[info.file_id] == info.logical_path@
    &&& db.history(info.file_id).last().content_hash == info.content_hash@
    &&& db.history(info.file_id).last().version_number == info.version_number
    &&& shortest(known, info.file_id.value, info.short_id_length as nat)
}

/// Whether `list` holds the rows of all listed files, in ascending order of their
/// identifiers, each short identifier taken among all known files.
pub open spec fn is_listing(db: DatabaseView, list: Seq<FileInfo>) -> bool {
    &&& forall|i: int, j: int|
        0 <= i < j < list.len() ==> (#[trigger] list[i]).file_id.value < (
        #[trigger] list[j]).file_id.value
    &&& forall|f: FileId| #[trigger]
        db.listed(f) <==> exists|i: int| 0 <= i < list.len() && (#[trigger] list[i]).file_id == f
    &&& forall|i: int|
        0 <= i < list.len() ==> is_file_row(db, known_files(db), #[trigger] list[i])
}

proof fn lemma_digits_are_lower_hex(value: nat, len: nat)
    ensures
        forall|i: int|
            0 <= i < len ==> hex_char(#[trigger] crate::ids::hex_digits(value, len)[i])
                && lower_hex(crate::ids::hex_digits(value, len)[i]) == crate::ids::hex_digits(
                value,
                len,
            )[i] && crate::ids::hex_digits(value, len)[i] != '-',
    decreases len,
{
    if len > 0 {
        lemma_hex_digits_len(value / 16, (len - 1) as nat);
        lemma_digits_are_lower_hex(value / 16, (len - 1) as nat);
        let all = crate::ids::hex_digits(value, len);
        let init = crate::ids::hex_digits(value / 16, (len - 1) as nat);
        assert forall|i: int| 0 <= i < len implies hex_char(#[trigger] all[i]) && lower_hex(all[i])
            == all[i] && all[i] != '-' by {
            if i < len - 1 {
                assert(all[i] == init[i]);
            }
        }
    }
}

proof fn lemma_no_hyphens(s: Seq<char>)
    requires
        forall|i: int| 0 <= i < s.len() ==> #[trigger] s[i] != '-',
    ensures
        without_hyphens(s) == s,
    decreases s.len(),
{
    if s.len() > 0 {
        assert forall|i: int| 0 <= i < s.drop_last().len() implies #[trigger] s.drop_last()[i]
            != '-' by {
            assert(s.drop_last()[i] == s[i]);
        }
        lemma_no_hyphens(s.drop_last());
        assert(s.drop_last().push(s.last()) =~= s);
    }
}

/// A short identifier leads back to what it was made from: the first `n` digits of a
/// known identifier, where `n` tells it apart, stand for that identifier alone.
pub proof fn law_short_id_resolves(known: spec_fn(u128) -> bool, id: u128, n: nat)
    requires
        known(id),
        shortest(known, id, n),
    ensures
        normalised(id_text(id).take(n as int)) == Some(id_text(id).take(n as int)),
        stands_for(known, id_text(id).take(n as int), id),
{
    let text = id_text(id);
    let short = text.take(n as int);
    lemma_hex_digits_len(id as nat, 32);
    lemma_digits_are_lower_hex(id as nat, 32);
    assert forall|i: int| 0 <= i < short.len() implies #[trigger] short[i] != '-' && hex_char(
        short[i],
    ) && lower_hex(short[i]) == short[i] by {
        assert(short[i] == text[i]);
    }
    lemma_no_hyphens(short);
    assert(short.map_values(|c: char| lower_hex(c)) =~= short);
    assert forall|other: u128|
        #![trigger known(other)]
        known(other) && fits(other, short) implies other == id by {
        if other != id {
            lemma_hex_digits_len(other as nat, 32);
            assert(id_text(other).take(n as int) =~= short) by {
                assert forall|i: int| 0 <= i < n implies id_text(other)[i] == short[i] by {
                    assert(id_text(other).subrange(0, short.len() as int)[i] == short[i]);
                }
            }
            assert(same_leading(id, other, n));
        }
    }
}

/// A listing can be typed back: the short identifier of each row stands for that row's
/// file.
pub proof fn law_listed_short_ids_resolve(db: DatabaseView, list: Seq<FileInfo>, i: int)
    requires
        is_listing(db, list),
        0 <= i < list.len(),
    ensures
        stands_for(
            known_files(db),
            id_text(list[i].file_id.value).take(list[i].short_id_length as int),
            list[i].file_id.value,
        ),
{
    let known = known_files(db);
    assert(is_file_row(db, known, list[i]));
    assert(FileId { value: list[i].file_id.value } == list[i].file_id);
    law_short_id_resolves(known, list[i].file_id.value, list[i].short_id_length as nat);
}

/// The whole text of a known identifier, with or without hyphens in between, stands
/// for that identifier.
pub proof fn law_full_id_resolves(known: spec_fn(u128) -> bool, id: u128, typed: Seq<char>)
    requires
        known(id),
        without_hyphens(typed) == id_text(id),
    ensures
        normalised(typed) == Some(id_text(id)),
        stands_for(known, id_text(id), id),
{
    let text = id_text(id);
    lemma_hex_digits_len(id as nat, 32);
    lemma_digits_are_lower_hex(id as nat, 32);
    assert(text.map_values(|c: char| lower_hex(c)) =~= text);
    assert forall|other: u128|
        #![trigger known(other)]
        known(other) && fits(other, text) implies other == id by {
        lemma_hex_digits_len(other as nat, 32);
        assert(id_text(other) =~= text) by {
            assert forall|i: int| 0 <= i < 32 implies id_text(other)[i] == text[i] by {
                assert(id_text(other).subrange(0, text.len() as int)[i] == text[i]);
            }
        }
        lemma_id_text_injective(other, id);
    }
}

fn is_hex_char(c: char) -> (r: bool)
    ensures
        r == hex_char(c),
{
    ('0' <= c && c <= '9') || ('a' <= c && c <= 'f') || ('A' <= c && c <= 'F')
}

fn to_lower_hex(c: char) -> (r: char)
    ensures
        r == lower_hex(c),
{
    match c {
        'A' => 'a',
        'B' => 'b',
        'C' => 'c',
        'D' => 'd',
        'E' => 'e',
        'F' => 'f',
        _ => c,
    }
}

/// The canonical form of a typed identifier or prefix, if it is one.
pub fn normalise_id_prefix(input: &str) -> (r: Option<String>)
    ensures
        match r {
            Some(text) => normalised(input@) == Some(text@),
            None => normalised(input@) is None,
        },
{
    let chars = chars_of(input);
    let mut out: Vec<char> = Vec::new();
    let mut hex = true;
    let mut i: usize = 0;
    let ghost digits = without_hyphens(input@);
    assert(chars@.take(0) =~= Seq::<char>::empty());
    while i < chars.len()
        invariant
            i <= chars.len(),
            chars@ == input@,
            out@ == without_hyphens(chars@.take(i as int)).map_values(|c: char| lower_hex(c)),
            hex <==> forall|j: int|
                0 <= j < without_hyphens(chars@.take(i as int)).len() ==> hex_char(
                    #[trigger] without_hyphens(chars@.take(i as int))[j],
                ),
        decreases chars.len() - i,
    {
        let c: char = chars[i];
        let ghost before = without_hyphens(chars@.take(i as int));
        let ghost after = without_hyphens(chars@.take(i + 1));
        proof {
            assert(chars@.take(i + 1).drop_last() =~= chars@.take(i as int));
            assert(chars@.take(i + 1).last() == c);
        }
        if c != '-' {
            let is_hex = is_hex_char(c);
            out.push(to_lower_hex(c));
            proof {
                assert(after == before.push(c));
                assert(out@ =~= after.map_values(|c: char| lower_hex(c)));
                if hex && is_hex {
                    assert forall|j: int| 0 <= j < after.len() implies hex_char(
                        #[trigger] after[j],
                    ) by {
                        if j < before.len() {
                            assert(after[j] == before[j]);
                        }
                    }
                }
                if !is_hex {
                    assert(!hex_char(after[before.len() as int]));
                }
                if !hex {
                    let j = choose|j: int| 0 <= j < before.len() && !hex_char(#[trigger] before[j]);
                    assert(after[j] == before[j]);
                }
            }
            hex = hex && is_hex;
        }
        i = i + 1;
    }
    assert(chars@.take(i as int) =~= input@);
    if out.len() == 0 || !hex {
        return None;
    }
    Some(string_of(&out))
}

/// Looks a prefix up among identifiers.
pub fn resolve_id_prefix(ids: &Vec<u128>, prefix: &str) -> (r: PrefixResolution)
    requires
        forall|i: int, j: int| 0 <= i < j < ids@.len() ==> ids@[i] < ids@[j],
    ensures
        match r {
            PrefixResolution::Unique(text) => exists|id: u128| #[trigger]
                id_text(id) == text@ && stands_for(|v: u128| ids@.contains(v), prefix@, id),
            PrefixResolution::NotFound => stands_for_none(|v: u128| ids@.contains(v), prefix@),
            PrefixResolution::Ambiguous => stands_for_several(
                |v: u128| ids@.contains(v),
                prefix@,
            ),
        },
{
    let ghost known = |v: u128| ids@.contains(v);
    let mut found: Option<usize> = None;
    let mut i: usize = 0;
    while i < ids.len()
        invariant
            i <= ids.len(),
            known == (|v: u128| ids@.contains(v)),
            forall|a: int, b: int| 0 <= a < b < ids@.len() ==> ids@[a] < ids@[b],
            match found {
                Some(k) => k < i && fits(ids@[k as int], prefix@) && forall|j: int|
                    0 <= j < i && j != k ==> !fits(#[trigger] ids@[j], prefix@),
                None => forall|j: int| 0 <= j < i ==> !fits(#[trigger] ids@[j], prefix@),
            },
        decreases ids.len() - i,
    {
        let text = text_of_id(ids[i]);
        if begins_with(text.as_str(), prefix) {
            if let Some(k) = found {
                proof {
                    let a = ids@[k as int];
                    let b = ids@[i as int];
                    assert(known(a) && known(b) && a != b);
                }
                return PrefixResolution::Ambiguous;
            }
            found = Some(i);
        }
        i = i + 1;
    }
    match found {
        Some(k) => {
            let id: u128 = ids[k];
            assert(stands_for(known, prefix@, id)) by {
                assert(known(id));
            }
            PrefixResolution::Unique(text_of_id(id))
        },
        None => PrefixResolution::NotFound,
    }
}

/// How many leading digits tell the identifier at `at` apart from the others. It is
/// enough to look at its two neighbours.
fn short_length(ids: &Vec<u128>, at: usize) -> (r: usize)
    requires
        at < ids.len(),
        forall|i: int, j: int| 0 <= i < j < ids@.len() ==> ids@[i] < ids@[j],
    ensures
        shortest(|v: u128| ids@.contains(v), ids@[at as int], r as nat),
{
    let ghost known = |v: u128| ids@.contains(v);
    let id: u128 = ids[at];
    let text = chars_of(text_of_id(id).as_str());
    let mut required: usize = 1;
    proof {
        lemma_hex_digits_len(id as nat, 32);
    }
    if at > 0 {
        let neighbour = chars_of(text_of_id(ids[at - 1]).as_str());
        let shared: usize = common_prefix_length(&text, &neighbour);
        proof {
            lemma_shared(id, ids@[at - 1]);
        }
        if shared + 1 > required {
            required = shared + 1;
        }
    }
    let ghost first = required;
    if at + 1 < ids.len() {
        let neighbour = chars_of(text_of_id(ids[at + 1]).as_str());
        let shared: usize = common_prefix_length(&text, &neighbour);
        proof {
            lemma_shared(id, ids@[at + 1]);
        }
        if shared + 1 > required {
            required = shared + 1;
        }
    }
    proof {
        assert forall|other: u128|
            #![trigger known(other)]
            known(other) && other != id implies !same_leading(id, other, required as nat) by {
            let k = choose|k: int| 0 <= k < ids@.len() && ids@[k] == other;
            if same_leading(id, other, required as nat) {
                if k < at {
                    let near = ids@[at - 1];
                    assert(other <= near) by {
                        if k < at - 1 {
                            assert(ids@[k] < ids@[at - 1]);
                        }
                    }
                    lemma_shared(id, near);
                    assert(same_leading(other, id, required as nat));
                    lemma_between_shares_leading(other, near, id, required as nat);
                    assert(same_leading(id, near, required as nat));
                } else {
                    let near = ids@[at + 1];
                    assert(near <= other) by {
                        if at + 1 < k {
                            assert(ids@[at + 1] < ids@[k]);
                        }
                    }
                    lemma_shared(id, near);
                    lemma_between_shares_leading(id, near, other, required as nat);
                }
            }
        }
        if required > 1 {
            let near = if required == first {
                ids@[at - 1]
            } else {
                ids@[at + 1]
            };
            lemma_shared(id, near);
            assert(known(near));
            assert(same_leading(id, near, (required - 1) as nat));
        }
    }
    required
}

/// What the common beginning of two distinct identifiers' texts says of them.
proof fn lemma_shared(a: u128, b: u128)
    requires
        a != b,
    ensures
        common_prefix(id_text(a), id_text(b)) < 32,
        forall|n: nat|
            n <= 32 ==> (#[trigger] same_leading(a, b, n) <==> n <= common_prefix(
                id_text(a),
                id_text(b),
            )),
{
    let x = id_text(a);
    let y = id_text(b);
    lemma_hex_digits_len(a as nat, 32);
    lemma_hex_digits_len(b as nat, 32);
    lemma_common_prefix(x, y);
    assert(x.take(32) =~= x);
    assert(y.take(32) =~= y);
    if common_prefix(x, y) >= 32 {
        lemma_id_text_injective(a, b);
    }
    assert forall|n: nat| n <= 32 implies (#[trigger] same_leading(a, b, n) <==> n
        <= common_prefix(x, y)) by {
        let m = n as int;
        assert(m <= common_prefix(x, y) <==> x.take(m) == y.take(m));
    }
}

impl FileDatabase {
    /// The values of the known files' identifiers, in ascending order.
    fn file_values(&self) -> (r: Vec<u128>)
        ensures
            r@.len() == self.files.rows().len(),
            forall|i: int| 0 <= i < r@.len() ==> #[trigger] r@[i] == self.files.rows()[i].0.value,
            forall|i: int, j: int| 0 <= i < j < r@.len() ==> r@[i] < r@[j],
            forall|v: u128| #[trigger] r@.contains(v) <==> known_files(self@)(v),
    {
        let n: usize = self.files.len();
        let ghost rows = self.files.rows();
        let mut out: Vec<u128> = Vec::new();
        let mut i: usize = 0;
        while i < n
            invariant
                i <= n,
                n == rows.len(),
                rows == self.files.rows(),
                self.files.well_formed(),
                out@.len() == i,
                forall|j: int| 0 <= j < i ==> #[trigger] out@[j] == rows[j].0.value,
            decreases n - i,
        {
            out.push(self.files.key_at(i).value);
            i = i + 1;
        }
        proof {
            assert forall|a: int, b: int| 0 <= a < b < out@.len() implies out@[a] < out@[b] by {
                assert(rows[a].0.precedes(rows[b].0));
            }
            assert forall|v: u128| #[trigger] out@.contains(v) <==> known_files(self@)(v) by {
                if out@.contains(v) {
                    let k = choose|k: int| 0 <= k < out@.len() && out@[k] == v;
                    assert(rows[k].0 == (FileId { value: v }));
                }
                if known_files(self@)(v) {
                    let f = FileId { value: v };
                    assert(has_key(rows, f));
                    let k = choose|k: int| 0 <= k < rows.len() && (#[trigger] rows[k]).0 == f;
                    assert(out@[k] == v);
                }
            }
        }
        out
    }

    /// The values of the known tags' identifiers, in ascending order.
    fn tag_values(&self) -> (r: Vec<u128>)
        ensures
            r@.len() == self.tags.rows().len(),
            forall|i: int| 0 <= i < r@.len() ==> #[trigger] r@[i] == self.tags.rows()[i].0.value,
            forall|i: int, j: int| 0 <= i < j < r@.len() ==> r@[i] < r@[j],
            forall|v: u128| #[trigger] r@.contains(v) <==> known_tags(self@)(v),
    {
        let n: usize = self.tags.len();
        let ghost rows = self.tags.rows();
        let mut out: Vec<u128> = Vec::new();
        let mut i: usize = 0;
        while i < n
            invariant
                i <= n,
                n == rows.len(),
                rows == self.tags.rows(),
                self.tags.well_formed(),
                out@.len() == i,
                forall|j: int| 0 <= j < i ==> #[trigger] out@[j] == rows[j].0.value,
            decreases n - i,
        {
            out.push(self.tags.key_at(i).value);
            i = i + 1;
        }
        proof {
            assert forall|a: int, b: int| 0 <= a < b < out@.len() implies out@[a] < out@[b] by {
                assert(rows[a].0.precedes(rows[b].0));
            }
            assert forall|v: u128| #[trigger] out@.contains(v) <==> known_tags(self@)(v) by {
                if out@.contains(v) {
                    let k = choose|k: int| 0 <= k < out@.len() && out@[k] == v;
                    assert(rows[k].0 == (TagId { value: v }));
                }
                if known_tags(self@)(v) {
                    let f = TagId { value: v };
                    assert(has_key(rows, f));
                    let k = choose|k: int| 0 <= k < rows.len() && (#[trigger] rows[k]).0 == f;
                    assert(out@[k] == v);
                }
            }
        }
        out
    }

    /// How many leading digits tell a file apart from all other files.
    pub fn shorten_file_id(&self, file_id: FileId) -> (r: Result<usize, DatabaseError>)
        ensures
            match r {
                Ok(n) => self@.files.contains_key(file_id) && shortest(
                    known_files(self@),
                    file_id.value,
                    n as nat,
                ),
                Err(error) => !self@.files.contains_key(file_id) && error
                    == DatabaseError::MissingFile,
            },
    {
        match self.files.index_of(file_id) {
            Some(at) => {
                let ids = self.file_values();
                let n: usize = short_length(&ids, at);
                proof {
                    lemma_same_known(
                        |v: u128| ids@.contains(v),
                        known_files(self@),
                        file_id.value,
                        n as nat,
                    );
                }
                Ok(n)
            },
            None => Err(DatabaseError::MissingFile),
        }
    }

    /// How many leading digits tell a tag apart from all other tags.
    pub fn shorten_tag_id(&self, tag_id: TagId) -> (r: Result<usize, DatabaseError>)
        ensures
            match r {
                Ok(n) => self@.tags.contains_key(tag_id) && shortest(
                    known_tags(self@),
                    tag_id.value,
                    n as nat,
                ),
                Err(error) => !self@.tags.contains_key(tag_id) && error
                    == DatabaseError::MissingTag,
            },
    {
        match self.tags.index_of(tag_id) {
            Some(at) => {
                let ids = self.tag_values();
                let n: usize = short_length(&ids, at);
                proof {
                    lemma_same_known(
                        |v: u128| ids@.contains(v),
                        known_tags(self@),
                        tag_id.value,
                        n as nat,
                    );
                }
                Ok(n)
            },
            None => Err(DatabaseError::MissingTag),
        }
    }

    /// The file that a typed identifier or prefix stands for.
    pub fn resolve_file_id_prefix(&self, prefix: &str) -> (r: Result<FileId, DatabaseError>)
        ensures
            match (normalised(prefix@), r) {
                (Some(digits), Ok(file_id)) => stands_for(
                    known_files(self@),
                    digits,
                    file_id.value,
                ),
                (Some(digits), Err(DatabaseError::AmbiguousIdPrefix(text))) => text@ == digits
                    && stands_for_several(known_files(self@), digits),
                (Some(digits), Err(error)) => error == DatabaseError::MissingFile
                    && stands_for_none(known_files(self@), digits),
                (None, _) => r == Err::<FileId, DatabaseError>(DatabaseError::MissingFile),
            },
    {
        let digits = match normalise_id_prefix(prefix) {
            Some(digits) => digits,
            None => {
                return Err(DatabaseError::MissingFile);
            },
        };
        let ids = self.file_values();
        let found = resolve_id_prefix(&ids, digits.as_str());
        let ghost known = known_files(self@);
        let ghost listed = |v: u128| ids@.contains(v);
        assert forall|v: u128| #[trigger] known(v) <==> listed(v) by {
            assert(ids@.contains(v) <==> known_files(self@)(v));
        }
        match found {
            PrefixResolution::Unique(text) => {
                let ghost id = choose|id: u128| #[trigger]
                    id_text(id) == text@ && stands_for(listed, digits@, id);
                assert(known(id));
                assert(stands_for(known, digits@, id)) by {
                    assert forall|o: u128|
                        #![trigger known(o)]
                        known(o) && fits(o, digits@) implies o == id by {
                        assert(listed(o));
                    }
                }
                match FileId::from_string(text.as_str()) {
                    Some(file_id) => Ok(file_id),
                    None => Err(DatabaseError::MissingFile),
                }
            },
            PrefixResolution::NotFound => {
                assert forall|o: u128| #![trigger known(o)] known(o) implies !fits(o, digits@) by {
                    assert(listed(o));
                }
                Err(DatabaseError::MissingFile)
            },
            PrefixResolution::Ambiguous => {
                proof {
                    let (a, b) = choose|a: u128, b: u128|
                        #![trigger listed(a), listed(b)]
                        listed(a) && listed(b) && a != b && fits(a, digits@) && fits(b, digits@);
                    assert(known(a) && known(b));
                }
                Err(DatabaseError::AmbiguousIdPrefix(digits))
            },
        }
    }

    /// The tag that a typed identifier or prefix stands for.
    pub fn resolve_tag_id_prefix(&self, prefix: &str) -> (r: Result<TagId, DatabaseError>)
        ensures
            match (normalised(prefix@), r) {
                (Some(digits), Ok(tag_id)) => stands_for(known_tags(self@), digits, tag_id.value),
                (Some(digits), Err(DatabaseError::AmbiguousIdPrefix(text))) => text@ == digits
                    && stands_for_several(known_tags(self@), digits),
                (Some(digits), Err(error)) => error == DatabaseError::MissingTag
                    && stands_for_none(known_tags(self@), digits),
                (None, _) => r == Err::<TagId, DatabaseError>(DatabaseError::MissingTag),
            },
    {
        let digits = match normalise_id_prefix(prefix) {
            Some(digits) => digits,
            None => {
                return Err(DatabaseError::MissingTag);
            },
        };
        let ids = self.tag_values();
        let found = resolve_id_prefix(&ids, digits.as_str());
        let ghost known = known_tags(self@);
        let ghost listed = |v: u128| ids@.contains(v);
        assert forall|v: u128| #[trigger] known(v) <==> listed(v) by {
            assert(ids@.contains(v) <==> known_tags(self@)(v));
        }
        match found {
            PrefixResolution::Unique(text) => {
                let ghost id = choose|id: u128| #[trigger]
                    id_text(id) == text@ && stands_for(listed, digits@, id);
                assert(known(id));
                assert(stands_for(known, digits@, id)) by {
                    assert forall|o: u128|
                        #![trigger known(o)]
                        known(o) && fits(o, digits@) implies o == id by {
                        assert(listed(o));
                    }
                }
                match TagId::from_string(text.as_str()) {
                    Some(tag_id) => Ok(tag_id),
                    None => Err(DatabaseError::MissingTag),
                }
            },
            PrefixResolution::NotFound => {
                assert forall|o: u128| #![trigger known(o)] known(o) implies !fits(o, digits@) by {
                    assert(listed(o));
                }
                Err(DatabaseError::MissingTag)
            },
            PrefixResolution::Ambiguous => {
                proof {
                    let (a, b) = choose|a: u128, b: u128|
                        #![trigger listed(a), listed(b)]
                        listed(a) && listed(b) && a != b && fits(a, digits@) && fits(b, digits@);
                    assert(known(a) && known(b));
                }
                Err(DatabaseError::AmbiguousIdPrefix(digits))
            },
        }
    }

    /// The row of a file, without its short identifier. `None` where the file is not
    /// listed.
    fn file_row(&self, file_id: FileId, short_id_length: usize) -> (r: Option<FileInfo>)
        ensures
            match r {
                Some(info) => {
                    &&& self@.listed(file_id)
                    &&& info.file_id == file_id
                    &&& self@.files[file_id] == info.logical_path@
                    &&& self@.history(file_id).last().content_hash == info.content_hash@
                    &&& self@.history(file_id).last().version_number == info.version_number
                    &&& info.short_id_length == short_id_length
                },
                None => !self@.listed(file_id),
            },
    {
        let logical_path = match self.files.get(file_id) {
            Some(path) => path.duplicate(),
            None => {
                return None;
            },
        };
        match self.versions.history(file_id) {
            Some(list) => {
                let latest = &list[list.len() - 1];
                assert(version_views(list@).last() == list@.last()@);
                Some(
                    FileInfo {
                        file_id,
                        logical_path,
                        content_hash: latest.content_hash.clone(),
                        version_number: latest.version_number,
                        short_id_length,
                    },
                )
            },
            None => None,
        }
    }

    /// The row of a file, its short identifier taken among all files.
    pub fn file_info_from_id(&self, file_id: FileId) -> (r: Result<FileInfo, DatabaseError>)
        ensures
            match r {
                Ok(info) => info.file_id == file_id && is_file_row(
                    self@,
                    known_files(self@),
                    info,
                ),
                Err(error) => !self@.listed(file_id) && error == DatabaseError::MissingFile,
            },
    {
        match self.shorten_file_id(file_id) {
            Ok(n) => match self.file_row(file_id, n) {
                Some(info) => Ok(info),
                None => Err(DatabaseError::MissingFile),
            },
            Err(_) => Err(DatabaseError::MissingFile),
        }
    }

    /// The rows of all listed files, in ascending order of their identifiers, each
    /// short identifier taken among all known files.
    pub fn get_all_files(&self) -> (r: Result<Vec<FileInfo>, DatabaseError>)
        ensures
            r matches Ok(list) && is_listing(self@, list@),
    {
        let ids = self.file_values();
        let ghost known = known_files(self@);
        let mut list: Vec<FileInfo> = Vec::new();
        let mut i: usize = 0;
        while i < ids.len()
            invariant
                i <= ids.len(),
                known == known_files(self@),
                forall|v: u128| #[trigger] ids@.contains(v) <==> known(v),
                forall|a: int, b: int| 0 <= a < b < ids@.len() ==> ids@[a] < ids@[b],
                forall|a: int, b: int|
                    0 <= a < b < list@.len() ==> (#[trigger] list@[a]).file_id.value < (
                    #[trigger] list@[b]).file_id.value,
                forall|a: int|
                    0 <= a < list@.len() ==> is_file_row(self@, known, #[trigger] list@[a])
                        && exists|k: int| 0 <= k < i && ids@[k] == list@[a].file_id.value,
                forall|k: int|
                    0 <= k < i && self@.listed(FileId { value: #[trigger] ids@[k] })
                        ==> has_row(list@, FileId { value: ids@[k] }),
            decreases ids.len() - i,
        {
            let n: usize = short_length(&ids, i);
            let file_id = FileId { value: ids[i] };
            let ghost before = list@;
            proof {
                lemma_same_known(|v: u128| ids@.contains(v), known, ids@[i as int], n as nat);
            }
            match self.file_row(file_id, n) {
                Some(info) => {
                    list.push(info);
                    proof {
                        assert(list@[before.len() as int].file_id == file_id);
                        assert forall|a: int, b: int| 0 <= a < b < list@.len() implies (
                        #[trigger] list@[a]).file_id.value < (
                        #[trigger] list@[b]).file_id.value by {
                            if b == before.len() {
                                let k = choose|k: int|
                                    0 <= k < i && ids@[k] == before[a].file_id.value;
                                assert(ids@[k] < ids@[i as int]);
                            }
                        }
                        assert forall|a: int| 0 <= a < list@.len() implies is_file_row(
                            self@,
                            known,
                            #[trigger] list@[a],
                        ) && exists|k: int|
                            0 <= k < i + 1 && ids@[k] == list@[a].file_id.value by {
                            if a < before.len() {
                                assert(list@[a] == before[a]);
                                let k = choose|k: int|
                                    0 <= k < i && ids@[k] == before[a].file_id.value;
                                assert(ids@[k] == list@[a].file_id.value);
                            } else {
                                assert(ids@[i as int] == list@[a].file_id.value);
                            }
                        }
                        assert forall|k: int|
                            0 <= k < i + 1 && self@.listed(
                                FileId { value: #[trigger] ids@[k] },
                            ) implies has_row(list@, FileId { value: ids@[k] }) by {
                            if k < i {
                                let a = choose|a: int|
                                    0 <= a < before.len() && (#[trigger] before[a]).file_id
                                        == (FileId { value: ids@[k] });
                                assert(list@[a].file_id == (FileId { value: ids@[k] }));
                            }
                        }
                    }
                },
                None => {},
            }
            i = i + 1;
        }
        proof {
            assert forall|f: FileId| #[trigger] self@.listed(f) <==> exists|k: int|
                0 <= k < list@.len() && (#[trigger] list@[k]).file_id == f by {
                if self@.listed(f) {
                    assert(FileId { value: f.value } == f);
                    assert(known(f.value));
                    assert(ids@.contains(f.value));
                    let k = choose|k: int| 0 <= k < ids@.len() && ids@[k] == f.value;
                    assert(self@.listed(FileId { value: ids@[k] }));
                    assert(has_row(list@, f));
                }
            }
        }
        Ok(list)
    }
}

/// Whether a list of rows holds one of `file_id`.
spec fn has_row(list: Seq<FileInfo>, file_id: FileId) -> bool {
    exists|a: int| 0 <= a < list.len() && (#[trigger] list[a]).file_id == file_id
}

/// [`shortest`] speaks only of which identifiers are known.
proof fn lemma_same_known(
    a: spec_fn(u128) -> bool,
    b: spec_fn(u128) -> bool,
    id: u128,
    n: nat,
)
    requires
        forall|v: u128| #[trigger] a(v) <==> #[trigger] b(v),
        shortest(a, id, n),
    ensures
        shortest(b, id, n),
{
    assert forall|other: u128| #![trigger b(other)] b(other) && other != id implies !same_leading(
        id,
        other,
        n,
    ) by {
        assert(a(other));
    }
    if n > 1 {
        let other = choose|other: u128|
            #![trigger a(other)]
            a(other) && other != id && same_leading(id, other, (n - 1) as nat);
        assert(b(other));
    }
}

proof fn lemma_hyphen_drops_out(before: Seq<char>, after: Seq<char>)
    ensures
        without_hyphens(before.push('-') + after) == without_hyphens(before + after),
    decreases after.len(),
{
    let (with, bare) = (before.push('-') + after, before + after);
    if after.len() == 0 {
        assert(with =~= before.push('-'));
        assert(bare =~= before);
        assert(before.push('-').drop_last() =~= before);
    } else {
        lemma_hyphen_drops_out(before, after.drop_last());
        assert(with.drop_last() =~= before.push('-') + after.drop_last());
        assert(bare.drop_last() =~= before + after.drop_last());
        assert(with.last() == bare.last());
    }
}

/// A hyphen in what is typed for an identifier makes no difference, wherever it stands.
pub proof fn law_hyphens_make_no_difference(before: Seq<char>, after: Seq<char>)
    ensures
        normalised(before.push('-') + after) == normalised(before + after),
{
    lemma_hyphen_drops_out(before, after);
}

/// Hexadecimal digits without a hyphen are taken as they are typed, a capital as its small
/// letter; what holds anything else, or nothing, is no identifier.
pub proof fn law_digits_are_taken_as_typed(typed: Seq<char>)
    requires
        !typed.contains('-'),
    ensures
        normalised(typed) is Some <==> typed.len() > 0 && forall|i: int|
            0 <= i < typed.len() ==> '0' <= #[trigger] typed[i] <= '9' || 'a' <= typed[i] <= 'f'
                || 'A' <= typed[i] <= 'F',
        normalised(typed) matches Some(digits) ==> digits.len() == typed.len() && forall|i: int|
            0 <= i < digits.len() ==> #[trigger] digits[i] as int == (if 'A' <= typed[i] <= 'F' {
                typed[i] as int + 32
            } else {
                typed[i] as int
            }),
{
    assert forall|i: int| 0 <= i < typed.len() implies #[trigger] typed[i] != '-' by {
        if typed[i] == '-' {
            assert(typed.contains('-'));
        }
    }
    lemma_no_hyphens(typed);
    if forall|i: int|
        0 <= i < typed.len() ==> '0' <= #[trigger] typed[i] <= '9' || 'a' <= typed[i] <= 'f' || 'A'
            <= typed[i] <= 'F' {
        assert forall|i: int| 0 <= i < typed.len() implies hex_char(#[trigger] typed[i]) by {}
    }
    if normalised(typed) is Some {
        assert forall|i: int| 0 <= i < typed.len() implies '0' <= #[trigger] typed[i] <= '9' || 'a'
            <= typed[i] <= 'f' || 'A' <= typed[i] <= 'F' by {
            assert(hex_char(typed[i]));
        }
        let digits = normalised(typed)->0;
        assert forall|i: int| 0 <= i < digits.len() implies #[trigger] digits[i] as int == (if 'A'
            <= typed[i] <= 'F' {
            typed[i] as int + 32
        } else {
            typed[i] as int
        }) by {
            assert(digits[i] == lower_hex(typed[i]));
            lemma_lower_hex(typed[i]);
        }
    }
}

proof fn lemma_lower_hex(c: char)
    requires
        hex_char(c),
    ensures
        lower_hex(c) as int == (if 'A' <= c <= 'F' {
            c as int + 32
        } else {
            c as int
        }),
{
    if 'A' <= c <= 'F' {
        let u = c as u32;
        assert(u == 0x41 || u == 0x42 || u == 0x43 || u == 0x44 || u == 0x45 || u == 0x46);
    }
}

/// A short identifier is as short as can be: with one digit less it would fit another known
/// identifier too.
pub proof fn law_no_shorter_id_would_do(known: spec_fn(u128) -> bool, id: u128, n: nat)
    requires
        known(id),
        shortest(known, id, n),
        n > 1,
    ensures
        !stands_for(known, id_text(id).take(n - 1), id),
{
    let other = choose|other: u128|
        #![trigger known(other)]
        known(other) && other != id && same_leading(id, other, (n - 1) as nat);
    let short = id_text(id).take(n - 1);
    lemma_hex_digits_len(id as nat, 32);
    lemma_hex_digits_len(other as nat, 32);
    assert(short == id_text(other).take(n - 1));
    assert(short =~= id_text(other).subrange(0, short.len() as int));
    assert(fits(other, short));
}

/// A row of a file says what is on record of it: its path, and the content and the number of
/// its latest version. Only files with a version are listed, and all of them.
pub proof fn law_a_listing_says_what_is_on_record(
    db: DatabaseView,
    list: Seq<FileInfo>,
    file_id: FileId,
)
    requires
        is_listing(db, list),
    ensures
        (exists|i: int| 0 <= i < list.len() && (#[trigger] list[i]).file_id == file_id)
            <==> db.files.contains_key(file_id) && db.versions.contains_key(file_id),
        forall|i: int|
            0 <= i < list.len() ==> {
                let row = #[trigger] list[i];
                let history = db.versions[row.file_id];
                &&& row.logical_path@ == db.files[row.file_id]
                &&& row.content_hash@ == history[history.len() - 1].content_hash
                &&& row.version_number == history[history.len() - 1].version_number
            },
{
    assert(db.listed(file_id) <==> exists|i: int|
        0 <= i < list.len() && (#[trigger] list[i]).file_id == file_id);
    assert forall|i: int| 0 <= i < list.len() implies {
        let row = #[trigger] list[i];
        let history = db.versions[row.file_id];
        &&& row.logical_path@ == db.files[row.file_id]
        &&& row.content_hash@ == history[history.len() - 1].content_hash
        &&& row.version_number == history[history.len() - 1].version_number
    } by {
        assert(is_file_row(db, known_files(db), list[i]));
    }
}

} // verus!
