//! Operations on text: strings seen as sequences of characters.

use vstd::prelude::*;

verus! {

/// `String::push` appends one character to the end of the string.
pub assume_specification[ String::push ](s: &mut String, c: char)
    ensures
        final(s)@ == old(s)@.push(c),
;

/// The lower-case form that `str::to_lowercase` gives to a text. It depends on the
/// text alone.
pub uninterp spec fn lowercased(s: Seq<char>) -> Seq<char>;

/// `str::to_lowercase`: the lower-case equivalent of `s`, by the Unicode mapping of
/// the standard library. Nothing is claimed of the mapping itself.
#[verifier::external_body]
pub(crate) fn to_lowercase(s: &str) -> (r: String)
    ensures
        r@ == lowercased(s@),
{
    s.to_lowercase()
}

/// A text as `<str as Debug>::fmt` writes it: in double quotes, with escapes. It
/// depends on the text alone.
pub uninterp spec fn quoted(s: Seq<char>) -> Seq<char>;

/// `<str as Debug>::fmt`: the text in double quotes, with the escapes of the standard
/// library. Nothing is claimed of the escapes themselves.
#[verifier::external_body]
pub(crate) fn quote(s: &str) -> (r: String)
    ensures
        r@ == quoted(s@),
{
    format!("{:?}", s)
}

/// Whether `c` has the Unicode property `White_Space`.
pub open spec fn white_space(c: char) -> bool {
    let u = c as u32;
    ||| 0x09 <= u <= 0x0d
    ||| u == 0x20
    ||| u == 0x85
    ||| u == 0xa0
    ||| u == 0x1680
    ||| 0x2000 <= u <= 0x200a
    ||| u == 0x2028
    ||| u == 0x2029
    ||| u == 0x202f
    ||| u == 0x205f
    ||| u == 0x3000
}

/// Decides [`white_space`].
pub fn is_white_space(c: char) -> (r: bool)
    ensures
        r == white_space(c),
{
    let u: u32 = c as u32;
    (0x09 <= u && u <= 0x0d) || u == 0x20 || u == 0x85 || u == 0xa0 || u == 0x1680 || (0x2000 <= u
        && u <= 0x200a) || u == 0x2028 || u == 0x2029 || u == 0x202f || u == 0x205f || u == 0x3000
}

/// Whether a text holds nothing but white space.
pub open spec fn blank(s: Seq<char>) -> bool {
    forall|i: int| 0 <= i < s.len() ==> white_space(#[trigger] s[i])
}

/// The first position from `i` on that does not hold white space, or the length of
/// `s`.
pub open spec fn skip_white_space(s: Seq<char>, i: int) -> int
    decreases s.len() - i,
{
    if 0 <= i < s.len() && white_space(s[i]) {
        skip_white_space(s, i + 1)
    } else {
        i
    }
}

/// The first position from `i` on that holds white space, or the length of `s`.
pub open spec fn token_end(s: Seq<char>, i: int) -> int
    decreases s.len() - i,
{
    if 0 <= i < s.len() && !white_space(s[i]) {
        token_end(s, i + 1)
    } else {
        i
    }
}

/// The length of `s` without its trailing white space, counting down from `n`.
pub open spec fn trimmed_len(s: Seq<char>, n: int) -> int
    decreases n,
{
    if 0 < n <= s.len() && white_space(s[n - 1]) {
        trimmed_len(s, n - 1)
    } else {
        n
    }
}

/// `s` without its leading and trailing white space.
pub open spec fn trimmed(s: Seq<char>) -> Seq<char> {
    let start = skip_white_space(s, 0);
    let end = trimmed_len(s, s.len() as int);
    if start < end {
        s.subrange(start, end)
    } else {
        Seq::empty()
    }
}

/// Bounds of [`skip_white_space`], and what it stops at.
pub proof fn lemma_skip_white_space(s: Seq<char>, i: int)
    requires
        0 <= i <= s.len(),
    ensures
        i <= skip_white_space(s, i) <= s.len(),
        skip_white_space(s, i) < s.len() ==> !white_space(s[skip_white_space(s, i)]),
        forall|j: int| i <= j < skip_white_space(s, i) ==> white_space(#[trigger] s[j]),
    decreases s.len() - i,
{
    if i < s.len() && white_space(s[i]) {
        lemma_skip_white_space(s, i + 1);
    }
}

/// Bounds of [`token_end`], and what it stops at.
pub proof fn lemma_token_end(s: Seq<char>, i: int)
    requires
        0 <= i <= s.len(),
    ensures
        i <= token_end(s, i) <= s.len(),
        i < s.len() && !white_space(s[i]) ==> i < token_end(s, i),
        token_end(s, i) < s.len() ==> white_space(s[token_end(s, i)]),
        forall|j: int| i <= j < token_end(s, i) ==> !white_space(#[trigger] s[j]),
    decreases s.len() - i,
{
    if i < s.len() && !white_space(s[i]) {
        lemma_token_end(s, i + 1);
    }
}

/// Bounds of [`trimmed_len`], and what it stops at.
pub proof fn lemma_trimmed_len(s: Seq<char>, n: int)
    requires
        0 <= n <= s.len(),
    ensures
        0 <= trimmed_len(s, n) <= n,
        trimmed_len(s, n) > 0 ==> !white_space(s[trimmed_len(s, n) - 1]),
    decreases n,
{
    if 0 < n && white_space(s[n - 1]) {
        lemma_trimmed_len(s, n - 1);
    }
}

/// A text whose first and last characters are no white space is its own trimmed
/// form.
pub proof fn lemma_trimmed_is_identity(s: Seq<char>)
    requires
        s.len() > 0 ==> !white_space(s[0]) && !white_space(s[s.len() - 1]),
    ensures
        trimmed(s) == s,
{
    assert(s.subrange(0, s.len() as int) =~= s);
}

/// The characters of `s`, in order.
pub fn chars_of(s: &str) -> (r: Vec<char>)
    ensures
        r@ == s@,
{
    let mut out: Vec<char> = Vec::new();
    for c in it: s.chars()
        invariant
            out@ == it.seq().take(it.index()),
            it.seq() == s@,
    {
        out.push(c);
        proof {
            assert(it.seq().take(it.index() + 1) == it.seq().take(it.index()).push(
                it.seq()[it.index()],
            ));
        }
    }
    proof {
        assert(out@ =~= s@);
    }
    out
}

/// The string made of `chars[from..to]`.
pub fn string_of_range(chars: &Vec<char>, from: usize, to: usize) -> (r: String)
    requires
        from <= to <= chars.len(),
    ensures
        r@ == chars@.subrange(from as int, to as int),
{
    let mut out = String::new();
    let mut i: usize = from;
    assert(chars@.subrange(from as int, from as int) =~= Seq::<char>::empty());
    while i < to
        invariant
            from <= i <= to <= chars.len(),
            out@ == chars@.subrange(from as int, i as int),
        decreases to - i,
    {
        out.push(chars[i]);
        i = i + 1;
        assert(chars@.subrange(from as int, i as int) =~= chars@.subrange(from as int, i - 1).push(
            chars@[i - 1],
        ));
    }
    out
}

/// The string made of `chars`.
pub fn string_of(chars: &Vec<char>) -> (r: String)
    ensures
        r@ == chars@,
{
    assert(chars@.subrange(0, chars@.len() as int) =~= chars@);
    string_of_range(chars, 0, chars.len())
}

/// Decides [`blank`].
pub fn is_blank(s: &str) -> (r: bool)
    ensures
        r == blank(s@),
{
    let chars = chars_of(s);
    let mut i: usize = 0;
    while i < chars.len()
        invariant
            i <= chars.len(),
            chars@ == s@,
            forall|j: int| 0 <= j < i ==> white_space(#[trigger] s@[j]),
        decreases chars.len() - i,
    {
        if !is_white_space(chars[i]) {
            assert(!white_space(s@[i as int]));
            return false;
        }
        i = i + 1;
    }
    true
}

/// Computes [`skip_white_space`].
pub fn skip_white_space_from(chars: &Vec<char>, i: usize) -> (r: usize)
    requires
        i <= chars.len(),
    ensures
        r == skip_white_space(chars@, i as int),
        i <= r <= chars.len(),
        r < chars.len() ==> !white_space(chars@[r as int]),
{
    let mut j: usize = i;
    while j < chars.len() && is_white_space(chars[j])
        invariant
            i <= j <= chars.len(),
            skip_white_space(chars@, i as int) == skip_white_space(chars@, j as int),
        decreases chars.len() - j,
    {
        j = j + 1;
    }
    j
}

/// Computes [`token_end`].
pub fn token_end_from(chars: &Vec<char>, i: usize) -> (r: usize)
    requires
        i <= chars.len(),
    ensures
        r == token_end(chars@, i as int),
        i <= r <= chars.len(),
        i < chars.len() && !white_space(chars@[i as int]) ==> i < r,
{
    let mut j: usize = i;
    while j < chars.len() && !is_white_space(chars[j])
        invariant
            i <= j <= chars.len(),
            token_end(chars@, i as int) == token_end(chars@, j as int),
        decreases chars.len() - j,
    {
        j = j + 1;
    }
    proof {
        lemma_token_end(chars@, i as int);
    }
    j
}

/// `s` without its leading and trailing white space.
pub fn trim(s: &str) -> (r: String)
    ensures
        r@ == trimmed(s@),
{
    let chars = chars_of(s);
    let start: usize = skip_white_space_from(&chars, 0);
    let mut end: usize = chars.len();
    while 0 < end && is_white_space(chars[end - 1])
        invariant
            end <= chars.len(),
            trimmed_len(chars@, chars@.len() as int) == trimmed_len(chars@, end as int),
        decreases end,
    {
        end = end - 1;
    }
    if start < end {
        string_of_range(&chars, start, end)
    } else {
        String::new()
    }
}

/// Whether `needle` occurs in `s` at position `at`.
pub open spec fn occurs_at(s: Seq<char>, needle: Seq<char>, at: int) -> bool {
    0 <= at && at + needle.len() <= s.len() && s.subrange(at, at + needle.len()) == needle
}

/// Whether `needle` occurs somewhere in `s`.
pub open spec fn contains_text(s: Seq<char>, needle: Seq<char>) -> bool {
    exists|at: int| occurs_at(s, needle, at)
}

/// Decides [`occurs_at`].
pub fn matches_at(s: &Vec<char>, needle: &Vec<char>, at: usize) -> (r: bool)
    requires
        at <= s.len(),
    ensures
        r == occurs_at(s@, needle@, at as int),
{
    if s.len() - at < needle.len() {
        return false;
    }
    let mut i: usize = 0;
    while i < needle.len()
        invariant
            i <= needle.len(),
            at + needle.len() <= s.len(),
            forall|j: int| 0 <= j < i ==> s@[at + j] == #[trigger] needle@[j],
        decreases needle.len() - i,
    {
        if s[at + i] != needle[i] {
            assert(s@.subrange(at as int, at + needle@.len())[i as int] != needle@[i as int]);
            return false;
        }
        i = i + 1;
    }
    assert(s@.subrange(at as int, at + needle@.len()) =~= needle@);
    true
}

/// Decides [`contains_text`].
pub fn has_text(s: &str, needle: &str) -> (r: bool)
    ensures
        r == contains_text(s@, needle@),
{
    let hay = chars_of(s);
    let wanted = chars_of(needle);
    let mut at: usize = 0;
    while at < hay.len()
        invariant
            hay@ == s@,
            wanted@ == needle@,
            at <= hay.len(),
            forall|j: int| 0 <= j < at ==> !occurs_at(s@, needle@, j),
        decreases hay.len() - at,
    {
        if matches_at(&hay, &wanted, at) {
            assert(occurs_at(s@, needle@, at as int));
            return true;
        }
        at = at + 1;
    }
    let r = matches_at(&hay, &wanted, at);
    assert(r == occurs_at(s@, needle@, at as int));
    r
}

/// Whether `s` begins with `prefix`.
pub fn begins_with(s: &str, prefix: &str) -> (r: bool)
    ensures
        r == prefix@.is_prefix_of(s@),
{
    let s = chars_of(s);
    let prefix = chars_of(prefix);
    let r = matches_at(&s, &prefix, 0);
    proof {
        if prefix@.len() <= s@.len() {
            assert(s@.subrange(0, prefix@.len() as int) =~= s@.take(prefix@.len() as int));
        }
    }
    r
}

/// Whether two texts hold the same characters.
pub fn same_text(a: &str, b: &str) -> (r: bool)
    ensures
        r == (a@ == b@),
{
    a.to_owned() == b.to_owned()
}

/// `a` followed by `b`.
pub fn joined(a: &str, b: &str) -> (r: String)
    ensures
        r@ == a@ + b@,
{
    let mut out = a.to_owned();
    out.append(b);
    out
}

/// The decimal digit of a value below ten.
pub open spec fn decimal_digit(v: nat) -> char {
    (48 + v) as char
}

/// A number in decimal digits.
pub open spec fn decimal_text(n: nat) -> Seq<char>
    decreases n,
{
    if n < 10 {
        seq![decimal_digit(n)]
    } else {
        decimal_text(n / 10).push(decimal_digit(n % 10))
    }
}

/// A number in decimal digits.
pub fn decimal(n: u64) -> (r: String)
    ensures
        r@ == decimal_text(n as nat),
    decreases n,
{
    let mut out = if n < 10 {
        String::new()
    } else {
        decimal(n / 10)
    };
    let digit: u8 = 48 + (n % 10) as u8;
    out.push(digit as char);
    assert(n < 10 ==> out@ =~= seq![decimal_digit(n as nat)]);
    out
}

/// The mathematical value of a text, where there is one.
pub open spec fn optional_text(text: Option<String>) -> Option<Seq<char>> {
    match text {
        Some(t) => Some(t@),
        None => None,
    }
}

/// The mathematical value of a borrowed text, where there is one.
pub open spec fn optional_str(text: Option<&str>) -> Option<Seq<char>> {
    match text {
        Some(t) => Some(t@),
        None => None,
    }
}

/// Trimming takes white space off both ends and nothing else: what is left is empty or begins
/// and ends with something else, and what was taken off held nothing but white space.
pub proof fn law_trimming_takes_white_space_off_the_ends(s: Seq<char>)
    ensures
        ({
            let kept = trimmed(s);
            &&& kept.len() > 0 ==> !white_space(kept[0]) && !white_space(kept[kept.len() - 1])
            &&& exists|start: int|
                0 <= start && start + kept.len() <= s.len() && #[trigger] s.subrange(
                    start,
                    start + kept.len(),
                ) == kept && blank(s.take(start)) && blank(s.skip(start + kept.len()))
        }),
{
    let start = skip_white_space(s, 0);
    let end = trimmed_len(s, s.len() as int);
    lemma_skip_white_space(s, 0);
    lemma_trimmed_len(s, s.len() as int);
    lemma_trimmed_tail(s, s.len() as int);
    if start < end {
        assert(s.subrange(start, start + trimmed(s).len()) == trimmed(s));
    } else {
        assert forall|i: int| 0 <= i < s.len() implies white_space(#[trigger] s[i]) by {
            if i < start {
            } else {
                assert(i >= end);
            }
        }
        assert(s.subrange(0, 0) =~= Seq::<char>::empty());
        assert(s.skip(0) =~= s);
    }
}

proof fn lemma_trimmed_tail(s: Seq<char>, n: int)
    requires
        0 <= n <= s.len(),
    ensures
        forall|i: int| trimmed_len(s, n) <= i < n ==> white_space(#[trigger] s[i]),
    decreases n,
{
    if 0 < n && white_space(s[n - 1]) {
        lemma_trimmed_tail(s, n - 1);
    }
}

/// The value of decimal digits.
pub open spec fn decimal_value(digits: Seq<char>) -> int
    decreases digits.len(),
{
    if digits.len() == 0 {
        0
    } else {
        10 * decimal_value(digits.drop_last()) + (digits.last() as int - '0' as int)
    }
}

/// A number in decimal digits has nothing but such digits, no zero in front unless it is
/// zero, and the number for its value.
pub proof fn law_a_number_is_spelled_in_decimal(n: nat)
    ensures
        decimal_text(n).len() > 0,
        forall|i: int|
            0 <= i < decimal_text(n).len() ==> '0' <= #[trigger] decimal_text(n)[i] <= '9',
        n > 0 ==> decimal_text(n)[0] != '0',
        decimal_value(decimal_text(n)) == n,
    decreases n,
{
    reveal_with_fuel(decimal_value, 2);
    if n >= 10 {
        law_a_number_is_spelled_in_decimal(n / 10);
        let before = decimal_text(n / 10);
        let all = decimal_text(n);
        assert(all.drop_last() =~= before);
        assert forall|i: int| 0 <= i < all.len() implies '0' <= #[trigger] all[i] <= '9' by {
            if i < before.len() {
                assert(all[i] == before[i]);
            }
        }
        assert(all[0] == before[0]);
    } else {
        assert(decimal_text(n) =~= seq![decimal_digit(n)]);
        assert(decimal_text(n).drop_last() =~= Seq::<char>::empty());
    }
}

} // verus!
