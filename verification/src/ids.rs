//! Identifiers: 128-bit values written as 32 lower-case hexadecimal digits.

use vstd::prelude::*;
use crate::text::string_of;

verus! {

/// Number of hexadecimal digits of an identifier.
pub const ID_DIGITS: usize = 32;

/// The value that `uuid::Uuid::parse_str` reads from a text, or `None` where it
/// rejects it.
pub uninterp spec fn uuid_value(text: Seq<char>) -> Option<u128>;

/// `uuid::Uuid::parse_str`: reads a UUID in any of the forms the crate writes, the
/// plain 32-digit form among them.
#[verifier::external_body]
fn parse_uuid(text: &str) -> (r: Option<u128>)
    ensures
        r == uuid_value(text@),
        forall|v: u128| text@ == #[trigger] id_text(v) ==> r == Some(v),
{
    uuid::Uuid::parse_str(text).ok().map(|id| id.as_u128())
}

/// Whether a value is marked as a random UUID: version 4 in bits 76 to 79, and the
/// standard variant in bits 62 and 63.
pub open spec fn is_random_uuid(value: u128) -> bool {
    (value >> 76) & 0xf == 4 && (value >> 62) & 0x3 == 2
}

/// `uuid::Uuid::new_v4`: a UUID that carries the version and the variant of random
/// ones. Nothing is known of its other bits. It panics where the operating system gives
/// no random bytes.
#[verifier::external_body]
fn random_uuid() -> (r: u128)
    ensures
        is_random_uuid(r),
{
    uuid::Uuid::new_v4().as_u128()
}

/// The hexadecimal digit of a value below sixteen.
pub open spec fn hex_digit(v: int) -> char {
    if v == 0 {
        '0'
    } else if v == 1 {
        '1'
    } else if v == 2 {
        '2'
    } else if v == 3 {
        '3'
    } else if v == 4 {
        '4'
    } else if v == 5 {
        '5'
    } else if v == 6 {
        '6'
    } else if v == 7 {
        '7'
    } else if v == 8 {
        '8'
    } else if v == 9 {
        '9'
    } else if v == 10 {
        'a'
    } else if v == 11 {
        'b'
    } else if v == 12 {
        'c'
    } else if v == 13 {
        'd'
    } else if v == 14 {
        'e'
    } else {
        'f'
    }
}

/// The last `len` hexadecimal digits of `value`, most significant first.
pub open spec fn hex_digits(value: nat, len: nat) -> Seq<char>
    decreases len,
{
    if len == 0 {
        Seq::empty()
    } else {
        hex_digits(value / 16, (len - 1) as nat).push(hex_digit((value % 16) as int))
    }
}

/// The canonical text of an identifier.
pub open spec fn id_text(value: u128) -> Seq<char> {
    hex_digits(value as nat, ID_DIGITS as nat)
}

/// Sixteen to the power `n`.
pub open spec fn pow16(n: nat) -> nat
    decreases n,
{
    if n == 0 {
        1
    } else {
        16 * pow16((n - 1) as nat)
    }
}

/// The value of an identifier's first `n` digits.
pub open spec fn leading(value: u128, n: nat) -> nat {
    (value as nat) / pow16((ID_DIGITS - n) as nat)
}

/// Whether two identifiers begin with the same `n` digits.
pub open spec fn same_leading(a: u128, b: u128, n: nat) -> bool {
    id_text(a).take(n as int) == id_text(b).take(n as int)
}

/// The length of the longest common beginning of two texts.
pub open spec fn common_prefix(a: Seq<char>, b: Seq<char>) -> nat
    decreases a.len(),
{
    if a.len() == 0 || b.len() == 0 || a[0] != b[0] {
        0
    } else {
        1 + common_prefix(a.drop_first(), b.drop_first())
    }
}

pub proof fn lemma_pow16_pos(n: nat)
    ensures
        pow16(n) > 0,
    decreases n,
{
    if n > 0 {
        lemma_pow16_pos((n - 1) as nat);
    }
}

pub proof fn lemma_hex_digits_len(value: nat, len: nat)
    ensures
        hex_digits(value, len).len() == len,
    decreases len,
{
    if len > 0 {
        lemma_hex_digits_len(value / 16, (len - 1) as nat);
    }
}

/// Two values below sixteen to the power `len` with the same digits are equal.
pub proof fn lemma_hex_digits_injective(a: nat, b: nat, len: nat)
    requires
        hex_digits(a, len) == hex_digits(b, len),
        a < pow16(len),
        b < pow16(len),
    ensures
        a == b,
    decreases len,
{
    if len > 0 {
        let n = (len - 1) as nat;
        let x = hex_digits(a / 16, n);
        let y = hex_digits(b / 16, n);
        lemma_hex_digits_len(a / 16, n);
        lemma_hex_digits_len(b / 16, n);
        assert(hex_digits(a, len).drop_last() =~= x);
        assert(hex_digits(b, len).drop_last() =~= y);
        assert(hex_digits(a, len).last() == hex_digit((a % 16) as int));
        assert(hex_digits(b, len).last() == hex_digit((b % 16) as int));
        lemma_hex_digits_injective(a / 16, b / 16, n);
    }
}

/// The first `n` of `len` digits are the digits of the value without its last
/// `len - n`.
pub proof fn lemma_hex_digits_take(value: nat, len: nat, n: nat)
    requires
        n <= len,
    ensures
        hex_digits(value, len).take(n as int) == hex_digits(value / pow16((len - n) as nat), n),
    decreases len - n,
{
    lemma_hex_digits_len(value, len);
    if n == len {
        assert(hex_digits(value, len).take(n as int) =~= hex_digits(value, len));
        assert(pow16((len - n) as nat) == 1);
        assert(value / 1 == value);
    } else {
        let m = (len - 1) as nat;
        lemma_hex_digits_len(value / 16, m);
        lemma_hex_digits_take(value / 16, m, n);
        assert(hex_digits(value, len).take(n as int) =~= hex_digits(value / 16, m).take(n as int));
        let p = pow16((m - n) as nat);
        lemma_pow16_pos((m - n) as nat);
        assert(pow16((len - n) as nat) == 16 * p);
        vstd::arithmetic::div_mod::lemma_div_denominator(value as int, 16, p as int);
        assert(value / (16 * p) == (value / 16) / p);
    }
}

/// Every identifier is below sixteen to the power of its number of digits.
pub proof fn lemma_id_bound(a: u128)
    ensures
        (a as nat) < pow16(32),
{
    reveal_with_fuel(pow16, 33);
}

/// Distinct identifiers have distinct texts.
pub proof fn lemma_id_text_injective(a: u128, b: u128)
    requires
        id_text(a) == id_text(b),
    ensures
        a == b,
{
    lemma_id_bound(a);
    lemma_id_bound(b);
    lemma_hex_digits_injective(a as nat, b as nat, 32);
}

/// Two identifiers begin with the same `n` digits exactly where their leading
/// values agree.
pub proof fn lemma_same_leading(a: u128, b: u128, n: nat)
    requires
        n <= 32,
    ensures
        same_leading(a, b, n) <==> leading(a, n) == leading(b, n),
{
    let m = (32 - n) as nat;
    lemma_hex_digits_take(a as nat, 32, n);
    lemma_hex_digits_take(b as nat, 32, n);
    if same_leading(a, b, n) {
        lemma_leading_bound(a, n);
        lemma_leading_bound(b, n);
        lemma_hex_digits_injective(leading(a, n), leading(b, n), n);
    }
}

proof fn lemma_pow16_add(a: nat, b: nat)
    ensures
        pow16(a + b) == pow16(a) * pow16(b),
    decreases a,
{
    if a == 0 {
        assert(pow16(0) == 1);
        assert(1 * pow16(b) == pow16(b));
    } else {
        lemma_pow16_add((a - 1) as nat, b);
        let x = pow16((a - 1) as nat);
        let y = pow16(b);
        assert(((a - 1) as nat) + b == (a + b - 1) as nat);
        assert(16 * (x * y) == (16 * x) * y) by (nonlinear_arith);
    }
}

proof fn lemma_leading_bound(a: u128, n: nat)
    requires
        n <= 32,
    ensures
        leading(a, n) < pow16(n),
{
    let m = (32 - n) as nat;
    lemma_id_bound(a);
    lemma_pow16_add(n, m);
    lemma_pow16_pos(m);
    assert(n + m == 32);
    let x = a as nat;
    let p = pow16(n);
    let q = pow16(m);
    assert(x / q < p) by (nonlinear_arith)
        requires
            x < p * q,
            q > 0,
    ;
}

/// An identifier between two that share their first `n` digits shares them too.
pub proof fn lemma_between_shares_leading(a: u128, b: u128, c: u128, n: nat)
    requires
        a <= b <= c,
        n <= 32,
        same_leading(a, c, n),
    ensures
        same_leading(a, b, n),
        same_leading(b, c, n),
{
    lemma_same_leading(a, c, n);
    lemma_same_leading(a, b, n);
    lemma_same_leading(b, c, n);
    let q = pow16((32 - n) as nat);
    lemma_pow16_pos((32 - n) as nat);
    vstd::arithmetic::div_mod::lemma_div_is_ordered(a as int, b as int, q as int);
    vstd::arithmetic::div_mod::lemma_div_is_ordered(b as int, c as int, q as int);
}

/// What the length of the common beginning says of the texts.
pub proof fn lemma_common_prefix(a: Seq<char>, b: Seq<char>)
    ensures
        common_prefix(a, b) <= a.len(),
        common_prefix(a, b) <= b.len(),
        forall|n: int|
            0 <= n <= a.len() && n <= b.len() ==> (n <= common_prefix(a, b) <==> #[trigger] a.take(
                n,
            ) == b.take(n)),
    decreases a.len(),
{
    if a.len() == 0 || b.len() == 0 || a[0] != b[0] {
        assert forall|n: int| 0 <= n <= a.len() && n <= b.len() implies (n <= common_prefix(a, b)
            <==> #[trigger] a.take(n) == b.take(n)) by {
            if n == 0 {
                assert(a.take(0) =~= b.take(0));
            } else {
                assert(a.take(n)[0] == a[0]);
                assert(b.take(n)[0] == b[0]);
            }
        }
    } else {
        let x = a.drop_first();
        let y = b.drop_first();
        lemma_common_prefix(x, y);
        assert forall|n: int| 0 <= n <= a.len() && n <= b.len() implies (n <= common_prefix(a, b)
            <==> #[trigger] a.take(n) == b.take(n)) by {
            if n == 0 {
                assert(a.take(0) =~= b.take(0));
            } else {
                assert(a.take(n).drop_first() =~= x.take(n - 1));
                assert(b.take(n).drop_first() =~= y.take(n - 1));
                if x.take(n - 1) == y.take(n - 1) {
                    assert(a.take(n) =~= seq![a[0]] + x.take(n - 1));
                    assert(b.take(n) =~= seq![b[0]] + y.take(n - 1));
                }
            }
        }
    }
}

fn digit_char(v: u8) -> (r: char)
    requires
        v < 16,
    ensures
        r == hex_digit(v as int),
{
    match v {
        0 => '0',
        1 => '1',
        2 => '2',
        3 => '3',
        4 => '4',
        5 => '5',
        6 => '6',
        7 => '7',
        8 => '8',
        9 => '9',
        10 => 'a',
        11 => 'b',
        12 => 'c',
        13 => 'd',
        14 => 'e',
        _ => 'f',
    }
}

fn digits(value: u128, len: usize) -> (r: Vec<char>)
    ensures
        r@ == hex_digits(value as nat, len as nat),
    decreases len,
{
    if len == 0 {
        Vec::new()
    } else {
        let mut out = digits(value / 16, len - 1);
        out.push(digit_char((value % 16) as u8));
        out
    }
}

/// The canonical text of `value`.
pub fn text_of_id(value: u128) -> (r: String)
    ensures
        r@ == id_text(value),
{
    let chars = digits(value, ID_DIGITS);
    string_of(&chars)
}

/// The number of leading characters that two texts share.
pub fn common_prefix_length(a: &Vec<char>, b: &Vec<char>) -> (r: usize)
    ensures
        r == common_prefix(a@, b@),
{
    let mut i: usize = 0;
    assert(a@.skip(0) =~= a@);
    assert(b@.skip(0) =~= b@);
    while i < a.len() && i < b.len() && a[i] == b[i]
        invariant
            i <= a.len(),
            i <= b.len(),
            common_prefix(a@, b@) == i + common_prefix(a@.skip(i as int), b@.skip(i as int)),
        decreases a.len() - i,
    {
        assert(a@.skip(i as int).drop_first() =~= a@.skip(i + 1));
        assert(b@.skip(i as int).drop_first() =~= b@.skip(i + 1));
        i = i + 1;
    }
    i
}

/// Identifier of a file.
#[derive(Debug, Clone, Copy, PartialEq, Eq, PartialOrd, Ord, Hash, Structural)]
pub struct FileId {
    pub value: u128,
}

/// Identifier of a tag.
#[derive(Debug, Clone, Copy, PartialEq, Eq, PartialOrd, Ord, Hash, Structural)]
pub struct TagId {
    pub value: u128,
}

/// Identifier of an on-demand fetch.
#[derive(Debug, Clone, Copy, PartialEq, Eq, PartialOrd, Ord, Hash, Structural)]
pub struct RequestId {
    pub value: u128,
}

/// Identifier of a transfer on a peer link.
#[derive(Debug, Clone, Copy, PartialEq, Eq, PartialOrd, Ord, Hash, Structural)]
pub struct TransferId {
    pub value: u128,
}

impl FileId {
    /// A fresh random identifier, marked as such.
    pub fn new() -> (r: Self)
        ensures
            is_random_uuid(r.value),
    {
        FileId { value: random_uuid() }
    }

    /// The canonical text of the identifier.
    pub fn to_string(&self) -> (r: String)
        ensures
            r@ == id_text(self.value),
    {
        text_of_id(self.value)
    }

    /// The identifier that `text` spells, if it spells one.
    pub fn from_string(text: &str) -> (r: Option<Self>)
        ensures
            r == match uuid_value(text@) {
                Some(value) => Some(FileId { value }),
                None => None,
            },
            forall|v: u128|
                text@ == #[trigger] id_text(v) ==> r == Some(FileId { value: v }),
    {
        match parse_uuid(text) {
            Some(value) => Some(FileId { value }),
            None => None,
        }
    }
}

impl TagId {
    /// A fresh random identifier, marked as such.
    pub fn new() -> (r: Self)
        ensures
            is_random_uuid(r.value),
    {
        TagId { value: random_uuid() }
    }

    /// The canonical text of the identifier.
    pub fn to_string(&self) -> (r: String)
        ensures
            r@ == id_text(self.value),
    {
        text_of_id(self.value)
    }

    /// The identifier that `text` spells, if it spells one.
    pub fn from_string(text: &str) -> (r: Option<Self>)
        ensures
            r == match uuid_value(text@) {
                Some(value) => Some(TagId { value }),
                None => None,
            },
            forall|v: u128| text@ == #[trigger] id_text(v) ==> r == Some(TagId { value: v }),
    {
        match parse_uuid(text) {
            Some(value) => Some(TagId { value }),
            None => None,
        }
    }
}

impl RequestId {
    /// A fresh random identifier, marked as such.
    pub fn new() -> (r: Self)
        ensures
            is_random_uuid(r.value),
    {
        RequestId { value: random_uuid() }
    }
}

impl TransferId {
    /// A fresh random identifier, marked as such.
    pub fn new() -> (r: Self)
        ensures
            is_random_uuid(r.value),
    {
        TransferId { value: random_uuid() }
    }
}

/// The value of a hexadecimal digit in lower case.
pub open spec fn digit_value(c: char) -> int {
    if '0' <= c <= '9' {
        c as int - '0' as int
    } else {
        10 + (c as int - 'a' as int)
    }
}

/// The value of hexadecimal digits.
pub open spec fn hex_value(digits: Seq<char>) -> int
    decreases digits.len(),
{
    if digits.len() == 0 {
        0
    } else {
        16 * hex_value(digits.drop_last()) + digit_value(digits.last())
    }
}

proof fn lemma_hex_value(value: nat, len: nat)
    requires
        value < pow16(len),
    ensures
        hex_value(hex_digits(value, len)) == value,
    decreases len,
{
    if len > 0 {
        let before = hex_digits(value / 16, (len - 1) as nat);
        lemma_hex_value(value / 16, (len - 1) as nat);
        assert(hex_digits(value, len).drop_last() =~= before);
        assert(digit_value(hex_digit((value % 16) as int)) == value % 16);
    }
}

proof fn lemma_hex_range(value: nat, len: nat)
    ensures
        forall|i: int|
            0 <= i < hex_digits(value, len).len() ==> {
                let c = #[trigger] hex_digits(value, len)[i];
                '0' <= c <= '9' || 'a' <= c <= 'f'
            },
    decreases len,
{
    if len > 0 {
        lemma_hex_range(value / 16, (len - 1) as nat);
        let before = hex_digits(value / 16, (len - 1) as nat);
        let all = hex_digits(value, len);
        assert forall|i: int| 0 <= i < all.len() implies {
            let c = #[trigger] all[i];
            '0' <= c <= '9' || 'a' <= c <= 'f'
        } by {
            if i < before.len() {
                assert(all[i] == before[i]);
            }
        }
    }
}

/// An identifier is spelled in thirty-two hexadecimal digits, in lower case and without
/// hyphens, and has their value.
pub proof fn law_an_id_is_spelled_in_hexadecimal(value: u128)
    ensures
        id_text(value).len() == 32,
        forall|i: int|
            0 <= i < 32 ==> {
                let c = #[trigger] id_text(value)[i];
                '0' <= c <= '9' || 'a' <= c <= 'f'
            },
        hex_value(id_text(value)) == value,
{
    lemma_hex_digits_len(value as nat, 32);
    lemma_id_bound(value);
    lemma_hex_value(value as nat, 32);
    lemma_hex_range(value as nat, 32);
}

} // verus!
