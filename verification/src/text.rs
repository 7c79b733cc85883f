//! Text: the order of file paths, message building, decimal numbers.
use vstd::prelude::*;
use vstd::string::*;
use vstd::utf8::*;

verus! {

broadcast use vstd::string::group_string_axioms;

/// `a` comes strictly before `b` in the lexicographic order of Unicode scalar values.
pub open spec fn text_before(a: Seq<char>, b: Seq<char>) -> bool
    decreases a.len(),
{
    if b.len() == 0 {
        false
    } else if a.len() == 0 {
        true
    } else if a[0] == b[0] {
        text_before(a.drop_first(), b.drop_first())
    } else {
        a[0] < b[0]
    }
}

/// `a` comes strictly before `b` in the lexicographic order of bytes.
pub open spec fn bytes_before(a: Seq<u8>, b: Seq<u8>) -> bool
    decreases a.len(),
{
    if b.len() == 0 {
        false
    } else if a.len() == 0 {
        true
    } else if a[0] == b[0] {
        bytes_before(a.drop_first(), b.drop_first())
    } else {
        a[0] < b[0]
    }
}

/// No text comes before itself.
pub proof fn lemma_text_before_irreflexive(a: Seq<char>)
    ensures
        !text_before(a, a),
    decreases a.len(),
{
    if a.len() > 0 {
        lemma_text_before_irreflexive(a.drop_first());
    }
}

/// The text order is transitive.
pub proof fn lemma_text_before_transitive(a: Seq<char>, b: Seq<char>, c: Seq<char>)
    requires
        text_before(a, b),
        text_before(b, c),
    ensures
        text_before(a, c),
    decreases a.len(),
{
    if a.len() > 0 && a[0] == b[0] && b[0] == c[0] {
        lemma_text_before_transitive(a.drop_first(), b.drop_first(), c.drop_first());
    }
}

/// Of two different texts, one comes before the other.
pub proof fn lemma_text_before_total(a: Seq<char>, b: Seq<char>)
    ensures
        a == b || text_before(a, b) || text_before(b, a),
    decreases a.len(),
{
    if a.len() > 0 && b.len() > 0 && a[0] == b[0] {
        lemma_text_before_total(a.drop_first(), b.drop_first());
        if a.drop_first() == b.drop_first() {
            assert(a == seq![a[0]] + a.drop_first());
            assert(b == seq![b[0]] + b.drop_first());
        }
    } else if a.len() == 0 && b.len() == 0 {
        assert(a == b);
    }
}

/// Where two byte sequences agree up to `i` and the first one ends there or holds the smaller
/// byte, the first one comes first.
proof fn lemma_bytes_before_at(a: Seq<u8>, b: Seq<u8>, i: int)
    requires
        0 <= i <= a.len(),
        i < b.len(),
        forall|j: int| 0 <= j < i ==> a[j] == b[j],
        i == a.len() || a[i] < b[i],
    ensures
        bytes_before(a, b),
        !bytes_before(b, a),
    decreases i,
{
    if i > 0 {
        lemma_bytes_before_at(a.drop_first(), b.drop_first(), i - 1);
    }
}

/// A common prefix does not change the byte order.
proof fn lemma_bytes_before_common_prefix(p: Seq<u8>, a: Seq<u8>, b: Seq<u8>)
    ensures
        bytes_before(p + a, p + b) == bytes_before(a, b),
    decreases p.len(),
{
    if p.len() == 0 {
        assert(p + a == a);
        assert(p + b == b);
    } else {
        lemma_bytes_before_common_prefix(p.drop_first(), a, b);
        assert((p + a).drop_first() == p.drop_first() + a);
        assert((p + b).drop_first() == p.drop_first() + b);
    }
}

/// The encoding of the smaller of two scalar values holds the smaller byte where the two
/// encodings first differ.
proof fn lemma_scalar_encoding_order(x: u32, y: u32) -> (k: int)
    requires
        is_scalar(x),
        is_scalar(y),
        x < y,
    ensures
        0 <= k < encode_scalar(x).len(),
        k < encode_scalar(y).len(),
        forall|j: int| 0 <= j < k ==> encode_scalar(x)[j] == encode_scalar(y)[j],
        encode_scalar(x)[k] < encode_scalar(y)[k],
{
    let a = encode_scalar(x);
    let b = encode_scalar(y);
    if has_width_1_encoding(x) {
        assert(x <= 0x7F ==> (x & 0x7F) as u8 == x) by (bit_vector);
        if has_width_1_encoding(y) {
            assert(y <= 0x7F ==> (y & 0x7F) as u8 == y) by (bit_vector);
        } else if has_width_2_encoding(y) {
            assert(0xC0 | ((y >> 6) & 0x1F) as u8 >= 0xC0) by (bit_vector);
        } else if has_width_3_encoding(y) {
            assert(0xE0 | ((y >> 12) & 0x0F) as u8 >= 0xE0) by (bit_vector);
        } else {
            assert(0xF0 | ((y >> 18) & 0x7) as u8 >= 0xF0) by (bit_vector);
        }
        0
    } else if has_width_2_encoding(x) {
        assert(0xC0 | ((x >> 6) & 0x1F) as u8 <= 0xDF) by (bit_vector);
        if has_width_2_encoding(y) {
            assert(0x80 <= x < y <= 0x7FF ==> {
                ||| (0xC0 | ((x >> 6) & 0x1F) as u8) < (0xC0 | ((y >> 6) & 0x1F) as u8)
                ||| (0xC0 | ((x >> 6) & 0x1F) as u8) == (0xC0 | ((y >> 6) & 0x1F) as u8)
                    && (0x80 | (x & 0x3F) as u8) < (0x80 | (y & 0x3F) as u8)
            }) by (bit_vector);
            if a[0] == b[0] {
                1
            } else {
                0
            }
        } else {
            if has_width_3_encoding(y) {
                assert(0xE0 | ((y >> 12) & 0x0F) as u8 >= 0xE0) by (bit_vector);
            } else {
                assert(0xF0 | ((y >> 18) & 0x7) as u8 >= 0xF0) by (bit_vector);
            }
            0
        }
    } else if has_width_3_encoding(x) {
        assert(0xE0 | ((x >> 12) & 0x0F) as u8 <= 0xEF) by (bit_vector);
        if has_width_3_encoding(y) {
            assert(0x800 <= x < y <= 0xFFFF ==> {
                ||| (0xE0 | ((x >> 12) & 0x0F) as u8) < (0xE0 | ((y >> 12) & 0x0F) as u8)
                ||| (0xE0 | ((x >> 12) & 0x0F) as u8) == (0xE0 | ((y >> 12) & 0x0F) as u8)
                    && (0x80 | ((x >> 6) & 0x3F) as u8) < (0x80 | ((y >> 6) & 0x3F) as u8)
                ||| (0xE0 | ((x >> 12) & 0x0F) as u8) == (0xE0 | ((y >> 12) & 0x0F) as u8)
                    && (0x80 | ((x >> 6) & 0x3F) as u8) == (0x80 | ((y >> 6) & 0x3F) as u8)
                    && (0x80 | (x & 0x3F) as u8) < (0x80 | (y & 0x3F) as u8)
            }) by (bit_vector);
            if a[0] != b[0] {
                0
            } else if a[1] != b[1] {
                1
            } else {
                2
            }
        } else {
            assert(0xF0 | ((y >> 18) & 0x7) as u8 >= 0xF0) by (bit_vector);
            0
        }
    } else {
        assert(0x10000 <= x < y <= 0x10FFFF ==> {
            ||| (0xF0 | ((x >> 18) & 0x7) as u8) < (0xF0 | ((y >> 18) & 0x7) as u8)
            ||| (0xF0 | ((x >> 18) & 0x7) as u8) == (0xF0 | ((y >> 18) & 0x7) as u8)
                && (0x80 | ((x >> 12) & 0x3F) as u8) < (0x80 | ((y >> 12) & 0x3F) as u8)
            ||| (0xF0 | ((x >> 18) & 0x7) as u8) == (0xF0 | ((y >> 18) & 0x7) as u8)
                && (0x80 | ((x >> 12) & 0x3F) as u8) == (0x80 | ((y >> 12) & 0x3F) as u8)
                && (0x80 | ((x >> 6) & 0x3F) as u8) < (0x80 | ((y >> 6) & 0x3F) as u8)
            ||| (0xF0 | ((x >> 18) & 0x7) as u8) == (0xF0 | ((y >> 18) & 0x7) as u8)
                && (0x80 | ((x >> 12) & 0x3F) as u8) == (0x80 | ((y >> 12) & 0x3F) as u8)
                && (0x80 | ((x >> 6) & 0x3F) as u8) == (0x80 | ((y >> 6) & 0x3F) as u8)
                && (0x80 | (x & 0x3F) as u8) < (0x80 | (y & 0x3F) as u8)
        }) by (bit_vector);
        if a[0] != b[0] {
            0
        } else if a[1] != b[1] {
            1
        } else if a[2] != b[2] {
            2
        } else {
            3
        }
    }
}

/// A character's scalar value fits in 32 bits.
proof fn lemma_char_value(c: char)
    ensures
        is_scalar(c as u32),
        (c as u32) as int == c as int,
{
}

/// The byte order of two encoded texts is the scalar-value order of the texts.
pub proof fn lemma_utf8_keeps_order(a: Seq<char>, b: Seq<char>)
    ensures
        bytes_before(encode_utf8(a), encode_utf8(b)) == text_before(a, b),
    decreases a.len(),
{
    let ea = encode_utf8(a);
    let eb = encode_utf8(b);
    if a.len() > 0 && b.len() > 0 {
        lemma_char_value(a[0]);
        lemma_char_value(b[0]);
        let x = a[0] as u32;
        let y = b[0] as u32;
        if x == y {
            assert(a[0] == b[0]);
            lemma_bytes_before_common_prefix(
                encode_scalar(x),
                encode_utf8(a.drop_first()),
                encode_utf8(b.drop_first()),
            );
            lemma_utf8_keeps_order(a.drop_first(), b.drop_first());
        } else if x < y {
            let k = lemma_scalar_encoding_order(x, y);
            assert(forall|j: int| 0 <= j <= k ==> ea[j] == encode_scalar(x)[j]);
            assert(forall|j: int| 0 <= j <= k ==> eb[j] == encode_scalar(y)[j]);
            lemma_bytes_before_at(ea, eb, k);
        } else {
            let k = lemma_scalar_encoding_order(y, x);
            assert(forall|j: int| 0 <= j <= k ==> ea[j] == encode_scalar(x)[j]);
            assert(forall|j: int| 0 <= j <= k ==> eb[j] == encode_scalar(y)[j]);
            lemma_bytes_before_at(eb, ea, k);
        }
    }
}

/// The three ways in which two texts can stand to each other.
#[derive(Debug, Clone, Copy, PartialEq, Eq, Structural)]
pub enum TextOrder {
    /// The first text comes strictly before the second.
    Before,
    /// Both texts hold the same characters.
    Same,
    /// The first text comes strictly after the second.
    After,
}

/// Compares two texts in the lexicographic order of their Unicode scalar values.
pub fn compare_text(a: &str, b: &str) -> (order: TextOrder)
    ensures
        order is Before <==> text_before(a@, b@),
        order is Same <==> a@ == b@,
        order is After <==> text_before(b@, a@),
{
    let left = a.as_bytes();
    let right = b.as_bytes();
    proof {
        lemma_utf8_keeps_order(a@, b@);
        lemma_utf8_keeps_order(b@, a@);
        lemma_text_before_irreflexive(a@);
        encode_utf8_decode_utf8(a@);
        encode_utf8_decode_utf8(b@);
    }
    let mut i: usize = 0;
    while i < left.len() && i < right.len()
        invariant
            i <= left.len(),
            i <= right.len(),
            left@ == encode_utf8(a@),
            right@ == encode_utf8(b@),
            bytes_before(left@, right@) == text_before(a@, b@),
            bytes_before(right@, left@) == text_before(b@, a@),
            !text_before(a@, a@),
            forall|j: int| 0 <= j < i ==> left@[j] == right@[j],
        decreases left.len() - i,
    {
        if left[i] < right[i] {
            proof {
                lemma_bytes_before_at(left@, right@, i as int);
            }
            return TextOrder::Before;
        }
        if right[i] < left[i] {
            proof {
                lemma_bytes_before_at(right@, left@, i as int);
            }
            return TextOrder::After;
        }
        i += 1;
    }
    if i < right.len() {
        proof {
            lemma_bytes_before_at(left@, right@, i as int);
        }
        TextOrder::Before
    } else if i < left.len() {
        proof {
            lemma_bytes_before_at(right@, left@, i as int);
        }
        TextOrder::After
    } else {
        assert(left@ == right@);
        TextOrder::Same
    }
}

/// Tells whether two texts hold the same characters.
pub fn same_text(a: &str, b: &str) -> (same: bool)
    ensures
        same == (a@ == b@),
{
    matches!(compare_text(a, b), TextOrder::Same)
}

/// The character of the decimal digit `d`.
pub open spec fn digit_char(d: int) -> char {
    (48 + d) as char
}

/// The decimal digits of `n`, without leading zeros.
pub open spec fn digits(n: nat) -> Seq<char>
    decreases n,
{
    if n < 10 {
        seq![digit_char(n as int)]
    } else {
        digits(n / 10).push(digit_char((n % 10) as int))
    }
}

/// `n` in decimal notation, with a leading `-` where it is negative.
pub open spec fn decimal(n: int) -> Seq<char> {
    if n < 0 {
        seq!['-'] + digits((-n) as nat)
    } else {
        digits(n as nat)
    }
}

/// The text of the decimal digit `d`.
fn digit_text(d: u64) -> (text: &'static str)
    requires
        d < 10,
    ensures
        text@ == seq![digit_char(d as int)],
{
    proof {
        reveal_strlit("0");
        reveal_strlit("1");
        reveal_strlit("2");
        reveal_strlit("3");
        reveal_strlit("4");
        reveal_strlit("5");
        reveal_strlit("6");
        reveal_strlit("7");
        reveal_strlit("8");
        reveal_strlit("9");
    }
    match d {
        0 => "0",
        1 => "1",
        2 => "2",
        3 => "3",
        4 => "4",
        5 => "5",
        6 => "6",
        7 => "7",
        8 => "8",
        _ => "9",
    }
}

/// Writes an unsigned number in decimal notation.
pub fn unsigned_text(n: u64) -> (text: String)
    ensures
        text@ == decimal(n as int),
    decreases n,
{
    if n < 10 {
        digit_text(n).to_owned()
    } else {
        let mut text = unsigned_text(n / 10);
        text.append(digit_text(n % 10));
        assert(text@ == digits((n / 10) as nat).push(digit_char((n % 10) as int)));
        text
    }
}

/// Writes a signed number in decimal notation.
pub fn signed_text(n: i64) -> (text: String)
    ensures
        text@ == decimal(n as int),
{
    if n < 0 {
        let magnitude: u64 = (-(n + 1)) as u64 + 1;
        proof {
            reveal_strlit("-");
        }
        let mut text = "-".to_owned();
        text.append(unsigned_text(magnitude).as_str());
        assert(text@ == seq!['-'] + digits((-n) as nat));
        text
    } else {
        unsigned_text(n as u64)
    }
}

/// `c` is a decimal digit.
pub open spec fn is_digit(c: char) -> bool {
    '0' <= c <= '9'
}

/// The number that a sequence of decimal digits denotes.
pub open spec fn digits_value(s: Seq<char>) -> int
    decreases s.len(),
{
    if s.len() == 0 {
        0
    } else {
        10 * digits_value(s.drop_last()) + (s.last() as int - 48)
    }
}

/// `s` begins with a sign.
pub open spec fn is_signed(s: Seq<char>) -> bool {
    s.len() > 0 && (s[0] == '-' || s[0] == '+')
}

/// `s` without its sign.
pub open spec fn magnitude_text(s: Seq<char>) -> Seq<char> {
    if is_signed(s) {
        s.drop_first()
    } else {
        s
    }
}

/// The 32-bit number that `s` denotes: an optional sign and at least one decimal digit.
pub open spec fn parsed_i32(s: Seq<char>) -> Option<i32> {
    let m = magnitude_text(s);
    let value = if s.len() > 0 && s[0] == '-' {
        -digits_value(m)
    } else {
        digits_value(m)
    };
    if m.len() > 0 && (forall|i: int| 0 <= i < m.len() ==> is_digit(#[trigger] m[i])) && i32::MIN
        <= value <= i32::MAX {
        Some(value as i32)
    } else {
        None
    }
}

/// Reads a 32-bit number: an optional sign and at least one decimal digit, nothing else.
pub fn parse_i32(s: &str) -> (number: Option<i32>)
    ensures
        number == parsed_i32(s@),
{
    let limit: i64 = 2_147_483_648;
    let mut negative: bool = false;
    let mut valid: bool = true;
    let mut overflow: bool = false;
    let mut any: bool = false;
    let mut value: i64 = 0;
    let mut first: bool = true;
    for c in it: s.chars()
        invariant
            it.seq() == s@,
            limit == 2_147_483_648,
            first == (it.index() == 0),
            !first ==> negative == (s@[0] == '-'),
            first ==> !any && valid && !overflow && value == 0 && !negative,
            any == (seen_digits(s@, it.index()).len() > 0),
            valid == (forall|i: int|
                0 <= i < seen_digits(s@, it.index()).len() ==> is_digit(
                    #[trigger] seen_digits(s@, it.index())[i],
                )),
            0 <= value <= limit,
            valid && !overflow ==> value == digits_value(seen_digits(s@, it.index())),
            valid && overflow ==> digits_value(seen_digits(s@, it.index())) > limit,
    {
        let ghost k = it.index();
        let ghost before = seen_digits(s@, k);
        let ghost after = seen_digits(s@, k + 1);
        if first && (c == '-' || c == '+') {
            negative = c == '-';
            assert(after == Seq::<char>::empty());
        } else {
            assert(after == before.push(c));
            assert(after.drop_last() == before);
            any = true;
            if '0' <= c && c <= '9' {
                let digit: i64 = c as i64 - 48;
                if !overflow {
                    let next: i64 = 10 * value + digit;
                    if next > limit {
                        overflow = true;
                    } else {
                        value = next;
                    }
                }
                assert forall|i: int| 0 <= i < after.len() && valid implies is_digit(
                    #[trigger] after[i],
                ) by {
                    if i < before.len() {
                        assert(after[i] == before[i]);
                    }
                }
                assert(!valid ==> !(forall|i: int|
                    0 <= i < after.len() ==> is_digit(#[trigger] after[i]))) by {
                    if !valid {
                        let j = choose|j: int| 0 <= j < before.len() && !is_digit(#[trigger] before[j]);
                        assert(after[j] == before[j]);
                    }
                }
            } else {
                assert(after[before.len() as int] == c);
                valid = false;
            }
        }
        first = false;
    }
    assert(!first ==> seen_digits(s@, s@.len() as int) == magnitude_text(s@));
    assert(first ==> magnitude_text(s@) == Seq::<char>::empty());
    if !valid || !any || overflow {
        return None;
    }
    if negative {
        Some((-value) as i32)
    } else if value == limit {
        None
    } else {
        Some(value as i32)
    }
}

/// The characters of `s` before index `k`, without the sign.
spec fn seen_digits(s: Seq<char>, k: int) -> Seq<char> {
    if k <= 0 {
        Seq::empty()
    } else if is_signed(s) {
        s.subrange(1, k)
    } else {
        s.subrange(0, k)
    }
}

/// The digits of a number are decimal digits and denote the number.
proof fn lemma_digits(n: nat)
    ensures
        digits(n).len() > 0,
        forall|i: int| 0 <= i < digits(n).len() ==> is_digit(#[trigger] digits(n)[i]),
        digits_value(digits(n)) == n,
    decreases n,
{
    if n < 10 {
        let s = digits(n);
        assert(s.drop_last() == Seq::<char>::empty());
        assert(digits_value(s.drop_last()) == 0);
    } else {
        lemma_digits(n / 10);
        let s = digits(n);
        assert(s.drop_last() == digits(n / 10));
        assert forall|i: int| 0 <= i < s.len() implies is_digit(#[trigger] s[i]) by {
            if i < s.len() - 1 {
                assert(s[i] == digits(n / 10)[i]);
            }
        }
    }
}

/// Reading back a number that was written in decimal notation gives the number.
pub proof fn lemma_parse_decimal(n: i32)
    ensures
        parsed_i32(decimal(n as int)) == Some(n),
{
    let s = decimal(n as int);
    if n < 0 {
        lemma_digits((-n) as nat);
        assert(s.drop_first() == digits((-n) as nat));
    } else {
        lemma_digits(n as nat);
        assert(is_digit(s[0]));
    }
}

} // verus!
