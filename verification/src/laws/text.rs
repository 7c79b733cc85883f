//! What the order and the notation of texts guarantee, said of single characters.
use crate::arrow_batch::{text_bytes, text_views};
use crate::row_order::{row_before, sorted_rows, strictly_sorted_rows};
use crate::text::{
    decimal, digits_value, is_digit, lemma_text_before_irreflexive,
    lemma_text_before_total, lemma_text_before_transitive, parsed_i32, text_before,
};
use vstd::prelude::*;
use vstd::utf8::*;

verus! {

/// `a` and `b` agree in the first `k` characters; there `a` ends and `b` goes on, or `a` holds the
/// smaller character.
pub open spec fn smaller_at(a: Seq<char>, b: Seq<char>, k: int) -> bool {
    &&& 0 <= k <= a.len()
    &&& k < b.len()
    &&& forall|j: int| 0 <= j < k ==> #[trigger] a[j] == b[j]
    &&& k == a.len() || a[k] < b[k]
}

/// A text comes before another just where it is the smaller one at the first place where they
/// differ.
pub proof fn lemma_first_difference_decides(a: Seq<char>, b: Seq<char>)
    ensures
        text_before(a, b) <==> exists|k: int| #[trigger] smaller_at(a, b, k),
    decreases a.len(),
{
    if b.len() > 0 && a.len() > 0 {
        let (x, y) = (a.drop_first(), b.drop_first());
        if a[0] == b[0] {
            lemma_first_difference_decides(x, y);
            if text_before(a, b) {
                let k = choose|k: int| #[trigger] smaller_at(x, y, k);
                assert forall|j: int| 0 <= j < k + 1 implies #[trigger] a[j] == b[j] by {
                    if j > 0 {
                        assert(x[j - 1] == y[j - 1]);
                    }
                }
                assert(smaller_at(a, b, k + 1));
            }
            if exists|k: int| #[trigger] smaller_at(a, b, k) {
                let k = choose|k: int| #[trigger] smaller_at(a, b, k);
                assert(k > 0);
                assert forall|j: int| 0 <= j < k - 1 implies #[trigger] x[j] == y[j] by {
                    assert(a[j + 1] == b[j + 1]);
                }
                assert(smaller_at(x, y, k - 1));
            }
        } else {
            if text_before(a, b) {
                assert(smaller_at(a, b, 0));
            }
            if exists|k: int| #[trigger] smaller_at(a, b, k) {
                let k = choose|k: int| #[trigger] smaller_at(a, b, k);
                if k > 0 {
                    assert(a[0] == b[0]);
                }
            }
        }
    } else if b.len() > 0 {
        assert(smaller_at(a, b, 0));
    }
}

/// In sorted rows a row's data file never comes after that of a later row, and where two rows
/// refer to the same data file the earlier one has no larger position. Where the rows are strictly
/// sorted it has a smaller one.
pub proof fn lemma_sorted_rows_stand_in_order(rows: Seq<(Seq<char>, i64)>)
    ensures
        sorted_rows(rows) <==> forall|i: int, j: int|
            0 <= i < j < rows.len() ==> if (#[trigger] rows[i]).0 == (#[trigger] rows[j]).0 {
                rows[i].1 <= rows[j].1
            } else {
                text_before(rows[i].0, rows[j].0)
            },
        strictly_sorted_rows(rows) <==> forall|i: int, j: int|
            0 <= i < j < rows.len() ==> if (#[trigger] rows[i]).0 == (#[trigger] rows[j]).0 {
                rows[i].1 < rows[j].1
            } else {
                text_before(rows[i].0, rows[j].0)
            },
{
    assert forall|i: int, j: int| 0 <= i < j < rows.len() implies {
        &&& !row_before(rows[j], rows[i]) <==> if (#[trigger] rows[i]).0 == (#[trigger] rows[j]).0 {
            rows[i].1 <= rows[j].1
        } else {
            text_before(rows[i].0, rows[j].0)
        }
        &&& row_before(rows[i], rows[j]) <==> if rows[i].0 == rows[j].0 {
            rows[i].1 < rows[j].1
        } else {
            text_before(rows[i].0, rows[j].0)
        }
    } by {
        let (a, b) = (rows[i].0, rows[j].0);
        lemma_text_before_irreflexive(a);
        lemma_text_before_total(a, b);
        if text_before(a, b) && text_before(b, a) {
            lemma_text_before_transitive(a, b, a);
        }
    }
}

/// Decimal notation: a digit is the character of that digit, a larger number is a tenth of it and
/// the last digit, and a negative number is a `-` and its magnitude.
pub proof fn lemma_decimal_notation(n: int)
    ensures
        0 <= n < 10 ==> decimal(n).len() == 1 && decimal(n)[0] as u32 == 48 + n,
        n >= 10 ==> {
            &&& decimal(n).len() == decimal(n / 10).len() + 1
            &&& decimal(n).drop_last() == decimal(n / 10)
            &&& decimal(n).last() as u32 == 48 + n % 10
        },
        n < 0 ==> decimal(n).len() > 0 && decimal(n)[0] == '-' && decimal(n).drop_first() == decimal(-n),
{
    if n >= 10 {
        assert(decimal(n).drop_last() == decimal(n / 10));
    }
    if n < 0 {
        assert(decimal(n).drop_first() == decimal(-n));
    }
}

proof fn lemma_digits_value(s: Seq<char>)
    requires
        forall|i: int| 0 <= i < s.len() ==> is_digit(#[trigger] s[i]),
    ensures
        digits_value(s) >= 0,
    decreases s.len(),
{
    if s.len() > 0 {
        lemma_digits_value(s.drop_last());
        assert(is_digit(s[s.len() - 1]));
    }
}

/// A text that is not a digit alone, or a sign and a digit, is read character by character: where
/// the text before the last character is a number, and the last character is a digit, the value is
/// ten times that number and the digit, counted away from zero, as long as it fits in 32 bits;
/// otherwise the text is no number.
pub proof fn lemma_numbers_are_read_digit_by_digit(s: Seq<char>, c: char)
    requires
        s.len() > 0,
        s.len() > 1 || (s[0] != '-' && s[0] != '+'),
    ensures
        match parsed_i32(s) {
            None => parsed_i32(s.push(c)) is None,
            Some(v) => {
                let d = c as u32 - 48;
                let value = if s[0] == '-' {
                    10 * v - d
                } else {
                    10 * v + d
                };
                parsed_i32(s.push(c)) == if 0 <= d < 10 && i32::MIN <= value <= i32::MAX {
                    Some(value as i32)
                } else {
                    None
                }
            },
        },
{
    let t = s.push(c);
    let signed = s[0] == '-' || s[0] == '+';
    let m = if signed {
        s.drop_first()
    } else {
        s
    };
    let n = if signed {
        t.drop_first()
    } else {
        t
    };
    assert(n == m.push(c));
    assert(n.drop_last() == m);
    assert(n.last() == c);
    assert(t[0] == s[0]);
    if forall|i: int| 0 <= i < m.len() ==> is_digit(#[trigger] m[i]) {
        lemma_digits_value(m);
        if is_digit(c) {
            assert forall|i: int| 0 <= i < n.len() implies is_digit(#[trigger] n[i]) by {
                if i < m.len() {
                    assert(n[i] == m[i]);
                }
            }
        } else {
            assert(!is_digit(n[m.len() as int]));
        }
    } else {
        let i = choose|i: int| 0 <= i < m.len() && !is_digit(#[trigger] m[i]);
        assert(!is_digit(n[i]));
    }
}

/// A digit is read as its value, with or without a sign; a sign or another character alone is no
/// number, and neither is the empty text.
pub proof fn lemma_single_digits(c: char)
    ensures
        parsed_i32(Seq::empty()) is None,
        parsed_i32(seq!['-']) is None,
        parsed_i32(seq!['+']) is None,
        parsed_i32(seq![c]) == if 48 <= c as u32 <= 57 {
            Some((c as u32 - 48) as i32)
        } else {
            None
        },
        parsed_i32(seq!['+', c]) == parsed_i32(seq![c]),
        parsed_i32(seq!['-', c]) == if 48 <= c as u32 <= 57 {
            Some((48 - c as u32) as i32)
        } else {
            None
        },
{
    let s = seq![c];
    assert(s.drop_last() == Seq::<char>::empty());
    assert(digits_value(s) == c as int - 48) by {
        assert(digits_value(s.drop_last()) == 0);
    }
    assert(seq!['+', c].drop_first() == s);
    assert(seq!['-', c].drop_first() == s);
    assert(seq!['+'].drop_first() == Seq::<char>::empty());
    assert(seq!['-'].drop_first() == Seq::<char>::empty());
    assert(s[0] == c);
    if c == '-' || c == '+' {
        assert(s.drop_first() == Seq::<char>::empty());
    }
}

/// Texts take the bytes of each of them, and no others.
pub proof fn lemma_bytes_of_texts(text: Seq<char>, first: Seq<Seq<char>>, second: Seq<Seq<char>>)
    ensures
        text_bytes(Seq::empty()) == 0,
        text_bytes(seq![text]) == encode_utf8(text).len(),
        text_bytes(first + second) == text_bytes(first) + text_bytes(second),
    decreases second.len(),
{
    assert(seq![text].drop_last() == Seq::<Seq<char>>::empty());
    assert(text_bytes(seq![text].drop_last()) == 0);
    if second.len() == 0 {
        assert(first + second == first);
    } else {
        lemma_bytes_of_texts(text, first, second.drop_last());
        assert((first + second).drop_last() == first + second.drop_last());
        assert((first + second).last() == second.last());
    }
}

/// The characters of texts are taken text by text.
pub proof fn lemma_text_views(texts: Seq<String>)
    ensures
        text_views(texts).len() == texts.len(),
        forall|i: int| 0 <= i < texts.len() ==> #[trigger] text_views(texts)[i] == texts[i]@,
{
}

} // verus!
