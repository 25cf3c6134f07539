//! Decimal rendering of arbitrary-precision values, and grouping of the
//! resulting digit strings with a separator every three digits.

use vstd::prelude::*;
use crate::big::Big;

verus! {

/// The decimal digit character for a value below ten.
pub open spec fn dec_char(d: nat) -> char {
    if d == 0 {
        '0'
    } else if d == 1 {
        '1'
    } else if d == 2 {
        '2'
    } else if d == 3 {
        '3'
    } else if d == 4 {
        '4'
    } else if d == 5 {
        '5'
    } else if d == 6 {
        '6'
    } else if d == 7 {
        '7'
    } else if d == 8 {
        '8'
    } else {
        '9'
    }
}

/// The decimal digit characters of `n`, most significant first, with no
/// leading zero; zero itself is the single character `'0'`.
pub open spec fn dec_digits(n: nat) -> Seq<char>
    decreases n,
{
    if n < 10 {
        seq![dec_char(n)]
    } else {
        dec_digits(n / 10).push(dec_char(n % 10))
    }
}

/// `s` with a comma inserted every three characters, counted from the end.
pub open spec fn grouped(s: Seq<char>) -> Seq<char>
    decreases s.len(),
{
    if s.len() <= 3 {
        s
    } else {
        grouped(s.take(s.len() - 3)) + seq![','] + s.skip(s.len() - 3)
    }
}

/// A decimal digit sequence is never empty and always ASCII.
pub proof fn lemma_dec_digits_wf(n: nat)
    ensures
        dec_digits(n).len() >= 1,
        vstd::utf8::is_ascii_chars(dec_digits(n)),
    decreases n,
{
    if n < 10 {
    } else {
        lemma_dec_digits_wf(n / 10);
        assert(dec_digits(n) == dec_digits(n / 10).push(dec_char(n % 10)));
    }
}

/// One decimal digit as a string slice.
fn digit_piece(d: u64) -> (r: &'static str)
    requires
        d < 10,
    ensures
        r@ =~= seq![dec_char(d as nat)],
{
    let digits = "0123456789";
    proof {
        reveal_strlit("0123456789");
    }
    let i = d as usize;
    let r = digits.substring_ascii(i, i + 1);
    proof {
        assert(r@ =~= seq![dec_char(d as nat)]);
    }
    r
}

/// Renders `n` in decimal, most significant digit first.
pub fn to_decimal(n: &Big) -> (r: String)
    ensures
        r@ == dec_digits(n@),
        vstd::utf8::is_ascii_chars(r@),
    decreases n@,
{
    let ten = Big::from_u64(10);
    let (q, rem) = n.divmod_big(&ten);
    let rem64: u64 = match rem.to_u64() {
        Some(v) => v,
        None => vstd::pervasive::unreached(),
    };
    let piece = digit_piece(rem64);
    if q.is_zero() {
        proof {
            assert(n@ < 10);
            assert(n@ % 10 == n@);
        }
        let mut s = String::new();
        s.append(piece);
        proof {
            assert(s@ =~= dec_digits(n@));
        }
        s
    } else {
        proof {
            assert(n@ >= 10) by {
                if n@ < 10 {
                    assert(n@ / 10 == 0);
                }
            }
        }
        let mut s = to_decimal(&q);
        s.append(piece);
        proof {
            assert(s@ =~= dec_digits(n@));
        }
        s
    }
}

/// Groups the first `end` characters of `s` with a comma every three digits.
fn group_prefix(s: &str, end: usize) -> (r: String)
    requires
        s.is_ascii(),
        end <= s@.len(),
    ensures
        r@ == grouped(s@.take(end as int)),
    decreases end,
{
    if end <= 3 {
        let p = s.substring_ascii(0, end);
        let r = p.to_owned();
        proof {
            assert(r@ =~= grouped(s@.take(end as int)));
        }
        r
    } else {
        let mut r = group_prefix(s, end - 3);
        r.append(",");
        let tail = s.substring_ascii(end - 3, end);
        r.append(tail);
        proof {
            reveal_strlit(",");
            assert(s@.take(end as int).take(end - 3) =~= s@.take(end - 3));
            assert(s@.take(end as int).skip(end - 3) =~= s@.subrange(end - 3, end as int));
            assert(r@ =~= grouped(s@.take(end as int)));
        }
        r
    }
}

/// Renders an arbitrary-precision value in decimal with a comma between every
/// group of three digits, counted from the least significant digit; zero
/// renders as `"0"`.
pub fn format_with_separators(n: &Big) -> (r: String)
    ensures
        r@ == grouped(dec_digits(n@)),
{
    let s = to_decimal(n);
    let slice = s.as_str();
    let len = slice.unicode_len();
    let r = group_prefix(slice, len);
    proof {
        assert(slice@.take(len as int) =~= dec_digits(n@));
    }
    r
}

} // verus!
