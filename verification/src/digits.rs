//! Decimal rendering and strict parsing of the integer fields that a token
//! payload carries: the subject identifier (unsigned) and the expiry
//! timestamp (signed).  Rendering is canonical (no leading zeros, no
//! `-0`), and the parser accepts exactly the canonical forms, so the two
//! are mutually inverse.

use vstd::prelude::*;
use vstd::string::*;

verus! {

pub open spec fn is_digit_char(c: char) -> bool {
    48 <= c as u32 <= 57
}

pub open spec fn digit_val(c: char) -> int {
    c as u32 - 48
}

pub open spec fn digit_char(d: int) -> char
    recommends
        0 <= d < 10,
{
    if d == 0 {
        '0'
    } else if d == 1 {
        '1'
    } else if d == 2 {
        '2'
    } else if d == 3 {
        '3'
    } else if d == 4 {
        '4'
    } else if d == 5 {
        '5'
    } else if d == 6 {
        '6'
    } else if d == 7 {
        '7'
    } else if d == 8 {
        '8'
    } else {
        '9'
    }
}

/// The canonical decimal rendering of a natural number.
pub open spec fn dec_of(n: nat) -> Seq<char>
    decreases n,
{
    if n < 10 {
        seq![digit_char(n as int)]
    } else {
        dec_of(n / 10).push(digit_char((n % 10) as int))
    }
}

/// The canonical decimal rendering of an integer, with a leading `-` for
/// negative values.
pub open spec fn int_of(v: int) -> Seq<char> {
    if v < 0 {
        seq!['-'] + dec_of((-v) as nat)
    } else {
        dec_of(v as nat)
    }
}

/// A non-empty, all-digit string without a superfluous leading zero.
pub open spec fn is_canonical_dec(s: Seq<char>) -> bool {
    &&& s.len() > 0
    &&& forall|i: int| 0 <= i < s.len() ==> is_digit_char(#[trigger] s[i])
    &&& (s.len() > 1 ==> s[0] != '0')
}

/// A canonical signed decimal string: either canonical digits, or `-`
/// followed by canonical digits of a nonzero value.
pub open spec fn is_canonical_int(s: Seq<char>) -> bool {
    if s.len() > 0 && s[0] == '-' {
        is_canonical_dec(s.skip(1)) && dec_val(s.skip(1)) != 0
    } else {
        is_canonical_dec(s)
    }
}

/// The value of an all-digit string.
pub open spec fn dec_val(s: Seq<char>) -> nat
    decreases s.len(),
{
    if s.len() == 0 {
        0
    } else {
        (dec_val(s.drop_last()) * 10 + digit_val(s.last())) as nat
    }
}

/// The value of a canonical signed decimal string.
pub open spec fn int_val(s: Seq<char>) -> int {
    if s.len() > 0 && s[0] == '-' {
        -(dec_val(s.skip(1)) as int)
    } else {
        dec_val(s) as int
    }
}

pub proof fn lemma_dec_of_canonical(n: nat)
    ensures
        is_canonical_dec(dec_of(n)),
        dec_of(n)[0] == '0' <==> n == 0,
    decreases n,
{
    if n >= 10 {
        lemma_dec_of_canonical(n / 10);
        assert(dec_of(n) == dec_of(n / 10).push(digit_char((n % 10) as int)));
        assert(dec_of(n)[0] == dec_of(n / 10)[0]);
    }
}

proof fn lemma_digit_round_trip(d: int)
    requires
        0 <= d < 10,
    ensures
        digit_val(digit_char(d)) == d,
{
}

pub proof fn lemma_dec_val_of(n: nat)
    ensures
        dec_val(dec_of(n)) == n,
    decreases n,
{
    lemma_digit_round_trip((n % 10) as int);
    if n < 10 {
        let s = dec_of(n);
        assert(s.drop_last() =~= Seq::<char>::empty());
        assert(s.last() == digit_char(n as int));
        assert(dec_val(s) == (dec_val(s.drop_last()) * 10 + digit_val(s.last())) as nat);
    } else {
        lemma_dec_val_of(n / 10);
        let s = dec_of(n / 10).push(digit_char((n % 10) as int));
        assert(dec_of(n) == s);
        assert(s.drop_last() =~= dec_of(n / 10));
        assert(s.last() == digit_char((n % 10) as int));
        assert(dec_val(s) == (dec_val(s.drop_last()) * 10 + digit_val(s.last())) as nat);
    }
}

pub proof fn lemma_int_val_of(v: int)
    ensures
        int_val(int_of(v)) == v,
        is_canonical_int(int_of(v)),
{
    if v < 0 {
        lemma_dec_val_of((-v) as nat);
        lemma_dec_of_canonical((-v) as nat);
        assert(int_of(v).skip(1) =~= dec_of((-v) as nat));
        assert(int_of(v)[0] == '-');
    } else {
        lemma_dec_val_of(v as nat);
        lemma_dec_of_canonical(v as nat);
        assert(int_of(v)[0] != '-');
    }
}

/// Extending an all-digit string on the right never decreases its value.
proof fn lemma_dec_val_prefix_le(s: Seq<char>, i: int, j: int)
    requires
        0 <= i <= j <= s.len(),
        forall|k: int| 0 <= k < j ==> is_digit_char(#[trigger] s[k]),
    ensures
        dec_val(s.subrange(0, i)) <= dec_val(s.subrange(0, j)),
    decreases j - i,
{
    if i < j {
        lemma_dec_val_prefix_le(s, i, j - 1);
        let p = s.subrange(0, j);
        assert(p.drop_last() =~= s.subrange(0, j - 1));
        assert(is_digit_char(p.last()));
        assert(dec_val(p) == dec_val(p.drop_last()) * 10 + digit_val(p.last()));
    }
}

fn digit_str(d: u64) -> (r: &'static str)
    requires
        d < 10,
    ensures
        r@ =~= seq![digit_char(d as int)],
{
    proof {
        reveal_strlit("0");
        reveal_strlit("1");
        reveal_strlit("2");
        reveal_strlit("3");
        reveal_strlit("4");
        reveal_strlit("5");
        reveal_strlit("6");
        reveal_strlit("7");
        reveal_strlit("8");
        reveal_strlit("9");
    }
    if d == 0 {
        "0"
    } else if d == 1 {
        "1"
    } else if d == 2 {
        "2"
    } else if d == 3 {
        "3"
    } else if d == 4 {
        "4"
    } else if d == 5 {
        "5"
    } else if d == 6 {
        "6"
    } else if d == 7 {
        "7"
    } else if d == 8 {
        "8"
    } else {
        "9"
    }
}

/// Appends the canonical decimal rendering of `n` to `out`.
pub fn push_u64_dec(n: u64, out: &mut String)
    ensures
        final(out)@ == old(out)@ + dec_of(n as nat),
    decreases n,
{
    if n >= 10 {
        push_u64_dec(n / 10, out);
    }
    out.append(digit_str(n % 10));
    proof {
        if n < 10 {
            assert(old(out)@ + dec_of(n as nat) =~= final(out)@);
        } else {
            assert(old(out)@ + dec_of(n as nat) =~= final(out)@);
        }
    }
}

/// Appends the canonical signed decimal rendering of `v` to `out`.
pub fn push_i64_dec(v: i64, out: &mut String)
    ensures
        final(out)@ == old(out)@ + int_of(v as int),
{
    proof {
        reveal_strlit("-");
    }
    if v < 0 {
        out.append("-");
        let m: u64 = if v == i64::MIN {
            9223372036854775808u64
        } else {
            (-v) as u64
        };
        assert(m as nat == (-(v as int)) as nat);
        push_u64_dec(m, out);
        assert(final(out)@ =~= old(out)@ + int_of(v as int));
    } else {
        push_u64_dec(v as u64, out);
    }
}

/// Parses a canonical decimal string into a `u64`; returns `None` exactly
/// when the string is not canonical or its value does not fit.
pub fn parse_u64_dec(s: &str) -> (r: Option<u64>)
    ensures
        r is Some <==> is_canonical_dec(s@) && dec_val(s@) <= u64::MAX,
        r is Some ==> r->Some_0 as nat == dec_val(s@),
{
    let n = s.unicode_len();
    if n == 0 {
        return None;
    }
    if n > 1 && s.get_char(0) == '0' {
        return None;
    }
    let mut acc: u64 = 0;
    let mut i: usize = 0;
    while i < n
        invariant
            0 < n == s@.len(),
            0 <= i <= n,
            n > 1 ==> s@[0] != '0',
            forall|k: int| 0 <= k < i ==> is_digit_char(#[trigger] s@[k]),
            acc as nat == dec_val(s@.subrange(0, i as int)),
        decreases n - i,
    {
        let c = s.get_char(i);
        let u = c as u32;
        if u < 48 || u > 57 {
            return None;
        }
        let d = (u - 48) as u64;
        proof {
            assert(s@.subrange(0, i + 1).drop_last() =~= s@.subrange(0, i as int));
        }
        let next = match acc.checked_mul(10) {
            Some(t) => t.checked_add(d),
            None => None,
        };
        match next {
            Some(t) => {
                acc = t;
            },
            None => {
                proof {
                    if is_canonical_dec(s@) {
                        lemma_dec_val_prefix_le(s@, i + 1, n as int);
                        assert(s@.subrange(0, n as int) =~= s@);
                    }
                }
                return None;
            },
        }
        i = i + 1;
    }
    proof {
        assert(s@.subrange(0, n as int) =~= s@);
    }
    Some(acc)
}

/// Parses a canonical signed decimal string into an `i64`; returns `None`
/// exactly when the string is not canonical or its value does not fit.
pub fn parse_i64_dec(s: &str) -> (r: Option<i64>)
    ensures
        r is Some <==> is_canonical_int(s@) && i64::MIN <= int_val(s@) <= i64::MAX,
        r is Some ==> r->Some_0 as int == int_val(s@),
{
    let n = s.unicode_len();
    if n > 0 && s.get_char(0) == '-' {
        let rest = s.substring_char(1, n);
        assert(rest@ =~= s@.skip(1));
        match parse_u64_dec(rest) {
            Some(m) => {
                if m == 0 {
                    None
                } else if m > 9223372036854775808u64 {
                    proof {
                        assert(int_val(s@) < i64::MIN);
                    }
                    None
                } else if m == 9223372036854775808u64 {
                    Some(i64::MIN)
                } else {
                    Some(-(m as i64))
                }
            },
            None => {
                proof {
                    if is_canonical_int(s@) && i64::MIN <= int_val(s@) <= i64::MAX {
                        assert(dec_val(rest@) <= u64::MAX);
                    }
                }
                None
            },
        }
    } else {
        match parse_u64_dec(s) {
            Some(m) => {
                if m <= i64::MAX as u64 {
                    Some(m as i64)
                } else {
                    None
                }
            },
            None => None,
        }
    }
}

} // verus!
