//! The pure decisions of the request handlers: input sanitising and the
//! ownership check a caller must pass before touching a user record.  The
//! HTTP plumbing around them lives in the embedding.

use vstd::prelude::*;
use vstd::string::*;
use crate::codec::{push_char, Claims};

verus! {

/// The characters the sanitizer strips from anywhere in the input.
pub open spec fn is_removed_char(c: char) -> bool {
    c == '<' || c == '>' || c == '&' || c == '"' || c == '\''
}

/// Unicode whitespace, as trimming understands it.
pub open spec fn is_space_char(c: char) -> bool {
    ||| 9 <= c as u32 <= 13
    ||| c as u32 == 32
    ||| c as u32 == 133
    ||| c as u32 == 160
    ||| c as u32 == 5760
    ||| 8192 <= c as u32 <= 8202
    ||| c as u32 == 8232
    ||| c as u32 == 8233
    ||| c as u32 == 8239
    ||| c as u32 == 8287
    ||| c as u32 == 12288
}

pub open spec fn drop_leading_spaces(s: Seq<char>) -> Seq<char>
    decreases s.len(),
{
    if s.len() > 0 && is_space_char(s[0]) {
        drop_leading_spaces(s.skip(1))
    } else {
        s
    }
}

pub open spec fn drop_trailing_spaces(s: Seq<char>) -> Seq<char>
    decreases s.len(),
{
    if s.len() > 0 && is_space_char(s.last()) {
        drop_trailing_spaces(s.drop_last())
    } else {
        s
    }
}

pub open spec fn trim_of(s: Seq<char>) -> Seq<char> {
    drop_trailing_spaces(drop_leading_spaces(s))
}

/// The input with every stripped character removed.
pub open spec fn remove_specials(s: Seq<char>) -> Seq<char>
    decreases s.len(),
{
    if s.len() == 0 {
        Seq::empty()
    } else if is_removed_char(s[0]) {
        remove_specials(s.skip(1))
    } else {
        seq![s[0]] + remove_specials(s.skip(1))
    }
}

/// What sanitising means: trim both ends, then strip the markup-sensitive
/// characters everywhere.
pub open spec fn sanitize_spec(s: Seq<char>) -> Seq<char> {
    remove_specials(trim_of(s))
}

proof fn lemma_drop_leading_is_skip(s: Seq<char>, i: int)
    requires
        0 <= i <= s.len(),
        forall|k: int| 0 <= k < i ==> is_space_char(#[trigger] s[k]),
        i < s.len() ==> !is_space_char(s[i]),
    ensures
        drop_leading_spaces(s) == s.skip(i),
    decreases i,
{
    if i == 0 {
        assert(s.skip(0) =~= s);
    } else {
        assert(is_space_char(s[0]));
        lemma_drop_leading_is_skip(s.skip(1), i - 1);
        assert(s.skip(1).skip(i - 1) =~= s.skip(i));
    }
}

proof fn lemma_drop_trailing_is_take(s: Seq<char>, j: int)
    requires
        0 <= j <= s.len(),
        forall|k: int| j <= k < s.len() ==> is_space_char(#[trigger] s[k]),
        j > 0 ==> !is_space_char(s[j - 1]),
    ensures
        drop_trailing_spaces(s) == s.subrange(0, j),
    decreases s.len() - j,
{
    if j == s.len() as int {
        if j == 0 {
            assert(s.subrange(0, 0) =~= s);
        } else {
            assert(!is_space_char(s.last()));
            assert(s.subrange(0, j) =~= s);
        }
    } else {
        assert(is_space_char(s.last()));
        lemma_drop_trailing_is_take(s.drop_last(), j);
        assert(s.drop_last().subrange(0, j) =~= s.subrange(0, j));
    }
}

proof fn lemma_remove_specials_concat(a: Seq<char>, b: Seq<char>)
    ensures
        remove_specials(a + b) == remove_specials(a) + remove_specials(b),
    decreases a.len(),
{
    if a.len() == 0 {
        assert(a + b =~= b);
        assert(remove_specials(a) + remove_specials(b) =~= remove_specials(b));
    } else {
        lemma_remove_specials_concat(a.skip(1), b);
        assert((a + b).skip(1) =~= a.skip(1) + b);
        assert((a + b)[0] == a[0]);
        if !is_removed_char(a[0]) {
            assert(seq![a[0]] + (remove_specials(a.skip(1)) + remove_specials(b)) =~= (seq![a[0]]
                + remove_specials(a.skip(1))) + remove_specials(b));
        }
    }
}

fn is_space(c: char) -> (r: bool)
    ensures
        r == is_space_char(c),
{
    let u = c as u32;
    (9 <= u && u <= 13) || u == 32 || u == 133 || u == 160 || u == 5760 || (8192 <= u && u <= 8202)
        || u == 8232 || u == 8233 || u == 8239 || u == 8287 || u == 12288
}

/// Trims the input and strips the markup-sensitive characters.
pub fn sanitize_input(input: &str) -> (r: String)
    ensures
        r@ == sanitize_spec(input@),
{
    let n = input.unicode_len();
    let mut start: usize = 0;
    while start < n && is_space(input.get_char(start))
        invariant
            n == input@.len(),
            0 <= start <= n,
            forall|k: int| 0 <= k < start ==> is_space_char(#[trigger] input@[k]),
        decreases n - start,
    {
        start = start + 1;
    }
    let mut end: usize = n;
    while end > start && is_space(input.get_char(end - 1))
        invariant
            n == input@.len(),
            start <= end <= n,
            forall|k: int| end <= k < n ==> is_space_char(#[trigger] input@[k]),
            forall|k: int| 0 <= k < start ==> is_space_char(#[trigger] input@[k]),
            start < n ==> !is_space_char(input@[start as int]),
        decreases end,
    {
        end = end - 1;
    }
    proof {
        lemma_drop_leading_is_skip(input@, start as int);
        let t = input@.skip(start as int);
        assert forall|k: int| end - start <= k < t.len() implies is_space_char(
            #[trigger] t[k],
        ) by {
            assert(t[k] == input@[k + start]);
        }
        if end > start {
            assert(!is_space_char(t[end - start - 1]));
        }
        lemma_drop_trailing_is_take(t, end - start);
        assert(trim_of(input@) =~= input@.subrange(start as int, end as int));
    }
    let mut out = String::new();
    let mut i: usize = start;
    proof {
        assert(input@.subrange(start as int, start as int) =~= Seq::<char>::empty());
        assert(out@ =~= remove_specials(input@.subrange(start as int, start as int)));
    }
    while i < end
        invariant
            n == input@.len(),
            start <= i <= end <= n,
            out@ == remove_specials(input@.subrange(start as int, i as int)),
        decreases end - i,
    {
        let c = input.get_char(i);
        if !(c == '<' || c == '>' || c == '&' || c == '"' || c == '\'') {
            push_char(&mut out, c);
        }
        proof {
            let a = input@.subrange(start as int, i as int);
            let cs = seq![input@[i as int]];
            lemma_remove_specials_concat(a, cs);
            assert(input@.subrange(start as int, i + 1) =~= a + cs);
            assert(cs.skip(1) =~= Seq::<char>::empty());
            assert(remove_specials(Seq::<char>::empty()) == Seq::<char>::empty());
            if is_removed_char(input@[i as int]) {
                assert(remove_specials(cs) =~= Seq::<char>::empty());
                assert(out@ =~= remove_specials(input@.subrange(start as int, i + 1)));
            } else {
                assert(remove_specials(cs) =~= cs);
                assert(out@ =~= remove_specials(input@.subrange(start as int, i + 1)));
            }
        }
        i = i + 1;
    }
    proof {
        assert(trim_of(input@) == input@.subrange(start as int, end as int));
    }
    out
}

/// A caller may touch a user record only if the authenticated subject is
/// that very user.
pub fn can_access(claims: &Claims, id: u64) -> (r: bool)
    ensures
        r == (claims.sub == id),
{
    claims.sub == id
}

} // verus!
