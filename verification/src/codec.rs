//! The wire format of a signed token: `HS256.<payload>.<signature>`.
//!
//! The payload carries the claims as `<subject>:<expiry>:<role>` with the
//! role percent-escaped so that the payload never contains a dot.  The
//! signature is the keyed MAC of everything before the last separator,
//! computed by an outside primitive; everything else — rendering, escaping,
//! splitting, strict parsing — is this module's own verified logic, and
//! decoding is proved to invert encoding.

use vstd::prelude::*;
use vstd::string::*;
use crate::digits::{dec_of, dec_val, int_of, int_val, is_canonical_dec, is_canonical_int,
    is_digit_char, lemma_dec_of_canonical, lemma_dec_val_of, lemma_int_val_of, parse_i64_dec,
    parse_u64_dec, push_i64_dec, push_u64_dec};

verus! {

/// The escaped form of one role character: the payload must stay free of
/// `.`, so `.` and the escape lead-in `%` get two-character escapes.
pub open spec fn esc_char(c: char) -> Seq<char> {
    if c == '.' {
        seq!['%', 'd']
    } else if c == '%' {
        seq!['%', 'p']
    } else {
        seq![c]
    }
}

/// The escaped form of a role string.
pub open spec fn esc(s: Seq<char>) -> Seq<char>
    decreases s.len(),
{
    if s.len() == 0 {
        Seq::empty()
    } else {
        esc_char(s[0]) + esc(s.skip(1))
    }
}

/// Strict inverse of `esc`: `None` on a dangling or unknown escape.
pub open spec fn unesc(s: Seq<char>) -> Option<Seq<char>>
    decreases s.len(),
{
    if s.len() == 0 {
        Some(Seq::empty())
    } else if s[0] == '%' {
        if s.len() >= 2 && s[1] == 'd' {
            match unesc(s.skip(2)) {
                Some(r) => Some(seq!['.'] + r),
                None => None,
            }
        } else if s.len() >= 2 && s[1] == 'p' {
            match unesc(s.skip(2)) {
                Some(r) => Some(seq!['%'] + r),
                None => None,
            }
        } else {
            None
        }
    } else {
        match unesc(s.skip(1)) {
            Some(r) => Some(seq![s[0]] + r),
            None => None,
        }
    }
}

pub proof fn lemma_esc_concat(a: Seq<char>, b: Seq<char>)
    ensures
        esc(a + b) == esc(a) + esc(b),
    decreases a.len(),
{
    if a.len() == 0 {
        assert(a + b =~= b);
        assert(esc(a) + esc(b) =~= esc(b));
    } else {
        lemma_esc_concat(a.skip(1), b);
        assert((a + b).skip(1) =~= a.skip(1) + b);
        assert((a + b)[0] == a[0]);
        assert(esc_char(a[0]) + (esc(a.skip(1)) + esc(b)) =~= (esc_char(a[0]) + esc(a.skip(1)))
            + esc(b));
    }
}

pub proof fn lemma_esc_no_dot(s: Seq<char>)
    ensures
        forall|i: int| 0 <= i < esc(s).len() ==> #[trigger] esc(s)[i] != '.',
    decreases s.len(),
{
    if s.len() > 0 {
        lemma_esc_no_dot(s.skip(1));
        assert forall|i: int| 0 <= i < esc(s).len() implies #[trigger] esc(s)[i] != '.' by {
            let h = esc_char(s[0]);
            if i < h.len() {
                assert(esc(s)[i] == h[i]);
            } else {
                assert(esc(s)[i] == esc(s.skip(1))[i - h.len()]);
            }
        }
    }
}

pub proof fn lemma_unesc_esc(s: Seq<char>)
    ensures
        unesc(esc(s)) == Some(s),
    decreases s.len(),
{
    if s.len() == 0 {
    } else {
        lemma_unesc_esc(s.skip(1));
        let h = esc_char(s[0]);
        let t = esc(s);
        assert(t =~= h + esc(s.skip(1)));
        if s[0] == '.' {
            assert(t[0] == '%' && t.len() >= 2 && t[1] == 'd');
            assert(t.skip(2) =~= esc(s.skip(1)));
            assert(seq!['.'] + s.skip(1) =~= s);
        } else if s[0] == '%' {
            assert(t[0] == '%' && t.len() >= 2 && t[1] == 'p');
            assert(t.skip(2) =~= esc(s.skip(1)));
            assert(seq!['%'] + s.skip(1) =~= s);
        } else {
            assert(t[0] == s[0]);
            assert(t.skip(1) =~= esc(s.skip(1)));
            assert(seq![s[0]] + s.skip(1) =~= s);
        }
    }
}

/// Index of the first occurrence of `c` in `s`.
pub open spec fn find_char(s: Seq<char>, c: char) -> Option<int>
    decreases s.len(),
{
    if s.len() == 0 {
        None
    } else if s[0] == c {
        Some(0)
    } else {
        match find_char(s.skip(1), c) {
            Some(i) => Some(i + 1),
            None => None,
        }
    }
}

pub proof fn lemma_find_char(s: Seq<char>, c: char)
    ensures
        match find_char(s, c) {
            Some(i) => 0 <= i < s.len() && s[i] == c && forall|k: int|
                0 <= k < i ==> #[trigger] s[k] != c,
            None => forall|k: int| 0 <= k < s.len() ==> #[trigger] s[k] != c,
        },
    decreases s.len(),
{
    if s.len() > 0 && s[0] != c {
        lemma_find_char(s.skip(1), c);
        match find_char(s.skip(1), c) {
            Some(i) => {
                assert forall|k: int| 0 <= k < i + 1 implies #[trigger] s[k] != c by {
                    if k > 0 {
                        assert(s[k] == s.skip(1)[k - 1]);
                    }
                }
            },
            None => {
                assert forall|k: int| 0 <= k < s.len() implies #[trigger] s[k] != c by {
                    if k > 0 {
                        assert(s[k] == s.skip(1)[k - 1]);
                    }
                }
            },
        }
    }
}

/// The payload of a signed token: a subject identifier, an absolute expiry
/// timestamp (seconds), and a role tag.  Immutable once issued.
#[derive(Debug)]
pub struct Claims {
    pub sub: u64,
    pub exp: i64,
    pub role: String,
}

/// The mathematical content of a `Claims` value.
pub ghost struct ClaimsView {
    pub sub: u64,
    pub exp: int,
    pub role: Seq<char>,
}

impl View for Claims {
    type V = ClaimsView;

    open spec fn view(&self) -> ClaimsView {
        ClaimsView { sub: self.sub, exp: self.exp as int, role: self.role@ }
    }
}

impl Clone for Claims {
    fn clone(&self) -> (r: Self)
        ensures
            r@ == self@,
    {
        Claims { sub: self.sub, exp: self.exp, role: self.role.clone() }
    }
}

/// The fixed header naming the signature scheme.
pub open spec fn header_seq() -> Seq<char> {
    seq!['H', 'S', '2', '5', '6']
}

/// The serialized claims: `<subject>:<expiry>:<escaped role>`.  The two
/// decimal fields and the escaped role are all free of `.`, so the payload
/// is too.
pub open spec fn payload_of(c: ClaimsView) -> Seq<char> {
    dec_of(c.sub as nat) + seq![':'] + int_of(c.exp) + seq![':'] + esc(c.role)
}

/// What the signature is computed over: header and payload.
pub open spec fn signing_input_of(c: ClaimsView) -> Seq<char> {
    header_seq() + seq!['.'] + payload_of(c)
}

/// The keyed MAC of `msg` under `secret`, as the outside signing primitive
/// renders it; a pure function of both, never stated further.
pub uninterp spec fn sig_of(msg: Seq<char>, secret: Seq<u8>) -> Seq<char>;

/// The complete wire form of a token.
pub open spec fn token_of(c: ClaimsView, secret: Seq<u8>) -> Seq<char> {
    signing_input_of(c) + seq!['.'] + sig_of(signing_input_of(c), secret)
}

/// Relies on jsonwebtoken's `crypto::sign` with `Algorithm::HS256`: the
/// result is the base64url (unpadded) HMAC-SHA-256 of the message under the
/// secret — a pure function of the two arguments, here named `sig_of`.  For
/// an HMAC key the provider accepts any secret length and signing cannot
/// fail, so the `Result` is always `Ok`.
#[verifier::external_body]
fn sign_message(msg: &str, secret: &[u8]) -> (r: String)
    ensures
        r@ == sig_of(msg@, secret@),
{
    jsonwebtoken::crypto::sign(
        msg.as_bytes(),
        &jsonwebtoken::EncodingKey::from_secret(secret),
        jsonwebtoken::Algorithm::HS256,
    ).expect("HMAC signing is infallible")
}

/// Relies on jsonwebtoken's `crypto::verify` with `Algorithm::HS256`: it
/// recomputes the MAC of the message and compares in constant time.  The
/// base64url decoding it applies to the presented signature is strictly
/// canonical (no padding, no trailing bits), so acceptance is equivalent to
/// the presented string being exactly `sig_of` of the message; a decoding
/// error is a mismatch.
#[verifier::external_body]
fn verify_signature(sig: &str, msg: &str, secret: &[u8]) -> (r: bool)
    ensures
        r == (sig@ == sig_of(msg@, secret@)),
{
    jsonwebtoken::crypto::verify(
        sig,
        msg.as_bytes(),
        &jsonwebtoken::DecodingKey::from_secret(secret),
        jsonwebtoken::Algorithm::HS256,
    ).unwrap_or(false)
}

/// Relies on `String::push`: appends exactly the one character.
#[verifier::external_body]
pub(crate) fn push_char(out: &mut String, c: char)
    ensures
        final(out)@ == old(out)@.push(c),
{
    out.push(c);
}

/// Appends the escaped form of `s` to `out`.
fn push_escaped(s: &str, out: &mut String)
    ensures
        final(out)@ == old(out)@ + esc(s@),
{
    let n = s.unicode_len();
    let mut i: usize = 0;
    proof {
        assert(out@ + esc(s@.subrange(0, 0)) =~= out@);
    }
    while i < n
        invariant
            n == s@.len(),
            0 <= i <= n,
            out@ == old(out)@ + esc(s@.subrange(0, i as int)),
        decreases n - i,
    {
        proof {
            reveal_strlit("%d");
            reveal_strlit("%p");
        }
        let c = s.get_char(i);
        if c == '.' {
            out.append("%d");
        } else if c == '%' {
            out.append("%p");
        } else {
            push_char(out, c);
        }
        proof {
            let c = s@[i as int];
            lemma_esc_concat(s@.subrange(0, i as int), seq![c]);
            assert(s@.subrange(0, i + 1) =~= s@.subrange(0, i as int) + seq![c]);
            assert(seq![c].skip(1) =~= Seq::<char>::empty());
            assert(esc(seq![c]) == esc_char(c) + esc(Seq::<char>::empty()));
            assert(esc(seq![c]) =~= esc_char(c));
            assert(out@ =~= old(out)@ + esc(s@.subrange(0, i + 1)));
        }
        i = i + 1;
    }
    proof {
        assert(s@.subrange(0, n as int) =~= s@);
    }
}

/// Serializes and signs `claims`: the only way a valid token comes to be.
pub fn encode_claims(claims: &Claims, secret: &[u8]) -> (r: String)
    ensures
        r@ == token_of(claims@, secret@),
{
    proof {
        reveal_strlit("HS256.");
        reveal_strlit(":");
        reveal_strlit(".");
    }
    let mut s = String::from_str("HS256.");
    proof {
        assert(s@ =~= header_seq() + seq!['.']);
    }
    push_u64_dec(claims.sub, &mut s);
    s.append(":");
    push_i64_dec(claims.exp, &mut s);
    s.append(":");
    push_escaped(claims.role.as_str(), &mut s);
    proof {
        assert(s@ =~= signing_input_of(claims@));
    }
    let sig = sign_message(s.as_str(), secret);
    s.append(".");
    s.append(sig.as_str());
    proof {
        assert(s@ =~= token_of(claims@, secret@));
    }
    s
}

/// A character of a canonical signed decimal rendering is a minus sign or
/// a digit.
proof fn lemma_int_of_chars(v: int, k: int)
    requires
        0 <= k < int_of(v).len(),
    ensures
        int_of(v)[k] == '-' || is_digit_char(int_of(v)[k]),
{
    if v < 0 {
        lemma_dec_of_canonical((-v) as nat);
        if k > 0 {
            assert(int_of(v)[k] == dec_of((-v) as nat)[k - 1]);
        }
    } else {
        lemma_dec_of_canonical(v as nat);
    }
}

/// Decoding inverts encoding: a token rendered from claims splits, passes
/// its own signature check, and parses back to exactly those claims.
pub proof fn lemma_decode_inverts_encode(c: ClaimsView, secret: Seq<u8>)
    requires
        i64::MIN <= c.exp <= i64::MAX,
    ensures
        spec_decode_raw(token_of(c, secret), secret) == Ok::<ClaimsView, DecodeError>(c),
{
    let subs = dec_of(c.sub as nat);
    let exps = int_of(c.exp);
    let roles = esc(c.role);
    let pay = payload_of(c);
    let si = signing_input_of(c);
    let sg = sig_of(si, secret);
    let t = token_of(c, secret);
    lemma_dec_of_canonical(c.sub as nat);
    lemma_dec_val_of(c.sub as nat);
    lemma_int_val_of(c.exp);
    lemma_esc_no_dot(c.role);
    lemma_unesc_esc(c.role);
    // the split: header, then the payload up to the first dot after it
    assert(t.len() >= 6);
    assert(t.subrange(0, 6) =~= header_seq() + seq!['.']);
    let rest = t.skip(6);
    assert(rest =~= pay + seq!['.'] + sg);
    let l1 = subs.len() as int;
    let l2 = exps.len() as int;
    assert forall|k: int| 0 <= k < pay.len() implies #[trigger] pay[k] != '.' by {
        if k < l1 {
            assert(pay[k] == subs[k]);
            assert(is_digit_char(subs[k]));
        } else if k == l1 {
            assert(pay[k] == ':');
        } else if k < l1 + 1 + l2 {
            assert(pay[k] == exps[k - (l1 + 1)]);
            lemma_int_of_chars(c.exp, k - (l1 + 1));
        } else if k == l1 + 1 + l2 {
            assert(pay[k] == ':');
        } else {
            assert(pay[k] == roles[k - (l1 + 1 + l2 + 1)]);
        }
    }
    assert forall|k: int| 0 <= k < pay.len() implies #[trigger] rest[k] != '.' by {
        assert(rest[k] == pay[k]);
    }
    assert(rest[pay.len() as int] == '.');
    lemma_find_char_is(rest, '.', pay.len() as int);
    assert(rest.subrange(0, pay.len() as int) =~= pay);
    assert(rest.skip(pay.len() as int + 1) =~= sg);
    assert(spec_split(t) == Some((pay, sg)));
    // the signature check
    assert(t.subrange(0, 6 + pay.len() as int) =~= si);
    // the payload parse: subject up to the first colon
    assert forall|k: int| 0 <= k < l1 implies #[trigger] pay[k] != ':' by {
        assert(pay[k] == subs[k]);
        assert(is_digit_char(subs[k]));
    }
    assert(pay[l1] == ':');
    lemma_find_char_is(pay, ':', l1);
    let rest2 = pay.skip(l1 + 1);
    assert(rest2 =~= exps + seq![':'] + roles);
    // the expiry up to the next colon
    assert forall|k: int| 0 <= k < l2 implies #[trigger] rest2[k] != ':' by {
        assert(rest2[k] == exps[k]);
        lemma_int_of_chars(c.exp, k);
    }
    assert(rest2[l2] == ':');
    lemma_find_char_is(rest2, ':', l2);
    assert(pay.subrange(0, l1) =~= subs);
    assert(rest2.subrange(0, l2) =~= exps);
    assert(rest2.skip(l2 + 1) =~= roles);
    assert(spec_parse_payload(pay) == Some(c));
}

/// Why decoding a token failed.  `Malformed` is structural (the wire form
/// or the payload cannot be parsed), `InvalidSignature` means the embedded
/// signature is not the MAC of the received header and payload, and
/// `Expired` means the (authenticated) expiry has passed.
#[derive(Clone, Copy, Debug, PartialEq, Eq, Structural)]
pub enum DecodeError {
    Malformed,
    InvalidSignature,
    Expired,
}

/// Splits a candidate token into payload and signature: the fixed header,
/// a dot, the payload up to the next dot, and the signature after it.
pub open spec fn spec_split(t: Seq<char>) -> Option<(Seq<char>, Seq<char>)> {
    if t.len() >= 6 && t.subrange(0, 6) == header_seq() + seq!['.'] {
        match find_char(t.skip(6), '.') {
            Some(i) => Some((t.skip(6).subrange(0, i), t.skip(6).skip(i + 1))),
            None => None,
        }
    } else {
        None
    }
}

/// Strictly parses a payload back into claims: canonical decimal subject
/// and expiry separated by the first two colons, then the escaped role.
pub open spec fn spec_parse_payload(p: Seq<char>) -> Option<ClaimsView> {
    match find_char(p, ':') {
        Some(i) => match find_char(p.skip(i + 1), ':') {
            Some(k) => {
                let subs = p.subrange(0, i);
                let exps = p.skip(i + 1).subrange(0, k);
                let roles = p.skip(i + 1).skip(k + 1);
                if is_canonical_dec(subs) && dec_val(subs) <= u64::MAX && is_canonical_int(exps)
                    && i64::MIN <= int_val(exps) <= i64::MAX {
                    match unesc(roles) {
                        Some(role) => Some(
                            ClaimsView { sub: dec_val(subs) as u64, exp: int_val(exps), role },
                        ),
                        None => None,
                    }
                } else {
                    None
                }
            },
            None => None,
        },
        None => None,
    }
}

/// What decoding means, short of the expiry check: split, verify the
/// signature over header and payload, then parse the payload.
pub open spec fn spec_decode_raw(t: Seq<char>, secret: Seq<u8>) -> Result<ClaimsView, DecodeError> {
    match spec_split(t) {
        None => Err(DecodeError::Malformed),
        Some((payload, sig)) => {
            let msg = t.subrange(0, 6 + payload.len() as int);
            if sig != sig_of(msg, secret) {
                Err(DecodeError::InvalidSignature)
            } else {
                match spec_parse_payload(payload) {
                    Some(c) => Ok(c),
                    None => Err(DecodeError::Malformed),
                }
            }
        },
    }
}

/// Full decoding: as `spec_decode_raw`, and the authenticated expiry must
/// still lie in the future.
pub open spec fn spec_decode(t: Seq<char>, secret: Seq<u8>, now: int) -> Result<
    ClaimsView,
    DecodeError,
> {
    match spec_decode_raw(t, secret) {
        Ok(c) => if c.exp <= now {
            Err(DecodeError::Expired)
        } else {
            Ok(c)
        },
        Err(e) => Err(e),
    }
}

/// Character-wise string equality.
pub fn str_eq(a: &str, b: &str) -> (r: bool)
    ensures
        r == (a@ == b@),
{
    let n = a.unicode_len();
    let m = b.unicode_len();
    if n != m {
        return false;
    }
    let mut i: usize = 0;
    while i < n
        invariant
            n == a@.len() == b@.len(),
            0 <= i <= n,
            forall|k: int| 0 <= k < i ==> a@[k] == b@[k],
        decreases n - i,
    {
        if a.get_char(i) != b.get_char(i) {
            return false;
        }
        i = i + 1;
    }
    proof {
        assert(a@ =~= b@);
    }
    true
}

/// True iff `p` is a prefix of `s`.
pub fn has_prefix(s: &str, p: &str) -> (r: bool)
    ensures
        r == (s@.len() >= p@.len() && s@.subrange(0, p@.len() as int) == p@),
{
    let n = s.unicode_len();
    let m = p.unicode_len();
    if n < m {
        return false;
    }
    let mut i: usize = 0;
    while i < m
        invariant
            m == p@.len() <= n == s@.len(),
            0 <= i <= m,
            forall|k: int| 0 <= k < i ==> s@[k] == p@[k],
        decreases m - i,
    {
        if s.get_char(i) != p.get_char(i) {
            assert(s@.subrange(0, m as int)[i as int] != p@[i as int]);
            return false;
        }
        i = i + 1;
    }
    proof {
        assert(s@.subrange(0, m as int) =~= p@);
    }
    true
}

/// Index of the first occurrence of `c` in `s` within `[from, to)`.
fn scan_char(s: &str, from: usize, to: usize, c: char) -> (r: Option<usize>)
    requires
        from <= to <= s@.len(),
    ensures
        match r {
            Some(j) => from <= j < to && s@[j as int] == c && forall|k: int|
                from <= k < j ==> #[trigger] s@[k] != c,
            None => forall|k: int| from <= k < to ==> #[trigger] s@[k] != c,
        },
{
    let mut i: usize = from;
    while i < to
        invariant
            from <= i <= to <= s@.len(),
            forall|k: int| from <= k < i ==> #[trigger] s@[k] != c,
        decreases to - i,
    {
        if s.get_char(i) == c {
            return Some(i);
        }
        i = i + 1;
    }
    None
}

/// Undoes the role escaping over `s[from..to]`; `None` exactly where the
/// strict inverse is undefined.
fn unescape_range(s: &str, from: usize, to: usize) -> (r: Option<String>)
    requires
        from <= to <= s@.len(),
    ensures
        match unesc(s@.subrange(from as int, to as int)) {
            Some(u) => r is Some && r->Some_0@ == u,
            None => r is None,
        },
{
    let mut out = String::new();
    let mut i: usize = from;
    while i < to
        invariant
            from <= i <= to <= s@.len(),
            unesc(s@.subrange(from as int, to as int)) == (match unesc(
                s@.subrange(i as int, to as int),
            ) {
                Some(u) => Some(out@ + u),
                None => None::<Seq<char>>,
            }),
        decreases to - i,
    {
        let ghost pre = out@;
        let ghost cur = s@.subrange(i as int, to as int);
        let c = s.get_char(i);
        assert(cur[0] == c);
        if c == '%' {
            if i + 1 >= to {
                return None;
            }
            let d = s.get_char(i + 1);
            assert(cur.len() >= 2 && cur[1] == d);
            if d == 'd' {
                push_char(&mut out, '.');
                proof {
                    assert(cur.skip(2) =~= s@.subrange(i + 2, to as int));
                    if unesc(cur.skip(2)) is Some {
                        assert(pre + (seq!['.'] + unesc(cur.skip(2))->Some_0) =~= out@ + unesc(
                            cur.skip(2),
                        )->Some_0);
                    }
                }
                i = i + 2;
            } else if d == 'p' {
                push_char(&mut out, '%');
                proof {
                    assert(cur.skip(2) =~= s@.subrange(i + 2, to as int));
                    if unesc(cur.skip(2)) is Some {
                        assert(pre + (seq!['%'] + unesc(cur.skip(2))->Some_0) =~= out@ + unesc(
                            cur.skip(2),
                        )->Some_0);
                    }
                }
                i = i + 2;
            } else {
                return None;
            }
        } else {
            push_char(&mut out, c);
            proof {
                assert(cur.skip(1) =~= s@.subrange(i + 1, to as int));
                if unesc(cur.skip(1)) is Some {
                    assert(pre + (seq![c] + unesc(cur.skip(1))->Some_0) =~= out@ + unesc(
                        cur.skip(1),
                    )->Some_0);
                }
            }
            i = i + 1;
        }
    }
    proof {
        assert(s@.subrange(to as int, to as int) =~= Seq::<char>::empty());
        assert(out@ + Seq::<char>::empty() =~= out@);
    }
    Some(out)
}

/// Splits, checks the signature, and strictly parses a presented token;
/// the outcome is exactly what `spec_decode_raw` assigns to it.
pub fn decode_claims_raw(token: &str, secret: &[u8]) -> (r: Result<Claims, DecodeError>)
    ensures
        r is Ok ==> spec_decode_raw(token@, secret@) == Ok::<ClaimsView, DecodeError>(r->Ok_0@),
        r is Err ==> spec_decode_raw(token@, secret@) == Err::<ClaimsView, DecodeError>(r->Err_0),
{
    let ghost t = token@;
    let n = token.unicode_len();
    if !has_prefix(token, "HS256.") {
        proof {
            reveal_strlit("HS256.");
            assert("HS256."@ =~= header_seq() + seq!['.']);
            assert(spec_split(t) is None);
        }
        return Err(DecodeError::Malformed);
    }
    proof {
        reveal_strlit("HS256.");
        assert("HS256."@ =~= header_seq() + seq!['.']);
    }
    let dot = scan_char(token, 6, n, '.');
    let j = match dot {
        Some(j) => j,
        None => {
            proof {
                lemma_find_char(t.skip(6), '.');
                if find_char(t.skip(6), '.') is Some {
                    let i = find_char(t.skip(6), '.')->Some_0;
                    assert(t.skip(6)[i] == t[i + 6]);
                }
            }
            return Err(DecodeError::Malformed);
        },
    };
    proof {
        assert forall|k: int| 0 <= k < j - 6 implies #[trigger] t.skip(6)[k] != '.' by {
            assert(t.skip(6)[k] == t[k + 6]);
        }
        assert(t.skip(6)[j - 6] == t[j as int]);
        lemma_find_char_is(t.skip(6), '.', j - 6);
    }
    let ghost payload = t.skip(6).subrange(0, j - 6);
    let ghost sg = t.skip(6).skip(j - 6 + 1);
    assert(spec_split(t) == Some((payload, sg)));
    let msg = token.substring_char(0, j);
    let sig = token.substring_char(j + 1, n);
    proof {
        assert(msg@ =~= t.subrange(0, 6 + payload.len() as int));
        assert(sig@ =~= sg);
    }
    if !verify_signature(sig, msg, secret) {
        return Err(DecodeError::InvalidSignature);
    }
    proof {
        assert(payload =~= t.subrange(6, j as int));
    }
    let c1 = scan_char(token, 6, j, ':');
    let p1 = match c1 {
        Some(p1) => p1,
        None => {
            proof {
                lemma_find_char(payload, ':');
                if find_char(payload, ':') is Some {
                    let i = find_char(payload, ':')->Some_0;
                    assert(payload[i] == t[i + 6]);
                }
            }
            return Err(DecodeError::Malformed);
        },
    };
    proof {
        assert forall|k: int| 0 <= k < p1 - 6 implies #[trigger] payload[k] != ':' by {
            assert(payload[k] == t[k + 6]);
        }
        assert(payload[p1 - 6] == t[p1 as int]);
        lemma_find_char_is(payload, ':', p1 - 6);
    }
    let ghost rest2 = payload.skip(p1 - 6 + 1);
    proof {
        assert(rest2 =~= t.subrange(p1 + 1, j as int));
    }
    let c2 = scan_char(token, p1 + 1, j, ':');
    let p2 = match c2 {
        Some(p2) => p2,
        None => {
            proof {
                lemma_find_char(rest2, ':');
                if find_char(rest2, ':') is Some {
                    let i = find_char(rest2, ':')->Some_0;
                    assert(rest2[i] == t[i + p1 + 1]);
                }
            }
            return Err(DecodeError::Malformed);
        },
    };
    proof {
        assert forall|k: int| 0 <= k < p2 - (p1 + 1) implies #[trigger] rest2[k] != ':' by {
            assert(rest2[k] == t[k + p1 + 1]);
        }
        assert(rest2[p2 - (p1 + 1)] == t[p2 as int]);
        lemma_find_char_is(rest2, ':', p2 - (p1 + 1));
    }
    let subs = token.substring_char(6, p1);
    proof {
        assert(subs@ =~= payload.subrange(0, p1 - 6));
    }
    let sub = match parse_u64_dec(subs) {
        Some(v) => v,
        None => {
            return Err(DecodeError::Malformed);
        },
    };
    let exps = token.substring_char(p1 + 1, p2);
    proof {
        assert(exps@ =~= rest2.subrange(0, p2 - (p1 + 1)));
    }
    let exp = match parse_i64_dec(exps) {
        Some(v) => v,
        None => {
            return Err(DecodeError::Malformed);
        },
    };
    let role = match unescape_range(token, p2 + 1, j) {
        Some(r) => r,
        None => {
            proof {
                assert(rest2.skip(p2 - (p1 + 1) + 1) =~= t.subrange(p2 + 1, j as int));
            }
            return Err(DecodeError::Malformed);
        },
    };
    proof {
        assert(rest2.skip(p2 - (p1 + 1) + 1) =~= t.subrange(p2 + 1, j as int));
    }
    Ok(Claims { sub, exp, role })
}

/// Decodes and additionally rejects a token whose expiry is not strictly
/// in the future of `now`; the outcome is exactly `spec_decode`.
pub fn decode_claims(token: &str, secret: &[u8], now: i64) -> (r: Result<Claims, DecodeError>)
    ensures
        r is Ok ==> spec_decode(token@, secret@, now as int) == Ok::<ClaimsView, DecodeError>(
            r->Ok_0@,
        ),
        r is Err ==> spec_decode(token@, secret@, now as int) == Err::<ClaimsView, DecodeError>(
            r->Err_0,
        ),
{
    match decode_claims_raw(token, secret) {
        Ok(c) => if c.exp <= now {
            Err(DecodeError::Expired)
        } else {
            Ok(c)
        },
        Err(e) => Err(e),
    }
}

/// The first occurrence determines `find_char` uniquely.
pub proof fn lemma_find_char_is(s: Seq<char>, c: char, j: int)
    requires
        0 <= j < s.len(),
        s[j] == c,
        forall|k: int| 0 <= k < j ==> #[trigger] s[k] != c,
    ensures
        find_char(s, c) == Some(j),
{
    lemma_find_char(s, c);
    match find_char(s, c) {
        Some(i) => {
            if i < j {
                assert(s[i] != c);
            } else if j < i {
                assert(s[j] != c);
            }
        },
        None => {
            assert(s[j] != c);
        },
    }
}

} // verus!
