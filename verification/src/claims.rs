//! The claims carried inside a session token — subject, role, expiry — and
//! their canonical JSON wire form `{"sub":"..","role":"..","exp":N}`, with a
//! serializer and a strict parser proved inverse to each other.

use vstd::prelude::*;

use crate::bytes::{is_digit, match_at, spec_match_at, subvec};

verus! {

/// The structured payload of a session token.
#[derive(Debug, Clone, PartialEq, Eq)]
pub struct Claims {
    /// The subject's identifier.
    pub sub: Vec<u8>,
    /// The subject's role.
    pub role: Vec<u8>,
    /// Expiry as unix seconds; the token is invalid once `exp <= now`.
    pub exp: u64,
}

/// The mathematical image of `Claims`.
pub ghost struct ClaimsView {
    pub sub: Seq<u8>,
    pub role: Seq<u8>,
    pub exp: u64,
}

impl View for Claims {
    type V = ClaimsView;

    open spec fn view(&self) -> ClaimsView {
        ClaimsView { sub: self.sub@, role: self.role@, exp: self.exp }
    }
}

/// Ten to the `k`.
pub open spec fn pow10(k: nat) -> nat
    decreases k,
{
    if k == 0 {
        1
    } else {
        10 * pow10((k - 1) as nat)
    }
}

/// The largest expiry the wire form carries: decimal numbers are capped at
/// nineteen digits, which still reaches beyond the year 3*10^11.
pub open spec fn max_wire_exp() -> nat {
    pow10(19)
}

pub proof fn lemma_pow10_19_value()
    ensures
        pow10(19) == 10_000_000_000_000_000_000,
        pow10(18) == 1_000_000_000_000_000_000,
{
    reveal_with_fuel(pow10, 20);
}

/// Lowercase hex digit for a value below sixteen.
pub open spec fn hex_digit(d: nat) -> u8 {
    if d < 10 {
        (48 + d) as u8
    } else {
        (87 + d) as u8
    }
}

/// Whether `b` is a lowercase hex digit.
pub open spec fn is_hex(b: u8) -> bool {
    is_digit(b) || (97 <= b <= 102)
}

/// Value of a lowercase hex digit.
pub open spec fn hex_val(b: u8) -> nat {
    if is_digit(b) {
        (b - 48) as nat
    } else {
        (b - 87) as nat
    }
}

/// The JSON escape of one byte: quote and backslash get a backslash escape,
/// control bytes a `\u00XX` escape, and every other byte stands unchanged.
pub open spec fn esc_byte(b: u8) -> Seq<u8> {
    if b == 34 {
        seq![92u8, 34u8]
    } else if b == 92 {
        seq![92u8, 92u8]
    } else if b < 32 {
        seq![92u8, 117u8, 48u8, 48u8, hex_digit((b / 16) as nat), hex_digit((b % 16) as nat)]
    } else {
        seq![b]
    }
}

/// The JSON escape of a byte string.
pub open spec fn spec_escape(s: Seq<u8>) -> Seq<u8>
    decreases s.len(),
{
    if s.len() == 0 {
        Seq::empty()
    } else {
        esc_byte(s[0]) + spec_escape(s.drop_first())
    }
}

/// The decimal digits of `n`, most significant first, no leading zero except
/// for `n == 0` itself.
pub open spec fn dec_digits(n: nat) -> Seq<u8>
    decreases n,
{
    if n < 10 {
        seq![(48 + n) as u8]
    } else {
        dec_digits(n / 10).push((48 + n % 10) as u8)
    }
}

/// The value of a string of decimal digits.
pub open spec fn dec_value(s: Seq<u8>) -> nat
    decreases s.len(),
{
    if s.len() == 0 {
        0
    } else {
        dec_value(s.drop_last()) * 10 + (s.last() - 48) as nat
    }
}

pub proof fn lemma_dec_digits_are_digits(n: nat)
    ensures
        dec_digits(n).len() >= 1,
        forall|i: int| 0 <= i < dec_digits(n).len() ==> is_digit(#[trigger] dec_digits(n)[i]),
    decreases n,
{
    if n >= 10 {
        lemma_dec_digits_are_digits(n / 10);
    }
}

pub proof fn lemma_dec_digits_len(n: nat, k: nat)
    requires
        k >= 1,
        n < pow10(k),
    ensures
        dec_digits(n).len() <= k,
    decreases n,
{
    if n >= 10 {
        assert(pow10(k) == 10 * pow10((k - 1) as nat));
        lemma_dec_digits_len(n / 10, (k - 1) as nat);
    }
}

pub proof fn lemma_dec_value_of_digits(n: nat)
    ensures
        dec_value(dec_digits(n)) == n,
    decreases n,
{
    if n < 10 {
        let d = dec_digits(n);
        assert(d =~= seq![(48 + n) as u8]);
        assert(d.drop_last() =~= Seq::<u8>::empty());
        assert(dec_value(d) == dec_value(d.drop_last()) * 10 + (d.last() - 48) as nat);
        assert(dec_value(d) == n);
    } else {
        lemma_dec_value_of_digits(n / 10);
        assert(dec_digits(n).drop_last() =~= dec_digits(n / 10));
    }
}

/// Parse a JSON string body starting at `from` (just after the opening
/// quote): the decoded bytes and the index right after the closing quote.
pub open spec fn spec_parse_str(s: Seq<u8>, from: int) -> Option<(Seq<u8>, int)>
    decreases s.len() - from,
{
    if from < 0 || from >= s.len() {
        None
    } else if s[from] == 34 {
        Some((Seq::empty(), from + 1))
    } else if s[from] == 92 {
        if from + 2 <= s.len() && (s[from + 1] == 34 || s[from + 1] == 92) {
            match spec_parse_str(s, from + 2) {
                Some((v, nxt)) => Some((seq![s[from + 1]] + v, nxt)),
                None => None,
            }
        } else if from + 6 <= s.len() && s[from + 1] == 117 && s[from + 2] == 48 && s[from + 3]
            == 48 && is_hex(s[from + 4]) && is_hex(s[from + 5]) {
            match spec_parse_str(s, from + 6) {
                Some((v, nxt)) => Some(
                    (seq![(hex_val(s[from + 4]) * 16 + hex_val(s[from + 5])) as u8] + v, nxt),
                ),
                None => None,
            }
        } else {
            None
        }
    } else if s[from] < 32 {
        None
    } else {
        match spec_parse_str(s, from + 1) {
            Some((v, nxt)) => Some((seq![s[from]] + v, nxt)),
            None => None,
        }
    }
}

/// Parsing an escaped string followed by its closing quote recovers the
/// original bytes and stops right after the quote, whatever follows.
pub proof fn lemma_parse_str_of_escape(s: Seq<u8>, from: int, x: Seq<u8>, tail: Seq<u8>)
    requires
        0 <= from <= s.len(),
        s.subrange(from, s.len() as int) == spec_escape(x) + seq![34u8] + tail,
    ensures
        spec_parse_str(s, from) == Some::<(Seq<u8>, int)>(
            (x, from + spec_escape(x).len() + 1),
        ),
    decreases x.len(),
{
    let full = spec_escape(x) + seq![34u8] + tail;
    assert(s.len() - from == full.len());
    assert forall|k: int| 0 <= k < full.len() implies s[from + k] == full[k] by {
        assert(s.subrange(from, s.len() as int)[k] == s[from + k]);
    }
    if x.len() == 0 {
        assert(spec_escape(x).len() == 0);
        assert(full[0] == 34);
        assert(s[from] == 34);
        assert(x =~= Seq::<u8>::empty());
    } else {
        let b = x[0];
        let x1 = x.drop_first();
        assert(spec_escape(x) == esc_byte(b) + spec_escape(x1));
        let eb = esc_byte(b);
        let e1 = spec_escape(x1);
        let from1 = from + eb.len();
        assert forall|k: int| 0 <= k < eb.len() implies s[from + k] == eb[k] by {
            assert(s[from + k] == full[k]);
            assert(full[k] == spec_escape(x)[k]);
            assert(spec_escape(x)[k] == (esc_byte(b) + spec_escape(x1))[k]);
        }
        let full1 = e1 + seq![34u8] + tail;
        assert forall|k: int| 0 <= k < full1.len() implies s[from1 + k] == full1[k] by {
            assert(s[from1 + k] == full[eb.len() + k]);
            if k < e1.len() {
                assert(full[eb.len() + k] == spec_escape(x)[eb.len() + k]);
                assert(spec_escape(x)[eb.len() + k] == (esc_byte(b) + spec_escape(x1))[eb.len()
                    + k]);
                assert((esc_byte(b) + spec_escape(x1))[eb.len() + k] == e1[k]);
                assert(full1[k] == e1[k]);
            } else if k == e1.len() {
                assert(full[eb.len() + k] == 34);
                assert(full1[k] == 34);
            } else {
                assert(full[eb.len() + k] == tail[eb.len() + k - (spec_escape(x).len() + 1)]);
                assert(full1[k] == tail[k - (e1.len() + 1)]);
            }
        }
        assert(s.subrange(from1, s.len() as int) =~= full1) by {
            assert(forall|k: int|
                0 <= k < full1.len() ==> s.subrange(from1, s.len() as int)[k] == s[from1 + k]);
        }
        lemma_parse_str_of_escape(s, from1, x1, tail);
        assert(spec_parse_str(s, from1) == Some::<(Seq<u8>, int)>((x1, from1 + e1.len() + 1)));
        if b == 34 {
            assert(s[from] == 92 && s[from + 1] == 34);
            assert(seq![34u8] + x1 =~= x);
        } else if b == 92 {
            assert(s[from] == 92 && s[from + 1] == 92);
            assert(seq![92u8] + x1 =~= x);
        } else if b < 32 {
            assert(s[from] == 92 && s[from + 1] == 117 && s[from + 2] == 48 && s[from + 3] == 48);
            assert(s[from + 4] == hex_digit((b / 16) as nat));
            assert(s[from + 5] == hex_digit((b % 16) as nat));
            assert(is_hex(s[from + 4]) && is_hex(s[from + 5]));
            assert(hex_val(hex_digit((b / 16) as nat)) == b / 16);
            assert(hex_val(hex_digit((b % 16) as nat)) == b % 16);
            assert((hex_val(s[from + 4]) * 16 + hex_val(s[from + 5])) as u8 == b);
            assert(seq![b] + x1 =~= x);
        } else {
            assert(s[from + 0] == eb[0]);
            assert(s[from] == b);
            assert(b != 34 && b != 92 && b >= 32);
            assert(seq![b] + x1 =~= x);
        }
    }
}

/// The bytes of `{"sub":"`.
pub open spec fn chunk_sub() -> Seq<u8> {
    seq![
        '{' as u8,
        '"' as u8,
        's' as u8,
        'u' as u8,
        'b' as u8,
        '"' as u8,
        ':' as u8,
        '"' as u8,
    ]
}

/// The bytes of `","role":"` — the quote closing the subject, then the role
/// key and its opening quote.
pub open spec fn chunk_role() -> Seq<u8> {
    seq![
        ',' as u8,
        '"' as u8,
        'r' as u8,
        'o' as u8,
        'l' as u8,
        'e' as u8,
        '"' as u8,
        ':' as u8,
        '"' as u8,
    ]
}

/// The bytes of `,"exp":`.
pub open spec fn chunk_exp() -> Seq<u8> {
    seq![',' as u8, '"' as u8, 'e' as u8, 'x' as u8, 'p' as u8, '"' as u8, ':' as u8]
}

/// The canonical JSON wire form of a claims object.
pub open spec fn spec_claims_json(sub: Seq<u8>, role: Seq<u8>, exp: u64) -> Seq<u8> {
    chunk_sub() + spec_escape(sub) + seq![34u8] + chunk_role() + spec_escape(role) + seq![34u8]
        + chunk_exp() + dec_digits(exp as nat) + seq!['}' as u8]
}

pub proof fn lemma_pow10_pos(a: nat)
    ensures
        pow10(a) >= 1,
    decreases a,
{
    if a > 0 {
        lemma_pow10_pos((a - 1) as nat);
    }
}

pub proof fn lemma_pow10_mono(a: nat, b: nat)
    requires
        a <= b,
    ensures
        pow10(a) <= pow10(b),
        pow10(a) >= 1,
    decreases b,
{
    lemma_pow10_pos(a);
    if a < b {
        lemma_pow10_mono(a, (b - 1) as nat);
    }
}

/// The strict parse of a claims payload: accepts exactly the canonical
/// object shape, with an expiry of at most nineteen digits.
pub open spec fn spec_parse_claims(p: Seq<u8>) -> Option<ClaimsView> {
    if !spec_match_at(p, 0, chunk_sub()) {
        None
    } else {
        match spec_parse_str(p, 8) {
            None => None,
            Some((sub, i)) => {
                if !spec_match_at(p, i, chunk_role()) {
                    None
                } else {
                    match spec_parse_str(p, i + chunk_role().len()) {
                        None => None,
                        Some((role, j)) => {
                            if !spec_match_at(p, j, chunk_exp()) {
                                None
                            } else {
                                let k = j + chunk_exp().len();
                                let close = p.len() - 1;
                                if k < close && close - k <= 19 && p[close] == '}' as u8 && (
                                forall|m: int| k <= m < close ==> is_digit(#[trigger] p[m])) {
                                    Some(
                                        ClaimsView {
                                            sub,
                                            role,
                                            exp: dec_value(p.subrange(k, close)) as u64,
                                        },
                                    )
                                } else {
                                    None
                                }
                            }
                        },
                    }
                }
            },
        }
    }
}

fn hex_digit_ex(d: u8) -> (r: u8)
    requires
        d < 16,
    ensures
        r == hex_digit(d as nat),
{
    if d < 10 {
        48 + d
    } else {
        87 + d
    }
}

fn is_hex_ex(b: u8) -> (r: bool)
    ensures
        r == is_hex(b),
{
    (48 <= b && b <= 57) || (97 <= b && b <= 102)
}

fn hex_val_ex(b: u8) -> (r: u8)
    requires
        is_hex(b),
    ensures
        r as nat == hex_val(b),
        r < 16,
{
    if b <= 57 {
        b - 48
    } else {
        b - 87
    }
}

/// The JSON escape of a byte string.
pub fn escape_bytes(v: &Vec<u8>) -> (r: Vec<u8>)
    ensures
        r@ == spec_escape(v@),
{
    let n = v.len();
    let mut out: Vec<u8> = Vec::new();
    let mut i: usize = 0;
    proof {
        assert(v@.subrange(0, n as int) =~= v@);
        assert(out@ + spec_escape(v@) =~= spec_escape(v@));
    }
    while i < n
        invariant
            0 <= i <= n,
            n == v@.len(),
            spec_escape(v@) == out@ + spec_escape(v@.subrange(i as int, n as int)),
        decreases n - i,
    {
        let b = v[i];
        proof {
            assert(v@.subrange(i as int, n as int).drop_first() =~= v@.subrange(
                i + 1,
                n as int,
            ));
            assert(spec_escape(v@.subrange(i as int, n as int)) == esc_byte(b) + spec_escape(
                v@.subrange(i + 1, n as int),
            ));
        }
        let ghost prev = out@;
        if b == 34 {
            out.push(92);
            out.push(34);
        } else if b == 92 {
            out.push(92);
            out.push(92);
        } else if b < 32 {
            out.push(92);
            out.push(117);
            out.push(48);
            out.push(48);
            out.push(hex_digit_ex(b / 16));
            out.push(hex_digit_ex(b % 16));
        } else {
            out.push(b);
        }
        proof {
            assert(out@ =~= prev + esc_byte(b));
        }
        i += 1;
        proof {
            assert(out@ + spec_escape(v@.subrange(i as int, n as int)) =~= spec_escape(v@));
        }
    }
    proof {
        assert(v@.subrange(n as int, n as int) =~= Seq::<u8>::empty());
        assert(spec_escape(v@) =~= out@);
    }
    out
}

/// Parse a JSON string body starting right after its opening quote.
pub fn parse_json_string(p: &Vec<u8>, from: usize) -> (r: Option<(Vec<u8>, usize)>)
    requires
        from <= p@.len(),
    ensures
        match r {
            Some(t) => spec_parse_str(p@, from as int) == Some((t.0@, t.1 as int)) && from < t.1
                <= p@.len(),
            None => spec_parse_str(p@, from as int) is None,
        },
{
    let n = p.len();
    let mut i = from;
    let mut out: Vec<u8> = Vec::new();
    loop
        invariant
            from <= i <= n,
            n == p@.len(),
            spec_parse_str(p@, from as int) == (match spec_parse_str(p@, i as int) {
                Some((v, nxt)) => Some::<(Seq<u8>, int)>((out@ + v, nxt)),
                None => None::<(Seq<u8>, int)>,
            }),
        decreases n - i,
    {
        if i >= n {
            return None;
        }
        let b = p[i];
        let ghost prev = out@;
        let ghost i0 = i as int;
        let ghost mut delta: Seq<u8> = Seq::empty();
        if b == 34 {
            proof {
                assert(out@ + Seq::<u8>::empty() =~= out@);
            }
            return Some((out, i + 1));
        } else if b == 92 {
            if i + 1 >= n {
                return None;
            }
            let c = p[i + 1];
            if c == 34 || c == 92 {
                out.push(c);
                i += 2;
                proof {
                    delta = seq![c];
                    assert(out@ =~= prev + delta);
                }
            } else if c == 117 {
                if n - i < 6 {
                    return None;
                }
                if p[i + 2] != 48 || p[i + 3] != 48 {
                    return None;
                }
                let h1 = p[i + 4];
                let h2 = p[i + 5];
                if !is_hex_ex(h1) || !is_hex_ex(h2) {
                    return None;
                }
                let d = hex_val_ex(h1) * 16 + hex_val_ex(h2);
                out.push(d);
                i += 6;
                proof {
                    delta = seq![d];
                    assert(d as nat == hex_val(p@[i0 + 4]) * 16 + hex_val(p@[i0 + 5]));
                    assert(out@ =~= prev + delta);
                }
            } else {
                return None;
            }
        } else if b < 32 {
            return None;
        } else {
            out.push(b);
            i += 1;
            proof {
                delta = seq![b];
                assert(out@ =~= prev + delta);
            }
        }
        proof {
            match spec_parse_str(p@, i as int) {
                Some((v, nxt)) => {
                    assert(spec_parse_str(p@, i0) == Some::<(Seq<u8>, int)>((delta + v, nxt)));
                    assert((prev + delta) + v =~= prev + (delta + v));
                },
                None => {
                    assert(spec_parse_str(p@, i0) is None);
                },
            }
        }
    }
}

/// The decimal digits of `n`.
pub fn u64_to_dec(n: u64) -> (r: Vec<u8>)
    ensures
        r@ == dec_digits(n as nat),
    decreases n,
{
    if n < 10 {
        let mut r: Vec<u8> = Vec::new();
        r.push(48 + (n as u8));
        proof {
            assert(r@ =~= dec_digits(n as nat));
        }
        r
    } else {
        let mut r = u64_to_dec(n / 10);
        r.push(48 + ((n % 10) as u8));
        proof {
            assert(r@ =~= dec_digits(n as nat));
        }
        r
    }
}

fn chunk_sub_vec() -> (r: Vec<u8>)
    ensures
        r@ == chunk_sub(),
{
    let mut v: Vec<u8> = Vec::new();
    v.push('{' as u8);
    v.push('"' as u8);
    v.push('s' as u8);
    v.push('u' as u8);
    v.push('b' as u8);
    v.push('"' as u8);
    v.push(':' as u8);
    v.push('"' as u8);
    proof {
        assert(v@ =~= chunk_sub());
    }
    v
}

fn chunk_role_vec() -> (r: Vec<u8>)
    ensures
        r@ == chunk_role(),
{
    let mut v: Vec<u8> = Vec::new();
    v.push(',' as u8);
    v.push('"' as u8);
    v.push('r' as u8);
    v.push('o' as u8);
    v.push('l' as u8);
    v.push('e' as u8);
    v.push('"' as u8);
    v.push(':' as u8);
    v.push('"' as u8);
    proof {
        assert(v@ =~= chunk_role());
    }
    v
}

fn chunk_exp_vec() -> (r: Vec<u8>)
    ensures
        r@ == chunk_exp(),
{
    let mut v: Vec<u8> = Vec::new();
    v.push(',' as u8);
    v.push('"' as u8);
    v.push('e' as u8);
    v.push('x' as u8);
    v.push('p' as u8);
    v.push('"' as u8);
    v.push(':' as u8);
    proof {
        assert(v@ =~= chunk_exp());
    }
    v
}

/// Serialize a claims object into its canonical JSON wire form.
pub fn claims_to_json(c: &Claims) -> (r: Vec<u8>)
    ensures
        r@ == spec_claims_json(c.sub@, c.role@, c.exp),
{
    claims_json_bytes(&c.sub, &c.role, c.exp)
}

/// Serialize subject, role and expiry into the canonical JSON wire form.
pub fn claims_json_bytes(sub: &Vec<u8>, role: &Vec<u8>, exp: u64) -> (r: Vec<u8>)
    ensures
        r@ == spec_claims_json(sub@, role@, exp),
{
    let mut out = chunk_sub_vec();
    let mut es = escape_bytes(sub);
    out.append(&mut es);
    out.push(34);
    let mut cr = chunk_role_vec();
    out.append(&mut cr);
    let mut er = escape_bytes(role);
    out.append(&mut er);
    out.push(34);
    let mut ce = chunk_exp_vec();
    out.append(&mut ce);
    let mut dd = u64_to_dec(exp);
    out.append(&mut dd);
    out.push(125);
    proof {
        assert(out@ =~= spec_claims_json(sub@, role@, exp));
    }
    out
}

/// Parse a claims payload, accepting exactly the canonical wire form.
#[verifier::loop_isolation(false)]
pub fn parse_claims(p: &Vec<u8>) -> (r: Option<Claims>)
    ensures
        match r {
            Some(c) => spec_parse_claims(p@) == Some(c@),
            None => spec_parse_claims(p@) is None,
        },
{
    let n = p.len();
    let cs = chunk_sub_vec();
    if !match_at(p, 0, &cs) {
        return None;
    }
    let sub_i = parse_json_string(p, 8);
    let (sub, i) = match sub_i {
        Some(x) => x,
        None => {
            return None;
        },
    };
    let cr = chunk_role_vec();
    if !match_at(p, i, &cr) {
        return None;
    }
    proof {
        assert(chunk_role().len() == 9);
        assert(i + 9 <= n);
    }
    let role_j = parse_json_string(p, i + 9);
    let (role, j) = match role_j {
        Some(x) => x,
        None => {
            return None;
        },
    };
    let ce = chunk_exp_vec();
    if !match_at(p, j, &ce) {
        return None;
    }
    proof {
        assert(chunk_exp().len() == 7);
        assert(chunk_sub().len() == 8);
        assert(j + 7 <= n);
    }
    let k = j + 7;
    let close = n - 1;
    if k >= close {
        return None;
    }
    if close - k > 19 {
        return None;
    }
    if p[close] != 125 {
        return None;
    }
    let mut val: u64 = 0;
    let mut m = k;
    proof {
        assert(p@.subrange(k as int, k as int) =~= Seq::<u8>::empty());
    }
    while m < close
        invariant
            k <= m <= close,
            close < n,
            n == p@.len(),
            close - k <= 19,
            forall|t: int| k <= t < m ==> is_digit(#[trigger] p@[t]),
            val as nat == dec_value(p@.subrange(k as int, m as int)),
            (val as nat) < pow10((m - k) as nat),
        decreases close - m,
    {
        let b = p[m];
        if b < 48 || b > 57 {
            proof {
                assert(!is_digit(p@[m as int]));
                assert(spec_parse_claims(p@) is None);
            }
            return None;
        }
        proof {
            lemma_pow10_19_value();
            lemma_pow10_mono((m - k) as nat, 18);
            assert(pow10((m + 1 - k) as nat) == 10 * pow10((m - k) as nat));
        }
        val = val * 10 + ((b - 48) as u64);
        m += 1;
        proof {
            assert(p@.subrange(k as int, m as int).drop_last() =~= p@.subrange(
                k as int,
                m - 1,
            ));
            assert(p@.subrange(k as int, m as int).last() == p@[m - 1]);
        }
    }
    Some(Claims { sub, role, exp: val })
}

/// `spec_claims_json`, regrouped so that each wire region is a suffix of the
/// one before it.
#[verifier::rlimit(100)]
proof fn lemma_cj_shape(sub: Seq<u8>, role: Seq<u8>, exp: u64)
    ensures
        spec_claims_json(sub, role, exp) == chunk_sub() + ((spec_escape(sub) + seq![34u8]) + (
        chunk_role() + ((spec_escape(role) + seq![34u8]) + (chunk_exp() + (dec_digits(
            exp as nat,
        ) + seq!['}' as u8]))))),
{
    assert(spec_claims_json(sub, role, exp) =~= chunk_sub() + ((spec_escape(sub) + seq![34u8])
        + (chunk_role() + ((spec_escape(role) + seq![34u8]) + (chunk_exp() + (dec_digits(
        exp as nat,
    ) + seq!['}' as u8]))))));
}

/// In a region laid out as `pre`, an escaped string, its closing quote, and
/// `tail`, the prefix matches, the string parses back to `x`, and the rest of
/// the input is exactly `tail`.
proof fn lemma_parse_after_prefix(p: Seq<u8>, from: int, pre: Seq<u8>, x: Seq<u8>, tail: Seq<u8>)
    requires
        0 <= from <= p.len(),
        p.subrange(from, p.len() as int) == pre + (spec_escape(x) + seq![34u8] + tail),
    ensures
        spec_match_at(p, from, pre),
        spec_parse_str(p, from + pre.len()) == Some::<(Seq<u8>, int)>(
            (x, from + pre.len() + spec_escape(x).len() + 1),
        ),
        p.subrange(from + pre.len() + spec_escape(x).len() + 1, p.len() as int) == tail,
{
    let n = p.len() as int;
    let es = spec_escape(x);
    let inner = es + seq![34u8] + tail;
    let rest = pre + inner;
    let mid = from + pre.len() as int;
    assert(n - from == rest.len());
    assert(rest.len() == pre.len() + es.len() + 1 + tail.len());
    assert forall|t: int| 0 <= t < rest.len() implies p[from + t] == #[trigger] rest[t] by {
        assert(p.subrange(from, n)[t] == p[from + t]);
    }
    assert forall|t: int|
        0 <= t < pre.len() implies #[trigger] p.subrange(from, from + pre.len())[t] == pre[t] by {
        assert(rest[t] == pre[t]);
        assert(p.subrange(from, from + pre.len())[t] == p[from + t]);
    }
    assert(spec_match_at(p, from, pre)) by {
        assert(p.subrange(from, from + pre.len()) =~= pre);
    }
    assert forall|t: int| 0 <= t < n - mid implies #[trigger] p.subrange(mid, n)[t] == inner[t] by {
        assert(rest[pre.len() + t] == inner[t]);
        assert(p.subrange(mid, n)[t] == p[mid + t]);
        assert(p[from + (pre.len() + t)] == rest[pre.len() + t]);
    }
    assert(p.subrange(mid, n) =~= inner);
    lemma_parse_str_of_escape(p, mid, x, tail);
    let after = mid + es.len() + 1;
    assert forall|t: int| 0 <= t < n - after implies #[trigger] p.subrange(after, n)[t]
        == tail[t] by {
        assert(inner[es.len() + 1 + t] == tail[t]);
        assert(rest[pre.len() + (es.len() + 1 + t)] == inner[es.len() + 1 + t]);
        assert(p[from + (pre.len() + (es.len() + 1 + t))] == rest[pre.len() + (es.len() + 1
            + t)]);
        assert(p.subrange(after, n)[t] == p[after + t]);
    }
    assert(p.subrange(after, n) =~= tail);
}

/// In a region laid out as `,"exp":`, digits, `}` ending the input, the key
/// matches, the digits stand exactly before the final brace.
proof fn lemma_digit_region(p: Seq<u8>, j: int, dd: Seq<u8>)
    requires
        0 <= j,
        j + 7 + dd.len() + 1 == p.len(),
        p.subrange(j, p.len() as int) == chunk_exp() + (dd + seq!['}' as u8]),
        forall|t: int| 0 <= t < dd.len() ==> is_digit(#[trigger] dd[t]),
    ensures
        spec_match_at(p, j, chunk_exp()),
        p[p.len() - 1] == '}' as u8,
        p.subrange(j + 7, p.len() - 1) == dd,
        forall|m: int| j + 7 <= m < p.len() - 1 ==> is_digit(#[trigger] p[m]),
{
    let n = p.len() as int;
    let t2 = chunk_exp() + (dd + seq!['}' as u8]);
    let k = j + 7;
    assert forall|t: int| 0 <= t < t2.len() implies p[j + t] == #[trigger] t2[t] by {
        assert(p.subrange(j, n)[t] == p[j + t]);
    }
    assert forall|t: int|
        0 <= t < 7 implies #[trigger] p.subrange(j, j + 7)[t] == chunk_exp()[t] by {
        assert(t2[t] == chunk_exp()[t]);
        assert(p.subrange(j, j + 7)[t] == p[j + t]);
    }
    assert(spec_match_at(p, j, chunk_exp())) by {
        assert(p.subrange(j, j + 7) =~= chunk_exp());
    }
    assert((dd + seq!['}' as u8])[dd.len() as int] == '}' as u8);
    assert(t2[7 + dd.len() as int] == (dd + seq!['}' as u8])[dd.len() as int]);
    assert(p[j + (7 + dd.len() as int)] == t2[7 + dd.len() as int]);
    assert forall|t: int| 0 <= t < dd.len() implies #[trigger] p.subrange(k, n - 1)[t]
        == dd[t] by {
        assert(t2[7 + t] == (dd + seq!['}' as u8])[t]);
        assert((dd + seq!['}' as u8])[t] == dd[t]);
        assert(p[j + (7 + t)] == t2[7 + t]);
        assert(p.subrange(k, n - 1)[t] == p[k + t]);
    }
    assert(p.subrange(k, n - 1) =~= dd);
    assert forall|m: int| k <= m < n - 1 implies is_digit(#[trigger] p[m]) by {
        assert(p.subrange(k, n - 1)[m - k] == p[k + (m - k)]);
        assert(dd[m - k] == p.subrange(k, n - 1)[m - k]);
    }
}

/// The two JSON strings of the canonical claims object parse back to the
/// subject and role, and the expiry region is what remains.
#[verifier::rlimit(100)]
proof fn lemma_cj_parse_strings(sub: Seq<u8>, role: Seq<u8>, exp: u64)
    ensures
        spec_match_at(spec_claims_json(sub, role, exp), 0, chunk_sub()),
        spec_parse_str(spec_claims_json(sub, role, exp), 8) == Some::<(Seq<u8>, int)>(
            (sub, 9 + spec_escape(sub).len() as int),
        ),
        spec_match_at(spec_claims_json(sub, role, exp), 9 + spec_escape(sub).len() as int, chunk_role()),
        spec_parse_str(spec_claims_json(sub, role, exp), 18 + spec_escape(sub).len() as int)
            == Some::<(Seq<u8>, int)>((role, 19 + spec_escape(sub).len() as int + spec_escape(
            role,
        ).len() as int)),
        spec_claims_json(sub, role, exp).subrange(
            19 + spec_escape(sub).len() as int + spec_escape(role).len() as int,
            spec_claims_json(sub, role, exp).len() as int,
        ) == chunk_exp() + (dec_digits(exp as nat) + seq!['}' as u8]),
        spec_claims_json(sub, role, exp).len() == 19 + spec_escape(sub).len() + spec_escape(
            role,
        ).len() + 7 + dec_digits(exp as nat).len() + 1,
{
    let es = spec_escape(sub);
    let er = spec_escape(role);
    let dd = dec_digits(exp as nat);
    let p = spec_claims_json(sub, role, exp);
    let t2 = chunk_exp() + (dd + seq!['}' as u8]);
    let t1 = chunk_role() + ((er + seq![34u8]) + t2);
    lemma_cj_shape(sub, role, exp);
    assert(p.subrange(0, p.len() as int) =~= p);
    lemma_parse_after_prefix(p, 0, chunk_sub(), sub, t1);
    let i = 8 + es.len() as int + 1;
    assert(spec_parse_str(p, 8) == Some::<(Seq<u8>, int)>((sub, i)));
    assert(p.subrange(i, p.len() as int) == t1);
    lemma_parse_after_prefix(p, i, chunk_role(), role, t2);
    let j = i + 9 + er.len() as int + 1;
    assert(spec_parse_str(p, i + 9) == Some::<(Seq<u8>, int)>((role, j)));
    assert(p.subrange(j, p.len() as int) == t2);
}

/// The expiry region of the canonical wire form: the key matches, the
/// digits stand before the final brace, and they are few enough and value
/// exactly the serialized expiry.
#[verifier::rlimit(100)]
proof fn lemma_cj_digits_ok(sub: Seq<u8>, role: Seq<u8>, exp: u64)
    requires
        (exp as nat) < max_wire_exp(),
    ensures
        spec_match_at(
            spec_claims_json(sub, role, exp),
            19 + spec_escape(sub).len() as int + spec_escape(role).len() as int,
            chunk_exp(),
        ),
        spec_claims_json(sub, role, exp).last() == '}' as u8,
        ({
            let p = spec_claims_json(sub, role, exp);
            let k = 26 + spec_escape(sub).len() as int + spec_escape(role).len() as int;
            let close = p.len() - 1;
            &&& k < close
            &&& close - k <= 19
            &&& forall|m: int| k <= m < close ==> is_digit(#[trigger] p[m])
            &&& dec_value(p.subrange(k, close)) == exp as nat
        }),
{
    let es = spec_escape(sub);
    let er = spec_escape(role);
    let dd = dec_digits(exp as nat);
    let p = spec_claims_json(sub, role, exp);
    lemma_dec_digits_are_digits(exp as nat);
    lemma_dec_digits_len(exp as nat, 19);
    lemma_dec_value_of_digits(exp as nat);
    lemma_cj_parse_strings(sub, role, exp);
    let j = 19 + es.len() as int + er.len() as int;
    let k = j + 7;
    let close = p.len() - 1;
    lemma_digit_region(p, j, dd);
    assert(close - k == dd.len());
    assert(1 <= dd.len() <= 19);
    assert(dec_value(p.subrange(k, close)) == exp as nat);
}

/// Parsing the canonical wire form of a claims object recovers exactly the
/// subject, role and expiry that were serialized.
#[verifier::rlimit(100)]
pub proof fn lemma_claims_round_trip(sub: Seq<u8>, role: Seq<u8>, exp: u64)
    requires
        (exp as nat) < max_wire_exp(),
    ensures
        spec_parse_claims(spec_claims_json(sub, role, exp)) == Some(
            ClaimsView { sub, role, exp },
        ),
{
    let es = spec_escape(sub);
    let er = spec_escape(role);
    let p = spec_claims_json(sub, role, exp);
    lemma_cj_parse_strings(sub, role, exp);
    lemma_cj_digits_ok(sub, role, exp);
    let i = 9 + es.len() as int;
    let j = 19 + es.len() as int + er.len() as int;
    let k = j + 7;
    let close = p.len() - 1;
    assert(chunk_role().len() == 9);
    assert(chunk_exp().len() == 7);
    assert((dec_value(p.subrange(k, close)) as u64) == exp);
}

} // verus!

