//! The session cookie builder: pure constructors for the `Set-Cookie` value
//! that carries a session token to the browser, and for the value that
//! clears it. Wire-exact attributes: `Path=/; HttpOnly; Secure;
//! SameSite=Lax`, with `Max-Age=86400` on issue and `Max-Age=0` on clearing.

use vstd::prelude::*;

use crate::bytes::subvec;

verus! {

/// The bytes of `token=`.
pub open spec fn cookie_name_eq() -> Seq<u8> {
    seq!['t' as u8, 'o' as u8, 'k' as u8, 'e' as u8, 'n' as u8, '=' as u8]
}

/// The bytes of `; Path=/; HttpOnly; Secure; SameSite=Lax; Max-Age=`.
pub open spec fn cookie_attrs() -> Seq<u8> {
    seq![
        ';' as u8,
        ' ' as u8,
        'P' as u8,
        'a' as u8,
        't' as u8,
        'h' as u8,
        '=' as u8,
        '/' as u8,
        ';' as u8,
        ' ' as u8,
        'H' as u8,
        't' as u8,
        't' as u8,
        'p' as u8,
        'O' as u8,
        'n' as u8,
        'l' as u8,
        'y' as u8,
        ';' as u8,
        ' ' as u8,
        'S' as u8,
        'e' as u8,
        'c' as u8,
        'u' as u8,
        'r' as u8,
        'e' as u8,
        ';' as u8,
        ' ' as u8,
        'S' as u8,
        'a' as u8,
        'm' as u8,
        'e' as u8,
        'S' as u8,
        'i' as u8,
        't' as u8,
        'e' as u8,
        '=' as u8,
        'L' as u8,
        'a' as u8,
        'x' as u8,
        ';' as u8,
        ' ' as u8,
        'M' as u8,
        'a' as u8,
        'x' as u8,
        '-' as u8,
        'A' as u8,
        'g' as u8,
        'e' as u8,
        '=' as u8,
    ]
}

/// The session cookie for `token`: value, then the fixed attributes, with a
/// 24-hour `Max-Age`.
pub open spec fn spec_auth_cookie(token: Seq<u8>) -> Seq<u8> {
    cookie_name_eq() + token + cookie_attrs() + seq![
        '8' as u8,
        '6' as u8,
        '4' as u8,
        '0' as u8,
        '0' as u8,
    ]
}

/// The clearing cookie: empty value and `Max-Age=0`, expiring at once.
pub open spec fn spec_clear_cookie() -> Seq<u8> {
    cookie_name_eq() + cookie_attrs() + seq!['0' as u8]
}

fn cookie_name_eq_vec() -> (r: Vec<u8>)
    ensures
        r@ == cookie_name_eq(),
{
    let mut v: Vec<u8> = Vec::new();
    v.push('t' as u8);
    v.push('o' as u8);
    v.push('k' as u8);
    v.push('e' as u8);
    v.push('n' as u8);
    v.push('=' as u8);
    proof {
        assert(v@ =~= cookie_name_eq());
    }
    v
}

fn cookie_attrs_vec() -> (r: Vec<u8>)
    ensures
        r@ == cookie_attrs(),
{
    let mut v: Vec<u8> = Vec::new();
    v.push(';' as u8);
    v.push(' ' as u8);
    v.push('P' as u8);
    v.push('a' as u8);
    v.push('t' as u8);
    v.push('h' as u8);
    v.push('=' as u8);
    v.push('/' as u8);
    v.push(';' as u8);
    v.push(' ' as u8);
    v.push('H' as u8);
    v.push('t' as u8);
    v.push('t' as u8);
    v.push('p' as u8);
    v.push('O' as u8);
    v.push('n' as u8);
    v.push('l' as u8);
    v.push('y' as u8);
    v.push(';' as u8);
    v.push(' ' as u8);
    v.push('S' as u8);
    v.push('e' as u8);
    v.push('c' as u8);
    v.push('u' as u8);
    v.push('r' as u8);
    v.push('e' as u8);
    v.push(';' as u8);
    v.push(' ' as u8);
    v.push('S' as u8);
    v.push('a' as u8);
    v.push('m' as u8);
    v.push('e' as u8);
    v.push('S' as u8);
    v.push('i' as u8);
    v.push('t' as u8);
    v.push('e' as u8);
    v.push('=' as u8);
    v.push('L' as u8);
    v.push('a' as u8);
    v.push('x' as u8);
    v.push(';' as u8);
    v.push(' ' as u8);
    v.push('M' as u8);
    v.push('a' as u8);
    v.push('x' as u8);
    v.push('-' as u8);
    v.push('A' as u8);
    v.push('g' as u8);
    v.push('e' as u8);
    v.push('=' as u8);
    proof {
        assert(v@ =~= cookie_attrs());
    }
    v
}

/// Build the `Set-Cookie` value that carries `token` for 24 hours.
pub fn create_auth_cookie(token: &Vec<u8>) -> (r: Vec<u8>)
    ensures
        r@ == spec_auth_cookie(token@),
{
    let mut out = cookie_name_eq_vec();
    let mut t = subvec(token, 0, token.len());
    proof {
        assert(t@ =~= token@);
    }
    out.append(&mut t);
    let mut attrs = cookie_attrs_vec();
    out.append(&mut attrs);
    out.push('8' as u8);
    out.push('6' as u8);
    out.push('4' as u8);
    out.push('0' as u8);
    out.push('0' as u8);
    proof {
        assert(out@ =~= spec_auth_cookie(token@));
    }
    out
}

/// Build the `Set-Cookie` value that clears the session cookie.
pub fn remove_auth_cookie() -> (r: Vec<u8>)
    ensures
        r@ == spec_clear_cookie(),
{
    let mut out = cookie_name_eq_vec();
    let mut attrs = cookie_attrs_vec();
    out.append(&mut attrs);
    out.push('0' as u8);
    proof {
        assert(out@ =~= spec_clear_cookie());
    }
    out
}

} // verus!
