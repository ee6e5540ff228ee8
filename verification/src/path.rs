//! Routing paths. An abstraction id is a dotted path of layer names; a
//! register route is `app.nnar[<name>]` possibly followed by layer suffixes.
//! Here too live the parsers for the bracketed register name and for IPv4
//! literals, which destination hosts must be.

use vstd::prelude::*;

use crate::effect::Ipv4Octets;

verus! {

pub open spec fn nnar_prefix() -> Seq<u8> {
    seq![97u8, 112u8, 112u8, 46u8, 110u8, 110u8, 97u8, 114u8]
}

pub open spec fn pl_suffix() -> Seq<u8> {
    seq![46u8, 112u8, 108u8]
}

pub open spec fn beb_suffix() -> Seq<u8> {
    seq![46u8, 98u8, 101u8, 98u8]
}

/// The route of the register called `name`.
pub open spec fn nnar_path_spec(name: Seq<u8>) -> Seq<u8> {
    nnar_prefix() + seq![91u8] + name + seq![93u8]
}

/// Whether `path` is addressed to the register layer.
pub open spec fn routes_to_register(path: Seq<u8>) -> bool {
    path.len() >= 8 && path.take(8) == nnar_prefix()
}

/// The first position at or after `from` holding byte `b`.
pub open spec fn find_from(s: Seq<u8>, from: int, b: u8) -> Option<int>
    decreases s.len() - from,
{
    if from < 0 || from >= s.len() {
        None
    } else if s[from] == b {
        Some(from)
    } else {
        find_from(s, from + 1, b)
    }
}

/// The register name inside `path`: the bytes strictly between the first `[`
/// and the first `]` after it.
pub open spec fn register_name_spec(path: Seq<u8>) -> Option<Seq<u8>> {
    match find_from(path, 0, 91u8) {
        Some(i) => match find_from(path, i + 1, 93u8) {
            Some(j) => Some(path.subrange(i + 1, j)),
            None => None,
        },
        None => None,
    }
}

fn find_byte(s: &Vec<u8>, from: usize, b: u8) -> (r: Option<usize>)
    ensures
        match r {
            Some(i) => find_from(s@, from as int, b) == Some(i as int) && from <= i < s@.len(),
            None => find_from(s@, from as int, b) is None,
        },
{
    let mut i: usize = from;
    while i < s.len()
        invariant
            from <= i,
            find_from(s@, from as int, b) == find_from(s@, i as int, b),
        decreases s@.len() - i,
    {
        if s[i] == b {
            proof {
                assert(find_from(s@, i as int, b) == Some(i as int));
            }
            return Some(i);
        }
        i += 1;
    }
    proof {
        assert(find_from(s@, i as int, b) is None);
    }
    None
}

/// Extracts the register name from a route, or nothing when the route has no
/// complete `[name]` part.
pub fn extract_register_name(path: &Vec<u8>) -> (r: Option<Vec<u8>>)
    ensures
        match r {
            Some(name) => register_name_spec(path@) == Some(name@),
            None => register_name_spec(path@) is None,
        },
{
    let plen = path.len();
    match find_byte(path, 0, 91u8) {
        Some(i) => match find_byte(path, i + 1, 93u8) {
            Some(j) => {
                let mut name: Vec<u8> = Vec::new();
                let mut k: usize = i + 1;
                while k < j
                    invariant
                        i + 1 <= k <= j,
                        j < path@.len(),
                        name@ == path@.subrange(i as int + 1, k as int),
                    decreases j - k,
                {
                    proof {
                        assert(path@.subrange(i as int + 1, k as int + 1) =~= path@.subrange(
                            i as int + 1,
                            k as int,
                        ).push(path@[k as int]));
                    }
                    name.push(path[k]);
                    k += 1;
                }
                Some(name)
            },
            None => None,
        },
        None => None,
    }
}

/// Whether `path` is addressed to the register layer (`app.nnar` and below).
pub fn is_register_route(path: &Vec<u8>) -> (r: bool)
    ensures
        r == routes_to_register(path@),
{
    let prefix = nnar_prefix_bytes();
    let r = crate::bytestr::starts_with(path, &prefix);
    proof {
        if path@.len() >= 8 {
            assert(path@.take(8) == path@.take(prefix@.len() as int));
        }
    }
    r
}

pub fn nnar_prefix_bytes() -> (r: Vec<u8>)
    ensures
        r@ == nnar_prefix(),
{
    let mut v: Vec<u8> = Vec::new();
    v.push(97u8);
    v.push(112u8);
    v.push(112u8);
    v.push(46u8);
    v.push(110u8);
    v.push(110u8);
    v.push(97u8);
    v.push(114u8);
    proof {
        assert(v@ =~= nnar_prefix());
    }
    v
}

/// `path` with `.pl` appended: one more perfect-link layer.
pub fn with_pl_suffix(path: &Vec<u8>) -> (r: Vec<u8>)
    ensures
        r@ == path@ + pl_suffix(),
{
    let mut r = crate::bytestr::clone_bytes(path);
    r.push(46u8);
    r.push(112u8);
    r.push(108u8);
    proof {
        assert(r@ =~= path@ + pl_suffix());
    }
    r
}

/// `path` with `.beb` appended: one more broadcast layer.
pub fn with_beb_suffix(path: &Vec<u8>) -> (r: Vec<u8>)
    ensures
        r@ == path@ + beb_suffix(),
{
    let mut r = crate::bytestr::clone_bytes(path);
    r.push(46u8);
    r.push(98u8);
    r.push(101u8);
    r.push(98u8);
    proof {
        assert(r@ =~= path@ + beb_suffix());
    }
    r
}

/// The route of the register called `name`.
pub fn nnar_path(name: &Vec<u8>) -> (r: Vec<u8>)
    ensures
        r@ == nnar_path_spec(name@),
{
    let mut r = nnar_prefix_bytes();
    r.push(91u8);
    crate::bytestr::append_bytes(&mut r, name);
    r.push(93u8);
    proof {
        assert(r@ =~= nnar_path_spec(name@));
    }
    r
}

// ---------------------------------------------------------------------------
// IPv4 literals
// ---------------------------------------------------------------------------
pub open spec fn is_ascii_digit(b: u8) -> bool {
    48 <= b <= 57
}

/// One decimal octet starting at `i`: one to three digits, no leading zero,
/// value at most 255, ending at the end or before a non-digit.
pub open spec fn parse_octet_spec(s: Seq<u8>, i: int) -> Option<(u8, int)> {
    if !(0 <= i < s.len()) || !is_ascii_digit(s[i]) {
        None
    } else if s[i] == 48 {
        if i + 1 < s.len() && is_ascii_digit(s[i + 1]) {
            None
        } else {
            Some((0u8, i + 1))
        }
    } else if i + 1 < s.len() && is_ascii_digit(s[i + 1]) {
        if i + 2 < s.len() && is_ascii_digit(s[i + 2]) {
            if i + 3 < s.len() && is_ascii_digit(s[i + 3]) {
                None
            } else {
                let v = 100 * (s[i] - 48) + 10 * (s[i + 1] - 48) + (s[i + 2] - 48);
                if v <= 255 {
                    Some((v as u8, i + 3))
                } else {
                    None
                }
            }
        } else {
            Some(((10 * (s[i] - 48) + (s[i + 1] - 48)) as u8, i + 2))
        }
    } else {
        Some(((s[i] - 48) as u8, i + 1))
    }
}

/// An IPv4 literal: four octets joined by dots, covering the whole string.
pub open spec fn parse_ipv4_spec(s: Seq<u8>) -> Option<Ipv4Octets> {
    match parse_octet_spec(s, 0) {
        Some((a, j1)) => if j1 < s.len() && s[j1] == 46 {
            match parse_octet_spec(s, j1 + 1) {
                Some((b, j2)) => if j2 < s.len() && s[j2] == 46 {
                    match parse_octet_spec(s, j2 + 1) {
                        Some((c, j3)) => if j3 < s.len() && s[j3] == 46 {
                            match parse_octet_spec(s, j3 + 1) {
                                Some((d, j4)) => if j4 == s.len() {
                                    Some(Ipv4Octets { a, b, c, d })
                                } else {
                                    None
                                },
                                None => None,
                            }
                        } else {
                            None
                        },
                        None => None,
                    }
                } else {
                    None
                },
                None => None,
            }
        } else {
            None
        },
        None => None,
    }
}

fn scan_octet(s: &Vec<u8>, i: usize) -> (r: Option<(u8, usize)>)
    ensures
        match r {
            Some((v, j)) => parse_octet_spec(s@, i as int) == Some((v, j as int)) && i < j
                <= s@.len(),
            None => parse_octet_spec(s@, i as int) is None,
        },
{
    if !(i < s.len()) || !(48 <= s[i] && s[i] <= 57) {
        return None;
    }
    let d0 = s[i];
    if d0 == 48 {
        if i + 1 < s.len() && 48 <= s[i + 1] && s[i + 1] <= 57 {
            return None;
        }
        return Some((0u8, i + 1));
    }
    if i + 1 < s.len() && 48 <= s[i + 1] && s[i + 1] <= 57 {
        let d1 = s[i + 1];
        if i + 2 < s.len() && 48 <= s[i + 2] && s[i + 2] <= 57 {
            let d2 = s[i + 2];
            if i + 3 < s.len() && 48 <= s[i + 3] && s[i + 3] <= 57 {
                return None;
            }
            let v: u32 = 100 * ((d0 - 48) as u32) + 10 * ((d1 - 48) as u32) + ((d2 - 48) as u32);
            if v <= 255 {
                return Some((v as u8, i + 3));
            }
            return None;
        }
        return Some((10 * (d0 - 48) + (d1 - 48), i + 2));
    }
    Some((d0 - 48, i + 1))
}

/// Parses a destination host as an IPv4 literal.
pub fn parse_ipv4(s: &Vec<u8>) -> (r: Option<Ipv4Octets>)
    ensures
        r == parse_ipv4_spec(s@),
{
    match scan_octet(s, 0) {
        Some((a, j1)) => {
            if j1 < s.len() && s[j1] == 46 {
                match scan_octet(s, j1 + 1) {
                    Some((b, j2)) => {
                        if j2 < s.len() && s[j2] == 46 {
                            match scan_octet(s, j2 + 1) {
                                Some((c, j3)) => {
                                    if j3 < s.len() && s[j3] == 46 {
                                        match scan_octet(s, j3 + 1) {
                                            Some((d, j4)) => {
                                                if j4 == s.len() {
                                                    Some(Ipv4Octets { a, b, c, d })
                                                } else {
                                                    None
                                                }
                                            },
                                            None => None,
                                        }
                                    } else {
                                        None
                                    }
                                },
                                None => None,
                            }
                        } else {
                            None
                        }
                    },
                    None => None,
                }
            } else {
                None
            }
        },
        None => None,
    }
}

} // verus!
