//! Parsing of `a.b.c.d:port` target strings into the IPv4 socket-address
//! model. Only the canonical decimal form is accepted: no leading zeroes, no
//! surrounding noise. This is the form the client itself produces when it
//! resolves a target before sending it to the edge.

use vstd::prelude::*;
use crate::addr::{sock_rep, IpV4, SockAddrV4};
use crate::text::{dec_digit, dec_rep};

verus! {

/// A decimal digit character.
pub open spec fn is_digit(c: char) -> bool {
    c == '0' || c == '1' || c == '2' || c == '3' || c == '4' || c == '5' || c == '6' || c == '7'
        || c == '8' || c == '9'
}

/// The numeric value of a decimal digit character.
pub open spec fn digit_val(c: char) -> nat
    recommends
        is_digit(c),
{
    if c == '0' {
        0
    } else if c == '1' {
        1
    } else if c == '2' {
        2
    } else if c == '3' {
        3
    } else if c == '4' {
        4
    } else if c == '5' {
        5
    } else if c == '6' {
        6
    } else if c == '7' {
        7
    } else if c == '8' {
        8
    } else {
        9
    }
}

/// Every character of `s` is a decimal digit.
pub open spec fn all_digits(s: Seq<char>) -> bool {
    forall|i: int| 0 <= i < s.len() ==> is_digit(#[trigger] s[i])
}

/// The value of an all-digit sequence read as a decimal number.
pub open spec fn num_val(s: Seq<char>) -> nat
    decreases s.len(),
{
    if s.len() == 0 {
        0
    } else {
        num_val(s.drop_last()) * 10 + digit_val(s.last())
    }
}

/// The first position at or after `i` that does not hold a digit.
pub open spec fn digits_end(s: Seq<char>, i: int) -> int
    recommends
        0 <= i <= s.len(),
    decreases s.len() - i,
    when 0 <= i <= s.len()
{
    if i < s.len() && is_digit(s[i]) {
        digits_end(s, i + 1)
    } else {
        i
    }
}

/// Ten to the power `n`.
pub open spec fn pow10(n: nat) -> nat
    decreases n,
{
    if n == 0 {
        1
    } else {
        10 * pow10((n - 1) as nat)
    }
}

/// At position `start`, `s` holds a canonical decimal number of value at most
/// `max`: at least one digit, no leading zero, value in range.
pub open spec fn scan_ok(s: Seq<char>, start: int, max: nat) -> bool {
    let e = digits_end(s, start);
    e > start && (e - start == 1 || s[start] != '0') && num_val(s.subrange(start, e)) <= max
}

/// The value of the number found at `start`.
pub open spec fn scan_val(s: Seq<char>, start: int) -> nat {
    num_val(s.subrange(start, digits_end(s, start)))
}

/// The canonical shape `a.b.c.d:port`, with octets up to 255 and a port up
/// to 65535, and nothing before or after.
pub open spec fn sock_shape(s: Seq<char>) -> bool {
    let e1 = digits_end(s, 0);
    let e2 = digits_end(s, e1 + 1);
    let e3 = digits_end(s, e2 + 1);
    let e4 = digits_end(s, e3 + 1);
    let e5 = digits_end(s, e4 + 1);
    &&& scan_ok(s, 0, 255)
    &&& e1 < s.len() && s[e1] == '.'
    &&& scan_ok(s, e1 + 1, 255)
    &&& e2 < s.len() && s[e2] == '.'
    &&& scan_ok(s, e2 + 1, 255)
    &&& e3 < s.len() && s[e3] == '.'
    &&& scan_ok(s, e3 + 1, 255)
    &&& e4 < s.len() && s[e4] == ':'
    &&& scan_ok(s, e4 + 1, 65535)
    &&& e5 == s.len()
}

/// The socket address denoted by a string of canonical shape, or `None`.
pub open spec fn spec_parse_sock(s: Seq<char>) -> Option<SockAddrV4> {
    if sock_shape(s) {
        let e1 = digits_end(s, 0);
        let e2 = digits_end(s, e1 + 1);
        let e3 = digits_end(s, e2 + 1);
        let e4 = digits_end(s, e3 + 1);
        Some(
            SockAddrV4 {
                ip: IpV4 {
                    a: scan_val(s, 0) as u8,
                    b: scan_val(s, e1 + 1) as u8,
                    c: scan_val(s, e2 + 1) as u8,
                    d: scan_val(s, e3 + 1) as u8,
                },
                port: scan_val(s, e4 + 1) as u16,
            },
        )
    } else {
        None
    }
}

/// An all-digit sequence of length `n` has value below ten to the `n`.
proof fn lemma_num_val_upper(s: Seq<char>)
    requires
        all_digits(s),
    ensures
        num_val(s) < pow10(s.len()),
    decreases s.len(),
{
    if s.len() > 0 {
        assert(all_digits(s.drop_last())) by {
            assert(forall|i: int|
                0 <= i < s.len() - 1 ==> s.drop_last()[i] == #[trigger] s[i]);
        }
        lemma_num_val_upper(s.drop_last());
        assert(digit_val(s.last()) <= 9);
    }
}

/// An all-digit sequence that does not start with `0` has value at least ten
/// to the one less than its length.
proof fn lemma_num_val_lower(s: Seq<char>)
    requires
        all_digits(s),
        s.len() >= 1,
        s[0] != '0',
    ensures
        num_val(s) >= pow10((s.len() - 1) as nat),
    decreases s.len(),
{
    assert(is_digit(s[0]));
    if s.len() == 1 {
        assert(num_val(s) == num_val(s.drop_last()) * 10 + digit_val(s.last()));
        assert(s.last() == s[0]);
        assert(digit_val(s[0]) >= 1);
    } else {
        let d = s.drop_last();
        assert(all_digits(d) && d.len() >= 1 && d[0] == s[0]) by {
            assert(forall|i: int| 0 <= i < s.len() - 1 ==> d[i] == #[trigger] s[i]);
        }
        lemma_num_val_lower(d);
        assert(num_val(s) == num_val(d) * 10 + digit_val(s.last()));
    }
}

/// Classifies a character as a digit with its value.
fn digit_of(c: char) -> (r: Option<u8>)
    ensures
        r is Some <==> is_digit(c),
        r matches Some(d) ==> d as nat == digit_val(c) && d < 10,
{
    match c {
        '0' => Some(0),
        '1' => Some(1),
        '2' => Some(2),
        '3' => Some(3),
        '4' => Some(4),
        '5' => Some(5),
        '6' => Some(6),
        '7' => Some(7),
        '8' => Some(8),
        '9' => Some(9),
        _ => None,
    }
}

/// Scans the canonical decimal number starting at `start`, returning its end
/// position and value when it is well formed and within `max`.
fn scan_num(s: &str, len: usize, start: usize, max: u32) -> (r: Option<(usize, u32)>)
    requires
        len == s@.len(),
        start <= len,
        max <= 65535,
    ensures
        r is Some <==> scan_ok(s@, start as int, max as nat),
        r matches Some((e, v)) ==> e as int == digits_end(s@, start as int) && v as nat == scan_val(
            s@,
            start as int,
        ) && start < e <= len && v <= max,
{
    if start == len {
        return None;
    }
    let c0 = s.get_char(start);
    let d0 = match digit_of(c0) {
        None => {
            return None;
        },
        Some(d) => d,
    };
    if d0 == 0 {
        // A number starting with '0' must be exactly "0".
        if start + 1 < len {
            let c1 = s.get_char(start + 1);
            if digit_of(c1).is_some() {
                proof {
                    assert(digits_end(s@, start as int) == digits_end(s@, start + 1));
                    assert(digits_end(s@, start + 1) == digits_end(s@, start + 2));
                    lemma_digits_end_bounds(s@, start + 2);
                    assert(digits_end(s@, start as int) >= start + 2);
                    assert(s@[start as int] == '0');
                }
                return None;
            }
        }
        proof {
            assert(digits_end(s@, start as int) == digits_end(s@, start + 1));
            assert(digits_end(s@, start + 1) == start + 1);
            let part = s@.subrange(start as int, start + 1);
            assert(part.drop_last() =~= Seq::<char>::empty());
            assert(part.last() == s@[start as int]);
            assert(num_val(Seq::<char>::empty()) == 0);
            assert(num_val(part) == num_val(part.drop_last()) * 10 + digit_val(part.last()));
            assert(num_val(part) == 0);
        }
        return Some((start + 1, 0));
    }
    let mut i: usize = start + 1;
    let mut val: u32 = d0 as u32;
    proof {
        let part = s@.subrange(start as int, start + 1);
        assert(part.drop_last() =~= Seq::<char>::empty());
        assert(part.last() == s@[start as int]);
        assert(num_val(Seq::<char>::empty()) == 0);
        assert(num_val(part) == num_val(part.drop_last()) * 10 + digit_val(part.last()));
        assert(num_val(part) == digit_val(s@[start as int]));
        assert(all_digits(part));
    }
    while i < len
        invariant
            len == s@.len(),
            start < i <= len,
            i - start <= 6,
            s@[start as int] != '0',
            all_digits(s@.subrange(start as int, i as int)),
            digits_end(s@, start as int) == digits_end(s@, i as int),
            val as nat == num_val(s@.subrange(start as int, i as int)),
            max <= 65535,
        decreases len - i,
    {
        let c = s.get_char(i);
        match digit_of(c) {
            None => {
                proof {
                    assert(digits_end(s@, i as int) == i as int);
                }
                if val <= max {
                    return Some((i, val));
                } else {
                    return None;
                }
            },
            Some(d) => {
                if i - start == 6 {
                    proof {
                        // Seven or more digits: the value must exceed any
                        // permitted maximum, so the scan fails either way.
                        assert(digits_end(s@, i as int) == digits_end(s@, i + 1));
                        let e = digits_end(s@, start as int);
                        lemma_digits_end_bounds(s@, i + 1);
                        assert(e >= i + 1);
                        let part = s@.subrange(start as int, e);
                        lemma_digits_run(s@, start as int);
                        assert(part.len() >= 7);
                        assert(part[0] == s@[start as int]);
                        lemma_num_val_lower(part);
                        lemma_pow10_mono(6, (part.len() - 1) as nat);
                        reveal_with_fuel(pow10, 8);
                        assert(num_val(part) >= pow10(6));
                    }
                    return None;
                }
                proof {
                    let old_part = s@.subrange(start as int, i as int);
                    lemma_num_val_upper(old_part);
                    reveal_with_fuel(pow10, 8);
                    assert(val < 1000000);
                    let new_part = s@.subrange(start as int, i + 1);
                    assert(new_part.drop_last() =~= old_part);
                    assert(new_part.last() == s@[i as int]);
                    assert(all_digits(new_part));
                    assert(digits_end(s@, i as int) == digits_end(s@, i + 1));
                }
                val = val * 10 + d as u32;
                i = i + 1;
            },
        }
    }
    proof {
        assert(digits_end(s@, i as int) == i as int);
    }
    if val <= max {
        Some((i, val))
    } else {
        None
    }
}

/// Ten to the power of a larger exponent is no smaller.
proof fn lemma_pow10_mono(a: nat, b: nat)
    requires
        a <= b,
    ensures
        pow10(a) <= pow10(b),
    decreases b,
{
    if a < b {
        lemma_pow10_mono(a, (b - 1) as nat);
        assert(pow10(b) == 10 * pow10((b - 1) as nat));
    }
}

/// `digits_end` never runs past the end and never moves backward.
proof fn lemma_digits_end_bounds(s: Seq<char>, i: int)
    requires
        0 <= i <= s.len(),
    ensures
        i <= digits_end(s, i) <= s.len(),
    decreases s.len() - i,
{
    if i < s.len() && is_digit(s[i]) {
        lemma_digits_end_bounds(s, i + 1);
    }
}

/// Every character between `i` and `digits_end(s, i)` is a digit.
proof fn lemma_digits_run(s: Seq<char>, i: int)
    requires
        0 <= i <= s.len(),
    ensures
        all_digits(s.subrange(i, digits_end(s, i))),
    decreases s.len() - i,
{
    lemma_digits_end_bounds(s, i);
    if i < s.len() && is_digit(s[i]) {
        lemma_digits_run(s, i + 1);
        lemma_digits_end_bounds(s, i + 1);
        let e = digits_end(s, i);
        assert(e == digits_end(s, i + 1));
        let sub = s.subrange(i, e);
        assert forall|k: int| 0 <= k < sub.len() implies is_digit(#[trigger] sub[k]) by {
            assert(sub[k] == s[i + k]);
            if k > 0 {
                assert(s.subrange(i + 1, e)[k - 1] == s[i + k]);
                assert(is_digit(s.subrange(i + 1, e)[k - 1]));
            }
        }
    }
}

/// The decimal rendering is canonical: all digits, no leading zero, and it
/// reads back as the rendered value.
proof fn lemma_dec_rep_canonical(n: nat)
    ensures
        dec_rep(n).len() >= 1,
        all_digits(dec_rep(n)),
        num_val(dec_rep(n)) == n,
        dec_rep(n).len() == 1 || dec_rep(n)[0] != '0',
    decreases n,
{
    if n < 10 {
        let s = dec_rep(n);
        assert(s == seq![dec_digit(n)]);
        assert(s.drop_last() =~= Seq::<char>::empty());
        assert(num_val(Seq::<char>::empty()) == 0);
        assert(num_val(s) == num_val(s.drop_last()) * 10 + digit_val(s.last()));
        assert(digit_val(dec_digit(n)) == n);
        assert(is_digit(dec_digit(n)));
    } else {
        lemma_dec_rep_canonical(n / 10);
        let s = dec_rep(n);
        let pre = dec_rep(n / 10);
        assert(s == pre.push(dec_digit(n % 10)));
        assert(s.drop_last() =~= pre);
        assert(num_val(s) == num_val(s.drop_last()) * 10 + digit_val(s.last()));
        assert(digit_val(dec_digit(n % 10)) == n % 10);
        assert(num_val(s) == (n / 10) * 10 + n % 10);
        assert(all_digits(s)) by {
            assert(forall|k: int| 0 <= k < pre.len() ==> s[k] == #[trigger] pre[k]);
            assert(is_digit(s[s.len() - 1]));
        }
        assert(s[0] == pre[0]);
        assert(pre[0] != '0') by {
            if n / 10 < 10 {
                assert(pre == seq![dec_digit(n / 10)]);
                assert(digit_val(dec_digit(n / 10)) == n / 10);
                assert(n / 10 >= 1);
                assert(dec_digit(n / 10) != '0');
            } else {
                lemma_dec_rep_canonical((n / 10) / 10);
                assert(pre == dec_rep((n / 10) / 10).push(dec_digit((n / 10) % 10)));
                assert(pre.len() >= 2);
            }
        }
    }
}

/// When everything from `i` up to `j` is a digit and `j` holds none, the
/// digit run starting at `i` ends exactly at `j`.
proof fn lemma_digits_end_exact(s: Seq<char>, i: int, j: int)
    requires
        0 <= i <= j <= s.len(),
        forall|k: int| i <= k < j ==> is_digit(#[trigger] s[k]),
        j == s.len() || !is_digit(s[j]),
    ensures
        digits_end(s, i) == j,
    decreases j - i,
{
    if i < j {
        lemma_digits_end_exact(s, i + 1, j);
    }
}

/// Round trip: the rendering of any IPv4 socket address parses back to
/// exactly that address.
pub proof fn lemma_rendered_sock_parses(sa: SockAddrV4)
    ensures
        spec_parse_sock(sock_rep(sa)) == Some(sa),
{
    let a = dec_rep(sa.ip.a as nat);
    let b = dec_rep(sa.ip.b as nat);
    let c = dec_rep(sa.ip.c as nat);
    let d = dec_rep(sa.ip.d as nat);
    let p = dec_rep(sa.port as nat);
    lemma_dec_rep_canonical(sa.ip.a as nat);
    lemma_dec_rep_canonical(sa.ip.b as nat);
    lemma_dec_rep_canonical(sa.ip.c as nat);
    lemma_dec_rep_canonical(sa.ip.d as nat);
    lemma_dec_rep_canonical(sa.port as nat);
    let s = sock_rep(sa);
    let e1 = a.len() as int;
    let s1 = e1 + 1;
    let e2 = s1 + b.len();
    let s2 = e2 + 1;
    let e3 = s2 + c.len();
    let s3 = e3 + 1;
    let e4 = s3 + d.len();
    let s4 = e4 + 1;
    let e5 = s4 + p.len();
    assert(s.len() == e5);
    assert(forall|k: int| 0 <= k < a.len() ==> s[k] == #[trigger] a[k]);
    assert(s[e1] == '.');
    assert(forall|k: int| 0 <= k < b.len() ==> s[s1 + k] == #[trigger] b[k]);
    assert(s[e2] == '.');
    assert(forall|k: int| 0 <= k < c.len() ==> s[s2 + k] == #[trigger] c[k]);
    assert(s[e3] == '.');
    assert(forall|k: int| 0 <= k < d.len() ==> s[s3 + k] == #[trigger] d[k]);
    assert(s[e4] == ':');
    assert(forall|k: int| 0 <= k < p.len() ==> s[s4 + k] == #[trigger] p[k]);

    assert(!is_digit('.') && !is_digit(':'));
    lemma_digits_end_exact(s, 0, e1);
    lemma_digits_end_exact(s, s1, e2);
    lemma_digits_end_exact(s, s2, e3);
    lemma_digits_end_exact(s, s3, e4);
    lemma_digits_end_exact(s, s4, e5);

    assert(s.subrange(0, e1) =~= a);
    assert(s.subrange(s1, e2) =~= b);
    assert(s.subrange(s2, e3) =~= c);
    assert(s.subrange(s3, e4) =~= d);
    assert(s.subrange(s4, e5) =~= p);

    assert(scan_ok(s, 0, 255) && scan_val(s, 0) == sa.ip.a as nat);
    assert(scan_ok(s, s1, 255) && scan_val(s, s1) == sa.ip.b as nat);
    assert(scan_ok(s, s2, 255) && scan_val(s, s2) == sa.ip.c as nat);
    assert(scan_ok(s, s3, 255) && scan_val(s, s3) == sa.ip.d as nat);
    assert(scan_ok(s, s4, 65535) && scan_val(s, s4) == sa.port as nat);
    assert(sock_shape(s));
    assert(spec_parse_sock(s) == Some(sa));
}

/// Parses a canonical `a.b.c.d:port` string; anything else yields `None`.
pub fn parse_sock_addr(s: &str) -> (r: Option<SockAddrV4>)
    ensures
        r == spec_parse_sock(s@),
{
    let len = s.unicode_len();
    let (e1, a) = match scan_num(s, len, 0, 255) {
        None => {
            return None;
        },
        Some(p) => p,
    };
    if e1 == len || s.get_char(e1) != '.' {
        return None;
    }
    let (e2, b) = match scan_num(s, len, e1 + 1, 255) {
        None => {
            return None;
        },
        Some(p) => p,
    };
    if e2 == len || s.get_char(e2) != '.' {
        return None;
    }
    let (e3, c) = match scan_num(s, len, e2 + 1, 255) {
        None => {
            return None;
        },
        Some(p) => p,
    };
    if e3 == len || s.get_char(e3) != '.' {
        return None;
    }
    let (e4, d) = match scan_num(s, len, e3 + 1, 255) {
        None => {
            return None;
        },
        Some(p) => p,
    };
    if e4 == len || s.get_char(e4) != ':' {
        return None;
    }
    let (e5, port) = match scan_num(s, len, e4 + 1, 65535) {
        None => {
            return None;
        },
        Some(p) => p,
    };
    if e5 != len {
        return None;
    }
    Some(
        SockAddrV4 {
            ip: IpV4 { a: a as u8, b: b as u8, c: c as u8, d: d as u8 },
            port: port as u16,
        },
    )
}

} // verus!
