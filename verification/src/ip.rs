//! IPv4 addresses as plain values, their canonical dotted-decimal text,
//! and the parsing of that text as an IP-echo service returns it:
//! surrounding whitespace is stripped, and what remains must be exactly
//! four decimal octets — one to three digits, no leading zero, at most
//! 255 — joined by single dots.

use vstd::prelude::*;
use vstd::string::StrSliceExecFns;

verus! {

/// An IPv4 address, one octet per field.
#[derive(Debug, Clone, Copy, PartialEq, Eq, Structural)]
pub struct Ipv4Address {
    pub o1: u8,
    pub o2: u8,
    pub o3: u8,
    pub o4: u8,
}

/// Whether `c` is a decimal digit.
pub open spec fn is_digit(c: char) -> bool {
    48 <= c as int <= 57
}

/// The numeric value of a digit character.
pub open spec fn digit_val(c: char) -> int {
    c as int - 48
}

/// The character of the digit `d`.
pub open spec fn digit_char(d: int) -> char {
    if d == 0 {
        '0'
    } else if d == 1 {
        '1'
    } else if d == 2 {
        '2'
    } else if d == 3 {
        '3'
    } else if d == 4 {
        '4'
    } else if d == 5 {
        '5'
    } else if d == 6 {
        '6'
    } else if d == 7 {
        '7'
    } else if d == 8 {
        '8'
    } else {
        '9'
    }
}

/// The canonical decimal rendering of `v`: no sign, no leading zero.
pub open spec fn dec_chars(v: int) -> Seq<char> {
    if v < 10 {
        seq![digit_char(v)]
    } else if v < 100 {
        seq![digit_char(v / 10), digit_char(v % 10)]
    } else {
        seq![digit_char(v / 100), digit_char((v / 10) % 10), digit_char(v % 10)]
    }
}

/// The canonical dotted-decimal text of an address.
pub open spec fn ipv4_chars(ip: Ipv4Address) -> Seq<char> {
    dec_chars(ip.o1 as int) + seq!['.'] + dec_chars(ip.o2 as int) + seq!['.'] + dec_chars(
        ip.o3 as int,
    ) + seq!['.'] + dec_chars(ip.o4 as int)
}

/// What the canonical rendering of `0 <= v <= 999` looks like: one to
/// three digits, no leading zero, and the digits recombine to `v`.
proof fn lemma_dec_chars_props(v: int)
    requires
        0 <= v <= 999,
    ensures
        1 <= dec_chars(v).len() <= 3,
        forall|k: int| 0 <= k < dec_chars(v).len() ==> is_digit(#[trigger] dec_chars(v)[k]),
        (dec_chars(v).len() == 1) == (v < 10),
        (dec_chars(v).len() == 2) == (10 <= v < 100),
        (dec_chars(v).len() == 3) == (100 <= v),
        dec_chars(v).len() > 1 ==> digit_val(dec_chars(v)[0]) >= 1,
        dec_chars(v).len() == 1 ==> digit_val(dec_chars(v)[0]) == v,
        dec_chars(v).len() == 2 ==> digit_val(dec_chars(v)[0]) * 10 + digit_val(
            dec_chars(v)[1],
        ) == v,
        dec_chars(v).len() == 3 ==> digit_val(dec_chars(v)[0]) * 100 + digit_val(
            dec_chars(v)[1],
        ) * 10 + digit_val(dec_chars(v)[2]) == v,
{
    if v < 10 {
    } else if v < 100 {
        assert(1 <= v / 10 <= 9);
        assert(0 <= v % 10 <= 9);
        assert((v / 10) * 10 + v % 10 == v);
    } else {
        assert(1 <= v / 100 <= 9);
        assert(0 <= (v / 10) % 10 <= 9);
        assert(0 <= v % 10 <= 9);
        assert(v / 100 * 100 + (v / 10) % 10 * 10 + v % 10 == v) by {
            assert(v / 10 == (v / 100) * 10 + (v / 10) % 10);
            assert((v / 10) * 10 + v % 10 == v);
        };
    }
}

/// The digits of a canonical rendering determine the value.
proof fn lemma_dec_chars_injective(v: int, w: int)
    requires
        0 <= v <= 999,
        0 <= w <= 999,
        dec_chars(v) == dec_chars(w),
    ensures
        v == w,
{
    lemma_dec_chars_props(v);
    lemma_dec_chars_props(w);
}

fn digit_str(d: u8) -> (r: &'static str)
    requires
        d < 10,
    ensures
        r@ == seq![digit_char(d as int)],
{
    match d {
        0 => {
            proof {
                reveal_strlit("0");
                assert("0"@ =~= seq![digit_char(0)]);
            }
            "0"
        },
        1 => {
            proof {
                reveal_strlit("1");
                assert("1"@ =~= seq![digit_char(1)]);
            }
            "1"
        },
        2 => {
            proof {
                reveal_strlit("2");
                assert("2"@ =~= seq![digit_char(2)]);
            }
            "2"
        },
        3 => {
            proof {
                reveal_strlit("3");
                assert("3"@ =~= seq![digit_char(3)]);
            }
            "3"
        },
        4 => {
            proof {
                reveal_strlit("4");
                assert("4"@ =~= seq![digit_char(4)]);
            }
            "4"
        },
        5 => {
            proof {
                reveal_strlit("5");
                assert("5"@ =~= seq![digit_char(5)]);
            }
            "5"
        },
        6 => {
            proof {
                reveal_strlit("6");
                assert("6"@ =~= seq![digit_char(6)]);
            }
            "6"
        },
        7 => {
            proof {
                reveal_strlit("7");
                assert("7"@ =~= seq![digit_char(7)]);
            }
            "7"
        },
        8 => {
            proof {
                reveal_strlit("8");
                assert("8"@ =~= seq![digit_char(8)]);
            }
            "8"
        },
        _ => {
            proof {
                reveal_strlit("9");
                assert("9"@ =~= seq![digit_char(9)]);
            }
            "9"
        },
    }
}

fn push_dec(out: &mut String, v: u8)
    ensures
        final(out)@ == old(out)@ + dec_chars(v as int),
{
    proof {
        lemma_dec_chars_props(v as int);
    }
    if v < 10 {
        out.append(digit_str(v));
        assert(out@ =~= old(out)@ + dec_chars(v as int));
    } else if v < 100 {
        out.append(digit_str(v / 10));
        out.append(digit_str(v % 10));
        assert(out@ =~= old(out)@ + dec_chars(v as int));
    } else {
        out.append(digit_str(v / 100));
        out.append(digit_str((v / 10) % 10));
        out.append(digit_str(v % 10));
        assert(out@ =~= old(out)@ + dec_chars(v as int));
    }
}

/// Whether `c` is ASCII whitespace: space, tab, line feed, vertical
/// tab, form feed or carriage return.
pub open spec fn is_space(c: char) -> bool {
    c as int == 32 || c as int == 9 || c as int == 10 || c as int == 11 || c as int == 12
        || c as int == 13
}

fn char_is_space(c: char) -> (b: bool)
    ensures
        b == is_space(c),
{
    let u = c as u32;
    u == 32 || u == 9 || u == 10 || u == 11 || u == 12 || u == 13
}

/// `s` with its leading whitespace dropped.
pub open spec fn strip_leading(s: Seq<char>) -> Seq<char>
    decreases s.len(),
{
    if s.len() > 0 && is_space(s[0]) {
        strip_leading(s.drop_first())
    } else {
        s
    }
}

/// `s` with its trailing whitespace dropped.
pub open spec fn strip_trailing(s: Seq<char>) -> Seq<char>
    decreases s.len(),
{
    if s.len() > 0 && is_space(s.last()) {
        strip_trailing(s.drop_last())
    } else {
        s
    }
}

/// `s` with surrounding whitespace dropped.
pub open spec fn trimmed(s: Seq<char>) -> Seq<char> {
    strip_trailing(strip_leading(s))
}

proof fn lemma_strip_leading_subrange(s: Seq<char>, lo: int)
    requires
        0 <= lo <= s.len(),
        forall|j: int| 0 <= j < lo ==> is_space(s[j]),
        lo < s.len() ==> !is_space(s[lo]),
    ensures
        strip_leading(s) == s.subrange(lo, s.len() as int),
    decreases s.len(),
{
    if lo == 0 {
        assert(strip_leading(s) =~= s.subrange(0, s.len() as int));
    } else {
        let rest = s.drop_first();
        assert(forall|j: int| 0 <= j < rest.len() ==> rest[j] == s[j + 1]);
        lemma_strip_leading_subrange(rest, lo - 1);
        assert(rest.subrange(lo - 1, rest.len() as int) =~= s.subrange(lo, s.len() as int));
    }
}

proof fn lemma_strip_trailing_subrange(s: Seq<char>, hi: int)
    requires
        0 <= hi <= s.len(),
        forall|j: int| hi <= j < s.len() ==> is_space(s[j]),
        hi > 0 ==> !is_space(s[hi - 1]),
    ensures
        strip_trailing(s) == s.subrange(0, hi),
    decreases s.len(),
{
    if hi == s.len() {
        assert(strip_trailing(s) =~= s.subrange(0, hi));
    } else {
        let rest = s.drop_last();
        assert(is_space(s.last()));
        assert(forall|j: int| 0 <= j < rest.len() ==> rest[j] == s[j]);
        lemma_strip_trailing_subrange(rest, hi);
        assert(rest.subrange(0, hi) =~= s.subrange(0, hi));
    }
}

/// The first occurrence of `target` in `s` at an index in `[from, to)`.
fn find_char_from(s: &str, from: usize, to: usize, target: char) -> (r: Option<usize>)
    requires
        from <= to <= s@.len(),
    ensures
        match r {
            Some(p) => from <= p < to && s@[p as int] == target && forall|j: int|
                from <= j < p ==> s@[j] != target,
            None => forall|j: int| from <= j < to ==> s@[j] != target,
        },
{
    let mut i: usize = from;
    while i < to
        invariant
            from <= i <= to <= s@.len(),
            forall|j: int| from <= j < i ==> s@[j] != target,
        decreases to - i,
    {
        if s.get_char(i) == target {
            return Some(i);
        }
        i = i + 1;
    }
    None
}

/// Read the characters of `s` at `[a, b)` as one canonical decimal
/// octet; `None` exactly when they are no octet's canonical rendering.
fn scan_octet(s: &str, a: usize, b: usize) -> (r: Option<u8>)
    requires
        a <= b <= s@.len(),
    ensures
        match r {
            Some(v) => s@.subrange(a as int, b as int) == dec_chars(v as int),
            None => forall|v: u8| s@.subrange(a as int, b as int) != dec_chars(v as int),
        },
{
    let ghost seg = s@.subrange(a as int, b as int);
    proof {
        assert forall|v: u8| 1 <= dec_chars(v as int).len() <= 3 && (forall|k: int|
            0 <= k < dec_chars(v as int).len() ==> is_digit(#[trigger] dec_chars(v as int)[k]))
            && (dec_chars(v as int).len() > 1 ==> digit_val(dec_chars(v as int)[0]) >= 1) by {
            lemma_dec_chars_props(v as int);
        }
    }
    let len = b - a;
    if len == 0 || len > 3 {
        return None;
    }
    let d0 = s.get_char(a) as u32;
    if d0 < 48 || d0 > 57 {
        assert(seg[0] == s@[a as int]);
        return None;
    }
    if len == 1 {
        let v = (d0 - 48) as u8;
        proof {
            lemma_dec_chars_props(v as int);
            assert(seg =~= dec_chars(v as int));
        }
        return Some(v);
    }
    if d0 == 48 {
        // a leading zero is canonical for no octet of two or three digits
        assert forall|v: u8| seg != dec_chars(v as int) by {
            lemma_dec_chars_props(v as int);
            if seg == dec_chars(v as int) {
                assert(digit_val(seg[0]) == 0);
            }
        }
        return None;
    }
    let d1 = s.get_char(a + 1) as u32;
    if d1 < 48 || d1 > 57 {
        assert(seg[1] == s@[a as int + 1]);
        return None;
    }
    if len == 2 {
        let v = ((d0 - 48) * 10 + (d1 - 48)) as u8;
        proof {
            lemma_dec_chars_props(v as int);
            assert(v as int / 10 == d0 - 48 && v as int % 10 == d1 - 48);
            assert(seg =~= dec_chars(v as int));
        }
        return Some(v);
    }
    let d2 = s.get_char(a + 2) as u32;
    if d2 < 48 || d2 > 57 {
        assert(seg[2] == s@[a as int + 2]);
        return None;
    }
    let w = (d0 - 48) * 100 + (d1 - 48) * 10 + (d2 - 48);
    if w > 255 {
        // three digits recombine past 255, which no octet renders to
        assert forall|v: u8| seg != dec_chars(v as int) by {
            lemma_dec_chars_props(v as int);
            if seg == dec_chars(v as int) {
                assert(digit_val(seg[0]) * 100 + digit_val(seg[1]) * 10 + digit_val(seg[2])
                    == v as int);
            }
        }
        return None;
    }
    let v = w as u8;
    proof {
        lemma_dec_chars_props(v as int);
        assert(v as int / 100 == d0 - 48);
        assert((v as int / 10) % 10 == d1 - 48) by {
            assert(v as int / 10 == (d0 - 48) * 10 + (d1 - 48));
        };
        assert(v as int % 10 == d2 - 48);
        assert(seg =~= dec_chars(v as int));
    }
    Some(v)
}

spec fn dot1(ip: Ipv4Address) -> int {
    dec_chars(ip.o1 as int).len() as int
}

spec fn dot2(ip: Ipv4Address) -> int {
    dot1(ip) + 1 + dec_chars(ip.o2 as int).len()
}

spec fn dot3(ip: Ipv4Address) -> int {
    dot2(ip) + 1 + dec_chars(ip.o3 as int).len()
}

/// How the canonical text of an address is laid out: the three dots
/// stand exactly at the octet boundaries, everything else is a digit,
/// and the four octet segments are the octets' canonical renderings.
proof fn lemma_ipv4_chars_structure(ip: Ipv4Address)
    ensures
        7 <= ipv4_chars(ip).len() <= 15,
        ipv4_chars(ip).len() == dot3(ip) + 1 + dec_chars(ip.o4 as int).len(),
        0 < dot1(ip) < dot2(ip) < dot3(ip) < ipv4_chars(ip).len(),
        ipv4_chars(ip)[dot1(ip)] == '.',
        ipv4_chars(ip)[dot2(ip)] == '.',
        ipv4_chars(ip)[dot3(ip)] == '.',
        forall|k: int|
            0 <= k < ipv4_chars(ip).len() && k != dot1(ip) && k != dot2(ip) && k != dot3(ip)
                ==> is_digit(#[trigger] ipv4_chars(ip)[k]),
        ipv4_chars(ip).subrange(0, dot1(ip)) == dec_chars(ip.o1 as int),
        ipv4_chars(ip).subrange(dot1(ip) + 1, dot2(ip)) == dec_chars(ip.o2 as int),
        ipv4_chars(ip).subrange(dot2(ip) + 1, dot3(ip)) == dec_chars(ip.o3 as int),
        ipv4_chars(ip).subrange(dot3(ip) + 1, ipv4_chars(ip).len() as int) == dec_chars(
            ip.o4 as int,
        ),
{
    lemma_dec_chars_props(ip.o1 as int);
    lemma_dec_chars_props(ip.o2 as int);
    lemma_dec_chars_props(ip.o3 as int);
    lemma_dec_chars_props(ip.o4 as int);
    let t = ipv4_chars(ip);
    let a = dec_chars(ip.o1 as int);
    let b = dec_chars(ip.o2 as int);
    let c = dec_chars(ip.o3 as int);
    let d = dec_chars(ip.o4 as int);
    assert(t.subrange(0, dot1(ip)) =~= a);
    assert(t.subrange(dot1(ip) + 1, dot2(ip)) =~= b);
    assert(t.subrange(dot2(ip) + 1, dot3(ip)) =~= c);
    assert(t.subrange(dot3(ip) + 1, t.len() as int) =~= d);
    assert forall|k: int|
        0 <= k < t.len() && k != dot1(ip) && k != dot2(ip) && k != dot3(ip) implies is_digit(
        #[trigger] t[k],
    ) by {
        if k < dot1(ip) {
            assert(t[k] == a[k]);
        } else if k < dot2(ip) {
            assert(t[k] == b[k - dot1(ip) - 1]);
        } else if k < dot3(ip) {
            assert(t[k] == c[k - dot2(ip) - 1]);
        } else {
            assert(t[k] == d[k - dot3(ip) - 1]);
        }
    }
}

/// The first dot of a canonical text closes the first octet segment.
proof fn lemma_first_dot_aligns(t: Seq<char>, ip: Ipv4Address, q: int)
    requires
        t == ipv4_chars(ip),
        0 <= q < t.len(),
        t[q] == '.',
        forall|j: int| 0 <= j < q ==> t[j] != '.',
    ensures
        q == dot1(ip),
{
    lemma_ipv4_chars_structure(ip);
    if q < dot1(ip) {
        assert(is_digit(t[q]));
    } else if q > dot1(ip) {
        assert(t[dot1(ip)] != '.');
    }
}

/// The first dot after the first octet segment closes the second.
proof fn lemma_second_dot_aligns(t: Seq<char>, ip: Ipv4Address, q: int)
    requires
        t == ipv4_chars(ip),
        dot1(ip) < q < t.len(),
        t[q] == '.',
        forall|j: int| dot1(ip) < j < q ==> t[j] != '.',
    ensures
        q == dot2(ip),
{
    lemma_ipv4_chars_structure(ip);
    if q < dot2(ip) {
        assert(is_digit(t[q]));
    } else if q > dot2(ip) {
        assert(t[dot2(ip)] != '.');
    }
}

/// The first dot after the second octet segment closes the third.
proof fn lemma_third_dot_aligns(t: Seq<char>, ip: Ipv4Address, q: int)
    requires
        t == ipv4_chars(ip),
        dot2(ip) < q < t.len(),
        t[q] == '.',
        forall|j: int| dot2(ip) < j < q ==> t[j] != '.',
    ensures
        q == dot3(ip),
{
    lemma_ipv4_chars_structure(ip);
    if q < dot3(ip) {
        assert(is_digit(t[q]));
    } else if q > dot3(ip) {
        assert(t[dot3(ip)] != '.');
    }
}

proof fn lemma_reject_length(t: Seq<char>)
    requires
        t.len() < 7 || t.len() > 15,
    ensures
        forall|ip: Ipv4Address| t != ipv4_chars(ip),
{
    assert forall|ip: Ipv4Address| t != ipv4_chars(ip) by {
        lemma_ipv4_chars_structure(ip);
    }
}

proof fn lemma_reject_no_first_dot(t: Seq<char>)
    requires
        forall|j: int| 0 <= j < t.len() ==> t[j] != '.',
    ensures
        forall|ip: Ipv4Address| t != ipv4_chars(ip),
{
    assert forall|ip: Ipv4Address| t != ipv4_chars(ip) by {
        if t == ipv4_chars(ip) {
            lemma_ipv4_chars_structure(ip);
            assert(t[dot1(ip)] == '.');
        }
    }
}

proof fn lemma_reject_no_second_dot(t: Seq<char>, q1: int)
    requires
        0 <= q1 < t.len(),
        t[q1] == '.',
        forall|j: int| 0 <= j < q1 ==> t[j] != '.',
        forall|j: int| q1 < j < t.len() ==> t[j] != '.',
    ensures
        forall|ip: Ipv4Address| t != ipv4_chars(ip),
{
    assert forall|ip: Ipv4Address| t != ipv4_chars(ip) by {
        if t == ipv4_chars(ip) {
            lemma_ipv4_chars_structure(ip);
            lemma_first_dot_aligns(t, ip, q1);
            assert(t[dot2(ip)] == '.');
        }
    }
}

proof fn lemma_reject_no_third_dot(t: Seq<char>, q1: int, q2: int)
    requires
        0 <= q1 < q2 < t.len(),
        t[q1] == '.',
        t[q2] == '.',
        forall|j: int| 0 <= j < q1 ==> t[j] != '.',
        forall|j: int| q1 < j < q2 ==> t[j] != '.',
        forall|j: int| q2 < j < t.len() ==> t[j] != '.',
    ensures
        forall|ip: Ipv4Address| t != ipv4_chars(ip),
{
    assert forall|ip: Ipv4Address| t != ipv4_chars(ip) by {
        if t == ipv4_chars(ip) {
            lemma_ipv4_chars_structure(ip);
            lemma_first_dot_aligns(t, ip, q1);
            lemma_second_dot_aligns(t, ip, q2);
            assert(t[dot3(ip)] == '.');
        }
    }
}

proof fn lemma_reject_fourth_dot(t: Seq<char>, q1: int, q2: int, q3: int, q4: int)
    requires
        0 <= q1 < q2 < q3 < q4 < t.len(),
        t[q1] == '.',
        t[q2] == '.',
        t[q3] == '.',
        t[q4] == '.',
        forall|j: int| 0 <= j < q1 ==> t[j] != '.',
        forall|j: int| q1 < j < q2 ==> t[j] != '.',
        forall|j: int| q2 < j < q3 ==> t[j] != '.',
    ensures
        forall|ip: Ipv4Address| t != ipv4_chars(ip),
{
    assert forall|ip: Ipv4Address| t != ipv4_chars(ip) by {
        if t == ipv4_chars(ip) {
            lemma_ipv4_chars_structure(ip);
            lemma_first_dot_aligns(t, ip, q1);
            lemma_second_dot_aligns(t, ip, q2);
            lemma_third_dot_aligns(t, ip, q3);
            assert(is_digit(t[q4]));
        }
    }
}

proof fn lemma_reject_octet(t: Seq<char>, q1: int, q2: int, q3: int, which: int)
    requires
        0 <= q1 < q2 < q3 < t.len(),
        t[q1] == '.',
        t[q2] == '.',
        t[q3] == '.',
        forall|j: int| 0 <= j < q1 ==> t[j] != '.',
        forall|j: int| q1 < j < q2 ==> t[j] != '.',
        forall|j: int| q2 < j < q3 ==> t[j] != '.',
        1 <= which <= 4,
        which == 1 ==> forall|v: u8| t.subrange(0, q1) != dec_chars(v as int),
        which == 2 ==> forall|v: u8| t.subrange(q1 + 1, q2) != dec_chars(v as int),
        which == 3 ==> forall|v: u8| t.subrange(q2 + 1, q3) != dec_chars(v as int),
        which == 4 ==> forall|v: u8| t.subrange(q3 + 1, t.len() as int) != dec_chars(v as int),
    ensures
        forall|ip: Ipv4Address| t != ipv4_chars(ip),
{
    assert forall|ip: Ipv4Address| t != ipv4_chars(ip) by {
        if t == ipv4_chars(ip) {
            lemma_ipv4_chars_structure(ip);
            lemma_first_dot_aligns(t, ip, q1);
            lemma_second_dot_aligns(t, ip, q2);
            lemma_third_dot_aligns(t, ip, q3);
            if which == 1 {
                assert(t.subrange(0, q1) != dec_chars(ip.o1 as int));
            } else if which == 2 {
                assert(t.subrange(q1 + 1, q2) != dec_chars(ip.o2 as int));
            } else if which == 3 {
                assert(t.subrange(q2 + 1, q3) != dec_chars(ip.o3 as int));
            } else {
                assert(t.subrange(q3 + 1, t.len() as int) != dec_chars(ip.o4 as int));
            }
        }
    }
}

proof fn lemma_accept(t: Seq<char>, q1: int, q2: int, q3: int, ip: Ipv4Address)
    requires
        0 <= q1 < q2 < q3 < t.len(),
        t[q1] == '.',
        t[q2] == '.',
        t[q3] == '.',
        t.subrange(0, q1) == dec_chars(ip.o1 as int),
        t.subrange(q1 + 1, q2) == dec_chars(ip.o2 as int),
        t.subrange(q2 + 1, q3) == dec_chars(ip.o3 as int),
        t.subrange(q3 + 1, t.len() as int) == dec_chars(ip.o4 as int),
    ensures
        t == ipv4_chars(ip),
{
    lemma_ipv4_chars_structure(ip);
    let u = ipv4_chars(ip);
    assert(dot1(ip) == q1);
    assert(dot2(ip) == q2);
    assert(dot3(ip) == q3);
    assert(t.len() == u.len());
    assert forall|k: int| 0 <= k < t.len() implies t[k] == u[k] by {
        if k < q1 {
            assert(t[k] == t.subrange(0, q1)[k]);
            assert(u[k] == u.subrange(0, q1)[k]);
        } else if k == q1 {
        } else if k < q2 {
            assert(t[k] == t.subrange(q1 + 1, q2)[k - q1 - 1]);
            assert(u[k] == u.subrange(q1 + 1, q2)[k - q1 - 1]);
        } else if k == q2 {
        } else if k < q3 {
            assert(t[k] == t.subrange(q2 + 1, q3)[k - q2 - 1]);
            assert(u[k] == u.subrange(q2 + 1, q3)[k - q2 - 1]);
        } else if k == q3 {
        } else {
            assert(t[k] == t.subrange(q3 + 1, t.len() as int)[k - q3 - 1]);
            assert(u[k] == u.subrange(q3 + 1, u.len() as int)[k - q3 - 1]);
        }
    }
    assert(t =~= u);
}

/// Parse the text an IP-echo service returned: strip surrounding
/// whitespace, then accept exactly the canonical dotted-decimal form of
/// an IPv4 address and nothing else.
#[verifier::rlimit(100)]
pub fn parse_ipv4_text(s: &str) -> (r: Option<Ipv4Address>)
    ensures
        match r {
            Some(ip) => trimmed(s@) == ipv4_chars(ip),
            None => forall|ip: Ipv4Address| trimmed(s@) != ipv4_chars(ip),
        },
{
    let n = s.unicode_len();
    let mut lo: usize = 0;
    while lo < n && char_is_space(s.get_char(lo))
        invariant
            lo <= n,
            n as int == s@.len(),
            forall|j: int| 0 <= j < lo ==> is_space(s@[j]),
        decreases n - lo,
    {
        lo = lo + 1;
    }
    let mut hi: usize = n;
    while hi > lo && char_is_space(s.get_char(hi - 1))
        invariant
            lo <= hi <= n,
            n as int == s@.len(),
            forall|j: int| hi <= j < n ==> is_space(s@[j]),
        decreases hi,
    {
        hi = hi - 1;
    }
    let ghost t = s@.subrange(lo as int, hi as int);
    proof {
        lemma_strip_leading_subrange(s@, lo as int);
        let mid = s@.subrange(lo as int, s@.len() as int);
        assert(forall|j: int| 0 <= j < mid.len() ==> mid[j] == s@[lo + j]);
        lemma_strip_trailing_subrange(mid, hi - lo);
        assert(mid.subrange(0, hi - lo) =~= t);
        assert(trimmed(s@) == t);
        assert(forall|k: int| 0 <= k < t.len() ==> t[k] == s@[lo + k]);
    }
    if lo == hi {
        proof {
            lemma_reject_length(t);
        }
        return None;
    }
    let p1 = match find_char_from(s, lo, hi, '.') {
        Some(p) => p,
        None => {
            proof {
                lemma_reject_no_first_dot(t);
            }
            return None;
        },
    };
    let ghost q1 = p1 - lo;
    let p2 = match find_char_from(s, p1 + 1, hi, '.') {
        Some(p) => p,
        None => {
            proof {
                lemma_reject_no_second_dot(t, q1);
            }
            return None;
        },
    };
    let ghost q2 = p2 - lo;
    let p3 = match find_char_from(s, p2 + 1, hi, '.') {
        Some(p) => p,
        None => {
            proof {
                lemma_reject_no_third_dot(t, q1, q2);
            }
            return None;
        },
    };
    let ghost q3 = p3 - lo;
    match find_char_from(s, p3 + 1, hi, '.') {
        Some(p4) => {
            proof {
                lemma_reject_fourth_dot(t, q1, q2, q3, p4 - lo);
            }
            return None;
        },
        None => {},
    }
    proof {
        assert(t.subrange(0, q1) =~= s@.subrange(lo as int, p1 as int));
        assert(t.subrange(q1 + 1, q2) =~= s@.subrange(p1 + 1, p2 as int));
        assert(t.subrange(q2 + 1, q3) =~= s@.subrange(p2 + 1, p3 as int));
        assert(t.subrange(q3 + 1, t.len() as int) =~= s@.subrange(p3 + 1, hi as int));
    }
    let a = match scan_octet(s, lo, p1) {
        Some(v) => v,
        None => {
            proof {
                lemma_reject_octet(t, q1, q2, q3, 1);
            }
            return None;
        },
    };
    let b = match scan_octet(s, p1 + 1, p2) {
        Some(v) => v,
        None => {
            proof {
                lemma_reject_octet(t, q1, q2, q3, 2);
            }
            return None;
        },
    };
    let c = match scan_octet(s, p2 + 1, p3) {
        Some(v) => v,
        None => {
            proof {
                lemma_reject_octet(t, q1, q2, q3, 3);
            }
            return None;
        },
    };
    let d = match scan_octet(s, p3 + 1, hi) {
        Some(v) => v,
        None => {
            proof {
                lemma_reject_octet(t, q1, q2, q3, 4);
            }
            return None;
        },
    };
    let ip = Ipv4Address { o1: a, o2: b, o3: c, o4: d };
    proof {
        lemma_accept(t, q1, q2, q3, ip);
    }
    Some(ip)
}

/// Rendering then parsing gives an address back unchanged: the canonical
/// text carries no whitespace to strip, and no two addresses share it.
pub proof fn lemma_canonical_round_trip(x: Ipv4Address, y: Ipv4Address)
    ensures
        trimmed(ipv4_chars(x)) == ipv4_chars(x),
        ipv4_chars(x) == ipv4_chars(y) ==> x == y,
{
    lemma_ipv4_chars_structure(x);
    let t = ipv4_chars(x);
    assert(is_digit(t[0]));
    assert(is_digit(t[t.len() - 1]));
    lemma_strip_leading_subrange(t, 0);
    assert(t.subrange(0, t.len() as int) =~= t);
    lemma_strip_trailing_subrange(t, t.len() as int);
    if t == ipv4_chars(y) {
        lemma_ipv4_chars_structure(y);
        lemma_first_dot_aligns(t, x, dot1(y));
        lemma_second_dot_aligns(t, x, dot2(y));
        lemma_third_dot_aligns(t, x, dot3(y));
        lemma_dec_chars_injective(x.o1 as int, y.o1 as int);
        lemma_dec_chars_injective(x.o2 as int, y.o2 as int);
        lemma_dec_chars_injective(x.o3 as int, y.o3 as int);
        lemma_dec_chars_injective(x.o4 as int, y.o4 as int);
    }
}

/// Render an address as its canonical dotted-decimal text.
pub fn ipv4_text(ip: &Ipv4Address) -> (r: String)
    ensures
        r@ == ipv4_chars(*ip),
{
    let mut out = String::new();
    push_dec(&mut out, ip.o1);
    out.append(".");
    push_dec(&mut out, ip.o2);
    out.append(".");
    push_dec(&mut out, ip.o3);
    out.append(".");
    push_dec(&mut out, ip.o4);
    proof {
        reveal_strlit(".");
        assert("."@ =~= seq!['.']);
        assert(out@ =~= ipv4_chars(*ip));
    }
    out
}

} // verus!
