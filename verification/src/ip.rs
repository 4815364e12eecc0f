//! IPv4 model: addresses as four octets, the fixed /24 subnet used by
//! discovery, textual parsing and formatting, and the numeric order that the
//! device list is sorted by.

use vstd::prelude::*;

use crate::text::str_chars;

verus! {

/// An IPv4 address, one field per octet.
#[derive(Clone, Copy, PartialEq, Eq, Structural, Debug)]
pub struct Ipv4 {
    pub a: u8,
    pub b: u8,
    pub c: u8,
    pub d: u8,
}

/// The numeric value of an address: the big-endian reading of its octets.
pub open spec fn ip_val(ip: Ipv4) -> int {
    ip.a * 0x1000000 + ip.b * 0x10000 + ip.c * 0x100 + ip.d
}

/// `127.0.0.0/8`.
pub open spec fn spec_is_loopback(ip: Ipv4) -> bool {
    ip.a == 127
}

/// `169.254.0.0/16`.
pub open spec fn spec_is_link_local(ip: Ipv4) -> bool {
    ip.a == 169 && ip.b == 254
}

/// The network address of the /24 subnet containing `ip`.
pub open spec fn spec_subnet24(ip: Ipv4) -> Ipv4 {
    Ipv4 { a: ip.a, b: ip.b, c: ip.c, d: 0 }
}

/// Whether `ip` lies in the /24 subnet whose network address is `base`.
pub open spec fn spec_in_subnet24(base: Ipv4, ip: Ipv4) -> bool {
    ip.a == base.a && ip.b == base.b && ip.c == base.c
}

/// Numeric order on addresses.
pub open spec fn ip_le(x: Ipv4, y: Ipv4) -> bool {
    ip_val(x) <= ip_val(y)
}

impl Ipv4 {
    pub fn is_loopback(&self) -> (r: bool)
        ensures
            r == spec_is_loopback(*self),
    {
        self.a == 127
    }

    pub fn is_link_local(&self) -> (r: bool)
        ensures
            r == spec_is_link_local(*self),
    {
        self.a == 169 && self.b == 254
    }

    /// The network address of the surrounding /24 subnet.
    pub fn subnet24(&self) -> (r: Ipv4)
        ensures
            r == spec_subnet24(*self),
    {
        Ipv4 { a: self.a, b: self.b, c: self.c, d: 0 }
    }

    pub fn in_subnet24(&self, base: &Ipv4) -> (r: bool)
        ensures
            r == spec_in_subnet24(*base, *self),
    {
        self.a == base.a && self.b == base.b && self.c == base.c
    }

    /// Numeric comparison, by the big-endian reading of the octets.
    pub fn le(&self, other: &Ipv4) -> (r: bool)
        ensures
            r == ip_le(*self, *other),
    {
        if self.a != other.a {
            self.a < other.a
        } else if self.b != other.b {
            self.b < other.b
        } else if self.c != other.c {
            self.c < other.c
        } else {
            self.d <= other.d
        }
    }
}

/// Numeric order on addresses is total.
pub proof fn lemma_ip_le_total(x: Ipv4, y: Ipv4)
    ensures
        ip_le(x, y) || ip_le(y, x),
{
}

/// Numeric order on addresses is transitive.
pub proof fn lemma_ip_le_trans(x: Ipv4, y: Ipv4, z: Ipv4)
    requires
        ip_le(x, y),
        ip_le(y, z),
    ensures
        ip_le(x, z),
{
}

/// Whether `c` is a decimal digit.
pub open spec fn is_digit(c: char) -> bool {
    48 <= c as int && c as int <= 57
}

/// The value of a decimal digit character.
pub open spec fn digit_val(c: char) -> int {
    c as int - 48
}

/// The decimal digit character for a value below ten.
pub open spec fn digit_char(k: int) -> char {
    if k == 0 {
        '0'
    } else if k == 1 {
        '1'
    } else if k == 2 {
        '2'
    } else if k == 3 {
        '3'
    } else if k == 4 {
        '4'
    } else if k == 5 {
        '5'
    } else if k == 6 {
        '6'
    } else if k == 7 {
        '7'
    } else if k == 8 {
        '8'
    } else {
        '9'
    }
}

/// The value of an all-digit string, read as a decimal number.
pub open spec fn digits_val(s: Seq<char>) -> int
    decreases s.len(),
{
    if s.len() == 0 {
        0
    } else {
        digits_val(s.drop_last()) * 10 + digit_val(s.last())
    }
}

/// The canonical decimal rendering of an octet: one to three digits, no
/// leading zero.
pub open spec fn spec_u8_str(n: u8) -> Seq<char> {
    if n < 10 {
        seq![digit_char(n as int)]
    } else if n < 100 {
        seq![digit_char(n as int / 10), digit_char(n as int % 10)]
    } else {
        seq![digit_char(n as int / 100), digit_char((n as int / 10) % 10), digit_char(n as int % 10)]
    }
}

/// The canonical dotted-quad rendering of an address.
pub open spec fn spec_ipv4_str(ip: Ipv4) -> Seq<char> {
    spec_u8_str(ip.a) + seq!['.'] + spec_u8_str(ip.b) + seq!['.'] + spec_u8_str(ip.c) + seq!['.']
        + spec_u8_str(ip.d)
}

/// The digit characters carry their digit values, and none of them is a dot.
pub proof fn lemma_digit_char_val(k: int)
    requires
        0 <= k < 10,
    ensures
        is_digit(digit_char(k)),
        digit_val(digit_char(k)) == k,
        digit_char(k) != '.',
        k > 0 ==> digit_char(k) != '0',
{
}

fn digit_str(k: u8) -> (r: &'static str)
    requires
        k < 10,
    ensures
        r@ =~= seq![digit_char(k as int)],
{
    proof {
        reveal_strlit("0");
        reveal_strlit("1");
        reveal_strlit("2");
        reveal_strlit("3");
        reveal_strlit("4");
        reveal_strlit("5");
        reveal_strlit("6");
        reveal_strlit("7");
        reveal_strlit("8");
        reveal_strlit("9");
    }
    match k {
        0 => "0",
        1 => "1",
        2 => "2",
        3 => "3",
        4 => "4",
        5 => "5",
        6 => "6",
        7 => "7",
        8 => "8",
        _ => "9",
    }
}

/// Renders an octet as decimal digits without a leading zero.
pub fn format_u8(n: u8) -> (r: String)
    ensures
        r@ == spec_u8_str(n),
{
    if n < 10 {
        String::from_str(digit_str(n))
    } else if n < 100 {
        let mut s = String::from_str(digit_str(n / 10));
        s.append(digit_str(n % 10));
        proof {
            assert(s@ =~= spec_u8_str(n));
        }
        s
    } else {
        let mut s = String::from_str(digit_str(n / 100));
        s.append(digit_str((n / 10) % 10));
        s.append(digit_str(n % 10));
        proof {
            assert(s@ =~= spec_u8_str(n));
        }
        s
    }
}

/// The pieces of `s` between its dots, in order. A string without dots is one
/// piece; every dot ends a piece, so `n` dots give `n + 1` pieces.
pub open spec fn split_dots(s: Seq<char>) -> Seq<Seq<char>>
    decreases s.len(),
{
    if s.len() == 0 {
        seq![Seq::<char>::empty()]
    } else if s.last() == '.' {
        split_dots(s.drop_last()).push(Seq::<char>::empty())
    } else {
        let parts = split_dots(s.drop_last());
        parts.update(parts.len() - 1, parts.last().push(s.last()))
    }
}

/// Splitting always yields at least one piece.
pub proof fn lemma_split_dots_len(s: Seq<char>)
    ensures
        split_dots(s).len() >= 1,
    decreases s.len(),
{
    if s.len() > 0 {
        lemma_split_dots_len(s.drop_last());
    }
}

/// The value of a short digit string is bounded by its length.
pub proof fn lemma_digits_val_bounds(s: Seq<char>)
    requires
        forall|i: int| 0 <= i < s.len() ==> is_digit(s[i]),
    ensures
        0 <= digits_val(s),
        s.len() <= 1 ==> digits_val(s) < 10,
        s.len() <= 2 ==> digits_val(s) < 100,
        s.len() <= 3 ==> digits_val(s) < 1000,
    decreases s.len(),
{
    if s.len() > 0 {
        lemma_digits_val_bounds(s.drop_last());
    }
}

/// A valid textual octet: one to three decimal digits, no leading zero, value
/// at most 255.
pub open spec fn valid_octet_str(s: Seq<char>) -> bool {
    &&& 1 <= s.len() <= 3
    &&& forall|i: int| 0 <= i < s.len() ==> is_digit(s[i])
    &&& (s.len() > 1 ==> s[0] != '0')
    &&& digits_val(s) <= 255
}

/// The address denoted by `s`, if `s` is a canonical dotted quad: exactly four
/// valid octets separated by single dots. Anything else denotes no address.
pub open spec fn spec_parse_ipv4(s: Seq<char>) -> Option<Ipv4> {
    let parts = split_dots(s);
    if parts.len() == 4 && valid_octet_str(parts[0]) && valid_octet_str(parts[1])
        && valid_octet_str(parts[2]) && valid_octet_str(parts[3]) {
        Some(
            Ipv4 {
                a: digits_val(parts[0]) as u8,
                b: digits_val(parts[1]) as u8,
                c: digits_val(parts[2]) as u8,
                d: digits_val(parts[3]) as u8,
            },
        )
    } else {
        None
    }
}

fn is_digit_char(c: char) -> (r: bool)
    ensures
        r == is_digit(c),
{
    let u = c as u32;
    48 <= u && u <= 57
}

/// Reads a textual octet: `Some` exactly on valid octet strings, carrying
/// their decimal value.
fn parse_octet(part: &Vec<char>) -> (r: Option<u8>)
    ensures
        match r {
            Some(v) => valid_octet_str(part@) && v == digits_val(part@),
            None => !valid_octet_str(part@),
        },
{
    let n = part.len();
    if n < 1 || n > 3 {
        return None;
    }
    if n > 1 && part[0] == '0' {
        return None;
    }
    let mut val: u32 = 0;
    let mut i: usize = 0;
    while i < n
        invariant
            i <= n,
            n == part@.len(),
            n <= 3,
            forall|j: int| 0 <= j < i ==> is_digit(part@[j]),
            val == digits_val(part@.subrange(0, i as int)),
            val < 1000,
        decreases n - i,
    {
        let c = part[i];
        if !is_digit_char(c) {
            return None;
        }
        proof {
            lemma_digits_val_bounds(part@.subrange(0, i as int));
        }
        let u = c as u32;
        val = val * 10 + (u - 48);
        i = i + 1;
        proof {
            assert(part@.subrange(0, i as int).drop_last() =~= part@.subrange(0, i - 1));
        }
    }
    proof {
        assert(part@.subrange(0, n as int) =~= part@);
    }
    if val <= 255 {
        Some(val as u8)
    } else {
        None
    }
}

/// Reads a dotted-quad address: `Some` exactly on canonical renderings.
pub fn parse_ipv4(s: &str) -> (r: Option<Ipv4>)
    ensures
        r == spec_parse_ipv4(s@),
{
    let cs = str_chars(s);
    let n = cs.len();
    let mut parts: Vec<Vec<char>> = Vec::new();
    parts.push(Vec::new());
    let mut i: usize = 0;
    while i < n
        invariant
            i <= n,
            n == cs@.len(),
            cs@ == s@,
            parts@.len() >= 1,
            parts@.map_values(|p: Vec<char>| p@) == split_dots(s@.subrange(0, i as int)),
        decreases n - i,
    {
        let c = cs[i];
        if c == '.' {
            parts.push(Vec::new());
        } else {
            let last = parts.len() - 1;
            let mut p = parts.remove(last);
            p.push(c);
            parts.push(p);
        }
        i = i + 1;
        proof {
            assert(s@.subrange(0, i as int).drop_last() =~= s@.subrange(0, i - 1));
            assert(parts@.map_values(|p: Vec<char>| p@) =~= split_dots(s@.subrange(0, i as int)));
        }
    }
    proof {
        assert(s@.subrange(0, n as int) =~= s@);
    }
    if parts.len() != 4 {
        return None;
    }
    let a = match parse_octet(&parts[0]) {
        Some(v) => v,
        None => return None,
    };
    let b = match parse_octet(&parts[1]) {
        Some(v) => v,
        None => return None,
    };
    let c = match parse_octet(&parts[2]) {
        Some(v) => v,
        None => return None,
    };
    let d = match parse_octet(&parts[3]) {
        Some(v) => v,
        None => return None,
    };
    Some(Ipv4 { a, b, c, d })
}

proof fn lemma_split_dots_dotfree_suffix(s: Seq<char>, t: Seq<char>)
    requires
        forall|i: int| 0 <= i < t.len() ==> t[i] != '.',
    ensures
        split_dots(s + t) == split_dots(s).update(
            split_dots(s).len() - 1,
            split_dots(s).last() + t,
        ),
    decreases t.len(),
{
    lemma_split_dots_len(s);
    if t.len() == 0 {
        assert(s + t =~= s);
        assert(split_dots(s).last() + t =~= split_dots(s).last());
        assert(split_dots(s).update(split_dots(s).len() - 1, split_dots(s).last() + t)
            =~= split_dots(s));
    } else {
        lemma_split_dots_dotfree_suffix(s, t.drop_last());
        assert((s + t).drop_last() =~= s + t.drop_last());
        assert((s + t).last() == t.last());
        let parts = split_dots(s + t.drop_last());
        assert(split_dots(s + t) == parts.update(parts.len() - 1, parts.last().push(t.last())));
        assert(parts.last() == split_dots(s).last() + t.drop_last());
        assert((split_dots(s).last() + t.drop_last()).push(t.last()) =~= split_dots(s).last() + t);
        assert(split_dots(s + t) =~= split_dots(s).update(
            split_dots(s).len() - 1,
            split_dots(s).last() + t,
        ));
    }
}

proof fn lemma_split_dots_dot(s: Seq<char>)
    ensures
        split_dots(s + seq!['.']) == split_dots(s).push(Seq::<char>::empty()),
{
    assert((s + seq!['.']).drop_last() =~= s);
    assert((s + seq!['.']).last() == '.');
}

proof fn lemma_digits_val1(c0: char)
    ensures
        digits_val(seq![c0]) == digit_val(c0),
{
    assert(seq![c0].drop_last() =~= Seq::<char>::empty());
    assert(digits_val(seq![c0]) == digits_val(Seq::<char>::empty()) * 10 + digit_val(c0));
}

proof fn lemma_digits_val2(c0: char, c1: char)
    ensures
        digits_val(seq![c0, c1]) == digit_val(c0) * 10 + digit_val(c1),
{
    lemma_digits_val1(c0);
    assert(seq![c0, c1].drop_last() =~= seq![c0]);
    assert(digits_val(seq![c0, c1]) == digits_val(seq![c0, c1].drop_last()) * 10 + digit_val(c1));
}

proof fn lemma_digits_val3(c0: char, c1: char, c2: char)
    ensures
        digits_val(seq![c0, c1, c2]) == (digit_val(c0) * 10 + digit_val(c1)) * 10 + digit_val(c2),
{
    lemma_digits_val2(c0, c1);
    assert(seq![c0, c1, c2].drop_last() =~= seq![c0, c1]);
    assert(digits_val(seq![c0, c1, c2]) == digits_val(seq![c0, c1, c2].drop_last()) * 10 + digit_val(
        c2,
    ));
}

/// The canonical rendering of an octet is a valid textual octet, carries the
/// octet's value, and holds no dot.
pub proof fn lemma_u8_str_valid(n: u8)
    ensures
        valid_octet_str(spec_u8_str(n)),
        digits_val(spec_u8_str(n)) == n,
        forall|i: int| 0 <= i < spec_u8_str(n).len() ==> spec_u8_str(n)[i] != '.',
{
    if n < 10 {
        lemma_digit_char_val(n as int);
        lemma_digits_val1(digit_char(n as int));
        assert(digits_val(spec_u8_str(n)) == n);
    } else if n < 100 {
        lemma_digit_char_val(n as int / 10);
        lemma_digit_char_val(n as int % 10);
        lemma_digits_val2(digit_char(n as int / 10), digit_char(n as int % 10));
        assert(digits_val(spec_u8_str(n)) == (n as int / 10) * 10 + (n as int % 10));
    } else {
        lemma_digit_char_val(n as int / 100);
        lemma_digit_char_val((n as int / 10) % 10);
        lemma_digit_char_val(n as int % 10);
        lemma_digits_val3(
            digit_char(n as int / 100),
            digit_char((n as int / 10) % 10),
            digit_char(n as int % 10),
        );
        assert(digits_val(spec_u8_str(n)) == ((n as int / 100) * 10 + (n as int / 10) % 10) * 10
            + n as int % 10);
        assert(n as int / 100 >= 1);
        assert(((n as int / 100) * 10 + (n as int / 10) % 10) * 10 + n as int % 10 == n) by {
            assert(n as int / 100 * 100 + (n as int / 10) % 10 * 10 + n as int % 10 == n) by {
                assert(n as int / 10 == n as int / 100 * 10 + (n as int / 10) % 10);
                assert(n as int == n as int / 10 * 10 + n as int % 10);
            };
        };
    }
}

/// Parsing inverts formatting: the canonical rendering of any address reads
/// back as that address.
pub proof fn lemma_parse_format_roundtrip(ip: Ipv4)
    ensures
        spec_parse_ipv4(spec_ipv4_str(ip)) == Some(ip),
{
    lemma_u8_str_valid(ip.a);
    lemma_u8_str_valid(ip.b);
    lemma_u8_str_valid(ip.c);
    lemma_u8_str_valid(ip.d);
    let ua = spec_u8_str(ip.a);
    let ub = spec_u8_str(ip.b);
    let uc = spec_u8_str(ip.c);
    let ud = spec_u8_str(ip.d);
    let dot = seq!['.'];
    let e = Seq::<char>::empty();

    assert(ua =~= e + ua);
    lemma_split_dots_dotfree_suffix(e, ua);
    assert(split_dots(e) =~= seq![e]);
    assert(split_dots(ua) =~= seq![ua]) by {
        assert(e + ua =~= ua);
        assert(seq![e].update(0, e + ua) =~= seq![e + ua]);
        assert(e + ua =~= ua);
    };

    let s1 = ua + dot;
    lemma_split_dots_dot(ua);
    assert(split_dots(s1) =~= seq![ua, e]);

    let s2 = s1 + ub;
    lemma_split_dots_dotfree_suffix(s1, ub);
    assert(split_dots(s2) =~= seq![ua, ub]) by {
        assert(e + ub =~= ub);
        assert(seq![ua, e].update(1, e + ub) =~= seq![ua, ub]);
    };

    let s3 = s2 + dot;
    lemma_split_dots_dot(s2);
    assert(split_dots(s3) =~= seq![ua, ub, e]);

    let s4 = s3 + uc;
    lemma_split_dots_dotfree_suffix(s3, uc);
    assert(split_dots(s4) =~= seq![ua, ub, uc]) by {
        assert(e + uc =~= uc);
        assert(seq![ua, ub, e].update(2, e + uc) =~= seq![ua, ub, uc]);
    };

    let s5 = s4 + dot;
    lemma_split_dots_dot(s4);
    assert(split_dots(s5) =~= seq![ua, ub, uc, e]);

    let s6 = s5 + ud;
    lemma_split_dots_dotfree_suffix(s5, ud);
    assert(split_dots(s6) =~= seq![ua, ub, uc, ud]) by {
        assert(e + ud =~= ud);
        assert(seq![ua, ub, uc, e].update(3, e + ud) =~= seq![ua, ub, uc, ud]);
    };

    assert(spec_ipv4_str(ip) =~= s6);
    let parts = split_dots(spec_ipv4_str(ip));
    assert(parts[0] == ua && parts[1] == ub && parts[2] == uc && parts[3] == ud);
}

/// Renders an address in canonical dotted-quad form.
pub fn format_ipv4(ip: &Ipv4) -> (r: String)
    ensures
        r@ == spec_ipv4_str(*ip),
{
    proof {
        reveal_strlit(".");
    }
    let mut s = format_u8(ip.a);
    s.append(".");
    let b = format_u8(ip.b);
    s.append(b.as_str());
    s.append(".");
    let c = format_u8(ip.c);
    s.append(c.as_str());
    s.append(".");
    let d = format_u8(ip.d);
    s.append(d.as_str());
    proof {
        assert(s@ =~= spec_ipv4_str(*ip));
    }
    s
}

} // verus!
