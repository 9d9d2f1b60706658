//! Network addresses of both versions, as plain numbers, and the text that
//! each of them writes as.

use crate::text::{decimal, decimal_text, push_char};
use vstd::prelude::*;
use vstd::string::StringExecFns;

verus! {

/// An address of either version of IP, held by the bits of the address.
#[derive(Clone, Copy, Debug, PartialEq, Eq, Structural)]
pub enum Addr {
    /// An address of IP version 4.
    V4(u32),
    /// An address of IP version 6.
    V6(u128),
}

/// The IP version of an address, as a run records it.
#[derive(Clone, Copy, Debug, PartialEq, Eq, Structural)]
pub enum Family {
    /// IP version 4.
    Ipv4,
    /// IP version 6.
    Ipv6,
}

/// One octet of an address of version 4: the first octet is the highest.
pub open spec fn octet(bits: u32, place: nat) -> nat {
    ((bits as nat) / pow256(3 - place)) % 256
}

/// A power of 256, for the octets of an address.
pub open spec fn pow256(e: int) -> nat
    decreases e,
{
    if e <= 0 {
        1
    } else {
        256 * pow256(e - 1)
    }
}

/// The dotted text of an address of version 4: four octets in decimal.
pub open spec fn ipv4_text(bits: u32) -> Seq<char> {
    decimal(octet(bits, 0)) + seq!['.'] + decimal(octet(bits, 1)) + seq!['.'] + decimal(
        octet(bits, 2),
    ) + seq!['.'] + decimal(octet(bits, 3))
}

/// The bits of the address of version 4 whose octets are these four.
pub open spec fn ipv4_of(a: u8, b: u8, c: u8, d: u8) -> u32 {
    (a as int * 16777216 + b as int * 65536 + c as int * 256 + d as int) as u32
}

/// Builds the bits of the address of version 4 of four octets.
pub fn ipv4(a: u8, b: u8, c: u8, d: u8) -> (bits: u32)
    ensures
        bits == ipv4_of(a, b, c, d),
        octet(bits, 0) == a,
        octet(bits, 1) == b,
        octet(bits, 2) == c,
        octet(bits, 3) == d,
{
    let bits = (a as u32) * 16777216 + (b as u32) * 65536 + (c as u32) * 256 + (d as u32);
    proof {
        lemma_octets(a, b, c, d);
    }
    bits
}

proof fn lemma_octets(a: u8, b: u8, c: u8, d: u8)
    ensures
        octet(ipv4_of(a, b, c, d), 0) == a,
        octet(ipv4_of(a, b, c, d), 1) == b,
        octet(ipv4_of(a, b, c, d), 2) == c,
        octet(ipv4_of(a, b, c, d), 3) == d,
{
    let n: int = a as int * 16777216 + b as int * 65536 + c as int * 256 + d as int;
    assert(pow256(0) == 1);
    assert(pow256(1) == 256);
    assert(pow256(2) == 65536);
    assert(pow256(3) == 16777216);
    assert(0 <= n < 4294967296);
    assert((n / 16777216) % 256 == a) by (nonlinear_arith)
        requires
            n == a as int * 16777216 + b as int * 65536 + c as int * 256 + d as int,
            a < 256,
            b < 256,
            c < 256,
            d < 256,
    ;
    assert((n / 65536) % 256 == b) by (nonlinear_arith)
        requires
            n == a as int * 16777216 + b as int * 65536 + c as int * 256 + d as int,
            a < 256,
            b < 256,
            c < 256,
            d < 256,
    ;
    assert((n / 256) % 256 == c) by (nonlinear_arith)
        requires
            n == a as int * 16777216 + b as int * 65536 + c as int * 256 + d as int,
            a < 256,
            b < 256,
            c < 256,
            d < 256,
    ;
    assert((n / 1) % 256 == d) by (nonlinear_arith)
        requires
            n == a as int * 16777216 + b as int * 65536 + c as int * 256 + d as int,
            a < 256,
            b < 256,
            c < 256,
            d < 256,
    ;
}

/// Reads one octet of an address of version 4.
fn octet_of(bits: u32, place: u32) -> (o: u32)
    requires
        place < 4,
    ensures
        o == octet(bits, place as nat),
{
    proof {
        assert(pow256(0) == 1);
        assert(pow256(1) == 256);
        assert(pow256(2) == 65536);
        assert(pow256(3) == 16777216);
    }
    if place == 0 {
        (bits / 16777216) % 256
    } else if place == 1 {
        (bits / 65536) % 256
    } else if place == 2 {
        (bits / 256) % 256
    } else {
        assert(place == 3);
        assert(octet(bits, 3) == ((bits as nat) / 1) % 256);
        assert((bits as nat) / 1 == bits as nat);
        bits % 256
    }
}

/// Writes the dotted text of an address of version 4.
pub fn ipv4_string(bits: u32) -> (s: String)
    ensures
        s@ == ipv4_text(bits),
{
    let mut s = decimal_text(octet_of(bits, 0) as u128);
    push_char(&mut s, '.');
    let b = decimal_text(octet_of(bits, 1) as u128);
    s.append(b.as_str());
    push_char(&mut s, '.');
    let c = decimal_text(octet_of(bits, 2) as u128);
    s.append(c.as_str());
    push_char(&mut s, '.');
    let d = decimal_text(octet_of(bits, 3) as u128);
    s.append(d.as_str());
    s
}

impl Addr {
    /// The IP version of the address.
    pub open spec fn family_of(self) -> Family {
        match self {
            Addr::V4(_) => Family::Ipv4,
            Addr::V6(_) => Family::Ipv6,
        }
    }

    /// The IP version of the address.
    pub fn family(&self) -> (f: Family)
        ensures
            f == self.family_of(),
    {
        match self {
            Addr::V4(_) => Family::Ipv4,
            Addr::V6(_) => Family::Ipv6,
        }
    }

    /// True for an address of version 4.
    pub fn is_ipv4(&self) -> (b: bool)
        ensures
            b == (*self is V4),
    {
        match self {
            Addr::V4(_) => true,
            Addr::V6(_) => false,
        }
    }

    /// True for an address of version 6.
    pub fn is_ipv6(&self) -> (b: bool)
        ensures
            b == (*self is V6),
    {
        match self {
            Addr::V4(_) => false,
            Addr::V6(_) => true,
        }
    }
}

} // verus!

verus! {

/// The lower-case character of one hexadecimal digit.
pub open spec fn hex_char(d: nat) -> char {
    if d < 10 {
        (48 + d) as char
    } else {
        (87 + d) as char
    }
}

/// The lower-case hexadecimal text of a number, with no leading zero.
pub open spec fn hex(n: nat) -> Seq<char>
    decreases n,
{
    if n < 16 {
        seq![hex_char(n)]
    } else {
        hex(n / 16).push(hex_char(n % 16))
    }
}

/// Writes the lower-case hexadecimal text of a number.
pub fn hex_text(n: u32) -> (s: String)
    ensures
        s@ == hex(n as nat),
    decreases n,
{
    let d = n % 16;
    let c = if d < 10 {
        ((d as u8) + 48u8) as char
    } else {
        ((d as u8) + 87u8) as char
    };
    if n < 16 {
        let mut s = String::new();
        push_char(&mut s, c);
        s
    } else {
        let mut s = hex_text(n / 16);
        push_char(&mut s, c);
        s
    }
}

/// A power of 65536, for the segments of an address of version 6.
pub open spec fn pow65536(e: int) -> nat
    decreases e,
{
    if e <= 0 {
        1
    } else {
        65536 * pow65536(e - 1)
    }
}

/// One of the eight segments of an address of version 6; the first is the
/// highest.
pub open spec fn segment(bits: u128, i: int) -> nat {
    ((bits as nat) / pow65536(7 - i)) % 65536
}

/// The scan of the segments for the longest run of zeros: after the first
/// `i` segments, the run that stands open and the longest run so far, each
/// as its start and its length. The first of two runs of one length wins.
pub open spec fn zero_scan(bits: u128, i: int) -> (int, int, int, int)
    decreases i,
{
    if i <= 0 {
        (0, 0, 0, 0)
    } else {
        let (cs, cl, bs, bl) = zero_scan(bits, i - 1);
        if segment(bits, i - 1) == 0 {
            let start = if cl == 0 {
                i - 1
            } else {
                cs
            };
            if cl + 1 > bl {
                (start, cl + 1, start, cl + 1)
            } else {
                (start, cl + 1, bs, bl)
            }
        } else {
            (0, 0, bs, bl)
        }
    }
}

/// The segments from `from` up to `to`, in hexadecimal, with a colon between
/// two of them.
pub open spec fn hex_run(bits: u128, from: int, to: int) -> Seq<char>
    decreases to - from,
{
    if to <= from {
        Seq::empty()
    } else if to == from + 1 {
        hex(segment(bits, from))
    } else {
        hex_run(bits, from, to - 1) + seq![':'] + hex(segment(bits, to - 1))
    }
}

/// True for an address of version 4 mapped into version 6: five segments of
/// zero and one of all ones in front of the address of version 4.
pub open spec fn is_v4_mapped(bits: u128) -> bool {
    segment(bits, 0) == 0 && segment(bits, 1) == 0 && segment(bits, 2) == 0 && segment(bits, 3)
        == 0 && segment(bits, 4) == 0 && segment(bits, 5) == 65535
}

/// The text of an address of version 6, as the standard library writes it:
/// an address of version 4 mapped into version 6 writes `::ffff:` and its
/// dotted text; every other address writes its segments in hexadecimal, and
/// the first of its longest runs of two zeros or more becomes `::`.
pub open spec fn ipv6_text(bits: u128) -> Seq<char> {
    if is_v4_mapped(bits) {
        "::ffff:"@ + ipv4_text(((bits as nat) % 4294967296) as u32)
    } else {
        let (_, _, bs, bl) = zero_scan(bits, 8);
        if bl > 1 {
            hex_run(bits, 0, bs) + seq![':', ':'] + hex_run(bits, bs + bl, 8)
        } else {
            hex_run(bits, 0, 8)
        }
    }
}

/// The text of an address of either version.
pub open spec fn addr_text(a: Addr) -> Seq<char> {
    match a {
        Addr::V4(bits) => ipv4_text(bits),
        Addr::V6(bits) => ipv6_text(bits),
    }
}

/// Reads one segment of an address of version 6.
fn segment_of(bits: u128, i: usize) -> (s: u32)
    requires
        i < 8,
    ensures
        s == segment(bits, i as int),
        s < 65536,
{
    proof {
        assert(pow65536(0) == 1);
        assert(pow65536(1) == 65536);
        assert(pow65536(2) == 4294967296);
        assert(pow65536(3) == 281474976710656);
        assert(pow65536(4) == 18446744073709551616);
        assert(pow65536(5) == 1208925819614629174706176);
        assert(pow65536(6) == 79228162514264337593543950336);
        assert(pow65536(7) == 5192296858534827628530496329220096);
    }
    let s = if i == 0 {
        (bits / 5192296858534827628530496329220096u128) % 65536
    } else if i == 1 {
        (bits / 79228162514264337593543950336u128) % 65536
    } else if i == 2 {
        (bits / 1208925819614629174706176u128) % 65536
    } else if i == 3 {
        (bits / 18446744073709551616u128) % 65536
    } else if i == 4 {
        (bits / 281474976710656u128) % 65536
    } else if i == 5 {
        (bits / 4294967296u128) % 65536
    } else if i == 6 {
        (bits / 65536u128) % 65536
    } else {
        assert((bits as nat) / 1 == bits as nat);
        bits % 65536
    };
    s as u32
}

/// Appends the segments from `from` up to `to` in hexadecimal, with a colon
/// between two of them.
fn push_hex_run(s: &mut String, bits: u128, from: usize, to: usize)
    requires
        from <= to <= 8,
    ensures
        final(s)@ == old(s)@ + hex_run(bits, from as int, to as int),
{
    let mut k: usize = from;
    while k < to
        invariant
            from <= k <= to <= 8,
            s@ == old(s)@ + hex_run(bits, from as int, k as int),
        decreases to - k,
    {
        let ghost before = s@;
        if k > from {
            push_char(s, ':');
        }
        let h = hex_text(segment_of(bits, k));
        s.append(h.as_str());
        proof {
            if k == from {
                assert(hex_run(bits, from as int, k + 1) == hex(segment(bits, k as int)));
                assert(hex_run(bits, from as int, k as int) =~= Seq::<char>::empty());
            }
        }
        k = k + 1;
        proof {
            assert(s@ =~= old(s)@ + hex_run(bits, from as int, k as int));
        }
    }
}

/// Writes the text of an address of version 6, as the standard library
/// writes it.
pub fn ipv6_string(bits: u128) -> (s: String)
    ensures
        s@ == ipv6_text(bits),
{
    let s0 = segment_of(bits, 0);
    let s1 = segment_of(bits, 1);
    let s2 = segment_of(bits, 2);
    let s3 = segment_of(bits, 3);
    let s4 = segment_of(bits, 4);
    let s5 = segment_of(bits, 5);
    if s0 == 0 && s1 == 0 && s2 == 0 && s3 == 0 && s4 == 0 && s5 == 65535 {
        let mut s = String::from_str("::ffff:");
        let low = (bits % 4294967296) as u32;
        let v4 = ipv4_string(low);
        s.append(v4.as_str());
        return s;
    }
    let mut cs: usize = 0;
    let mut cl: usize = 0;
    let mut bs: usize = 0;
    let mut bl: usize = 0;
    let mut i: usize = 0;
    while i < 8
        invariant
            0 <= i <= 8,
            zero_scan(bits, i as int) == (cs as int, cl as int, bs as int, bl as int),
            cl <= i,
            bl <= i,
            bs + bl <= 8,
            cs + cl <= i,
        decreases 8 - i,
    {
        if segment_of(bits, i) == 0 {
            if cl == 0 {
                cs = i;
            }
            cl = cl + 1;
            if cl > bl {
                bs = cs;
                bl = cl;
            }
        } else {
            cs = 0;
            cl = 0;
        }
        i = i + 1;
    }
    let mut s = String::new();
    if bl > 1 {
        push_hex_run(&mut s, bits, 0, bs);
        push_char(&mut s, ':');
        push_char(&mut s, ':');
        push_hex_run(&mut s, bits, bs + bl, 8);
    } else {
        push_hex_run(&mut s, bits, 0, 8);
    }
    s
}

/// Writes the text of an address of either version.
pub fn addr_string(a: Addr) -> (s: String)
    ensures
        s@ == addr_text(a),
{
    match a {
        Addr::V4(bits) => ipv4_string(bits),
        Addr::V6(bits) => ipv6_string(bits),
    }
}

} // verus!
