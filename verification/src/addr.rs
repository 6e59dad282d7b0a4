//! Library-native IP address values. The collaborators hand addresses over
//! as plain numeric parts (four octets, eight groups); the types here carry
//! them through the envelopes and render their standard text forms for
//! display and for the wire.

use crate::text::{append_u64, hex_char, hex_char_of, join_texts, nat_digits, push_char, views_of};
use vstd::prelude::*;

verus! {

broadcast use vstd::array::group_array_axioms;

/// An IPv4 address, as its four dotted-quad octets.
#[derive(Debug, Clone, Copy, PartialEq, Eq, Structural)]
pub struct Ipv4 {
    /// First octet.
    pub a: u8,
    /// Second octet.
    pub b: u8,
    /// Third octet.
    pub c: u8,
    /// Fourth octet.
    pub d: u8,
}

/// The dotted-quad text of an IPv4 address.
pub open spec fn ipv4_text(ip: Ipv4) -> Seq<char> {
    nat_digits(ip.a as nat) + seq!['.'] + nat_digits(ip.b as nat) + seq!['.'] + nat_digits(
        ip.c as nat,
    ) + seq!['.'] + nat_digits(ip.d as nat)
}

impl Ipv4 {
    /// The dotted-quad text of this address.
    pub fn render(&self) -> (r: String)
        ensures
            r@ == ipv4_text(*self),
    {
        let mut r = String::new();
        append_u64(&mut r, self.a as u64);
        push_char(&mut r, '.');
        append_u64(&mut r, self.b as u64);
        push_char(&mut r, '.');
        append_u64(&mut r, self.c as u64);
        push_char(&mut r, '.');
        append_u64(&mut r, self.d as u64);
        proof {
            assert(r@ =~= ipv4_text(*self));
        }
        r
    }
}

/// The lowercase hexadecimal digits of `n`, without leading zeros.
pub open spec fn hex_group(n: nat) -> Seq<char>
    decreases n,
{
    if n < 16 {
        seq![hex_char(n)]
    } else {
        hex_group(n / 16).push(hex_char(n % 16))
    }
}

fn append_hex_u16(s: &mut String, n: u16)
    ensures
        final(s)@ == old(s)@ + hex_group(n as nat),
    decreases n,
{
    if n < 16 {
        push_char(s, hex_char_of(n as u64));
        proof {
            assert(s@ =~= old(s)@ + hex_group(n as nat));
        }
    } else {
        append_hex_u16(s, n / 16);
        push_char(s, hex_char_of((n % 16) as u64));
        proof {
            assert(s@ =~= old(s)@ + hex_group(n as nat));
        }
    }
}

/// An IPv6 address, as its eight 16-bit groups.
#[derive(Debug, Clone, Copy, PartialEq, Eq)]
pub struct Ipv6 {
    /// The eight groups, most significant first.
    pub segments: [u16; 8],
}

/// How many consecutive zero groups stand at position `i`.
pub open spec fn zero_run(s: Seq<u16>, i: int) -> nat
    decreases s.len() - i,
{
    if i < 0 || i >= s.len() || s[i] != 0 {
        0
    } else {
        1 + zero_run(s, i + 1)
    }
}

/// Scans positions `i` and on for a zero run longer than `bl`; the first
/// longest run wins.
pub open spec fn scan_zero_runs(s: Seq<u16>, i: int, bb: int, bl: nat) -> (int, nat)
    decreases s.len() - i,
{
    if i < 0 || i >= s.len() {
        (bb, bl)
    } else if zero_run(s, i) > bl {
        scan_zero_runs(s, i + 1, i, zero_run(s, i))
    } else {
        scan_zero_runs(s, i + 1, bb, bl)
    }
}

/// The first longest run of zero groups: its position and length.
pub open spec fn best_zero_run(s: Seq<u16>) -> (int, nat) {
    scan_zero_runs(s, 1, 0, zero_run(s, 0))
}

/// The hexadecimal texts of a sequence of groups.
pub open spec fn group_texts(s: Seq<u16>) -> Seq<Seq<char>> {
    s.map_values(|v: u16| hex_group(v as nat))
}

/// True for an IPv4-mapped address, whose text embeds the dotted quad.
pub open spec fn is_ipv4_mapped(s: Seq<u16>) -> bool {
    s[0] == 0 && s[1] == 0 && s[2] == 0 && s[3] == 0 && s[4] == 0 && s[5] == 0xffff
}

/// The dotted quad embedded in an IPv4-mapped address.
pub open spec fn mapped_quad(s: Seq<u16>) -> Ipv4 {
    Ipv4 {
        a: (s[6] / 256) as u8,
        b: (s[6] % 256) as u8,
        c: (s[7] / 256) as u8,
        d: (s[7] % 256) as u8,
    }
}

/// The standard text of an IPv6 address: lowercase hexadecimal groups joined
/// with `:`, the first longest run of at least two zero groups compressed to
/// `::`, and an IPv4-mapped address shown with its embedded dotted quad.
pub open spec fn ipv6_text(ip: Ipv6) -> Seq<char> {
    let s = ip.segments@;
    if is_ipv4_mapped(s) {
        "::ffff:"@ + ipv4_text(mapped_quad(s))
    } else {
        let best = best_zero_run(s);
        if best.1 >= 2 {
            join_texts(group_texts(s.take(best.0)), ":"@) + "::"@ + join_texts(
                group_texts(s.skip(best.0 + best.1)),
                ":"@,
            )
        } else {
            join_texts(group_texts(s), ":"@)
        }
    }
}

impl Ipv6 {
    fn run_at(&self, i: usize) -> (r: usize)
        requires
            i <= 8,
        ensures
            r == zero_run(self.segments@, i as int),
            r <= 8 - i,
        decreases 8 - i,
    {
        if i == 8 {
            0
        } else if self.segments[i] != 0 {
            0
        } else {
            1 + self.run_at(i + 1)
        }
    }

    fn hex_parts(&self, from: usize, to: usize) -> (parts: Vec<String>)
        requires
            from <= to <= 8,
        ensures
            views_of(parts@) == group_texts(self.segments@.subrange(from as int, to as int)),
    {
        let mut parts: Vec<String> = Vec::new();
        proof {
            vstd::array::array_len_matches_n(&self.segments);
        }
        for i in from..to
            invariant
                self.segments@.len() == 8,
                from <= i <= to <= 8,
                parts@.len() == i - from,
                forall|k: int|
                    0 <= k < parts@.len() ==> (#[trigger] parts@[k])@ == hex_group(
                        self.segments@[from + k] as nat,
                    ),
        {
            let mut g = String::new();
            append_hex_u16(&mut g, self.segments[i]);
            proof {
                assert(g@ =~= hex_group(self.segments@[i as int] as nat));
            }
            parts.push(g);
        }
        proof {
            assert(views_of(parts@) =~~= group_texts(
                self.segments@.subrange(from as int, to as int),
            ));
        }
        parts
    }

    /// The standard text of this address.
    pub fn render(&self) -> (r: String)
        ensures
            r@ == ipv6_text(*self),
    {
        let s = &self.segments;
        if s[0] == 0 && s[1] == 0 && s[2] == 0 && s[3] == 0 && s[4] == 0 && s[5] == 0xffff {
            let quad = Ipv4 {
                a: (s[6] / 256) as u8,
                b: (s[6] % 256) as u8,
                c: (s[7] / 256) as u8,
                d: (s[7] % 256) as u8,
            };
            let mut r = String::from_str("::ffff:");
            r.append(quad.render().as_str());
            proof {
                assert(r@ =~= ipv6_text(*self));
            }
            r
        } else {
            let mut bb: usize = 0;
            let mut bl: usize = self.run_at(0);
            for i in 1..8
                invariant
                    bb < 8,
                    bl == zero_run(self.segments@, bb as int),
                    bb + bl <= 8,
                    scan_zero_runs(self.segments@, i as int, bb as int, bl as nat)
                        == best_zero_run(self.segments@),
            {
                let rl = self.run_at(i);
                if rl > bl {
                    bb = i;
                    bl = rl;
                }
            }
            if bl >= 2 {
                let left = self.hex_parts(0, bb);
                let right = self.hex_parts(bb + bl, 8);
                let mut r = crate::text::join_with(&left, ":");
                r.append("::");
                r.append(crate::text::join_with(&right, ":").as_str());
                proof {
                    assert(self.segments@.subrange(0, bb as int) =~= self.segments@.take(
                        bb as int,
                    ));
                    assert(self.segments@.subrange(bb + bl, 8) =~= self.segments@.skip(bb + bl));
                    assert(r@ =~= ipv6_text(*self));
                }
                r
            } else {
                let parts = self.hex_parts(0, 8);
                let r = crate::text::join_with(&parts, ":");
                proof {
                    assert(self.segments@.subrange(0, 8) =~= self.segments@);
                    assert(r@ =~= ipv6_text(*self));
                }
                r
            }
        }
    }
}

/// An IP address of either family.
#[derive(Debug, Clone, Copy, PartialEq, Eq)]
pub enum IpAddr {
    /// An IPv4 address.
    V4(Ipv4),
    /// An IPv6 address.
    V6(Ipv6),
}

/// The standard text of an address of either family.
pub open spec fn ip_text(ip: IpAddr) -> Seq<char> {
    match ip {
        IpAddr::V4(v4) => ipv4_text(v4),
        IpAddr::V6(v6) => ipv6_text(v6),
    }
}

impl IpAddr {
    /// The standard text of this address.
    pub fn render(&self) -> (r: String)
        ensures
            r@ == ip_text(*self),
    {
        match *self {
            IpAddr::V4(v4) => v4.render(),
            IpAddr::V6(v6) => v6.render(),
        }
    }
}

} // verus!
