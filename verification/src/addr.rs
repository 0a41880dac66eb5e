//! IPv6 addresses as plain values, and their canonical text.
//!
//! The text of an address is its eight groups in lower-case hexadecimal
//! without leading zeros, joined by colons, with the longest run of two or
//! more zero groups (the leftmost of the longest) written as `::`. An address
//! that carries an IPv4 address behind the prefix `::ffff:` has that address
//! written in dotted decimal.

use crate::text::{append_decimal, append_hex, decimal, hex};
use vstd::prelude::*;
use vstd::string::*;

verus! {

/// An IPv6 address, held as its eight 16-bit groups, most significant first.
#[derive(Clone, Copy, Debug, PartialEq, Eq, Hash)]
pub struct Ipv6Addr {
    pub segments: [u16; 8],
}

/// The groups in hexadecimal, joined by colons.
pub open spec fn joined(groups: Seq<u16>) -> Seq<char>
    decreases groups.len(),
{
    if groups.len() == 0 {
        Seq::empty()
    } else if groups.len() == 1 {
        hex(groups[0] as nat)
    } else {
        joined(groups.drop_last()) + seq![':'] + hex(groups.last() as nat)
    }
}

/// The groups from `from` up to `to` are all zero.
pub open spec fn all_zero(groups: Seq<u16>, from: int, to: int) -> bool {
    forall|i: int| from <= i < to ==> groups[i] == 0
}

/// The `len` groups from `start` are the run that the text writes as `::`:
/// two or more zero groups, no run of zero groups is longer, and none of the
/// same length starts before it.
pub open spec fn abbreviated(groups: Seq<u16>, start: int, len: int) -> bool {
    &&& 0 <= start
    &&& 2 <= len
    &&& start + len <= groups.len()
    &&& all_zero(groups, start, start + len)
    &&& forall|s: int, l: int|
        0 <= s && 0 <= l && s + l <= groups.len() && #[trigger] all_zero(groups, s, s + l) ==> l <= len
            && (l == len ==> start <= s)
}

/// The groups carry an IPv4 address: five zero groups, then `ffff`.
pub open spec fn v4_mapped(groups: Seq<u16>) -> bool {
    all_zero(groups, 0, 5) && groups[5] == 0xffff
}

/// The two bytes of each of two groups in decimal, joined by dots.
pub open spec fn dotted(high: u16, low: u16) -> Seq<char> {
    decimal((high / 256) as nat) + seq!['.'] + decimal((high % 256) as nat) + seq!['.'] + decimal(
        (low / 256) as nat,
    ) + seq!['.'] + decimal((low % 256) as nat)
}

/// The canonical text of the address with the eight groups `groups`.
pub open spec fn address_text(groups: Seq<u16>) -> Seq<char> {
    if v4_mapped(groups) {
        seq![':', ':', 'f', 'f', 'f', 'f', ':'] + dotted(groups[6], groups[7])
    } else if exists|s: int, l: int| abbreviated(groups, s, l) {
        let (s, l) = choose|s: int, l: int| abbreviated(groups, s, l);
        joined(groups.subrange(0, s)) + seq![':', ':'] + joined(groups.subrange(s + l, 8))
    } else {
        joined(groups)
    }
}

/// At most one run of groups is the one written as `::`.
pub proof fn lemma_abbreviated_unique(groups: Seq<u16>, s1: int, l1: int, s2: int, l2: int)
    requires
        abbreviated(groups, s1, l1),
        abbreviated(groups, s2, l2),
    ensures
        s1 == s2,
        l1 == l2,
{
    assert(all_zero(groups, s1, s1 + l1));
    assert(all_zero(groups, s2, s2 + l2));
}

impl Ipv6Addr {
    /// The address with the given eight groups.
    pub fn new(a: u16, b: u16, c: u16, d: u16, e: u16, f: u16, g: u16, h: u16) -> (addr: Ipv6Addr)
        ensures
            addr.segments@ == seq![a, b, c, d, e, f, g, h],
    {
        let addr = Ipv6Addr { segments: [a, b, c, d, e, f, g, h] };
        assert(addr.segments@ =~= seq![a, b, c, d, e, f, g, h]);
        addr
    }

    /// The eight groups of the address.
    pub fn segments(&self) -> (segments: [u16; 8])
        ensures
            segments == self.segments,
    {
        self.segments
    }

    /// Finds the longest run of zero groups, the leftmost of the longest:
    /// its start and its length.
    fn longest_zero_run(&self) -> (run: (usize, usize))
        ensures
            run.1 >= 2 ==> abbreviated(self.segments@, run.0 as int, run.1 as int),
            run.1 < 2 ==> !exists|s: int, l: int| abbreviated(self.segments@, s, l),
            run.0 + run.1 <= 8,
    {
        let ghost groups = self.segments@;
        let mut best_start: usize = 0;
        let mut best_len: usize = 0;
        let mut current: usize = 0;
        let mut i: usize = 0;
        while i < 8
            invariant
                groups == self.segments@,
                groups.len() == 8,
                i <= 8,
                current <= i,
                best_start + best_len <= i,
                current <= best_len,
                all_zero(groups, i - current, i as int),
                current < i ==> groups[i - current - 1] != 0,
                all_zero(groups, best_start as int, best_start + best_len),
                forall|s: int, l: int|
                    0 <= s && 0 <= l && s + l <= i && #[trigger] all_zero(groups, s, s + l) ==> l
                        <= best_len && (l == best_len && l > 0 ==> best_start <= s),
            decreases 8 - i,
        {
            let ghost before_len = best_len;
            let ghost before_start = best_start;
            let ghost before_current = current;
            if self.segments[i] == 0 {
                current = current + 1;
                if current > best_len {
                    best_start = i + 1 - current;
                    best_len = current;
                }
            } else {
                current = 0;
            }
            proof {
                assert forall|s: int, l: int|
                    0 <= s && 0 <= l && s + l <= i + 1 && #[trigger] all_zero(
                        groups,
                        s,
                        s + l,
                    ) implies l <= best_len && (l == best_len && l > 0 ==> best_start <= s) by {
                    if s + l <= i {
                        assert(l <= before_len && (l == before_len && l > 0 ==> before_start <= s));
                    } else if l > 0 {
                        assert(groups[i as int] == 0);
                        if s < i - before_current {
                            assert(groups[i - before_current - 1] == 0);
                        }
                    }
                }
            }
            i = i + 1;
        }
        proof {
            if best_len < 2 {
                assert forall|s: int, l: int| !abbreviated(groups, s, l) by {
                    if abbreviated(groups, s, l) {
                        assert(all_zero(groups, s, s + l));
                    }
                }
            }
        }
        (best_start, best_len)
    }

    /// Appends the groups from `from` up to `to`, in hexadecimal and joined
    /// by colons.
    fn append_groups(&self, text: &mut String, from: usize, to: usize)
        requires
            from <= to <= 8,
        ensures
            final(text)@ == old(text)@ + joined(self.segments@.subrange(from as int, to as int)),
    {
        let ghost groups = self.segments@;
        let mut i: usize = from;
        assert(groups.subrange(from as int, from as int) =~= Seq::<u16>::empty());
        assert(text@ =~= old(text)@ + joined(groups.subrange(from as int, i as int)));
        while i < to
            invariant
                groups == self.segments@,
                groups.len() == 8,
                from <= i <= to <= 8,
                text@ == old(text)@ + joined(groups.subrange(from as int, i as int)),
            decreases to - i,
        {
            let ghost done = groups.subrange(from as int, i as int);
            let ghost next = groups.subrange(from as int, i + 1);
            proof {
                reveal_strlit(":");
                assert(next.drop_last() =~= done);
                assert(next.last() == groups[i as int]);
            }
            if i > from {
                text.append(":");
            }
            append_hex(text, self.segments[i]);
            proof {
                if i > from {
                    assert(text@ =~= old(text)@ + (joined(done) + seq![':'] + hex(groups[i as int] as nat)));
                } else {
                    assert(done.len() == 0);
                    assert(joined(done) =~= Seq::<char>::empty());
                    assert(text@ =~= old(text)@ + hex(groups[i as int] as nat));
                }
            }
            i = i + 1;
        }
    }

    /// The canonical text of the address.
    pub open spec fn spec_text(self) -> Seq<char> {
        address_text(self.segments@)
    }

    /// Returns the canonical text of the address.
    pub fn text(&self) -> (text: String)
        ensures
            text@ == self.spec_text(),
    {
        let ghost groups = self.segments@;
        let mut text = String::new();
        let mapped = self.segments[0] == 0 && self.segments[1] == 0 && self.segments[2] == 0
            && self.segments[3] == 0 && self.segments[4] == 0 && self.segments[5] == 0xffff;
        if mapped {
            proof {
                reveal_strlit("::ffff:");
                reveal_strlit(".");
            }
            text.append("::ffff:");
            append_decimal(&mut text, (self.segments[6] / 256) as u64);
            text.append(".");
            append_decimal(&mut text, (self.segments[6] % 256) as u64);
            text.append(".");
            append_decimal(&mut text, (self.segments[7] / 256) as u64);
            text.append(".");
            append_decimal(&mut text, (self.segments[7] % 256) as u64);
            assert(text@ =~= seq![':', ':', 'f', 'f', 'f', 'f', ':'] + dotted(groups[6], groups[7]));
            return text;
        }
        assert(!v4_mapped(groups)) by {
            if v4_mapped(groups) {
                assert(groups[0] == 0 && groups[1] == 0 && groups[2] == 0 && groups[3] == 0
                    && groups[4] == 0);
            }
        }
        let (start, len) = self.longest_zero_run();
        if len >= 2 {
            proof {
                reveal_strlit("::");
                let (s, l) = choose|s: int, l: int| abbreviated(groups, s, l);
                lemma_abbreviated_unique(groups, s, l, start as int, len as int);
            }
            self.append_groups(&mut text, 0, start);
            text.append("::");
            self.append_groups(&mut text, start + len, 8);
            assert(text@ =~= joined(groups.subrange(0, start as int)) + seq![':', ':'] + joined(
                groups.subrange(start + len, 8),
            ));
        } else {
            self.append_groups(&mut text, 0, 8);
            assert(groups.subrange(0, 8) =~= groups);
            assert(text@ =~= joined(groups));
        }
        text
    }
}

} // verus!
