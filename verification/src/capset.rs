//! The checker's capability bitset.
//!
//! Bits 0..=7 hold the closed set of canonical capabilities in lexicographic
//! order of their names (`*`, `env`, `ffi`, `fs`, `net`, `net_internal`,
//! `proc`, `time`); bit 8 marks the presence of at least one unknown,
//! user-defined capability; bits 9..=15 are reserved. Ascending-bit order is
//! therefore also lexicographic name order.

use vstd::prelude::*;
use crate::text::str_eq;

verus! {

/// A set of capabilities as a `u16` bitset.
#[derive(Clone, Copy, PartialEq, Eq, Structural, Default, Hash, PartialOrd, Ord, Debug)]
pub struct CapSet(u16);

/// Whether bit `i` of `x` is set.
pub open spec fn has_bit(x: u16, i: nat) -> bool {
    i < 16 && (x >> (i as u16)) & 1u16 == 1u16
}

/// The bit positions set in `x`.
pub open spec fn bit_set(x: u16) -> Set<nat> {
    Set::new(|i: nat| has_bit(x, i))
}

/// The bit of the "unknown capability" presence marker.
pub open spec fn other_bit() -> nat {
    8
}

/// The canonical capability name held by bit `i` (for `i < 8`).
pub open spec fn cap_name(i: nat) -> Seq<char> {
    if i == 0 {
        "*"@
    } else if i == 1 {
        "env"@
    } else if i == 2 {
        "ffi"@
    } else if i == 3 {
        "fs"@
    } else if i == 4 {
        "net"@
    } else if i == 5 {
        "net_internal"@
    } else if i == 6 {
        "proc"@
    } else {
        "time"@
    }
}

/// The bit of a canonical capability name, or `None` for any other name.
pub open spec fn canonical_index(name: Seq<char>) -> Option<nat> {
    if name == cap_name(0) {
        Some(0)
    } else if name == cap_name(1) {
        Some(1)
    } else if name == cap_name(2) {
        Some(2)
    } else if name == cap_name(3) {
        Some(3)
    } else if name == cap_name(4) {
        Some(4)
    } else if name == cap_name(5) {
        Some(5)
    } else if name == cap_name(6) {
        Some(6)
    } else if name == cap_name(7) {
        Some(7)
    } else {
        None
    }
}

/// The canonical names of the bits below `n` that `s` holds, in ascending
/// bit order.
pub open spec fn names_below(s: Set<nat>, n: nat) -> Seq<Seq<char>>
    decreases n,
{
    if n == 0 {
        Seq::empty()
    } else {
        let prev = names_below(s, (n - 1) as nat);
        if s.contains((n - 1) as nat) {
            prev.push(cap_name((n - 1) as nat))
        } else {
            prev
        }
    }
}

/// The canonical names `s` holds, in ascending bit (= lexicographic) order.
/// The unknown-capability marker has no name and never appears.
pub open spec fn cap_names(s: Set<nat>) -> Seq<Seq<char>> {
    names_below(s, 8)
}


/// The bits of the canonical names among `names`.
pub open spec fn known_bits(names: Seq<Seq<char>>) -> Set<nat> {
    Set::new(|i: nat| exists|k: int| 0 <= k < names.len() && canonical_index(#[trigger] names[k]) == Some(i))
}

/// The canonical names of the named bits in `s`.
pub open spec fn names_of_bits(s: Set<nat>) -> Set<Seq<char>> {
    Set::new(|c: Seq<char>| exists|i: nat| i < 8 && s.contains(i) && c == #[trigger] cap_name(i))
}

/// Each canonical name maps back to its own bit: the eight names are distinct.
pub proof fn lemma_canonical_roundtrip(i: nat)
    requires
        i < 8,
    ensures
        canonical_index(cap_name(i)) == Some(i),
{
    reveal_strlit("*");
    reveal_strlit("env");
    reveal_strlit("ffi");
    reveal_strlit("fs");
    reveal_strlit("net");
    reveal_strlit("net_internal");
    reveal_strlit("proc");
    reveal_strlit("time");
    assert("env"@.len() != "*"@.len());
    assert("ffi"@.len() != "*"@.len());
    assert("ffi"@[0] != "env"@[0]);
    assert("fs"@.len() != "*"@.len());
    assert("fs"@.len() != "env"@.len());
    assert("fs"@.len() != "ffi"@.len());
    assert("net"@.len() != "*"@.len());
    assert("net"@[0] != "env"@[0]);
    assert("net"@[0] != "ffi"@[0]);
    assert("net"@.len() != "fs"@.len());
    assert("net_internal"@.len() != "*"@.len());
    assert("net_internal"@.len() != "env"@.len());
    assert("net_internal"@.len() != "ffi"@.len());
    assert("net_internal"@.len() != "fs"@.len());
    assert("net_internal"@.len() != "net"@.len());
    assert("proc"@.len() != "*"@.len());
    assert("proc"@.len() != "env"@.len());
    assert("proc"@.len() != "ffi"@.len());
    assert("proc"@.len() != "fs"@.len());
    assert("proc"@.len() != "net"@.len());
    assert("proc"@.len() != "net_internal"@.len());
    assert("time"@.len() != "*"@.len());
    assert("time"@.len() != "env"@.len());
    assert("time"@.len() != "ffi"@.len());
    assert("time"@.len() != "fs"@.len());
    assert("time"@.len() != "net"@.len());
    assert("time"@.len() != "net_internal"@.len());
    assert("time"@[0] != "proc"@[0]);
}

/// A name with a canonical bit is that bit's name.
pub proof fn lemma_canonical_name(c: Seq<char>)
    ensures
        canonical_index(c) matches Some(i) ==> i < 8 && cap_name(i) == c,
{
}

/// The listed names of `s` are exactly the names of its named bits.
pub proof fn lemma_cap_names_set(s: Set<nat>)
    ensures
        cap_names(s).to_set() == names_of_bits(s),
{
    lemma_names_below_set(s, 8);
    assert(cap_names(s).to_set() =~= names_of_bits(s));
}

proof fn lemma_names_below_set(s: Set<nat>, n: nat)
    requires
        n <= 8,
    ensures
        forall|c: Seq<char>| names_below(s, n).contains(c) <==> exists|i: nat| i < n && s.contains(i) && c == #[trigger] cap_name(i),
    decreases n,
{
    if n > 0 {
        lemma_names_below_set(s, (n - 1) as nat);
        let prev = names_below(s, (n - 1) as nat);
        assert forall|c: Seq<char>| names_below(s, n).contains(c) <==> exists|i: nat| i < n && s.contains(i) && c == #[trigger] cap_name(i) by {
            if names_below(s, n).contains(c) {
                if s.contains((n - 1) as nat) {
                    let q = prev.push(cap_name((n - 1) as nat));
                    let k = choose|k: int| 0 <= k < q.len() && q[k] == c;
                    if k < prev.len() {
                        assert(prev[k] == c);
                        assert(prev.contains(c));
                    } else {
                        assert(c == cap_name((n - 1) as nat));
                    }
                }
            }
            if exists|i: nat| i < n && s.contains(i) && c == #[trigger] cap_name(i) {
                let i = choose|i: nat| i < n && s.contains(i) && c == #[trigger] cap_name(i);
                if i < n - 1 {
                    assert(prev.contains(c));
                    let k = choose|k: int| 0 <= k < prev.len() && prev[k] == c;
                    if s.contains((n - 1) as nat) {
                        assert(prev.push(cap_name((n - 1) as nat))[k] == c);
                    }
                } else {
                    assert(names_below(s, n) == prev.push(cap_name((n - 1) as nat)));
                    assert(names_below(s, n)[prev.len() as int] == c);
                }
            }
        }
    }
}

impl View for CapSet {
    type V = Set<nat>;

    closed spec fn view(&self) -> Set<nat> {
        bit_set(self.0)
    }
}

proof fn lemma_bits_and(a: u16, b: u16)
    ensures
        bit_set(a & b) == bit_set(a).intersect(bit_set(b)),
{
    assert forall|i: nat| #[trigger] has_bit(a & b, i) == (has_bit(a, i) && has_bit(b, i)) by {
        if i < 16 {
            let k = i as u16;
            assert(((a & b) >> k) & 1u16 == 1u16 <==> ((a >> k) & 1u16 == 1u16 && (b >> k) & 1u16
                == 1u16)) by (bit_vector)
                requires
                    k < 16,
            ;
        }
    }
    assert(bit_set(a & b) =~= bit_set(a).intersect(bit_set(b)));
}

proof fn lemma_bits_or(a: u16, b: u16)
    ensures
        bit_set(a | b) == bit_set(a).union(bit_set(b)),
{
    assert forall|i: nat| #[trigger] has_bit(a | b, i) == (has_bit(a, i) || has_bit(b, i)) by {
        if i < 16 {
            let k = i as u16;
            assert(((a | b) >> k) & 1u16 == 1u16 <==> ((a >> k) & 1u16 == 1u16 || (b >> k) & 1u16
                == 1u16)) by (bit_vector)
                requires
                    k < 16,
            ;
        }
    }
    assert(bit_set(a | b) =~= bit_set(a).union(bit_set(b)));
}

proof fn lemma_bits_xor(a: u16, b: u16)
    ensures
        bit_set(a ^ b) == bit_set(a).difference(bit_set(b)).union(
            bit_set(b).difference(bit_set(a)),
        ),
{
    assert forall|i: nat| #[trigger] has_bit(a ^ b, i) == (has_bit(a, i) != has_bit(b, i)) by {
        if i < 16 {
            let k = i as u16;
            assert(((a ^ b) >> k) & 1u16 == 1u16 <==> ((a >> k) & 1u16 == 1u16) != ((b >> k) & 1u16
                == 1u16)) by (bit_vector)
                requires
                    k < 16,
            ;
        }
    }
    assert(bit_set(a ^ b) =~= bit_set(a).difference(bit_set(b)).union(
        bit_set(b).difference(bit_set(a)),
    ));
}

proof fn lemma_bits_and_not(a: u16, b: u16)
    ensures
        bit_set(a & !b) == bit_set(a).difference(bit_set(b)),
{
    assert forall|i: nat| #[trigger] has_bit(a & !b, i) == (has_bit(a, i) && !has_bit(b, i)) by {
        if i < 16 {
            let k = i as u16;
            assert(((a & !b) >> k) & 1u16 == 1u16 <==> ((a >> k) & 1u16 == 1u16 && !((b >> k)
                & 1u16 == 1u16))) by (bit_vector)
                requires
                    k < 16,
            ;
        }
    }
    assert(bit_set(a & !b) =~= bit_set(a).difference(bit_set(b)));
}

proof fn lemma_bits_zero(a: u16)
    ensures
        (a == 0) == (bit_set(a) == Set::<nat>::empty()),
{
    if a == 0 {
        assert forall|i: nat| !#[trigger] has_bit(a, i) by {
            if i < 16 {
                let k = i as u16;
                assert((a == 0 && k < 16) ==> (a >> k) & 1u16 == 0u16) by (bit_vector);
            }
        }
        assert(bit_set(a) =~= Set::<nat>::empty());
    } else {
        assert(((a >> 0u16) & 1u16 == 1u16) || ((a >> 1u16) & 1u16 == 1u16) || ((a >> 2u16) & 1u16
            == 1u16) || ((a >> 3u16) & 1u16 == 1u16) || ((a >> 4u16) & 1u16 == 1u16) || ((a >> 5u16)
            & 1u16 == 1u16) || ((a >> 6u16) & 1u16 == 1u16) || ((a >> 7u16) & 1u16 == 1u16) || ((a
            >> 8u16) & 1u16 == 1u16) || ((a >> 9u16) & 1u16 == 1u16) || ((a >> 10u16) & 1u16 == 1u16)
            || ((a >> 11u16) & 1u16 == 1u16) || ((a >> 12u16) & 1u16 == 1u16) || ((a >> 13u16)
            & 1u16 == 1u16) || ((a >> 14u16) & 1u16 == 1u16) || ((a >> 15u16) & 1u16 == 1u16))
            by (bit_vector)
            requires
                a != 0,
        ;
        assert(has_bit(a, 0) || has_bit(a, 1) || has_bit(a, 2) || has_bit(a, 3) || has_bit(a, 4)
            || has_bit(a, 5) || has_bit(a, 6) || has_bit(a, 7) || has_bit(a, 8) || has_bit(a, 9)
            || has_bit(a, 10) || has_bit(a, 11) || has_bit(a, 12) || has_bit(a, 13) || has_bit(a, 14)
            || has_bit(a, 15));
        assert(bit_set(a) != Set::<nat>::empty()) by {
            if bit_set(a) == Set::<nat>::empty() {
                assert(!bit_set(a).contains(0) && !bit_set(a).contains(1) && !bit_set(a).contains(2)
                    && !bit_set(a).contains(3) && !bit_set(a).contains(4) && !bit_set(a).contains(5)
                    && !bit_set(a).contains(6) && !bit_set(a).contains(7) && !bit_set(a).contains(8)
                    && !bit_set(a).contains(9) && !bit_set(a).contains(10) && !bit_set(a).contains(
                    11) && !bit_set(a).contains(12) && !bit_set(a).contains(13) && !bit_set(
                    a,
                ).contains(14) && !bit_set(a).contains(15));
            }
        }
    }
}

/// The one-bit set `{i}` for `i < 16`.
proof fn lemma_single_bit(i: u16)
    requires
        i < 16,
    ensures
        bit_set(1u16 << i) == set![i as nat],
{
    assert forall|j: nat| #[trigger] has_bit(1u16 << i, j) == (j == i as nat) by {
        if j < 16 {
            let k = j as u16;
            assert((((1u16 << i) >> k) & 1u16 == 1u16) <==> (k == i)) by (bit_vector)
                requires
                    i < 16,
                    k < 16,
            ;
        }
    }
    assert(bit_set(1u16 << i) =~= set![i as nat]);
}

proof fn lemma_meet_single(s: Set<nat>, i: nat)
    ensures
        (s.intersect(set![i]) == Set::<nat>::empty()) == !s.contains(i),
{
    if s.contains(i) {
        assert(s.intersect(set![i]).contains(i));
    } else {
        assert(s.intersect(set![i]) =~= Set::<nat>::empty());
    }
}

/// The canonical name of bit `i`, for `i < 8`.
fn name_at(i: usize) -> (r: &'static str)
    requires
        i < 8,
    ensures
        r@ == cap_name(i as nat),
{
    if i == 0 {
        "*"
    } else if i == 1 {
        "env"
    } else if i == 2 {
        "ffi"
    } else if i == 3 {
        "fs"
    } else if i == 4 {
        "net"
    } else if i == 5 {
        "net_internal"
    } else if i == 6 {
        "proc"
    } else {
        "time"
    }
}

impl CapSet {
    /// The empty capability set.
    pub fn empty() -> (r: CapSet)
        ensures
            r@ == Set::<nat>::empty(),
    {
        proof {
            lemma_bits_zero(0u16);
        }
        CapSet(0)
    }

    /// The presence marker for unknown, user-defined capability names.
    pub fn other() -> (r: CapSet)
        ensures
            r@ == set![other_bit()],
    {
        Self::single(8)
    }

    /// The set holding only the `*` capability.
    pub fn wildcard() -> (r: CapSet)
        ensures
            r@ == set![0nat],
            cap_names(r@) == seq![cap_name(0)],
    {
        proof {
            lemma_single_name(0);
        }
        Self::single(0)
    }

    /// The set holding only the `env` capability.
    pub fn env() -> (r: CapSet)
        ensures
            r@ == set![1nat],
            cap_names(r@) == seq![cap_name(1)],
    {
        proof {
            lemma_single_name(1);
        }
        Self::single(1)
    }

    /// The set holding only the `ffi` capability.
    pub fn ffi() -> (r: CapSet)
        ensures
            r@ == set![2nat],
            cap_names(r@) == seq![cap_name(2)],
    {
        proof {
            lemma_single_name(2);
        }
        Self::single(2)
    }

    /// The set holding only the `fs` capability.
    pub fn fs() -> (r: CapSet)
        ensures
            r@ == set![3nat],
            cap_names(r@) == seq![cap_name(3)],
    {
        proof {
            lemma_single_name(3);
        }
        Self::single(3)
    }

    /// The set holding only the `net` capability.
    pub fn net() -> (r: CapSet)
        ensures
            r@ == set![4nat],
            cap_names(r@) == seq![cap_name(4)],
    {
        proof {
            lemma_single_name(4);
        }
        Self::single(4)
    }

    /// The set holding only the `net_internal` capability.
    pub fn net_internal() -> (r: CapSet)
        ensures
            r@ == set![5nat],
            cap_names(r@) == seq![cap_name(5)],
    {
        proof {
            lemma_single_name(5);
        }
        Self::single(5)
    }

    /// The set holding only the `proc` capability.
    pub fn proc() -> (r: CapSet)
        ensures
            r@ == set![6nat],
            cap_names(r@) == seq![cap_name(6)],
    {
        proof {
            lemma_single_name(6);
        }
        Self::single(6)
    }

    /// The set holding only the `time` capability.
    pub fn time() -> (r: CapSet)
        ensures
            r@ == set![7nat],
            cap_names(r@) == seq![cap_name(7)],
    {
        proof {
            lemma_single_name(7);
        }
        Self::single(7)
    }

    /// The set holding only bit `i`.
    fn single(i: u16) -> (r: CapSet)
        requires
            i < 16,
        ensures
            r@ == set![i as nat],
    {
        proof {
            lemma_single_bit(i);
        }
        CapSet(1u16 << i)
    }

    /// Looks up a canonical capability name; `None` for unknown names.
    pub fn from_name(name: &str) -> (r: Option<CapSet>)
        ensures
            r is Some <==> canonical_index(name@) is Some,
            r matches Some(c) ==> c@ == set![canonical_index(name@)->0],
    {
        let mut i: usize = 0;
        while i < 8
            invariant
                i <= 8,
                forall|j: nat| j < i ==> name@ != #[trigger] cap_name(j),
            decreases 8 - i,
        {
            if str_eq(name, name_at(i)) {
                proof {
                    assert(canonical_index(name@) == Some(i as nat)) by {
                        assert(forall|j: nat| j < i ==> name@ != #[trigger] cap_name(j));
                        if i > 0 { assert(name@ != cap_name(0)); }
                        if i > 1 { assert(name@ != cap_name(1)); }
                        if i > 2 { assert(name@ != cap_name(2)); }
                        if i > 3 { assert(name@ != cap_name(3)); }
                        if i > 4 { assert(name@ != cap_name(4)); }
                        if i > 5 { assert(name@ != cap_name(5)); }
                        if i > 6 { assert(name@ != cap_name(6)); }
                    }
                }
                return Some(Self::single(i as u16));
            }
            i = i + 1;
        }
        proof {
            assert(name@ != cap_name(0) && name@ != cap_name(1) && name@ != cap_name(2) && name@
                != cap_name(3) && name@ != cap_name(4) && name@ != cap_name(5) && name@ != cap_name(6)
                && name@ != cap_name(7));
        }
        None
    }

    /// Like [`CapSet::from_name`], but maps unknown names to [`CapSet::OTHER`]
    /// so that the presence of a declaration is never lost.
    pub fn from_name_or_other(name: &str) -> (r: CapSet)
        ensures
            r@ == match canonical_index(name@) {
                Some(i) => set![i],
                None => set![other_bit()],
            },
    {
        match Self::from_name(name) {
            Some(c) => c,
            None => Self::other(),
        }
    }

    /// Whether no capability (named or other) is present.
    pub fn is_empty(self) -> (r: bool)
        ensures
            r == (self@ == Set::<nat>::empty()),
    {
        proof {
            lemma_bits_zero(self.0);
        }
        self.0 == 0
    }

    /// Whether the unknown-capability marker is set.
    pub fn has_other(self) -> (r: bool)
        ensures
            r == self@.contains(other_bit()),
    {
        proof {
            lemma_bits_and(self.0, 256u16);
            lemma_single_bit(8);
            lemma_bits_zero(self.0 & 256u16);
            assert(1u16 << 8u16 == 256u16) by (bit_vector);
            lemma_meet_single(self@, 8);
        }
        self.0 & 256u16 != 0
    }

    /// Whether the canonical capability `name` is present; unknown names are
    /// never reported present.
    pub fn contains(self, name: &str) -> (r: bool)
        ensures
            r == (canonical_index(name@) matches Some(i) && self@.contains(i)),
    {
        match Self::from_name(name) {
            Some(bit) => {
                proof {
                    lemma_bits_and(self.0, bit.0);
                    lemma_bits_zero(self.0 & bit.0);
                    lemma_meet_single(self@, canonical_index(name@)->0);
                }
                self.0 & bit.0 != 0
            },
            None => false,
        }
    }

    /// Whether every capability of `other` is also in `self`.
    pub fn contains_all(self, other: CapSet) -> (r: bool)
        ensures
            r == other@.subset_of(self@),
    {
        proof {
            lemma_bits_and_not(other.0, self.0);
            lemma_bits_zero(other.0 & !self.0);
            if !other@.subset_of(self@) {
                let w = choose|i: nat| other@.contains(i) && !self@.contains(i);
                assert(other@.difference(self@).contains(w));
            }
            if other@.subset_of(self@) {
                assert(other@.difference(self@) =~= Set::<nat>::empty());
            }
        }
        other.0 & !self.0 == 0
    }

    /// Whether `self` is a subset of `superset`.
    pub fn is_subset(self, superset: CapSet) -> (r: bool)
        ensures
            r == self@.subset_of(superset@),
    {
        superset.contains_all(self)
    }

    /// The capabilities in `self` but not in `other`.
    pub fn difference(self, other: CapSet) -> (r: CapSet)
        ensures
            r@ == self@.difference(other@),
    {
        proof {
            lemma_bits_and_not(self.0, other.0);
        }
        CapSet(self.0 & !other.0)
    }

    /// The symmetric difference — the diff-caps delta.
    pub fn delta(self, other: CapSet) -> (r: CapSet)
        ensures
            r@ == self@.difference(other@).union(other@.difference(self@)),
    {
        proof {
            lemma_bits_xor(self.0, other.0);
        }
        CapSet(self.0 ^ other.0)
    }

    /// The intersection.
    pub fn intersect(self, other: CapSet) -> (r: CapSet)
        ensures
            r@ == self@.intersect(other@),
    {
        proof {
            lemma_bits_and(self.0, other.0);
        }
        CapSet(self.0 & other.0)
    }

    /// The union (the `|` of the bitsets).
    pub fn union(self, other: CapSet) -> (r: CapSet)
        ensures
            r@ == self@.union(other@),
    {
        proof {
            lemma_bits_or(self.0, other.0);
        }
        CapSet(self.0 | other.0)
    }

    /// The canonical names present, in lexicographic order; the
    /// unknown-capability marker has no name and is never yielded.
    pub fn iter_names(self) -> (r: Vec<&'static str>)
        ensures
            crate::text::str_views(r@) == cap_names(self@),
    {
        let mut out: Vec<&'static str> = Vec::new();
        let mut i: usize = 0;
        while i < 8
            invariant
                i <= 8,
                out@.map_values(|s: &'static str| s@) == names_below(self@, i as nat),
            decreases 8 - i,
        {
            let ghost before = out@;
            proof {
                lemma_single_bit(i as u16);
                lemma_bits_and(self.0, 1u16 << (i as u16));
                lemma_bits_zero(self.0 & (1u16 << (i as u16)));
            }
            if self.0 & (1u16 << (i as u16)) != 0 {
                out.push(name_at(i));
                proof {
                    assert(self@.intersect(set![i as nat]) != Set::<nat>::empty());
                    assert(self@.contains(i as nat)) by {
                        if !self@.contains(i as nat) {
                            assert(self@.intersect(set![i as nat]) =~= Set::<nat>::empty());
                        }
                    }
                    assert(out@.map_values(|s: &'static str| s@) =~= before.map_values(
                        |s: &'static str| s@,
                    ).push(cap_name(i as nat)));
                }
            } else {
                proof {
                    assert(!self@.contains(i as nat)) by {
                        if self@.contains(i as nat) {
                            assert(self@.intersect(set![i as nat]).contains(i as nat));
                        }
                    }
                }
            }
            i = i + 1;
        }
        out
    }

    /// The canonical names present, sorted lexicographically.
    pub fn names(self) -> (r: Vec<&'static str>)
        ensures
            crate::text::str_views(r@) == cap_names(self@),
    {
        self.iter_names()
    }

    /// The raw bits: the number whose set bits are exactly this set.
    pub fn bits(self) -> (r: u16)
        ensures
            bit_set(r) == self@,
    {
        self.0
    }
}


// ---------------------------------------------------------------------------
// Laws
// ---------------------------------------------------------------------------

/// Two capability sets with the same view are the same value.
pub proof fn lemma_view_injective(a: CapSet, b: CapSet)
    requires
        a@ == b@,
    ensures
        a == b,
{
    let x = a.0;
    let y = b.0;
    assert forall|i: nat| i < 16 implies has_bit(x, i) == has_bit(y, i) by {
        assert(bit_set(x).contains(i) == bit_set(y).contains(i));
    }
    assert(has_bit(x, 0) == has_bit(y, 0));
    assert(has_bit(x, 1) == has_bit(y, 1));
    assert(has_bit(x, 2) == has_bit(y, 2));
    assert(has_bit(x, 3) == has_bit(y, 3));
    assert(has_bit(x, 4) == has_bit(y, 4));
    assert(has_bit(x, 5) == has_bit(y, 5));
    assert(has_bit(x, 6) == has_bit(y, 6));
    assert(has_bit(x, 7) == has_bit(y, 7));
    assert(has_bit(x, 8) == has_bit(y, 8));
    assert(has_bit(x, 9) == has_bit(y, 9));
    assert(has_bit(x, 10) == has_bit(y, 10));
    assert(has_bit(x, 11) == has_bit(y, 11));
    assert(has_bit(x, 12) == has_bit(y, 12));
    assert(has_bit(x, 13) == has_bit(y, 13));
    assert(has_bit(x, 14) == has_bit(y, 14));
    assert(has_bit(x, 15) == has_bit(y, 15));
    assert(x == y) by (bit_vector)
        requires
            ((x >> 0u16) & 1u16 == 1u16) == ((y >> 0u16) & 1u16 == 1u16),
            ((x >> 1u16) & 1u16 == 1u16) == ((y >> 1u16) & 1u16 == 1u16),
            ((x >> 2u16) & 1u16 == 1u16) == ((y >> 2u16) & 1u16 == 1u16),
            ((x >> 3u16) & 1u16 == 1u16) == ((y >> 3u16) & 1u16 == 1u16),
            ((x >> 4u16) & 1u16 == 1u16) == ((y >> 4u16) & 1u16 == 1u16),
            ((x >> 5u16) & 1u16 == 1u16) == ((y >> 5u16) & 1u16 == 1u16),
            ((x >> 6u16) & 1u16 == 1u16) == ((y >> 6u16) & 1u16 == 1u16),
            ((x >> 7u16) & 1u16 == 1u16) == ((y >> 7u16) & 1u16 == 1u16),
            ((x >> 8u16) & 1u16 == 1u16) == ((y >> 8u16) & 1u16 == 1u16),
            ((x >> 9u16) & 1u16 == 1u16) == ((y >> 9u16) & 1u16 == 1u16),
            ((x >> 10u16) & 1u16 == 1u16) == ((y >> 10u16) & 1u16 == 1u16),
            ((x >> 11u16) & 1u16 == 1u16) == ((y >> 11u16) & 1u16 == 1u16),
            ((x >> 12u16) & 1u16 == 1u16) == ((y >> 12u16) & 1u16 == 1u16),
            ((x >> 13u16) & 1u16 == 1u16) == ((y >> 13u16) & 1u16 == 1u16),
            ((x >> 14u16) & 1u16 == 1u16) == ((y >> 14u16) & 1u16 == 1u16),
            ((x >> 15u16) & 1u16 == 1u16) == ((y >> 15u16) & 1u16 == 1u16),
    ;
}

/// The symmetric difference of two sets (the view of `delta`).
pub open spec fn sym_diff(a: Set<nat>, b: Set<nat>) -> Set<nat> {
    a.difference(b).union(b.difference(a))
}

/// `delta` is commutative and associative, undoes itself, is empty on
/// equal sets and the identity against the empty set; a bit is in the
/// delta exactly when it is in one of the two sets.
pub proof fn lemma_delta_algebra(a: Set<nat>, b: Set<nat>, c: Set<nat>)
    ensures
        sym_diff(a, b) == sym_diff(b, a),
        sym_diff(sym_diff(a, b), b) == a,
        sym_diff(a, a) == Set::<nat>::empty(),
        sym_diff(a, Set::<nat>::empty()) == a,
        sym_diff(sym_diff(a, b), c) == sym_diff(a, sym_diff(b, c)),
        forall|i: nat| #[trigger] sym_diff(a, b).contains(i) <==> (a.contains(i) != b.contains(i)),
{
    assert(sym_diff(a, b) =~= sym_diff(b, a));
    assert(sym_diff(sym_diff(a, b), b) =~= a);
    assert(sym_diff(a, a) =~= Set::<nat>::empty());
    assert(sym_diff(a, Set::<nat>::empty()) =~= a);
    assert(sym_diff(sym_diff(a, b), c) =~= sym_diff(a, sym_diff(b, c)));
}

/// The delta splits by intersection into the two differences; the
/// intersection is commutative and below both sets, and its names are the
/// names the two sets share.
pub proof fn lemma_intersect_algebra(a: Set<nat>, b: Set<nat>)
    ensures
        sym_diff(a, b).intersect(b) == b.difference(a),
        sym_diff(a, b).intersect(a) == a.difference(b),
        a.intersect(b) == b.intersect(a),
        a.intersect(b).subset_of(a),
        cap_names(a.intersect(b)).to_set() == cap_names(a).to_set().intersect(cap_names(b).to_set()),
{
    assert(sym_diff(a, b).intersect(b) =~= b.difference(a));
    assert(sym_diff(a, b).intersect(a) =~= a.difference(b));
    assert(a.intersect(b) =~= b.intersect(a));
    lemma_cap_names_set(a);
    lemma_cap_names_set(b);
    lemma_cap_names_set(a.intersect(b));
    assert forall|c: Seq<char>| names_of_bits(a.intersect(b)).contains(c)
        <==> (names_of_bits(a).contains(c) && names_of_bits(b).contains(c)) by {
        if names_of_bits(a).contains(c) && names_of_bits(b).contains(c) {
            let i = choose|i: nat| i < 8 && a.contains(i) && c == #[trigger] cap_name(i);
            let j = choose|j: nat| j < 8 && b.contains(j) && c == #[trigger] cap_name(j);
            lemma_canonical_roundtrip(i);
            lemma_canonical_roundtrip(j);
            assert(i == j);
        }
    }
    assert(names_of_bits(a.intersect(b)) =~= names_of_bits(a).intersect(names_of_bits(b)));
}

/// The names of a set are strictly sorted, name exactly its named bits
/// (a name is listed iff it is canonical and its bit is held), and there
/// is one per named bit; the unknown-capability marker has no name.
pub proof fn lemma_names_shape(s: Set<nat>)
    ensures
        crate::order::strictly_sorted(cap_names(s)),
        forall|x: Seq<char>| #[trigger] cap_names(s).contains(x)
            <==> (canonical_index(x) is Some && s.contains(canonical_index(x)->0)),
        cap_names(s).len() == s.intersect(Set::new(|i: nat| i < 8)).len(),
        !cap_names(s).contains(cap_name(other_bit())) || s.contains(7),
{
    lemma_names_below_sorted(s, 8);
    lemma_cap_names_set(s);
    assert forall|x: Seq<char>| #[trigger] cap_names(s).contains(x)
        <==> (canonical_index(x) is Some && s.contains(canonical_index(x)->0)) by {
        assert(cap_names(s).to_set().contains(x) == cap_names(s).contains(x));
        if canonical_index(x) is Some {
            lemma_canonical_name(x);
        }
        if names_of_bits(s).contains(x) {
            let i = choose|i: nat| i < 8 && s.contains(i) && x == #[trigger] cap_name(i);
            lemma_canonical_roundtrip(i);
        }
    }
    lemma_names_below_len(s, 8);
    assert(cap_name(other_bit()) == cap_name(7));
    if cap_names(s).contains(cap_name(7)) {
        lemma_canonical_roundtrip(7);
    }
}

/// A single named bit: its set is listed as its one name.
pub proof fn lemma_single_name(i: nat)
    requires
        i < 8,
    ensures
        cap_names(set![i]) == seq![cap_name(i)],
{
    lemma_names_below_single(i, 8);
}

proof fn lemma_names_below_single(i: nat, n: nat)
    requires
        i < n <= 8,
    ensures
        names_below(set![i], n) == seq![cap_name(i)],
    decreases n,
{
    if n - 1 > i {
        lemma_names_below_single(i, (n - 1) as nat);
    } else {
        lemma_names_below_none(set![i], i);
        assert(names_below(set![i], i) =~= Seq::<Seq<char>>::empty());
        assert(Seq::<Seq<char>>::empty().push(cap_name(i)) =~= seq![cap_name(i)]);
    }
}

proof fn lemma_names_below_none(s: Set<nat>, n: nat)
    requires
        forall|j: nat| j < n ==> !s.contains(j),
    ensures
        names_below(s, n) == Seq::<Seq<char>>::empty(),
    decreases n,
{
    if n > 0 {
        lemma_names_below_none(s, (n - 1) as nat);
    }
}

proof fn lemma_names_below_len(s: Set<nat>, n: nat)
    requires
        n <= 8,
    ensures
        names_below(s, n).len() == s.intersect(Set::new(|i: nat| i < n)).len(),
        s.intersect(Set::new(|i: nat| i < n)).finite(),
    decreases n,
{
    let t = s.intersect(Set::new(|i: nat| i < n));
    if n == 0 {
        assert(t =~= Set::<nat>::empty());
    } else {
        lemma_names_below_len(s, (n - 1) as nat);
        let t0 = s.intersect(Set::new(|i: nat| i < (n - 1) as nat));
        if s.contains((n - 1) as nat) {
            assert(t =~= t0.insert((n - 1) as nat));
            assert(!t0.contains((n - 1) as nat));
        } else {
            assert(t =~= t0);
        }
    }
}

proof fn lemma_names_below_sorted(s: Set<nat>, n: nat)
    requires
        n <= 8,
    ensures
        crate::order::strictly_sorted(names_below(s, n)),
        forall|k: int| 0 <= k < names_below(s, n).len() ==> (canonical_index(#[trigger] names_below(s, n)[k]) matches Some(j) && j < n),
    decreases n,
{
    if n > 0 {
        lemma_names_below_sorted(s, (n - 1) as nat);
        let prev = names_below(s, (n - 1) as nat);
        lemma_canonical_roundtrip((n - 1) as nat);
        if s.contains((n - 1) as nat) {
            let q = prev.push(cap_name((n - 1) as nat));
            assert(names_below(s, n) == q);
            assert forall|a: int, b: int| 0 <= a < b < q.len() implies crate::order::seq_lt(#[trigger] q[a], #[trigger] q[b]) by {
                assert(q[a] == prev[a]);
                if b < prev.len() {
                    assert(q[b] == prev[b]);
                } else {
                    let j = canonical_index(prev[a])->0;
                    lemma_canonical_name(prev[a]);
                    lemma_names_ordered(j, (n - 1) as nat);
                }
            }
            assert forall|k: int| 0 <= k < q.len() implies (canonical_index(#[trigger] q[k]) matches Some(j) && j < n) by {
                if k < prev.len() {
                    assert(q[k] == prev[k]);
                }
            }
        }
    }
}

/// Lower bits hold lexicographically smaller names.
proof fn lemma_names_ordered(i: nat, j: nat)
    requires
        i < j < 8,
    ensures
        crate::order::seq_lt(cap_name(i), cap_name(j)),
{
    reveal_strlit("*");
    reveal_strlit("env");
    reveal_strlit("ffi");
    reveal_strlit("fs");
    reveal_strlit("net");
    reveal_strlit("net_internal");
    reveal_strlit("proc");
    reveal_strlit("time");
    reveal_with_fuel(crate::order::seq_lt, 5);
    assert(crate::order::seq_lt(cap_name(0), cap_name(1)));
    assert(crate::order::seq_lt(cap_name(1), cap_name(2)));
    assert(crate::order::seq_lt(cap_name(2), cap_name(3)));
    assert(crate::order::seq_lt(cap_name(3), cap_name(4)));
    assert(crate::order::seq_lt(cap_name(4), cap_name(5)));
    assert(crate::order::seq_lt(cap_name(5), cap_name(6)));
    assert(crate::order::seq_lt(cap_name(6), cap_name(7)));
    lemma_chain(i, j);
}

/// Adjacent names in order give every pair in order.
proof fn lemma_chain(i: nat, j: nat)
    requires
        i < j < 8,
        forall|k: nat| k < 7 ==> crate::order::seq_lt(#[trigger] cap_name(k), cap_name(k + 1)),
    ensures
        crate::order::seq_lt(cap_name(i), cap_name(j)),
    decreases j - i,
{
    if j > i + 1 {
        lemma_chain(i, (j - 1) as nat);
        assert(crate::order::seq_lt(cap_name((j - 1) as nat), cap_name(j)));
        crate::order::lemma_lt_transitive(cap_name(i), cap_name((j - 1) as nat), cap_name(j));
    }
}

} // verus!
