//! Signals and signal-state structures.
//!
//! [`Signals`] is a bitmask; [`SignalsState`] reports what is currently
//! satisfied and what could become satisfied.

use vstd::prelude::*;

verus! {

/// A set of handle signals (bitmask).
#[derive(Debug, Clone, Copy, PartialEq, Eq, Hash, Structural)]
pub struct Signals(pub u32);

impl Signals {
    /// No signals.
    #[verifier::allow_in_spec]
    pub fn none() -> Signals
        returns
            Signals(0),
    {
        Signals(0)
    }

    /// Data is available to read.
    #[verifier::allow_in_spec]
    pub fn readable() -> Signals
        returns
            Signals(1),
    {
        Signals(1)
    }

    /// Data can be written without blocking.
    #[verifier::allow_in_spec]
    pub fn writable() -> Signals
        returns
            Signals(2),
    {
        Signals(2)
    }

    /// The peer endpoint is closed.
    #[verifier::allow_in_spec]
    pub fn peer_closed() -> Signals
        returns
            Signals(4),
    {
        Signals(4)
    }

    /// New data arrived since the last read (data pipes).
    #[verifier::allow_in_spec]
    pub fn new_data_readable() -> Signals
        returns
            Signals(8),
    {
        Signals(8)
    }

    /// The peer is on a different process or node.
    #[verifier::allow_in_spec]
    pub fn peer_remote() -> Signals
        returns
            Signals(16),
    {
        Signals(16)
    }

    /// A quota was exceeded.
    #[verifier::allow_in_spec]
    pub fn quota_exceeded() -> Signals
        returns
            Signals(32),
    {
        Signals(32)
    }

    /// All signals that are understood.
    #[verifier::allow_in_spec]
    pub fn all() -> Signals
        returns
            Signals(63),
    {
        Signals(63)
    }

    /// Whether the set contains `other`.
    pub open spec fn has(self, other: Signals) -> bool {
        self.0 & other.0 == other.0
    }

    /// Both sets together.
    pub open spec fn with(self, other: Signals) -> Signals {
        Signals(self.0 | other.0)
    }

    /// Build a signal set from a raw bitmask; bits that mean nothing are
    /// dropped.
    pub fn from_bits(bits: u32) -> (r: Signals)
        ensures
            r == Signals(bits & 63),
    {
        Signals(bits & 63)
    }

    /// The raw bitmask.
    pub fn bits(self) -> (r: u32)
        ensures
            r == self.0,
    {
        self.0
    }

    /// Whether the set contains `other`.
    pub fn contains(self, other: Signals) -> (r: bool)
        ensures
            r == self.has(other),
    {
        self.0 & other.0 == other.0
    }

    /// Whether the set is empty.
    pub fn is_empty(self) -> (r: bool)
        ensures
            r == (self.0 == 0),
    {
        self.0 == 0
    }
}

impl Default for Signals {
    fn default() -> (r: Signals)
        ensures
            r == Signals(0),
    {
        Signals(0)
    }
}

impl core::ops::BitOr for Signals {
    type Output = Signals;

    fn bitor(self, rhs: Signals) -> (r: Signals) {
        Signals(self.0 | rhs.0)
    }
}

impl vstd::std_specs::ops::BitOrSpecImpl for Signals {
    open spec fn obeys_bitor_spec() -> bool {
        true
    }

    open spec fn bitor_req(self, rhs: Signals) -> bool {
        true
    }

    open spec fn bitor_spec(self, rhs: Signals) -> Signals {
        Signals(self.0 | rhs.0)
    }
}

impl core::ops::BitAnd for Signals {
    type Output = Signals;

    fn bitand(self, rhs: Signals) -> (r: Signals) {
        Signals(self.0 & rhs.0)
    }
}

impl vstd::std_specs::ops::BitAndSpecImpl for Signals {
    open spec fn obeys_bitand_spec() -> bool {
        true
    }

    open spec fn bitand_req(self, rhs: Signals) -> bool {
        true
    }

    open spec fn bitand_spec(self, rhs: Signals) -> Signals {
        Signals(self.0 & rhs.0)
    }
}

/// The state of a handle's signals: currently satisfied and potentially
/// satisfiable sets.
#[derive(Debug, Clone, Copy, PartialEq, Eq, Structural)]
pub struct SignalsState {
    /// Signals currently satisfied.
    pub satisfied: Signals,
    /// Signals that could become satisfied in the future.
    pub satisfiable: Signals,
}

/// The state in which nothing is or can be satisfied.
pub open spec fn no_signals() -> SignalsState {
    SignalsState { satisfied: Signals(0), satisfiable: Signals(0) }
}

impl Default for SignalsState {
    fn default() -> (r: SignalsState)
        ensures
            r == no_signals(),
    {
        SignalsState { satisfied: Signals(0), satisfiable: Signals(0) }
    }
}

impl SignalsState {
    /// Whether the trigger set can never be satisfied.
    pub open spec fn never(self, trigger: Signals) -> bool {
        !self.satisfied.has(trigger) && !self.satisfiable.has(trigger)
    }

    /// Whether a watch for `trigger` has something to report.
    pub open spec fn fires(self, trigger: Signals) -> bool {
        self.satisfied.has(trigger) || self.never(trigger)
    }

    /// The result of watching for `watch` given this state: `Ok` if it is
    /// already satisfied, the satisfiable set as an error if it never can be,
    /// and an empty set as an error while it is pending.
    pub fn watch_result(self, watch: Signals) -> (r: Result<(), Signals>)
        ensures
            r == if self.satisfied.has(watch) {
                Ok::<(), Signals>(())
            } else if !self.satisfiable.has(watch) {
                Err::<(), Signals>(self.satisfiable)
            } else {
                Err::<(), Signals>(Signals(0))
            },
    {
        if self.satisfied.contains(watch) {
            Ok(())
        } else if !self.satisfiable.contains(watch) {
            Err(self.satisfiable)
        } else {
            Err(Signals(0))
        }
    }

    /// Whether the trigger set is currently satisfied.
    pub fn is_satisfied(self, trigger: Signals) -> (r: bool)
        ensures
            r == self.satisfied.has(trigger),
    {
        self.satisfied.contains(trigger)
    }

    /// Whether the trigger set can never be satisfied.
    pub fn is_unsatisfiable(self, trigger: Signals) -> (r: bool)
        ensures
            r == self.never(trigger),
    {
        !self.satisfied.contains(trigger) && !self.satisfiable.contains(trigger)
    }
}

/// What two sets hold together contains each of them, and contains what either
/// contains.
pub proof fn law_union_contains(a: Signals, b: Signals, c: Signals)
    ensures
        a.with(b).has(a),
        a.with(b).has(b),
        a.has(c) ==> a.with(b).has(c),
        b.has(c) ==> a.with(b).has(c),
{
    let x = a.0;
    let y = b.0;
    let z = c.0;
    assert((x | y) & x == x && (x | y) & y == y && (x & z == z ==> (x | y) & z == z) && (y & z == z
        ==> (x | y) & z == z)) by (bit_vector);
}

/// Every set contains the empty set, and only the empty set is contained in
/// it.
pub proof fn law_empty_set(a: Signals)
    ensures
        a.has(Signals(0)),
        Signals(0).has(a) ==> a == Signals(0),
{
    let x = a.0;
    assert(x & 0 == 0 && (0u32 & x == x ==> x == 0)) by (bit_vector);
}

/// Whether a set holds the signal with one bit.
pub open spec fn holds_bit(a: Signals, bit: u32) -> bool {
    a.0 & bit != 0
}

/// A set of signals that are understood is contained in another exactly where
/// each of its signals is in it, and two sets together hold a signal exactly
/// where either does.
pub proof fn law_sets_hold_signals(a: Signals, b: Signals, bit: u32)
    requires
        b.0 <= 63,
    ensures
        a.has(b) == {
            &&& holds_bit(b, 1) ==> holds_bit(a, 1)
            &&& holds_bit(b, 2) ==> holds_bit(a, 2)
            &&& holds_bit(b, 4) ==> holds_bit(a, 4)
            &&& holds_bit(b, 8) ==> holds_bit(a, 8)
            &&& holds_bit(b, 16) ==> holds_bit(a, 16)
            &&& holds_bit(b, 32) ==> holds_bit(a, 32)
        },
        holds_bit(a.with(b), bit) == (holds_bit(a, bit) || holds_bit(b, bit)),
{
    let x = a.0;
    let y = b.0;
    assert(y <= 63 ==> ((x & y == y) == {
        &&& y & 1 != 0 ==> x & 1 != 0
        &&& y & 2 != 0 ==> x & 2 != 0
        &&& y & 4 != 0 ==> x & 4 != 0
        &&& y & 8 != 0 ==> x & 8 != 0
        &&& y & 16 != 0 ==> x & 16 != 0
        &&& y & 32 != 0 ==> x & 32 != 0
    })) by (bit_vector);
    assert(((x | y) & bit != 0) == (x & bit != 0 || y & bit != 0)) by (bit_vector);
}

} // verus!
