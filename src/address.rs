use vstd::prelude::*;

verus! {

/// The network address of a client, held as the integer value of its bits.
///
/// Addresses order as IP addresses usually do: every IPv4 address before
/// every IPv6 address, and within one family by numeric value.
#[derive(Clone, Copy, Debug, PartialEq, Eq, Structural, Hash)]
pub enum ClientAddress {
    V4(u32),
    V6(u128),
}

impl ClientAddress {
    /// The family rank (IPv4 first) and the numeric value, as one pair.
    pub open spec fn key(self) -> (int, int) {
        match self {
            ClientAddress::V4(v) => (0, v as int),
            ClientAddress::V6(v) => (1, v as int),
        }
    }

    /// Strict address order.
    pub open spec fn spec_before(self, other: ClientAddress) -> bool {
        self.key().0 < other.key().0 || (self.key().0 == other.key().0 && self.key().1
            < other.key().1)
    }

    /// Whether `self` orders strictly before `other`.
    pub fn before(&self, other: &ClientAddress) -> (r: bool)
        ensures
            r == self.spec_before(*other),
    {
        match (self, other) {
            (ClientAddress::V4(a), ClientAddress::V4(b)) => *a < *b,
            (ClientAddress::V6(a), ClientAddress::V6(b)) => *a < *b,
            (ClientAddress::V4(_), ClientAddress::V6(_)) => true,
            (ClientAddress::V6(_), ClientAddress::V4(_)) => false,
        }
    }
}

/// Distinct addresses are strictly ordered one way or the other.
pub proof fn lemma_before_total(a: ClientAddress, b: ClientAddress)
    ensures
        a != b ==> (a.spec_before(b) || b.spec_before(a)),
        !(a.spec_before(b) && b.spec_before(a)),
        !a.spec_before(a),
{
}

/// Address order is transitive.
pub proof fn lemma_before_transitive(a: ClientAddress, b: ClientAddress, c: ClientAddress)
    requires
        a.spec_before(b),
        b.spec_before(c),
    ensures
        a.spec_before(c),
{
}

} // verus!
