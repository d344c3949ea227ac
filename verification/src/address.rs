use vstd::prelude::*;

verus! {

/// A multiaddress, held as its binary encoding.
///
/// The library only carries addresses around and compares them; two addresses are the same
/// exactly when their encodings are the same bytes.
#[derive(Debug, Clone, Hash)]
pub struct Multiaddr {
    bytes: Vec<u8>,
}

impl View for Multiaddr {
    type V = Seq<u8>;

    closed spec fn view(&self) -> Seq<u8> {
        self.bytes@
    }
}

/// The encodings of the addresses of `addrs`, in order.
pub open spec fn addr_views(addrs: Seq<Multiaddr>) -> Seq<Seq<u8>> {
    addrs.map_values(|a: Multiaddr| a@)
}

/// The encodings of a sequence of addresses: one per address, in the same order.
pub proof fn lemma_addr_views_follow_addresses(addrs: Seq<Multiaddr>)
    ensures
        addr_views(addrs).len() == addrs.len(),
        forall|i: int| 0 <= i < addrs.len() ==> #[trigger] addr_views(addrs)[i] == addrs[i]@,
{
}

impl Multiaddr {
    /// Wraps the binary encoding of a multiaddress.
    pub fn from_vec(bytes: Vec<u8>) -> (r: Multiaddr)
        ensures
            r@ == bytes@,
    {
        Multiaddr { bytes }
    }

    /// The binary encoding of the address.
    pub fn to_vec(&self) -> (r: Vec<u8>)
        ensures
            r@ == self@,
    {
        self.bytes.clone()
    }

    /// Borrows the binary encoding of the address.
    pub fn as_bytes(&self) -> (r: &[u8])
        ensures
            r@ == self@,
    {
        self.bytes.as_slice()
    }

    /// Whether the two addresses are the same address.
    pub fn same_as(&self, other: &Multiaddr) -> (r: bool)
        ensures
            r == (self@ == other@),
    {
        let a = self.bytes.as_slice();
        let b = other.bytes.as_slice();
        if a.len() != b.len() {
            return false;
        }
        let mut i: usize = 0;
        while i < a.len()
            invariant
                a@ == self@,
                b@ == other@,
                a.len() == b.len(),
                i <= a.len(),
                forall|j: int| 0 <= j < i ==> a@[j] == b@[j],
            decreases a.len() - i,
        {
            if a[i] != b[i] {
                return false;
            }
            i = i + 1;
        }
        assert(a@ =~= b@);
        true
    }

    /// Whether the two addresses are different addresses.
    pub fn differs_from(&self, other: &Multiaddr) -> (r: bool)
        ensures
            r == (self@ != other@),
    {
        !self.same_as(other)
    }

    /// Whether the address is none of the addresses of `list`.
    pub fn is_not_among(&self, list: &[Multiaddr]) -> (r: bool)
        ensures
            r == !addr_views(list@).contains(self@),
    {
        let mut i: usize = 0;
        while i < list.len()
            invariant
                i <= list.len(),
                forall|j: int| 0 <= j < i ==> list@[j]@ != self@,
            decreases list.len() - i,
        {
            if list[i].same_as(self) {
                assert(addr_views(list@)[i as int] == self@);
                return false;
            }
            i = i + 1;
        }
        assert forall|x: Seq<u8>| addr_views(list@).contains(x) implies x != self@ by {
            let j = choose|j: int| 0 <= j < addr_views(list@).len() && addr_views(list@)[j] == x;
            assert(list@[j]@ != self@);
        }
        true
    }

    /// A copy of the address.
    pub fn duplicate(&self) -> (r: Multiaddr)
        ensures
            r@ == self@,
    {
        Multiaddr { bytes: self.bytes.clone() }
    }
}

} // verus!
