//! The list of addresses being listened on, kept in a `smallvec::SmallVec`.
use vstd::prelude::*;

use smallvec::SmallVec;

use crate::address::{addr_views, Multiaddr};
use crate::listeners::{report_views, reported_in};
use crate::model::reported;
use crate::transport::ListenerId;

verus! {

/// A list of addresses, held in a `SmallVec` with room for four addresses inline.
///
/// What the list holds is `addr_list_contents`; the methods below are the only ways in which
/// the library reads or changes it.
#[verifier::external_body]
pub struct AddrList {
    inner: SmallVec<[Multiaddr; 4]>,
}

/// The addresses that the list holds, in order, each by its encoding.
pub uninterp spec fn addr_list_contents(v: AddrList) -> Seq<Seq<u8>>;

/// How many addresses the list may hold before a push. `SmallVec::push` on a full vector grows
/// it to the next power of two above its length, and panics where that many addresses (each
/// at most 32 bytes) would need more than `isize::MAX` bytes; below this length they never do.
pub open spec fn addr_list_room() -> int {
    isize::MAX as int / 64
}

/// Whether an address is other than `addr`.
pub open spec fn other_than(addr: Seq<u8>) -> spec_fn(Seq<u8>) -> bool {
    |x: Seq<u8>| x != addr
}

/// Whether an address is none of `gone`.
pub open spec fn not_among(gone: Seq<Seq<u8>>) -> spec_fn(Seq<u8>) -> bool {
    |x: Seq<u8>| !gone.contains(x)
}

impl AddrList {
    /// Calls `SmallVec::new`, which makes an empty vector: the list holds no address.
    #[verifier::external_body]
    pub(crate) fn new() -> (r: AddrList)
        ensures
            addr_list_contents(r) == Seq::<Seq<u8>>::empty(),
    {
        AddrList { inner: SmallVec::new() }
    }

    /// Calls `SmallVec::push`, which appends `addr` after the addresses held, leaving them as
    /// they are. Asked only below `addr_list_room()`, where it does not panic.
    #[verifier::external_body]
    pub(crate) fn push(&mut self, addr: Multiaddr)
        requires
            addr_list_contents(*old(self)).len() < addr_list_room(),
        ensures
            addr_list_contents(*final(self)) == addr_list_contents(*old(self)).push(addr@),
    {
        self.inner.push(addr)
    }

    /// Calls `SmallVec::as_slice`, which lends the addresses held, in order.
    #[verifier::external_body]
    pub(crate) fn as_slice(&self) -> (r: &[Multiaddr])
        ensures
            addr_views(r@) == addr_list_contents(*self),
    {
        self.inner.as_slice()
    }

    /// Calls `SmallVec::retain` with `Multiaddr::differs_from` as the test of what stays: every
    /// copy of `addr` leaves the list, and the others stay in their order.
    #[verifier::external_body]
    pub(crate) fn retain_other_than(&mut self, addr: &Multiaddr)
        ensures
            addr_list_contents(*final(self)) == addr_list_contents(*old(self)).filter(
                other_than(addr@),
            ),
    {
        self.inner.retain(|x| x.differs_from(addr))
    }

    /// Calls `SmallVec::retain` with `Multiaddr::is_not_among` as the test of what stays: every
    /// address of `gone` leaves the list, and the others stay in their order.
    #[verifier::external_body]
    pub(crate) fn retain_not_among(&mut self, gone: &[Multiaddr])
        ensures
            addr_list_contents(*final(self)) == addr_list_contents(*old(self)).filter(
                not_among(addr_views(gone@)),
            ),
    {
        self.inner.retain(|x| x.is_not_among(gone))
    }

    /// Calls `SmallVec::retain` with `reported_in` as the test of what stays: an address stays
    /// where some report of `reports` is of it, and the addresses that stay keep their order.
    #[verifier::external_body]
    pub(crate) fn retain_reported(&mut self, reports: &[(ListenerId, Multiaddr)])
        ensures
            addr_list_contents(*final(self)) == addr_list_contents(*old(self)).filter(
                reported(report_views(reports@)),
            ),
    {
        self.inner.retain(|x| reported_in(x, reports))
    }
}

} // verus!
