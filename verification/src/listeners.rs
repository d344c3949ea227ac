//! Managing listening on several multiaddresses at once.
use vstd::prelude::*;

use crate::addr_list::{addr_list_contents, addr_list_room, AddrList};
use crate::address::{addr_views, Multiaddr};
use crate::model::{
    addresses_after, by_other_than, has_room_for, lemma_one_event, listening_after,
    of_other_than, reported, reports_after,
};
use crate::transport::{
    event_listener_id, listener_removed, listener_started, ListenerEvent, ListenerId, Transport,
    TransportError,
};

verus! {

/// Listens on multiaddresses through one transport.
///
/// Create one with [`ListenersStream::new`], then call [`ListenersStream::listen_on`] for each
/// address to listen on. Each event that the transport reports about its listeners goes
/// through [`ListenersStream::poll`], which keeps the list of addresses being listened on and
/// answers with the event for the user. The stream never ends and never fails: a listener
/// that errors or closes yields an event, and the stream goes on; a closed listener is dropped,
/// and so are the addresses that no other listener listens on.
pub struct ListenersStream<TTrans: Transport> {
    /// Transport used to start listeners.
    transport: TTrans,
    /// The id that the next listener gets.
    next_id: ListenerId,
    /// Addresses that the listeners listen on.
    addresses: AddrList,
    /// Which listener listens on which address, as the transport reported.
    reports: Vec<(ListenerId, Multiaddr)>,
    /// Every id handed out so far.
    issued: Ghost<Set<u64>>,
    /// Every event of the transport taken in so far.
    history: Ghost<Seq<ListenerEvent<TTrans::ListenerUpgrade, TTrans::Error>>>,
}

/// An event of a [`ListenersStream`].
pub enum ListenersEvent<TTrans: Transport> {
    /// A new address is being listened on.
    NewAddress {
        /// The listener that listens on the new address.
        listener_id: ListenerId,
        /// The new address.
        listen_addr: Multiaddr,
    },
    /// An address is no longer being listened on.
    AddressExpired {
        /// The listener that no longer listens on the address.
        listener_id: ListenerId,
        /// The address.
        listen_addr: Multiaddr,
    },
    /// A connection is incoming on one of the listeners.
    Incoming {
        /// The listener that produced the upgrade.
        listener_id: ListenerId,
        /// The produced upgrade.
        upgrade: TTrans::ListenerUpgrade,
        /// Local connection address.
        local_addr: Multiaddr,
        /// Address used to send back data to the incoming client.
        send_back_addr: Multiaddr,
    },
    /// A listener closed.
    Closed {
        /// The id of the listener that closed.
        listener_id: ListenerId,
        /// The addresses that the listener was listening on.
        addresses: Vec<Multiaddr>,
        /// `Ok(())` where the listener ended, `Err` where it failed.
        reason: Result<(), TTrans::Error>,
    },
    /// A listener errored. The listener goes on; the event only informs.
    Error {
        /// The id of the listener that errored.
        listener_id: ListenerId,
        /// The error.
        error: TTrans::Error,
    },
}

/// The event that the stream reports for the event `event` of the transport.
pub open spec fn reported_event<TTrans: Transport>(
    event: ListenerEvent<TTrans::ListenerUpgrade, TTrans::Error>,
) -> ListenersEvent<TTrans> {
    match event {
        ListenerEvent::NewAddress { listener_id, address } => ListenersEvent::NewAddress {
            listener_id,
            listen_addr: address,
        },
        ListenerEvent::AddressExpired { listener_id, address } => ListenersEvent::AddressExpired {
            listener_id,
            listen_addr: address,
        },
        ListenerEvent::Upgrade { listener_id, upgrade, local_addr, remote_addr } =>
            ListenersEvent::Incoming {
            listener_id,
            upgrade,
            local_addr,
            send_back_addr: remote_addr,
        },
        ListenerEvent::Closed { listener_id, addresses, reason } => ListenersEvent::Closed {
            listener_id,
            addresses,
            reason,
        },
        ListenerEvent::Error { listener_id, error } => ListenersEvent::Error { listener_id, error },
    }
}

/// The reports of `reports`, each a listener and an address by its encoding.
pub open spec fn report_views(reports: Seq<(ListenerId, Multiaddr)>) -> Seq<(ListenerId, Seq<u8>)> {
    reports.map_values(|p: (ListenerId, Multiaddr)| (p.0, p.1@))
}

/// The invariant of a stream that lists `addrs`, knows the reports `reports`, took in the
/// events `history`, hands out `next_id` next and handed out `issued` so far: the addresses
/// and reports are what the history made of them, no address is listed twice, there are no
/// more addresses than the list has room for, and every id handed out lies below the next one.
pub open spec fn stream_invariant<TUpgr, TErr>(
    addrs: Seq<Seq<u8>>,
    reports: Seq<(ListenerId, Seq<u8>)>,
    history: Seq<ListenerEvent<TUpgr, TErr>>,
    next_id: u64,
    issued: Set<u64>,
) -> bool {
    &&& (addrs, reports) == listening_after(history)
    &&& addrs.no_duplicates()
    &&& reports.no_duplicates()
    &&& addrs.len() <= addr_list_room()
    &&& 1 <= next_id
    &&& forall|id: u64| #[trigger] issued.contains(id) ==> id < next_id
}

/// What `listen_on` returns for the listener `id` once the transport answered `res`.
pub open spec fn listen_on_result<E>(id: ListenerId, res: Result<(), TransportError<E>>) -> Result<
    ListenerId,
    TransportError<E>,
> {
    match res {
        Ok(()) => Ok(id),
        Err(e) => Err(e),
    }
}

/// The outcome of `listen_on` once the transport answered `res` for the listener `id`.
pub fn listen_on_outcome<E>(id: ListenerId, res: Result<(), TransportError<E>>) -> (r: Result<
    ListenerId,
    TransportError<E>,
>)
    ensures
        r == listen_on_result(id, res),
{
    match res {
        Ok(()) => Ok(id),
        Err(e) => Err(e),
    }
}

/// Whether `addr` is in `list`.
fn list_contains(list: &AddrList, addr: &Multiaddr) -> (r: bool)
    ensures
        r == addr_list_contents(*list).contains(addr@),
{
    let s = list.as_slice();
    let ghost contents = addr_list_contents(*list);
    let mut i: usize = 0;
    while i < s.len()
        invariant
            addr_views(s@) == contents,
            contents == addr_list_contents(*list),
            i <= s.len(),
            forall|j: int| 0 <= j < i ==> contents[j] != addr@,
        decreases s.len() - i,
    {
        assert(contents[i as int] == s@[i as int]@);
        if s[i].same_as(addr) {
            assert(contents.contains(addr@));
            return true;
        }
        i = i + 1;
    }
    assert forall|x: Seq<u8>| contents.contains(x) implies x != addr@ by {
        let j = choose|j: int| 0 <= j < contents.len() && contents[j] == x;
        assert(contents[j] != addr@);
    }
    false
}

/// Whether `reports` holds the report that listener `id` listens on `addr`.
fn reports_contain(reports: &Vec<(ListenerId, Multiaddr)>, id: ListenerId, addr: &Multiaddr) -> (r:
    bool)
    ensures
        r == report_views(reports@).contains((id, addr@)),
{
    let ghost views = report_views(reports@);
    let mut i: usize = 0;
    while i < reports.len()
        invariant
            views == report_views(reports@),
            i <= reports.len(),
            forall|j: int| 0 <= j < i ==> views[j] != (id, addr@),
        decreases reports.len() - i,
    {
        assert(views[i as int] == (reports@[i as int].0, reports@[i as int].1@));
        if reports[i].0 == id && reports[i].1.same_as(addr) {
            assert(views.contains((id, addr@)));
            return true;
        }
        i = i + 1;
    }
    assert forall|p: (ListenerId, Seq<u8>)| views.contains(p) implies p != (id, addr@) by {
        let j = choose|j: int| 0 <= j < views.len() && views[j] == p;
        assert(views[j] != (id, addr@));
    }
    false
}

/// Whether some report of `reports` is of `addr`.
pub(crate) fn reported_in(addr: &Multiaddr, reports: &[(ListenerId, Multiaddr)]) -> (r: bool)
    ensures
        r == reported(report_views(reports@))(addr@),
{
    let ghost views = report_views(reports@);
    let mut i: usize = 0;
    while i < reports.len()
        invariant
            views == report_views(reports@),
            i <= reports.len(),
            forall|j: int| 0 <= j < i ==> views[j].1 != addr@,
        decreases reports.len() - i,
    {
        assert(views[i as int] == (reports@[i as int].0, reports@[i as int].1@));
        if reports[i].1.same_as(addr) {
            assert(views.contains((reports@[i as int].0, addr@)));
            return true;
        }
        i = i + 1;
    }
    assert forall|id: ListenerId| !views.contains((id, addr@)) by {
        if views.contains((id, addr@)) {
            let j = choose|j: int| 0 <= j < views.len() && views[j] == (id, addr@);
            assert(views[j].1 != addr@);
        }
    }
    false
}

/// The reports of `reports`, in order, but for those of the listener `drop_listener` or those
/// of the address `drop_addr`, whichever is given.
fn keep_reports(
    reports: &Vec<(ListenerId, Multiaddr)>,
    drop_listener: Option<ListenerId>,
    drop_addr: Option<&Multiaddr>,
) -> (r: Vec<(ListenerId, Multiaddr)>)
    requires
        drop_listener is Some != drop_addr is Some,
    ensures
        report_views(r@) == report_views(reports@).filter(
            match drop_listener {
                Some(id) => by_other_than(id),
                None => of_other_than(drop_addr->0@),
            },
        ),
{
    let ghost views = report_views(reports@);
    let ghost keep = match drop_listener {
        Some(id) => by_other_than(id),
        None => of_other_than(drop_addr->0@),
    };
    let mut out: Vec<(ListenerId, Multiaddr)> = Vec::new();
    let mut i: usize = 0;
    assert(views.take(0) =~= Seq::<(ListenerId, Seq<u8>)>::empty());
    reveal(Seq::filter);
    assert(report_views(out@) =~= views.take(0).filter(keep));
    while i < reports.len()
        invariant
            views == report_views(reports@),
            i <= reports.len(),
            drop_listener is Some != drop_addr is Some,
            keep == (match drop_listener {
                Some(id) => by_other_than(id),
                None => of_other_than(drop_addr->0@),
            }),
            report_views(out@) == views.take(i as int).filter(keep),
        decreases reports.len() - i,
    {
        let id = reports[i].0;
        let passes = match drop_listener {
            Some(gone) => id != gone,
            None => match drop_addr {
                Some(a) => reports[i].1.differs_from(a),
                None => true,
            },
        };
        let ghost item = views[i as int];
        assert(item == (reports@[i as int].0, reports@[i as int].1@));
        assert(views.take(i + 1) =~= views.take(i as int).push(item));
        proof {
            views.take(i as int).lemma_filter_push(item, keep);
        }
        assert(passes == keep(item));
        if passes {
            let copy = (id, reports[i].1.duplicate());
            let ghost before = out@;
            out.push(copy);
            assert(report_views(out@) =~= report_views(before).push(item));
        }
        i = i + 1;
    }
    assert(views.take(reports.len() as int) =~= views);
    out
}

impl<TTrans: Transport> ListenersStream<TTrans> {
    /// The transport.
    pub closed spec fn transport_view(&self) -> TTrans {
        self.transport
    }

    /// The id that the next listener gets.
    pub closed spec fn next_id(&self) -> u64 {
        self.next_id.0
    }

    /// The addresses being listened on, in the order in which they were listed.
    pub closed spec fn addrs(&self) -> Seq<Seq<u8>> {
        addr_list_contents(self.addresses)
    }

    /// Which listener listens on which address, as the transport reported.
    pub closed spec fn reports(&self) -> Seq<(ListenerId, Seq<u8>)> {
        report_views(self.reports@)
    }

    /// Every listener id handed out so far.
    pub closed spec fn issued(&self) -> Set<u64> {
        self.issued@
    }

    /// Every event of the transport taken in so far, in order.
    pub closed spec fn history(&self) -> Seq<ListenerEvent<TTrans::ListenerUpgrade, TTrans::Error>> {
        self.history@
    }

    /// The stream's invariant: see [`stream_invariant`].
    pub open spec fn wf(&self) -> bool {
        stream_invariant(self.addrs(), self.reports(), self.history(), self.next_id(), self.issued())
    }

    /// Starts a new stream of listeners over `transport`.
    pub fn new(transport: TTrans) -> (r: Self)
        ensures
            r.wf(),
            r.transport_view() == transport,
            r.next_id() == 1,
            r.addrs() == Seq::<Seq<u8>>::empty(),
            r.reports() == Seq::<(ListenerId, Seq<u8>)>::empty(),
            r.history() == Seq::<ListenerEvent<TTrans::ListenerUpgrade, TTrans::Error>>::empty(),
            r.issued() == Set::<u64>::empty(),
    {
        let r = ListenersStream {
            transport,
            next_id: ListenerId::new(1),
            addresses: AddrList::new(),
            reports: Vec::new(),
            issued: Ghost(Set::empty()),
            history: Ghost(Seq::empty()),
        };
        assert(r.reports() =~= Seq::<(ListenerId, Seq<u8>)>::empty());
        r
    }

    /// Starts listening on `addr`, under the next listener id: the transport is asked once to
    /// listen on `addr` with that id.
    ///
    /// The id is used up whether or not the transport accepts the address. Returns the id, or
    /// the error of the transport, for instance where it does not support the address.
    pub fn listen_on(&mut self, addr: Multiaddr) -> (r: Result<
        ListenerId,
        TransportError<TTrans::Error>,
    >)
        requires
            old(self).wf(),
            old(self).next_id() < u64::MAX,
        ensures
            final(self).wf(),
            listener_started(
                &old(self).transport_view(),
                &final(self).transport_view(),
                ListenerId(old(self).next_id()),
                addr@,
                final(self).transport_view().listen_requests().last().2,
            ),
            r == listen_on_result(
                ListenerId(old(self).next_id()),
                final(self).transport_view().listen_requests().last().2,
            ),
            final(self).next_id() == old(self).next_id() + 1,
            final(self).addrs() == old(self).addrs(),
            final(self).reports() == old(self).reports(),
            final(self).history() == old(self).history(),
            final(self).issued() == old(self).issued().insert(old(self).next_id()),
            !old(self).issued().contains(old(self).next_id()),
    {
        let id = self.next_id;
        let ghost issued = self.issued@.insert(id.0);
        assert forall|n: u64| #[trigger] issued.contains(n) implies n < id.0 + 1 by {
            if n != id.0 {
                assert(old(self).issued().contains(n));
            }
        }
        self.next_id = ListenerId::new(id.get() + 1);
        proof {
            self.issued = Ghost(issued);
        }
        let res = self.transport.listen_on(id, addr);
        listen_on_outcome(id, res)
    }

    /// Removes the listener with id `id`: `true` where there was such a listener; afterwards
    /// the transport has none with that id.
    ///
    /// The addresses of the listener stay listed until the transport reports the listener
    /// closed or the addresses expired.
    pub fn remove_listener(&mut self, id: ListenerId) -> (r: bool)
        requires
            old(self).wf(),
        ensures
            final(self).wf(),
            listener_removed(&old(self).transport_view(), &final(self).transport_view(), id, r),
            final(self).next_id() == old(self).next_id(),
            final(self).addrs() == old(self).addrs(),
            final(self).reports() == old(self).reports(),
            final(self).history() == old(self).history(),
            final(self).issued() == old(self).issued(),
    {
        self.transport.remove_listener(id)
    }

    /// The transport passed when building this object.
    pub fn transport(&mut self) -> (r: &mut TTrans)
        ensures
            *r == old(self).transport_view(),
            final(self).transport_view() == *final(r),
            old(self).wf() ==> final(self).wf(),
            final(self).next_id() == old(self).next_id(),
            final(self).addrs() == old(self).addrs(),
            final(self).reports() == old(self).reports(),
            final(self).history() == old(self).history(),
            final(self).issued() == old(self).issued(),
    {
        &mut self.transport
    }

    /// The transport, to read.
    pub fn transport_ref(&self) -> (r: &TTrans)
        ensures
            *r == self.transport_view(),
    {
        &self.transport
    }

    /// The id that the next listener gets.
    pub fn next_listener_id(&self) -> (r: ListenerId)
        ensures
            r.0 == self.next_id(),
    {
        self.next_id
    }

    /// How many addresses the list may hold: [`ListenersStream::poll`] takes in a new address
    /// only where the list is shorter, since listing one more cannot then overflow the list's
    /// storage.
    pub fn listen_addrs_room() -> (r: usize)
        ensures
            r == addr_list_room(),
    {
        (isize::MAX as usize) / 64
    }

    /// The addresses being listened on, in the order in which they were listed.
    pub fn listen_addrs(&self) -> (r: &[Multiaddr])
        ensures
            addr_views(r@) == self.addrs(),
    {
        self.addresses.as_slice()
    }

    /// Takes in the event `event` that the transport reported, updates the addresses being
    /// listened on, and returns the event for the user.
    ///
    /// A new address is listed unless it is listed already; an expired address is taken off
    /// the list; a closed listener is dropped, and with it the addresses that no other listener
    /// reported. Every other event leaves the list as it is.
    pub fn poll(&mut self, event: ListenerEvent<TTrans::ListenerUpgrade, TTrans::Error>) -> (r:
        ListenersEvent<TTrans>)
        requires
            old(self).wf(),
            has_room_for(old(self).addrs(), event),
        ensures
            final(self).wf(),
            r == reported_event::<TTrans>(event),
            final(self).addrs() == addresses_after(old(self).addrs(), old(self).reports(), event),
            final(self).reports() == reports_after(old(self).reports(), event),
            final(self).history() == old(self).history().push(event),
            final(self).next_id() == old(self).next_id(),
            final(self).issued() == old(self).issued(),
            final(self).transport_view() == old(self).transport_view(),
    {
        proof {
            lemma_stream_step(old(self).history(), event);
            self.history = Ghost(self.history@.push(event));
        }
        match event {
            ListenerEvent::Upgrade { upgrade, local_addr, remote_addr, listener_id } => {
                ListenersEvent::Incoming {
                    listener_id,
                    upgrade,
                    local_addr,
                    send_back_addr: remote_addr,
                }
            },
            ListenerEvent::NewAddress { address, listener_id } => {
                if !list_contains(&self.addresses, &address) {
                    self.addresses.push(address.duplicate());
                }
                if !reports_contain(&self.reports, listener_id, &address) {
                    let ghost before = self.reports@;
                    self.reports.push((listener_id, address.duplicate()));
                    assert(report_views(self.reports@) =~= report_views(before).push(
                        (listener_id, address@),
                    ));
                }
                ListenersEvent::NewAddress { listener_id, listen_addr: address }
            },
            ListenerEvent::AddressExpired { address, listener_id } => {
                self.addresses.retain_other_than(&address);
                self.reports = keep_reports(&self.reports, None, Some(&address));
                ListenersEvent::AddressExpired { listener_id, listen_addr: address }
            },
            ListenerEvent::Closed { listener_id, addresses, reason } => {
                self.reports = keep_reports(&self.reports, Some(listener_id), None);
                self.addresses.retain_reported(self.reports.as_slice());
                ListenersEvent::Closed { listener_id, addresses, reason }
            },
            ListenerEvent::Error { listener_id, error } => {
                ListenersEvent::Error { listener_id, error }
            },
        }
    }
}

/// One more event keeps the stream's picture of its listeners what the history makes of it:
/// without duplicates, and within room where the event has room.
proof fn lemma_stream_step<TUpgr, TErr>(
    history: Seq<ListenerEvent<TUpgr, TErr>>,
    event: ListenerEvent<TUpgr, TErr>,
)
    ensures
        ({
            let before = listening_after(history);
            let after = listening_after(history.push(event));
            &&& after == (addresses_after(before.0, before.1, event), reports_after(before.1, event))
            &&& after.0.no_duplicates()
            &&& after.1.no_duplicates()
            &&& !(event is NewAddress) ==> after.0.len() <= before.0.len()
        }),
{
    assert(history.push(event).drop_last() =~= history);
    crate::model::lemma_listening_follows_history(history);
    let before = listening_after(history);
    lemma_one_event(before.0, before.1, event);
}

/// The id of the listener that an event of the stream is about.
pub open spec fn reported_listener_id<TTrans: Transport>(event: ListenersEvent<TTrans>) -> ListenerId {
    match event {
        ListenersEvent::NewAddress { listener_id, .. } => listener_id,
        ListenersEvent::AddressExpired { listener_id, .. } => listener_id,
        ListenersEvent::Incoming { listener_id, .. } => listener_id,
        ListenersEvent::Closed { listener_id, .. } => listener_id,
        ListenersEvent::Error { listener_id, .. } => listener_id,
    }
}

/// The event that the stream reports is about the listener that the transport named.
pub proof fn lemma_reported_event_keeps_listener<TTrans: Transport>(
    event: ListenerEvent<TTrans::ListenerUpgrade, TTrans::Error>,
)
    ensures
        reported_listener_id::<TTrans>(reported_event::<TTrans>(event)) == event_listener_id(
            event,
        ),
{
}

/// The listener that an event of the stream is about is the one the event names.
pub proof fn lemma_reported_listener_id_is_named<TTrans: Transport>(event: ListenersEvent<TTrans>)
    ensures
        event matches ListenersEvent::NewAddress { listener_id, .. } ==> reported_listener_id(
            event,
        ) == listener_id,
        event matches ListenersEvent::AddressExpired { listener_id, .. } ==> reported_listener_id(
            event,
        ) == listener_id,
        event matches ListenersEvent::Incoming { listener_id, .. } ==> reported_listener_id(
            event,
        ) == listener_id,
        event matches ListenersEvent::Closed { listener_id, .. } ==> reported_listener_id(event)
            == listener_id,
        event matches ListenersEvent::Error { listener_id, .. } ==> reported_listener_id(event)
            == listener_id,
{
}

/// The event that the stream reports carries what the transport reported, unchanged: a new
/// or expired address is reported as such with that address; an upgrade becomes an incoming
/// connection with the same upgrade, its local address as the local address and its remote
/// address as the address to send back to; a closed listener is reported closed with the same
/// addresses and the same reason, so a failure stays a failure; an error stays that error.
pub proof fn lemma_reported_event_keeps_fields<TTrans: Transport>(
    event: ListenerEvent<TTrans::ListenerUpgrade, TTrans::Error>,
)
    ensures
        ({
            let r = reported_event::<TTrans>(event);
            &&& event is NewAddress <==> r is NewAddress
            &&& event is AddressExpired <==> r is AddressExpired
            &&& event is Upgrade <==> r is Incoming
            &&& event is Closed <==> r is Closed
            &&& event is Error <==> r is Error
            &&& event matches ListenerEvent::NewAddress { address, .. } ==> (
            r matches ListenersEvent::NewAddress { listen_addr, .. } && listen_addr == address)
            &&& event matches ListenerEvent::AddressExpired { address, .. } ==> (
            r matches ListenersEvent::AddressExpired { listen_addr, .. } && listen_addr == address)
            &&& event matches ListenerEvent::Upgrade { upgrade, local_addr, remote_addr, .. } ==> (
            r matches ListenersEvent::Incoming { upgrade: u2, local_addr: l2, send_back_addr, .. }
                && u2 == upgrade && l2 == local_addr && send_back_addr == remote_addr)
            &&& event matches ListenerEvent::Closed { addresses, reason, .. } ==> (
            r matches ListenersEvent::Closed { addresses: a2, reason: reason2, .. } && a2
                == addresses && reason2 == reason)
            &&& event matches ListenerEvent::Error { error, .. } ==> (
            r matches ListenersEvent::Error { error: e2, .. } && e2 == error)
        }),
{
}

/// What `listen_on` returns follows the transport's answer: the id handed to the transport
/// where it accepted, its error, unchanged, where it refused.
pub proof fn lemma_listen_on_result_follows_transport<E>(
    id: ListenerId,
    res: Result<(), TransportError<E>>,
)
    ensures
        (listen_on_result(id, res) is Ok) == (res is Ok),
        listen_on_result(id, res) matches Ok(given) ==> given == id,
        res matches Err(e) ==> (listen_on_result(id, res) matches Err(e2) && e2 == e),
{
}

} // verus!
