use vstd::prelude::*;

use crate::address::Multiaddr;

verus! {

/// The id of a listener of a transport.
#[derive(Debug, Clone, Copy, PartialEq, Eq, Structural, PartialOrd, Ord, Hash)]
pub struct ListenerId(pub u64);

impl ListenerId {
    /// The number that the id stands for.
    pub open spec fn id(self) -> u64 {
        self.0
    }

    /// Builds the id `raw`.
    pub fn new(raw: u64) -> (r: ListenerId)
        ensures
            r.id() == raw,
    {
        ListenerId(raw)
    }

    /// The number that the id stands for.
    pub fn get(&self) -> (r: u64)
        ensures
            r == self.id(),
    {
        self.0
    }
}

/// An event that a transport reports about one of its listeners.
pub enum ListenerEvent<TUpgr, TErr> {
    /// The listener listens on a new address.
    NewAddress {
        /// The listener that listens on the address.
        listener_id: ListenerId,
        /// The address.
        address: Multiaddr,
    },
    /// A connection came in on the listener.
    Upgrade {
        /// The listener that produced the upgrade.
        listener_id: ListenerId,
        /// The upgrade that leads to the connection.
        upgrade: TUpgr,
        /// The local address of the connection.
        local_addr: Multiaddr,
        /// The address of the remote end of the connection.
        remote_addr: Multiaddr,
    },
    /// The listener no longer listens on an address.
    AddressExpired {
        /// The listener that listened on the address.
        listener_id: ListenerId,
        /// The address.
        address: Multiaddr,
    },
    /// The listener closed.
    Closed {
        /// The listener that closed.
        listener_id: ListenerId,
        /// The addresses that the listener listened on.
        addresses: Vec<Multiaddr>,
        /// `Ok(())` where the listener ended, `Err` where it failed.
        reason: Result<(), TErr>,
    },
    /// The listener met an error that does not end it.
    Error {
        /// The listener.
        listener_id: ListenerId,
        /// The error.
        error: TErr,
    },
}

/// The id of the listener that an event is about.
pub open spec fn event_listener_id<TUpgr, TErr>(event: ListenerEvent<TUpgr, TErr>) -> ListenerId {
    match event {
        ListenerEvent::NewAddress { listener_id, .. } => listener_id,
        ListenerEvent::Upgrade { listener_id, .. } => listener_id,
        ListenerEvent::AddressExpired { listener_id, .. } => listener_id,
        ListenerEvent::Closed { listener_id, .. } => listener_id,
        ListenerEvent::Error { listener_id, .. } => listener_id,
    }
}

impl<TUpgr, TErr> ListenerEvent<TUpgr, TErr> {
    /// Whether `r` is this event with its upgrade, if it has one, turned into one that `f` may
    /// return for it, and all else kept.
    pub open spec fn upgrade_mapped_to<U, F: FnOnce(TUpgr) -> U>(
        self,
        f: F,
        r: ListenerEvent<U, TErr>,
    ) -> bool {
        match self {
            ListenerEvent::NewAddress { listener_id, address } => r == ListenerEvent::<
                U,
                TErr,
            >::NewAddress { listener_id, address },
            ListenerEvent::Upgrade { listener_id, upgrade, local_addr, remote_addr } => match r {
                ListenerEvent::Upgrade {
                    listener_id: id2,
                    upgrade: upgrade2,
                    local_addr: local2,
                    remote_addr: remote2,
                } => id2 == listener_id && local2 == local_addr && remote2 == remote_addr
                    && f.ensures((upgrade,), upgrade2),
                _ => false,
            },
            ListenerEvent::AddressExpired { listener_id, address } => r == ListenerEvent::<
                U,
                TErr,
            >::AddressExpired { listener_id, address },
            ListenerEvent::Closed { listener_id, addresses, reason } => r == ListenerEvent::<
                U,
                TErr,
            >::Closed { listener_id, addresses, reason },
            ListenerEvent::Error { listener_id, error } => r == ListenerEvent::<U, TErr>::Error {
                listener_id,
                error,
            },
        }
    }

    /// Whether `r` is this event with its error, if it has one, turned into one that `f` may
    /// return for it, and all else kept.
    pub open spec fn error_mapped_to<E, F: FnOnce(TErr) -> E>(
        self,
        f: F,
        r: ListenerEvent<TUpgr, E>,
    ) -> bool {
        match self {
            ListenerEvent::NewAddress { listener_id, address } => r == ListenerEvent::<
                TUpgr,
                E,
            >::NewAddress { listener_id, address },
            ListenerEvent::Upgrade { listener_id, upgrade, local_addr, remote_addr } => r
                == ListenerEvent::<TUpgr, E>::Upgrade {
                listener_id,
                upgrade,
                local_addr,
                remote_addr,
            },
            ListenerEvent::AddressExpired { listener_id, address } => r == ListenerEvent::<
                TUpgr,
                E,
            >::AddressExpired { listener_id, address },
            ListenerEvent::Closed { listener_id, addresses, reason } => match r {
                ListenerEvent::Closed { listener_id: id2, addresses: addresses2, reason: reason2 } =>
                    id2 == listener_id && addresses2 == addresses && match reason {
                    Ok(()) => reason2 == Ok::<(), E>(()),
                    Err(e) => match reason2 {
                        Err(e2) => f.ensures((e,), e2),
                        Ok(()) => false,
                    },
                },
                _ => false,
            },
            ListenerEvent::Error { listener_id, error } => match r {
                ListenerEvent::Error { listener_id: id2, error: error2 } => id2 == listener_id
                    && f.ensures((error,), error2),
                _ => false,
            },
        }
    }

    /// Turns the upgrade of the event, if it has one, into another with `f`.
    pub fn map<U, F: FnOnce(TUpgr) -> U>(self, f: F) -> (r: ListenerEvent<U, TErr>)
        requires
            forall|u: TUpgr| f.requires((u,)),
        ensures
            self.upgrade_mapped_to(f, r),
    {
        match self {
            ListenerEvent::NewAddress { listener_id, address } => ListenerEvent::NewAddress {
                listener_id,
                address,
            },
            ListenerEvent::Upgrade { listener_id, upgrade, local_addr, remote_addr } =>
                ListenerEvent::Upgrade { listener_id, upgrade: f(upgrade), local_addr, remote_addr },
            ListenerEvent::AddressExpired { listener_id, address } =>
                ListenerEvent::AddressExpired { listener_id, address },
            ListenerEvent::Closed { listener_id, addresses, reason } => ListenerEvent::Closed {
                listener_id,
                addresses,
                reason,
            },
            ListenerEvent::Error { listener_id, error } => ListenerEvent::Error {
                listener_id,
                error,
            },
        }
    }

    /// Turns the error of the event, if it has one, into another with `f`.
    pub fn map_err<E, F: FnOnce(TErr) -> E>(self, f: F) -> (r: ListenerEvent<TUpgr, E>)
        requires
            forall|e: TErr| f.requires((e,)),
        ensures
            self.error_mapped_to(f, r),
    {
        match self {
            ListenerEvent::NewAddress { listener_id, address } => ListenerEvent::NewAddress {
                listener_id,
                address,
            },
            ListenerEvent::Upgrade { listener_id, upgrade, local_addr, remote_addr } =>
                ListenerEvent::Upgrade { listener_id, upgrade, local_addr, remote_addr },
            ListenerEvent::AddressExpired { listener_id, address } =>
                ListenerEvent::AddressExpired { listener_id, address },
            ListenerEvent::Closed { listener_id, addresses, reason } => {
                let reason = match reason {
                    Ok(()) => Ok(()),
                    Err(e) => Err(f(e)),
                };
                ListenerEvent::Closed { listener_id, addresses, reason }
            },
            ListenerEvent::Error { listener_id, error } => ListenerEvent::Error {
                listener_id,
                error: f(error),
            },
        }
    }
}

/// Turning the upgrade of an event into another keeps everything else: the kind of event, the
/// listener, the addresses, and the reason of a closed listener or the error of an erring one;
/// the upgrade of an incoming connection becomes what `f` gives for it, between the same local
/// and remote addresses.
pub proof fn lemma_map_keeps_all_but_the_upgrade<TUpgr, TErr, U, F: FnOnce(TUpgr) -> U>(
    event: ListenerEvent<TUpgr, TErr>,
    f: F,
    r: ListenerEvent<U, TErr>,
)
    requires
        event.upgrade_mapped_to(f, r),
    ensures
        event_listener_id(r) == event_listener_id(event),
        event is NewAddress <==> r is NewAddress,
        event is Upgrade <==> r is Upgrade,
        event is AddressExpired <==> r is AddressExpired,
        event is Closed <==> r is Closed,
        event is Error <==> r is Error,
        event matches ListenerEvent::NewAddress { address, .. } ==> (r matches ListenerEvent::NewAddress {
            address: a2,
            ..
        } && a2 == address),
        event matches ListenerEvent::AddressExpired { address, .. } ==> (
        r matches ListenerEvent::AddressExpired { address: a2, .. } && a2 == address),
        event matches ListenerEvent::Upgrade { upgrade, local_addr, remote_addr, .. } ==> (
        r matches ListenerEvent::Upgrade { upgrade: u2, local_addr: l2, remote_addr: r2, .. }
            && l2 == local_addr && r2 == remote_addr && f.ensures((upgrade,), u2)),
        event matches ListenerEvent::Closed { addresses, reason, .. } ==> (
        r matches ListenerEvent::Closed { addresses: a2, reason: reason2, .. } && a2 == addresses
            && reason2 == reason),
        event matches ListenerEvent::Error { error, .. } ==> (r matches ListenerEvent::Error {
            error: e2,
            ..
        } && e2 == error),
{
}

/// Turning the error of an event into another keeps everything else: the kind of event, the
/// listener, the addresses and the upgrade of an incoming connection, and whether a closed
/// listener ended or failed; an error becomes what `f` gives for it.
pub proof fn lemma_map_err_keeps_all_but_the_error<TUpgr, TErr, E, F: FnOnce(TErr) -> E>(
    event: ListenerEvent<TUpgr, TErr>,
    f: F,
    r: ListenerEvent<TUpgr, E>,
)
    requires
        event.error_mapped_to(f, r),
    ensures
        event_listener_id(r) == event_listener_id(event),
        event is NewAddress <==> r is NewAddress,
        event is Upgrade <==> r is Upgrade,
        event is AddressExpired <==> r is AddressExpired,
        event is Closed <==> r is Closed,
        event is Error <==> r is Error,
        event matches ListenerEvent::NewAddress { address, .. } ==> (r matches ListenerEvent::NewAddress {
            address: a2,
            ..
        } && a2 == address),
        event matches ListenerEvent::AddressExpired { address, .. } ==> (
        r matches ListenerEvent::AddressExpired { address: a2, .. } && a2 == address),
        event matches ListenerEvent::Upgrade { upgrade, local_addr, remote_addr, .. } ==> (
        r matches ListenerEvent::Upgrade { upgrade: u2, local_addr: l2, remote_addr: r2, .. }
            && u2 == upgrade && l2 == local_addr && r2 == remote_addr),
        event matches ListenerEvent::Closed { addresses, reason, .. } ==> (
        r matches ListenerEvent::Closed { addresses: a2, reason: reason2, .. } && a2 == addresses
            && (reason is Ok <==> reason2 is Ok) && (reason matches Err(e) ==> (
        reason2 matches Err(e2) && f.ensures((e,), e2)))),
        event matches ListenerEvent::Error { error, .. } ==> (r matches ListenerEvent::Error {
            error: e2,
            ..
        } && f.ensures((error,), e2)),
{
}

/// The listener that an event is about is the one the event names.
pub proof fn lemma_event_listener_id_is_named<TUpgr, TErr>(event: ListenerEvent<TUpgr, TErr>)
    ensures
        event matches ListenerEvent::NewAddress { listener_id, .. } ==> event_listener_id(event)
            == listener_id,
        event matches ListenerEvent::Upgrade { listener_id, .. } ==> event_listener_id(event)
            == listener_id,
        event matches ListenerEvent::AddressExpired { listener_id, .. } ==> event_listener_id(
            event,
        ) == listener_id,
        event matches ListenerEvent::Closed { listener_id, .. } ==> event_listener_id(event)
            == listener_id,
        event matches ListenerEvent::Error { listener_id, .. } ==> event_listener_id(event)
            == listener_id,
{
}

/// An error that a transport returns where it cannot listen or dial.
pub enum TransportError<TErr> {
    /// The transport does not support the address.
    MultiaddrNotSupported(Multiaddr),
    /// Another error.
    Other(TErr),
}

impl<TErr> TransportError<TErr> {
    /// Turns the error, where it is another than an unsupported address, into another with `f`.
    pub fn map<E, F: FnOnce(TErr) -> E>(self, f: F) -> (r: TransportError<E>)
        requires
            forall|e: TErr| f.requires((e,)),
        ensures
            match self {
                TransportError::MultiaddrNotSupported(addr) => r
                    == TransportError::<E>::MultiaddrNotSupported(addr),
                TransportError::Other(e) => match r {
                    TransportError::Other(e2) => f.ensures((e,), e2),
                    TransportError::MultiaddrNotSupported(_) => false,
                },
            },
    {
        match self {
            TransportError::MultiaddrNotSupported(addr) => TransportError::MultiaddrNotSupported(
                addr,
            ),
            TransportError::Other(e) => TransportError::Other(f(e)),
        }
    }
}

/// Whether the transport `after` is `before` once asked to start a listener with id `id` on
/// `addr`, answering `res`: the request and the answer are recorded, the listener exists where
/// the transport accepted, and every other listener is as it was.
pub open spec fn listener_started<T: Transport + ?Sized>(
    before: &T,
    after: &T,
    id: ListenerId,
    addr: Seq<u8>,
    res: Result<(), TransportError<T::Error>>,
) -> bool {
    &&& after.listen_requests() == before.listen_requests().push((id, addr, res))
    &&& res is Ok ==> after.has_listener(id)
    &&& res is Err ==> after.has_listener(id) == before.has_listener(id)
    &&& forall|j: ListenerId| j != id ==> #[trigger] after.has_listener(j) == before.has_listener(j)
}

/// Whether the transport `after` is `before` once asked to remove the listener with id `id`,
/// answering `answer`: the answer is whether there was such a listener, there is none
/// afterwards, every other listener is as it was, and no request to listen is added.
pub open spec fn listener_removed<T: Transport + ?Sized>(
    before: &T,
    after: &T,
    id: ListenerId,
    answer: bool,
) -> bool {
    &&& answer == before.has_listener(id)
    &&& !after.has_listener(id)
    &&& forall|j: ListenerId| j != id ==> #[trigger] after.has_listener(j) == before.has_listener(j)
    &&& after.listen_requests() == before.listen_requests()
}

/// Removing a listener touches no other listener: each other id names a listener afterwards
/// exactly when it did before, and the removed one names none.
pub proof fn lemma_removal_keeps_other_listeners<T: Transport + ?Sized>(
    before: &T,
    after: &T,
    id: ListenerId,
    answer: bool,
    other: ListenerId,
)
    requires
        listener_removed(before, after, id, answer),
        other != id,
    ensures
        after.has_listener(other) == before.has_listener(other),
        !after.has_listener(id),
{
}

/// A listener is removed once: asked again right away, the transport answers `false`.
pub proof fn lemma_second_removal_answers_false<T: Transport + ?Sized>(
    first: &T,
    second: &T,
    third: &T,
    id: ListenerId,
    answer1: bool,
    answer2: bool,
)
    requires
        listener_removed(first, second, id, answer1),
        listener_removed(second, third, id, answer2),
    ensures
        !answer2,
        answer1 == first.has_listener(id),
{
}

/// Asking to listen records one request, with the id and address given; where the transport
/// accepts, the listener exists afterwards; no other listener changes.
pub proof fn lemma_start_keeps_other_listeners<T: Transport + ?Sized>(
    before: &T,
    after: &T,
    id: ListenerId,
    addr: Seq<u8>,
    res: Result<(), TransportError<T::Error>>,
    other: ListenerId,
)
    requires
        listener_started(before, after, id, addr, res),
        other != id,
    ensures
        after.listen_requests().len() == before.listen_requests().len() + 1,
        after.listen_requests().last().0 == id,
        after.listen_requests().last().1 == addr,
        after.listen_requests().last().2 == res,
        res is Ok ==> after.has_listener(id),
        after.has_listener(other) == before.has_listener(other),
{
}

/// A transport: something that can listen on addresses and dial them.
///
/// The events of its listeners come out of the transport itself; how they are awaited is up to
/// whoever drives it.
pub trait Transport {
    /// What a connection produces once it is upgraded.
    type Output;
    /// The error that the transport produces.
    type Error;
    /// What turns an incoming connection into an output.
    type ListenerUpgrade;
    /// What turns a dialed connection into an output.
    type Dial;

    /// Every request to listen that the transport was given, in order: the id of the listener,
    /// the address to listen on, and the transport's answer. A transport that keeps no such
    /// record is taken to have been given none, and its `listen_on` cannot then meet its
    /// contract.
    open spec fn listen_requests(&self) -> Seq<
        (ListenerId, Seq<u8>, Result<(), TransportError<Self::Error>>),
    > {
        Seq::empty()
    }

    /// Whether the transport has a listener with id `id`. A transport that keeps no such record
    /// is taken to have none, and its `remove_listener` must then answer `false`.
    open spec fn has_listener(&self, id: ListenerId) -> bool {
        false
    }

    /// Starts a listener with id `id` on `addr`.
    fn listen_on(&mut self, id: ListenerId, addr: Multiaddr) -> (r: Result<(), TransportError<Self::Error>>)
        ensures
            final(self).listen_requests() == old(self).listen_requests().push((id, addr@, r)),
            r is Ok ==> final(self).has_listener(id),
            r is Err ==> final(self).has_listener(id) == old(self).has_listener(id),
            forall|j: ListenerId|
                j != id ==> #[trigger] final(self).has_listener(j) == old(self).has_listener(j),
    ;

    /// Stops the listener with id `id`; `true` where there was one. Afterwards there is none.
    fn remove_listener(&mut self, id: ListenerId) -> (r: bool)
        ensures
            r == old(self).has_listener(id),
            !final(self).has_listener(id),
            forall|j: ListenerId|
                j != id ==> #[trigger] final(self).has_listener(j) == old(self).has_listener(j),
            final(self).listen_requests() == old(self).listen_requests(),
    ;

    /// Dials `addr`.
    fn dial(&mut self, addr: Multiaddr) -> Result<Self::Dial, TransportError<Self::Error>>;

    /// Dials `addr`, taking the role of the listener in the upgrade.
    fn dial_as_listener(&mut self, addr: Multiaddr) -> Result<Self::Dial, TransportError<Self::Error>>;

    /// The address under which a remote peer may reach this node, given the address that this
    /// node listens on and the address that the peer observed.
    fn address_translation(&self, server: &Multiaddr, observed: &Multiaddr) -> Option<Multiaddr>;
}

} // verus!
