use libp2p_listeners::address::Multiaddr;
use libp2p_listeners::listeners::{listen_on_outcome, ListenersEvent, ListenersStream};
use libp2p_listeners::transport::{ListenerEvent, ListenerId, Transport, TransportError};

fn addr(text: &str) -> Multiaddr {
    let parsed: multiaddr::Multiaddr = text.parse().unwrap();
    Multiaddr::from_vec(parsed.to_vec())
}

/// A transport that listens on `/memory` addresses only and keeps its listeners in a list.
struct MemoryOnly {
    listeners: Vec<(ListenerId, Multiaddr)>,
    memory_prefix: Vec<u8>,
}

impl MemoryOnly {
    fn new() -> Self {
        let memory = addr("/memory/0");
        MemoryOnly { listeners: Vec::new(), memory_prefix: memory.to_vec()[..2].to_vec() }
    }
}

impl Transport for MemoryOnly {
    type Output = ();
    type Error = String;
    type ListenerUpgrade = u32;
    type Dial = ();

    fn listen_on(&mut self, id: ListenerId, addr: Multiaddr) -> Result<(), TransportError<String>> {
        if addr.as_bytes().starts_with(&self.memory_prefix) {
            self.listeners.push((id, addr));
            Ok(())
        } else {
            Err(TransportError::MultiaddrNotSupported(addr))
        }
    }

    fn remove_listener(&mut self, id: ListenerId) -> bool {
        let before = self.listeners.len();
        self.listeners.retain(|(l, _)| *l != id);
        self.listeners.len() != before
    }

    fn dial(&mut self, addr: Multiaddr) -> Result<(), TransportError<String>> {
        Err(TransportError::MultiaddrNotSupported(addr))
    }

    fn dial_as_listener(&mut self, addr: Multiaddr) -> Result<(), TransportError<String>> {
        Err(TransportError::MultiaddrNotSupported(addr))
    }

    fn address_translation(&self, _: &Multiaddr, _: &Multiaddr) -> Option<Multiaddr> {
        None
    }
}

type Event = ListenerEvent<u32, String>;

fn listed(stream: &ListenersStream<MemoryOnly>) -> Vec<Vec<u8>> {
    stream.listen_addrs().iter().map(|a| a.to_vec()).collect()
}

#[test]
fn new_stream_lists_no_address() {
    let stream = ListenersStream::new(MemoryOnly::new());
    assert!(stream.listen_addrs().is_empty());
}

#[test]
fn listen_on_hands_out_consecutive_ids() {
    let mut stream = ListenersStream::new(MemoryOnly::new());
    let first = stream.listen_on(addr("/memory/0")).ok().unwrap();
    let second = stream.listen_on(addr("/memory/1")).ok().unwrap();
    assert_eq!(first, ListenerId::new(1));
    assert_eq!(second, ListenerId::new(2));
    assert_eq!(second.get(), 2);
    assert_eq!(stream.transport().listeners.len(), 2);
    // Listening does not list an address by itself: the transport reports it.
    assert!(stream.listen_addrs().is_empty());
}

#[test]
fn listen_on_uses_up_the_id_when_the_transport_refuses() {
    let mut stream = ListenersStream::new(MemoryOnly::new());
    let tcp = addr("/ip4/127.0.0.1/tcp/0");
    match stream.listen_on(tcp.clone()) {
        Err(TransportError::MultiaddrNotSupported(a)) => assert!(a.same_as(&tcp)),
        _ => panic!("the transport should refuse a tcp address"),
    }
    let next = stream.listen_on(addr("/memory/0")).ok().unwrap();
    assert_eq!(next, ListenerId::new(2));
}

#[test]
fn listen_on_outcome_follows_the_transport() {
    let id = ListenerId::new(7);
    match listen_on_outcome::<String>(id, Ok(())) {
        Ok(got) => assert_eq!(got, id),
        Err(_) => panic!("an accepted listener gives its id"),
    }
    match listen_on_outcome::<String>(id, Err(TransportError::Other("busy".to_string()))) {
        Err(TransportError::Other(e)) => assert_eq!(e, "busy"),
        _ => panic!("a refusal passes the transport's error on"),
    }
}

#[test]
fn incoming_event() {
    let mut stream = ListenersStream::new(MemoryOnly::new());
    let id = stream.listen_on(addr("/memory/5")).ok().unwrap();
    let local = addr("/memory/5");
    let remote = addr("/memory/9");
    let event: Event = ListenerEvent::Upgrade {
        listener_id: id,
        upgrade: 42,
        local_addr: local.clone(),
        remote_addr: remote.clone(),
    };
    match stream.poll(event) {
        ListenersEvent::Incoming { listener_id, upgrade, local_addr, send_back_addr } => {
            assert_eq!(listener_id, id);
            assert_eq!(upgrade, 42);
            assert!(local_addr.same_as(&local));
            assert!(send_back_addr.same_as(&remote));
            assert!(!send_back_addr.same_as(&local));
        }
        _ => panic!("an upgrade is reported as an incoming connection"),
    }
    assert!(stream.listen_addrs().is_empty());
}

#[test]
fn new_address_is_listed_once() {
    let mut stream = ListenersStream::new(MemoryOnly::new());
    let a = addr("/memory/3");
    for _ in 0..3 {
        let event: Event = ListenerEvent::NewAddress { listener_id: ListenerId::new(1), address: a.clone() };
        match stream.poll(event) {
            ListenersEvent::NewAddress { listener_id, listen_addr } => {
                assert_eq!(listener_id, ListenerId::new(1));
                assert!(listen_addr.same_as(&a));
            }
            _ => panic!("a new address is reported as such"),
        }
    }
    assert_eq!(listed(&stream), vec![a.to_vec()]);
}

#[test]
fn expired_address_is_unlisted_and_order_is_kept() {
    let mut stream = ListenersStream::new(MemoryOnly::new());
    let (a, b, c) = (addr("/memory/1"), addr("/memory/2"), addr("/memory/3"));
    for x in [&a, &b, &c] {
        let event: Event = ListenerEvent::NewAddress { listener_id: ListenerId::new(1), address: x.clone() };
        stream.poll(event);
    }
    assert_eq!(listed(&stream), vec![a.to_vec(), b.to_vec(), c.to_vec()]);
    let event: Event = ListenerEvent::AddressExpired { listener_id: ListenerId::new(1), address: b.clone() };
    match stream.poll(event) {
        ListenersEvent::AddressExpired { listener_id, listen_addr } => {
            assert_eq!(listener_id, ListenerId::new(1));
            assert!(listen_addr.same_as(&b));
        }
        _ => panic!("an expired address is reported as such"),
    }
    assert_eq!(listed(&stream), vec![a.to_vec(), c.to_vec()]);
}

#[test]
fn expiry_undoes_a_new_address() {
    let mut stream = ListenersStream::new(MemoryOnly::new());
    let a = addr("/memory/1");
    let d = addr("/memory/4");
    stream.poll(ListenerEvent::<u32, String>::NewAddress { listener_id: ListenerId::new(1), address: a.clone() });
    let before = listed(&stream);
    stream.poll(ListenerEvent::<u32, String>::NewAddress { listener_id: ListenerId::new(2), address: d.clone() });
    stream.poll(ListenerEvent::<u32, String>::AddressExpired { listener_id: ListenerId::new(2), address: d });
    assert_eq!(listed(&stream), before);
}

#[test]
fn expiry_of_an_unlisted_address_changes_nothing() {
    let mut stream = ListenersStream::new(MemoryOnly::new());
    let a = addr("/memory/1");
    stream.poll(ListenerEvent::<u32, String>::NewAddress { listener_id: ListenerId::new(1), address: a.clone() });
    stream.poll(ListenerEvent::<u32, String>::AddressExpired {
        listener_id: ListenerId::new(1),
        address: addr("/memory/2"),
    });
    assert_eq!(listed(&stream), vec![a.to_vec()]);
}

#[test]
fn listener_event_error_isnt_fatal() {
    let mut stream = ListenersStream::new(MemoryOnly::new());
    let id = stream.listen_on(addr("/memory/0")).ok().unwrap();
    stream.poll(ListenerEvent::<u32, String>::NewAddress { listener_id: id, address: addr("/memory/0") });
    for n in 0..10 {
        let event: Event = ListenerEvent::Error { listener_id: id, error: format!("error {}", n) };
        match stream.poll(event) {
            ListenersEvent::Error { listener_id, error } => {
                assert_eq!(listener_id, id);
                assert_eq!(error, format!("error {}", n));
            }
            _ => panic!("an error of a listener is reported as an error"),
        }
    }
    assert_eq!(listed(&stream), vec![addr("/memory/0").to_vec()]);
    assert_eq!(stream.listen_on(addr("/memory/1")).ok().unwrap(), ListenerId::new(2));
}

#[test]
fn listener_error_is_reported_as_closed() {
    let mut stream = ListenersStream::new(MemoryOnly::new());
    let id = stream.listen_on(addr("/memory/0")).ok().unwrap();
    let event: Event =
        ListenerEvent::Closed { listener_id: id, addresses: Vec::new(), reason: Err("broken".to_string()) };
    match stream.poll(event) {
        ListenersEvent::Closed { listener_id, addresses, reason } => {
            assert_eq!(listener_id, id);
            assert!(addresses.is_empty());
            assert_eq!(reason, Err("broken".to_string()));
        }
        _ => panic!("a failed listener is reported closed"),
    }
}

#[test]
fn listener_closed() {
    let mut stream = ListenersStream::new(MemoryOnly::new());
    let id = stream.listen_on(addr("/memory/0")).ok().unwrap();
    let a = addr("/memory/0");
    stream.poll(ListenerEvent::<u32, String>::NewAddress { listener_id: id, address: a.clone() });
    assert!(stream.remove_listener(id));
    assert!(!stream.remove_listener(id));
    let event: Event = ListenerEvent::Closed { listener_id: id, addresses: vec![a.clone()], reason: Ok(()) };
    match stream.poll(event) {
        ListenersEvent::Closed { listener_id, addresses, reason } => {
            assert_eq!(listener_id, id);
            assert!(addresses.iter().any(|x| x.same_as(&a)));
            assert_eq!(reason, Ok(()));
        }
        _ => panic!("a closed listener is reported closed"),
    }
    // The closed listener is dropped, and so is the address it listened on.
    assert!(listed(&stream).is_empty());
}

#[test]
fn closed_listener_drops_only_its_addresses() {
    let mut stream = ListenersStream::new(MemoryOnly::new());
    let (a, b, c) = (addr("/memory/1"), addr("/memory/2"), addr("/memory/3"));
    let reports = [(1, &a), (2, &b), (1, &c), (2, &c)];
    for (id, x) in reports {
        stream.poll(ListenerEvent::<u32, String>::NewAddress { listener_id: ListenerId::new(id), address: x.clone() });
    }
    assert_eq!(listed(&stream), vec![a.to_vec(), b.to_vec(), c.to_vec()]);
    let event: Event = ListenerEvent::Closed {
        listener_id: ListenerId::new(1),
        addresses: vec![a.clone(), c.clone()],
        reason: Ok(()),
    };
    match stream.poll(event) {
        ListenersEvent::Closed { listener_id, addresses, .. } => {
            assert_eq!(listener_id, ListenerId::new(1));
            assert_eq!(addresses.len(), 2);
        }
        _ => panic!("a closed listener is reported closed"),
    }
    // `/memory/3` stays: listener 2 still listens on it.
    assert_eq!(listed(&stream), vec![b.to_vec(), c.to_vec()]);
    let event: Event = ListenerEvent::Closed { listener_id: ListenerId::new(2), addresses: Vec::new(), reason: Ok(()) };
    stream.poll(event);
    assert!(listed(&stream).is_empty());
}

#[test]
fn expired_address_goes_for_every_listener() {
    let mut stream = ListenersStream::new(MemoryOnly::new());
    let a = addr("/memory/1");
    for id in [1, 2] {
        stream.poll(ListenerEvent::<u32, String>::NewAddress { listener_id: ListenerId::new(id), address: a.clone() });
    }
    stream.poll(ListenerEvent::<u32, String>::AddressExpired { listener_id: ListenerId::new(1), address: a.clone() });
    assert!(listed(&stream).is_empty());
    // Listener 2's report went with the address: its closing drops nothing more.
    stream.poll(ListenerEvent::<u32, String>::NewAddress { listener_id: ListenerId::new(3), address: a.clone() });
    stream.poll(ListenerEvent::<u32, String>::Closed { listener_id: ListenerId::new(2), addresses: Vec::new(), reason: Ok(()) });
    assert_eq!(listed(&stream), vec![a.to_vec()]);
}

#[test]
fn next_listener_id_counts_up() {
    let mut stream = ListenersStream::new(MemoryOnly::new());
    assert_eq!(stream.next_listener_id(), ListenerId::new(1));
    let _ = stream.listen_on(addr("/ip4/127.0.0.1/tcp/0"));
    assert_eq!(stream.next_listener_id(), ListenerId::new(2));
}

#[test]
fn listen_on_hands_the_transport_the_id_it_returns() {
    let mut stream = ListenersStream::new(MemoryOnly::new());
    let first = stream.listen_on(addr("/memory/1")).ok().unwrap();
    let _ = stream.listen_on(addr("/ip4/127.0.0.1/tcp/0"));
    let third = stream.listen_on(addr("/memory/3")).ok().unwrap();
    let held: Vec<(ListenerId, Vec<u8>)> =
        stream.transport().listeners.iter().map(|(id, a)| (*id, a.to_vec())).collect();
    assert_eq!(held, vec![(first, addr("/memory/1").to_vec()), (third, addr("/memory/3").to_vec())]);
    assert_eq!(third, ListenerId::new(3));
}

#[test]
fn remove_listener_of_unknown_id_is_false() {
    let mut stream = ListenersStream::new(MemoryOnly::new());
    assert!(!stream.remove_listener(ListenerId::new(3)));
}

#[test]
fn transport_gives_the_transport_back() {
    let mut stream = ListenersStream::new(MemoryOnly::new());
    stream.transport().listeners.push((ListenerId::new(9), addr("/memory/9")));
    assert!(stream.remove_listener(ListenerId::new(9)));
    assert!(stream.transport().listeners.is_empty());
}

#[test]
fn listen_addrs_room_is_positive() {
    assert_eq!(ListenersStream::<MemoryOnly>::listen_addrs_room(), (isize::MAX as usize) / 64);
}

#[test]
fn map_turns_only_the_upgrade() {
    let event: Event =
        ListenerEvent::Upgrade { listener_id: ListenerId::new(4), upgrade: 5, local_addr: addr("/memory/1"), remote_addr: addr("/memory/2") };
    match event.map(|u| u as u64 * 10) {
        ListenerEvent::Upgrade { listener_id, upgrade, local_addr, remote_addr } => {
            assert_eq!(listener_id, ListenerId::new(4));
            assert_eq!(upgrade, 50u64);
            assert!(local_addr.same_as(&addr("/memory/1")));
            assert!(remote_addr.same_as(&addr("/memory/2")));
        }
        _ => panic!("the variant is kept"),
    }
    let event: Event = ListenerEvent::Error { listener_id: ListenerId::new(4), error: "e".to_string() };
    match event.map(|u| u as u64) {
        ListenerEvent::Error { listener_id, error } => {
            assert_eq!(listener_id, ListenerId::new(4));
            assert_eq!(error, "e");
        }
        _ => panic!("the variant is kept"),
    }
}

#[test]
fn map_err_turns_only_the_error() {
    let event: Event = ListenerEvent::Error { listener_id: ListenerId::new(4), error: "abc".to_string() };
    match event.map_err(|e| e.len()) {
        ListenerEvent::Error { listener_id, error } => {
            assert_eq!(listener_id, ListenerId::new(4));
            assert_eq!(error, 3);
        }
        _ => panic!("the variant is kept"),
    }
    let event: Event =
        ListenerEvent::Closed { listener_id: ListenerId::new(1), addresses: vec![addr("/memory/1")], reason: Err("ab".to_string()) };
    match event.map_err(|e| e.len()) {
        ListenerEvent::Closed { listener_id, addresses, reason } => {
            assert_eq!(listener_id, ListenerId::new(1));
            assert_eq!(addresses.len(), 1);
            assert_eq!(reason, Err(2));
        }
        _ => panic!("the variant is kept"),
    }
    let event: Event = ListenerEvent::NewAddress { listener_id: ListenerId::new(2), address: addr("/memory/7") };
    match event.map_err(|e| e.len()) {
        ListenerEvent::NewAddress { listener_id, address } => {
            assert_eq!(listener_id, ListenerId::new(2));
            assert!(address.same_as(&addr("/memory/7")));
        }
        _ => panic!("the variant is kept"),
    }
}

#[test]
fn transport_error_map() {
    match TransportError::Other("xyz".to_string()).map(|e| e.len()) {
        TransportError::Other(n) => assert_eq!(n, 3),
        _ => panic!("the variant is kept"),
    }
    let a = addr("/memory/1");
    match TransportError::<String>::MultiaddrNotSupported(a.clone()).map(|e| e.len()) {
        TransportError::MultiaddrNotSupported(b) => assert!(b.same_as(&a)),
        _ => panic!("the variant is kept"),
    }
}

#[test]
fn multiaddr_bytes_and_equality() {
    let parsed: multiaddr::Multiaddr = "/ip4/127.0.0.1/tcp/4001".parse().unwrap();
    let a = Multiaddr::from_vec(parsed.to_vec());
    assert_eq!(a.to_vec(), parsed.to_vec());
    assert_eq!(a.as_bytes(), &parsed.to_vec()[..]);
    assert!(a.same_as(&a.duplicate()));
    assert!(!a.same_as(&addr("/ip4/127.0.0.1/tcp/4002")));
    assert!(!a.same_as(&Multiaddr::from_vec(Vec::new())));
    assert!(Multiaddr::from_vec(Vec::new()).same_as(&Multiaddr::from_vec(Vec::new())));
}
