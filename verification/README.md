# libp2p_listeners

Listening on several multiaddresses at once through one transport, with its contracts proved.

- `src/transport.rs`: listener ids, the events a transport reports about its listeners, the
  errors it returns, and the `Transport` trait that users implement.
- `src/address.rs`: a multiaddress, held as its binary encoding.
- `src/addr_list.rs`: the list of listened addresses, a `smallvec::SmallVec` behind trusted
  wrappers.
- `src/model.rs`: the addresses listened on and which listener reported each, as each event
  of the transport changes them, with the laws they obey over any history of events.
- `src/listeners.rs`: `ListenersStream`, which hands out listener ids, keeps the list of
  addresses the transport reported, and turns each transport event into an event for the
  user.
- `app/`: polling the transport with a task context, boxing transports, printing events, and
  converting addresses from and to the `multiaddr` crate.
