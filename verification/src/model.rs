//! What the stream knows of its listeners: the addresses listened on and which listener
//! reported each, as they change with each event of the transport, and the laws they obey.
use vstd::prelude::*;

use crate::addr_list::{addr_list_room, other_than};
use crate::address::Multiaddr;
use crate::transport::{ListenerEvent, ListenerId};

verus! {

/// The list of addresses after `addr` is reported as new: appended unless it is there already.
pub open spec fn with_new_address(addrs: Seq<Seq<u8>>, addr: Seq<u8>) -> Seq<Seq<u8>> {
    if addrs.contains(addr) {
        addrs
    } else {
        addrs.push(addr)
    }
}

/// The list of addresses after `addr` is reported as expired: every copy of it taken out.
pub open spec fn without_address(addrs: Seq<Seq<u8>>, addr: Seq<u8>) -> Seq<Seq<u8>> {
    addrs.filter(other_than(addr))
}

/// Whether a report is by a listener other than `id`.
pub open spec fn by_other_than(id: ListenerId) -> spec_fn((ListenerId, Seq<u8>)) -> bool {
    |p: (ListenerId, Seq<u8>)| p.0 != id
}

/// Whether a report is of an address other than `addr`.
pub open spec fn of_other_than(addr: Seq<u8>) -> spec_fn((ListenerId, Seq<u8>)) -> bool {
    |p: (ListenerId, Seq<u8>)| p.1 != addr
}

/// Whether some listener of `reports` reported the address.
pub open spec fn reported(reports: Seq<(ListenerId, Seq<u8>)>) -> spec_fn(Seq<u8>) -> bool {
    |x: Seq<u8>| exists|id: ListenerId| #[trigger] reports.contains((id, x))
}

/// The reports, each a listener and an address it listens on, after the transport reported
/// `event`: a new address adds its report, an expired address drops every report of it, and a
/// closed listener drops all of its reports.
pub open spec fn reports_after<TUpgr, TErr>(
    reports: Seq<(ListenerId, Seq<u8>)>,
    event: ListenerEvent<TUpgr, TErr>,
) -> Seq<(ListenerId, Seq<u8>)> {
    match event {
        ListenerEvent::NewAddress { listener_id, address } => if reports.contains(
            (listener_id, address@),
        ) {
            reports
        } else {
            reports.push((listener_id, address@))
        },
        ListenerEvent::AddressExpired { address, .. } => reports.filter(of_other_than(address@)),
        ListenerEvent::Closed { listener_id, .. } => reports.filter(by_other_than(listener_id)),
        _ => reports,
    }
}

/// The list of addresses, with the reports `reports`, after the transport reported `event`: a
/// new address is appended unless listed, an expired address is taken out, and a closed
/// listener takes out the addresses that no other listener reported.
pub open spec fn addresses_after<TUpgr, TErr>(
    addrs: Seq<Seq<u8>>,
    reports: Seq<(ListenerId, Seq<u8>)>,
    event: ListenerEvent<TUpgr, TErr>,
) -> Seq<Seq<u8>> {
    match event {
        ListenerEvent::NewAddress { address, .. } => with_new_address(addrs, address@),
        ListenerEvent::AddressExpired { address, .. } => without_address(addrs, address@),
        ListenerEvent::Closed { .. } => addrs.filter(reported(reports_after(reports, event))),
        _ => addrs,
    }
}

/// The addresses listened on and the reports, after the transport reported `events` in turn
/// to a stream that started with none.
pub open spec fn listening_after<TUpgr, TErr>(events: Seq<ListenerEvent<TUpgr, TErr>>) -> (
    Seq<Seq<u8>>,
    Seq<(ListenerId, Seq<u8>)>,
)
    decreases events.len(),
{
    if events.len() == 0 {
        (Seq::empty(), Seq::empty())
    } else {
        let before = listening_after(events.drop_last());
        (
            addresses_after(before.0, before.1, events.last()),
            reports_after(before.1, events.last()),
        )
    }
}

/// Whether the list has room for what `event` may add to it: only a new address adds one.
pub open spec fn has_room_for<TUpgr, TErr>(
    addrs: Seq<Seq<u8>>,
    event: ListenerEvent<TUpgr, TErr>,
) -> bool {
    match event {
        ListenerEvent::NewAddress { address, .. } => with_new_address(addrs, address@).len()
            <= addr_list_room(),
        _ => true,
    }
}

/// Whether `event` reports that listener `id` listens on `addr`.
pub open spec fn adds_report<TUpgr, TErr>(
    event: ListenerEvent<TUpgr, TErr>,
    id: ListenerId,
    addr: Seq<u8>,
) -> bool {
    match event {
        ListenerEvent::NewAddress { listener_id, address } => listener_id == id && address@ == addr,
        _ => false,
    }
}

/// Whether `event` ends the report that listener `id` listens on `addr`: `addr` expired, or
/// the listener closed.
pub open spec fn ends_report<TUpgr, TErr>(
    event: ListenerEvent<TUpgr, TErr>,
    id: ListenerId,
    addr: Seq<u8>,
) -> bool {
    match event {
        ListenerEvent::AddressExpired { address, .. } => address@ == addr,
        ListenerEvent::Closed { listener_id, .. } => listener_id == id,
        _ => false,
    }
}

/// Whether, after `events`, listener `id` still listens on `addr`: an event reported it, and
/// no later event ended it.
pub open spec fn still_reported<TUpgr, TErr>(
    events: Seq<ListenerEvent<TUpgr, TErr>>,
    id: ListenerId,
    addr: Seq<u8>,
) -> bool {
    exists|i: int|
        0 <= i < events.len() && adds_report(#[trigger] events[i], id, addr) && forall|j: int|
            i < j < events.len() ==> !ends_report(#[trigger] events[j], id, addr)
}

/// Whether an address is listed exactly when some listener reported it.
pub open spec fn addresses_match(addrs: Seq<Seq<u8>>, reports: Seq<(ListenerId, Seq<u8>)>) -> bool {
    forall|x: Seq<u8>| #[trigger] addrs.contains(x) == reported(reports)(x)
}

/// What one event does, from a state where no address or report occurs twice and an address
/// is listed exactly when some listener reported it: that stays so, and a report remains
/// exactly when the event made it or it was there and the event did not end it.
pub proof fn lemma_one_event<TUpgr, TErr>(
    addrs: Seq<Seq<u8>>,
    reports: Seq<(ListenerId, Seq<u8>)>,
    event: ListenerEvent<TUpgr, TErr>,
)
    requires
        addrs.no_duplicates(),
        reports.no_duplicates(),
        addresses_match(addrs, reports),
    ensures
        addresses_after(addrs, reports, event).no_duplicates(),
        reports_after(reports, event).no_duplicates(),
        addresses_match(addresses_after(addrs, reports, event), reports_after(reports, event)),
        !(event is NewAddress) ==> addresses_after(addrs, reports, event).len() <= addrs.len(),
        forall|id: ListenerId, x: Seq<u8>|
            #[trigger] reports_after(reports, event).contains((id, x)) == (adds_report(
                event,
                id,
                x,
            ) || (reports.contains((id, x)) && !ends_report(event, id, x))),
{
    let a2 = addresses_after(addrs, reports, event);
    let r2 = reports_after(reports, event);
    match event {
        ListenerEvent::NewAddress { listener_id, address } => {
            let y = address@;
            if !addrs.contains(y) {
                lemma_push_keeps_no_duplicates(addrs, y);
            }
            if !reports.contains((listener_id, y)) {
                lemma_push_keeps_no_duplicates(reports, (listener_id, y));
            }
            assert forall|id: ListenerId, x: Seq<u8>| #[trigger] r2.contains((id, x)) == (
            adds_report(event, id, x) || (reports.contains((id, x)) && !ends_report(
                event,
                id,
                x,
            ))) by {
                if !reports.contains((listener_id, y)) {
                    lemma_push_membership(reports, (listener_id, y), (id, x));
                }
            }
            assert forall|x: Seq<u8>| #[trigger] a2.contains(x) == reported(r2)(x) by {
                if !addrs.contains(y) {
                    lemma_push_membership(addrs, y, x);
                }
                assert(addrs.contains(x) == reported(reports)(x));
                if reported(r2)(x) {
                    let id = choose|id: ListenerId| #[trigger] r2.contains((id, x));
                    assert(r2.contains((id, x)));
                    if x != y {
                        assert(reports.contains((id, x)));
                    }
                }
                if a2.contains(x) {
                    if x == y {
                        assert(r2.contains((listener_id, y)));
                    } else {
                        assert(addrs.contains(x));
                        let id = choose|id: ListenerId| #[trigger] reports.contains((id, x));
                        assert(r2.contains((id, x)));
                    }
                }
            }
        },
        ListenerEvent::AddressExpired { address, .. } => {
            let y = address@;
            lemma_filter_keeps_no_duplicates(addrs, other_than(y));
            lemma_filter_keeps_no_duplicates(reports, of_other_than(y));
            assert forall|id: ListenerId, x: Seq<u8>| #[trigger] r2.contains((id, x)) == (
            adds_report(event, id, x) || (reports.contains((id, x)) && !ends_report(
                event,
                id,
                x,
            ))) by {
                lemma_filter_membership(reports, of_other_than(y), (id, x));
            }
            assert forall|x: Seq<u8>| #[trigger] a2.contains(x) == reported(r2)(x) by {
                lemma_filter_membership(addrs, other_than(y), x);
                assert(addrs.contains(x) == reported(reports)(x));
                if reported(r2)(x) {
                    let id = choose|id: ListenerId| #[trigger] r2.contains((id, x));
                    lemma_filter_membership(reports, of_other_than(y), (id, x));
                }
                if a2.contains(x) {
                    let id = choose|id: ListenerId| #[trigger] reports.contains((id, x));
                    lemma_filter_membership(reports, of_other_than(y), (id, x));
                    assert(r2.contains((id, x)));
                }
            }
        },
        ListenerEvent::Closed { listener_id, .. } => {
            lemma_filter_keeps_no_duplicates(addrs, reported(r2));
            lemma_filter_keeps_no_duplicates(reports, by_other_than(listener_id));
            assert forall|id: ListenerId, x: Seq<u8>| #[trigger] r2.contains((id, x)) == (
            adds_report(event, id, x) || (reports.contains((id, x)) && !ends_report(
                event,
                id,
                x,
            ))) by {
                lemma_filter_membership(reports, by_other_than(listener_id), (id, x));
            }
            assert forall|x: Seq<u8>| #[trigger] a2.contains(x) == reported(r2)(x) by {
                lemma_filter_membership(addrs, reported(r2), x);
                assert(addrs.contains(x) == reported(reports)(x));
                if reported(r2)(x) {
                    let id = choose|id: ListenerId| #[trigger] r2.contains((id, x));
                    lemma_filter_membership(reports, by_other_than(listener_id), (id, x));
                    assert(reports.contains((id, x)));
                }
            }
        },
        _ => {},
    }
}

/// Over any history of events: no address is listed twice and no report made twice, an
/// address is listed exactly when some listener reported it, and a listener listens on an
/// address exactly when an event reported it and no later event ended that.
pub proof fn lemma_listening_follows_history<TUpgr, TErr>(events: Seq<ListenerEvent<TUpgr, TErr>>)
    ensures
        listening_after(events).0.no_duplicates(),
        listening_after(events).1.no_duplicates(),
        addresses_match(listening_after(events).0, listening_after(events).1),
        forall|id: ListenerId, x: Seq<u8>|
            #[trigger] listening_after(events).1.contains((id, x)) == still_reported(
                events,
                id,
                x,
            ),
    decreases events.len(),
{
    let now = listening_after(events);
    if events.len() == 0 {
        assert forall|x: Seq<u8>| #[trigger] now.0.contains(x) == reported(now.1)(x) by {}
    } else {
        let prev = events.drop_last();
        let last = events.last();
        let before = listening_after(prev);
        lemma_listening_follows_history(prev);
        lemma_one_event(before.0, before.1, last);
        assert forall|id: ListenerId, x: Seq<u8>| #[trigger] now.1.contains((id, x))
            == still_reported(events, id, x) by {
            assert(before.1.contains((id, x)) == still_reported(prev, id, x));
            assert(events[events.len() - 1] == last);
            if adds_report(last, id, x) {
                assert(adds_report(events[events.len() - 1], id, x));
            } else if ends_report(last, id, x) {
                if still_reported(events, id, x) {
                    let i = choose|i: int|
                        0 <= i < events.len() && adds_report(#[trigger] events[i], id, x)
                            && forall|j: int|
                            i < j < events.len() ==> !ends_report(#[trigger] events[j], id, x);
                    if i == events.len() - 1 {
                        assert(adds_report(last, id, x));
                    } else {
                        assert(!ends_report(events[events.len() - 1], id, x));
                    }
                }
            } else {
                if still_reported(prev, id, x) {
                    let i = choose|i: int|
                        0 <= i < prev.len() && adds_report(#[trigger] prev[i], id, x) && forall|
                            j: int,
                        | i < j < prev.len() ==> !ends_report(#[trigger] prev[j], id, x);
                    assert(events[i] == prev[i]);
                    assert forall|j: int| i < j < events.len() implies !ends_report(
                        #[trigger] events[j],
                        id,
                        x,
                    ) by {
                        if j < prev.len() {
                            assert(events[j] == prev[j]);
                        }
                    }
                }
                if still_reported(events, id, x) {
                    let i = choose|i: int|
                        0 <= i < events.len() && adds_report(#[trigger] events[i], id, x)
                            && forall|j: int|
                            i < j < events.len() ==> !ends_report(#[trigger] events[j], id, x);
                    assert(i != events.len() - 1);
                    assert(prev[i] == events[i]);
                    assert forall|j: int| i < j < prev.len() implies !ends_report(
                        #[trigger] prev[j],
                        id,
                        x,
                    ) by {
                        assert(events[j] == prev[j]);
                    }
                }
            }
        }
    }
}

/// The index of the event since which `addr` is listed after `events`: the last event that
/// reported it new while it was not listed.
pub open spec fn listed_since<TUpgr, TErr>(events: Seq<ListenerEvent<TUpgr, TErr>>, addr: Seq<u8>) -> int
    decreases events.len(),
{
    if events.len() == 0 {
        -1
    } else {
        let prev = events.drop_last();
        if (exists|id: ListenerId| adds_report(events.last(), id, addr)) && !listening_after(
            prev,
        ).0.contains(addr) {
            events.len() - 1
        } else {
            listed_since(prev, addr)
        }
    }
}

/// Over any history of events, the addresses are listed in the order in which they were
/// (last) reported new: of two listed addresses, the one listed by an earlier event comes first.
pub proof fn lemma_listed_addresses_keep_order<TUpgr, TErr>(events: Seq<ListenerEvent<TUpgr, TErr>>)
    ensures
        forall|i: int, j: int|
            #![trigger listening_after(events).0[i], listening_after(events).0[j]]
            0 <= i < j < listening_after(events).0.len() ==> listed_since(
                events,
                listening_after(events).0[i],
            ) < listed_since(events, listening_after(events).0[j]),
    decreases events.len(),
{
    let after = listening_after(events).0;
    if events.len() > 0 {
        let prev = events.drop_last();
        let last = events.last();
        let before = listening_after(prev);
        lemma_listed_addresses_keep_order(prev);
        assert forall|i: int, j: int| 0 <= i < j < after.len() implies listed_since(
            events,
            #[trigger] after[i],
        ) < listed_since(events, #[trigger] after[j]) by {
            let x = after[i];
            let y = after[j];
            match last {
                ListenerEvent::NewAddress { address, listener_id } => {
                    if before.0.contains(address@) {
                        assert(listed_since(events, x) == listed_since(prev, x));
                        assert(listed_since(events, y) == listed_since(prev, y));
                    } else {
                        assert(after == before.0.push(address@));
                        if j == before.0.len() {
                            assert(before.0[i] == x);
                            assert(before.0.contains(x));
                            assert(x != address@);
                            assert(listed_since(events, x) == listed_since(prev, x));
                            lemma_listed_since_bound(prev, x);
                            assert(adds_report(last, listener_id, address@));
                        } else {
                            assert(before.0[i] == x && before.0[j] == y);
                            assert(before.0.contains(x) && before.0.contains(y));
                            assert(listed_since(events, x) == listed_since(prev, x));
                            assert(listed_since(events, y) == listed_since(prev, y));
                        }
                    }
                },
                ListenerEvent::AddressExpired { address, .. } => {
                    lemma_filter_keeps_order(before.0, other_than(address@), i, j);
                    let (i2, j2) = choose|i2: int, j2: int|
                        0 <= i2 < j2 < before.0.len() && before.0[i2] == x && before.0[j2] == y;
                    assert(listed_since(events, x) == listed_since(prev, x));
                    assert(listed_since(events, y) == listed_since(prev, y));
                    assert(before.0[i2] == x && before.0[j2] == y);
                },
                ListenerEvent::Closed { .. } => {
                    lemma_filter_keeps_order(before.0, reported(reports_after(before.1, last)), i, j);
                    let (i2, j2) = choose|i2: int, j2: int|
                        0 <= i2 < j2 < before.0.len() && before.0[i2] == x && before.0[j2] == y;
                    assert(listed_since(events, x) == listed_since(prev, x));
                    assert(listed_since(events, y) == listed_since(prev, y));
                    assert(before.0[i2] == x && before.0[j2] == y);
                },
                _ => {
                    assert(listed_since(events, x) == listed_since(prev, x));
                    assert(listed_since(events, y) == listed_since(prev, y));
                },
            }
        }
    }
}

/// The index of the event since which an address is listed lies before the end of the history.
proof fn lemma_listed_since_bound<TUpgr, TErr>(events: Seq<ListenerEvent<TUpgr, TErr>>, addr: Seq<u8>)
    ensures
        -1 <= listed_since(events, addr) < events.len(),
    decreases events.len(),
{
    if events.len() > 0 {
        lemma_listed_since_bound(events.drop_last(), addr);
    }
}

/// An address reported as new is listed afterwards, and every address listed before stays
/// listed, in the same order, ahead of it.
pub proof fn lemma_new_address_is_listed<TUpgr, TErr>(
    addrs: Seq<Seq<u8>>,
    reports: Seq<(ListenerId, Seq<u8>)>,
    listener_id: ListenerId,
    address: Multiaddr,
)
    ensures
        addresses_after(
            addrs,
            reports,
            ListenerEvent::<TUpgr, TErr>::NewAddress { listener_id, address },
        ).contains(address@),
        addresses_after(
            addrs,
            reports,
            ListenerEvent::<TUpgr, TErr>::NewAddress { listener_id, address },
        ).subrange(0, addrs.len() as int) == addrs,
{
    let after = addresses_after(
        addrs,
        reports,
        ListenerEvent::<TUpgr, TErr>::NewAddress { listener_id, address },
    );
    if !addrs.contains(address@) {
        assert(after[addrs.len() as int] == address@);
    }
    assert(after.subrange(0, addrs.len() as int) =~= addrs);
}

/// An address reported again, by the same listener or another, is not listed twice: the list
/// stays as it is.
pub proof fn lemma_repeated_new_address_changes_nothing<TUpgr, TErr>(
    addrs: Seq<Seq<u8>>,
    reports: Seq<(ListenerId, Seq<u8>)>,
    listener_id: ListenerId,
    address: Multiaddr,
)
    requires
        addrs.contains(address@),
    ensures
        addresses_after(
            addrs,
            reports,
            ListenerEvent::<TUpgr, TErr>::NewAddress { listener_id, address },
        ) == addrs,
{
}

/// An address reported as expired is no longer listed, and exactly the other addresses stay
/// listed, in the same order.
pub proof fn lemma_expired_address_is_unlisted<TUpgr, TErr>(
    addrs: Seq<Seq<u8>>,
    reports: Seq<(ListenerId, Seq<u8>)>,
    listener_id: ListenerId,
    address: Multiaddr,
)
    ensures
        forall|x: Seq<u8>|
            #[trigger] addresses_after(
                addrs,
                reports,
                ListenerEvent::<TUpgr, TErr>::AddressExpired { listener_id, address },
            ).contains(x) == (addrs.contains(x) && x != address@),
{
    assert forall|x: Seq<u8>|
        #[trigger] addrs.filter(other_than(address@)).contains(x) == (addrs.contains(x) && x
            != address@) by {
        lemma_filter_membership(addrs, other_than(address@), x);
    }
}

/// An address that was not listed, reported as new and then as expired, leaves the list as it
/// was: the expiry undoes the report.
pub proof fn lemma_expiry_undoes_new_address<TUpgr, TErr>(
    addrs: Seq<Seq<u8>>,
    reports: Seq<(ListenerId, Seq<u8>)>,
    first: ListenerId,
    second: ListenerId,
    address: Multiaddr,
    expired: Multiaddr,
)
    requires
        !addrs.contains(address@),
        expired@ == address@,
    ensures
        ({
            let new_event = ListenerEvent::<TUpgr, TErr>::NewAddress { listener_id: first, address };
            addresses_after(
                addresses_after(addrs, reports, new_event),
                reports_after(reports, new_event),
                ListenerEvent::<TUpgr, TErr>::AddressExpired { listener_id: second, address: expired },
            ) == addrs
        }),
{
    let pred = other_than(address@);
    addrs.lemma_filter_push(address@, pred);
    lemma_filter_of_absent_is_identity(addrs, address@);
}

/// Once a listener closed, an address stays listed exactly when it was listed and another
/// listener reported it: the closed listener is dropped, and so are the addresses that only it
/// listened on.
pub proof fn lemma_closed_listener_is_dropped<TUpgr, TErr>(
    addrs: Seq<Seq<u8>>,
    reports: Seq<(ListenerId, Seq<u8>)>,
    listener_id: ListenerId,
    addresses: Vec<Multiaddr>,
    reason: Result<(), TErr>,
)
    ensures
        forall|x: Seq<u8>|
            #[trigger] addresses_after(
                addrs,
                reports,
                ListenerEvent::<TUpgr, TErr>::Closed { listener_id, addresses, reason },
            ).contains(x) == (addrs.contains(x) && exists|other: ListenerId|
                other != listener_id && #[trigger] reports.contains((other, x))),
        forall|id: ListenerId, x: Seq<u8>|
            #[trigger] reports_after(
                reports,
                ListenerEvent::<TUpgr, TErr>::Closed { listener_id, addresses, reason },
            ).contains((id, x)) == (reports.contains((id, x)) && id != listener_id),
{
    let event = ListenerEvent::<TUpgr, TErr>::Closed { listener_id, addresses, reason };
    let r2 = reports.filter(by_other_than(listener_id));
    assert forall|id: ListenerId, x: Seq<u8>| #[trigger] r2.contains((id, x)) == (reports.contains(
        (id, x),
    ) && id != listener_id) by {
        lemma_filter_membership(reports, by_other_than(listener_id), (id, x));
    }
    assert forall|x: Seq<u8>|
        #[trigger] addresses_after(addrs, reports, event).contains(x) == (addrs.contains(x)
            && exists|other: ListenerId|
            other != listener_id && #[trigger] reports.contains((other, x))) by {
        lemma_filter_membership(addrs, reported(r2), x);
        if reported(r2)(x) {
            let id = choose|id: ListenerId| #[trigger] r2.contains((id, x));
            assert(reports.contains((id, x)) && id != listener_id);
        }
        if exists|other: ListenerId| other != listener_id && #[trigger] reports.contains((other, x)) {
            let other = choose|other: ListenerId|
                other != listener_id && #[trigger] reports.contains((other, x));
            assert(r2.contains((other, x)));
        }
    }
}

/// An upgrade or an error leaves the addresses and the reports as they are.
pub proof fn lemma_other_events_keep_listening<TUpgr, TErr>(
    addrs: Seq<Seq<u8>>,
    reports: Seq<(ListenerId, Seq<u8>)>,
    event: ListenerEvent<TUpgr, TErr>,
)
    requires
        event is Upgrade || event is Error,
    ensures
        addresses_after(addrs, reports, event) == addrs,
        reports_after(reports, event) == reports,
{
}

// Facts about sequences.

/// An item is in a filtered sequence exactly when it is in the sequence and passes the test.
pub proof fn lemma_filter_membership<A>(s: Seq<A>, pred: spec_fn(A) -> bool, x: A)
    ensures
        s.filter(pred).contains(x) == (s.contains(x) && pred(x)),
{
    if s.filter(pred).contains(x) {
        s.lemma_filter_contains_rev(pred, x);
        let k = choose|k: int| 0 <= k < s.filter(pred).len() && s.filter(pred)[k] == x;
        s.lemma_filter_pred(pred, k);
    }
    if s.contains(x) && pred(x) {
        let k = choose|k: int| 0 <= k < s.len() && s[k] == x;
        s.lemma_filter_contains(pred, k);
    }
}

/// An item is in a sequence with one more item exactly when it is that item or was in it.
proof fn lemma_push_membership<A>(s: Seq<A>, y: A, x: A)
    ensures
        s.push(y).contains(x) == (s.contains(x) || x == y),
{
    assert(s.push(y)[s.len() as int] == y);
    if s.push(y).contains(x) && x != y {
        let k = choose|k: int| 0 <= k < s.len() + 1 && s.push(y)[k] == x;
        assert(s[k] == x);
    }
    if s.contains(x) {
        let k = choose|k: int| 0 <= k < s.len() && s[k] == x;
        assert(s.push(y)[k] == x);
    }
}

/// Appending an item that a sequence without duplicates lacks leaves it without duplicates.
proof fn lemma_push_keeps_no_duplicates<A>(s: Seq<A>, x: A)
    requires
        s.no_duplicates(),
        !s.contains(x),
    ensures
        s.push(x).no_duplicates(),
{
    let pushed = s.push(x);
    assert forall|i: int, j: int| 0 <= i < pushed.len() && 0 <= j < pushed.len() && i != j implies pushed[i]
        != pushed[j] by {
        if j == s.len() as int {
            assert(s.contains(s[i]));
        } else if i == s.len() as int {
            assert(s.contains(s[j]));
        }
    }
}

/// Filtering a sequence without duplicates leaves it without duplicates, and no longer.
proof fn lemma_filter_keeps_no_duplicates<A>(s: Seq<A>, pred: spec_fn(A) -> bool)
    requires
        s.no_duplicates(),
    ensures
        s.filter(pred).no_duplicates(),
        s.filter(pred).len() <= s.len(),
    decreases s.len(),
{
    if s.len() == 0 {
        reveal(Seq::filter);
        assert(s.filter(pred) =~= Seq::<A>::empty());
    } else {
        let rest = s.drop_last();
        let last = s.last();
        assert(rest.no_duplicates());
        lemma_filter_keeps_no_duplicates(rest, pred);
        assert(rest.push(last) =~= s);
        rest.lemma_filter_push(last, pred);
        if pred(last) {
            if rest.filter(pred).contains(last) {
                rest.lemma_filter_contains_rev(pred, last);
                let k = choose|k: int| 0 <= k < rest.len() && rest[k] == last;
                assert(s[k] == s[s.len() - 1]);
            }
            lemma_push_keeps_no_duplicates(rest.filter(pred), last);
        }
    }
}

/// Filtering keeps the order: two items of the filtered sequence come in the same order in the
/// sequence.
proof fn lemma_filter_keeps_order<A>(s: Seq<A>, pred: spec_fn(A) -> bool, i: int, j: int)
    requires
        0 <= i < j < s.filter(pred).len(),
    ensures
        exists|i2: int, j2: int|
            0 <= i2 < j2 < s.len() && s[i2] == s.filter(pred)[i] && s[j2] == s.filter(pred)[j],
    decreases s.len(),
{
    let rest = s.drop_last();
    let last = s.last();
    if s.len() == 0 {
        reveal(Seq::filter);
    } else {
        assert(rest.push(last) =~= s);
        rest.lemma_filter_push(last, pred);
        let f = s.filter(pred);
        if pred(last) && j == f.len() - 1 {
            assert(rest.filter(pred)[i] == f[i]);
            assert(rest.filter(pred).contains(f[i]));
            rest.lemma_filter_contains_rev(pred, f[i]);
            let k = choose|k: int| 0 <= k < rest.len() && rest[k] == f[i];
            assert(s[k] == f[i] && s[s.len() - 1] == f[j]);
        } else {
            assert(rest.filter(pred)[i] == f[i] && rest.filter(pred)[j] == f[j]);
            lemma_filter_keeps_order(rest, pred, i, j);
            let (i2, j2) = choose|i2: int, j2: int|
                0 <= i2 < j2 < rest.len() && rest[i2] == rest.filter(pred)[i] && rest[j2]
                    == rest.filter(pred)[j];
            assert(s[i2] == f[i] && s[j2] == f[j]);
        }
    }
}

/// Taking out an address that a list lacks leaves the list as it is.
proof fn lemma_filter_of_absent_is_identity(addrs: Seq<Seq<u8>>, addr: Seq<u8>)
    requires
        !addrs.contains(addr),
    ensures
        addrs.filter(other_than(addr)) == addrs,
    decreases addrs.len(),
{
    let pred = other_than(addr);
    if addrs.len() == 0 {
        reveal(Seq::filter);
        assert(addrs.filter(pred) =~= addrs);
    } else {
        let rest = addrs.drop_last();
        assert(rest.push(addrs.last()) =~= addrs);
        assert(!rest.contains(addr)) by {
            if rest.contains(addr) {
                let k = choose|k: int| 0 <= k < rest.len() && rest[k] == addr;
                assert(addrs[k] == addr);
            }
        }
        lemma_filter_of_absent_is_identity(rest, addr);
        rest.lemma_filter_push(addrs.last(), pred);
    }
}

} // verus!
