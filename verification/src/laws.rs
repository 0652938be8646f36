//! What holds of the table and of the relay whatever happens to them.
//!
//! Each law is stated over the mathematical values of the table and proved
//! from the definitions that the contracts of the executable functions use.

use vstd::prelude::*;

use crate::client::{ClientEventView, WsClientView};
use crate::mailbox::SendError;
use crate::manager::{
    in_channel, is_alive, is_dead, matching_in_channel, named_in_channel, WsManagerView,
};
use crate::packets::outgoing::OutgoingPacketView;
use crate::relay::{
    dispatched, outcome_of, reaches_each_once, refused, refuses, resolved, retried,
    DispatchOutcomeView,
};
use crate::selector::regex_compiles;
use crate::seq_facts::{lemma_filter_empty, lemma_filter_places, lemma_filter_single};

verus! {

/// Something that happens to the table.
pub enum TableEvent {
    /// A connection is accepted, and this id is drawn for it.
    Accept(u128),
    /// The periodic sweep runs.
    Sweep,
    /// The connection with this id is marked dead.
    Kill(u128),
    /// The loop of the connection with this id reports an event.
    Step(u128, ClientEventView),
    /// A packet is offered to the connection with this id.
    Deliver(u128, OutgoingPacketView),
}

/// The table after `event`.
pub open spec fn after_event(table: WsManagerView, event: TableEvent) -> WsManagerView {
    match event {
        TableEvent::Accept(draw) => table.register(draw),
        TableEvent::Sweep => table.sweep(),
        TableEvent::Kill(uuid) => table.kill(uuid),
        TableEvent::Step(uuid, e) => table.step(uuid, e),
        TableEvent::Deliver(uuid, packet) => table.deliver(uuid, packet),
    }
}

/// The id that `event` hands out: the id drawn by an accept, unless it was
/// handed out before.
pub open spec fn handed_out(table: WsManagerView, event: TableEvent) -> Option<u128> {
    match event {
        TableEvent::Accept(draw) => if table.issued.contains(draw) {
            None
        } else {
            Some(draw)
        },
        _ => None,
    }
}

/// The table after all of `events`, in their order.
pub open spec fn after_all(table: WsManagerView, events: Seq<TableEvent>) -> WsManagerView
    decreases events.len(),
{
    if events.len() == 0 {
        table
    } else {
        after_event(after_all(table, events.drop_last()), events.last())
    }
}

/// The ids that the accepts among `events` hand out, in their order.
pub open spec fn ids_handed_out(table: WsManagerView, events: Seq<TableEvent>) -> Seq<u128>
    decreases events.len(),
{
    if events.len() == 0 {
        Seq::empty()
    } else {
        let earlier = ids_handed_out(table, events.drop_last());
        match handed_out(after_all(table, events.drop_last()), events.last()) {
            Some(uuid) => earlier.push(uuid),
            None => earlier,
        }
    }
}

/// No event makes the table forget an id that it has handed out.
pub proof fn lemma_ids_are_remembered(table: WsManagerView, event: TableEvent)
    ensures
        table.issued.subset_of(after_event(table, event).issued),
{
}

/// Ids are unique for the lifetime of the table: whatever happens between
/// the accepts, sweeps included, the ids that the accepts hand out differ
/// from one another and from every id that was handed out before.
pub proof fn lemma_ids_are_never_reused(table: WsManagerView, events: Seq<TableEvent>)
    ensures
        ids_handed_out(table, events).no_duplicates(),
        table.issued.subset_of(after_all(table, events).issued),
        forall|i: int|
            #![auto]
            0 <= i < ids_handed_out(table, events).len() ==> {
                &&& !table.issued.contains(ids_handed_out(table, events)[i])
                &&& after_all(table, events).issued.contains(ids_handed_out(table, events)[i])
            },
    decreases events.len(),
{
    if events.len() > 0 {
        let earlier = events.drop_last();
        lemma_ids_are_never_reused(table, earlier);
        lemma_ids_are_remembered(after_all(table, earlier), events.last());
    }
}

/// In a table that keeps its invariant, the connection at place `i` is the
/// one that its id finds.
pub proof fn lemma_client_at(table: WsManagerView, i: int)
    requires
        table.wf(),
        0 <= i < table.connections.len(),
    ensures
        table.holds(table.connections[i].uuid),
        (choose|k: int| table.at(k, table.connections[i].uuid)) == i,
        table.client(table.connections[i].uuid) == Some(table.connections[i]),
{
    let uuid = table.connections[i].uuid;
    assert(table.at(i, uuid));
    let k = choose|k: int| table.at(k, uuid);
    if k < i {
        assert(table.connections[k].uuid != table.connections[i].uuid);
    } else if i < k {
        assert(table.connections[i].uuid != table.connections[k].uuid);
    }
}

/// Replacing one connection by one of the same id that keeps its invariant
/// leaves every other connection as it was, and the table keeps its
/// invariant.
pub proof fn lemma_replacing_one(table: WsManagerView, uuid: u128, client: WsClientView)
    requires
        table.wf(),
        client.wf(),
        client.uuid == uuid,
    ensures
        table.with_client(uuid, client).wf(),
        table.with_client(uuid, client).issued == table.issued,
        table.with_client(uuid, client).connections.len() == table.connections.len(),
        forall|i: int|
            #![trigger table.with_client(uuid, client).connections[i]]
            0 <= i < table.connections.len() ==> table.with_client(uuid, client).connections[i]
                == if table.at(i, uuid) {
                client
            } else {
                table.connections[i]
            },
{
    let after = table.with_client(uuid, client);
    if table.holds(uuid) {
        let k = choose|k: int| table.at(k, uuid);
        lemma_client_at(table, k);
        assert forall|i: int|
            #![trigger after.connections[i]]
            0 <= i < table.connections.len() implies after.connections[i] == if table.at(i, uuid) {
            client
        } else {
            table.connections[i]
        } by {
            if i != k {
                lemma_client_at(table, i);
            }
        }
        assert forall|i: int| 0 <= i < after.connections.len() implies {
            &&& (#[trigger] after.connections[i]).wf()
            &&& after.issued.contains(after.connections[i].uuid)
        } by {
            assert(table.connections[i].wf());
            assert(table.issued.contains(table.connections[i].uuid));
        }
        assert forall|i: int, j: int| 0 <= i < j < after.connections.len() implies (
        #[trigger] after.connections[i]).uuid != (#[trigger] after.connections[j]).uuid by {
            assert(table.connections[i].uuid != table.connections[j].uuid);
        }
    } else {
        assert forall|i: int| 0 <= i < table.connections.len() implies table.connections[i].uuid
            != uuid by {
            assert(!table.at(i, uuid));
        }
    }
}

/// A sweep leaves a table that keeps its invariant.
pub proof fn lemma_sweep_keeps_invariant(table: WsManagerView)
    requires
        table.wf(),
    ensures
        table.sweep().wf(),
{
    let places = lemma_filter_places(table.connections, is_alive());
    let swept = table.sweep();
    assert forall|i: int, j: int| 0 <= i < j < swept.connections.len() implies (
    #[trigger] swept.connections[i]).uuid != (#[trigger] swept.connections[j]).uuid by {
        assert(table.connections[places[i]].uuid != table.connections[places[j]].uuid);
    }
    assert forall|i: int| 0 <= i < swept.connections.len() implies (
    #[trigger] swept.connections[i]).wf() && swept.issued.contains(swept.connections[i].uuid) by {
        assert(table.connections[places[i]].wf());
        assert(table.issued.contains(table.connections[places[i]].uuid));
    }
}

/// A connection that counts as dead is listed in its control channel until
/// the sweep runs, and after the sweep the table does not hold it: no lookup
/// finds its id.
pub proof fn lemma_sweep_removes_the_dead(table: WsManagerView, i: int)
    requires
        table.wf(),
        0 <= i < table.connections.len(),
        !table.connections[i].alive,
    ensures
        table.connected_by_ctrl_channel_id(table.connections[i].ctrl_channel_id).contains(
            (table.connections[i].uuid, table.connections[i].name),
        ),
        table.dead().contains(table.connections[i].uuid),
        !table.sweep().holds(table.connections[i].uuid),
        forall|channel: Seq<char>, k: int|
            #![auto]
            0 <= k < table.sweep().connected_by_ctrl_channel_id(channel).len()
                ==> table.sweep().connected_by_ctrl_channel_id(channel)[k].0
                != table.connections[i].uuid,
{
    let client = table.connections[i];
    let channel = client.ctrl_channel_id;
    let listed = lemma_filter_places(table.connections, in_channel(channel));
    let k = choose|k: int| 0 <= k < listed.len() && #[trigger] listed[k] == i;
    assert(table.connected_by_ctrl_channel_id(channel)[k] == (client.uuid, client.name));
    let buried = lemma_filter_places(table.connections, is_dead());
    let d = choose|d: int| 0 <= d < buried.len() && #[trigger] buried[d] == i;
    assert(table.dead()[d] == client.uuid);
    let kept = lemma_filter_places(table.connections, is_alive());
    let swept = table.sweep();
    assert forall|j: int| !swept.at(j, client.uuid) by {
        if 0 <= j < swept.connections.len() {
            let place = kept[j];
            assert(table.connections[place].alive);
            if place < i {
                assert(table.connections[place].uuid != table.connections[i].uuid);
            } else if i < place {
                assert(table.connections[i].uuid != table.connections[place].uuid);
            }
        }
    }
    assert forall|channel: Seq<char>, k: int|
        #![auto]
        0 <= k < swept.connected_by_ctrl_channel_id(channel).len()
            implies swept.connected_by_ctrl_channel_id(channel)[k].0 != client.uuid by {
        let found = lemma_filter_places(swept.connections, in_channel(channel));
        assert(!swept.at(found[k], client.uuid));
    }
}

/// A sweep never removes a connection that counts as alive: the table holds
/// it afterwards, unchanged, and it is listed in its control channel as it
/// was before.
pub proof fn lemma_sweep_keeps_the_living(table: WsManagerView, i: int)
    requires
        table.wf(),
        0 <= i < table.connections.len(),
        table.connections[i].alive,
    ensures
        table.sweep().client(table.connections[i].uuid) == Some(table.connections[i]),
        table.sweep().connected_by_ctrl_channel_id(table.connections[i].ctrl_channel_id).contains(
            (table.connections[i].uuid, table.connections[i].name),
        ),
        !table.dead().contains(table.connections[i].uuid),
{
    let client = table.connections[i];
    let swept = table.sweep();
    let kept = lemma_filter_places(table.connections, is_alive());
    let k = choose|k: int| 0 <= k < kept.len() && #[trigger] kept[k] == i;
    lemma_sweep_keeps_invariant(table);
    lemma_client_at(swept, k);
    let listed = lemma_filter_places(swept.connections, in_channel(client.ctrl_channel_id));
    let l = choose|l: int| 0 <= l < listed.len() && #[trigger] listed[l] == k;
    assert(swept.connected_by_ctrl_channel_id(client.ctrl_channel_id)[l] == (
        client.uuid,
        client.name,
    ));
    let buried = lemma_filter_places(table.connections, is_dead());
    assert forall|d: int| 0 <= d < table.dead().len() implies table.dead()[d] != client.uuid by {
        let place = buried[d];
        if place < i {
            assert(table.connections[place].uuid != table.connections[i].uuid);
        } else if i < place {
            assert(table.connections[i].uuid != table.connections[place].uuid);
        }
    }
}

/// Offering a packet to one connection changes that connection and no other.
pub proof fn lemma_deliver_reaches_one(
    table: WsManagerView,
    uuid: u128,
    packet: OutgoingPacketView,
)
    requires
        table.wf(),
    ensures
        table.deliver(uuid, packet).wf(),
        table.deliver(uuid, packet).issued == table.issued,
        table.deliver(uuid, packet).connections.len() == table.connections.len(),
        forall|i: int|
            #![trigger table.deliver(uuid, packet).connections[i]]
            0 <= i < table.connections.len() ==> table.deliver(uuid, packet).connections[i]
                == if table.at(i, uuid) {
                table.connections[i].enqueue(packet)
            } else {
                table.connections[i]
            },
{
    if table.holds(uuid) {
        let k = choose|k: int| table.at(k, uuid);
        lemma_client_at(table, k);
        lemma_replacing_one(table, uuid, table.connections[k].enqueue(packet));
        assert forall|i: int|
            0 <= i < table.connections.len() && table.connections[i].uuid == uuid implies i
            == k by {
            lemma_client_at(table, i);
        }
    } else {
        assert forall|i: int| 0 <= i < table.connections.len() implies table.connections[i].uuid
            != uuid by {
            assert(!table.at(i, uuid));
        }
    }
}

/// Where no target is named twice, a dispatch offers the packet to each
/// target exactly once, and what a target answers depends on that target
/// alone: on its state when the dispatch began.
pub proof fn lemma_dispatch_reaches_each_once(
    table: WsManagerView,
    targets: Seq<u128>,
    packet: OutgoingPacketView,
)
    requires
        table.wf(),
        targets.no_duplicates(),
    ensures
        dispatched(table, targets, packet).wf(),
        reaches_each_once(table, dispatched(table, targets, packet), targets, packet),
        forall|reason: SendError|
            #![trigger refused(table, targets, packet, reason)]
            refused(table, targets, packet, reason) == targets.filter(refuses(table, reason)),
    decreases targets.len(),
{
    reveal(Seq::filter);
    if targets.len() > 0 {
        let earlier = targets.drop_last();
        let last = targets.last();
        let before = dispatched(table, earlier, packet);
        let after = dispatched(table, targets, packet);
        assert(earlier.no_duplicates());
        lemma_dispatch_reaches_each_once(table, earlier, packet);
        lemma_deliver_reaches_one(before, last, packet);
        assert(!earlier.contains(last)) by {
            if earlier.contains(last) {
                let j = choose|j: int| 0 <= j < earlier.len() && earlier[j] == last;
                assert(targets[j] == targets[targets.len() - 1]);
            }
        }
        assert forall|i: int|
            #![trigger after.connections[i]]
            0 <= i < table.connections.len() implies after.connections[i] == if targets.contains(
            table.connections[i].uuid,
        ) {
            table.connections[i].enqueue(packet)
        } else {
            table.connections[i]
        } by {
            let uuid = table.connections[i].uuid;
            assert(before.connections[i].uuid == uuid);
            if uuid == last {
                assert(targets[targets.len() - 1] == uuid);
            } else if earlier.contains(uuid) {
                let j = choose|j: int| 0 <= j < earlier.len() && earlier[j] == uuid;
                assert(targets[j] == uuid);
            } else {
                if targets.contains(uuid) {
                    let j = choose|j: int| 0 <= j < targets.len() && targets[j] == uuid;
                    assert(earlier[j] == uuid);
                }
            }
        }
        assert(before.delivery(last) == table.delivery(last)) by {
            lemma_same_answer(table, before, last);
        }
        assert forall|reason: SendError|
            #![trigger refused(table, targets, packet, reason)]
            refused(table, targets, packet, reason) == targets.filter(
                refuses(table, reason),
            ) by {
            let pred = refuses(table, reason);
            assert(refused(table, earlier, packet, reason) == earlier.filter(pred));
            assert(pred(last) == (before.delivery(last) == Err::<(), SendError>(reason)));
        }
    } else {
        assert forall|reason: SendError|
            #![trigger refused(table, targets, packet, reason)]
            refused(table, targets, packet, reason) == targets.filter(
                refuses(table, reason),
            ) by {
            assert(targets.filter(refuses(table, reason)) =~= Seq::<u128>::empty());
        }
    }
}

/// Two tables that hold the same ids in the same places give the same answer
/// for an id whose connection is the same in both.
proof fn lemma_same_answer(table: WsManagerView, other: WsManagerView, uuid: u128)
    requires
        table.wf(),
        other.wf(),
        table.connections.len() == other.connections.len(),
        forall|i: int|
            0 <= i < table.connections.len() ==> (#[trigger] other.connections[i]).uuid
                == table.connections[i].uuid,
        forall|i: int|
            0 <= i < table.connections.len() && table.connections[i].uuid == uuid
                ==> #[trigger] other.connections[i] == table.connections[i],
    ensures
        other.client(uuid) == table.client(uuid),
        other.delivery(uuid) == table.delivery(uuid),
{
    if table.holds(uuid) {
        let k = choose|k: int| table.at(k, uuid);
        lemma_client_at(table, k);
        assert(other.at(k, uuid));
        lemma_client_at(other, k);
    } else if other.holds(uuid) {
        let k = choose|k: int| other.at(k, uuid);
        assert(table.at(k, uuid));
    }
}

/// Partial delivery: where exactly one of the targets has terminated and the
/// mailbox of every other target has room, the relay reports them all as
/// matched and the terminated one, alone, as failed; every other target has
/// the packet at the end of its mailbox, behind what was waiting there.
pub proof fn lemma_partial_delivery(
    table: WsManagerView,
    targets: Seq<u128>,
    packet: OutgoingPacketView,
    k: int,
)
    requires
        table.wf(),
        targets.no_duplicates(),
        0 <= k < targets.len(),
        table.delivery(targets[k]) == Err::<(), SendError>(SendError::MailboxClosed),
        forall|j: int|
            0 <= j < targets.len() && j != k ==> table.delivery(#[trigger] targets[j]) is Ok,
    ensures
        outcome_of(table, targets, packet) == (DispatchOutcomeView::Dispatched {
            matched: targets.len(),
            failures: seq![targets[k]],
            blocked: Seq::empty(),
        }),
        dispatched(table, targets, packet).client(targets[k]) == table.client(targets[k]),
        forall|j: int|
            #![trigger targets[j]]
            0 <= j < targets.len() && j != k ==> {
                &&& table.client(targets[j]) is Some
                &&& dispatched(table, targets, packet).client(targets[j]) == Some(
                    table.client(targets[j])->Some_0.enqueue(packet),
                )
                &&& dispatched(table, targets, packet).client(targets[j])->Some_0.mailbox.queue
                    == table.client(targets[j])->Some_0.mailbox.queue.push(packet)
            },
{
    let after = dispatched(table, targets, packet);
    lemma_dispatch_reaches_each_once(table, targets, packet);
    lemma_filter_single(targets, refuses(table, SendError::MailboxClosed), k);
    lemma_filter_empty(targets, refuses(table, SendError::MailboxFull));
    assert(refused(table, targets, packet, SendError::MailboxClosed) == seq![targets[k]]);
    assert(refused(table, targets, packet, SendError::MailboxFull) == Seq::<u128>::empty());
    assert(after.client(targets[k]) == table.client(targets[k])) by {
        if table.holds(targets[k]) {
            let place = choose|i: int| table.at(i, targets[k]);
            lemma_client_at(table, place);
            assert(after.connections[place] == table.connections[place].enqueue(packet));
            assert(table.connections[place].enqueue(packet) == table.connections[place]);
            lemma_client_at(after, place);
        } else {
            if after.holds(targets[k]) {
                let place = choose|i: int| after.at(i, targets[k]);
                assert(after.connections[place].uuid == table.connections[place].uuid);
                assert(table.at(place, targets[k]));
            }
        }
    }
    assert forall|j: int| #![trigger targets[j]] 0 <= j < targets.len() && j != k implies {
        &&& table.client(targets[j]) is Some
        &&& after.client(targets[j]) == Some(table.client(targets[j])->Some_0.enqueue(packet))
        &&& after.client(targets[j])->Some_0.mailbox.queue == table.client(
            targets[j],
        )->Some_0.mailbox.queue.push(packet)
    } by {
        let uuid = targets[j];
        assert(table.delivery(uuid) is Ok);
        let place = choose|i: int| table.at(i, uuid);
        lemma_client_at(table, place);
        assert(after.connections[place] == table.connections[place].enqueue(packet));
        lemma_client_at(after, place);
    }
}

/// The agents that a selector names are connections of the table, each named
/// once, each in the channel.
pub proof fn lemma_resolved_names_each_once(
    table: WsManagerView,
    selector: Seq<char>,
    channel: Seq<char>,
)
    requires
        table.wf(),
    ensures
        resolved(table, selector, channel).no_duplicates(),
        forall|j: int|
            #![trigger resolved(table, selector, channel)[j]]
            0 <= j < resolved(table, selector, channel).len() ==> {
                &&& table.client(resolved(table, selector, channel)[j]) is Some
                &&& table.client(resolved(table, selector, channel)[j])->Some_0.ctrl_channel_id
                    == channel
            },
{
    let targets = resolved(table, selector, channel);
    if regex_compiles(selector) {
        let places = lemma_filter_places(
            table.connections,
            matching_in_channel(selector, channel),
        );
        assert forall|a: int, b: int| 0 <= a < b < targets.len() implies targets[a]
            != targets[b] by {
            assert(places[a] < places[b]);
            assert(table.connections[places[a]].uuid != table.connections[places[b]].uuid);
        }
        assert forall|j: int| #![trigger targets[j]] 0 <= j < targets.len() implies {
            &&& table.client(targets[j]) is Some
            &&& table.client(targets[j])->Some_0.ctrl_channel_id == channel
        } by {
            lemma_client_at(table, places[j]);
        }
    } else {
        let places = lemma_filter_places(table.connections, named_in_channel(selector, channel));
        if places.len() > 0 {
            lemma_client_at(table, places[0]);
        }
    }
}

/// Whatever happens to a table that keeps its invariant, it keeps it.
pub proof fn lemma_events_keep_invariant(table: WsManagerView, event: TableEvent)
    requires
        table.wf(),
    ensures
        after_event(table, event).wf(),
{
    match event {
        TableEvent::Accept(draw) => {
            let after = table.register(draw);
            if !table.issued.contains(draw) {
                assert forall|i: int, j: int| 0 <= i < j < after.connections.len() implies (
                #[trigger] after.connections[i]).uuid != (#[trigger] after.connections[j]).uuid by {
                    if j == table.connections.len() {
                        assert(table.issued.contains(table.connections[i].uuid));
                    } else {
                        assert(table.connections[i].uuid != table.connections[j].uuid);
                    }
                }
                assert forall|i: int| 0 <= i < after.connections.len() implies (
                #[trigger] after.connections[i]).wf() && after.issued.contains(
                    after.connections[i].uuid,
                ) by {
                    if i < table.connections.len() {
                        assert(table.connections[i].wf());
                        assert(table.issued.contains(table.connections[i].uuid));
                    }
                }
            }
        },
        TableEvent::Sweep => {
            lemma_sweep_keeps_invariant(table);
        },
        TableEvent::Kill(uuid) => {
            if table.holds(uuid) {
                let k = choose|k: int| table.at(k, uuid);
                lemma_client_at(table, k);
                lemma_replacing_one(table, uuid, table.connections[k].kill());
            }
        },
        TableEvent::Step(uuid, e) => {
            if table.holds(uuid) {
                let k = choose|k: int| table.at(k, uuid);
                lemma_client_at(table, k);
                lemma_replacing_one(table, uuid, table.connections[k].step(e));
            }
        },
        TableEvent::Deliver(uuid, packet) => {
            lemma_deliver_reaches_one(table, uuid, packet);
        },
    }
}

/// Only the sweep takes a connection out of the table: after any other
/// event the table holds every id that it held before, in the same place.
pub proof fn lemma_only_the_sweep_removes(table: WsManagerView, event: TableEvent, i: int)
    requires
        table.wf(),
        !(event is Sweep),
        0 <= i < table.connections.len(),
    ensures
        i < after_event(table, event).connections.len(),
        after_event(table, event).connections[i].uuid == table.connections[i].uuid,
{
    match event {
        TableEvent::Accept(_) => {},
        TableEvent::Sweep => {},
        TableEvent::Kill(uuid) => {
            if table.holds(uuid) {
                let k = choose|k: int| table.at(k, uuid);
                lemma_client_at(table, k);
                lemma_replacing_one(table, uuid, table.connections[k].kill());
            }
        },
        TableEvent::Step(uuid, e) => {
            if table.holds(uuid) {
                let k = choose|k: int| table.at(k, uuid);
                lemma_client_at(table, k);
                lemma_replacing_one(table, uuid, table.connections[k].step(e));
            }
        },
        TableEvent::Deliver(uuid, packet) => {
            lemma_deliver_reaches_one(table, uuid, packet);
        },
    }
}

/// What happens to one connection happens to that connection alone: an event
/// that names an id leaves every connection with another id as it was.
pub proof fn lemma_faults_stay_with_their_connection(
    table: WsManagerView,
    event: TableEvent,
    i: int,
)
    requires
        table.wf(),
        0 <= i < table.connections.len(),
        match event {
            TableEvent::Kill(uuid) => table.connections[i].uuid != uuid,
            TableEvent::Step(uuid, _) => table.connections[i].uuid != uuid,
            TableEvent::Deliver(uuid, _) => table.connections[i].uuid != uuid,
            TableEvent::Accept(_) => true,
            TableEvent::Sweep => false,
        },
    ensures
        i < after_event(table, event).connections.len(),
        after_event(table, event).connections[i] == table.connections[i],
{
    match event {
        TableEvent::Accept(_) => {},
        TableEvent::Sweep => {},
        TableEvent::Kill(uuid) => {
            if table.holds(uuid) {
                let k = choose|k: int| table.at(k, uuid);
                lemma_client_at(table, k);
                lemma_replacing_one(table, uuid, table.connections[k].kill());
            }
        },
        TableEvent::Step(uuid, e) => {
            if table.holds(uuid) {
                let k = choose|k: int| table.at(k, uuid);
                lemma_client_at(table, k);
                lemma_replacing_one(table, uuid, table.connections[k].step(e));
            }
        },
        TableEvent::Deliver(uuid, packet) => {
            lemma_deliver_reaches_one(table, uuid, packet);
        },
    }
}

/// Death and termination are for good: whatever happens short of the sweep,
/// a connection that counts as dead does not come alive again, and a
/// connection that has terminated does not open again.
pub proof fn lemma_no_way_back(table: WsManagerView, event: TableEvent, i: int)
    requires
        table.wf(),
        !(event is Sweep),
        0 <= i < table.connections.len(),
    ensures
        i < after_event(table, event).connections.len(),
        !table.connections[i].alive ==> !after_event(table, event).connections[i].alive,
        !table.connections[i].open() ==> !after_event(table, event).connections[i].open(),
{
    match event {
        TableEvent::Accept(_) => {},
        TableEvent::Sweep => {},
        TableEvent::Kill(uuid) => {
            if table.holds(uuid) {
                let k = choose|k: int| table.at(k, uuid);
                lemma_client_at(table, k);
                lemma_replacing_one(table, uuid, table.connections[k].kill());
                lemma_client_at(table, i);
            }
        },
        TableEvent::Step(uuid, e) => {
            if table.holds(uuid) {
                let k = choose|k: int| table.at(k, uuid);
                lemma_client_at(table, k);
                lemma_replacing_one(table, uuid, table.connections[k].step(e));
                lemma_client_at(table, i);
            }
        },
        TableEvent::Deliver(uuid, packet) => {
            lemma_deliver_reaches_one(table, uuid, packet);
        },
    }
}

/// The identity of a connection is its agent's own: the name and the control
/// channel change only when the loop of that very connection reports a frame.
pub proof fn lemma_identity_is_the_agents_own(table: WsManagerView, event: TableEvent, i: int)
    requires
        table.wf(),
        !(event is Sweep),
        0 <= i < table.connections.len(),
        !(event matches TableEvent::Step(uuid, ClientEventView::Frame(_))
            && uuid == table.connections[i].uuid),
    ensures
        i < after_event(table, event).connections.len(),
        after_event(table, event).connections[i].name == table.connections[i].name,
        after_event(table, event).connections[i].ctrl_channel_id
            == table.connections[i].ctrl_channel_id,
{
    match event {
        TableEvent::Accept(_) => {},
        TableEvent::Sweep => {},
        TableEvent::Kill(uuid) => {
            if table.holds(uuid) {
                let k = choose|k: int| table.at(k, uuid);
                lemma_client_at(table, k);
                lemma_replacing_one(table, uuid, table.connections[k].kill());
                lemma_client_at(table, i);
            }
        },
        TableEvent::Step(uuid, e) => {
            if table.holds(uuid) {
                let k = choose|k: int| table.at(k, uuid);
                lemma_client_at(table, k);
                lemma_replacing_one(table, uuid, table.connections[k].step(e));
                lemma_client_at(table, i);
            }
        },
        TableEvent::Deliver(uuid, packet) => {
            lemma_deliver_reaches_one(table, uuid, packet);
        },
    }
}

/// The writer makes room: once the loop of an open connection has reported
/// that its socket can take a frame, the mailbox of that connection takes a
/// packet.
pub proof fn lemma_writer_makes_room(table: WsManagerView, i: int)
    requires
        table.wf(),
        0 <= i < table.connections.len(),
        table.connections[i].open(),
    ensures
        after_event(
            table,
            TableEvent::Step(table.connections[i].uuid, ClientEventView::WriterReady),
        ).delivery(table.connections[i].uuid) is Ok,
{
    let uuid = table.connections[i].uuid;
    let event = TableEvent::Step(uuid, ClientEventView::WriterReady);
    let after = after_event(table, event);
    lemma_client_at(table, i);
    lemma_replacing_one(table, uuid, table.connections[i].step(ClientEventView::WriterReady));
    lemma_events_keep_invariant(table, event);
    assert(after.connections[i] == table.connections[i].step(ClientEventView::WriterReady));
    lemma_client_at(after, i);
}

/// A later offer settles what an earlier one left open: where every agent
/// that was left waiting has room by now, and none is named twice, each of
/// them gets the packet behind what waits in its mailbox, none is left
/// waiting, and the failures are those reported before.
pub proof fn lemma_retry_delivers(
    table: WsManagerView,
    outcome: DispatchOutcomeView,
    packet: OutgoingPacketView,
)
    requires
        table.wf(),
        outcome.waiting().no_duplicates(),
        forall|j: int|
            0 <= j < outcome.waiting().len() ==> table.delivery(
                #[trigger] outcome.waiting()[j],
            ) is Ok,
    ensures
        retried(table, outcome, packet).settled(),
        outcome matches DispatchOutcomeView::Dispatched { matched, failures, .. } ==> retried(
            table,
            outcome,
            packet,
        ) == (DispatchOutcomeView::Dispatched { matched, failures, blocked: Seq::empty() }),
        dispatched(table, outcome.waiting(), packet).wf(),
        reaches_each_once(
            table,
            dispatched(table, outcome.waiting(), packet),
            outcome.waiting(),
            packet,
        ),
{
    let waiting = outcome.waiting();
    lemma_dispatch_reaches_each_once(table, waiting, packet);
    lemma_filter_empty(waiting, refuses(table, SendError::MailboxClosed));
    lemma_filter_empty(waiting, refuses(table, SendError::MailboxFull));
    match outcome {
        DispatchOutcomeView::NoMatch => {},
        DispatchOutcomeView::Dispatched { matched, failures, blocked } => {
            assert(refused(table, blocked, packet, SendError::MailboxClosed) == Seq::<
                u128,
            >::empty());
            assert(refused(table, blocked, packet, SendError::MailboxFull) == Seq::<u128>::empty());
            assert(failures + Seq::<u128>::empty() =~= failures);
        },
    }
}

/// The agents that a dispatch leaves waiting are agents it was meant for,
/// each once, and each of them was open with a full mailbox.
pub proof fn lemma_the_waiting_are_full(
    table: WsManagerView,
    targets: Seq<u128>,
    packet: OutgoingPacketView,
)
    requires
        table.wf(),
        targets.no_duplicates(),
    ensures
        outcome_of(table, targets, packet).waiting().no_duplicates(),
        forall|j: int|
            #![trigger outcome_of(table, targets, packet).waiting()[j]]
            0 <= j < outcome_of(table, targets, packet).waiting().len() ==> {
                &&& targets.contains(outcome_of(table, targets, packet).waiting()[j])
                &&& table.delivery(outcome_of(table, targets, packet).waiting()[j]) == Err::<
                    (),
                    SendError,
                >(SendError::MailboxFull)
            },
{
    let waiting = outcome_of(table, targets, packet).waiting();
    if targets.len() > 0 {
        lemma_dispatch_reaches_each_once(table, targets, packet);
        let pred = refuses(table, SendError::MailboxFull);
        let places = lemma_filter_places(targets, pred);
        assert(waiting == targets.filter(pred));
        assert forall|a: int, b: int| 0 <= a < b < waiting.len() implies waiting[a]
            != waiting[b] by {
            assert(places[a] < places[b]);
            assert(targets[places[a]] != targets[places[b]]);
        }
        assert forall|j: int| #![trigger waiting[j]] 0 <= j < waiting.len() implies {
            &&& targets.contains(waiting[j])
            &&& table.delivery(waiting[j]) == Err::<(), SendError>(SendError::MailboxFull)
        } by {
            assert(targets[places[j]] == waiting[j]);
            assert(pred(targets[places[j]]));
        }
    }
}

/// The table after the writer of each of `agents` ran once, in their order.
pub open spec fn writers_ran(table: WsManagerView, agents: Seq<u128>) -> WsManagerView
    decreases agents.len(),
{
    if agents.len() == 0 {
        table
    } else {
        after_event(
            writers_ran(table, agents.drop_last()),
            TableEvent::Step(agents.last(), ClientEventView::WriterReady),
        )
    }
}

/// Writers that run touch their own connections only: each of them takes
/// the oldest packet out of its mailbox, and every other connection stays as
/// it was.
pub proof fn lemma_writers_run(table: WsManagerView, agents: Seq<u128>)
    requires
        table.wf(),
        agents.no_duplicates(),
    ensures
        writers_ran(table, agents).wf(),
        writers_ran(table, agents).issued == table.issued,
        writers_ran(table, agents).connections.len() == table.connections.len(),
        forall|i: int|
            #![trigger writers_ran(table, agents).connections[i]]
            0 <= i < table.connections.len() ==> writers_ran(table, agents).connections[i]
                == if agents.contains(table.connections[i].uuid) {
                table.connections[i].step(ClientEventView::WriterReady)
            } else {
                table.connections[i]
            },
    decreases agents.len(),
{
    if agents.len() > 0 {
        let earlier = agents.drop_last();
        let last = agents.last();
        let before = writers_ran(table, earlier);
        let after = writers_ran(table, agents);
        lemma_writers_run(table, earlier);
        assert(!earlier.contains(last)) by {
            if earlier.contains(last) {
                let j = choose|j: int| 0 <= j < earlier.len() && earlier[j] == last;
                assert(agents[j] == agents[agents.len() - 1]);
            }
        }
        if before.holds(last) {
            let k = choose|k: int| before.at(k, last);
            lemma_client_at(before, k);
            assert(before.connections[k].wf());
            lemma_replacing_one(
                before,
                last,
                before.connections[k].step(ClientEventView::WriterReady),
            );
            assert(before.connections[k] == table.connections[k]);
        } else {
            assert forall|i: int| 0 <= i < before.connections.len() implies before.connections[i].uuid
                != last by {
                assert(!before.at(i, last));
            }
        }
        assert forall|i: int|
            #![trigger after.connections[i]]
            0 <= i < table.connections.len() implies after.connections[i] == if agents.contains(
            table.connections[i].uuid,
        ) {
            table.connections[i].step(ClientEventView::WriterReady)
        } else {
            table.connections[i]
        } by {
            let uuid = table.connections[i].uuid;
            assert(before.connections[i].uuid == uuid);
            if uuid == last {
                assert(agents[agents.len() - 1] == uuid);
                lemma_client_at(before, i);
            } else if earlier.contains(uuid) {
                let j = choose|j: int| 0 <= j < earlier.len() && earlier[j] == uuid;
                assert(agents[j] == uuid);
            } else {
                if agents.contains(uuid) {
                    let j = choose|j: int| 0 <= j < agents.len() && agents[j] == uuid;
                    assert(earlier[j] == uuid);
                }
            }
        }
    }
}

/// Partial delivery, to the end. Of the agents that a command is meant for,
/// exactly one has terminated. The command is offered to them all; the
/// writers of those whose mailbox was at capacity run once; the command is
/// offered again to those. Then the relay reports them all as matched and
/// the terminated one, alone, as failed, nobody waits, every other agent has
/// the packet at the end of its mailbox, and no connection that the command
/// was not meant for has changed.
pub proof fn lemma_partial_delivery_to_the_end(
    table: WsManagerView,
    targets: Seq<u128>,
    packet: OutgoingPacketView,
    k: int,
)
    requires
        table.wf(),
        targets.no_duplicates(),
        0 <= k < targets.len(),
        table.delivery(targets[k]) == Err::<(), SendError>(SendError::MailboxClosed),
        forall|j: int|
            0 <= j < targets.len() && j != k ==> table.delivery(#[trigger] targets[j]) != Err::<
                (),
                SendError,
            >(SendError::MailboxClosed),
    ensures
        ({
            let first = outcome_of(table, targets, packet);
            let offered = dispatched(table, targets, packet);
            let drained = writers_ran(offered, first.waiting());
            let end = dispatched(drained, first.waiting(), packet);
            &&& retried(drained, first, packet) == (DispatchOutcomeView::Dispatched {
                matched: targets.len(),
                failures: seq![targets[k]],
                blocked: Seq::empty(),
            })
            &&& end.wf()
            &&& end.connections.len() == table.connections.len()
            &&& forall|i: int|
                #![trigger end.connections[i]]
                0 <= i < table.connections.len() ==> {
                    &&& end.connections[i].uuid == table.connections[i].uuid
                    &&& targets.contains(table.connections[i].uuid) && table.connections[i].uuid
                        != targets[k] ==> end.connections[i].mailbox.queue.len() > 0
                        && end.connections[i].mailbox.queue.last() == packet
                    &&& !targets.contains(table.connections[i].uuid) ==> end.connections[i]
                        == table.connections[i]
                    &&& table.connections[i].uuid == targets[k] ==> end.connections[i]
                        == table.connections[i]
                }
        }),
{
    let first = outcome_of(table, targets, packet);
    let offered = dispatched(table, targets, packet);
    let waiting = first.waiting();
    let drained = writers_ran(offered, waiting);
    let end = dispatched(drained, waiting, packet);
    let full = refuses(table, SendError::MailboxFull);
    lemma_dispatch_reaches_each_once(table, targets, packet);
    lemma_filter_single(targets, refuses(table, SendError::MailboxClosed), k);
    lemma_the_waiting_are_full(table, targets, packet);
    lemma_writers_run(offered, waiting);
    let places = lemma_filter_places(targets, full);
    assert(waiting == targets.filter(full));
    // Who waits was full and is untouched by the first offer; its writer makes room.
    assert forall|i: int|
        0 <= i < table.connections.len() && waiting.contains(
            table.connections[i].uuid,
        ) implies offered.connections[i] == table.connections[i] && (
    #[trigger] drained.connections[i]).mailbox.accepts() by {
        let uuid = table.connections[i].uuid;
        let j = choose|j: int| 0 <= j < waiting.len() && waiting[j] == uuid;
        assert(table.delivery(waiting[j]) == Err::<(), SendError>(SendError::MailboxFull));
        lemma_client_at(table, i);
        assert(table.connections[i].wf());
    }
    assert forall|j: int| 0 <= j < waiting.len() implies drained.delivery(
        #[trigger] waiting[j],
    ) is Ok by {
        let uuid = waiting[j];
        assert(table.delivery(uuid) == Err::<(), SendError>(SendError::MailboxFull));
        let i = choose|i: int| table.at(i, uuid);
        lemma_client_at(table, i);
        assert(drained.connections[i].mailbox.accepts());
        assert(drained.connections[i].uuid == uuid);
        lemma_client_at(drained, i);
    }
    lemma_retry_delivers(drained, first, packet);
    assert forall|i: int| #![trigger end.connections[i]] 0 <= i < table.connections.len() implies {
        &&& end.connections[i].uuid == table.connections[i].uuid
        &&& targets.contains(table.connections[i].uuid) && table.connections[i].uuid != targets[k]
            ==> end.connections[i].mailbox.queue.len() > 0
            && end.connections[i].mailbox.queue.last() == packet
        &&& !targets.contains(table.connections[i].uuid) ==> end.connections[i]
            == table.connections[i]
        &&& table.connections[i].uuid == targets[k] ==> end.connections[i] == table.connections[i]
    } by {
        let uuid = table.connections[i].uuid;
        lemma_client_at(table, i);
        assert(table.connections[i].wf());
        assert(offered.connections[i].uuid == uuid);
        assert(drained.connections[i].uuid == uuid);
        if waiting.contains(uuid) {
            let j = choose|j: int| 0 <= j < waiting.len() && waiting[j] == uuid;
            assert(targets.contains(waiting[j]));
            assert(drained.connections[i].mailbox.accepts());
        } else if targets.contains(uuid) {
            let j = choose|j: int| 0 <= j < targets.len() && targets[j] == uuid;
            if full(targets[j]) {
                let p = choose|p: int| 0 <= p < places.len() && #[trigger] places[p] == j;
                assert(waiting[p] == targets[j]);
            }
        }
    }
}

} // verus!
