//! The table of all agent connections.
//!
//! The table hands out ids, keeps every connection under its id until a sweep
//! finds it dead, and answers lookups by control channel, by name and by
//! pattern. Beside the map from ids to connections it keeps the order in
//! which the connections were accepted, and every lookup answers in that
//! order.

use std::collections::{HashMap, HashSet};
use vstd::prelude::*;

use crate::client::{
    ClientAction, ClientActionView, ClientEvent, ClientEventView, WsClient, WsClientView,
};
use crate::ids::{is_random_id, random_id};
use crate::laws::lemma_sweep_keeps_invariant;
use crate::mailbox::SendError;
use crate::packets::outgoing::OutgoingPacketView;
use crate::selector::{regex_matches, Pattern};
use crate::seq_facts::{lemma_filter_first, lemma_filter_none, lemma_filter_step};
use crate::server_command::ServerCommand;

verus! {

broadcast use vstd::std_specs::hash::group_hash_axioms;

/// How many seconds pass between two sweeps.
pub const SWEEP_INTERVAL_SECONDS: u64 = 10;

/// The table of connections.
pub struct WsManager {
    connections: HashMap<u128, WsClient>,
    order: Vec<u128>,
    issued: HashSet<u128>,
}

/// The mathematical value of a [`WsManager`]: the connections in the order in
/// which they were accepted, and every id that was ever handed out.
pub struct WsManagerView {
    pub connections: Seq<WsClientView>,
    pub issued: Set<u128>,
}

/// The connections that count as alive.
pub open spec fn is_alive() -> spec_fn(WsClientView) -> bool {
    |c: WsClientView| c.alive
}

/// The connections that count as dead.
pub open spec fn is_dead() -> spec_fn(WsClientView) -> bool {
    |c: WsClientView| !c.alive
}

/// The connections whose agent announced the control channel `channel`.
pub open spec fn in_channel(channel: Seq<char>) -> spec_fn(WsClientView) -> bool {
    |c: WsClientView| c.ctrl_channel_id == channel
}

/// The connections in `channel` whose agent announced exactly `name`.
pub open spec fn named_in_channel(name: Seq<char>, channel: Seq<char>) -> spec_fn(
    WsClientView,
) -> bool {
    |c: WsClientView| c.ctrl_channel_id == channel && c.name == name
}

/// The connections in `channel` whose name the regular expression `pattern`
/// matches.
pub open spec fn matching_in_channel(pattern: Seq<char>, channel: Seq<char>) -> spec_fn(
    WsClientView,
) -> bool {
    |c: WsClientView| c.ctrl_channel_id == channel && regex_matches(pattern, c.name)
}

/// The id of a connection.
pub open spec fn uuid_of() -> spec_fn(WsClientView) -> u128 {
    |c: WsClientView| c.uuid
}

/// The id and the name of a connection.
pub open spec fn listing_of() -> spec_fn(WsClientView) -> (u128, Seq<char>) {
    |c: WsClientView| (c.uuid, c.name)
}

/// A list of ids and names, each name as its characters.
pub open spec fn listing_view(listing: Seq<(u128, String)>) -> Seq<(u128, Seq<char>)> {
    listing.map_values(|entry: (u128, String)| (entry.0, entry.1@))
}

impl WsManagerView {
    /// Every connection keeps its invariant, no two connections share an id,
    /// and the id of every connection is among those handed out.
    pub open spec fn wf(self) -> bool {
        &&& forall|i: int| 0 <= i < self.connections.len() ==> (#[trigger] self.connections[i]).wf()
        &&& forall|i: int, j: int|
            0 <= i < j < self.connections.len() ==> (#[trigger] self.connections[i]).uuid != (
            #[trigger] self.connections[j]).uuid
        &&& forall|i: int|
            0 <= i < self.connections.len() ==> self.issued.contains(
                (#[trigger] self.connections[i]).uuid,
            )
    }

    /// Whether `i` is the place of the connection with the id `uuid`.
    pub open spec fn at(self, i: int, uuid: u128) -> bool {
        0 <= i < self.connections.len() && self.connections[i].uuid == uuid
    }

    /// Whether the table holds a connection with the id `uuid`.
    pub open spec fn holds(self, uuid: u128) -> bool {
        exists|i: int| self.at(i, uuid)
    }

    /// The connection with the id `uuid`, if the table holds one.
    pub open spec fn client(self, uuid: u128) -> Option<WsClientView> {
        if self.holds(uuid) {
            Some(self.connections[choose|i: int| self.at(i, uuid)])
        } else {
            None
        }
    }

    /// The table with `client` in the place of the connection with the id
    /// `uuid`; the same table if it holds no such connection.
    pub open spec fn with_client(self, uuid: u128, client: WsClientView) -> WsManagerView {
        if self.holds(uuid) {
            WsManagerView {
                connections: self.connections.update(choose|i: int| self.at(i, uuid), client),
                ..self
            }
        } else {
            self
        }
    }

    /// The table after a sweep: the connections that count as alive, in
    /// their order. The ids handed out are not forgotten.
    pub open spec fn sweep(self) -> WsManagerView {
        WsManagerView { connections: self.connections.filter(is_alive()), ..self }
    }

    /// The ids of the connections that a sweep removes, in table order.
    pub open spec fn dead(self) -> Seq<u128> {
        self.connections.filter(is_dead()).map_values(uuid_of())
    }

    /// The id and name of every connection in `channel`, in table order.
    pub open spec fn connected_by_ctrl_channel_id(self, channel: Seq<char>) -> Seq<
        (u128, Seq<char>),
    > {
        self.connections.filter(in_channel(channel)).map_values(listing_of())
    }

    /// The id of every connection in `channel` whose name the regular
    /// expression `pattern` matches, in table order.
    pub open spec fn connections_by_regex(self, pattern: Seq<char>, channel: Seq<char>) -> Seq<
        u128,
    > {
        self.connections.filter(matching_in_channel(pattern, channel)).map_values(uuid_of())
    }

    /// The id of the first connection in `channel` whose name is exactly
    /// `name`.
    pub open spec fn connection_by_name(self, name: Seq<char>, channel: Seq<char>) -> Option<
        u128,
    > {
        let found = self.connections.filter(named_in_channel(name, channel));
        if found.len() > 0 {
            Some(found[0].uuid)
        } else {
            None
        }
    }

    /// The table after the connection with the id `uuid` was marked dead.
    pub open spec fn kill(self, uuid: u128) -> WsManagerView {
        match self.client(uuid) {
            Some(client) => self.with_client(uuid, client.kill()),
            None => self,
        }
    }

    /// The table after an attempt to queue `packet` for the connection with
    /// the id `uuid`.
    pub open spec fn deliver(self, uuid: u128, packet: OutgoingPacketView) -> WsManagerView {
        match self.client(uuid) {
            Some(client) => self.with_client(uuid, client.enqueue(packet)),
            None => self,
        }
    }

    /// What an attempt to queue a packet for the connection with the id
    /// `uuid` reports. A connection that the table no longer holds counts as
    /// terminated.
    pub open spec fn delivery(self, uuid: u128) -> Result<(), SendError> {
        match self.client(uuid) {
            Some(client) => client.mailbox.send_result(),
            None => Err(SendError::MailboxClosed),
        }
    }

    /// The table after the loop of the connection with the id `uuid` reported
    /// `event`.
    pub open spec fn step(self, uuid: u128, event: ClientEventView) -> WsManagerView {
        match self.client(uuid) {
            Some(client) => self.with_client(uuid, client.step(event)),
            None => self,
        }
    }

    /// What the loop of the connection with the id `uuid` is to do after it
    /// reported `event`. The loop of a connection that the table no longer
    /// holds is to stop.
    pub open spec fn action(self, uuid: u128, event: ClientEventView) -> ClientActionView {
        match self.client(uuid) {
            Some(client) => client.action(event),
            None => ClientActionView::Stop,
        }
    }

    /// Whether `candidate` is a random id that the table has handed out.
    pub open spec fn drawn_before(self, candidate: u128) -> bool {
        is_random_id(candidate) && self.issued.contains(candidate)
    }

    /// Whether a random draw can repeat an id: the table has handed out at
    /// least one random id.
    pub open spec fn repeats_a_draw(self) -> bool {
        exists|candidate: u128| self.drawn_before(candidate)
    }

    /// The table after `candidate` was offered as the id of a new connection:
    /// an id that was never handed out gets a fresh connection at the end of
    /// the table; any other changes nothing.
    pub open spec fn register(self, candidate: u128) -> WsManagerView {
        if self.issued.contains(candidate) {
            self
        } else {
            WsManagerView {
                connections: self.connections.push(WsClientView::fresh(candidate)),
                issued: self.issued.insert(candidate),
            }
        }
    }
}

/// The table that a map of connections, the order of their ids and a set of
/// ids amount to.
pub closed spec fn table_of(
    clients: Map<u128, WsClient>,
    order: Seq<u128>,
    issued: Set<u128>,
) -> WsManagerView {
    WsManagerView { connections: Seq::new(order.len(), |i: int| clients[order[i]]@), issued }
}

/// Whether the map and the order are in step: the order names every key of
/// the map once and nothing else, and every connection stands under its own
/// id.
pub closed spec fn keyed(clients: Map<u128, WsClient>, order: Seq<u128>) -> bool {
    &&& order.no_duplicates()
    &&& forall|i: int|
        0 <= i < order.len() ==> clients.dom().contains(#[trigger] order[i])
            && clients[order[i]]@.uuid == order[i]
    &&& forall|k: u128| clients.dom().contains(k) ==> order.contains(k)
}

impl View for WsManager {
    type V = WsManagerView;

    closed spec fn view(&self) -> WsManagerView {
        table_of(self.connections@, self.order@, self.issued@)
    }
}

/// In a table whose map and order are in step, the map holds an id exactly
/// when the table does, and the place of the id in the order is its place in
/// the table.
proof fn lemma_keyed_place(
    clients: Map<u128, WsClient>,
    order: Seq<u128>,
    issued: Set<u128>,
    uuid: u128,
) -> (place: int)
    requires
        keyed(clients, order),
    ensures
        clients.dom().contains(uuid) <==> table_of(clients, order, issued).holds(uuid),
        clients.dom().contains(uuid) ==> {
            &&& 0 <= place < order.len()
            &&& order[place] == uuid
            &&& table_of(clients, order, issued).at(place, uuid)
            &&& (choose|k: int| table_of(clients, order, issued).at(k, uuid)) == place
            &&& table_of(clients, order, issued).client(uuid) == Some(clients[uuid]@)
        },
{
    let table = table_of(clients, order, issued);
    if clients.dom().contains(uuid) {
        assert(order.contains(uuid));
        let i = choose|i: int| 0 <= i < order.len() && order[i] == uuid;
        assert(table.at(i, uuid));
        let k = choose|k: int| table.at(k, uuid);
        assert(order[k] == uuid) by {
            assert(clients[order[k]]@.uuid == order[k]);
        }
        i
    } else {
        if table.holds(uuid) {
            let k = choose|k: int| table.at(k, uuid);
            assert(clients[order[k]]@.uuid == order[k]);
            assert(clients.dom().contains(order[k]));
        }
        0
    }
}

/// After the connection under one id was changed and kept its id and its
/// invariant, the table is the old one with that connection replaced, and it
/// keeps its invariant.
proof fn lemma_replaced(
    before: Map<u128, WsClient>,
    after: Map<u128, WsClient>,
    order: Seq<u128>,
    issued: Set<u128>,
    uuid: u128,
)
    requires
        keyed(before, order),
        table_of(before, order, issued).wf(),
        before.dom().contains(uuid),
        after == before.insert(uuid, after[uuid]),
        after[uuid]@.uuid == uuid,
        after[uuid]@.wf(),
    ensures
        keyed(after, order),
        table_of(after, order, issued).wf(),
        table_of(after, order, issued) == table_of(before, order, issued).with_client(
            uuid,
            after[uuid]@,
        ),
{
    let old_table = table_of(before, order, issued);
    let new_table = table_of(after, order, issued);
    let place = lemma_keyed_place(before, order, issued, uuid);
    assert(new_table.connections =~= old_table.connections.update(place, after[uuid]@)) by {
        assert forall|i: int| 0 <= i < order.len() implies new_table.connections[i]
            == old_table.connections.update(place, after[uuid]@)[i] by {
            if i != place {
                assert(order[i] != order[place]);
            }
        }
    }
    assert forall|a: int, b: int| 0 <= a < b < new_table.connections.len() implies (
    #[trigger] new_table.connections[a]).uuid != (#[trigger] new_table.connections[b]).uuid by {
        assert(old_table.connections[a].uuid != old_table.connections[b].uuid);
    }
    assert forall|a: int| 0 <= a < new_table.connections.len() implies {
        &&& (#[trigger] new_table.connections[a]).wf()
        &&& new_table.issued.contains(new_table.connections[a].uuid)
    } by {
        assert(old_table.issued.contains(old_table.connections[a].uuid));
        if a != place {
            assert(old_table.connections[a].wf());
        }
    }
    assert forall|k: u128| after.dom().contains(k) implies order.contains(k) by {
        if k != uuid {
            assert(before.dom().contains(k));
        } else {
            assert(order[place] == uuid);
        }
    }
}

/// Taking the connection at one place out of the map and out of the order
/// leaves the two in step, and takes that connection out of the table.
proof fn lemma_taken_out(
    clients: Map<u128, WsClient>,
    order: Seq<u128>,
    issued: Set<u128>,
    place: int,
)
    requires
        keyed(clients, order),
        0 <= place < order.len(),
    ensures
        keyed(clients.remove(order[place]), order.remove(place)),
        table_of(clients.remove(order[place]), order.remove(place), issued).connections
            == table_of(clients, order, issued).connections.remove(place),
{
    let fewer = clients.remove(order[place]);
    let shorter = order.remove(place);
    assert forall|j: int| 0 <= j < shorter.len() implies fewer.dom().contains(
        #[trigger] shorter[j],
    ) && fewer[shorter[j]]@.uuid == shorter[j] && fewer[shorter[j]] == clients[shorter[j]] by {
        let j0 = if j < place {
            j
        } else {
            j + 1
        };
        assert(shorter[j] == order[j0]);
        assert(order[j0] != order[place]);
        assert(clients.dom().contains(order[j0]));
    }
    assert forall|k: u128| fewer.dom().contains(k) implies shorter.contains(k) by {
        assert(clients.dom().contains(k));
        assert(order.contains(k));
        let p = choose|p: int| 0 <= p < order.len() && order[p] == k;
        let moved = if p < place {
            p
        } else {
            p - 1
        };
        assert(shorter[moved] == k);
    }
    assert forall|a: int, b: int|
        0 <= a < shorter.len() && 0 <= b < shorter.len() && a != b implies shorter[a]
        != shorter[b] by {
        let a0 = if a < place {
            a
        } else {
            a + 1
        };
        let b0 = if b < place {
            b
        } else {
            b + 1
        };
        assert(order[a0] != order[b0]);
    }
    assert(table_of(fewer, shorter, issued).connections =~= table_of(
        clients,
        order,
        issued,
    ).connections.remove(place));
}

impl WsManager {
    /// What holds of every table: each connection keeps its invariant, no
    /// two connections share an id, every id in the table was handed out by
    /// it, and the map and the order of acceptance are in step.
    #[verifier::type_invariant]
    pub open spec fn wf(&self) -> bool {
        self@.wf() && self.in_step()
    }

    /// Whether the map and the order of acceptance are in step.
    pub closed spec fn in_step(&self) -> bool {
        keyed(self.connections@, self.order@)
    }

    /// An empty table that has handed out no id.
    pub fn new() -> (manager: WsManager)
        ensures
            manager.wf(),
            manager@.connections.len() == 0,
            manager@.issued == Set::<u128>::empty(),
    {
        WsManager { connections: HashMap::new(), order: Vec::new(), issued: HashSet::new() }
    }

    /// Takes the table apart and leaves an empty one behind.
    fn take(&mut self) -> (parts: (HashMap<u128, WsClient>, Vec<u128>, HashSet<u128>))
        ensures
            keyed(parts.0@, parts.1@),
            table_of(parts.0@, parts.1@, parts.2@) == old(self)@,
            old(self)@.wf(),
            parts.2@ == old(self)@.issued,
    {
        proof {
            use_type_invariant(&*self);
        }
        let mut taken = WsManager::new();
        std::mem::swap(self, &mut taken);
        let WsManager { connections, order, issued } = taken;
        (connections, order, issued)
    }

    /// Puts a table together.
    fn put(
        &mut self,
        connections: HashMap<u128, WsClient>,
        order: Vec<u128>,
        issued: HashSet<u128>,
    )
        requires
            keyed(connections@, order@),
            table_of(connections@, order@, issued@).wf(),
        ensures
            final(self).wf(),
            final(self)@ == table_of(connections@, order@, issued@),
    {
        *self = WsManager { connections, order, issued };
    }

    /// The number of connections in the table.
    pub fn len(&self) -> (n: usize)
        ensures
            n == self@.connections.len(),
    {
        self.order.len()
    }

    /// Whether the table holds a connection with the id `uuid`.
    pub fn contains(&self, uuid: u128) -> (held: bool)
        ensures
            held == self@.holds(uuid),
    {
        proof {
            use_type_invariant(self);
            lemma_keyed_place(self.connections@, self.order@, self.issued@, uuid);
        }
        self.connections.contains_key(&uuid)
    }

    /// Puts a fresh connection under the id `candidate`, unless that id was
    /// handed out before. Says whether it did.
    pub fn register(&mut self, candidate: u128) -> (accepted: bool)
        ensures
            final(self).wf(),
            accepted == !old(self)@.issued.contains(candidate),
            final(self)@ == old(self)@.register(candidate),
    {
        proof {
            use_type_invariant(&*self);
        }
        if self.issued.contains(&candidate) {
            return false;
        }
        let (mut connections, mut order, mut issued) = self.take();
        let ghost old_map = connections@;
        let ghost old_order = order@;
        let ghost before = old(self)@;
        proof {
            lemma_keyed_place(old_map, old_order, before.issued, candidate);
            if old_map.dom().contains(candidate) {
                let k = choose|k: int| before.at(k, candidate);
                assert(before.issued.contains(before.connections[k].uuid));
            }
        }
        issued.insert(candidate);
        connections.insert(candidate, WsClient::new(candidate));
        order.push(candidate);
        proof {
            let after = table_of(connections@, order@, issued@);
            assert(after.connections =~= before.connections.push(WsClientView::fresh(candidate)))
                by {
                assert forall|i: int| 0 <= i < old_order.len() implies after.connections[i]
                    == before.connections[i] by {
                    assert(old_map.dom().contains(old_order[i]));
                }
            }
            assert forall|i: int, j: int| 0 <= i < j < after.connections.len() implies (
            #[trigger] after.connections[i]).uuid != (#[trigger] after.connections[j]).uuid by {
                if j == before.connections.len() {
                    assert(before.issued.contains(before.connections[i].uuid));
                } else {
                    assert(before.connections[i].uuid != before.connections[j].uuid);
                }
            }
            assert forall|i: int| 0 <= i < after.connections.len() implies {
                &&& (#[trigger] after.connections[i]).wf()
                &&& after.issued.contains(after.connections[i].uuid)
            } by {
                if i < before.connections.len() {
                    assert(before.connections[i].wf());
                    assert(before.issued.contains(before.connections[i].uuid));
                }
            }
            assert(keyed(connections@, order@)) by {
                assert forall|i: int| 0 <= i < order@.len() implies connections@.dom().contains(
                    #[trigger] order@[i],
                ) && connections@[order@[i]]@.uuid == order@[i] by {
                    if i < old_order.len() {
                        assert(old_map.dom().contains(old_order[i]));
                    }
                }
                assert forall|k: u128| connections@.dom().contains(k) implies order@.contains(
                    k,
                ) by {
                    if k == candidate {
                        assert(order@[old_order.len() as int] == candidate);
                    } else {
                        assert(old_order.contains(k));
                        let i = choose|i: int| 0 <= i < old_order.len() && old_order[i] == k;
                        assert(order@[i] == k);
                    }
                }
                assert forall|i: int, j: int|
                    0 <= i < order@.len() && 0 <= j < order@.len() && i != j implies order@[i]
                    != order@[j] by {
                    if i < old_order.len() && j < old_order.len() {
                        assert(old_order[i] != old_order[j]);
                    } else if i < old_order.len() {
                        assert(old_map.dom().contains(old_order[i]));
                    } else {
                        assert(old_map.dom().contains(old_order[j]));
                    }
                }
            }
        }
        self.put(connections, order, issued);
        true
    }

    /// The name that the connection with the id `uuid` has announced.
    pub fn get_name(&self, uuid: u128) -> (name: Option<String>)
        ensures
            match name {
                Some(text) => self@.client(uuid) matches Some(client) && client.name == text@,
                None => self@.client(uuid) is None,
            },
    {
        proof {
            use_type_invariant(self);
            lemma_keyed_place(self.connections@, self.order@, self.issued@, uuid);
        }
        match self.connections.get(&uuid) {
            Some(client) => Some(client.get_name()),
            None => None,
        }
    }

    /// Marks the connection with the id `uuid` dead, so that the next sweep
    /// removes it. Says whether the table holds such a connection.
    pub fn kill(&mut self, uuid: u128) -> (held: bool)
        ensures
            final(self).wf(),
            held == old(self)@.holds(uuid),
            final(self)@ == old(self)@.kill(uuid),
    {
        proof {
            use_type_invariant(&*self);
        }
        let (mut connections, order, issued) = self.take();
        let ghost before = connections@;
        proof {
            lemma_keyed_place(before, order@, issued@, uuid);
        }
        let held = match connections.remove(&uuid) {
            Some(mut client) => {
                client.kill();
                connections.insert(uuid, client);
                proof {
                    assert(connections@ =~= before.insert(uuid, connections@[uuid]));
                    lemma_replaced(before, connections@, order@, issued@, uuid);
                }
                true
            },
            None => {
                assert(connections@ =~= before);
                false
            },
        };
        self.put(connections, order, issued);
        held
    }

    /// Queues a command for the connection with the id `uuid`.
    pub fn send_server_command(&mut self, uuid: u128, exec: ServerCommand) -> (sent: Result<
        (),
        SendError,
    >)
        ensures
            final(self).wf(),
            sent == old(self)@.delivery(uuid),
            final(self)@ == old(self)@.deliver(uuid, OutgoingPacketView::ServerRun(exec@)),
    {
        proof {
            use_type_invariant(&*self);
        }
        let (mut connections, order, issued) = self.take();
        let ghost before = connections@;
        proof {
            lemma_keyed_place(before, order@, issued@, uuid);
        }
        let sent = match connections.remove(&uuid) {
            Some(mut client) => {
                let sent = client.send_server_command(exec);
                connections.insert(uuid, client);
                proof {
                    assert(connections@ =~= before.insert(uuid, connections@[uuid]));
                    lemma_replaced(before, connections@, order@, issued@, uuid);
                }
                sent
            },
            None => {
                assert(connections@ =~= before);
                Err(SendError::MailboxClosed)
            },
        };
        self.put(connections, order, issued);
        sent
    }

    /// Hands `event` to the connection with the id `uuid` and returns what
    /// its loop is to do next.
    pub fn step(&mut self, uuid: u128, event: ClientEvent) -> (action: ClientAction)
        ensures
            final(self).wf(),
            final(self)@ == old(self)@.step(uuid, event@),
            action@ == old(self)@.action(uuid, event@),
    {
        proof {
            use_type_invariant(&*self);
        }
        let (mut connections, order, issued) = self.take();
        let ghost before = connections@;
        proof {
            lemma_keyed_place(before, order@, issued@, uuid);
        }
        let action = match connections.remove(&uuid) {
            Some(mut client) => {
                let action = client.step(event);
                connections.insert(uuid, client);
                proof {
                    assert(connections@ =~= before.insert(uuid, connections@[uuid]));
                    lemma_replaced(before, connections@, order@, issued@, uuid);
                }
                action
            },
            None => {
                assert(connections@ =~= before);
                ClientAction::Stop
            },
        };
        self.put(connections, order, issued);
        action
    }

    /// Removes every connection that counts as dead and returns the ids of
    /// those removed. A connection that counts as alive stays where it is.
    pub fn sweep(&mut self) -> (removed: Vec<u128>)
        ensures
            final(self).wf(),
            final(self)@ == old(self)@.sweep(),
            removed@ == old(self)@.dead(),
    {
        let (mut connections, mut order, issued) = self.take();
        let ghost before = old(self)@.connections;
        let ghost mut seen: int = 0;
        let mut removed: Vec<u128> = Vec::new();
        let mut i: usize = 0;
        proof {
            lemma_filter_none(before, is_alive());
            lemma_filter_none(before, is_dead());
            assert(before.skip(0) =~= before);
            assert(table_of(connections@, order@, issued@).connections =~= before.take(0).filter(
                is_alive(),
            ) + before.skip(0));
        }
        while i < order.len()
            invariant
                keyed(connections@, order@),
                0 <= seen <= before.len(),
                i == before.take(seen).filter(is_alive()).len(),
                table_of(connections@, order@, issued@).connections == before.take(seen).filter(
                    is_alive(),
                ) + before.skip(seen),
                removed@ == before.take(seen).filter(is_dead()).map_values(uuid_of()),
            decreases before.len() - seen,
        {
            let ghost current = table_of(connections@, order@, issued@).connections;
            let ghost map_now = connections@;
            let ghost order_now = order@;
            proof {
                lemma_filter_step(before, is_alive(), seen);
                lemma_filter_step(before, is_dead(), seen);
                assert(current[i as int] == before.skip(seen)[0]);
                assert(map_now.dom().contains(order_now[i as int]));
            }
            let uuid = order[i];
            let alive = match connections.get(&uuid) {
                Some(client) => client.is_alive(),
                None => true,
            };
            if alive {
                proof {
                    assert(current =~= before.take(seen + 1).filter(is_alive()) + before.skip(
                        seen + 1,
                    ));
                }
                i += 1;
            } else {
                connections.remove(&uuid);
                order.remove(i);
                removed.push(uuid);
                proof {
                    lemma_taken_out(map_now, order_now, issued@, i as int);
                    assert(connections@ =~= map_now.remove(uuid));
                    let now = table_of(connections@, order@, issued@).connections;
                    assert(now =~= before.take(seen + 1).filter(is_alive()) + before.skip(
                        seen + 1,
                    ));
                    assert(removed@ =~= before.take(seen + 1).filter(is_dead()).map_values(
                        uuid_of(),
                    ));
                }
            }
            proof {
                seen = seen + 1;
            }
        }
        proof {
            let now = table_of(connections@, order@, issued@).connections;
            assert(seen == before.len()) by {
                assert(now.len() == i + before.skip(seen).len());
            }
            assert(before.take(seen) =~= before);
            assert(now =~= before.filter(is_alive()));
            lemma_sweep_keeps_invariant(old(self)@);
        }
        self.put(connections, order, issued);
        removed
    }

    /// The connection at place `i` of the table.
    fn at_place(&self, i: usize) -> (client: Option<&WsClient>)
        requires
            i < self@.connections.len(),
        ensures
            client matches Some(c) && c@ == self@.connections[i as int],
    {
        proof {
            use_type_invariant(self);
        }
        self.connections.get(&self.order[i])
    }

    /// The id and name of every connection whose agent announced the control
    /// channel `ctrl_channel_id`, in table order.
    pub fn get_connected_by_ctrl_channel_id(&self, ctrl_channel_id: String) -> (listing: Vec<
        (u128, String),
    >)
        ensures
            listing_view(listing@) == self@.connected_by_ctrl_channel_id(ctrl_channel_id@),
    {
        let ghost all = self@.connections;
        let ghost pred = in_channel(ctrl_channel_id@);
        let mut listing: Vec<(u128, String)> = Vec::new();
        let mut i: usize = 0;
        proof {
            lemma_filter_none(all, pred);
            assert(listing_view(listing@) =~= all.take(0).filter(pred).map_values(listing_of()));
        }
        while i < self.len()
            invariant
                i <= all.len(),
                all == self@.connections,
                pred == in_channel(ctrl_channel_id@),
                listing_view(listing@) == all.take(i as int).filter(pred).map_values(listing_of()),
            decreases all.len() - i,
        {
            proof {
                lemma_filter_step(all, pred, i as int);
            }
            let ghost earlier = listing_view(listing@);
            if let Some(client) = self.at_place(i) {
                if client.in_channel(&ctrl_channel_id) {
                    listing.push((client.uuid(), client.get_name()));
                    assert(listing_view(listing@) =~= earlier.push((client@.uuid, client@.name)));
                    assert(listing_view(listing@) =~= all.take(i + 1).filter(pred).map_values(
                        listing_of(),
                    ));
                }
            }
            i += 1;
        }
        assert(all.take(all.len() as int) =~= all);
        listing
    }

    /// The id of every connection in the control channel `ctrl_channel_id`
    /// whose name `regex` matches, in table order.
    pub fn get_connections_by_regex(&self, regex: Pattern, ctrl_channel_id: String) -> (ids: Vec<
        u128,
    >)
        ensures
            ids@ == self@.connections_by_regex(regex@, ctrl_channel_id@),
    {
        let ghost all = self@.connections;
        let ghost pred = matching_in_channel(regex@, ctrl_channel_id@);
        let mut ids: Vec<u128> = Vec::new();
        let mut i: usize = 0;
        proof {
            lemma_filter_none(all, pred);
            assert(ids@ =~= all.take(0).filter(pred).map_values(uuid_of()));
        }
        while i < self.len()
            invariant
                i <= all.len(),
                all == self@.connections,
                pred == matching_in_channel(regex@, ctrl_channel_id@),
                ids@ == all.take(i as int).filter(pred).map_values(uuid_of()),
            decreases all.len() - i,
        {
            proof {
                lemma_filter_step(all, pred, i as int);
            }
            if let Some(client) = self.at_place(i) {
                if client.in_channel(&ctrl_channel_id) {
                    let name = client.get_name();
                    if regex.is_match(name.as_str()) {
                        ids.push(client.uuid());
                        assert(ids@ =~= all.take(i + 1).filter(pred).map_values(uuid_of()));
                    }
                }
            }
            i += 1;
        }
        assert(all.take(all.len() as int) =~= all);
        ids
    }

    /// The id of the first connection in the control channel
    /// `ctrl_channel_id` whose name is exactly `name`.
    pub fn get_connection_by_name(&self, name: String, ctrl_channel_id: String) -> (id: Option<
        u128,
    >)
        ensures
            id == self@.connection_by_name(name@, ctrl_channel_id@),
    {
        let ghost all = self@.connections;
        let ghost pred = named_in_channel(name@, ctrl_channel_id@);
        let mut i: usize = 0;
        proof {
            lemma_filter_none(all, pred);
        }
        while i < self.len()
            invariant
                i <= all.len(),
                all == self@.connections,
                pred == named_in_channel(name@, ctrl_channel_id@),
                all.take(i as int).filter(pred).len() == 0,
            decreases all.len() - i,
        {
            proof {
                lemma_filter_step(all, pred, i as int);
            }
            if let Some(client) = self.at_place(i) {
                if client.in_channel(&ctrl_channel_id) && client.is_named(&name) {
                    proof {
                        lemma_filter_first(all, pred, i as int);
                    }
                    return Some(client.uuid());
                }
            }
            i += 1;
        }
        assert(all.take(all.len() as int) =~= all);
        None
    }

    /// Accepts a new connection under a random id and returns the id.
    ///
    /// The only way not to get an id is a draw that repeats one handed out
    /// before: then the table stays as it was, and the caller accepts again.
    /// A table that has handed out no random id always accepts.
    pub fn accept(&mut self) -> (id: Option<u128>)
        ensures
            final(self).wf(),
            match id {
                Some(uuid) => {
                    &&& is_random_id(uuid)
                    &&& !old(self)@.issued.contains(uuid)
                    &&& final(self)@ == old(self)@.register(uuid)
                },
                None => {
                    &&& final(self)@ == old(self)@
                    &&& old(self)@.repeats_a_draw()
                },
            },
            !old(self)@.repeats_a_draw() ==> id is Some,
    {
        let candidate = random_id();
        if self.register(candidate) {
            Some(candidate)
        } else {
            proof {
                use_type_invariant(&*self);
                assert(old(self)@.drawn_before(candidate));
            }
            None
        }
    }
}

} // verus!
