//! The command relay: from a command and the control channel it was issued
//! in, to the agents it is queued for.
//!
//! The selector of a command is first taken as a regular expression over the
//! names of the agents in the channel. A selector that is no regular
//! expression is taken as a name. The command is then queued for every agent
//! found; a mailbox that refuses it is noted, and the relay goes on with the
//! next agent. An agent whose mailbox was at capacity is offered the command
//! again, once its writer had time to drain, until it has taken it or its
//! connection has terminated.

use vstd::prelude::*;

use crate::laws::{lemma_dispatch_reaches_each_once, lemma_resolved_names_each_once};
use crate::mailbox::SendError;
use crate::manager::{WsManager, WsManagerView};
use crate::packets::outgoing::OutgoingPacketView;
use crate::selector::{regex_compiles, Pattern};
use crate::server_command::ServerCommand;

verus! {

/// What became of a command.
#[derive(Debug, PartialEq, Eq)]
pub enum DispatchOutcome {
    /// The selector named no agent in the channel. Nothing was queued.
    NoMatch,
    /// The command was offered to every agent that the selector named.
    Dispatched {
        /// How many agents the selector named.
        matched: usize,
        /// The agents whose connection had terminated, in table order.
        failures: Vec<u128>,
        /// The agents whose mailbox was at capacity, in table order. Nothing
        /// was queued for them: the sender waits for their writer and sends
        /// again.
        blocked: Vec<u128>,
    },
}

/// The mathematical value of a [`DispatchOutcome`].
pub enum DispatchOutcomeView {
    NoMatch,
    Dispatched { matched: nat, failures: Seq<u128>, blocked: Seq<u128> },
}

impl View for DispatchOutcome {
    type V = DispatchOutcomeView;

    open spec fn view(&self) -> DispatchOutcomeView {
        match self {
            DispatchOutcome::NoMatch => DispatchOutcomeView::NoMatch,
            DispatchOutcome::Dispatched { matched, failures, blocked } => {
                DispatchOutcomeView::Dispatched {
                    matched: *matched as nat,
                    failures: failures@,
                    blocked: blocked@,
                }
            },
        }
    }
}

impl DispatchOutcomeView {
    /// Whether the command has been taken or refused for good by every agent
    /// it was meant for: none is left whose mailbox was at capacity.
    pub open spec fn settled(self) -> bool {
        match self {
            DispatchOutcomeView::NoMatch => true,
            DispatchOutcomeView::Dispatched { blocked, .. } => blocked.len() == 0,
        }
    }

    /// The agents that the command is still to be offered to.
    pub open spec fn waiting(self) -> Seq<u128> {
        match self {
            DispatchOutcomeView::NoMatch => Seq::empty(),
            DispatchOutcomeView::Dispatched { blocked, .. } => blocked,
        }
    }
}

impl DispatchOutcome {
    /// Whether no agent is left whose mailbox was at capacity.
    pub fn is_settled(&self) -> (settled: bool)
        ensures
            settled == self@.settled(),
    {
        match self {
            DispatchOutcome::NoMatch => true,
            DispatchOutcome::Dispatched { blocked, .. } => blocked.len() == 0,
        }
    }
}

/// The agents that `selector` names in `channel`, in table order: those whose
/// name the selector matches as a regular expression, or, where the selector
/// is no regular expression, the first whose name is the selector.
pub open spec fn resolved(table: WsManagerView, selector: Seq<char>, channel: Seq<char>) -> Seq<
    u128,
> {
    if regex_compiles(selector) {
        table.connections_by_regex(selector, channel)
    } else {
        match table.connection_by_name(selector, channel) {
            Some(uuid) => seq![uuid],
            None => Seq::empty(),
        }
    }
}

/// The table after `packet` was offered to each of `targets` in turn.
pub open spec fn dispatched(
    table: WsManagerView,
    targets: Seq<u128>,
    packet: OutgoingPacketView,
) -> WsManagerView
    decreases targets.len(),
{
    if targets.len() == 0 {
        table
    } else {
        dispatched(table, targets.drop_last(), packet).deliver(targets.last(), packet)
    }
}

/// Those of `targets`, in their order, that refused `packet` for `reason`
/// when it was offered to each of them in turn.
pub open spec fn refused(
    table: WsManagerView,
    targets: Seq<u128>,
    packet: OutgoingPacketView,
    reason: SendError,
) -> Seq<u128>
    decreases targets.len(),
{
    if targets.len() == 0 {
        Seq::empty()
    } else {
        let earlier = refused(table, targets.drop_last(), packet, reason);
        if dispatched(table, targets.drop_last(), packet).delivery(targets.last()) == Err::<
            (),
            SendError,
        >(reason) {
            earlier.push(targets.last())
        } else {
            earlier
        }
    }
}

/// The ids for which an attempt to queue a packet reports `reason`.
pub open spec fn refuses(table: WsManagerView, reason: SendError) -> spec_fn(u128) -> bool {
    |uuid: u128| table.delivery(uuid) == Err::<(), SendError>(reason)
}

/// Whether `after` is the table `before` with `packet` offered once to each
/// connection that `targets` names, and with every other connection as it
/// was.
pub open spec fn reaches_each_once(
    before: WsManagerView,
    after: WsManagerView,
    targets: Seq<u128>,
    packet: OutgoingPacketView,
) -> bool {
    &&& after.issued == before.issued
    &&& after.connections.len() == before.connections.len()
    &&& forall|i: int|
        #![trigger after.connections[i]]
        0 <= i < before.connections.len() ==> after.connections[i] == if targets.contains(
            before.connections[i].uuid,
        ) {
            before.connections[i].enqueue(packet)
        } else {
            before.connections[i]
        }
}

/// What the relay reports for a command that was offered to `targets`.
pub open spec fn outcome_of(
    table: WsManagerView,
    targets: Seq<u128>,
    packet: OutgoingPacketView,
) -> DispatchOutcomeView {
    if targets.len() == 0 {
        DispatchOutcomeView::NoMatch
    } else {
        DispatchOutcomeView::Dispatched {
            matched: targets.len(),
            failures: refused(table, targets, packet, SendError::MailboxClosed),
            blocked: refused(table, targets, packet, SendError::MailboxFull),
        }
    }
}

/// What the relay reports after it has offered `packet` once more to the
/// agents that `outcome` left waiting: an agent whose connection has
/// terminated by now joins the failures, an agent whose mailbox is still at
/// capacity keeps waiting, and every other has the packet.
pub open spec fn retried(
    table: WsManagerView,
    outcome: DispatchOutcomeView,
    packet: OutgoingPacketView,
) -> DispatchOutcomeView {
    match outcome {
        DispatchOutcomeView::NoMatch => DispatchOutcomeView::NoMatch,
        DispatchOutcomeView::Dispatched { matched, failures, blocked } => {
            DispatchOutcomeView::Dispatched {
                matched,
                failures: failures + refused(table, blocked, packet, SendError::MailboxClosed),
                blocked: refused(table, blocked, packet, SendError::MailboxFull),
            }
        },
    }
}

/// Finds the agents that `selector` names in the control channel
/// `ctrl_channel_id`.
pub fn resolve(manager: &WsManager, selector: &String, ctrl_channel_id: &String) -> (targets: Vec<
    u128,
>)
    ensures
        targets@ == resolved(manager@, selector@, ctrl_channel_id@),
        !regex_compiles(selector@) ==> targets@ == match manager@.connection_by_name(
            selector@,
            ctrl_channel_id@,
        ) {
            Some(uuid) => seq![uuid],
            None => Seq::empty(),
        },
{
    match Pattern::new(selector.as_str()) {
        Some(regex) => manager.get_connections_by_regex(regex, ctrl_channel_id.clone()),
        None => {
            let mut targets: Vec<u128> = Vec::new();
            match manager.get_connection_by_name(selector.clone(), ctrl_channel_id.clone()) {
                Some(uuid) => {
                    targets.push(uuid);
                    assert(targets@ =~= seq![uuid]);
                },
                None => {},
            }
            targets
        },
    }
}

/// Offers `command` to each of `targets` in turn and reports what became of
/// it. A mailbox that refuses the command does not keep the relay from the
/// targets after it.
pub fn dispatch(manager: &mut WsManager, targets: &Vec<u128>, command: &ServerCommand) -> (outcome:
    DispatchOutcome)
    ensures
        final(manager).wf(),
        final(manager)@ == dispatched(
            old(manager)@,
            targets@,
            OutgoingPacketView::ServerRun(command@),
        ),
        outcome@ == outcome_of(old(manager)@, targets@, OutgoingPacketView::ServerRun(command@)),
{
    proof {
        use_type_invariant(&*manager);
    }
    if targets.len() == 0 {
        return DispatchOutcome::NoMatch;
    }
    let ghost table = old(manager)@;
    let ghost packet = OutgoingPacketView::ServerRun(command@);
    let mut failures: Vec<u128> = Vec::new();
    let mut blocked: Vec<u128> = Vec::new();
    let mut i: usize = 0;
    assert(targets@.take(0) =~= Seq::<u128>::empty());
    while i < targets.len()
        invariant
            manager.wf(),
            i <= targets.len(),
            table == old(manager)@,
            packet == OutgoingPacketView::ServerRun(command@),
            manager@ == dispatched(table, targets@.take(i as int), packet),
            failures@ == refused(table, targets@.take(i as int), packet, SendError::MailboxClosed),
            blocked@ == refused(table, targets@.take(i as int), packet, SendError::MailboxFull),
        decreases targets.len() - i,
    {
        proof {
            assert(targets@.take(i + 1).drop_last() =~= targets@.take(i as int));
            assert(targets@.take(i + 1).last() == targets@[i as int]);
        }
        match manager.send_server_command(targets[i], command.clone()) {
            Ok(()) => {},
            Err(SendError::MailboxClosed) => failures.push(targets[i]),
            Err(SendError::MailboxFull) => blocked.push(targets[i]),
        }
        i += 1;
    }
    assert(targets@.take(targets.len() as int) =~= targets@);
    DispatchOutcome::Dispatched { matched: targets.len(), failures, blocked }
}

/// Offers `command` once more to the agents that `outcome` left waiting and
/// reports where the command stands now. The sender calls this, each time
/// after the writers had time to drain, until the outcome is settled.
pub fn retry_blocked(
    manager: &mut WsManager,
    outcome: DispatchOutcome,
    command: &ServerCommand,
) -> (now: DispatchOutcome)
    ensures
        final(manager).wf(),
        final(manager)@ == dispatched(
            old(manager)@,
            outcome@.waiting(),
            OutgoingPacketView::ServerRun(command@),
        ),
        now@ == retried(old(manager)@, outcome@, OutgoingPacketView::ServerRun(command@)),
{
    proof {
        use_type_invariant(&*manager);
    }
    match outcome {
        DispatchOutcome::NoMatch => DispatchOutcome::NoMatch,
        DispatchOutcome::Dispatched { matched, failures, blocked } => {
            let ghost earlier = failures@;
            let mut failures = failures;
            match dispatch(manager, &blocked, command) {
                DispatchOutcome::NoMatch => {
                    assert(blocked@ =~= Seq::<u128>::empty());
                    assert(failures@ =~= earlier + Seq::<u128>::empty());
                    DispatchOutcome::Dispatched { matched, failures, blocked }
                },
                DispatchOutcome::Dispatched { matched: _, failures: late, blocked: still } => {
                    let mut i: usize = 0;
                    assert(failures@ =~= earlier + late@.take(0));
                    while i < late.len()
                        invariant
                            i <= late.len(),
                            failures@ == earlier + late@.take(i as int),
                        decreases late.len() - i,
                    {
                        failures.push(late[i]);
                        assert(failures@ =~= earlier + late@.take(i + 1));
                        i += 1;
                    }
                    assert(late@.take(late.len() as int) =~= late@);
                    DispatchOutcome::Dispatched { matched, failures, blocked: still }
                },
            }
        },
    }
}

/// Finds the agents that the selector of `doc` names in the control channel
/// `ctrl_channel_id` and offers the command to each of them.
pub fn resolve_and_dispatch(
    manager: &mut WsManager,
    doc: ServerCommand,
    ctrl_channel_id: String,
) -> (outcome: DispatchOutcome)
    ensures
        final(manager).wf(),
        final(manager)@ == dispatched(
            old(manager)@,
            resolved(old(manager)@, doc@.on, ctrl_channel_id@),
            OutgoingPacketView::ServerRun(doc@),
        ),
        outcome@ == outcome_of(
            old(manager)@,
            resolved(old(manager)@, doc@.on, ctrl_channel_id@),
            OutgoingPacketView::ServerRun(doc@),
        ),
        reaches_each_once(
            old(manager)@,
            final(manager)@,
            resolved(old(manager)@, doc@.on, ctrl_channel_id@),
            OutgoingPacketView::ServerRun(doc@),
        ),
        outcome@ matches DispatchOutcomeView::Dispatched { matched, failures, blocked } ==> {
            &&& matched == resolved(old(manager)@, doc@.on, ctrl_channel_id@).len()
            &&& failures == resolved(old(manager)@, doc@.on, ctrl_channel_id@).filter(
                refuses(old(manager)@, SendError::MailboxClosed),
            )
            &&& blocked == resolved(old(manager)@, doc@.on, ctrl_channel_id@).filter(
                refuses(old(manager)@, SendError::MailboxFull),
            )
        },
        outcome@ is NoMatch <==> resolved(old(manager)@, doc@.on, ctrl_channel_id@).len() == 0,
{
    let targets = resolve(manager, &doc.on, &ctrl_channel_id);
    proof {
        use_type_invariant(&*manager);
        lemma_resolved_names_each_once(manager@, doc@.on, ctrl_channel_id@);
        lemma_dispatch_reaches_each_once(
            manager@,
            targets@,
            OutgoingPacketView::ServerRun(doc@),
        );
    }
    dispatch(manager, &targets, &doc)
}

/// The id and name of every agent in the control channel `ctrl_channel_id`.
pub fn list_by_scope(manager: &WsManager, ctrl_channel_id: String) -> (listing: Vec<
    (u128, String),
>)
    ensures
        crate::manager::listing_view(listing@) == manager@.connected_by_ctrl_channel_id(
            ctrl_channel_id@,
        ),
{
    manager.get_connected_by_ctrl_channel_id(ctrl_channel_id)
}

} // verus!
