//! The outbound mailbox of a connection: a bounded first-in first-out queue
//! that can be closed.

use std::collections::VecDeque;
use vstd::prelude::*;

use crate::packets::outgoing::{OutgoingPacket, OutgoingPacketView};

verus! {

/// How many packets a mailbox holds at most.
pub const MAILBOX_CAPACITY: usize = 16;

/// Why a packet was not queued.
#[derive(Debug, Clone, Copy, PartialEq, Eq, Structural)]
pub enum SendError {
    /// The connection has terminated; nothing will ever drain the mailbox.
    MailboxClosed,
    /// The mailbox is at capacity. Nothing was dropped: the sender waits until
    /// the writer has drained a packet and sends again.
    MailboxFull,
}

/// A bounded queue of packets waiting to be written to one socket.
pub struct Mailbox {
    queue: VecDeque<OutgoingPacket>,
    closed: bool,
}

/// The mathematical value of a [`Mailbox`]: the waiting packets, oldest
/// first, and whether the mailbox is closed.
pub struct MailboxView {
    pub queue: Seq<OutgoingPacketView>,
    pub closed: bool,
}

impl MailboxView {
    /// The mailbox after an attempt to queue `packet`.
    pub open spec fn send(self, packet: OutgoingPacketView) -> MailboxView {
        if self.accepts() {
            MailboxView { queue: self.queue.push(packet), closed: false }
        } else {
            self
        }
    }

    /// Whether a packet sent now would be queued.
    pub open spec fn accepts(self) -> bool {
        !self.closed && self.queue.len() < MAILBOX_CAPACITY
    }

    /// What an attempt to queue a packet now reports.
    pub open spec fn send_result(self) -> Result<(), SendError> {
        if self.closed {
            Err(SendError::MailboxClosed)
        } else if self.queue.len() >= MAILBOX_CAPACITY {
            Err(SendError::MailboxFull)
        } else {
            Ok(())
        }
    }

    /// The mailbox once it is closed: what was waiting is dropped.
    pub open spec fn close(self) -> MailboxView {
        MailboxView { queue: Seq::empty(), closed: true }
    }

    /// The mailbox after the oldest packet, if any, was taken out.
    pub open spec fn after_recv(self) -> MailboxView {
        if self.queue.len() > 0 {
            MailboxView { queue: self.queue.skip(1), closed: self.closed }
        } else {
            self
        }
    }

    /// Within capacity, and empty once closed.
    pub open spec fn wf(self) -> bool {
        &&& self.queue.len() <= MAILBOX_CAPACITY
        &&& self.closed ==> self.queue.len() == 0
    }
}

impl View for Mailbox {
    type V = MailboxView;

    closed spec fn view(&self) -> MailboxView {
        MailboxView { queue: self.queue@.map_values(|p: OutgoingPacket| p@), closed: self.closed }
    }
}

impl Mailbox {
    /// What holds of every mailbox: it is within capacity, and empty once
    /// closed.
    #[verifier::type_invariant]
    pub open spec fn wf(&self) -> bool {
        self@.wf()
    }

    /// An open, empty mailbox.
    pub fn new() -> (mailbox: Mailbox)
        ensures
            mailbox.wf(),
            mailbox@ == (MailboxView { queue: Seq::empty(), closed: false }),
    {
        let mailbox = Mailbox { queue: VecDeque::new(), closed: false };
        assert(mailbox@.queue =~= Seq::empty());
        mailbox
    }

    /// The number of waiting packets.
    pub fn len(&self) -> (n: usize)
        ensures
            n == self@.queue.len(),
    {
        self.queue.len()
    }

    /// Whether the mailbox is closed.
    pub fn is_closed(&self) -> (closed: bool)
        ensures
            closed == self@.closed,
    {
        self.closed
    }

    /// Queues `packet` behind those already waiting, unless the mailbox is
    /// closed or at capacity.
    pub fn try_send(&mut self, packet: OutgoingPacket) -> (sent: Result<(), SendError>)
        ensures
            final(self).wf(),
            sent == old(self)@.send_result(),
            final(self)@ == old(self)@.send(packet@),
    {
        proof {
            use_type_invariant(&*self);
        }
        if self.closed {
            Err(SendError::MailboxClosed)
        } else if self.queue.len() >= MAILBOX_CAPACITY {
            Err(SendError::MailboxFull)
        } else {
            // The queue is taken out while it grows: the mailbox stays whole
            // even if the push gives up half way.
            let mut queue = VecDeque::new();
            std::mem::swap(&mut queue, &mut self.queue);
            queue.push_back(packet);
            self.queue = queue;
            assert(self@.queue =~= old(self)@.queue.push(packet@));
            Ok(())
        }
    }

    /// Takes the oldest waiting packet out.
    pub fn recv(&mut self) -> (packet: Option<OutgoingPacket>)
        ensures
            final(self).wf(),
            final(self)@ == old(self)@.after_recv(),
            match packet {
                Some(p) => old(self)@.queue.len() > 0 && p@ == old(self)@.queue[0],
                None => old(self)@.queue.len() == 0,
            },
    {
        proof {
            use_type_invariant(&*self);
        }
        let mut queue = VecDeque::new();
        std::mem::swap(&mut queue, &mut self.queue);
        let packet = queue.pop_front();
        self.queue = queue;
        assert(self@.queue =~= old(self)@.after_recv().queue);
        packet
    }

    /// Closes the mailbox and drops what was waiting.
    pub fn close(&mut self)
        ensures
            final(self).wf(),
            final(self)@ == old(self)@.close(),
    {
        self.queue = VecDeque::new();
        self.closed = true;
        assert(self@.queue =~= Seq::empty());
    }
}

/// Packets leave in the order in which they came. A packet that the mailbox
/// takes goes behind everything that waits; what waited is untouched; and it
/// makes no difference to the queue whether the oldest packet leaves before
/// or after the new one comes. A mailbox that takes nothing drops nothing.
pub proof fn lemma_first_in_first_out(mailbox: MailboxView, packet: OutgoingPacketView)
    requires
        mailbox.wf(),
    ensures
        mailbox.send(packet).wf(),
        mailbox.accepts() ==> mailbox.send(packet).queue == mailbox.queue.push(packet),
        !mailbox.accepts() ==> mailbox.send(packet) == mailbox,
        mailbox.accepts() && mailbox.queue.len() > 0 ==> mailbox.send(packet).after_recv()
            == mailbox.after_recv().send(packet),
{
    if mailbox.accepts() && mailbox.queue.len() > 0 {
        assert(mailbox.queue.push(packet).skip(1) =~= mailbox.queue.skip(1).push(packet));
    }
}

} // verus!
