use agent_relay::mailbox::{Mailbox, SendError, MAILBOX_CAPACITY};
use agent_relay::packets::{ErrorType, OutgoingPacket};

fn note(n: usize) -> OutgoingPacket {
    OutgoingPacket::Error(ErrorType::PacketInvalidID, format!("note {}", n))
}

#[test]
fn mailbox_capacity_is_sixteen() {
    assert_eq!(MAILBOX_CAPACITY, 16);
}

#[test]
fn new_mailbox_is_open_and_empty() {
    let mut mailbox = Mailbox::new();
    assert_eq!(mailbox.len(), 0);
    assert!(!mailbox.is_closed());
    assert_eq!(mailbox.recv(), None);
}

#[test]
fn mailbox_is_first_in_first_out() {
    let mut mailbox = Mailbox::new();
    for n in 0..5 {
        assert_eq!(mailbox.try_send(note(n)), Ok(()));
    }
    assert_eq!(mailbox.len(), 5);
    for n in 0..5 {
        assert_eq!(mailbox.recv(), Some(note(n)));
    }
    assert_eq!(mailbox.recv(), None);
    assert_eq!(mailbox.len(), 0);
}

#[test]
fn mailbox_refuses_the_seventeenth_packet() {
    let mut mailbox = Mailbox::new();
    for n in 0..16 {
        assert_eq!(mailbox.try_send(note(n)), Ok(()));
    }
    assert_eq!(mailbox.len(), 16);
    assert_eq!(mailbox.try_send(note(16)), Err(SendError::MailboxFull));
    assert_eq!(mailbox.len(), 16);
    assert_eq!(mailbox.recv(), Some(note(0)));
    assert_eq!(mailbox.try_send(note(16)), Ok(()));
    for n in 1..17 {
        assert_eq!(mailbox.recv(), Some(note(n)));
    }
    assert_eq!(mailbox.recv(), None);
}

#[test]
fn closed_mailbox_refuses_and_drops_what_waited() {
    let mut mailbox = Mailbox::new();
    assert_eq!(mailbox.try_send(note(0)), Ok(()));
    mailbox.close();
    assert!(mailbox.is_closed());
    assert_eq!(mailbox.len(), 0);
    assert_eq!(mailbox.recv(), None);
    assert_eq!(mailbox.try_send(note(1)), Err(SendError::MailboxClosed));
    assert_eq!(mailbox.len(), 0);
}

#[test]
fn closed_wins_over_full() {
    let mut mailbox = Mailbox::new();
    for n in 0..16 {
        assert_eq!(mailbox.try_send(note(n)), Ok(()));
    }
    mailbox.close();
    assert_eq!(mailbox.try_send(note(16)), Err(SendError::MailboxClosed));
}
