use nobro_kernel::{Mailbox, MailboxError, MailboxWork, Message, MessageKind, ModuleId};

fn msg(from: ModuleId, to: ModuleId, arg0: u32) -> Message {
    Message::new(from, to, MessageKind::Command, arg0, 0)
}

#[test]
fn mailbox_preserves_fifo_order() {
    let mut mailbox = Mailbox::<3>::new();
    mailbox
        .push(msg(ModuleId::Kernel, ModuleId::Sensor, 1))
        .unwrap();
    mailbox
        .push(msg(ModuleId::Sensor, ModuleId::Kernel, 2))
        .unwrap();

    assert_eq!(
        mailbox.pop(),
        Some(msg(ModuleId::Kernel, ModuleId::Sensor, 1))
    );
    assert_eq!(
        mailbox.pop(),
        Some(msg(ModuleId::Sensor, ModuleId::Kernel, 2))
    );
    assert!(mailbox.is_empty());
}

#[test]
fn mailbox_can_pop_for_one_module_without_losing_order() {
    let mut mailbox = Mailbox::<4>::new();
    mailbox
        .push(msg(ModuleId::Kernel, ModuleId::Sensor, 1))
        .unwrap();
    mailbox
        .push(msg(ModuleId::Kernel, ModuleId::Radio, 2))
        .unwrap();
    mailbox
        .push(msg(ModuleId::Sensor, ModuleId::Kernel, 3))
        .unwrap();

    assert_eq!(
        mailbox.pop_for(ModuleId::Radio),
        Some(msg(ModuleId::Kernel, ModuleId::Radio, 2))
    );
    assert_eq!(
        mailbox.pop(),
        Some(msg(ModuleId::Kernel, ModuleId::Sensor, 1))
    );
    assert_eq!(
        mailbox.pop(),
        Some(msg(ModuleId::Sensor, ModuleId::Kernel, 3))
    );
}

#[test]
fn mailbox_reports_full_without_overwriting_messages() {
    let mut mailbox = Mailbox::<1>::new();
    mailbox
        .push(msg(ModuleId::Kernel, ModuleId::Sensor, 1))
        .unwrap();

    assert_eq!(
        mailbox.push(msg(ModuleId::Kernel, ModuleId::Radio, 2)),
        Err(MailboxError::Full)
    );
    assert_eq!(mailbox.dropped(), 1);
    assert_eq!(
        mailbox.pop(),
        Some(msg(ModuleId::Kernel, ModuleId::Sensor, 1))
    );
}

#[test]
fn mailbox_removes_messages_for_disabled_module() {
    let mut mailbox = Mailbox::<4>::new();
    mailbox
        .push(msg(ModuleId::Kernel, ModuleId::Sensor, 1))
        .unwrap();
    mailbox
        .push(msg(ModuleId::Sensor, ModuleId::Kernel, 2))
        .unwrap();
    mailbox
        .push(msg(ModuleId::Kernel, ModuleId::Radio, 3))
        .unwrap();

    assert_eq!(mailbox.remove_for(ModuleId::Sensor), 2);
    assert_eq!(
        mailbox.pop(),
        Some(msg(ModuleId::Kernel, ModuleId::Radio, 3))
    );
    assert!(mailbox.is_empty());
}

#[test]
fn reserved_control_capacity_and_priority_survive_normal_saturation() {
    let mut mailbox = Mailbox::<4>::with_control_reserve(1);
    for arg in 0..3 {
        mailbox
            .push(msg(ModuleId::Sensor, ModuleId::Radio, arg))
            .unwrap();
    }
    assert_eq!(
        mailbox.push(msg(ModuleId::Sensor, ModuleId::Radio, 99)),
        Err(MailboxError::Full)
    );
    let recovery = Message::new(
        ModuleId::Kernel,
        ModuleId::Sensor,
        MessageKind::Recovery,
        7,
        0,
    );
    mailbox.push(recovery).unwrap();
    assert_eq!(mailbox.control_len(), 1);
    assert_eq!(mailbox.pop(), Some(recovery));
    assert_eq!(mailbox.pop().map(|message| message.arg0), Some(0));
}

#[test]
fn full_selective_paths_report_exact_bounded_work() {
    let mut tail = Mailbox::<8>::new();
    for arg in 0..7 {
        tail.push(msg(ModuleId::Sensor, ModuleId::Radio, arg))
            .unwrap();
    }
    tail.push(msg(ModuleId::Sensor, ModuleId::Kernel, 7))
        .unwrap();
    let (_, scan_heavy) = tail.pop_for_with_work(ModuleId::Kernel);
    assert_eq!(
        scan_heavy,
        MailboxWork {
            inspected: 8,
            shifted: 0
        }
    );

    let mut shift = Mailbox::<8>::new();
    shift
        .push(msg(ModuleId::Sensor, ModuleId::Kernel, 0))
        .unwrap();
    for arg in 1..8 {
        shift
            .push(msg(ModuleId::Sensor, ModuleId::Radio, arg))
            .unwrap();
    }
    let (_, shift_heavy) = shift.pop_for_with_work(ModuleId::Kernel);
    assert_eq!(
        shift_heavy,
        MailboxWork {
            inspected: 1,
            shifted: 7
        }
    );
}

#[test]
fn control_messages_stay_fifo_among_themselves_across_wraparound() {
    let mut mailbox = Mailbox::<3>::with_control_reserve(5);
    assert_eq!(mailbox.control_reserve(), 3);
    let shutdown = Message::new(ModuleId::Kernel, ModuleId::Radio, MessageKind::Shutdown, 1, 0);
    let recovery = Message::new(ModuleId::Kernel, ModuleId::Sensor, MessageKind::Recovery, 2, 0);
    // Ordinary traffic is refused entirely when the whole capacity is reserved.
    assert_eq!(mailbox.push(msg(ModuleId::Bus, ModuleId::Hal, 0)), Err(MailboxError::Full));
    mailbox.push(shutdown).unwrap();
    assert_eq!(mailbox.pop(), Some(shutdown));
    mailbox.push(recovery).unwrap();
    mailbox.push(shutdown).unwrap();
    mailbox.push(recovery).unwrap();
    assert_eq!(mailbox.len(), 3);
    assert_eq!(mailbox.push(shutdown), Err(MailboxError::Full));
    assert_eq!(mailbox.dropped(), 2);
    assert_eq!(mailbox.pop(), Some(recovery));
    assert_eq!(mailbox.pop(), Some(shutdown));
    assert_eq!(mailbox.pop(), Some(recovery));
    assert_eq!(mailbox.pop(), None);
    assert_eq!(mailbox.control_len(), 0);
}

#[test]
fn remove_for_with_reports_each_removed_message_in_order() {
    let mut mailbox = Mailbox::<4>::new();
    mailbox.push(msg(ModuleId::Kernel, ModuleId::Sensor, 1)).unwrap();
    mailbox.push(msg(ModuleId::Kernel, ModuleId::Radio, 2)).unwrap();
    mailbox.push(msg(ModuleId::Sensor, ModuleId::Kernel, 3)).unwrap();
    let mut seen = Vec::new();
    let removed = mailbox.remove_for_with(ModuleId::Sensor, |message| seen.push(message.arg0));
    assert_eq!(removed, 2);
    assert_eq!(seen, vec![1, 3]);
    assert_eq!(mailbox.len(), 1);
    assert_eq!(mailbox.pop_for(ModuleId::Sensor), None);
    assert_eq!(mailbox.pop_for(ModuleId::Radio).map(|m| m.arg0), Some(2));
    assert_eq!(mailbox.capacity(), 4);
}
