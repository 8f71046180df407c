use nobro_kernel::{
    Criticality, IntraClassOrder, IsrReleaseReceipt, ModuleId, Poll, TaskMeta, TaskTable,
    TaskTableError, MAX_WRAP_SAFE_INTERVAL_US,
};

#[test]
fn due_index_prefers_higher_criticality() {
    let mut table = TaskTable::<3, 1>::new();
    table
        .add(TaskMeta::new(ModuleId::Sensor, Criticality::Driver, 1000, 100), 0)
        .unwrap();
    table
        .add(TaskMeta::new(ModuleId::Actuator, Criticality::HardRealtime, 20_000, 200), 0)
        .unwrap();

    let idx = table.due_index(0).expect("due task");
    let selected = table.record_poll(idx, 0, 50, Poll::Ready).unwrap();
    assert_eq!(selected.ready, 1);
    assert_eq!(table.get(ModuleId::Actuator).expect("actuator").stats.polls, 1);
}

#[test]
fn due_sweep_preserves_selection_without_capacity_scan() {
    let mut table = TaskTable::<4, 1>::new();
    table
        .add(TaskMeta::new(ModuleId::Sensor, Criticality::Driver, 1000, 100), 0)
        .unwrap();
    table
        .add(TaskMeta::new(ModuleId::Actuator, Criticality::HardRealtime, 2000, 100), 0)
        .unwrap();
    let sweep = table.due_sweep(0);
    assert_eq!(sweep.selected.map(|selected| selected.index), table.due_index(0));
    assert_eq!(sweep.selected.unwrap().release_us, 0);
    assert_eq!(sweep.inspected_slots, 2);
    assert_eq!(sweep.due_tasks, 2);
    assert_eq!(sweep.peer_inspected_slots, 0);
}

#[test]
fn explicit_phase_shapes_first_release_and_preserves_the_periodic_anchor() {
    let mut table = TaskTable::<2, 1>::new();
    table
        .add(
            TaskMeta::new(ModuleId::Sensor, Criticality::Driver, 1_000, 100)
                .with_phase_us(250)
                .with_deadline_us(700),
            10_000,
        )
        .unwrap();
    table
        .add(
            TaskMeta::new(ModuleId::Actuator, Criticality::System, 1_000, 100).with_phase_us(600),
            10_000,
        )
        .unwrap();

    assert_eq!(table.next_due_us(), Some(10_250));
    assert!(table.select_due(10_249).is_none());
    let first = table.select_due(10_250).expect("first shaped release");
    assert_eq!(table.meta_at(first.index).unwrap().module, ModuleId::Sensor);
    table.record_poll(first.index, 10_260, 10, Poll::Ready).unwrap();
    assert_eq!(table.next_due_us(), Some(10_600));
    let second = table.select_due(10_600).expect("second shaped release");
    assert_eq!(table.meta_at(second.index).unwrap().module, ModuleId::Actuator);
    table.record_poll(second.index, 10_610, 10, Poll::Ready).unwrap();
    assert_eq!(table.next_due_us(), Some(11_250));
}

#[test]
fn equal_criticality_fifo_prevents_new_release_overtaking() {
    let mut table = TaskTable::<2, 1>::new();
    table
        .add(TaskMeta::new(ModuleId::Sensor, Criticality::Driver, 10, 1), 0)
        .unwrap();
    table
        .add(TaskMeta::new(ModuleId::Radio, Criticality::Driver, 20, 1), 0)
        .unwrap();

    let first = table.select_due(0).expect("initial release");
    assert_eq!(first.index, 0);
    table.record_poll(first.index, 0, 1, Poll::Ready).unwrap();

    let second = table.select_due(10).expect("older peer remains ready");
    assert_eq!(second.index, 1);
    assert_eq!(second.release_us, 0);
}

#[test]
fn explicit_intra_class_policy_never_overrides_safety_criticality() {
    let mut table = TaskTable::<3, 1>::new_with_order(IntraClassOrder::ShorterDeadlineFirst);
    table
        .add(
            TaskMeta::new(ModuleId::Sensor, Criticality::Driver, 1_000, 1).with_deadline_us(900),
            0,
        )
        .unwrap();
    table
        .add(
            TaskMeta::new(ModuleId::Radio, Criticality::Driver, 1_000, 1).with_deadline_us(100),
            0,
        )
        .unwrap();
    table
        .add(
            TaskMeta::new(ModuleId::Actuator, Criticality::System, 1_000, 1)
                .with_deadline_us(1_000),
            0,
        )
        .unwrap();

    assert_eq!(table.intra_class_order(), IntraClassOrder::ShorterDeadlineFirst);
    let first = table.select_due(0).unwrap();
    assert_eq!(table.meta_at(first.index).unwrap().module, ModuleId::Actuator);
    table.record_poll(first.index, 0, 1, Poll::Pending).unwrap();

    let second = table.select_due(0).unwrap();
    assert_eq!(table.meta_at(second.index).unwrap().module, ModuleId::Radio);
    table.record_poll(second.index, 0, 1, Poll::Pending).unwrap();

    let third = table.select_due(0).unwrap();
    assert_eq!(table.meta_at(third.index).unwrap().module, ModuleId::Sensor);
}

fn assert_single_release_work_is_capacity_independent<const N: usize>() {
    let mut table = TaskTable::<N, 1>::new();
    for index in 0..N {
        let phase = if index == N / 2 { 10 } else { 1_000 + index as u64 };
        table
            .add(
                TaskMeta::new(ModuleId::App(index as u8), Criticality::User, 10_000, 1),
                phase,
            )
            .unwrap();
    }
    let sweep = table.due_sweep(10);
    assert_eq!(sweep.inspected_slots, 1);
    assert_eq!(sweep.due_tasks, 1);
    assert_eq!(sweep.peer_inspected_slots, 0);
    assert_eq!(
        table.meta_at(sweep.selected.unwrap().index).unwrap().module,
        ModuleId::App((N / 2) as u8)
    );
}

#[test]
fn ten_and_sixteen_task_variants_keep_release_work_flat() {
    assert_single_release_work_is_capacity_independent::<10>();
    assert_single_release_work_is_capacity_independent::<16>();
}

#[test]
fn ready_word_accepts_exactly_thirty_two_tasks() {
    let mut table = TaskTable::<32, 1>::new();
    for index in 0..32u8 {
        table
            .add(TaskMeta::new(ModuleId::App(index), Criticality::User, 1_000, 1), 0)
            .unwrap();
    }
    assert_eq!(table.mark_due_releases(0), 32);
    let mut selected = 0u32;
    while let Some(next) = table.select_due(0) {
        table.record_poll(next.index, 0, 1, Poll::Ready).unwrap();
        selected += 1;
    }
    assert_eq!(selected, 32);

    let mut too_wide = TaskTable::<33, 1>::new();
    assert_eq!(
        too_wide.add(TaskMeta::new(ModuleId::Sensor, Criticality::Driver, 1_000, 1), 0),
        Err(TaskTableError::ReadyMaskCapacity)
    );
}

#[test]
fn opt_in_multiword_profile_crosses_32_and_64_task_boundaries() {
    let mut thirty_three = TaskTable::<33, 2>::new();
    for index in 0..33u8 {
        thirty_three
            .add(TaskMeta::new(ModuleId::App(index), Criticality::User, 100, 1), 0)
            .unwrap();
    }
    let receipt = thirty_three.accept_isr_release_words([u32::MAX, 1], 0);
    assert_eq!(receipt.accepted, 33);
    assert_eq!(receipt.rejected, 0);
    assert_eq!(thirty_three.ready_words(), [u32::MAX, 1]);

    let mut sixty_four = TaskTable::<64, 2>::new();
    for index in 0..64u8 {
        sixty_four
            .add(TaskMeta::new(ModuleId::App(index), Criticality::User, 100, 1), 0)
            .unwrap();
    }
    let receipt = sixty_four.accept_isr_release_words([u32::MAX; 2], 0);
    assert_eq!(receipt.accepted, 64);
    assert_eq!(receipt.rejected, 0);
    assert_eq!(sixty_four.ready_words(), [u32::MAX; 2]);

    for expected in 0..64usize {
        let selected = sixty_four.select_due(0).unwrap();
        assert_eq!(selected.index, expected);
        let periodic = sixty_four.take_selected(selected.index);
        sixty_four
            .record_selected_poll(selected.index, 0, 1, Poll::Pending, periodic)
            .unwrap();
    }
    assert_eq!(sixty_four.ready_words(), [0; 2]);

    let mut too_narrow = TaskTable::<65, 2>::new();
    assert_eq!(
        too_narrow.add(TaskMeta::new(ModuleId::App(0), Criticality::User, 100, 1), 0),
        Err(TaskTableError::ReadyMaskCapacity)
    );
}

#[test]
fn compare_isr_handoff_accepts_exact_group_and_rejects_early_bits() {
    let mut table = TaskTable::<2, 1>::new();
    table
        .add(TaskMeta::new(ModuleId::Sensor, Criticality::Driver, 10, 1), 10)
        .unwrap();
    table
        .add(TaskMeta::new(ModuleId::Actuator, Criticality::System, 20, 1), 10)
        .unwrap();
    let arm = table.next_release_arm().expect("earliest group");
    assert_eq!(arm.deadline_us, 10);
    assert_eq!(arm.ready_mask.count_ones(), 2);
    assert_eq!(
        table.accept_isr_releases(arm.ready_mask, 9),
        IsrReleaseReceipt { accepted: 0, rejected: 2 }
    );
    assert_eq!(
        table.accept_isr_releases(arm.ready_mask, 10),
        IsrReleaseReceipt { accepted: 2, rejected: 0 }
    );
    let selected = table.select_due(10).expect("ISR made tasks ready");
    assert_eq!(table.meta_at(selected.index).unwrap().module, ModuleId::Actuator);
    assert_eq!(table.selected_group_width(selected.index), 2);
}

#[test]
fn compare_isr_handoff_rejects_a_partial_simultaneous_group_atomically() {
    let mut table = TaskTable::<33, 2>::new();
    for index in 0..33u8 {
        table
            .add(TaskMeta::new(ModuleId::App(index), Criticality::User, 100, 1), 0)
            .unwrap();
    }
    let arm = table.next_release_arm_words().unwrap();
    assert_eq!(arm.ready_words, [u32::MAX, 1]);
    assert_eq!(
        table.accept_isr_release_words([u32::MAX, 0], 0),
        IsrReleaseReceipt { accepted: 0, rejected: 32 }
    );
    assert_eq!(table.ready_words(), [0; 2]);
    assert_eq!(table.next_release_arm_words(), Some(arm));
}

#[test]
fn compare_isr_handoff_rejects_out_of_range_bits_atomically() {
    let mut table = TaskTable::<33, 2>::new();
    for index in 0..33u8 {
        table
            .add(TaskMeta::new(ModuleId::App(index), Criticality::User, 100, 1), 0)
            .unwrap();
    }
    let arm = table.next_release_arm_words().unwrap();
    assert_eq!(arm.ready_words, [u32::MAX, 1]);
    assert_eq!(
        table.accept_isr_release_words([u32::MAX, 3], 0),
        IsrReleaseReceipt { accepted: 0, rejected: 1 }
    );
    assert_eq!(table.ready_words(), [0; 2]);
    assert_eq!(table.next_release_arm_words(), Some(arm));
}

#[test]
fn compare_isr_handoff_fast_path_accepts_only_release_root() {
    let mut table = TaskTable::<2, 1>::new();
    table
        .add(TaskMeta::new(ModuleId::Sensor, Criticality::Driver, 100, 1).with_phase_us(20), 0)
        .unwrap();
    table
        .add(TaskMeta::new(ModuleId::Radio, Criticality::System, 100, 1).with_phase_us(10), 0)
        .unwrap();

    assert_eq!(
        table.accept_isr_releases(1u32 << 0, 20),
        IsrReleaseReceipt { accepted: 0, rejected: 1 }
    );
    assert_eq!(
        table.accept_isr_releases(1u32 << 1, 9),
        IsrReleaseReceipt { accepted: 0, rejected: 1 }
    );
    assert_eq!(
        table.accept_isr_releases(1u32 << 1, 10),
        IsrReleaseReceipt { accepted: 1, rejected: 0 }
    );
    let selected = table.select_due(10).expect("single ISR bit made root ready");
    assert_eq!(selected.index, 1);
    assert_eq!(table.selected_group_width(selected.index), 1);
}

#[test]
fn task_table_tracks_budget_overruns() {
    let mut table = TaskTable::<1, 1>::new();
    table
        .add(TaskMeta::new(ModuleId::Radio, Criticality::Driver, 1000, 100), 0)
        .unwrap();

    let idx = table.due_index(0).expect("due task");
    let stats = table.record_poll(idx, 0, 250, Poll::Pending).unwrap();

    assert_eq!(stats.overruns, 1);
    assert_eq!(stats.max_observed_us, 250);
    assert_eq!(stats.next_due_us, 1000);
}

#[test]
fn late_poll_preserves_phase_and_counts_missed_releases() {
    let mut table = TaskTable::<1, 1>::new();
    table
        .add(TaskMeta::new(ModuleId::Sensor, Criticality::Driver, 1000, 100), 0)
        .unwrap();
    let stats = table.record_poll(0, 2_500, 50, Poll::Ready).unwrap();
    assert_eq!(stats.missed_releases, 2);
    assert_eq!(stats.next_due_us, 3_000);
}

#[test]
fn invalid_task_budget_is_rejected() {
    let mut table = TaskTable::<1, 1>::new();
    let err = table
        .add(TaskMeta::new(ModuleId::App(1), Criticality::User, 100, 200), 0)
        .unwrap_err();
    assert_eq!(err, TaskTableError::InvalidBudget(ModuleId::App(1)));
}

#[test]
fn blocking_term_must_fit_beside_execution_budget() {
    let mut table = TaskTable::<1, 1>::new();
    let err = table
        .add(
            TaskMeta::new(ModuleId::App(1), Criticality::User, 100, 60).with_blocking_us(41),
            0,
        )
        .unwrap_err();
    assert_eq!(err, TaskTableError::InvalidBlocking(ModuleId::App(1)));
}

#[test]
fn event_wakes_dedup_without_shifting_the_periodic_phase() {
    let module = ModuleId::App(0);
    let mut table = TaskTable::<1, 1>::new();
    table
        .add(TaskMeta::new(module, Criticality::Driver, 100, 20).with_deadline_us(100), 0)
        .unwrap();

    let first = table.select_due(0).unwrap();
    assert_eq!(first.release_us, 0);
    let first_periodic = table.take_selected(first.index);
    assert!(first_periodic);
    let first_stats = table
        .record_selected_poll(first.index, 1, 1, Poll::Pending, first_periodic)
        .unwrap();
    assert_eq!(first_stats.next_due_us, 100);

    assert!(table.wake_event(module).unwrap());
    assert!(!table.wake_event(module).unwrap(), "event wakes dedup");
    let event = table.select_due(25).unwrap();
    assert_eq!(event.release_us, 25);
    let event_periodic = table.take_selected(event.index);
    assert!(!event_periodic);
    let event_stats = table
        .record_selected_poll(event.index, 26, 1, Poll::Pending, event_periodic)
        .unwrap();
    assert_eq!(event_stats.next_due_us, 100);
    assert_eq!(event_stats.missed_releases, 0);

    assert!(table.wake_event(module).unwrap());
    let periodic_and_event = table.select_due(100).unwrap();
    assert_eq!(periodic_and_event.release_us, 100);
    let periodic = table.take_selected(periodic_and_event.index);
    assert!(periodic, "one poll consumes the coincident release and event");
    let final_stats = table
        .record_selected_poll(periodic_and_event.index, 101, 1, Poll::Ready, periodic)
        .unwrap();
    assert_eq!(final_stats.next_due_us, 200);
    assert_eq!(
        table.wake_event(ModuleId::App(7)),
        Err(TaskTableError::UnknownTask(ModuleId::App(7)))
    );
}

#[test]
fn transferred_ready_task_preserves_phase_and_compacts_peer_queues() {
    let mut source = TaskTable::<4, 1>::new();
    for module in 0..4 {
        source
            .add(TaskMeta::new(ModuleId::App(module), Criticality::User, 100, 10), 0)
            .unwrap();
    }
    assert_eq!(source.mark_due_releases(0), 4);

    let moved = source.detach_for_transfer(ModuleId::App(1)).unwrap();
    let mut destination = TaskTable::<4, 1>::new();
    destination.attach_transferred(moved).unwrap();

    let mut source_order = [ModuleId::Kernel; 3];
    for module in &mut source_order {
        let selected = source.select_due(0).unwrap();
        *module = source.meta_at(selected.index).unwrap().module;
        let periodic = source.take_selected(selected.index);
        source
            .record_selected_poll(selected.index, 1, 1, Poll::Pending, periodic)
            .unwrap();
    }
    assert_eq!(source_order, [ModuleId::App(0), ModuleId::App(2), ModuleId::App(3)]);

    let selected = destination.select_due(0).unwrap();
    assert_eq!(destination.meta_at(selected.index).unwrap().module, ModuleId::App(1));
    let periodic = destination.take_selected(selected.index);
    assert!(periodic);
    let stats = destination
        .record_selected_poll(selected.index, 1, 1, Poll::Pending, periodic)
        .unwrap();
    assert_eq!(stats.next_due_us, 100);
}

#[test]
fn transferring_slot_thirty_one_keeps_ready_mask_bounded() {
    let mut source = TaskTable::<32, 1>::new();
    for module in 0..32 {
        source
            .add(TaskMeta::new(ModuleId::App(module), Criticality::User, 100, 1), 0)
            .unwrap();
    }
    assert_eq!(source.mark_due_releases(0), 32);
    let moved = source.detach_for_transfer(ModuleId::App(31)).unwrap();
    assert_eq!(source.ready_words()[0].count_ones(), 31);

    let mut destination = TaskTable::<32, 1>::new();
    destination.attach_transferred(moved).unwrap();
    assert_eq!(destination.ready_words(), [1]);
    assert_eq!(destination.meta_at(0).unwrap().module, ModuleId::App(31));
}

#[test]
fn phase_and_relative_deadline_fail_closed() {
    let mut table = TaskTable::<1, 1>::new();
    let module = ModuleId::App(1);
    assert_eq!(
        table.add(TaskMeta::new(module, Criticality::User, 100, 10).with_phase_us(100), 0),
        Err(TaskTableError::InvalidPhase(module))
    );
    assert_eq!(
        table.add(TaskMeta::new(module, Criticality::User, 100, 10).with_deadline_us(101), 0),
        Err(TaskTableError::InvalidDeadline(module))
    );
    assert_eq!(
        table.add(
            TaskMeta::new(module, Criticality::User, MAX_WRAP_SAFE_INTERVAL_US + 1, 10),
            0,
        ),
        Err(TaskTableError::InvalidPeriod(module))
    );
}

// ---------------------------------------------------------------- own tests

#[test]
fn rebase_restarts_an_unstarted_schedule_at_the_new_epoch() {
    let mut table = TaskTable::<2, 1>::new();
    table
        .add(TaskMeta::new(ModuleId::Sensor, Criticality::Driver, 100, 1).with_phase_us(30), 0)
        .unwrap();
    table
        .add(TaskMeta::new(ModuleId::Radio, Criticality::Driver, 100, 1).with_phase_us(10), 0)
        .unwrap();
    assert!(table.rebase_unstarted_epoch(1_000));
    assert_eq!(table.next_due_us(), Some(1_010));
    assert_eq!(table.get(ModuleId::Sensor).unwrap().stats.next_due_us, 1_030);
    let first = table.select_due(1_010).unwrap();
    assert_eq!(table.meta_at(first.index).unwrap().module, ModuleId::Radio);
    table.record_poll(first.index, 1_011, 1, Poll::Ready).unwrap();
    assert!(!table.rebase_unstarted_epoch(5_000));
    assert_eq!(table.get(ModuleId::Sensor).unwrap().stats.next_due_us, 1_030);
}

#[test]
fn detaching_an_unknown_task_is_rejected() {
    let mut table = TaskTable::<2, 1>::new();
    table
        .add(TaskMeta::new(ModuleId::Sensor, Criticality::Driver, 100, 1), 0)
        .unwrap();
    assert_eq!(
        table.detach_for_transfer(ModuleId::Radio).map(|_| ()),
        Err(TaskTableError::UnknownTask(ModuleId::Radio))
    );
    let moved = table.detach_for_transfer(ModuleId::Sensor).unwrap();
    assert_eq!(moved.slot().meta.module, ModuleId::Sensor);
    assert_eq!(table.next_due_us(), None);
    let mut full = TaskTable::<1, 1>::new();
    full.add(TaskMeta::new(ModuleId::Sensor, Criticality::Driver, 100, 1), 0)
        .unwrap();
    assert_eq!(full.attach_transferred(moved), Err(TaskTableError::Full));
    let mut other = TaskTable::<2, 1>::new();
    other
        .add(TaskMeta::new(ModuleId::Sensor, Criticality::Driver, 100, 1), 0)
        .unwrap();
    assert_eq!(
        other.attach_transferred(moved),
        Err(TaskTableError::DuplicateTask(ModuleId::Sensor))
    );
    let wide = TaskTable::<33, 2>::new();
    assert_eq!(
        wide.metas_with_transferred(moved.slot().meta).map(|_| ()),
        Err(TaskTableError::ReadyMaskCapacity)
    );
}

#[test]
fn isr_handoff_without_pending_releases_rejects_every_bit() {
    let mut table = TaskTable::<2, 1>::new();
    assert_eq!(table.next_release_arm(), None);
    assert_eq!(
        table.accept_isr_releases(0, 0),
        IsrReleaseReceipt { accepted: 0, rejected: 0 }
    );
    table
        .add(TaskMeta::new(ModuleId::Sensor, Criticality::Driver, 100, 1), 0)
        .unwrap();
    assert_eq!(
        table.accept_isr_releases(0b110, 0),
        IsrReleaseReceipt { accepted: 0, rejected: 2 }
    );
    assert_eq!(
        table.accept_isr_releases(0b1, 0),
        IsrReleaseReceipt { accepted: 1, rejected: 0 }
    );
    assert_eq!(
        table.accept_isr_releases(0b1, 0),
        IsrReleaseReceipt { accepted: 0, rejected: 1 }
    );
}
