use nobro_kernel::{
    ExecutorInstrumentation, ExecutorTimingReport, ReportIdentity,
    EXECUTOR_FLAG_PARTIAL_RELEASE_GROUP, EXECUTOR_TIMING_REPORT_WORDS, FNV1A32_OFFSET,
};

fn identity() -> ReportIdentity {
    ReportIdentity::new(1, 2, 3)
}

fn record_poll<const GROUPS: usize>(
    recorder: &mut ExecutorInstrumentation<GROUPS>,
    release: u64,
    dispatch: u64,
    width: u32,
    module: u32,
    slot: u32,
) {
    recorder.record_selection(5, width, dispatch - 2, dispatch - 1, 2);
    recorder.record_poll_attempt();
    recorder.record_dispatch(release, dispatch, width, module, 3, slot);
    recorder.record_poll_clock(dispatch, dispatch + 2);
    recorder.record_bookkeeping(dispatch + 2, dispatch + 3);
}

#[test]
fn timing_report_tracks_non_adjacent_simultaneous_groups_and_order_identity() {
    let mut recorder = ExecutorInstrumentation::<3>::with_identity(identity());
    record_poll(&mut recorder, 100, 110, 3, 10, 0);
    record_poll(&mut recorder, 200, 205, 2, 20, 1);
    record_poll(&mut recorder, 100, 130, 2, 11, 2);
    record_poll(&mut recorder, 200, 215, 1, 21, 3);
    record_poll(&mut recorder, 100, 145, 1, 12, 4);
    let report = recorder.report();
    assert!(report.verify_checksum());
    assert_eq!(report.completed, 1);
    assert_eq!(report.release_dispatch_total_us(), 105);
    assert_eq!(report.release_dispatch_max_us, 45);
    assert_eq!(report.simultaneous_release_groups, 2);
    assert_eq!(report.simultaneous_releases, 5);
    assert_eq!(report.simultaneous_ordered_dispatches, 5);
    assert_eq!(report.simultaneous_max_width, 3);
    assert_eq!(report.simultaneous_max_rank, 3);
    assert_eq!(report.simultaneous_order_delay_total_us(), 65);
    assert_ne!(report.simultaneous_order_hash, FNV1A32_OFFSET);
    assert_eq!(report.selection_sweep_slots_total(), 25);
    assert_eq!(report.selection_duration_total_us(), 5);
    assert_eq!(report.poll_bookkeeping_total_us(), 5);
    assert_eq!(report.probe_clock_reads, 15);

    let mut unknown_flags = report;
    unknown_flags.flags |= 1 << 31;
    unknown_flags.checksum = 0;
    unknown_flags.checksum = unknown_flags.compute_checksum();
    assert!(!unknown_flags.verify_checksum());

    let mut incomplete_header = report;
    incomplete_header.completed = 0;
    incomplete_header.checksum = 0;
    incomplete_header.checksum = incomplete_header.compute_checksum();
    assert!(!incomplete_header.verify_checksum());
}

#[test]
fn empty_partial_saturated_and_regressing_reports_fail_closed() {
    assert_eq!(ExecutorInstrumentation::<1>::with_identity(identity()).report().completed, 0);

    let mut partial = ExecutorInstrumentation::<1>::with_identity(identity());
    partial.record_poll_attempt();
    let report = partial.report();
    assert_eq!(report.completed, 0);
    assert!(!report.verify_checksum());

    let mut partial_group = ExecutorInstrumentation::<1>::with_identity(identity());
    partial_group.record_poll_attempt();
    partial_group.record_dispatch(0, 1, 2, 1, 1, 0);
    partial_group.record_bookkeeping(1, 2);
    let report = partial_group.report();
    assert_eq!(report.completed, 0);
    assert_ne!(report.flags & EXECUTOR_FLAG_PARTIAL_RELEASE_GROUP, 0);
    assert!(!report.verify_checksum());

    let mut saturated = ExecutorInstrumentation::<1>::with_identity(identity());
    saturated.record_selection(1, 1, 0, u64::from(u32::MAX) + 1, 2);
    saturated.record_poll_attempt();
    saturated.record_dispatch(0, 1, 1, 1, 1, 0);
    saturated.record_bookkeeping(1, 2);
    let report = saturated.report();
    assert!(report.counters_saturated());
    assert_eq!(report.selection_duration_max_us, u32::MAX);
    assert_eq!(report.completed, 0);

    let mut regressing = ExecutorInstrumentation::<1>::with_identity(identity());
    regressing.record_selection(1, 1, 5, 4, 2);
    regressing.record_poll_attempt();
    regressing.record_dispatch(10, 9, 1, 1, 1, 0);
    regressing.record_bookkeeping(9, 8);
    let report = regressing.report();
    assert!(!report.clock_valid());
    assert_eq!(report.completed, 0);
}

#[test]
fn fixed_report_word_counts_are_stable() {
    assert_eq!(
        core::mem::size_of::<ExecutorTimingReport>(),
        EXECUTOR_TIMING_REPORT_WORDS * core::mem::size_of::<u32>()
    );
}

#[test]
fn reset_keeps_identity_and_clears_counters() {
    let mut recorder = ExecutorInstrumentation::<2>::with_identity(identity());
    record_poll(&mut recorder, 10, 12, 1, 1, 0);
    recorder.reset();
    let report = recorder.report();
    assert_eq!(report.poll_attempts, 0);
    assert_eq!(report.build_id, 1);
    assert_eq!(report.declaration_id, 3);
    assert_eq!(ExecutorTimingReport::zeroed().simultaneous_order_hash, FNV1A32_OFFSET);
    assert!(ExecutorInstrumentation::<2>::storage_bytes() >= core::mem::size_of::<ExecutorTimingReport>());
}

#[test]
fn group_table_overflow_is_flagged() {
    let mut recorder = ExecutorInstrumentation::<1>::with_identity(identity());
    recorder.record_poll_attempt();
    recorder.record_dispatch(0, 1, 2, 1, 1, 0);
    recorder.record_dispatch(5, 6, 2, 2, 1, 1);
    let report = recorder.report();
    assert_ne!(report.flags & 16, 0);
    assert!(!report.verify_checksum());
    assert_eq!(ReportIdentity::new(1, 0, 3).is_complete(), false);
    assert!(identity().is_complete());
}
