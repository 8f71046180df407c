use nobro_kernel::{stuck_poll, ExecutionSentinel, StuckPoll};

const RADIO_CODE: u32 = 4;

#[test]
fn sentinel_flags_a_non_yielding_poll_for_the_isr() {
    let sentinel = ExecutionSentinel::new();
    assert_eq!(sentinel.check(1_000), None);
    sentinel.arm(RADIO_CODE, 5_000);
    assert_eq!(sentinel.check(4_999), None);
    let stuck = sentinel.check(6_000).expect("stuck poll");
    assert_eq!(stuck.module_code, RADIO_CODE);
    assert_eq!(stuck.late_us, 1_000);
    sentinel.disarm();
    assert_eq!(sentinel.check(10_000), None);
}

#[test]
fn sentinel_keeps_deadlines_past_32_bits_whole() {
    let sentinel = ExecutionSentinel::new();
    let deadline = (1u64 << 40) + 7;
    sentinel.arm(9, deadline);
    assert_eq!(sentinel.check(deadline), None, "a poll at its deadline is in time");
    assert_eq!(
        sentinel.check(deadline + 3),
        Some(StuckPoll { module_code: 9, deadline_us: deadline, late_us: 3 })
    );
    sentinel.arm(2, 100);
    assert_eq!(sentinel.check(1_000).map(|s| (s.module_code, s.late_us)), Some((2, 900)));
}

#[test]
fn a_sample_reports_only_a_stable_generation_past_its_deadline() {
    assert_eq!(
        stuck_poll(2, RADIO_CODE, 5_000, 0, 2, 6_000),
        Some(StuckPoll { module_code: RADIO_CODE, deadline_us: 5_000, late_us: 1_000 })
    );
    assert_eq!(stuck_poll(1, RADIO_CODE, 10, 0, 1, 1_000), None, "a writer was mid-update");
    assert_eq!(stuck_poll(2, RADIO_CODE, 10, 0, 4, 1_000), None, "the generation moved");
    assert_eq!(stuck_poll(2, 0, 10, 0, 2, 1_000), None, "idle");
    assert_eq!(stuck_poll(2, RADIO_CODE, 5_000, 0, 2, 5_000), None, "in time");
    assert_eq!(
        stuck_poll(0, 9, 7, 256, 0, (1u64 << 40) + 10),
        Some(StuckPoll { module_code: 9, deadline_us: (1u64 << 40) + 7, late_us: 3 })
    );
}
