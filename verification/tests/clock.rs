use sloth::clock::{SampleClock, NANOS_PER_SECOND};

#[test]
fn a_second_has_a_billion_nanoseconds() {
    assert_eq!(NANOS_PER_SECOND, 1_000_000_000);
}

#[test]
fn ticks_at_48_khz_carry_the_thirds() {
    let mut clock = SampleClock::new(48000);
    assert_eq!(clock.sample_rate(), 48000);
    let told: Vec<u64> = (0..6).map(|_| clock.tick()).collect();
    assert_eq!(told, vec![20_833, 20_833, 20_834, 20_833, 20_833, 20_834]);
}

#[test]
fn clock_tells_the_true_time_rounded_down() {
    for rate in [1u32, 3, 7, 44_100, 48_000, 96_000, 999_999_999, 1_000_000_000, u32::MAX] {
        let mut clock = SampleClock::new(rate);
        let mut sum: u128 = 0;
        for k in 1..=5000u128 {
            sum += clock.tick() as u128;
            assert_eq!(sum, k * 1_000_000_000 / rate as u128);
        }
    }
}

#[test]
fn one_tick_per_second_is_a_whole_second() {
    let mut clock = SampleClock::new(1);
    assert_eq!(clock.tick(), 1_000_000_000);
    assert_eq!(clock.tick(), 1_000_000_000);
}

#[test]
fn faster_than_a_nanosecond_ticks_mostly_nothing() {
    let mut clock = SampleClock::new(4_000_000_000);
    let told: Vec<u64> = (0..8).map(|_| clock.tick()).collect();
    assert_eq!(told, vec![0, 0, 0, 1, 0, 0, 0, 1]);
}

#[test]
fn without_a_rate_a_tick_is_the_longest_time() {
    let mut clock = SampleClock::new(0);
    assert_eq!(clock.tick(), u64::MAX);
    assert_eq!(clock.tick(), u64::MAX);
}

#[test]
fn a_block_tells_the_sum_of_its_ticks() {
    for rate in [1u32, 3, 44_100, 48_000, 96_000, u32::MAX] {
        for block in [0u32, 1, 2, 3, 64, 1000] {
            let mut whole = SampleClock::new(rate);
            let mut single = SampleClock::new(rate);
            for _ in 0..50 {
                let mut sum = 0u64;
                for _ in 0..block {
                    sum += single.tick();
                }
                assert_eq!(whole.tick_block(block), sum);
            }
        }
    }
}

#[test]
fn block_times_at_48_khz() {
    let mut clock = SampleClock::new(48000);
    assert_eq!(clock.tick_block(240), 5_000_000);
    assert_eq!(clock.tick_block(1), 20_833);
    assert_eq!(clock.tick_block(2), 41_667);
    assert_eq!(clock.tick_block(0), 0);
    assert_eq!(clock.tick_block(48_000), 1_000_000_000);
    assert_eq!(clock.tick_block(u32::MAX), 89_478_485_312_500);
}

#[test]
fn without_a_rate_a_block_is_the_longest_time_unless_empty() {
    let mut clock = SampleClock::new(0);
    assert_eq!(clock.tick_block(0), 0);
    assert_eq!(clock.tick_block(1), u64::MAX);
    assert_eq!(clock.tick_block(512), u64::MAX);
}
