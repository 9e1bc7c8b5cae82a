use sloth::clock::SampleClock;
use sloth::event::{HostEvent, IncomingEvent, SysExEvent};
use sloth::scheduler::DelayScheduler;
use sloth::plugin::{can_do, Capability, Sloth};

#[test]
fn declares_event_capabilities_only() {
    assert!(can_do(Capability::SendEvents));
    assert!(can_do(Capability::SendMidiEvent));
    assert!(can_do(Capability::ReceiveEvents));
    assert!(can_do(Capability::ReceiveMidiEvent));
    assert!(!can_do(Capability::ReceiveTimeInfo));
    assert!(!can_do(Capability::Offline));
    assert!(!can_do(Capability::MidiProgramNames));
    assert!(!can_do(Capability::Bypass));
    assert!(!can_do(Capability::ReceiveSysExEvent));
    assert!(!can_do(Capability::MidiSingleNoteTuningChange));
    assert!(!can_do(Capability::MidiKeyBasedInstrumentControl));
    assert!(!can_do(Capability::Other));
}

#[test]
fn new_plugin_has_no_rate_and_no_events() {
    let p = Sloth::new();
    assert_eq!(p.sample_rate(), 0);
    assert_eq!(p.pending_count(), 0);
}

fn midi(event: IncomingEvent, draw: i64) -> (HostEvent, i64) {
    (HostEvent::Midi(event), draw)
}

#[test]
fn without_a_sample_rate_everything_leaves_at_once() {
    let mut p = Sloth::new();
    let on = IncomingEvent::new(144, 60, 100);
    let off = IncomingEvent::new(128, 60, 0);
    p.process_events(vec![midi(on, 1_000_000_000_000), midi(off, 3)]);
    assert_eq!(p.pending_count(), 1);
    let out = p.process(1);
    assert_eq!(out.ready, vec![on]);
    assert_eq!(out.immediate, vec![HostEvent::Midi(off)]);
    assert_eq!(p.pending_count(), 0);
}

#[test]
fn sample_by_sample_at_48_khz() {
    let mut p = Sloth::new();
    p.set_sample_rate(48000);
    assert_eq!(p.sample_rate(), 48000);
    let on = IncomingEvent::new(144, 60, 100);
    let off = IncomingEvent::new(128, 60, 0);
    p.process_events(vec![midi(on, -50_000), midi(off, 0)]);
    let first = p.process(1);
    assert!(first.ready.is_empty());
    assert_eq!(first.immediate, vec![HostEvent::Midi(off)]);
    let second = p.process(1);
    assert!(second.ready.is_empty());
    assert!(second.immediate.is_empty());
    assert_eq!(p.pending_count(), 1);
    let third = p.process(1);
    assert_eq!(third.ready, vec![on]);
    assert!(third.immediate.is_empty());
    assert_eq!(p.pending_count(), 0);
    let fourth = p.process(1);
    assert!(fourth.ready.is_empty());
    assert!(fourth.immediate.is_empty());
}

#[test]
fn a_five_millisecond_delay_leaves_at_sample_240() {
    let mut p = Sloth::new();
    p.set_sample_rate(48000);
    let on = IncomingEvent::new(144, 60, 100);
    p.process_events(vec![midi(on, 5_000_000)]);
    let mut hits: Vec<u32> = Vec::new();
    for k in 1..=500u32 {
        let out = p.process(1);
        assert!(out.immediate.is_empty());
        if !out.ready.is_empty() {
            assert_eq!(out.ready, vec![on]);
            hits.push(k);
        }
    }
    assert_eq!(hits, vec![240]);
    assert_eq!(p.pending_count(), 0);
}

#[test]
fn a_five_millisecond_delay_leaves_in_the_block_that_holds_sample_240() {
    for block in [1u32, 7, 64, 100, 239, 240, 241, 512] {
        let mut p = Sloth::new();
        p.set_sample_rate(48000);
        let on = IncomingEvent::new(144, 60, 100);
        p.process_events(vec![midi(on, 5_000_000)]);
        let mut hits: Vec<u32> = Vec::new();
        for k in 1..=300u32 {
            if !p.process(block).ready.is_empty() {
                hits.push(k);
            }
        }
        assert_eq!(hits, vec![(240 + block - 1) / block]);
    }
}

#[test]
fn a_block_of_100_samples_at_1_khz_releases_a_50_ms_delay() {
    let mut p = Sloth::new();
    p.set_sample_rate(1000);
    let on = IncomingEvent::new(144, 60, 100);
    let late = IncomingEvent::new(144, 61, 100);
    p.process_events(vec![midi(on, 50_000_000), midi(late, 100_000_001)]);
    let out = p.process(100);
    assert_eq!(out.ready, vec![on]);
    assert_eq!(p.pending_count(), 1);
    let out = p.process(1);
    assert_eq!(out.ready, vec![late]);
    assert_eq!(p.pending_count(), 0);
}

#[test]
fn a_block_is_its_samples() {
    let delays = [0i64, 1, 20_833, 41_667, 3_141_592, 5_000_000, 9_999_999, 10_000_000];
    for rate in [44_100u32, 48_000, 96_000, 7] {
        for block in [1u32, 2, 3, 64, 480] {
            let mut whole = Sloth::new();
            whole.set_sample_rate(rate);
            let mut clock = SampleClock::new(rate);
            let mut single = DelayScheduler::new();
            for (k, d) in delays.iter().enumerate() {
                let on = IncomingEvent::new(144, k as u8, 1);
                whole.process_events(vec![midi(on, *d)]);
                single.classify_and_enqueue(on, *d as u64);
            }
            for _ in 0..20 {
                let mut got = whole.process(block).ready;
                let mut want: Vec<IncomingEvent> = Vec::new();
                for _ in 0..block {
                    want.extend(single.advance(clock.tick()).0);
                }
                got.sort_by_key(|e| e.data1);
                want.sort_by_key(|e| e.data1);
                assert_eq!(got, want);
                assert_eq!(whole.pending_count(), single.pending_count());
            }
        }
    }
}

#[test]
fn an_empty_block_lets_no_time_go_by() {
    let mut p = Sloth::new();
    p.set_sample_rate(48000);
    let on = IncomingEvent::new(144, 60, 100);
    let off = IncomingEvent::new(128, 60, 0);
    p.process_events(vec![midi(on, 0), midi(off, 0)]);
    let out = p.process(0);
    assert!(out.ready.is_empty());
    assert_eq!(out.immediate, vec![HostEvent::Midi(off)]);
    assert_eq!(p.pending_count(), 1);
    let out = p.process(1);
    assert_eq!(out.ready, vec![on]);
    assert!(out.immediate.is_empty());
}

#[test]
fn sysex_leaves_with_the_block_it_came_in() {
    let mut p = Sloth::new();
    p.set_sample_rate(48000);
    let message = HostEvent::SysEx(SysExEvent { payload: vec![0xF0, 1, 2, 3, 0xF7], offset: 11 });
    p.process_events(vec![(message.clone(), 123_456)]);
    assert_eq!(p.pending_count(), 0);
    let out = p.process(64);
    assert!(out.ready.is_empty());
    assert_eq!(out.immediate, vec![message]);
}

#[test]
fn setting_the_rate_keeps_the_events() {
    let mut p = Sloth::new();
    p.set_sample_rate(44100);
    p.process_events(vec![midi(IncomingEvent::new(144, 1, 1), 1_000_000)]);
    p.set_sample_rate(48000);
    assert_eq!(p.pending_count(), 1);
    assert_eq!(p.sample_rate(), 48000);
}
