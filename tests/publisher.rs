use desk_monitor::clock::current_millis;
use desk_monitor::clock::millis_of;
use desk_monitor::clock::MAX_MILLIS;
use desk_monitor::clock::timestamp_or_default;
use desk_monitor::publisher::Command;
use desk_monitor::publisher::Event;
use desk_monitor::publisher::Publisher;
use desk_monitor::publisher::CPU_EVENT;
use desk_monitor::publisher::SAMPLE_INTERVAL_MS;

#[test]
fn channel_and_interval() {
    assert_eq!(CPU_EVENT, "cpu-usage");
    assert_eq!(SAMPLE_INTERVAL_MS, 2000);
}

#[test]
fn a_new_publisher_takes_a_sample() {
    let p = Publisher::new();
    assert!(p.is_running());
    assert_eq!(p.pending_command(), Command::TakeSample);
}

#[test]
fn one_tick_publishes_rests_and_samples_again() {
    let mut p = Publisher::new();
    assert_eq!(p.step(Event::Sampled { timestamp_ms: 1000 }), Command::Publish { timestamp_ms: 1000 });
    assert_eq!(p.step(Event::Delivered), Command::Rest { millis: 2000, report_failure: false });
    assert_eq!(p.step(Event::Woke), Command::TakeSample);
}

#[test]
fn a_failed_publication_does_not_stop_later_ticks() {
    let mut p = Publisher::new();
    assert_eq!(p.step(Event::Sampled { timestamp_ms: 10 }), Command::Publish { timestamp_ms: 10 });
    assert_eq!(p.step(Event::DeliveryFailed), Command::Rest { millis: 2000, report_failure: true });
    assert!(p.is_running());
    assert_eq!(p.step(Event::Woke), Command::TakeSample);
    assert_eq!(p.step(Event::Sampled { timestamp_ms: 2010 }), Command::Publish { timestamp_ms: 2010 });
    assert_eq!(p.step(Event::Delivered), Command::Rest { millis: 2000, report_failure: false });
}

#[test]
fn five_ticks_publish_five_samples_in_order() {
    let mut p = Publisher::new();
    let mut published = Vec::new();
    let mut rested: u64 = 0;
    for k in 0..5u128 {
        let ts = 1_700_000_000_000 + k * 2000;
        match p.step(Event::Sampled { timestamp_ms: ts }) {
            Command::Publish { timestamp_ms } => published.push(timestamp_ms),
            other => panic!("unexpected {:?}", other),
        }
        let outcome = if k == 2 { Event::DeliveryFailed } else { Event::Delivered };
        match p.step(outcome) {
            Command::Rest { millis, .. } => rested += millis,
            other => panic!("unexpected {:?}", other),
        }
        assert_eq!(p.step(Event::Woke), Command::TakeSample);
    }
    assert_eq!(published.len(), 5);
    assert!(published.windows(2).all(|w| w[0] <= w[1]));
    assert_eq!(rested, 10_000);
}

#[test]
fn cancellation_halts_for_good() {
    let mut p = Publisher::new();
    p.step(Event::Sampled { timestamp_ms: 5 });
    assert_eq!(p.step(Event::Cancelled), Command::Halt);
    assert!(!p.is_running());
    assert_eq!(p.step(Event::Woke), Command::Halt);
    assert_eq!(p.step(Event::Sampled { timestamp_ms: 6 }), Command::Halt);
    assert_eq!(p.pending_command(), Command::Halt);
}

#[test]
fn an_out_of_turn_event_repeats_the_pending_command() {
    let mut p = Publisher::new();
    assert_eq!(p.step(Event::Delivered), Command::TakeSample);
    p.step(Event::Sampled { timestamp_ms: 42 });
    assert_eq!(p.step(Event::Woke), Command::Publish { timestamp_ms: 42 });
    p.step(Event::Delivered);
    assert_eq!(p.step(Event::Sampled { timestamp_ms: 43 }), Command::Rest { millis: 2000, report_failure: false });
}

#[test]
fn clock_failure_gives_zero() {
    assert_eq!(timestamp_or_default(None), 0);
    assert_eq!(timestamp_or_default(Some(1_234)), 1_234);
}

#[test]
fn current_millis_reads_the_clock() {
    // Any working clock reads later than 2020-01-01.
    let now = current_millis();
    assert!(now > 1_577_836_800_000);
    assert!(now <= MAX_MILLIS);
}

#[test]
fn millis_of_joins_seconds_and_milliseconds() {
    assert_eq!(millis_of(0, 0), 0);
    assert_eq!(millis_of(1_700_000_000, 123), 1_700_000_000_123);
    assert_eq!(millis_of(u64::MAX, 999), MAX_MILLIS);
}

#[test]
fn an_out_of_turn_event_while_resting_after_a_failure_repeats_the_report() {
    let mut p = Publisher::new();
    p.step(Event::Sampled { timestamp_ms: 1 });
    assert_eq!(p.step(Event::DeliveryFailed), Command::Rest { millis: 2000, report_failure: true });
    assert_eq!(p.pending_command(), Command::Rest { millis: 2000, report_failure: true });
    assert_eq!(p.step(Event::Delivered), Command::Rest { millis: 2000, report_failure: true });
    assert_eq!(p.step(Event::Woke), Command::TakeSample);
}
