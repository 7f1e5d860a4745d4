use ai_protect::engine::policy::store::Anchor;
use ai_protect::engine::time::{millis_since_epoch, moment_after, Clock, Duration, Instant};

type StdDuration = std::time::Duration;

#[test]
fn standard_durations_become_plain_values() {
    let duration = Duration::from_std(StdDuration::new(61, 250_000_000));

    assert_eq!(duration.as_secs(), 61);
    assert_eq!(duration.as_nanos(), 61_250_000_000);
}

#[test]
fn moments_count_from_the_origin() {
    assert_eq!(moment_after(StdDuration::from_millis(1_500)), Instant { nanos: 1_500_000_000 });
    assert_eq!(
        moment_after(StdDuration::MAX),
        Instant { nanos: u64::MAX as i128 * 1_000_000_000 + 999_999_999 }
    );
}

#[test]
fn the_wall_clock_is_read_in_whole_milliseconds() {
    let epoch = std::time::UNIX_EPOCH;
    let later = epoch + StdDuration::new(1_700_000_000, 1_999_999);

    assert_eq!(millis_since_epoch(later.duration_since(epoch)), Some(1_700_000_000_001));
    assert_eq!(millis_since_epoch(epoch.duration_since(later)), None);
}

#[test]
fn a_clock_does_not_run_backwards() {
    let clock = Clock::new();

    let first = clock.now();
    let second = clock.now();

    assert!(first.nanos >= 0);
    assert!(second.nanos >= first.nanos);
}

#[test]
fn an_anchor_is_tied_to_both_clocks() {
    let clock = Clock::new();
    let system = || {
        std::time::SystemTime::now().duration_since(std::time::UNIX_EPOCH).unwrap().as_millis()
            as i64
    };

    let before = system();
    let anchor = Anchor::now(&clock);
    let after = system();

    let anchored = anchor.cutoff(Duration::from_secs(0));
    assert!(before <= anchored && anchored <= after);
    let moment = anchor.to_instant(anchored).unwrap();
    assert!(moment.nanos >= 0 && moment.nanos <= clock.now().nanos);
}
