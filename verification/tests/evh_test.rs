use bmw::config::ConfigOption;
use bmw::error::{CoreErrorKind, ErrKind, Error};
use bmw::evh::{
    EventHandlerConfig, EvhStats, FlushStep, GlobalStats, housekeeping_step, PanicRecovery, panic_recovery, poll_sleep_millis, RecoveryPlan, WriteStart, WriteTally, WriteState, EAGAIN,
    WRITE_STATE_FLAG_CLOSE, WRITE_STATE_FLAG_PENDING, WRITE_STATE_FLAG_TRIGGER_ON_READ,
};

fn is_configuration(e: &Error) -> bool {
    matches!(e.kind(), ErrKind::Configuration(_))
}

fn is_io(e: &Error) -> bool {
    matches!(e.kind(), ErrKind::Core(CoreErrorKind::IO(_)))
}

#[test]
fn test_evh_invalid_configs() {
    // timeout == 0
    let r = EventHandlerConfig::build(&[
        ConfigOption::Debug(false),
        ConfigOption::EvhTimeout(0),
        ConfigOption::EvhThreads(1),
        ConfigOption::EvhReadSlabSize(100),
        ConfigOption::EvhStatsUpdateMillis(3_000),
    ]);
    assert!(r.is_err());

    // read_slab_size < 25
    let r = EventHandlerConfig::build(&[
        ConfigOption::Debug(false),
        ConfigOption::EvhTimeout(1),
        ConfigOption::EvhThreads(1),
        ConfigOption::EvhReadSlabSize(10),
        ConfigOption::EvhStatsUpdateMillis(3_000),
    ]);
    assert!(r.is_err());

    // read_slab_count == 0
    let r = EventHandlerConfig::build(&[
        ConfigOption::Debug(false),
        ConfigOption::EvhTimeout(1),
        ConfigOption::EvhThreads(1),
        ConfigOption::EvhReadSlabSize(100),
        ConfigOption::EvhReadSlabCount(0),
        ConfigOption::EvhStatsUpdateMillis(3_000),
    ]);
    assert!(r.is_err());

    // housekeeping_frequency_millis == 0
    let r = EventHandlerConfig::build(&[
        ConfigOption::Debug(false),
        ConfigOption::EvhTimeout(1),
        ConfigOption::EvhThreads(1),
        ConfigOption::EvhReadSlabSize(100),
        ConfigOption::EvhHouseKeeperFrequencyMillis(0),
        ConfigOption::EvhStatsUpdateMillis(3_000),
    ]);
    assert!(r.is_err());
}

#[test]
fn evh_config_defaults() {
    let c = EventHandlerConfig::build(&[]).unwrap();
    assert_eq!(c.threads, 4);
    assert_eq!(c.timeout, 1000);
    assert_eq!(c.read_slab_count, 1000);
    assert_eq!(c.read_slab_size, 512);
    assert_eq!(c.housekeeping_frequency_millis, 10000);
    assert_eq!(c.stats_update_frequency_millis, 5000);
    assert!(!c.debug);
}

#[test]
fn evh_config_values_and_errors() {
    let c = EventHandlerConfig::build(&[
        ConfigOption::Debug(true),
        ConfigOption::EvhThreads(2),
        ConfigOption::EvhReadSlabSize(25),
    ])
    .unwrap();
    assert_eq!(c.threads, 2);
    assert_eq!(c.read_slab_size, 25);
    assert!(c.debug);

    // an option of another kind is refused
    let e = EventHandlerConfig::build(&[ConfigOption::HttpAccept("x".to_string())]).unwrap_err();
    assert!(is_configuration(&e));
    // an option given twice is refused
    let e = EventHandlerConfig::build(&[ConfigOption::EvhThreads(1), ConfigOption::EvhThreads(2)])
        .unwrap_err();
    assert!(is_configuration(&e));
}

#[test]
fn write_state_flags() {
    let mut ws = WriteState::new();
    assert!(!ws.is_set(WRITE_STATE_FLAG_PENDING));
    ws.set_flag(WRITE_STATE_FLAG_PENDING);
    ws.set_flag(WRITE_STATE_FLAG_CLOSE);
    assert!(ws.is_set(WRITE_STATE_FLAG_PENDING));
    ws.unset_flag(WRITE_STATE_FLAG_PENDING);
    assert!(!ws.is_set(WRITE_STATE_FLAG_PENDING));
    assert!(ws.is_set(WRITE_STATE_FLAG_CLOSE));
    assert_eq!(ws.flags, WRITE_STATE_FLAG_CLOSE);
}

#[test]
fn partial_write_is_queued_then_flushed_in_order() {
    let mut ws = WriteState::new();
    assert_eq!(ws.begin_write(), Ok(WriteStart::Direct));
    assert_eq!(ws.finish_write(b"hello", 2), Ok(true));
    assert_eq!(ws.write_buffer, b"llo".to_vec());
    assert!(ws.is_set(WRITE_STATE_FLAG_PENDING));
    assert_eq!(ws.begin_write(), Ok(WriteStart::Queue));
    assert_eq!(ws.finish_write(b"!", 0), Ok(true));
    assert_eq!(ws.write_buffer, b"llo!".to_vec());

    let mut tally = WriteTally { count: 0, sum: 0 };
    assert_eq!(ws.flush_step(-1, EAGAIN, &mut tally), FlushStep::Blocked);
    assert_eq!(ws.flush_step(-1, 32, &mut tally), FlushStep::Failed);
    assert_eq!(ws.flush_step(0, 0, &mut tally), FlushStep::Again);
    assert_eq!(tally, WriteTally { count: 0, sum: 0 });
    assert_eq!(ws.flush_step(3, 0, &mut tally), FlushStep::Again);
    assert_eq!(ws.write_buffer, b"!".to_vec());
    assert!(!ws.finish_flush());
    assert_eq!(ws.flush_step(1, 0, &mut tally), FlushStep::Again);
    assert_eq!(tally, WriteTally { count: 2, sum: 4 });
    ws.close().unwrap();
    assert!(ws.finish_flush());
    assert!(!ws.is_set(WRITE_STATE_FLAG_PENDING));
}

#[test]
fn full_write_and_failed_write() {
    let mut ws = WriteState::new();
    assert_eq!(ws.finish_write(b"abc", 3), Ok(false));
    assert!(ws.write_buffer.is_empty());
    assert!(is_io(&ws.finish_write(b"abc", -1).unwrap_err()));
}

#[test]
fn close_and_trigger_on_a_closed_connection() {
    let mut ws = WriteState::new();
    ws.trigger_on_read().unwrap();
    assert!(ws.is_set(WRITE_STATE_FLAG_TRIGGER_ON_READ));
    ws.close().unwrap();
    assert!(is_io(&ws.begin_write().unwrap_err()));
    assert!(is_io(&ws.close().unwrap_err()));
    assert!(is_io(&ws.trigger_on_read().unwrap_err()));

    let a = ws.take_requests();
    assert!(a.close);
    assert!(a.trigger_on_read);
    assert!(!a.await_writable);
    assert!(!ws.is_set(WRITE_STATE_FLAG_TRIGGER_ON_READ));
    let a = ws.take_requests();
    assert!(!a.trigger_on_read);
}

#[test]
fn pending_data_delays_the_close() {
    let mut ws = WriteState::new();
    ws.finish_write(b"ab", 1).unwrap();
    ws.close().unwrap();
    let a = ws.take_requests();
    assert!(!a.close);
    assert!(a.await_writable);
}

#[test]
fn stats_add_up() {
    let mut s = EvhStats::new();
    let mut t = EvhStats::new();
    t.accepts = 2;
    t.reads = 3;
    t.bytes_read = 100;
    s.incr_stats(&t);
    s.incr_stats(&t);
    assert_eq!(s.accepts, 4);
    assert_eq!(s.reads, 6);
    assert_eq!(s.bytes_read, 200);
    assert_eq!(s.closes, 0);
    // adding zero counts changes nothing
    let before = s;
    s.incr_stats(&EvhStats::new());
    assert_eq!(s, before);
    s.reset();
    assert_eq!(s, EvhStats::new());
}

#[test]
fn global_stats_publish_after_every_thread() {
    let mut g = GlobalStats { stats: EvhStats::new(), update_counter: 0 };
    let mut t = EvhStats::new();
    t.event_loops = 5;
    assert!(!g.record(&t, 2));
    assert_eq!(g.update_counter, 1);
    assert!(g.record(&t, 2));
    assert_eq!(g.update_counter, 0);
    assert_eq!(g.stats.event_loops, 10);
}

#[test]
fn panic_recovery_closes_the_connection_at_fault() {
    assert_eq!(
        panic_recovery(1, 3, 0, 5),
        RecoveryPlan { close: PanicRecovery::CloseTriggered(1), trigger_itt: 2, event_itt: 0 }
    );
    assert_eq!(
        panic_recovery(3, 3, 2, 5),
        RecoveryPlan { close: PanicRecovery::CloseEvent(2), trigger_itt: 3, event_itt: 3 }
    );
    assert_eq!(
        panic_recovery(3, 3, 5, 5),
        RecoveryPlan { close: PanicRecovery::Nothing, trigger_itt: 3, event_itt: 5 }
    );
}

#[test]
fn poll_sleeps_until_housekeeping() {
    assert_eq!(poll_sleep_millis(true, 10000, 5000, 1000), 0);
    assert_eq!(poll_sleep_millis(false, 10000, 5000, 1000), 6000);
    assert_eq!(poll_sleep_millis(false, 10000, 20000, 1000), 0);
}

#[test]
fn housekeeping_runs_when_due() {
    let c = EventHandlerConfig::build(&[]).unwrap();
    let p = housekeeping_step(20_001, 10_000, 19_000, &c);
    assert!(p.call_housekeeper);
    assert!(!p.update_stats);
    assert_eq!(p.last_housekeeping, 20_001);
    assert_eq!(p.last_stats_update, 19_000);
    let p = housekeeping_step(5, 10, 0, &c);
    assert!(!p.call_housekeeper);
    assert!(!p.update_stats);
}
