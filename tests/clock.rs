use millis_smoothing::clock::{elapsed, ConfigError, MillisClock, Prescaler, TimerConfig};

fn default_config() -> TimerConfig {
    TimerConfig::new(1024, 125, 16000).unwrap()
}

#[test]
fn increment_for_prescaler_1024_and_count_125() {
    let config = default_config();
    assert_eq!(config.prescaler, Prescaler::Div1024);
    assert_eq!(config.compare_count, 125);
    assert_eq!(config.increment_per_tick(), 8);
}

#[test]
fn three_ticks_after_init_read_24() {
    let config = default_config();
    let mut clock = MillisClock::new(&config);
    clock.preset(777);
    clock.init();
    assert_eq!(clock.now(), 0);
    clock.on_tick();
    clock.on_tick();
    clock.on_tick();
    assert_eq!(clock.now(), 24);
}

#[test]
fn n_ticks_read_n_times_increment() {
    let config = TimerConfig::new(64, 250, 16000).unwrap();
    assert_eq!(config.increment_per_tick(), 1);
    let mut clock = MillisClock::new(&config);
    for _ in 0..1000 {
        clock.on_tick();
    }
    assert_eq!(clock.now(), 1000);
}

#[test]
fn other_increments() {
    assert_eq!(TimerConfig::new(256, 250, 16000).unwrap().increment_per_tick(), 4);
    assert_eq!(TimerConfig::new(8, 125, 16000).unwrap().increment_per_tick(), 0);
    assert_eq!(TimerConfig::new(1024, 255, 1000).unwrap().increment_per_tick(), 261);
}

#[test]
fn tick_wraps_at_counter_width() {
    let config = default_config();
    let mut clock = MillisClock::new(&config);
    clock.preset(u32::MAX - 3);
    let before = clock.now();
    clock.on_tick();
    assert_eq!(clock.now(), 4);
    assert_eq!(elapsed(clock.now(), before), 8);
}

#[test]
fn tick_just_below_max_does_not_wrap() {
    let config = default_config();
    let mut clock = MillisClock::new(&config);
    clock.preset(u32::MAX - 8);
    clock.on_tick();
    assert_eq!(clock.now(), u32::MAX);
    clock.on_tick();
    assert_eq!(clock.now(), 7);
}

#[test]
fn elapsed_without_wrap() {
    assert_eq!(elapsed(1500, 1000), 500);
    assert_eq!(elapsed(42, 42), 0);
}

#[test]
fn elapsed_across_wrap() {
    assert_eq!(elapsed(100, u32::MAX - 99), 200);
}

#[test]
fn rejects_invalid_prescaler() {
    assert_eq!(TimerConfig::new(128, 125, 16000).unwrap_err(), ConfigError::InvalidPrescaler);
    assert_eq!(TimerConfig::new(0, 125, 16000).unwrap_err(), ConfigError::InvalidPrescaler);
}

#[test]
fn rejects_invalid_compare_count() {
    assert_eq!(TimerConfig::new(64, 0, 16000).unwrap_err(), ConfigError::InvalidCompareCount);
    assert_eq!(TimerConfig::new(64, 256, 16000).unwrap_err(), ConfigError::InvalidCompareCount);
    assert!(TimerConfig::new(64, 255, 16000).is_ok());
    assert!(TimerConfig::new(64, 1, 16000).is_ok());
}

#[test]
fn rejects_zero_clock() {
    assert_eq!(TimerConfig::new(64, 125, 0).unwrap_err(), ConfigError::ZeroClockFrequency);
}

#[test]
fn prescaler_divisors_round_trip() {
    for d in [8u32, 64, 256, 1024] {
        assert_eq!(Prescaler::from_divisor(d).unwrap().divisor(), d);
    }
    assert_eq!(Prescaler::from_divisor(512), None);
}

#[test]
fn clock_keeps_increment() {
    let config = default_config();
    let mut clock = MillisClock::new(&config);
    clock.on_tick();
    clock.init();
    assert_eq!(clock.increment(), 8);
    assert_eq!(clock.now(), 0);
}
