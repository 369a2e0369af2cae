use vstd::prelude::*;
use vstd::arithmetic::div_mod::{lemma_add_mod_noop_right, lemma_small_mod, lemma_sub_mod_noop};

verus! {

/// Number of distinct values of the 32-bit millisecond counter.
pub const COUNTER_MODULUS: u64 = 0x1_0000_0000;

/// `a + b`, wrapped to the width of the counter.
pub open spec fn wrap_add(a: u32, b: u32) -> u32 {
    ((a as int + b as int) % (COUNTER_MODULUS as int)) as u32
}

/// `a - b`, wrapped to the width of the counter.
pub open spec fn wrap_sub(a: u32, b: u32) -> u32 {
    ((a as int - b as int) % (COUNTER_MODULUS as int)) as u32
}

/// The counter value after `n` ticks of `increment`, starting from `start`.
pub open spec fn ticks_from(start: u32, increment: u32, n: nat) -> u32
    decreases n,
{
    if n == 0 {
        start
    } else {
        wrap_add(ticks_from(start, increment, (n - 1) as nat), increment)
    }
}

/// The clock-select settings of the hardware timer.
#[derive(Clone, Copy, Debug, PartialEq, Eq, Structural)]
pub enum Prescaler {
    Div8,
    Div64,
    Div256,
    Div1024,
}

impl Prescaler {
    pub open spec fn divisor_spec(self) -> u32 {
        match self {
            Prescaler::Div8 => 8,
            Prescaler::Div64 => 64,
            Prescaler::Div256 => 256,
            Prescaler::Div1024 => 1024,
        }
    }

    /// The factor by which the prescaler divides the clock.
    pub fn divisor(&self) -> (r: u32)
        ensures
            r == self.divisor_spec(),
    {
        match self {
            Prescaler::Div8 => 8,
            Prescaler::Div64 => 64,
            Prescaler::Div256 => 256,
            Prescaler::Div1024 => 1024,
        }
    }

    /// The prescaler that divides by `divisor`, if the hardware offers one.
    pub fn from_divisor(divisor: u32) -> (r: Option<Prescaler>)
        ensures
            r matches Some(p) ==> p.divisor_spec() == divisor,
            r is None <==> !(divisor == 8 || divisor == 64 || divisor == 256 || divisor == 1024),
    {
        match divisor {
            8 => Some(Prescaler::Div8),
            64 => Some(Prescaler::Div64),
            256 => Some(Prescaler::Div256),
            1024 => Some(Prescaler::Div1024),
            _ => None,
        }
    }
}

/// Why a timer configuration was refused.
#[derive(Clone, Copy, Debug, PartialEq, Eq, Structural)]
pub enum ConfigError {
    /// The prescaler is not one that the timer offers.
    InvalidPrescaler,
    /// The compare count is outside `1..=255`.
    InvalidCompareCount,
    /// The clock frequency is zero.
    ZeroClockFrequency,
}

/// Settings of the periodic timer, fixed at startup.
#[derive(Clone, Copy, Debug)]
pub struct TimerConfig {
    pub prescaler: Prescaler,
    pub compare_count: u8,
    pub clock_khz: u32,
}

/// Milliseconds (or whatever unit the clock frequency is given in) added per tick.
pub open spec fn increment_of(prescaler: u32, compare_count: u32, clock_khz: u32) -> int
    recommends
        clock_khz > 0,
{
    (prescaler as int * compare_count as int) / (clock_khz as int)
}

impl TimerConfig {
    pub open spec fn wf(self) -> bool {
        self.compare_count >= 1 && self.clock_khz > 0
    }

    pub open spec fn increment_spec(self) -> u32 {
        increment_of(self.prescaler.divisor_spec(), self.compare_count as u32, self.clock_khz) as u32
    }

    /// Checks a configuration given as raw numbers.
    pub fn new(prescaler: u32, compare_count: u32, clock_khz: u32) -> (r: Result<TimerConfig, ConfigError>)
        ensures
            !(prescaler == 8 || prescaler == 64 || prescaler == 256 || prescaler == 1024)
                ==> r == Err::<TimerConfig, ConfigError>(ConfigError::InvalidPrescaler),
            (prescaler == 8 || prescaler == 64 || prescaler == 256 || prescaler == 1024)
                && !(1 <= compare_count <= 255)
                ==> r == Err::<TimerConfig, ConfigError>(ConfigError::InvalidCompareCount),
            (prescaler == 8 || prescaler == 64 || prescaler == 256 || prescaler == 1024)
                && 1 <= compare_count <= 255 && clock_khz == 0
                ==> r == Err::<TimerConfig, ConfigError>(ConfigError::ZeroClockFrequency),
            r is Ok <==> (prescaler == 8 || prescaler == 64 || prescaler == 256 || prescaler == 1024)
                && 1 <= compare_count <= 255 && clock_khz > 0,
            r matches Ok(c) ==> c.wf() && c.prescaler.divisor_spec() == prescaler
                && c.compare_count == compare_count && c.clock_khz == clock_khz,
    {
        let p = match Prescaler::from_divisor(prescaler) {
            Some(p) => p,
            None => return Err(ConfigError::InvalidPrescaler),
        };
        if compare_count < 1 || compare_count > 255 {
            return Err(ConfigError::InvalidCompareCount);
        }
        if clock_khz == 0 {
            return Err(ConfigError::ZeroClockFrequency);
        }
        Ok(TimerConfig { prescaler: p, compare_count: compare_count as u8, clock_khz })
    }

    /// Counter increment per tick: prescaler times compare count over the
    /// clock frequency in kHz, truncated.
    pub fn increment_per_tick(&self) -> (r: u32)
        requires
            self.wf(),
        ensures
            r == self.increment_spec(),
            r as int == increment_of(self.prescaler.divisor_spec(), self.compare_count as u32, self.clock_khz),
    {
        let p = self.prescaler.divisor();
        let c = self.compare_count as u32;
        assert(p * c <= 1024 * 255) by (nonlinear_arith)
            requires p <= 1024, c <= 255;
        p * c / self.clock_khz
    }
}

/// A counter of elapsed time, advanced by a fixed increment on each timer tick.
/// It wraps silently at the width of `u32`.
#[derive(Clone, Copy, Debug)]
pub struct MillisClock {
    counter: u32,
    increment: u32,
}

impl View for MillisClock {
    type V = u32;

    closed spec fn view(&self) -> u32 {
        self.counter
    }
}

impl MillisClock {
    pub closed spec fn increment_spec(self) -> u32 {
        self.increment
    }

    /// A clock at zero that advances by the configuration's increment per tick.
    pub fn new(config: &TimerConfig) -> (r: MillisClock)
        requires
            config.wf(),
        ensures
            r@ == 0,
            r.increment_spec() == config.increment_spec(),
    {
        MillisClock { counter: 0, increment: config.increment_per_tick() }
    }

    /// Resets the counter to zero.
    pub fn init(&mut self)
        ensures
            final(self)@ == 0,
            final(self).increment_spec() == old(self).increment_spec(),
    {
        self.counter = 0;
    }

    /// Sets the counter to `value`.
    pub fn preset(&mut self, value: u32)
        ensures
            final(self)@ == value,
            final(self).increment_spec() == old(self).increment_spec(),
    {
        self.counter = value;
    }

    /// Advances the counter by one tick's increment, wrapping on overflow.
    pub fn on_tick(&mut self)
        ensures
            final(self)@ == wrap_add(old(self)@, old(self).increment_spec()),
            final(self).increment_spec() == old(self).increment_spec(),
    {
        self.counter = self.counter.wrapping_add(self.increment);
    }

    /// The current counter value.
    pub fn now(&self) -> (r: u32)
        ensures
            r == self@,
    {
        self.counter
    }

    /// The increment added per tick.
    pub fn increment(&self) -> (r: u32)
        ensures
            r == self.increment_spec(),
    {
        self.increment
    }
}

/// Time elapsed from reading `earlier` to reading `later`, correct across one
/// wrap of the counter.
pub fn elapsed(later: u32, earlier: u32) -> (r: u32)
    ensures
        r == wrap_sub(later, earlier),
{
    later.wrapping_sub(earlier)
}

/// After `n` ticks from any starting value the counter holds
/// `(start + n * increment) mod 2^32`.
pub proof fn lemma_ticks_wrap(start: u32, increment: u32, n: nat)
    ensures
        ticks_from(start, increment, n) as int
            == (start as int + n * increment as int) % (COUNTER_MODULUS as int),
    decreases n,
{
    let m = COUNTER_MODULUS as int;
    if n == 0 {
        lemma_small_mod(start as nat, m as nat);
    } else {
        let k = (n - 1) as nat;
        lemma_ticks_wrap(start, increment, k);
        let x = start as int + k * increment as int;
        lemma_add_mod_noop_right(increment as int, x, m);
        assert(x + increment as int == start as int + n * increment as int) by (nonlinear_arith)
            requires
                x == start as int + k * increment as int,
                k == n - 1,
        ;
    }
}

/// Starting from zero, `n` ticks leave the counter at `n * increment`, as long
/// as that stays within the counter's range.
pub proof fn lemma_ticks_from_zero(increment: u32, n: nat)
    requires
        n * increment <= u32::MAX,
    ensures
        ticks_from(0, increment, n) == n * increment,
{
    lemma_ticks_wrap(0, increment, n);
    lemma_small_mod((n * increment) as nat, COUNTER_MODULUS as nat);
}

/// Whatever the counter held before, the wrapped difference between the
/// reading after `n` ticks and the reading before is `n * increment`, even
/// where the counter wrapped in between, as long as less than one full turn
/// of the counter has passed.
pub proof fn lemma_elapsed_after_ticks(start: u32, increment: u32, n: nat)
    requires
        n * increment <= u32::MAX,
    ensures
        wrap_sub(ticks_from(start, increment, n), start) == n * increment,
{
    let m = COUNTER_MODULUS as int;
    let d = n * increment as int;
    lemma_ticks_wrap(start, increment, n);
    lemma_small_mod(start as nat, m as nat);
    lemma_sub_mod_noop(start as int + d, start as int, m);
    lemma_small_mod(d as nat, m as nat);
}

} // verus!
