//! Temperature sensor readings.
//!
//! The sensor reports a 12-bit value, left-justified in a 16-bit big-endian register, worth
//! 0.0625 degrees Celsius per step.  Temperatures are kept here as counts of such steps, that
//! is, in sixteenths of a degree.

use vstd::prelude::*;

use crate::gpio;

verus! {

/// Bus address of the sensor.
pub const TMP102_ADDR: u8 = 0x49;

/// Temperature register.
pub const TMP102_REG_TEMPERATURE: u8 = 0x00;

/// Configuration register.
pub const TMP102_REG_CONFIGURATION: u8 = 0x01;

/// Steps per degree Celsius.
pub const STEPS_PER_DEGREE: i16 = 16;

/// The signed 16-bit value of a big-endian word.
pub open spec fn signed_word(hi: u8, lo: u8) -> int {
    let unsigned = 0x100 * hi + lo;
    if hi < 0x80 {
        unsigned
    } else {
        unsigned - 0x1_0000
    }
}

/// The temperature, in steps, of a raw register value: a sixteenth of the signed word, rounded
/// down.
pub open spec fn steps_of(hi: u8, lo: u8) -> int {
    signed_word(hi, lo) / 16
}

/// Converts a raw register value to a temperature in steps.
pub fn raw_word_to_steps(raw: [u8; 2]) -> (steps: i16)
    ensures
        steps == steps_of(raw@[0], raw@[1]),
        -2048 <= steps < 2048,
{
    let hi: u8 = raw[0];
    let lo: u8 = raw[1];
    if hi < 0x80 {
        hi as i16 * 16 + (lo / 16) as i16
    } else {
        (hi as i16 - 0x100) * 16 + (lo / 16) as i16
    }
}

/// How often a sensor is read.
#[derive(Debug, Clone, Copy, PartialEq, Eq, Structural)]
pub struct Cadence {
    pub interval_ms: u64,
    /// Whether a reading is due as soon as the interval is over, and not only after it.
    pub inclusive: bool,
}

impl Cadence {
    /// Whether a reading is due when so much time has passed since the last one.
    pub open spec fn is_over(self, elapsed: int) -> bool {
        elapsed > self.interval_ms || (self.inclusive && elapsed == self.interval_ms)
    }
}

/// A reading is due from some time on and not before: a millisecond after the interval at the
/// latest, at its end if that counts, and never within it.
pub proof fn law_readings_come_due(cadence: Cadence, elapsed: int, more: int)
    requires
        more >= 0,
    ensures
        cadence.is_over(elapsed) ==> cadence.is_over(elapsed + more),
        cadence.is_over(cadence.interval_ms + 1),
        cadence.is_over(cadence.interval_ms as int) <==> cadence.inclusive,
        !cadence.is_over(cadence.interval_ms - 1 - more),
{
}

/// The builds of the driver.
#[derive(Debug, Clone, Copy, PartialEq, Eq, Structural)]
pub enum Variant {
    /// Read once a second, and left in its power-on configuration.
    Plain,
    /// Read more often, and configured explicitly.
    InPlaceLarge,
    /// Calibrated and smoothed.
    InPlaceMedium,
    /// With statistics, and a light that blinks by temperature.
    SizeChangeLarge,
    /// With a light that turns over at every reading.
    SizeChangeSmall,
}

impl Variant {
    /// How often the sensor is read.
    pub fn cadence(self) -> (c: Cadence)
        ensures
            c.interval_ms == (match self {
                Variant::InPlaceLarge => 750u64,
                Variant::InPlaceMedium => 850u64,
                _ => 1000u64,
            }),
            c.inclusive <==> self is InPlaceMedium,
    {
        match self {
            Variant::InPlaceLarge => Cadence { interval_ms: 750, inclusive: false },
            Variant::InPlaceMedium => Cadence { interval_ms: 850, inclusive: true },
            _ => Cadence { interval_ms: 1000, inclusive: false },
        }
    }

    /// What is written to the configuration register, so that nothing depends on power-on
    /// defaults surviving a bus reset.
    pub fn configuration(self) -> (c: Option<[u8; 2]>)
        ensures
            c is None <==> self is Plain,
            c matches Some(bytes) ==> bytes@ == seq![
                0x60u8,
                match self {
                    Variant::InPlaceLarge => 0xA8u8,
                    Variant::InPlaceMedium => 0xB0u8,
                    _ => 0xA0u8,
                },
            ],
    {
        let low: u8 = match self {
            Variant::Plain => {
                return None;
            },
            Variant::InPlaceLarge => 0xA8,
            Variant::InPlaceMedium => 0xB0,
            _ => 0xA0,
        };
        let bytes: [u8; 2] = [0x60, low];
        assert(bytes@ =~= seq![0x60u8, low]);
        Some(bytes)
    }
}

/// What happens to the light when the hardware is set up.
#[derive(Debug, Clone, Copy, PartialEq, Eq, Structural)]
pub enum LightSetup {
    /// There is none to be set up.
    Unused,
    /// Its pin is made an output.
    Driven,
    /// Its pin is made an output, and it is turned off.
    DrivenDark,
}

/// What is done, besides answering, when a temperature is asked for.
#[derive(Debug, Clone, Copy, PartialEq, Eq, Structural)]
pub struct Reaction {
    /// The reading goes into the moving average, which is what is reported.
    pub smooth: bool,
    /// The reading goes into the statistics.
    pub observe: bool,
    /// The blink controller decides whether the light turns over.
    pub blink: bool,
    /// The light turns over.
    pub toggle: bool,
}

impl Variant {
    /// Whether what is reported is the moving average, and not the latest reading.
    pub fn reports_average(self) -> (b: bool)
        ensures
            b <==> self is InPlaceMedium,
    {
        match self {
            Variant::InPlaceMedium => true,
            _ => false,
        }
    }

    /// What happens to the light when the hardware is set up.
    pub fn light_setup(self) -> (l: LightSetup)
        ensures
            l == (match self {
                Variant::SizeChangeLarge => LightSetup::DrivenDark,
                Variant::SizeChangeSmall => LightSetup::Driven,
                _ => LightSetup::Unused,
            }),
    {
        match self {
            Variant::SizeChangeLarge => LightSetup::DrivenDark,
            Variant::SizeChangeSmall => LightSetup::Driven,
            _ => LightSetup::Unused,
        }
    }

    /// What is done when a temperature is asked for; `fresh` tells whether the sensor has been
    /// read for it.  Statistics and averages take in each reading once; the light blinks
    /// independent of the readings.
    pub fn reaction(self, fresh: bool) -> (r: Reaction)
        ensures
            r == (Reaction {
                smooth: fresh && self is InPlaceMedium,
                observe: fresh && self is SizeChangeLarge,
                blink: self is SizeChangeLarge,
                toggle: fresh && self is SizeChangeSmall,
            }),
    {
        match self {
            Variant::Plain | Variant::InPlaceLarge => Reaction {
                smooth: false,
                observe: false,
                blink: false,
                toggle: false,
            },
            Variant::InPlaceMedium => Reaction {
                smooth: fresh,
                observe: false,
                blink: false,
                toggle: false,
            },
            Variant::SizeChangeLarge => Reaction {
                smooth: false,
                observe: fresh,
                blink: true,
                toggle: false,
            },
            Variant::SizeChangeSmall => Reaction {
                smooth: false,
                observe: false,
                blink: false,
                toggle: fresh,
            },
        }
    }
}

/// A sensor with its latest reading.
#[derive(Debug, Clone, Copy, PartialEq, Eq, Structural)]
pub struct TMP102 {
    pub cadence: Cadence,
    pub last_update: u64,
    pub last_steps: i16,
}

impl TMP102 {
    /// A sensor that has not been read.
    pub fn new(cadence: Cadence) -> (s: Self)
        ensures
            s == (TMP102 { cadence, last_update: 0, last_steps: 0 }),
    {
        TMP102 { cadence, last_update: 0, last_steps: 0 }
    }

    /// Whether the sensor is due to be read: reading it too often is avoided.
    pub fn due_for_read(&self, now: u64) -> (due: bool)
        requires
            now >= self.last_update,
        ensures
            due == (now - self.last_update > self.cadence.interval_ms || (self.cadence.inclusive
                && now - self.last_update == self.cadence.interval_ms)),
            due == self.cadence.is_over(now - self.last_update),
    {
        let elapsed: u64 = now - self.last_update;
        elapsed > self.cadence.interval_ms || (self.cadence.inclusive && elapsed
            == self.cadence.interval_ms)
    }

    /// Stores a reading.
    pub fn record(&mut self, now: u64, raw: [u8; 2])
        ensures
            final(self).cadence == old(self).cadence,
            final(self).last_update == now,
            final(self).last_steps == steps_of(raw@[0], raw@[1]),
    {
        self.last_steps = raw_word_to_steps(raw);
        self.last_update = now;
    }
}

// ---------------------------------------------------------------------------
//  Statistics
// ---------------------------------------------------------------------------

/// The smallest of the samples; 0 if there is none.
pub open spec fn smallest(samples: Seq<i16>) -> int
    decreases samples.len(),
{
    if samples.len() == 0 {
        0
    } else if samples.len() == 1 {
        samples[0] as int
    } else {
        let rest = smallest(samples.drop_last());
        if samples.last() < rest {
            samples.last() as int
        } else {
            rest
        }
    }
}

/// The largest of the samples; 0 if there is none.
pub open spec fn largest(samples: Seq<i16>) -> int
    decreases samples.len(),
{
    if samples.len() == 0 {
        0
    } else if samples.len() == 1 {
        samples[0] as int
    } else {
        let rest = largest(samples.drop_last());
        if samples.last() > rest {
            samples.last() as int
        } else {
            rest
        }
    }
}

/// The sum of the samples.
pub open spec fn total(samples: Seq<i16>) -> int
    decreases samples.len(),
{
    if samples.len() == 0 {
        0
    } else {
        total(samples.drop_last()) + samples.last()
    }
}

/// Tracks the minimum, the maximum and the sum of every temperature observed since boot.
pub struct TemperatureStats {
    min: i16,
    max: i16,
    sum: i64,
    count: u32,
    seen: Ghost<Seq<i16>>,
}

impl View for TemperatureStats {
    type V = Seq<i16>;

    /// Every temperature observed.
    closed spec fn view(&self) -> Seq<i16> {
        self.seen@
    }
}

/// A sum of samples is bounded by their number.
proof fn lemma_total_bound(samples: Seq<i16>)
    ensures
        -0x8000 * samples.len() <= total(samples) <= 0x7FFF * samples.len(),
    decreases samples.len(),
{
    if samples.len() > 0 {
        lemma_total_bound(samples.drop_last());
    }
}

impl TemperatureStats {
    #[verifier::type_invariant]
    spec fn inv(self) -> bool {
        &&& self.count == self.seen@.len()
        &&& self.min == smallest(self.seen@)
        &&& self.max == largest(self.seen@)
        &&& self.sum == total(self.seen@)
    }

    /// Statistics of nothing.
    pub fn new() -> (s: Self)
        ensures
            s@ == Seq::<i16>::empty(),
    {
        TemperatureStats { min: 0, max: 0, sum: 0, count: 0, seen: Ghost(Seq::empty()) }
    }

    /// Takes in one temperature.
    pub fn observe(&mut self, sample: i16)
        requires
            old(self)@.len() < u32::MAX,
        ensures
            final(self)@ == old(self)@.push(sample),
    {
        proof {
            use_type_invariant(&*self);
            lemma_total_bound(self.seen@);
        }
        let ghost seen = self.seen@.push(sample);
        assert(seen.drop_last() =~= self.seen@);
        let min: i16 = if self.count == 0 || sample < self.min {
            sample
        } else {
            self.min
        };
        let max: i16 = if self.count == 0 || sample > self.max {
            sample
        } else {
            self.max
        };
        let sum: i64 = self.sum + sample as i64;
        let count: u32 = self.count + 1;
        *self = TemperatureStats { min, max, sum, count, seen: Ghost(seen) };
    }

    /// The difference of the largest and the smallest temperature.
    pub fn range(&self) -> (r: i32)
        ensures
            r == largest(self@) - smallest(self@),
    {
        proof {
            use_type_invariant(self);
        }
        self.max as i32 - self.min as i32
    }

    /// The sum of the temperatures and their number, for the average.
    pub fn sum_and_count(&self) -> (r: (i64, u32))
        ensures
            r.0 == total(self@),
            r.1 == self@.len(),
    {
        proof {
            use_type_invariant(self);
        }
        (self.sum, self.count)
    }
}

/// The smallest and the largest of the samples are among them, and bound them all.
pub proof fn law_stats_bound_all_samples(samples: Seq<i16>, i: int)
    requires
        0 <= i < samples.len(),
    ensures
        smallest(samples) <= samples[i] <= largest(samples),
        exists|j: int| 0 <= j < samples.len() && #[trigger] samples[j] == smallest(samples),
        exists|j: int| 0 <= j < samples.len() && #[trigger] samples[j] == largest(samples),
    decreases samples.len(),
{
    let rest = samples.drop_last();
    let last = samples.len() - 1;
    assert(samples[last] == samples.last());
    if samples.len() == 1 {
        assert(samples[0] == smallest(samples));
        assert(samples[0] == largest(samples));
    } else {
        law_stats_bound_all_samples(rest, if i < last {
            i
        } else {
            0
        });
        let a = choose|j: int| 0 <= j < rest.len() && #[trigger] rest[j] == smallest(rest);
        let b = choose|j: int| 0 <= j < rest.len() && #[trigger] rest[j] == largest(rest);
        assert(samples[a] == rest[a]);
        assert(samples[b] == rest[b]);
        if i < last {
            assert(samples[i] == rest[i]);
        }
    }
}

// ---------------------------------------------------------------------------
//  Status light
// ---------------------------------------------------------------------------

/// Above this temperature, in steps, the light blinks fast: 28 degrees.
pub const HOT_THRESHOLD: i16 = 448;

pub const BLINK_SLOW_MS: u64 = 1000;

pub const BLINK_FAST_MS: u64 = 250;

/// Pin of port A that drives the light.
pub const LED2_PIN: u32 = 5;

/// The word that turns the light on or off.
pub open spec fn light_word(on: bool) -> u32 {
    if on {
        1u32 << LED2_PIN
    } else {
        1u32 << (LED2_PIN + 16) as u32
    }
}

/// What the words for the light do to the pins of its port: they drive pin 5, and no other; and the
/// word against what the pin shows turns it over.
pub proof fn law_light_words_drive_the_light(levels: u32, on: bool, q: u32)
    requires
        q < 16,
    ensures
        gpio::bit(gpio::levels_after(levels, light_word(on)), q) == (if q == 5 {
            on
        } else {
            gpio::bit(levels, q)
        }),
        gpio::bit(gpio::levels_after(levels, light_word(!gpio::bit(levels, 5))), q) == (if q == 5 {
            !gpio::bit(levels, q)
        } else {
            gpio::bit(levels, q)
        }),
{
    gpio::law_words_drive_one_pin(levels, 5, q);
}

/// The word that turns the light over, given the output register.
pub fn led2_toggle(odr: u32) -> (word: u32)
    ensures
        word == light_word(!gpio::bit(odr, 5)),
        word == (if gpio::bit(odr, LED2_PIN) {
            1u32 << (LED2_PIN + 16) as u32
        } else {
            1u32 << LED2_PIN
        }),
{
    if gpio::has_bit(odr, LED2_PIN) {
        gpio::low_word(LED2_PIN)
    } else {
        gpio::high_word(LED2_PIN)
    }
}

/// The word that turns the light on or off.
pub fn led2_set(on: bool) -> (word: u32)
    ensures
        word == light_word(on),
        word == (if on {
            1u32 << LED2_PIN
        } else {
            1u32 << (LED2_PIN + 16) as u32
        }),
{
    if on {
        gpio::high_word(LED2_PIN)
    } else {
        gpio::low_word(LED2_PIN)
    }
}

/// Drives the light in a blink pattern whose rate depends on the latest temperature,
/// independent of how often the sensor is read.
#[derive(Debug, Clone, Copy, PartialEq, Eq, Structural)]
pub struct BlinkController {
    pub last_toggle: u64,
}

impl BlinkController {
    /// A controller that has not turned the light over yet.
    pub fn new() -> (b: Self)
        ensures
            b.last_toggle == 0,
    {
        BlinkController { last_toggle: 0 }
    }

    /// The time between two turns at a temperature.
    pub open spec fn interval(steps: i16) -> u64 {
        if steps > HOT_THRESHOLD {
            BLINK_FAST_MS
        } else {
            BLINK_SLOW_MS
        }
    }

    /// Whether the light is to be turned over when so much time has passed since it last was.
    pub open spec fn turns(elapsed: int, steps: i16) -> bool {
        elapsed > Self::interval(steps)
    }

    /// Whether the light is to be turned over now.
    pub fn tick(&mut self, now: u64, latest_steps: i16) -> (toggle: bool)
        requires
            now >= old(self).last_toggle,
        ensures
            toggle == (now - old(self).last_toggle > Self::interval(latest_steps)),
            toggle == Self::turns(now - old(self).last_toggle, latest_steps),
            final(self).last_toggle == (if toggle {
                now
            } else {
                old(self).last_toggle
            }),
    {
        let interval: u64 = if latest_steps > HOT_THRESHOLD {
            BLINK_FAST_MS
        } else {
            BLINK_SLOW_MS
        };
        if now - self.last_toggle > interval {
            self.last_toggle = now;
            true
        } else {
            false
        }
    }
}

// ---------------------------------------------------------------------------
//  Laws of readings
// ---------------------------------------------------------------------------

/// A temperature in steps is the upper twelve bits of the register as a number in two's complement:
/// with the lower four bits behind it, it is the register again, modulo 2^16.
pub proof fn law_steps_are_the_upper_twelve_bits(hi: u8, lo: u8)
    ensures
        -2048 <= steps_of(hi, lo) < 2048,
        (0x1_0000 + 16 * steps_of(hi, lo) + lo % 16) % 0x1_0000 == 256 * hi + lo,
{
}

/// A warmer reading never comes out colder: readings come in the order of their registers, those
/// below zero before the others.
pub proof fn law_steps_keep_the_order(hi: u8, lo: u8, hi2: u8, lo2: u8)
    requires
        (hi < 0x80) == (hi2 < 0x80),
        256 * hi + lo <= 256 * hi2 + lo2,
    ensures
        steps_of(hi, lo) <= steps_of(hi2, lo2),
        hi < 0x80 <==> steps_of(hi, lo) >= 0,
{
}

/// Samples put together have the sum that they have one by one.
pub proof fn law_totals_add_up(a: Seq<i16>, b: Seq<i16>, sample: i16)
    ensures
        total(a + b) == total(a) + total(b),
        total(seq![sample]) == sample,
    decreases b.len(),
{
    assert(seq![sample].drop_last() =~= Seq::<i16>::empty());
    reveal_with_fuel(total, 2);
    if b.len() > 0 {
        law_totals_add_up(a, b.drop_last(), sample);
        assert((a + b).drop_last() =~= a + b.drop_last());
    } else {
        assert(a + b =~= a);
    }
}

/// The light blinks four times as fast above 28 degrees as it does at 28 degrees and below: it is
/// turned over once more than a quarter of a second, or a second, has passed.
pub proof fn law_blink_rate(steps: i16, elapsed: int)
    ensures
        steps > 28 * 16 ==> BlinkController::interval(steps) == 250,
        steps <= 28 * 16 ==> BlinkController::interval(steps) == 1000,
        steps > 28 * 16 ==> (BlinkController::turns(elapsed, steps) <==> elapsed >= 251),
        steps <= 28 * 16 ==> (BlinkController::turns(elapsed, steps) <==> elapsed >= 1001),
{
}

} // verus!
