//! GPIO markers for profiling: words that drive a pin high for the duration of a phase, so that
//! an external logic analyzer can time it.
//!
//! Each marker is a single store to the set/reset register, so it never distorts the measured
//! path.

use vstd::prelude::*;

use crate::gpio;

verus! {

// ---------------------------------------------------------------------------
//  Phases of a delta update
// ---------------------------------------------------------------------------

/// Number of marked phases.
pub const PHASES: usize = 6;

/// Logical phase index (0..=5) to physical pin number of port C.
///
/// Pins 0 and 1 carry the I2C bus of another component, so phases 0 and 1 stand on the free
/// pins 5 and 6.
pub const PHASE_PIN: [u8; 6] = [5, 6, 2, 3, 4, 7];

/// The pin of a phase.
pub open spec fn pin_of(phase: u8) -> u32 {
    PHASE_PIN@[phase as int] as u32
}

fn phase_pin(phase: u8) -> (pin: u32)
    requires
        phase < PHASES,
    ensures
        pin == pin_of(phase),
        2 <= pin < 8,
{
    let pins: [u8; 6] = PHASE_PIN;
    pins[phase as usize] as u32
}

/// The one-time setup of the marker pins: which pins become push-pull outputs of very high
/// speed, and the word that then drives them low.
#[derive(Debug, Clone, Copy, PartialEq, Eq)]
pub struct MarkerSetup {
    pub pins: [u8; 6],
    pub low_word: u32,
}

/// The setup of the marker pins; `None` without profiling.
pub fn markers_init(profiling: bool) -> (setup: Option<MarkerSetup>)
    ensures
        setup is Some <==> profiling,
        setup matches Some(s) ==> {
            &&& s.pins@ == PHASE_PIN@
            // Bits 2 to 7 of the upper half.
            &&& s.low_word == 0x00FC_0000
        },
{
    if !profiling {
        return None;
    }
    let mut mask: u32 = 0;
    let mut phase: u8 = 0;
    let ghost masks: Seq<u32> = seq![0x00, 0x20, 0x60, 0x64, 0x6C, 0x7C, 0xFC];
    while phase < 6
        invariant
            phase <= 6,
            masks == seq![0x00u32, 0x20, 0x60, 0x64, 0x6C, 0x7C, 0xFC],
            mask == masks[phase as int],
        decreases 6 - phase,
    {
        let pin: u32 = phase_pin(phase);
        proof {
            assert(0x00u32 | (1u32 << 5u32) == 0x20 && 0x20u32 | (1u32 << 6u32) == 0x60 && 0x60u32
                | (1u32 << 2u32) == 0x64 && 0x64u32 | (1u32 << 3u32) == 0x6C && 0x6Cu32 | (1u32
                << 4u32) == 0x7C && 0x7Cu32 | (1u32 << 7u32) == 0xFC) by (bit_vector);
        }
        mask = mask | (1u32 << pin);
        phase = phase + 1;
    }
    assert(0xFCu32 << 16u32 == 0x00FC_0000) by (bit_vector);
    Some(MarkerSetup { pins: PHASE_PIN, low_word: mask << 16u32 })
}

/// The word that drives the marker of a phase high; `None` without profiling.
pub fn mark_set(profiling: bool, phase: u8) -> (word: Option<u32>)
    requires
        profiling ==> phase < PHASES,
    ensures
        word == (if profiling {
            Some(1u32 << pin_of(phase))
        } else {
            None::<u32>
        }),
{
    if profiling {
        Some(gpio::high_word(phase_pin(phase)))
    } else {
        None
    }
}

/// The word that drives the marker of a phase low; `None` without profiling.
pub fn mark_clear(profiling: bool, phase: u8) -> (word: Option<u32>)
    requires
        profiling ==> phase < PHASES,
    ensures
        word == (if profiling {
            Some(1u32 << (pin_of(phase) + 16) as u32)
        } else {
            None::<u32>
        }),
{
    if profiling {
        Some(gpio::low_word(phase_pin(phase)))
    } else {
        None
    }
}

/// A bracket round a phase: high at its start, low at its end.  Nothing without profiling.
#[derive(Debug, Clone, Copy, PartialEq, Eq, Structural)]
pub struct Marker {
    /// The word to be stored at the start.
    pub opening: Option<u32>,
    /// The word to be stored at the end, however the phase ends.
    pub closing: Option<u32>,
}

impl Marker {
    /// The bracket round a phase.
    pub fn new(profiling: bool, phase: u8) -> (m: Self)
        requires
            profiling ==> phase < PHASES,
        ensures
            m.opening == (if profiling {
                Some(1u32 << pin_of(phase))
            } else {
                None::<u32>
            }),
            m.closing == (if profiling {
                Some(1u32 << (pin_of(phase) + 16) as u32)
            } else {
                None::<u32>
            }),
    {
        Marker { opening: mark_set(profiling, phase), closing: mark_clear(profiling, phase) }
    }
}

/// A bracket drives the pin of its phase high and then low again, leaves every other pin as it
/// is, and ends with the pin low.
pub proof fn law_marker_brackets_its_phase(levels: u32, phase: u8, q: u32)
    requires
        phase < PHASES,
        q < 16,
    ensures
        ({
            let opened = gpio::levels_after(levels, 1u32 << pin_of(phase));
            let closed = gpio::levels_after(opened, 1u32 << (pin_of(phase) + 16) as u32);
            &&& gpio::bit(opened, q) == (q == pin_of(phase) || gpio::bit(levels, q))
            &&& gpio::bit(closed, q) == (q != pin_of(phase) && gpio::bit(levels, q))
        }),
{
    let opened = gpio::levels_after(levels, 1u32 << pin_of(phase));
    assert(pin_of(phase) < 16);
    gpio::law_words_drive_one_pin(levels, pin_of(phase), q);
    gpio::law_words_drive_one_pin(opened, pin_of(phase), q);
}

/// No two phases share a pin, and none uses the pins of the I2C bus.
pub proof fn law_phases_have_their_own_pins(a: u8, b: u8)
    requires
        a < PHASES,
        b < PHASES,
    ensures
        pin_of(a) == pin_of(b) ==> a == b,
        pin_of(a) >= 2,
{
}

// ---------------------------------------------------------------------------
//  State migration
// ---------------------------------------------------------------------------

/// The pin of port B that marks the migration of state.
pub const MIGRATE: u32 = 14;

/// The mode register of port B with the migration pin made an output.
pub fn init(moder: u32) -> (m: u32)
    ensures
        m == gpio::with_field_spec(moder, MIGRATE, gpio::MODE_OUTPUT),
        gpio::field(m, MIGRATE) == gpio::MODE_OUTPUT,
        forall|q: u32|
            q < 16 && q != MIGRATE ==> #[trigger] gpio::field(m, q) == gpio::field(moder, q),
{
    gpio::with_field(moder, MIGRATE, gpio::MODE_OUTPUT)
}

/// The word that drives a pin high.
pub fn set(pin: u32) -> (word: u32)
    requires
        pin < 16,
    ensures
        word == 1u32 << pin,
{
    gpio::high_word(pin)
}

/// The word that drives a pin low.
pub fn clear(pin: u32) -> (word: u32)
    requires
        pin < 16,
    ensures
        word == 1u32 << (pin + 16) as u32,
{
    gpio::low_word(pin)
}

// ---------------------------------------------------------------------------
//  Kernel events
// ---------------------------------------------------------------------------

/// The kernel events that are marked.
#[derive(Debug, Clone, Copy, PartialEq, Eq, Structural)]
pub enum KernelEvent {
    /// A component's old instance is torn down.
    TaskUpdateBegin,
    /// Its new instance becomes schedulable.
    TaskUpdateEnd,
    /// A flash page erase begins, which blocks the whole controller.
    FlashEraseBegin,
    /// The erase is over.
    FlashEraseEnd,
}

/// Pin of port B that is high while a component is unavailable.
pub const UPDATE_PIN: u32 = 0;

/// Pin of port B that is high while the whole system is unavailable.
pub const ERASE_PIN: u32 = 7;

/// The word that marks a kernel event on port B.
pub fn event_word(event: KernelEvent) -> (word: u32)
    ensures
        word == (match event {
            KernelEvent::TaskUpdateBegin => 1u32 << UPDATE_PIN,
            KernelEvent::TaskUpdateEnd => 1u32 << (UPDATE_PIN + 16) as u32,
            KernelEvent::FlashEraseBegin => 1u32 << ERASE_PIN,
            KernelEvent::FlashEraseEnd => 1u32 << (ERASE_PIN + 16) as u32,
        }),
{
    match event {
        KernelEvent::TaskUpdateBegin => gpio::high_word(UPDATE_PIN),
        KernelEvent::TaskUpdateEnd => gpio::low_word(UPDATE_PIN),
        KernelEvent::FlashEraseBegin => gpio::high_word(ERASE_PIN),
        KernelEvent::FlashEraseEnd => gpio::low_word(ERASE_PIN),
    }
}

/// Bit of port B in the clock enable register.
pub const PORT_B_CLOCK: u32 = 1;

/// The one-time setup of the kernel markers.
#[derive(Debug, Clone, Copy, PartialEq, Eq)]
pub struct ProfilingSetup {
    /// The clock enable register, with port B enabled.
    pub clock_enable: u32,
    /// The pins of port B that become push-pull outputs of high speed.
    pub pins: [u8; 2],
}

/// The setup of the kernel markers, given the clock enable register.
pub fn configure_profiling(clock_enable: u32) -> (setup: ProfilingSetup)
    ensures
        setup.clock_enable == clock_enable | (1u32 << PORT_B_CLOCK),
        forall|q: u32|
            q < 32 ==> #[trigger] gpio::bit(setup.clock_enable, q) == (q == PORT_B_CLOCK
                || gpio::bit(clock_enable, q)),
        setup.pins@ == seq![UPDATE_PIN as u8, ERASE_PIN as u8],
{
    let pins: [u8; 2] = [UPDATE_PIN as u8, ERASE_PIN as u8];
    assert(pins@ =~= seq![UPDATE_PIN as u8, ERASE_PIN as u8]);
    ProfilingSetup { clock_enable: gpio::with_bit(clock_enable, PORT_B_CLOCK), pins }
}

/// The pins of the phases, in their order.
pub proof fn law_pins_of_the_phases()
    ensures
        pin_of(0) == 5,
        pin_of(1) == 6,
        pin_of(2) == 2,
        pin_of(3) == 3,
        pin_of(4) == 4,
        pin_of(5) == 7,
{
}

} // verus!
