//! Pins, buses and sensors.

use delta_patcher::bus_recovery::{recover_i2c_bus_if_stuck, BusOp, BusRecovery, Register};
use delta_patcher::gpio::{has_bit, high_word, low_word, with_bit, with_field};
use delta_patcher::i2c::{I2cAccess, I2cOp, Status, Transfer};
use delta_patcher::markers::{
    clear, configure_profiling, event_word, init, mark_clear, mark_set, markers_init,
    KernelEvent, Marker, MIGRATE,
};
use delta_patcher::thermo::{
    led2_set, led2_toggle, raw_word_to_steps, BlinkController, LightSetup, Reaction,
    TemperatureStats, Variant, HOT_THRESHOLD, TMP102,
};

#[test]
fn fields_and_bits() {
    assert_eq!(with_field(0xFFFF_FFFF, 3, 1), 0xFFFF_FF7F);
    assert_eq!(with_field(0, 15, 2), 0x8000_0000);
    assert_eq!(with_bit(0x10, 2), 0x14);
    assert!(has_bit(0x8000, 15));
    assert!(!has_bit(0x7FFF, 15));
    assert_eq!(high_word(7), 0x80);
    assert_eq!(low_word(7), 0x0080_0000);
}

#[test]
fn marker_words() {
    let setup = markers_init(true).unwrap();
    assert_eq!(setup.pins, [5, 6, 2, 3, 4, 7]);
    assert_eq!(setup.low_word, 0x00FC_0000);
    assert_eq!(mark_set(true, 0), Some(1 << 5));
    assert_eq!(mark_set(true, 5), Some(1 << 7));
    assert_eq!(mark_clear(true, 1), Some(1 << 22));
    assert_eq!(
        Marker::new(true, 3),
        Marker { opening: Some(1 << 3), closing: Some(1 << 19) }
    );
}

#[test]
fn without_profiling_nothing_is_marked() {
    assert_eq!(markers_init(false), None);
    assert_eq!(mark_set(false, 200), None);
    assert_eq!(mark_clear(false, 200), None);
    assert_eq!(Marker::new(false, 4), Marker { opening: None, closing: None });
}

#[test]
fn migration_and_kernel_markers() {
    assert_eq!(init(0xFFFF_FFFF), 0xDFFF_FFFF);
    assert_eq!(init(0), 0x1000_0000);
    assert_eq!(delta_patcher::markers::set(MIGRATE), 1 << 14);
    assert_eq!(clear(MIGRATE), 1 << 30);
    assert_eq!(event_word(KernelEvent::TaskUpdateBegin), 1);
    assert_eq!(event_word(KernelEvent::TaskUpdateEnd), 1 << 16);
    assert_eq!(event_word(KernelEvent::FlashEraseBegin), 1 << 7);
    assert_eq!(event_word(KernelEvent::FlashEraseEnd), 1 << 23);
    let setup = configure_profiling(0x4);
    assert_eq!(setup.clock_enable, 0x6);
    assert_eq!(setup.pins, [0, 7]);
}

/// A bus in memory: a slave that holds SDA low for some clock pulses, and a BUSY flag that
/// stays until a STOP is forced.
struct Bus {
    holds: u32,
    busy: bool,
    moder: u32,
    writes: Vec<(Register, u32)>,
    delays: usize,
}

impl Bus {
    fn new(holds: u32, busy: bool) -> Self {
        Bus { holds, busy, moder: 0xFFFF_FFFA, writes: Vec::new(), delays: 0 }
    }

    fn run(&mut self, mut recovery: BusRecovery) {
        loop {
            let mut value = 0;
            match recovery.op() {
                BusOp::Read(Register::GpioIdr) => {
                    value = if self.holds > 0 { 0xFFFD } else { 0xFFFF };
                }
                BusOp::Read(Register::I2cIsr) => {
                    value = if self.busy { 0x8000 } else { 0x0020 };
                }
                BusOp::Read(Register::GpioModer) => value = self.moder,
                BusOp::Read(_) => {}
                BusOp::Write(register, word) => {
                    self.writes.push((register, word));
                    if register == Register::GpioModer {
                        self.moder = word;
                    }
                    if register == Register::GpioBsrr && word == 0x0001_0000 && self.holds > 0 {
                        self.holds -= 1;
                    }
                    if register == Register::I2cCr2 {
                        self.busy = false;
                    }
                }
                BusOp::Delay => self.delays += 1,
                BusOp::Done => return,
            }
            recovery.advance(value);
        }
    }

    fn pulses(&self) -> usize {
        self.writes.iter().filter(|w| **w == (Register::GpioBsrr, 0x0001_0000)).count()
    }
}

#[test]
fn healthy_bus_is_left_alone() {
    let mut bus = Bus::new(0, false);
    bus.run(recover_i2c_bus_if_stuck(0, 1));
    assert!(bus.writes.is_empty());
    assert_eq!(bus.delays, 0);
}

#[test]
fn stuck_slave_is_clocked_until_it_lets_go() {
    let mut bus = Bus::new(3, false);
    bus.run(recover_i2c_bus_if_stuck(0, 1));
    assert_eq!(bus.pulses(), 3);
    // Pins 0 and 1 in alternate function mode again, all others as before.
    assert_eq!(bus.moder, 0xFFFF_FFFA);
    // Manual STOP: SDA low, SCL high, SDA high.
    let stop: Vec<(Register, u32)> = vec![
        (Register::GpioBsrr, 0x0002_0000),
        (Register::GpioBsrr, 0x1),
        (Register::GpioBsrr, 0x2),
    ];
    assert!(bus.writes.windows(3).any(|w| w == &stop[..]));
    assert!(bus.writes.iter().all(|w| w.0 != Register::I2cCr2));
}

#[test]
fn dead_slave_gets_nine_pulses() {
    let mut bus = Bus::new(u32::MAX, false);
    bus.run(recover_i2c_bus_if_stuck(0, 1));
    assert_eq!(bus.pulses(), 9);
}

#[test]
fn latched_busy_flag_is_forced_out() {
    let mut bus = Bus::new(0, true);
    bus.run(recover_i2c_bus_if_stuck(0, 1));
    let n = bus.writes.len();
    assert_eq!(
        bus.writes[n - 2..],
        [(Register::I2cCr2, 1 << 14), (Register::I2cIcr, 0x30)]
    );
}

#[test]
fn clearing_the_wires_touches_no_peripheral() {
    let mut bus = Bus::new(2, true);
    bus.run(BusRecovery::clear_bus(0, 1));
    assert_eq!(bus.pulses(), 2);
    assert_eq!(bus.moder, 0xFFFF_FFF5);
    assert_eq!(bus.writes.last(), Some(&(Register::GpioBsrr, 0x2)));
}

#[test]
fn register_addresses() {
    assert_eq!(Register::GpioIdr.address(0x4800_0800, 0x4000_5C00), 0x4800_0810);
    assert_eq!(Register::I2cIsr.address(0x4800_0800, 0x4000_5C00), 0x4000_5C18);
    assert_eq!(Register::GpioModer.address(0x4800_0800, 0x4000_5C00), 0x4800_0800);
    assert_eq!(Register::GpioBsrr.address(u32::MAX - 0x18, 0), u32::MAX);
    assert_eq!(Register::I2cIcr.address(0, u32::MAX - 0x1C), u32::MAX);
}

const QUIET: Status = Status { nackf: false, txis: false, rxne: false, stopf: false };

/// Runs an access with a fixed status and bytes from a register; lists what was done.
fn run(mut access: I2cAccess, status: Status, bytes: &[u8]) -> (Vec<I2cOp>, bool, Vec<u8>) {
    let mut ops = Vec::new();
    let mut next = 0;
    loop {
        let op = access.op();
        let mut byte = 0;
        match op {
            I2cOp::Finished(ok) => return (ops, ok, access.received().to_vec()),
            I2cOp::ReadStatus => {}
            I2cOp::Receive => {
                byte = bytes[next];
                next += 1;
                ops.push(op);
            }
            _ => ops.push(op),
        }
        access.advance(status, byte);
    }
}

#[test]
fn register_is_read() {
    let ready = Status { nackf: false, txis: true, rxne: true, stopf: true };
    let (ops, ok, data) = run(I2cAccess::i2c_mem_read(0x49, 0x00, 2), ready, &[0x19, 0x80]);
    assert!(ok);
    assert_eq!(data, vec![0x19, 0x80]);
    assert_eq!(
        ops,
        vec![
            I2cOp::Start(Transfer { sadd: 0x92, nbytes: 1, read: false }),
            I2cOp::Send(0x00),
            I2cOp::ClearStop,
            I2cOp::Start(Transfer { sadd: 0x93, nbytes: 2, read: true }),
            I2cOp::Receive,
            I2cOp::Receive,
        ]
    );
}

#[test]
fn register_is_written() {
    let ready = Status { nackf: false, txis: true, rxne: false, stopf: false };
    let (ops, ok, _) = run(I2cAccess::i2c_mem_write(0x49, 0x01, vec![0x60, 0xA0]), ready, &[]);
    assert!(ok);
    assert_eq!(
        ops,
        vec![
            I2cOp::Start(Transfer { sadd: 0x93, nbytes: 3, read: false }),
            I2cOp::Send(0x01),
            I2cOp::Send(0x60),
            I2cOp::Send(0xA0),
        ]
    );
}

#[test]
fn missing_acknowledge_toggles_the_peripheral() {
    let nack = Status { nackf: true, txis: true, rxne: false, stopf: false };
    let (ops, ok, _) = run(I2cAccess::i2c_mem_read(0x49, 0, 2), nack, &[]);
    assert!(!ok);
    assert_eq!(ops[1..], [I2cOp::TogglePeripheral]);
}

#[test]
fn silence_forces_a_stop() {
    let (ops, ok, _) = run(I2cAccess::i2c_mem_read(0x49, 0, 2), QUIET, &[]);
    assert!(!ok);
    assert_eq!(ops[1..], [I2cOp::ForceStop, I2cOp::ClearErrors]);

    let (ops, ok, _) = run(I2cAccess::i2c_mem_write(0x49, 0, vec![1]), QUIET, &[]);
    assert!(!ok);
    assert_eq!(ops.len(), 1);

    let (ops, ok, _) = run(I2cAccess::recover_after_failure(), QUIET, &[]);
    assert!(!ok);
    assert_eq!(ops, vec![I2cOp::ForceStop, I2cOp::ClearErrors]);
}

#[test]
fn raw_temperatures() {
    // 25.5 degrees, -0.0625 degrees, -55 degrees, 127.9375 degrees.
    assert_eq!(raw_word_to_steps([0x19, 0x80]), 408);
    assert_eq!(raw_word_to_steps([0xFF, 0xF0]), -1);
    assert_eq!(raw_word_to_steps([0xC9, 0x00]), -880);
    assert_eq!(raw_word_to_steps([0x7F, 0xFF]), 2047);
    for raw in 0..=u16::MAX {
        let bytes = raw.to_be_bytes();
        assert_eq!(raw_word_to_steps(bytes), i16::from_be_bytes(bytes) >> 4);
    }
}

#[test]
fn sensor_is_not_read_too_often() {
    let mut sensor = TMP102::new(Variant::Plain.cadence());
    assert!(!sensor.due_for_read(1000));
    assert!(sensor.due_for_read(1001));
    sensor.record(1001, [0x19, 0x80]);
    assert_eq!((sensor.last_update, sensor.last_steps), (1001, 408));
    assert!(!sensor.due_for_read(2001));
    assert!(sensor.due_for_read(2002));

    let sensor = TMP102::new(Variant::InPlaceMedium.cadence());
    assert!(sensor.due_for_read(850));
    assert!(!sensor.due_for_read(849));

    let sensor = TMP102::new(Variant::InPlaceLarge.cadence());
    assert!(!sensor.due_for_read(750));
    assert!(sensor.due_for_read(751));
}

#[test]
fn sensor_is_configured() {
    assert_eq!(Variant::Plain.configuration(), None);
    assert_eq!(Variant::InPlaceLarge.configuration(), Some([0x60, 0xA8]));
    assert_eq!(Variant::InPlaceMedium.configuration(), Some([0x60, 0xB0]));
    assert_eq!(Variant::SizeChangeLarge.configuration(), Some([0x60, 0xA0]));
    assert_eq!(Variant::SizeChangeSmall.configuration(), Some([0x60, 0xA0]));
}

#[test]
fn statistics_of_temperatures() {
    let mut stats = TemperatureStats::new();
    assert_eq!(stats.range(), 0);
    assert_eq!(stats.sum_and_count(), (0, 0));
    for sample in [-30, 12, 400, -2, 400] {
        stats.observe(sample);
    }
    assert_eq!(stats.range(), 430);
    assert_eq!(stats.sum_and_count(), (780, 5));
}

#[test]
fn light_blinks_by_temperature() {
    let mut blink = BlinkController::new();
    assert!(!blink.tick(1000, HOT_THRESHOLD));
    assert!(blink.tick(1001, HOT_THRESHOLD));
    assert!(!blink.tick(1251, HOT_THRESHOLD + 1));
    assert!(blink.tick(1252, HOT_THRESHOLD + 1));
    assert_eq!(blink.last_toggle, 1252);
    assert_eq!(led2_toggle(0), 1 << 5);
    assert_eq!(led2_toggle(1 << 5), 1 << 21);
    assert_eq!(led2_set(true), 1 << 5);
    assert_eq!(led2_set(false), 1 << 21);
}

#[test]
fn builds_set_up_their_light() {
    assert_eq!(Variant::Plain.light_setup(), LightSetup::Unused);
    assert_eq!(Variant::InPlaceLarge.light_setup(), LightSetup::Unused);
    assert_eq!(Variant::InPlaceMedium.light_setup(), LightSetup::Unused);
    assert_eq!(Variant::SizeChangeLarge.light_setup(), LightSetup::DrivenDark);
    assert_eq!(Variant::SizeChangeSmall.light_setup(), LightSetup::Driven);
}

#[test]
fn builds_react_to_readings() {
    let nothing = Reaction { smooth: false, observe: false, blink: false, toggle: false };
    for fresh in [false, true] {
        assert_eq!(Variant::Plain.reaction(fresh), nothing);
        assert_eq!(Variant::InPlaceLarge.reaction(fresh), nothing);
        assert_eq!(Variant::InPlaceMedium.reaction(fresh), Reaction { smooth: fresh, ..nothing });
        assert_eq!(
            Variant::SizeChangeLarge.reaction(fresh),
            Reaction { observe: fresh, blink: true, ..nothing }
        );
        assert_eq!(Variant::SizeChangeSmall.reaction(fresh), Reaction { toggle: fresh, ..nothing });
    }
    assert!(Variant::InPlaceMedium.reports_average());
    assert!(!Variant::SizeChangeLarge.reports_average());
}
