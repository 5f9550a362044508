//! Recovery of a stuck I2C bus.
//!
//! On a live component update, a task that inherits its predecessor's state skips hardware
//! initialization.  If an I2C transaction was in flight when the tasks were swapped, the bus
//! can be left stuck: a slave holding SDA low, waiting for clock pulses it will never get, or
//! the peripheral's own BUSY flag latched.
//!
//! The recovery is a sequence of register accesses and delays, for whichever port, pins and
//! peripheral own the bus.  Register offsets are the standard STM32L4 GPIO and I2Cv2 layouts.

use vstd::prelude::*;

use crate::gpio;
use crate::gpio::{MODE_ALTERNATE, MODE_OUTPUT, PULL_UP};

verus! {

/// Bit of the BUSY flag in the interrupt and status register.
pub const ISR_BUSY: u32 = 15;

/// Bit of the STOPF flag in the interrupt and status register.
pub const ISR_STOPF: u32 = 5;

/// Word that clears STOPF and NACKF.
pub const ICR_CLEAR_STOP_AND_NACK: u32 = 0x30;

/// Bit of the STOP request in the second control register.
pub const CR2_STOP: u32 = 14;

/// The most clock pulses that a stuck slave is given: 8 data bits and the acknowledge bit, the
/// length of a single byte transfer.
pub const MAX_PULSES: u8 = 9;

/// How often STOPF is looked at before the recovery goes on without it.
pub const MAX_POLLS: u32 = 80_000;

/// A register of the port or of the peripheral.
#[derive(Debug, Clone, Copy, PartialEq, Eq, Structural)]
pub enum Register {
    GpioModer,
    GpioOtyper,
    GpioPupdr,
    GpioIdr,
    GpioBsrr,
    I2cCr2,
    I2cIsr,
    I2cIcr,
}

impl Register {
    /// The offset of the register in its block.
    pub open spec fn offset(self) -> u32 {
        match self {
            Register::GpioModer => 0x00,
            Register::GpioOtyper => 0x04,
            Register::GpioPupdr => 0x0C,
            Register::GpioIdr => 0x10,
            Register::GpioBsrr => 0x18,
            Register::I2cCr2 => 0x04,
            Register::I2cIsr => 0x18,
            Register::I2cIcr => 0x1C,
        }
    }

    /// Whether the register belongs to the peripheral.
    pub open spec fn is_i2c(self) -> bool {
        self is I2cCr2 || self is I2cIsr || self is I2cIcr
    }

    /// The address of the register.
    pub fn address(self, gpio_base: u32, i2c_base: u32) -> (a: u32)
        requires
            gpio_base <= u32::MAX - 0x18,
            i2c_base <= u32::MAX - 0x1C,
        ensures
            a == (if self.is_i2c() {
                i2c_base
            } else {
                gpio_base
            }) + self.offset(),
    {
        match self {
            Register::GpioModer => gpio_base,
            Register::GpioOtyper => gpio_base + 0x04,
            Register::GpioPupdr => gpio_base + 0x0C,
            Register::GpioIdr => gpio_base + 0x10,
            Register::GpioBsrr => gpio_base + 0x18,
            Register::I2cCr2 => i2c_base + 0x04,
            Register::I2cIsr => i2c_base + 0x18,
            Register::I2cIcr => i2c_base + 0x1C,
        }
    }
}

/// One operation of the recovery.
#[derive(Debug, Clone, Copy, PartialEq, Eq, Structural)]
pub enum BusOp {
    /// Read the register, and pass its value to `advance`.
    Read(Register),
    /// Write the register.
    Write(Register, u32),
    /// Wait about 5 microseconds.
    Delay,
    /// Nothing is left to be done.
    Done,
}

/// Where a recovery stands.
#[derive(Debug, Clone, Copy, PartialEq, Eq, Structural)]
pub enum Point {
    CheckSda,
    CheckBusy,
    PullRead,
    PullWrite,
    DrainRead,
    DrainWrite,
    ModeRead,
    ModeWrite,
    Release,
    ReleaseDelay,
    SampleSda,
    ClockLow,
    ClockLowDelay,
    ClockHigh,
    ClockHighDelay,
    StopSdaLow,
    StopSdaLowDelay,
    StopSclHigh,
    StopSclHighDelay,
    StopSdaHigh,
    StopSdaHighDelay,
    RestoreRead,
    RestoreWrite,
    BusyRead,
    StopRead,
    StopWrite,
    StopPoll,
    ClearFlags,
    Done,
}

/// A recovery under way.
#[derive(Debug, Clone, Copy, PartialEq, Eq, Structural)]
pub struct BusRecovery {
    pub scl_pin: u32,
    pub sda_pin: u32,
    /// Whether only the wires are cleared, before the pins are handed to a peripheral.
    pub wires_only: bool,
    pub point: Point,
    /// The value last read.
    pub value: u32,
    /// Whether SDA was low at the first look.
    pub sda_was_low: bool,
    /// Clock pulses left.
    pub pulses_left: u8,
    /// Looks at STOPF left.
    pub polls_left: u32,
}

impl BusRecovery {
    /// What every reachable recovery satisfies.
    pub open spec fn wf(self) -> bool {
        &&& self.scl_pin < 16
        &&& self.sda_pin < 16
        &&& self.pulses_left <= MAX_PULSES
        &&& self.polls_left <= MAX_POLLS
        &&& self.point is ClockLow || self.point is ClockLowDelay || self.point is ClockHigh
            || self.point is ClockHighDelay ==> self.pulses_left > 0
        &&& self.point is ClearFlags || self.point is Done || self.polls_left > 0
    }

    /// A value of a two-bit register with the fields of both pins replaced.
    pub open spec fn both_fields(self, field: u32) -> u32 {
        gpio::with_field_spec(
            gpio::with_field_spec(self.value, self.scl_pin, field),
            self.sda_pin,
            field,
        )
    }

    /// The operation to be performed now.
    pub open spec fn op_spec(self) -> BusOp {
        let scl = 1u32 << self.scl_pin;
        let sda = 1u32 << self.sda_pin;
        match self.point {
            Point::CheckSda | Point::SampleSda => BusOp::Read(Register::GpioIdr),
            Point::CheckBusy | Point::BusyRead | Point::StopPoll => BusOp::Read(Register::I2cIsr),
            Point::PullRead => BusOp::Read(Register::GpioPupdr),
            Point::PullWrite => BusOp::Write(Register::GpioPupdr, self.both_fields(PULL_UP)),
            Point::DrainRead => BusOp::Read(Register::GpioOtyper),
            Point::DrainWrite => BusOp::Write(Register::GpioOtyper, self.value | scl | sda),
            Point::ModeRead | Point::RestoreRead => BusOp::Read(Register::GpioModer),
            Point::ModeWrite => BusOp::Write(Register::GpioModer, self.both_fields(MODE_OUTPUT)),
            Point::Release => BusOp::Write(Register::GpioBsrr, scl | sda),
            Point::ClockLow => BusOp::Write(
                Register::GpioBsrr,
                1u32 << (self.scl_pin + 16) as u32,
            ),
            Point::ClockHigh | Point::StopSclHigh => BusOp::Write(Register::GpioBsrr, scl),
            Point::StopSdaLow => BusOp::Write(
                Register::GpioBsrr,
                1u32 << (self.sda_pin + 16) as u32,
            ),
            Point::StopSdaHigh => BusOp::Write(Register::GpioBsrr, sda),
            Point::RestoreWrite => BusOp::Write(
                Register::GpioModer,
                self.both_fields(MODE_ALTERNATE),
            ),
            Point::StopRead => BusOp::Read(Register::I2cCr2),
            Point::StopWrite => BusOp::Write(Register::I2cCr2, self.value | (1u32 << CR2_STOP)),
            Point::ClearFlags => BusOp::Write(Register::I2cIcr, ICR_CLEAR_STOP_AND_NACK),
            Point::ReleaseDelay
            | Point::ClockLowDelay
            | Point::ClockHighDelay
            | Point::StopSdaLowDelay
            | Point::StopSclHighDelay
            | Point::StopSdaHighDelay => BusOp::Delay,
            Point::Done => BusOp::Done,
        }
    }

    /// The point that follows once the operation has been performed; `value` is what was read.
    pub open spec fn point_after(self, value: u32) -> Point {
        match self.point {
            Point::CheckSda => Point::CheckBusy,
            // A healthy bus is left alone.
            Point::CheckBusy => if self.sda_was_low || gpio::bit(value, ISR_BUSY) {
                Point::PullRead
            } else {
                Point::Done
            },
            Point::PullRead => Point::PullWrite,
            Point::PullWrite => Point::DrainRead,
            Point::DrainRead => Point::DrainWrite,
            Point::DrainWrite => Point::ModeRead,
            Point::ModeRead => Point::ModeWrite,
            Point::ModeWrite => Point::Release,
            Point::Release => Point::ReleaseDelay,
            Point::ReleaseDelay => Point::SampleSda,
            // While SDA is held low, SCL is clocked to let the slave finish.
            Point::SampleSda => if !gpio::bit(value, self.sda_pin) && self.pulses_left > 0 {
                Point::ClockLow
            } else {
                Point::StopSdaLow
            },
            Point::ClockLow => Point::ClockLowDelay,
            Point::ClockLowDelay => Point::ClockHigh,
            Point::ClockHigh => Point::ClockHighDelay,
            Point::ClockHighDelay => Point::SampleSda,
            // Manual STOP: SDA low while SCL high, then SDA high.
            Point::StopSdaLow => Point::StopSdaLowDelay,
            Point::StopSdaLowDelay => Point::StopSclHigh,
            Point::StopSclHigh => Point::StopSclHighDelay,
            Point::StopSclHighDelay => Point::StopSdaHigh,
            Point::StopSdaHigh => Point::StopSdaHighDelay,
            Point::StopSdaHighDelay => if self.wires_only {
                Point::Done
            } else {
                Point::RestoreRead
            },
            Point::RestoreRead => Point::RestoreWrite,
            Point::RestoreWrite => Point::BusyRead,
            // Where BUSY is still latched, a STOP is forced through the peripheral itself.
            Point::BusyRead => if gpio::bit(value, ISR_BUSY) {
                Point::StopRead
            } else {
                Point::Done
            },
            Point::StopRead => Point::StopWrite,
            Point::StopWrite => Point::StopPoll,
            Point::StopPoll => if gpio::bit(value, ISR_STOPF) || self.polls_left <= 1 {
                Point::ClearFlags
            } else {
                Point::StopPoll
            },
            Point::ClearFlags => Point::Done,
            Point::Done => Point::Done,
        }
    }

    /// The recovery after its operation has been performed; `value` is what was read.
    pub open spec fn after(self, value: u32) -> Self {
        BusRecovery {
            point: self.point_after(value),
            value,
            sda_was_low: if self.point is CheckSda {
                !gpio::bit(value, self.sda_pin)
            } else {
                self.sda_was_low
            },
            pulses_left: if self.point is ClockHighDelay {
                (self.pulses_left - 1) as u8
            } else {
                self.pulses_left
            },
            polls_left: if self.point is StopPoll {
                (self.polls_left - 1) as u32
            } else {
                self.polls_left
            },
            ..self
        }
    }

    /// Clearing the wires of a bus whose pins are not yet handed to a peripheral.
    pub fn clear_bus(scl_pin: u32, sda_pin: u32) -> (r: Self)
        requires
            scl_pin < 16,
            sda_pin < 16,
        ensures
            r.wf(),
            r == (BusRecovery {
                scl_pin,
                sda_pin,
                wires_only: true,
                point: Point::PullRead,
                value: 0,
                sda_was_low: false,
                pulses_left: MAX_PULSES,
                polls_left: MAX_POLLS,
            }),
    {
        BusRecovery {
            scl_pin,
            sda_pin,
            wires_only: true,
            point: Point::PullRead,
            value: 0,
            sda_was_low: false,
            pulses_left: MAX_PULSES,
            polls_left: MAX_POLLS,
        }
    }

    fn both(&self, field: u32) -> (r: u32)
        requires
            self.wf(),
            field < 4,
        ensures
            r == self.both_fields(field),
    {
        gpio::with_field(gpio::with_field(self.value, self.scl_pin, field), self.sda_pin, field)
    }

    /// The operation to be performed now.
    pub fn op(&self) -> (op: BusOp)
        requires
            self.wf(),
        ensures
            op == self.op_spec(),
    {
        let scl: u32 = gpio::high_word(self.scl_pin);
        let sda: u32 = gpio::high_word(self.sda_pin);
        match self.point {
            Point::CheckSda | Point::SampleSda => BusOp::Read(Register::GpioIdr),
            Point::CheckBusy | Point::BusyRead | Point::StopPoll => BusOp::Read(Register::I2cIsr),
            Point::PullRead => BusOp::Read(Register::GpioPupdr),
            Point::PullWrite => BusOp::Write(Register::GpioPupdr, self.both(PULL_UP)),
            Point::DrainRead => BusOp::Read(Register::GpioOtyper),
            Point::DrainWrite => BusOp::Write(Register::GpioOtyper, self.value | scl | sda),
            Point::ModeRead | Point::RestoreRead => BusOp::Read(Register::GpioModer),
            Point::ModeWrite => BusOp::Write(Register::GpioModer, self.both(MODE_OUTPUT)),
            Point::Release => BusOp::Write(Register::GpioBsrr, scl | sda),
            Point::ClockLow => BusOp::Write(Register::GpioBsrr, gpio::low_word(self.scl_pin)),
            Point::ClockHigh | Point::StopSclHigh => BusOp::Write(Register::GpioBsrr, scl),
            Point::StopSdaLow => BusOp::Write(Register::GpioBsrr, gpio::low_word(self.sda_pin)),
            Point::StopSdaHigh => BusOp::Write(Register::GpioBsrr, sda),
            Point::RestoreWrite => BusOp::Write(Register::GpioModer, self.both(MODE_ALTERNATE)),
            Point::StopRead => BusOp::Read(Register::I2cCr2),
            Point::StopWrite => BusOp::Write(
                Register::I2cCr2,
                gpio::with_bit(self.value, CR2_STOP),
            ),
            Point::ClearFlags => BusOp::Write(Register::I2cIcr, ICR_CLEAR_STOP_AND_NACK),
            Point::ReleaseDelay
            | Point::ClockLowDelay
            | Point::ClockHighDelay
            | Point::StopSdaLowDelay
            | Point::StopSclHighDelay
            | Point::StopSdaHighDelay => BusOp::Delay,
            Point::Done => BusOp::Done,
        }
    }

    /// Goes on once the operation has been performed; `value` is what was read, if it was a
    /// read.
    pub fn advance(&mut self, value: u32)
        requires
            old(self).wf(),
        ensures
            final(self).wf(),
            *final(self) == old(self).after(value),
    {
        let here: Point = self.point;
        match here {
            Point::CheckSda => {
                self.sda_was_low = !gpio::has_bit(value, self.sda_pin);
                self.point = Point::CheckBusy;
            },
            Point::CheckBusy => {
                if self.sda_was_low || gpio::has_bit(value, ISR_BUSY) {
                    self.point = Point::PullRead;
                } else {
                    self.point = Point::Done;
                }
            },
            Point::PullRead => {
                self.point = Point::PullWrite;
            },
            Point::PullWrite => {
                self.point = Point::DrainRead;
            },
            Point::DrainRead => {
                self.point = Point::DrainWrite;
            },
            Point::DrainWrite => {
                self.point = Point::ModeRead;
            },
            Point::ModeRead => {
                self.point = Point::ModeWrite;
            },
            Point::ModeWrite => {
                self.point = Point::Release;
            },
            Point::Release => {
                self.point = Point::ReleaseDelay;
            },
            Point::ReleaseDelay => {
                self.point = Point::SampleSda;
            },
            Point::SampleSda => {
                if !gpio::has_bit(value, self.sda_pin) && self.pulses_left > 0 {
                    self.point = Point::ClockLow;
                } else {
                    self.point = Point::StopSdaLow;
                }
            },
            Point::ClockLow => {
                self.point = Point::ClockLowDelay;
            },
            Point::ClockLowDelay => {
                self.point = Point::ClockHigh;
            },
            Point::ClockHigh => {
                self.point = Point::ClockHighDelay;
            },
            Point::ClockHighDelay => {
                self.pulses_left = self.pulses_left - 1;
                self.point = Point::SampleSda;
            },
            Point::StopSdaLow => {
                self.point = Point::StopSdaLowDelay;
            },
            Point::StopSdaLowDelay => {
                self.point = Point::StopSclHigh;
            },
            Point::StopSclHigh => {
                self.point = Point::StopSclHighDelay;
            },
            Point::StopSclHighDelay => {
                self.point = Point::StopSdaHigh;
            },
            Point::StopSdaHigh => {
                self.point = Point::StopSdaHighDelay;
            },
            Point::StopSdaHighDelay => {
                if self.wires_only {
                    self.point = Point::Done;
                } else {
                    self.point = Point::RestoreRead;
                }
            },
            Point::RestoreRead => {
                self.point = Point::RestoreWrite;
            },
            Point::RestoreWrite => {
                self.point = Point::BusyRead;
            },
            Point::BusyRead => {
                if gpio::has_bit(value, ISR_BUSY) {
                    self.point = Point::StopRead;
                } else {
                    self.point = Point::Done;
                }
            },
            Point::StopRead => {
                self.point = Point::StopWrite;
            },
            Point::StopWrite => {
                self.point = Point::StopPoll;
            },
            Point::StopPoll => {
                if gpio::has_bit(value, ISR_STOPF) || self.polls_left <= 1 {
                    self.point = Point::ClearFlags;
                }
                self.polls_left = self.polls_left - 1;
            },
            Point::ClearFlags => {
                self.point = Point::Done;
            },
            Point::Done => {},
        }
        self.value = value;
    }
}

/// Check whether the I2C bus on pins `scl_pin`/`sda_pin` is stuck (SDA held low, or the
/// peripheral's BUSY flag latched) and recover it in place if so.  Writes no register at all
/// if the bus is healthy.
pub fn recover_i2c_bus_if_stuck(scl_pin: u8, sda_pin: u8) -> (r: BusRecovery)
    requires
        scl_pin < 16,
        sda_pin < 16,
    ensures
        r.wf(),
        r == (BusRecovery {
            scl_pin: scl_pin as u32,
            sda_pin: sda_pin as u32,
            wires_only: false,
            point: Point::CheckSda,
            value: 0,
            sda_was_low: false,
            pulses_left: MAX_PULSES,
            polls_left: MAX_POLLS,
        }),
{
    BusRecovery {
        scl_pin: scl_pin as u32,
        sda_pin: sda_pin as u32,
        wires_only: false,
        point: Point::CheckSda,
        value: 0,
        sda_was_low: false,
        pulses_left: MAX_PULSES,
        polls_left: MAX_POLLS,
    }
}

// ---------------------------------------------------------------------------
//  Laws
// ---------------------------------------------------------------------------

impl BusRecovery {
    /// A bound on the number of operations that are left.
    pub open spec fn rank(self) -> nat {
        let stop = (self.polls_left + 1) as nat;
        let pulses = 6 * self.pulses_left as nat;
        match self.point {
            Point::CheckSda => 30 + stop + pulses,
            Point::CheckBusy => 29 + stop + pulses,
            Point::PullRead => 28 + stop + pulses,
            Point::PullWrite => 27 + stop + pulses,
            Point::DrainRead => 26 + stop + pulses,
            Point::DrainWrite => 25 + stop + pulses,
            Point::ModeRead => 24 + stop + pulses,
            Point::ModeWrite => 23 + stop + pulses,
            Point::Release => 22 + stop + pulses,
            Point::ReleaseDelay => 21 + stop + pulses,
            Point::SampleSda => 20 + stop + pulses,
            Point::ClockLow => 19 + stop + pulses,
            Point::ClockLowDelay => 18 + stop + pulses,
            Point::ClockHigh => 17 + stop + pulses,
            Point::ClockHighDelay => 16 + stop + pulses,
            Point::StopSdaLow => 13 + stop,
            Point::StopSdaLowDelay => 12 + stop,
            Point::StopSclHigh => 11 + stop,
            Point::StopSclHighDelay => 10 + stop,
            Point::StopSdaHigh => 9 + stop,
            Point::StopSdaHighDelay => 8 + stop,
            Point::RestoreRead => 7 + stop,
            Point::RestoreWrite => 6 + stop,
            Point::BusyRead => 5 + stop,
            Point::StopRead => 4 + stop,
            Point::StopWrite => 3 + stop,
            Point::StopPoll => 1 + stop,
            Point::ClearFlags => 1,
            Point::Done => 0,
        }
    }

    /// The recovery after a run of values that were read.
    pub open spec fn after_all(self, values: Seq<u32>) -> Self
        decreases values.len(),
    {
        if values.len() == 0 {
            self
        } else {
            self.after_all(values.drop_last()).after(values.last())
        }
    }

    /// Whether the operation drives SCL low.
    pub open spec fn clocks(self) -> bool {
        self.point is ClockLow
    }

    /// How many times SCL is driven low in a run.
    pub open spec fn pulses_in(self, values: Seq<u32>) -> nat
        decreases values.len(),
    {
        if values.len() == 0 {
            0
        } else {
            let before = self.after_all(values.drop_last());
            self.pulses_in(values.drop_last()) + (if before.clocks() {
                1nat
            } else {
                0nat
            })
        }
    }
}

/// Every step keeps the invariant, and every recovery comes to its end, whatever is read.
pub proof fn law_recovery_ends(r: BusRecovery, value: u32)
    requires
        r.wf(),
    ensures
        r.after(value).wf(),
        !(r.point is Done) ==> r.after(value).rank() < r.rank(),
{
}

/// A healthy bus is left alone: after two reads that show SDA high and BUSY clear, nothing is
/// left to be done, and nothing has been written.
pub proof fn law_healthy_bus_is_left_alone(scl_pin: u32, sda_pin: u32, idr: u32, isr: u32)
    requires
        scl_pin < 16,
        sda_pin < 16,
        gpio::bit(idr, sda_pin),
        !gpio::bit(isr, ISR_BUSY),
    ensures
        ({
            let r = BusRecovery {
                scl_pin,
                sda_pin,
                wires_only: false,
                point: Point::CheckSda,
                value: 0,
                sda_was_low: false,
                pulses_left: MAX_PULSES,
                polls_left: MAX_POLLS,
            };
            &&& r.op_spec() == BusOp::Read(Register::GpioIdr)
            &&& r.after(idr).op_spec() == BusOp::Read(Register::I2cIsr)
            &&& r.after(idr).after(isr).op_spec() == BusOp::Done
        }),
{
}

/// A stuck slave is given at most nine clock pulses, whatever is read.
pub proof fn law_at_most_nine_pulses(r: BusRecovery, values: Seq<u32>)
    requires
        r.wf(),
        r.point is CheckSda || r.point is PullRead,
        r.pulses_left == MAX_PULSES,
    ensures
        r.pulses_in(values) <= MAX_PULSES,
{
    lemma_pulses(r, values);
}

proof fn lemma_pulses(r: BusRecovery, values: Seq<u32>)
    requires
        r.wf(),
        r.point is CheckSda || r.point is PullRead,
        r.pulses_left == MAX_PULSES,
    ensures
        ({
            let now = r.after_all(values);
            &&& now.wf()
            &&& r.pulses_in(values) == MAX_PULSES - now.pulses_left + (if now.point is ClockLowDelay
                || now.point is ClockHigh || now.point is ClockHighDelay {
                1int
            } else {
                0int
            })
        }),
    decreases values.len(),
{
    if values.len() > 0 {
        lemma_pulses(r, values.drop_last());
        law_recovery_ends(r.after_all(values.drop_last()), values.last());
    }
}

/// Taking over the pins, and handing them back, leaves the settings of all other pins as they
/// are.
pub proof fn law_other_pins_are_untouched(r: BusRecovery, value: u32, q: u32)
    requires
        r.wf(),
        value < 4,
        q < 16,
    ensures
        gpio::field(r.both_fields(value), q) == (if q == r.scl_pin || q == r.sda_pin {
            value
        } else {
            gpio::field(r.value, q)
        }),
{
    gpio::lemma_with_field(r.value, r.scl_pin, value, q);
    gpio::lemma_with_field(
        gpio::with_field_spec(r.value, r.scl_pin, value),
        r.sda_pin,
        value,
        q,
    );
}

/// Where the registers stand in their blocks.
pub proof fn law_register_map(register: Register)
    ensures
        register.is_i2c() <==> register is I2cCr2 || register is I2cIsr || register is I2cIcr,
        register.offset() == (match register {
            Register::GpioModer => 0x00,
            Register::GpioOtyper | Register::I2cCr2 => 0x04,
            Register::GpioPupdr => 0x0C,
            Register::GpioIdr => 0x10,
            Register::GpioBsrr | Register::I2cIsr => 0x18,
            Register::I2cIcr => 0x1Cint,
        }),
{
}

/// The place of a point in the course of a recovery.
pub open spec fn place_of(point: Point) -> int {
    match point {
        Point::CheckSda => 0,
        Point::CheckBusy => 1,
        Point::PullRead => 2,
        Point::PullWrite => 3,
        Point::DrainRead => 4,
        Point::DrainWrite => 5,
        Point::ModeRead => 6,
        Point::ModeWrite => 7,
        Point::Release => 8,
        Point::ReleaseDelay => 9,
        Point::SampleSda => 10,
        Point::ClockLow => 11,
        Point::ClockLowDelay => 12,
        Point::ClockHigh => 13,
        Point::ClockHighDelay => 14,
        Point::StopSdaLow => 15,
        Point::StopSdaLowDelay => 16,
        Point::StopSclHigh => 17,
        Point::StopSclHighDelay => 18,
        Point::StopSdaHigh => 19,
        Point::StopSdaHighDelay => 20,
        Point::RestoreRead => 21,
        Point::RestoreWrite => 22,
        Point::BusyRead => 23,
        Point::StopRead => 24,
        Point::StopWrite => 25,
        Point::StopPoll => 26,
        Point::ClearFlags => 27,
        Point::Done => 28,
    }
}

/// The course of a recovery.  It goes from one point to the next, except that a healthy bus is left
/// alone, pulses come as long as SDA is low and one is left, the wires are all there is to it where
/// only they are cleared, the peripheral is left alone where it is not busy, and the wait for its
/// STOP ends with the STOP or with the last look.
pub proof fn law_course_of_a_recovery(r: BusRecovery, value: u32)
    requires
        r.wf(),
    ensures
        ({
            let (from, to) = (place_of(r.point), place_of(r.after(value).point));
            let busy = gpio::bit(value, 15);
            let sda_low = !gpio::bit(value, r.sda_pin);
            &&& from == 1 ==> to == (if r.sda_was_low || busy {
                2int
            } else {
                28
            })
            &&& from == 10 ==> to == (if sda_low && r.pulses_left > 0 {
                11int
            } else {
                15
            })
            &&& from == 14 ==> to == 10
            &&& from == 20 ==> to == (if r.wires_only {
                28int
            } else {
                21
            })
            &&& from == 23 ==> to == (if busy {
                24int
            } else {
                28
            })
            &&& from == 26 ==> to == (if gpio::bit(value, 5) || r.polls_left <= 1 {
                27int
            } else {
                26
            })
            &&& from == 28 ==> to == 28
            &&& from != 1 && from != 10 && from != 14 && from != 20 && from != 23 && from != 26
                && from != 28 ==> to == from + 1
            &&& r.after(value).value == value
            &&& from == 0 ==> r.after(value).sda_was_low == sda_low
            &&& from != 0 ==> r.after(value).sda_was_low == r.sda_was_low
            &&& r.after(value).pulses_left == r.pulses_left - (if from == 14 {
                1int
            } else {
                0
            })
            &&& r.after(value).polls_left == r.polls_left - (if from == 26 {
                1int
            } else {
                0
            })
            &&& r.after(value).scl_pin == r.scl_pin && r.after(value).sda_pin == r.sda_pin
            &&& r.after(value).wires_only == r.wires_only
        }),
{
}

/// What each point does to the wires: both are released first; a pulse drives SCL low and then high
/// again, and leaves SDA to the slave; the STOP drives SDA low, SCL high and then SDA high.  No
/// other pin of the port is driven.
pub proof fn law_wires(r: BusRecovery, levels: u32, q: u32)
    requires
        r.wf(),
        q < 16,
        r.op_spec() matches BusOp::Write(Register::GpioBsrr, _),
    ensures
        r.op_spec() matches BusOp::Write(Register::GpioBsrr, word) && ({
            let after = gpio::bit(gpio::levels_after(levels, word), q);
            let before = gpio::bit(levels, q);
            let (scl, sda) = (q == r.scl_pin, q == r.sda_pin);
            match r.point {
                Point::Release => after == (scl || sda || before),
                Point::ClockLow => after == (!scl && before),
                Point::ClockHigh | Point::StopSclHigh => after == (scl || before),
                Point::StopSdaLow => after == (!sda && before),
                Point::StopSdaHigh => after == (sda || before),
                _ => false,
            }
        }),
{
    let scl = 1u32 << r.scl_pin;
    let sda = 1u32 << r.sda_pin;
    gpio::law_words_drive_one_pin(levels, r.scl_pin, q);
    gpio::law_words_drive_one_pin(levels, r.sda_pin, q);
    gpio::law_stored_word(levels, scl | sda, q);
    gpio::law_bits(scl, sda, r.scl_pin, q);
    gpio::law_bits(scl, sda, r.sda_pin, q);
    gpio::law_bits(scl, sda, r.scl_pin, (q + 16) as u32);
    gpio::law_bits(scl, sda, r.sda_pin, (q + 16) as u32);
}

/// What each point reads or writes: nothing is written but the wires, the settings of the two pins,
/// the STOP request of the peripheral, and the flags that it is cleared of.  The settings come from
/// what was read just before; the two pins are pulled up, made open-drain outputs, and in the end
/// handed back to the peripheral.
pub proof fn law_registers_of_a_recovery(r: BusRecovery, q: u32)
    requires
        r.wf(),
        q < 16,
    ensures
        ({
            let ours = q == r.scl_pin || q == r.sda_pin;
            let kept = gpio::field(r.value, q);
            let was_set = gpio::bit(r.value, q);
            let setting = |value: u32|
                if ours {
                    value
                } else {
                    kept
                };
            match r.op_spec() {
                BusOp::Read(register) => match r.point {
                    Point::CheckSda | Point::SampleSda => register is GpioIdr,
                    Point::CheckBusy | Point::BusyRead | Point::StopPoll => register is I2cIsr,
                    Point::PullRead => register is GpioPupdr,
                    Point::DrainRead => register is GpioOtyper,
                    Point::ModeRead | Point::RestoreRead => register is GpioModer,
                    Point::StopRead => register is I2cCr2,
                    _ => false,
                },
                BusOp::Write(register, word) => match r.point {
                    Point::PullWrite => register is GpioPupdr && gpio::field(word, q) == setting(1),
                    Point::DrainWrite => register is GpioOtyper && gpio::bit(word, q) == (ours || was_set),
                    Point::ModeWrite => register is GpioModer && gpio::field(word, q) == setting(1),
                    Point::RestoreWrite => register is GpioModer && gpio::field(word, q) == setting(2),
                    Point::StopWrite => register is I2cCr2 && gpio::bit(word, q) == (q == 14 || was_set),
                    Point::ClearFlags => register is I2cIcr && word == 0x30,
                    Point::Release
                    | Point::ClockLow
                    | Point::ClockHigh
                    | Point::StopSdaLow
                    | Point::StopSclHigh
                    | Point::StopSdaHigh => register is GpioBsrr,
                    _ => false,
                },
                BusOp::Delay => match r.point {
                    Point::ReleaseDelay
                    | Point::ClockLowDelay
                    | Point::ClockHighDelay
                    | Point::StopSdaLowDelay
                    | Point::StopSclHighDelay
                    | Point::StopSdaHighDelay => true,
                    _ => false,
                },
                BusOp::Done => r.point is Done,
            }
        }),
{
    law_other_pins_are_untouched(r, 1, q);
    law_other_pins_are_untouched(r, 2, q);
    let scl = 1u32 << r.scl_pin;
    let sda = 1u32 << r.sda_pin;
    gpio::law_bits(r.value, scl, r.scl_pin, q);
    gpio::law_bits(r.value | scl, sda, r.sda_pin, q);
    gpio::law_bits(r.value, 1u32 << 14, 14, q);
}

/// Asking the peripheral for a STOP sets bit 14 of its second control register, and keeps every
/// other bit of what was read from it.
pub proof fn law_stop_request_keeps_the_rest(r: BusRecovery, q: u32)
    requires
        r.point is StopWrite,
        q < 32,
    ensures
        r.op_spec() matches BusOp::Write(Register::I2cCr2, word) && gpio::bit(word, q) == (q == 14
            || gpio::bit(r.value, q)),
{
    gpio::law_bits(r.value, 1u32 << 14, 14, q);
}

} // verus!
