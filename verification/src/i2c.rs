//! Register access on an I2C device, as a sequence of bus operations.
//!
//! Reads select the register in a complete write transaction of their own, with a
//! hardware-generated STOP, and then start afresh.

use vstd::prelude::*;

use crate::bus_recovery::MAX_POLLS;

verus! {

/// Most data bytes in a single packet.
pub const MAX_PACKET: usize = 255;

/// The status flags that are looked at.
#[derive(Debug, Clone, Copy, PartialEq, Eq, Structural)]
pub struct Status {
    /// The slave has not acknowledged.
    pub nackf: bool,
    /// The transmit register is to be filled.
    pub txis: bool,
    /// A byte has been received.
    pub rxne: bool,
    /// A STOP has been generated.
    pub stopf: bool,
}

/// One transaction, ended by the hardware.
#[derive(Debug, Clone, Copy, PartialEq, Eq, Structural)]
pub struct Transfer {
    /// Slave address field.
    pub sadd: u16,
    /// Number of bytes.
    pub nbytes: u8,
    /// Whether the bytes are read.
    pub read: bool,
}

/// One operation on the peripheral.
#[derive(Debug, Clone, Copy, PartialEq, Eq, Structural)]
pub enum I2cOp {
    /// Set up a transaction, and start it.
    Start(Transfer),
    /// Read the status flags, and pass them to `advance`.
    ReadStatus,
    /// Fill the transmit register.
    Send(u8),
    /// Read the receive register, and pass the byte to `advance`.
    Receive,
    /// Clear STOPF.
    ClearStop,
    /// Force a STOP.
    ForceStop,
    /// Clear STOPF and NACKF.
    ClearErrors,
    /// Disable the peripheral and enable it again.
    TogglePeripheral,
    /// The access is over; whether it has succeeded.
    Finished(bool),
}

/// Where an access stands.
#[derive(Debug, Clone, Copy, PartialEq, Eq, Structural)]
pub enum Stage {
    SelectStart,
    SelectWait,
    SelectSend,
    SelectStopWait,
    SelectStopClear,
    ReadStart,
    ReadWait,
    ReadTake,
    WriteStart,
    AddressWait,
    AddressSend,
    DataWait,
    DataSend,
    Toggle,
    ForceStop,
    ForceStopWait,
    ClearErrors,
    Over(bool),
}

/// The mathematical state of an [`I2cAccess`].
pub struct AccessState {
    pub stage: Stage,
    pub device_address: u8,
    pub mem_address: u8,
    /// How many bytes are to be read or written.
    pub len: nat,
    /// The bytes to be written.
    pub outgoing: Seq<u8>,
    /// The bytes read.
    pub received: Seq<u8>,
    /// How many bytes have been written.
    pub sent: nat,
    /// Looks at the status left in this wait.
    pub polls_left: u32,
}

/// The slave address field for a device address: shifted left, with the lowest bit given.
pub open spec fn slave_field(device_address: u8, low: u8) -> u16 {
    ((device_address << 1) | low) as u16
}

impl AccessState {
    /// What every reachable state satisfies.
    pub open spec fn wf(self) -> bool {
        &&& self.len <= MAX_PACKET
        &&& self.polls_left <= MAX_POLLS
        &&& self.waits() ==> self.polls_left > 0
        &&& match self.stage {
            Stage::ReadWait | Stage::ReadTake => self.received.len() < self.len,
            Stage::DataWait | Stage::DataSend => self.sent < self.len,
            _ => true,
        }
        &&& match self.stage {
            Stage::SelectStart
            | Stage::SelectWait
            | Stage::SelectSend
            | Stage::SelectStopWait
            | Stage::SelectStopClear
            | Stage::ReadStart => self.received.len() == 0,
            Stage::WriteStart
            | Stage::AddressWait
            | Stage::AddressSend => self.outgoing.len() == self.len && self.sent == 0,
            Stage::DataWait | Stage::DataSend => self.outgoing.len() == self.len,
            Stage::Over(ok) => ok ==> self.received.len() == self.len || self.sent == self.len,
            _ => true,
        }
    }

    /// Whether the status is being looked at, over and over.
    pub open spec fn waits(self) -> bool {
        match self.stage {
            Stage::SelectWait
            | Stage::SelectStopWait
            | Stage::ReadWait
            | Stage::AddressWait
            | Stage::DataWait
            | Stage::ForceStopWait => true,
            _ => false,
        }
    }

    /// The operation to be performed now.
    pub open spec fn op(self) -> I2cOp {
        match self.stage {
            Stage::SelectStart => I2cOp::Start(
                Transfer { sadd: slave_field(self.device_address, 0), nbytes: 1, read: false },
            ),
            Stage::ReadStart => I2cOp::Start(
                Transfer {
                    sadd: slave_field(self.device_address, 1),
                    nbytes: self.len as u8,
                    read: true,
                },
            ),
            Stage::WriteStart => I2cOp::Start(
                Transfer {
                    sadd: slave_field(self.device_address, 1),
                    nbytes: (self.len + 1) as u8,
                    read: false,
                },
            ),
            Stage::SelectWait
            | Stage::SelectStopWait
            | Stage::ReadWait
            | Stage::AddressWait
            | Stage::DataWait
            | Stage::ForceStopWait => I2cOp::ReadStatus,
            Stage::SelectSend | Stage::AddressSend => I2cOp::Send(self.mem_address),
            Stage::DataSend => I2cOp::Send(self.outgoing[self.sent as int]),
            Stage::ReadTake => I2cOp::Receive,
            Stage::SelectStopClear => I2cOp::ClearStop,
            Stage::Toggle => I2cOp::TogglePeripheral,
            Stage::ForceStop => I2cOp::ForceStop,
            Stage::ClearErrors => I2cOp::ClearErrors,
            Stage::Over(ok) => I2cOp::Finished(ok),
        }
    }

    /// A wait that goes on as long as nothing has happened: `stage` when it is out of looks.
    pub open spec fn or_else(self, stage: Stage) -> Stage {
        if self.polls_left <= 1 {
            stage
        } else {
            self.stage
        }
    }

    /// The stage that follows once the operation has been performed; `status` is what was
    /// read, if it was the status.
    pub open spec fn stage_after(self, status: Status) -> Stage {
        match self.stage {
            Stage::SelectStart => Stage::SelectWait,
            // Not acknowledged: the peripheral is toggled.  Timed out: a STOP is forced.
            Stage::SelectWait => if status.nackf {
                Stage::Toggle
            } else if status.txis {
                Stage::SelectSend
            } else {
                self.or_else(Stage::ForceStop)
            },
            Stage::SelectSend => Stage::SelectStopWait,
            Stage::SelectStopWait => if status.nackf {
                Stage::Toggle
            } else if status.stopf {
                Stage::SelectStopClear
            } else {
                self.or_else(Stage::ForceStop)
            },
            Stage::SelectStopClear => Stage::ReadStart,
            Stage::ReadStart => if self.len == 0 {
                Stage::Over(true)
            } else {
                Stage::ReadWait
            },
            Stage::ReadWait => if status.rxne {
                Stage::ReadTake
            } else {
                self.or_else(Stage::Over(false))
            },
            Stage::ReadTake => if self.received.len() + 1 >= self.len {
                Stage::Over(true)
            } else {
                Stage::ReadWait
            },
            Stage::WriteStart => Stage::AddressWait,
            Stage::AddressWait => if status.txis {
                Stage::AddressSend
            } else {
                self.or_else(Stage::Over(false))
            },
            Stage::AddressSend => if self.len == 0 {
                Stage::Over(true)
            } else {
                Stage::DataWait
            },
            Stage::DataWait => if status.txis {
                Stage::DataSend
            } else {
                self.or_else(Stage::Over(false))
            },
            Stage::DataSend => if self.sent + 1 >= self.len {
                Stage::Over(true)
            } else {
                Stage::DataWait
            },
            Stage::Toggle => Stage::Over(false),
            Stage::ForceStop => Stage::ForceStopWait,
            Stage::ForceStopWait => if status.stopf {
                Stage::ClearErrors
            } else {
                self.or_else(Stage::ClearErrors)
            },
            Stage::ClearErrors => Stage::Over(false),
            Stage::Over(ok) => Stage::Over(ok),
        }
    }

    /// The state once the operation has been performed; `byte` is what was received, if
    /// anything was.
    pub open spec fn after(self, status: Status, byte: u8) -> Self {
        let stage = self.stage_after(status);
        AccessState {
            stage,
            received: if self.stage is ReadTake {
                self.received.push(byte)
            } else {
                self.received
            },
            sent: if self.stage is DataSend {
                self.sent + 1
            } else {
                self.sent
            },
            // Every wait has its own budget.
            polls_left: if stage == self.stage && self.waits() {
                (self.polls_left - 1) as u32
            } else {
                MAX_POLLS
            },
            ..self
        }
    }

    /// A bound on the number of operations that are left.
    pub open spec fn rank(self) -> int {
        let len = self.len as int;
        let to_read = len - self.received.len();
        let to_write = len - self.sent;
        match self.stage {
            Stage::SelectStart => 80_010 * (len + 4),
            Stage::SelectWait => 80_010 * (len + 3) + self.polls_left + 2,
            Stage::SelectSend => 80_010 * (len + 3) + 1,
            Stage::SelectStopWait => 80_010 * (len + 2) + self.polls_left + 2,
            Stage::SelectStopClear => 80_010 * (len + 2) + 1,
            Stage::ReadStart => 80_010 * (len + 2),
            Stage::ReadWait => 80_010 * to_read + self.polls_left + 2,
            Stage::ReadTake => 80_010 * to_read + 1,
            Stage::WriteStart => 80_010 * (len + 2),
            Stage::AddressWait => 80_010 * (len + 1) + self.polls_left + 2,
            Stage::AddressSend => 80_010 * (len + 1) + 1,
            Stage::DataWait => 80_010 * to_write + self.polls_left + 2,
            Stage::DataSend => 80_010 * to_write + 1,
            Stage::ForceStop => 80_012,
            Stage::ForceStopWait => self.polls_left + 2,
            Stage::ClearErrors => 1,
            Stage::Toggle => 1,
            Stage::Over(_) => 0,
        }
    }
}

/// An access to a register of a device, under way.
pub struct I2cAccess {
    stage: Stage,
    device_address: u8,
    mem_address: u8,
    len: usize,
    outgoing: Vec<u8>,
    received: Vec<u8>,
    sent: usize,
    polls_left: u32,
}

impl View for I2cAccess {
    type V = AccessState;

    closed spec fn view(&self) -> AccessState {
        AccessState {
            stage: self.stage,
            device_address: self.device_address,
            mem_address: self.mem_address,
            len: self.len as nat,
            outgoing: self.outgoing@,
            received: self.received@,
            sent: self.sent as nat,
            polls_left: self.polls_left,
        }
    }
}

impl I2cAccess {
    /// Reading `len` bytes from a register of a device.
    pub fn i2c_mem_read(device_address: u8, mem_address: u8, len: usize) -> (a: Self)
        requires
            len <= MAX_PACKET,
        ensures
            a@.wf(),
            a@ == (AccessState {
                stage: Stage::SelectStart,
                device_address,
                mem_address,
                len: len as nat,
                outgoing: Seq::empty(),
                received: Seq::empty(),
                sent: 0,
                polls_left: MAX_POLLS,
            }),
    {
        I2cAccess {
            stage: Stage::SelectStart,
            device_address,
            mem_address,
            len,
            outgoing: Vec::new(),
            received: Vec::new(),
            sent: 0,
            polls_left: MAX_POLLS,
        }
    }

    /// Writing bytes to a register of a device.
    pub fn i2c_mem_write(device_address: u8, mem_address: u8, data: Vec<u8>) -> (a: Self)
        requires
            data@.len() <= MAX_PACKET,
        ensures
            a@.wf(),
            a@ == (AccessState {
                stage: Stage::WriteStart,
                device_address,
                mem_address,
                len: data@.len(),
                outgoing: data@,
                received: Seq::empty(),
                sent: 0,
                polls_left: MAX_POLLS,
            }),
    {
        I2cAccess {
            stage: Stage::WriteStart,
            device_address,
            mem_address,
            len: data.len(),
            outgoing: data,
            received: Vec::new(),
            sent: 0,
            polls_left: MAX_POLLS,
        }
    }

    /// Forcing a STOP and clearing the error flags, so that a failed transaction never leaves
    /// the bus held for the next one.
    pub fn recover_after_failure() -> (a: Self)
        ensures
            a@.wf(),
            a@ == (AccessState {
                stage: Stage::ForceStop,
                device_address: 0,
                mem_address: 0,
                len: 0,
                outgoing: Seq::empty(),
                received: Seq::empty(),
                sent: 0,
                polls_left: MAX_POLLS,
            }),
    {
        I2cAccess {
            stage: Stage::ForceStop,
            device_address: 0,
            mem_address: 0,
            len: 0,
            outgoing: Vec::new(),
            received: Vec::new(),
            sent: 0,
            polls_left: MAX_POLLS,
        }
    }

    /// The bytes that have been read.
    pub fn received(&self) -> (bytes: &[u8])
        ensures
            bytes@ == self@.received,
    {
        self.received.as_slice()
    }

    /// The operation to be performed now.
    pub fn op(&self) -> (op: I2cOp)
        requires
            self@.wf(),
        ensures
            op == self@.op(),
    {
        match self.stage {
            Stage::SelectStart => I2cOp::Start(
                Transfer {
                    sadd: ((self.device_address << 1) | 0) as u16,
                    nbytes: 1,
                    read: false,
                },
            ),
            Stage::ReadStart => I2cOp::Start(
                Transfer {
                    sadd: ((self.device_address << 1) | 1) as u16,
                    nbytes: self.len as u8,
                    read: true,
                },
            ),
            Stage::WriteStart => I2cOp::Start(
                Transfer {
                    sadd: ((self.device_address << 1) | 1) as u16,
                    nbytes: (self.len + 1) as u8,
                    read: false,
                },
            ),
            Stage::SelectWait
            | Stage::SelectStopWait
            | Stage::ReadWait
            | Stage::AddressWait
            | Stage::DataWait
            | Stage::ForceStopWait => I2cOp::ReadStatus,
            Stage::SelectSend | Stage::AddressSend => I2cOp::Send(self.mem_address),
            Stage::DataSend => I2cOp::Send(self.outgoing[self.sent]),
            Stage::ReadTake => I2cOp::Receive,
            Stage::SelectStopClear => I2cOp::ClearStop,
            Stage::Toggle => I2cOp::TogglePeripheral,
            Stage::ForceStop => I2cOp::ForceStop,
            Stage::ClearErrors => I2cOp::ClearErrors,
            Stage::Over(ok) => I2cOp::Finished(ok),
        }
    }

    fn wait_or(&self, stage: Stage) -> (s: Stage)
        ensures
            s == self@.or_else(stage),
    {
        if self.polls_left <= 1 {
            stage
        } else {
            self.stage
        }
    }

    /// Goes on once the operation has been performed; `status` and `byte` are what was read,
    /// if anything was.
    pub fn advance(&mut self, status: Status, byte: u8)
        requires
            old(self)@.wf(),
        ensures
            final(self)@.wf(),
            final(self)@ == old(self)@.after(status, byte),
    {
        let here: Stage = self.stage;
        let waits: bool = match here {
            Stage::SelectWait
            | Stage::SelectStopWait
            | Stage::ReadWait
            | Stage::AddressWait
            | Stage::DataWait
            | Stage::ForceStopWait => true,
            _ => false,
        };
        let stage: Stage = match here {
            Stage::SelectStart => Stage::SelectWait,
            Stage::SelectWait => if status.nackf {
                Stage::Toggle
            } else if status.txis {
                Stage::SelectSend
            } else {
                self.wait_or(Stage::ForceStop)
            },
            Stage::SelectSend => Stage::SelectStopWait,
            Stage::SelectStopWait => if status.nackf {
                Stage::Toggle
            } else if status.stopf {
                Stage::SelectStopClear
            } else {
                self.wait_or(Stage::ForceStop)
            },
            Stage::SelectStopClear => Stage::ReadStart,
            Stage::ReadStart => if self.len == 0 {
                Stage::Over(true)
            } else {
                Stage::ReadWait
            },
            Stage::ReadWait => if status.rxne {
                Stage::ReadTake
            } else {
                self.wait_or(Stage::Over(false))
            },
            Stage::ReadTake => {
                self.received.push(byte);
                if self.received.len() >= self.len {
                    Stage::Over(true)
                } else {
                    Stage::ReadWait
                }
            },
            Stage::WriteStart => Stage::AddressWait,
            Stage::AddressWait => if status.txis {
                Stage::AddressSend
            } else {
                self.wait_or(Stage::Over(false))
            },
            Stage::AddressSend => if self.len == 0 {
                Stage::Over(true)
            } else {
                Stage::DataWait
            },
            Stage::DataWait => if status.txis {
                Stage::DataSend
            } else {
                self.wait_or(Stage::Over(false))
            },
            Stage::DataSend => {
                self.sent = self.sent + 1;
                if self.sent >= self.len {
                    Stage::Over(true)
                } else {
                    Stage::DataWait
                }
            },
            Stage::Toggle => Stage::Over(false),
            Stage::ForceStop => Stage::ForceStopWait,
            Stage::ForceStopWait => if status.stopf {
                Stage::ClearErrors
            } else {
                self.wait_or(Stage::ClearErrors)
            },
            Stage::ClearErrors => Stage::Over(false),
            Stage::Over(ok) => Stage::Over(ok),
        };
        if waits && stage == here {
            self.polls_left = self.polls_left - 1;
        } else {
            self.polls_left = MAX_POLLS;
        }
        self.stage = stage;
    }
}

// ---------------------------------------------------------------------------
//  Laws
// ---------------------------------------------------------------------------

/// Every step keeps the invariant, and every access comes to its end, whatever is read.
pub proof fn law_access_ends(s: AccessState, status: Status, byte: u8)
    requires
        s.wf(),
    ensures
        s.after(status, byte).wf(),
        !(s.stage is Over) ==> 0 <= s.after(status, byte).rank() < s.rank(),
{
}

/// While a register is being selected, failure never leaves the bus held: the peripheral is
/// toggled when the slave does not acknowledge, and a STOP is forced and the error flags are
/// cleared when nothing happens in time.
pub proof fn law_failed_select_releases_the_bus(s: AccessState, status: Status, byte: u8)
    requires
        s.wf(),
        s.stage is SelectWait || s.stage is SelectStopWait,
    ensures
        ({
            let next = s.after(status, byte).stage;
            &&& !(next is Over)
            &&& next is Toggle <==> status.nackf
            &&& next is ForceStop <==> !status.nackf && s.polls_left <= 1 && !(if s.stage
                is SelectWait {
                status.txis
            } else {
                status.stopf
            })
        }),
{
}

/// The slave address field is twice the device address, as far as a byte goes, and the lowest bit.
pub proof fn law_slave_field(device_address: u8)
    ensures
        slave_field(device_address, 0) == 2 * device_address % 256,
        slave_field(device_address, 1) == 2 * device_address % 256 + 1,
{
    let a = device_address;
    assert((a << 1) | 0 == 2 * a % 256 && (a << 1) | 1 == 2 * a % 256 + 1) by (bit_vector);
}

impl AccessState {
    /// The access after a run of operations; each entry is what was read at one of them.
    pub open spec fn after_all(self, reads: Seq<(Status, u8)>) -> Self
        decreases reads.len(),
    {
        if reads.len() == 0 {
            self
        } else {
            self.after_all(reads.drop_last()).after(reads.last().0, reads.last().1)
        }
    }

    /// The bytes that are put on the bus in a run.
    pub open spec fn sent_in(self, reads: Seq<(Status, u8)>) -> Seq<u8>
        decreases reads.len(),
    {
        if reads.len() == 0 {
            Seq::empty()
        } else {
            match self.after_all(reads.drop_last()).op() {
                I2cOp::Send(byte) => self.sent_in(reads.drop_last()).push(byte),
                _ => self.sent_in(reads.drop_last()),
            }
        }
    }

    /// The bytes that are taken from the bus in a run.
    pub open spec fn taken_in(self, reads: Seq<(Status, u8)>) -> Seq<u8>
        decreases reads.len(),
    {
        if reads.len() == 0 {
            Seq::empty()
        } else {
            match self.after_all(reads.drop_last()).op() {
                I2cOp::Receive => self.taken_in(reads.drop_last()).push(reads.last().1),
                _ => self.taken_in(reads.drop_last()),
            }
        }
    }

    /// The transactions that are started in a run.
    pub open spec fn started_in(self, reads: Seq<(Status, u8)>) -> Seq<Transfer>
        decreases reads.len(),
    {
        if reads.len() == 0 {
            Seq::empty()
        } else {
            match self.after_all(reads.drop_last()).op() {
                I2cOp::Start(transfer) => self.started_in(reads.drop_last()).push(transfer),
                _ => self.started_in(reads.drop_last()),
            }
        }
    }
}

/// A write under way, in one of its stages.
proof fn lemma_write(start: AccessState, reads: Seq<(Status, u8)>)
    requires
        start.wf(),
        start.stage is WriteStart,
    ensures
        ({
            let s = start.after_all(reads);
            let whole = Transfer {
                sadd: slave_field(start.device_address, 1),
                nbytes: (start.len + 1) as u8,
                read: false,
            };
            let sent = start.sent_in(reads);
            &&& s.wf()
            &&& s.device_address == start.device_address && s.mem_address == start.mem_address
            &&& s.outgoing == start.outgoing && s.len == start.len
            &&& start.taken_in(reads) == Seq::<u8>::empty()
            &&& match s.stage {
                Stage::WriteStart => s.sent == 0 && sent == Seq::<u8>::empty() && start.started_in(
                    reads,
                ) == Seq::<Transfer>::empty(),
                Stage::AddressWait | Stage::AddressSend => s.sent == 0 && sent == Seq::<
                    u8,
                >::empty() && start.started_in(reads) == seq![whole],
                Stage::DataWait | Stage::DataSend => sent == seq![start.mem_address]
                    + start.outgoing.take(s.sent as int) && start.started_in(reads) == seq![whole],
                Stage::Over(ok) => start.started_in(reads) == seq![whole] && (ok ==> sent == seq![
                    start.mem_address,
                ] + start.outgoing),
                _ => false,
            }
        }),
    decreases reads.len(),
{
    if reads.len() > 0 {
        let shorter = reads.drop_last();
        lemma_write(start, shorter);
        let s = start.after_all(shorter);
        law_access_ends(s, reads.last().0, reads.last().1);
        let sent = start.sent_in(reads);
        match s.stage {
            Stage::WriteStart => {
                assert(start.started_in(reads) =~= seq![
                    Transfer {
                        sadd: slave_field(start.device_address, 1),
                        nbytes: (start.len + 1) as u8,
                        read: false,
                    },
                ]);
            },
            Stage::AddressSend => {
                assert(sent =~= seq![start.mem_address] + start.outgoing.take(0));
                if s.len == 0 {
                    assert(start.outgoing.take(0) =~= start.outgoing);
                }
            },
            Stage::DataSend => {
                assert(sent =~= seq![start.mem_address] + start.outgoing.take(s.sent as int + 1));
                if s.sent + 1 == s.len {
                    assert(start.outgoing.take(s.sent as int + 1) =~= start.outgoing);
                }
            },
            _ => {},
        }
    }
}

/// A write that has succeeded has put the register and then all the bytes on the bus, in order and
/// once, in one transaction that announces them all.
pub proof fn law_write_sends_everything(start: AccessState, reads: Seq<(Status, u8)>)
    requires
        start.wf(),
        start.stage is WriteStart,
        start.after_all(reads).stage == Stage::Over(true),
    ensures
        start.sent_in(reads) == seq![start.mem_address] + start.outgoing,
        start.taken_in(reads) == Seq::<u8>::empty(),
        ({
            let started = start.started_in(reads);
            &&& started.len() == 1
            &&& started[0].sadd == 2 * start.device_address % 256 + 1
            &&& !started[0].read
            &&& start.len < 255 ==> started[0].nbytes == start.len + 1
        }),
{
    lemma_write(start, reads);
    law_slave_field(start.device_address);
}

/// A read under way, in one of its stages.
proof fn lemma_read(start: AccessState, reads: Seq<(Status, u8)>)
    requires
        start.wf(),
        start.stage is SelectStart,
    ensures
        ({
            let s = start.after_all(reads);
            let selection = Transfer {
                sadd: slave_field(start.device_address, 0),
                nbytes: 1,
                read: false,
            };
            let whole = Transfer {
                sadd: slave_field(start.device_address, 1),
                nbytes: start.len as u8,
                read: true,
            };
            let sent = start.sent_in(reads);
            let started = start.started_in(reads);
            &&& s.wf()
            &&& s.device_address == start.device_address && s.mem_address == start.mem_address
            &&& s.len == start.len
            &&& s.received == start.taken_in(reads)
            &&& match s.stage {
                Stage::SelectStart => sent == Seq::<u8>::empty() && started == Seq::<
                    Transfer,
                >::empty(),
                Stage::SelectWait | Stage::SelectSend => sent == Seq::<u8>::empty() && started
                    == seq![selection],
                Stage::SelectStopWait | Stage::SelectStopClear | Stage::ReadStart => sent == seq![
                    start.mem_address,
                ] && started == seq![selection],
                Stage::ReadWait | Stage::ReadTake => sent == seq![start.mem_address] && started
                    == seq![selection, whole],
                Stage::Over(ok) => ok ==> sent == seq![start.mem_address] && started == seq![
                    selection,
                    whole,
                ] && s.received.len() == s.len,
                Stage::Toggle | Stage::ForceStop | Stage::ForceStopWait | Stage::ClearErrors => true,
                _ => false,
            }
        }),
    decreases reads.len(),
{
    if reads.len() > 0 {
        let shorter = reads.drop_last();
        lemma_read(start, shorter);
        let s = start.after_all(shorter);
        law_access_ends(s, reads.last().0, reads.last().1);
        let selection = Transfer {
            sadd: slave_field(start.device_address, 0),
            nbytes: 1,
            read: false,
        };
        let whole = Transfer {
            sadd: slave_field(start.device_address, 1),
            nbytes: start.len as u8,
            read: true,
        };
        match s.stage {
            Stage::SelectStart => {
                assert(start.started_in(reads) =~= seq![selection]);
            },
            Stage::SelectSend => {
                assert(start.sent_in(reads) =~= seq![start.mem_address]);
            },
            Stage::ReadStart => {
                assert(start.started_in(reads) =~= seq![selection, whole]);
            },
            _ => {},
        }
    }
}

/// A read that has succeeded has put the register on the bus in a transaction of its own, and has
/// then taken as many bytes as were asked for in a second one; what it hands out is those bytes, in
/// order.
pub proof fn law_read_takes_what_was_asked_for(start: AccessState, reads: Seq<(Status, u8)>)
    requires
        start.wf(),
        start.stage is SelectStart,
        start.after_all(reads).stage == Stage::Over(true),
    ensures
        start.sent_in(reads) == seq![start.mem_address],
        start.after_all(reads).received == start.taken_in(reads),
        start.taken_in(reads).len() == start.len,
        ({
            let started = start.started_in(reads);
            &&& started.len() == 2
            &&& started[0].sadd == 2 * start.device_address % 256
            &&& started[0].nbytes == 1 && !started[0].read
            &&& started[1].sadd == 2 * start.device_address % 256 + 1
            &&& started[1].nbytes == start.len && started[1].read
        }),
{
    lemma_read(start, reads);
    law_slave_field(start.device_address);
}

/// Whether the status shows what is waited for: that a byte can be sent, that one has come, or that
/// the bus has been released; while a register is selected, a missing acknowledge counts too.
pub open spec fn has_come(stage: Stage, status: Status) -> bool {
    match stage {
        Stage::SelectWait => status.nackf || status.txis,
        Stage::SelectStopWait => status.nackf || status.stopf,
        Stage::ReadWait => status.rxne,
        Stage::AddressWait | Stage::DataWait => status.txis,
        Stage::ForceStopWait => status.stopf,
        _ => false,
    }
}

/// A wait looks at the status up to 80,000 times: it goes on as long as what it waits for has not
/// come and a look is left, whatever else the status shows, and every other step starts with all of
/// them.  Out of looks, a selection forces a STOP, and a transfer has failed.
pub proof fn law_waits_are_patient(s: AccessState, status: Status, byte: u8)
    requires
        s.wf(),
    ensures
        ({
            let t = s.after(status, byte);
            let gives_up = s.waits() && !has_come(s.stage, status) && s.polls_left <= 1;
            &&& s.waits() && !has_come(s.stage, status) && s.polls_left > 1 ==> t.stage == s.stage
            &&& s.waits() && has_come(s.stage, status) ==> t.stage != s.stage
            &&& s.waits() && t.stage == s.stage ==> t.polls_left == s.polls_left - 1
            &&& !s.waits() || t.stage != s.stage ==> t.polls_left == 80_000
            &&& gives_up && (s.stage is SelectWait || s.stage is SelectStopWait) ==> t.op()
                == I2cOp::ForceStop
            &&& gives_up && (s.stage is ReadWait || s.stage is AddressWait || s.stage is DataWait)
                ==> t.op() == I2cOp::Finished(false)
            &&& gives_up && s.stage is ForceStopWait ==> t.op() == I2cOp::ClearErrors
        }),
{
}

/// Whether an access has not failed so far.
pub open spec fn is_sound(s: AccessState) -> bool {
    match s.stage {
        Stage::Toggle | Stage::ForceStop | Stage::ForceStopWait | Stage::ClearErrors => false,
        Stage::Over(ok) => ok,
        _ => true,
    }
}

/// On a bus where whatever is waited for has come and the slave acknowledges, no access fails; since
/// every access comes to its end, it succeeds.
pub proof fn law_good_bus_serves_every_access(s: AccessState, status: Status, byte: u8)
    requires
        s.wf(),
        is_sound(s),
        !status.nackf,
        s.waits() ==> has_come(s.stage, status),
    ensures
        is_sound(s.after(status, byte)),
        s.after(status, byte).wf(),
        s.stage is Over || s.after(status, byte).rank() < s.rank(),
{
    law_access_ends(s, status, byte);
}

/// What a wait waits for takes it on: to the byte that is to be sent, or to be received, or to the
/// end of the selection.  Only a selection looks at whether the slave acknowledges.
pub proof fn law_flags_take_a_wait_on(s: AccessState, status: Status, byte: u8)
    requires
        s.wf(),
    ensures
        ({
            let next = s.after(status, byte).op();
            &&& s.stage is SelectWait && status.txis && !status.nackf ==> next == I2cOp::Send(
                s.mem_address,
            )
            &&& s.stage is SelectStopWait && status.stopf && !status.nackf ==> next
                == I2cOp::ClearStop
            &&& s.stage is ReadWait && status.rxne ==> next == I2cOp::Receive
            &&& s.stage is AddressWait && status.txis ==> next == I2cOp::Send(s.mem_address)
            &&& s.stage is DataWait && status.txis ==> next == I2cOp::Send(
                s.outgoing[s.sent as int],
            )
            &&& s.stage is ForceStopWait && status.stopf ==> next == I2cOp::ClearErrors
        }),
{
}

/// An access that gives up after a forced STOP has waited for the STOP and cleared the errors; one
/// that was not acknowledged has toggled the peripheral; and both have failed.
pub proof fn law_recovery_after_failure(s: AccessState, status: Status, byte: u8)
    requires
        s.wf(),
    ensures
        ({
            let next = s.after(status, byte).op();
            &&& s.stage is ForceStop ==> s.op() == I2cOp::ForceStop && next == I2cOp::ReadStatus
            &&& s.stage is ForceStopWait ==> next == I2cOp::ReadStatus || next
                == I2cOp::ClearErrors
            &&& s.stage is ClearErrors ==> s.op() == I2cOp::ClearErrors && next == I2cOp::Finished(
                false,
            )
            &&& s.stage is Toggle ==> s.op() == I2cOp::TogglePeripheral && next == I2cOp::Finished(
                false,
            )
            &&& s.stage is Over ==> next == s.op()
        }),
{
}

} // verus!
