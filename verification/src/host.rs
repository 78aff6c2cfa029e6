//! Bringing up the DWC3 USB host controller, and waiting for devices.
//!
//! The registers of the controller are read and written by the caller. Each
//! value here says which register comes next, and what to do with what was
//! read from it.
use vstd::prelude::*;

use crate::error::{kernel_code, VfsError};

verus! {

/// Kernel address of the registers of the controller.
pub const DWC3_BASE: u64 = 0xffff_9000_fc40_0000;

/// Physical address of the registers of the controller.
pub const DWC3_PHYS_BASE: u64 = 0xfc40_0000;

/// Size of the register area.
pub const DWC3_SIZE: u64 = 0x1_0000;

/// Offset of the operational registers.
pub const OPERATIONAL_OFFSET: u64 = 0x20;

/// Offset of the port registers in the operational registers.
pub const PORTSC_OFFSET: u64 = 0x400;

/// Distance of the registers of two ports.
pub const PORT_STRIDE: u64 = 0x10;

/// Offset of the first structural parameter register.
pub const HCSPARAMS1_OFFSET: u64 = 0x04;

/// Offset of the first capability parameter register.
pub const HCCPARAMS1_OFFSET: u64 = 0x10;

/// Identifier of the supported protocol capability.
pub const SUPPORTED_PROTOCOL: u32 = 2;

/// The port power bit of a port register.
pub const PORT_POWER: u32 = 0x200;

/// Offset of the status register of a port, counted from 0.
pub open spec fn portsc(port: int) -> int {
    OPERATIONAL_OFFSET + PORTSC_OFFSET + port * PORT_STRIDE
}

/// Offset of the status register of a port, counted from 0.
pub fn portsc_offset(port: u32) -> (r: u64)
    ensures
        r == portsc(port as int),
        r < 0x10_0000_0420,
{
    OPERATIONAL_OFFSET + PORTSC_OFFSET + port as u64 * PORT_STRIDE
}

/// The fields of a port register.
#[derive(Clone, Copy, Debug, PartialEq, Eq)]
pub struct PortStatus {
    pub connected: bool,
    pub enabled: bool,
    pub link_state: u32,
    pub powered: bool,
    pub speed: u32,
    pub connection_changed: bool,
}

impl PortStatus {
    /// The fields of a register: connection in bit 0, enable in bit 1, link
    /// state in bits 5 to 8, power in bit 9, speed in bits 10 to 13, change of
    /// the connection in bit 17.
    pub open spec fn of(value: u32) -> PortStatus {
        PortStatus {
            connected: value % 2 == 1,
            enabled: value / 0x2 % 2 == 1,
            link_state: value / 0x20 % 0x10,
            powered: value / 0x200 % 2 == 1,
            speed: value / 0x400 % 0x10,
            connection_changed: value / 0x2_0000 % 2 == 1,
        }
    }

    /// Takes a register apart.
    pub fn from_register(value: u32) -> (r: PortStatus)
        ensures
            r == PortStatus::of(value),
    {
        assert(value & 1 == value % 2) by (bit_vector);
        assert((value >> 1) & 1 == value / 0x2 % 2) by (bit_vector);
        assert((value >> 5) & 0xf == value / 0x20 % 0x10) by (bit_vector);
        assert((value >> 9) & 1 == value / 0x200 % 2) by (bit_vector);
        assert((value >> 10) & 0xf == value / 0x400 % 0x10) by (bit_vector);
        assert((value >> 17) & 1 == value / 0x2_0000 % 2) by (bit_vector);
        PortStatus {
            connected: value & 1 == 1,
            enabled: (value >> 1) & 1 == 1,
            link_state: (value >> 5) & 0xf,
            powered: (value >> 9) & 1 == 1,
            speed: (value >> 10) & 0xf,
            connection_changed: (value >> 17) & 1 == 1,
        }
    }
}

/// What to write to a port to give it power: its register with the power bit
/// set. Nothing is written to a port that has power, nor to one whose register
/// is zero: there is no such port.
pub open spec fn powered_up(value: u32) -> Option<u32> {
    if value == 0 || PortStatus::of(value).powered {
        None
    } else {
        Some((value + PORT_POWER) as u32)
    }
}

/// Finds what to write to a port to give it power.
pub fn power_up(value: u32) -> (r: Option<u32>)
    ensures
        r == powered_up(value),
{
    assert((value & (1u32 << 9)) == 0 <==> value / 0x200 % 2 == 0) by (bit_vector);
    assert((value & (1u32 << 9)) == 0 ==> (value | (1u32 << 9)) == value + 0x200) by (bit_vector);
    if value == 0 {
        return None;
    }
    if (value & (1u32 << 9)) == 0 {
        return Some(value | (1u32 << 9));
    }
    None
}

/// Giving power changes the power bit and nothing else, and is not repeated.
pub proof fn law_power_up_sets_only_the_power_bit(value: u32)
    requires
        powered_up(value) is Some,
    ensures
        PortStatus::of(powered_up(value)->0) == (PortStatus {
            powered: true,
            ..PortStatus::of(value)
        }),
        powered_up(powered_up(value)->0) is None,
{
    assert(value / 0x200 % 2 == 0 ==> (value + 0x200) % 2 == value % 2 && (value + 0x200) / 0x2 % 2
        == value / 0x2 % 2 && (value + 0x200) / 0x20 % 0x10 == value / 0x20 % 0x10 && (value
        + 0x200) / 0x200 % 2 == 1 && (value + 0x200) / 0x400 % 0x10 == value / 0x400 % 0x10 && (
    value + 0x200) / 0x2_0000 % 2 == value / 0x2_0000 % 2 && value + 0x200 < 0x1_0000_0000)
        by (bit_vector);
}

/// The ports that a supported protocol capability announces.
#[derive(Clone, Copy, Debug, PartialEq, Eq)]
pub struct SupportedProtocol {
    /// The protocol is USB 3, not USB 2.
    pub usb3: bool,
    pub revision: u32,
    pub first_port: u32,
    pub port_count: u32,
}

impl SupportedProtocol {
    /// What the header and the port word of a capability announce.
    pub open spec fn of(header: u32, ports: u32) -> SupportedProtocol {
        SupportedProtocol {
            usb3: header / 0x1_0000 >= 0x0300,
            revision: header / 0x1_0000,
            first_port: ports % 0x100,
            port_count: ports / 0x100 % 0x100,
        }
    }
}

/// What comes next in mapping device memory.
#[derive(Clone, Copy, Debug, PartialEq, Eq)]
pub enum Iomap {
    /// Map `size` bytes of physical memory from `paddr` on to the kernel addresses
    /// from `vaddr` on, as readable, writable device memory.
    MapRange { vaddr: u64, paddr: u64, size: u64 },
    /// Make the `size` bytes from `vaddr` on readable, writable device memory.
    ProtectRange { vaddr: u64, size: u64 },
    /// It is done: where the memory is mapped, or the code of the error.
    Done { result: Result<u64, i32> },
}

impl Iomap {
    /// What comes after a part, by its outcome. Memory that is mapped already
    /// is as good as memory that was mapped now; any other error ends it.
    pub open spec fn next(self, outcome: Result<(), i32>) -> Iomap {
        match self {
            Iomap::MapRange { vaddr, paddr, size } => match outcome {
                Err(code) if code != kernel_code(VfsError::AlreadyExists) => Iomap::Done {
                    result: Err(code),
                },
                _ => Iomap::ProtectRange { vaddr, size },
            },
            Iomap::ProtectRange { vaddr, size } => Iomap::Done {
                result: match outcome {
                    Ok(()) => Ok(vaddr),
                    Err(code) => Err(code),
                },
            },
            Iomap::Done { .. } => self,
        }
    }

    /// Starts to map `size` bytes of physical memory from `paddr` on to the kernel
    /// addresses from `vaddr` on.
    pub fn start(vaddr: u64, paddr: u64, size: u64) -> (r: Iomap)
        ensures
            r == (Iomap::MapRange { vaddr, paddr, size }),
    {
        Iomap::MapRange { vaddr, paddr, size }
    }

    /// Goes on after a part, by its outcome.
    pub fn step(&mut self, outcome: Result<(), i32>)
        ensures
            *final(self) == old(self).next(outcome),
    {
        match *self {
            Iomap::MapRange { vaddr, paddr: _, size } => {
                if let Err(code) = outcome {
                    if code != VfsError::AlreadyExists.code() {
                        *self = Iomap::Done { result: Err(code) };
                        return;
                    }
                }
                *self = Iomap::ProtectRange { vaddr, size };
            },
            Iomap::ProtectRange { vaddr, size: _ } => {
                *self = Iomap::Done {
                    result: match outcome {
                        Ok(()) => Ok(vaddr),
                        Err(code) => Err(code),
                    },
                };
            },
            Iomap::Done { .. } => {},
        }
    }
}

/// What mapping device memory comes to, by the outcomes of its parts.
pub open spec fn iomap_result(
    start: Iomap,
    mapped: Result<(), i32>,
    protected: Result<(), i32>,
) -> Result<u64, i32> {
    start.next(mapped).next(protected)->Done_result
}

/// Device memory is mapped exactly when its range is, now or before, and the same
/// range could be made device memory; it is then found where it was to be mapped.
/// Otherwise the first error that counts is given back.
pub proof fn law_iomap_succeeds(
    vaddr: u64,
    paddr: u64,
    size: u64,
    mapped: Result<(), i32>,
    protected: Result<(), i32>,
)
    ensures
        ({
            let start = Iomap::MapRange { vaddr, paddr, size };
            let there = mapped is Ok || mapped == Err::<(), i32>(
                kernel_code(VfsError::AlreadyExists),
            );
            &&& there ==> start.next(mapped) == (Iomap::ProtectRange { vaddr, size })
            &&& start.next(mapped).next(protected) is Done
            &&& iomap_result(start, mapped, protected) == if !there {
                Err(mapped->Err_0)
            } else {
                match protected {
                    Ok(()) => Ok(vaddr),
                    Err(code) => Err(code),
                }
            }
        }),
{
}

/// What the controller needs next while it is brought up: first its list of
/// extended capabilities is read, then its ports get power.
#[derive(Clone, Copy, Debug, PartialEq, Eq)]
pub enum BringUp {
    /// Read where the list of capabilities starts.
    CapabilityList,
    /// Read the header of the capability `offset` words into the registers.
    CapabilityHeader { offset: u32 },
    /// Read which ports the protocol capability announces.
    ProtocolPorts { offset: u32, header: u32 },
    /// Read the number of ports.
    PortCount,
    /// Read the register of a port.
    Port { port: u32, count: u32 },
    /// Write the register of a port.
    PowerPort { port: u32, count: u32, value: u32 },
    /// The controller is up.
    Done,
}

/// An access to a register.
#[derive(Clone, Copy, Debug, PartialEq, Eq)]
pub enum RegisterAccess {
    Read { addr: u64 },
    Write { addr: u64, value: u32 },
}

impl BringUp {
    /// The access that is needed.
    pub open spec fn needs(self) -> Option<RegisterAccess> {
        match self {
            BringUp::CapabilityList => Some(
                RegisterAccess::Read { addr: (DWC3_BASE + HCCPARAMS1_OFFSET) as u64 },
            ),
            BringUp::CapabilityHeader { offset } => Some(
                RegisterAccess::Read { addr: (DWC3_BASE + 4 * offset) as u64 },
            ),
            BringUp::ProtocolPorts { offset, header } => Some(
                RegisterAccess::Read { addr: (DWC3_BASE + 4 * offset + 8) as u64 },
            ),
            BringUp::PortCount => Some(
                RegisterAccess::Read { addr: (DWC3_BASE + HCSPARAMS1_OFFSET) as u64 },
            ),
            BringUp::Port { port, count } => Some(
                RegisterAccess::Read { addr: (DWC3_BASE + portsc(port as int)) as u64 },
            ),
            BringUp::PowerPort { port, count, value } => Some(
                RegisterAccess::Write { addr: (DWC3_BASE + portsc(port as int)) as u64, value },
            ),
            BringUp::Done => None,
        }
    }

    /// Whether what is needed is a read.
    pub open spec fn reads(self) -> bool {
        self.needs() matches Some(RegisterAccess::Read { .. })
    }

    /// Whether what is needed is a write.
    pub open spec fn writes(self) -> bool {
        self.needs() matches Some(RegisterAccess::Write { .. })
    }

    /// There are at most 255 ports.
    pub open spec fn valid(self) -> bool {
        match self {
            BringUp::Port { port, count } => port < count <= 0xff,
            BringUp::PowerPort { port, count, value } => port < count <= 0xff,
            _ => true,
        }
    }

    /// The capability at `offset`, or the ports where there is none.
    pub open spec fn at_capability(offset: u32) -> BringUp {
        if offset == 0 {
            BringUp::PortCount
        } else {
            BringUp::CapabilityHeader { offset }
        }
    }

    /// The capability after the one at `offset`, whose header says how many
    /// words on it stands; zero ends the list.
    pub open spec fn after_capability(offset: u32, header: u32) -> BringUp {
        if header / 0x100 % 0x100 == 0 {
            BringUp::PortCount
        } else {
            BringUp::CapabilityHeader { offset: (offset + header / 0x100 % 0x100) as u32 }
        }
    }

    /// A port, or the end where there is none left.
    pub open spec fn at_port(port: int, count: u32) -> BringUp {
        if port < count {
            BringUp::Port { port: port as u32, count }
        } else {
            BringUp::Done
        }
    }

    /// What comes after a read that found `value`.
    pub open spec fn after_read(self, value: u32) -> BringUp {
        match self {
            BringUp::CapabilityList => BringUp::at_capability(value / 0x1_0000),
            BringUp::CapabilityHeader { offset } => if value % 0x100 == SUPPORTED_PROTOCOL {
                BringUp::ProtocolPorts { offset, header: value }
            } else {
                BringUp::after_capability(offset, value)
            },
            BringUp::ProtocolPorts { offset, header } => BringUp::after_capability(
                offset,
                header,
            ),
            BringUp::PortCount => BringUp::at_port(0, value % 0x100),
            BringUp::Port { port, count } => match powered_up(value) {
                Some(value) => BringUp::PowerPort { port, count, value },
                None => BringUp::at_port(port + 1, count),
            },
            _ => self,
        }
    }

    /// What comes after a write.
    pub open spec fn after_write(self) -> BringUp {
        match self {
            BringUp::PowerPort { port, count, value } => BringUp::at_port(port + 1, count),
            _ => self,
        }
    }

    /// What a read that found `value` tells about the protocols.
    pub open spec fn announces(self, value: u32) -> Option<SupportedProtocol> {
        match self {
            BringUp::ProtocolPorts { offset, header } => Some(
                SupportedProtocol::of(header, value),
            ),
            _ => None,
        }
    }

    /// Whether a read that finds `value` can be gone on from: the offset of the
    /// next capability, if it comes next, fits into 32 bits.
    pub open spec fn can_go_on(self, value: u32) -> bool {
        match self {
            BringUp::CapabilityHeader { offset } => value % 0x100 != SUPPORTED_PROTOCOL ==> offset
                + value / 0x100 % 0x100 <= u32::MAX,
            BringUp::ProtocolPorts { offset, header } => offset + header / 0x100 % 0x100
                <= u32::MAX,
            _ => true,
        }
    }

    /// The first thing that the controller needs.
    pub fn start() -> (r: BringUp)
        ensures
            r == BringUp::CapabilityList,
    {
        BringUp::CapabilityList
    }

    /// Finds the access that is needed.
    pub fn access(&self) -> (r: Option<RegisterAccess>)
        ensures
            r == self.needs(),
    {
        match *self {
            BringUp::CapabilityList => Some(
                RegisterAccess::Read { addr: DWC3_BASE + HCCPARAMS1_OFFSET },
            ),
            BringUp::CapabilityHeader { offset } => Some(
                RegisterAccess::Read { addr: DWC3_BASE + 4 * offset as u64 },
            ),
            BringUp::ProtocolPorts { offset, header: _ } => Some(
                RegisterAccess::Read { addr: DWC3_BASE + 4 * offset as u64 + 8 },
            ),
            BringUp::PortCount => Some(
                RegisterAccess::Read { addr: DWC3_BASE + HCSPARAMS1_OFFSET },
            ),
            BringUp::Port { port, count: _ } => Some(
                RegisterAccess::Read { addr: DWC3_BASE + portsc_offset(port) },
            ),
            BringUp::PowerPort { port, count: _, value } => Some(
                RegisterAccess::Write { addr: DWC3_BASE + portsc_offset(port), value },
            ),
            BringUp::Done => None,
        }
    }

    /// Whether a read that finds `value` can be gone on from.
    pub fn list_can_go_on(&self, value: u32) -> (r: bool)
        ensures
            r == self.can_go_on(value),
    {
        match *self {
            BringUp::CapabilityHeader { offset } => value % 0x100 == SUPPORTED_PROTOCOL || offset
                <= u32::MAX - value / 0x100 % 0x100,
            BringUp::ProtocolPorts { offset, header } => offset <= u32::MAX - header / 0x100
                % 0x100,
            _ => true,
        }
    }

    /// Goes on after a read, and says what it tells about the protocols.
    pub fn step_read(&mut self, value: u32) -> (r: Option<SupportedProtocol>)
        requires
            old(self).valid(),
            old(self).reads(),
            old(self).can_go_on(value),
        ensures
            *final(self) == old(self).after_read(value),
            r == old(self).announces(value),
            final(self).valid(),
    {
        assert((value >> 16) & 0xffff == value / 0x1_0000) by (bit_vector);
        assert(value & 0xff == value % 0x100) by (bit_vector);
        assert((value >> 8) & 0xff == value / 0x100 % 0x100) by (bit_vector);
        match *self {
            BringUp::CapabilityList => {
                let xecp: u32 = (value >> 16) & 0xffff;
                *self = if xecp == 0 {
                    BringUp::PortCount
                } else {
                    BringUp::CapabilityHeader { offset: xecp }
                };
                None
            },
            BringUp::CapabilityHeader { offset } => {
                let cap_id: u32 = value & 0xff;
                *self = if cap_id == SUPPORTED_PROTOCOL {
                    BringUp::ProtocolPorts { offset, header: value }
                } else {
                    next_capability(offset, value)
                };
                None
            },
            BringUp::ProtocolPorts { offset, header } => {
                let revision: u32 = header / 0x1_0000;
                *self = next_capability(offset, header);
                Some(
                    SupportedProtocol {
                        usb3: revision >= 0x0300,
                        revision,
                        first_port: value & 0xff,
                        port_count: (value >> 8) & 0xff,
                    },
                )
            },
            BringUp::PortCount => {
                let max_ports: u32 = value & 0xff;
                *self = next_port(0, max_ports);
                None
            },
            BringUp::Port { port, count } => {
                *self = match power_up(value) {
                    Some(value) => BringUp::PowerPort { port, count, value },
                    None => next_port(port + 1, count),
                };
                None
            },
            _ => None,
        }
    }

    /// Goes on after a write.
    pub fn step_write(&mut self)
        requires
            old(self).valid(),
            old(self).writes(),
        ensures
            *final(self) == old(self).after_write(),
            final(self).valid(),
    {
        if let BringUp::PowerPort { port, count, value: _ } = *self {
            *self = next_port(port + 1, count);
        }
    }
}

/// Finds the capability after the one at `offset`.
fn next_capability(offset: u32, header: u32) -> (r: BringUp)
    requires
        offset + header / 0x100 % 0x100 <= u32::MAX,
    ensures
        r == BringUp::after_capability(offset, header),
        r.valid(),
{
    assert((header >> 8) & 0xff == header / 0x100 % 0x100) by (bit_vector);
    let next_ptr: u32 = (header >> 8) & 0xff;
    if next_ptr == 0 {
        return BringUp::PortCount;
    }
    BringUp::CapabilityHeader { offset: offset + next_ptr }
}

/// Finds a port, or the end where there is none left.
fn next_port(port: u32, count: u32) -> (r: BringUp)
    requires
        count <= 0xff,
    ensures
        r == BringUp::at_port(port as int, count),
        r.valid(),
{
    if port < count {
        BringUp::Port { port, count }
    } else {
        BringUp::Done
    }
}

/// The capability list is walked forward, so it is never read in a circle.
pub proof fn law_capability_list_moves_forward(offset: u32, header: u32)
    requires
        offset + header / 0x100 % 0x100 <= u32::MAX,
    ensures
        BringUp::after_capability(offset, header) matches BringUp::CapabilityHeader {
            offset: next,
        } ==> next > offset,
{
}

/// A bound on the accesses that are still to come.
pub open spec fn accesses_left(state: BringUp) -> int {
    match state {
        BringUp::CapabilityList => 514 + 2 * u32::MAX,
        BringUp::CapabilityHeader { offset } => 513 + 2 * (u32::MAX - offset),
        BringUp::ProtocolPorts { offset, header } => 512 + 2 * (u32::MAX - offset),
        BringUp::PortCount => 511,
        BringUp::Port { port, count } => 2 * (count - port),
        BringUp::PowerPort { port, count, value } => 2 * (count - port) - 1,
        BringUp::Done => 0,
    }
}

/// Bringing the controller up ends, whatever its registers hold: every access
/// leaves fewer to come, and when there are none left, it is up.
pub proof fn law_bring_up_ends(state: BringUp, value: u32)
    requires
        state.valid(),
    ensures
        accesses_left(state) >= 0,
        accesses_left(state) == 0 <==> state.needs() is None,
        state.reads() && state.can_go_on(value) ==> accesses_left(state.after_read(value))
            < accesses_left(state),
        state.writes() ==> accesses_left(state.after_write()) < accesses_left(state),
{
}

/// Whether bringing the controller up goes on to the end from `state`, where the
/// register at `addr` holds `registers(addr)`: the capability list does not leave
/// its range.
pub open spec fn goes_through(state: BringUp, registers: spec_fn(u64) -> u32) -> bool
    decreases accesses_left(state),
{
    match state.needs() {
        None => true,
        Some(RegisterAccess::Read { addr }) => {
            let value = registers(addr);
            &&& state.valid()
            &&& state.can_go_on(value)
            &&& goes_through(state.after_read(value), registers)
        },
        Some(RegisterAccess::Write { .. }) => state.valid() && goes_through(
            state.after_write(),
            registers,
        ),
    }
}

/// What is written from `state` on until the controller is up, where the
/// register at `addr` holds `registers(addr)` when it is read.
pub open spec fn register_writes(
    state: BringUp,
    registers: spec_fn(u64) -> u32,
) -> Seq<RegisterAccess>
    decreases accesses_left(state),
{
    match state.needs() {
        None => Seq::empty(),
        Some(RegisterAccess::Read { addr }) => {
            let value = registers(addr);
            if state.valid() && state.can_go_on(value) {
                register_writes(state.after_read(value), registers)
            } else {
                Seq::empty()
            }
        },
        Some(write) => if state.valid() {
            seq![write] + register_writes(state.after_write(), registers)
        } else {
            Seq::empty()
        },
    }
}

/// The registers of the ports, as many as the controller says that it has.
pub open spec fn port_registers(registers: spec_fn(u64) -> u32) -> Seq<u32> {
    Seq::new(
        (registers((DWC3_BASE + HCSPARAMS1_OFFSET) as u64) % 0x100) as nat,
        |port: int| registers((DWC3_BASE + portsc(port)) as u64),
    )
}

/// The writes that give power to the ports from `port` on.
pub open spec fn power_writes(ports: Seq<u32>, port: int) -> Seq<RegisterAccess>
    decreases ports.len() - port,
{
    if port < 0 || port >= ports.len() {
        Seq::empty()
    } else {
        match powered_up(ports[port]) {
            Some(value) => seq![
                RegisterAccess::Write { addr: (DWC3_BASE + portsc(port)) as u64, value },
            ] + power_writes(ports, port + 1),
            None => power_writes(ports, port + 1),
        }
    }
}

/// Every port that is there and has no power gets it, in the order of the
/// ports, and nothing else is written while the controller is brought up,
/// whatever capabilities it has.
pub proof fn law_all_ports_get_power(registers: spec_fn(u64) -> u32)
    requires
        goes_through(BringUp::CapabilityList, registers),
    ensures
        register_writes(BringUp::CapabilityList, registers) == power_writes(
            port_registers(registers),
            0,
        ),
{
    lemma_capabilities_write_nothing(BringUp::CapabilityList, registers);
}

/// Reading the capability list writes nothing.
proof fn lemma_capabilities_write_nothing(state: BringUp, registers: spec_fn(u64) -> u32)
    requires
        state.valid(),
        goes_through(state, registers),
        match state {
            BringUp::CapabilityList => true,
            BringUp::CapabilityHeader { .. } => true,
            BringUp::ProtocolPorts { .. } => true,
            BringUp::PortCount => true,
            _ => false,
        },
    ensures
        register_writes(state, registers) == power_writes(port_registers(registers), 0),
    decreases accesses_left(state),
{
    let value = registers(state.needs()->0->Read_addr);
    let next = state.after_read(value);
    assert(register_writes(state, registers) == register_writes(next, registers));
    if state == BringUp::PortCount {
        lemma_ports_get_power(registers, 0);
    } else {
        lemma_capabilities_write_nothing(next, registers);
    }
}

/// The ports from `port` on get power.
proof fn lemma_ports_get_power(registers: spec_fn(u64) -> u32, port: int)
    requires
        0 <= port <= port_registers(registers).len(),
    ensures
        register_writes(
            BringUp::at_port(port, port_registers(registers).len() as u32),
            registers,
        ) == power_writes(port_registers(registers), port),
    decreases port_registers(registers).len() - port,
{
    let ports = port_registers(registers);
    let count = ports.len() as u32;
    if port < ports.len() {
        let state = BringUp::at_port(port, count);
        let next = state.after_read(ports[port]);
        assert(state.valid());
        assert(register_writes(state, registers) == register_writes(next, registers));
        lemma_ports_get_power(registers, port + 1);
        if let Some(value) = powered_up(ports[port]) {
            assert(next == BringUp::PowerPort { port: port as u32, count, value });
            assert(next.after_write() == BringUp::at_port(port + 1, count));
        }
    }
}

/// How often the ports are looked at before nothing is connected.
pub const POLL_ROUNDS: u32 = 50;

/// How long to sleep between two looks, and before the devices are probed.
pub const POLL_INTERVAL_MS: u64 = 200;

/// How many ports are looked at.
pub const POLL_PORTS: usize = 4;

/// Whether a device is connected to one of the ports.
pub open spec fn any_connected(ports: Seq<u32>) -> bool {
    exists|i: int| 0 <= i < ports.len() && PortStatus::of(#[trigger] ports[i]).connected
}

/// Whether a look at the port registers found a device. Where the registers
/// could not be mapped, it found none.
pub open spec fn sees_device(look: Option<Seq<u32>>) -> bool {
    match look {
        Some(ports) => any_connected(ports),
        None => false,
    }
}

/// What comes next in the wait for a device to be connected.
#[derive(Clone, Copy, Debug, PartialEq, Eq)]
pub enum ConnectionPoll {
    /// Look at the ports; there are `left` looks left, this one counted.
    Look { left: u32 },
    /// Sleep, as no device was seen; there are `left` looks left.
    Sleep { left: u32 },
    /// Sleep once more before the devices are probed, so that they settle.
    Settle { connected: bool },
    /// Probe the devices.
    Probe { connected: bool },
}

impl ConnectionPoll {
    /// Whether to look.
    pub open spec fn looks(self) -> bool {
        self matches ConnectionPoll::Look { left } && left > 0
    }

    /// Whether to sleep.
    pub open spec fn sleeps(self) -> bool {
        self is Sleep || self is Settle
    }

    /// What comes after a look.
    pub open spec fn after_look(self, look: Option<Seq<u32>>) -> ConnectionPoll {
        if sees_device(look) {
            ConnectionPoll::Settle { connected: true }
        } else {
            ConnectionPoll::Sleep { left: (self->Look_left - 1) as u32 }
        }
    }

    /// What comes after a sleep.
    pub open spec fn after_sleep(self) -> ConnectionPoll {
        match self {
            ConnectionPoll::Sleep { left } => if left > 0 {
                ConnectionPoll::Look { left }
            } else {
                ConnectionPoll::Settle { connected: false }
            },
            ConnectionPoll::Settle { connected } => ConnectionPoll::Probe { connected },
            _ => self,
        }
    }

    /// A wait in which there was no look yet.
    pub fn new() -> (r: ConnectionPoll)
        ensures
            r == (ConnectionPoll::Look { left: POLL_ROUNDS }),
    {
        ConnectionPoll::Look { left: POLL_ROUNDS }
    }

    /// Goes on after a look at the ports, or after there was none for want of a
    /// mapping.
    pub fn look(&mut self, ports: Option<[u32; 4]>)
        requires
            old(self).looks(),
        ensures
            *final(self) == old(self).after_look(
                match ports {
                    Some(ports) => Some(ports@),
                    None => None,
                },
            ),
    {
        let mut connected: bool = false;
        if let Some(ports) = ports {
            for port in 0..POLL_PORTS
                invariant
                    connected == exists|i: int|
                        0 <= i < port && PortStatus::of(#[trigger] ports@[i]).connected,
            {
                let status = PortStatus::from_register(ports[port]);
                if status.connected {
                    connected = true;
                }
                assert(PortStatus::of(ports@[port as int]) == status);
            }
            assert(connected == any_connected(ports@));
        }
        if connected {
            *self = ConnectionPoll::Settle { connected: true };
        } else if let ConnectionPoll::Look { left } = *self {
            *self = ConnectionPoll::Sleep { left: left - 1 };
        }
    }

    /// Goes on after a sleep.
    pub fn slept(&mut self)
        requires
            old(self).sleeps(),
        ensures
            *final(self) == old(self).after_sleep(),
    {
        match *self {
            ConnectionPoll::Sleep { left } => {
                *self = if left > 0 {
                    ConnectionPoll::Look { left }
                } else {
                    ConnectionPoll::Settle { connected: false }
                };
            },
            ConnectionPoll::Settle { connected } => {
                *self = ConnectionPoll::Probe { connected };
            },
            _ => {},
        }
    }
}

/// What a whole wait comes to: how many looks and sleeps it has, and whether a
/// device was seen.
#[verifier::ext_equal]
pub struct PollOutcome {
    pub looks: nat,
    pub sleeps: nat,
    pub connected: bool,
}

/// The wait from a state on, where the looks to come find `looks`, one after the
/// other.
pub open spec fn poll_outcome(poll: ConnectionPoll, looks: Seq<Option<Seq<u32>>>) -> PollOutcome
    decreases
            looks.len(),
            match poll {
                ConnectionPoll::Sleep { .. } => 3nat,
                ConnectionPoll::Look { .. } => 2,
                ConnectionPoll::Settle { .. } => 1,
                ConnectionPoll::Probe { .. } => 0,
            },
{
    match poll {
        ConnectionPoll::Probe { connected } => PollOutcome { looks: 0, sleeps: 0, connected },
        ConnectionPoll::Look { left } => if looks.len() == 0 {
            PollOutcome { looks: 0, sleeps: 0, connected: false }
        } else {
            let rest = poll_outcome(poll.after_look(looks[0]), looks.skip(1));
            PollOutcome { looks: rest.looks + 1, ..rest }
        },
        _ => {
            let rest = poll_outcome(poll.after_sleep(), looks);
            PollOutcome { sleeps: rest.sleeps + 1, ..rest }
        },
    }
}

/// The wait ends with the first look that sees a device, and then knows it; where
/// none does, it ends after as many looks as it has. It sleeps after each look
/// that sees no device, and once more at the end.
pub proof fn law_poll_ends_at_first_device(left: u32, looks: Seq<Option<Seq<u32>>>)
    requires
        left > 0,
        looks.len() == left,
    ensures
        ({
            let outcome = poll_outcome(ConnectionPoll::Look { left }, looks);
            &&& outcome.connected <==> exists|i: int|
                0 <= i < looks.len() && sees_device(#[trigger] looks[i])
            &&& outcome.connected ==> {
                &&& 1 <= outcome.looks <= left
                &&& sees_device(looks[outcome.looks - 1])
                &&& forall|i: int|
                    0 <= i < outcome.looks - 1 ==> !sees_device(#[trigger] looks[i])
                &&& outcome.sleeps == outcome.looks
            }
            &&& !outcome.connected ==> outcome.looks == left && outcome.sleeps == left + 1
        }),
    decreases left,
{
    let poll = ConnectionPoll::Look { left };
    let next = poll.after_look(looks[0]);
    let rest = looks.skip(1);
    reveal_with_fuel(poll_outcome, 4);
    if !sees_device(looks[0]) && left > 1 {
        let then = ConnectionPoll::Look { left: (left - 1) as u32 };
        assert(next.after_sleep() == then);
        law_poll_ends_at_first_device((left - 1) as u32, rest);
        let end = poll_outcome(then, rest);
        let outcome = poll_outcome(poll, looks);
        assert(outcome == PollOutcome { looks: end.looks + 1, sleeps: end.sleeps + 1, ..end });
        if exists|i: int| 0 <= i < looks.len() && sees_device(#[trigger] looks[i]) {
            let i = choose|i: int| 0 <= i < looks.len() && sees_device(#[trigger] looks[i]);
            assert(rest[i - 1] == looks[i]);
        }
        if end.connected {
            assert(rest[end.looks - 1] == looks[outcome.looks - 1]);
            assert forall|i: int| 0 <= i < outcome.looks - 1 implies !sees_device(
                #[trigger] looks[i],
            ) by {
                if i > 0 {
                    assert(rest[i - 1] == looks[i]);
                }
            }
        }
    }
}

/// A wait from its start on sleeps at most as often as it looks, and once more; it
/// takes ten seconds at most before the devices settle.
pub proof fn law_poll_time(looks: Seq<Option<Seq<u32>>>)
    requires
        looks.len() == POLL_ROUNDS,
    ensures
        ({
            let outcome = poll_outcome(ConnectionPoll::Look { left: POLL_ROUNDS }, looks);
            &&& 1 <= outcome.sleeps <= POLL_ROUNDS + 1
            &&& (outcome.sleeps - 1) * POLL_INTERVAL_MS <= 10_000
            &&& !outcome.connected ==> outcome.sleeps == POLL_ROUNDS + 1
        }),
{
    law_poll_ends_at_first_device(POLL_ROUNDS, looks);
}

} // verus!
