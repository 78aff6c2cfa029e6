//! What holds of the registers of the host controller, bit by bit.
use vstd::prelude::*;

use crate::host::{
    any_connected, goes_through, law_all_ports_get_power, port_registers, power_writes,
    powered_up, register_writes, sees_device, BringUp, PortStatus, RegisterAccess,
    SupportedProtocol, DWC3_BASE, DWC3_PHYS_BASE, DWC3_SIZE, HCCPARAMS1_OFFSET,
    HCSPARAMS1_OFFSET, POLL_INTERVAL_MS, POLL_ROUNDS,
};

verus! {

/// Each field of a port register is a field of its bits, and no other bit has a
/// part in it.
pub proof fn law_port_status_bits(value: u32)
    ensures
        ({
            let status = PortStatus::of(value);
            &&& status.connected <==> value & 0x1 != 0
            &&& status.enabled <==> value & 0x2 != 0
            &&& status.link_state << 5 == value & 0x1e0
            &&& status.powered <==> value & 0x200 != 0
            &&& status.speed << 10 == value & 0x3c00
            &&& status.connection_changed <==> value & 0x2_0000 != 0
        }),
{
    assert((value % 2 == 1 <==> value & 0x1 != 0) && (value / 0x2 % 2 == 1 <==> value & 0x2 != 0)
        && (value / 0x20 % 0x10) << 5 == value & 0x1e0 && (value / 0x200 % 2 == 1 <==> value
        & 0x200 != 0) && (value / 0x400 % 0x10) << 10 == value & 0x3c00 && (value / 0x2_0000 % 2
        == 1 <==> value & 0x2_0000 != 0)) by (bit_vector);
}

/// A port gets power exactly when its register is not zero and its power bit is
/// clear, whatever the other bits are. What is written is the register with the
/// power bit set.
pub proof fn law_power_bit(value: u32)
    ensures
        powered_up(value) is Some <==> value != 0 && value & 0x200 == 0,
        powered_up(value) matches Some(written) ==> written == value | 0x200,
{
    assert((value / 0x200 % 2 == 1 <==> value & 0x200 != 0) && (value & 0x200 == 0 ==> value
        | 0x200 == value + 0x200)) by (bit_vector);
}

/// A register that is not zero and has no power differs from what is written to it
/// in the power bit alone. Two registers that differ in the power bit alone are
/// left with the same value.
pub proof fn law_power_up_is_the_same_with_or_without_power(value: u32)
    requires
        value & !0x200u32 != 0,
    ensures
        ({
            let off = value & !0x200u32;
            let on = value | 0x200;
            &&& powered_up(off) == Some(on)
            &&& powered_up(on) is None
        }),
{
    let off = value & !0x200u32;
    let on = value | 0x200;
    law_power_bit(off);
    law_power_bit(on);
    assert((value & !0x200u32) & 0x200 == 0 && (value | 0x200) & 0x200 != 0 && (value & !0x200u32)
        | 0x200 == value | 0x200) by (bit_vector);
}

/// A look sees a device exactly when one of the port registers is odd, whatever the
/// other bits are; without a mapping it sees none.
pub proof fn law_device_is_seen_by_the_lowest_bit(look: Option<Seq<u32>>)
    ensures
        sees_device(look) <==> (look matches Some(ports) && exists|i: int|
            0 <= i < ports.len() && #[trigger] ports[i] & 1 == 1),
{
    if let Some(ports) = look {
        assert forall|i: int| 0 <= i < ports.len() implies PortStatus::of(
            #[trigger] ports[i],
        ).connected == (ports[i] & 1 == 1) by {
            let value = ports[i];
            assert(value % 2 == 1 <==> value & 1 == 1) by (bit_vector);
        }
        if any_connected(ports) {
            let i = choose|i: int|
                0 <= i < ports.len() && PortStatus::of(#[trigger] ports[i]).connected;
            assert(ports[i] & 1 == 1);
        }
        if exists|i: int| 0 <= i < ports.len() && #[trigger] ports[i] & 1 == 1 {
            let i = choose|i: int| 0 <= i < ports.len() && #[trigger] ports[i] & 1 == 1;
            assert(PortStatus::of(ports[i]).connected);
        }
    }
}

/// A device that is seen stays seen, whatever else changes at the ports, as long as
/// its port stays connected; two looks at the same connections see the same.
pub proof fn law_looks_differ_only_by_connections(first: Seq<u32>, second: Seq<u32>)
    requires
        first.len() == second.len(),
        forall|i: int| 0 <= i < first.len() ==> #[trigger] first[i] % 2 == second[i] % 2,
    ensures
        sees_device(Some(first)) == sees_device(Some(second)),
{
    if any_connected(first) {
        let i = choose|i: int| 0 <= i < first.len() && PortStatus::of(#[trigger] first[i]).connected;
        assert(first[i] % 2 == second[i] % 2);
        assert(PortStatus::of(second[i]).connected);
    }
    if any_connected(second) {
        let i = choose|i: int|
            0 <= i < second.len() && PortStatus::of(#[trigger] second[i]).connected;
        assert(first[i] % 2 == second[i] % 2);
        assert(PortStatus::of(first[i]).connected);
    }
}

/// The two words of a protocol capability hold the revision in the upper half of
/// the first, the first port in the lowest byte of the second, and the number of
/// ports in the byte above. Revision 3 and up is USB 3.
pub proof fn law_supported_protocol_bits(header: u32, ports: u32)
    ensures
        ({
            let protocol = SupportedProtocol::of(header, ports);
            &&& protocol.revision << 16 == header & 0xffff_0000
            &&& protocol.revision <= 0xffff
            &&& protocol.first_port == ports & 0xff
            &&& protocol.port_count << 8 == ports & 0xff00
            &&& protocol.port_count <= 0xff
            &&& protocol.usb3 <==> header >= 0x0300_0000
        }),
{
    assert((header / 0x1_0000) << 16 == header & 0xffff_0000 && header / 0x1_0000 <= 0xffff && ports
        % 0x100 == ports & 0xff && (ports / 0x100 % 0x100) << 8 == ports & 0xff00 && ports / 0x100
        % 0x100 <= 0xff && (header / 0x1_0000 >= 0x0300 <==> header >= 0x0300_0000))
        by (bit_vector);
}

/// The kernel address of the registers ends in their physical address, and the
/// registers of all ports that there can be lie in the register area, one after
/// the other and clear of the parameter registers.
pub proof fn law_registers_lie_in_their_area(port: u32, count: u32)
    requires
        port < count <= 0xff,
    ensures
        DWC3_BASE % 0x1_0000_0000 == DWC3_PHYS_BASE,
        DWC3_BASE == 0xffff_9000_fc40_0000,
        DWC3_SIZE == 0x1_0000,
        HCCPARAMS1_OFFSET == 0x10,
        HCSPARAMS1_OFFSET == 0x04,
        (BringUp::Port { port, count }).needs() == Some(
            RegisterAccess::Read { addr: (0xffff_9000_fc40_0420 + 16 * port) as u64 },
        ),
        0xffff_9000_fc40_0420 + 16 * port + 4 <= DWC3_BASE + DWC3_SIZE,
        forall|value: u32|
            (#[trigger] BringUp::PowerPort { port, count, value }.needs()) == Some(
                RegisterAccess::Write {
                    addr: (0xffff_9000_fc40_0420 + 16 * port) as u64,
                    value,
                },
            ),
{
}

/// The first look for capabilities goes by the upper half of the first parameter
/// register, the lower half has no part in it.
pub proof fn law_capability_list_starts(value: u32)
    ensures
        BringUp::CapabilityList.needs() == Some(
            RegisterAccess::Read { addr: 0xffff_9000_fc40_0010 },
        ),
        BringUp::CapabilityList.can_go_on(value),
        ({
            let next = BringUp::CapabilityList.after_read(value);
            if value <= 0xffff {
                next == BringUp::PortCount
            } else {
                next matches BringUp::CapabilityHeader { offset } && offset << 16 == value
                    & 0xffff_0000 && offset <= 0xffff
            }
        }),
{
    assert((value / 0x1_0000 == 0 <==> value <= 0xffff) && (value / 0x1_0000) << 16 == value
        & 0xffff_0000 && value / 0x1_0000 <= 0xffff) by (bit_vector);
}

/// How far on the next capability stands, by the second byte of a header.
pub open spec fn distance(header: u32) -> u32 {
    (header >> 8) & 0xff
}

/// The capabilities are walked one by one. Whatever a capability is, the walk goes
/// on by the second byte of its header, and to the ports where that is zero. The
/// two words of a protocol capability are both read, those of another are not.
pub proof fn law_capability_walk(offset: u32, header: u32, ports: u32)
    requires
        offset + distance(header) <= u32::MAX,
    ensures
        ({
            let at = BringUp::CapabilityHeader { offset };
            let next = if distance(header) == 0 {
                BringUp::PortCount
            } else {
                BringUp::CapabilityHeader { offset: (offset + distance(header)) as u32 }
            };
            &&& at.needs() == Some(
                RegisterAccess::Read { addr: (0xffff_9000_fc40_0000 + 4 * offset) as u64 },
            )
            &&& at.can_go_on(header)
            &&& at.announces(header) is None
            &&& if header & 0xff == 2 {
                let protocol = at.after_read(header);
                &&& protocol.needs() == Some(
                    RegisterAccess::Read { addr: (0xffff_9000_fc40_0008 + 4 * offset) as u64 },
                )
                &&& protocol.can_go_on(ports)
                &&& protocol.announces(ports) == Some(SupportedProtocol::of(header, ports))
                &&& protocol.after_read(ports) == next
            } else {
                at.after_read(header) == next
            }
        }),
{
    assert(header % 0x100 == header & 0xff && header / 0x100 % 0x100 == (header >> 8) & 0xff)
        by (bit_vector);
}

/// The ports are walked from the first to the last; there are as many as the lowest
/// byte of the second parameter register says. A register that needs no write is
/// passed by, one that does is written before the next is read.
pub proof fn law_port_walk(value: u32, port: u32, count: u32)
    requires
        port < count <= 0xff,
    ensures
        BringUp::PortCount.needs() == Some(RegisterAccess::Read { addr: 0xffff_9000_fc40_0004 }),
        BringUp::PortCount.can_go_on(value),
        BringUp::PortCount.after_read(value) == if value & 0xff == 0 {
            BringUp::Done
        } else {
            BringUp::Port { port: 0, count: value & 0xff }
        },
        ({
            let at = BringUp::Port { port, count };
            let next = if port + 1 == count {
                BringUp::Done
            } else {
                BringUp::Port { port: (port + 1) as u32, count }
            };
            &&& at.can_go_on(value)
            &&& if value != 0 && value & 0x200 == 0 {
                let power = BringUp::PowerPort { port, count, value: value | 0x200 };
                at.after_read(value) == power && power.after_write() == next
            } else {
                at.after_read(value) == next
            }
        }),
        BringUp::Done.needs() is None,
{
    assert(value % 0x100 == value & 0xff) by (bit_vector);
    law_power_bit(value);
}

/// Bringing the controller up is never cut short within the first 24 bits of
/// offsets: each step adds a byte.
pub proof fn law_near_capabilities_can_go_on(state: BringUp, value: u32)
    requires
        match state {
            BringUp::CapabilityHeader { offset } => offset <= 0xff_ffff,
            BringUp::ProtocolPorts { offset, header } => offset <= 0xff_ffff,
            _ => true,
        },
    ensures
        state.can_go_on(value),
{
}

/// The register at `addr` after writes, where it held `value` before.
pub open spec fn written(writes: Seq<RegisterAccess>, addr: u64, value: u32) -> u32
    decreases writes.len(),
{
    if writes.len() == 0 {
        value
    } else {
        match writes.last() {
            RegisterAccess::Write { addr: at, value: new } if at == addr => new,
            _ => written(writes.drop_last(), addr, value),
        }
    }
}

/// The address of the register of a port, counted from 0.
pub open spec fn port_addr(port: int) -> u64 {
    (0xffff_9000_fc40_0420 + 16 * port) as u64
}

/// After the controller was brought up, every port that is there has its power bit
/// set and all its other bits as they were, and every port that is not there still
/// holds zero. No other register is written.
pub proof fn law_every_live_port_has_power(registers: spec_fn(u64) -> u32)
    requires
        goes_through(BringUp::CapabilityList, registers),
    ensures
        ({
            let writes = register_writes(BringUp::CapabilityList, registers);
            let count = registers(0xffff_9000_fc40_0004) & 0xff;
            &&& forall|port: int|
                0 <= port < count ==> {
                    let value = registers(#[trigger] port_addr(port));
                    written(writes, port_addr(port), value) == if value == 0 {
                        0u32
                    } else {
                        value | 0x200
                    }
                }
            &&& forall|addr: u64, value: u32|
                (forall|port: int| 0 <= port < count ==> addr != #[trigger] port_addr(port))
                    ==> #[trigger] written(writes, addr, value) == value
        }),
{
    law_all_ports_get_power(registers);
    let writes = register_writes(BringUp::CapabilityList, registers);
    let ports = port_registers(registers);
    let word = registers(0xffff_9000_fc40_0004);
    let count = word & 0xff;
    assert(word % 0x100 == word & 0xff) by (bit_vector);
    assert(ports.len() == count);
    assert forall|port: int| 0 <= port < count implies {
        let value = registers(#[trigger] port_addr(port));
        written(writes, port_addr(port), value) == if value == 0 {
            0u32
        } else {
            value | 0x200
        }
    } by {
        let addr = port_addr(port);
        assert(ports[port] == registers(addr));
        lemma_written(ports, 0, addr, registers(addr));
        let value = registers(addr);
        law_power_bit(value);
        assert(value & 0x200 != 0 ==> value | 0x200 == value) by (bit_vector);
    }
    assert forall|addr: u64, value: u32|
        (forall|port: int| 0 <= port < count ==> addr != #[trigger] port_addr(port)) implies
        #[trigger] written(writes, addr, value) == value by {
        lemma_written(ports, 0, addr, value);
    }
}

/// What the power writes leave in a register.
proof fn lemma_written(ports: Seq<u32>, from: int, addr: u64, value: u32)
    requires
        0 <= from <= ports.len() <= 0xff,
        forall|port: int|
            0 <= port < ports.len() && addr == port_addr(port)
                ==> #[trigger] ports[port] == value,
    ensures
        written(power_writes(ports, from), addr, value) == if exists|port: int|
            from <= port < ports.len() && addr == port_addr(port) && powered_up(
                #[trigger] ports[port],
            ) is Some {
            powered_up(value)->0
        } else {
            value
        },
    decreases ports.len() - from,
{
    if from < ports.len() {
        lemma_written(ports, from + 1, addr, value);
        let rest = power_writes(ports, from + 1);
        lemma_rest_writes(ports, from + 1);
        if let Some(new) = powered_up(ports[from]) {
            let first = RegisterAccess::Write {
                addr: port_addr(from),
                value: new,
            };
            assert(power_writes(ports, from) == seq![first] + rest);
            lemma_written_first(first, rest, addr, value);
            if addr == port_addr(from) {
                lemma_untouched(rest, addr, new);
                assert(ports[from] == value);
            }
        }
    }
}

/// The power writes from a port on go to the registers from that port on.
proof fn lemma_rest_writes(ports: Seq<u32>, from: int)
    requires
        0 <= from <= ports.len() <= 0xff,
    ensures
        forall|i: int|
            0 <= i < power_writes(ports, from).len() ==> (#[trigger] power_writes(
                ports,
                from,
            )[i]) is Write && power_writes(ports, from)[i]->Write_addr >= 0xffff_9000_fc40_0420
                + 16 * from,
    decreases ports.len() - from,
{
    if from < ports.len() {
        lemma_rest_writes(ports, from + 1);
        let rest = power_writes(ports, from + 1);
        let all = power_writes(ports, from);
        assert forall|i: int| 0 <= i < all.len() implies (#[trigger] all[i]) is Write
            && all[i]->Write_addr >= 0xffff_9000_fc40_0420 + 16 * from by {
            if powered_up(ports[from]) is Some {
                if i > 0 {
                    assert(all[i] == rest[i - 1]);
                }
            } else {
                assert(all[i] == rest[i]);
            }
        }
    }
}

/// Writes to other registers leave a register as it was.
proof fn lemma_untouched(writes: Seq<RegisterAccess>, addr: u64, value: u32)
    requires
        forall|i: int|
            0 <= i < writes.len() ==> (#[trigger] writes[i]) is Write && writes[i]->Write_addr
                != addr,
    ensures
        written(writes, addr, value) == value,
    decreases writes.len(),
{
    if writes.len() > 0 {
        assert(writes.last() == writes[writes.len() - 1]);
        lemma_untouched(writes.drop_last(), addr, value);
    }
}

/// A first write counts where no later one goes to the same register.
proof fn lemma_written_first(
    first: RegisterAccess,
    rest: Seq<RegisterAccess>,
    addr: u64,
    value: u32,
)
    requires
        first is Write,
    ensures
        written(seq![first] + rest, addr, value) == written(
            rest,
            addr,
            if first->Write_addr == addr {
                first->Write_value
            } else {
                value
            },
        ),
    decreases rest.len(),
{
    let all = seq![first] + rest;
    if rest.len() == 0 {
        assert(all.drop_last() =~= Seq::empty());
        reveal_with_fuel(written, 2);
    } else {
        assert(all.last() == rest.last());
        assert(all.drop_last() =~= seq![first] + rest.drop_last());
        lemma_written_first(first, rest.drop_last(), addr, value);
    }
}

/// A wait without a device takes ten seconds of sleep between its looks.
pub proof fn law_wait_is_ten_seconds()
    ensures
        POLL_ROUNDS * POLL_INTERVAL_MS == 10_000,
{
}

} // verus!
