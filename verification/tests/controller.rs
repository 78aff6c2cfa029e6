use starry_usb::dma::{flush_cache, has_layout, map_single, unmap_single, CoherentBuffers};
use starry_usb::error::VfsError;
use starry_usb::host::{
    portsc_offset, power_up, BringUp, ConnectionPoll, Iomap, PortStatus,
    RegisterAccess, SupportedProtocol, DWC3_BASE, POLL_INTERVAL_MS,
};
use std::collections::HashMap;

#[test]
fn port_registers_follow_each_other() {
    assert_eq!(portsc_offset(0), 0x420);
    assert_eq!(portsc_offset(3), 0x450);
}

#[test]
fn port_register_is_taken_apart() {
    assert_eq!(
        PortStatus::from_register(0x0002_0ee1),
        PortStatus {
            connected: true,
            enabled: false,
            link_state: 7,
            powered: true,
            speed: 3,
            connection_changed: true,
        }
    );
    assert_eq!(
        PortStatus::from_register(2),
        PortStatus {
            connected: false,
            enabled: true,
            link_state: 0,
            powered: false,
            speed: 0,
            connection_changed: false,
        }
    );
}

#[test]
fn power_is_given_once() {
    assert_eq!(power_up(0), None);
    assert_eq!(power_up(0x2a0), None);
    assert_eq!(power_up(0xa0), Some(0x2a0));
    assert_eq!(power_up(0xffff_fdff), Some(0xffff_ffff));
}

/// Maps device memory, with the given outcomes of the two parts.
fn iomap(mapped: Result<(), i32>, protected: Result<(), i32>) -> Iomap {
    let mut state = Iomap::start(0x9000, 0x1000, 0x200);
    assert_eq!(state, Iomap::MapRange { vaddr: 0x9000, paddr: 0x1000, size: 0x200 });
    state.step(mapped);
    if state == (Iomap::ProtectRange { vaddr: 0x9000, size: 0x200 }) {
        state.step(protected);
    }
    state
}

#[test]
fn memory_that_is_mapped_already_is_protected() {
    let exists = VfsError::AlreadyExists.code();
    assert_eq!(iomap(Ok(()), Ok(())), Iomap::Done { result: Ok(0x9000) });
    assert_eq!(iomap(Err(exists), Ok(())), Iomap::Done { result: Ok(0x9000) });
    assert_eq!(iomap(Err(17), Ok(())), Iomap::Done { result: Err(17) });
    assert_eq!(iomap(Ok(()), Err(exists)), Iomap::Done { result: Err(exists) });
    assert_eq!(iomap(Err(exists), Err(5)), Iomap::Done { result: Err(5) });
}

#[test]
fn controller_is_brought_up() {
    let mut registers = HashMap::from([
        (DWC3_BASE + 0x10, 0x0010_0000),
        (DWC3_BASE + 0x40, 0x0200_0402),
        (DWC3_BASE + 0x48, 0x0000_0101),
        (DWC3_BASE + 0x50, 0x0000_0401),
        (DWC3_BASE + 0x60, 0x0310_0002),
        (DWC3_BASE + 0x68, 0x0000_0102),
        (DWC3_BASE + 0x04, 0xff00_0003),
        (DWC3_BASE + 0x420, 0x0000_00a0),
        (DWC3_BASE + 0x430, 0),
        (DWC3_BASE + 0x440, 0x0000_02a0),
    ]);
    let mut state = BringUp::start();
    let mut protocols = vec![];
    let mut writes = vec![];
    while let Some(access) = state.access() {
        match access {
            RegisterAccess::Read { addr } => {
                let value = registers[&addr];
                assert!(state.list_can_go_on(value));
                protocols.extend(state.step_read(value));
            }
            RegisterAccess::Write { addr, value } => {
                registers.insert(addr, value);
                writes.push((addr, value));
                state.step_write();
            }
        }
    }
    assert_eq!(state, BringUp::Done);
    assert_eq!(writes, vec![(DWC3_BASE + 0x420, 0x2a0)]);
    assert_eq!(
        protocols,
        vec![
            SupportedProtocol { usb3: false, revision: 0x0200, first_port: 1, port_count: 1 },
            SupportedProtocol { usb3: true, revision: 0x0310, first_port: 2, port_count: 1 },
        ]
    );
}

#[test]
fn controller_without_capabilities_or_ports() {
    let mut state = BringUp::start();
    assert_eq!(state.step_read(0x0000_ffff), None);
    assert_eq!(state, BringUp::PortCount);
    assert_eq!(state.step_read(0xffff_ff00), None);
    assert_eq!(state, BringUp::Done);
    assert_eq!(state.access(), None);
}

#[test]
fn capability_list_does_not_wrap_around() {
    let state = BringUp::CapabilityHeader { offset: u32::MAX - 1 };
    assert!(state.list_can_go_on(0x0100));
    assert!(!state.list_can_go_on(0x0200));
    assert!(state.list_can_go_on(0x0202));
    let state = BringUp::ProtocolPorts { offset: u32::MAX - 1, header: 0x0202 };
    assert!(!state.list_can_go_on(0));
}

/// Runs a wait: how many looks and sleeps it has, and whether it saw a device.
fn wait(looks: &[Option<[u32; 4]>]) -> (usize, u64, bool) {
    let mut poll = ConnectionPoll::new();
    let (mut looked, mut slept) = (0, 0);
    loop {
        match poll {
            ConnectionPoll::Look { .. } => {
                poll.look(looks[looked]);
                looked += 1;
            }
            ConnectionPoll::Sleep { .. } | ConnectionPoll::Settle { .. } => {
                poll.slept();
                slept += 1;
            }
            ConnectionPoll::Probe { connected } => return (looked, slept, connected),
        }
    }
}

#[test]
fn wait_ends_with_a_device() {
    let seen = Some([0, 0, 0, 0x2a1]);
    assert_eq!(wait(&[seen]), (1, 1, true));
    assert_eq!(wait(&[None, Some([0, 0x2a0, 2, 4]), seen]), (3, 3, true));
    let mut looks = vec![None; 49];
    looks.push(seen);
    assert_eq!(wait(&looks), (50, 50, true));
}

#[test]
fn wait_ends_without_a_device() {
    let (looks, sleeps, connected) = wait(&[Some([0x2a0; 4]); 50]);
    assert_eq!(looks, 50);
    assert_eq!(sleeps, 51);
    assert!(!connected);
    assert_eq!((sleeps - 1) * POLL_INTERVAL_MS, 10_000);
}

#[test]
fn wait_goes_from_look_to_sleep_to_look() {
    let mut poll = ConnectionPoll::new();
    assert_eq!(poll, ConnectionPoll::Look { left: 50 });
    poll.look(None);
    assert_eq!(poll, ConnectionPoll::Sleep { left: 49 });
    poll.slept();
    assert_eq!(poll, ConnectionPoll::Look { left: 49 });
    poll.look(Some([1, 0, 0, 0]));
    assert_eq!(poll, ConnectionPoll::Settle { connected: true });
    poll.slept();
    assert_eq!(poll, ConnectionPoll::Probe { connected: true });
}

#[test]
fn every_line_of_a_range_is_flushed() {
    assert_eq!(flush_cache(0x1000, 0), vec![]);
    assert_eq!(flush_cache(0x1000, 1), vec![0x1000]);
    assert_eq!(flush_cache(0x1000, 64), vec![0x1000]);
    assert_eq!(flush_cache(0x1000, 65), vec![0x1000, 0x1040]);
    assert_eq!(flush_cache(0x103f, 2), vec![0x1000, 0x1040]);
    assert_eq!(flush_cache(0x1050, 0x80), vec![0x1040, 0x1080, 0x10c0]);
    assert_eq!(flush_cache(u64::MAX - 1, 1), vec![u64::MAX - 63]);
}

#[test]
fn coherent_memory_must_be_reachable() {
    let mut buffers = CoherentBuffers::new();
    let mask = 0xffff_ffff;
    assert!(buffers.alloc_coherent(0x9000, 0x1000, 0x1000, mask));
    assert!(buffers.alloc_coherent(0xa000, 0xffff_f000, 0x1000, mask));
    assert!(!buffers.alloc_coherent(0xb000, 0xffff_f001, 0x1000, mask));
    assert!(!buffers.alloc_coherent(0xb000, 0x1_0000_0000, 1, mask));
    assert!(!buffers.alloc_coherent(0xb000, 0x1_0000_0000, 0, mask));
    assert!(buffers.alloc_coherent(0xb000, 0x1_0000_0000, 1, u64::MAX));
    let addrs: Vec<u64> = buffers.buffers().iter().map(|buffer| buffer.addr).collect();
    assert_eq!(addrs, vec![0x9000, 0xa000, 0xb000]);
}

#[test]
fn alignment_must_make_a_layout() {
    assert!(has_layout(18, 0));
    assert!(has_layout(18, 1));
    assert!(has_layout(4096, 64));
    assert!(!has_layout(18, 3));
    assert!(has_layout(isize::MAX as usize, 0));
    assert!(!has_layout(isize::MAX as usize, 2));
    assert!(has_layout(isize::MAX as usize - 1, 2));
    assert!(!has_layout(isize::MAX as usize + 1, 1));
    assert!(has_layout(0, 1 << 63));
    assert!(!has_layout(1, 1 << 63));
}

#[test]
fn no_alignment_is_an_alignment_of_one() {
    assert_eq!(map_single(0x9000, 0x1000, 18, 0).align, 1);
    assert_eq!(map_single(0x9000, 0x1000, 18, 1).align, 1);
    assert_eq!(map_single(0x9000, 0x1000, 4096, 64).align, 64);
}

#[test]
fn buffer_is_flushed_before_and_after_its_use() {
    let mapping = map_single(0x903f, 0x1000, 2, 0);
    assert_eq!(mapping.addr, 0x903f);
    assert_eq!(mapping.dma_addr, 0x1000);
    assert_eq!(mapping.size, 2);
    assert_eq!(mapping.lines, vec![0x9000, 0x9040]);
    assert_eq!(unmap_single(0x903f, 2), vec![0x9000, 0x9040]);
}

#[test]
fn freeing_coherent_memory_undoes_its_allocation() {
    let mut buffers = CoherentBuffers::new();
    assert!(buffers.alloc_coherent(0x9000, 0x1000, 0x1000, u64::MAX));
    let before = buffers.buffers().clone();
    assert!(buffers.alloc_coherent(0xa000, 0x2000, 0x1000, u64::MAX));
    assert_eq!(buffers.buffers().len(), 2);
    buffers.dealloc_coherent(0xa000);
    assert_eq!(*buffers.buffers(), before);
    buffers.dealloc_coherent(0xa000);
    assert_eq!(*buffers.buffers(), before);
}
