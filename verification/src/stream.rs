//! Receiving video from the isochronous endpoint of a camera.
use vstd::prelude::*;

use crate::frame::FrameEvent;
use vstd::arithmetic::div_mod::{lemma_fundamental_div_mod, lemma_mod_bound};
use vstd::arithmetic::div_mod::lemma_fundamental_div_mod_converse;
use vstd::slice::slice_subrange;

verus! {

/// The most packets of one transfer.
pub const MAX_PACKETS_PER_TRANSFER: usize = 32;

/// How many packets of `packet_size` bytes it takes for a frame, but no more
/// than `MAX_PACKETS_PER_TRANSFER`.
pub open spec fn packets_for_frame(frame_bytes: usize, packet_size: usize) -> int {
    let needed = (frame_bytes + packet_size - 1) / (packet_size as int);
    if needed <= MAX_PACKETS_PER_TRANSFER {
        needed
    } else {
        MAX_PACKETS_PER_TRANSFER as int
    }
}

/// The `index`-th packet of a transfer.
pub open spec fn packet_at(buffer: Seq<u8>, packet_size: int, index: int) -> Seq<u8> {
    buffer.subrange(index * packet_size, index * packet_size + packet_size)
}

/// Whether a packet holds nothing but zeros.
pub open spec fn is_empty_packet(packet: Seq<u8>) -> bool {
    forall|i: int| 0 <= i < packet.len() ==> #[trigger] packet[i] == 0
}

/// The packets of a transfer, in order.
pub open spec fn all_packets(buffer: Seq<u8>, packet_size: int, count: nat) -> Seq<Seq<u8>> {
    Seq::new(count, |i: int| packet_at(buffer, packet_size, i))
}

/// The packets of a transfer that hold something, in order.
pub open spec fn filled_packets(buffer: Seq<u8>, packet_size: int, count: nat) -> Seq<Seq<u8>> {
    all_packets(buffer, packet_size, count).filter(|packet: Seq<u8>| !is_empty_packet(packet))
}

/// The state of a video stream.
#[verifier::ext_equal]
pub struct StreamView {
    pub packets_per_transfer: nat,
    pub packet_size: nat,
    pub buffer: Seq<u8>,
}

impl StreamView {
    /// The buffer has room for a transfer of at least one byte per packet.
    pub open spec fn valid(self) -> bool {
        &&& self.packet_size > 0
        &&& self.packets_per_transfer <= MAX_PACKETS_PER_TRANSFER
        &&& self.buffer.len() == self.packets_per_transfer * self.packet_size
    }
}

/// The receiving end of a video stream.
pub struct VideoStream {
    packets_per_transfer: usize,
    packet_size: usize,
    buffer: Vec<u8>,
}

impl View for VideoStream {
    type V = StreamView;

    closed spec fn view(&self) -> StreamView {
        StreamView {
            packets_per_transfer: self.packets_per_transfer as nat,
            packet_size: self.packet_size as nat,
            buffer: self.buffer@,
        }
    }
}

impl VideoStream {
    /// A stream of frames of `frame_bytes` bytes, through an endpoint whose
    /// packets have at most `max_packet_size` bytes.
    pub fn new(max_packet_size: u16, frame_bytes: usize) -> (r: VideoStream)
        requires
            max_packet_size > 0,
        ensures
            r@ == (StreamView {
                packets_per_transfer: packets_for_frame(
                    frame_bytes,
                    max_packet_size as usize,
                ) as nat,
                packet_size: max_packet_size as nat,
                buffer: Seq::new(
                    (packets_for_frame(frame_bytes, max_packet_size as usize)
                        * max_packet_size) as nat,
                    |i: int| 0u8,
                ),
            }),
            r@.valid(),
    {
        let packet_size: usize = max_packet_size as usize;
        let needed: usize = div_ceil(frame_bytes, packet_size);
        let packets_per_transfer: usize = if needed <= MAX_PACKETS_PER_TRANSFER {
            needed
        } else {
            MAX_PACKETS_PER_TRANSFER
        };
        assert(0 <= packets_per_transfer * packet_size <= 32 * 0xffff) by (nonlinear_arith)
            requires
                packets_per_transfer <= 32,
                packet_size <= 0xffff,
        ;
        let buffer: Vec<u8> = vec![0; packets_per_transfer * packet_size];
        let r = VideoStream { packets_per_transfer, packet_size, buffer };
        assert(r@.buffer =~= Seq::new(
            (packets_for_frame(frame_bytes, max_packet_size as usize) * max_packet_size) as nat,
            |i: int| 0u8,
        ));
        r
    }

    /// Makes the buffer ready for a transfer, and hands it out to be filled.
    pub fn prepare(&mut self) -> (r: &mut [u8])
        requires
            old(self)@.valid(),
        ensures
            r@ == Seq::new(old(self)@.buffer.len(), |i: int| 0u8),
            final(self)@ == (StreamView { buffer: final(r)@, ..old(self)@ }),
            final(r)@.len() == r@.len() ==> final(self)@.valid(),
    {
        let len: usize = self.buffer.len();
        self.buffer.clear();
        self.buffer.resize(len, 0);
        assert(self.buffer@ =~= Seq::new(len as nat, |i: int| 0u8));
        self.buffer.as_mut_slice()
    }

    /// How many packets a transfer has.
    pub fn packets_per_transfer(&self) -> (r: usize)
        ensures
            r == self@.packets_per_transfer,
    {
        self.packets_per_transfer
    }

    /// The packets of the last transfer that hold something, in order.
    pub fn packets(&self) -> (r: Vec<&[u8]>)
        requires
            self@.valid(),
        ensures
            r@.map_values(|packet: &[u8]| packet@) == filled_packets(
                self@.buffer,
                self@.packet_size as int,
                self@.packets_per_transfer,
            ),
    {
        let ghost view = |packet: &[u8]| packet@;
        let ghost filled = |packet: Seq<u8>| !is_empty_packet(packet);
        let ghost all = all_packets(
            self@.buffer,
            self@.packet_size as int,
            self@.packets_per_transfer,
        );
        let mut packets: Vec<&[u8]> = Vec::new();
        for i in 0..self.packets_per_transfer
            invariant
                self@.valid(),
                view == (|packet: &[u8]| packet@),
                filled == (|packet: Seq<u8>| !is_empty_packet(packet)),
                all == all_packets(
                    self@.buffer,
                    self@.packet_size as int,
                    self@.packets_per_transfer,
                ),
                packets@.map_values(view) == all.take(i as int).filter(filled),
        {
            let size: usize = self.packet_size;
            let len: usize = self.buffer.len();
            assert((i + 1) * size == i * size + size) by (nonlinear_arith);
            assert((i + 1) * size <= self.packets_per_transfer * size) by (nonlinear_arith)
                requires
                    i + 1 <= self.packets_per_transfer,
            ;
            assert(0 <= i * size) by (nonlinear_arith);
            let start: usize = i * size;
            let data: &[u8] = slice_subrange(self.buffer.as_slice(), start, start + size);
            assert(data@ == all[i as int]);
            proof {
                reveal(Seq::filter);
                assert(all.take(i + 1).drop_last() =~= all.take(i as int));
            }
            let ghost before = packets@;
            if !is_blank(data) {
                packets.push(data);
                assert(packets@.map_values(view) =~= before.map_values(view).push(data@));
            }
        }
        assert(all.take(all.len() as int) =~= all);
        packets
    }
}

/// Whether a packet completed a frame, by what the frame parser made of it.
pub open spec fn completes_frame<E>(parsed: Result<Option<FrameEvent>, E>) -> bool {
    parsed matches Ok(Some(_))
}

/// The frames that a row of packets completed, in order.
pub open spec fn completed_frames<E>(parsed: Seq<Result<Option<FrameEvent>, E>>) -> Seq<
    FrameEvent,
> {
    parsed.filter(|one: Result<Option<FrameEvent>, E>| completes_frame(one)).map_values(
        |one: Result<Option<FrameEvent>, E>| one->Ok_0->0,
    )
}

/// Collects the frames from what the frame parser made of the packets of a
/// transfer. A packet that completes no frame, or that the parser rejects, adds
/// nothing.
pub fn frames_of<E>(parsed: Vec<Result<Option<FrameEvent>, E>>) -> (r: Vec<FrameEvent>)
    ensures
        r@ == completed_frames(parsed@),
        r@.len() <= parsed@.len(),
{
    let ghost completes = |one: Result<Option<FrameEvent>, E>| completes_frame(one);
    let ghost frame = |one: Result<Option<FrameEvent>, E>| one->Ok_0->0;
    let mut events: Vec<FrameEvent> = Vec::new();
    for one in it: parsed
        invariant
            it.seq() == parsed@,
            completes == (|one: Result<Option<FrameEvent>, E>| completes_frame(one)),
            frame == (|one: Result<Option<FrameEvent>, E>| one->Ok_0->0),
            events@ == parsed@.take(it.index() as int).filter(completes).map_values(frame),
            events@.len() <= it.index(),
    {
        let ghost i: int = it.index() as int;
        let ghost kept = parsed@.take(i).filter(completes);
        let ghost before = events@;
        proof {
            reveal(Seq::filter);
            assert(parsed@.take(i + 1).drop_last() =~= parsed@.take(i));
        }
        if let Ok(Some(event)) = one {
            events.push(event);
            assert(kept.push(one).map_values(frame) =~= before.push(event));
        }
    }
    assert(parsed@.take(parsed@.len() as int) =~= parsed@);
    events
}

/// Which of `count` video formats is chosen.
pub open spec fn chosen_format(count: usize) -> Option<usize> {
    if count > 0 {
        Some(0)
    } else {
        None
    }
}

/// Chooses a video format out of `count` supported ones: the first, where there
/// is one.
pub fn choose_format(count: usize) -> (r: Option<usize>)
    ensures
        r == (if count > 0 {
            Some(0usize)
        } else {
            None
        }),
        r == chosen_format(count),
{
    if count > 0 {
        Some(0)
    } else {
        None
    }
}

/// Whether there is nothing but zeros.
fn is_blank(data: &[u8]) -> (r: bool)
    ensures
        r == is_empty_packet(data@),
{
    for i in 0..data.len()
        invariant
            forall|j: int| 0 <= j < i ==> #[trigger] data@[j] == 0,
    {
        if data[i] != 0 {
            return false;
        }
    }
    true
}

/// Divides, and rounds up.
fn div_ceil(value: usize, by: usize) -> (r: usize)
    requires
        by > 0,
    ensures
        r == (value + by - 1) / (by as int),
{
    let quotient: usize = value / by;
    let remainder: usize = value % by;
    let ghost (v, d, q, m) = (value as int, by as int, quotient as int, remainder as int);
    proof {
        lemma_fundamental_div_mod(v, d);
        lemma_mod_bound(v, d);
    }
    if remainder > 0 {
        proof {
            assert(d * (q + 1) == d * q + d) by (nonlinear_arith);
            lemma_fundamental_div_mod_converse(v + d - 1, d, q + 1, m - 1);
            assert(q < v) by (nonlinear_arith)
                requires
                    v == d * q + m,
                    d >= 1,
                    m > 0,
                    q >= 0,
            ;
        }
        quotient + 1
    } else {
        proof {
            lemma_fundamental_div_mod_converse(v + d - 1, d, q, d - 1);
        }
        quotient
    }
}

/// Where a frame takes no more than `MAX_PACKETS_PER_TRANSFER` packets, one
/// transfer has room for it, and one packet less would not do.
pub proof fn law_transfer_holds_frame(frame_bytes: usize, packet_size: usize)
    requires
        packet_size > 0,
        frame_bytes <= MAX_PACKETS_PER_TRANSFER * packet_size,
    ensures
        packets_for_frame(frame_bytes, packet_size) * packet_size >= frame_bytes,
        (packets_for_frame(frame_bytes, packet_size) - 1) * packet_size < frame_bytes,
{
    let (v, d) = (frame_bytes as int, packet_size as int);
    let needed = (v + d - 1) / d;
    let m = (v + d - 1) % d;
    lemma_fundamental_div_mod(v + d - 1, d);
    lemma_mod_bound(v + d - 1, d);
    assert(needed <= 32) by (nonlinear_arith)
        requires
            v + d - 1 == d * needed + m,
            0 <= m < d,
            v <= 32 * d,
    ;
    assert(needed * d >= v && (needed - 1) * d < v) by (nonlinear_arith)
        requires
            v + d - 1 == d * needed + m,
            0 <= m < d,
    ;
}

/// A transfer that received nothing has no packets.
pub proof fn law_blank_transfer_has_no_packets(buffer: Seq<u8>, packet_size: int, count: nat)
    requires
        packet_size > 0,
        buffer.len() == count * packet_size,
        is_empty_packet(buffer),
    ensures
        filled_packets(buffer, packet_size, count) == Seq::<Seq<u8>>::empty(),
{
    let all = all_packets(buffer, packet_size, count);
    assert forall|i: int| 0 <= i < all.len() implies is_empty_packet(#[trigger] all[i]) by {
        assert(0 <= i * packet_size && i * packet_size + packet_size <= count * packet_size)
            by (nonlinear_arith)
            requires
                0 <= i < count,
                packet_size > 0,
        ;
        assert forall|j: int| 0 <= j < all[i].len() implies #[trigger] all[i][j] == 0 by {
            assert(all[i][j] == buffer[i * packet_size + j]);
        }
    }
    lemma_filter_none(all);
}

/// Where every packet is empty, none is kept.
proof fn lemma_filter_none(all: Seq<Seq<u8>>)
    requires
        forall|i: int| 0 <= i < all.len() ==> is_empty_packet(#[trigger] all[i]),
    ensures
        all.filter(|packet: Seq<u8>| !is_empty_packet(packet)) == Seq::<Seq<u8>>::empty(),
    decreases all.len(),
{
    reveal(Seq::filter);
    if all.len() > 0 {
        lemma_filter_none(all.drop_last());
    }
}

} // verus!
