//! What holds of the video that comes in: nothing of a transfer is lost.
use vstd::prelude::*;

use crate::frame::{newest, FrameEvent, FRAME_POOL_CAPACITY};
use crate::stream::{
    all_packets, chosen_format, completed_frames, completes_frame, filled_packets, is_empty_packet, packet_at,
    packets_for_frame, StreamView,
};

verus! {

/// Pieces put together, one behind the other.
pub open spec fn put_together(pieces: Seq<Seq<u8>>) -> Seq<u8>
    decreases pieces.len(),
{
    if pieces.len() == 0 {
        Seq::empty()
    } else {
        put_together(pieces.drop_last()) + pieces.last()
    }
}

/// The packets of a transfer, put together, are the whole buffer: there are as many
/// as the transfer has, and all have the packet size.
pub proof fn law_packets_are_the_whole_buffer(stream: StreamView)
    requires
        stream.valid(),
    ensures
        ({
            let packets = all_packets(
                stream.buffer,
                stream.packet_size as int,
                stream.packets_per_transfer,
            );
            &&& packets.len() == stream.packets_per_transfer
            &&& forall|i: int|
                0 <= i < packets.len() ==> (#[trigger] packets[i]).len() == stream.packet_size
            &&& put_together(packets) == stream.buffer
        }),
{
    let (buffer, size, count) = (
        stream.buffer,
        stream.packet_size as int,
        stream.packets_per_transfer,
    );
    let packets = all_packets(buffer, size, count);
    assert forall|i: int| 0 <= i < packets.len() implies (#[trigger] packets[i]).len() == size by {
        lemma_packet_fits(i, size, count);
        assert(packets[i] == packet_at(buffer, size, i));
    }
    lemma_put_together(buffer, size, count, count);
    assert(packets.take(count as int) =~= packets);
    assert(buffer.take(buffer.len() as int) =~= buffer);
}

/// A packet lies within the buffer.
proof fn lemma_packet_fits(i: int, size: int, count: nat)
    requires
        0 <= i < count,
        size > 0,
    ensures
        0 <= i * size,
        i * size + size <= count * size,
        (i + 1) * size == i * size + size,
{
    assert(0 <= i * size && (i + 1) * size == i * size + size && (i + 1) * size <= count * size)
        by (nonlinear_arith)
        requires
            0 <= i < count,
            size > 0,
    ;
}

/// The first packets, put together, are the start of the buffer.
proof fn lemma_put_together(buffer: Seq<u8>, size: int, count: nat, k: nat)
    requires
        size > 0,
        k <= count,
        buffer.len() == count * size,
    ensures
        put_together(all_packets(buffer, size, count).take(k as int)) == buffer.take(k * size),
        k * size <= buffer.len(),
    decreases k,
{
    let packets = all_packets(buffer, size, count);
    if k == 0 {
        assert(0 * size == 0);
        assert(buffer.take(0) =~= Seq::empty());
        assert(0 <= count * size) by (nonlinear_arith)
            requires
                size > 0,
        ;
    } else {
        let n = (k - 1) as nat;
        lemma_put_together(buffer, size, count, n);
        lemma_packet_fits(n as int, size, count);
        assert(packets.take(k as int).drop_last() =~= packets.take(n as int));
        assert(packets[n as int] == packet_at(buffer, size, n as int));
        assert(buffer.take(k * size) =~= buffer.take(n * size) + packet_at(buffer, size, n as int));
    }
}

/// The piece of a buffer that holds the byte at `at`, where the buffer is cut into
/// pieces of `size` bytes.
pub open spec fn packet_with(buffer: Seq<u8>, size: int, at: int) -> Seq<u8> {
    buffer.subrange(at / size * size, at / size * size + size)
}

/// Whether there is a byte that is not zero.
pub open spec fn holds_a_byte(packet: Seq<u8>) -> bool {
    exists|j: int| 0 <= j < packet.len() && #[trigger] packet[j] != 0
}

/// Every byte of the buffer that is not zero lies in a packet that is kept, at the
/// same place of the packet, and every kept packet holds such a byte.
pub proof fn law_no_byte_is_lost(stream: StreamView)
    requires
        stream.valid(),
    ensures
        ({
            let size = stream.packet_size as int;
            let kept = filled_packets(stream.buffer, size, stream.packets_per_transfer);
            &&& forall|at: int|
                0 <= at < stream.buffer.len() && #[trigger] stream.buffer[at] != 0
                    ==> kept.contains(packet_with(stream.buffer, size, at))
            &&& forall|k: int| 0 <= k < kept.len() ==> holds_a_byte(#[trigger] kept[k])
        }),
{
    let (buffer, size, count) = (
        stream.buffer,
        stream.packet_size as int,
        stream.packets_per_transfer,
    );
    let packets = all_packets(buffer, size, count);
    let filled = |packet: Seq<u8>| !is_empty_packet(packet);
    let kept = filled_packets(buffer, size, count);
    law_packets_are_the_whole_buffer(stream);
    assert forall|at: int|
        0 <= at < buffer.len() && #[trigger] buffer[at] != 0 implies kept.contains(
        packet_with(buffer, size, at),
    ) by {
        let i = at / size;
        let j = at % size;
        vstd::arithmetic::div_mod::lemma_fundamental_div_mod(at, size);
        vstd::arithmetic::div_mod::lemma_mod_bound(at, size);
        assert(0 <= i < count) by (nonlinear_arith)
            requires
                at == size * i + j,
                0 <= j < size,
                0 <= at < count * size,
        ;
        assert(size * i == i * size) by (nonlinear_arith);
        lemma_packet_fits(i, size, count);
        assert(packets[i] == packet_at(buffer, size, i));
        assert(packets[i][j] == buffer[at]);
        assert(filled(packets[i]));
        lemma_filter_keeps(packets, filled, i);
    }
    assert forall|k: int| 0 <= k < kept.len() implies holds_a_byte(#[trigger] kept[k]) by {
        packets.lemma_filter_pred(filled, k);
        assert(!is_empty_packet(kept[k]));
    }
}

/// A filter keeps what passes it.
proof fn lemma_filter_keeps<T>(all: Seq<T>, pred: spec_fn(T) -> bool, i: int)
    requires
        0 <= i < all.len(),
        pred(all[i]),
    ensures
        exists|k: int| 0 <= k < all.filter(pred).len() && #[trigger] all.filter(pred)[k] == all[i],
    decreases all.len(),
{
    reveal(Seq::filter);
    let front = all.drop_last();
    if i < front.len() {
        lemma_filter_keeps(front, pred, i);
        let k = choose|k: int|
            0 <= k < front.filter(pred).len() && #[trigger] front.filter(pred)[k] == front[i];
        assert(all.filter(pred)[k] == all[i]);
    } else {
        assert(all.filter(pred)[front.filter(pred).len() as int] == all[i]);
    }
}

/// The kept packets stand in the order of the buffer: what is kept of a transfer is
/// what is kept of its first packets, followed by what is kept of the others.
pub proof fn law_packets_are_kept_in_order(buffer: Seq<u8>, size: int, first: nat, second: nat)
    requires
        size > 0,
        buffer.len() == (first + second) * size,
    ensures
        filled_packets(buffer, size, first + second) == filled_packets(
            buffer.take(first * size),
            size,
            first,
        ) + filled_packets(buffer.skip(first * size), size, second),
{
    let all = all_packets(buffer, size, first + second);
    let a = all_packets(buffer.take(first * size), size, first);
    let b = all_packets(buffer.skip(first * size), size, second);
    let filled = |packet: Seq<u8>| !is_empty_packet(packet);
    assert((first + second) * size == first * size + second * size) by (nonlinear_arith);
    assert(0 <= first * size && 0 <= second * size) by (nonlinear_arith)
        requires
            size > 0,
    ;
    assert forall|i: int| 0 <= i < all.len() implies all[i] == (a + b)[i] by {
        lemma_packet_fits(i, size, first + second);
        if i < first {
            lemma_packet_fits(i, size, first);
            assert(all[i] =~= a[i]);
        } else {
            lemma_packet_fits(i - first, size, second);
            assert(i * size == first * size + (i - first) * size) by (nonlinear_arith);
            assert(all[i] =~= b[i - first]);
        }
    }
    assert(all =~= a + b);
    Seq::filter_distributes_over_add(a, b, filled);
}

/// A transfer has as few packets as a frame needs, but 32 at most: exactly 32 where
/// the frame needs more.
pub proof fn law_packets_of_a_transfer(frame_bytes: usize, packet_size: usize)
    requires
        packet_size > 0,
    ensures
        ({
            let packets = packets_for_frame(frame_bytes, packet_size);
            &&& 0 <= packets <= 32
            &&& packets < 32 ==> packets * packet_size >= frame_bytes
            &&& (packets - 1) * packet_size < frame_bytes
            &&& frame_bytes > 32 * packet_size ==> packets == 32
        }),
{
    let (v, d) = (frame_bytes as int, packet_size as int);
    let needed = (v + d - 1) / d;
    let m = (v + d - 1) % d;
    vstd::arithmetic::div_mod::lemma_fundamental_div_mod(v + d - 1, d);
    vstd::arithmetic::div_mod::lemma_mod_bound(v + d - 1, d);
    assert(0 <= needed && needed * d >= v && (needed - 1) * d < v && (v > 32 * d ==> needed > 32)
        && (needed > 32 ==> 31 * d < v)) by (nonlinear_arith)
        requires
            v + d - 1 == d * needed + m,
            0 <= m < d,
            0 <= v,
            0 < d,
    ;
}

/// What packets complete is what the first of them complete, followed by what the
/// others complete.
pub proof fn law_frames_come_in_order<E>(
    first: Seq<Result<Option<FrameEvent>, E>>,
    second: Seq<Result<Option<FrameEvent>, E>>,
)
    ensures
        completed_frames(first + second) == completed_frames(first) + completed_frames(second),
{
    let completes = |one: Result<Option<FrameEvent>, E>| completes_frame(one);
    let frame = |one: Result<Option<FrameEvent>, E>| one->Ok_0->0;
    Seq::filter_distributes_over_add(first, second, completes);
    assert((first.filter(completes) + second.filter(completes)).map_values(frame)
        =~= first.filter(completes).map_values(frame) + second.filter(completes).map_values(
        frame,
    ));
}

/// A packet that completes a frame gives that frame, any other nothing.
pub proof fn law_packet_gives_its_frame<E>(
    parsed: Result<Option<FrameEvent>, E>,
    event: FrameEvent,
)
    ensures
        completed_frames::<E>(Seq::empty()) == Seq::<FrameEvent>::empty(),
        parsed == Ok::<Option<FrameEvent>, E>(Some(event)) ==> completed_frames(seq![parsed])
            == seq![event],
        parsed == Ok::<Option<FrameEvent>, E>(None) ==> completed_frames(seq![parsed]) == Seq::<
            FrameEvent,
        >::empty(),
        parsed is Err ==> completed_frames(seq![parsed]) == Seq::<FrameEvent>::empty(),
{
    let completes = |one: Result<Option<FrameEvent>, E>| completes_frame(one);
    let frame = |one: Result<Option<FrameEvent>, E>| one->Ok_0->0;
    let one = seq![parsed];
    reveal_with_fuel(Seq::filter, 2);
    assert(one.drop_last() =~= Seq::empty());
    assert(Seq::<Result<Option<FrameEvent>, E>>::empty().filter(completes).map_values(frame)
        =~= Seq::empty());
    if completes(parsed) {
        assert(one.filter(completes) =~= one);
        assert(one.map_values(frame) =~= seq![frame(parsed)]);
    } else {
        assert(one.filter(completes) =~= Seq::empty());
        assert(completed_frames(one) =~= Seq::empty());
    }
}

/// The pool holds the latest frames, as many as it can, in the order in which they
/// came: counted from the end, they are the frames that came, whatever is in them.
pub proof fn law_pool_holds_the_latest(all: Seq<Seq<u8>>)
    ensures
        ({
            let held = newest(all, FRAME_POOL_CAPACITY as nat);
            &&& held.len() == if all.len() < 3 {
                all.len()
            } else {
                3
            }
            &&& forall|i: int|
                0 <= i < held.len() ==> #[trigger] held[held.len() - 1 - i] == all[all.len() - 1
                    - i]
        }),
{
}

/// A format is chosen exactly when there is one, and it is the first.
pub proof fn law_first_format_is_chosen(count: usize)
    ensures
        chosen_format(count) is Some <==> count > 0,
        chosen_format(count) matches Some(index) ==> index < count && index < 1,
{
}

} // verus!
