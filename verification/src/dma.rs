//! DMA memory of the USB host controller.
//!
//! Addresses are kernel virtual addresses unless they are said to be physical.
use vstd::prelude::*;
use vstd::arithmetic::div_mod::{lemma_fundamental_div_mod, lemma_mod_bound};
use vstd::arithmetic::power2::{lemma_pow2_adds, lemma_pow2_pos, pow2};
use vstd::arithmetic::power2::lemma_pow2_strictly_increases;
use vstd::layout::{signed_int_min_max_values, unsigned_int_max_values};

verus! {

/// Size of a cache line of the Cortex-A76 and Cortex-A55 cores.
pub const CACHE_LINE_SIZE: u64 = 64;

/// Size of a page.
pub const PAGE_SIZE: usize = 0x1000;

/// The address of the cache line that holds the byte at `addr`.
pub open spec fn line_of(addr: int) -> int {
    addr - addr % (CACHE_LINE_SIZE as int)
}

/// The addresses of the cache lines that hold `size` bytes from `addr` on, in
/// ascending order.
pub open spec fn cache_lines(addr: u64, size: u64) -> Seq<u64> {
    if size == 0 {
        Seq::empty()
    } else {
        Seq::new(
            ((line_of(addr + size - 1) - line_of(addr as int)) / (CACHE_LINE_SIZE as int)
                + 1) as nat,
            |i: int| (line_of(addr as int) + CACHE_LINE_SIZE * i) as u64,
        )
    }
}

/// Finds the cache lines to clean and invalidate for `size` bytes from `addr`
/// on.
pub fn flush_cache(addr: u64, size: u64) -> (r: Vec<u64>)
    requires
        addr + size <= u64::MAX,
    ensures
        r@ == cache_lines(addr, size),
{
    let mut lines: Vec<u64> = Vec::new();
    if size == 0 {
        return lines;
    }
    assert(addr & !63u64 == addr - addr % 64) by (bit_vector);
    let start: u64 = addr & !(CACHE_LINE_SIZE - 1);
    let end: u64 = addr + size;
    let mut line: u64 = start;
    while end - line > CACHE_LINE_SIZE
        invariant
            start == line_of(addr as int),
            end == addr + size,
            size > 0,
            line < end,
            line == start + CACHE_LINE_SIZE * lines@.len(),
            lines@ == Seq::new(lines@.len(), |i: int| (start + CACHE_LINE_SIZE * i) as u64),
        decreases end - line,
    {
        lines.push(line);
        line = line + CACHE_LINE_SIZE;
    }
    lines.push(line);
    assert(lines@ =~= cache_lines(addr, size));
    lines
}

/// Exactly the lines that hold a byte of the range are flushed: every byte lies
/// in a flushed line, and every flushed line holds a byte.
pub proof fn law_flush_covers_range(addr: u64, size: u64)
    requires
        addr + size <= u64::MAX,
    ensures
        forall|byte: int|
            addr <= byte < addr + size ==> cache_lines(addr, size).contains(
                #[trigger] line_of(byte) as u64,
            ),
        forall|line: u64| #[trigger]
            cache_lines(addr, size).contains(line) ==> exists|byte: int|
                addr <= byte < addr + size && #[trigger] line_of(byte) == line,
{
    let lines = cache_lines(addr, size);
    assert forall|byte: int| addr <= byte < addr + size implies lines.contains(
        #[trigger] line_of(byte) as u64,
    ) by {
        let i = (line_of(byte) - line_of(addr as int)) / 64;
        assert(lines[i] == line_of(byte));
    }
    assert forall|line: u64| #[trigger] lines.contains(line) implies exists|byte: int|
        addr <= byte < addr + size && #[trigger] line_of(byte) == line by {
        let i = choose|i: int| 0 <= i < lines.len() && lines[i] == line;
        if i == 0 {
            assert(line_of(addr as int) == lines[0]);
        } else {
            let byte = line_of(addr as int) + 64 * i;
            assert(line_of(byte) == lines[i]);
        }
    }
}

/// Whether a device that can drive the address lines in `mask` reaches the
/// first and the last of `size` bytes from the physical address `phys` on.
pub open spec fn reachable(phys: u64, size: u64, mask: u64) -> bool {
    &&& phys & !mask == 0
    &&& ((phys + size - 1) as u64) & !mask == 0
}

/// With a mask of the lowest address lines a device reaches exactly the memory
/// that ends within the mask.
pub proof fn law_reachable_below_mask(phys: u64, size: u64, mask: u64)
    requires
        size >= 1,
        phys + size <= u64::MAX,
        mask == u64::MAX || mask & ((mask + 1) as u64) == 0,
    ensures
        reachable(phys, size, mask) <==> phys + size - 1 <= mask,
{
    let last = (phys + size - 1) as u64;
    lemma_below_mask(phys, mask);
    lemma_below_mask(last, mask);
}

/// A number has no bit outside a mask of the lowest bits exactly when it is not
/// above the mask.
proof fn lemma_below_mask(value: u64, mask: u64)
    requires
        mask == u64::MAX || mask & ((mask + 1) as u64) == 0,
    ensures
        value & !mask == 0 <==> value <= mask,
{
    assert(mask == 0xffff_ffff_ffff_ffff ==> value & !mask == 0) by (bit_vector);
    assert(mask & ((mask + 1) as u64) == 0 ==> (value & !mask == 0 <==> value <= mask))
        by (bit_vector);
}

/// A buffer that the processor and the controller share: where it stands, and
/// its size.
#[derive(Clone, Copy, Debug, PartialEq, Eq)]
pub struct CoherentBuffer {
    pub addr: u64,
    pub size: u64,
}

/// The buffers that the processor and the controller share, in the order in
/// which they were allocated.
pub struct CoherentBuffers {
    buffers: Vec<CoherentBuffer>,
}

impl View for CoherentBuffers {
    type V = Seq<CoherentBuffer>;

    closed spec fn view(&self) -> Seq<CoherentBuffer> {
        self.buffers@
    }
}

/// The buffers that do not stand at `addr`.
pub open spec fn without_buffer(buffers: Seq<CoherentBuffer>, addr: u64) -> Seq<CoherentBuffer> {
    buffers.filter(|buffer: CoherentBuffer| buffer.addr != addr)
}

impl CoherentBuffers {
    /// No buffers.
    pub fn new() -> (r: CoherentBuffers)
        ensures
            r@ == Seq::<CoherentBuffer>::empty(),
    {
        CoherentBuffers { buffers: Vec::new() }
    }

    /// The buffers, in the order in which they were allocated.
    pub fn buffers(&self) -> (r: &Vec<CoherentBuffer>)
        ensures
            r@ == self@,
    {
        &self.buffers
    }

    /// Takes in memory that was allocated for a device with the given mask. The
    /// result says whether the device reaches it; if not, it is not taken in,
    /// and is to be freed again.
    pub fn alloc_coherent(&mut self, addr: u64, phys: u64, size: u64, mask: u64) -> (r: bool)
        requires
            1 <= phys + size <= u64::MAX,
        ensures
            r == reachable(phys, size, mask),
            final(self)@ == if r {
                old(self)@.push(CoherentBuffer { addr, size })
            } else {
                old(self)@
            },
    {
        if (phys & !mask) != 0 || ((phys + size - 1) & !mask) != 0 {
            return false;
        }
        self.buffers.push(CoherentBuffer { addr, size });
        true
    }

    /// Forgets the buffers at `addr`.
    pub fn dealloc_coherent(&mut self, addr: u64)
        ensures
            final(self)@ == without_buffer(old(self)@, addr),
    {
        let ghost other = |buffer: CoherentBuffer| buffer.addr != addr;
        let mut kept: Vec<CoherentBuffer> = Vec::new();
        for i in 0..self.buffers.len()
            invariant
                other == (|buffer: CoherentBuffer| buffer.addr != addr),
                kept@ == self.buffers@.take(i as int).filter(other),
        {
            let buffer: CoherentBuffer = self.buffers[i];
            proof {
                reveal(Seq::filter);
                assert(self.buffers@.take(i + 1).drop_last() =~= self.buffers@.take(i as int));
            }
            if buffer.addr != addr {
                kept.push(buffer);
            }
        }
        assert(self.buffers@.take(self.buffers@.len() as int) =~= self.buffers@);
        self.buffers = kept;
    }
}

/// Freeing a buffer that was allocated at a fresh address undoes the
/// allocation.
pub proof fn law_dealloc_undoes_alloc(buffers: Seq<CoherentBuffer>, buffer: CoherentBuffer)
    requires
        forall|i: int| 0 <= i < buffers.len() ==> (#[trigger] buffers[i]).addr != buffer.addr,
    ensures
        without_buffer(buffers.push(buffer), buffer.addr) == buffers,
{
    let other = |other: CoherentBuffer| other.addr != buffer.addr;
    reveal(Seq::filter);
    assert(buffers.push(buffer).drop_last() =~= buffers);
    lemma_filter_all(buffers, other);
}

/// A filter that lets everything through changes nothing.
proof fn lemma_filter_all<T>(all: Seq<T>, pred: spec_fn(T) -> bool)
    requires
        forall|i: int| 0 <= i < all.len() ==> pred(#[trigger] all[i]),
    ensures
        all.filter(pred) == all,
    decreases all.len(),
{
    reveal(Seq::filter);
    if all.len() > 0 {
        lemma_filter_all(all.drop_last(), pred);
        assert(all.drop_last().push(all.last()) =~= all);
    }
}

/// After a buffer was freed, none is left at its address.
pub proof fn law_dealloc_leaves_none(buffers: Seq<CoherentBuffer>, addr: u64)
    ensures
        forall|i: int|
            0 <= i < without_buffer(buffers, addr).len() ==> (#[trigger] without_buffer(
                buffers,
                addr,
            )[i]).addr != addr,
{
    let other = |buffer: CoherentBuffer| buffer.addr != addr;
    assert forall|i: int| 0 <= i < without_buffer(buffers, addr).len() implies (
    #[trigger] without_buffer(buffers, addr)[i]).addr != addr by {
        buffers.lemma_filter_pred(other, i);
    }
}

/// Whether memory can be laid out with this size and alignment: the alignment
/// is a power of two, and the size, rounded up to the next multiple of it, does
/// not exceed `isize::MAX`.
pub open spec fn is_layout(size: usize, align: usize) -> bool {
    &&& exists|k: nat| align == #[trigger] pow2(k)
    &&& (size + align - 1) / (align as int) * align <= isize::MAX
}

/// Whether `core::alloc::Layout::from_size_align` accepts a size and an
/// alignment. Its documentation names the two conditions of `is_layout`.
#[verifier::external_body]
fn layout_accepts(size: usize, align: usize) -> (r: bool)
    ensures
        r == is_layout(size, align),
{
    core::alloc::Layout::from_size_align(size, align).is_ok()
}

/// The alignment with which a buffer is handed to a device: the one that is asked
/// for, or 1 where none is.
pub open spec fn used_align(align: usize) -> usize {
    if align == 0 {
        1
    } else {
        align
    }
}

/// Whether a buffer of this size can be handed to a device with this alignment.
pub fn has_layout(size: usize, align: usize) -> (r: bool)
    ensures
        r == is_layout(size, used_align(align)),
{
    let used: usize = if align < 1 {
        1
    } else {
        align
    };
    layout_accepts(size, used)
}

/// A buffer of the processor that is handed to a device.
#[derive(Debug)]
pub struct Mapping {
    pub addr: u64,
    /// Where the device finds the buffer.
    pub dma_addr: u64,
    pub size: usize,
    pub align: usize,
    /// The cache lines to clean and invalidate before the device gets the buffer.
    pub lines: Vec<u64>,
}

/// Hands the buffer of `size` bytes at `addr`, whose physical address is `phys`,
/// to a device.
pub fn map_single(addr: u64, phys: u64, size: usize, align: usize) -> (r: Mapping)
    requires
        size > 0,
        addr + size <= u64::MAX,
        is_layout(size, used_align(align)),
    ensures
        r.addr == addr,
        r.dma_addr == phys,
        r.size == size,
        r.align == used_align(align),
        r.lines@ == cache_lines(addr, size as u64),
{
    let lines: Vec<u64> = flush_cache(addr, size as u64);
    let align: usize = if align < 1 {
        1
    } else {
        align
    };
    Mapping { addr, dma_addr: phys, size, align, lines }
}

/// Takes a buffer back from a device: finds the cache lines to clean and
/// invalidate, so that the processor sees what the device wrote to the `size`
/// bytes at `addr`.
pub fn unmap_single(addr: u64, size: usize) -> (r: Vec<u64>)
    requires
        addr + size <= u64::MAX,
    ensures
        r@ == cache_lines(addr, size as u64),
{
    flush_cache(addr, size as u64)
}

/// Memory can be laid out exactly when the alignment is a power of two that leaves
/// room for the size below the limit of `isize`.
pub proof fn law_layout_limit(size: usize, align: usize)
    ensures
        is_layout(size, align) <==> (exists|k: nat| align == #[trigger] pow2(k)) && size
            <= isize::MAX + 1 - align,
{
    if exists|k: nat| align == #[trigger] pow2(k) {
        let k = choose|k: nat| align == #[trigger] pow2(k);
        let limit = isize::MAX + 1;
        unsigned_int_max_values();
        signed_int_min_max_values();
        let n = (isize::BITS - 1) as nat;
        assert(limit == pow2(n) && align < pow2(n + 1));
        if k > n {
            if k > n + 1 {
                lemma_pow2_strictly_increases(n + 1, k);
            }
            assert(false);
        }
        lemma_pow2_adds((n - k) as nat, k);
        let (a, q, s) = (align as int, pow2((n - k) as nat) as int, size as int);
        let c = (s + a - 1) / a;
        lemma_pow2_pos(k);
        lemma_fundamental_div_mod(s + a - 1, a);
        lemma_mod_bound(s + a - 1, a);
        let m = (s + a - 1) % a;
        assert(c * a <= q * a - 1 <==> s <= q * a - a) by (nonlinear_arith)
            requires
                s + a - 1 == a * c + m,
                0 <= m < a,
                a > 0,
        ;
    }
}

/// The flushed lines follow each other in steps of 64 bytes, from the one that holds
/// the first byte to the one that holds the last; for no bytes there are none.
pub proof fn law_lines_follow_each_other(addr: u64, size: u64)
    requires
        addr + size <= u64::MAX,
    ensures
        ({
            let lines = cache_lines(addr, size);
            &&& size == 0 <==> lines.len() == 0
            &&& forall|i: int| 0 <= i < lines.len() ==> #[trigger] lines[i] % 64 == 0
            &&& forall|i: int|
                0 <= i < lines.len() ==> #[trigger] lines[i] == lines[0] + 64 * i
            &&& size > 0 ==> lines[0] <= addr < lines[0] + 64
            &&& size > 0 ==> lines[lines.len() - 1] < addr + size <= lines[lines.len() - 1] + 64
        }),
{
}

/// A device reaches memory exactly when the first and the last byte need no address
/// line outside the mask, whatever mask it is.
pub proof fn law_reachable_within_mask(phys: u64, size: u64, mask: u64)
    requires
        1 <= phys + size <= u64::MAX,
    ensures
        ({
            let last = (phys + size - 1) as u64;
            reachable(phys, size, mask) <==> phys & mask == phys && last & mask == last
        }),
{
    let last = (phys + size - 1) as u64;
    assert((phys & !mask == 0 <==> phys & mask == phys) && (last & !mask == 0 <==> last & mask
        == last)) by (bit_vector);
}

/// Freeing keeps every buffer at another address, in its order.
pub proof fn law_dealloc_keeps_the_others(
    first: Seq<CoherentBuffer>,
    second: Seq<CoherentBuffer>,
    buffer: CoherentBuffer,
    addr: u64,
)
    ensures
        without_buffer(first + second, addr) == without_buffer(first, addr) + without_buffer(
            second,
            addr,
        ),
        without_buffer(seq![buffer], addr) == if buffer.addr == addr {
            Seq::empty()
        } else {
            seq![buffer]
        },
{
    let other = |buffer: CoherentBuffer| buffer.addr != addr;
    Seq::filter_distributes_over_add(first, second, other);
    reveal_with_fuel(Seq::filter, 2);
    assert(seq![buffer].drop_last() =~= Seq::empty());
    assert(seq![buffer].filter(other) =~= if buffer.addr == addr {
        Seq::empty()
    } else {
        seq![buffer]
    });
}

/// The alignment that is used is the one that is asked for, but never less than 1.
pub proof fn law_used_align(align: usize)
    ensures
        used_align(align) >= 1,
        used_align(align) == align || align == 0 && used_align(align) == 1,
{
}

} // verus!
