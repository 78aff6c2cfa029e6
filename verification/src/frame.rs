//! Video frames, and the small pool that holds them between the stream and
//! the readers.
use vstd::prelude::*;

verus! {

/// A complete video frame.
#[derive(Debug)]
pub struct FrameEvent {
    pub data: Vec<u8>,
}

impl View for FrameEvent {
    type V = Seq<u8>;

    open spec fn view(&self) -> Seq<u8> {
        self.data@
    }
}

/// The data of each frame.
pub open spec fn frames(events: Seq<FrameEvent>) -> Seq<Seq<u8>> {
    events.map_values(|event: FrameEvent| event@)
}

/// How many frames the pool holds.
pub const FRAME_POOL_CAPACITY: usize = 3;

/// The last `count` of `all`, or all of it where there are fewer.
pub open spec fn newest(all: Seq<Seq<u8>>, count: nat) -> Seq<Seq<u8>> {
    if all.len() <= count {
        all
    } else {
        all.skip(all.len() - count)
    }
}

/// The newest frames that the stream has delivered and nobody has taken yet,
/// oldest first.
pub struct FramePool {
    events: Vec<FrameEvent>,
}

impl View for FramePool {
    type V = Seq<Seq<u8>>;

    closed spec fn view(&self) -> Seq<Seq<u8>> {
        frames(self.events@)
    }
}

impl FramePool {
    /// The pool never holds more than `FRAME_POOL_CAPACITY` frames.
    #[verifier::type_invariant]
    spec fn within_capacity(self) -> bool {
        self.events@.len() <= FRAME_POOL_CAPACITY
    }

    /// An empty pool.
    pub fn new() -> (r: FramePool)
        ensures
            r@ == Seq::<Seq<u8>>::empty(),
    {
        let r = FramePool { events: Vec::with_capacity(FRAME_POOL_CAPACITY) };
        assert(r@ =~= Seq::<Seq<u8>>::empty());
        r
    }

    /// Adds the frames of one transfer, in order. Where the pool is full, the
    /// oldest frame makes room.
    pub fn add(&mut self, new_events: Vec<FrameEvent>)
        ensures
            final(self)@ == newest(old(self)@ + frames(new_events@), FRAME_POOL_CAPACITY as nat),
            final(self)@.len() <= FRAME_POOL_CAPACITY,
    {
        proof {
            use_type_invariant(&*self);
        }
        let ghost before = self@;
        let ghost incoming = frames(new_events@);
        let mut events: Vec<FrameEvent> = Vec::new();
        std::mem::swap(&mut self.events, &mut events);
        for event in it: new_events
            invariant
                incoming == frames(it.seq()),
                events@.len() <= FRAME_POOL_CAPACITY,
                frames(events@) == newest(
                    before + incoming.take(it.index() as int),
                    FRAME_POOL_CAPACITY as nat,
                ),
        {
            let ghost i: int = it.index() as int;
            assert(incoming.take(i + 1) =~= incoming.take(i).push(event@));
            assert(before + incoming.take(i + 1) =~= (before + incoming.take(i)).push(event@));
            let ghost held = events@;
            if events.len() >= FRAME_POOL_CAPACITY {
                events.remove(0);
                assert(frames(events@) =~= frames(held).skip(1));
            }
            let ghost kept = events@;
            events.push(event);
            assert(frames(events@) =~= frames(kept).push(event@));
            assert(frames(events@) =~= newest(
                before + incoming.take(i + 1),
                FRAME_POOL_CAPACITY as nat,
            ));
        }
        assert(incoming.take(incoming.len() as int) =~= incoming);
        std::mem::swap(&mut self.events, &mut events);
    }

    /// Takes the newest frame out of the pool.
    pub fn take_newest(&mut self) -> (r: Option<FrameEvent>)
        ensures
            old(self)@.len() == 0 ==> r is None && final(self)@ == old(self)@,
            old(self)@.len() > 0 ==> r is Some && r->0@ == old(self)@.last() && final(self)@
                == old(self)@.drop_last(),
    {
        proof {
            use_type_invariant(&*self);
        }
        let mut events: Vec<FrameEvent> = Vec::new();
        std::mem::swap(&mut self.events, &mut events);
        let ghost held = events@;
        let taken = events.pop();
        std::mem::swap(&mut self.events, &mut events);
        assert(self@ =~= if held.len() == 0 {
            frames(held)
        } else {
            frames(held).drop_last()
        });
        taken
    }

    /// How many frames there are.
    pub fn len(&self) -> (r: usize)
        ensures
            r == self@.len(),
            r <= FRAME_POOL_CAPACITY,
    {
        proof {
            use_type_invariant(&*self);
        }
        self.events.len()
    }
}

/// Whatever the pool held, the frame that came last is the next to be taken.
pub proof fn law_newest_frame_comes_next(held: Seq<Seq<u8>>, incoming: Seq<Seq<u8>>)
    requires
        incoming.len() > 0,
    ensures
        newest(held + incoming, FRAME_POOL_CAPACITY as nat).len() > 0,
        newest(held + incoming, FRAME_POOL_CAPACITY as nat).last() == incoming.last(),
{
}

/// It makes no difference whether frames come in one transfer or in two.
pub proof fn law_transfers_add_up(
    held: Seq<Seq<u8>>,
    first: Seq<Seq<u8>>,
    second: Seq<Seq<u8>>,
)
    ensures
        ({
            let capacity = FRAME_POOL_CAPACITY as nat;
            newest(newest(held + first, capacity) + second, capacity) == newest(
                held + (first + second),
                capacity,
            )
        }),
{
    let capacity = FRAME_POOL_CAPACITY as nat;
    assert(newest(newest(held + first, capacity) + second, capacity) =~= newest(
        held + (first + second),
        capacity,
    ));
}

} // verus!
