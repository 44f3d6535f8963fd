use vstd::prelude::*;
use std::collections::BTreeMap;

verus! {

broadcast use {vstd::std_specs::btree::group_btree_axioms, vstd::laws_cmp::group_laws_cmp};

/// A counting semaphore that bounds how many fetched blocks may wait for reordering.
/// Taking a permit never blocks here: when none is free the caller is told to wait for a
/// release and try again.
#[derive(Clone, Debug)]
pub struct Semaphore {
    remaining: usize,
}

impl Semaphore {
    /// The number of free permits.
    pub closed spec fn permits(&self) -> usize {
        self.remaining
    }

    /// A semaphore with `permits` free permits.
    pub fn new(permits: usize) -> (s: Semaphore)
        ensures
            s.permits() == permits,
    {
        Semaphore { remaining: permits }
    }

    /// Takes a permit if one is free and returns whether it did; when it returns false the
    /// caller must wait for a release.
    pub fn acquire(&mut self) -> (taken: bool)
        ensures
            taken == (old(self).permits() > 0),
            taken ==> final(self).permits() == old(self).permits() - 1,
            !taken ==> final(self).permits() == old(self).permits(),
    {
        if self.remaining == 0 {
            false
        } else {
            self.remaining = self.remaining - 1;
            true
        }
    }

    /// Gives back a permit.
    pub fn release(&mut self)
        requires
            old(self).permits() < usize::MAX,
        ensures
            final(self).permits() == old(self).permits() + 1,
    {
        self.remaining = self.remaining + 1;
    }

    /// The number of free permits.
    pub fn available(&self) -> (n: usize)
        ensures
            n == self.permits(),
    {
        self.remaining
    }
}

/// Counters that describe the progress of a block fetch. Counters wrap around, as atomic
/// counters do. The counters cannot be copied: the stages of a fetch share one value, so
/// that each sees the counts of the others.
#[derive(Debug)]
pub struct BlockFetcherStats {
    /// Blocks requested and not yet fetched.
    pub blocks_being_fetched: u64,
    /// Blocks sent to the reordering stage.
    pub blocks_sent_to_intermediate: u64,
    /// Blocks sent, in order, to the consumer.
    pub blocks_sent_to_final: u64,
    /// Blocks waiting in the reordering buffer.
    pub blocks_in_buffer: u64,
}

/// `x + 1`, wrapping to zero past the largest `u64`.
pub open spec fn wrap_inc(x: u64) -> u64 {
    if x == u64::MAX {
        0
    } else {
        (x + 1) as u64
    }
}

/// `x - 1`, wrapping to the largest `u64` below zero.
pub open spec fn wrap_dec(x: u64) -> u64 {
    if x == 0 {
        u64::MAX
    } else {
        (x - 1) as u64
    }
}

impl BlockFetcherStats {
    /// All counters at zero.
    pub fn new() -> (s: BlockFetcherStats)
        ensures
            s.blocks_being_fetched == 0,
            s.blocks_sent_to_intermediate == 0,
            s.blocks_sent_to_final == 0,
            s.blocks_in_buffer == 0,
    {
        BlockFetcherStats {
            blocks_being_fetched: 0,
            blocks_sent_to_intermediate: 0,
            blocks_sent_to_final: 0,
            blocks_in_buffer: 0,
        }
    }

    /// One more block is being fetched.
    pub fn increment_fetching(&mut self)
        ensures
            *final(self) == (BlockFetcherStats {
                blocks_being_fetched: wrap_inc(old(self).blocks_being_fetched),
                ..*old(self)
            }),
    {
        self.blocks_being_fetched = self.blocks_being_fetched.wrapping_add(1);
    }

    /// A fetch completed.
    pub fn decrement_fetching(&mut self)
        ensures
            *final(self) == (BlockFetcherStats {
                blocks_being_fetched: wrap_dec(old(self).blocks_being_fetched),
                ..*old(self)
            }),
    {
        self.blocks_being_fetched = self.blocks_being_fetched.wrapping_sub(1);
    }

    /// A block was sent to the reordering stage.
    pub fn increment_intermediate(&mut self)
        ensures
            *final(self) == (BlockFetcherStats {
                blocks_sent_to_intermediate: wrap_inc(old(self).blocks_sent_to_intermediate),
                ..*old(self)
            }),
    {
        self.blocks_sent_to_intermediate = self.blocks_sent_to_intermediate.wrapping_add(1);
    }

    /// The reordering stage took a block.
    pub fn decrement_intermediate(&mut self)
        ensures
            *final(self) == (BlockFetcherStats {
                blocks_sent_to_intermediate: wrap_dec(old(self).blocks_sent_to_intermediate),
                ..*old(self)
            }),
    {
        self.blocks_sent_to_intermediate = self.blocks_sent_to_intermediate.wrapping_sub(1);
    }

    /// A block was sent to the consumer.
    pub fn increment_final(&mut self)
        ensures
            *final(self) == (BlockFetcherStats {
                blocks_sent_to_final: wrap_inc(old(self).blocks_sent_to_final),
                ..*old(self)
            }),
    {
        self.blocks_sent_to_final = self.blocks_sent_to_final.wrapping_add(1);
    }

    /// The consumer took a block.
    pub fn decrement_final(&mut self)
        ensures
            *final(self) == (BlockFetcherStats {
                blocks_sent_to_final: wrap_dec(old(self).blocks_sent_to_final),
                ..*old(self)
            }),
    {
        self.blocks_sent_to_final = self.blocks_sent_to_final.wrapping_sub(1);
    }

    /// A block entered the reordering buffer.
    pub fn increment_buffer(&mut self)
        ensures
            *final(self) == (BlockFetcherStats {
                blocks_in_buffer: wrap_inc(old(self).blocks_in_buffer),
                ..*old(self)
            }),
    {
        self.blocks_in_buffer = self.blocks_in_buffer.wrapping_add(1);
    }

    /// A block left the reordering buffer.
    pub fn decrement_buffer(&mut self)
        ensures
            *final(self) == (BlockFetcherStats {
                blocks_in_buffer: wrap_dec(old(self).blocks_in_buffer),
                ..*old(self)
            }),
    {
        self.blocks_in_buffer = self.blocks_in_buffer.wrapping_sub(1);
    }

    /// The number of blocks being fetched.
    pub fn get_blocks_being_fetched(&self) -> (n: u64)
        ensures
            n == self.blocks_being_fetched,
    {
        self.blocks_being_fetched
    }

    /// The number of blocks sent to the reordering stage.
    pub fn get_blocks_sent_to_intermediate(&self) -> (n: u64)
        ensures
            n == self.blocks_sent_to_intermediate,
    {
        self.blocks_sent_to_intermediate
    }

    /// The number of blocks sent to the consumer.
    pub fn get_blocks_sent_to_final(&self) -> (n: u64)
        ensures
            n == self.blocks_sent_to_final,
    {
        self.blocks_sent_to_final
    }

    /// The number of blocks in the reordering buffer.
    pub fn get_blocks_in_buffer(&self) -> (n: u64)
        ensures
            n == self.blocks_in_buffer,
    {
        self.blocks_in_buffer
    }

    /// All four counters: fetching, intermediate, final, buffer.
    pub fn snapshot(&self) -> (r: (u64, u64, u64, u64))
        ensures
            r == (
                self.blocks_being_fetched,
                self.blocks_sent_to_intermediate,
                self.blocks_sent_to_final,
                self.blocks_in_buffer,
            ),
    {
        (
            self.get_blocks_being_fetched(),
            self.get_blocks_sent_to_intermediate(),
            self.get_blocks_sent_to_final(),
            self.get_blocks_in_buffer(),
        )
    }
}

/// How many heights from `from` on hold a waiting block, without a gap.
pub open spec fn waiting_run<B>(waiting: Map<u64, B>, from: u64) -> nat
    decreases u64::MAX - from,
{
    if from < u64::MAX && waiting.contains_key(from) {
        1 + waiting_run(waiting, (from + 1) as u64)
    } else {
        0
    }
}

/// What a reordering buffer expecting height `next`, with `waiting` blocks, does with the
/// block at `height`: the next expected height, the waiting blocks and the blocks handed out
/// with their heights. The next expected block goes out with the waiting ones that follow it
/// without a gap; any other block waits.
pub open spec fn receive_spec<B>(next: u64, waiting: Map<u64, B>, height: u64, block: B) -> (
    u64,
    Map<u64, B>,
    Seq<(u64, B)>,
) {
    if height != next {
        (next, waiting.insert(height, block), Seq::empty())
    } else {
        let run = waiting_run(waiting, (next + 1) as u64);
        let new_next = (next + 1 + run) as u64;
        (
            new_next,
            waiting.remove_keys(Set::new(|h: u64| next < h < new_next)),
            Seq::new(
                run + 1,
                |i: int|
                    if i == 0 {
                        (next, block)
                    } else {
                        ((next + i) as u64, waiting[(next + i) as u64])
                    },
            ),
        )
    }
}

/// What a reordering buffer does with the blocks `receipts`, given in turn: the next expected
/// height, the waiting blocks, and all the blocks handed out, with their heights, in order.
pub open spec fn receive_all<B>(next: u64, waiting: Map<u64, B>, receipts: Seq<(u64, B)>) -> (
    u64,
    Map<u64, B>,
    Seq<(u64, B)>,
)
    decreases receipts.len(),
{
    if receipts.len() == 0 {
        (next, waiting, Seq::empty())
    } else {
        let first = receive_spec(next, waiting, receipts[0].0, receipts[0].1);
        let rest = receive_all(first.0, first.1, receipts.drop_first());
        (rest.0, rest.1, first.2 + rest.2)
    }
}

proof fn lemma_waiting_run_bound<B>(waiting: Map<u64, B>, from: u64)
    ensures
        from + waiting_run(waiting, from) <= u64::MAX,
    decreases u64::MAX - from,
{
    if from < u64::MAX && waiting.contains_key(from) {
        lemma_waiting_run_bound(waiting, (from + 1) as u64);
    }
}

proof fn lemma_waiting_run_to<B>(waiting: Map<u64, B>, from: u64, to: u64)
    requires
        from <= to,
        forall|h: u64| from <= h < to ==> #[trigger] waiting.contains_key(h),
        !waiting.contains_key(to),
    ensures
        waiting_run(waiting, from) == to - from,
    decreases to - from,
{
    if from < to {
        assert(waiting.contains_key(from));
        lemma_waiting_run_to(waiting, (from + 1) as u64, to);
    }
}

/// One receipt keeps the waiting heights below the largest one, and hands out the blocks at
/// the consecutive heights from the one expected up to the new expected one.
proof fn lemma_receive_spec_delivers_in_order<B>(next: u64, waiting: Map<u64, B>, height: u64, block: B)
    requires
        height < u64::MAX,
        forall|h: u64| #[trigger] waiting.contains_key(h) ==> h < u64::MAX,
    ensures
        ({
            let r = receive_spec(next, waiting, height, block);
            &&& next <= r.0
            &&& r.2.len() == r.0 - next
            &&& forall|k: int| 0 <= k < r.2.len() ==> #[trigger] r.2[k].0 == next + k
            &&& forall|h: u64| #[trigger] r.1.contains_key(h) ==> h < u64::MAX
            &&& forall|h: u64| #[trigger] r.1.contains_key(h) ==> (h == height && r.1[h] == block)
                || (waiting.contains_key(h) && r.1[h] == waiting[h])
            &&& forall|k: int| 0 <= k < r.2.len() ==> #[trigger] r.2[k] == (height, block) || (
                waiting.contains_key(r.2[k].0) && r.2[k].1 == waiting[r.2[k].0])
        }),
{
    if height == next {
        lemma_waiting_run_bound(waiting, (next + 1) as u64);
        let r = receive_spec(next, waiting, height, block);
        assert forall|k: int| 0 <= k < r.2.len() implies #[trigger] r.2[k] == (height, block) || (
            waiting.contains_key(r.2[k].0) && r.2[k].1 == waiting[r.2[k].0]) by {
            if k > 0 {
                lemma_waiting_run_covers(waiting, (next + 1) as u64, (next + k) as u64);
            }
        }
    }
}

proof fn lemma_waiting_run_covers<B>(waiting: Map<u64, B>, from: u64, h: u64)
    requires
        from <= h < from + waiting_run(waiting, from),
    ensures
        waiting.contains_key(h),
    decreases h - from,
{
    if from < h {
        lemma_waiting_run_covers(waiting, (from + 1) as u64, h);
    }
}

/// A block handed out, with its height, was among `receipts` or was waiting at that height.
pub open spec fn received_or_waiting<B>(p: (u64, B), waiting: Map<u64, B>, receipts: Seq<(u64, B)>) -> bool {
    (exists|j: int| 0 <= j < receipts.len() && receipts[j] == p) || (waiting.contains_key(p.0)
        && waiting[p.0] == p.1)
}

/// Over any blocks received in turn, a reordering buffer hands out blocks at consecutive
/// heights, in order, from the one it first expected to the one it expects in the end: no
/// height is skipped and none is handed out twice.
pub proof fn lemma_receive_all_delivers_in_order<B>(
    next: u64,
    waiting: Map<u64, B>,
    receipts: Seq<(u64, B)>,
)
    requires
        forall|h: u64| #[trigger] waiting.contains_key(h) ==> h < u64::MAX,
        forall|j: int| 0 <= j < receipts.len() ==> #[trigger] receipts[j].0 < u64::MAX,
    ensures
        ({
            let r = receive_all(next, waiting, receipts);
            &&& next <= r.0
            &&& r.2.len() == r.0 - next
            &&& forall|k: int| 0 <= k < r.2.len() ==> #[trigger] r.2[k].0 == next + k
            &&& forall|k: int| 0 <= k < r.2.len() ==> received_or_waiting(#[trigger] r.2[k], waiting, receipts)
        }),
    decreases receipts.len(),
{
    if receipts.len() > 0 {
        assert(receipts[0].0 < u64::MAX);
        lemma_receive_spec_delivers_in_order(next, waiting, receipts[0].0, receipts[0].1);
        let first = receive_spec(next, waiting, receipts[0].0, receipts[0].1);
        let tail = receipts.drop_first();
        assert forall|j: int| 0 <= j < tail.len() implies #[trigger] tail[j].0 < u64::MAX by {
            assert(tail[j] == receipts[j + 1]);
        }
        lemma_receive_all_delivers_in_order(first.0, first.1, tail);
        let rest = receive_all(first.0, first.1, tail);
        let all = first.2 + rest.2;
        assert forall|k: int| 0 <= k < all.len() implies #[trigger] all[k].0 == next + k by {
            if k < first.2.len() {
                assert(all[k] == first.2[k]);
            } else {
                assert(all[k] == rest.2[k - first.2.len()]);
            }
        }
        assert forall|k: int| 0 <= k < all.len() implies received_or_waiting(#[trigger] all[k], waiting, receipts) by {
            if k < first.2.len() {
                assert(all[k] == first.2[k]);
                if all[k] == receipts[0] {
                    assert(receipts[0] == all[k]);
                }
            } else {
                let p = rest.2[k - first.2.len()];
                assert(all[k] == p);
                assert(received_or_waiting(p, first.1, tail));
                if exists|j: int| 0 <= j < tail.len() && tail[j] == p {
                    let j = choose|j: int| 0 <= j < tail.len() && tail[j] == p;
                    assert(receipts[j + 1] == p);
                } else {
                    assert(first.1.contains_key(p.0));
                    if p.0 == receipts[0].0 && first.1[p.0] == receipts[0].1 {
                        assert(receipts[0] == p);
                    }
                }
            }
        }
    }
}

/// Puts blocks fetched out of order back in order of height.
pub struct ReorderBuffer<B> {
    next_expected: u64,
    buffer: BTreeMap<u64, B>,
}

impl<B> ReorderBuffer<B> {
    /// The height of the next block to hand out.
    pub closed spec fn next(&self) -> u64 {
        self.next_expected
    }

    /// The blocks waiting, by height.
    pub closed spec fn waiting(&self) -> Map<u64, B> {
        self.buffer@
    }

    #[verifier::type_invariant]
    closed spec fn inv(self) -> bool {
        forall|h: u64| #[trigger] self.buffer@.contains_key(h) ==> h < u64::MAX
    }

    /// An empty buffer that starts at `start_height`.
    pub fn new(start_height: u64) -> (r: ReorderBuffer<B>)
        ensures
            r.next() == start_height,
            r.waiting() == Map::<u64, B>::empty(),
    {
        ReorderBuffer { next_expected: start_height, buffer: BTreeMap::new() }
    }

    /// Takes the block fetched at `height`. When it is the next expected one, it is handed out
    /// with every waiting block that follows it without a gap, in order of height; otherwise
    /// it waits (replacing any block already waiting at that height).
    pub fn receive(&mut self, height: u64, block: B) -> (out: Vec<B>)
        requires
            height < u64::MAX,
        ensures
            ({
                let r = receive_spec(old(self).next(), old(self).waiting(), height, block);
                &&& final(self).next() == r.0
                &&& final(self).waiting() == r.1
                &&& out@.len() == r.2.len()
                &&& forall|i: int| 0 <= i < out@.len() ==> #[trigger] out@[i] == r.2[i].1
            }),
            height != old(self).next() ==> out@.len() == 0 && final(self).next() == old(self).next()
                && final(self).waiting() == old(self).waiting().insert(height, block),
            height == old(self).next() ==> {
                &&& out@.len() >= 1
                &&& out@[0] == block
                &&& final(self).next() == old(self).next() + out@.len()
                &&& forall|h: u64|
                    old(self).next() < h < final(self).next() ==> #[trigger] old(
                        self,
                    ).waiting().contains_key(h)
                &&& forall|i: int|
                    #![trigger out@[i]]
                    1 <= i < out@.len() ==> out@[i] == old(self).waiting()[(old(self).next()
                        + i) as u64]
                &&& !old(self).waiting().contains_key(final(self).next())
                &&& final(self).waiting() == old(self).waiting().remove_keys(
                    Set::new(|h: u64| old(self).next() < h < final(self).next()),
                )
            },
    {
        proof {
            use_type_invariant(&*self);
        }
        let mut buffer: BTreeMap<u64, B> = BTreeMap::new();
        std::mem::swap(&mut buffer, &mut self.buffer);
        if height != self.next_expected {
            buffer.insert(height, block);
            self.buffer = buffer;
            return Vec::new();
        }
        let ghost start = self.next_expected;
        let ghost old_waiting = buffer@;
        let mut out: Vec<B> = Vec::new();
        out.push(block);
        let mut next = self.next_expected + 1;
        loop
            invariant_except_break
                start < u64::MAX,
                forall|h: u64| #[trigger] old_waiting.contains_key(h) ==> h < u64::MAX,
                out@.len() >= 1,
                out@[0] == block,
                next == start + out@.len(),
                forall|h: u64| start < h < next ==> #[trigger] old_waiting.contains_key(h),
                forall|i: int|
                    #![trigger out@[i]]
                    1 <= i < out@.len() ==> out@[i] == old_waiting[(start + i) as u64],
                buffer@ == old_waiting.remove_keys(Set::new(|h: u64| start < h < next)),
                forall|h: u64| #[trigger] buffer@.contains_key(h) ==> h < u64::MAX,
            ensures
                out@.len() >= 1,
                out@[0] == block,
                next == start + out@.len(),
                forall|h: u64| start < h < next ==> #[trigger] old_waiting.contains_key(h),
                forall|i: int|
                    #![trigger out@[i]]
                    1 <= i < out@.len() ==> out@[i] == old_waiting[(start + i) as u64],
                !old_waiting.contains_key(next),
                buffer@ == old_waiting.remove_keys(Set::new(|h: u64| start < h < next)),
                forall|h: u64| #[trigger] buffer@.contains_key(h) ==> h < u64::MAX,
            decreases u64::MAX - next,
        {
            let ghost before = buffer@;
            let n = next;
            match buffer.remove(&n) {
                Some(b) => {
                    proof {
                        assert(before.contains_key(n));
                        assert(old_waiting.contains_key(n));
                        assert(n < u64::MAX);
                    }
                    proof {
                        assert(before[n] == b);
                        assert(old_waiting[n] == b);
                    }
                    let ghost out_before = out@;
                    out.push(b);
                    next = n + 1;
                    proof {
                        assert forall|i: int|
                            #![trigger out@[i]]
                            1 <= i < out@.len() implies out@[i] == old_waiting[(start + i) as u64] by {
                            if i < out@.len() - 1 {
                                assert(out@[i] == out_before[i]);
                            }
                        }
                        assert(buffer@ =~= old_waiting.remove_keys(
                            Set::new(|h: u64| start < h < next),
                        ));
                    }
                },
                None => {
                    proof {
                        if old_waiting.contains_key(n) {
                            assert(before.contains_key(n));
                        }
                    }
                    break;
                },
            }
        }
        proof {
            lemma_waiting_run_to(old_waiting, (start + 1) as u64, next);
        }
        self.next_expected = next;
        self.buffer = buffer;
        out
    }
}

/// The seconds to wait before the next attempt after `errors` failed attempts: twice as long
/// each time, at most two minutes.
pub open spec fn spec_retry_delay(errors: u32) -> u64 {
    if errors >= 7 {
        120
    } else {
        vstd::arithmetic::power2::pow2(errors as nat) as u64
    }
}

/// The seconds to wait before the next attempt to fetch a block after `errors` failed
/// attempts.
pub fn retry_delay_seconds(errors: u32) -> (s: u64)
    requires
        errors >= 1,
    ensures
        s == spec_retry_delay(errors),
        1 <= s <= 120,
{
    if errors >= 7 {
        120
    } else {
        let s: u64 = 1u64 << errors;
        proof {
            vstd::arithmetic::power2::lemma2_to64();
            assert(1u64 << errors == vstd::arithmetic::power2::pow2(errors as nat)) by {
                vstd::bits::lemma_u64_shl_is_mul(1u64, errors as u64);
                vstd::arithmetic::power2::lemma_pow2(errors as nat);
            }
        }
        s
    }
}

} // verus!
