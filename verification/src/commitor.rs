//! The commit buffer: a ring that hands instances to the committer in rank
//! order, each as soon as it and all instances before it are sealed.

use crate::config::{exact_rank, rank_of, SeqNumber};
use crate::messages::{Block, Digest};
use vstd::prelude::*;

verus! {

/// Number of instances, counted from the next one to commit, that the
/// buffer can hold at a time.
pub const MAX_BLOCK_BUFFER: usize = 100000;

/// What the committer is told about one instance: the payload of the
/// delivered block, or nothing for an excluded instance.
#[derive(Clone, Debug, PartialEq, Eq)]
pub struct Commit {
    pub digests: Vec<Digest>,
    pub epoch: SeqNumber,
    pub height: SeqNumber,
}

/// The content of a commit notice.
pub struct CommitContent {
    pub digests: Seq<Digest>,
    pub epoch: SeqNumber,
    pub height: SeqNumber,
}

impl Commit {
    /// The content of the notice.
    pub open spec fn view(&self) -> CommitContent {
        CommitContent { digests: self.digests@, epoch: self.epoch, height: self.height }
    }
}

/// The contents of a list of notices.
pub open spec fn commit_contents(commits: Seq<Commit>) -> Seq<CommitContent> {
    commits.map_values(|commit: Commit| commit@)
}

/// Number of sealed instances at the front of the window.
pub open spec fn sealed_run(window: Seq<Option<CommitContent>>) -> nat
    decreases window.len(),
{
    if window.len() == 0 || window[0] is None {
        0
    } else {
        1 + sealed_run(window.skip(1))
    }
}

/// The buffer as a window over the ranks from `next` on: position `i`
/// stands for rank `next + i`, and holds what is sealed for it.
pub struct CommitorState {
    pub size: nat,
    pub next: nat,
    pub window: Seq<Option<CommitContent>>,
}

impl CommitorState {
    /// Nothing sealed, rank 0 is next.
    pub open spec fn empty(size: nat) -> Self {
        CommitorState {
            size,
            next: 0,
            window: Seq::new(MAX_BLOCK_BUFFER as nat, |i: int| None::<CommitContent>),
        }
    }

    /// Each sealed position holds an instance of the rank it stands for.
    pub open spec fn wf(self) -> bool {
        &&& self.window.len() == MAX_BLOCK_BUFFER
        &&& 0 < self.size <= u64::MAX
        &&& self.next <= 0x1_0000_0000_0000_0000 * self.size
        &&& forall|i: int|
            0 <= i < self.window.len() ==> (#[trigger] self.window[i] matches Some(c) ==> c.height
                < self.size && rank_of(self.size, c.epoch, c.height) == self.next + i)
    }

    /// Seals the fate of (epoch, height), unless that instance does not
    /// exist, lies outside the window, or is sealed already.
    pub open spec fn seal(self, content: CommitContent) -> Self {
        let rank = rank_of(self.size, content.epoch, content.height);
        if content.height < self.size && self.next <= rank < self.next + MAX_BLOCK_BUFFER
            && self.window[rank - self.next] is None {
            CommitorState { window: self.window.update(rank - self.next, Some(content)), ..self }
        } else {
            self
        }
    }

    /// The notices that are due: the sealed run at the front of the window.
    pub open spec fn due(self) -> Seq<CommitContent> {
        Seq::new(sealed_run(self.window), |i: int| self.window[i]->0)
    }

    /// The buffer after the due notices have left.
    pub open spec fn drained(self) -> Self {
        let run = sealed_run(self.window);
        CommitorState {
            size: self.size,
            next: self.next + run,
            window: self.window.skip(run as int) + Seq::new(run, |i: int| None::<CommitContent>),
        }
    }

    /// A delivered block: sealed with its payload.
    pub open spec fn buffer_block(self, block: Block) -> (Self, Seq<CommitContent>) {
        let sealed = self.seal(
            CommitContent { digests: block.payload@, epoch: block.epoch, height: block.height },
        );
        (sealed.drained(), sealed.due())
    }

    /// An excluded instance: sealed with nothing.
    pub open spec fn filter_block(self, epoch: SeqNumber, height: SeqNumber) -> (
        Self,
        Seq<CommitContent>,
    ) {
        let sealed = self.seal(CommitContent { digests: Seq::empty(), epoch, height });
        (sealed.drained(), sealed.due())
    }
}

/// The sealed run is a run: it fits in the window, every position in it is
/// sealed, and the position after it is not.
pub proof fn lemma_sealed_run(window: Seq<Option<CommitContent>>)
    ensures
        sealed_run(window) <= window.len(),
        forall|i: int| 0 <= i < sealed_run(window) ==> window[i] is Some,
        sealed_run(window) < window.len() ==> window[sealed_run(window) as int] is None,
    decreases window.len(),
{
    if window.len() > 0 && window[0] is Some {
        let rest = window.skip(1);
        lemma_sealed_run(rest);
        assert forall|i: int| 0 <= i < sealed_run(window) implies window[i] is Some by {
            if i > 0 {
                assert(rest[i - 1] == window[i]);
            }
        }
        if sealed_run(window) < window.len() {
            assert(rest[sealed_run(rest) as int] == window[sealed_run(window) as int]);
        }
    }
}

/// A run that is sealed up to `k` and open at `k` has length `k`.
proof fn lemma_sealed_run_is(window: Seq<Option<CommitContent>>, k: int)
    requires
        0 <= k <= window.len(),
        forall|i: int| 0 <= i < k ==> window[i] is Some,
        k < window.len() ==> window[k] is None,
    ensures
        sealed_run(window) == k,
{
    lemma_sealed_run(window);
    let run = sealed_run(window) as int;
    if run < k {
        assert(window[run] is Some);
    } else if run > k {
        assert(window[k] is Some);
    }
}

/// Sealing keeps the buffer well formed.
pub proof fn lemma_seal_wf(state: CommitorState, content: CommitContent)
    requires
        state.wf(),
    ensures
        state.seal(content).wf(),
{
}

/// The due notices carry the ranks `next`, `next + 1`, and so on, so the
/// ranks that leave the buffer are strictly increasing; and what stays is
/// well formed, with `next` moved past them.
pub proof fn lemma_due_in_rank_order(state: CommitorState)
    requires
        state.wf(),
    ensures
        state.drained().wf(),
        state.drained().next == state.next + state.due().len(),
        forall|i: int|
            0 <= i < state.due().len() ==> rank_of(
                state.size,
                (#[trigger] state.due()[i]).epoch,
                state.due()[i].height,
            ) == state.next + i,
{
    lemma_sealed_run(state.window);
    let run = sealed_run(state.window) as int;
    let after = state.drained();
    if run > 0 {
        let last = state.window[run - 1]->0;
        assert(rank_of(state.size, last.epoch, last.height) == state.next + run - 1);
        assert(last.epoch * state.size <= 0xffff_ffff_ffff_ffff * state.size)
            by (nonlinear_arith)
            requires
                last.epoch <= 0xffff_ffff_ffff_ffff,
                state.size >= 0,
        ;
        assert(0x1_0000_0000_0000_0000 * state.size == 0xffff_ffff_ffff_ffff * state.size
            + state.size) by (nonlinear_arith);
    }
    assert forall|i: int| 0 <= i < after.window.len() implies (
    #[trigger] after.window[i] matches Some(c) ==> c.height < after.size && rank_of(
        after.size,
        c.epoch,
        c.height,
    ) == after.next + i) by {
        if i < state.window.len() - run {
            assert(after.window[i] == state.window[i + run]);
        }
    }
}

/// Ranks leave the buffer in strictly increasing order, within one call
/// and from one call to the next: whatever is sealed after a first batch
/// of notices has left, every notice of the second batch has a higher
/// rank than every notice of the first.
pub proof fn lemma_ranks_strictly_increase(
    state: CommitorState,
    first: CommitContent,
    second: CommitContent,
    i: int,
    j: int,
)
    requires
        state.wf(),
        0 <= i < state.seal(first).due().len(),
        0 <= j < state.seal(first).drained().seal(second).due().len(),
    ensures
        i + 1 < state.seal(first).due().len() ==> rank_of(
            state.size,
            state.seal(first).due()[i].epoch,
            state.seal(first).due()[i].height,
        ) < rank_of(
            state.size,
            state.seal(first).due()[i + 1].epoch,
            state.seal(first).due()[i + 1].height,
        ),
        rank_of(
            state.size,
            state.seal(first).due()[i].epoch,
            state.seal(first).due()[i].height,
        ) < rank_of(
            state.size,
            state.seal(first).drained().seal(second).due()[j].epoch,
            state.seal(first).drained().seal(second).due()[j].height,
        ),
{
    let sealed = state.seal(first);
    lemma_seal_wf(state, first);
    lemma_due_in_rank_order(sealed);
    let later = sealed.drained().seal(second);
    lemma_seal_wf(sealed.drained(), second);
    lemma_due_in_rank_order(later);
}

/// Rank of the instance that a notice speaks of.
pub open spec fn notice_rank(size: nat, notice: CommitContent) -> nat {
    rank_of(size, notice.epoch, notice.height)
}

/// Whether the notices carry the ranks `first`, `first + 1`, and so on.
pub open spec fn consecutive_from(size: nat, first: nat, notices: Seq<CommitContent>) -> bool {
    forall|i: int| 0 <= i < notices.len() ==> notice_rank(size, #[trigger] notices[i]) == first + i
}

impl CommitorState {
    /// The buffer after a run of instances was sealed one by one, each
    /// time handing out what was due.
    pub open spec fn after(self, sealed: Seq<CommitContent>) -> Self
        decreases sealed.len(),
    {
        if sealed.len() == 0 {
            self
        } else {
            self.after(sealed.drop_last()).seal(sealed.last()).drained()
        }
    }

    /// Every notice handed out during such a run, in the order in which
    /// they left.
    pub open spec fn handed_out(self, sealed: Seq<CommitContent>) -> Seq<CommitContent>
        decreases sealed.len(),
    {
        if sealed.len() == 0 {
            Seq::empty()
        } else {
            self.handed_out(sealed.drop_last()) + self.after(sealed.drop_last()).seal(
                sealed.last(),
            ).due()
        }
    }
}

/// Over a whole run, whatever is sealed and in whatever order, the notices
/// that leave the buffer carry the ranks `next`, `next + 1`, and so on
/// without a gap, and the buffer ends up past the last of them.
pub proof fn lemma_run_in_rank_order(state: CommitorState, sealed: Seq<CommitContent>)
    requires
        state.wf(),
    ensures
        state.after(sealed).wf(),
        state.after(sealed).size == state.size,
        state.after(sealed).next == state.next + state.handed_out(sealed).len(),
        consecutive_from(state.size, state.next, state.handed_out(sealed)),
    decreases sealed.len(),
{
    if sealed.len() > 0 {
        let earlier = sealed.drop_last();
        lemma_run_in_rank_order(state, earlier);
        let before = state.after(earlier);
        lemma_seal_wf(before, sealed.last());
        lemma_due_in_rank_order(before.seal(sealed.last()));
        let first = state.handed_out(earlier);
        let last = before.seal(sealed.last()).due();
        assert forall|i: int| 0 <= i < (first + last).len() implies notice_rank(
            state.size,
            #[trigger] (first + last)[i],
        ) == state.next + i by {
            if i < first.len() {
                assert((first + last)[i] == first[i]);
            } else {
                assert((first + last)[i] == last[i - first.len()]);
            }
        }
    }
}

/// Ranks leave the commit buffer in strictly increasing order: of any two
/// notices handed out during a run, the later one has the higher rank. So
/// no instance is handed out twice, and none after one of a higher rank.
pub proof fn lemma_run_strictly_increasing(
    state: CommitorState,
    sealed: Seq<CommitContent>,
    earlier: int,
    later: int,
)
    requires
        state.wf(),
        0 <= earlier < later < state.handed_out(sealed).len(),
    ensures
        notice_rank(state.size, state.handed_out(sealed)[earlier]) < notice_rank(
            state.size,
            state.handed_out(sealed)[later],
        ),
{
    lemma_run_in_rank_order(state, sealed);
}

/// The commit buffer of one node: a ring in which the slot of a rank is the
/// rank modulo the capacity.
pub struct Commitor {
    size: usize,
    next: u128,
    head: usize,
    slots: Vec<Option<Commit>>,
}

/// Position in the ring of the slot `offset` places after `head`.
pub open spec fn ring_index(head: int, offset: int) -> int {
    if head + offset >= MAX_BLOCK_BUFFER {
        head + offset - MAX_BLOCK_BUFFER
    } else {
        head + offset
    }
}

/// What a slot holds.
pub open spec fn slot_content(slot: Option<Commit>) -> Option<CommitContent> {
    match slot {
        Some(commit) => Some(commit@),
        None => None,
    }
}

impl Commitor {
    /// The buffer as a window that starts at the next rank to commit.
    pub closed spec fn view(&self) -> CommitorState {
        CommitorState {
            size: self.size as nat,
            next: self.next as nat,
            window: Seq::new(
                MAX_BLOCK_BUFFER as nat,
                |i: int| slot_content(self.slots@[ring_index(self.head as int, i)]),
            ),
        }
    }

    /// The ring is complete and each sealed slot holds an instance of the
    /// rank it stands for.
    pub closed spec fn wf(&self) -> bool {
        &&& self.slots@.len() == MAX_BLOCK_BUFFER
        &&& self.head == self.next as nat % (MAX_BLOCK_BUFFER as nat)
        &&& self@.wf()
    }

    /// A well-formed buffer has a well-formed window.
    pub proof fn lemma_view_wf(&self)
        requires
            self.wf(),
        ensures
            self@.wf(),
    {
    }

    /// An empty buffer for a committee of `size` members.
    pub fn new(size: usize) -> (commitor: Self)
        requires
            size > 0,
        ensures
            commitor.wf(),
            commitor@ == CommitorState::empty(size as nat),
    {
        let mut slots: Vec<Option<Commit>> = Vec::new();
        while slots.len() < MAX_BLOCK_BUFFER
            invariant
                slots@.len() <= MAX_BLOCK_BUFFER,
                forall|i: int| 0 <= i < slots@.len() ==> slots@[i] is None,
            decreases MAX_BLOCK_BUFFER - slots@.len(),
        {
            slots.push(None);
        }
        let commitor = Commitor { size, next: 0, head: 0, slots };
        assert(commitor@.window =~= CommitorState::empty(size as nat).window);
        commitor
    }

    /// Rank of the next instance to hand out.
    pub fn next_rank(&self) -> (rank: u128)
        ensures
            rank == self@.next,
    {
        self.next
    }

    /// Seals the slot of an instance, where the model says so.
    fn seal(&mut self, commit: Commit)
        requires
            old(self).wf(),
        ensures
            final(self).wf(),
            final(self)@ == old(self)@.seal(commit@),
    {
        let ghost before = self@;
        proof {
            lemma_seal_wf(before, commit@);
        }
        let rank = exact_rank(self.size, commit.epoch, commit.height);
        if commit.height < self.size as u64 && rank >= self.next && rank - self.next
            < MAX_BLOCK_BUFFER as u128 {
            let offset = (rank - self.next) as usize;
            let index = if self.head + offset >= MAX_BLOCK_BUFFER {
                self.head + offset - MAX_BLOCK_BUFFER
            } else {
                self.head + offset
            };
            assert(index == ring_index(self.head as int, offset as int));
            assert(before.window[offset as int] == slot_content(self.slots@[index as int]));
            if self.slots[index].is_none() {
                self.slots.set(index, Some(commit));
                assert(self@.window =~= before.window.update(offset as int, Some(commit@)));
            }
        }
    }

    /// Takes the due notices out of the ring.
    fn drain(&mut self) -> (commits: Vec<Commit>)
        requires
            old(self).wf(),
        ensures
            final(self).wf(),
            final(self)@ == old(self)@.drained(),
            commit_contents(commits@) == old(self)@.due(),
    {
        let ghost before = self@;
        proof {
            lemma_due_in_rank_order(before);
            lemma_sealed_run(before.window);
        }
        let mut commits: Vec<Commit> = Vec::new();
        let mut taken: usize = 0;
        let mut finished = false;
        while !finished
            invariant
                taken <= MAX_BLOCK_BUFFER,
                before.wf(),
                self.size == before.size,
                self.slots@.len() == MAX_BLOCK_BUFFER,
                self.head == self.next as nat % (MAX_BLOCK_BUFFER as nat),
                self.next == before.next + taken,
                forall|i: int| 0 <= i < taken ==> before.window[i] is Some,
                commits@.len() == taken,
                forall|i: int| 0 <= i < taken ==> commits@[i]@ == before.window[i]->0,
                self@.window =~= before.window.skip(taken as int) + Seq::new(
                    taken as nat,
                    |i: int| None::<CommitContent>,
                ),
                finished ==> sealed_run(before.window) == taken,
            decreases MAX_BLOCK_BUFFER - taken + if finished { 0int } else { 1int },
        {
            let ghost window = self@.window;
            assert(window[0] == slot_content(self.slots@[self.head as int]));
            if taken == MAX_BLOCK_BUFFER || self.slots[self.head].is_none() {
                proof {
                    if taken < MAX_BLOCK_BUFFER {
                        assert(window[0] == before.window[taken as int]);
                    }
                    lemma_sealed_run_is(before.window, taken as int);
                }
                finished = true;
            } else {
                assert(window[0] == before.window[taken as int]);
                let ghost slots_before = self.slots@;
                let ghost head_before = self.head;
                let mut slot: Option<Commit> = None;
                self.slots.set_and_swap(self.head, &mut slot);
                let commit = slot.unwrap();
                proof {
                    let c = before.window[taken as int]->0;
                    assert(rank_of(before.size, c.epoch, c.height) == before.next + taken);
                    assert(c.epoch * before.size <= 0xffff_ffff_ffff_ffff * before.size)
                        by (nonlinear_arith)
                        requires
                            c.epoch <= 0xffff_ffff_ffff_ffff,
                            before.size >= 0,
                    ;
                    assert(0xffff_ffff_ffff_ffff * before.size <= 0xffff_ffff_ffff_ffff
                        * 0xffff_ffff_ffff_ffff) by (nonlinear_arith)
                        requires
                            before.size <= 0xffff_ffff_ffff_ffff,
                    ;
                }
                commits.push(commit);
                self.head = if self.head + 1 == MAX_BLOCK_BUFFER {
                    0
                } else {
                    self.head + 1
                };
                self.next = self.next + 1;
                taken = taken + 1;
                proof {
                    let target = before.window.skip(taken as int) + Seq::new(
                        taken as nat,
                        |i: int| None::<CommitContent>,
                    );
                    assert forall|i: int| 0 <= i < MAX_BLOCK_BUFFER implies self@.window[i]
                        == target[i] by {
                        let at = ring_index(self.head as int, i);
                        if i < MAX_BLOCK_BUFFER - 1 {
                            assert(at == ring_index(head_before as int, i + 1));
                            assert(self.slots@[at] == slots_before[at]);
                            assert(window[i + 1] == slot_content(slots_before[at]));
                        } else {
                            assert(at == head_before);
                        }
                    }
                }
            }
        }
        proof {
            assert(sealed_run(before.window) == taken);
            assert(commit_contents(commits@) =~= before.due());
            assert(self@.window =~= before.drained().window);
        }
        commits
    }

    /// Deposits a delivered block and hands out every notice that is due,
    /// in rank order. A block outside the window, or for an instance whose
    /// fate is sealed, changes nothing.
    pub fn buffer_block(&mut self, block: Block) -> (commits: Vec<Commit>)
        requires
            old(self).wf(),
        ensures
            final(self).wf(),
            final(self)@ == old(self)@.buffer_block(block).0,
            commit_contents(commits@) == old(self)@.buffer_block(block).1,
    {
        self.seal(Commit { digests: block.payload, epoch: block.epoch, height: block.height });
        self.drain()
    }

    /// Marks an instance as excluded and hands out every notice that is
    /// due, in rank order; the notice of an excluded instance is empty. An
    /// instance outside the window, or one whose fate is sealed, changes
    /// nothing.
    pub fn filter_block(&mut self, epoch: SeqNumber, height: SeqNumber) -> (commits: Vec<Commit>)
        requires
            old(self).wf(),
        ensures
            final(self).wf(),
            final(self)@ == old(self)@.filter_block(epoch, height).0,
            commit_contents(commits@) == old(self)@.filter_block(epoch, height).1,
    {
        self.seal(Commit { digests: Vec::new(), epoch, height });
        self.drain()
    }
}

} // verus!
