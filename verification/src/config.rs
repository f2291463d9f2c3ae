//! Committee membership, stake thresholds and engine parameters.

use crate::commitor::MAX_BLOCK_BUFFER;
use vstd::prelude::*;

verus! {

/// Counter used for epochs, heights and agreement rounds.
pub type SeqNumber = u64;

/// Voting weight of a committee member.
pub type Stake = u32;

/// Index of a member in the committee; an index past the end names nobody.
pub type NodeId = u64;

/// Sum of all stakes in the list.
pub open spec fn stake_sum(stakes: Seq<Stake>) -> nat
    decreases stakes.len(),
{
    if stakes.len() == 0 {
        0
    } else {
        stake_sum(stakes.drop_last()) + stakes.last() as nat
    }
}

/// Stake of one member: zero for an index that names nobody.
pub open spec fn member_stake(stakes: Seq<Stake>, name: NodeId) -> nat {
    if (name as int) < stakes.len() {
        stakes[name as int] as nat
    } else {
        0
    }
}

/// Combined stake of the members that belong to `voters`.
pub open spec fn stake_of(stakes: Seq<Stake>, voters: Set<NodeId>) -> nat
    decreases stakes.len(),
{
    if stakes.len() == 0 {
        0
    } else {
        stake_of(stakes.drop_last(), voters) + if voters.contains((stakes.len() - 1) as NodeId) {
            stakes.last() as nat
        } else {
            0
        }
    }
}

/// Stake needed for a quorum: more than two thirds of the total.
pub open spec fn quorum_of(total: nat) -> nat {
    2 * total / 3 + 1
}

/// Stake needed to reveal the common coin, and to amplify a vote: one more
/// than the stake that faulty members may hold.
pub open spec fn coin_quorum_of(total: nat) -> nat {
    (total + 2) / 3
}

/// Position of (epoch, height) in the total order of broadcast instances.
pub open spec fn rank_of(size: nat, epoch: SeqNumber, height: SeqNumber) -> nat {
    epoch as nat * size + height as nat
}

/// `epoch * size + height`, without wrapping.
pub fn exact_rank(size: usize, epoch: SeqNumber, height: SeqNumber) -> (rank: u128)
    ensures
        rank as nat == rank_of(size as nat, epoch, height),
{
    let size: u128 = size as u128;
    assert(epoch as u128 * size <= 0xffff_ffff_ffff_ffff * 0xffff_ffff_ffff_ffff)
        by (nonlinear_arith)
        requires
            epoch <= 0xffff_ffff_ffff_ffff,
            size <= 0xffff_ffff_ffff_ffff,
    ;
    epoch as u128 * size + height as u128
}

/// No set of voters holds more than the whole stake.
pub proof fn lemma_stake_of_bounded(stakes: Seq<Stake>, voters: Set<NodeId>)
    ensures
        stake_of(stakes, voters) <= stake_sum(stakes),
    decreases stakes.len(),
{
    if stakes.len() > 0 {
        lemma_stake_of_bounded(stakes.drop_last(), voters);
    }
}

/// A newcomer adds exactly its own stake.
pub proof fn lemma_stake_of_insert(stakes: Seq<Stake>, voters: Set<NodeId>, name: NodeId)
    requires
        !voters.contains(name),
        stakes.len() <= u64::MAX,
    ensures
        stake_of(stakes, voters.insert(name)) == stake_of(stakes, voters) + member_stake(
            stakes,
            name,
        ),
    decreases stakes.len(),
{
    if stakes.len() > 0 {
        lemma_stake_of_insert(stakes.drop_last(), voters, name);
    }
}

/// Nobody has voted: no stake.
pub proof fn lemma_stake_of_empty(stakes: Seq<Stake>)
    ensures
        stake_of(stakes, Set::<NodeId>::empty()) == 0,
    decreases stakes.len(),
{
    if stakes.len() > 0 {
        lemma_stake_of_empty(stakes.drop_last());
    }
}

/// The stakes of two sets of voters add up to the stake of those in
/// either plus the stake of those in both.
pub proof fn lemma_stake_of_union(stakes: Seq<Stake>, first: Set<NodeId>, second: Set<NodeId>)
    ensures
        stake_of(stakes, first) + stake_of(stakes, second) == stake_of(stakes, first.union(second))
            + stake_of(stakes, first.intersect(second)),
    decreases stakes.len(),
{
    if stakes.len() > 0 {
        lemma_stake_of_union(stakes.drop_last(), first, second);
    }
}

/// Two quorums overlap in at least the coin threshold of stake, which is
/// more than faulty members can hold: some member that follows the
/// protocol voted in both.
pub proof fn lemma_quorums_intersect(stakes: Seq<Stake>, first: Set<NodeId>, second: Set<NodeId>)
    requires
        stake_of(stakes, first) >= quorum_of(stake_sum(stakes)),
        stake_of(stakes, second) >= quorum_of(stake_sum(stakes)),
    ensures
        stake_of(stakes, first.intersect(second)) >= coin_quorum_of(stake_sum(stakes)),
{
    lemma_stake_of_union(stakes, first, second);
    lemma_stake_of_bounded(stakes, first.union(second));
}

/// With `3f + 1` units of stake the quorum is `2f + 1` and the coin
/// threshold is `f + 1`.
pub proof fn lemma_thresholds(f: nat)
    ensures
        quorum_of(3 * f + 1) == 2 * f + 1,
        coin_quorum_of(3 * f + 1) == f + 1,
{
}

/// The fixed membership: one stake per member, indexed by `NodeId`.
pub struct Committee {
    stakes: Vec<Stake>,
    total: Stake,
}

impl Committee {
    /// The stakes, by member index.
    pub closed spec fn view(&self) -> Seq<Stake> {
        self.stakes@
    }

    /// The recorded total is the sum of the stakes.
    pub closed spec fn wf(&self) -> bool {
        self.total as nat == stake_sum(self.stakes@) && self.stakes@.len() <= usize::MAX
    }

    /// A well-formed committee can be indexed and its stake counted.
    pub proof fn lemma_bounds(&self)
        requires
            self.wf(),
        ensures
            self@.len() <= usize::MAX,
            stake_sum(self@) <= Stake::MAX,
    {
    }

    /// Builds a committee, unless the total stake does not fit in `Stake`.
    pub fn new(stakes: Vec<Stake>) -> (committee: Option<Committee>)
        ensures
            committee is Some <==> stake_sum(stakes@) <= Stake::MAX,
            committee matches Some(c) ==> c.wf() && c@ == stakes@,
    {
        let mut total: Stake = 0;
        let mut i: usize = 0;
        while i < stakes.len()
            invariant
                i <= stakes.len(),
                total as nat == stake_sum(stakes@.take(i as int)),
            decreases stakes.len() - i,
        {
            proof {
                assert(stakes@.take(i + 1).drop_last() == stakes@.take(i as int));
                lemma_stake_sum_prefix(stakes@, i + 1);
            }
            if stakes[i] > Stake::MAX - total {
                return None;
            }
            total = total + stakes[i];
            i = i + 1;
        }
        proof {
            assert(stakes@.take(i as int) == stakes@);
        }
        Some(Committee { stakes, total })
    }

    /// Number of members.
    pub fn size(&self) -> (n: usize)
        ensures
            n == self@.len(),
    {
        self.stakes.len()
    }

    /// Stake of `name`, zero if `name` is no member.
    pub fn stake(&self, name: NodeId) -> (stake: Stake)
        ensures
            stake as nat == member_stake(self@, name),
    {
        if name < self.stakes.len() as u64 {
            self.stakes[name as usize]
        } else {
            0
        }
    }

    /// Sum of all members' stakes.
    pub fn total_stake(&self) -> (total: Stake)
        requires
            self.wf(),
        ensures
            total as nat == stake_sum(self@),
    {
        self.total
    }

    /// Stake at which a vote count is a quorum.
    pub fn quorum_threshold(&self) -> (threshold: Stake)
        requires
            self.wf(),
        ensures
            threshold as nat == quorum_of(stake_sum(self@)),
    {
        let total: u64 = self.total as u64;
        (2 * total / 3 + 1) as Stake
    }

    /// Stake at which the common coin is revealed and votes are amplified.
    pub fn random_coin_threshold(&self) -> (threshold: Stake)
        requires
            self.wf(),
        ensures
            threshold as nat == coin_quorum_of(stake_sum(self@)),
    {
        let total: u64 = self.total as u64;
        ((total + 2) / 3) as Stake
    }

    /// Rank of (epoch, height): `epoch * size + height`, without wrapping.
    pub fn rank(&self, epoch: SeqNumber, height: SeqNumber) -> (rank: u128)
        ensures
            rank as nat == rank_of(self@.len(), epoch, height),
    {
        exact_rank(self.stakes.len(), epoch, height)
    }
}

impl Clone for Committee {
    fn clone(&self) -> (copy: Self)
        ensures
            copy@ == self@,
            copy.wf() == self.wf(),
    {
        let stakes = self.stakes.clone();
        assert(stakes@ =~= self.stakes@);
        Committee { stakes, total: self.total }
    }
}

/// A prefix's sum stays under the whole sum.
proof fn lemma_stake_sum_prefix(stakes: Seq<Stake>, n: int)
    requires
        0 <= n <= stakes.len(),
    ensures
        stake_sum(stakes.take(n)) <= stake_sum(stakes),
    decreases stakes.len() - n,
{
    if n < stakes.len() {
        assert(stakes.take(n + 1).drop_last() == stakes.take(n));
        lemma_stake_sum_prefix(stakes, n + 1);
    } else {
        assert(stakes.take(n) == stakes);
    }
}

/// Tunable behaviour of one node.
#[derive(Clone, Copy, Debug, PartialEq, Eq)]
pub struct Parameters {
    /// Upper bound, in bytes, on the payload of one block.
    pub max_payload_size: u64,
    /// Milliseconds to wait after each proposal of this node.
    pub min_block_delay: u64,
    /// Distance, in epochs, after which a pending instance is forced into
    /// the pessimistic vote.
    pub fallback: SeqNumber,
    /// Members whose index is below this floor stay passive.
    pub fault: SeqNumber,
    /// When positive, payloads of inbound blocks are checked by the mempool.
    pub exp: u64,
}

impl Parameters {
    /// Whether the fallback window is shorter than the commit buffer, as
    /// an engine needs it: a window as long as the buffer would force
    /// instances that the buffer has no room for.
    pub fn fits(&self) -> (ok: bool)
        ensures
            ok == (self.fallback < MAX_BLOCK_BUFFER),
    {
        self.fallback < MAX_BLOCK_BUFFER as u64
    }
}

} // verus!
