//! Vote accumulators: one per broadcast instance and kind of vote. Each
//! takes one vote per author and reports when the collected stake lands
//! exactly on a threshold.

use crate::coin::{
    coin_of, coin_of_signature, combine_signatures, combined_signature, empty_key_set,
    is_empty_key_set, share_bytes,
};
use crate::collections::{above, IdSet, Table};
use crate::config::{
    coin_quorum_of, lemma_stake_of_bounded, lemma_stake_of_empty, lemma_stake_of_insert,
    member_stake, quorum_of, rank_of, stake_of, stake_sum, Committee, NodeId, SeqNumber, Stake,
};
use crate::error::{ConsensusError, ConsensusResult};
use crate::messages::{
    EchoVote, Prepare, ProofContent, RBCProof, RandomnessShare, ReadyVote, Signature,
    SignatureShare, OPT, PES, PRE_ONE, PRE_TWO, RBC_ECHO, RBC_READY,
};
use std::collections::BTreeMap;
use vstd::prelude::*;

verus! {

/// What an accumulator of broadcast votes has collected.
pub struct ProofMakerState {
    pub weight: nat,
    pub votes: Seq<(NodeId, Signature)>,
    pub used: Set<NodeId>,
}

/// The authors of a list of votes, in order.
pub open spec fn vote_authors(votes: Seq<(NodeId, Signature)>) -> Seq<NodeId> {
    votes.map_values(|vote: (NodeId, Signature)| vote.0)
}

/// Whether a collected stake lands on a threshold of the given kind of
/// vote: the quorum, and for ready votes the coin threshold as well.
pub open spec fn proof_fires(total: nat, tag: u8, weight: nat) -> bool {
    weight == quorum_of(total) || (tag == RBC_READY && weight == coin_quorum_of(total))
}

impl ProofMakerState {
    /// Nothing collected yet.
    pub open spec fn empty() -> Self {
        ProofMakerState { weight: 0, votes: Seq::empty(), used: Set::empty() }
    }

    /// The weight is the stake of the authors seen, and the votes kept
    /// are by exactly those authors, one vote each.
    pub open spec fn wf(self, stakes: Seq<Stake>) -> bool {
        &&& self.used.finite()
        &&& self.weight == stake_of(stakes, self.used)
        &&& self.votes.len() == self.used.len()
        &&& vote_authors(self.votes).no_duplicates()
        &&& vote_authors(self.votes).to_set() == self.used
    }

    /// The state after a vote of `author`, and what the vote brings: an
    /// error for a second vote, a proof where the weight lands on a
    /// threshold, nothing otherwise.
    pub open spec fn append(
        self,
        stakes: Seq<Stake>,
        epoch: SeqNumber,
        height: SeqNumber,
        author: NodeId,
        tag: u8,
        signature: Signature,
    ) -> (Self, ConsensusResult<Option<ProofContent>>) {
        if self.used.contains(author) {
            (self, Err(ConsensusError::AuthorityReuseinRBCVote(author)))
        } else {
            let next = ProofMakerState {
                weight: self.weight + member_stake(stakes, author),
                votes: self.votes.push((author, signature)),
                used: self.used.insert(author),
            };
            if proof_fires(stake_sum(stakes), tag, next.weight) {
                (next, Ok(Some(ProofContent { epoch, height, votes: next.votes, tag })))
            } else {
                (next, Ok(None))
            }
        }
    }

    /// The state after a run of votes, taken in order.
    pub open spec fn replay(
        self,
        stakes: Seq<Stake>,
        epoch: SeqNumber,
        height: SeqNumber,
        tag: u8,
        votes: Seq<(NodeId, Signature)>,
    ) -> Self
        decreases votes.len(),
    {
        if votes.len() == 0 {
            self
        } else {
            self.replay(stakes, epoch, height, tag, votes.drop_last()).append(
                stakes,
                epoch,
                height,
                votes.last().0,
                tag,
                votes.last().1,
            ).0
        }
    }

    /// Whether the vote at position `at` of a run brings a proof.
    pub open spec fn fires_at(
        self,
        stakes: Seq<Stake>,
        epoch: SeqNumber,
        height: SeqNumber,
        tag: u8,
        votes: Seq<(NodeId, Signature)>,
        at: int,
    ) -> bool {
        self.replay(stakes, epoch, height, tag, votes.take(at)).append(
            stakes,
            epoch,
            height,
            votes[at].0,
            tag,
            votes[at].1,
        ).1 matches Ok(Some(_))
    }
}

/// The outcome of a vote, with a proof taken by its content.
pub open spec fn proof_outcome(result: ConsensusResult<Option<RBCProof>>) -> ConsensusResult<
    Option<ProofContent>,
> {
    match result {
        Ok(Some(proof)) => Ok(Some(proof@)),
        Ok(None) => Ok(None),
        Err(e) => Err(e),
    }
}

/// A vote keeps an accumulator well formed.
pub proof fn lemma_proof_append_wf(
    state: ProofMakerState,
    stakes: Seq<Stake>,
    epoch: SeqNumber,
    height: SeqNumber,
    author: NodeId,
    tag: u8,
    signature: Signature,
)
    requires
        state.wf(stakes),
        stakes.len() <= u64::MAX,
    ensures
        state.append(stakes, epoch, height, author, tag, signature).0.wf(stakes),
        state.append(stakes, epoch, height, author, tag, signature).0.weight <= stake_sum(stakes),
        state.append(stakes, epoch, height, author, tag, signature).0.weight >= state.weight,
{
    let next = state.append(stakes, epoch, height, author, tag, signature).0;
    if !state.used.contains(author) {
        lemma_stake_of_insert(stakes, state.used, author);
        let before = vote_authors(state.votes);
        let after = vote_authors(next.votes);
        assert(after =~= before.push(author));
        assert(!before.contains(author));
        assert(after.to_set() =~= before.to_set().insert(author)) by {
            assert forall|x: NodeId| after.contains(x) <==> (before.contains(x) || x
                == author) by {
                if before.contains(x) {
                    let j = choose|j: int| 0 <= j < before.len() && before[j] == x;
                    assert(after[j] == x);
                }
                if x == author {
                    assert(after[before.len() as int] == author);
                }
            }
        }
    }
    lemma_stake_of_bounded(stakes, next.used);
}

/// An accumulator that has collected nothing is well formed.
pub proof fn lemma_empty_proof_maker_wf(stakes: Seq<Stake>)
    ensures
        ProofMakerState::empty().wf(stakes),
{
    lemma_stake_of_empty(stakes);
    assert(vote_authors(Seq::<(NodeId, Signature)>::empty()) =~= Seq::<NodeId>::empty());
    assert(Seq::<NodeId>::empty().to_set() =~= Set::<NodeId>::empty());
}

/// A proof is a list of votes by distinct authors: as many votes as
/// authors seen, no author twice. Where every member holds one unit of
/// stake and only members have voted, the proof has exactly as many votes
/// as the threshold at which it comes.
pub proof fn lemma_proof_by_distinct_authors(
    state: ProofMakerState,
    stakes: Seq<Stake>,
    epoch: SeqNumber,
    height: SeqNumber,
    author: NodeId,
    tag: u8,
    signature: Signature,
)
    requires
        state.wf(stakes),
        stakes.len() <= u64::MAX,
    ensures
        state.append(stakes, epoch, height, author, tag, signature).1 matches Ok(Some(proof)) ==> {
            let next = state.append(stakes, epoch, height, author, tag, signature).0;
            &&& proof.epoch == epoch
            &&& proof.height == height
            &&& proof.tag == tag
            &&& vote_authors(proof.votes).no_duplicates()
            &&& vote_authors(proof.votes).to_set() == state.used.insert(author)
            &&& proof_fires(stake_sum(stakes), tag, next.weight)
            &&& ((forall|i: int| 0 <= i < stakes.len() ==> stakes[i] == 1) && (forall|id: NodeId|
                next.used.contains(id) ==> (id as int) < stakes.len()) ==> proof.votes.len()
                == next.weight)
        },
{
    lemma_proof_append_wf(state, stakes, epoch, height, author, tag, signature);
    let next = state.append(stakes, epoch, height, author, tag, signature).0;
    if (forall|i: int| 0 <= i < stakes.len() ==> stakes[i] == 1) && (forall|id: NodeId|
        next.used.contains(id) ==> (id as int) < stakes.len()) {
        lemma_unit_stakes_count(stakes, next.used);
    }
}

/// A replayed run keeps an accumulator well formed and never lowers its
/// weight.
pub proof fn lemma_proof_replay_wf(
    state: ProofMakerState,
    stakes: Seq<Stake>,
    epoch: SeqNumber,
    height: SeqNumber,
    tag: u8,
    votes: Seq<(NodeId, Signature)>,
)
    requires
        state.wf(stakes),
        stakes.len() <= u64::MAX,
    ensures
        state.replay(stakes, epoch, height, tag, votes).wf(stakes),
        state.replay(stakes, epoch, height, tag, votes).weight >= state.weight,
    decreases votes.len(),
{
    if votes.len() > 0 {
        lemma_proof_replay_wf(state, stakes, epoch, height, tag, votes.drop_last());
        lemma_proof_append_wf(
            state.replay(stakes, epoch, height, tag, votes.drop_last()),
            stakes,
            epoch,
            height,
            votes.last().0,
            tag,
            votes.last().1,
        );
    }
}

/// Along a run of votes, the weight after a longer prefix is no lower.
proof fn lemma_proof_replay_monotone(
    state: ProofMakerState,
    stakes: Seq<Stake>,
    epoch: SeqNumber,
    height: SeqNumber,
    tag: u8,
    votes: Seq<(NodeId, Signature)>,
    shorter: int,
    longer: int,
)
    requires
        state.wf(stakes),
        stakes.len() <= u64::MAX,
        0 <= shorter <= longer <= votes.len(),
    ensures
        state.replay(stakes, epoch, height, tag, votes.take(shorter)).weight <= state.replay(
            stakes,
            epoch,
            height,
            tag,
            votes.take(longer),
        ).weight,
    decreases longer - shorter,
{
    if shorter < longer {
        lemma_proof_replay_monotone(state, stakes, epoch, height, tag, votes, shorter, longer - 1);
        assert(votes.take(longer).drop_last() == votes.take(longer - 1));
        lemma_proof_replay_wf(state, stakes, epoch, height, tag, votes.take(longer - 1));
        lemma_proof_append_wf(
            state.replay(stakes, epoch, height, tag, votes.take(longer - 1)),
            stakes,
            epoch,
            height,
            votes[longer - 1].0,
            tag,
            votes[longer - 1].1,
        );
    }
}

/// An accumulator emits each proof once: of two votes of a run that both
/// bring a proof, the later one does so at a strictly higher weight, and a
/// proof is brought only at a weight that is one of the thresholds. So no
/// threshold is answered twice, as long as every voter holds stake.
pub proof fn lemma_proof_emitted_once(
    state: ProofMakerState,
    stakes: Seq<Stake>,
    epoch: SeqNumber,
    height: SeqNumber,
    tag: u8,
    votes: Seq<(NodeId, Signature)>,
    first: int,
    second: int,
)
    requires
        state.wf(stakes),
        stakes.len() <= u64::MAX,
        0 <= first < second < votes.len(),
        forall|i: int| 0 <= i < votes.len() ==> member_stake(stakes, #[trigger] votes[i].0) > 0,
        state.fires_at(stakes, epoch, height, tag, votes, first),
        state.fires_at(stakes, epoch, height, tag, votes, second),
    ensures
        proof_fires(
            stake_sum(stakes),
            tag,
            state.replay(stakes, epoch, height, tag, votes.take(first + 1)).weight,
        ),
        proof_fires(
            stake_sum(stakes),
            tag,
            state.replay(stakes, epoch, height, tag, votes.take(second + 1)).weight,
        ),
        state.replay(stakes, epoch, height, tag, votes.take(first + 1)).weight < state.replay(
            stakes,
            epoch,
            height,
            tag,
            votes.take(second + 1),
        ).weight,
{
    assert(votes.take(first + 1).drop_last() == votes.take(first));
    assert(votes.take(second + 1).drop_last() == votes.take(second));
    lemma_proof_replay_monotone(state, stakes, epoch, height, tag, votes, first + 1, second);
    assert(member_stake(stakes, votes[second].0) > 0);
}

/// Where every member holds one unit of stake, the weight of an
/// accumulator is the number of distinct members it has seen.
pub proof fn lemma_unit_stakes_count(stakes: Seq<Stake>, used: Set<NodeId>)
    requires
        used.finite(),
        stakes.len() <= u64::MAX,
        forall|i: int| 0 <= i < stakes.len() ==> stakes[i] == 1,
        forall|id: NodeId| used.contains(id) ==> (id as int) < stakes.len(),
    ensures
        stake_of(stakes, used) == used.len(),
    decreases stakes.len(),
{
    if stakes.len() == 0 {
        assert(used =~= Set::empty());
    } else {
        let top = (stakes.len() - 1) as NodeId;
        let rest = used.remove(top);
        lemma_unit_stakes_count(stakes.drop_last(), rest);
        lemma_stake_of_skips(stakes.drop_last(), rest, top);
        if used.contains(top) {
            assert(rest.insert(top) =~= used);
        } else {
            assert(rest =~= used);
        }
    }
}

/// Where every member holds one unit of stake, an accumulator that has
/// heard only members reports as its weight the number of distinct
/// authors it has seen, which is also the number of votes it keeps.
pub proof fn lemma_weight_is_author_count(state: ProofMakerState, stakes: Seq<Stake>)
    requires
        state.wf(stakes),
        stakes.len() <= u64::MAX,
        forall|i: int| 0 <= i < stakes.len() ==> stakes[i] == 1,
        forall|id: NodeId| state.used.contains(id) ==> (id as int) < stakes.len(),
    ensures
        state.weight == state.used.len(),
        state.weight == state.votes.len(),
{
    lemma_unit_stakes_count(stakes, state.used);
}

/// A voter past the end of the list changes nothing.
proof fn lemma_stake_of_skips(stakes: Seq<Stake>, voters: Set<NodeId>, name: NodeId)
    requires
        stakes.len() <= name,
    ensures
        stake_of(stakes, voters.insert(name)) == stake_of(stakes, voters),
        stake_of(stakes, voters.remove(name)) == stake_of(stakes, voters),
    decreases stakes.len(),
{
    if stakes.len() > 0 {
        lemma_stake_of_skips(stakes.drop_last(), voters, name);
    }
}

/// Accumulates echo or ready votes of one broadcast instance.
pub struct RBCProofMaker {
    weight: Stake,
    votes: Vec<(NodeId, Signature)>,
    used: IdSet,
}

/// A copy of a list of votes.
fn copy_votes(votes: &Vec<(NodeId, Signature)>) -> (copy: Vec<(NodeId, Signature)>)
    ensures
        copy@ == votes@,
{
    let mut copy: Vec<(NodeId, Signature)> = Vec::new();
    let mut i: usize = 0;
    while i < votes.len()
        invariant
            i <= votes.len(),
            copy@ == votes@.take(i as int),
        decreases votes.len() - i,
    {
        copy.push(votes[i]);
        assert(votes@.take(i + 1) == votes@.take(i as int).push(votes@[i as int]));
        i = i + 1;
    }
    assert(votes@.take(i as int) == votes@);
    copy
}

impl RBCProofMaker {
    /// What has been collected.
    pub closed spec fn view(&self) -> ProofMakerState {
        ProofMakerState { weight: self.weight as nat, votes: self.votes@, used: self.used@ }
    }

    pub fn new() -> (maker: Self)
        ensures
            maker@ == ProofMakerState::empty(),
    {
        RBCProofMaker { weight: 0, votes: Vec::new(), used: IdSet::new() }
    }

    /// Adds the vote of `author`. A second vote of one author is an error
    /// and changes nothing. Otherwise the vote is kept, and where the
    /// weight now equals a threshold, all votes so far come back as a proof.
    pub fn append(
        &mut self,
        epoch: SeqNumber,
        height: SeqNumber,
        author: NodeId,
        tag: u8,
        signature: Signature,
        committee: &Committee,
    ) -> (result: ConsensusResult<Option<RBCProof>>)
        requires
            committee.wf(),
            old(self)@.wf(committee@),
        ensures
            final(self)@ == old(self)@.append(
                committee@,
                epoch,
                height,
                author,
                tag,
                signature,
            ).0,
            proof_outcome(result) == old(self)@.append(
                committee@,
                epoch,
                height,
                author,
                tag,
                signature,
            ).1,
            final(self)@.wf(committee@),
    {
        proof {
            committee.lemma_bounds();
            lemma_proof_append_wf(self@, committee@, epoch, height, author, tag, signature);
        }
        if !self.used.insert(author) {
            return Err(ConsensusError::AuthorityReuseinRBCVote(author));
        }
        self.votes.push((author, signature));
        self.weight = self.weight + committee.stake(author);
        if self.weight == committee.quorum_threshold() || (tag == RBC_READY && self.weight
            == committee.random_coin_threshold()) {
            let proof = RBCProof::new(epoch, height, copy_votes(&self.votes), tag);
            return Ok(Some(proof));
        }
        Ok(None)
    }
}

/// What an accumulator of prepare votes has collected.
pub struct PrepareMakerState {
    pub optnum: nat,
    pub pesnum: nat,
    pub used: Set<NodeId>,
}

/// The verdict of a prepare phase whose votes add up to exactly the
/// quorum. The first phase asks whether the optimistic value alone has the
/// quorum; the second asks the same of the pessimistic value. A phase
/// without a full quorum for its value passes that value on if anyone chose
/// it, and the other value if nobody did.
pub open spec fn prepare_verdict(phase: u8, optnum: nat, pesnum: nat, quorum: nat) -> Option<
    (u8, bool),
> {
    if phase == PRE_ONE {
        if optnum >= quorum {
            Some((OPT, true))
        } else if optnum > 0 {
            Some((OPT, false))
        } else {
            Some((PES, false))
        }
    } else if phase == PRE_TWO {
        if pesnum >= quorum {
            Some((PES, true))
        } else if pesnum > 0 {
            Some((PES, false))
        } else {
            Some((OPT, false))
        }
    } else {
        None
    }
}

impl PrepareMakerState {
    /// Nothing collected yet.
    pub open spec fn empty() -> Self {
        PrepareMakerState { optnum: 0, pesnum: 0, used: Set::empty() }
    }

    /// The two counts add up to the stake of the authors seen.
    pub open spec fn wf(self, stakes: Seq<Stake>) -> bool {
        &&& self.used.finite()
        &&& self.optnum + self.pesnum == stake_of(stakes, self.used)
    }

    /// The state after a vote, and what the vote brings: an error for a
    /// second vote of one author, the phase's verdict where the votes now
    /// add up to exactly the quorum, nothing otherwise.
    pub open spec fn append(self, stakes: Seq<Stake>, prepare: Prepare) -> (
        Self,
        ConsensusResult<Option<(u8, bool)>>,
    ) {
        if self.used.contains(prepare.author) {
            (self, Err(ConsensusError::AuthorityReuseinPrepare(prepare.author)))
        } else {
            let stake = member_stake(stakes, prepare.author);
            let next = PrepareMakerState {
                optnum: if prepare.val == OPT {
                    self.optnum + stake
                } else {
                    self.optnum
                },
                pesnum: if prepare.val == OPT {
                    self.pesnum
                } else {
                    self.pesnum + stake
                },
                used: self.used.insert(prepare.author),
            };
            if next.optnum + next.pesnum == quorum_of(stake_sum(stakes)) {
                (
                    next,
                    Ok(
                        prepare_verdict(
                            prepare.phase,
                            next.optnum,
                            next.pesnum,
                            quorum_of(stake_sum(stakes)),
                        ),
                    ),
                )
            } else {
                (next, Ok(None))
            }
        }
    }
}

/// A vote keeps the accumulator well formed, within the total stake.
pub proof fn lemma_prepare_append_wf(state: PrepareMakerState, stakes: Seq<Stake>, prepare: Prepare)
    requires
        state.wf(stakes),
        stakes.len() <= u64::MAX,
    ensures
        state.append(stakes, prepare).0.wf(stakes),
        state.append(stakes, prepare).0.optnum + state.append(stakes, prepare).0.pesnum
            <= stake_sum(stakes),
{
    let next = state.append(stakes, prepare).0;
    if !state.used.contains(prepare.author) {
        lemma_stake_of_insert(stakes, state.used, prepare.author);
    }
    lemma_stake_of_bounded(stakes, next.used);
}

/// The classifier fires exactly at the quorum and not again: a vote that
/// brings a verdict leaves the counts at the quorum, and from there on no
/// vote of a member with stake brings another.
pub proof fn lemma_prepare_fires_once(
    state: PrepareMakerState,
    stakes: Seq<Stake>,
    prepare: Prepare,
    later: Prepare,
)
    requires
        state.wf(stakes),
        stakes.len() <= u64::MAX,
        member_stake(stakes, later.author) > 0,
    ensures
        state.append(stakes, prepare).1 matches Ok(Some(_)) ==> {
            let reached = state.append(stakes, prepare).0;
            &&& reached.optnum + reached.pesnum == quorum_of(stake_sum(stakes))
            &&& !(reached.append(stakes, later).1 matches Ok(Some(_)))
        },
        state.optnum + state.pesnum >= quorum_of(stake_sum(stakes)) ==> {
            let next = state.append(stakes, later);
            &&& !(next.1 matches Ok(Some(_)))
            &&& next.0.optnum + next.0.pesnum >= quorum_of(stake_sum(stakes))
        },
{
}

/// Accumulates the prepare votes of one phase of one instance.
pub struct PrepareMaker {
    optnum: Stake,
    pesnum: Stake,
    used: IdSet,
}

impl PrepareMaker {
    /// What has been collected.
    pub closed spec fn view(&self) -> PrepareMakerState {
        PrepareMakerState {
            optnum: self.optnum as nat,
            pesnum: self.pesnum as nat,
            used: self.used@,
        }
    }

    pub fn new() -> (maker: Self)
        ensures
            maker@ == PrepareMakerState::empty(),
    {
        PrepareMaker { optnum: 0, pesnum: 0, used: IdSet::new() }
    }

    /// Adds a prepare vote. A second vote of one author is an error and
    /// changes nothing. Otherwise the author's stake goes to the count of
    /// the value voted for, and where both counts now add up to exactly the
    /// quorum, the phase's verdict comes back.
    pub fn append(&mut self, prepare: Prepare, committee: &Committee) -> (result: ConsensusResult<
        Option<(u8, bool)>,
    >)
        requires
            committee.wf(),
            old(self)@.wf(committee@),
        ensures
            final(self)@ == old(self)@.append(committee@, prepare).0,
            result == old(self)@.append(committee@, prepare).1,
            final(self)@.wf(committee@),
    {
        proof {
            committee.lemma_bounds();
            lemma_prepare_append_wf(self@, committee@, prepare);
        }
        let author = prepare.author;
        if !self.used.insert(author) {
            return Err(ConsensusError::AuthorityReuseinPrepare(author));
        }
        if prepare.val == OPT {
            self.optnum = self.optnum + committee.stake(author);
        } else {
            self.pesnum = self.pesnum + committee.stake(author);
        }
        let total = self.optnum + self.pesnum;
        if total == committee.quorum_threshold() {
            if prepare.phase == PRE_ONE {
                if self.optnum >= committee.quorum_threshold() {
                    return Ok(Some((OPT, true)));
                } else if self.optnum > 0 {
                    return Ok(Some((OPT, false)));
                }
                return Ok(Some((PES, false)));
            } else if prepare.phase == PRE_TWO {
                if self.pesnum >= committee.quorum_threshold() {
                    return Ok(Some((PES, true)));
                } else if self.pesnum > 0 {
                    return Ok(Some((PES, false)));
                }
                return Ok(Some((OPT, false)));
            }
        }
        Ok(None)
    }
}

/// What an accumulator of coin shares has collected.
pub struct CoinMakerState {
    pub weight: nat,
    pub shares: Seq<RandomnessShare>,
    pub used: Set<NodeId>,
}

/// The shares as they are handed on for combining: one share under the
/// index of each author, the latest where an author came more than once.
pub open spec fn share_map(shares: Seq<RandomnessShare>) -> Map<NodeId, SignatureShare>
    decreases shares.len(),
{
    if shares.len() == 0 {
        Map::empty()
    } else {
        share_map(shares.drop_last()).insert(shares.last().author, shares.last().signature_share)
    }
}

/// The coin that a combined signature gives, if the shares combined.
pub open spec fn coin_of_combined(signature: Option<Seq<u8>>) -> Option<usize> {
    match signature {
        Some(bytes) => Some(coin_of(bytes) as usize),
        None => None,
    }
}

/// The coin that the shares reveal under the key set: none where the key
/// set is empty or the shares do not combine.
pub open spec fn revealed_coin(key_set: Seq<u8>, shares: Seq<RandomnessShare>) -> Option<usize> {
    if empty_key_set(key_set) {
        None
    } else {
        coin_of_combined(
            combined_signature(key_set, share_bytes(share_map(shares))),
        )
    }
}

impl CoinMakerState {
    /// Nothing collected yet.
    pub open spec fn empty() -> Self {
        CoinMakerState { weight: 0, shares: Seq::empty(), used: Set::empty() }
    }

    /// The weight is the stake of the authors seen.
    pub open spec fn wf(self, stakes: Seq<Stake>) -> bool {
        &&& self.used.finite()
        &&& self.weight == stake_of(stakes, self.used)
    }

    /// The state after a share, and what the share brings: an error for a
    /// second share of one author, the revealed coin where the weight now
    /// equals the coin threshold, nothing otherwise.
    pub open spec fn append(self, stakes: Seq<Stake>, share: RandomnessShare, key_set: Seq<u8>) -> (
        Self,
        ConsensusResult<Option<usize>>,
    ) {
        if self.used.contains(share.author) {
            (self, Err(ConsensusError::AuthorityReuseinCoin(share.author)))
        } else {
            let next = CoinMakerState {
                weight: self.weight + member_stake(stakes, share.author),
                shares: self.shares.push(share),
                used: self.used.insert(share.author),
            };
            if next.weight == coin_quorum_of(stake_sum(stakes)) {
                (next, Ok(revealed_coin(key_set, next.shares)))
            } else {
                (next, Ok(None))
            }
        }
    }
}

/// A share keeps the accumulator well formed, within the total stake.
pub proof fn lemma_coin_append_wf(
    state: CoinMakerState,
    stakes: Seq<Stake>,
    share: RandomnessShare,
    key_set: Seq<u8>,
)
    requires
        state.wf(stakes),
        stakes.len() <= u64::MAX,
    ensures
        state.append(stakes, share, key_set).0.wf(stakes),
        state.append(stakes, share, key_set).0.weight <= stake_sum(stakes),
{
    let next = state.append(stakes, share, key_set).0;
    if !state.used.contains(share.author) {
        lemma_stake_of_insert(stakes, state.used, share.author);
    }
    lemma_stake_of_bounded(stakes, next.used);
}

/// The coin is revealed once: a share that reveals it leaves the weight at
/// the coin threshold, and from there on no share of a member with stake
/// reveals anything.
pub proof fn lemma_coin_revealed_once(
    state: CoinMakerState,
    stakes: Seq<Stake>,
    share: RandomnessShare,
    later: RandomnessShare,
    key_set: Seq<u8>,
)
    requires
        state.wf(stakes),
        stakes.len() <= u64::MAX,
        member_stake(stakes, later.author) > 0,
    ensures
        state.append(stakes, share, key_set).1 matches Ok(Some(_)) ==> {
            let reached = state.append(stakes, share, key_set).0;
            &&& reached.weight == coin_quorum_of(stake_sum(stakes))
            &&& !(reached.append(stakes, later, key_set).1 matches Ok(Some(_)))
        },
        state.weight >= coin_quorum_of(stake_sum(stakes)) ==> {
            let next = state.append(stakes, later, key_set);
            &&& !(next.1 matches Ok(Some(_)))
            &&& next.0.weight >= coin_quorum_of(stake_sum(stakes))
        },
{
}

/// Accumulates the coin shares of one agreement round.
pub struct RandomCoinMaker {
    weight: Stake,
    shares: Vec<RandomnessShare>,
    used: IdSet,
}

/// The coin of a combined signature.
pub fn coin_from_signature(signature: Option<Vec<u8>>) -> (coin: Option<usize>)
    requires
        signature matches Some(bytes) ==> bytes@.len() >= 8,
    ensures
        coin == coin_of_combined(crate::coin::signature_bytes(signature)),
{
    match signature {
        Some(bytes) => Some(coin_of_signature(&bytes)),
        None => None,
    }
}

impl RandomCoinMaker {
    /// What has been collected.
    pub closed spec fn view(&self) -> CoinMakerState {
        CoinMakerState { weight: self.weight as nat, shares: self.shares@, used: self.used@ }
    }

    pub fn new() -> (maker: Self)
        ensures
            maker@ == CoinMakerState::empty(),
    {
        RandomCoinMaker { weight: 0, shares: Vec::new(), used: IdSet::new() }
    }

    /// Combines the shares collected so far and reads the coin.
    fn toss(&self, pk_set: &Vec<u8>) -> (coin: Option<usize>)
        ensures
            coin == revealed_coin(pk_set@, self@.shares),
    {
        if is_empty_key_set(pk_set) {
            return None;
        }
        let mut sigs: BTreeMap<NodeId, SignatureShare> = BTreeMap::new();
        let mut i: usize = 0;
        while i < self.shares.len()
            invariant
                i <= self.shares.len(),
                sigs@ == share_map(self.shares@.take(i as int)),
            decreases self.shares.len() - i,
        {
            sigs.insert(self.shares[i].author, self.shares[i].signature_share);
            assert(self.shares@.take(i + 1).drop_last() == self.shares@.take(i as int));
            i = i + 1;
        }
        assert(self.shares@.take(i as int) == self.shares@);
        coin_from_signature(combine_signatures(pk_set, &sigs))
    }

    /// Adds a coin share. A second share of one author is an error and
    /// changes nothing. Otherwise the share is kept, and where the weight
    /// now equals the coin threshold, the shares are combined under
    /// `pk_set` and the coin comes back, if they combine.
    pub fn append(&mut self, share: RandomnessShare, committee: &Committee, pk_set: &Vec<u8>) -> (result:
        ConsensusResult<Option<usize>>)
        requires
            committee.wf(),
            old(self)@.wf(committee@),
        ensures
            final(self)@ == old(self)@.append(committee@, share, pk_set@).0,
            result == old(self)@.append(committee@, share, pk_set@).1,
            final(self)@.wf(committee@),
    {
        proof {
            committee.lemma_bounds();
            lemma_coin_append_wf(self@, committee@, share, pk_set@);
        }
        let author = share.author;
        if !self.used.insert(author) {
            return Err(ConsensusError::AuthorityReuseinCoin(author));
        }
        self.shares.push(share);
        self.weight = self.weight + committee.stake(author);
        if self.weight == committee.random_coin_threshold() {
            return Ok(self.toss(pk_set));
        }
        Ok(None)
    }
}

/// What the accumulators of one node hold, by instance.
pub struct AggregatorState {
    pub stakes: Seq<Stake>,
    pub echo: Map<(SeqNumber, SeqNumber), ProofMakerState>,
    pub ready: Map<(SeqNumber, SeqNumber), ProofMakerState>,
    pub prepare: Map<(SeqNumber, SeqNumber, u8), PrepareMakerState>,
    pub coin: Map<(SeqNumber, SeqNumber, SeqNumber), CoinMakerState>,
}

impl AggregatorState {
    /// No accumulator yet.
    pub open spec fn empty(stakes: Seq<Stake>) -> Self {
        AggregatorState {
            stakes,
            echo: Map::empty(),
            ready: Map::empty(),
            prepare: Map::empty(),
            coin: Map::empty(),
        }
    }

    /// Every accumulator is well formed.
    pub open spec fn wf(self) -> bool {
        &&& self.stakes.len() <= u64::MAX
        &&& forall|k: (SeqNumber, SeqNumber)| #[trigger]
            self.echo.contains_key(k) ==> self.echo[k].wf(self.stakes)
        &&& forall|k: (SeqNumber, SeqNumber)| #[trigger]
            self.ready.contains_key(k) ==> self.ready[k].wf(self.stakes)
        &&& forall|k: (SeqNumber, SeqNumber, u8)| #[trigger]
            self.prepare.contains_key(k) ==> self.prepare[k].wf(self.stakes)
        &&& forall|k: (SeqNumber, SeqNumber, SeqNumber)| #[trigger]
            self.coin.contains_key(k) ==> self.coin[k].wf(self.stakes)
    }

    /// The accumulator of echo votes for an instance, fresh if there is none.
    pub open spec fn echo_maker(self, key: (SeqNumber, SeqNumber)) -> ProofMakerState {
        if self.echo.contains_key(key) {
            self.echo[key]
        } else {
            ProofMakerState::empty()
        }
    }

    /// The accumulator of ready votes for an instance, fresh if there is none.
    pub open spec fn ready_maker(self, key: (SeqNumber, SeqNumber)) -> ProofMakerState {
        if self.ready.contains_key(key) {
            self.ready[key]
        } else {
            ProofMakerState::empty()
        }
    }

    /// The accumulator of one prepare phase, fresh if there is none.
    pub open spec fn prepare_maker(self, key: (SeqNumber, SeqNumber, u8)) -> PrepareMakerState {
        if self.prepare.contains_key(key) {
            self.prepare[key]
        } else {
            PrepareMakerState::empty()
        }
    }

    /// The accumulator of one round's coin shares, fresh if there is none.
    pub open spec fn coin_maker(self, key: (SeqNumber, SeqNumber, SeqNumber)) -> CoinMakerState {
        if self.coin.contains_key(key) {
            self.coin[key]
        } else {
            CoinMakerState::empty()
        }
    }

    /// An echo vote goes to the accumulator of its instance.
    pub open spec fn add_rbc_echo_vote(self, vote: EchoVote) -> (
        Self,
        ConsensusResult<Option<ProofContent>>,
    ) {
        let key = (vote.epoch, vote.height);
        let step = self.echo_maker(key).append(
            self.stakes,
            vote.epoch,
            vote.height,
            vote.author,
            RBC_ECHO,
            vote.signature,
        );
        (AggregatorState { echo: self.echo.insert(key, step.0), ..self }, step.1)
    }

    /// A ready vote goes to the accumulator of its instance.
    pub open spec fn add_rbc_ready_vote(self, vote: ReadyVote) -> (
        Self,
        ConsensusResult<Option<ProofContent>>,
    ) {
        let key = (vote.epoch, vote.height);
        let step = self.ready_maker(key).append(
            self.stakes,
            vote.epoch,
            vote.height,
            vote.author,
            RBC_READY,
            vote.signature,
        );
        (AggregatorState { ready: self.ready.insert(key, step.0), ..self }, step.1)
    }

    /// A prepare vote goes to the accumulator of its instance and phase.
    pub open spec fn add_prepare_vote(self, prepare: Prepare) -> (
        Self,
        ConsensusResult<Option<(u8, bool)>>,
    ) {
        let key = (prepare.epoch, prepare.height, prepare.phase);
        let step = self.prepare_maker(key).append(self.stakes, prepare);
        (AggregatorState { prepare: self.prepare.insert(key, step.0), ..self }, step.1)
    }

    /// A coin share goes to the accumulator of its instance and round.
    pub open spec fn add_aba_share_coin(self, share: RandomnessShare, key_set: Seq<u8>) -> (
        Self,
        ConsensusResult<Option<usize>>,
    ) {
        let key = (share.epoch, share.height, share.round);
        let step = self.coin_maker(key).append(self.stakes, share, key_set);
        (AggregatorState { coin: self.coin.insert(key, step.0), ..self }, step.1)
    }

    /// Only the accumulators ranked above (epoch, height) stay.
    pub open spec fn cleanup(self, epoch: SeqNumber, height: SeqNumber) -> Self {
        let size = self.stakes.len();
        let bound = rank_of(size, epoch, height);
        AggregatorState {
            stakes: self.stakes,
            echo: self.echo.restrict(above(size, bound)),
            ready: self.ready.restrict(above(size, bound)),
            prepare: self.prepare.restrict(above(size, bound)),
            coin: self.coin.restrict(above(size, bound)),
        }
    }

    /// Whether any accumulator is held for an instance of this rank or
    /// below.
    pub open spec fn holds_up_to(self, bound: nat) -> bool {
        let size = self.stakes.len();
        ||| exists|k: (SeqNumber, SeqNumber)| #[trigger]
            self.echo.contains_key(k) && rank_of(size, k.0, k.1) <= bound
        ||| exists|k: (SeqNumber, SeqNumber)| #[trigger]
            self.ready.contains_key(k) && rank_of(size, k.0, k.1) <= bound
        ||| exists|k: (SeqNumber, SeqNumber, u8)| #[trigger]
            self.prepare.contains_key(k) && rank_of(size, k.0, k.1) <= bound
        ||| exists|k: (SeqNumber, SeqNumber, SeqNumber)| #[trigger]
            self.coin.contains_key(k) && rank_of(size, k.0, k.1) <= bound
    }
}

/// After a cleanup up to (epoch, height), no accumulator is left for an
/// instance of that rank or below, and later votes do not bring one back
/// for another instance.
pub proof fn lemma_cleanup_leaves_nothing_behind(
    state: AggregatorState,
    epoch: SeqNumber,
    height: SeqNumber,
)
    ensures
        !state.cleanup(epoch, height).holds_up_to(rank_of(state.stakes.len(), epoch, height)),
        state.wf() ==> state.cleanup(epoch, height).wf(),
{
}

/// An echo vote keeps the accumulators well formed.
pub proof fn lemma_echo_keeps_wf(state: AggregatorState, vote: EchoVote)
    requires
        state.wf(),
    ensures
        state.add_rbc_echo_vote(vote).0.wf(),
{
    lemma_empty_proof_maker_wf(state.stakes);
    lemma_proof_append_wf(
        state.echo_maker((vote.epoch, vote.height)),
        state.stakes,
        vote.epoch,
        vote.height,
        vote.author,
        RBC_ECHO,
        vote.signature,
    );
}

/// A ready vote keeps the accumulators well formed.
pub proof fn lemma_ready_keeps_wf(state: AggregatorState, vote: ReadyVote)
    requires
        state.wf(),
    ensures
        state.add_rbc_ready_vote(vote).0.wf(),
{
    lemma_empty_proof_maker_wf(state.stakes);
    lemma_proof_append_wf(
        state.ready_maker((vote.epoch, vote.height)),
        state.stakes,
        vote.epoch,
        vote.height,
        vote.author,
        RBC_READY,
        vote.signature,
    );
}

/// A prepare vote keeps the accumulators well formed.
pub proof fn lemma_prepare_keeps_wf(state: AggregatorState, vote: Prepare)
    requires
        state.wf(),
    ensures
        state.add_prepare_vote(vote).0.wf(),
{
    lemma_stake_of_empty(state.stakes);
    lemma_prepare_append_wf(
        state.prepare_maker((vote.epoch, vote.height, vote.phase)),
        state.stakes,
        vote,
    );
}

/// A coin share keeps the accumulators well formed.
pub proof fn lemma_share_keeps_wf(state: AggregatorState, share: RandomnessShare, key_set: Seq<u8>)
    requires
        state.wf(),
    ensures
        state.add_aba_share_coin(share, key_set).0.wf(),
{
    lemma_stake_of_empty(state.stakes);
    lemma_coin_append_wf(
        state.coin_maker((share.epoch, share.height, share.round)),
        state.stakes,
        share,
        key_set,
    );
}

/// An echo vote that is turned down leaves the accumulators as they were.
pub proof fn lemma_rejected_echo_changes_nothing(state: AggregatorState, vote: EchoVote)
    ensures
        state.add_rbc_echo_vote(vote).1 is Err ==> state.add_rbc_echo_vote(vote).0 == state,
{
    if state.add_rbc_echo_vote(vote).1 is Err {
        assert(state.add_rbc_echo_vote(vote).0.echo =~= state.echo);
    }
}

/// A ready vote that is turned down leaves the accumulators as they were.
pub proof fn lemma_rejected_ready_changes_nothing(state: AggregatorState, vote: ReadyVote)
    ensures
        state.add_rbc_ready_vote(vote).1 is Err ==> state.add_rbc_ready_vote(vote).0 == state,
{
    if state.add_rbc_ready_vote(vote).1 is Err {
        assert(state.add_rbc_ready_vote(vote).0.ready =~= state.ready);
    }
}

/// A prepare vote that is turned down leaves the accumulators as they
/// were.
pub proof fn lemma_rejected_prepare_changes_nothing(state: AggregatorState, vote: Prepare)
    ensures
        state.add_prepare_vote(vote).1 is Err ==> state.add_prepare_vote(vote).0 == state,
{
    if state.add_prepare_vote(vote).1 is Err {
        assert(state.add_prepare_vote(vote).0.prepare =~= state.prepare);
    }
}

/// A coin share that is turned down leaves the accumulators as they were.
pub proof fn lemma_rejected_share_changes_nothing(
    state: AggregatorState,
    share: RandomnessShare,
    key_set: Seq<u8>,
)
    ensures
        state.add_aba_share_coin(share, key_set).1 is Err ==> state.add_aba_share_coin(
            share,
            key_set,
        ).0 == state,
{
    if state.add_aba_share_coin(share, key_set).1 is Err {
        assert(state.add_aba_share_coin(share, key_set).0.coin =~= state.coin);
    }
}

/// An echo vote counts once: whatever became of it, the same vote handed
/// in again is turned down and changes nothing.
pub proof fn lemma_second_echo_is_rejected(state: AggregatorState, vote: EchoVote)
    ensures
        state.add_rbc_echo_vote(vote).0.add_rbc_echo_vote(vote) == (
            state.add_rbc_echo_vote(vote).0,
            Err::<Option<ProofContent>, ConsensusError>(
                ConsensusError::AuthorityReuseinRBCVote(vote.author),
            ),
        ),
{
    let counted = state.add_rbc_echo_vote(vote).0;
    assert(counted.add_rbc_echo_vote(vote).0.echo =~= counted.echo);
}

/// A ready vote counts once.
pub proof fn lemma_second_ready_is_rejected(state: AggregatorState, vote: ReadyVote)
    ensures
        state.add_rbc_ready_vote(vote).0.add_rbc_ready_vote(vote) == (
            state.add_rbc_ready_vote(vote).0,
            Err::<Option<ProofContent>, ConsensusError>(
                ConsensusError::AuthorityReuseinRBCVote(vote.author),
            ),
        ),
{
    let counted = state.add_rbc_ready_vote(vote).0;
    assert(counted.add_rbc_ready_vote(vote).0.ready =~= counted.ready);
}

/// A prepare vote counts once.
pub proof fn lemma_second_prepare_is_rejected(state: AggregatorState, vote: Prepare)
    ensures
        state.add_prepare_vote(vote).0.add_prepare_vote(vote) == (
            state.add_prepare_vote(vote).0,
            Err::<Option<(u8, bool)>, ConsensusError>(
                ConsensusError::AuthorityReuseinPrepare(vote.author),
            ),
        ),
{
    let counted = state.add_prepare_vote(vote).0;
    assert(counted.add_prepare_vote(vote).0.prepare =~= counted.prepare);
}

/// A coin share counts once.
pub proof fn lemma_second_share_is_rejected(
    state: AggregatorState,
    share: RandomnessShare,
    key_set: Seq<u8>,
)
    ensures
        state.add_aba_share_coin(share, key_set).0.add_aba_share_coin(share, key_set) == (
            state.add_aba_share_coin(share, key_set).0,
            Err::<Option<usize>, ConsensusError>(ConsensusError::AuthorityReuseinCoin(share.author)),
        ),
{
    let counted = state.add_aba_share_coin(share, key_set).0;
    assert(counted.add_aba_share_coin(share, key_set).0.coin =~= counted.coin);
}

/// A second cleanup up to the same instance finds nothing to drop.
pub proof fn lemma_cleanup_twice(state: AggregatorState, epoch: SeqNumber, height: SeqNumber)
    ensures
        state.cleanup(epoch, height).cleanup(epoch, height) == state.cleanup(epoch, height),
{
    let once = state.cleanup(epoch, height);
    let twice = once.cleanup(epoch, height);
    assert(twice.echo =~= once.echo);
    assert(twice.ready =~= once.ready);
    assert(twice.prepare =~= once.prepare);
    assert(twice.coin =~= once.coin);
}

/// The vote accumulators of one node.
pub struct Aggregator {
    committee: Committee,
    share_coin_aggregators: Table<(SeqNumber, SeqNumber, SeqNumber), RandomCoinMaker>,
    echo_vote_aggregators: Table<(SeqNumber, SeqNumber), RBCProofMaker>,
    ready_vote_aggregators: Table<(SeqNumber, SeqNumber), RBCProofMaker>,
    prepare_vote_aggregators: Table<(SeqNumber, SeqNumber, u8), PrepareMaker>,
}

impl Aggregator {
    /// What the accumulators hold.
    pub closed spec fn view(&self) -> AggregatorState {
        AggregatorState {
            stakes: self.committee@,
            echo: self.echo_vote_aggregators@.map_values(|maker: RBCProofMaker| maker@),
            ready: self.ready_vote_aggregators@.map_values(|maker: RBCProofMaker| maker@),
            prepare: self.prepare_vote_aggregators@.map_values(|maker: PrepareMaker| maker@),
            coin: self.share_coin_aggregators@.map_values(|maker: RandomCoinMaker| maker@),
        }
    }

    /// The committee and every accumulator are well formed.
    pub closed spec fn wf(&self) -> bool {
        self.committee.wf() && self@.wf()
    }

    /// A well-formed aggregator holds well-formed accumulators.
    pub proof fn lemma_view_wf(&self)
        requires
            self.wf(),
        ensures
            self@.wf(),
    {
    }

    /// An aggregator for `committee`, without accumulators.
    pub fn new(committee: Committee) -> (aggregator: Self)
        requires
            committee.wf(),
        ensures
            aggregator.wf(),
            aggregator@ == AggregatorState::empty(committee@),
    {
        proof {
            committee.lemma_bounds();
        }
        let aggregator = Aggregator {
            committee,
            share_coin_aggregators: Table::new(),
            echo_vote_aggregators: Table::new(),
            ready_vote_aggregators: Table::new(),
            prepare_vote_aggregators: Table::new(),
        };
        proof {
            let state = aggregator@;
            assert(state.echo =~= Map::empty());
            assert(state.ready =~= Map::empty());
            assert(state.prepare =~= Map::empty());
            assert(state.coin =~= Map::empty());
        }
        aggregator
    }

    /// Counts an echo vote; a proof comes back when the votes of its
    /// instance reach the quorum.
    pub fn add_rbc_echo_vote(&mut self, vote: EchoVote) -> (result: ConsensusResult<Option<RBCProof>>)
        requires
            old(self).wf(),
        ensures
            final(self).wf(),
            final(self)@ == old(self)@.add_rbc_echo_vote(vote).0,
            proof_outcome(result) == old(self)@.add_rbc_echo_vote(vote).1,
    {
        let ghost before = self@;
        let key = (vote.epoch, vote.height);
        let mut maker = match self.echo_vote_aggregators.take(&key) {
            Some(maker) => maker,
            None => RBCProofMaker::new(),
        };
        proof {
            lemma_empty_proof_maker_wf(before.stakes);
            assert(maker@ == before.echo_maker(key));
        }
        let result = maker.append(
            vote.epoch,
            vote.height,
            vote.author,
            RBC_ECHO,
            vote.signature,
            &self.committee,
        );
        self.echo_vote_aggregators.insert(key, maker);
        proof {
            assert(self@.echo =~= before.echo.insert(key, maker@));
            assert(self@.ready =~= before.ready);
            assert(self@.prepare =~= before.prepare);
            assert(self@.coin =~= before.coin);
        }
        result
    }

    /// Counts a ready vote; a proof comes back when the votes of its
    /// instance reach the coin threshold, and again at the quorum.
    pub fn add_rbc_ready_vote(&mut self, vote: ReadyVote) -> (result: ConsensusResult<
        Option<RBCProof>,
    >)
        requires
            old(self).wf(),
        ensures
            final(self).wf(),
            final(self)@ == old(self)@.add_rbc_ready_vote(vote).0,
            proof_outcome(result) == old(self)@.add_rbc_ready_vote(vote).1,
    {
        let ghost before = self@;
        let key = (vote.epoch, vote.height);
        let mut maker = match self.ready_vote_aggregators.take(&key) {
            Some(maker) => maker,
            None => RBCProofMaker::new(),
        };
        proof {
            lemma_empty_proof_maker_wf(before.stakes);
            assert(maker@ == before.ready_maker(key));
        }
        let result = maker.append(
            vote.epoch,
            vote.height,
            vote.author,
            RBC_READY,
            vote.signature,
            &self.committee,
        );
        self.ready_vote_aggregators.insert(key, maker);
        proof {
            assert(self@.ready =~= before.ready.insert(key, maker@));
            assert(self@.echo =~= before.echo);
            assert(self@.prepare =~= before.prepare);
            assert(self@.coin =~= before.coin);
        }
        result
    }

    /// Counts a prepare vote; the phase's verdict comes back when the votes
    /// of its instance and phase add up to exactly the quorum.
    pub fn add_prepare_vote(&mut self, prepare: Prepare) -> (result: ConsensusResult<
        Option<(u8, bool)>,
    >)
        requires
            old(self).wf(),
        ensures
            final(self).wf(),
            final(self)@ == old(self)@.add_prepare_vote(prepare).0,
            result == old(self)@.add_prepare_vote(prepare).1,
    {
        let ghost before = self@;
        let key = (prepare.epoch, prepare.height, prepare.phase);
        let mut maker = match self.prepare_vote_aggregators.take(&key) {
            Some(maker) => maker,
            None => PrepareMaker::new(),
        };
        proof {
            lemma_stake_of_empty(before.stakes);
            assert(maker@ == before.prepare_maker(key));
        }
        let result = maker.append(prepare, &self.committee);
        self.prepare_vote_aggregators.insert(key, maker);
        proof {
            assert(self@.prepare =~= before.prepare.insert(key, maker@));
            assert(self@.echo =~= before.echo);
            assert(self@.ready =~= before.ready);
            assert(self@.coin =~= before.coin);
        }
        result
    }

    /// Counts a coin share; the coin comes back when the shares of its
    /// round reach the coin threshold and combine under `pk_set`.
    pub fn add_aba_share_coin(&mut self, share: RandomnessShare, pk_set: &Vec<u8>) -> (result:
        ConsensusResult<Option<usize>>)
        requires
            old(self).wf(),
        ensures
            final(self).wf(),
            final(self)@ == old(self)@.add_aba_share_coin(share, pk_set@).0,
            result == old(self)@.add_aba_share_coin(share, pk_set@).1,
    {
        let ghost before = self@;
        let key = (share.epoch, share.height, share.round);
        let mut maker = match self.share_coin_aggregators.take(&key) {
            Some(maker) => maker,
            None => RandomCoinMaker::new(),
        };
        proof {
            lemma_stake_of_empty(before.stakes);
            assert(maker@ == before.coin_maker(key));
        }
        let result = maker.append(share, &self.committee, pk_set);
        self.share_coin_aggregators.insert(key, maker);
        proof {
            assert(self@.coin =~= before.coin.insert(key, maker@));
            assert(self@.echo =~= before.echo);
            assert(self@.ready =~= before.ready);
            assert(self@.prepare =~= before.prepare);
        }
        result
    }

    /// Drops every accumulator of an instance ranked at or below
    /// (epoch, height).
    pub fn cleanup(&mut self, epoch: SeqNumber, height: SeqNumber)
        requires
            old(self).wf(),
        ensures
            final(self).wf(),
            final(self)@ == old(self)@.cleanup(epoch, height),
            !final(self)@.holds_up_to(rank_of(old(self)@.stakes.len(), epoch, height)),
    {
        let ghost before = self@;
        let size = self.committee.size();
        self.echo_vote_aggregators.purge(size, epoch, height);
        self.ready_vote_aggregators.purge(size, epoch, height);
        self.prepare_vote_aggregators.purge(size, epoch, height);
        self.share_coin_aggregators.purge(size, epoch, height);
        proof {
            let after = before.cleanup(epoch, height);
            assert(self@.echo =~= after.echo);
            assert(self@.ready =~= after.ready);
            assert(self@.prepare =~= after.prepare);
            assert(self@.coin =~= after.coin);
            lemma_cleanup_leaves_nothing_behind(before, epoch, height);
        }
    }
}

} // verus!
