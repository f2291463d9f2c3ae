//! The engine as a transition system: the state of one node, the events it
//! takes, and for each event the next state and the actions it asks for.
//! The executable engine is proved to follow these transitions step by step.

use crate::aggregator::{vote_authors, AggregatorState};
use crate::collections::{above, key_rank, InstanceKey};
use crate::commitor::{CommitContent, CommitorState, MAX_BLOCK_BUFFER};
use crate::config::{
    coin_quorum_of, quorum_of, rank_of, stake_sum, NodeId, Parameters, SeqNumber, Stake,
};
use crate::error::{ConsensusError, ConsensusResult};
use crate::messages::{
    admission, share_admission, unsigned, ABAOutput, ABAVal, Block, ConsensusMessage, Digest,
    EchoVote, Prepare, ProofContent, RandomnessShare, ReadyVote, SignatureShare, MUX_PHASE, OPT,
    PES, PRE_ONE, PRE_TWO, RBC_READY, VAL_PHASE,
};
use vstd::bytes::{spec_u128_to_le_bytes, spec_u64_to_le_bytes};
use vstd::prelude::*;

verus! {

/// One flag for each binary value.
#[derive(Clone, Copy, Debug, PartialEq, Eq)]
pub struct Flags {
    pub pes: bool,
    pub opt: bool,
}

impl Flags {
    /// Both flags down.
    pub open spec fn none() -> Flags {
        Flags { pes: false, opt: false }
    }

    /// The flag of `val`.
    pub open spec fn of(self, val: usize) -> bool {
        if val == OPT as usize {
            self.opt
        } else {
            self.pes
        }
    }

    /// These flags with the flag of `val` set to `flag`.
    pub open spec fn with(self, val: usize, flag: bool) -> Flags {
        if val == OPT as usize {
            Flags { opt: flag, ..self }
        } else {
            Flags { pes: flag, ..self }
        }
    }

    /// Whether either flag is up.
    pub open spec fn any(self) -> bool {
        self.pes || self.opt
    }
}

impl Flags {
    /// Both flags down.
    pub fn new() -> (flags: Flags)
        ensures
            flags == Flags::none(),
    {
        Flags { pes: false, opt: false }
    }

    /// The flag of `val`.
    pub fn get(&self, val: usize) -> (flag: bool)
        ensures
            flag == self.of(val),
    {
        if val == OPT as usize {
            self.opt
        } else {
            self.pes
        }
    }

    /// Sets the flag of `val`.
    pub fn set(&mut self, val: usize, flag: bool)
        ensures
            *final(self) == old(self).with(val, flag),
    {
        if val == OPT as usize {
            self.opt = flag;
        } else {
            self.pes = flag;
        }
    }
}

/// The voters seen for each binary value.
pub struct TallyState {
    pub pes: Set<NodeId>,
    pub opt: Set<NodeId>,
}

impl TallyState {
    /// No voters.
    pub open spec fn empty() -> TallyState {
        TallyState { pes: Set::empty(), opt: Set::empty() }
    }

    /// The voters for `val`.
    pub open spec fn of(self, val: usize) -> Set<NodeId> {
        if val == OPT as usize {
            self.opt
        } else {
            self.pes
        }
    }

    /// This tally with `voters` as the voters for `val`.
    pub open spec fn with(self, val: usize, voters: Set<NodeId>) -> TallyState {
        if val == OPT as usize {
            TallyState { opt: voters, ..self }
        } else {
            TallyState { pes: voters, ..self }
        }
    }
}

/// The share field of a coin share that has not been signed yet: all zero.
pub closed spec fn unsigned_share() -> SignatureShare {
    choose|share: SignatureShare| share@ == Seq::new(96, |i: int| 0u8)
}

/// The share field of a coin share that has not been signed yet.
pub fn no_share() -> (share: SignatureShare)
    ensures
        share == unsigned_share(),
{
    let share: SignatureShare = [0u8; 96];
    proof {
        assert(share@ =~= Seq::new(96, |i: int| 0u8));
        assert(unsigned_share()@ == Seq::new(96, |i: int| 0u8));
        assert(share =~= unsigned_share());
    }
    share
}

/// What the engine asks its surroundings to do.
pub enum ActionContent {
    Broadcast(ConsensusMessage),
    ServeBlock { key: Seq<u8>, to: NodeId },
    Store { key: Seq<u8>, block: Block },
    VerifyPayload(Block),
    FetchBlock { epoch: SeqNumber, height: SeqNumber },
    Propose { epoch: SeqNumber, height: SeqNumber, max_payload_size: u64, min_block_delay: u64 },
    Commit(CommitContent),
    CleanMempool { digests: Vec<Digest>, epoch: SeqNumber, height: SeqNumber },
}

/// What the engine is told.
#[derive(Clone, Debug, PartialEq, Eq)]
pub enum Event {
    /// A message arrived, from another member or from this node itself,
    /// and its signature was checked.
    Message { message: ConsensusMessage, signature_valid: bool },
    /// The mempool answered whether it holds the payload of the block.
    PayloadVerified { block: Block, valid: bool },
    /// The synchronizer found the block of an instance.
    BlockFetched(Block),
    /// The committer is done with everything up to (epoch, height).
    Committed { digests: Vec<Digest>, epoch: SeqNumber, height: SeqNumber },
}

/// The commit notices, each as an action.
pub open spec fn commit_actions(commits: Seq<CommitContent>) -> Seq<ActionContent> {
    commits.map_values(|commit: CommitContent| ActionContent::Commit(commit))
}

/// The state of one node.
pub struct CoreState {
    pub name: NodeId,
    pub stakes: Seq<Stake>,
    pub parameters: Parameters,
    pub key_set: Seq<u8>,
    pub fallback: SeqNumber,
    pub epoch: SeqNumber,
    pub height: SeqNumber,
    pub aggregator: AggregatorState,
    pub commitor: CommitorState,
    pub buffers: Map<(SeqNumber, SeqNumber), bool>,
    pub rbc_proofs: Map<(SeqNumber, SeqNumber, u8), ProofContent>,
    pub rbc_ready: Set<(SeqNumber, SeqNumber)>,
    pub rbc_epoch_outputs: Map<SeqNumber, Set<SeqNumber>>,
    pub prepare_flags: Set<(SeqNumber, SeqNumber)>,
    pub aba_values: Map<(SeqNumber, SeqNumber, SeqNumber), TallyState>,
    pub aba_values_flag: Map<(SeqNumber, SeqNumber, SeqNumber), Flags>,
    pub aba_mux_values: Map<(SeqNumber, SeqNumber, SeqNumber), TallyState>,
    pub aba_mux_flags: Map<(SeqNumber, SeqNumber, SeqNumber), Flags>,
    pub aba_outputs: Map<(SeqNumber, SeqNumber, SeqNumber), Set<NodeId>>,
    pub aba_ends: Map<(SeqNumber, SeqNumber), bool>,
    /// Highest rank that the committer has reported as done, if any.
    pub cleaned: Option<nat>,
}

/// Key of the block of (epoch, height) in the store: the rank of the
/// instance in little-endian bytes, eight of them. A rank that does not fit
/// in eight bytes is written in sixteen, so that no two ranks share a key.
pub open spec fn store_key_of(size: nat, epoch: SeqNumber, height: SeqNumber) -> Seq<u8> {
    let rank = rank_of(size, epoch, height);
    if rank <= u64::MAX {
        spec_u64_to_le_bytes(rank as u64)
    } else {
        spec_u128_to_le_bytes(rank as u128)
    }
}

/// Every proof on record is the proof of the instance and tag under which
/// it stands, and its votes are by distinct authors.
pub open spec fn proofs_in_place(proofs: Map<(SeqNumber, SeqNumber, u8), ProofContent>) -> bool {
    forall|k: (SeqNumber, SeqNumber, u8)| #[trigger]
        proofs.contains_key(k) ==> {
            &&& proofs[k].epoch == k.0
            &&& proofs[k].height == k.1
            &&& proofs[k].tag == k.2
            &&& vote_authors(proofs[k].votes).no_duplicates()
        }
}

/// Whether every key of the table belongs to an instance ranked above
/// what has been cleaned up.
pub open spec fn all_above<K: InstanceKey, V>(
    table: Map<K, V>,
    size: nat,
    cleaned: Option<nat>,
) -> bool {
    cleaned matches Some(bound) ==> forall|k: K| #[trigger]
        table.contains_key(k) ==> key_rank(size, k) > bound
}

/// Whether every marked instance is ranked above what has been cleaned up.
pub open spec fn marks_above(
    marks: Set<(SeqNumber, SeqNumber)>,
    size: nat,
    cleaned: Option<nat>,
) -> bool {
    cleaned matches Some(bound) ==> forall|k: (SeqNumber, SeqNumber)| #[trigger]
        marks.contains(k) ==> rank_of(size, k.0, k.1) > bound
}

/// In every round, the members whose output has been seen are finitely
/// many.
pub open spec fn finitely_seen(outputs: Map<(SeqNumber, SeqNumber, SeqNumber), Set<NodeId>>) -> bool {
    forall|k: (SeqNumber, SeqNumber, SeqNumber)| #[trigger]
        outputs.contains_key(k) ==> outputs[k].finite()
}

/// An unsigned prepare vote.
pub open spec fn prepare_of(
    author: NodeId,
    epoch: SeqNumber,
    height: SeqNumber,
    phase: u8,
    val: u8,
) -> ActionContent {
    ActionContent::Broadcast(
        ConsensusMessage::PrePareMsg(
            Prepare { author, epoch, height, phase, val, signature: unsigned() },
        ),
    )
}

/// An unsigned ready vote.
pub open spec fn ready_of(author: NodeId, epoch: SeqNumber, height: SeqNumber, digest: Digest)
    -> ActionContent {
    ActionContent::Broadcast(
        ConsensusMessage::RBCReadyMsg(
            ReadyVote { author, epoch, height, digest, signature: unsigned() },
        ),
    )
}

/// An unsigned agreement vote of the value sub-phase.
pub open spec fn aba_val_of(
    author: NodeId,
    epoch: SeqNumber,
    height: SeqNumber,
    round: SeqNumber,
    val: usize,
) -> ActionContent {
    ActionContent::Broadcast(
        ConsensusMessage::ABAValMsg(
            ABAVal { author, epoch, height, round, val, phase: VAL_PHASE, signature: unsigned() },
        ),
    )
}

/// An unsigned agreement vote of the mux sub-phase.
pub open spec fn aba_mux_of(
    author: NodeId,
    epoch: SeqNumber,
    height: SeqNumber,
    round: SeqNumber,
    val: usize,
) -> ActionContent {
    ActionContent::Broadcast(
        ConsensusMessage::ABAMuxMsg(
            ABAVal { author, epoch, height, round, val, phase: MUX_PHASE, signature: unsigned() },
        ),
    )
}

/// An unsigned agreement output.
pub open spec fn aba_output_of(
    author: NodeId,
    epoch: SeqNumber,
    height: SeqNumber,
    round: SeqNumber,
    val: usize,
) -> ActionContent {
    ActionContent::Broadcast(
        ConsensusMessage::ABAOutputMsg(
            ABAOutput { author, epoch, height, round, val, signature: unsigned() },
        ),
    )
}

/// An unsigned coin share.
pub open spec fn coin_share_of(
    author: NodeId,
    epoch: SeqNumber,
    height: SeqNumber,
    round: SeqNumber,
) -> ActionContent {
    ActionContent::Broadcast(
        ConsensusMessage::ABACoinShareMsg(
            RandomnessShare { epoch, height, round, author, signature_share: unsigned_share() },
        ),
    )
}

impl CoreState {
    /// The state of a node that has seen nothing.
    pub open spec fn init(
        name: NodeId,
        stakes: Seq<Stake>,
        parameters: Parameters,
        key_set: Seq<u8>,
    ) -> CoreState {
        CoreState {
            name,
            stakes,
            parameters,
            key_set,
            fallback: parameters.fallback,
            epoch: 0,
            height: name,
            aggregator: AggregatorState::empty(stakes),
            commitor: CommitorState::empty(stakes.len()),
            buffers: Map::empty(),
            rbc_proofs: Map::empty(),
            rbc_ready: Set::empty(),
            rbc_epoch_outputs: Map::empty(),
            prepare_flags: Set::empty(),
            aba_values: Map::empty(),
            aba_values_flag: Map::empty(),
            aba_mux_values: Map::empty(),
            aba_mux_flags: Map::empty(),
            aba_outputs: Map::empty(),
            aba_ends: Map::empty(),
            cleaned: None,
        }
    }

    /// The parts fit together: the node is a member, the accumulators and
    /// the commit buffer are those of this committee, finitely many
    /// outputs have been seen, every proof on record stands under its own
    /// instance and tag, with no author twice, the fallback window is
    /// shorter than the commit buffer, and nothing is kept for an instance
    /// that the committer is done with.
    pub open spec fn wf(self) -> bool {
        &&& (self.name as int) < self.stakes.len()
        &&& self.stakes.len() <= usize::MAX
        &&& stake_sum(self.stakes) <= Stake::MAX
        &&& self.height == self.name
        &&& self.aggregator.stakes == self.stakes
        &&& self.aggregator.wf()
        &&& self.commitor.size == self.stakes.len()
        &&& self.commitor.wf()
        &&& finitely_seen(self.aba_outputs)
        &&& proofs_in_place(self.rbc_proofs)
        &&& self.fallback < MAX_BLOCK_BUFFER
        &&& self.closed()
    }

    /// Whether the committer is done with the instance: its rank is at or
    /// below the highest rank cleaned up so far.
    pub open spec fn late(self, epoch: SeqNumber, height: SeqNumber) -> bool {
        self.cleaned matches Some(bound) && rank_of(self.stakes.len(), epoch, height) <= bound
    }

    /// Nothing is kept for an instance that the committer is done with:
    /// no accumulator, no block, proof or ready mark, and no votes, flags
    /// or outputs of agreement.
    pub open spec fn closed(self) -> bool {
        let size = self.stakes.len();
        &&& all_above(self.aggregator.echo, size, self.cleaned)
        &&& all_above(self.aggregator.ready, size, self.cleaned)
        &&& all_above(self.aggregator.prepare, size, self.cleaned)
        &&& all_above(self.aggregator.coin, size, self.cleaned)
        &&& all_above(self.buffers, size, self.cleaned)
        &&& all_above(self.rbc_proofs, size, self.cleaned)
        &&& marks_above(self.rbc_ready, size, self.cleaned)
        &&& all_above(self.aba_values, size, self.cleaned)
        &&& all_above(self.aba_mux_values, size, self.cleaned)
        &&& all_above(self.aba_values_flag, size, self.cleaned)
        &&& all_above(self.aba_mux_flags, size, self.cleaned)
        &&& all_above(self.aba_outputs, size, self.cleaned)
    }

    /// The quorum of this committee.
    pub open spec fn quorum(self) -> nat {
        quorum_of(stake_sum(self.stakes))
    }

    /// The coin threshold of this committee.
    pub open spec fn coin_quorum(self) -> nat {
        coin_quorum_of(stake_sum(self.stakes))
    }

    /// Key under which the block of (epoch, height) is stored.
    pub open spec fn store_key(self, epoch: SeqNumber, height: SeqNumber) -> Seq<u8> {
        store_key_of(self.stakes.len(), epoch, height)
    }

    /// The heights delivered in `epoch`.
    pub open spec fn outputs_of(self, epoch: SeqNumber) -> Set<SeqNumber> {
        if self.rbc_epoch_outputs.contains_key(epoch) {
            self.rbc_epoch_outputs[epoch]
        } else {
            Set::empty()
        }
    }

    /// The value votes of a round.
    pub open spec fn values_of(self, key: (SeqNumber, SeqNumber, SeqNumber)) -> TallyState {
        if self.aba_values.contains_key(key) {
            self.aba_values[key]
        } else {
            TallyState::empty()
        }
    }

    /// The mux votes of a round.
    pub open spec fn mux_values_of(self, key: (SeqNumber, SeqNumber, SeqNumber)) -> TallyState {
        if self.aba_mux_values.contains_key(key) {
            self.aba_mux_values[key]
        } else {
            TallyState::empty()
        }
    }

    /// The value flags of a round.
    pub open spec fn value_flags_of(self, key: (SeqNumber, SeqNumber, SeqNumber)) -> Flags {
        if self.aba_values_flag.contains_key(key) {
            self.aba_values_flag[key]
        } else {
            Flags::none()
        }
    }

    /// The mux flags of a round.
    pub open spec fn mux_flags_of(self, key: (SeqNumber, SeqNumber, SeqNumber)) -> Flags {
        if self.aba_mux_flags.contains_key(key) {
            self.aba_mux_flags[key]
        } else {
            Flags::none()
        }
    }

    /// The members whose agreement output for a round has been seen.
    pub open spec fn outputs_seen(self, key: (SeqNumber, SeqNumber, SeqNumber)) -> Set<NodeId> {
        if self.aba_outputs.contains_key(key) {
            self.aba_outputs[key]
        } else {
            Set::empty()
        }
    }

    /// Whether agreement on an instance has ended.
    pub open spec fn ended(self, key: (SeqNumber, SeqNumber)) -> bool {
        self.aba_ends.contains_key(key) && self.aba_ends[key]
    }

    /// Proposes a block for the current epoch, unless this node is below
    /// the fault floor.
    pub open spec fn generate_rbc_proposal(self) -> Seq<ActionContent> {
        if self.height < self.parameters.fault {
            seq![]
        } else {
            seq![
                ActionContent::Propose {
                    epoch: self.epoch,
                    height: self.height,
                    max_payload_size: self.parameters.max_payload_size,
                    min_block_delay: self.parameters.min_block_delay,
                },
            ]
        }
    }

    /// Enters `epoch` if it is ahead of the current one, and proposes.
    pub open spec fn rbc_advance(self, epoch: SeqNumber) -> (Self, Seq<ActionContent>) {
        if epoch > self.epoch {
            let entered = CoreState { epoch, ..self };
            (entered, entered.generate_rbc_proposal())
        } else {
            (self, seq![])
        }
    }

    /// Starts the prepare classifier for an instance with `val`, once.
    pub open spec fn invoke_prepare(self, epoch: SeqNumber, height: SeqNumber, val: u8) -> (
        Self,
        Seq<ActionContent>,
    ) {
        if self.prepare_flags.contains((epoch, height)) {
            (self, seq![])
        } else {
            (
                CoreState { prepare_flags: self.prepare_flags.insert((epoch, height)), ..self },
                seq![prepare_of(self.name, epoch, height, PRE_ONE, val)],
            )
        }
    }

    /// Starts the classifier pessimistically for the heights below `upto`
    /// of epoch `fall` that have not started it.
    pub open spec fn force_pessimistic(self, fall: SeqNumber, upto: nat) -> (
        Self,
        Seq<ActionContent>,
    )
        decreases upto,
    {
        if upto == 0 {
            (self, seq![])
        } else {
            let before = self.force_pessimistic(fall, (upto - 1) as nat);
            let step = before.0.invoke_prepare(fall, (upto - 1) as SeqNumber, PES);
            (step.0, before.1 + step.1)
        }
    }

    /// Forces the classification of every pending instance of the epoch
    /// that lies the fallback window behind `cur_epoch`.
    pub open spec fn fallback(self, cur_epoch: SeqNumber) -> (Self, Seq<ActionContent>) {
        if cur_epoch >= self.fallback {
            self.force_pessimistic((cur_epoch - self.fallback) as SeqNumber, self.stakes.len())
        } else {
            (self, seq![])
        }
    }

    /// Asks for the block of an instance that is to be delivered, unless
    /// it has been delivered.
    pub open spec fn process_rbc_output(self, epoch: SeqNumber, height: SeqNumber) -> (
        Self,
        Seq<ActionContent>,
    ) {
        let outputs = self.outputs_of(epoch);
        let next = CoreState {
            rbc_epoch_outputs: self.rbc_epoch_outputs.insert(epoch, outputs),
            ..self
        };
        if outputs.contains(height) {
            (next, seq![])
        } else {
            (next, seq![ActionContent::FetchBlock { epoch, height }])
        }
    }

    /// Delivers a fetched block: into the commit buffer, and where the
    /// epoch now has a quorum of deliveries, on to the next epoch and to
    /// the fallback.
    pub open spec fn deliver(self, block: Block) -> (Self, Seq<ActionContent>) {
        let outputs = self.outputs_of(block.epoch);
        if outputs.contains(block.height) {
            (
                CoreState {
                    rbc_epoch_outputs: self.rbc_epoch_outputs.insert(block.epoch, outputs),
                    ..self
                },
                seq![],
            )
        } else {
            let grown = outputs.insert(block.height);
            let buffered = self.commitor.buffer_block(block);
            let delivered = CoreState {
                rbc_epoch_outputs: self.rbc_epoch_outputs.insert(block.epoch, grown),
                commitor: buffered.0,
                ..self
            };
            if grown.len() == self.quorum() {
                let advanced = if block.epoch < u64::MAX {
                    delivered.rbc_advance((block.epoch + 1) as SeqNumber)
                } else {
                    (delivered, seq![])
                };
                let forced = advanced.0.fallback(block.epoch);
                (forced.0, commit_actions(buffered.1) + advanced.1 + forced.1)
            } else {
                (delivered, commit_actions(buffered.1))
            }
        }
    }

    /// Excludes an instance from the commit stream.
    pub open spec fn exclude(self, epoch: SeqNumber, height: SeqNumber) -> (
        Self,
        Seq<ActionContent>,
    ) {
        let filtered = self.commitor.filter_block(epoch, height);
        (CoreState { commitor: filtered.0, ..self }, commit_actions(filtered.1))
    }

    /// Keeps a block and echoes it, unless one is kept for its instance
    /// or the committer is done with the instance.
    pub open spec fn accept_block(self, block: Block) -> (Self, Seq<ActionContent>) {
        if self.late(block.epoch, block.height) {
            (self, seq![])
        } else {
            let key = (block.epoch, block.height);
            if self.buffers.contains_key(key) {
                (self, seq![])
            } else {
                (
                    CoreState { buffers: self.buffers.insert(key, true), ..self },
                    seq![
                        ActionContent::Store {
                            key: self.store_key(block.epoch, block.height),
                            block,
                        },
                        ActionContent::Broadcast(
                            ConsensusMessage::RBCEchoMsg(
                                EchoVote {
                                    author: self.name,
                                    epoch: block.epoch,
                                    height: block.height,
                                    digest: block.digest,
                                    signature: unsigned(),
                                },
                            ),
                        ),
                    ],
                )
            }
        }
    }

    /// A block from its author.
    pub open spec fn handle_rbc_val(self, block: Block, signature_valid: bool) -> (
        Self,
        ConsensusResult<Seq<ActionContent>>,
    ) {
        if self.late(block.epoch, block.height) {
            (self, Ok(seq![]))
        } else {
            match admission(self.stakes, block.author, block.well_formed(), signature_valid) {
                Err(e) => (self, Err(e)),
                Ok(_) => {
                    if self.buffers.contains_key((block.epoch, block.height)) {
                        (self, Ok(seq![]))
                    } else if self.parameters.exp > 0 {
                        (self, Ok(seq![ActionContent::VerifyPayload(block)]))
                    } else {
                        let accepted = self.accept_block(block);
                        (accepted.0, Ok(accepted.1))
                    }
                },
            }
        }
    }

    /// The mempool's verdict on the payload of a block.
    pub open spec fn handle_payload_verified(self, block: Block, valid: bool) -> (
        Self,
        Seq<ActionContent>,
    ) {
        if valid {
            self.accept_block(block)
        } else {
            (self, seq![])
        }
    }

    /// An echo vote.
    pub open spec fn handle_rbc_echo(self, vote: EchoVote, signature_valid: bool) -> (
        Self,
        ConsensusResult<Seq<ActionContent>>,
    ) {
        if self.late(vote.epoch, vote.height) {
            (self, Ok(seq![]))
        } else {
            match admission(self.stakes, vote.author, true, signature_valid) {
                Err(e) => (self, Err(e)),
                Ok(_) => {
                    let counted = self.aggregator.add_rbc_echo_vote(vote);
                    match counted.1 {
                        Err(e) => (self, Err(e)),
                        Ok(None) => (CoreState { aggregator: counted.0, ..self }, Ok(seq![])),
                        Ok(Some(proof)) => {
                            let readied = CoreState {
                                aggregator: counted.0,
                                rbc_proofs: self.rbc_proofs.insert(
                                    (proof.epoch, proof.height, proof.tag),
                                    proof,
                                ),
                                rbc_ready: self.rbc_ready.insert((vote.epoch, vote.height)),
                                ..self
                            };
                            let prepared = readied.invoke_prepare(vote.epoch, vote.height, OPT);
                            (
                                prepared.0,
                                Ok(
                                    seq![ready_of(self.name, vote.epoch, vote.height, vote.digest)]
                                        + prepared.1,
                                ),
                            )
                        },
                    }
                },
            }
        }
    }

    /// A ready vote.
    pub open spec fn handle_rbc_ready(self, vote: ReadyVote, signature_valid: bool) -> (
        Self,
        ConsensusResult<Seq<ActionContent>>,
    ) {
        if self.late(vote.epoch, vote.height) {
            (self, Ok(seq![]))
        } else {
            match admission(self.stakes, vote.author, true, signature_valid) {
                Err(e) => (self, Err(e)),
                Ok(_) => {
                    let counted = self.aggregator.add_rbc_ready_vote(vote);
                    match counted.1 {
                        Err(e) => (self, Err(e)),
                        Ok(None) => (CoreState { aggregator: counted.0, ..self }, Ok(seq![])),
                        Ok(Some(proof)) => {
                            let was_ready = self.rbc_ready.contains((vote.epoch, vote.height));
                            let proved = CoreState {
                                aggregator: counted.0,
                                rbc_proofs: self.rbc_proofs.insert(
                                    (proof.epoch, proof.height, proof.tag),
                                    proof,
                                ),
                                ..self
                            };
                            if !was_ready && proof.votes.len() == self.coin_quorum() {
                                let readied = CoreState {
                                    rbc_ready: proved.rbc_ready.insert((vote.epoch, vote.height)),
                                    ..proved
                                };
                                let prepared = readied.invoke_prepare(vote.epoch, vote.height, OPT);
                                (
                                    prepared.0,
                                    Ok(
                                        seq![
                                            ready_of(self.name, vote.epoch, vote.height, vote.digest),
                                        ] + prepared.1,
                                    ),
                                )
                            } else if proof.votes.len() == self.quorum() {
                                let output = proved.process_rbc_output(vote.epoch, vote.height);
                                (output.0, Ok(output.1))
                            } else {
                                (proved, Ok(seq![]))
                            }
                        },
                    }
                },
            }
        }
    }

    /// What follows the verdict of a prepare phase.
    pub open spec fn apply_verdict(self, prepare: Prepare, val: u8, flag: bool) -> (
        Self,
        Seq<ActionContent>,
    ) {
        if flag {
            if prepare.phase == PRE_ONE {
                self.process_rbc_output(prepare.epoch, prepare.height)
            } else if prepare.phase == PRE_TWO {
                self.exclude(prepare.epoch, prepare.height)
            } else {
                (self, seq![])
            }
        } else {
            if prepare.phase == PRE_ONE {
                (self, seq![prepare_of(self.name, prepare.epoch, prepare.height, PRE_TWO, val)])
            } else if prepare.phase == PRE_TWO {
                (
                    self,
                    seq![aba_val_of(self.name, prepare.epoch, prepare.height, 0, val as usize)],
                )
            } else {
                (self, seq![])
            }
        }
    }

    /// A prepare vote.
    pub open spec fn handle_prepare(self, prepare: Prepare, signature_valid: bool) -> (
        Self,
        ConsensusResult<Seq<ActionContent>>,
    ) {
        if self.late(prepare.epoch, prepare.height) {
            (self, Ok(seq![]))
        } else {
            match admission(self.stakes, prepare.author, prepare.well_formed(), signature_valid) {
                Err(e) => (self, Err(e)),
                Ok(_) => {
                    let counted = self.aggregator.add_prepare_vote(prepare);
                    match counted.1 {
                        Err(e) => (self, Err(e)),
                        Ok(None) => (CoreState { aggregator: counted.0, ..self }, Ok(seq![])),
                        Ok(Some((val, flag))) => {
                            let applied = CoreState { aggregator: counted.0, ..self }.apply_verdict(
                                prepare,
                                val,
                                flag,
                            );
                            (applied.0, Ok(applied.1))
                        },
                    }
                },
            }
        }
    }

    /// An agreement vote of the value sub-phase.
    pub open spec fn handle_aba_val(self, vote: ABAVal, signature_valid: bool) -> (
        Self,
        ConsensusResult<Seq<ActionContent>>,
    ) {
        if self.late(vote.epoch, vote.height) {
            (self, Ok(seq![]))
        } else {
            match admission(self.stakes, vote.author, vote.well_formed(), signature_valid) {
                Err(e) => (self, Err(e)),
                Ok(_) => {
                    let key = (vote.epoch, vote.height, vote.round);
                    let tally = self.values_of(key);
                    if tally.of(vote.val).contains(vote.author) {
                        (CoreState { aba_values: self.aba_values.insert(key, tally), ..self }, Ok(seq![]))
                    } else {
                        let voted = tally.of(vote.val).insert(vote.author);
                        let amplify = voted.len() == self.coin_quorum() && !voted.contains(self.name);
                        let counted = if amplify {
                            voted.insert(self.name)
                        } else {
                            voted
                        };
                        let echo = if amplify {
                            seq![
                                aba_val_of(self.name, vote.epoch, vote.height, vote.round, vote.val),
                            ]
                        } else {
                            seq![]
                        };
                        let tallied = CoreState {
                            aba_values: self.aba_values.insert(key, tally.with(vote.val, counted)),
                            ..self
                        };
                        if counted.len() == self.quorum() {
                            let flags = tallied.value_flags_of(key);
                            let flagged = CoreState {
                                aba_values_flag: tallied.aba_values_flag.insert(
                                    key,
                                    flags.with(vote.val, true),
                                ),
                                ..tallied
                            };
                            if !flags.any() {
                                (
                                    flagged,
                                    Ok(
                                        echo + seq![
                                            aba_mux_of(
                                                self.name,
                                                vote.epoch,
                                                vote.height,
                                                vote.round,
                                                vote.val,
                                            ),
                                        ],
                                    ),
                                )
                            } else {
                                (flagged, Ok(echo))
                            }
                        } else {
                            (tallied, Ok(echo))
                        }
                    }
                },
            }
        }
    }

    /// The mux flags that a quorum of mux votes raises, given the value
    /// flags of the round.
    pub open spec fn raised_mux_flags(value_flags: Flags, opt: nat, pes: nat, quorum: nat) -> Flags {
        if value_flags.pes && value_flags.opt {
            Flags { opt: opt > 0, pes: pes > 0 }
        } else if value_flags.opt {
            Flags { opt: opt >= quorum, pes: false }
        } else {
            Flags { opt: false, pes: pes >= quorum }
        }
    }

    /// An agreement vote of the mux sub-phase.
    pub open spec fn handle_aba_mux(self, vote: ABAVal, signature_valid: bool) -> (
        Self,
        ConsensusResult<Seq<ActionContent>>,
    ) {
        if self.late(vote.epoch, vote.height) {
            (self, Ok(seq![]))
        } else {
            match admission(self.stakes, vote.author, vote.well_formed(), signature_valid) {
                Err(e) => (self, Err(e)),
                Ok(_) => {
                    let key = (vote.epoch, vote.height, vote.round);
                    let tally = self.mux_values_of(key);
                    if tally.of(vote.val).contains(vote.author) {
                        (
                            CoreState { aba_mux_values: self.aba_mux_values.insert(key, tally), ..self },
                            Ok(seq![]),
                        )
                    } else {
                        let counted = tally.with(vote.val, tally.of(vote.val).insert(vote.author));
                        let mux_flags = self.mux_flags_of(key);
                        let tallied = CoreState {
                            aba_mux_values: self.aba_mux_values.insert(key, counted),
                            aba_mux_flags: self.aba_mux_flags.insert(key, mux_flags),
                            ..self
                        };
                        if mux_flags.any() {
                            (tallied, Ok(seq![]))
                        } else if counted.opt.len() + counted.pes.len() >= self.quorum() {
                            let value_flags = self.value_flags_of(key);
                            let raised = Self::raised_mux_flags(
                                value_flags,
                                counted.opt.len(),
                                counted.pes.len(),
                                self.quorum(),
                            );
                            let flagged = CoreState {
                                aba_values_flag: self.aba_values_flag.insert(key, value_flags),
                                aba_mux_flags: self.aba_mux_flags.insert(key, raised),
                                ..tallied
                            };
                            if raised.any() {
                                (
                                    flagged,
                                    Ok(
                                        seq![
                                            coin_share_of(
                                                self.name,
                                                vote.epoch,
                                                vote.height,
                                                vote.round,
                                            ),
                                        ],
                                    ),
                                )
                            } else {
                                (flagged, Ok(seq![]))
                            }
                        } else {
                            (tallied, Ok(seq![]))
                        }
                    }
                },
            }
        }
    }

    /// Ends agreement on an instance with `val`, unless it has ended:
    /// announces the output, and commits or excludes the instance.
    pub open spec fn process_aba_output(
        self,
        epoch: SeqNumber,
        height: SeqNumber,
        round: SeqNumber,
        val: usize,
    ) -> (Self, Seq<ActionContent>) {
        if self.late(epoch, height) {
            (self, seq![])
        } else {
            if self.ended((epoch, height)) {
                (self, seq![])
            } else {
                let seen = self.outputs_seen((epoch, height, round));
                let announce = if seen.contains(self.name) {
                    seq![]
                } else {
                    seq![aba_output_of(self.name, epoch, height, round, val)]
                };
                let ended = CoreState {
                    aba_outputs: self.aba_outputs.insert(
                        (epoch, height, round),
                        seen.insert(self.name),
                    ),
                    aba_ends: self.aba_ends.insert((epoch, height), true),
                    ..self
                };
                let sealed = if val == OPT as usize {
                    ended.process_rbc_output(epoch, height)
                } else {
                    ended.exclude(epoch, height)
                };
                (sealed.0, announce + sealed.1)
            }
        }
    }

    /// Opens a round of agreement with `val`, unless agreement has ended.
    pub open spec fn aba_advance_round(
        self,
        epoch: SeqNumber,
        height: SeqNumber,
        round: SeqNumber,
        val: usize,
    ) -> (Self, Seq<ActionContent>) {
        if self.ended((epoch, height)) {
            (self, seq![])
        } else {
            (
                CoreState {
                    aba_ends: self.aba_ends.insert((epoch, height), false),
                    ..self
                },
                seq![aba_val_of(self.name, epoch, height, round, val)],
            )
        }
    }

    /// What follows the coin of a round: a decision where only the coin's
    /// value passed the mux sub-phase, and otherwise a next round, opened
    /// with the other value where only that one passed, and with the coin
    /// else.
    pub open spec fn apply_coin(
        self,
        epoch: SeqNumber,
        height: SeqNumber,
        round: SeqNumber,
        coin: usize,
    ) -> (Self, Seq<ActionContent>) {
        if self.late(epoch, height) {
            (self, seq![])
        } else {
            let key = (epoch, height, round);
            let flags = self.mux_flags_of(key);
            let flagged = CoreState { aba_mux_flags: self.aba_mux_flags.insert(key, flags), ..self };
            let other = (1 - coin) as usize;
            let decided = if flags.of(coin) && !flags.of(other) {
                flagged.process_aba_output(epoch, height, round, coin)
            } else {
                (flagged, seq![])
            };
            let val = if !flags.of(coin) && flags.of(other) {
                other
            } else {
                coin
            };
            if round < u64::MAX {
                let opened = decided.0.aba_advance_round(epoch, height, (round + 1) as SeqNumber, val);
                (opened.0, decided.1 + opened.1)
            } else {
                decided
            }
        }
    }

    /// A coin share.
    pub open spec fn handle_aba_share(self, share: RandomnessShare, share_valid: bool) -> (
        Self,
        ConsensusResult<Seq<ActionContent>>,
    ) {
        if self.late(share.epoch, share.height) {
            (self, Ok(seq![]))
        } else {
            match share_admission(self.stakes, share.author, share_valid) {
                Err(e) => (self, Err(e)),
                Ok(_) => {
                    let counted = self.aggregator.add_aba_share_coin(share, self.key_set);
                    match counted.1 {
                        Err(e) => (self, Err(e)),
                        Ok(None) => (CoreState { aggregator: counted.0, ..self }, Ok(seq![])),
                        Ok(Some(coin)) => {
                            let tossed = CoreState { aggregator: counted.0, ..self }.apply_coin(
                                share.epoch,
                                share.height,
                                share.round,
                                coin,
                            );
                            (tossed.0, Ok(tossed.1))
                        },
                    }
                },
            }
        }
    }

    /// An agreement output of another member.
    pub open spec fn handle_aba_output(self, output: ABAOutput, signature_valid: bool) -> (
        Self,
        ConsensusResult<Seq<ActionContent>>,
    ) {
        if self.late(output.epoch, output.height) {
            (self, Ok(seq![]))
        } else {
            match admission(self.stakes, output.author, output.well_formed(), signature_valid) {
                Err(e) => (self, Err(e)),
                Ok(_) => {
                    let key = (output.epoch, output.height, output.round);
                    let seen = self.outputs_seen(key);
                    if seen.contains(output.author) {
                        (CoreState { aba_outputs: self.aba_outputs.insert(key, seen), ..self }, Ok(seq![]))
                    } else {
                        let grown = seen.insert(output.author);
                        if grown.len() == self.coin_quorum() {
                            let announce = if grown.contains(self.name) {
                                seq![]
                            } else {
                                seq![
                                    aba_output_of(
                                        self.name,
                                        output.epoch,
                                        output.height,
                                        output.round,
                                        output.val,
                                    ),
                                ]
                            };
                            let joined = CoreState {
                                aba_outputs: self.aba_outputs.insert(key, grown.insert(self.name)),
                                ..self
                            };
                            let ended = joined.process_aba_output(
                                output.epoch,
                                output.height,
                                output.round,
                                output.val,
                            );
                            (ended.0, Ok(announce + ended.1))
                        } else {
                            (CoreState { aba_outputs: self.aba_outputs.insert(key, grown), ..self }, Ok(seq![]))
                        }
                    }
                },
            }
        }
    }

    /// A request of `sender` for the block of an instance.
    pub open spec fn handle_sync_request(self, epoch: SeqNumber, height: SeqNumber, sender: NodeId)
        -> Seq<ActionContent> {
        seq![ActionContent::ServeBlock { key: self.store_key(epoch, height), to: sender }]
    }

    /// A block that another member sent on request.
    pub open spec fn handle_sync_reply(self, block: Block, signature_valid: bool) -> (
        Self,
        ConsensusResult<Seq<ActionContent>>,
    ) {
        if self.late(block.epoch, block.height) {
            (self, Ok(seq![]))
        } else {
            match admission(self.stakes, block.author, block.well_formed(), signature_valid) {
                Err(e) => (self, Err(e)),
                Ok(_) => {
                    let kept = CoreState {
                        buffers: self.buffers.insert((block.epoch, block.height), true),
                        ..self
                    };
                    let output = kept.process_rbc_output(block.epoch, block.height);
                    (
                        output.0,
                        Ok(
                            seq![
                                ActionContent::Store {
                                    key: self.store_key(block.epoch, block.height),
                                    block,
                                },
                            ] + output.1,
                        ),
                    )
                },
            }
        }
    }

    /// The highest rank cleaned up once `bound` is cleaned up too.
    pub open spec fn cleaned_with(self, bound: nat) -> nat {
        match self.cleaned {
            Some(before) => if before > bound {
                before
            } else {
                bound
            },
            None => bound,
        }
    }

    /// The committer is done with everything up to (epoch, height): all
    /// that is kept for instances of that rank or below goes, but for the
    /// record of which instances started the classifier, ended agreement
    /// or were delivered.
    pub open spec fn cleanup(self, digests: Vec<Digest>, epoch: SeqNumber, height: SeqNumber) -> (
        Self,
        Seq<ActionContent>,
    ) {
        let size = self.stakes.len();
        let bound = rank_of(size, epoch, height);
        (
            CoreState {
                aggregator: self.aggregator.cleanup(epoch, height),
                buffers: self.buffers.restrict(above(size, bound)),
                rbc_proofs: self.rbc_proofs.restrict(above(size, bound)),
                rbc_ready: self.rbc_ready.intersect(above(size, bound)),
                aba_values: self.aba_values.restrict(above(size, bound)),
                aba_mux_values: self.aba_mux_values.restrict(above(size, bound)),
                aba_values_flag: self.aba_values_flag.restrict(above(size, bound)),
                aba_mux_flags: self.aba_mux_flags.restrict(above(size, bound)),
                aba_outputs: self.aba_outputs.restrict(above(size, bound)),
                cleaned: Some(self.cleaned_with(bound)),
                ..self
            },
            seq![ActionContent::CleanMempool { digests, epoch, height }],
        )
    }

    /// One step of the engine.
    pub open spec fn step(self, event: Event) -> (Self, ConsensusResult<Seq<ActionContent>>) {
        match event {
            Event::Message { message, signature_valid } => self.handle_message(
                message,
                signature_valid,
            ),
            Event::PayloadVerified { block, valid } => {
                let verified = self.handle_payload_verified(block, valid);
                (verified.0, Ok(verified.1))
            },
            Event::BlockFetched(block) => {
                let delivered = self.deliver(block);
                (delivered.0, Ok(delivered.1))
            },
            Event::Committed { digests, epoch, height } => {
                let cleaned = self.cleanup(digests, epoch, height);
                (cleaned.0, Ok(cleaned.1))
            },
        }
    }

    /// A message from the network. A node below the fault floor serves
    /// sync requests and ignores everything else. Each handler drops a
    /// message for an instance that the committer is done with.
    pub open spec fn handle_message(self, message: ConsensusMessage, signature_valid: bool) -> (
        Self,
        ConsensusResult<Seq<ActionContent>>,
    ) {
        match message {
            ConsensusMessage::SyncRequestMsg(epoch, height, sender) => (
                self,
                Ok(self.handle_sync_request(epoch, height, sender)),
            ),
            _ => if self.height < self.parameters.fault {
                (self, Ok(seq![]))
            } else {
                match message {
                    ConsensusMessage::RBCValMsg(block) => self.handle_rbc_val(
                        block,
                        signature_valid,
                    ),
                    ConsensusMessage::RBCEchoMsg(vote) => self.handle_rbc_echo(
                        vote,
                        signature_valid,
                    ),
                    ConsensusMessage::RBCReadyMsg(vote) => self.handle_rbc_ready(
                        vote,
                        signature_valid,
                    ),
                    ConsensusMessage::ABAValMsg(vote) => self.handle_aba_val(vote, signature_valid),
                    ConsensusMessage::ABAMuxMsg(vote) => self.handle_aba_mux(vote, signature_valid),
                    ConsensusMessage::ABACoinShareMsg(share) => self.handle_aba_share(
                        share,
                        signature_valid,
                    ),
                    ConsensusMessage::ABAOutputMsg(output) => self.handle_aba_output(
                        output,
                        signature_valid,
                    ),
                    ConsensusMessage::PrePareMsg(prepare) => self.handle_prepare(
                        prepare,
                        signature_valid,
                    ),
                    ConsensusMessage::LoopBackMsg(block) => self.handle_rbc_val(
                        block,
                        signature_valid,
                    ),
                    ConsensusMessage::SyncRequestMsg(epoch, height, sender) => (
                        self,
                        Ok(self.handle_sync_request(epoch, height, sender)),
                    ),
                    ConsensusMessage::SyncReplyMsg(block) => self.handle_sync_reply(
                        block,
                        signature_valid,
                    ),
                }
            },
        }
    }
}

} // verus!
