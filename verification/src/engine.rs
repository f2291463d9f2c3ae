//! The engine of one node. It takes one event at a time, changes its state
//! and answers with the actions that its surroundings are to carry out:
//! sign and send a message, store or fetch a block, ask the mempool, hand
//! an instance to the committer. Once the committer is done with an
//! instance, every handler drops what arrives for it.

use crate::aggregator::{
    lemma_empty_proof_maker_wf, lemma_proof_by_distinct_authors,
    lemma_rejected_echo_changes_nothing, lemma_rejected_prepare_changes_nothing,
    lemma_rejected_ready_changes_nothing, lemma_rejected_share_changes_nothing, Aggregator,
};
use crate::collections::{IdSet, Table};
use crate::commitor::{commit_contents, Commit, Commitor, MAX_BLOCK_BUFFER};
use crate::config::{exact_rank, rank_of, Committee, NodeId, Parameters, SeqNumber};
use crate::error::ConsensusResult;
use crate::messages::{
    ABAOutput, ABAVal, Block, ConsensusMessage, Digest, EchoVote, Prepare, RBCProof,
    RandomnessShare, ReadyVote, MUX_PHASE, OPT, PES, PRE_ONE, PRE_TWO, RBC_ECHO, RBC_READY,
    VAL_PHASE,
};
use crate::state::{
    commit_actions, no_share, store_key_of, ActionContent, CoreState, Event, Flags, TallyState,
};
use vstd::bytes::{u128_to_le_bytes, u64_to_le_bytes};
use vstd::prelude::*;

verus! {

/// The voters seen for each binary value in one sub-phase of a round.
pub struct Tally {
    pes: IdSet,
    opt: IdSet,
}

impl Tally {
    /// The voters, by value.
    pub closed spec fn view(&self) -> TallyState {
        TallyState { pes: self.pes@, opt: self.opt@ }
    }

    /// No voters.
    pub fn new() -> (tally: Tally)
        ensures
            tally@ == TallyState::empty(),
    {
        Tally { pes: IdSet::new(), opt: IdSet::new() }
    }

    /// Whether `id` has voted for `val`.
    pub fn contains(&self, val: usize, id: NodeId) -> (found: bool)
        ensures
            found == self@.of(val).contains(id),
    {
        if val == OPT as usize {
            self.opt.contains(id)
        } else {
            self.pes.contains(id)
        }
    }

    /// Records a vote of `id` for `val`; says whether it was new.
    pub fn insert(&mut self, val: usize, id: NodeId) -> (fresh: bool)
        ensures
            fresh == !old(self)@.of(val).contains(id),
            final(self)@ == old(self)@.with(val, old(self)@.of(val).insert(id)),
            !fresh ==> final(self)@ == old(self)@,
    {
        if val == OPT as usize {
            self.opt.insert(id)
        } else {
            self.pes.insert(id)
        }
    }

    /// Number of voters for `val`.
    pub fn len(&self, val: usize) -> (count: usize)
        ensures
            count == self@.of(val).len(),
    {
        if val == OPT as usize {
            self.opt.len()
        } else {
            self.pes.len()
        }
    }
}

/// What the engine asks its surroundings to do.
#[derive(Clone, Debug, PartialEq, Eq)]
pub enum Action {
    /// Sign the message, send it to every other member, and hand it back
    /// to this engine as an inbound message.
    Broadcast(ConsensusMessage),
    /// Send the block stored under `key`, if there is one, to `to` as a
    /// sync reply.
    ServeBlock { key: Vec<u8>, to: NodeId },
    /// Write the block to the store under `key`.
    Store { key: Vec<u8>, block: Block },
    /// Ask the mempool whether it holds the payload of the block, and
    /// hand the answer back.
    VerifyPayload(Block),
    /// Ask the synchronizer for the block of an instance; hand it back if
    /// it is there.
    FetchBlock { epoch: SeqNumber, height: SeqNumber },
    /// Draw a payload of at most `max_payload_size` bytes from the
    /// mempool, make and sign this node's block for `epoch`, send it to
    /// every member, hand it back as an inbound block, then wait for
    /// `min_block_delay` milliseconds.
    Propose { epoch: SeqNumber, height: SeqNumber, max_payload_size: u64, min_block_delay: u64 },
    /// Hand the notice to the committer.
    Commit(Commit),
    /// Tell the mempool what the committer is done with.
    CleanMempool { digests: Vec<Digest>, epoch: SeqNumber, height: SeqNumber },
}

impl Action {
    /// The content of the action.
    pub open spec fn view(&self) -> ActionContent {
        match *self {
            Action::Broadcast(message) => ActionContent::Broadcast(message),
            Action::ServeBlock { key, to } => ActionContent::ServeBlock { key: key@, to },
            Action::Store { key, block } => ActionContent::Store { key: key@, block },
            Action::VerifyPayload(block) => ActionContent::VerifyPayload(block),
            Action::FetchBlock { epoch, height } => ActionContent::FetchBlock { epoch, height },
            Action::Propose { epoch, height, max_payload_size, min_block_delay } => {
                ActionContent::Propose { epoch, height, max_payload_size, min_block_delay }
            },
            Action::Commit(commit) => ActionContent::Commit(commit@),
            Action::CleanMempool { digests, epoch, height } => ActionContent::CleanMempool {
                digests,
                epoch,
                height,
            },
        }
    }
}

/// The contents of a list of actions.
pub open spec fn action_contents(actions: Seq<Action>) -> Seq<ActionContent> {
    actions.map_values(|action: Action| action@)
}

/// The outcome of a handler, with the actions taken by their content.
pub open spec fn outcome(result: ConsensusResult<Vec<Action>>) -> ConsensusResult<
    Seq<ActionContent>,
> {
    match result {
        Ok(actions) => Ok(action_contents(actions@)),
        Err(e) => Err(e),
    }
}

/// One list of actions after another.
fn join(first: Vec<Action>, second: Vec<Action>) -> (all: Vec<Action>)
    ensures
        all@ == first@ + second@,
        action_contents(all@) == action_contents(first@) + action_contents(second@),
{
    let mut all = first;
    let mut rest = second;
    all.append(&mut rest);
    assert(action_contents(all@) =~= action_contents(first@) + action_contents(second@));
    all
}

/// A list of one action.
fn single(action: Action) -> (actions: Vec<Action>)
    ensures
        actions@ == seq![action],
        action_contents(actions@) == seq![action@],
{
    let mut actions: Vec<Action> = Vec::new();
    actions.push(action);
    assert(actions@ =~= seq![action]);
    assert(action_contents(actions@) =~= seq![action@]);
    actions
}

/// No action.
fn nothing() -> (actions: Vec<Action>)
    ensures
        actions@ == Seq::<Action>::empty(),
        action_contents(actions@) == Seq::<ActionContent>::empty(),
{
    let actions: Vec<Action> = Vec::new();
    assert(action_contents(actions@) =~= Seq::<ActionContent>::empty());
    actions
}

/// The commit notices, each as an action, in the same order.
fn notices(commits: Vec<Commit>) -> (actions: Vec<Action>)
    ensures
        action_contents(actions@) == commit_actions(commit_contents(commits@)),
{
    let ghost all = commits@;
    let mut stack = commits;
    let mut turned: Vec<Action> = Vec::new();
    while stack.len() > 0
        invariant
            stack@.len() + turned@.len() == all.len(),
            stack@ == all.take(stack@.len() as int),
            forall|i: int|
                0 <= i < turned@.len() ==> turned@[i] == Action::Commit(all[all.len() - 1 - i]),
        decreases stack@.len(),
    {
        let commit = stack.pop().unwrap();
        turned.push(Action::Commit(commit));
    }
    let ghost reversed = turned@;
    let mut actions: Vec<Action> = Vec::new();
    while turned.len() > 0
        invariant
            reversed.len() == all.len(),
            turned@.len() + actions@.len() == all.len(),
            turned@ == reversed.take(turned@.len() as int),
            forall|i: int|
                0 <= i < reversed.len() ==> reversed[i] == Action::Commit(all[all.len() - 1 - i]),
            forall|i: int| 0 <= i < actions@.len() ==> actions@[i] == Action::Commit(all[i]),
        decreases turned@.len(),
    {
        let action = turned.pop().unwrap();
        actions.push(action);
    }
    assert(action_contents(actions@) =~= commit_actions(commit_contents(all)));
    actions
}

/// The engine of one node.
pub struct Core {
    name: NodeId,
    committee: Committee,
    parameters: Parameters,
    pk_set: Vec<u8>,
    fallback: SeqNumber,
    epoch: SeqNumber,
    height: SeqNumber,
    aggregator: Aggregator,
    commitor: Commitor,
    buffers: Table<(SeqNumber, SeqNumber), bool>,
    rbc_proofs: Table<(SeqNumber, SeqNumber, u8), RBCProof>,
    rbc_ready: Table<(SeqNumber, SeqNumber), ()>,
    rbc_epoch_outputs: Table<SeqNumber, IdSet>,
    prepare_flags: Table<(SeqNumber, SeqNumber), ()>,
    aba_values: Table<(SeqNumber, SeqNumber, SeqNumber), Tally>,
    aba_values_flag: Table<(SeqNumber, SeqNumber, SeqNumber), Flags>,
    aba_mux_values: Table<(SeqNumber, SeqNumber, SeqNumber), Tally>,
    aba_mux_flags: Table<(SeqNumber, SeqNumber, SeqNumber), Flags>,
    aba_outputs: Table<(SeqNumber, SeqNumber, SeqNumber), IdSet>,
    aba_ends: Table<(SeqNumber, SeqNumber), bool>,
    cleaned: Option<u128>,
}

impl Core {
    /// The state of the engine.
    pub closed spec fn view(&self) -> CoreState {
        CoreState {
            name: self.name,
            stakes: self.committee@,
            parameters: self.parameters,
            key_set: self.pk_set@,
            fallback: self.fallback,
            epoch: self.epoch,
            height: self.height,
            aggregator: self.aggregator@,
            commitor: self.commitor@,
            buffers: self.buffers@,
            rbc_proofs: self.rbc_proofs@.map_values(|proof: RBCProof| proof@),
            rbc_ready: self.rbc_ready@.dom(),
            rbc_epoch_outputs: self.rbc_epoch_outputs@.map_values(|heights: IdSet| heights@),
            prepare_flags: self.prepare_flags@.dom(),
            aba_values: self.aba_values@.map_values(|tally: Tally| tally@),
            aba_values_flag: self.aba_values_flag@,
            aba_mux_values: self.aba_mux_values@.map_values(|tally: Tally| tally@),
            aba_mux_flags: self.aba_mux_flags@,
            aba_outputs: self.aba_outputs@.map_values(|seen: IdSet| seen@),
            aba_ends: self.aba_ends@,
            cleaned: match self.cleaned {
                Some(bound) => Some(bound as nat),
                None => None,
            },
        }
    }

    /// The parts of the engine are well formed and fit together.
    pub closed spec fn wf(&self) -> bool {
        &&& self.committee.wf()
        &&& self.aggregator.wf()
        &&& self.commitor.wf()
        &&& self@.wf()
    }

    /// A well-formed engine is in a well-formed state.
    pub proof fn lemma_view_wf(&self)
        requires
            self.wf(),
        ensures
            self@.wf(),
    {
    }

    /// The engine of member `name` of `committee`, before any event.
    /// `pk_set` is the `bincode` encoding of the committee's threshold key
    /// set. The fallback window has to be shorter than the commit buffer;
    /// `Parameters::fits` tests it.
    pub fn new(name: NodeId, committee: Committee, parameters: Parameters, pk_set: Vec<u8>) -> (core:
        Core)
        requires
            committee.wf(),
            (name as int) < committee@.len(),
            parameters.fallback < MAX_BLOCK_BUFFER,
        ensures
            core.wf(),
            core@ == CoreState::init(name, committee@, parameters, pk_set@),
    {
        proof {
            committee.lemma_bounds();
        }
        let aggregator = Aggregator::new(committee.clone());
        let commitor = Commitor::new(committee.size());
        let core = Core {
            fallback: parameters.fallback,
            epoch: 0,
            height: name,
            name,
            committee,
            parameters,
            pk_set,
            aggregator,
            commitor,
            buffers: Table::new(),
            rbc_proofs: Table::new(),
            rbc_ready: Table::new(),
            rbc_epoch_outputs: Table::new(),
            prepare_flags: Table::new(),
            aba_values: Table::new(),
            aba_mux_values: Table::new(),
            aba_values_flag: Table::new(),
            aba_mux_flags: Table::new(),
            aba_outputs: Table::new(),
            aba_ends: Table::new(),
            cleaned: None,
        };
        proof {
            let state = core@;
            let init = CoreState::init(name, core.committee@, parameters, core.pk_set@);
            assert(state.rbc_proofs =~= init.rbc_proofs);
            assert(state.rbc_ready =~= init.rbc_ready);
            assert(state.rbc_epoch_outputs =~= init.rbc_epoch_outputs);
            assert(state.prepare_flags =~= init.prepare_flags);
            assert(state.aba_values =~= init.aba_values);
            assert(state.aba_mux_values =~= init.aba_mux_values);
            assert(state.aba_outputs =~= init.aba_outputs);
            core.aggregator.lemma_view_wf();
            core.commitor.lemma_view_wf();
        }
        core
    }

    /// Whether the committer is done with the instance: a cleanup has
    /// reached its rank.
    pub fn is_late(&self, epoch: SeqNumber, height: SeqNumber) -> (late: bool)
        ensures
            late == self@.late(epoch, height),
    {
        match self.cleaned {
            Some(bound) => exact_rank(self.committee.size(), epoch, height) <= bound,
            None => false,
        }
    }

    /// Rank of (epoch, height): `epoch * size + height`, the position of the
    /// instance in the total order. The rank has to fit in `usize`;
    /// `Committee::rank` gives it for every instance.
    pub fn rank(epoch: SeqNumber, height: SeqNumber, committee: &Committee) -> (r: usize)
        requires
            rank_of(committee@.len(), epoch, height) <= usize::MAX,
        ensures
            r == rank_of(committee@.len(), epoch, height),
    {
        exact_rank(committee.size(), epoch, height) as usize
    }

    /// Key of the block of (epoch, height) in the store: its rank in
    /// little-endian bytes, eight of them, or sixteen for a rank that does
    /// not fit in eight.
    pub fn store_key(epoch: SeqNumber, height: SeqNumber, committee: &Committee) -> (key: Vec<u8>)
        ensures
            key@ == store_key_of(committee@.len(), epoch, height),
    {
        let rank = exact_rank(committee.size(), epoch, height);
        if rank <= u64::MAX as u128 {
            u64_to_le_bytes(rank as u64)
        } else {
            u128_to_le_bytes(rank)
        }
    }

    /// Proposes a block for the current epoch, unless this node is below
    /// the fault floor.
    pub fn generate_rbc_proposal(&self) -> (actions: Vec<Action>)
        ensures
            action_contents(actions@) == self@.generate_rbc_proposal(),
    {
        if self.height < self.parameters.fault {
            nothing()
        } else {
            single(
                Action::Propose {
                    epoch: self.epoch,
                    height: self.height,
                    max_payload_size: self.parameters.max_payload_size,
                    min_block_delay: self.parameters.min_block_delay,
                },
            )
        }
    }

    /// Enters `epoch` if it is ahead of the current one, and proposes.
    pub fn rbc_advance(&mut self, epoch: SeqNumber) -> (actions: Vec<Action>)
        requires
            old(self).wf(),
        ensures
            final(self).wf(),
            final(self)@ == old(self)@.rbc_advance(epoch).0,
            action_contents(actions@) == old(self)@.rbc_advance(epoch).1,
    {
        if epoch > self.epoch {
            self.epoch = epoch;
            self.generate_rbc_proposal()
        } else {
            nothing()
        }
    }

    /// Starts the prepare classifier for an instance with `val`, unless
    /// this node has started it before.
    pub fn invoke_prepare(&mut self, epoch: SeqNumber, height: SeqNumber, val: u8) -> (actions: Vec<
        Action,
    >)
        requires
            old(self).wf(),
        ensures
            final(self).wf(),
            final(self)@ == old(self)@.invoke_prepare(epoch, height, val).0,
            action_contents(actions@) == old(self)@.invoke_prepare(epoch, height, val).1,
    {
        let ghost before = self@;
        if self.prepare_flags.contains_key(&(epoch, height)) {
            nothing()
        } else {
            self.prepare_flags.insert((epoch, height), ());
            assert(self@.prepare_flags =~= before.prepare_flags.insert((epoch, height)));
            single(
                Action::Broadcast(
                    ConsensusMessage::PrePareMsg(
                        Prepare::new(self.name, epoch, height, PRE_ONE, val),
                    ),
                ),
            )
        }
    }

    /// Forces the classification of every instance of the epoch that lies
    /// the fallback window behind `cur_epoch`: each height that has not
    /// started the classifier starts it with the pessimistic value.
    pub fn fallback(&mut self, cur_epoch: SeqNumber) -> (actions: Vec<Action>)
        requires
            old(self).wf(),
        ensures
            final(self).wf(),
            final(self)@ == old(self)@.fallback(cur_epoch).0,
            action_contents(actions@) == old(self)@.fallback(cur_epoch).1,
    {
        let ghost before = self@;
        let mut actions = nothing();
        if cur_epoch >= self.fallback {
            let fall_epoch = cur_epoch - self.fallback;
            let size = self.committee.size() as u64;
            let mut height: u64 = 0;
            while height < size
                invariant
                    height <= size,
                    size == before.stakes.len(),
                    self.wf(),
                    self@ == before.force_pessimistic(fall_epoch, height as nat).0,
                    action_contents(actions@) == before.force_pessimistic(
                        fall_epoch,
                        height as nat,
                    ).1,
                decreases size - height,
            {
                let more = self.invoke_prepare(fall_epoch, height, PES);
                actions = join(actions, more);
                height = height + 1;
            }
        }
        actions
    }

    /// Asks for the block of an instance that is to be delivered, unless
    /// it has been delivered.
    pub fn process_rbc_output(&mut self, epoch: SeqNumber, height: SeqNumber) -> (actions: Vec<
        Action,
    >)
        requires
            old(self).wf(),
        ensures
            final(self).wf(),
            final(self)@ == old(self)@.process_rbc_output(epoch, height).0,
            action_contents(actions@) == old(self)@.process_rbc_output(epoch, height).1,
    {
        let ghost before = self@;
        let outputs = match self.rbc_epoch_outputs.take(&epoch) {
            Some(outputs) => outputs,
            None => IdSet::new(),
        };
        let delivered = outputs.contains(height);
        self.rbc_epoch_outputs.insert(epoch, outputs);
        assert(self@.rbc_epoch_outputs =~= before.rbc_epoch_outputs.insert(
            epoch,
            before.outputs_of(epoch),
        ));
        if delivered {
            nothing()
        } else {
            single(Action::FetchBlock { epoch, height })
        }
    }

    /// Excludes an instance from the commit stream.
    pub fn exclude(&mut self, epoch: SeqNumber, height: SeqNumber) -> (actions: Vec<Action>)
        requires
            old(self).wf(),
        ensures
            final(self).wf(),
            final(self)@ == old(self)@.exclude(epoch, height).0,
            action_contents(actions@) == old(self)@.exclude(epoch, height).1,
    {
        let commits = self.commitor.filter_block(epoch, height);
        proof {
            self.commitor.lemma_view_wf();
        }
        notices(commits)
    }

    /// Delivers a block that the synchronizer has found. The first
    /// delivery of an instance puts the block into the commit buffer; the
    /// delivery that completes a quorum for its epoch moves this node to
    /// the next epoch, with a proposal, and triggers the fallback.
    pub fn handle_block_fetched(&mut self, block: Block) -> (actions: Vec<Action>)
        requires
            old(self).wf(),
        ensures
            final(self).wf(),
            final(self)@ == old(self)@.deliver(block).0,
            action_contents(actions@) == old(self)@.deliver(block).1,
    {
        let ghost before = self@;
        let epoch = block.epoch;
        let height = block.height;
        let mut outputs = match self.rbc_epoch_outputs.take(&epoch) {
            Some(outputs) => outputs,
            None => IdSet::new(),
        };
        assert(outputs@ == before.outputs_of(epoch));
        if !outputs.insert(height) {
            self.rbc_epoch_outputs.insert(epoch, outputs);
            assert(self@.rbc_epoch_outputs =~= before.rbc_epoch_outputs.insert(
                epoch,
                before.outputs_of(epoch),
            ));
            return nothing();
        }
        let count = outputs.len();
        self.rbc_epoch_outputs.insert(epoch, outputs);
        assert(self@.rbc_epoch_outputs =~= before.rbc_epoch_outputs.insert(
            epoch,
            before.outputs_of(epoch).insert(height),
        ));
        let commits = self.commitor.buffer_block(block);
        proof {
            self.commitor.lemma_view_wf();
        }
        let mut actions = notices(commits);
        if count as u64 == self.committee.quorum_threshold() as u64 {
            if epoch < u64::MAX {
                let more = self.rbc_advance(epoch + 1);
                actions = join(actions, more);
            } else {
                assert(action_contents(actions@) + Seq::<ActionContent>::empty()
                    =~= action_contents(actions@));
            }
            let forced = self.fallback(epoch);
            actions = join(actions, forced);
        }
        actions
    }

    /// Keeps a block and echoes it, unless one is kept for its instance
    /// or the committer is done with the instance.
    pub fn accept_block(&mut self, block: Block) -> (actions: Vec<Action>)
        requires
            old(self).wf(),
        ensures
            final(self).wf(),
            final(self)@ == old(self)@.accept_block(block).0,
            action_contents(actions@) == old(self)@.accept_block(block).1,
    {
        if self.is_late(block.epoch, block.height) {
            return nothing();
        }
        let key = (block.epoch, block.height);
        if self.buffers.contains_key(&key) {
            return nothing();
        }
        self.buffers.insert(key, true);
        let vote = EchoVote::new(self.name, block.epoch, block.height, block.digest);
        let store = Action::Store { key: Core::store_key(block.epoch, block.height, &self.committee), block };
        join(single(store), single(Action::Broadcast(ConsensusMessage::RBCEchoMsg(vote))))
    }

    /// Handles a block sent by its author. A block that does not pass
    /// admission is an error. A block for an instance that has one is
    /// ignored. Where payloads are checked, the block goes to the mempool
    /// first; otherwise it is kept, stored and echoed.
    pub fn handle_rbc_val(&mut self, block: Block, signature_valid: bool) -> (result:
        ConsensusResult<Vec<Action>>)
        requires
            old(self).wf(),
        ensures
            final(self).wf(),
            final(self)@ == old(self)@.handle_rbc_val(block, signature_valid).0,
            outcome(result) == old(self)@.handle_rbc_val(block, signature_valid).1,
    {
        if self.is_late(block.epoch, block.height) {
            return Ok(nothing());
        }
        match block.verify(&self.committee, signature_valid) {
            Err(e) => {
                return Err(e);
            },
            Ok(_) => {},
        }
        if self.buffers.contains_key(&(block.epoch, block.height)) {
            Ok(nothing())
        } else if self.parameters.exp > 0 {
            Ok(single(Action::VerifyPayload(block)))
        } else {
            Ok(self.accept_block(block))
        }
    }

    /// Takes the mempool's verdict on the payload of a block: a block
    /// whose payload is at hand is kept, stored and echoed.
    pub fn handle_payload_verified(&mut self, block: Block, valid: bool) -> (actions: Vec<Action>)
        requires
            old(self).wf(),
        ensures
            final(self).wf(),
            final(self)@ == old(self)@.handle_payload_verified(block, valid).0,
            action_contents(actions@) == old(self)@.handle_payload_verified(block, valid).1,
    {
        if valid {
            self.accept_block(block)
        } else {
            nothing()
        }
    }


    /// Handles an echo vote. The vote that completes the quorum of its
    /// instance makes this node ready: it records the proof, sends its
    /// ready vote and starts the classifier with the optimistic value.
    pub fn handle_rbc_echo(&mut self, vote: &EchoVote, signature_valid: bool) -> (result:
        ConsensusResult<Vec<Action>>)
        requires
            old(self).wf(),
        ensures
            final(self).wf(),
            final(self)@ == old(self)@.handle_rbc_echo(*vote, signature_valid).0,
            outcome(result) == old(self)@.handle_rbc_echo(*vote, signature_valid).1,
    {
        if self.is_late(vote.epoch, vote.height) {
            return Ok(nothing());
        }
        let ghost before = self@;
        match vote.verify(&self.committee, signature_valid) {
            Err(e) => {
                return Err(e);
            },
            Ok(_) => {},
        }
        proof {
            lemma_rejected_echo_changes_nothing(before.aggregator, *vote);
            self.aggregator.lemma_view_wf();
            lemma_empty_proof_maker_wf(before.stakes);
            lemma_proof_by_distinct_authors(
                before.aggregator.echo_maker((vote.epoch, vote.height)),
                before.stakes,
                vote.epoch,
                vote.height,
                vote.author,
                RBC_ECHO,
                vote.signature,
            );
        }
        let counted = self.aggregator.add_rbc_echo_vote(*vote);
        proof {
            self.aggregator.lemma_view_wf();
        }
        match counted {
            Err(e) => Err(e),
            Ok(None) => Ok(nothing()),
            Ok(Some(proof)) => {
                let ghost content = proof@;
                self.rbc_proofs.insert((proof.epoch, proof.height, proof.tag), proof);
                self.rbc_ready.insert((vote.epoch, vote.height), ());
                proof {
                    assert(self@.rbc_proofs =~= before.rbc_proofs.insert(
                        (content.epoch, content.height, content.tag),
                        content,
                    ));
                    assert(self@.rbc_ready =~= before.rbc_ready.insert((vote.epoch, vote.height)));
                }
                let ready = ReadyVote::new(self.name, vote.epoch, vote.height, vote.digest);
                let prepared = self.invoke_prepare(vote.epoch, vote.height, OPT);
                Ok(join(single(Action::Broadcast(ConsensusMessage::RBCReadyMsg(ready))), prepared))
            },
        }
    }

    /// Handles a ready vote. The vote that lifts its instance to the coin
    /// threshold makes this node ready, if it was not: it sends its ready
    /// vote and starts the classifier with the optimistic value. The vote
    /// that completes the quorum has the instance delivered. Either way
    /// the proof is recorded.
    pub fn handle_rbc_ready(&mut self, vote: &ReadyVote, signature_valid: bool) -> (result:
        ConsensusResult<Vec<Action>>)
        requires
            old(self).wf(),
        ensures
            final(self).wf(),
            final(self)@ == old(self)@.handle_rbc_ready(*vote, signature_valid).0,
            outcome(result) == old(self)@.handle_rbc_ready(*vote, signature_valid).1,
    {
        if self.is_late(vote.epoch, vote.height) {
            return Ok(nothing());
        }
        let ghost before = self@;
        match vote.verify(&self.committee, signature_valid) {
            Err(e) => {
                return Err(e);
            },
            Ok(_) => {},
        }
        proof {
            lemma_rejected_ready_changes_nothing(before.aggregator, *vote);
            self.aggregator.lemma_view_wf();
            lemma_empty_proof_maker_wf(before.stakes);
            lemma_proof_by_distinct_authors(
                before.aggregator.ready_maker((vote.epoch, vote.height)),
                before.stakes,
                vote.epoch,
                vote.height,
                vote.author,
                RBC_READY,
                vote.signature,
            );
        }
        let counted = self.aggregator.add_rbc_ready_vote(*vote);
        proof {
            self.aggregator.lemma_view_wf();
        }
        match counted {
            Err(e) => Err(e),
            Ok(None) => Ok(nothing()),
            Ok(Some(proof)) => {
                let ghost content = proof@;
                let was_ready = self.rbc_ready.contains_key(&(vote.epoch, vote.height));
                let votes = proof.votes.len();
                self.rbc_proofs.insert((proof.epoch, proof.height, proof.tag), proof);
                assert(self@.rbc_proofs =~= before.rbc_proofs.insert(
                    (content.epoch, content.height, content.tag),
                    content,
                ));
                if !was_ready && votes as u64 == self.committee.random_coin_threshold() as u64 {
                    self.rbc_ready.insert((vote.epoch, vote.height), ());
                    assert(self@.rbc_ready =~= before.rbc_ready.insert((vote.epoch, vote.height)));
                    let ready = ReadyVote::new(self.name, vote.epoch, vote.height, vote.digest);
                    let prepared = self.invoke_prepare(vote.epoch, vote.height, OPT);
                    Ok(
                        join(
                            single(Action::Broadcast(ConsensusMessage::RBCReadyMsg(ready))),
                            prepared,
                        ),
                    )
                } else if votes as u64 == self.committee.quorum_threshold() as u64 {
                    Ok(self.process_rbc_output(vote.epoch, vote.height))
                } else {
                    Ok(nothing())
                }
            },
        }
    }

    /// Acts on the verdict of a prepare phase. A full first phase has the
    /// instance delivered; a full second phase excludes it. A split first
    /// phase opens the second with the value passed on, and a split second
    /// phase opens binary agreement with it.
    pub fn apply_verdict(&mut self, prepare: &Prepare, val: u8, flag: bool) -> (actions: Vec<
        Action,
    >)
        requires
            old(self).wf(),
        ensures
            final(self).wf(),
            final(self)@ == old(self)@.apply_verdict(*prepare, val, flag).0,
            action_contents(actions@) == old(self)@.apply_verdict(*prepare, val, flag).1,
    {
        if flag {
            if prepare.phase == PRE_ONE {
                self.process_rbc_output(prepare.epoch, prepare.height)
            } else if prepare.phase == PRE_TWO {
                self.exclude(prepare.epoch, prepare.height)
            } else {
                nothing()
            }
        } else {
            if prepare.phase == PRE_ONE {
                let second = Prepare::new(self.name, prepare.epoch, prepare.height, PRE_TWO, val);
                single(Action::Broadcast(ConsensusMessage::PrePareMsg(second)))
            } else if prepare.phase == PRE_TWO {
                let opening = ABAVal::new(
                    self.name,
                    prepare.epoch,
                    prepare.height,
                    0,
                    val as usize,
                    VAL_PHASE,
                );
                single(Action::Broadcast(ConsensusMessage::ABAValMsg(opening)))
            } else {
                nothing()
            }
        }
    }

    /// Handles a prepare vote: counts it, and acts on the verdict if this
    /// vote brings one.
    pub fn handle_prepare(&mut self, prepare: &Prepare, signature_valid: bool) -> (result:
        ConsensusResult<Vec<Action>>)
        requires
            old(self).wf(),
        ensures
            final(self).wf(),
            final(self)@ == old(self)@.handle_prepare(*prepare, signature_valid).0,
            outcome(result) == old(self)@.handle_prepare(*prepare, signature_valid).1,
    {
        if self.is_late(prepare.epoch, prepare.height) {
            return Ok(nothing());
        }
        let ghost before = self@;
        match prepare.verify(&self.committee, signature_valid) {
            Err(e) => {
                return Err(e);
            },
            Ok(_) => {},
        }
        proof {
            lemma_rejected_prepare_changes_nothing(before.aggregator, *prepare);
        }
        let counted = self.aggregator.add_prepare_vote(*prepare);
        proof {
            self.aggregator.lemma_view_wf();
        }
        match counted {
            Err(e) => Err(e),
            Ok(None) => Ok(nothing()),
            Ok(Some((val, flag))) => Ok(self.apply_verdict(prepare, val, flag)),
        }
    }

    /// Handles an agreement vote of the value sub-phase. A new voter is
    /// recorded. Where the voters for the value then stand at the coin
    /// threshold without this node among them, this node joins them and
    /// sends its own vote for the value. Where they then stand at the
    /// quorum, the value's flag goes up, and if it is the first flag of the
    /// round, this node sends its mux vote for the value.
    pub fn handle_aba_val(&mut self, vote: &ABAVal, signature_valid: bool) -> (result:
        ConsensusResult<Vec<Action>>)
        requires
            old(self).wf(),
        ensures
            final(self).wf(),
            final(self)@ == old(self)@.handle_aba_val(*vote, signature_valid).0,
            outcome(result) == old(self)@.handle_aba_val(*vote, signature_valid).1,
    {
        if self.is_late(vote.epoch, vote.height) {
            return Ok(nothing());
        }
        let ghost before = self@;
        match vote.verify(&self.committee, signature_valid) {
            Err(e) => {
                return Err(e);
            },
            Ok(_) => {},
        }
        let key = (vote.epoch, vote.height, vote.round);
        let mut tally = match self.aba_values.take(&key) {
            Some(tally) => tally,
            None => Tally::new(),
        };
        assert(tally@ == before.values_of(key));
        if !tally.insert(vote.val, vote.author) {
            self.aba_values.insert(key, tally);
            assert(self@.aba_values =~= before.aba_values.insert(key, before.values_of(key)));
            return Ok(nothing());
        }
        let mut actions = nothing();
        let mut nums = tally.len(vote.val);
        if nums as u64 == self.committee.random_coin_threshold() as u64 && !tally.contains(
            vote.val,
            self.name,
        ) {
            let other = ABAVal::new(
                self.name,
                vote.epoch,
                vote.height,
                vote.round,
                vote.val,
                VAL_PHASE,
            );
            actions = single(Action::Broadcast(ConsensusMessage::ABAValMsg(other)));
            tally.insert(vote.val, self.name);
            nums = tally.len(vote.val);
        }
        let ghost counted = tally@;
        self.aba_values.insert(key, tally);
        assert(self@.aba_values =~= before.aba_values.insert(key, counted));
        if nums as u64 == self.committee.quorum_threshold() as u64 {
            let mut flags = match self.aba_values_flag.get(&key) {
                Some(flags) => *flags,
                None => Flags::new(),
            };
            let first = !flags.opt && !flags.pes;
            flags.set(vote.val, true);
            self.aba_values_flag.insert(key, flags);
            if first {
                let mux = ABAVal::new(
                    self.name,
                    vote.epoch,
                    vote.height,
                    vote.round,
                    vote.val,
                    MUX_PHASE,
                );
                actions = join(
                    actions,
                    single(Action::Broadcast(ConsensusMessage::ABAMuxMsg(mux))),
                );
            }
        }
        Ok(actions)
    }

    /// Handles an agreement vote of the mux sub-phase. A new voter is
    /// recorded. While no mux flag of the round is up and the mux votes
    /// make a quorum, the flags are raised as the value flags allow, and
    /// when one goes up this node sends its coin share.
    pub fn handle_aba_mux(&mut self, vote: &ABAVal, signature_valid: bool) -> (result:
        ConsensusResult<Vec<Action>>)
        requires
            old(self).wf(),
        ensures
            final(self).wf(),
            final(self)@ == old(self)@.handle_aba_mux(*vote, signature_valid).0,
            outcome(result) == old(self)@.handle_aba_mux(*vote, signature_valid).1,
    {
        if self.is_late(vote.epoch, vote.height) {
            return Ok(nothing());
        }
        let ghost before = self@;
        match vote.verify(&self.committee, signature_valid) {
            Err(e) => {
                return Err(e);
            },
            Ok(_) => {},
        }
        let key = (vote.epoch, vote.height, vote.round);
        let mut tally = match self.aba_mux_values.take(&key) {
            Some(tally) => tally,
            None => Tally::new(),
        };
        assert(tally@ == before.mux_values_of(key));
        let fresh = tally.insert(vote.val, vote.author);
        let nums_opt = tally.len(OPT as usize);
        let nums_pes = tally.len(PES as usize);
        let ghost counted = tally@;
        self.aba_mux_values.insert(key, tally);
        assert(self@.aba_mux_values =~= before.aba_mux_values.insert(key, counted));
        if !fresh {
            return Ok(nothing());
        }
        let mut mux_flags = match self.aba_mux_flags.get(&key) {
            Some(flags) => *flags,
            None => Flags::new(),
        };
        if mux_flags.pes || mux_flags.opt {
            self.aba_mux_flags.insert(key, mux_flags);
            return Ok(nothing());
        }
        let quorum = self.committee.quorum_threshold() as u64;
        if nums_opt as u128 + nums_pes as u128 >= quorum as u128 {
            let value_flags = match self.aba_values_flag.get(&key) {
                Some(flags) => *flags,
                None => Flags::new(),
            };
            self.aba_values_flag.insert(key, value_flags);
            if value_flags.pes && value_flags.opt {
                mux_flags.opt = nums_opt > 0;
                mux_flags.pes = nums_pes > 0;
            } else if value_flags.opt {
                mux_flags.opt = nums_opt as u64 >= quorum;
            } else {
                mux_flags.pes = nums_pes as u64 >= quorum;
            }
        }
        self.aba_mux_flags.insert(key, mux_flags);
        if mux_flags.pes || mux_flags.opt {
            let share = RandomnessShare {
                epoch: vote.epoch,
                height: vote.height,
                round: vote.round,
                author: self.name,
                signature_share: no_share(),
            };
            Ok(single(Action::Broadcast(ConsensusMessage::ABACoinShareMsg(share))))
        } else {
            Ok(nothing())
        }
    }

    /// Ends agreement on an instance with `val`, unless it has ended or
    /// the committer is done with the instance: this node announces its
    /// output if it has not, and the instance is delivered for the
    /// optimistic value and excluded for the other.
    pub fn process_aba_output(
        &mut self,
        epoch: SeqNumber,
        height: SeqNumber,
        round: SeqNumber,
        val: usize,
    ) -> (actions: Vec<Action>)
        requires
            old(self).wf(),
        ensures
            final(self).wf(),
            final(self)@ == old(self)@.process_aba_output(epoch, height, round, val).0,
            action_contents(actions@) == old(self)@.process_aba_output(
                epoch,
                height,
                round,
                val,
            ).1,
    {
        if self.is_late(epoch, height) {
            return nothing();
        }
        let ghost before = self@;
        let ended = match self.aba_ends.get(&(epoch, height)) {
            Some(ended) => *ended,
            None => false,
        };
        if ended {
            return nothing();
        }
        let key = (epoch, height, round);
        let mut seen = match self.aba_outputs.take(&key) {
            Some(seen) => seen,
            None => IdSet::new(),
        };
        assert(seen@ == before.outputs_seen(key));
        let mut actions = nothing();
        if seen.insert(self.name) {
            let output = ABAOutput::new(self.name, epoch, height, round, val);
            actions = single(Action::Broadcast(ConsensusMessage::ABAOutputMsg(output)));
        }
        let ghost joined = seen@;
        self.aba_outputs.insert(key, seen);
        assert(self@.aba_outputs =~= before.aba_outputs.insert(key, joined));
        self.aba_ends.insert((epoch, height), true);
        let sealed = if val == OPT as usize {
            self.process_rbc_output(epoch, height)
        } else {
            self.exclude(epoch, height)
        };
        join(actions, sealed)
    }

    /// Opens a round of agreement on an instance with `val`, unless
    /// agreement on it has ended.
    pub fn aba_advance_round(
        &mut self,
        epoch: SeqNumber,
        height: SeqNumber,
        round: SeqNumber,
        val: usize,
    ) -> (actions: Vec<Action>)
        requires
            old(self).wf(),
        ensures
            final(self).wf(),
            final(self)@ == old(self)@.aba_advance_round(epoch, height, round, val).0,
            action_contents(actions@) == old(self)@.aba_advance_round(epoch, height, round, val).1,
    {
        let ended = match self.aba_ends.get(&(epoch, height)) {
            Some(ended) => *ended,
            None => false,
        };
        if ended {
            return nothing();
        }
        self.aba_ends.insert((epoch, height), false);
        let opening = ABAVal::new(self.name, epoch, height, round, val, VAL_PHASE);
        single(Action::Broadcast(ConsensusMessage::ABAValMsg(opening)))
    }

    /// Acts on the coin of a round. Where only the coin's value passed the
    /// mux sub-phase, agreement ends with it. Otherwise the next round is
    /// opened: with the other value where only that one passed, with the
    /// coin where both or neither did. The coin of an instance that the
    /// committer is done with is dropped.
    pub fn apply_coin(&mut self, epoch: SeqNumber, height: SeqNumber, round: SeqNumber, coin: usize) -> (actions:
        Vec<Action>)
        requires
            old(self).wf(),
            coin < 2,
        ensures
            final(self).wf(),
            final(self)@ == old(self)@.apply_coin(epoch, height, round, coin).0,
            action_contents(actions@) == old(self)@.apply_coin(epoch, height, round, coin).1,
    {
        if self.is_late(epoch, height) {
            return nothing();
        }
        let key = (epoch, height, round);
        let mux_flags = match self.aba_mux_flags.get(&key) {
            Some(flags) => *flags,
            None => Flags::new(),
        };
        self.aba_mux_flags.insert(key, mux_flags);
        let other = 1 - coin;
        let mut actions = nothing();
        let mut val = coin;
        if mux_flags.get(coin) && !mux_flags.get(other) {
            actions = self.process_aba_output(epoch, height, round, coin);
        } else if !mux_flags.get(coin) && mux_flags.get(other) {
            val = other;
        }
        if round < u64::MAX {
            let opened = self.aba_advance_round(epoch, height, round + 1, val);
            actions = join(actions, opened);
        }
        actions
    }

    /// Handles a coin share: counts it, and acts on the coin if this
    /// share reveals it.
    pub fn handle_aba_share(&mut self, share: &RandomnessShare, share_valid: bool) -> (result:
        ConsensusResult<Vec<Action>>)
        requires
            old(self).wf(),
        ensures
            final(self).wf(),
            final(self)@ == old(self)@.handle_aba_share(*share, share_valid).0,
            outcome(result) == old(self)@.handle_aba_share(*share, share_valid).1,
    {
        if self.is_late(share.epoch, share.height) {
            return Ok(nothing());
        }
        let ghost before = self@;
        match share.verify(&self.committee, share_valid) {
            Err(e) => {
                return Err(e);
            },
            Ok(_) => {},
        }
        proof {
            lemma_rejected_share_changes_nothing(before.aggregator, *share, before.key_set);
        }
        let counted = self.aggregator.add_aba_share_coin(*share, &self.pk_set);
        proof {
            self.aggregator.lemma_view_wf();
        }
        match counted {
            Err(e) => Err(e),
            Ok(None) => Ok(nothing()),
            Ok(Some(coin)) => {
                Ok(self.apply_coin(share.epoch, share.height, share.round, coin))
            },
        }
    }

    /// Handles the agreement output of a member. A new author is
    /// recorded. The output that lifts its round to the coin threshold
    /// ends agreement on the instance with the value it carries, and has
    /// this node announce that output if it has not.
    pub fn handle_aba_output(&mut self, output: &ABAOutput, signature_valid: bool) -> (result:
        ConsensusResult<Vec<Action>>)
        requires
            old(self).wf(),
        ensures
            final(self).wf(),
            final(self)@ == old(self)@.handle_aba_output(*output, signature_valid).0,
            outcome(result) == old(self)@.handle_aba_output(*output, signature_valid).1,
    {
        if self.is_late(output.epoch, output.height) {
            return Ok(nothing());
        }
        let ghost before = self@;
        match output.verify(&self.committee, signature_valid) {
            Err(e) => {
                return Err(e);
            },
            Ok(_) => {},
        }
        let key = (output.epoch, output.height, output.round);
        let mut seen = match self.aba_outputs.take(&key) {
            Some(seen) => seen,
            None => IdSet::new(),
        };
        assert(seen@ == before.outputs_seen(key));
        let fresh = seen.insert(output.author);
        let count = seen.len();
        if fresh && count as u64 == self.committee.random_coin_threshold() as u64 {
            let mut actions = nothing();
            if seen.insert(self.name) {
                let own = ABAOutput::new(
                    self.name,
                    output.epoch,
                    output.height,
                    output.round,
                    output.val,
                );
                actions = single(Action::Broadcast(ConsensusMessage::ABAOutputMsg(own)));
            }
            let ghost joined = seen@;
            self.aba_outputs.insert(key, seen);
            assert(self@.aba_outputs =~= before.aba_outputs.insert(key, joined));
            let ended = self.process_aba_output(
                output.epoch,
                output.height,
                output.round,
                output.val,
            );
            Ok(join(actions, ended))
        } else {
            let ghost grown = seen@;
            self.aba_outputs.insert(key, seen);
            assert(self@.aba_outputs =~= before.aba_outputs.insert(key, grown));
            Ok(nothing())
        }
    }

    /// Handles the request of `sender` for the block of an instance: the
    /// block is served from the store, under its key.
    pub fn handle_sync_request(&self, epoch: SeqNumber, height: SeqNumber, sender: NodeId) -> (actions:
        Vec<Action>)
        ensures
            action_contents(actions@) == self@.handle_sync_request(epoch, height, sender),
    {
        single(Action::ServeBlock { key: Core::store_key(epoch, height, &self.committee), to: sender })
    }

    /// Handles a block that another member sent on request: the block is
    /// kept and stored, and its instance is taken up for delivery.
    pub fn handle_sync_reply(&mut self, block: Block, signature_valid: bool) -> (result:
        ConsensusResult<Vec<Action>>)
        requires
            old(self).wf(),
        ensures
            final(self).wf(),
            final(self)@ == old(self)@.handle_sync_reply(block, signature_valid).0,
            outcome(result) == old(self)@.handle_sync_reply(block, signature_valid).1,
    {
        if self.is_late(block.epoch, block.height) {
            return Ok(nothing());
        }
        match block.verify(&self.committee, signature_valid) {
            Err(e) => {
                return Err(e);
            },
            Ok(_) => {},
        }
        let epoch = block.epoch;
        let height = block.height;
        self.buffers.insert((epoch, height), true);
        let store = Action::Store { key: Core::store_key(epoch, height, &self.committee), block };
        let output = self.process_rbc_output(epoch, height);
        Ok(join(single(store), output))
    }

    /// Drops what is kept for instances ranked at or below
    /// (epoch, height), which the committer is done with, and has the
    /// mempool told. From now on every message for such an instance is
    /// dropped. The record of which instances started the classifier,
    /// ended agreement or were delivered stays.
    pub fn cleanup(&mut self, digests: Vec<Digest>, epoch: SeqNumber, height: SeqNumber) -> (actions:
        Vec<Action>)
        requires
            old(self).wf(),
        ensures
            final(self).wf(),
            final(self)@ == old(self)@.cleanup(digests, epoch, height).0,
            action_contents(actions@) == old(self)@.cleanup(digests, epoch, height).1,
    {
        let ghost before = self@;
        let size = self.committee.size();
        self.aggregator.cleanup(epoch, height);
        self.buffers.purge(size, epoch, height);
        self.rbc_proofs.purge(size, epoch, height);
        self.rbc_ready.purge(size, epoch, height);
        self.aba_values.purge(size, epoch, height);
        self.aba_mux_values.purge(size, epoch, height);
        self.aba_values_flag.purge(size, epoch, height);
        self.aba_mux_flags.purge(size, epoch, height);
        self.aba_outputs.purge(size, epoch, height);
        let bound = exact_rank(size, epoch, height);
        self.cleaned = match self.cleaned {
            Some(before) => if before > bound {
                Some(before)
            } else {
                Some(bound)
            },
            None => Some(bound),
        };
        proof {
            let after = before.cleanup(digests, epoch, height).0;
            self.aggregator.lemma_view_wf();
            assert(self@.rbc_proofs =~= after.rbc_proofs);
            assert(self@.rbc_ready =~= after.rbc_ready);
            assert(self@.aba_values =~= after.aba_values);
            assert(self@.aba_mux_values =~= after.aba_mux_values);
            assert(self@.aba_outputs =~= after.aba_outputs);
        }
        single(Action::CleanMempool { digests, epoch, height })
    }

    /// Handles a message from the network, or one of this node's own that
    /// comes back after it was sent. A node below the fault floor serves
    /// sync requests and ignores every other message. A message for an
    /// instance that the committer is done with is dropped: it is answered
    /// without an error and without an action, whatever it holds.
    pub fn handle_message(&mut self, message: ConsensusMessage, signature_valid: bool) -> (result:
        ConsensusResult<Vec<Action>>)
        requires
            old(self).wf(),
        ensures
            final(self).wf(),
            final(self)@ == old(self)@.handle_message(message, signature_valid).0,
            outcome(result) == old(self)@.handle_message(message, signature_valid).1,
    {
        match message {
            ConsensusMessage::SyncRequestMsg(epoch, height, sender) => Ok(
                self.handle_sync_request(epoch, height, sender),
            ),
            other => {
                if self.height < self.parameters.fault {
                    return Ok(nothing());
                }
                match other {
                    ConsensusMessage::RBCValMsg(block) => self.handle_rbc_val(
                        block,
                        signature_valid,
                    ),
                    ConsensusMessage::RBCEchoMsg(vote) => self.handle_rbc_echo(
                        &vote,
                        signature_valid,
                    ),
                    ConsensusMessage::RBCReadyMsg(vote) => self.handle_rbc_ready(
                        &vote,
                        signature_valid,
                    ),
                    ConsensusMessage::ABAValMsg(vote) => self.handle_aba_val(
                        &vote,
                        signature_valid,
                    ),
                    ConsensusMessage::ABAMuxMsg(vote) => self.handle_aba_mux(
                        &vote,
                        signature_valid,
                    ),
                    ConsensusMessage::ABACoinShareMsg(share) => self.handle_aba_share(
                        &share,
                        signature_valid,
                    ),
                    ConsensusMessage::ABAOutputMsg(output) => self.handle_aba_output(
                        &output,
                        signature_valid,
                    ),
                    ConsensusMessage::PrePareMsg(prepare) => self.handle_prepare(
                        &prepare,
                        signature_valid,
                    ),
                    ConsensusMessage::LoopBackMsg(block) => self.handle_rbc_val(
                        block,
                        signature_valid,
                    ),
                    ConsensusMessage::SyncRequestMsg(epoch, height, sender) => Ok(
                        self.handle_sync_request(epoch, height, sender),
                    ),
                    ConsensusMessage::SyncReplyMsg(block) => self.handle_sync_reply(
                        block,
                        signature_valid,
                    ),
                }
            },
        }
    }

    /// Takes one event and answers with the actions to carry out, in
    /// order. An error means that the event was a message that was turned
    /// down; the state is then as it was.
    pub fn handle_event(&mut self, event: Event) -> (result: ConsensusResult<Vec<Action>>)
        requires
            old(self).wf(),
        ensures
            final(self).wf(),
            final(self)@ == old(self)@.step(event).0,
            outcome(result) == old(self)@.step(event).1,
    {
        match event {
            Event::Message { message, signature_valid } => self.handle_message(
                message,
                signature_valid,
            ),
            Event::PayloadVerified { block, valid } => Ok(
                self.handle_payload_verified(block, valid),
            ),
            Event::BlockFetched(block) => Ok(self.handle_block_fetched(block)),
            Event::Committed { digests, epoch, height } => Ok(self.cleanup(digests, epoch, height)),
        }
    }

    /// The epoch this node is in.
    pub fn epoch(&self) -> (epoch: SeqNumber)
        ensures
            epoch == self@.epoch,
    {
        self.epoch
    }

    /// Whether the block of an instance has been kept.
    pub fn holds_block(&self, epoch: SeqNumber, height: SeqNumber) -> (held: bool)
        ensures
            held == self@.buffers.contains_key((epoch, height)),
    {
        self.buffers.contains_key(&(epoch, height))
    }

    /// Whether a proof with this tag is on record for an instance.
    pub fn has_proof(&self, epoch: SeqNumber, height: SeqNumber, tag: u8) -> (recorded: bool)
        ensures
            recorded == self@.rbc_proofs.contains_key((epoch, height, tag)),
    {
        self.rbc_proofs.contains_key(&(epoch, height, tag))
    }

    /// Whether this node has sent its ready vote for an instance.
    pub fn is_ready(&self, epoch: SeqNumber, height: SeqNumber) -> (ready: bool)
        ensures
            ready == self@.rbc_ready.contains((epoch, height)),
    {
        self.rbc_ready.contains_key(&(epoch, height))
    }

    /// Whether an instance has been delivered.
    pub fn is_delivered(&self, epoch: SeqNumber, height: SeqNumber) -> (delivered: bool)
        ensures
            delivered == self@.outputs_of(epoch).contains(height),
    {
        match self.rbc_epoch_outputs.get(&epoch) {
            Some(outputs) => outputs.contains(height),
            None => false,
        }
    }

    /// Whether this node has started the classifier for an instance.
    pub fn prepare_started(&self, epoch: SeqNumber, height: SeqNumber) -> (started: bool)
        ensures
            started == self@.prepare_flags.contains((epoch, height)),
    {
        self.prepare_flags.contains_key(&(epoch, height))
    }

    /// Whether agreement on an instance has ended.
    pub fn aba_ended(&self, epoch: SeqNumber, height: SeqNumber) -> (ended: bool)
        ensures
            ended == self@.ended((epoch, height)),
    {
        match self.aba_ends.get(&(epoch, height)) {
            Some(ended) => *ended,
            None => false,
        }
    }

    /// The value flags of a round.
    pub fn value_flags(&self, epoch: SeqNumber, height: SeqNumber, round: SeqNumber) -> (flags:
        Flags)
        ensures
            flags == self@.value_flags_of((epoch, height, round)),
    {
        match self.aba_values_flag.get(&(epoch, height, round)) {
            Some(flags) => *flags,
            None => Flags::new(),
        }
    }

    /// The mux flags of a round.
    pub fn mux_flags(&self, epoch: SeqNumber, height: SeqNumber, round: SeqNumber) -> (flags: Flags)
        ensures
            flags == self@.mux_flags_of((epoch, height, round)),
    {
        match self.aba_mux_flags.get(&(epoch, height, round)) {
            Some(flags) => *flags,
            None => Flags::new(),
        }
    }

    /// Rank of the next instance that the committer will be told of.
    pub fn next_rank(&self) -> (rank: u128)
        ensures
            rank == self@.commitor.next,
    {
        self.commitor.next_rank()
    }
}

} // verus!
