//! What holds of every step of the engine, proved over its transitions.

use crate::aggregator::{
    lemma_empty_proof_maker_wf, lemma_proof_by_distinct_authors, vote_authors,
    lemma_cleanup_leaves_nothing_behind, lemma_cleanup_twice, lemma_echo_keeps_wf,
    lemma_prepare_keeps_wf, lemma_ready_keeps_wf, lemma_share_keeps_wf,
    lemma_second_echo_is_rejected, lemma_second_prepare_is_rejected,
    lemma_second_ready_is_rejected, lemma_second_share_is_rejected,
};
use crate::commitor::{
    MAX_BLOCK_BUFFER, consecutive_from, lemma_due_in_rank_order, lemma_seal_wf, notice_rank, CommitContent,
};
use crate::collections::key_rank;
use crate::config::{rank_of, stake_sum, NodeId, Parameters, SeqNumber, Stake};
use crate::error::{ConsensusError, ConsensusResult};
use crate::messages::{
    ABAOutput, ABAVal, Block, ConsensusMessage, Digest, EchoVote, Prepare, RandomnessShare, ReadyVote,
    OPT, PES, PRE_ONE, PRE_TWO, RBC_ECHO, RBC_READY,
};
use crate::state::{
    aba_output_of, coin_share_of, commit_actions, prepare_of, store_key_of, ActionContent,
    CoreState, Event,
};
use vstd::bytes::{
    lemma_auto_spec_u128_to_from_le_bytes, lemma_auto_spec_u64_to_from_le_bytes,
    spec_u128_from_le_bytes, spec_u128_to_le_bytes, spec_u64_from_le_bytes, spec_u64_to_le_bytes,
};
use vstd::prelude::*;

verus! {

/// Whether a handler asked for no message to be sent.
pub open spec fn quiet(result: ConsensusResult<Seq<ActionContent>>) -> bool {
    match result {
        Ok(actions) => forall|i: int| 0 <= i < actions.len() ==> !(#[trigger] actions[i] is Broadcast),
        Err(_) => true,
    }
}

/// The fallback touches nothing but the record of started classifiers.
/// That record grows by exactly the heights below `upto` of epoch `fall`,
/// and one pessimistic first-phase vote goes out for each of those heights
/// that had not started, and for nothing else.
pub proof fn lemma_force_pessimistic(state: CoreState, fall: SeqNumber, upto: nat)
    requires
        upto <= u64::MAX,
    ensures
        ({
            let forced = state.force_pessimistic(fall, upto);
            &&& forced.0 == CoreState { prepare_flags: forced.0.prepare_flags, ..state }
            &&& forall|k: (SeqNumber, SeqNumber)|
                forced.0.prepare_flags.contains(k) <==> (state.prepare_flags.contains(k) || (k.0
                    == fall && k.1 < upto))
            &&& forall|h: SeqNumber|
                h < upto && !state.prepare_flags.contains((fall, h)) ==> forced.1.contains(
                    #[trigger] prepare_of(state.name, fall, h, PRE_ONE, PES),
                )
            &&& forall|i: int|
                0 <= i < forced.1.len() ==> exists|h: SeqNumber|
                    h < upto && !state.prepare_flags.contains((fall, h)) && #[trigger] forced.1[i]
                        == prepare_of(state.name, fall, h, PRE_ONE, PES)
        }),
    decreases upto,
{
    if upto > 0 {
        let before = state.force_pessimistic(fall, (upto - 1) as nat);
        lemma_force_pessimistic(state, fall, (upto - 1) as nat);
        let top = (upto - 1) as SeqNumber;
        let step = before.0.invoke_prepare(fall, top, PES);
        let forced = state.force_pessimistic(fall, upto);
        assert(forced.1 == before.1 + step.1);
        assert forall|h: SeqNumber|
            h < upto && !state.prepare_flags.contains((fall, h)) implies forced.1.contains(
            #[trigger] prepare_of(state.name, fall, h, PRE_ONE, PES),
        ) by {
            if h < top {
                let at = choose|i: int|
                    0 <= i < before.1.len() && before.1[i] == prepare_of(
                        state.name,
                        fall,
                        h,
                        PRE_ONE,
                        PES,
                    );
                assert(forced.1[at] == before.1[at]);
            } else {
                assert(!before.0.prepare_flags.contains((fall, top)));
                assert(forced.1[before.1.len() as int] == step.1[0]);
            }
        }
        assert forall|i: int| 0 <= i < forced.1.len() implies exists|h: SeqNumber|
            h < upto && !state.prepare_flags.contains((fall, h)) && #[trigger] forced.1[i]
                == prepare_of(state.name, fall, h, PRE_ONE, PES) by {
            if i < before.1.len() {
                assert(forced.1[i] == before.1[i]);
                let h = choose|h: SeqNumber|
                    h < upto - 1 && !state.prepare_flags.contains((fall, h)) && before.1[i]
                        == prepare_of(state.name, fall, h, PRE_ONE, PES);
                assert(h < upto);
            } else {
                assert(forced.1[i] == step.1[i - before.1.len()]);
                assert(top < upto && !state.prepare_flags.contains((fall, top)));
            }
        }
        assert(forced.0 == CoreState { prepare_flags: forced.0.prepare_flags, ..state });
        assert forall|k: (SeqNumber, SeqNumber)|
            forced.0.prepare_flags.contains(k) <==> (state.prepare_flags.contains(k) || (k.0
                == fall && k.1 < upto)) by {
            assert(before.0.prepare_flags.contains(k) <==> (state.prepare_flags.contains(k) || (
            k.0 == fall && k.1 < upto - 1)));
        }
    }
}

/// The fallback forces classification one window behind: after
/// `fallback(cur_epoch)`, with `cur_epoch` at least the window, every
/// height of the epoch `cur_epoch - window` has started the classifier,
/// and a pessimistic first-phase vote went out for each one that had not.
/// With a window of one epoch that is the epoch just behind `cur_epoch`;
/// before the window has passed, nothing happens.
pub proof fn lemma_fallback_forces_pending(state: CoreState, cur_epoch: SeqNumber, height: SeqNumber)
    requires
        state.wf(),
        height < state.stakes.len(),
    ensures
        cur_epoch < state.fallback ==> state.fallback(cur_epoch) == (
            state,
            Seq::<ActionContent>::empty(),
        ),
        cur_epoch >= state.fallback ==> ({
            let fall = (cur_epoch - state.fallback) as SeqNumber;
            let forced = state.fallback(cur_epoch);
            &&& forced.0.prepare_flags.contains((fall, height))
            &&& !state.prepare_flags.contains((fall, height)) ==> forced.1.contains(
                prepare_of(state.name, fall, height, PRE_ONE, PES),
            )
            &&& state.prepare_flags.contains((fall, height)) ==> !forced.1.contains(
                prepare_of(state.name, fall, height, PRE_ONE, PES),
            )
        }),
{
    if cur_epoch >= state.fallback {
        let fall = (cur_epoch - state.fallback) as SeqNumber;
        lemma_force_pessimistic(state, fall, state.stakes.len());
        let forced = state.fallback(cur_epoch);
        if state.prepare_flags.contains((fall, height)) && forced.1.contains(
            prepare_of(state.name, fall, height, PRE_ONE, PES),
        ) {
            let at = choose|i: int|
                0 <= i < forced.1.len() && forced.1[i] == prepare_of(
                    state.name,
                    fall,
                    height,
                    PRE_ONE,
                    PES,
                );
            let h = choose|h: SeqNumber|
                h < state.stakes.len() && !state.prepare_flags.contains((fall, h)) && forced.1[at]
                    == prepare_of(state.name, fall, h, PRE_ONE, PES);
            assert(h == height);
        }
    }
}

/// Without a fault floor every node takes part: it proposes on entering
/// an epoch and handles every message.
pub proof fn lemma_no_fault_floor(state: CoreState, message: ConsensusMessage, signature_valid: bool)
    requires
        state.parameters.fault == 0,
    ensures
        state.generate_rbc_proposal() == seq![
            ActionContent::Propose {
                epoch: state.epoch,
                height: state.height,
                max_payload_size: state.parameters.max_payload_size,
                min_block_delay: state.parameters.min_block_delay,
            },
        ],
        message matches ConsensusMessage::RBCEchoMsg(vote) ==> state.handle_message(
            message,
            signature_valid,
        ) == state.handle_rbc_echo(vote, signature_valid),
        message matches ConsensusMessage::RBCValMsg(block) ==> state.handle_message(
            message,
            signature_valid,
        ) == state.handle_rbc_val(block, signature_valid),
        message matches ConsensusMessage::RBCReadyMsg(vote) ==> state.handle_message(
            message,
            signature_valid,
        ) == state.handle_rbc_ready(vote, signature_valid),
        message matches ConsensusMessage::PrePareMsg(vote) ==> state.handle_message(
            message,
            signature_valid,
        ) == state.handle_prepare(vote, signature_valid),
        message matches ConsensusMessage::ABAValMsg(vote) ==> state.handle_message(
            message,
            signature_valid,
        ) == state.handle_aba_val(vote, signature_valid),
        message matches ConsensusMessage::ABAMuxMsg(vote) ==> state.handle_message(
            message,
            signature_valid,
        ) == state.handle_aba_mux(vote, signature_valid),
        message matches ConsensusMessage::ABACoinShareMsg(share) ==> state.handle_message(
            message,
            signature_valid,
        ) == state.handle_aba_share(share, signature_valid),
        message matches ConsensusMessage::ABAOutputMsg(output) ==> state.handle_message(
            message,
            signature_valid,
        ) == state.handle_aba_output(output, signature_valid),
        message matches ConsensusMessage::LoopBackMsg(block) ==> state.handle_message(
            message,
            signature_valid,
        ) == state.handle_rbc_val(block, signature_valid),
        message matches ConsensusMessage::SyncReplyMsg(block) ==> state.handle_message(
            message,
            signature_valid,
        ) == state.handle_sync_reply(block, signature_valid),
{
}

/// A node below the fault floor stays passive: it proposes nothing, and
/// every message but a sync request leaves it as it was, without an
/// action.
pub proof fn lemma_fault_floor_is_passive(
    state: CoreState,
    message: ConsensusMessage,
    signature_valid: bool,
)
    requires
        state.height < state.parameters.fault,
    ensures
        state.generate_rbc_proposal() == Seq::<ActionContent>::empty(),
        !(message is SyncRequestMsg) ==> state.handle_message(message, signature_valid) == (
            state,
            Ok::<Seq<ActionContent>, crate::error::ConsensusError>(Seq::<ActionContent>::empty()),
        ),
        message matches ConsensusMessage::SyncRequestMsg(epoch, height, sender)
            ==> state.handle_message(message, signature_valid) == (
            state,
            Ok::<Seq<ActionContent>, crate::error::ConsensusError>(
                state.handle_sync_request(epoch, height, sender),
            ),
        ),
{
}

/// A ready vote has its instance delivered only with the ready proof on
/// record: a proof for that instance, of a quorum of votes, no two by one
/// author. And while the ready votes of an instance weigh less than the
/// coin threshold, a ready vote records no proof and asks for nothing.
pub proof fn lemma_delivery_keeps_ready_proof(state: CoreState, vote: ReadyVote, signature_valid: bool)
    requires
        state.wf(),
    ensures
        ({
            let handled = state.handle_rbc_ready(vote, signature_valid);
            let key = (vote.epoch, vote.height, RBC_READY);
            handled.1 is Ok && handled.1->Ok_0.contains(
                ActionContent::FetchBlock { epoch: vote.epoch, height: vote.height },
            ) ==> {
                &&& handled.0.rbc_proofs.contains_key(key)
                &&& handled.0.rbc_proofs[key].epoch == vote.epoch
                &&& handled.0.rbc_proofs[key].height == vote.height
                &&& handled.0.rbc_proofs[key].tag == RBC_READY
                &&& handled.0.rbc_proofs[key].votes.len() == state.quorum()
                &&& vote_authors(handled.0.rbc_proofs[key].votes).no_duplicates()
            }
        }),
        ({
            let handled = state.handle_rbc_ready(vote, signature_valid);
            let counted = state.aggregator.ready_maker((vote.epoch, vote.height)).append(
                state.stakes,
                vote.epoch,
                vote.height,
                vote.author,
                RBC_READY,
                vote.signature,
            );
            counted.0.weight < state.coin_quorum() ==> {
                &&& handled.0.rbc_proofs == state.rbc_proofs
                &&& handled.0.rbc_epoch_outputs == state.rbc_epoch_outputs
                &&& handled.1 is Ok ==> handled.1->Ok_0 == Seq::<ActionContent>::empty()
            }
        }),
{
    let handled = state.handle_rbc_ready(vote, signature_valid);
    lemma_empty_proof_maker_wf(state.stakes);
    lemma_proof_by_distinct_authors(
        state.aggregator.ready_maker((vote.epoch, vote.height)),
        state.stakes,
        vote.epoch,
        vote.height,
        vote.author,
        RBC_READY,
        vote.signature,
    );
    if handled.1 is Ok && handled.1->Ok_0.contains(
        ActionContent::FetchBlock { epoch: vote.epoch, height: vote.height },
    ) {
        let actions = handled.1->Ok_0;
        let at = choose|i: int|
            0 <= i < actions.len() && actions[i] == (ActionContent::FetchBlock {
                epoch: vote.epoch,
                height: vote.height,
            });
        assert(actions[at] is FetchBlock);
    }
}

/// Where agreement on an instance ends, this node is among the authors of
/// an output for the round in which it ended.
pub proof fn lemma_end_leaves_output(
    state: CoreState,
    epoch: SeqNumber,
    height: SeqNumber,
    round: SeqNumber,
    val: usize,
)
    requires
        !state.ended((epoch, height)),
        !state.late(epoch, height),
    ensures
        ({
            let ended = state.process_aba_output(epoch, height, round, val).0;
            &&& ended.ended((epoch, height))
            &&& ended.outputs_seen((epoch, height, round)).contains(state.name)
        }),
{
}

/// Where the output of a member ends agreement on an instance, outputs of
/// at least the coin threshold of distinct members have been seen for its
/// round.
pub proof fn lemma_outputs_end_at_threshold(state: CoreState, output: ABAOutput, signature_valid: bool)
    requires
        state.wf(),
        !state.ended((output.epoch, output.height)),
    ensures
        ({
            let handled = state.handle_aba_output(output, signature_valid).0;
            handled.ended((output.epoch, output.height)) ==> handled.outputs_seen(
                (output.epoch, output.height, output.round),
            ).len() >= state.coin_quorum()
        }),
{
}

/// What one step may not undo: who the node is and which committee it
/// serves, the rank up to which the committer is done, and for an instance
/// and one of its rounds the record that the classifier started and that
/// agreement ended, and the value and mux flags that are up.
pub open spec fn keeps(
    state: CoreState,
    next: CoreState,
    instance: (SeqNumber, SeqNumber),
    round: SeqNumber,
    val: usize,
    flags_kept: bool,
) -> bool {
    let key = (instance.0, instance.1, round);
    &&& next.stakes == state.stakes
    &&& next.name == state.name
    &&& state.cleaned matches Some(bound) ==> (next.cleaned matches Some(later) && later >= bound)
    &&& state.prepare_flags.contains(instance) ==> next.prepare_flags.contains(instance)
    &&& state.aba_ends.contains_key(instance) ==> next.aba_ends.contains_key(instance)
    &&& state.ended(instance) ==> next.ended(instance)
    &&& flags_kept && state.value_flags_of(key).of(val) ==> next.value_flags_of(key).of(val)
    &&& flags_kept && state.mux_flags_of(key).of(val) ==> next.mux_flags_of(key).of(val)
}

/// Delivery keeps every record and flag.
proof fn lemma_deliver_keeps(
    state: CoreState,
    block: Block,
    instance: (SeqNumber, SeqNumber),
    round: SeqNumber,
    val: usize,
)
    requires
        state.wf(),
    ensures
        keeps(state, state.deliver(block).0, instance, round, val, true),
{
    let outputs = state.outputs_of(block.epoch);
    if !outputs.contains(block.height) {
        let grown = outputs.insert(block.height);
        let buffered = state.commitor.buffer_block(block);
        let delivered = CoreState {
            rbc_epoch_outputs: state.rbc_epoch_outputs.insert(block.epoch, grown),
            commitor: buffered.0,
            ..state
        };
        if grown.len() == state.quorum() {
            let advanced = if block.epoch < u64::MAX {
                delivered.rbc_advance((block.epoch + 1) as SeqNumber)
            } else {
                (delivered, seq![])
            };
            if block.epoch >= advanced.0.fallback {
                lemma_force_pessimistic(
                    advanced.0,
                    (block.epoch - advanced.0.fallback) as SeqNumber,
                    state.stakes.len(),
                );
            }
        }
    }
}

/// This handler keeps every record and flag.
proof fn lemma_rbc_val_keeps(
    state: CoreState,
    block: Block,
    signature_valid: bool,
    instance: (SeqNumber, SeqNumber),
    round: SeqNumber,
    val: usize,
)
    ensures
        keeps(state, state.handle_rbc_val(block, signature_valid).0, instance, round, val, true),
{
}

/// This handler keeps every record and flag.
proof fn lemma_rbc_echo_keeps(
    state: CoreState,
    vote: EchoVote,
    signature_valid: bool,
    instance: (SeqNumber, SeqNumber),
    round: SeqNumber,
    val: usize,
)
    ensures
        keeps(state, state.handle_rbc_echo(vote, signature_valid).0, instance, round, val, true),
{
}

/// This handler keeps every record and flag.
proof fn lemma_rbc_ready_keeps(
    state: CoreState,
    vote: ReadyVote,
    signature_valid: bool,
    instance: (SeqNumber, SeqNumber),
    round: SeqNumber,
    val: usize,
)
    ensures
        keeps(state, state.handle_rbc_ready(vote, signature_valid).0, instance, round, val, true),
{
}

/// This handler keeps every record and flag.
proof fn lemma_prepare_keeps(
    state: CoreState,
    vote: Prepare,
    signature_valid: bool,
    instance: (SeqNumber, SeqNumber),
    round: SeqNumber,
    val: usize,
)
    ensures
        keeps(state, state.handle_prepare(vote, signature_valid).0, instance, round, val, true),
{
}

/// This handler keeps every record and flag.
proof fn lemma_aba_val_keeps(
    state: CoreState,
    vote: ABAVal,
    signature_valid: bool,
    instance: (SeqNumber, SeqNumber),
    round: SeqNumber,
    val: usize,
)
    ensures
        keeps(state, state.handle_aba_val(vote, signature_valid).0, instance, round, val, true),
{
}

/// This handler keeps every record and flag.
proof fn lemma_aba_mux_keeps(
    state: CoreState,
    vote: ABAVal,
    signature_valid: bool,
    instance: (SeqNumber, SeqNumber),
    round: SeqNumber,
    val: usize,
)
    ensures
        keeps(state, state.handle_aba_mux(vote, signature_valid).0, instance, round, val, true),
{
}

/// This handler keeps every record and flag.
proof fn lemma_aba_share_keeps(
    state: CoreState,
    share: RandomnessShare,
    signature_valid: bool,
    instance: (SeqNumber, SeqNumber),
    round: SeqNumber,
    val: usize,
)
    ensures
        keeps(state, state.handle_aba_share(share, signature_valid).0, instance, round, val, true),
{
}

/// This handler keeps every record and flag.
proof fn lemma_aba_output_keeps(
    state: CoreState,
    output: ABAOutput,
    signature_valid: bool,
    instance: (SeqNumber, SeqNumber),
    round: SeqNumber,
    val: usize,
)
    ensures
        keeps(state, state.handle_aba_output(output, signature_valid).0, instance, round, val, true),
{
}

/// This handler keeps every record and flag.
proof fn lemma_sync_reply_keeps(
    state: CoreState,
    block: Block,
    signature_valid: bool,
    instance: (SeqNumber, SeqNumber),
    round: SeqNumber,
    val: usize,
)
    ensures
        keeps(state, state.handle_sync_reply(block, signature_valid).0, instance, round, val, true),
{
}

/// Within an instance the state only moves forward. No step takes an
/// instance out of the record of started classifiers or of ended
/// agreements, and no step lowers a value flag or a mux flag; the one
/// exception is the cleanup, which drops the flags of the rounds it
/// cleans up.
pub proof fn lemma_step_is_monotone(
    state: CoreState,
    event: Event,
    instance: (SeqNumber, SeqNumber),
    round: SeqNumber,
    val: usize,
)
    requires
        state.wf(),
    ensures
        keeps(
            state,
            state.step(event).0,
            instance,
            round,
            val,
            event matches Event::Committed { epoch, height, .. } ==> key_rank(
                state.stakes.len(),
                (instance.0, instance.1, round),
            ) > rank_of(state.stakes.len(), epoch, height),
        ),
{
    match event {
        Event::BlockFetched(block) => {
            lemma_deliver_keeps(state, block, instance, round, val);
        },
        Event::PayloadVerified { block, valid } => {},
        Event::Committed { digests, epoch, height } => {},
        Event::Message { message, signature_valid } => {
            if state.height >= state.parameters.fault {
                match message {
                    ConsensusMessage::RBCValMsg(block) => {
                        lemma_rbc_val_keeps(state, block, signature_valid, instance, round, val);
                    },
                    ConsensusMessage::RBCEchoMsg(vote) => {
                        lemma_rbc_echo_keeps(state, vote, signature_valid, instance, round, val);
                    },
                    ConsensusMessage::RBCReadyMsg(vote) => {
                        lemma_rbc_ready_keeps(state, vote, signature_valid, instance, round, val);
                    },
                    ConsensusMessage::ABAValMsg(vote) => {
                        lemma_aba_val_keeps(state, vote, signature_valid, instance, round, val);
                    },
                    ConsensusMessage::ABAMuxMsg(vote) => {
                        lemma_aba_mux_keeps(state, vote, signature_valid, instance, round, val);
                    },
                    ConsensusMessage::ABACoinShareMsg(share) => {
                        lemma_aba_share_keeps(state, share, signature_valid, instance, round, val);
                    },
                    ConsensusMessage::ABAOutputMsg(output) => {
                        lemma_aba_output_keeps(
                            state,
                            output,
                            signature_valid,
                            instance,
                            round,
                            val,
                        );
                    },
                    ConsensusMessage::PrePareMsg(vote) => {
                        lemma_prepare_keeps(state, vote, signature_valid, instance, round, val);
                    },
                    ConsensusMessage::LoopBackMsg(block) => {
                        lemma_rbc_val_keeps(state, block, signature_valid, instance, round, val);
                    },
                    ConsensusMessage::SyncRequestMsg(epoch, height, sender) => {},
                    ConsensusMessage::SyncReplyMsg(block) => {
                        lemma_sync_reply_keeps(state, block, signature_valid, instance, round, val);
                    },
                }
            }
        },
    }
}

/// A step that, taken a second time, changes nothing and sends nothing.
pub open spec fn idle_on_replay(
    once: (CoreState, ConsensusResult<Seq<ActionContent>>),
    twice: (CoreState, ConsensusResult<Seq<ActionContent>>),
) -> bool {
    twice.0 == once.0 && quiet(twice.1)
}

/// A list of actions, as the outcome of a handler that cannot fail.
pub open spec fn done(step: (CoreState, Seq<ActionContent>)) -> (
    CoreState,
    ConsensusResult<Seq<ActionContent>>,
) {
    (step.0, Ok(step.1))
}

proof fn lemma_rbc_val_replay(state: CoreState, block: Block, signature_valid: bool)
    ensures
        idle_on_replay(
            state.handle_rbc_val(block, signature_valid),
            state.handle_rbc_val(block, signature_valid).0.handle_rbc_val(block, signature_valid),
        ),
{
}

proof fn lemma_payload_verified_replay(state: CoreState, block: Block, valid: bool)
    ensures
        idle_on_replay(
            done(state.handle_payload_verified(block, valid)),
            done(state.handle_payload_verified(block, valid).0.handle_payload_verified(block, valid)),
        ),
{
}

proof fn lemma_rbc_echo_replay(state: CoreState, vote: EchoVote, signature_valid: bool)
    ensures
        idle_on_replay(
            state.handle_rbc_echo(vote, signature_valid),
            state.handle_rbc_echo(vote, signature_valid).0.handle_rbc_echo(vote, signature_valid),
        ),
{
    lemma_second_echo_is_rejected(state.aggregator, vote);
}

proof fn lemma_rbc_ready_replay(state: CoreState, vote: ReadyVote, signature_valid: bool)
    ensures
        idle_on_replay(
            state.handle_rbc_ready(vote, signature_valid),
            state.handle_rbc_ready(vote, signature_valid).0.handle_rbc_ready(vote, signature_valid),
        ),
{
    lemma_second_ready_is_rejected(state.aggregator, vote);
}

proof fn lemma_prepare_replay(state: CoreState, vote: Prepare, signature_valid: bool)
    ensures
        idle_on_replay(
            state.handle_prepare(vote, signature_valid),
            state.handle_prepare(vote, signature_valid).0.handle_prepare(vote, signature_valid),
        ),
{
    lemma_second_prepare_is_rejected(state.aggregator, vote);
}

proof fn lemma_aba_share_replay(state: CoreState, share: RandomnessShare, share_valid: bool)
    ensures
        idle_on_replay(
            state.handle_aba_share(share, share_valid),
            state.handle_aba_share(share, share_valid).0.handle_aba_share(share, share_valid),
        ),
{
    lemma_second_share_is_rejected(state.aggregator, share, state.key_set);
}

proof fn lemma_aba_val_replay(state: CoreState, vote: ABAVal, signature_valid: bool)
    ensures
        idle_on_replay(
            state.handle_aba_val(vote, signature_valid),
            state.handle_aba_val(vote, signature_valid).0.handle_aba_val(vote, signature_valid),
        ),
{
    let once = state.handle_aba_val(vote, signature_valid);
    let twice = once.0.handle_aba_val(vote, signature_valid);
    assert(twice.0.aba_values =~= once.0.aba_values);
}

proof fn lemma_aba_mux_replay(state: CoreState, vote: ABAVal, signature_valid: bool)
    ensures
        idle_on_replay(
            state.handle_aba_mux(vote, signature_valid),
            state.handle_aba_mux(vote, signature_valid).0.handle_aba_mux(vote, signature_valid),
        ),
{
    let once = state.handle_aba_mux(vote, signature_valid);
    let twice = once.0.handle_aba_mux(vote, signature_valid);
    assert(twice.0.aba_mux_values =~= once.0.aba_mux_values);
}

proof fn lemma_aba_output_replay(state: CoreState, output: ABAOutput, signature_valid: bool)
    ensures
        idle_on_replay(
            state.handle_aba_output(output, signature_valid),
            state.handle_aba_output(output, signature_valid).0.handle_aba_output(
                output,
                signature_valid,
            ),
        ),
{
    let once = state.handle_aba_output(output, signature_valid);
    let twice = once.0.handle_aba_output(output, signature_valid);
    assert(twice.0.aba_outputs =~= once.0.aba_outputs);
}

proof fn lemma_sync_reply_replay(state: CoreState, block: Block, signature_valid: bool)
    ensures
        idle_on_replay(
            state.handle_sync_reply(block, signature_valid),
            state.handle_sync_reply(block, signature_valid).0.handle_sync_reply(
                block,
                signature_valid,
            ),
        ),
{
    let once = state.handle_sync_reply(block, signature_valid);
    let twice = once.0.handle_sync_reply(block, signature_valid);
    assert(twice.0.buffers =~= once.0.buffers);
    assert(twice.0.rbc_epoch_outputs =~= once.0.rbc_epoch_outputs);
}

proof fn lemma_deliver_replay(state: CoreState, block: Block)
    requires
        state.wf(),
    ensures
        idle_on_replay(done(state.deliver(block)), done(state.deliver(block).0.deliver(block))),
{
    let once = state.deliver(block);
    let outputs = state.outputs_of(block.epoch);
    if !outputs.contains(block.height) {
        let grown = outputs.insert(block.height);
        let buffered = state.commitor.buffer_block(block);
        let delivered = CoreState {
            rbc_epoch_outputs: state.rbc_epoch_outputs.insert(block.epoch, grown),
            commitor: buffered.0,
            ..state
        };
        if grown.len() == state.quorum() {
            let advanced = if block.epoch < u64::MAX {
                delivered.rbc_advance((block.epoch + 1) as SeqNumber)
            } else {
                (delivered, seq![])
            };
            if block.epoch >= advanced.0.fallback {
                lemma_force_pessimistic(
                    advanced.0,
                    (block.epoch - advanced.0.fallback) as SeqNumber,
                    state.stakes.len(),
                );
            }
        }
        assert(once.0.rbc_epoch_outputs == delivered.rbc_epoch_outputs);
    }
    let twice = once.0.deliver(block);
    assert(twice.0.rbc_epoch_outputs =~= once.0.rbc_epoch_outputs);
}

proof fn lemma_cleanup_replay(
    state: CoreState,
    digests: Vec<Digest>,
    epoch: SeqNumber,
    height: SeqNumber,
)
    ensures
        idle_on_replay(
            done(state.cleanup(digests, epoch, height)),
            done(state.cleanup(digests, epoch, height).0.cleanup(digests, epoch, height)),
        ),
{
    let once = state.cleanup(digests, epoch, height).0;
    let twice = once.cleanup(digests, epoch, height).0;
    lemma_cleanup_twice(state.aggregator, epoch, height);
    assert(twice.buffers =~= once.buffers);
    assert(twice.rbc_proofs =~= once.rbc_proofs);
    assert(twice.rbc_ready =~= once.rbc_ready);
    assert(twice.aba_values =~= once.aba_values);
    assert(twice.aba_mux_values =~= once.aba_mux_values);
    assert(twice.aba_values_flag =~= once.aba_values_flag);
    assert(twice.aba_mux_flags =~= once.aba_mux_flags);
    assert(twice.aba_outputs =~= once.aba_outputs);
}

/// Handling is idempotent: an event that is handed in a second time,
/// right after the first, leaves the state as the first left it and has no
/// message sent.
pub proof fn lemma_replay_is_idle(state: CoreState, event: Event)
    requires
        state.wf(),
    ensures
        idle_on_replay(state.step(event), state.step(event).0.step(event)),
{
    match event {
        Event::BlockFetched(block) => {
            lemma_deliver_replay(state, block);
        },
        Event::PayloadVerified { block, valid } => {
            lemma_payload_verified_replay(state, block, valid);
        },
        Event::Committed { digests, epoch, height } => {
            lemma_cleanup_replay(state, digests, epoch, height);
        },
        Event::Message { message, signature_valid } => {
            if state.height >= state.parameters.fault {
                match message {
                    ConsensusMessage::RBCValMsg(block) => {
                        lemma_rbc_val_replay(state, block, signature_valid);
                    },
                    ConsensusMessage::RBCEchoMsg(vote) => {
                        lemma_rbc_echo_replay(state, vote, signature_valid);
                    },
                    ConsensusMessage::RBCReadyMsg(vote) => {
                        lemma_rbc_ready_replay(state, vote, signature_valid);
                    },
                    ConsensusMessage::ABAValMsg(vote) => {
                        lemma_aba_val_replay(state, vote, signature_valid);
                    },
                    ConsensusMessage::ABAMuxMsg(vote) => {
                        lemma_aba_mux_replay(state, vote, signature_valid);
                    },
                    ConsensusMessage::ABACoinShareMsg(share) => {
                        lemma_aba_share_replay(state, share, signature_valid);
                    },
                    ConsensusMessage::ABAOutputMsg(output) => {
                        lemma_aba_output_replay(state, output, signature_valid);
                    },
                    ConsensusMessage::PrePareMsg(vote) => {
                        lemma_prepare_replay(state, vote, signature_valid);
                    },
                    ConsensusMessage::LoopBackMsg(block) => {
                        lemma_rbc_val_replay(state, block, signature_valid);
                    },
                    ConsensusMessage::SyncRequestMsg(epoch, height, sender) => {},
                    ConsensusMessage::SyncReplyMsg(block) => {
                        lemma_sync_reply_replay(state, block, signature_valid);
                    },
                }
            }
        },
    }
}

/// Excluding an instance keeps the state well formed.
proof fn lemma_exclude_wf(state: CoreState, epoch: SeqNumber, height: SeqNumber)
    requires
        state.wf(),
    ensures
        state.exclude(epoch, height).0.wf(),
{
    let content = CommitContent { digests: Seq::empty(), epoch, height };
    lemma_seal_wf(state.commitor, content);
    lemma_due_in_rank_order(state.commitor.seal(content));
}

/// Delivering a block keeps the state well formed.
proof fn lemma_deliver_wf(state: CoreState, block: Block)
    requires
        state.wf(),
    ensures
        state.deliver(block).0.wf(),
{
    let content = CommitContent {
        digests: block.payload@,
        epoch: block.epoch,
        height: block.height,
    };
    lemma_seal_wf(state.commitor, content);
    lemma_due_in_rank_order(state.commitor.seal(content));
    let outputs = state.outputs_of(block.epoch);
    if !outputs.contains(block.height) {
        let grown = outputs.insert(block.height);
        let buffered = state.commitor.buffer_block(block);
        let delivered = CoreState {
            rbc_epoch_outputs: state.rbc_epoch_outputs.insert(block.epoch, grown),
            commitor: buffered.0,
            ..state
        };
        if grown.len() == state.quorum() {
            let advanced = if block.epoch < u64::MAX {
                delivered.rbc_advance((block.epoch + 1) as SeqNumber)
            } else {
                (delivered, seq![])
            };
            if block.epoch >= advanced.0.fallback {
                lemma_force_pessimistic(
                    advanced.0,
                    (block.epoch - advanced.0.fallback) as SeqNumber,
                    state.stakes.len(),
                );
            }
        }
    }
}

/// Ending agreement keeps the state well formed.
proof fn lemma_process_aba_output_wf(
    state: CoreState,
    epoch: SeqNumber,
    height: SeqNumber,
    round: SeqNumber,
    val: usize,
)
    requires
        state.wf(),
    ensures
        state.process_aba_output(epoch, height, round, val).0.wf(),
{
    if !state.late(epoch, height) && !state.ended((epoch, height)) {
        let seen = state.outputs_seen((epoch, height, round));
        let ended = CoreState {
            aba_outputs: state.aba_outputs.insert((epoch, height, round), seen.insert(state.name)),
            aba_ends: state.aba_ends.insert((epoch, height), true),
            ..state
        };
        lemma_exclude_wf(ended, epoch, height);
    }
}

proof fn lemma_rbc_val_wf(state: CoreState, block: Block, signature_valid: bool)
    requires
        state.wf(),
    ensures
        state.handle_rbc_val(block, signature_valid).0.wf(),
{
}

proof fn lemma_payload_verified_wf(state: CoreState, block: Block, valid: bool)
    requires
        state.wf(),
    ensures
        state.handle_payload_verified(block, valid).0.wf(),
{
}

proof fn lemma_sync_reply_wf(state: CoreState, block: Block, signature_valid: bool)
    requires
        state.wf(),
    ensures
        state.handle_sync_reply(block, signature_valid).0.wf(),
{
}

proof fn lemma_aba_val_wf(state: CoreState, vote: ABAVal, signature_valid: bool)
    requires
        state.wf(),
    ensures
        state.handle_aba_val(vote, signature_valid).0.wf(),
{
}

proof fn lemma_aba_mux_wf(state: CoreState, vote: ABAVal, signature_valid: bool)
    requires
        state.wf(),
    ensures
        state.handle_aba_mux(vote, signature_valid).0.wf(),
{
}

proof fn lemma_rbc_echo_wf(state: CoreState, vote: EchoVote, signature_valid: bool)
    requires
        state.wf(),
    ensures
        state.handle_rbc_echo(vote, signature_valid).0.wf(),
{
    lemma_echo_keeps_wf(state.aggregator, vote);
    lemma_empty_proof_maker_wf(state.stakes);
    lemma_proof_by_distinct_authors(
        state.aggregator.echo_maker((vote.epoch, vote.height)),
        state.stakes,
        vote.epoch,
        vote.height,
        vote.author,
        RBC_ECHO,
        vote.signature,
    );
}

proof fn lemma_rbc_ready_wf(state: CoreState, vote: ReadyVote, signature_valid: bool)
    requires
        state.wf(),
    ensures
        state.handle_rbc_ready(vote, signature_valid).0.wf(),
{
    lemma_ready_keeps_wf(state.aggregator, vote);
    lemma_empty_proof_maker_wf(state.stakes);
    lemma_proof_by_distinct_authors(
        state.aggregator.ready_maker((vote.epoch, vote.height)),
        state.stakes,
        vote.epoch,
        vote.height,
        vote.author,
        RBC_READY,
        vote.signature,
    );
}

proof fn lemma_prepare_wf(state: CoreState, vote: Prepare, signature_valid: bool)
    requires
        state.wf(),
    ensures
        state.handle_prepare(vote, signature_valid).0.wf(),
{
    lemma_prepare_keeps_wf(state.aggregator, vote);
    let counted = state.aggregator.add_prepare_vote(vote);
    if !state.late(vote.epoch, vote.height) {
        lemma_exclude_wf(CoreState { aggregator: counted.0, ..state }, vote.epoch, vote.height);
    }
}

proof fn lemma_apply_coin_wf(
    state: CoreState,
    epoch: SeqNumber,
    height: SeqNumber,
    round: SeqNumber,
    coin: usize,
)
    requires
        state.wf(),
    ensures
        state.apply_coin(epoch, height, round, coin).0.wf(),
{
    if !state.late(epoch, height) {
        let key = (epoch, height, round);
        let flags = state.mux_flags_of(key);
        lemma_process_aba_output_wf(
            CoreState { aba_mux_flags: state.aba_mux_flags.insert(key, flags), ..state },
            epoch,
            height,
            round,
            coin,
        );
    }
}

proof fn lemma_aba_share_wf(state: CoreState, share: RandomnessShare, share_valid: bool)
    requires
        state.wf(),
    ensures
        state.handle_aba_share(share, share_valid).0.wf(),
{
    lemma_share_keeps_wf(state.aggregator, share, state.key_set);
    let counted = state.aggregator.add_aba_share_coin(share, state.key_set);
    if let (Ok(Some(coin)), false) = (counted.1, state.late(share.epoch, share.height)) {
        lemma_apply_coin_wf(
            CoreState { aggregator: counted.0, ..state },
            share.epoch,
            share.height,
            share.round,
            coin,
        );
    }
}

proof fn lemma_aba_output_wf(state: CoreState, output: ABAOutput, signature_valid: bool)
    requires
        state.wf(),
    ensures
        state.handle_aba_output(output, signature_valid).0.wf(),
{
    if !state.late(output.epoch, output.height) {
        let key = (output.epoch, output.height, output.round);
        let grown = state.outputs_seen(key).insert(output.author);
        lemma_process_aba_output_wf(
            CoreState {
                aba_outputs: state.aba_outputs.insert(key, grown.insert(state.name)),
                ..state
            },
            output.epoch,
            output.height,
            output.round,
            output.val,
        );
    }
}

proof fn lemma_cleanup_wf(state: CoreState, digests: Vec<Digest>, epoch: SeqNumber, height: SeqNumber)
    requires
        state.wf(),
    ensures
        state.cleanup(digests, epoch, height).0.wf(),
{
    lemma_cleanup_leaves_nothing_behind(state.aggregator, epoch, height);
}

/// Well-formedness is an invariant: every step of a well-formed state
/// ends in a well-formed state.
pub proof fn lemma_step_keeps_wf(state: CoreState, event: Event)
    requires
        state.wf(),
    ensures
        state.step(event).0.wf(),
{
    match event {
        Event::BlockFetched(block) => {
            lemma_deliver_wf(state, block);
        },
        Event::PayloadVerified { block, valid } => {
            lemma_payload_verified_wf(state, block, valid);
        },
        Event::Committed { digests, epoch, height } => {
            lemma_cleanup_wf(state, digests, epoch, height);
        },
        Event::Message { message, signature_valid } => {
            if state.height >= state.parameters.fault {
                match message {
                    ConsensusMessage::RBCValMsg(block) => {
                        lemma_rbc_val_wf(state, block, signature_valid);
                    },
                    ConsensusMessage::LoopBackMsg(block) => {
                        lemma_rbc_val_wf(state, block, signature_valid);
                    },
                    ConsensusMessage::SyncRequestMsg(epoch, height, sender) => {},
                    ConsensusMessage::SyncReplyMsg(block) => {
                        lemma_sync_reply_wf(state, block, signature_valid);
                    },
                    ConsensusMessage::RBCEchoMsg(vote) => {
                        lemma_rbc_echo_wf(state, vote, signature_valid);
                    },
                    ConsensusMessage::RBCReadyMsg(vote) => {
                        lemma_rbc_ready_wf(state, vote, signature_valid);
                    },
                    ConsensusMessage::PrePareMsg(vote) => {
                        lemma_prepare_wf(state, vote, signature_valid);
                    },
                    ConsensusMessage::ABAValMsg(vote) => {
                        lemma_aba_val_wf(state, vote, signature_valid);
                    },
                    ConsensusMessage::ABAMuxMsg(vote) => {
                        lemma_aba_mux_wf(state, vote, signature_valid);
                    },
                    ConsensusMessage::ABACoinShareMsg(share) => {
                        lemma_aba_share_wf(state, share, signature_valid);
                    },
                    ConsensusMessage::ABAOutputMsg(output) => {
                        lemma_aba_output_wf(state, output, signature_valid);
                    },
                }
            }
        },
    }
}

/// After a cleanup up to (epoch, height) nothing is kept for an instance
/// of that rank or below: no accumulator, no block, proof or ready mark,
/// and no votes, flags or outputs of agreement.
pub proof fn lemma_cleanup_purges(
    state: CoreState,
    digests: Vec<Digest>,
    epoch: SeqNumber,
    height: SeqNumber,
    instance: (SeqNumber, SeqNumber),
    round: SeqNumber,
    tag: u8,
)
    requires
        state.wf(),
        rank_of(state.stakes.len(), instance.0, instance.1) <= rank_of(
            state.stakes.len(),
            epoch,
            height,
        ),
    ensures
        ({
            let cleaned = state.cleanup(digests, epoch, height).0;
            let key = (instance.0, instance.1, round);
            &&& !cleaned.aggregator.holds_up_to(rank_of(state.stakes.len(), epoch, height))
            &&& !cleaned.buffers.contains_key(instance)
            &&& !cleaned.rbc_proofs.contains_key((instance.0, instance.1, tag))
            &&& !cleaned.rbc_ready.contains(instance)
            &&& !cleaned.aba_values.contains_key(key)
            &&& !cleaned.aba_mux_values.contains_key(key)
            &&& !cleaned.aba_values_flag.contains_key(key)
            &&& !cleaned.aba_mux_flags.contains_key(key)
            &&& !cleaned.aba_outputs.contains_key(key)
        }),
{
    lemma_cleanup_leaves_nothing_behind(state.aggregator, epoch, height);
}

/// An event that is turned down with an error leaves the state as it
/// was.
pub proof fn lemma_error_changes_nothing(state: CoreState, event: Event)
    ensures
        state.step(event).1 is Err ==> state.step(event).0 == state,
{
}

/// A node sends its coin share for a round once: a mux vote has the share
/// sent only if it raises the first mux flag of the round, and once a flag
/// is up no mux vote of that round asks for anything.
pub proof fn lemma_coin_share_sent_once(state: CoreState, vote: ABAVal, signature_valid: bool)
    ensures
        ({
            let key = (vote.epoch, vote.height, vote.round);
            let handled = state.handle_aba_mux(vote, signature_valid);
            &&& state.mux_flags_of(key).any() ==> (handled.1 matches Ok(actions) ==> actions.len()
                == 0)
            &&& (handled.1 matches Ok(actions) && actions.len() > 0) ==> {
                &&& !state.mux_flags_of(key).any()
                &&& handled.0.mux_flags_of(key).any()
                &&& handled.1->Ok_0 == seq![
                    coin_share_of(state.name, vote.epoch, vote.height, vote.round),
                ]
            }
        }),
{
}

/// A node starts the classifier for an instance once: the first start
/// sends its first-phase vote and leaves a record, and with that record
/// every later start does nothing.
pub proof fn lemma_prepare_started_once(
    state: CoreState,
    epoch: SeqNumber,
    height: SeqNumber,
    val: u8,
    later: u8,
)
    ensures
        ({
            let started = state.invoke_prepare(epoch, height, val);
            &&& started.0.prepare_flags.contains((epoch, height))
            &&& started.0.invoke_prepare(epoch, height, later) == (
                started.0,
                Seq::<ActionContent>::empty(),
            )
            &&& !state.prepare_flags.contains((epoch, height)) ==> started.1 == seq![
                prepare_of(state.name, epoch, height, PRE_ONE, val),
            ]
        }),
{
}

/// Every rank is a number of at most sixteen bytes.
proof fn lemma_rank_fits(size: nat, epoch: SeqNumber, height: SeqNumber)
    requires
        size <= u64::MAX,
    ensures
        rank_of(size, epoch, height) <= u128::MAX,
{
    assert(epoch * size <= 0xffff_ffff_ffff_ffff * 0xffff_ffff_ffff_ffff) by (nonlinear_arith)
        requires
            epoch <= 0xffff_ffff_ffff_ffff,
            size <= 0xffff_ffff_ffff_ffff,
    ;
}

/// The store is keyed by rank: the key of an instance has eight bytes
/// whenever its rank fits in eight, and two instances of different rank
/// never share a key, so a block is never written over the block of
/// another rank.
pub proof fn lemma_store_keys_differ(
    size: nat,
    epoch: SeqNumber,
    height: SeqNumber,
    other_epoch: SeqNumber,
    other_height: SeqNumber,
)
    requires
        size <= u64::MAX,
    ensures
        rank_of(size, epoch, height) <= u64::MAX ==> store_key_of(size, epoch, height).len() == 8,
        rank_of(size, epoch, height) != rank_of(size, other_epoch, other_height) ==> store_key_of(
            size,
            epoch,
            height,
        ) != store_key_of(size, other_epoch, other_height),
{
    lemma_auto_spec_u64_to_from_le_bytes();
    lemma_auto_spec_u128_to_from_le_bytes();
    lemma_rank_fits(size, epoch, height);
    lemma_rank_fits(size, other_epoch, other_height);
    let rank = rank_of(size, epoch, height);
    let other = rank_of(size, other_epoch, other_height);
    if rank != other {
        if rank <= u64::MAX && other <= u64::MAX {
            assert(spec_u64_from_le_bytes(spec_u64_to_le_bytes(rank as u64)) == rank as u64);
            assert(spec_u64_from_le_bytes(spec_u64_to_le_bytes(other as u64)) == other as u64);
        } else if rank > u64::MAX && other > u64::MAX {
            assert(spec_u128_to_le_bytes(rank as u128).len() == 16);
            assert(spec_u128_to_le_bytes(other as u128).len() == 16);
            assert(spec_u128_from_le_bytes(spec_u128_to_le_bytes(rank as u128)) == rank as u128);
            assert(spec_u128_from_le_bytes(spec_u128_to_le_bytes(other as u128)) == other as u128);
        } else {
            assert(spec_u128_to_le_bytes(rank as u128).len() == 16);
            assert(spec_u128_to_le_bytes(other as u128).len() == 16);
            assert(store_key_of(size, epoch, height).len() != store_key_of(
                size,
                other_epoch,
                other_height,
            ).len());
        }
    }
}

/// The commit notices among a list of actions, in order.
pub open spec fn notices(actions: Seq<ActionContent>) -> Seq<CommitContent>
    decreases actions.len(),
{
    if actions.len() == 0 {
        Seq::empty()
    } else {
        match actions.last() {
            ActionContent::Commit(notice) => notices(actions.drop_last()).push(notice),
            _ => notices(actions.drop_last()),
        }
    }
}

/// The commit notices that a step hands to the committer.
pub open spec fn notices_of(outcome: ConsensusResult<Seq<ActionContent>>) -> Seq<CommitContent> {
    match outcome {
        Ok(actions) => notices(actions),
        Err(_) => Seq::empty(),
    }
}

/// Whether no action of the list is a commit notice.
pub open spec fn commit_free(actions: Seq<ActionContent>) -> bool {
    forall|i: int| 0 <= i < actions.len() ==> !(#[trigger] actions[i] is Commit)
}

/// What a step does to the commit stream: the notices among its actions
/// carry the ranks from the buffer's next rank on, and the buffer ends up
/// past them.
pub open spec fn hands_out_in_order(
    before: CoreState,
    after: CoreState,
    actions: Seq<ActionContent>,
) -> bool {
    &&& after.commitor.size == before.commitor.size
    &&& after.commitor.next == before.commitor.next + notices(actions).len()
    &&& consecutive_from(before.commitor.size, before.commitor.next, notices(actions))
}

proof fn lemma_notices_none(actions: Seq<ActionContent>)
    requires
        commit_free(actions),
    ensures
        notices(actions) == Seq::<CommitContent>::empty(),
    decreases actions.len(),
{
    if actions.len() > 0 {
        assert(!(actions[actions.len() - 1] is Commit));
        assert forall|i: int| 0 <= i < actions.drop_last().len() implies !(
        #[trigger] actions.drop_last()[i] is Commit) by {
            assert(actions.drop_last()[i] == actions[i]);
        }
        lemma_notices_none(actions.drop_last());
    }
}

proof fn lemma_notices_split(first: Seq<ActionContent>, second: Seq<ActionContent>)
    ensures
        notices(first + second) == notices(first) + notices(second),
    decreases second.len(),
{
    if second.len() == 0 {
        assert(first + second =~= first);
        assert(notices(first) + notices(second) =~= notices(first));
    } else {
        assert((first + second).drop_last() =~= first + second.drop_last());
        assert((first + second).last() == second.last());
        lemma_notices_split(first, second.drop_last());
        assert(notices(first + second) =~= notices(first) + notices(second));
    }
}

/// The notices among a list of commit notices are all of them.
pub proof fn lemma_notices_all(commits: Seq<CommitContent>)
    ensures
        notices(commit_actions(commits)) == commits,
    decreases commits.len(),
{
    if commits.len() == 0 {
        assert(commits =~= Seq::<CommitContent>::empty());
    } else {
        assert(commit_actions(commits).drop_last() =~= commit_actions(commits.drop_last()));
        lemma_notices_all(commits.drop_last());
        assert(notices(commit_actions(commits)) =~= commits);
    }
}

/// A step that leaves the buffer alone and hands out nothing keeps the
/// stream in order.
proof fn lemma_untouched_in_order(before: CoreState, after: CoreState, actions: Seq<ActionContent>)
    requires
        after.commitor == before.commitor,
        commit_free(actions),
    ensures
        hands_out_in_order(before, after, actions),
{
    lemma_notices_none(actions);
}

proof fn lemma_exclude_in_order(state: CoreState, epoch: SeqNumber, height: SeqNumber)
    requires
        state.wf(),
    ensures
        hands_out_in_order(state, state.exclude(epoch, height).0, state.exclude(epoch, height).1),
{
    let content = CommitContent { digests: Seq::empty(), epoch, height };
    lemma_seal_wf(state.commitor, content);
    lemma_due_in_rank_order(state.commitor.seal(content));
    lemma_notices_all(state.commitor.seal(content).due());
}

proof fn lemma_deliver_in_order(state: CoreState, block: Block)
    requires
        state.wf(),
    ensures
        hands_out_in_order(state, state.deliver(block).0, state.deliver(block).1),
{
    let outputs = state.outputs_of(block.epoch);
    if outputs.contains(block.height) {
        lemma_untouched_in_order(state, state.deliver(block).0, state.deliver(block).1);
    } else {
        let content = CommitContent {
            digests: block.payload@,
            epoch: block.epoch,
            height: block.height,
        };
        lemma_seal_wf(state.commitor, content);
        lemma_due_in_rank_order(state.commitor.seal(content));
        let grown = outputs.insert(block.height);
        let buffered = state.commitor.buffer_block(block);
        lemma_notices_all(buffered.1);
        let delivered = CoreState {
            rbc_epoch_outputs: state.rbc_epoch_outputs.insert(block.epoch, grown),
            commitor: buffered.0,
            ..state
        };
        if grown.len() == state.quorum() {
            let advanced = if block.epoch < u64::MAX {
                delivered.rbc_advance((block.epoch + 1) as SeqNumber)
            } else {
                (delivered, seq![])
            };
            let forced = advanced.0.fallback(block.epoch);
            if block.epoch >= advanced.0.fallback {
                lemma_force_pessimistic(
                    advanced.0,
                    (block.epoch - advanced.0.fallback) as SeqNumber,
                    state.stakes.len(),
                );
            }
            assert(commit_free(advanced.1));
            assert(commit_free(forced.1)) by {
                assert forall|i: int| 0 <= i < forced.1.len() implies !(
                #[trigger] forced.1[i] is Commit) by {
                    if block.epoch >= advanced.0.fallback {
                        let fall = (block.epoch - advanced.0.fallback) as SeqNumber;
                        let h = choose|h: SeqNumber|
                            h < state.stakes.len() && !advanced.0.prepare_flags.contains((fall, h))
                                && #[trigger] forced.1[i] == prepare_of(
                                advanced.0.name,
                                fall,
                                h,
                                PRE_ONE,
                                PES,
                            );
                    }
                }
            }
            lemma_notices_none(advanced.1);
            lemma_notices_none(forced.1);
            lemma_notices_split(commit_actions(buffered.1), advanced.1);
            lemma_notices_split(commit_actions(buffered.1) + advanced.1, forced.1);
            assert(notices(state.deliver(block).1) =~= buffered.1);
        }
    }
}

proof fn lemma_process_aba_output_in_order(
    state: CoreState,
    epoch: SeqNumber,
    height: SeqNumber,
    round: SeqNumber,
    val: usize,
)
    requires
        state.wf(),
    ensures
        hands_out_in_order(
            state,
            state.process_aba_output(epoch, height, round, val).0,
            state.process_aba_output(epoch, height, round, val).1,
        ),
{
    if state.late(epoch, height) {
        lemma_untouched_in_order(
            state,
            state.process_aba_output(epoch, height, round, val).0,
            state.process_aba_output(epoch, height, round, val).1,
        );
    } else {
        let done = state.process_aba_output(epoch, height, round, val);
        if state.ended((epoch, height)) {
            lemma_untouched_in_order(state, done.0, done.1);
        } else {
            let seen = state.outputs_seen((epoch, height, round));
            let announce = if seen.contains(state.name) {
                seq![]
            } else {
                seq![aba_output_of(state.name, epoch, height, round, val)]
            };
            let ended = CoreState {
                aba_outputs: state.aba_outputs.insert((epoch, height, round), seen.insert(state.name)),
                aba_ends: state.aba_ends.insert((epoch, height), true),
                ..state
            };
            let sealed = if val == OPT as usize {
                ended.process_rbc_output(epoch, height)
            } else {
                ended.exclude(epoch, height)
            };
            if val == OPT as usize {
                lemma_untouched_in_order(ended, sealed.0, sealed.1);
            } else {
                lemma_exclude_in_order(ended, epoch, height);
            }
            assert(commit_free(announce));
            lemma_notices_none(announce);
            lemma_notices_split(announce, sealed.1);
            assert(notices(done.1) =~= notices(sealed.1));
        }
    }
}

proof fn lemma_apply_coin_in_order(
    state: CoreState,
    epoch: SeqNumber,
    height: SeqNumber,
    round: SeqNumber,
    coin: usize,
)
    requires
        state.wf(),
    ensures
        hands_out_in_order(
            state,
            state.apply_coin(epoch, height, round, coin).0,
            state.apply_coin(epoch, height, round, coin).1,
        ),
{
    if state.late(epoch, height) {
        lemma_untouched_in_order(
            state,
            state.apply_coin(epoch, height, round, coin).0,
            state.apply_coin(epoch, height, round, coin).1,
        );
    } else {
        let key = (epoch, height, round);
        let flags = state.mux_flags_of(key);
        let flagged = CoreState { aba_mux_flags: state.aba_mux_flags.insert(key, flags), ..state };
        let other = (1 - coin) as usize;
        let decided = if flags.of(coin) && !flags.of(other) {
            flagged.process_aba_output(epoch, height, round, coin)
        } else {
            (flagged, seq![])
        };
        if flags.of(coin) && !flags.of(other) {
            lemma_process_aba_output_in_order(flagged, epoch, height, round, coin);
        } else {
            lemma_untouched_in_order(flagged, decided.0, decided.1);
        }
        if round < u64::MAX {
            let val = if !flags.of(coin) && flags.of(other) {
                other
            } else {
                coin
            };
            let opened = decided.0.aba_advance_round(epoch, height, (round + 1) as SeqNumber, val);
            assert(commit_free(opened.1));
            lemma_notices_none(opened.1);
            lemma_notices_split(decided.1, opened.1);
            assert(notices(decided.1 + opened.1) =~= notices(decided.1));
        }
    }
}

proof fn lemma_prepare_in_order(state: CoreState, vote: Prepare, signature_valid: bool)
    requires
        state.wf(),
    ensures
        hands_out_in_order(
            state,
            state.handle_prepare(vote, signature_valid).0,
            actions_of(state.handle_prepare(vote, signature_valid).1),
        ),
{
    if state.late(vote.epoch, vote.height) {
        lemma_untouched_in_order(
            state,
            state.handle_prepare(vote, signature_valid).0,
            actions_of(state.handle_prepare(vote, signature_valid).1),
        );
    } else {
        let handled = state.handle_prepare(vote, signature_valid);
        let counted = state.aggregator.add_prepare_vote(vote);
        lemma_prepare_keeps_wf(state.aggregator, vote);
        let voted = CoreState { aggregator: counted.0, ..state };
        if handled.1 is Ok && counted.1 is Ok && counted.1->Ok_0 is Some {
            let verdict = counted.1->Ok_0->Some_0;
            if verdict.1 && vote.phase == PRE_TWO {
                lemma_exclude_in_order(voted, vote.epoch, vote.height);
            } else {
                lemma_untouched_in_order(state, handled.0, handled.1->Ok_0);
            }
        } else {
            lemma_untouched_in_order(state, handled.0, actions_of(handled.1));
        }
    }
}

proof fn lemma_share_in_order(state: CoreState, share: RandomnessShare, share_valid: bool)
    requires
        state.wf(),
    ensures
        hands_out_in_order(
            state,
            state.handle_aba_share(share, share_valid).0,
            actions_of(state.handle_aba_share(share, share_valid).1),
        ),
{
    if state.late(share.epoch, share.height) {
        lemma_untouched_in_order(
            state,
            state.handle_aba_share(share, share_valid).0,
            actions_of(state.handle_aba_share(share, share_valid).1),
        );
    } else {
        let handled = state.handle_aba_share(share, share_valid);
        let counted = state.aggregator.add_aba_share_coin(share, state.key_set);
        lemma_share_keeps_wf(state.aggregator, share, state.key_set);
        let voted = CoreState { aggregator: counted.0, ..state };
        if handled.1 is Ok && counted.1 is Ok && counted.1->Ok_0 is Some {
            lemma_apply_coin_in_order(
                voted,
                share.epoch,
                share.height,
                share.round,
                counted.1->Ok_0->Some_0,
            );
        } else {
            lemma_untouched_in_order(state, handled.0, actions_of(handled.1));
        }
    }
}

proof fn lemma_output_in_order(state: CoreState, output: ABAOutput, signature_valid: bool)
    requires
        state.wf(),
    ensures
        hands_out_in_order(
            state,
            state.handle_aba_output(output, signature_valid).0,
            actions_of(state.handle_aba_output(output, signature_valid).1),
        ),
{
    if state.late(output.epoch, output.height) {
        lemma_untouched_in_order(
            state,
            state.handle_aba_output(output, signature_valid).0,
            actions_of(state.handle_aba_output(output, signature_valid).1),
        );
    } else {
        let handled = state.handle_aba_output(output, signature_valid);
        let key = (output.epoch, output.height, output.round);
        let seen = state.outputs_seen(key);
        let grown = seen.insert(output.author);
        if handled.1 is Ok && !seen.contains(output.author) && grown.len() == state.coin_quorum() {
            let announce = if grown.contains(state.name) {
                seq![]
            } else {
                seq![
                    aba_output_of(state.name, output.epoch, output.height, output.round, output.val),
                ]
            };
            let joined = CoreState {
                aba_outputs: state.aba_outputs.insert(key, grown.insert(state.name)),
                ..state
            };
            let ended = joined.process_aba_output(
                output.epoch,
                output.height,
                output.round,
                output.val,
            );
            lemma_process_aba_output_in_order(
                joined,
                output.epoch,
                output.height,
                output.round,
                output.val,
            );
            assert(commit_free(announce));
            lemma_notices_none(announce);
            lemma_notices_split(announce, ended.1);
            assert(notices(announce + ended.1) =~= notices(ended.1));
        } else {
            lemma_untouched_in_order(state, handled.0, actions_of(handled.1));
        }
    }
}

/// The actions of a step, none where the event was turned down.
pub open spec fn actions_of(outcome: ConsensusResult<Seq<ActionContent>>) -> Seq<
    ActionContent,
> {
    match outcome {
        Ok(actions) => actions,
        Err(_) => Seq::empty(),
    }
}

/// Every step keeps the commit stream in order: the notices it hands out
/// carry the ranks from the buffer's next rank on, without a gap.
pub proof fn lemma_step_hands_out_in_order(state: CoreState, event: Event)
    requires
        state.wf(),
    ensures
        hands_out_in_order(state, state.step(event).0, actions_of(state.step(event).1)),
{
    let next = state.step(event);
    match event {
        Event::BlockFetched(block) => {
            lemma_deliver_in_order(state, block);
        },
        Event::PayloadVerified { block, valid } => {
            lemma_untouched_in_order(state, next.0, actions_of(next.1));
        },
        Event::Committed { digests, epoch, height } => {
            lemma_untouched_in_order(state, next.0, actions_of(next.1));
        },
        Event::Message { message, signature_valid } => {
            if state.height >= state.parameters.fault {
                match message {
                    ConsensusMessage::PrePareMsg(vote) => {
                        lemma_prepare_in_order(state, vote, signature_valid);
                    },
                    ConsensusMessage::ABACoinShareMsg(share) => {
                        lemma_share_in_order(state, share, signature_valid);
                    },
                    ConsensusMessage::ABAOutputMsg(output) => {
                        lemma_output_in_order(state, output, signature_valid);
                    },
                    ConsensusMessage::RBCValMsg(block) => {
                        lemma_quiet_val(state, block, signature_valid);
                    },
                    ConsensusMessage::LoopBackMsg(block) => {
                        lemma_quiet_val(state, block, signature_valid);
                    },
                    ConsensusMessage::RBCEchoMsg(vote) => {
                        lemma_quiet_echo(state, vote, signature_valid);
                    },
                    ConsensusMessage::RBCReadyMsg(vote) => {
                        lemma_quiet_ready(state, vote, signature_valid);
                    },
                    ConsensusMessage::ABAValMsg(vote) => {
                        lemma_quiet_aba_val(state, vote, signature_valid);
                    },
                    ConsensusMessage::ABAMuxMsg(vote) => {
                        lemma_quiet_aba_mux(state, vote, signature_valid);
                    },
                    ConsensusMessage::SyncReplyMsg(block) => {
                        lemma_quiet_sync_reply(state, block, signature_valid);
                    },
                    ConsensusMessage::SyncRequestMsg(epoch, height, sender) => {
                        lemma_untouched_in_order(state, next.0, actions_of(next.1));
                    },
                }
            } else {
                lemma_untouched_in_order(state, next.0, actions_of(next.1));
            }
        },
    }
}

proof fn lemma_quiet_val(state: CoreState, block: Block, signature_valid: bool)
    ensures
        hands_out_in_order(
            state,
            state.handle_rbc_val(block, signature_valid).0,
            actions_of(state.handle_rbc_val(block, signature_valid).1),
        ),
{
    let handled = state.handle_rbc_val(block, signature_valid);
    lemma_untouched_in_order(state, handled.0, actions_of(handled.1));
}

proof fn lemma_quiet_echo(state: CoreState, vote: EchoVote, signature_valid: bool)
    ensures
        hands_out_in_order(
            state,
            state.handle_rbc_echo(vote, signature_valid).0,
            actions_of(state.handle_rbc_echo(vote, signature_valid).1),
        ),
{
    let handled = state.handle_rbc_echo(vote, signature_valid);
    lemma_untouched_in_order(state, handled.0, actions_of(handled.1));
}

proof fn lemma_quiet_ready(state: CoreState, vote: ReadyVote, signature_valid: bool)
    ensures
        hands_out_in_order(
            state,
            state.handle_rbc_ready(vote, signature_valid).0,
            actions_of(state.handle_rbc_ready(vote, signature_valid).1),
        ),
{
    let handled = state.handle_rbc_ready(vote, signature_valid);
    lemma_untouched_in_order(state, handled.0, actions_of(handled.1));
}

proof fn lemma_quiet_aba_val(state: CoreState, vote: ABAVal, signature_valid: bool)
    ensures
        hands_out_in_order(
            state,
            state.handle_aba_val(vote, signature_valid).0,
            actions_of(state.handle_aba_val(vote, signature_valid).1),
        ),
{
    let handled = state.handle_aba_val(vote, signature_valid);
    lemma_untouched_in_order(state, handled.0, actions_of(handled.1));
}

proof fn lemma_quiet_aba_mux(state: CoreState, vote: ABAVal, signature_valid: bool)
    ensures
        hands_out_in_order(
            state,
            state.handle_aba_mux(vote, signature_valid).0,
            actions_of(state.handle_aba_mux(vote, signature_valid).1),
        ),
{
    let handled = state.handle_aba_mux(vote, signature_valid);
    lemma_untouched_in_order(state, handled.0, actions_of(handled.1));
}

proof fn lemma_quiet_sync_reply(state: CoreState, block: Block, signature_valid: bool)
    ensures
        hands_out_in_order(
            state,
            state.handle_sync_reply(block, signature_valid).0,
            actions_of(state.handle_sync_reply(block, signature_valid).1),
        ),
{
    let handled = state.handle_sync_reply(block, signature_valid);
    lemma_untouched_in_order(state, handled.0, actions_of(handled.1));
}

/// The state after a run of events, taken in order.
pub open spec fn state_after(state: CoreState, events: Seq<Event>) -> CoreState
    decreases events.len(),
{
    if events.len() == 0 {
        state
    } else {
        state_after(state, events.drop_last()).step(events.last()).0
    }
}

/// Every commit notice that the node hands to the committer during a run
/// of events, in the order in which they leave.
pub open spec fn commit_stream(state: CoreState, events: Seq<Event>) -> Seq<CommitContent>
    decreases events.len(),
{
    if events.len() == 0 {
        Seq::empty()
    } else {
        commit_stream(state, events.drop_last()) + notices(
            actions_of(state_after(state, events.drop_last()).step(events.last()).1),
        )
    }
}

/// Over any run of events the commit stream of a node carries the ranks
/// from the buffer's next rank on, one after the other without a gap; for
/// a node that starts fresh these are the ranks 0, 1, 2 and so on.
pub proof fn lemma_commit_stream_in_rank_order(state: CoreState, events: Seq<Event>)
    requires
        state.wf(),
    ensures
        state_after(state, events).wf(),
        state_after(state, events).commitor.size == state.commitor.size,
        state_after(state, events).commitor.next == state.commitor.next + commit_stream(
            state,
            events,
        ).len(),
        consecutive_from(state.commitor.size, state.commitor.next, commit_stream(state, events)),
    decreases events.len(),
{
    if events.len() > 0 {
        let earlier = events.drop_last();
        lemma_commit_stream_in_rank_order(state, earlier);
        let before = state_after(state, earlier);
        lemma_step_keeps_wf(before, events.last());
        lemma_step_hands_out_in_order(before, events.last());
        let first = commit_stream(state, earlier);
        let last = notices(actions_of(before.step(events.last()).1));
        assert forall|i: int| 0 <= i < (first + last).len() implies notice_rank(
            state.commitor.size,
            #[trigger] (first + last)[i],
        ) == state.commitor.next + i by {
            if i < first.len() {
                assert((first + last)[i] == first[i]);
            } else {
                assert((first + last)[i] == last[i - first.len()]);
            }
        }
    }
}

/// Ranks are handed to the committer in strictly increasing order over
/// the whole life of a node: of any two notices of its commit stream the
/// later one has the higher rank. So no instance is committed twice, and
/// none after one of a higher rank.
pub proof fn lemma_commit_stream_strictly_increasing(
    state: CoreState,
    events: Seq<Event>,
    earlier: int,
    later: int,
)
    requires
        state.wf(),
        0 <= earlier < later < commit_stream(state, events).len(),
    ensures
        notice_rank(state.commitor.size, commit_stream(state, events)[earlier]) < notice_rank(
            state.commitor.size,
            commit_stream(state, events)[later],
        ),
{
    lemma_commit_stream_in_rank_order(state, events);
}

/// A node that has seen nothing is in a well-formed state, with rank 0
/// next in its commit stream.
pub proof fn lemma_init_wf(name: NodeId, stakes: Seq<Stake>, parameters: Parameters, key_set: Seq<u8>)
    requires
        (name as int) < stakes.len(),
        stakes.len() <= usize::MAX,
        stake_sum(stakes) <= Stake::MAX,
        parameters.fallback < MAX_BLOCK_BUFFER,
    ensures
        CoreState::init(name, stakes, parameters, key_set).wf(),
        CoreState::init(name, stakes, parameters, key_set).commitor.next == 0,
{
}

/// The instance that a message speaks of.
pub open spec fn instance_of(message: ConsensusMessage) -> (SeqNumber, SeqNumber) {
    match message {
        ConsensusMessage::RBCValMsg(block) => (block.epoch, block.height),
        ConsensusMessage::RBCEchoMsg(vote) => (vote.epoch, vote.height),
        ConsensusMessage::RBCReadyMsg(vote) => (vote.epoch, vote.height),
        ConsensusMessage::ABAValMsg(vote) => (vote.epoch, vote.height),
        ConsensusMessage::ABAMuxMsg(vote) => (vote.epoch, vote.height),
        ConsensusMessage::ABACoinShareMsg(share) => (share.epoch, share.height),
        ConsensusMessage::ABAOutputMsg(output) => (output.epoch, output.height),
        ConsensusMessage::PrePareMsg(vote) => (vote.epoch, vote.height),
        ConsensusMessage::LoopBackMsg(block) => (block.epoch, block.height),
        ConsensusMessage::SyncRequestMsg(epoch, height, sender) => (epoch, height),
        ConsensusMessage::SyncReplyMsg(block) => (block.epoch, block.height),
    }
}

/// Whether every message that the actions send speaks of the instance
/// (epoch, height).
pub open spec fn sends_only_for(
    actions: Seq<ActionContent>,
    epoch: SeqNumber,
    height: SeqNumber,
) -> bool {
    forall|i: int|
        0 <= i < actions.len() ==> (#[trigger] actions[i] matches ActionContent::Broadcast(
            message,
        ) ==> instance_of(message) == (epoch, height))
}

/// A late message is dropped. Once the committer is done with an
/// instance, every message for it, whoever sent it and however many came
/// before, is answered without an error and without an action, and leaves
/// the state as it was. So is the mempool's answer for a block of such an
/// instance. Sync requests are served all the same.
pub proof fn lemma_late_message_is_dropped(
    state: CoreState,
    message: ConsensusMessage,
    signature_valid: bool,
    valid: bool,
)
    requires
        state.late(instance_of(message).0, instance_of(message).1),
    ensures
        !(message is SyncRequestMsg) ==> state.handle_message(message, signature_valid) == (
            state,
            Ok::<Seq<ActionContent>, ConsensusError>(Seq::<ActionContent>::empty()),
        ),
        message matches ConsensusMessage::SyncRequestMsg(epoch, height, sender)
            ==> state.handle_message(message, signature_valid) == (
            state,
            Ok::<Seq<ActionContent>, ConsensusError>(
                state.handle_sync_request(epoch, height, sender),
            ),
        ),
        message matches ConsensusMessage::RBCValMsg(block) ==> state.handle_payload_verified(
            block,
            valid,
        ) == (state, Seq::<ActionContent>::empty()),
{
}

/// A message has messages sent only for its own instance, and never for
/// an instance that the committer is done with.
pub proof fn lemma_messages_send_for_their_instance(
    state: CoreState,
    message: ConsensusMessage,
    signature_valid: bool,
)
    ensures
        ({
            let handled = state.handle_message(message, signature_valid);
            let instance = instance_of(message);
            &&& sends_only_for(actions_of(handled.1), instance.0, instance.1)
            &&& state.late(instance.0, instance.1) ==> quiet(handled.1)
        }),
{
    let handled = state.handle_message(message, signature_valid);
    let instance = instance_of(message);
    if state.height >= state.parameters.fault {
        match message {
            ConsensusMessage::RBCValMsg(block) => {},
            ConsensusMessage::LoopBackMsg(block) => {},
            ConsensusMessage::SyncReplyMsg(block) => {},
            ConsensusMessage::SyncRequestMsg(epoch, height, sender) => {},
            ConsensusMessage::RBCEchoMsg(vote) => {
                lemma_echo_sends_for_instance(state, vote, signature_valid);
            },
            ConsensusMessage::RBCReadyMsg(vote) => {
                lemma_ready_sends_for_instance(state, vote, signature_valid);
            },
            ConsensusMessage::PrePareMsg(vote) => {
                lemma_prepare_sends_for_instance(state, vote, signature_valid);
            },
            ConsensusMessage::ABAValMsg(vote) => {
                lemma_aba_val_sends_for_instance(state, vote, signature_valid);
            },
            ConsensusMessage::ABAMuxMsg(vote) => {
                lemma_aba_mux_sends_for_instance(state, vote, signature_valid);
            },
            ConsensusMessage::ABACoinShareMsg(share) => {
                lemma_share_sends_for_instance(state, share, signature_valid);
            },
            ConsensusMessage::ABAOutputMsg(output) => {
                lemma_output_sends_for_instance(state, output, signature_valid);
            },
        }
    }
}

proof fn lemma_echo_sends_for_instance(state: CoreState, vote: EchoVote, signature_valid: bool)
    ensures
        sends_only_for(
            actions_of(state.handle_rbc_echo(vote, signature_valid).1),
            vote.epoch,
            vote.height,
        ),
{
}

proof fn lemma_ready_sends_for_instance(state: CoreState, vote: ReadyVote, signature_valid: bool)
    ensures
        sends_only_for(
            actions_of(state.handle_rbc_ready(vote, signature_valid).1),
            vote.epoch,
            vote.height,
        ),
{
}

proof fn lemma_prepare_sends_for_instance(state: CoreState, vote: Prepare, signature_valid: bool)
    ensures
        sends_only_for(
            actions_of(state.handle_prepare(vote, signature_valid).1),
            vote.epoch,
            vote.height,
        ),
{
}

proof fn lemma_aba_val_sends_for_instance(state: CoreState, vote: ABAVal, signature_valid: bool)
    ensures
        sends_only_for(
            actions_of(state.handle_aba_val(vote, signature_valid).1),
            vote.epoch,
            vote.height,
        ),
{
}

proof fn lemma_aba_mux_sends_for_instance(state: CoreState, vote: ABAVal, signature_valid: bool)
    ensures
        sends_only_for(
            actions_of(state.handle_aba_mux(vote, signature_valid).1),
            vote.epoch,
            vote.height,
        ),
{
}

proof fn lemma_process_aba_output_sends_for_instance(
    state: CoreState,
    epoch: SeqNumber,
    height: SeqNumber,
    round: SeqNumber,
    val: usize,
)
    ensures
        sends_only_for(state.process_aba_output(epoch, height, round, val).1, epoch, height),
{
}

proof fn lemma_apply_coin_sends_for_instance(
    state: CoreState,
    epoch: SeqNumber,
    height: SeqNumber,
    round: SeqNumber,
    coin: usize,
)
    ensures
        sends_only_for(state.apply_coin(epoch, height, round, coin).1, epoch, height),
{
    if !state.late(epoch, height) {
        let key = (epoch, height, round);
        let flags = state.mux_flags_of(key);
        let flagged = CoreState { aba_mux_flags: state.aba_mux_flags.insert(key, flags), ..state };
        lemma_process_aba_output_sends_for_instance(flagged, epoch, height, round, coin);
    }
}

proof fn lemma_share_sends_for_instance(
    state: CoreState,
    share: RandomnessShare,
    share_valid: bool,
)
    ensures
        sends_only_for(
            actions_of(state.handle_aba_share(share, share_valid).1),
            share.epoch,
            share.height,
        ),
{
    let counted = state.aggregator.add_aba_share_coin(share, state.key_set);
    if let Ok(Some(coin)) = counted.1 {
        lemma_apply_coin_sends_for_instance(
            CoreState { aggregator: counted.0, ..state },
            share.epoch,
            share.height,
            share.round,
            coin,
        );
    }
}

proof fn lemma_output_sends_for_instance(
    state: CoreState,
    output: ABAOutput,
    signature_valid: bool,
)
    ensures
        sends_only_for(
            actions_of(state.handle_aba_output(output, signature_valid).1),
            output.epoch,
            output.height,
        ),
{
    let key = (output.epoch, output.height, output.round);
    let grown = state.outputs_seen(key).insert(output.author);
    lemma_process_aba_output_sends_for_instance(
        CoreState { aba_outputs: state.aba_outputs.insert(key, grown.insert(state.name)), ..state },
        output.epoch,
        output.height,
        output.round,
        output.val,
    );
}

/// No step changes who the node is or which committee it serves, and no
/// step lowers the rank up to which the committer is done.
pub proof fn lemma_step_keeps_bound(state: CoreState, event: Event)
    requires
        state.wf(),
    ensures
        state.step(event).0.stakes == state.stakes,
        state.step(event).0.name == state.name,
        state.cleaned matches Some(bound) ==> (state.step(event).0.cleaned matches Some(later)
            && later >= bound),
{
    lemma_step_is_monotone(state, event, (0, 0), 0, 0);
}

/// What is cleaned up stays cleaned up. After a cleanup up to
/// (epoch, height), whatever events follow, the node keeps no accumulator
/// and no table entry for an instance of that rank or below, and every
/// message for such an instance is answered without an action.
pub proof fn lemma_cleaned_stays_cleaned(
    state: CoreState,
    digests: Vec<Digest>,
    epoch: SeqNumber,
    height: SeqNumber,
    events: Seq<Event>,
    late_epoch: SeqNumber,
    late_height: SeqNumber,
)
    requires
        state.wf(),
        rank_of(state.stakes.len(), late_epoch, late_height) <= rank_of(
            state.stakes.len(),
            epoch,
            height,
        ),
    ensures
        ({
            let after = state_after(state.cleanup(digests, epoch, height).0, events);
            &&& after.wf()
            &&& after.stakes == state.stakes
            &&& after.cleaned matches Some(reached) && reached >= rank_of(
                state.stakes.len(),
                epoch,
                height,
            )
            &&& after.late(late_epoch, late_height)
            &&& !after.aggregator.holds_up_to(rank_of(state.stakes.len(), epoch, height))
            &&& forall|message: ConsensusMessage, signature_valid: bool|
                instance_of(message) == (late_epoch, late_height) && !(message is SyncRequestMsg)
                    ==> #[trigger] after.handle_message(message, signature_valid) == (
                    after,
                    Ok::<Seq<ActionContent>, ConsensusError>(Seq::<ActionContent>::empty()),
                )
        }),
    decreases events.len(),
{
    let cleaned = state.cleanup(digests, epoch, height).0;
    let bound = rank_of(state.stakes.len(), epoch, height);
    lemma_step_keeps_wf(state, Event::Committed { digests, epoch, height });
    if events.len() > 0 {
        lemma_cleaned_stays_cleaned(
            state,
            digests,
            epoch,
            height,
            events.drop_last(),
            late_epoch,
            late_height,
        );
        let before = state_after(cleaned, events.drop_last());
        lemma_step_keeps_wf(before, events.last());
        lemma_step_keeps_bound(before, events.last());
    }
    let after = state_after(cleaned, events);
    assert(after.cleaned matches Some(reached) && reached >= bound);
    assert forall|message: ConsensusMessage, signature_valid: bool|
        instance_of(message) == (late_epoch, late_height) && !(
        message is SyncRequestMsg) implies #[trigger] after.handle_message(
        message,
        signature_valid,
    ) == (after, Ok::<Seq<ActionContent>, ConsensusError>(Seq::<ActionContent>::empty())) by {
        lemma_late_message_is_dropped(after, message, signature_valid, true);
    }
}

/// After a cleanup up to (epoch, height) no message brings back a
/// broadcast for an instance of that rank or below: at every step of every
/// run that follows, each message that the handling of a message sends
/// speaks of an instance ranked above (epoch, height).
pub proof fn lemma_no_late_broadcast(
    state: CoreState,
    digests: Vec<Digest>,
    epoch: SeqNumber,
    height: SeqNumber,
    events: Seq<Event>,
    at: int,
    sent: int,
)
    requires
        state.wf(),
        0 <= at < events.len(),
        events[at] is Message,
        0 <= sent < actions_of(
            state_after(state.cleanup(digests, epoch, height).0, events.take(at)).step(
                events[at],
            ).1,
        ).len(),
    ensures
        ({
            let before = state_after(state.cleanup(digests, epoch, height).0, events.take(at));
            let action = actions_of(before.step(events[at]).1)[sent];
            action matches ActionContent::Broadcast(message) ==> rank_of(
                state.stakes.len(),
                instance_of(message).0,
                instance_of(message).1,
            ) > rank_of(state.stakes.len(), epoch, height)
        }),
{
    let before = state_after(state.cleanup(digests, epoch, height).0, events.take(at));
    lemma_cleaned_stays_cleaned(state, digests, epoch, height, events.take(at), epoch, height);
    let message = events[at]->message;
    let signature_valid = events[at]->signature_valid;
    lemma_messages_send_for_their_instance(before, message, signature_valid);
    let actions = actions_of(before.step(events[at]).1);
    assert(actions[sent] is Broadcast ==> instance_of(actions[sent]->Broadcast_0) == instance_of(
        message,
    ));
}

} // verus!
