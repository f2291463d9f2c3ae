//! The two fast paths of an instance, as one node walks them: committed
//! when every vote it counts is optimistic, excluded when every vote it
//! counts is pessimistic. Neither path opens binary agreement.

use crate::aggregator::AggregatorState;
use crate::commitor::CommitContent;
use crate::config::{rank_of, NodeId, Parameters, SeqNumber, Stake};
use crate::commitor::sealed_run;
use crate::laws::{actions_of, lemma_notices_all, lemma_step_keeps_wf, notices, state_after};
use crate::messages::{ConsensusMessage, Prepare, OPT, PES, PRE_ONE, PRE_TWO};
use crate::state::{prepare_of, ActionContent, CoreState, Event};
use vstd::prelude::*;

verus! {

/// Whether an action sends a message of binary agreement.
pub open spec fn opens_agreement(action: ActionContent) -> bool {
    action matches ActionContent::Broadcast(message) && (message is ABAValMsg
        || message is ABAMuxMsg || message is ABACoinShareMsg || message is ABAOutputMsg)
}

/// Whether an action sends a prepare vote other than an optimistic vote of
/// the first phase.
pub open spec fn casts_doubt(action: ActionContent) -> bool {
    action matches ActionContent::Broadcast(ConsensusMessage::PrePareMsg(vote)) && (vote.phase
        != PRE_ONE || vote.val != OPT)
}

/// Whether a list of actions opens no agreement and casts no doubt.
pub open spec fn calm(actions: Seq<ActionContent>) -> bool {
    forall|i: int|
        0 <= i < actions.len() ==> !opens_agreement(#[trigger] actions[i]) && !casts_doubt(
            actions[i],
        )
}

/// A node that has counted no pessimistic vote and seen no second phase.
pub open spec fn optimistic(state: CoreState) -> bool {
    forall|k: (SeqNumber, SeqNumber, u8)| #[trigger]
        state.aggregator.prepare.contains_key(k) ==> k.2 == PRE_ONE
            && state.aggregator.prepare[k].pesnum == 0
}

/// An event of the happy path: no message of binary agreement, no prepare
/// vote but an optimistic one of the first phase, and no delivery so late
/// that the fallback, with this window, would fire.
pub open spec fn optimistic_event(window: SeqNumber, event: Event) -> bool {
    match event {
        Event::Message { message, signature_valid } => {
            &&& !(message is ABAValMsg)
            &&& !(message is ABAMuxMsg)
            &&& !(message is ABACoinShareMsg)
            &&& !(message is ABAOutputMsg)
            &&& (message matches ConsensusMessage::PrePareMsg(vote) ==> vote.phase == PRE_ONE
                && vote.val == OPT)
        },
        Event::BlockFetched(block) => block.epoch < window,
        _ => true,
    }
}

proof fn lemma_optimistic_prepare(state: CoreState, vote: Prepare, signature_valid: bool)
    requires
        optimistic(state),
        vote.phase == PRE_ONE,
        vote.val == OPT,
    ensures
        optimistic(state.handle_prepare(vote, signature_valid).0),
        calm(actions_of(state.handle_prepare(vote, signature_valid).1)),
        state.handle_prepare(vote, signature_valid).0.commitor == state.commitor,
        state.handle_prepare(vote, signature_valid).0.fallback == state.fallback,
{
    let key = (vote.epoch, vote.height, vote.phase);
    let counted = state.aggregator.add_prepare_vote(vote);
    assert(state.aggregator.prepare_maker(key).pesnum == 0);
    let next = state.handle_prepare(vote, signature_valid).0;
    assert forall|k: (SeqNumber, SeqNumber, u8)| #[trigger]
        next.aggregator.prepare.contains_key(k) implies k.2 == PRE_ONE
        && next.aggregator.prepare[k].pesnum == 0 by {
        if k != key {
            assert(state.aggregator.prepare.contains_key(k));
        }
    }
}

proof fn lemma_optimistic_quiet(state: CoreState, event: Event)
    requires
        optimistic(state),
        optimistic_event(state.fallback, event),
        !(event matches Event::Message { message, .. } && message is PrePareMsg && state.height
            >= state.parameters.fault),
        !(event is Committed),
    ensures
        state.step(event).0.aggregator.prepare == state.aggregator.prepare,
        calm(actions_of(state.step(event).1)),
        state.step(event).0.fallback == state.fallback,
        state.step(event).0.commitor == state.commitor || (event matches Event::BlockFetched(
            block,
        ) && state.step(event).0.commitor == state.commitor.buffer_block(block).0),
{
}

/// One step along the happy path. A node that has counted no pessimistic
/// vote, and takes an event of the happy path, opens no agreement and
/// casts no doubt: it sends no message of binary agreement and no prepare
/// vote but optimistic ones of the first phase. It excludes nothing: its
/// commit buffer changes only by taking a delivered block. And it is again
/// a node that has counted no pessimistic vote.
pub proof fn lemma_happy_step(state: CoreState, event: Event)
    requires
        state.wf(),
        optimistic(state),
        optimistic_event(state.fallback, event),
    ensures
        optimistic(state.step(event).0),
        calm(actions_of(state.step(event).1)),
        state.step(event).0.fallback == state.fallback,
        state.step(event).0.commitor == state.commitor || (event matches Event::BlockFetched(
            block,
        ) && state.step(event).0.commitor == state.commitor.buffer_block(block).0),
{
    match event {
        Event::Committed { digests, epoch, height } => {
            let next = state.step(event).0;
            assert forall|k: (SeqNumber, SeqNumber, u8)| #[trigger]
                next.aggregator.prepare.contains_key(k) implies k.2 == PRE_ONE
                && next.aggregator.prepare[k].pesnum == 0 by {
                assert(state.aggregator.prepare.contains_key(k));
            }
        },
        Event::Message { message, signature_valid } => {
            if message is PrePareMsg && state.height >= state.parameters.fault {
                lemma_optimistic_prepare(state, message->PrePareMsg_0, signature_valid);
            } else {
                lemma_optimistic_quiet(state, event);
            }
        },
        _ => {
            lemma_optimistic_quiet(state, event);
        },
    }
}

/// The happy path over a whole run. A node that starts without a
/// pessimistic vote and takes only events of the happy path never opens
/// agreement and never casts doubt, at any step of the run.
pub proof fn lemma_happy_run(state: CoreState, events: Seq<Event>, at: int)
    requires
        state.wf(),
        optimistic(state),
        forall|i: int| 0 <= i < events.len() ==> optimistic_event(state.fallback, #[trigger] events[i]),
        0 <= at < events.len(),
    ensures
        optimistic(state_after(state, events)),
        state_after(state, events).fallback == state.fallback,
        calm(actions_of(state_after(state, events.take(at)).step(events[at]).1)),
    decreases events.len(),
{
    let earlier = events.drop_last();
    let last = events.len() - 1;
    if last > 0 {
        lemma_happy_run(state, earlier, if at < last { at } else { 0 });
        if at < last {
            assert(earlier.take(at) == events.take(at));
            assert(earlier[at] == events[at]);
        }
    }
    lemma_states_stay_wf(state, earlier);
    lemma_happy_prefix(state, earlier);
    lemma_happy_step(state_after(state, earlier), events[last]);
    assert(events.take(last) == earlier);
}

/// Every state of a run is well formed.
proof fn lemma_states_stay_wf(state: CoreState, events: Seq<Event>)
    requires
        state.wf(),
    ensures
        state_after(state, events).wf(),
    decreases events.len(),
{
    if events.len() > 0 {
        lemma_states_stay_wf(state, events.drop_last());
        lemma_step_keeps_wf(state_after(state, events.drop_last()), events.last());
    }
}

/// Along the happy path the node stays without a pessimistic vote.
proof fn lemma_happy_prefix(state: CoreState, events: Seq<Event>)
    requires
        state.wf(),
        optimistic(state),
        forall|i: int| 0 <= i < events.len() ==> optimistic_event(state.fallback, #[trigger] events[i]),
    ensures
        optimistic(state_after(state, events)),
        state_after(state, events).fallback == state.fallback,
    decreases events.len(),
{
    if events.len() > 0 {
        let earlier = events.drop_last();
        assert forall|i: int| 0 <= i < earlier.len() implies optimistic_event(
            state.fallback,
            #[trigger] earlier[i],
        ) by {
            assert(earlier[i] == events[i]);
        }
        lemma_happy_prefix(state, earlier);
        lemma_states_stay_wf(state, earlier);
        lemma_happy_step(state_after(state, earlier), events.last());
    }
}

/// A node that has seen nothing has counted no pessimistic vote, and no
/// optimistic vote for any instance either.
pub proof fn lemma_fresh_node(
    name: NodeId,
    stakes: Seq<Stake>,
    parameters: Parameters,
    key_set: Seq<u8>,
    epoch: SeqNumber,
    height: SeqNumber,
)
    ensures
        optimistic(CoreState::init(name, stakes, parameters, key_set)),
        unwanted(CoreState::init(name, stakes, parameters, key_set).aggregator, epoch, height),
{
}

/// A node that has counted no optimistic vote for an instance, in either
/// phase.
pub open spec fn unwanted(aggregator: AggregatorState, epoch: SeqNumber, height: SeqNumber) -> bool {
    &&& aggregator.prepare_maker((epoch, height, PRE_ONE)).optnum == 0
    &&& aggregator.prepare_maker((epoch, height, PRE_TWO)).optnum == 0
}

/// One step along the path of a straggler. While a node has counted only
/// pessimistic votes for an instance, a further pessimistic vote for it
/// does one of three things. Short of the quorum it asks for nothing. At
/// the quorum of the first phase it sends the pessimistic vote of the
/// second phase. At the quorum of the second phase it excludes the
/// instance, and if the instance is next in line the empty notice for it
/// is the first thing handed to the committer. Binary agreement is never
/// opened, and no block is asked for.
pub proof fn lemma_straggler_step(state: CoreState, vote: Prepare, signature_valid: bool)
    requires
        state.wf(),
        unwanted(state.aggregator, vote.epoch, vote.height),
        vote.val == PES,
        !state.late(vote.epoch, vote.height),
    ensures
        ({
            let handled = state.handle_prepare(vote, signature_valid);
            let counted = state.aggregator.add_prepare_vote(vote);
            let voted = CoreState { aggregator: counted.0, ..state };
            &&& unwanted(handled.0.aggregator, vote.epoch, vote.height)
            &&& handled.1 matches Ok(actions) ==> {
                ||| handled.0 == voted && actions == Seq::<ActionContent>::empty()
                ||| vote.phase == PRE_ONE && handled.0 == voted && actions == seq![
                    prepare_of(state.name, vote.epoch, vote.height, PRE_TWO, PES),
                ]
                ||| vote.phase == PRE_TWO && (handled.0, actions) == voted.exclude(
                    vote.epoch,
                    vote.height,
                )
            }
            &&& (handled.1 is Ok && counted.1 is Ok && counted.1->Ok_0 is Some && vote.phase
                == PRE_TWO && vote.height < state.stakes.len() && rank_of(
                state.stakes.len(),
                vote.epoch,
                vote.height,
            ) == state.commitor.next && state.commitor.window[0] is None) ==> {
                &&& notices(handled.1->Ok_0).len() > 0
                &&& notices(handled.1->Ok_0)[0] == (CommitContent {
                    digests: Seq::empty(),
                    epoch: vote.epoch,
                    height: vote.height,
                })
            }
        }),
{
    let handled = state.handle_prepare(vote, signature_valid);
    let counted = state.aggregator.add_prepare_vote(vote);
    let voted = CoreState { aggregator: counted.0, ..state };
    if handled.1 is Ok && counted.1 is Ok && counted.1->Ok_0 is Some && vote.phase == PRE_TWO
        && vote.height < state.stakes.len() && rank_of(
        state.stakes.len(),
        vote.epoch,
        vote.height,
    ) == state.commitor.next && state.commitor.window[0] is None {
        let content = CommitContent {
            digests: Seq::empty(),
            epoch: vote.epoch,
            height: vote.height,
        };
        let sealed = voted.commitor.seal(content);
        assert(sealed.window[0] == Some(content));
        assert(sealed_run(sealed.window) >= 1);
        lemma_notices_all(sealed.due());
    }
}

} // verus!
