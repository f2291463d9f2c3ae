//! The messages of the protocol and the rules by which one is admitted.
//!
//! Hashing and signature checks happen where messages enter and leave the
//! node. A message built here is unsigned; a message handed in comes with the
//! outcome of its signature check.

use crate::config::{member_stake, Committee, NodeId, SeqNumber, Stake};
use crate::error::{ConsensusError, ConsensusResult};
use vstd::prelude::*;

verus! {

/// Tag of a proof assembled from echo votes.
pub const RBC_ECHO: u8 = 0;

/// Tag of a proof assembled from ready votes.
pub const RBC_READY: u8 = 1;

/// First prepare phase: can the block be committed at once?
pub const PRE_ONE: u8 = 0;

/// Second prepare phase: can the block be excluded at once?
pub const PRE_TWO: u8 = 1;

/// Value sub-phase of an agreement round.
pub const VAL_PHASE: u8 = 0;

/// Mux sub-phase of an agreement round.
pub const MUX_PHASE: u8 = 1;

/// The optimistic value: commit the block.
pub const OPT: u8 = 1;

/// The pessimistic value: exclude the block.
pub const PES: u8 = 0;

/// Hash of a block or of a payload batch.
pub type Digest = [u8; 32];

/// Signature of one member over a digest.
pub type Signature = [u8; 64];

/// One member's share of the threshold signature behind a common coin.
pub type SignatureShare = [u8; 96];

/// The signature field of a message that has not been signed yet: all zero.
pub closed spec fn unsigned() -> Signature {
    choose|signature: Signature| signature@ == Seq::new(64, |i: int| 0u8)
}

/// The signature field of a message that has not been signed yet.
pub fn no_signature() -> (signature: Signature)
    ensures
        signature == unsigned(),
        forall|i: int| 0 <= i < 64 ==> signature[i] == 0,
{
    let signature: Signature = [0u8; 64];
    proof {
        assert(signature@ =~= Seq::new(64, |i: int| 0u8));
        assert(unsigned()@ == Seq::new(64, |i: int| 0u8));
        assert(signature =~= unsigned());
    }
    signature
}

/// The verdict on a message: its author must hold stake, its fields must
/// be in range, and its signature must have checked out, in that order.
pub open spec fn admission(
    stakes: Seq<Stake>,
    author: NodeId,
    well_formed: bool,
    signature_valid: bool,
) -> ConsensusResult<()> {
    if member_stake(stakes, author) == 0 {
        Err(ConsensusError::UnknownAuthority(author))
    } else if !well_formed {
        Err(ConsensusError::MalformedMessage)
    } else if !signature_valid {
        Err(ConsensusError::InvalidSignature)
    } else {
        Ok(())
    }
}

/// Applies the admission rule.
fn screen(committee: &Committee, author: NodeId, well_formed: bool, signature_valid: bool) -> (verdict:
    ConsensusResult<()>)
    ensures
        verdict == admission(committee@, author, well_formed, signature_valid),
{
    if committee.stake(author) == 0 {
        Err(ConsensusError::UnknownAuthority(author))
    } else if !well_formed {
        Err(ConsensusError::MalformedMessage)
    } else if !signature_valid {
        Err(ConsensusError::InvalidSignature)
    } else {
        Ok(())
    }
}

/// A block proposed by `author` for `epoch`, at the height that is the
/// author's index.
#[derive(Clone, Debug, PartialEq, Eq)]
pub struct Block {
    pub author: NodeId,
    pub epoch: SeqNumber,
    pub height: SeqNumber,
    /// Digests of the payload batches, as the mempool names them.
    pub payload: Vec<Digest>,
    /// Hash of the fields above.
    pub digest: Digest,
    pub signature: Signature,
}

impl Block {
    /// A block stands at the height of its author.
    pub open spec fn well_formed(&self) -> bool {
        self.height == self.author
    }

    /// Admits or rejects the block.
    pub fn verify(&self, committee: &Committee, signature_valid: bool) -> (verdict: ConsensusResult<
        (),
    >)
        ensures
            verdict == admission(committee@, self.author, self.well_formed(), signature_valid),
    {
        screen(committee, self.author, self.height == self.author, signature_valid)
    }
}

/// "I have seen the block with this digest at (epoch, height)."
#[derive(Clone, Copy, Debug, PartialEq, Eq)]
pub struct EchoVote {
    pub author: NodeId,
    pub epoch: SeqNumber,
    pub height: SeqNumber,
    pub digest: Digest,
    pub signature: Signature,
}

impl EchoVote {
    /// An unsigned echo vote.
    pub fn new(author: NodeId, epoch: SeqNumber, height: SeqNumber, digest: Digest) -> (vote: Self)
        ensures
            vote == (EchoVote { author, epoch, height, digest, signature: unsigned() }),
    {
        EchoVote { author, epoch, height, digest, signature: no_signature() }
    }

    /// Admits or rejects the vote.
    pub fn verify(&self, committee: &Committee, signature_valid: bool) -> (verdict: ConsensusResult<
        (),
    >)
        ensures
            verdict == admission(committee@, self.author, true, signature_valid),
    {
        screen(committee, self.author, true, signature_valid)
    }
}

/// "I am ready to deliver the block with this digest at (epoch, height)."
#[derive(Clone, Copy, Debug, PartialEq, Eq)]
pub struct ReadyVote {
    pub author: NodeId,
    pub epoch: SeqNumber,
    pub height: SeqNumber,
    pub digest: Digest,
    pub signature: Signature,
}

impl ReadyVote {
    /// An unsigned ready vote.
    pub fn new(author: NodeId, epoch: SeqNumber, height: SeqNumber, digest: Digest) -> (vote: Self)
        ensures
            vote == (ReadyVote { author, epoch, height, digest, signature: unsigned() }),
    {
        ReadyVote { author, epoch, height, digest, signature: no_signature() }
    }

    /// Admits or rejects the vote.
    pub fn verify(&self, committee: &Committee, signature_valid: bool) -> (verdict: ConsensusResult<
        (),
    >)
        ensures
            verdict == admission(committee@, self.author, true, signature_valid),
    {
        screen(committee, self.author, true, signature_valid)
    }
}

/// The votes that carried a broadcast instance over a threshold.
#[derive(Clone, Debug, PartialEq, Eq)]
pub struct RBCProof {
    pub epoch: SeqNumber,
    pub height: SeqNumber,
    pub votes: Vec<(NodeId, Signature)>,
    pub tag: u8,
}

/// What a proof says, apart from where its votes are stored.
pub struct ProofContent {
    pub epoch: SeqNumber,
    pub height: SeqNumber,
    pub votes: Seq<(NodeId, Signature)>,
    pub tag: u8,
}

impl RBCProof {
    /// The content of the proof.
    pub open spec fn view(&self) -> ProofContent {
        ProofContent { epoch: self.epoch, height: self.height, votes: self.votes@, tag: self.tag }
    }

    /// Puts a proof together.
    pub fn new(epoch: SeqNumber, height: SeqNumber, votes: Vec<(NodeId, Signature)>, tag: u8) -> (proof:
        Self)
        ensures
            proof == (RBCProof { epoch, height, votes, tag }),
    {
        RBCProof { epoch, height, votes, tag }
    }
}

/// A vote of the prepare classifier.
#[derive(Clone, Copy, Debug, PartialEq, Eq)]
pub struct Prepare {
    pub author: NodeId,
    pub epoch: SeqNumber,
    pub height: SeqNumber,
    pub phase: u8,
    pub val: u8,
    pub signature: Signature,
}

impl Prepare {
    /// Phase and value are each one of their two constants.
    pub open spec fn well_formed(&self) -> bool {
        (self.phase == PRE_ONE || self.phase == PRE_TWO) && (self.val == OPT || self.val == PES)
    }

    /// An unsigned prepare vote.
    pub fn new(author: NodeId, epoch: SeqNumber, height: SeqNumber, phase: u8, val: u8) -> (vote:
        Self)
        ensures
            vote == (Prepare { author, epoch, height, phase, val, signature: unsigned() }),
    {
        Prepare { author, epoch, height, phase, val, signature: no_signature() }
    }

    /// Admits or rejects the vote.
    pub fn verify(&self, committee: &Committee, signature_valid: bool) -> (verdict: ConsensusResult<
        (),
    >)
        ensures
            verdict == admission(committee@, self.author, self.well_formed(), signature_valid),
    {
        let well_formed = (self.phase == PRE_ONE || self.phase == PRE_TWO) && (self.val == OPT
            || self.val == PES);
        screen(committee, self.author, well_formed, signature_valid)
    }
}

/// A vote of a binary agreement round, in its value or its mux sub-phase.
#[derive(Clone, Copy, Debug, PartialEq, Eq)]
pub struct ABAVal {
    pub author: NodeId,
    pub epoch: SeqNumber,
    pub height: SeqNumber,
    pub round: SeqNumber,
    pub val: usize,
    pub phase: u8,
    pub signature: Signature,
}

impl ABAVal {
    /// The value is a bit and the phase one of its two constants.
    pub open spec fn well_formed(&self) -> bool {
        self.val < 2 && (self.phase == VAL_PHASE || self.phase == MUX_PHASE)
    }

    /// An unsigned agreement vote.
    pub fn new(
        author: NodeId,
        epoch: SeqNumber,
        height: SeqNumber,
        round: SeqNumber,
        val: usize,
        phase: u8,
    ) -> (vote: Self)
        ensures
            vote == (ABAVal { author, epoch, height, round, val, phase, signature: unsigned() }),
    {
        ABAVal { author, epoch, height, round, val, phase, signature: no_signature() }
    }

    /// Admits or rejects the vote.
    pub fn verify(&self, committee: &Committee, signature_valid: bool) -> (verdict: ConsensusResult<
        (),
    >)
        ensures
            verdict == admission(committee@, self.author, self.well_formed(), signature_valid),
    {
        let well_formed = self.val < 2 && (self.phase == VAL_PHASE || self.phase == MUX_PHASE);
        screen(committee, self.author, well_formed, signature_valid)
    }
}

/// One member's share of the coin of (epoch, height, round).
#[derive(Clone, Copy, Debug, PartialEq, Eq)]
pub struct RandomnessShare {
    pub epoch: SeqNumber,
    pub height: SeqNumber,
    pub round: SeqNumber,
    pub author: NodeId,
    pub signature_share: SignatureShare,
}

/// The verdict on a coin share: its author must hold stake and the share
/// must have checked out against the author's key share.
pub open spec fn share_admission(stakes: Seq<Stake>, author: NodeId, share_valid: bool)
    -> ConsensusResult<()> {
    if member_stake(stakes, author) == 0 {
        Err(ConsensusError::UnknownAuthority(author))
    } else if !share_valid {
        Err(ConsensusError::InvalidThresholdShare(author))
    } else {
        Ok(())
    }
}

impl RandomnessShare {
    /// Admits or rejects the share.
    pub fn verify(&self, committee: &Committee, share_valid: bool) -> (verdict: ConsensusResult<()>)
        ensures
            verdict == share_admission(committee@, self.author, share_valid),
    {
        if committee.stake(self.author) == 0 {
            Err(ConsensusError::UnknownAuthority(self.author))
        } else if !share_valid {
            Err(ConsensusError::InvalidThresholdShare(self.author))
        } else {
            Ok(())
        }
    }
}

/// "Agreement on (epoch, height) ended in `round` with `val`."
#[derive(Clone, Copy, Debug, PartialEq, Eq)]
pub struct ABAOutput {
    pub author: NodeId,
    pub epoch: SeqNumber,
    pub height: SeqNumber,
    pub round: SeqNumber,
    pub val: usize,
    pub signature: Signature,
}

impl ABAOutput {
    /// The value is a bit.
    pub open spec fn well_formed(&self) -> bool {
        self.val < 2
    }

    /// An unsigned output.
    pub fn new(author: NodeId, epoch: SeqNumber, height: SeqNumber, round: SeqNumber, val: usize) -> (output:
        Self)
        ensures
            output == (ABAOutput { author, epoch, height, round, val, signature: unsigned() }),
    {
        ABAOutput { author, epoch, height, round, val, signature: no_signature() }
    }

    /// Admits or rejects the output.
    pub fn verify(&self, committee: &Committee, signature_valid: bool) -> (verdict: ConsensusResult<
        (),
    >)
        ensures
            verdict == admission(committee@, self.author, self.well_formed(), signature_valid),
    {
        screen(committee, self.author, self.val < 2, signature_valid)
    }
}

/// Everything that one node can send to another.
#[derive(Clone, Debug, PartialEq, Eq)]
pub enum ConsensusMessage {
    RBCValMsg(Block),
    RBCEchoMsg(EchoVote),
    RBCReadyMsg(ReadyVote),
    ABAValMsg(ABAVal),
    ABAMuxMsg(ABAVal),
    ABACoinShareMsg(RandomnessShare),
    ABAOutputMsg(ABAOutput),
    PrePareMsg(Prepare),
    LoopBackMsg(Block),
    SyncRequestMsg(SeqNumber, SeqNumber, NodeId),
    SyncReplyMsg(Block),
}

} // verus!
