//! Reasons for which the engine discards a message.

use crate::config::NodeId;
use vstd::prelude::*;

verus! {

/// Why a message was not applied. Every error is local to one message: the
/// state is left as it was and the engine goes on.
#[derive(Clone, Copy, Debug, PartialEq, Eq, Structural)]
pub enum ConsensusError {
    /// The author already has a vote in this broadcast quorum.
    AuthorityReuseinRBCVote(NodeId),
    /// The author already has a vote in this prepare phase.
    AuthorityReuseinPrepare(NodeId),
    /// The author already gave a share for this coin.
    AuthorityReuseinCoin(NodeId),
    /// The author holds no stake in the committee.
    UnknownAuthority(NodeId),
    /// A field holds a value outside its range, or contradicts another.
    MalformedMessage,
    /// The signature does not match the author and the content.
    InvalidSignature,
    /// The coin share does not match the author's key share.
    InvalidThresholdShare(NodeId),
}

pub type ConsensusResult<T> = Result<T, ConsensusError>;

} // verus!
