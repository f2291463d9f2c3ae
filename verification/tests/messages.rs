use consensus::config::Committee;
use consensus::error::ConsensusError;
use consensus::messages::{
    no_signature, ABAOutput, ABAVal, Block, EchoVote, Prepare, RandomnessShare, ReadyVote,
    MUX_PHASE, OPT, PES, PRE_ONE, PRE_TWO, RBC_ECHO, RBC_READY, VAL_PHASE,
};

fn committee() -> Committee {
    Committee::new(vec![1, 1, 1, 1]).unwrap()
}

fn block(author: u64, height: u64) -> Block {
    Block {
        author,
        epoch: 3,
        height,
        payload: vec![[7u8; 32]],
        digest: [9u8; 32],
        signature: [1u8; 64],
    }
}

#[test]
fn constants_keep_their_wire_values() {
    assert_eq!(RBC_ECHO, 0);
    assert_eq!(RBC_READY, 1);
    assert_eq!(PRE_ONE, 0);
    assert_eq!(PRE_TWO, 1);
    assert_eq!(VAL_PHASE, 0);
    assert_eq!(MUX_PHASE, 1);
    assert_eq!(OPT, 1);
    assert_eq!(PES, 0);
}

#[test]
fn an_unsigned_message_has_a_zero_signature() {
    assert_eq!(no_signature(), [0u8; 64]);
    let vote = EchoVote::new(2, 5, 1, [3u8; 32]);
    assert_eq!(
        vote,
        EchoVote { author: 2, epoch: 5, height: 1, digest: [3u8; 32], signature: [0u8; 64] }
    );
    let vote = ReadyVote::new(2, 5, 1, [3u8; 32]);
    assert_eq!(
        vote,
        ReadyVote { author: 2, epoch: 5, height: 1, digest: [3u8; 32], signature: [0u8; 64] }
    );
    let vote = Prepare::new(1, 2, 3, PRE_TWO, OPT);
    assert_eq!(
        vote,
        Prepare { author: 1, epoch: 2, height: 3, phase: 1, val: 1, signature: [0u8; 64] }
    );
    let vote = ABAVal::new(1, 2, 3, 4, 1, MUX_PHASE);
    assert_eq!(
        vote,
        ABAVal { author: 1, epoch: 2, height: 3, round: 4, val: 1, phase: 1, signature: [0u8; 64] }
    );
    let output = ABAOutput::new(1, 2, 3, 4, 0);
    assert_eq!(
        output,
        ABAOutput { author: 1, epoch: 2, height: 3, round: 4, val: 0, signature: [0u8; 64] }
    );
}

#[test]
fn a_block_of_a_member_at_its_own_height_is_admitted() {
    assert_eq!(block(2, 2).verify(&committee(), true), Ok(()));
}

#[test]
fn a_block_of_a_stranger_is_unknown_authority() {
    assert_eq!(block(4, 4).verify(&committee(), true), Err(ConsensusError::UnknownAuthority(4)));
}

#[test]
fn a_block_at_another_height_is_malformed() {
    assert_eq!(block(2, 1).verify(&committee(), true), Err(ConsensusError::MalformedMessage));
}

#[test]
fn a_block_with_a_bad_signature_is_rejected() {
    assert_eq!(block(2, 2).verify(&committee(), false), Err(ConsensusError::InvalidSignature));
}

#[test]
fn unknown_authority_comes_before_the_other_errors() {
    assert_eq!(block(9, 1).verify(&committee(), false), Err(ConsensusError::UnknownAuthority(9)));
    let vote = Prepare { author: 9, epoch: 0, height: 0, phase: 7, val: 7, signature: [0u8; 64] };
    assert_eq!(vote.verify(&committee(), false), Err(ConsensusError::UnknownAuthority(9)));
}

#[test]
fn malformed_comes_before_the_signature() {
    assert_eq!(block(2, 1).verify(&committee(), false), Err(ConsensusError::MalformedMessage));
}

#[test]
fn a_member_without_stake_is_unknown() {
    let committee = Committee::new(vec![1, 0, 1]).unwrap();
    let vote = EchoVote::new(1, 0, 0, [0u8; 32]);
    assert_eq!(vote.verify(&committee, true), Err(ConsensusError::UnknownAuthority(1)));
}

#[test]
fn votes_are_admitted_on_stake_and_signature() {
    let echo = EchoVote::new(1, 0, 0, [0u8; 32]);
    assert_eq!(echo.verify(&committee(), true), Ok(()));
    assert_eq!(echo.verify(&committee(), false), Err(ConsensusError::InvalidSignature));
    let ready = ReadyVote::new(1, 0, 0, [0u8; 32]);
    assert_eq!(ready.verify(&committee(), true), Ok(()));
    assert_eq!(ready.verify(&committee(), false), Err(ConsensusError::InvalidSignature));
    let ready = ReadyVote::new(5, 0, 0, [0u8; 32]);
    assert_eq!(ready.verify(&committee(), true), Err(ConsensusError::UnknownAuthority(5)));
}

#[test]
fn a_prepare_vote_needs_a_known_phase_and_value() {
    assert_eq!(Prepare::new(0, 0, 0, PRE_ONE, OPT).verify(&committee(), true), Ok(()));
    assert_eq!(Prepare::new(0, 0, 0, PRE_TWO, PES).verify(&committee(), true), Ok(()));
    assert_eq!(
        Prepare::new(0, 0, 0, 2, OPT).verify(&committee(), true),
        Err(ConsensusError::MalformedMessage)
    );
    assert_eq!(
        Prepare::new(0, 0, 0, PRE_ONE, 2).verify(&committee(), true),
        Err(ConsensusError::MalformedMessage)
    );
}

#[test]
fn an_agreement_vote_needs_a_bit_and_a_known_phase() {
    assert_eq!(ABAVal::new(0, 0, 0, 0, 1, VAL_PHASE).verify(&committee(), true), Ok(()));
    assert_eq!(ABAVal::new(0, 0, 0, 0, 0, MUX_PHASE).verify(&committee(), true), Ok(()));
    assert_eq!(
        ABAVal::new(0, 0, 0, 0, 2, VAL_PHASE).verify(&committee(), true),
        Err(ConsensusError::MalformedMessage)
    );
    assert_eq!(
        ABAVal::new(0, 0, 0, 0, 1, 2).verify(&committee(), true),
        Err(ConsensusError::MalformedMessage)
    );
    assert_eq!(
        ABAVal::new(0, 0, 0, 0, 1, VAL_PHASE).verify(&committee(), false),
        Err(ConsensusError::InvalidSignature)
    );
}

#[test]
fn an_output_needs_a_bit() {
    assert_eq!(ABAOutput::new(3, 0, 0, 0, 1).verify(&committee(), true), Ok(()));
    assert_eq!(
        ABAOutput::new(3, 0, 0, 0, 2).verify(&committee(), true),
        Err(ConsensusError::MalformedMessage)
    );
    assert_eq!(
        ABAOutput::new(4, 0, 0, 0, 1).verify(&committee(), true),
        Err(ConsensusError::UnknownAuthority(4))
    );
}

#[test]
fn a_coin_share_is_admitted_on_stake_and_share() {
    let share =
        RandomnessShare { epoch: 0, height: 0, round: 0, author: 1, signature_share: [0u8; 96] };
    assert_eq!(share.verify(&committee(), true), Ok(()));
    assert_eq!(share.verify(&committee(), false), Err(ConsensusError::InvalidThresholdShare(1)));
    let share =
        RandomnessShare { epoch: 0, height: 0, round: 0, author: 7, signature_share: [0u8; 96] };
    assert_eq!(share.verify(&committee(), true), Err(ConsensusError::UnknownAuthority(7)));
}
