use consensus::aggregator::{Aggregator, PrepareMaker, RBCProofMaker, RandomCoinMaker};
use consensus::coin::{coin_of_signature, is_empty_key_set};
use consensus::config::Committee;
use consensus::error::ConsensusError;
use consensus::messages::{
    EchoVote, Prepare, RBCProof, RandomnessShare, ReadyVote, OPT, PES, PRE_ONE, PRE_TWO,
    RBC_ECHO, RBC_READY,
};
use rand::rngs::StdRng;
use rand::SeedableRng;
use std::collections::BTreeMap;
use threshold_crypto::{SecretKeySet, SignatureShare};

fn four() -> Committee {
    Committee::new(vec![1, 1, 1, 1]).unwrap()
}

fn sig(author: u64) -> [u8; 64] {
    [author as u8 + 1; 64]
}

fn echo(author: u64, epoch: u64, height: u64) -> EchoVote {
    EchoVote { author, epoch, height, digest: [5u8; 32], signature: sig(author) }
}

fn ready(author: u64, epoch: u64, height: u64) -> ReadyVote {
    ReadyVote { author, epoch, height, digest: [5u8; 32], signature: sig(author) }
}

fn prepare(author: u64, epoch: u64, height: u64, phase: u8, val: u8) -> Prepare {
    Prepare { author, epoch, height, phase, val, signature: sig(author) }
}

fn key_set(threshold: usize, seed: u64) -> SecretKeySet {
    let mut rng = StdRng::seed_from_u64(seed);
    SecretKeySet::random(threshold, &mut rng)
}

fn coin_message(epoch: u64, height: u64, round: u64) -> Vec<u8> {
    let mut message = Vec::new();
    message.extend_from_slice(&epoch.to_le_bytes());
    message.extend_from_slice(&height.to_le_bytes());
    message.extend_from_slice(&round.to_le_bytes());
    message
}

fn share(keys: &SecretKeySet, author: u64, epoch: u64, height: u64, round: u64) -> RandomnessShare {
    let signed = keys.secret_key_share(author).sign(coin_message(epoch, height, round));
    RandomnessShare { epoch, height, round, author, signature_share: signed.to_bytes() }
}

fn expected_coin(keys: &SecretKeySet, authors: &[u64], epoch: u64, height: u64, round: u64) -> usize {
    let mut shares: BTreeMap<u64, SignatureShare> = BTreeMap::new();
    for author in authors {
        shares
            .insert(*author, keys.secret_key_share(*author).sign(coin_message(epoch, height, round)));
    }
    let combined = keys.public_keys().combine_signatures(shares.iter()).unwrap();
    let bytes = combined.to_bytes();
    let mut window = [0u8; 8];
    window.copy_from_slice(&bytes[0..8]);
    (u64::from_be_bytes(window) % 2) as usize
}

#[test]
fn an_echo_proof_comes_at_the_quorum_and_only_then() {
    let committee = four();
    let mut maker = RBCProofMaker::new();
    assert_eq!(maker.append(0, 1, 0, RBC_ECHO, sig(0), &committee), Ok(None));
    assert_eq!(maker.append(0, 1, 1, RBC_ECHO, sig(1), &committee), Ok(None));
    let third = maker.append(0, 1, 2, RBC_ECHO, sig(2), &committee);
    assert_eq!(
        third,
        Ok(Some(RBCProof {
            epoch: 0,
            height: 1,
            votes: vec![(0, sig(0)), (1, sig(1)), (2, sig(2))],
            tag: RBC_ECHO,
        }))
    );
    assert_eq!(maker.append(0, 1, 3, RBC_ECHO, sig(3), &committee), Ok(None));
}

#[test]
fn a_ready_proof_comes_at_both_thresholds() {
    let committee = four();
    let mut maker = RBCProofMaker::new();
    assert_eq!(maker.append(2, 3, 3, RBC_READY, sig(3), &committee), Ok(None));
    let second = maker.append(2, 3, 1, RBC_READY, sig(1), &committee);
    assert_eq!(
        second,
        Ok(Some(RBCProof {
            epoch: 2,
            height: 3,
            votes: vec![(3, sig(3)), (1, sig(1))],
            tag: RBC_READY,
        }))
    );
    let third = maker.append(2, 3, 0, RBC_READY, sig(0), &committee);
    assert_eq!(
        third,
        Ok(Some(RBCProof {
            epoch: 2,
            height: 3,
            votes: vec![(3, sig(3)), (1, sig(1)), (0, sig(0))],
            tag: RBC_READY,
        }))
    );
    assert_eq!(maker.append(2, 3, 2, RBC_READY, sig(2), &committee), Ok(None));
}

#[test]
fn a_second_vote_of_one_author_is_an_error() {
    let committee = four();
    let mut maker = RBCProofMaker::new();
    assert_eq!(maker.append(0, 0, 2, RBC_ECHO, sig(2), &committee), Ok(None));
    assert_eq!(
        maker.append(0, 0, 2, RBC_ECHO, sig(2), &committee),
        Err(ConsensusError::AuthorityReuseinRBCVote(2))
    );
    assert_eq!(maker.append(0, 0, 0, RBC_ECHO, sig(0), &committee), Ok(None));
    let third = maker.append(0, 0, 1, RBC_ECHO, sig(1), &committee).unwrap().unwrap();
    assert_eq!(third.votes.len(), 3);
}

#[test]
fn a_proof_is_as_large_as_its_threshold_under_unit_stakes() {
    let committee = Committee::new(vec![1; 7]).unwrap();
    let mut maker = RBCProofMaker::new();
    let mut sizes = Vec::new();
    for author in 0..7u64 {
        if let Some(proof) = maker.append(1, 1, author, RBC_READY, sig(author), &committee).unwrap() {
            sizes.push(proof.votes.len());
        }
    }
    assert_eq!(sizes, vec![3, 5]);
}

#[test]
fn weight_counts_stake() {
    let committee = Committee::new(vec![5, 1, 1, 3]).unwrap();
    let mut maker = RBCProofMaker::new();
    assert_eq!(maker.append(0, 0, 0, RBC_ECHO, sig(0), &committee), Ok(None));
    assert_eq!(maker.append(0, 0, 1, RBC_ECHO, sig(1), &committee), Ok(None));
    let proof = maker.append(0, 0, 2, RBC_ECHO, sig(2), &committee).unwrap().unwrap();
    assert_eq!(proof.votes, vec![(0, sig(0)), (1, sig(1)), (2, sig(2))]);
    let mut maker = RBCProofMaker::new();
    assert_eq!(maker.append(0, 0, 0, RBC_ECHO, sig(0), &committee), Ok(None));
    assert_eq!(maker.append(0, 0, 3, RBC_ECHO, sig(3), &committee), Ok(None));
    assert_eq!(maker.append(0, 0, 1, RBC_ECHO, sig(1), &committee), Ok(None));
}

#[test]
fn a_first_phase_of_optimists_commits() {
    let committee = four();
    let mut maker = PrepareMaker::new();
    assert_eq!(maker.append(prepare(0, 0, 2, PRE_ONE, OPT), &committee), Ok(None));
    assert_eq!(maker.append(prepare(1, 0, 2, PRE_ONE, OPT), &committee), Ok(None));
    assert_eq!(maker.append(prepare(2, 0, 2, PRE_ONE, OPT), &committee), Ok(Some((OPT, true))));
}

#[test]
fn a_split_first_phase_passes_the_optimistic_value_on() {
    let committee = four();
    let mut maker = PrepareMaker::new();
    assert_eq!(maker.append(prepare(0, 0, 2, PRE_ONE, OPT), &committee), Ok(None));
    assert_eq!(maker.append(prepare(1, 0, 2, PRE_ONE, PES), &committee), Ok(None));
    assert_eq!(maker.append(prepare(2, 0, 2, PRE_ONE, PES), &committee), Ok(Some((OPT, false))));
}

#[test]
fn a_first_phase_of_pessimists_passes_the_pessimistic_value_on() {
    let committee = four();
    let mut maker = PrepareMaker::new();
    assert_eq!(maker.append(prepare(3, 0, 2, PRE_ONE, PES), &committee), Ok(None));
    assert_eq!(maker.append(prepare(1, 0, 2, PRE_ONE, PES), &committee), Ok(None));
    assert_eq!(maker.append(prepare(2, 0, 2, PRE_ONE, PES), &committee), Ok(Some((PES, false))));
}

#[test]
fn a_second_phase_of_pessimists_excludes() {
    let committee = four();
    let mut maker = PrepareMaker::new();
    assert_eq!(maker.append(prepare(3, 0, 2, PRE_TWO, PES), &committee), Ok(None));
    assert_eq!(maker.append(prepare(1, 0, 2, PRE_TWO, PES), &committee), Ok(None));
    assert_eq!(maker.append(prepare(2, 0, 2, PRE_TWO, PES), &committee), Ok(Some((PES, true))));
}

#[test]
fn a_split_second_phase_passes_the_pessimistic_value_on() {
    let committee = four();
    let mut maker = PrepareMaker::new();
    assert_eq!(maker.append(prepare(3, 0, 2, PRE_TWO, OPT), &committee), Ok(None));
    assert_eq!(maker.append(prepare(1, 0, 2, PRE_TWO, OPT), &committee), Ok(None));
    assert_eq!(maker.append(prepare(2, 0, 2, PRE_TWO, PES), &committee), Ok(Some((PES, false))));
}

#[test]
fn a_second_phase_of_optimists_passes_the_optimistic_value_on() {
    let committee = four();
    let mut maker = PrepareMaker::new();
    assert_eq!(maker.append(prepare(3, 0, 2, PRE_TWO, OPT), &committee), Ok(None));
    assert_eq!(maker.append(prepare(1, 0, 2, PRE_TWO, OPT), &committee), Ok(None));
    assert_eq!(maker.append(prepare(2, 0, 2, PRE_TWO, OPT), &committee), Ok(Some((OPT, false))));
}

#[test]
fn the_classifier_fires_at_the_quorum_and_not_again() {
    let committee = four();
    let mut maker = PrepareMaker::new();
    assert_eq!(maker.append(prepare(0, 0, 2, PRE_ONE, OPT), &committee), Ok(None));
    assert_eq!(maker.append(prepare(1, 0, 2, PRE_ONE, OPT), &committee), Ok(None));
    assert!(maker.append(prepare(2, 0, 2, PRE_ONE, OPT), &committee).unwrap().is_some());
    assert_eq!(maker.append(prepare(3, 0, 2, PRE_ONE, OPT), &committee), Ok(None));
    assert_eq!(
        maker.append(prepare(3, 0, 2, PRE_ONE, PES), &committee),
        Err(ConsensusError::AuthorityReuseinPrepare(3))
    );
}

#[test]
fn an_unknown_phase_brings_no_verdict() {
    let committee = four();
    let mut maker = PrepareMaker::new();
    assert_eq!(maker.append(prepare(0, 0, 2, 5, OPT), &committee), Ok(None));
    assert_eq!(maker.append(prepare(1, 0, 2, 5, OPT), &committee), Ok(None));
    assert_eq!(maker.append(prepare(2, 0, 2, 5, OPT), &committee), Ok(None));
}

#[test]
fn a_prepare_vote_twice_is_authority_reuse() {
    let committee = four();
    let mut maker = PrepareMaker::new();
    assert_eq!(maker.append(prepare(1, 0, 2, PRE_ONE, OPT), &committee), Ok(None));
    assert_eq!(
        maker.append(prepare(1, 0, 2, PRE_ONE, OPT), &committee),
        Err(ConsensusError::AuthorityReuseinPrepare(1))
    );
}

#[test]
fn the_coin_is_the_parity_of_the_first_eight_bytes() {
    let mut signature = vec![0u8; 96];
    assert_eq!(coin_of_signature(&signature), 0);
    signature[7] = 1;
    assert_eq!(coin_of_signature(&signature), 1);
    signature[7] = 0xfe;
    signature[0] = 0xff;
    signature[8] = 1;
    assert_eq!(coin_of_signature(&signature), 0);
    let bytes: Vec<u8> = vec![0x12, 0x34, 0x56, 0x78, 0x9a, 0xbc, 0xde, 0xf1];
    assert_eq!(coin_of_signature(&bytes), (0x1234_5678_9abc_def1u64 % 2) as usize);
}

#[test]
fn the_coin_is_read_off_the_combined_signature() {
    let committee = four();
    let keys = key_set(1, 7);
    let pk_set = bincode::serialize(&keys.public_keys()).unwrap();
    let mut seen = [false, false];
    for round in 0..12u64 {
        let mut maker = RandomCoinMaker::new();
        assert_eq!(maker.append(share(&keys, 2, 4, 1, round), &committee, &pk_set), Ok(None));
        let coin = maker.append(share(&keys, 0, 4, 1, round), &committee, &pk_set).unwrap();
        let expected = expected_coin(&keys, &[0, 2], 4, 1, round);
        assert_eq!(coin, Some(expected));
        seen[expected] = true;
        assert_eq!(maker.append(share(&keys, 1, 4, 1, round), &committee, &pk_set), Ok(None));
        assert_eq!(maker.append(share(&keys, 3, 4, 1, round), &committee, &pk_set), Ok(None));
    }
    assert!(seen[0] && seen[1]);
}

#[test]
fn any_quorum_of_shares_gives_the_same_coin() {
    let committee = four();
    let keys = key_set(1, 11);
    let pk_set = bincode::serialize(&keys.public_keys()).unwrap();
    for round in 0..6u64 {
        let mut first = RandomCoinMaker::new();
        first.append(share(&keys, 0, 0, 2, round), &committee, &pk_set).unwrap();
        let one = first.append(share(&keys, 1, 0, 2, round), &committee, &pk_set).unwrap();
        let mut second = RandomCoinMaker::new();
        second.append(share(&keys, 3, 0, 2, round), &committee, &pk_set).unwrap();
        let other = second.append(share(&keys, 2, 0, 2, round), &committee, &pk_set).unwrap();
        assert!(one.is_some());
        assert_eq!(one, other);
    }
}

#[test]
fn shares_are_combined_in_ascending_order_of_index() {
    let committee = Committee::new(vec![1; 7]).unwrap();
    assert_eq!(committee.random_coin_threshold(), 3);
    let keys = key_set(1, 5);
    let pk_set = bincode::serialize(&keys.public_keys()).unwrap();
    let mut differs = false;
    for round in 0..8u64 {
        let stray = keys.secret_key_share(5u64).sign(coin_message(9, 9, round));
        let mut maker = RandomCoinMaker::new();
        let first =
            RandomnessShare { epoch: 1, height: 2, round, author: 5, signature_share: stray.to_bytes() };
        assert_eq!(maker.append(first, &committee, &pk_set), Ok(None));
        assert_eq!(maker.append(share(&keys, 3, 1, 2, round), &committee, &pk_set), Ok(None));
        let coin = maker.append(share(&keys, 1, 1, 2, round), &committee, &pk_set).unwrap();
        let mut shares: BTreeMap<u64, SignatureShare> = BTreeMap::new();
        shares.insert(5, stray.clone());
        shares.insert(3, keys.secret_key_share(3u64).sign(coin_message(1, 2, round)));
        shares.insert(1, keys.secret_key_share(1u64).sign(coin_message(1, 2, round)));
        let combined = keys.public_keys().combine_signatures(shares.iter()).unwrap();
        assert_eq!(coin, Some((combined.to_bytes()[7] % 2) as usize));
        assert_eq!(coin, Some(expected_coin(&keys, &[1, 3], 1, 2, round)));
        let mut arrival: Vec<(u64, SignatureShare)> = Vec::new();
        arrival.push((5, stray));
        arrival.push((3, keys.secret_key_share(3u64).sign(coin_message(1, 2, round))));
        let other = keys
            .public_keys()
            .combine_signatures(arrival.iter().map(|(id, share)| (*id, share)))
            .unwrap();
        if other.to_bytes() != combined.to_bytes() {
            differs = true;
        }
    }
    assert!(differs);
}

#[test]
fn a_second_share_of_one_author_is_an_error() {
    let committee = four();
    let keys = key_set(1, 7);
    let pk_set = bincode::serialize(&keys.public_keys()).unwrap();
    let mut maker = RandomCoinMaker::new();
    assert_eq!(maker.append(share(&keys, 2, 0, 0, 0), &committee, &pk_set), Ok(None));
    assert_eq!(
        maker.append(share(&keys, 2, 0, 0, 0), &committee, &pk_set),
        Err(ConsensusError::AuthorityReuseinCoin(2))
    );
}

#[test]
fn shares_that_do_not_combine_give_no_coin() {
    let committee = four();
    let keys = key_set(2, 7);
    let pk_set = bincode::serialize(&keys.public_keys()).unwrap();
    let mut maker = RandomCoinMaker::new();
    assert_eq!(maker.append(share(&keys, 0, 0, 0, 0), &committee, &pk_set), Ok(None));
    assert_eq!(maker.append(share(&keys, 1, 0, 0, 0), &committee, &pk_set), Ok(None));
    assert_eq!(maker.append(share(&keys, 2, 0, 0, 0), &committee, &pk_set), Ok(None));
}

#[test]
fn a_share_that_is_no_group_element_gives_no_coin() {
    let committee = four();
    let keys = key_set(1, 7);
    let pk_set = bincode::serialize(&keys.public_keys()).unwrap();
    let mut maker = RandomCoinMaker::new();
    let broken =
        RandomnessShare { epoch: 0, height: 0, round: 0, author: 0, signature_share: [0xffu8; 96] };
    assert_eq!(maker.append(broken, &committee, &pk_set), Ok(None));
    assert_eq!(maker.append(share(&keys, 1, 0, 0, 0), &committee, &pk_set), Ok(None));
}

#[test]
fn a_key_set_that_does_not_decode_gives_no_coin() {
    let committee = four();
    let keys = key_set(1, 7);
    for pk_set in [Vec::new(), vec![0u8; 8], vec![0u8; 200], vec![1u8, 0, 0], vec![3u8; 60]] {
        let mut maker = RandomCoinMaker::new();
        assert_eq!(maker.append(share(&keys, 0, 0, 0, 0), &committee, &pk_set), Ok(None));
        assert_eq!(maker.append(share(&keys, 1, 0, 0, 0), &committee, &pk_set), Ok(None));
    }
}

#[test]
fn an_empty_key_set_starts_with_a_zero_count() {
    assert!(is_empty_key_set(&vec![0u8; 8]));
    assert!(is_empty_key_set(&vec![0u8; 9]));
    assert!(!is_empty_key_set(&vec![0u8; 7]));
    assert!(!is_empty_key_set(&Vec::new()));
    assert!(!is_empty_key_set(&vec![0, 0, 0, 0, 0, 0, 0, 1]));
    let keys = key_set(1, 7);
    assert!(!is_empty_key_set(&bincode::serialize(&keys.public_keys()).unwrap()));
}

#[test]
fn the_aggregator_keeps_instances_apart() {
    let mut aggregator = Aggregator::new(four());
    assert_eq!(aggregator.add_rbc_echo_vote(echo(0, 0, 0)), Ok(None));
    assert_eq!(aggregator.add_rbc_echo_vote(echo(0, 0, 1)), Ok(None));
    assert_eq!(aggregator.add_rbc_echo_vote(echo(1, 0, 0)), Ok(None));
    assert_eq!(aggregator.add_rbc_echo_vote(echo(1, 0, 1)), Ok(None));
    let proof = aggregator.add_rbc_echo_vote(echo(2, 0, 1)).unwrap().unwrap();
    assert_eq!((proof.epoch, proof.height, proof.tag), (0, 1, RBC_ECHO));
    assert_eq!(proof.votes, vec![(0, sig(0)), (1, sig(1)), (2, sig(2))]);
    assert_eq!(
        aggregator.add_rbc_echo_vote(echo(1, 0, 0)),
        Err(ConsensusError::AuthorityReuseinRBCVote(1))
    );
    assert_eq!(aggregator.add_rbc_ready_vote(ready(1, 0, 0)), Ok(None));
}

#[test]
fn the_aggregator_keeps_echo_and_ready_apart() {
    let mut aggregator = Aggregator::new(four());
    assert_eq!(aggregator.add_rbc_echo_vote(echo(0, 3, 2)), Ok(None));
    assert_eq!(aggregator.add_rbc_ready_vote(ready(0, 3, 2)), Ok(None));
    let proof = aggregator.add_rbc_ready_vote(ready(1, 3, 2)).unwrap().unwrap();
    assert_eq!(proof.tag, RBC_READY);
    assert_eq!(proof.votes.len(), 2);
    assert_eq!(aggregator.add_rbc_echo_vote(echo(1, 3, 2)), Ok(None));
}

#[test]
fn the_aggregator_keeps_prepare_phases_apart() {
    let mut aggregator = Aggregator::new(four());
    assert_eq!(aggregator.add_prepare_vote(prepare(0, 1, 1, PRE_ONE, OPT)), Ok(None));
    assert_eq!(aggregator.add_prepare_vote(prepare(0, 1, 1, PRE_TWO, PES)), Ok(None));
    assert_eq!(aggregator.add_prepare_vote(prepare(1, 1, 1, PRE_ONE, OPT)), Ok(None));
    assert_eq!(aggregator.add_prepare_vote(prepare(1, 1, 1, PRE_TWO, PES)), Ok(None));
    assert_eq!(aggregator.add_prepare_vote(prepare(2, 1, 1, PRE_ONE, OPT)), Ok(Some((OPT, true))));
    assert_eq!(aggregator.add_prepare_vote(prepare(2, 1, 1, PRE_TWO, PES)), Ok(Some((PES, true))));
    assert_eq!(
        aggregator.add_prepare_vote(prepare(2, 1, 1, PRE_TWO, OPT)),
        Err(ConsensusError::AuthorityReuseinPrepare(2))
    );
}

#[test]
fn the_aggregator_reveals_the_coin_of_each_round() {
    let keys = key_set(1, 3);
    let pk_set = bincode::serialize(&keys.public_keys()).unwrap();
    let mut aggregator = Aggregator::new(four());
    assert_eq!(aggregator.add_aba_share_coin(share(&keys, 1, 2, 3, 0), &pk_set), Ok(None));
    assert_eq!(aggregator.add_aba_share_coin(share(&keys, 1, 2, 3, 1), &pk_set), Ok(None));
    assert_eq!(
        aggregator.add_aba_share_coin(share(&keys, 3, 2, 3, 1), &pk_set),
        Ok(Some(expected_coin(&keys, &[1, 3], 2, 3, 1)))
    );
    assert_eq!(
        aggregator.add_aba_share_coin(share(&keys, 0, 2, 3, 0), &pk_set),
        Ok(Some(expected_coin(&keys, &[0, 1], 2, 3, 0)))
    );
    assert_eq!(
        aggregator.add_aba_share_coin(share(&keys, 0, 2, 3, 0), &pk_set),
        Err(ConsensusError::AuthorityReuseinCoin(0))
    );
}

#[test]
fn cleanup_drops_every_accumulator_up_to_the_rank() {
    let keys = key_set(2, 3);
    let pk_set = bincode::serialize(&keys.public_keys()).unwrap();
    let committee = Committee::new(vec![1; 8]).unwrap();
    let mut aggregator = Aggregator::new(committee);
    for (epoch, height) in [(0u64, 0u64), (10, 6), (10, 7), (11, 0), (12, 3)] {
        assert_eq!(aggregator.add_rbc_echo_vote(echo(1, epoch, height)), Ok(None));
        assert_eq!(aggregator.add_rbc_ready_vote(ready(1, epoch, height)), Ok(None));
        assert_eq!(aggregator.add_prepare_vote(prepare(1, epoch, height, PRE_ONE, OPT)), Ok(None));
        assert_eq!(
            aggregator.add_aba_share_coin(share(&keys, 1, epoch, height, 0), &pk_set),
            Ok(None)
        );
    }
    aggregator.cleanup(10, 7);
    for (epoch, height) in [(0u64, 0u64), (10, 6), (10, 7)] {
        assert_eq!(aggregator.add_rbc_echo_vote(echo(1, epoch, height)), Ok(None));
        assert_eq!(aggregator.add_rbc_ready_vote(ready(1, epoch, height)), Ok(None));
        assert_eq!(aggregator.add_prepare_vote(prepare(1, epoch, height, PRE_ONE, OPT)), Ok(None));
        assert_eq!(
            aggregator.add_aba_share_coin(share(&keys, 1, epoch, height, 0), &pk_set),
            Ok(None)
        );
    }
    for (epoch, height) in [(11u64, 0u64), (12, 3)] {
        assert_eq!(
            aggregator.add_rbc_echo_vote(echo(1, epoch, height)),
            Err(ConsensusError::AuthorityReuseinRBCVote(1))
        );
        assert_eq!(
            aggregator.add_rbc_ready_vote(ready(1, epoch, height)),
            Err(ConsensusError::AuthorityReuseinRBCVote(1))
        );
        assert_eq!(
            aggregator.add_prepare_vote(prepare(1, epoch, height, PRE_ONE, OPT)),
            Err(ConsensusError::AuthorityReuseinPrepare(1))
        );
        assert_eq!(
            aggregator.add_aba_share_coin(share(&keys, 1, epoch, height, 0), &pk_set),
            Err(ConsensusError::AuthorityReuseinCoin(1))
        );
    }
}

#[test]
fn cleanup_goes_by_rank_not_by_epoch() {
    let committee = Committee::new(vec![1; 4]).unwrap();
    let mut aggregator = Aggregator::new(committee);
    assert_eq!(aggregator.add_rbc_echo_vote(echo(1, 2, 1)), Ok(None));
    assert_eq!(aggregator.add_rbc_echo_vote(echo(1, 2, 2)), Ok(None));
    assert_eq!(aggregator.add_rbc_echo_vote(echo(1, 1, 5)), Ok(None));
    aggregator.cleanup(2, 1);
    assert_eq!(aggregator.add_rbc_echo_vote(echo(1, 2, 1)), Ok(None));
    assert_eq!(aggregator.add_rbc_echo_vote(echo(1, 1, 5)), Ok(None));
    assert_eq!(
        aggregator.add_rbc_echo_vote(echo(1, 2, 2)),
        Err(ConsensusError::AuthorityReuseinRBCVote(1))
    );
}
