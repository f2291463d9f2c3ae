use consensus::commitor::Commit;
use consensus::config::{Committee, Parameters};
use consensus::engine::{Action, Core};
use consensus::messages::{
    ABAOutput, ABAVal, Block, ConsensusMessage, EchoVote, Prepare, RandomnessShare, ReadyVote,
    MUX_PHASE, OPT, PES, PRE_ONE, PRE_TWO, VAL_PHASE,
};
use consensus::state::Event;
use rand::rngs::StdRng;
use rand::SeedableRng;
use std::collections::{HashMap, VecDeque};
use threshold_crypto::SecretKeySet;

fn payload_of(epoch: u64, height: u64) -> Vec<[u8; 32]> {
    vec![[(epoch * 16 + height + 1) as u8; 32]]
}

fn block(epoch: u64, height: u64) -> Block {
    Block {
        author: height,
        epoch,
        height,
        payload: payload_of(epoch, height),
        digest: [(epoch * 16 + height) as u8; 32],
        signature: [height as u8 + 1; 64],
    }
}

fn coin_message(epoch: u64, height: u64, round: u64) -> Vec<u8> {
    let mut message = Vec::new();
    message.extend_from_slice(&epoch.to_le_bytes());
    message.extend_from_slice(&height.to_le_bytes());
    message.extend_from_slice(&round.to_le_bytes());
    message
}

/// A network of nodes in one process: it carries out what the engines ask
/// for and hands every message to every live node, first come first served.
struct Network {
    size: usize,
    committee: Committee,
    cores: Vec<Option<Core>>,
    stores: Vec<HashMap<Vec<u8>, Block>>,
    queue: VecDeque<(usize, Event)>,
    local: VecDeque<(usize, Event)>,
    commits: Vec<Vec<Commit>>,
    sent: Vec<(usize, ConsensusMessage)>,
    errors: usize,
    keys: SecretKeySet,
    last_epoch: u64,
    last_round: u64,
}

impl Network {
    fn new(size: usize, crashed: &[usize], fallback: u64, last_epoch: u64) -> Network {
        let mut rng = StdRng::seed_from_u64(42);
        let keys = SecretKeySet::random((size - 1) / 3, &mut rng);
        let pk_set = bincode::serialize(&keys.public_keys()).unwrap();
        let committee = Committee::new(vec![1; size]).unwrap();
        let parameters =
            Parameters { max_payload_size: 100, min_block_delay: 0, fallback, fault: 0, exp: 0 };
        let mut cores = Vec::new();
        for name in 0..size {
            if crashed.contains(&name) {
                cores.push(None);
            } else {
                cores.push(Some(Core::new(name as u64, committee.clone(), parameters, pk_set.clone())));
            }
        }
        Network {
            size,
            committee,
            cores,
            stores: vec![HashMap::new(); size],
            queue: VecDeque::new(),
            local: VecDeque::new(),
            commits: vec![Vec::new(); size],
            sent: Vec::new(),
            errors: 0,
            keys,
            last_epoch,
            last_round: 200,
        }
    }

    fn next(&mut self) -> Option<(usize, Event)> {
        match self.local.pop_front() {
            Some(own) => Some(own),
            None => self.queue.pop_front(),
        }
    }

    fn engine(&mut self, node: usize) -> &mut Core {
        self.cores[node].as_mut().unwrap()
    }

    fn key(&self, epoch: u64, height: u64) -> Vec<u8> {
        Core::store_key(epoch, height, &self.committee)
    }

    fn to_all(&mut self, sender: usize, message: ConsensusMessage) {
        for node in 0..self.size {
            if self.cores[node].is_some() {
                let event = Event::Message { message: message.clone(), signature_valid: true };
                if node == sender {
                    self.local.push_back((node, event));
                } else {
                    self.queue.push_back((node, event));
                }
            }
        }
    }

    fn sign(&self, node: usize, message: ConsensusMessage) -> ConsensusMessage {
        let signature = [node as u8 + 1; 64];
        match message {
            ConsensusMessage::RBCEchoMsg(vote) => {
                ConsensusMessage::RBCEchoMsg(EchoVote { signature, ..vote })
            }
            ConsensusMessage::RBCReadyMsg(vote) => {
                ConsensusMessage::RBCReadyMsg(ReadyVote { signature, ..vote })
            }
            ConsensusMessage::PrePareMsg(vote) => {
                ConsensusMessage::PrePareMsg(Prepare { signature, ..vote })
            }
            ConsensusMessage::ABAValMsg(vote) => ConsensusMessage::ABAValMsg(ABAVal { signature, ..vote }),
            ConsensusMessage::ABAMuxMsg(vote) => ConsensusMessage::ABAMuxMsg(ABAVal { signature, ..vote }),
            ConsensusMessage::ABAOutputMsg(output) => {
                ConsensusMessage::ABAOutputMsg(ABAOutput { signature, ..output })
            }
            ConsensusMessage::ABACoinShareMsg(share) => {
                let signed = self
                    .keys
                    .secret_key_share(node)
                    .sign(coin_message(share.epoch, share.height, share.round));
                ConsensusMessage::ABACoinShareMsg(RandomnessShare {
                    signature_share: signed.to_bytes(),
                    ..share
                })
            }
            other => other,
        }
    }

    fn perform(&mut self, node: usize, action: Action) {
        match action {
            Action::Broadcast(message) => {
                if let ConsensusMessage::ABAValMsg(vote) = &message {
                    if vote.round > self.last_round {
                        return;
                    }
                }
                let signed = self.sign(node, message);
                self.sent.push((node, signed.clone()));
                self.to_all(node, signed);
            }
            Action::Store { key, block } => {
                self.stores[node].insert(key, block);
            }
            Action::FetchBlock { epoch, height } => {
                let key = self.key(epoch, height);
                match self.stores[node].get(&key) {
                    Some(block) => self.queue.push_back((node, Event::BlockFetched(block.clone()))),
                    None => {
                        for peer in 0..self.size {
                            if peer != node && self.cores[peer].is_some() {
                                self.queue.push_back((
                                    peer,
                                    Event::Message {
                                        message: ConsensusMessage::SyncRequestMsg(epoch, height, node as u64),
                                        signature_valid: true,
                                    },
                                ));
                            }
                        }
                    }
                }
            }
            Action::ServeBlock { key, to } => {
                if let Some(block) = self.stores[node].get(&key) {
                    self.queue.push_back((
                        to as usize,
                        Event::Message {
                            message: ConsensusMessage::SyncReplyMsg(block.clone()),
                            signature_valid: true,
                        },
                    ));
                }
            }
            Action::VerifyPayload(block) => {
                self.queue.push_back((node, Event::PayloadVerified { block, valid: true }));
            }
            Action::Propose { epoch, height, .. } => {
                if epoch <= self.last_epoch {
                    self.to_all(node, ConsensusMessage::RBCValMsg(block(epoch, height)));
                }
            }
            Action::Commit(commit) => self.commits[node].push(commit),
            Action::CleanMempool { .. } => {}
        }
    }

    fn perform_all(&mut self, node: usize, actions: Vec<Action>) {
        for action in actions {
            self.perform(node, action);
        }
    }

    fn start(&mut self) {
        for node in 0..self.size {
            if self.cores[node].is_some() {
                let actions = self.engine(node).generate_rbc_proposal();
                self.perform_all(node, actions);
            }
        }
    }

    fn run(&mut self) {
        let mut steps = 0;
        while let Some((node, event)) = self.next() {
            steps += 1;
            assert!(steps < 200000);
            if self.cores[node].is_none() {
                continue;
            }
            match self.engine(node).handle_event(event) {
                Ok(actions) => self.perform_all(node, actions),
                Err(_) => self.errors += 1,
            }
        }
    }

    fn ranks(&self, node: usize) -> Vec<(u64, u64, bool)> {
        self.commits[node].iter().map(|c| (c.epoch, c.height, !c.digests.is_empty())).collect()
    }
}

fn is_agreement(message: &ConsensusMessage) -> bool {
    matches!(
        message,
        ConsensusMessage::ABAValMsg(_)
            | ConsensusMessage::ABAMuxMsg(_)
            | ConsensusMessage::ABACoinShareMsg(_)
            | ConsensusMessage::ABAOutputMsg(_)
    )
}

#[test]
fn happy_path_commits_four_blocks_in_order_without_agreement() {
    let mut network = Network::new(4, &[], 10, 0);
    network.start();
    network.run();
    for node in 0..4 {
        assert_eq!(
            network.commits[node],
            vec![
                Commit { digests: payload_of(0, 0), epoch: 0, height: 0 },
                Commit { digests: payload_of(0, 1), epoch: 0, height: 1 },
                Commit { digests: payload_of(0, 2), epoch: 0, height: 2 },
                Commit { digests: payload_of(0, 3), epoch: 0, height: 3 },
            ]
        );
        assert_eq!(network.engine(node).epoch(), 1);
        for height in 0..4 {
            assert!(network.engine(node).is_delivered(0, height));
            assert!(!network.engine(node).aba_ended(0, height));
        }
    }
    assert!(network.sent.iter().all(|(_, message)| !is_agreement(message)));
    assert!(network.sent.iter().all(|(_, message)| match message {
        ConsensusMessage::PrePareMsg(vote) => vote.phase == PRE_ONE && vote.val == OPT,
        _ => true,
    }));
    let prepares = network
        .sent
        .iter()
        .filter(|(_, message)| matches!(message, ConsensusMessage::PrePareMsg(_)))
        .count();
    assert_eq!(prepares, 16);
}

#[test]
fn a_straggler_is_excluded_by_the_fallback() {
    let mut network = Network::new(4, &[3], 1, 1);
    network.start();
    network.run();
    for node in 0..3 {
        assert_eq!(
            network.ranks(node),
            vec![
                (0, 0, true),
                (0, 1, true),
                (0, 2, true),
                (0, 3, false),
                (1, 0, true),
                (1, 1, true),
                (1, 2, true),
            ]
        );
        assert!(network.engine(node).prepare_started(0, 3));
        assert!(!network.engine(node).is_delivered(0, 3));
        assert!(!network.engine(node).prepare_started(1, 3));
        assert_eq!(network.engine(node).epoch(), 2);
    }
    let forced: Vec<(usize, Prepare)> = network
        .sent
        .iter()
        .filter_map(|(node, message)| match message {
            ConsensusMessage::PrePareMsg(vote) if vote.height == 3 => Some((*node, *vote)),
            _ => None,
        })
        .collect();
    assert_eq!(forced.len(), 6);
    for (node, vote) in forced {
        assert_eq!((vote.author, vote.epoch, vote.val), (node as u64, 0, PES));
    }
    assert!(network.sent.iter().all(|(_, message)| !is_agreement(message)));
}

#[test]
fn without_the_fallback_the_stream_waits_for_the_straggler() {
    let mut network = Network::new(4, &[3], 10, 1);
    network.start();
    network.run();
    for node in 0..3 {
        assert_eq!(network.ranks(node), vec![(0, 0, true), (0, 1, true), (0, 2, true)]);
        assert!(network.engine(node).is_delivered(1, 2));
        assert_eq!(network.engine(node).next_rank(), 3);
    }
}

fn prepare_from(author: u64, epoch: u64, height: u64, phase: u8, val: u8) -> Event {
    Event::Message {
        message: ConsensusMessage::PrePareMsg(Prepare {
            author,
            epoch,
            height,
            phase,
            val,
            signature: [author as u8 + 1; 64],
        }),
        signature_valid: true,
    }
}

#[test]
fn a_split_first_phase_ends_in_agreement() {
    let mut network = Network::new(4, &[3], 10, 0);
    for node in 0..3 {
        let key = network.key(0, 2);
        network.stores[node].insert(key, block(0, 2));
        let skipped = network.engine(node).exclude(0, 0);
        network.perform_all(node, skipped);
        let skipped = network.engine(node).exclude(0, 1);
        network.perform_all(node, skipped);
        network.commits[node].clear();
    }
    network.queue.push_back((2, prepare_from(3, 0, 2, PRE_TWO, PES)));
    let actions = network.engine(2).invoke_prepare(0, 2, PES);
    network.perform_all(2, actions);
    for node in 0..2 {
        let actions = network.engine(node).invoke_prepare(0, 2, OPT);
        network.perform_all(node, actions);
    }
    network.queue.push_back((0, prepare_from(3, 0, 2, PRE_ONE, OPT)));
    network.queue.push_back((1, prepare_from(3, 0, 2, PRE_ONE, OPT)));
    network.queue.push_back((2, prepare_from(3, 0, 2, PRE_ONE, PES)));
    network.run();
    let second: Vec<u8> = network
        .sent
        .iter()
        .filter_map(|(_, message)| match message {
            ConsensusMessage::PrePareMsg(vote) if vote.phase == PRE_TWO => Some(vote.val),
            _ => None,
        })
        .collect();
    assert_eq!(second, vec![OPT, OPT, OPT]);
    let openings: Vec<usize> = network
        .sent
        .iter()
        .filter_map(|(_, message)| match message {
            ConsensusMessage::ABAValMsg(vote) if vote.round == 0 && vote.phase == VAL_PHASE => {
                Some(vote.val)
            }
            _ => None,
        })
        .collect();
    assert!(openings.len() >= 3);
    assert!(openings.contains(&(OPT as usize)));
    assert!(openings.contains(&(PES as usize)));
    let outputs: Vec<usize> = network
        .sent
        .iter()
        .filter_map(|(_, message)| match message {
            ConsensusMessage::ABAOutputMsg(output) => Some(output.val),
            _ => None,
        })
        .collect();
    assert_eq!(outputs.len(), 3);
    assert!(outputs.iter().all(|val| *val == outputs[0]));
    for node in 0..3 {
        assert!(network.engine(node).aba_ended(0, 2));
        assert_eq!(network.ranks(node), vec![(0, 2, outputs[0] == OPT as usize)]);
    }
}

#[test]
fn agreement_that_starts_unanimous_decides_that_value() {
    for start in [OPT as usize, PES as usize] {
        let mut network = Network::new(4, &[], 10, 0);
        for node in 0..4 {
            let key = network.key(0, 0);
            network.stores[node].insert(key, block(0, 0));
            let actions = network.engine(node).aba_advance_round(0, 0, 0, start);
            network.perform_all(node, actions);
        }
        network.run();
        for node in 0..4 {
            assert!(network.engine(node).aba_ended(0, 0));
            assert_eq!(network.ranks(node), vec![(0, 0, start == OPT as usize)]);
        }
        for (_, message) in &network.sent {
            match message {
                ConsensusMessage::ABAValMsg(vote) => assert_eq!(vote.val, start),
                ConsensusMessage::ABAMuxMsg(vote) => assert_eq!(vote.val, start),
                ConsensusMessage::ABAOutputMsg(output) => assert_eq!(output.val, start),
                _ => {}
            }
        }
        assert_eq!(network.errors, 0);
    }
}

#[test]
fn agreement_with_mixed_starts_decides_one_value_everywhere() {
    for pattern in 1..15u32 {
        let mut network = Network::new(4, &[], 10, 0);
        for node in 0..4 {
            let key = network.key(0, 1);
            network.stores[node].insert(key, block(0, 1));
            let skipped = network.engine(node).exclude(0, 0);
            assert_eq!(skipped.len(), 1);
            let start = ((pattern >> node) & 1) as usize;
            let actions = network.engine(node).aba_advance_round(0, 1, 0, start);
            network.perform_all(node, actions);
        }
        network.run();
        let decided = network.ranks(0);
        assert_eq!(decided.len(), 1);
        for node in 0..4 {
            assert!(network.engine(node).aba_ended(0, 1));
            assert_eq!(network.ranks(node), decided);
        }
    }
}

fn vote_from(author: u64, round: u64, val: usize, phase: u8) -> ABAVal {
    ABAVal { author, epoch: 0, height: 0, round, val, phase, signature: [author as u8 + 1; 64] }
}

#[test]
fn the_coin_breaks_a_deadlock() {
    let committee = Committee::new(vec![1; 4]).unwrap();
    let parameters =
        Parameters { max_payload_size: 100, min_block_delay: 0, fallback: 10, fault: 0, exp: 0 };
    let mut lone = Core::new(0, committee.clone(), parameters, Vec::new());
    let mut tied = Core::new(1, committee, parameters, Vec::new());
    for author in 1..4 {
        let _ = lone.handle_aba_val(&vote_from(author, 0, 1, VAL_PHASE), true);
        let _ = tied.handle_aba_val(&vote_from(author, 0, 1, VAL_PHASE), true);
        let _ = tied.handle_aba_val(&vote_from(author, 0, 0, VAL_PHASE), true);
    }
    for author in 1..4 {
        let _ = lone.handle_aba_mux(&vote_from(author, 0, 1, MUX_PHASE), true);
    }
    let _ = tied.handle_aba_mux(&vote_from(0, 0, 0, MUX_PHASE), true);
    let _ = tied.handle_aba_mux(&vote_from(2, 0, 1, MUX_PHASE), true);
    let _ = tied.handle_aba_mux(&vote_from(3, 0, 1, MUX_PHASE), true);
    assert!(lone.mux_flags(0, 0, 0).opt && !lone.mux_flags(0, 0, 0).pes);
    assert!(tied.mux_flags(0, 0, 0).opt && tied.mux_flags(0, 0, 0).pes);
    let decided = lone.apply_coin(0, 0, 0, OPT as usize);
    assert_eq!(
        decided,
        vec![
            Action::Broadcast(ConsensusMessage::ABAOutputMsg(ABAOutput::new(0, 0, 0, 0, 1))),
            Action::FetchBlock { epoch: 0, height: 0 },
        ]
    );
    assert!(lone.aba_ended(0, 0));
    let carried = tied.apply_coin(0, 0, 0, OPT as usize);
    assert_eq!(
        carried,
        vec![Action::Broadcast(ConsensusMessage::ABAValMsg(ABAVal::new(1, 0, 0, 1, 1, VAL_PHASE)))]
    );
    assert!(!tied.aba_ended(0, 0));
    for author in 1..4 {
        let _ = tied.handle_aba_val(&vote_from(author, 1, 1, VAL_PHASE), true);
    }
    for author in 1..4 {
        let _ = tied.handle_aba_mux(&vote_from(author, 1, 1, MUX_PHASE), true);
    }
    assert!(tied.mux_flags(0, 0, 1).opt && !tied.mux_flags(0, 0, 1).pes);
    assert_eq!(
        tied.apply_coin(0, 0, 1, PES as usize),
        vec![Action::Broadcast(ConsensusMessage::ABAValMsg(ABAVal::new(1, 0, 0, 2, 1, VAL_PHASE)))]
    );
    let mut again = tied.apply_coin(0, 0, 1, OPT as usize);
    assert_eq!(again.remove(0), Action::Broadcast(ConsensusMessage::ABAOutputMsg(ABAOutput::new(1, 0, 0, 1, 1))));
    assert!(tied.aba_ended(0, 0));
}

#[test]
fn a_missing_block_is_fetched_from_a_peer() {
    let mut network = Network::new(4, &[], 10, 0);
    let key = network.key(5, 2);
    network.stores[1].insert(key.clone(), block(5, 2));
    for rank in 0..22u64 {
        let skipped = network.engine(0).exclude(rank / 4, rank % 4);
        assert_eq!(skipped.len(), 1);
    }
    let mut asked = Vec::new();
    for author in 1..4u64 {
        let vote = ReadyVote {
            author,
            epoch: 5,
            height: 2,
            digest: [82u8; 32],
            signature: [author as u8 + 1; 64],
        };
        for action in network.engine(0).handle_rbc_ready(&vote, true).unwrap() {
            if let Action::FetchBlock { .. } = action {
                asked.push(action);
            }
        }
    }
    assert_eq!(asked, vec![Action::FetchBlock { epoch: 5, height: 2 }]);
    assert!(network.stores[0].get(&key).is_none());
    network.perform_all(0, asked);
    assert!(!network.engine(0).is_delivered(5, 2));
    let requests: Vec<(usize, Event)> = network.queue.drain(..).collect();
    assert_eq!(requests.len(), 3);
    for (peer, request) in requests {
        assert_eq!(
            request,
            Event::Message {
                message: ConsensusMessage::SyncRequestMsg(5, 2, 0),
                signature_valid: true,
            }
        );
        let replies = network.engine(peer).handle_event(request).unwrap();
        assert_eq!(replies, vec![Action::ServeBlock { key: key.clone(), to: 0 }]);
        network.perform_all(peer, replies);
    }
    assert_eq!(
        network.queue,
        VecDeque::from(vec![(
            0,
            Event::Message {
                message: ConsensusMessage::SyncReplyMsg(block(5, 2)),
                signature_valid: true,
            }
        )])
    );
    network.run();
    assert_eq!(network.stores[0].get(&key), Some(&block(5, 2)));
    assert!(network.engine(0).holds_block(5, 2));
    assert!(network.engine(0).is_delivered(5, 2));
    assert_eq!(network.ranks(0), vec![(5, 2, true)]);
    assert_eq!(network.engine(0).next_rank(), 23);
}

#[test]
fn late_messages_after_a_cleanup_are_quiet() {
    let committee = Committee::new(vec![1; 8]).unwrap();
    assert_eq!(committee.rank(10, 7), 87);
    let parameters =
        Parameters { max_payload_size: 100, min_block_delay: 0, fallback: 10, fault: 0, exp: 0 };
    let mut core = Core::new(0, committee, parameters, Vec::new());
    for (epoch, height) in [(9u64, 3u64), (10, 7)] {
        for author in 0..8u64 {
            let signature = [author as u8 + 1; 64];
            let digest = [1u8; 32];
            let _ = core.handle_rbc_echo(&EchoVote { author, epoch, height, digest, signature }, true);
            let _ = core.handle_rbc_ready(&ReadyVote { author, epoch, height, digest, signature }, true);
            let _ = core.handle_prepare(
                &Prepare { author, epoch, height, phase: PRE_ONE, val: OPT, signature },
                true,
            );
            let _ = core.handle_aba_val(
                &ABAVal { author, epoch, height, round: 0, val: 1, phase: VAL_PHASE, signature },
                true,
            );
            let _ = core.handle_aba_mux(
                &ABAVal { author, epoch, height, round: 0, val: 1, phase: MUX_PHASE, signature },
                true,
            );
            let _ = core.handle_aba_output(
                &ABAOutput { author, epoch, height, round: 0, val: 1, signature },
                true,
            );
        }
        assert!(core.prepare_started(epoch, height));
        assert!(core.aba_ended(epoch, height));
    }
    let digests = vec![[3u8; 32]];
    assert_eq!(
        core.handle_event(Event::Committed { digests: digests.clone(), epoch: 10, height: 7 }),
        Ok(vec![Action::CleanMempool { digests, epoch: 10, height: 7 }])
    );
    for (epoch, height) in [(9u64, 3u64), (10, 7), (0, 0), (10, 0)] {
        for author in 0..8u64 {
            let signature = [author as u8 + 1; 64];
            let digest = [1u8; 32];
            let late = vec![
                ConsensusMessage::RBCEchoMsg(EchoVote { author, epoch, height, digest, signature }),
                ConsensusMessage::RBCReadyMsg(ReadyVote { author, epoch, height, digest, signature }),
                ConsensusMessage::PrePareMsg(Prepare {
                    author,
                    epoch,
                    height,
                    phase: PRE_ONE,
                    val: PES,
                    signature,
                }),
                ConsensusMessage::PrePareMsg(Prepare {
                    author,
                    epoch,
                    height,
                    phase: PRE_TWO,
                    val: PES,
                    signature,
                }),
                ConsensusMessage::ABAValMsg(ABAVal {
                    author,
                    epoch,
                    height,
                    round: 0,
                    val: 0,
                    phase: VAL_PHASE,
                    signature,
                }),
                ConsensusMessage::ABAMuxMsg(ABAVal {
                    author,
                    epoch,
                    height,
                    round: 0,
                    val: 0,
                    phase: MUX_PHASE,
                    signature,
                }),
                ConsensusMessage::ABAOutputMsg(ABAOutput {
                    author,
                    epoch,
                    height,
                    round: 0,
                    val: 0,
                    signature,
                }),
            ];
            for message in late {
                assert_eq!(
                    core.handle_event(Event::Message { message, signature_valid: true }),
                    Ok(Vec::new())
                );
            }
        }
    }
    assert!(core.prepare_started(10, 7));
    assert!(core.aba_ended(10, 7));
}
