use prism::block::Content;
use prism::config::{BlockchainConfig, FIRST_VOTER_INDEX, PROPOSER_INDEX, TRANSACTION_INDEX};
use prism::crypto::hash::H256;
use prism::miner::signals::{ControlSignal, MerkleUpdate, OperatingState, Phase, Request};
use prism::miner::{initial_updates, new, Context, ContextUpdateSignal};
use prism::transaction::Transaction;

fn h(n: u128) -> H256 {
    H256 { hi: 0, lo: n }
}

const CHAINS: u16 = 3;

fn config() -> BlockchainConfig {
    BlockchainConfig {
        voter_chains: CHAINS,
        tx_txs: 5,
        proposer_tx_refs: 2,
        proposer_genesis: h(100),
        voter_genesis: vec![h(200), h(201), h(202)],
        default_difficulty: h(1000),
    }
}

fn miner() -> Context {
    new(config(), 42)
}

fn tx() -> Transaction {
    Transaction { input: vec![], output: vec![], signatures: vec![] }
}

/// A running miner that waits for update signals.
fn running(signal: ControlSignal) -> Context {
    let mut context = miner();
    context.on_control(signal);
    context.on_no_control();
    context
}

fn voter(context: &Context, chain: u16) -> (u16, H256, Vec<H256>) {
    match &context.contents()[(FIRST_VOTER_INDEX + chain) as usize] {
        Content::Voter(c) => (c.chain_number, c.voter_parent, c.votes.clone()),
        _ => panic!("not a voter content"),
    }
}

fn proposer(context: &Context) -> (Vec<H256>, Vec<H256>) {
    match &context.contents()[PROPOSER_INDEX as usize] {
        Content::Proposer(c) => (c.transaction_refs.clone(), c.proposer_refs.clone()),
        _ => panic!("not a proposer content"),
    }
}

fn transactions(context: &Context) -> usize {
    match &context.contents()[TRANSACTION_INDEX as usize] {
        Content::Transaction(c) => c.transactions.len(),
        _ => panic!("not a transaction content"),
    }
}

/// Takes a miner through a round in which everything is updated, up to the nonce.
fn refresh(context: &mut Context) {
    context.on_updates(&initial_updates(CHAINS));
    context.on_voter_parents(&vec![h(210), h(201), h(212)]);
    context.on_transactions(vec![tx()]);
    context.on_best_proposer(h(110));
    context.on_proposer_refs(vec![h(1), h(2), h(3)], vec![h(110), h(111)]);
    context.on_best_proposer(h(110));
    context.on_votes(vec![vec![h(20)], vec![h(21)], vec![]]);
    context.on_difficulty(Some(h(500)));
    context.on_merkle_root(h(77));
}

#[test]
fn new_miner_is_paused_on_the_genesis_blocks() {
    let context = miner();
    assert_eq!(context.operating_state(), OperatingState::Paused);
    assert_eq!(context.phase(), Phase::Control);
    assert!(matches!(context.request(), Request::AwaitControl));
    assert_eq!(context.contents().len(), 5);
    assert_eq!(proposer(&context), (vec![], vec![]));
    assert_eq!(transactions(&context), 0);
    for chain in 0..CHAINS {
        assert_eq!(voter(&context, chain), (chain, h(200 + chain as u128), vec![]));
    }
    let header = context.header();
    assert_eq!(header.parent, h(100));
    assert_eq!(header.timestamp, 42);
    assert_eq!(header.nonce, 0);
    assert_eq!(header.content_merkle_root, H256::zero());
    assert_eq!(header.extra_content, [0u8; 32]);
    assert_eq!(header.difficulty, h(1000));
}

#[test]
fn initial_updates_name_everything() {
    assert_eq!(
        initial_updates(2),
        vec![
            ContextUpdateSignal::NewProposerBlock,
            ContextUpdateSignal::NewTransactionBlock,
            ContextUpdateSignal::NewVoterBlock(0),
            ContextUpdateSignal::NewVoterBlock(1),
        ]
    );
    assert_eq!(initial_updates(0).len(), 2);
}

#[test]
fn control_signals_set_the_state() {
    let mut context = miner();
    context.on_control(ControlSignal::Start(9, true));
    assert_eq!(context.operating_state(), OperatingState::Run(9, true));
    assert!(matches!(context.request(), Request::PollControl));
    context.on_control(ControlSignal::Step);
    assert_eq!(context.operating_state(), OperatingState::Step);
    assert!(matches!(context.request(), Request::DrainUpdates));
}

#[test]
fn exit_stops_a_paused_and_a_running_miner() {
    let mut context = miner();
    context.on_control(ControlSignal::Exit);
    assert!(matches!(context.request(), Request::Stop));
    let mut context = miner();
    context.on_control(ControlSignal::Start(0, false));
    context.on_control(ControlSignal::Exit);
    assert_eq!(context.operating_state(), OperatingState::ShutDown);
    assert!(matches!(context.request(), Request::Stop));
}

#[test]
fn voter_chains_are_asked_about_once_and_in_order() {
    let mut context = running(ControlSignal::Start(0, false));
    context.on_updates(&vec![
        ContextUpdateSignal::NewVoterBlock(2),
        ContextUpdateSignal::NewVoterBlock(0),
        ContextUpdateSignal::NewVoterBlock(2),
    ]);
    match context.request() {
        Request::BestVoters(chains) => assert_eq!(chains, vec![0, 2]),
        _ => panic!("no voters asked about"),
    }
    context.on_voter_parents(&vec![h(210), h(202)]);
    assert_eq!(voter(&context, 0).1, h(210));
    assert_eq!(voter(&context, 1).1, h(201));
    assert_eq!(voter(&context, 2).1, h(202));
    assert!(matches!(context.request(), Request::BestProposer));
}

#[test]
fn full_round_fills_the_contents_and_the_header() {
    let mut context = running(ControlSignal::Start(0, false));
    refresh(&mut context);
    assert_eq!(proposer(&context), (vec![h(1), h(2)], vec![h(111)]));
    assert_eq!(transactions(&context), 1);
    assert_eq!(voter(&context, 0), (0, h(210), vec![h(20)]));
    assert_eq!(voter(&context, 1), (1, h(201), vec![h(21)]));
    assert_eq!(voter(&context, 2), (2, h(212), vec![]));
    assert!(matches!(context.request(), Request::Nonce));
    context.on_nonce(13, 99);
    let header = context.header();
    assert_eq!(header.parent, h(110));
    assert_eq!(header.difficulty, h(500));
    assert_eq!(header.content_merkle_root, h(77));
    assert_eq!((header.nonce, header.timestamp), (13, 99));
    match context.request() {
        Request::HeaderHash(asked) => assert_eq!(asked.nonce, 13),
        _ => panic!("no hash asked for"),
    }
}

#[test]
fn requests_of_a_full_round() {
    let mut context = running(ControlSignal::Start(0, false));
    context.on_updates(&initial_updates(CHAINS));
    context.on_voter_parents(&vec![h(210), h(201), h(212)]);
    assert!(matches!(context.request(), Request::Transactions(5)));
    context.on_transactions(vec![]);
    assert!(matches!(context.request(), Request::BestProposer));
    context.on_best_proposer(h(110));
    assert!(matches!(context.request(), Request::UnreferredBlocks));
    context.on_proposer_refs(vec![], vec![]);
    assert!(matches!(context.request(), Request::BestProposer));
    context.on_best_proposer(h(110));
    match context.request() {
        Request::UnvotedProposers { voter_parents, proposer } => {
            assert_eq!(voter_parents, vec![h(210), h(201), h(212)]);
            assert_eq!(proposer, h(110));
        }
        _ => panic!("no votes asked for"),
    }
    context.on_votes(vec![vec![], vec![], vec![]]);
    match context.request() {
        Request::Difficulty(block) => assert_eq!(block, h(110)),
        _ => panic!("no difficulty asked for"),
    }
    context.on_difficulty(None);
    assert_eq!(context.header().difficulty, h(1000));
    match context.request() {
        Request::MerkleRoot(MerkleUpdate::Rebuild) => {}
        _ => panic!("no rebuild asked for"),
    }
}

#[test]
fn parent_that_is_no_longer_best_is_replaced() {
    let mut context = running(ControlSignal::Start(0, false));
    context.on_updates(&vec![]);
    context.on_voter_parents(&vec![]);
    context.on_best_proposer(h(120));
    assert_eq!(context.header().parent, h(120));
    context.on_proposer_refs(vec![], vec![h(120), h(5)]);
    assert_eq!(proposer(&context).1, vec![h(5)]);
    context.on_best_proposer(h(121));
    assert_eq!(context.header().parent, h(121));
    context.on_proposer_refs(vec![h(9)], vec![h(121), h(120)]);
    context.on_best_proposer(h(121));
    assert_eq!(proposer(&context), (vec![h(9)], vec![h(120)]));
    assert!(matches!(context.request(), Request::UnvotedProposers { .. }));
}

#[test]
fn quiet_round_goes_straight_to_the_nonce() {
    let mut context = running(ControlSignal::Start(0, false));
    context.on_updates(&vec![]);
    match context.request() {
        Request::BestVoters(chains) => assert!(chains.is_empty()),
        _ => panic!("no voters asked about"),
    }
    context.on_voter_parents(&vec![]);
    context.on_best_proposer(h(100));
    assert!(matches!(context.request(), Request::Difficulty(_)));
    context.on_difficulty(Some(h(3)));
    assert!(matches!(context.request(), Request::Nonce));
    assert_eq!(context.header().parent, h(100));
    assert_eq!(context.header().content_merkle_root, H256::zero());
    assert_eq!(context.header().difficulty, h(3));
}

#[test]
fn transaction_block_alone_refreshes_the_references_while_there_is_room() {
    let mut context = running(ControlSignal::Start(0, false));
    context.on_updates(&vec![ContextUpdateSignal::NewTransactionBlock]);
    context.on_voter_parents(&vec![]);
    context.on_transactions(vec![tx(), tx()]);
    assert_eq!(transactions(&context), 2);
    assert!(matches!(context.request(), Request::UnreferredTransactions));
    context.on_transaction_refs(vec![h(1), h(2), h(3)]);
    assert_eq!(proposer(&context), (vec![h(1), h(2)], vec![]));
    context.on_best_proposer(h(100));
    context.on_difficulty(None);
    match context.request() {
        Request::MerkleRoot(MerkleUpdate::Entries(entries)) => {
            assert_eq!(entries, vec![TRANSACTION_INDEX, PROPOSER_INDEX])
        }
        _ => panic!("no entries to update"),
    }
    context.on_merkle_root(h(8));
    context.on_nonce(1, 1);
    context.on_header_hash(h(1000));
    // the quota is used up, so the references stand
    context.on_no_control();
    context.on_updates(&vec![ContextUpdateSignal::NewTransactionBlock]);
    context.on_voter_parents(&vec![]);
    context.on_transactions(vec![]);
    assert!(matches!(context.request(), Request::BestProposer));
    context.on_best_proposer(h(100));
    context.on_difficulty(None);
    match context.request() {
        Request::MerkleRoot(MerkleUpdate::Entries(entries)) => {
            assert_eq!(entries, vec![TRANSACTION_INDEX])
        }
        _ => panic!("no entries to update"),
    }
}

#[test]
fn voter_blocks_that_change_no_parent_update_their_entries() {
    let mut context = running(ControlSignal::Start(0, false));
    context.on_updates(&vec![
        ContextUpdateSignal::NewVoterBlock(2),
        ContextUpdateSignal::NewVoterBlock(1),
    ]);
    context.on_voter_parents(&vec![h(201), h(202)]);
    context.on_best_proposer(h(100));
    context.on_votes(vec![vec![h(1)], vec![h(2)], vec![h(3)]]);
    context.on_difficulty(None);
    match context.request() {
        Request::MerkleRoot(MerkleUpdate::Entries(entries)) => assert_eq!(entries, vec![3, 4]),
        _ => panic!("no entries to update"),
    }
    assert_eq!(voter(&context, 0).2, vec![h(1)]);
}

#[test]
fn voter_parent_that_changes_rebuilds_the_tree() {
    let mut context = running(ControlSignal::Start(0, false));
    context.on_updates(&vec![ContextUpdateSignal::NewVoterBlock(1)]);
    context.on_voter_parents(&vec![h(300)]);
    context.on_best_proposer(h(100));
    context.on_votes(vec![vec![], vec![], vec![]]);
    context.on_difficulty(None);
    assert!(matches!(context.request(), Request::MerkleRoot(MerkleUpdate::Rebuild)));
}

#[test]
fn hash_that_is_not_below_the_difficulty_is_no_block() {
    let mut context = running(ControlSignal::Start(0, false));
    refresh(&mut context);
    context.on_nonce(1, 1);
    context.on_header_hash(h(500));
    assert!(matches!(context.request(), Request::PollControl));
    let mut context = running(ControlSignal::Start(250, false));
    refresh(&mut context);
    context.on_nonce(1, 1);
    context.on_header_hash(h(501));
    assert!(matches!(context.request(), Request::Sleep(250)));
    context.on_sleep_over();
    assert!(matches!(context.request(), Request::PollControl));
}

#[test]
fn mined_block_has_the_selected_content() {
    let mut context = running(ControlSignal::Start(0, false));
    refresh(&mut context);
    context.on_nonce(13, 99);
    context.on_header_hash(h(499));
    match context.request() {
        Request::Sortition { header_hash, difficulty } => {
            assert_eq!((header_hash, difficulty), (h(499), h(500)))
        }
        _ => panic!("no sortition asked for"),
    }
    let mined = context.on_sortition(3, vec![h(61), h(62)]);
    assert_eq!(mined.header_hash, h(499));
    assert_eq!(mined.block.header.nonce, 13);
    assert_eq!(mined.block.sortition_proof, vec![h(61), h(62)]);
    assert!(mined.publish);
    assert_eq!(mined.update, ContextUpdateSignal::NewVoterBlock(1));
    match mined.block.content {
        Content::Voter(c) => {
            assert_eq!((c.chain_number, c.voter_parent, c.votes), (1, h(201), vec![h(21)]))
        }
        _ => panic!("not a voter content"),
    }
    assert!(matches!(context.request(), Request::Publish));
    context.on_published();
    assert!(matches!(context.request(), Request::PollControl));
}

#[test]
fn lazy_miner_drops_blocks_without_content() {
    // chain 2 has no votes after a refresh
    for (signal, id, publish) in [
        (ControlSignal::Start(0, true), 4u16, false),
        (ControlSignal::Start(0, false), 4, true),
        (ControlSignal::Start(0, true), 3, true),
        (ControlSignal::Start(0, true), 0, true),
        (ControlSignal::Start(0, true), 1, true),
        (ControlSignal::Step, 4, true),
    ] {
        let mut context = running(signal);
        refresh(&mut context);
        context.on_nonce(1, 1);
        context.on_header_hash(h(1));
        let mined = context.on_sortition(id, vec![]);
        assert_eq!(mined.publish, publish);
    }
}

#[test]
fn updates_follow_the_content_of_the_block() {
    for (id, update) in [
        (0u16, ContextUpdateSignal::NewProposerBlock),
        (1, ContextUpdateSignal::NewTransactionBlock),
        (2, ContextUpdateSignal::NewVoterBlock(0)),
    ] {
        let mut context = running(ControlSignal::Start(0, false));
        refresh(&mut context);
        context.on_nonce(1, 1);
        context.on_header_hash(h(1));
        assert_eq!(context.on_sortition(id, vec![]).update, update);
    }
}

#[test]
fn stepping_miner_pauses_after_one_block() {
    let mut context = running(ControlSignal::Step);
    refresh(&mut context);
    context.on_nonce(1, 1);
    context.on_header_hash(h(600));
    // no block yet: it goes on
    assert!(matches!(context.request(), Request::PollControl));
    context.on_no_control();
    context.on_updates(&vec![]);
    context.on_voter_parents(&vec![]);
    context.on_best_proposer(h(110));
    context.on_difficulty(Some(h(500)));
    context.on_nonce(2, 2);
    context.on_header_hash(h(6));
    context.on_sortition(4, vec![]);
    assert_eq!(context.operating_state(), OperatingState::Paused);
    context.on_published();
    assert!(matches!(context.request(), Request::AwaitControl));
}
