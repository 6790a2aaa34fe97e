use tiny_l1::block::Block;
use tiny_l1::consensus::{ConsensusEngine, ConsensusState, Vote, VoteType};
use tiny_l1::state::State;

fn addr(byte: u8) -> [u8; 20] {
    [byte; 20]
}

fn vote(validator: [u8; 20], vote_type: VoteType) -> Vote {
    Vote { validator, height: 1, round: 0, block_hash: [0u8; 32], vote_type }
}

#[test]
fn idle_engine_never_commits() {
    let mut engine = ConsensusEngine::new(vec![addr(1)], 1);
    engine.add_prevote(vote(addr(1), VoteType::Prevote));
    engine.add_precommit(vote(addr(1), VoteType::Precommit));
    assert!(engine.run_to_commit().is_none());
    assert_eq!(engine.state, ConsensusState::Idle);
    assert_eq!(engine.height, 1);
}

#[test]
fn votes_from_non_validators_are_ignored() {
    let state = State::new();
    let mut engine = ConsensusEngine::new(vec![addr(1), addr(2)], 2);
    let genesis = Block::genesis(&state, 0);
    engine.propose(&genesis, vec![], &state, 1);
    engine.add_prevote(vote(addr(1), VoteType::Prevote));
    engine.add_prevote(vote(addr(9), VoteType::Prevote));
    engine.add_precommit(vote(addr(1), VoteType::Precommit));
    engine.add_precommit(vote(addr(9), VoteType::Precommit));
    assert_eq!(engine.pre_votes.len(), 1);
    assert_eq!(engine.pre_commits.len(), 1);
    assert!(engine.run_to_commit().is_none());
    assert_eq!(engine.state, ConsensusState::PreVote);
}

#[test]
fn repeated_votes_count_once() {
    let state = State::new();
    let mut engine = ConsensusEngine::new(vec![addr(1), addr(2)], 2);
    let genesis = Block::genesis(&state, 0);
    engine.propose(&genesis, vec![], &state, 1);
    engine.add_prevote(vote(addr(1), VoteType::Prevote));
    engine.add_prevote(vote(addr(1), VoteType::Prevote));
    assert_eq!(engine.pre_votes.len(), 1);
    engine.add_prevote(vote(addr(2), VoteType::Prevote));
    engine.add_precommit(vote(addr(1), VoteType::Precommit));
    assert!(engine.run_to_commit().is_none());
    assert_eq!(engine.state, ConsensusState::PreCommit);
    engine.add_precommit(vote(addr(2), VoteType::Precommit));
    assert!(engine.run_to_commit().is_some());
    assert_eq!(engine.state, ConsensusState::Commit);
}

#[test]
fn steps_follow_the_phases_and_commit_resets() {
    let state = State::new();
    let mut engine = ConsensusEngine::new(vec![addr(1)], 1);
    let genesis = Block::genesis(&state, 0);
    let proposed = engine.propose(&genesis, vec![], &state, 1);
    assert_eq!(engine.state, ConsensusState::Proposing);
    engine.add_prevote(vote(addr(1), VoteType::Prevote));
    engine.add_precommit(vote(addr(1), VoteType::Precommit));
    assert!(engine.step().is_none());
    assert_eq!(engine.state, ConsensusState::PreVote);
    assert!(engine.step().is_none());
    assert_eq!(engine.state, ConsensusState::PreCommit);
    let committed = engine.step().expect("quorum commits");
    assert_eq!(committed, proposed);
    assert_eq!(engine.state, ConsensusState::Commit);
    assert!(engine.step().is_none());
    assert_eq!(engine.state, ConsensusState::Idle);
    assert_eq!(engine.height, 2);
    assert_eq!(engine.round, 0);
    assert!(engine.proposed_block.is_none());
    assert!(engine.pre_votes.is_empty());
    assert!(engine.pre_commits.is_empty());
}

#[test]
fn start_round_drops_earlier_votes() {
    let state = State::new();
    let mut engine = ConsensusEngine::new(vec![addr(1)], 1);
    let genesis = Block::genesis(&state, 0);
    engine.add_prevote(vote(addr(1), VoteType::Prevote));
    engine.start_round(genesis.clone());
    assert!(engine.pre_votes.is_empty());
    assert_eq!(engine.state, ConsensusState::Proposing);
    assert_eq!(engine.proposed_block, Some(genesis));
}
