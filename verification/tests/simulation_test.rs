use tiny_l1::simulation::{run_node, run_transfer_simulation, simulate};
use tiny_l1::State;

#[test]
fn simulation_commits_a_linked_chain() {
    let timestamps = vec![100, 101, 102, 103];
    let chain = simulate(3, 4, 3, &timestamps).expect("valid config");
    assert_eq!(chain.len(), 4);
    let empty_root = State::new().root();
    for (k, block) in chain.iter().enumerate() {
        assert_eq!(block.header.height, k as u64);
        assert_eq!(block.header.timestamp, timestamps[k]);
        assert_eq!(block.header.state_root, empty_root);
        assert!(block.transactions.is_empty());
        if k > 0 {
            assert_eq!(block.header.parent_hash, chain[k - 1].hash());
        }
    }
}

#[test]
fn simulation_refuses_invalid_configs() {
    let msg = "invalid consensus config: need 0 < threshold <= validators".to_string();
    assert_eq!(simulate(1, 0, 1, &vec![0, 0]), Err(msg.clone()));
    assert_eq!(simulate(1, 3, 0, &vec![0, 0]), Err(msg.clone()));
    assert_eq!(simulate(1, 3, 4, &vec![0, 0]), Err(msg));
}

#[test]
fn simulation_with_many_validators() {
    let chain = simulate(2, 300, 256, &vec![0, 1, 2]).expect("valid config");
    assert_eq!(chain.len(), 3);
}

#[test]
fn single_node_finalizes_one_block() {
    let chain = run_node(5, 6);
    assert_eq!(chain.len(), 2);
    assert_eq!(chain[1].header.height, 1);
    assert_eq!(chain[1].header.parent_hash, chain[0].hash());
}

#[test]
fn transfer_simulation_stops_when_alice_runs_dry() {
    let run = run_transfer_simulation(3, 45, 2, &vec![0, 1, 2, 3]);
    assert_eq!(run.chain.len(), 4);
    assert_eq!(run.balances, vec![(25, 20), (5, 40), (5, 40)]);
    assert_eq!(run.chain[1].transactions.len(), 2);
    assert_eq!(run.chain[2].transactions.len(), 2);
    assert_eq!(run.chain[3].transactions.len(), 0);
    let nonces: Vec<u64> = run.chain.iter().flat_map(|b| b.transactions.iter().map(|t| t.nonce)).collect();
    assert_eq!(nonces, vec![0, 1, 2, 3]);
    assert_eq!(run.chain[3].header.state_root, run.chain[2].header.state_root);
    assert_ne!(run.chain[1].header.state_root, run.chain[0].header.state_root);
}

#[test]
fn transfer_simulation_without_funds() {
    let run = run_transfer_simulation(2, 0, 3, &vec![0, 1, 2]);
    assert_eq!(run.balances, vec![(0, 0), (0, 0)]);
    assert!(run.chain.iter().all(|b| b.transactions.is_empty()));
}
