//! Chain simulations: a network of validators that commits blocks through consensus.
use vstd::prelude::*;
use vstd::set_lib::lemma_len_subset;
use crate::address_map::{Address, lemma_entries_map_finite};
use crate::block::{Block, is_child_block, is_genesis_block, transaction_views};
use crate::consensus::{
    ConsensusEngine, ConsensusState, Vote, VoteType, lemma_quorum_commits, lemma_run_fits,
    commit_attempts,
};
use crate::state::{State, ledger_root, state_root, tx_check};
use crate::transaction::{Transaction, TransactionView};
use crate::account::Account;
use crate::address_map::{entries_map, key_index};

verus! {

broadcast use vstd::string::group_string_axioms;

/// The address of the validator numbered `n` in a simulated network: `n` twenty times.
pub open spec fn validator_address(n: u8) -> Address {
    vstd::array::spec_array_fill_for_copy_type::<u8, 20>(n)
}

/// The message with which a simulation refuses its configuration.
pub open spec fn invalid_config_message() -> Seq<char> {
    "invalid consensus config: need 0 < threshold <= validators"@
}

/// A configuration that a simulation accepts: at least one validator, and a threshold
/// between one and the number of validators.
pub open spec fn valid_config(validators: usize, threshold: usize) -> bool {
    validators > 0 && threshold > 0 && threshold <= validators
}

/// `chain` starts with the genesis block over an empty ledger at `timestamps[0]`, and each
/// further block is the empty block on top of the one before it at the next timestamp.
pub open spec fn is_empty_chain(chain: Seq<Block>, timestamps: Seq<u64>) -> bool {
    &&& chain.len() >= 1
    &&& is_genesis_block(chain[0]@, ledger_root(Seq::empty()), timestamps[0])
    &&& forall|k: int|
        0 <= k < chain.len() - 1 ==> {
            &&& is_child_block(
                #[trigger] chain[k + 1]@,
                chain[k].header,
                ledger_root(Seq::empty()),
                timestamps[k + 1],
            )
            &&& chain[k + 1]@.transactions.len() == 0
        }
}

/// Proposes the block on top of the last block of `chain` that holds `transactions`
/// over `state`, has each of `voters` pre-vote and pre-commit it, runs the engine to the
/// commit, and appends the committed block.
fn commit_next_block(
    engine: &mut ConsensusEngine,
    chain: &mut Vec<Block>,
    transactions: Vec<Transaction>,
    state: &State,
    voters: &Vec<Address>,
    timestamp: u64,
)
    requires
        old(chain)@.len() >= 1,
        old(chain)@.last().header.height < u64::MAX,
        old(engine)@.height == 1,
        old(engine)@.round == 0,
        old(engine)@.threshold <= voters@.len(),
        voters@.no_duplicates(),
        forall|j: int| 0 <= j < voters@.len() ==> old(engine)@.validators.contains(
            #[trigger] voters@[j],
        ),
    ensures
        final(chain)@.len() == old(chain)@.len() + 1,
        final(chain)@.drop_last() == old(chain)@,
        is_child_block(final(chain)@.last()@, old(chain)@.last().header, state_root(*state), timestamp),
        final(chain)@.last()@.transactions == transaction_views(transactions@),
        final(engine)@.height == 1,
        final(engine)@.round == 0,
        final(engine)@.threshold == old(engine)@.threshold,
        final(engine)@.validators == old(engine)@.validators,
{
    let parent = &chain[chain.len() - 1];
    let proposed = engine.propose(parent, transactions, state, timestamp);
    let block_hash = proposed.hash();
    let mut v: usize = 0;
    while v < voters.len()
        invariant
            0 <= v <= voters@.len(),
            engine@.state == ConsensusState::Proposing,
            engine@.proposed_block == Some(proposed@),
            engine@.height == 1,
            engine@.round == 0,
            engine@.threshold == old(engine)@.threshold,
            engine@.validators == old(engine)@.validators,
            forall|j: int| 0 <= j < voters@.len() ==> engine@.validators.contains(
                #[trigger] voters@[j],
            ),
            voters@.subrange(0, v as int).to_set().subset_of(engine@.pre_votes.dom()),
            voters@.subrange(0, v as int).to_set().subset_of(engine@.pre_commits.dom()),
        decreases voters@.len() - v,
    {
        let validator = voters[v];
        engine.add_prevote(
            Vote {
                validator,
                height: engine.height,
                round: engine.round,
                block_hash,
                vote_type: VoteType::Prevote,
            },
        );
        engine.add_precommit(
            Vote {
                validator,
                height: engine.height,
                round: engine.round,
                block_hash,
                vote_type: VoteType::Precommit,
            },
        );
        assert(voters@.subrange(0, v + 1).to_set() =~= voters@.subrange(0, v as int).to_set().insert(
            validator,
        )) by {
            assert(voters@.subrange(0, v + 1) =~= voters@.subrange(0, v as int).push(validator));
            voters@.subrange(0, v as int).lemma_push_to_set_commute(validator);
        }
        v = v + 1;
    }
    proof {
        assert(voters@.subrange(0, voters@.len() as int) =~= voters@);
        voters@.unique_seq_to_set();
        lemma_entries_map_finite(engine.pre_votes.entries());
        lemma_entries_map_finite(engine.pre_commits.entries());
        lemma_len_subset(voters@.to_set(), engine@.pre_votes.dom());
        lemma_len_subset(voters@.to_set(), engine@.pre_commits.dom());
        lemma_quorum_commits(engine@, commit_attempts());
        lemma_run_fits(engine@, commit_attempts());
    }
    let committed = engine.run_to_commit();
    match committed {
        Some(block) => {
            chain.push(block);
            assert(chain@.drop_last() =~= old(chain)@);
        },
        None => {
            assert(false);
        },
    }
}

/// A deterministic simulation: `validators` validators (the one numbered `i` has address
/// `[i as u8; 20]`), of which the first `threshold` vote for each proposal, commit
/// `blocks` empty blocks on top of a genesis block over an empty ledger; block `k` is
/// made at `timestamps[k]`. A configuration outside `valid_config` is refused.
pub fn simulate(blocks: usize, validators: usize, threshold: usize, timestamps: &Vec<u64>) -> (r: Result<
    Vec<Block>,
    String,
>)
    requires
        timestamps@.len() == blocks + 1,
        valid_config(validators, threshold) && blocks > 0 ==> threshold <= 256,
    ensures
        match r {
            Err(msg) => !valid_config(validators, threshold) && msg@ == invalid_config_message(),
            Ok(chain) => valid_config(validators, threshold) && chain@.len() == blocks + 1
                && is_empty_chain(chain@, timestamps@),
        },
{
    if validators == 0 || threshold == 0 || threshold > validators {
        return Err("invalid consensus config: need 0 < threshold <= validators".to_string());
    }
    let mut addresses: Vec<Address> = Vec::new();
    let mut i: usize = 0;
    while i < validators
        invariant
            0 <= i <= validators,
            addresses@.len() == i,
            forall|j: int| 0 <= j < i ==> #[trigger] addresses@[j] == validator_address(#[verifier::truncate] (j as u8)),
        decreases validators - i,
    {
        addresses.push([#[verifier::truncate] (i as u8); 20]);
        i = i + 1;
    }
    let mut voters: Vec<Address> = Vec::new();
    let mut j: usize = 0;
    while j < threshold
        invariant
            0 <= j <= threshold <= validators,
            addresses@.len() == validators,
            forall|k: int| 0 <= k < validators ==> #[trigger] addresses@[k] == validator_address(#[verifier::truncate] (k as u8)),
            voters@ == addresses@.subrange(0, j as int),
        decreases threshold - j,
    {
        voters.push(addresses[j]);
        j = j + 1;
        assert(voters@ =~= addresses@.subrange(0, j as int));
    }
    assert(blocks > 0 ==> voters@.no_duplicates()) by {
        assert forall|a: int, b: int|
            blocks > 0 && 0 <= a < voters@.len() && 0 <= b < voters@.len() && a != b
            implies voters@[a] != voters@[b] by {
            assert(voters@[a] == validator_address(a as u8));
            assert(voters@[b] == validator_address(b as u8));
            assert(voters@[a]@[0] == a as u8);
            assert(voters@[b]@[0] == b as u8);
        }
    }
    assert forall|k: int| 0 <= k < voters@.len() implies addresses@.contains(#[trigger] voters@[k]) by {
        assert(addresses@[k] == voters@[k]);
    }
    let state = State::new();
    let genesis = Block::genesis(&state, timestamps[0]);
    let mut chain: Vec<Block> = Vec::new();
    chain.push(genesis);
    let mut engine = ConsensusEngine::new(addresses, threshold);
    let mut height: usize = 1;
    assert(timestamps.len() == blocks + 1);
    while height <= blocks
        invariant
            1 <= height <= blocks + 1,
            blocks < usize::MAX,
            timestamps@.len() == blocks + 1,
            1 <= threshold,
            chain@.len() == height,
            forall|k: int| 0 <= k < chain@.len() ==> #[trigger] chain@[k].header.height == k,
            is_empty_chain(chain@, timestamps@),
            state.accounts.entries() == Seq::<(Address, crate::account::Account)>::empty(),
            engine@.height == 1,
            engine@.round == 0,
            engine@.threshold == threshold,
            voters@.len() == threshold,
            blocks > 0 ==> voters@.no_duplicates(),
            forall|k: int| 0 <= k < voters@.len() ==> engine@.validators.contains(
                #[trigger] voters@[k],
            ),
        decreases blocks + 1 - height,
    {
        let ghost before = chain@;
        commit_next_block(&mut engine, &mut chain, Vec::new(), &state, &voters, timestamps[height]);
        proof {
            assert(chain@[height as int].header.height == height);
            assert forall|k: int| 0 <= k < chain@.len() implies #[trigger] chain@[k].header.height
                == k by {
                if k < height {
                    assert(chain@[k] == before[k]);
                }
            }
            assert forall|k: int| 0 <= k < chain@.len() - 1 implies {
                &&& is_child_block(
                    #[trigger] chain@[k + 1]@,
                    chain@[k].header,
                    ledger_root(Seq::empty()),
                    timestamps@[k + 1],
                )
                &&& chain@[k + 1]@.transactions.len() == 0
            } by {
                if k < height - 1 {
                    assert(chain@[k] == before[k]);
                    assert(chain@[k + 1] == before[k + 1]);
                }
            }
        }
        height = height + 1;
    }
    Ok(chain)
}


/// A single validator, `[1; 20]`, with threshold 1, proposes one empty block on top of the
/// genesis block over an empty ledger, votes for it, and commits it. The chain holds the
/// genesis block, made at `genesis_time`, and the committed block, made at `proposal_time`.
pub fn run_node(genesis_time: u64, proposal_time: u64) -> (chain: Vec<Block>)
    ensures
        chain@.len() == 2,
        is_empty_chain(chain@, seq![genesis_time, proposal_time]),
{
    let state = State::new();
    let genesis = Block::genesis(&state, genesis_time);
    let mut chain: Vec<Block> = Vec::new();
    chain.push(genesis);
    let validator: Address = [1u8; 20];
    let mut validators: Vec<Address> = Vec::new();
    validators.push(validator);
    let mut engine = ConsensusEngine::new(validators, 1);
    let mut voters: Vec<Address> = Vec::new();
    voters.push(validator);
    assert(voters@.no_duplicates());
    assert(engine@.validators.contains(voters@[0]));
    commit_next_block(&mut engine, &mut chain, Vec::new(), &state, &voters, proposal_time);
    assert(chain@[0] == chain@.drop_last()[0]);
    chain
}

/// The sender of the simulated transfers.
pub open spec fn alice_address() -> Address {
    vstd::array::spec_array_fill_for_copy_type::<u8, 20>(1u8)
}

/// The receiver of the simulated transfers.
pub open spec fn bob_address() -> Address {
    vstd::array::spec_array_fill_for_copy_type::<u8, 20>(2u8)
}

/// The number of the first `attempts` transfers of 10 that succeed when alice starts with
/// `initial`: each succeeds until her balance is below 10, and every one after fails.
pub open spec fn transfers_done(initial: u64, attempts: int) -> int {
    if attempts <= initial / 10 {
        attempts
    } else {
        (initial / 10) as int
    }
}

/// The account table after `done` transfers of 10 from alice to bob: alice's account,
/// then bob's once he has received something.
pub open spec fn transfer_ledger(initial: u64, done: int) -> Seq<(Address, Account)> {
    let a = (alice_address(), Account { address: alice_address(), balance: (initial - 10 * done) as u64, nonce: done as u64 });
    if done == 0 {
        seq![a]
    } else {
        seq![a, (bob_address(), Account { address: bob_address(), balance: (10 * done) as u64, nonce: 0 })]
    }
}

/// The transfer of 10 from alice to bob with nonce `nonce`.
pub open spec fn transfer_tx(nonce: int) -> TransactionView {
    TransactionView { from: alice_address(), to: bob_address(), value: 10, nonce: nonce as u64, signature: None }
}

/// The transactions that succeed among the attempts numbered `from` up to `to`.
pub open spec fn transfers_between(initial: u64, from: int, to: int) -> Seq<TransactionView> {
    let lo = transfers_done(initial, from);
    let hi = transfers_done(initial, to);
    Seq::new((hi - lo) as nat, |i: int| transfer_tx(lo + i))
}

/// The outcome of a transfer simulation: the chain (genesis first) and, for each
/// committed block, alice's and bob's balances after it.
pub struct TransferRun {
    pub chain: Vec<Block>,
    pub balances: Vec<(u64, u64)>,
}

proof fn lemma_alice_bob()
    ensures
        alice_address() != bob_address(),
        alice_address()@[0] == 1u8,
        bob_address()@[0] == 2u8,
{
    assert(alice_address()@[0] == 1u8);
    assert(bob_address()@[0] == 2u8);
}

/// What the attempt with nonce `nonce` does to the table after `transfers_done(nonce)`
/// transfers: it succeeds, and one more transfer is done, exactly while alice's balance
/// holds 10 and every earlier attempt succeeded; otherwise it is refused.
proof fn lemma_transfer_attempt(initial: u64, nonce: int)
    requires
        0 <= nonce < u64::MAX,
    ensures
        ({
            let entries = transfer_ledger(initial, transfers_done(initial, nonce));
            let tx = transfer_tx(nonce);
            &&& crate::state::transfer_fits(entries_map(entries), tx)
            &&& (transfers_done(initial, nonce + 1) == transfers_done(initial, nonce) + 1)
                == tx_check(entries_map(entries), tx).is_none()
            &&& tx_check(entries_map(entries), tx).is_none() ==> crate::state::transfer_entries(
                entries,
                tx,
            ) == transfer_ledger(initial, transfers_done(initial, nonce + 1))
            &&& tx_check(entries_map(entries), tx).is_some() ==> transfers_done(initial, nonce + 1)
                == transfers_done(initial, nonce)
            &&& tx_check(entries_map(entries), tx).is_none() ==> transfers_done(initial, nonce)
                == nonce
        }),
{
    lemma_alice_bob();
    let s = transfers_done(initial, nonce);
    let entries = transfer_ledger(initial, s);
    let tx = transfer_tx(nonce);
    let m = entries_map(entries);
    assert(entries[0].0 == alice_address());
    assert(crate::address_map::unique_keys(entries));
    assert(m.contains_key(alice_address())) by {
        crate::address_map::lemma_entries_map_domain(entries, alice_address());
    }
    assert(m[alice_address()] == entries[0].1) by {
        crate::address_map::lemma_entries_map_value(entries, 0);
    }
    if s > 0 {
        assert(m.contains_key(bob_address())) by {
            crate::address_map::lemma_entries_map_domain(entries, bob_address());
        }
        assert(m[bob_address()] == entries[1].1) by {
            crate::address_map::lemma_entries_map_value(entries, 1);
        }
    } else {
        crate::address_map::lemma_entries_map_domain(entries, bob_address());
        assert(!m.contains_key(bob_address()));
    }
    if tx_check(m, tx).is_none() {
        assert(s == nonce);
        let k0 = key_index(entries, alice_address());
        assert(k0 == 0);
        let debited = crate::state::debited_sender(m, tx);
        let e1 = entries.update(0, (alice_address(), debited));
        let credited = crate::state::credited_receiver(m, tx);
        if s > 0 {
            let k1 = key_index(e1, bob_address());
            assert(e1[1].0 == bob_address());
            assert(k1 == 1);
            assert(crate::state::transfer_entries(entries, tx) =~= e1.update(1, (bob_address(), credited)));
            assert(e1.update(1, (bob_address(), credited)) =~= transfer_ledger(initial, s + 1));
        } else {
            assert(!(exists|i: int| 0 <= i < e1.len() && e1[i].0 == bob_address()));
            assert(crate::state::transfer_entries(entries, tx) =~= e1.push((bob_address(), credited)));
            assert(e1.push((bob_address(), credited)) =~= transfer_ledger(initial, s + 1));
        }
    }
}

/// The accounts of the table after `done` transfers: alice's, and bob's once he has
/// received something.
proof fn lemma_transfer_ledger_accounts(initial: u64, done: int)
    requires
        0 <= done <= initial / 10,
    ensures
        entries_map(transfer_ledger(initial, done)).contains_key(alice_address()),
        entries_map(transfer_ledger(initial, done))[alice_address()].balance == initial - 10 * done,
        entries_map(transfer_ledger(initial, done)).contains_key(bob_address()) == (done > 0),
        done > 0 ==> entries_map(transfer_ledger(initial, done))[bob_address()].balance == 10 * done,
{
    lemma_alice_bob();
    let entries = transfer_ledger(initial, done);
    assert(crate::address_map::unique_keys(entries));
    crate::address_map::lemma_entries_map_domain(entries, alice_address());
    crate::address_map::lemma_entries_map_value(entries, 0);
    crate::address_map::lemma_entries_map_domain(entries, bob_address());
    if done > 0 {
        crate::address_map::lemma_entries_map_value(entries, 1);
    }
}

/// The transfer simulation: alice (`[1; 20]`) starts with `initial_balance` and is the
/// only validator (threshold 1). In each of `blocks` rounds she attempts
/// `transfers_per_block` transfers of 10 to bob (`[2; 20]`), with nonces counting up
/// from 0 across all attempts; those that apply go into a block proposed on top of the
/// last one over the resulting ledger, at `timestamps[round]`, which she votes for and
/// commits. After each block alice's and bob's balances are recorded (0 for a missing
/// account).
pub fn run_transfer_simulation(
    blocks: usize,
    initial_balance: u64,
    transfers_per_block: usize,
    timestamps: &Vec<u64>,
) -> (run: TransferRun)
    requires
        timestamps@.len() == blocks + 1,
        blocks * transfers_per_block <= u64::MAX,
    ensures
        run.chain@.len() == blocks + 1,
        run.balances@.len() == blocks,
        is_genesis_block(run.chain@[0]@, ledger_root(transfer_ledger(initial_balance, 0)), timestamps@[0]),
        forall|r: int|
            1 <= r <= blocks ==> {
                let done = transfers_done(initial_balance, r * transfers_per_block);
                &&& is_child_block(
                    #[trigger] run.chain@[r]@,
                    run.chain@[r - 1].header,
                    ledger_root(transfer_ledger(initial_balance, done)),
                    timestamps@[r],
                )
                &&& run.chain@[r]@.transactions == transfers_between(
                    initial_balance,
                    (r - 1) * transfers_per_block,
                    r * transfers_per_block,
                )
                &&& run.balances@[r - 1] == ((initial_balance - 10 * done) as u64, (10 * done) as u64)
            },
{
    let alice: Address = [1u8; 20];
    let bob: Address = [2u8; 20];
    proof {
        lemma_alice_bob();
    }
    let mut state = State::new();
    state.accounts.insert(alice, Account { address: alice, balance: initial_balance, nonce: 0 });
    assert(state.accounts.entries() =~= transfer_ledger(initial_balance, 0));
    let genesis = Block::genesis(&state, timestamps[0]);
    let mut chain: Vec<Block> = Vec::new();
    chain.push(genesis);
    let mut validators: Vec<Address> = Vec::new();
    validators.push(alice);
    let mut engine = ConsensusEngine::new(validators, 1);
    let mut voters: Vec<Address> = Vec::new();
    voters.push(alice);
    assert(voters@.no_duplicates());
    let mut balances: Vec<(u64, u64)> = Vec::new();
    let mut nonce: u64 = 0;
    let mut height: usize = 1;
    assert(timestamps.len() == blocks + 1);
    while height <= blocks
        invariant
            1 <= height <= blocks + 1,
            blocks < usize::MAX,
            timestamps@.len() == blocks + 1,
            blocks * transfers_per_block <= u64::MAX,
            alice == alice_address(),
            bob == bob_address(),
            nonce == (height - 1) * transfers_per_block,
            state.accounts.entries() == transfer_ledger(
                initial_balance,
                transfers_done(initial_balance, nonce as int),
            ),
            chain@.len() == height,
            balances@.len() == height - 1,
            forall|k: int| 0 <= k < chain@.len() ==> #[trigger] chain@[k].header.height == k,
            is_genesis_block(chain@[0]@, ledger_root(transfer_ledger(initial_balance, 0)), timestamps@[0]),
            forall|r: int|
                1 <= r < height ==> {
                    let done = transfers_done(initial_balance, r * transfers_per_block);
                    &&& is_child_block(
                        #[trigger] chain@[r]@,
                        chain@[r - 1].header,
                        ledger_root(transfer_ledger(initial_balance, done)),
                        timestamps@[r],
                    )
                    &&& chain@[r]@.transactions == transfers_between(
                        initial_balance,
                        (r - 1) * transfers_per_block,
                        r * transfers_per_block,
                    )
                    &&& balances@[r - 1] == ((initial_balance - 10 * done) as u64, (10 * done) as u64)
                },
            engine@.height == 1,
            engine@.round == 0,
            engine@.threshold == 1,
            voters@.len() == 1,
            voters@.no_duplicates(),
            engine@.validators.contains(voters@[0]),
        decreases blocks + 1 - height,
    {
        let ghost round_start = nonce as int;
        assert(height * transfers_per_block == round_start + transfers_per_block) by (nonlinear_arith)
            requires
                round_start == (height - 1) * transfers_per_block;
        assert(height * transfers_per_block <= blocks * transfers_per_block) by (nonlinear_arith)
            requires
                height <= blocks;
        let mut transactions: Vec<Transaction> = Vec::new();
        let mut t: usize = 0;
        while t < transfers_per_block
            invariant
                0 <= t <= transfers_per_block,
                round_start + transfers_per_block <= u64::MAX,
                nonce == round_start + t,
                alice == alice_address(),
                bob == bob_address(),
                state.accounts.entries() == transfer_ledger(
                    initial_balance,
                    transfers_done(initial_balance, nonce as int),
                ),
                transaction_views(transactions@) == transfers_between(
                    initial_balance,
                    round_start,
                    nonce as int,
                ),
                transactions@.len() <= t,
            decreases transfers_per_block - t,
        {
            let tx = Transaction::new(alice, bob, 10, nonce);
            assert(tx@ == transfer_tx(nonce as int));
            proof {
                lemma_transfer_attempt(initial_balance, nonce as int);
            }
            nonce = nonce + 1;
            match state.apply(&tx) {
                Ok(()) => {
                    let ghost before_views = transaction_views(transactions@);
                    transactions.push(tx);
                    assert(transaction_views(transactions@) =~= before_views.push(
                        transfer_tx(nonce - 1),
                    ));
                    assert(transaction_views(transactions@) =~= transfers_between(
                        initial_balance,
                        round_start,
                        nonce as int,
                    ));
                },
                Err(_) => {
                    assert(transfers_between(initial_balance, round_start, nonce as int)
                        =~= transfers_between(initial_balance, round_start, nonce - 1));
                },
            }
            t = t + 1;
        }
        let ghost before = chain@;
        let ghost before_balances = balances@;
        let ghost done = transfers_done(initial_balance, nonce as int);
        let ghost round_views = transaction_views(transactions@);
        commit_next_block(&mut engine, &mut chain, transactions, &state, &voters, timestamps[height]);
        let alice_balance = match state.accounts.get(&alice) {
            Some(account) => account.balance,
            None => 0,
        };
        let bob_balance = match state.accounts.get(&bob) {
            Some(account) => account.balance,
            None => 0,
        };
        balances.push((alice_balance, bob_balance));
        proof {
            assert(0 <= done <= initial_balance / 10);
            lemma_transfer_ledger_accounts(initial_balance, done);
            assert(alice_balance == initial_balance - 10 * done);
            assert(bob_balance == 10 * done);
            assert(done == transfers_done(initial_balance, height * transfers_per_block));
            assert(chain@[height as int]@.transactions == round_views);
            assert forall|r: int| 1 <= r < height + 1 implies {
                let done = transfers_done(initial_balance, r * transfers_per_block);
                &&& is_child_block(
                    #[trigger] chain@[r]@,
                    chain@[r - 1].header,
                    ledger_root(transfer_ledger(initial_balance, done)),
                    timestamps@[r],
                )
                &&& chain@[r]@.transactions == transfers_between(
                    initial_balance,
                    (r - 1) * transfers_per_block,
                    r * transfers_per_block,
                )
                &&& balances@[r - 1] == ((initial_balance - 10 * done) as u64, (10 * done) as u64)
            } by {
                if r < height {
                    assert(chain@[r] == before[r]);
                    assert(chain@[r - 1] == before[r - 1]);
                    assert(balances@[r - 1] == before_balances[r - 1]);
                } else {
                    assert(r == height);
                    assert(chain@[r - 1] == before[r - 1]);
                    assert(before[r - 1] == before.last());
                    assert((r - 1) * transfers_per_block == round_start);
                    assert(r * transfers_per_block == nonce);
                    assert(state_root(state) == ledger_root(transfer_ledger(initial_balance, done)));
                    assert(chain@[r]@.transactions == transfers_between(
                        initial_balance,
                        round_start,
                        nonce as int,
                    ));
                    assert(balances@[r - 1] == (alice_balance, bob_balance));
                }
            }
            assert forall|k: int| 0 <= k < chain@.len() implies #[trigger] chain@[k].header.height
                == k by {
                if k < height {
                    assert(chain@[k] == before[k]);
                }
            }
        }
        height = height + 1;
    }
    TransferRun { chain, balances }
}

} // verus!
