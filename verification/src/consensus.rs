//! Round-based BFT consensus: propose, pre-vote, pre-commit, commit.
use vstd::prelude::*;
use crate::address_map::{Address, AddressMap, same_address};
use crate::block::{Block, BlockView, is_child_block, transaction_views};
use crate::state::{State, state_root};
use crate::transaction::Transaction;

verus! {

/// The phase of the current round.
#[derive(Debug, Clone, Copy, PartialEq, Eq, Structural)]
pub enum ConsensusState {
    Idle,
    Proposing,
    PreVote,
    PreCommit,
    Commit,
}

/// Which of the two votes of a round a vote is.
#[derive(Debug, Clone, Copy, PartialEq, Eq, Structural)]
pub enum VoteType {
    Prevote,
    Precommit,
}

/// A validator's vote for a block.
#[derive(Debug, Clone, Copy, PartialEq, Eq)]
pub struct Vote {
    pub validator: Address,
    pub height: u64,
    pub round: u64,
    pub block_hash: [u8; 32],
    pub vote_type: VoteType,
}

/// The consensus state of one node: the phase, the proposed block, and the votes
/// received from validators, at most one of each kind per validator.
pub struct ConsensusEngine {
    pub state: ConsensusState,
    pub height: u64,
    pub round: u64,
    pub proposed_block: Option<Block>,
    pub pre_votes: AddressMap<Vote>,
    pub pre_commits: AddressMap<Vote>,
    pub validators: Vec<Address>,
    pub threshold: usize,
}

/// An engine as a mathematical value.
pub struct EngineView {
    pub state: ConsensusState,
    pub height: u64,
    pub round: u64,
    pub proposed_block: Option<BlockView>,
    pub pre_votes: Map<Address, Vote>,
    pub pre_commits: Map<Address, Vote>,
    pub validators: Seq<Address>,
    pub threshold: usize,
}

/// An optional block, as a value.
pub open spec fn block_option_view(b: Option<Block>) -> Option<BlockView> {
    match b {
        Some(b) => Some(b@),
        None => None,
    }
}

impl View for ConsensusEngine {
    type V = EngineView;

    open spec fn view(&self) -> EngineView {
        EngineView {
            state: self.state,
            height: self.height,
            round: self.round,
            proposed_block: block_option_view(self.proposed_block),
            pre_votes: self.pre_votes@,
            pre_commits: self.pre_commits@,
            validators: self.validators@,
            threshold: self.threshold,
        }
    }
}

/// One step of the engine: the next engine, and the block committed by the step, if any.
/// Proposing moves on to PreVote; PreVote moves on to PreCommit once `threshold`
/// pre-votes are in; PreCommit moves on to Commit, handing out the proposed block, once
/// `threshold` pre-commits are in; Commit starts the next height from Idle; Idle stays.
pub open spec fn step_spec(m: EngineView) -> (EngineView, Option<BlockView>) {
    match m.state {
        ConsensusState::Idle => (m, None),
        ConsensusState::Proposing => (EngineView { state: ConsensusState::PreVote, ..m }, None),
        ConsensusState::PreVote => {
            if m.pre_votes.len() >= m.threshold {
                (EngineView { state: ConsensusState::PreCommit, ..m }, None)
            } else {
                (m, None)
            }
        },
        ConsensusState::PreCommit => {
            if m.pre_commits.len() >= m.threshold {
                (EngineView { state: ConsensusState::Commit, ..m }, m.proposed_block)
            } else {
                (m, None)
            }
        },
        ConsensusState::Commit => (
            EngineView {
                state: ConsensusState::Idle,
                height: (m.height + 1) as u64,
                round: 0,
                proposed_block: None,
                pre_votes: Map::empty(),
                pre_commits: Map::empty(),
                ..m
            },
            None,
        ),
    }
}

/// A step stays within the range of `u64`: a Commit step can advance the height.
pub open spec fn step_fits(m: EngineView) -> bool {
    m.state == ConsensusState::Commit ==> m.height < u64::MAX
}

/// Up to `n` steps, stopping at the first that commits a block.
pub open spec fn run_spec(m: EngineView, n: nat) -> (EngineView, Option<BlockView>)
    decreases n,
{
    if n == 0 {
        (m, None)
    } else {
        let (next, committed) = step_spec(m);
        if committed is Some {
            (next, committed)
        } else {
            run_spec(next, (n - 1) as nat)
        }
    }
}

/// Every step of `run_spec(m, n)` stays within the range of `u64`.
pub open spec fn run_fits(m: EngineView, n: nat) -> bool
    decreases n,
{
    n == 0 || (step_fits(m) && (step_spec(m).1 is None ==> run_fits(step_spec(m).0, (n - 1) as nat)))
}

/// The engine after `vote` is offered as a pre-vote: recorded under its validator
/// (replacing an earlier one) when that address is a validator, ignored otherwise.
pub open spec fn with_prevote(m: EngineView, vote: Vote) -> EngineView {
    if m.validators.contains(vote.validator) {
        EngineView { pre_votes: m.pre_votes.insert(vote.validator, vote), ..m }
    } else {
        m
    }
}

/// The engine after `vote` is offered as a pre-commit (see `with_prevote`).
pub open spec fn with_precommit(m: EngineView, vote: Vote) -> EngineView {
    if m.validators.contains(vote.validator) {
        EngineView { pre_commits: m.pre_commits.insert(vote.validator, vote), ..m }
    } else {
        m
    }
}

/// Every recorded vote comes from a validator and is stored under its own address.
pub open spec fn votes_from_validators(m: EngineView) -> bool {
    &&& forall|a: Address| #[trigger] m.pre_votes.contains_key(a) ==> m.validators.contains(a)
        && m.pre_votes[a].validator == a
    &&& forall|a: Address| #[trigger] m.pre_commits.contains_key(a) ==> m.validators.contains(a)
        && m.pre_commits[a].validator == a
}

/// The number of steps that `run_to_commit` takes at most.
pub open spec fn commit_attempts() -> nat {
    10
}

impl ConsensusEngine {
    /// An idle engine at height 1, round 0, with no proposal and no votes.
    pub fn new(validators: Vec<Address>, threshold: usize) -> (e: Self)
        ensures
            e@ == (EngineView {
                state: ConsensusState::Idle,
                height: 1,
                round: 0,
                proposed_block: None,
                pre_votes: Map::empty(),
                pre_commits: Map::empty(),
                validators: validators@,
                threshold,
            }),
    {
        ConsensusEngine {
            state: ConsensusState::Idle,
            height: 1,
            round: 0,
            proposed_block: None,
            pre_votes: AddressMap::new(),
            pre_commits: AddressMap::new(),
            validators,
            threshold,
        }
    }

    /// Makes the block on top of `parent` holding `transactions` over `state`, records
    /// it as the proposal, enters Proposing, and returns the block.
    pub fn propose(
        &mut self,
        parent: &Block,
        transactions: Vec<Transaction>,
        state: &State,
        timestamp: u64,
    ) -> (b: Block)
        requires
            parent.header.height < u64::MAX,
        ensures
            is_child_block(b@, parent.header, state_root(*state), timestamp),
            b@.transactions == transaction_views(transactions@),
            final(self)@ == (EngineView {
                state: ConsensusState::Proposing,
                proposed_block: Some(b@),
                ..old(self)@
            }),
    {
        let block = Block::new(parent, transactions, state, timestamp);
        self.proposed_block = Some(block.duplicate());
        self.state = ConsensusState::Proposing;
        block
    }

    /// Starts a round on `proposed`: records it, enters Proposing, drops all votes.
    pub fn start_round(&mut self, proposed: Block)
        ensures
            final(self)@ == (EngineView {
                state: ConsensusState::Proposing,
                proposed_block: Some(proposed@),
                pre_votes: Map::empty(),
                pre_commits: Map::empty(),
                ..old(self)@
            }),
    {
        self.proposed_block = Some(proposed);
        self.state = ConsensusState::Proposing;
        self.pre_votes.clear();
        self.pre_commits.clear();
    }

    /// Whether `address` is one of the validators.
    fn is_validator(&self, address: &Address) -> (b: bool)
        ensures
            b == self.validators@.contains(*address),
    {
        let mut i: usize = 0;
        while i < self.validators.len()
            invariant
                0 <= i <= self.validators@.len(),
                forall|j: int| 0 <= j < i ==> self.validators@[j] != *address,
            decreases self.validators@.len() - i,
        {
            if same_address(&self.validators[i], address) {
                assert(self.validators@[i as int] == *address);
                return true;
            }
            i = i + 1;
        }
        false
    }

    /// Records a pre-vote, replacing any earlier pre-vote of the same validator. A vote
    /// from an address that is not a validator is ignored.
    pub fn add_prevote(&mut self, vote: Vote)
        ensures
            final(self)@ == with_prevote(old(self)@, vote),
    {
        if self.is_validator(&vote.validator) {
            self.pre_votes.insert(vote.validator, vote);
        }
    }

    /// Records a pre-commit, replacing any earlier pre-commit of the same validator. A
    /// vote from an address that is not a validator is ignored.
    pub fn add_precommit(&mut self, vote: Vote)
        ensures
            final(self)@ == with_precommit(old(self)@, vote),
    {
        if self.is_validator(&vote.validator) {
            self.pre_commits.insert(vote.validator, vote);
        }
    }

    /// Advances the engine by one step (see `step_spec`), returning the committed block
    /// when the step commits one.
    pub fn step(&mut self) -> (committed: Option<Block>)
        requires
            step_fits(old(self)@),
        ensures
            (final(self)@, block_option_view(committed)) == step_spec(old(self)@),
    {
        match self.state {
            ConsensusState::Idle => None,
            ConsensusState::Proposing => {
                self.state = ConsensusState::PreVote;
                None
            },
            ConsensusState::PreVote => {
                let vote_count = self.pre_votes.len();
                if vote_count >= self.threshold {
                    self.state = ConsensusState::PreCommit;
                }
                None
            },
            ConsensusState::PreCommit => {
                let commit_count = self.pre_commits.len();
                if commit_count >= self.threshold {
                    self.state = ConsensusState::Commit;
                    return match &self.proposed_block {
                        Some(b) => Some(b.duplicate()),
                        None => None,
                    };
                }
                None
            },
            ConsensusState::Commit => {
                self.height = self.height + 1;
                self.round = 0;
                self.pre_votes.clear();
                self.pre_commits.clear();
                self.proposed_block = None;
                self.state = ConsensusState::Idle;
                None
            },
        }
    }

    /// Steps the engine until a step commits a block, at most ten times; returns that
    /// block, or `None` when no step committed one.
    pub fn run_to_commit(&mut self) -> (committed: Option<Block>)
        requires
            run_fits(old(self)@, commit_attempts()),
        ensures
            (final(self)@, block_option_view(committed)) == run_spec(old(self)@, commit_attempts()),
    {
        let mut i: usize = 0;
        while i < 10
            invariant
                0 <= i <= 10,
                run_spec(old(self)@, commit_attempts()) == run_spec(self@, (10 - i) as nat),
                run_fits(self@, (10 - i) as nat),
            decreases 10 - i,
        {
            if let Some(block) = self.step() {
                return Some(block);
            }
            i = i + 1;
        }
        None
    }
}

/// The phase that follows `s` in a round.
pub open spec fn next_phase(s: ConsensusState) -> ConsensusState {
    match s {
        ConsensusState::Idle => ConsensusState::Idle,
        ConsensusState::Proposing => ConsensusState::PreVote,
        ConsensusState::PreVote => ConsensusState::PreCommit,
        ConsensusState::PreCommit => ConsensusState::Commit,
        ConsensusState::Commit => ConsensusState::Idle,
    }
}

/// A step never skips a phase: it stays in its phase or moves to the next one, and only
/// the step out of Commit changes the height (by one) or the round.
pub proof fn lemma_phase_order(m: EngineView)
    ensures
        step_spec(m).0.state == m.state || step_spec(m).0.state == next_phase(m.state),
        m.state != ConsensusState::Commit ==> step_spec(m).0.height == m.height
            && step_spec(m).0.round == m.round,
        m.state == ConsensusState::Commit ==> step_spec(m).0.height == m.height + 1 || m.height
            == u64::MAX,
{
}

/// From Idle, no number of steps commits anything, and the engine stays as it is.
pub proof fn lemma_idle_stays(m: EngineView, n: nat)
    requires
        m.state == ConsensusState::Idle,
    ensures
        run_spec(m, n) == (m, None::<BlockView>),
    decreases n,
{
    if n > 0 {
        lemma_idle_stays(m, (n - 1) as nat);
    }
}

/// A block is committed only with a quorum: when a run commits a block, that block is
/// the engine's proposal, at least `threshold` validators' pre-commits are recorded, the
/// engine was in a round (Proposing, PreVote or PreCommit), and, unless the round had
/// already reached PreCommit, at least `threshold` pre-votes are recorded too.
pub proof fn lemma_commit_requires_quorum(m: EngineView, n: nat)
    requires
        run_spec(m, n).1 is Some,
    ensures
        run_spec(m, n).1 == m.proposed_block,
        m.pre_commits.len() >= m.threshold,
        m.state == ConsensusState::Proposing || m.state == ConsensusState::PreVote || m.state
            == ConsensusState::PreCommit,
        m.state != ConsensusState::PreCommit ==> m.pre_votes.len() >= m.threshold,
    decreases n,
{
    let (next, committed) = step_spec(m);
    match m.state {
        ConsensusState::Idle => {
            lemma_idle_stays(m, n);
        },
        ConsensusState::Commit => {
            lemma_idle_stays(next, (n - 1) as nat);
        },
        _ => {
            if committed is None {
                lemma_commit_requires_quorum(next, (n - 1) as nat);
            }
        },
    }
}

/// A round with a proposal and a quorum of both kinds of votes commits its proposal:
/// three steps from Proposing reach Commit and hand out the proposed block.
pub proof fn lemma_quorum_commits(m: EngineView, n: nat)
    requires
        m.state == ConsensusState::Proposing,
        m.proposed_block is Some,
        m.pre_votes.len() >= m.threshold,
        m.pre_commits.len() >= m.threshold,
        n >= 3,
    ensures
        run_spec(m, n) == (EngineView { state: ConsensusState::Commit, ..m }, m.proposed_block),
{
    let m1 = EngineView { state: ConsensusState::PreVote, ..m };
    let m2 = EngineView { state: ConsensusState::PreCommit, ..m };
    assert(step_spec(m) == (m1, None::<BlockView>));
    assert(step_spec(m1) == (m2, None::<BlockView>));
    assert(run_spec(m, n) == run_spec(m1, (n - 1) as nat));
    assert(run_spec(m1, (n - 1) as nat) == run_spec(m2, (n - 2) as nat));
}

/// Without `threshold` pre-commits no run commits a block.
pub proof fn lemma_no_commit_without_quorum(m: EngineView, n: nat)
    requires
        m.pre_commits.len() < m.threshold,
    ensures
        run_spec(m, n).1 is None,
{
    if run_spec(m, n).1 is Some {
        lemma_commit_requires_quorum(m, n);
    }
}

/// Only validators' votes are ever recorded: offering votes and stepping the engine keep
/// every recorded vote that of a validator, filed under its own address.
pub proof fn lemma_votes_stay_from_validators(m: EngineView, vote: Vote, n: nat)
    requires
        votes_from_validators(m),
    ensures
        votes_from_validators(with_prevote(m, vote)),
        votes_from_validators(with_precommit(m, vote)),
        votes_from_validators(step_spec(m).0),
        votes_from_validators(run_spec(m, n).0),
    decreases n,
{
    if n > 0 {
        lemma_votes_stay_from_validators(step_spec(m).0, vote, (n - 1) as nat);
    }
}

/// A run can always take its steps within `u64` while the height is below the maximum.
pub proof fn lemma_run_fits(m: EngineView, n: nat)
    requires
        m.height < u64::MAX,
    ensures
        run_fits(m, n),
    decreases n,
{
    if n > 0 {
        let next = step_spec(m).0;
        if next.height < u64::MAX {
            lemma_run_fits(next, (n - 1) as nat);
        } else {
            assert(next.state == ConsensusState::Idle);
            lemma_idle_fits(next, (n - 1) as nat);
        }
    }
}

proof fn lemma_idle_fits(m: EngineView, n: nat)
    requires
        m.state == ConsensusState::Idle,
    ensures
        run_fits(m, n),
    decreases n,
{
    if n > 0 {
        lemma_idle_fits(m, (n - 1) as nat);
    }
}

/// A validator's pre-vote is recorded as given: after it is offered, the validator's
/// pre-vote is exactly that vote, whether or not it had pre-voted before; the other
/// validators' pre-votes, all pre-commits and the rest of the engine are untouched. A vote
/// from an address that is not a validator changes nothing.
pub proof fn lemma_prevote_recorded(m: EngineView, vote: Vote, other: Address)
    ensures
        ({
            let after = with_prevote(m, vote);
            &&& m.validators.contains(vote.validator) ==> after.pre_votes.contains_key(vote.validator)
                && after.pre_votes[vote.validator] == vote
            &&& !m.validators.contains(vote.validator) ==> after == m
            &&& other != vote.validator ==> after.pre_votes.contains_key(other)
                == m.pre_votes.contains_key(other) && (m.pre_votes.contains_key(other)
                ==> after.pre_votes[other] == m.pre_votes[other])
            &&& after.pre_commits == m.pre_commits
            &&& after.state == m.state
            &&& after.proposed_block == m.proposed_block
            &&& after.validators == m.validators
            &&& after.threshold == m.threshold
            &&& after.height == m.height
            &&& after.round == m.round
        }),
{
}

/// A validator's pre-commit is recorded as given, whatever pre-votes are recorded: after
/// it is offered, the validator's pre-commit is exactly that vote; the other validators'
/// pre-commits, all pre-votes and the rest of the engine are untouched. A vote from an
/// address that is not a validator changes nothing.
pub proof fn lemma_precommit_recorded(m: EngineView, vote: Vote, other: Address)
    ensures
        ({
            let after = with_precommit(m, vote);
            &&& m.validators.contains(vote.validator) ==> after.pre_commits.contains_key(
                vote.validator,
            ) && after.pre_commits[vote.validator] == vote
            &&& !m.validators.contains(vote.validator) ==> after == m
            &&& other != vote.validator ==> after.pre_commits.contains_key(other)
                == m.pre_commits.contains_key(other) && (m.pre_commits.contains_key(other)
                ==> after.pre_commits[other] == m.pre_commits[other])
            &&& after.pre_votes == m.pre_votes
            &&& after.state == m.state
            &&& after.proposed_block == m.proposed_block
            &&& after.validators == m.validators
            &&& after.threshold == m.threshold
            &&& after.height == m.height
            &&& after.round == m.round
        }),
{
}

/// The later of two votes of the same kind from one validator replaces the earlier one:
/// offering `first` and then `second` leaves the engine as offering `second` alone does.
pub proof fn lemma_later_vote_replaces(m: EngineView, first: Vote, second: Vote)
    requires
        first.validator == second.validator,
    ensures
        with_prevote(with_prevote(m, first), second) == with_prevote(m, second),
        with_precommit(with_precommit(m, first), second) == with_precommit(m, second),
{
    if m.validators.contains(first.validator) {
        assert(m.pre_votes.insert(first.validator, first).insert(second.validator, second)
            =~= m.pre_votes.insert(second.validator, second));
        assert(m.pre_commits.insert(first.validator, first).insert(second.validator, second)
            =~= m.pre_commits.insert(second.validator, second));
    }
}

/// The order in which pre-votes and pre-commits arrive does not matter: offering a
/// pre-vote and then a pre-commit leaves the engine as offering them the other way round.
pub proof fn lemma_vote_order_irrelevant(m: EngineView, prevote: Vote, precommit: Vote)
    ensures
        with_precommit(with_prevote(m, prevote), precommit) == with_prevote(
            with_precommit(m, precommit),
            prevote,
        ),
{
}

/// A step moves from PreVote to PreCommit exactly when at least `threshold` pre-votes are
/// recorded, and from PreCommit to Commit, handing out the proposal, exactly when at least
/// `threshold` pre-commits are; the step out of Commit drops the proposal and all votes,
/// starts round 0 at the next height and goes Idle. No step changes the validators or the
/// threshold, and only the step out of Commit changes the votes.
pub proof fn lemma_step_effects(m: EngineView)
    requires
        step_fits(m),
    ensures
        ({
            let (after, committed) = step_spec(m);
            &&& after.validators == m.validators
            &&& after.threshold == m.threshold
            &&& m.state != ConsensusState::Commit ==> after.pre_votes == m.pre_votes
                && after.pre_commits == m.pre_commits && after.proposed_block == m.proposed_block
            &&& m.state == ConsensusState::PreVote ==> (after.state == ConsensusState::PreCommit
                <==> m.pre_votes.len() >= m.threshold) && committed is None
            &&& m.state == ConsensusState::PreCommit ==> (after.state == ConsensusState::Commit
                <==> m.pre_commits.len() >= m.threshold)
            &&& m.state == ConsensusState::PreCommit && m.pre_commits.len() >= m.threshold
                ==> committed == m.proposed_block
            &&& committed is Some ==> m.state == ConsensusState::PreCommit
            &&& m.state == ConsensusState::Proposing ==> after.state == ConsensusState::PreVote
            &&& m.state == ConsensusState::Commit ==> {
                &&& after.state == ConsensusState::Idle
                &&& after.height == m.height + 1
                &&& after.round == 0
                &&& after.proposed_block is None
                &&& after.pre_votes.is_empty()
                &&& after.pre_commits.is_empty()
            }
        }),
{
    if m.state == ConsensusState::Commit {
        assert(step_spec(m).0.pre_votes.dom() =~= Set::empty());
        assert(step_spec(m).0.pre_commits.dom() =~= Set::empty());
    }
}

} // verus!
