//! The consensus engine: one stake-weighted voting round at a time over a
//! candidate block.
//!
//! Votes are keyed by agent: a second vote from the same agent replaces the
//! first. On every vote the tallies are recomputed from the recorded votes,
//! so an overwrite can never double-count. A side wins as soon as its stake
//! strictly exceeds the configured fraction of the total stake; the round is
//! then complete and further votes are refused.

use vstd::prelude::*;
use crate::types::{Block, BlockV, block_digest};
use crate::hashing::bytes32_eq;

verus! {

/// Consensus errors.
#[derive(Debug)]
pub enum Error {
    /// Neither side has crossed the threshold yet: the round is still
    /// collecting votes.
    InsufficientStake,
    /// A new round cannot start while one is active.
    RoundAlreadyActive,
    /// A vote arrived while no round was active.
    NoActiveRound,
    /// A vote named a block other than the one under vote.
    WrongBlock,
    /// Waiting for consensus timed out.
    Timeout,
    /// An agent failed, with a description.
    Agent(String),
    /// A core error.
    Core(crate::types::Error),
    /// Any other internal failure, with a description.
    Internal(String),
}

/// An agent's vote on a block.
pub struct Vote {
    /// The voting agent's identity.
    pub agent_id: String,
    /// The hash of the block being voted on.
    pub block_hash: [u8; 32],
    /// Whether the agent approves the block.
    pub approve: bool,
    /// The agent's reason for the vote.
    pub reason: String,
    /// Optional meme URL attached to the vote.
    pub meme_url: Option<String>,
    /// The agent's signature; verified by collaborators, opaque here.
    pub signature: [u8; 64],
}

/// The mathematical value of a [`Vote`].
#[verifier::ext_equal]
pub ghost struct VoteV {
    pub agent_id: Seq<char>,
    pub block_hash: Seq<u8>,
    pub approve: bool,
    pub reason: Seq<char>,
    pub meme_url: Option<Seq<char>>,
    pub signature: Seq<u8>,
}

impl View for Vote {
    type V = VoteV;

    open spec fn view(&self) -> VoteV {
        VoteV {
            agent_id: self.agent_id@,
            block_hash: self.block_hash@,
            approve: self.approve,
            reason: self.reason@,
            meme_url: match self.meme_url {
                Some(s) => Some(s@),
                None => None,
            },
            signature: self.signature@,
        }
    }
}

impl Clone for Vote {
    fn clone(&self) -> (r: Self)
        ensures
            r@ == self@,
    {
        Vote {
            agent_id: self.agent_id.clone(),
            block_hash: self.block_hash,
            approve: self.approve,
            reason: self.reason.clone(),
            meme_url: match &self.meme_url {
                Some(s) => Some(s.clone()),
                None => None,
            },
            signature: self.signature,
        }
    }
}

/// Agent personality types, which color an agent's votes and chatter.
#[derive(Clone, Copy, Debug, PartialEq, Eq, Structural)]
pub enum AgentPersonality {
    /// Always tries to maintain order.
    Lawful,
    /// Goes with the flow.
    Neutral,
    /// Creates maximum chaos.
    Chaotic,
    /// Only cares about memes.
    Memetic,
    /// Easily bribed with virtual cookies.
    Greedy,
    Dramatic,
    Rational,
    Emotional,
    Strategic,
}

impl AgentPersonality {
    /// The personality assigned to each of the nine draw outcomes.
    pub open spec fn spec_from_index(i: u64) -> AgentPersonality {
        if i == 0 {
            AgentPersonality::Lawful
        } else if i == 1 {
            AgentPersonality::Neutral
        } else if i == 2 {
            AgentPersonality::Chaotic
        } else if i == 3 {
            AgentPersonality::Memetic
        } else if i == 4 {
            AgentPersonality::Greedy
        } else if i == 5 {
            AgentPersonality::Dramatic
        } else if i == 6 {
            AgentPersonality::Rational
        } else if i == 7 {
            AgentPersonality::Emotional
        } else {
            AgentPersonality::Strategic
        }
    }

    /// The personality for one draw outcome.
    pub fn from_index(i: u64) -> (r: AgentPersonality)
        ensures
            r == AgentPersonality::spec_from_index(i),
    {
        if i == 0 {
            AgentPersonality::Lawful
        } else if i == 1 {
            AgentPersonality::Neutral
        } else if i == 2 {
            AgentPersonality::Chaotic
        } else if i == 3 {
            AgentPersonality::Memetic
        } else if i == 4 {
            AgentPersonality::Greedy
        } else if i == 5 {
            AgentPersonality::Dramatic
        } else if i == 6 {
            AgentPersonality::Rational
        } else if i == 7 {
            AgentPersonality::Emotional
        } else {
            AgentPersonality::Strategic
        }
    }

    /// Draws a personality at random, uniformly over the nine outcomes.
    pub fn random() -> (r: AgentPersonality) {
        AgentPersonality::from_index(crate::hashing::random_below(9))
    }
}

/// Agent state.
pub struct Agent {
    /// Agent's public key.
    pub public_key: [u8; 32],
    /// Agent's personality type.
    pub personality: AgentPersonality,
    /// Agent's current mood, which affects decision making.
    pub mood: String,
    /// Agent's stake in the system.
    pub stake: u64,
    /// History of decisions.
    pub decision_history: Vec<String>,
}

impl Agent {
    /// A fresh agent with the default stake, a neutral mood, and no history.
    pub fn new(public_key: [u8; 32], personality: AgentPersonality) -> (r: Self)
        ensures
            r.public_key@ == public_key@,
            r.personality == personality,
            r.mood@ == Seq::<char>::empty(),
            r.stake == 100,
            r.decision_history@.len() == 0,
    {
        Agent {
            public_key,
            personality,
            mood: String::new(),
            stake: 100,
            decision_history: Vec::new(),
        }
    }
}

/// The lifecycle of a voting round.
#[derive(Clone, Copy, Debug, PartialEq, Eq, Structural)]
pub enum VotingState {
    /// No round has started.
    Inactive,
    /// A round is collecting votes.
    Active,
    /// The last round resolved; a new one may start.
    Completed,
}

/// One producer's accumulated rejection feedback.
#[verifier::ext_equal]
pub ghost struct FeedbackV {
    pub producer: Seq<char>,
    pub reasons: Seq<Seq<char>>,
}

/// The mathematical value of the consensus manager: the configuration and
/// the full round state.
#[verifier::ext_equal]
pub ghost struct ManagerV {
    pub total_stake: u64,
    pub finality_num: u64,
    pub finality_den: u64,
    pub voting_state: VotingState,
    pub current_block: Option<BlockV>,
    pub votes: Seq<VoteV>,
    pub feedback: Seq<FeedbackV>,
}

/// Each agent has at most one recorded vote.
pub open spec fn votes_unique(votes: Seq<VoteV>) -> bool {
    forall|i: int, j: int|
        0 <= i < j < votes.len() ==> (#[trigger] votes[i]).agent_id != (
        #[trigger] votes[j]).agent_id
}

/// Each producer has at most one feedback entry.
pub open spec fn feedback_unique(fb: Seq<FeedbackV>) -> bool {
    forall|i: int, j: int|
        0 <= i < j < fb.len() ==> (#[trigger] fb[i]).producer != (#[trigger] fb[j]).producer
}

/// Well-formedness of the manager value: votes keyed by agent, feedback
/// keyed by producer, an active round always has a candidate block, and the
/// threshold fraction has a nonzero denominator.
pub open spec fn manager_wf(m: ManagerV) -> bool {
    &&& votes_unique(m.votes)
    &&& feedback_unique(m.feedback)
    &&& (m.voting_state == VotingState::Active ==> m.current_block is Some)
    &&& m.finality_den >= 1
}

/// The index of the recorded vote of the given agent, or the length if the
/// agent has not voted.
pub open spec fn find_vote(votes: Seq<VoteV>, agent: Seq<char>) -> int
    decreases votes.len(),
{
    if votes.len() == 0 {
        0
    } else if votes[0].agent_id == agent {
        0
    } else {
        1 + find_vote(votes.drop_first(), agent)
    }
}

/// The votes after recording `v`: the agent's previous vote is replaced if
/// there is one, and `v` is appended otherwise.
pub open spec fn upsert_vote(votes: Seq<VoteV>, v: VoteV) -> Seq<VoteV> {
    if find_vote(votes, v.agent_id) < votes.len() {
        votes.update(find_vote(votes, v.agent_id), v)
    } else {
        votes.push(v)
    }
}

/// The number of recorded approval votes.
pub open spec fn count_approve(votes: Seq<VoteV>) -> int
    decreases votes.len(),
{
    if votes.len() == 0 {
        0
    } else {
        count_approve(votes.drop_last()) + if votes.last().approve {
            1int
        } else {
            0int
        }
    }
}

/// The number of recorded rejection votes.
pub open spec fn count_reject(votes: Seq<VoteV>) -> int
    decreases votes.len(),
{
    if votes.len() == 0 {
        0
    } else {
        count_reject(votes.drop_last()) + if votes.last().approve {
            0int
        } else {
            1int
        }
    }
}

/// The stake standing on one side: the per-call stake summed, with
/// saturating addition, once for every recorded vote of that side.
pub open spec fn side_stake(count: int, stake: u64) -> u64 {
    if count * stake > u64::MAX {
        u64::MAX
    } else {
        (count * stake) as u64
    }
}

/// Whether a side's stake crosses the finality threshold: it strictly
/// exceeds the fraction `finality_num / finality_den` of the total stake.
pub open spec fn crosses_threshold(side: u64, m: ManagerV) -> bool {
    (side as int) * (m.finality_den as int) > (m.total_stake as int) * (m.finality_num as int)
}

/// The index of the feedback entry of the given producer, or the length if
/// there is none.
pub open spec fn find_feedback(fb: Seq<FeedbackV>, producer: Seq<char>) -> int
    decreases fb.len(),
{
    if fb.len() == 0 {
        0
    } else if fb[0].producer == producer {
        0
    } else {
        1 + find_feedback(fb.drop_first(), producer)
    }
}

/// The feedback after appending one reason for the given producer, starting
/// a new entry if the producer had none.
pub open spec fn append_feedback(fb: Seq<FeedbackV>, producer: Seq<char>, reason: Seq<char>) -> Seq<
    FeedbackV,
> {
    let i = find_feedback(fb, producer);
    if i < fb.len() {
        fb.update(i, FeedbackV { producer: fb[i].producer, reasons: fb[i].reasons.push(reason) })
    } else {
        fb.push(FeedbackV { producer, reasons: seq![reason] })
    }
}

/// The reasons accumulated for the given producer; empty if none.
pub open spec fn feedback_reasons(fb: Seq<FeedbackV>, producer: Seq<char>) -> Seq<Seq<char>> {
    let i = find_feedback(fb, producer);
    if i < fb.len() {
        fb[i].reasons
    } else {
        Seq::<Seq<char>>::empty()
    }
}

/// The feedback after draining the given producer's entry entirely.
pub open spec fn clear_feedback(fb: Seq<FeedbackV>, producer: Seq<char>) -> Seq<FeedbackV> {
    let i = find_feedback(fb, producer);
    if i < fb.len() {
        fb.remove(i)
    } else {
        fb
    }
}

/// What `start_voting_round` returns: an error while a round is active,
/// success otherwise.
pub open spec fn spec_start_result(m: ManagerV, b: BlockV) -> Result<(), Error> {
    if m.voting_state == VotingState::Active {
        Err(Error::RoundAlreadyActive)
    } else {
        Ok(())
    }
}

/// What `start_voting_round` does to the state: while a round is active,
/// nothing; otherwise the block is installed, the votes are cleared, and the
/// round becomes active. Feedback is kept across rounds.
pub open spec fn spec_start_next(m: ManagerV, b: BlockV) -> ManagerV {
    if m.voting_state == VotingState::Active {
        m
    } else {
        ManagerV {
            voting_state: VotingState::Active,
            current_block: Some(b),
            votes: Seq::<VoteV>::empty(),
            ..m
        }
    }
}

/// What `add_vote` does and returns. A vote outside an active round or for
/// the wrong block is refused without effect. Otherwise the vote is
/// recorded (replacing the agent's previous vote), a rejection's reason is
/// added to the producer's feedback, and the tallies are recomputed from
/// scratch: if the approve side crosses the threshold the round completes
/// with `Ok(true)`; if the reject side does, with `Ok(false)`; otherwise the
/// round stays active and the result is `Err(InsufficientStake)`.
pub open spec fn spec_add_vote(m: ManagerV, v: VoteV, stake: u64) -> (ManagerV, Result<
    bool,
    Error,
>) {
    if m.voting_state != VotingState::Active {
        (m, Err(Error::NoActiveRound))
    } else {
        match m.current_block {
            None => (m, Err(Error::NoActiveRound)),
            Some(b) => {
                if v.block_hash != block_digest(b) {
                    (m, Err(Error::WrongBlock))
                } else {
                    let votes1 = upsert_vote(m.votes, v);
                    let fb1 = if v.approve {
                        m.feedback
                    } else {
                        append_feedback(m.feedback, b.producer_id, v.reason)
                    };
                    let approve = side_stake(count_approve(votes1), stake);
                    let reject = side_stake(count_reject(votes1), stake);
                    if crosses_threshold(approve, m) {
                        (
                            ManagerV {
                                voting_state: VotingState::Completed,
                                votes: votes1,
                                feedback: fb1,
                                ..m
                            },
                            Ok(true),
                        )
                    } else if crosses_threshold(reject, m) {
                        (
                            ManagerV {
                                voting_state: VotingState::Completed,
                                votes: votes1,
                                feedback: fb1,
                                ..m
                            },
                            Ok(false),
                        )
                    } else {
                        (ManagerV { votes: votes1, feedback: fb1, ..m }, Err(
                            Error::InsufficientStake,
                        ))
                    }
                }
            },
        }
    }
}

/// `find_vote` returns the first index with the given agent, or the length
/// if the agent has not voted.
pub proof fn lemma_find_vote_props(votes: Seq<VoteV>, agent: Seq<char>)
    ensures
        0 <= find_vote(votes, agent) <= votes.len(),
        find_vote(votes, agent) < votes.len() ==> votes[find_vote(votes, agent)].agent_id
            == agent,
        forall|k: int|
            0 <= k < find_vote(votes, agent) ==> (#[trigger] votes[k]).agent_id != agent,
    decreases votes.len(),
{
    if votes.len() > 0 && votes[0].agent_id != agent {
        lemma_find_vote_props(votes.drop_first(), agent);
        assert forall|k: int| 0 <= k < find_vote(votes, agent) implies (
        #[trigger] votes[k]).agent_id != agent by {
            if k > 0 {
                assert(votes.drop_first()[k - 1] == votes[k]);
            }
        }
    }
}

/// Recording a vote keeps the votes keyed by agent: the agent's previous
/// vote is replaced in place, or the new vote is appended; nothing else
/// moves.
pub proof fn lemma_upsert_props(votes: Seq<VoteV>, v: VoteV)
    requires
        votes_unique(votes),
    ensures
        votes_unique(upsert_vote(votes, v)),
        find_vote(votes, v.agent_id) < votes.len() ==> upsert_vote(votes, v).len() == votes.len(),
        find_vote(votes, v.agent_id) >= votes.len() ==> upsert_vote(votes, v).len() == votes.len()
            + 1,
        upsert_vote(votes, v)[find_vote(votes, v.agent_id)] == v,
        forall|k: int|
            0 <= k < votes.len() && k != find_vote(votes, v.agent_id) ==> upsert_vote(votes, v)[k]
                == #[trigger] votes[k],
{
    lemma_find_vote_props(votes, v.agent_id);
    let i = find_vote(votes, v.agent_id);
    if i < votes.len() {
        let result = votes.update(i, v);
        assert forall|a: int, b: int| 0 <= a < b < result.len() implies (
        #[trigger] result[a]).agent_id != (#[trigger] result[b]).agent_id by {
            if a != i && b != i {
                assert(result[a] == votes[a] && result[b] == votes[b]);
            } else if a == i {
                assert(result[b] == votes[b]);
                assert(votes[b].agent_id != v.agent_id);
            } else {
                assert(result[a] == votes[a]);
                assert(votes[a].agent_id != v.agent_id);
            }
        }
    } else {
        let result = votes.push(v);
        assert(result[votes.len() as int] == v);
        assert forall|a: int, b: int| 0 <= a < b < result.len() implies (
        #[trigger] result[a]).agent_id != (#[trigger] result[b]).agent_id by {
            if b < votes.len() {
                assert(result[a] == votes[a] && result[b] == votes[b]);
            } else {
                assert(result[a] == votes[a] && result[b] == v);
            }
        }
    }
}

/// `find_feedback` returns the first index with the given producer, or the
/// length if the producer has no entry.
pub proof fn lemma_find_feedback_props(fb: Seq<FeedbackV>, producer: Seq<char>)
    ensures
        0 <= find_feedback(fb, producer) <= fb.len(),
        find_feedback(fb, producer) < fb.len() ==> fb[find_feedback(fb, producer)].producer
            == producer,
        forall|k: int|
            0 <= k < find_feedback(fb, producer) ==> (#[trigger] fb[k]).producer != producer,
    decreases fb.len(),
{
    if fb.len() > 0 && fb[0].producer != producer {
        lemma_find_feedback_props(fb.drop_first(), producer);
        assert forall|k: int| 0 <= k < find_feedback(fb, producer) implies (
        #[trigger] fb[k]).producer != producer by {
            if k > 0 {
                assert(fb.drop_first()[k - 1] == fb[k]);
            }
        }
    }
}

/// Appending a reason keeps the feedback keyed by producer, and afterwards
/// the producer's reasons are the old ones with the new reason at the end.
pub proof fn lemma_append_feedback_props(fb: Seq<FeedbackV>, producer: Seq<char>, reason: Seq<
    char,
>)
    requires
        feedback_unique(fb),
    ensures
        feedback_unique(append_feedback(fb, producer, reason)),
        feedback_reasons(append_feedback(fb, producer, reason), producer) == feedback_reasons(
            fb,
            producer,
        ).push(reason),
{
    lemma_find_feedback_props(fb, producer);
    let i = find_feedback(fb, producer);
    let result = append_feedback(fb, producer, reason);
    if i < fb.len() {
        assert forall|a: int, b: int| 0 <= a < b < result.len() implies (
        #[trigger] result[a]).producer != (#[trigger] result[b]).producer by {
            if a != i && b != i {
                assert(result[a] == fb[a] && result[b] == fb[b]);
            } else if a == i {
                assert(result[b] == fb[b]);
                assert(result[a].producer == fb[i].producer);
            } else {
                assert(result[a] == fb[a]);
                assert(result[b].producer == fb[i].producer);
            }
        }
        lemma_find_feedback_props(result, producer);
        let fi = find_feedback(result, producer);
        assert(result[i].producer == producer);
        if fi < i {
            assert(result[fi] == fb[fi]);
            assert(fb[fi].producer != producer);
            assert(result[fi].producer == producer);
            assert(false);
        }
        if i < fi {
            assert(result[i].producer != producer);
            assert(false);
        }
    } else {
        assert(result[fb.len() as int].producer == producer);
        assert forall|a: int, b: int| 0 <= a < b < result.len() implies (
        #[trigger] result[a]).producer != (#[trigger] result[b]).producer by {
            if b < fb.len() {
                assert(result[a] == fb[a] && result[b] == fb[b]);
            } else {
                assert(result[a] == fb[a]);
                assert(fb[a].producer != producer);
            }
        }
        lemma_find_feedback_props(result, producer);
        if find_feedback(result, producer) < fb.len() {
            assert(result[find_feedback(result, producer)] == fb[find_feedback(
                result,
                producer,
            )]);
            assert(fb[find_feedback(result, producer)].producer != producer);
            assert(false);
        }
        assert(find_feedback(result, producer) == fb.len());
        assert(result[fb.len() as int].reasons =~= feedback_reasons(fb, producer).push(reason));
    }
}

/// Draining a producer's feedback removes the entry entirely: afterwards the
/// producer has no reasons, and the other entries are untouched and still
/// keyed by producer.
pub proof fn lemma_clear_feedback_props(fb: Seq<FeedbackV>, producer: Seq<char>)
    requires
        feedback_unique(fb),
    ensures
        feedback_unique(clear_feedback(fb, producer)),
        feedback_reasons(clear_feedback(fb, producer), producer) == Seq::<Seq<char>>::empty(),
        forall|k: int|
            0 <= k < clear_feedback(fb, producer).len() ==> (#[trigger] clear_feedback(
                fb,
                producer,
            )[k]).producer != producer,
{
    lemma_find_feedback_props(fb, producer);
    let i = find_feedback(fb, producer);
    if i < fb.len() {
        let result = fb.remove(i);
        assert forall|a: int, b: int| 0 <= a < b < result.len() implies (
        #[trigger] result[a]).producer != (#[trigger] result[b]).producer by {
            let a0 = if a < i { a } else { a + 1 };
            let b0 = if b < i { b } else { b + 1 };
            assert(result[a] == fb[a0] && result[b] == fb[b0]);
        }
        assert forall|k: int| 0 <= k < result.len() implies (#[trigger] result[k]).producer
            != producer by {
            let k0 = if k < i { k } else { k + 1 };
            assert(result[k] == fb[k0]);
            if fb[k0].producer == producer {
                if k0 < i {
                    assert(fb[k0].producer != producer);
                } else {
                    assert(fb[i].producer == fb[k0].producer);
                }
            }
        }
        lemma_find_feedback_props(result, producer);
        if find_feedback(result, producer) < result.len() {
            assert(result[find_feedback(result, producer)].producer == producer);
            assert(false);
        }
    }
}

/// The counts of approvals and rejections partition the recorded votes.
pub proof fn lemma_count_bounds(votes: Seq<VoteV>)
    ensures
        0 <= count_approve(votes) <= votes.len(),
        0 <= count_reject(votes) <= votes.len(),
        count_approve(votes) + count_reject(votes) == votes.len(),
    decreases votes.len(),
{
    if votes.len() > 0 {
        lemma_count_bounds(votes.drop_last());
    }
}

/// One more vote on a side moves that side's stake by one saturating step.
pub proof fn lemma_side_stake_sat(c: int, stake: u64)
    requires
        c >= 0,
    ensures
        side_stake(c + 1, stake) == if side_stake(c, stake) + stake > u64::MAX {
            u64::MAX
        } else {
            (side_stake(c, stake) + stake) as u64
        },
{
    assert((c + 1) * stake == c * stake + stake) by (nonlinear_arith);
    assert(c * stake >= 0) by (nonlinear_arith)
        requires
            c >= 0,
            stake >= 0,
    ;
}

/// The product of two 64-bit values fits in 128 bits.
pub proof fn lemma_mul_u64_fits(a: u64, b: u64)
    ensures
        0 <= (a as int) * (b as int) <= u128::MAX as int,
{
    assert(0 <= (a as int) * (b as int) <= (u64::MAX as int) * (u64::MAX as int))
        by (nonlinear_arith)
        requires
            0 <= a <= u64::MAX,
            0 <= b <= u64::MAX,
    ;
}

/// The full state of one voting round, together with the feedback store.
pub struct ConsensusState {
    /// The block currently under vote.
    pub current_block: Option<Block>,
    /// The votes for the current block, one per agent.
    pub votes: Vec<Vote>,
    /// Where the round stands.
    pub voting_state: VotingState,
    /// Rejection feedback accumulated per producer.
    pub validator_feedback: Vec<(String, Vec<String>)>,
}

impl ConsensusState {
    /// A fresh state: no block, no votes, no round, no feedback.
    pub fn new() -> (r: Self)
        ensures
            r.current_block is None,
            r.votes@.len() == 0,
            r.voting_state == VotingState::Inactive,
            r.validator_feedback@.len() == 0,
    {
        ConsensusState {
            current_block: None,
            votes: Vec::new(),
            voting_state: VotingState::Inactive,
            validator_feedback: Vec::new(),
        }
    }
}

/// The consensus manager: runs one voting round at a time and keeps the
/// producers' rejection feedback.
pub struct ConsensusManager {
    state: ConsensusState,
    total_stake: u64,
    finality_num: u64,
    finality_den: u64,
}

impl View for ConsensusManager {
    type V = ManagerV;

    closed spec fn view(&self) -> ManagerV {
        ManagerV {
            total_stake: self.total_stake,
            finality_num: self.finality_num,
            finality_den: self.finality_den,
            voting_state: self.state.voting_state,
            current_block: match self.state.current_block {
                Some(b) => Some(b@),
                None => None,
            },
            votes: Seq::new(self.state.votes@.len(), |i: int| self.state.votes@[i]@),
            feedback: Seq::new(
                self.state.validator_feedback@.len(),
                |i: int| FeedbackV {
                    producer: self.state.validator_feedback@[i].0@,
                    reasons: Seq::new(
                        self.state.validator_feedback@[i].1@.len(),
                        |j: int| self.state.validator_feedback@[i].1@[j]@,
                    ),
                },
            ),
        }
    }
}

impl ConsensusManager {
    /// A new manager over the given total stake, with the finality threshold
    /// given as the fraction `finality_num / finality_den` (for example
    /// 67/100): a side wins a round as soon as its stake strictly exceeds
    /// that fraction of the total.
    pub fn new(total_stake: u64, finality_num: u64, finality_den: u64) -> (r: Self)
        requires
            finality_den >= 1,
        ensures
            manager_wf(r@),
            r@.total_stake == total_stake,
            r@.finality_num == finality_num,
            r@.finality_den == finality_den,
            r@.voting_state == VotingState::Inactive,
            r@.current_block is None,
            r@.votes.len() == 0,
            r@.feedback.len() == 0,
    {
        ConsensusManager { state: ConsensusState::new(), total_stake, finality_num, finality_den }
    }

    /// Starts a new voting round for the given block. Fails with
    /// `RoundAlreadyActive`, changing nothing, while a round is active;
    /// otherwise installs the block, clears the votes, and activates the
    /// round. Feedback survives across rounds.
    pub fn start_voting_round(&mut self, block: Block) -> (r: Result<(), Error>)
        requires
            manager_wf(old(self)@),
        ensures
            manager_wf(final(self)@),
            final(self)@ == spec_start_next(old(self)@, block@),
            r == spec_start_result(old(self)@, block@),
    {
        if self.state.voting_state == VotingState::Active {
            return Err(Error::RoundAlreadyActive);
        }
        self.state.current_block = Some(block);
        self.state.votes = Vec::new();
        self.state.voting_state = VotingState::Active;
        proof {
            assert(self@.votes =~= Seq::<VoteV>::empty());
            assert(self@.feedback =~= old(self)@.feedback);
            assert(self@ == spec_start_next(old(self)@, block@));
        }
        Ok(())
    }

    /// A snapshot of the block currently under vote, if any.
    pub fn get_current_block(&self) -> (r: Option<Block>)
        ensures
            (r is Some) == (self@.current_block is Some),
            r matches Some(b) ==> self@.current_block matches Some(bv) && b@ == bv,
    {
        match &self.state.current_block {
            Some(b) => Some(b.clone()),
            None => None,
        }
    }

    /// A snapshot of the recorded votes, one per agent, in arrival order of
    /// each agent's first vote.
    pub fn get_votes(&self) -> (r: Vec<Vote>)
        ensures
            r@.len() == self@.votes.len(),
            forall|i: int| 0 <= i < r@.len() ==> (#[trigger] r@[i])@ == self@.votes[i],
    {
        let mut out: Vec<Vote> = Vec::new();
        let mut i: usize = 0;
        while i < self.state.votes.len()
            invariant
                i <= self.state.votes@.len(),
                self@.votes.len() == self.state.votes@.len(),
                out@.len() == i as int,
                forall|j: int| 0 <= j < i ==> (#[trigger] out@[j])@ == self@.votes[j],
            decreases self.state.votes@.len() - i,
        {
            out.push(self.state.votes[i].clone());
            i = i + 1;
        }
        out
    }

    /// Appends one feedback reason for the given producer, to be drained by
    /// that producer's next block-building attempt.
    pub fn store_feedback(&mut self, producer_id: String, feedback: String)
        requires
            manager_wf(old(self)@),
        ensures
            manager_wf(final(self)@),
            final(self)@ == (ManagerV {
                feedback: append_feedback(old(self)@.feedback, producer_id@, feedback@),
                ..old(self)@
            }),
    {
        let ghost fb0 = self@.feedback;
        let mut idx: usize = 0;
        let mut found: bool = false;
        while !found && idx < self.state.validator_feedback.len()
            invariant
                idx <= fb0.len(),
                self@ == old(self)@,
                fb0 == self@.feedback,
                fb0.len() == self.state.validator_feedback@.len(),
                forall|k: int| 0 <= k < idx ==> (#[trigger] fb0[k]).producer != producer_id@,
                found ==> idx < fb0.len() && fb0[idx as int].producer == producer_id@,
            decreases fb0.len() - idx + (if found {
                0int
            } else {
                1int
            }),
        {
            if self.state.validator_feedback[idx].0 == producer_id {
                found = true;
            } else {
                idx = idx + 1;
            }
        }
        proof {
            lemma_find_feedback_props(fb0, producer_id@);
            let fi = find_feedback(fb0, producer_id@);
            if found {
                if (idx as int) < fi {
                    assert(fb0[idx as int].producer != producer_id@);
                    assert(false);
                }
                if fi < idx as int {
                    assert(fb0[fi].producer != producer_id@);
                    assert(false);
                }
            } else {
                assert(fi == fb0.len());
            }
            lemma_append_feedback_props(fb0, producer_id@, feedback@);
        }
        if found {
            let entry = self.state.validator_feedback.remove(idx);
            let (key, mut reasons) = entry;
            reasons.push(feedback);
            self.state.validator_feedback.insert(idx, (key, reasons));
            proof {
                assert(self@.feedback =~~= append_feedback(fb0, producer_id@, feedback@));
                assert(self@ == (ManagerV {
                    feedback: append_feedback(old(self)@.feedback, producer_id@, feedback@),
                    ..old(self)@
                }));
            }
        } else {
            let mut reasons: Vec<String> = Vec::new();
            reasons.push(feedback);
            self.state.validator_feedback.push((producer_id, reasons));
            proof {
                assert(self@.feedback =~~= append_feedback(fb0, producer_id@, feedback@));
                assert(self@ == (ManagerV {
                    feedback: append_feedback(old(self)@.feedback, producer_id@, feedback@),
                    ..old(self)@
                }));
            }
        }
    }

    /// Returns and removes the feedback accumulated for the given producer:
    /// the reasons come out exactly once, and a second immediate call
    /// returns an empty sequence.
    pub fn get_and_clear_feedback(&mut self, producer_id: &str) -> (r: Vec<String>)
        requires
            manager_wf(old(self)@),
        ensures
            manager_wf(final(self)@),
            final(self)@ == (ManagerV {
                feedback: clear_feedback(old(self)@.feedback, producer_id@),
                ..old(self)@
            }),
            r@.len() == feedback_reasons(old(self)@.feedback, producer_id@).len(),
            forall|i: int|
                0 <= i < r@.len() ==> (#[trigger] r@[i])@ == feedback_reasons(
                    old(self)@.feedback,
                    producer_id@,
                )[i],
    {
        let producer = producer_id.to_owned();
        let ghost fb0 = self@.feedback;
        let mut idx: usize = 0;
        let mut found: bool = false;
        while !found && idx < self.state.validator_feedback.len()
            invariant
                idx <= fb0.len(),
                self@ == old(self)@,
                fb0 == self@.feedback,
                fb0.len() == self.state.validator_feedback@.len(),
                producer@ == producer_id@,
                forall|k: int| 0 <= k < idx ==> (#[trigger] fb0[k]).producer != producer_id@,
                found ==> idx < fb0.len() && fb0[idx as int].producer == producer_id@,
            decreases fb0.len() - idx + (if found {
                0int
            } else {
                1int
            }),
        {
            if self.state.validator_feedback[idx].0 == producer {
                found = true;
            } else {
                idx = idx + 1;
            }
        }
        proof {
            lemma_find_feedback_props(fb0, producer_id@);
            let fi = find_feedback(fb0, producer_id@);
            if found {
                if (idx as int) < fi {
                    assert(fb0[idx as int].producer != producer_id@);
                    assert(false);
                }
                if fi < idx as int {
                    assert(fb0[fi].producer != producer_id@);
                    assert(false);
                }
            } else {
                assert(fi == fb0.len());
            }
            lemma_clear_feedback_props(fb0, producer_id@);
        }
        if found {
            let entry = self.state.validator_feedback.remove(idx);
            proof {
                assert(self@.feedback =~~= clear_feedback(fb0, producer_id@));
                assert(self@ == (ManagerV {
                    feedback: clear_feedback(old(self)@.feedback, producer_id@),
                    ..old(self)@
                }));
            }
            entry.1
        } else {
            proof {
                assert(self@.feedback =~~= clear_feedback(fb0, producer_id@));
                assert(self@ == (ManagerV {
                    feedback: clear_feedback(old(self)@.feedback, producer_id@),
                    ..old(self)@
                }));
            }
            Vec::new()
        }
    }

    /// Records a vote with the given stake and checks for consensus.
    /// Refused with `NoActiveRound` outside an active round and with
    /// `WrongBlock` when the vote names another block. Otherwise the vote
    /// replaces the agent's previous one, a rejection's reason is stored as
    /// feedback for the block's producer, and the tallies are recomputed
    /// from all recorded votes: `Ok(true)` once the approve side crosses the
    /// threshold, `Ok(false)` once the reject side does (both complete the
    /// round), `Err(InsufficientStake)` while neither has.
    pub fn add_vote(&mut self, vote: Vote, stake: u64) -> (r: Result<bool, Error>)
        requires
            manager_wf(old(self)@),
        ensures
            manager_wf(final(self)@),
            final(self)@ == spec_add_vote(old(self)@, vote@, stake).0,
            r == spec_add_vote(old(self)@, vote@, stake).1,
    {
        let ghost m0 = self@;
        let ghost v = vote@;
        if self.state.voting_state != VotingState::Active {
            return Err(Error::NoActiveRound);
        }
        let (block_hash, producer_id) = match &self.state.current_block {
            Some(b) => (b.hash(), b.producer_id.clone()),
            None => {
                return Err(Error::NoActiveRound);
            },
        };
        let ghost bv = m0.current_block->Some_0;
        proof {
            assert(block_hash@ == block_digest(bv));
            assert(producer_id@ == bv.producer_id);
        }
        if !bytes32_eq(&vote.block_hash, &block_hash) {
            return Err(Error::WrongBlock);
        }
        let approve_flag = vote.approve;
        let reason = vote.reason.clone();

        let ghost votes0 = m0.votes;
        let mut idx: usize = 0;
        let mut found: bool = false;
        while !found && idx < self.state.votes.len()
            invariant
                idx <= votes0.len(),
                self@ == m0,
                votes0 == self@.votes,
                votes0.len() == self.state.votes@.len(),
                v == vote@,
                forall|k: int| 0 <= k < idx ==> (#[trigger] votes0[k]).agent_id != v.agent_id,
                found ==> idx < votes0.len() && votes0[idx as int].agent_id == v.agent_id,
            decreases votes0.len() - idx + (if found {
                0int
            } else {
                1int
            }),
        {
            if self.state.votes[idx].agent_id == vote.agent_id {
                found = true;
            } else {
                idx = idx + 1;
            }
        }
        proof {
            lemma_find_vote_props(votes0, v.agent_id);
            let fi = find_vote(votes0, v.agent_id);
            if found {
                if (idx as int) < fi {
                    assert(votes0[idx as int].agent_id != v.agent_id);
                    assert(false);
                }
                if fi < idx as int {
                    assert(votes0[fi].agent_id != v.agent_id);
                    assert(false);
                }
            } else {
                assert(fi == votes0.len());
            }
            lemma_upsert_props(votes0, v);
        }
        if found {
            self.state.votes[idx] = vote;
        } else {
            self.state.votes.push(vote);
        }
        proof {
            assert(self@.votes =~~= upsert_vote(votes0, v));
            assert(self@ == (ManagerV { votes: upsert_vote(votes0, v), ..m0 }));
        }
        if !approve_flag {
            self.store_feedback(producer_id, reason);
            proof {
                assert(v.approve == false);
                assert(self@ == (ManagerV {
                    votes: upsert_vote(votes0, v),
                    feedback: append_feedback(m0.feedback, bv.producer_id, v.reason),
                    ..m0
                }));
            }
        }
        let ghost m1 = self@;
        let ghost votes1 = upsert_vote(votes0, v);

        let mut approve_total: u64 = 0;
        let mut reject_total: u64 = 0;
        let mut i: usize = 0;
        proof {
            assert(votes1.take(0) =~= Seq::<VoteV>::empty());
        }
        while i < self.state.votes.len()
            invariant
                i <= votes1.len(),
                self@ == m1,
                m1.votes == votes1,
                votes1.len() == self.state.votes@.len(),
                approve_total == side_stake(count_approve(votes1.take(i as int)), stake),
                reject_total == side_stake(count_reject(votes1.take(i as int)), stake),
            decreases votes1.len() - i,
        {
            proof {
                lemma_count_bounds(votes1.take(i as int));
                lemma_count_bounds(votes1.take(i + 1));
                assert(votes1.take(i + 1).drop_last() =~= votes1.take(i as int));
                assert(votes1.take(i + 1).last() == votes1[i as int]);
                lemma_side_stake_sat(count_approve(votes1.take(i as int)), stake);
                lemma_side_stake_sat(count_reject(votes1.take(i as int)), stake);
                assert(self.state.votes@[i as int]@ == votes1[i as int]);
            }
            if self.state.votes[i].approve {
                approve_total = approve_total.saturating_add(stake);
            } else {
                reject_total = reject_total.saturating_add(stake);
            }
            i = i + 1;
        }
        proof {
            assert(votes1.take(votes1.len() as int) =~= votes1);
            lemma_mul_u64_fits(approve_total, self.finality_den);
            lemma_mul_u64_fits(reject_total, self.finality_den);
            lemma_mul_u64_fits(self.total_stake, self.finality_num);
        }
        let threshold_rhs = (self.total_stake as u128) * (self.finality_num as u128);
        if (approve_total as u128) * (self.finality_den as u128) > threshold_rhs {
            self.state.voting_state = VotingState::Completed;
            proof {
                assert(crosses_threshold(approve_total, m0));
                assert(self@ == (ManagerV { voting_state: VotingState::Completed, ..m1 }));
                assert(self@ == spec_add_vote(m0, v, stake).0);
            }
            return Ok(true);
        }
        if (reject_total as u128) * (self.finality_den as u128) > threshold_rhs {
            self.state.voting_state = VotingState::Completed;
            proof {
                assert(!crosses_threshold(approve_total, m0));
                assert(crosses_threshold(reject_total, m0));
                assert(self@ == (ManagerV { voting_state: VotingState::Completed, ..m1 }));
                assert(self@ == spec_add_vote(m0, v, stake).0);
            }
            return Ok(false);
        }
        proof {
            assert(!crosses_threshold(approve_total, m0));
            assert(!crosses_threshold(reject_total, m0));
            assert(self@ == spec_add_vote(m0, v, stake).0);
        }
        Err(Error::InsufficientStake)
    }
}

/// Once a round has resolved — `add_vote` returned `Ok` — every further
/// vote, whatever it says and whatever its stake, is refused with
/// `NoActiveRound` and changes nothing.
pub proof fn lemma_resolved_round_refuses_votes(
    m: ManagerV,
    v: VoteV,
    stake: u64,
    v2: VoteV,
    stake2: u64,
)
    requires
        spec_add_vote(m, v, stake).1 is Ok,
    ensures
        spec_add_vote(m, v, stake).0.voting_state == VotingState::Completed,
        spec_add_vote(spec_add_vote(m, v, stake).0, v2, stake2).0 == spec_add_vote(m, v, stake).0,
        spec_add_vote(spec_add_vote(m, v, stake).0, v2, stake2).1 == Err::<bool, Error>(
            Error::NoActiveRound,
        ),
{
    let m1 = spec_add_vote(m, v, stake).0;
    assert(m1.voting_state == VotingState::Completed);
    assert(spec_add_vote(m1, v2, stake2) == (m1, Err::<bool, Error>(Error::NoActiveRound)));
}

/// The state after a whole sequence of `add_vote` calls, applied in order.
pub open spec fn spec_add_votes(m: ManagerV, calls: Seq<(VoteV, u64)>) -> ManagerV
    decreases calls.len(),
{
    if calls.len() == 0 {
        m
    } else {
        spec_add_votes(spec_add_vote(m, calls[0].0, calls[0].1).0, calls.drop_first())
    }
}

/// A completed round is final: no sequence of further `add_vote` calls,
/// whatever it holds, changes the manager at all.
pub proof fn lemma_completed_round_is_stable(m: ManagerV, calls: Seq<(VoteV, u64)>)
    requires
        m.voting_state == VotingState::Completed,
    ensures
        spec_add_votes(m, calls) == m,
    decreases calls.len(),
{
    if calls.len() > 0 {
        assert(spec_add_vote(m, calls[0].0, calls[0].1).0 == m);
        lemma_completed_round_is_stable(m, calls.drop_first());
    }
}

/// While a round is active, a vote for the round's block resolves the round
/// `true` exactly when, with the vote recorded, the approve side's stake
/// crosses the threshold.
pub proof fn lemma_approval_resolves_true(m: ManagerV, v: VoteV, stake: u64)
    requires
        m.voting_state == VotingState::Active,
        m.current_block matches Some(b) && v.block_hash == block_digest(b),
        crosses_threshold(side_stake(count_approve(upsert_vote(m.votes, v)), stake), m),
    ensures
        spec_add_vote(m, v, stake).1 == Ok::<bool, Error>(true),
        spec_add_vote(m, v, stake).0.voting_state == VotingState::Completed,
{
}

/// One more vote at the end of the record moves the tallies by exactly that
/// vote's side.
pub proof fn lemma_count_push(votes: Seq<VoteV>, v: VoteV)
    ensures
        count_approve(votes.push(v)) == count_approve(votes) + if v.approve {
            1int
        } else {
            0int
        },
        count_reject(votes.push(v)) == count_reject(votes) + if v.approve {
            0int
        } else {
            1int
        },
{
    assert(votes.push(v).drop_last() =~= votes);
    assert(votes.push(v).last() == v);
}

/// Replacing one recorded vote moves the tallies by exactly the difference
/// between the old vote's side and the new vote's side.
pub proof fn lemma_count_update(votes: Seq<VoteV>, i: int, v: VoteV)
    requires
        0 <= i < votes.len(),
    ensures
        count_approve(votes.update(i, v)) == count_approve(votes) - (if votes[i].approve {
            1int
        } else {
            0int
        }) + (if v.approve {
            1int
        } else {
            0int
        }),
        count_reject(votes.update(i, v)) == count_reject(votes) - (if votes[i].approve {
            0int
        } else {
            1int
        }) + (if v.approve {
            0int
        } else {
            1int
        }),
    decreases votes.len(),
{
    let upd = votes.update(i, v);
    if i == votes.len() - 1 {
        assert(upd.drop_last() =~= votes.drop_last());
        assert(upd.last() == v);
    } else {
        assert(upd.drop_last() =~= votes.drop_last().update(i, v));
        assert(upd.last() == votes.last());
        lemma_count_update(votes.drop_last(), i, v);
    }
}

/// Re-voting by an agent who has already voted replaces that agent's vote —
/// the number of recorded votes does not change — and moves the tallies by
/// exactly the difference between the two votes, never double-counting.
pub proof fn lemma_revote_retally(votes: Seq<VoteV>, v: VoteV)
    requires
        votes_unique(votes),
        find_vote(votes, v.agent_id) < votes.len(),
    ensures
        upsert_vote(votes, v).len() == votes.len(),
        upsert_vote(votes, v)[find_vote(votes, v.agent_id)] == v,
        count_approve(upsert_vote(votes, v)) == count_approve(votes) - (if votes[find_vote(
            votes,
            v.agent_id,
        )].approve {
            1int
        } else {
            0int
        }) + (if v.approve {
            1int
        } else {
            0int
        }),
        count_reject(upsert_vote(votes, v)) == count_reject(votes) - (if votes[find_vote(
            votes,
            v.agent_id,
        )].approve {
            0int
        } else {
            1int
        }) + (if v.approve {
            0int
        } else {
            1int
        }),
{
    lemma_find_vote_props(votes, v.agent_id);
    lemma_upsert_props(votes, v);
    lemma_count_update(votes, find_vote(votes, v.agent_id), v);
}

/// Starting a round while none is active succeeds and installs the block
/// with an empty vote set; a second start before the round resolves fails
/// with `RoundAlreadyActive` and leaves the running round — its block and
/// its votes — untouched.
pub proof fn lemma_start_twice(m: ManagerV, b1: BlockV, b2: BlockV)
    requires
        m.voting_state != VotingState::Active,
    ensures
        spec_start_result(m, b1) == Ok::<(), Error>(()),
        spec_start_next(m, b1).voting_state == VotingState::Active,
        spec_start_next(m, b1).current_block == Some(b1),
        spec_start_next(m, b1).votes == Seq::<VoteV>::empty(),
        spec_start_result(spec_start_next(m, b1), b2) == Err::<(), Error>(
            Error::RoundAlreadyActive,
        ),
        spec_start_next(spec_start_next(m, b1), b2) == spec_start_next(m, b1),
{
}

/// Draining a producer's feedback hands the reasons out exactly once: the
/// drain removes the entry, so an immediate second drain finds nothing and
/// changes nothing.
pub proof fn lemma_feedback_drained_once(fb: Seq<FeedbackV>, producer: Seq<char>)
    requires
        feedback_unique(fb),
    ensures
        feedback_reasons(clear_feedback(fb, producer), producer) == Seq::<Seq<char>>::empty(),
        clear_feedback(clear_feedback(fb, producer), producer) == clear_feedback(fb, producer),
{
    lemma_clear_feedback_props(fb, producer);
    let cleared = clear_feedback(fb, producer);
    lemma_find_feedback_props(cleared, producer);
    if find_feedback(cleared, producer) < cleared.len() {
        assert(cleared[find_feedback(cleared, producer)].producer == producer);
        assert(false);
    }
}

} // verus!
