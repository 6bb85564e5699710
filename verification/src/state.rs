//! Chain state: finalized blocks, account balances, and the block-producer
//! allow-list.
//!
//! Accounts and producers are identified by the hexadecimal form of their
//! 32-byte public key. Blocks are kept ordered by height; rewards are
//! credited to every producer when a block is applied.

use vstd::prelude::*;
use crate::types::{
    Block, BlockV, ChainState, Transaction, Error as CoreError, balances_view, strings_view,
    blocks_view,
};
use crate::hashing::{hex_encode, hex_of};

verus! {

/// State update operation.
pub enum StateOp {
    /// Bind a key to a value.
    Put { key: Vec<u8>, value: Vec<u8> },
    /// Delete a key.
    Delete { key: Vec<u8> },
}

/// A state diff: changes to be applied, between two state roots.
pub struct StateDiff {
    /// State operations to apply.
    pub ops: Vec<StateOp>,
    /// Previous state root.
    pub prev_root: [u8; 32],
    /// New state root after applying the operations.
    pub new_root: [u8; 32],
}

/// State store errors.
#[derive(Debug)]
pub enum StateError {
    /// A key was not found.
    KeyNotFound(String),
    /// A state root did not match.
    InvalidStateRoot,
    /// A core error.
    Core(CoreError),
    /// Any other internal failure, with a description.
    Internal(String),
}

/// Chain configuration.
pub struct ChainConfig {
    /// Minimum time between blocks, in milliseconds.
    pub min_block_time: u64,
    /// Block reward credited to each producer per applied block, if any.
    pub block_reward: Option<u64>,
}

impl Clone for ChainConfig {
    fn clone(&self) -> (r: Self)
        ensures
            r.min_block_time == self.min_block_time,
            r.block_reward == self.block_reward,
    {
        ChainConfig { min_block_time: self.min_block_time, block_reward: self.block_reward }
    }
}

impl Default for ChainConfig {
    /// One block a second, no reward.
    fn default() -> (r: Self)
        ensures
            r.min_block_time == 1000,
            r.block_reward is None,
    {
        ChainConfig { min_block_time: 1000, block_reward: None }
    }
}

/// The state store interface.
pub trait StateStore {
    /// Gets a value by key.
    fn get(&self, key: &[u8]) -> Result<Option<Vec<u8>>, StateError>;

    /// Applies a state diff.
    fn apply_diff(&mut self, diff: StateDiff) -> Result<(), StateError>;

    /// The current state root.
    fn state_root(&self) -> [u8; 32];

    /// The current block height.
    fn get_block_height(&self) -> u64;

    /// Applies a block to the state.
    fn apply_block(&mut self, block: &Block) -> Result<(), StateError>;
}

/// The mathematical value of the state store.
#[verifier::ext_equal]
pub ghost struct StoreV {
    pub balances: Seq<(Seq<char>, u64)>,
    pub producers: Seq<Seq<char>>,
    pub blocks: Seq<BlockV>,
    pub min_block_time: u64,
    pub block_reward: Option<u64>,
    pub last_block_time: u64,
}

/// The blocks are ordered by height, earliest first; equal heights keep
/// their arrival order.
pub open spec fn blocks_ordered(blocks: Seq<BlockV>) -> bool {
    forall|i: int, j: int|
        0 <= i < j < blocks.len() ==> (#[trigger] blocks[i]).height <= (
        #[trigger] blocks[j]).height
}

/// The index of the first balance entry with the given key, or the length.
pub open spec fn find_balance(balances: Seq<(Seq<char>, u64)>, key: Seq<char>) -> int
    decreases balances.len(),
{
    if balances.len() == 0 {
        0
    } else if balances[0].0 == key {
        0
    } else {
        1 + find_balance(balances.drop_first(), key)
    }
}

/// The balance recorded for a key; zero if the key has no entry.
pub open spec fn balance_of(balances: Seq<(Seq<char>, u64)>, key: Seq<char>) -> u64 {
    if find_balance(balances, key) < balances.len() {
        balances[find_balance(balances, key)].1
    } else {
        0
    }
}

/// The balances after crediting an amount to a key: the first entry with
/// that key grows by the amount, saturating; a key without an entry gets
/// one.
pub open spec fn credit(balances: Seq<(Seq<char>, u64)>, key: Seq<char>, amount: u64) -> Seq<
    (Seq<char>, u64),
> {
    let i = find_balance(balances, key);
    if i < balances.len() {
        balances.update(
            i,
            (
                balances[i].0,
                if balances[i].1 + amount > u64::MAX {
                    u64::MAX
                } else {
                    (balances[i].1 + amount) as u64
                },
            ),
        )
    } else {
        balances.push((key, amount))
    }
}

/// The balances after crediting an amount to each listed key in turn.
pub open spec fn credit_all(
    balances: Seq<(Seq<char>, u64)>,
    keys: Seq<Seq<char>>,
    amount: u64,
) -> Seq<(Seq<char>, u64)>
    decreases keys.len(),
{
    if keys.len() == 0 {
        balances
    } else {
        credit_all(credit(balances, keys[0], amount), keys.drop_first(), amount)
    }
}

/// Whether one of the producers is the given identity.
pub open spec fn producers_contain(producers: Seq<Seq<char>>, p: Seq<char>) -> bool {
    exists|i: int| 0 <= i < producers.len() && (#[trigger] producers[i]) == p
}

/// The position at which a block of the given height is inserted: after
/// every block of that height or lower, before the rest.
pub open spec fn block_insert_pos(blocks: Seq<BlockV>, height: u64) -> int
    decreases blocks.len(),
{
    if blocks.len() == 0 {
        0
    } else if blocks[0].height <= height {
        1 + block_insert_pos(blocks.drop_first(), height)
    } else {
        0
    }
}

/// The balances after crediting each producer the block reward, if one is
/// configured.
pub open spec fn apply_rewards(
    balances: Seq<(Seq<char>, u64)>,
    producers: Seq<Seq<char>>,
    reward: Option<u64>,
) -> Seq<(Seq<char>, u64)> {
    match reward {
        Some(amount) => credit_all(balances, producers, amount),
        None => balances,
    }
}

/// What applying a block does to the store: rewards are credited and the
/// block is filed at its height.
pub open spec fn spec_apply_block(s: StoreV, b: BlockV) -> StoreV {
    StoreV {
        balances: apply_rewards(s.balances, s.producers, s.block_reward),
        blocks: s.blocks.insert(block_insert_pos(s.blocks, b.height), b),
        ..s
    }
}

/// `find_balance` returns the first index with the given key, or the length.
pub proof fn lemma_find_balance_props(balances: Seq<(Seq<char>, u64)>, key: Seq<char>)
    ensures
        0 <= find_balance(balances, key) <= balances.len(),
        find_balance(balances, key) < balances.len() ==> balances[find_balance(
            balances,
            key,
        )].0 == key,
        forall|k: int| 0 <= k < find_balance(balances, key) ==> (#[trigger] balances[k]).0 != key,
    decreases balances.len(),
{
    if balances.len() > 0 && balances[0].0 != key {
        lemma_find_balance_props(balances.drop_first(), key);
        assert forall|k: int| 0 <= k < find_balance(balances, key) implies (
        #[trigger] balances[k]).0 != key by {
            if k > 0 {
                assert(balances.drop_first()[k - 1] == balances[k]);
            }
        }
    }
}

/// `block_insert_pos` returns the first index whose block is strictly
/// higher, so everything before it is at most the given height.
pub proof fn lemma_block_insert_pos_props(blocks: Seq<BlockV>, height: u64)
    ensures
        0 <= block_insert_pos(blocks, height) <= blocks.len(),
        forall|k: int|
            0 <= k < block_insert_pos(blocks, height) ==> (#[trigger] blocks[k]).height <= height,
        block_insert_pos(blocks, height) < blocks.len() ==> blocks[block_insert_pos(
            blocks,
            height,
        )].height > height,
    decreases blocks.len(),
{
    if blocks.len() > 0 && blocks[0].height <= height {
        lemma_block_insert_pos_props(blocks.drop_first(), height);
        assert forall|k: int| 0 <= k < block_insert_pos(blocks, height) implies (
        #[trigger] blocks[k]).height <= height by {
            if k > 0 {
                assert(blocks.drop_first()[k - 1] == blocks[k]);
            }
        }
    }
}

/// Credits one key with an amount, saturating: the key's first entry grows,
/// or a new entry is appended.
fn credit_one(balances: &mut Vec<(String, u64)>, key: &String, amount: u64)
    ensures
        balances_view(final(balances)@) == credit(balances_view(old(balances)@), key@, amount),
{
    let ghost b0 = balances_view(balances@);
    let mut idx: usize = 0;
    let mut found: bool = false;
    while !found && idx < balances.len()
        invariant
            idx <= b0.len(),
            balances@ == old(balances)@,
            b0 == balances_view(balances@),
            b0.len() == balances@.len(),
            forall|k: int| 0 <= k < idx ==> (#[trigger] b0[k]).0 != key@,
            found ==> idx < b0.len() && b0[idx as int].0 == key@,
        decreases b0.len() - idx + (if found {
            0int
        } else {
            1int
        }),
    {
        if balances[idx].0 == *key {
            found = true;
        } else {
            idx = idx + 1;
        }
    }
    proof {
        lemma_find_balance_props(b0, key@);
        let fi = find_balance(b0, key@);
        if found {
            if (idx as int) < fi {
                assert(b0[idx as int].0 != key@);
                assert(false);
            }
            if fi < idx as int {
                assert(b0[fi].0 != key@);
                assert(false);
            }
        } else {
            assert(fi == b0.len());
        }
    }
    if found {
        let entry_key = balances[idx].0.clone();
        let current = balances[idx].1;
        balances[idx] = (entry_key, current.saturating_add(amount));
        proof {
            assert(balances_view(balances@) =~~= credit(b0, key@, amount));
        }
    } else {
        balances.push((key.clone(), amount));
        proof {
            assert(balances_view(balances@) =~~= credit(b0, key@, amount));
        }
    }
}

/// Credits every listed key with the amount, in order.
fn credit_producers(balances: &mut Vec<(String, u64)>, producers: &Vec<String>, amount: u64)
    ensures
        balances_view(final(balances)@) == credit_all(
            balances_view(old(balances)@),
            strings_view(producers@),
            amount,
        ),
{
    let ghost keys = strings_view(producers@);
    let ghost b0 = balances_view(old(balances)@);
    let mut i: usize = 0;
    proof {
        assert(keys.skip(0) =~= keys);
    }
    while i < producers.len()
        invariant
            i <= keys.len(),
            keys == strings_view(producers@),
            keys.len() == producers@.len(),
            credit_all(b0, keys, amount) == credit_all(
                balances_view(balances@),
                keys.skip(i as int),
                amount,
            ),
        decreases keys.len() - i,
    {
        let ghost before = balances_view(balances@);
        credit_one(balances, &producers[i], amount);
        proof {
            assert(keys.skip(i as int)[0] == keys[i as int]);
            assert(keys.skip(i as int).drop_first() =~= keys.skip(i + 1));
            assert(credit_all(before, keys.skip(i as int), amount) == credit_all(
                credit(before, keys[i as int], amount),
                keys.skip(i + 1),
                amount,
            ));
        }
        i = i + 1;
    }
    proof {
        assert(keys.skip(keys.len() as int) =~= Seq::<Seq<char>>::empty());
        assert(credit_all(balances_view(balances@), keys.skip(keys.len() as int), amount)
            == balances_view(balances@));
    }
}

/// Filing a block at its height keeps the blocks ordered.
pub proof fn lemma_block_insert_ordered(blocks: Seq<BlockV>, b: BlockV)
    requires
        blocks_ordered(blocks),
    ensures
        blocks_ordered(blocks.insert(block_insert_pos(blocks, b.height), b)),
{
    lemma_block_insert_pos_props(blocks, b.height);
    let pos = block_insert_pos(blocks, b.height);
    let result = blocks.insert(pos, b);
    assert forall|i: int, j: int| 0 <= i < j < result.len() implies (#[trigger] result[i]).height
        <= (#[trigger] result[j]).height by {
        if j == pos {
            assert(result[i] == blocks[i]);
        } else if i == pos {
            let j0 = j - 1;
            assert(result[j] == blocks[j0]);
            if pos < blocks.len() {
                if j0 > pos {
                    assert(blocks[pos].height <= blocks[j0].height);
                }
                assert(blocks[pos].height > b.height);
            }
        } else {
            let i0 = if i < pos { i } else { i - 1 };
            let j0 = if j < pos { j } else { j - 1 };
            assert(result[i] == blocks[i0]);
            assert(result[j] == blocks[j0]);
        }
    }
}

/// Thread-unshared chain state storage: balances, producers, and the
/// finalized blocks, ordered by height.
pub struct StateStoreImpl {
    state: ChainState,
    config: ChainConfig,
    last_block_time: u64,
    blocks: Vec<Block>,
}

impl View for StateStoreImpl {
    type V = StoreV;

    closed spec fn view(&self) -> StoreV {
        StoreV {
            balances: balances_view(self.state.balances@),
            producers: strings_view(self.state.producers@),
            blocks: blocks_view(self.blocks@),
            min_block_time: self.config.min_block_time,
            block_reward: self.config.block_reward,
            last_block_time: self.last_block_time,
        }
    }
}

impl StateStoreImpl {
    /// An empty store with the given configuration.
    pub fn new(config: ChainConfig) -> (r: Self)
        ensures
            r@.balances.len() == 0,
            r@.producers.len() == 0,
            r@.blocks.len() == 0,
            r@.min_block_time == config.min_block_time,
            r@.block_reward == config.block_reward,
            r@.last_block_time == 0,
            blocks_ordered(r@.blocks),
    {
        let r = StateStoreImpl {
            state: ChainState::new(),
            config,
            last_block_time: 0,
            blocks: Vec::new(),
        };
        proof {
            assert(r@.balances =~= Seq::<(Seq<char>, u64)>::empty());
            assert(r@.producers =~= Seq::<Seq<char>>::empty());
            assert(r@.blocks =~= Seq::<BlockV>::empty());
        }
        r
    }

    /// The latest `n` blocks, newest first.
    pub fn get_latest_blocks(&self, n: usize) -> (r: Vec<Block>)
        ensures
            r@.len() == if n as int <= self@.blocks.len() {
                n as int
            } else {
                self@.blocks.len() as int
            },
            forall|i: int|
                0 <= i < r@.len() ==> (#[trigger] r@[i])@ == self@.blocks[self@.blocks.len() - 1
                    - i],
    {
        let k = if n <= self.blocks.len() {
            n
        } else {
            self.blocks.len()
        };
        let mut out: Vec<Block> = Vec::new();
        let mut i: usize = 0;
        while i < k
            invariant
                i <= k,
                k <= self.blocks@.len(),
                self@.blocks.len() == self.blocks@.len(),
                out@.len() == i as int,
                forall|j: int|
                    0 <= j < i ==> (#[trigger] out@[j])@ == self@.blocks[self@.blocks.len() - 1
                        - j],
            decreases k - i,
        {
            out.push(self.blocks[self.blocks.len() - 1 - i].clone());
            i = i + 1;
        }
        out
    }

    /// A block's timestamp, derived from its height.
    pub fn get_block_timestamp(&self, block: &Block) -> (r: Option<u64>)
        requires
            block@.height <= u64::MAX / 10,
        ensures
            r == Some((10 * block@.height) as u64),
    {
        Some(block.height * 10)
    }

    /// Adds a producer to the allow-list, identified by the hexadecimal
    /// form of its public key; a producer already listed is not duplicated.
    pub fn add_block_producer(&mut self, producer: &[u8; 32])
        ensures
            final(self)@ == (StoreV {
                producers: if producers_contain(old(self)@.producers, hex_of(producer@)) {
                    old(self)@.producers
                } else {
                    old(self)@.producers.push(hex_of(producer@))
                },
                ..old(self)@
            }),
    {
        let producer_str = hex_encode(producer.as_slice());
        let ghost p0 = self@.producers;
        let mut idx: usize = 0;
        let mut found: bool = false;
        while !found && idx < self.state.producers.len()
            invariant
                idx <= p0.len(),
                self@ == old(self)@,
                p0 == self@.producers,
                p0.len() == self.state.producers@.len(),
                producer_str@ == hex_of(producer@),
                forall|k: int| 0 <= k < idx ==> #[trigger] p0[k] != hex_of(producer@),
                found ==> idx < p0.len() && p0[idx as int] == hex_of(producer@),
            decreases p0.len() - idx + (if found {
                0int
            } else {
                1int
            }),
        {
            if self.state.producers[idx] == producer_str {
                found = true;
            } else {
                idx = idx + 1;
            }
        }
        if found {
            proof {
                assert(0 <= idx && (idx as int) < p0.len() && p0[idx as int] == hex_of(producer@));
                assert(producers_contain(p0, hex_of(producer@)));
            }
        } else {
            proof {
                assert(!producers_contain(p0, hex_of(producer@)));
            }
            self.state.producers.push(producer_str);
            proof {
                assert(self@.producers =~= p0.push(hex_of(producer@)));
                assert(self@ == (StoreV { producers: p0.push(hex_of(producer@)), ..old(self)@ }));
            }
        }
    }

    /// Whether the given public key is on the producer allow-list.
    pub fn is_valid_producer(&self, producer: &[u8; 32]) -> (r: bool)
        ensures
            r == producers_contain(self@.producers, hex_of(producer@)),
    {
        let producer_str = hex_encode(producer.as_slice());
        let ghost p0 = self@.producers;
        let mut idx: usize = 0;
        while idx < self.state.producers.len()
            invariant
                idx <= p0.len(),
                p0 == self@.producers,
                p0.len() == self.state.producers@.len(),
                producer_str@ == hex_of(producer@),
                forall|k: int| 0 <= k < idx ==> #[trigger] p0[k] != hex_of(producer@),
            decreases p0.len() - idx,
        {
            if self.state.producers[idx] == producer_str {
                proof {
                    assert(p0[idx as int] == self.state.producers@[idx as int]@);
                    assert(producers_contain(p0, hex_of(producer@)));
                }
                return true;
            }
            idx = idx + 1;
        }
        proof {
            assert(!producers_contain(p0, hex_of(producer@)));
        }
        false
    }

    /// The balance of an account, identified by the hexadecimal form of its
    /// public key; zero for an account with no entry.
    pub fn get_balance(&self, account: &[u8; 32]) -> (r: u64)
        ensures
            r == balance_of(self@.balances, hex_of(account@)),
    {
        let account_str = hex_encode(account.as_slice());
        let ghost b0 = self@.balances;
        let mut idx: usize = 0;
        while idx < self.state.balances.len()
            invariant
                idx <= b0.len(),
                b0 == self@.balances,
                b0.len() == self.state.balances@.len(),
                account_str@ == hex_of(account@),
                forall|k: int| 0 <= k < idx ==> (#[trigger] b0[k]).0 != hex_of(account@),
            decreases b0.len() - idx,
        {
            if self.state.balances[idx].0 == account_str {
                proof {
                    lemma_find_balance_props(b0, hex_of(account@));
                    let fi = find_balance(b0, hex_of(account@));
                    if (idx as int) < fi {
                        assert(b0[idx as int].0 != hex_of(account@));
                        assert(false);
                    }
                    if fi < idx as int {
                        assert(b0[fi].0 != hex_of(account@));
                        assert(false);
                    }
                }
                return self.state.balances[idx].1;
            }
            idx = idx + 1;
        }
        proof {
            lemma_find_balance_props(b0, hex_of(account@));
            if find_balance(b0, hex_of(account@)) < b0.len() {
                assert(b0[find_balance(b0, hex_of(account@))].0 == hex_of(account@));
                assert(false);
            }
        }
        0
    }

    /// A snapshot of the chain state: balances and producers.
    pub fn get_state(&self) -> (r: ChainState)
        ensures
            r@.balances == self@.balances,
            r@.producers == self@.producers,
    {
        let r = self.state.clone();
        proof {
            assert(r@.balances =~~= self@.balances);
            assert(r@.producers =~~= self@.producers);
        }
        r
    }

    /// The most recently filed block, which has the greatest height.
    pub fn get_latest_block(&self) -> (r: Option<Block>)
        ensures
            (r is Some) == (self@.blocks.len() > 0),
            r matches Some(b) ==> self@.blocks.len() > 0 && b@ == self@.blocks.last(),
    {
        if self.blocks.len() == 0 {
            None
        } else {
            Some(self.blocks[self.blocks.len() - 1].clone())
        }
    }

    /// The number of blocks stored.
    pub fn get_block_height(&self) -> (r: u64)
        ensures
            r == self@.blocks.len() as u64,
    {
        self.blocks.len() as u64
    }

    /// Applies a block: credits the block reward, if configured, to every
    /// producer, and files the block at its height.
    pub fn apply_block(&mut self, block: &Block) -> (r: Result<(), StateError>)
        ensures
            blocks_ordered(old(self)@.blocks) ==> blocks_ordered(final(self)@.blocks),
            final(self)@ == spec_apply_block(old(self)@, block@),
            r is Ok,
    {
        let ghost s0 = self@;
        match self.config.block_reward {
            Some(reward) => {
                credit_producers(&mut self.state.balances, &self.state.producers, reward);
            },
            None => {},
        }
        proof {
            assert(self@ == (StoreV {
                balances: apply_rewards(s0.balances, s0.producers, s0.block_reward),
                ..s0
            }));
            lemma_block_insert_pos_props(s0.blocks, block@.height);
            if blocks_ordered(s0.blocks) {
                lemma_block_insert_ordered(s0.blocks, block@);
            }
        }
        let ghost blocks0 = self@.blocks;
        let mut pos: usize = 0;
        let mut stop: bool = false;
        while !stop && pos < self.blocks.len()
            invariant
                pos <= blocks0.len(),
                self@ == (StoreV {
                    balances: apply_rewards(s0.balances, s0.producers, s0.block_reward),
                    ..s0
                }),
                blocks0 == self@.blocks,
                blocks0.len() == self.blocks@.len(),
                forall|k: int| 0 <= k < pos ==> (#[trigger] blocks0[k]).height <= block@.height,
                stop ==> pos < blocks0.len() && blocks0[pos as int].height > block@.height,
            decreases blocks0.len() - pos + (if stop {
                0int
            } else {
                1int
            }),
        {
            if self.blocks[pos].height > block.height {
                stop = true;
            } else {
                pos = pos + 1;
            }
        }
        proof {
            let ipos = block_insert_pos(blocks0, block@.height);
            if (pos as int) < ipos {
                assert(blocks0[pos as int].height <= block@.height);
                assert(false);
            }
            if ipos < pos as int {
                assert(blocks0[ipos].height <= block@.height);
                assert(false);
            }
        }
        self.blocks.insert(pos, block.clone());
        proof {
            assert(self@.blocks =~~= blocks0.insert(
                block_insert_pos(blocks0, block@.height),
                block@,
            ));
            assert(blocks0 == s0.blocks);
            assert(self@ == spec_apply_block(s0, block@));
        }
        Ok(())
    }
}

impl Default for StateStoreImpl {
    /// An empty store with the default configuration.
    fn default() -> (r: Self)
        ensures
            r@.balances.len() == 0,
            r@.producers.len() == 0,
            r@.blocks.len() == 0,
            r@.min_block_time == 1000,
            r@.block_reward is None,
            blocks_ordered(r@.blocks),
    {
        StateStoreImpl::new(ChainConfig::default())
    }
}

impl StateStore for StateStoreImpl {
    fn get(&self, key: &[u8]) -> Result<Option<Vec<u8>>, StateError> {
        Ok(None)
    }

    fn apply_diff(&mut self, diff: StateDiff) -> Result<(), StateError> {
        Ok(())
    }

    fn state_root(&self) -> [u8; 32] {
        [0u8; 32]
    }

    fn get_block_height(&self) -> u64 {
        self.blocks.len() as u64
    }

    fn apply_block(&mut self, block: &Block) -> Result<(), StateError> {
        self.apply_block(block)
    }
}

/// The mathematical value of the state manager.
#[verifier::ext_equal]
pub ghost struct StateManagerV {
    pub balances: Seq<(Seq<char>, u64)>,
    pub producers: Seq<Seq<char>>,
    pub min_block_time: u64,
    pub block_reward: Option<u64>,
    pub last_block_time: u64,
}

/// Chain state manager: tracks balances and producers, crediting rewards as
/// blocks are applied, without storing the blocks themselves.
pub struct StateManager {
    state: ChainState,
    config: ChainConfig,
    last_block_time: u64,
}

impl View for StateManager {
    type V = StateManagerV;

    closed spec fn view(&self) -> StateManagerV {
        StateManagerV {
            balances: balances_view(self.state.balances@),
            producers: strings_view(self.state.producers@),
            min_block_time: self.config.min_block_time,
            block_reward: self.config.block_reward,
            last_block_time: self.last_block_time,
        }
    }
}

impl StateManager {
    /// A new manager with an empty chain state.
    pub fn new(config: ChainConfig) -> (r: Self)
        ensures
            r@.balances.len() == 0,
            r@.producers.len() == 0,
            r@.min_block_time == config.min_block_time,
            r@.block_reward == config.block_reward,
            r@.last_block_time == 0,
    {
        let r = StateManager { state: ChainState::new(), config, last_block_time: 0 };
        proof {
            assert(r@.balances =~= Seq::<(Seq<char>, u64)>::empty());
            assert(r@.producers =~= Seq::<Seq<char>>::empty());
        }
        r
    }

    /// A snapshot of the chain state.
    pub fn get_state(&self) -> (r: ChainState)
        ensures
            r@.balances == self@.balances,
            r@.producers == self@.producers,
    {
        let r = self.state.clone();
        proof {
            assert(r@.balances =~~= self@.balances);
            assert(r@.producers =~~= self@.producers);
        }
        r
    }

    /// Applies a block: every transaction is checked (in this chain, any
    /// transaction is admissible) and each producer is credited the block
    /// reward, if one is configured.
    pub fn apply_block(&mut self, block: &Block) -> (r: Result<(), StateError>)
        ensures
            final(self)@ == (StateManagerV {
                balances: apply_rewards(
                    old(self)@.balances,
                    old(self)@.producers,
                    old(self)@.block_reward,
                ),
                ..old(self)@
            }),
            r is Ok,
    {
        let ghost s0 = self@;
        let mut i: usize = 0;
        while i < block.transactions.len()
            invariant
                self@ == s0,
            decreases block.transactions@.len() - i,
        {
            match self.verify_transaction(&block.transactions[i]) {
                Ok(()) => {},
                Err(e) => {
                    return Err(e);
                },
            }
            i = i + 1;
        }
        match self.config.block_reward {
            Some(reward) => {
                credit_producers(&mut self.state.balances, &self.state.producers, reward);
            },
            None => {},
        }
        proof {
            assert(self@ == (StateManagerV {
                balances: apply_rewards(s0.balances, s0.producers, s0.block_reward),
                ..s0
            }));
        }
        Ok(())
    }

    /// Checks one transaction against the state. In this chain any
    /// transaction is admissible, whatever its sender holds.
    fn verify_transaction(&self, tx: &Transaction) -> (r: Result<(), StateError>)
        ensures
            r is Ok,
    {
        Ok(())
    }
}

} // verus!
