use vstd::prelude::*;
use vstd::string::*;
use crate::block::{block_hash, header_hash, least_nonce, merkle_root_of, Block, BlockView};
use crate::crypto::unix_time_now;
use crate::ledger::{
    apply_block, apply_block_to, apply_tx_to, apply_txs, duplicate_utxos, find_key, key_position,
    replay,
};
use crate::text::{has_leading_zeros, starts_with_zeros};
use crate::transaction::{
    is_coinbase, sum_outputs, total_input, tx_valid, OutputView, Transaction, TxView,
    UTXO, UtxoView, views,
};
use crate::wallet::{wallet_txs, Wallet};

verus! {

/// The reward of a mined block: 50 coins of 100,000,000 units.
pub const MINING_REWARD: u64 = 5_000_000_000;

/// The difficulty that `is_chain_valid` checks a node's own chain against.
pub const DEFAULT_DIFFICULTY: usize = 2;

/// The most transactions a block holds, its coinbase included.
pub const BLOCK_TRANSACTION_LIMIT: usize = 10;

/// A peer: its chain, pending transactions, unspent outputs and wallet.
#[derive(Debug, Clone)]
pub struct Node {
    pub id: usize,
    pub connections: Vec<usize>,
    pub is_validator: bool,
    pub blockchain: Vec<Block>,
    pub wallet: Wallet,
    pub mempool: Vec<Transaction>,
    pub utxo_set: Vec<UTXO>,
    pub mining_reward: u64,
}

/// A node accepts a coinbase with an output, and a transaction that is valid
/// against `set` and whose every input names an output of `set`.
pub open spec fn tx_acceptable(t: TxView, set: Seq<UtxoView>) -> bool {
    (t.inputs.len() == 0 && t.outputs.len() > 0) || (tx_valid(t, set) && forall|k: int|
        0 <= k < t.inputs.len() ==> key_position(set, #[trigger] t.inputs[k].utxo_id) >= 0)
}

/// What a node checks of a block that arrives on top of `chain`.
pub open spec fn new_block_ok(
    chain: Seq<BlockView>,
    set: Seq<UtxoView>,
    b: BlockView,
    difficulty: nat,
) -> bool {
    if chain.len() == 0 {
        b.index == 0
    } else {
        &&& b.index == chain.last().index + 1
        &&& b.previous_hash == chain.last().hash
        &&& b.hash == block_hash(b)
        &&& has_leading_zeros(b.hash, difficulty)
        &&& b.merkle_root == merkle_root_of(b.transactions)
        &&& b.transactions.len() > 0
        &&& is_coinbase(b.transactions[0])
        &&& forall|k: int|
            1 <= k < b.transactions.len() ==> tx_acceptable(#[trigger] b.transactions[k], set)
    }
}

/// What a chain check asks of a block and its predecessor.
pub open spec fn link_ok(prev: BlockView, cur: BlockView, difficulty: nat) -> bool {
    &&& cur.hash == block_hash(cur)
    &&& cur.previous_hash == prev.hash
    &&& has_leading_zeros(cur.hash, difficulty)
    &&& cur.merkle_root == merkle_root_of(cur.transactions)
    &&& cur.transactions.len() > 0
    &&& is_coinbase(cur.transactions[0])
}

/// Every block past the first is correctly hashed, linked, mined and rooted,
/// and opens with a coinbase.
pub open spec fn chain_ok(chain: Seq<BlockView>, difficulty: nat) -> bool {
    forall|i: int| 1 <= i < chain.len() ==> link_ok(chain[i - 1], #[trigger] chain[i], difficulty)
}

/// The pending transactions a validator takes, in pool order, up to nine, each
/// accepted against the node's outputs and against the outputs left after
/// those taken before it; and those that stay in the pool.
pub open spec fn pick(pool: Seq<TxView>, set: Seq<UtxoView>) -> (Seq<TxView>, Seq<TxView>)
    decreases pool.len(),
{
    if pool.len() == 0 {
        (seq![], seq![])
    } else {
        let (chosen, rest) = pick(pool.drop_last(), set);
        if chosen.len() + 1 < BLOCK_TRANSACTION_LIMIT && tx_acceptable(pool.last(), set)
            && tx_acceptable(pool.last(), apply_txs(set, chosen)) {
            (chosen.push(pool.last()), rest)
        } else {
            (chosen, rest.push(pool.last()))
        }
    }
}

/// A wallet's outputs after it follows every block of a chain.
pub open spec fn wallet_chain(s: Seq<UtxoView>, address: Seq<char>, chain: Seq<BlockView>) -> Seq<
    UtxoView,
>
    decreases chain.len(),
{
    if chain.len() == 0 {
        s
    } else {
        wallet_txs(wallet_chain(s, address, chain.drop_last()), address, chain.last().transactions)
    }
}

/// Some transaction of some block of `chain` carries the id `id`.
pub open spec fn chain_has_id(chain: Seq<BlockView>, id: Seq<char>) -> bool {
    exists|b: int, k: int|
        0 <= b < chain.len() && 0 <= k < chain[b].transactions.len() && chain[b].transactions[k].id
            == id
}

/// The pending transactions whose id no transaction of `chain` carries.
pub open spec fn strip_chain(pool: Seq<TxView>, chain: Seq<BlockView>) -> Seq<TxView>
    decreases pool.len(),
{
    if pool.len() == 0 {
        seq![]
    } else if chain_has_id(chain, pool.last().id) {
        strip_chain(pool.drop_last(), chain)
    } else {
        strip_chain(pool.drop_last(), chain).push(pool.last())
    }
}

/// Whether `tx` is acceptable against the output set `set`.
pub fn accepts(set: &Vec<UTXO>, tx: &Transaction) -> (r: bool)
    ensures
        r == tx_acceptable(tx@, views(set@)),
{
    if tx.inputs.len() == 0 && tx.outputs.len() > 0 {
        return true;
    }
    if !tx.is_valid(set.as_slice()) {
        return false;
    }
    let mut k: usize = 0;
    while k < tx.inputs.len()
        invariant
            k <= tx@.inputs.len(),
            forall|m: int|
                0 <= m < k ==> key_position(views(set@), #[trigger] tx@.inputs[m].utxo_id) >= 0,
        decreases tx@.inputs.len() - k,
    {
        assert(tx@.inputs[k as int].utxo_id == tx.inputs@[k as int].utxo_id@);
        if find_key(set, &tx.inputs[k].utxo_id).is_none() {
            return false;
        }
        k = k + 1;
    }
    true
}

/// Whether a transaction of some block of `chain` carries the id `id`.
fn chain_contains_id(chain: &Vec<Block>, id: &String) -> (r: bool)
    ensures
        r == chain_has_id(views(chain@), id@),
{
    let ghost c = views(chain@);
    let mut b: usize = 0;
    while b < chain.len()
        invariant
            c == views(chain@),
            b <= c.len(),
            forall|x: int, k: int|
                0 <= x < b && 0 <= k < c[x].transactions.len() ==> (#[trigger] c[x].transactions[k]).id != id@,
        decreases c.len() - b,
    {
        let block = &chain[b];
        assert(c[b as int] == block@);
        let mut k: usize = 0;
        while k < block.transactions.len()
            invariant
                c == views(chain@),
                b < c.len(),
                c[b as int] == block@,
                k <= block@.transactions.len(),
                forall|x: int, j: int|
                    0 <= x < b && 0 <= j < c[x].transactions.len() ==> (#[trigger] c[x].transactions[j]).id != id@,
                forall|j: int| 0 <= j < k ==> (#[trigger] block@.transactions[j]).id != id@,
            decreases block@.transactions.len() - k,
        {
            assert(block@.transactions[k as int] == block.transactions@[k as int]@);
            if block.transactions[k].id == *id {
                return true;
            }
            k = k + 1;
        }
        b = b + 1;
    }
    false
}

/// `after` is `before` once it has adopted `chain`: the chain and its replayed
/// outputs, the same wallet keys following every block from no outputs, and
/// the pool without what the chain includes.
pub open spec fn adopted(before: Node, after: Node, chain: Seq<BlockView>) -> bool {
    &&& after.chain() == chain
    &&& after.outputs() == replay(chain)
    &&& after.wallet@.secret == before.wallet@.secret
    &&& after.wallet@.address == before.wallet@.address
    &&& after.wallet@.utxos == wallet_chain(Seq::empty(), before.wallet@.address, chain)
    &&& after.pool() == strip_chain(before.pool(), chain)
    &&& after.id == before.id
    &&& after.connections == before.connections
    &&& after.is_validator == before.is_validator
    &&& after.mining_reward == before.mining_reward
}

/// The index of the block that follows `chain`.
pub open spec fn next_index(chain: Seq<BlockView>) -> int {
    if chain.len() == 0 {
        0
    } else {
        chain.last().index + 1
    }
}

/// The previous hash of the block that follows `chain`.
pub open spec fn next_previous_hash(chain: Seq<BlockView>) -> Seq<char> {
    if chain.len() == 0 {
        seq!['0']
    } else {
        chain.last().hash
    }
}

/// No nonce gives the header of `b` a hash with `difficulty` leading zeros.
pub open spec fn unminable(b: BlockView, difficulty: nat) -> bool {
    forall|n: u64| !has_leading_zeros(header_hash(b, n), difficulty)
}

/// A block as assembled, before its nonce is searched.
pub open spec fn candidate(
    index: usize,
    timestamp: u64,
    transactions: Seq<TxView>,
    previous_hash: Seq<char>,
) -> BlockView {
    let b = BlockView {
        index,
        timestamp,
        transactions,
        previous_hash,
        hash: seq![],
        nonce: 0,
        merkle_root: merkle_root_of(transactions),
    };
    BlockView { hash: block_hash(b), ..b }
}

/// The unspent outputs of a chain are what replaying it leaves, however the
/// block at its end arrived: applied to the old set, or rebuilt from scratch.
pub proof fn lemma_apply_then_rebuild(chain: Seq<BlockView>, b: BlockView)
    ensures
        apply_block(replay(chain), b) == replay(chain.push(b)),
{
    assert(chain.push(b).drop_last() =~= chain);
}

/// Two nodes that hold the same chain end with the same unspent outputs after
/// they apply the same block.
pub proof fn lemma_same_prefix_same_outputs(n1: Node, n2: Node, b: BlockView)
    requires
        n1.wf(),
        n2.wf(),
        n1.chain() == n2.chain(),
    ensures
        apply_block(n1.outputs(), b) == apply_block(n2.outputs(), b),
        apply_block(n1.outputs(), b) == replay(n1.chain().push(b)),
{
    lemma_apply_then_rebuild(n1.chain(), b);
}

/// A block that a node accepts on top of a non-empty chain is linked to the
/// chain's last block as a chain check asks.
pub proof fn lemma_accepted_block_links(
    chain: Seq<BlockView>,
    set: Seq<UtxoView>,
    b: BlockView,
    difficulty: nat,
)
    requires
        chain.len() > 0,
        new_block_ok(chain, set, b, difficulty),
    ensures
        link_ok(chain.last(), b, difficulty),
{
}

/// A valid chain stays valid when a block linked to its end is appended: every
/// block past the first keeps its hash, link, proof of work, Merkle root and
/// leading coinbase.
pub proof fn lemma_chain_extends(chain: Seq<BlockView>, b: BlockView, difficulty: nat)
    requires
        chain_ok(chain, difficulty),
        chain.len() > 0 ==> link_ok(chain.last(), b, difficulty),
    ensures
        chain_ok(chain.push(b), difficulty),
{
    let c = chain.push(b);
    assert forall|i: int| 1 <= i < c.len() implies link_ok(c[i - 1], #[trigger] c[i], difficulty) by {
        if i < chain.len() {
            assert(c[i - 1] == chain[i - 1] && c[i] == chain[i]);
        } else {
            assert(c[i - 1] == chain.last());
        }
    }
}

/// Every transaction past the coinbase of an accepted block pays out no more
/// than the outputs it spends hold, counted in the node's outputs before the block.
pub proof fn lemma_accepted_block_spends_within_inputs(
    chain: Seq<BlockView>,
    set: Seq<UtxoView>,
    b: BlockView,
    difficulty: nat,
)
    requires
        chain.len() > 0,
        new_block_ok(chain, set, b, difficulty),
    ensures
        forall|k: int|
            1 <= k < b.transactions.len() && (#[trigger] b.transactions[k]).inputs.len() > 0
                ==> sum_outputs(b.transactions[k].outputs) <= total_input(
                b.transactions[k].inputs,
                set,
            ),
{
    assert forall|k: int|
        1 <= k < b.transactions.len() && (#[trigger] b.transactions[k]).inputs.len() > 0 implies sum_outputs(
        b.transactions[k].outputs,
    ) <= total_input(b.transactions[k].inputs, set) by {
        assert(tx_acceptable(b.transactions[k], set));
    }
}

impl Node {
    pub open spec fn chain(&self) -> Seq<BlockView> {
        views(self.blockchain@)
    }

    pub open spec fn outputs(&self) -> Seq<UtxoView> {
        views(self.utxo_set@)
    }

    pub open spec fn pool(&self) -> Seq<TxView> {
        views(self.mempool@)
    }

    /// The invariant: the unspent outputs are the replay of the chain, and the
    /// wallet's balance is the sum of what it owns.
    pub open spec fn wf(&self) -> bool {
        &&& self.wallet.wf()
        &&& self.outputs() == replay(self.chain())
    }

    /// A node with a fresh wallet, holding `genesis_block` if one is given.
    pub fn new(id: usize, genesis_block: Option<Block>) -> (r: Node)
        ensures
            r.wf(),
            r.id == id,
            r.connections@ == Seq::<usize>::empty(),
            !r.is_validator,
            r.pool() == Seq::<TxView>::empty(),
            r.mining_reward == MINING_REWARD,
            genesis_block matches Some(g) ==> r.chain() == seq![g@] && r.wallet@.utxos == wallet_txs(
                Seq::empty(),
                r.wallet@.address,
                g@.transactions,
            ),
            genesis_block.is_none() ==> r.chain() == Seq::<BlockView>::empty() && r.wallet@.utxos
                == Seq::<UtxoView>::empty(),
    {
        let mut wallet = Wallet::new();
        let mut blockchain: Vec<Block> = Vec::new();
        let mut utxo_set: Vec<UTXO> = Vec::new();
        assert(views(utxo_set@) =~= Seq::<UtxoView>::empty());
        match genesis_block {
            Some(block) => {
                apply_block_to(&mut utxo_set, &block);
                wallet.update_utxos(block.transactions.as_slice());
                let ghost g = block@;
                blockchain.push(block);
                assert(views(blockchain@) =~= seq![g]);
                assert(seq![g].drop_last() =~= Seq::<BlockView>::empty());
                assert(replay(Seq::<BlockView>::empty()) == Seq::<UtxoView>::empty());
                assert(replay(seq![g]) == apply_block(replay(Seq::<BlockView>::empty()), g));
            },
            None => {
                assert(views(blockchain@) =~= Seq::<BlockView>::empty());
            },
        }
        let r = Node {
            id,
            connections: Vec::new(),
            is_validator: false,
            blockchain,
            wallet,
            mempool: Vec::new(),
            utxo_set,
            mining_reward: MINING_REWARD,
        };
        assert(r.pool() =~= Seq::<TxView>::empty());
        r
    }

    pub fn get_address(&self) -> (r: &str)
        ensures
            r@ == self.wallet@.address,
    {
        self.wallet.get_address()
    }

    pub fn get_balance(&self) -> (r: u64)
        ensures
            r == self.wallet@.balance,
    {
        self.wallet.get_balance()
    }

    /// Whether this node accepts `transaction` against its unspent outputs.
    /// Signatures are not checked: peers do not hold each other's public keys.
    pub fn verify_transaction(&self, transaction: &Transaction) -> (r: bool)
        ensures
            r == tx_acceptable(transaction@, self.outputs()),
    {
        accepts(&self.utxo_set, transaction)
    }

    /// Has the wallet build a payment, keeps it in the pool when this node
    /// accepts it, and returns it.
    pub fn create_transaction(&mut self, recipient_address: &str, amount: u64) -> (r: Option<
        Transaction,
    >)
        requires
            old(self).wf(),
        ensures
            final(self).wf(),
            amount > old(self).wallet@.balance ==> r.is_none(),
            r matches Some(t) ==> {
                &&& crate::wallet::is_payment(t@, old(self).wallet@, recipient_address@, amount)
                &&& tx_acceptable(t@, old(self).outputs())
                &&& final(self).pool() == old(self).pool().push(t@)
            },
            r.is_none() ==> final(self).pool() == old(self).pool(),
            r.is_none() && amount <= old(self).wallet@.balance ==> exists|t: TxView|
                crate::wallet::is_payment(t, old(self).wallet@, recipient_address@, amount)
                    && !tx_acceptable(t, old(self).outputs()),
            final(self).id == old(self).id,
            final(self).connections == old(self).connections,
            final(self).is_validator == old(self).is_validator,
            final(self).chain() == old(self).chain(),
            final(self).outputs() == old(self).outputs(),
            final(self).wallet == old(self).wallet,
            final(self).mining_reward == old(self).mining_reward,
    {
        match self.wallet.create_transaction(recipient_address, amount) {
            Some(transaction) => {
                if self.verify_transaction(&transaction) {
                    let ghost prior = self.mempool@;
                    self.mempool.push(transaction.duplicate());
                    assert(self.pool() =~= views(prior).push(transaction@));
                    Some(transaction)
                } else {
                    None
                }
            },
            None => None,
        }
    }

    /// When this node is the validator: a block of a fresh coinbase paying the
    /// mining reward to this wallet and up to nine pending transactions it
    /// accepts, mined to `difficulty`; the chosen transactions leave the pool.
    pub fn create_block(&mut self, difficulty: usize) -> (r: Option<Block>)
        requires
            old(self).wf(),
        ensures
            final(self).wf(),
            !old(self).is_validator ==> r.is_none() && *final(self) == *old(self),
            next_index(old(self).chain()) > usize::MAX ==> r.is_none() && *final(self) == *old(self),
            old(self).is_validator && next_index(old(self).chain()) <= usize::MAX ==> final(self).pool()
                == pick(old(self).pool(), old(self).outputs()).1,
            old(self).is_validator && difficulty == 0 && next_index(old(self).chain()) <= usize::MAX
                ==> r.is_some(),
            old(self).is_validator && next_index(old(self).chain()) <= usize::MAX && r.is_none()
                ==> exists|cb: TxView, ts: u64|
                #[trigger] unminable(
                    candidate(
                        next_index(old(self).chain()) as usize,
                        ts,
                        seq![cb] + pick(old(self).pool(), old(self).outputs()).0,
                        next_previous_hash(old(self).chain()),
                    ),
                    difficulty as nat,
                ),
            r matches Some(b) ==> {
                &&& b@.transactions.len() >= 1
                &&& is_coinbase(b@.transactions[0])
                &&& b@.transactions[0].outputs == seq![
                    OutputView {
                        amount: old(self).mining_reward,
                        recipient_address: old(self).wallet@.address,
                    },
                ]
                &&& b@.transactions.drop_first() == pick(old(self).pool(), old(self).outputs()).0
                &&& final(self).pool() == pick(old(self).pool(), old(self).outputs()).1
                &&& b.index == next_index(old(self).chain())
                &&& b@.previous_hash == next_previous_hash(old(self).chain())
                &&& b@.merkle_root == merkle_root_of(b@.transactions)
                &&& b@.hash == block_hash(b@)
                &&& has_leading_zeros(b@.hash, difficulty as nat)
            },
            final(self).id == old(self).id,
            final(self).connections == old(self).connections,
            final(self).is_validator == old(self).is_validator,
            final(self).blockchain == old(self).blockchain,
            final(self).utxo_set == old(self).utxo_set,
            final(self).wallet == old(self).wallet,
            final(self).mining_reward == old(self).mining_reward,
    {
        if !self.is_validator {
            return None;
        }
        let coinbase = Transaction::new_coinbase(
            String::from_str(self.wallet.get_address()),
            self.mining_reward,
        );
        let timestamp = unix_time_now();
        let ghost cb = coinbase@;
        let r = self.create_block_at(difficulty, coinbase, timestamp);
        proof {
            if r.is_none() && next_index(old(self).chain()) <= usize::MAX {
                let c = candidate(
                    next_index(old(self).chain()) as usize,
                    timestamp,
                    seq![cb] + pick(old(self).pool(), old(self).outputs()).0,
                    next_previous_hash(old(self).chain()),
                );
                assert(unminable(c, difficulty as nat));
            }
            if r.is_some() {
                assert(r.unwrap()@.transactions.drop_first() =~= pick(old(self).pool(), old(self).outputs()).0);
            }
        }
        r
    }

    /// `create_block` with the coinbase and the timestamp given. `None` when
    /// this node is not the validator, when the chain's last index is the
    /// largest, or when no nonce meets `difficulty`.
    pub fn create_block_at(&mut self, difficulty: usize, coinbase: Transaction, timestamp: u64) -> (r:
        Option<Block>)
        requires
            old(self).wf(),
        ensures
            final(self).wf(),
            !old(self).is_validator || next_index(old(self).chain()) > usize::MAX ==> r.is_none()
                && *final(self) == *old(self),
            old(self).is_validator && next_index(old(self).chain()) <= usize::MAX ==> {
                let txs = seq![coinbase@] + pick(old(self).pool(), old(self).outputs()).0;
                let c = candidate(
                    next_index(old(self).chain()) as usize,
                    timestamp,
                    txs,
                    next_previous_hash(old(self).chain()),
                );
                &&& final(self).pool() == pick(old(self).pool(), old(self).outputs()).1
                &&& r.is_none() ==> forall|n: u64| !has_leading_zeros(header_hash(c, n), difficulty as nat)
                &&& difficulty == 0 ==> r.is_some()
                &&& r matches Some(b) ==> {
                    &&& b@.transactions == txs
                    &&& b.index == c.index
                    &&& b.timestamp == timestamp
                    &&& b@.previous_hash == c.previous_hash
                    &&& b@.merkle_root == c.merkle_root
                    &&& b@.hash == block_hash(b@)
                    &&& has_leading_zeros(b@.hash, difficulty as nat)
                    &&& least_nonce(c, b.nonce, difficulty as nat)
                }
            },
            final(self).id == old(self).id,
            final(self).connections == old(self).connections,
            final(self).is_validator == old(self).is_validator,
            final(self).blockchain == old(self).blockchain,
            final(self).utxo_set == old(self).utxo_set,
            final(self).wallet == old(self).wallet,
            final(self).mining_reward == old(self).mining_reward,
    {
        if !self.is_validator {
            return None;
        }
        let len = self.blockchain.len();
        let index: usize;
        let previous_hash: String;
        if len == 0 {
            index = 0;
            previous_hash = String::from_str("0");
            proof {
                reveal_strlit("0");
            }
            assert(previous_hash@ =~= seq!['0']);
        } else {
            let last = &self.blockchain[len - 1];
            assert(self.chain().last() == last@);
            if last.index == usize::MAX {
                return None;
            }
            index = last.index + 1;
            previous_hash = last.hash.clone();
        }
        let ghost pool = self.pool();
        let ghost set = self.outputs();
        let ghost cb = coinbase@;
        let mut chosen: Vec<Transaction> = Vec::new();
        chosen.push(coinbase);
        let mut rest: Vec<Transaction> = Vec::new();
        let mut work = duplicate_utxos(&self.utxo_set);
        assert(pool.take(0) =~= Seq::<TxView>::empty());
        assert(views(chosen@) =~= seq![cb] + pick(pool.take(0), set).0);
        assert(views(rest@) =~= pick(pool.take(0), set).1);
        assert(apply_txs(set, pick(pool.take(0), set).0) == set);
        let mut k: usize = 0;
        while k < self.mempool.len()
            invariant
                k <= pool.len(),
                pool == self.pool(),
                set == self.outputs(),
                views(chosen@) == seq![cb] + pick(pool.take(k as int), set).0,
                views(rest@) == pick(pool.take(k as int), set).1,
                views(work@) == apply_txs(set, pick(pool.take(k as int), set).0),
            decreases pool.len() - k,
        {
            let tx = &self.mempool[k];
            let ghost picked = pick(pool.take(k as int), set).0;
            assert(pool.take(k + 1).drop_last() =~= pool.take(k as int));
            assert(pool.take(k + 1).last() == tx@);
            let ghost before_chosen = chosen@;
            let ghost before_rest = rest@;
            if chosen.len() < BLOCK_TRANSACTION_LIMIT && self.verify_transaction(tx) && accepts(
                &work,
                tx,
            ) {
                apply_tx_to(&mut work, tx);
                chosen.push(tx.duplicate());
                assert(views(chosen@) =~= views(before_chosen).push(tx@));
                assert(picked.push(tx@).drop_last() =~= picked);
                assert(seq![cb] + picked.push(tx@) =~= (seq![cb] + picked).push(tx@));
            } else {
                rest.push(tx.duplicate());
                assert(views(rest@) =~= views(before_rest).push(tx@));
            }
            k = k + 1;
        }
        assert(pool.take(k as int) =~= pool);
        self.mempool = rest;
        let mut block = Block::new(index, timestamp, chosen, previous_hash);
        if block.mine_block(difficulty) {
            Some(block)
        } else {
            None
        }
    }

    /// Removes from the outputs what the block's transactions spend and adds
    /// what they pay.
    pub fn update_utxo_set(&mut self, block: &Block)
        ensures
            final(self).outputs() == apply_block(old(self).outputs(), block@),
            final(self).id == old(self).id,
            final(self).connections == old(self).connections,
            final(self).is_validator == old(self).is_validator,
            final(self).blockchain == old(self).blockchain,
            final(self).wallet == old(self).wallet,
            final(self).mempool == old(self).mempool,
            final(self).mining_reward == old(self).mining_reward,
    {
        apply_block_to(&mut self.utxo_set, block);
    }

    /// Records a peer; self-links and repeats are ignored.
    pub fn add_connection(&mut self, node_id: usize)
        ensures
            final(self).connections@ == (if node_id == old(self).id
                || old(self).connections@.contains(node_id) {
                old(self).connections@
            } else {
                old(self).connections@.push(node_id)
            }),
            final(self).id == old(self).id,
            final(self).is_validator == old(self).is_validator,
            final(self).blockchain == old(self).blockchain,
            final(self).wallet == old(self).wallet,
            final(self).mempool == old(self).mempool,
            final(self).utxo_set == old(self).utxo_set,
            final(self).mining_reward == old(self).mining_reward,
    {
        if node_id == self.id {
            return;
        }
        let mut k: usize = 0;
        while k < self.connections.len()
            invariant
                k <= self.connections@.len(),
                forall|m: int| 0 <= m < k ==> self.connections@[m] != node_id,
            decreases self.connections@.len() - k,
        {
            if self.connections[k] == node_id {
                return;
            }
            k = k + 1;
        }
        self.connections.push(node_id);
    }

    /// Whether `block` may follow this node's chain at `difficulty`.
    #[verifier::loop_isolation(false)]
    pub fn is_valid_new_block(&self, block: &Block, difficulty: usize) -> (r: bool)
        ensures
            r == new_block_ok(self.chain(), self.outputs(), block@, difficulty as nat),
    {
        let len = self.blockchain.len();
        if len == 0 {
            return block.index == 0;
        }
        let last = &self.blockchain[len - 1];
        assert(self.chain().last() == last@);
        if last.index == usize::MAX || block.index != last.index + 1 {
            return false;
        }
        if block.previous_hash != last.hash {
            return false;
        }
        let calculated_hash = block.calculate_hash();
        if block.hash != calculated_hash {
            return false;
        }
        if !starts_with_zeros(block.hash.as_str(), difficulty) {
            return false;
        }
        let calculated_merkle_root = block.calculate_merkle_root();
        if block.merkle_root != calculated_merkle_root {
            return false;
        }
        if block.transactions.len() == 0 {
            return false;
        }
        let mut k: usize = 0;
        while k < block.transactions.len()
            invariant
                k <= block@.transactions.len(),
                k > 0 ==> is_coinbase(block@.transactions[0]),
                forall|m: int|
                    1 <= m < k ==> tx_acceptable(#[trigger] block@.transactions[m], self.outputs()),
            decreases block@.transactions.len() - k,
        {
            let tx = &block.transactions[k];
            assert(block@.transactions[k as int] == tx@);
            if k == 0 {
                if tx.inputs.len() != 0 {
                    return false;
                }
            } else if !self.verify_transaction(tx) {
                return false;
            }
            k = k + 1;
        }
        true
    }

    /// Appends `block` when it may follow the chain, then applies it to the
    /// outputs and the wallet. `false`, and nothing changes, otherwise.
    pub fn add_block_from_network(&mut self, block: Block, difficulty: usize) -> (r: bool)
        requires
            old(self).wf(),
        ensures
            final(self).wf(),
            r == new_block_ok(old(self).chain(), old(self).outputs(), block@, difficulty as nat),
            r ==> final(self).chain() == old(self).chain().push(block@),
            chain_ok(old(self).chain(), difficulty as nat) ==> chain_ok(
                final(self).chain(),
                difficulty as nat,
            ),
            r ==> final(self).wallet@.utxos == wallet_txs(
                old(self).wallet@.utxos,
                old(self).wallet@.address,
                block@.transactions,
            ),
            r ==> final(self).wallet@.address == old(self).wallet@.address,
            !r ==> *final(self) == *old(self),
            final(self).id == old(self).id,
            final(self).connections == old(self).connections,
            final(self).is_validator == old(self).is_validator,
            final(self).mempool == old(self).mempool,
            final(self).mining_reward == old(self).mining_reward,
    {
        if !self.is_valid_new_block(&block, difficulty) {
            return false;
        }
        proof {
            if self.chain().len() > 0 {
                lemma_accepted_block_links(self.chain(), self.outputs(), block@, difficulty as nat);
            }
            if chain_ok(self.chain(), difficulty as nat) {
                lemma_chain_extends(self.chain(), block@, difficulty as nat);
            }
        }
        self.append_block(block);
        true
    }

    /// Appends `block` and applies it to the outputs and the wallet.
    pub fn append_block(&mut self, block: Block)
        requires
            old(self).wf(),
        ensures
            final(self).wf(),
            final(self).chain() == old(self).chain().push(block@),
            final(self).wallet@.utxos == wallet_txs(
                old(self).wallet@.utxos,
                old(self).wallet@.address,
                block@.transactions,
            ),
            final(self).wallet@.address == old(self).wallet@.address,
            final(self).id == old(self).id,
            final(self).connections == old(self).connections,
            final(self).is_validator == old(self).is_validator,
            final(self).mempool == old(self).mempool,
            final(self).mining_reward == old(self).mining_reward,
    {
        proof {
            lemma_apply_then_rebuild(self.chain(), block@);
        }
        self.update_utxo_set(&block);
        self.wallet.update_utxos(block.transactions.as_slice());
        let ghost prior = self.blockchain@;
        self.blockchain.push(block);
        assert(self.chain() =~= views(prior).push(block@));
    }

    /// Rebuilds the unspent outputs by replaying the chain from its start.
    pub fn rebuild_utxo_set(&mut self)
        ensures
            final(self).outputs() == replay(old(self).chain()),
            final(self).id == old(self).id,
            final(self).connections == old(self).connections,
            final(self).is_validator == old(self).is_validator,
            final(self).blockchain == old(self).blockchain,
            final(self).wallet == old(self).wallet,
            final(self).mempool == old(self).mempool,
            final(self).mining_reward == old(self).mining_reward,
    {
        let mut set: Vec<UTXO> = Vec::new();
        assert(views(set@) =~= replay(self.chain().take(0)));
        let mut b: usize = 0;
        while b < self.blockchain.len()
            invariant
                b <= self.chain().len(),
                views(set@) == replay(self.chain().take(b as int)),
            decreases self.chain().len() - b,
        {
            apply_block_to(&mut set, &self.blockchain[b]);
            assert(self.chain().take(b + 1).drop_last() =~= self.chain().take(b as int));
            b = b + 1;
        }
        assert(self.chain().take(b as int) =~= self.chain());
        self.utxo_set = set;
    }

    /// Whether this node's own chain holds at the default difficulty.
    pub fn is_chain_valid(&self) -> (r: bool)
        ensures
            r == chain_ok(self.chain(), DEFAULT_DIFFICULTY as nat),
    {
        self.is_chain_valid_with_difficulty(self.blockchain.as_slice(), DEFAULT_DIFFICULTY)
    }

    /// Whether every block of `chain` past the first is correctly hashed,
    /// linked, mined and rooted, and opens with a coinbase.
    pub fn is_chain_valid_with_difficulty(&self, chain: &[Block], difficulty: usize) -> (r: bool)
        ensures
            r == chain_ok(views(chain@), difficulty as nat),
    {
        let ghost c = views(chain@);
        let mut i: usize = 1;
        while i < chain.len()
            invariant
                1 <= i,
                c == views(chain@),
                i <= c.len() || c.len() == 0,
                forall|m: int| 1 <= m < i && m < c.len() ==> link_ok(c[m - 1], #[trigger] c[m], difficulty as nat),
            decreases chain@.len() - i,
        {
            let current = &chain[i];
            let previous = &chain[i - 1];
            assert(c[i as int] == current@ && c[i - 1] == previous@);
            if current.hash != current.calculate_hash() {
                return false;
            }
            if current.previous_hash != previous.hash {
                return false;
            }
            if !starts_with_zeros(current.hash.as_str(), difficulty) {
                return false;
            }
            if current.merkle_root != current.calculate_merkle_root() {
                return false;
            }
            if current.transactions.len() == 0 || current.transactions[0].inputs.len() != 0 {
                return false;
            }
            i = i + 1;
        }
        true
    }

    /// The longest-valid-chain rule: adopts `blockchain` when it is valid at
    /// `difficulty` and longer than the local chain.
    pub fn update_blockchain(&mut self, blockchain: Vec<Block>, difficulty: usize)
        requires
            old(self).wf(),
        ensures
            final(self).wf(),
            chain_ok(views(blockchain@), difficulty as nat) && blockchain@.len() > old(
                self,
            ).blockchain@.len() ==> adopted(*old(self), *final(self), views(blockchain@)),
            !(chain_ok(views(blockchain@), difficulty as nat) && blockchain@.len() > old(
                self,
            ).blockchain@.len()) ==> *final(self) == *old(self),
    {
        if !self.is_chain_valid_with_difficulty(blockchain.as_slice(), difficulty) {
            return;
        }
        if blockchain.len() > self.blockchain.len() {
            self.adopt_chain(blockchain);
        }
    }

    /// Replaces the chain by `blockchain`: rebuilds the outputs from it, has
    /// the wallet (keys kept) forget its outputs and follow every block, and
    /// drops the pending transactions that the chain includes.
    pub fn adopt_chain(&mut self, blockchain: Vec<Block>)
        requires
            old(self).wf(),
        ensures
            final(self).wf(),
            adopted(*old(self), *final(self), views(blockchain@)),
    {
        let ghost pool = self.pool();
        let mut kept: Vec<Transaction> = Vec::new();
        let mut k: usize = 0;
        assert(pool.take(0) =~= Seq::<TxView>::empty());
        while k < self.mempool.len()
            invariant
                k <= pool.len(),
                pool == self.pool(),
                views(kept@) == strip_chain(pool.take(k as int), views(blockchain@)),
            decreases pool.len() - k,
        {
            let tx = &self.mempool[k];
            assert(pool.take(k + 1).drop_last() =~= pool.take(k as int));
            assert(pool.take(k + 1).last() == tx@);
            if !chain_contains_id(&blockchain, &tx.id) {
                let ghost prior = kept@;
                kept.push(tx.duplicate());
                assert(views(kept@) =~= views(prior).push(tx@));
            }
            k = k + 1;
        }
        assert(pool.take(k as int) =~= pool);
        self.mempool = kept;
        self.blockchain = blockchain;
        self.rebuild_utxo_set();
        self.wallet.clear_utxos();
        let ghost address = self.wallet@.address;
        let ghost c = self.chain();
        assert(self.wallet@.utxos == wallet_chain(Seq::empty(), address, c.take(0)));
        let mut b: usize = 0;
        while b < self.blockchain.len()
            invariant
                self.wallet.wf(),
                self.wallet@.address == address,
                self.wallet@.secret == old(self).wallet@.secret,
                self.wallet@.address == old(self).wallet@.address,
                c == self.chain(),
                self.outputs() == replay(c),
                b <= c.len(),
                self.wallet@.utxos == wallet_chain(Seq::empty(), address, c.take(b as int)),
                self.id == old(self).id,
                self.connections == old(self).connections,
                self.is_validator == old(self).is_validator,
                self.mining_reward == old(self).mining_reward,
                self.pool() == strip_chain(old(self).pool(), c),
            decreases c.len() - b,
        {
            self.wallet.update_utxos(self.blockchain[b].transactions.as_slice());
            assert(c.take(b + 1).drop_last() =~= c.take(b as int));
            b = b + 1;
        }
        assert(c.take(b as int) =~= c);
    }

    /// Puts `block` in place of the last block, whose transactions it keeps.
    pub fn replace_last_block(&mut self, block: Block)
        requires
            old(self).wf(),
            old(self).chain().len() > 0,
            block@.transactions == old(self).chain().last().transactions,
        ensures
            final(self).wf(),
            final(self).chain() == old(self).chain().drop_last().push(block@),
            final(self).id == old(self).id,
            final(self).connections == old(self).connections,
            final(self).is_validator == old(self).is_validator,
            final(self).wallet == old(self).wallet,
            final(self).mempool == old(self).mempool,
            final(self).utxo_set == old(self).utxo_set,
            final(self).mining_reward == old(self).mining_reward,
    {
        let ghost c = self.chain();
        self.blockchain.pop();
        self.blockchain.push(block);
        assert(self.chain() =~= c.drop_last().push(block@));
        assert(self.chain().drop_last() =~= c.drop_last());
    }
}

} // verus!
