use vstd::prelude::*;
use vstd::string::*;
use crate::block::{block_hash, header_hash, merkle_root_of, mined, restamped, Block, BlockView};
use crate::crypto::{random_below, unix_time_now};
use crate::node::{
    adopted, candidate, chain_ok, new_block_ok, next_index, pick, unminable, next_previous_hash, tx_acceptable, Node,
    DEFAULT_DIFFICULTY,
};
use crate::text::{has_leading_zeros, starts_with_zeros};
use crate::transaction::{is_coinbase, OutputView, Transaction, TxView, UtxoView, views};
use crate::ledger::{replay, sum_amounts};
use crate::wallet::wallet_txs;

verus! {

/// The difficulty a new network mines at.
pub const INITIAL_DIFFICULTY: usize = 2;

/// The block time, in seconds, a new network starts with.
pub const INITIAL_BLOCK_TIME: u64 = 10;

/// The registry of peers, the validator, and what the network has pending.
pub struct BlockchainNetwork {
    pub nodes: Vec<Node>,
    pub mempool: Vec<Transaction>,
    pub current_validator_id: Option<usize>,
    pub difficulty: usize,
    pub block_time: u64,
    pub last_block_time: u64,
    pub mining_active: bool,
}

/// What a peer's state becomes when a block is delivered to it: appended and
/// applied when the peer accepts it, nothing otherwise.
pub open spec fn block_delivered(before: Node, after: Node, b: BlockView, difficulty: nat) -> bool {
    &&& after.wf()
    &&& after.id == before.id
    &&& after.connections == before.connections
    &&& after.is_validator == before.is_validator
    &&& after.mempool == before.mempool
    &&& if new_block_ok(before.chain(), before.outputs(), b, difficulty) {
        &&& after.chain() == before.chain().push(b)
        &&& after.wallet@.address == before.wallet@.address
        &&& after.wallet@.utxos == wallet_txs(
            before.wallet@.utxos,
            before.wallet@.address,
            b.transactions,
        )
    } else {
        after == before
    }
}

/// What a peer's state becomes when a chain is delivered to it: adopted when
/// valid and longer, nothing otherwise.
pub open spec fn chain_delivered(
    before: Node,
    after: Node,
    chain: Seq<BlockView>,
    difficulty: nat,
) -> bool {
    &&& after.wf()
    &&& if chain_ok(chain, difficulty) && chain.len() > before.chain().len() {
        adopted(before, after, chain)
    } else {
        after == before
    }
}

/// The node receives broadcasts unless it is the validator.
pub open spec fn receives(current: Option<usize>, i: int) -> bool {
    current != Some(i as usize)
}

/// The number of nodes other than `skip`, among the first `n`, whose chain
/// holds at the default difficulty.
pub open spec fn valid_peer_count(nodes: Seq<Node>, skip: int, n: int) -> nat
    decreases n,
{
    if n <= 0 {
        0
    } else {
        valid_peer_count(nodes, skip, n - 1) + if n - 1 != skip && chain_ok(
            nodes[n - 1].chain(),
            crate::node::DEFAULT_DIFFICULTY as nat,
        ) {
            1nat
        } else {
            0nat
        }
    }
}

/// An exact copy of a chain.
pub fn duplicate_chain(chain: &Vec<Block>) -> (r: Vec<Block>)
    ensures
        views(r@) == views(chain@),
{
    let mut r: Vec<Block> = Vec::new();
    let mut k: usize = 0;
    while k < chain.len()
        invariant
            k <= chain@.len(),
            r@.len() == k,
            forall|m: int| 0 <= m < k ==> #[trigger] r@[m]@ == chain@[m]@,
        decreases chain@.len() - k,
    {
        r.push(chain[k].duplicate());
        k = k + 1;
    }
    assert(views(r@) =~= views(chain@));
    r
}

/// A node's pool `pool` once it is offered `t`: kept unless the node sent it
/// or does not accept it. A transaction without inputs has no sender.
pub open spec fn offered(node: Node, pool: Seq<TxView>, t: TxView) -> Seq<TxView> {
    if (t.inputs.len() > 0 && node.wallet@.address == t.inputs[0].sender_address) || !tx_acceptable(
        t,
        node.outputs(),
    ) {
        pool
    } else {
        pool.push(t)
    }
}

/// The pending transactions of `pool` that a node with outputs `set` accepts, in order.
pub open spec fn admitted(pool: Seq<TxView>, set: Seq<UtxoView>) -> Seq<TxView>
    decreases pool.len(),
{
    if pool.len() == 0 {
        seq![]
    } else if tx_acceptable(pool.last(), set) {
        admitted(pool.drop_last(), set).push(pool.last())
    } else {
        admitted(pool.drop_last(), set)
    }
}

/// The validator's pool once the network has handed it the pending
/// transactions that it accepts.
pub open spec fn offered_pool(validator: Node, pending: Seq<TxView>) -> Seq<TxView> {
    validator.pool() + admitted(pending, validator.outputs())
}

/// Some transaction of `txs` carries the id `id`.
pub open spec fn has_id(txs: Seq<TxView>, id: Seq<char>) -> bool {
    exists|k: int| 0 <= k < txs.len() && txs[k].id == id
}

/// The pending transactions whose id no transaction of `txs` carries.
pub open spec fn strip_included(pool: Seq<TxView>, txs: Seq<TxView>) -> Seq<TxView>
    decreases pool.len(),
{
    if pool.len() == 0 {
        seq![]
    } else if has_id(txs, pool.last().id) {
        strip_included(pool.drop_last(), txs)
    } else {
        strip_included(pool.drop_last(), txs).push(pool.last())
    }
}

/// Whether a transaction of `txs` carries the id `id`.
fn contains_id(txs: &Vec<Transaction>, id: &String) -> (r: bool)
    ensures
        r == has_id(views(txs@), id@),
{
    let mut k: usize = 0;
    while k < txs.len()
        invariant
            k <= txs@.len(),
            forall|m: int| 0 <= m < k ==> (#[trigger] txs@[m]).id@ != id@,
        decreases txs@.len() - k,
    {
        if txs[k].id == *id {
            assert(views(txs@)[k as int].id == id@);
            return true;
        }
        k = k + 1;
    }
    assert forall|m: int| 0 <= m < views(txs@).len() implies views(txs@)[m].id != id@ by {
        assert(views(txs@)[m] == txs@[m]@);
    }
    false
}

proof fn lemma_peer_count_ignores(a: Seq<Node>, b: Seq<Node>, skip: int, n: int)
    requires
        0 <= n <= a.len(),
        a.len() == b.len(),
        forall|i: int| 0 <= i < a.len() && i != skip ==> (#[trigger] a[i]).chain() == b[i].chain(),
    ensures
        valid_peer_count(a, skip, n) == valid_peer_count(b, skip, n),
    decreases n,
{
    if n > 0 {
        lemma_peer_count_ignores(a, b, skip, n - 1);
        if n - 1 != skip {
            assert(a[n - 1].chain() == b[n - 1].chain());
        }
    }
}

/// In a well-formed network every wallet's balance is the sum of the outputs
/// it owns, and every node's unspent outputs are the replay of its chain.
pub proof fn lemma_nodes_consistent(net: BlockchainNetwork)
    requires
        net.wf(),
    ensures
        forall|i: int|
            0 <= i < net.nodes@.len() ==> (#[trigger] net.nodes@[i]).wallet@.balance == sum_amounts(
                net.nodes@[i].wallet@.utxos,
            ) && net.nodes@[i].outputs() == replay(net.nodes@[i].chain()),
{
    assert forall|i: int| 0 <= i < net.nodes@.len() implies (#[trigger] net.nodes@[i]).wallet@.balance
        == sum_amounts(net.nodes@[i].wallet@.utxos) && net.nodes@[i].outputs() == replay(
        net.nodes@[i].chain(),
    ) by {
        assert(net.nodes@[i].wf());
    }
}

/// In a well-formed network at most one node is the validator.
pub proof fn lemma_single_validator(net: BlockchainNetwork)
    requires
        net.wf(),
    ensures
        forall|i: int, j: int|
            0 <= i < net.nodes@.len() && 0 <= j < net.nodes@.len() && (#[trigger] net.nodes@[i]).is_validator
                && (#[trigger] net.nodes@[j]).is_validator ==> i == j,
{
    assert forall|i: int, j: int|
        0 <= i < net.nodes@.len() && 0 <= j < net.nodes@.len() && (#[trigger] net.nodes@[i]).is_validator
            && (#[trigger] net.nodes@[j]).is_validator implies i == j by {
        broadcast use vstd::std_specs::vec::axiom_spec_len;
        assert(net.nodes.len() == net.nodes@.len());
        assert(net.current_validator_id == Some(i as usize));
        assert(net.current_validator_id == Some(j as usize));
    }
}

impl BlockchainNetwork {
    /// The invariant: every node keeps its own; a node is the validator exactly
    /// when the network names it so.
    pub open spec fn wf(&self) -> bool {
        &&& forall|i: int| 0 <= i < self.nodes@.len() ==> (#[trigger] self.nodes@[i]).wf()
        &&& forall|i: int|
            0 <= i < self.nodes@.len() ==> ((#[trigger] self.nodes@[i]).is_validator
                <==> self.current_validator_id == Some(i as usize))
        &&& self.current_validator_id matches Some(v) ==> v < self.nodes@.len()
    }

    /// An empty network at the initial difficulty and block time.
    pub fn new() -> (r: BlockchainNetwork)
        ensures
            r.wf(),
            r.nodes@.len() == 0,
            r.mempool@.len() == 0,
            r.current_validator_id.is_none(),
            r.difficulty == INITIAL_DIFFICULTY,
            r.block_time == INITIAL_BLOCK_TIME,
            !r.mining_active,
    {
        BlockchainNetwork {
            nodes: Vec::new(),
            mempool: Vec::new(),
            current_validator_id: None,
            difficulty: INITIAL_DIFFICULTY,
            block_time: INITIAL_BLOCK_TIME,
            last_block_time: unix_time_now(),
            mining_active: false,
        }
    }

    /// Adds a node with a fresh wallet and an empty chain; returns its id.
    pub fn add_node(&mut self) -> (r: usize)
        requires
            old(self).wf(),
        ensures
            final(self).wf(),
            r == old(self).nodes@.len(),
            final(self).nodes@.len() == old(self).nodes@.len() + 1,
            final(self).nodes@.drop_last() == old(self).nodes@,
            final(self).nodes@.last().id == r,
            final(self).nodes@.last().chain() == Seq::<BlockView>::empty(),
            final(self).nodes@.last().pool() == Seq::<TxView>::empty(),
            final(self).nodes@.last().wallet@.utxos == Seq::<UtxoView>::empty(),
            final(self).nodes@.last().wallet@.balance == 0,
            !final(self).nodes@.last().is_validator,
            final(self).mempool == old(self).mempool,
            final(self).current_validator_id == old(self).current_validator_id,
            final(self).difficulty == old(self).difficulty,
    {
        let id = self.nodes.len();
        let node = Node::new(id, None);
        self.nodes.push(node);
        assert(self.nodes@.drop_last() =~= old(self).nodes@);
        id
    }

    /// The address of node `node_id`; a placeholder text for an unknown id.
    pub fn get_node_address(&self, node_id: usize) -> (r: String)
        ensures
            node_id < self.nodes@.len() ==> r@ == self.nodes@[node_id as int].wallet@.address,
            node_id >= self.nodes@.len() ==> r@ == "Unknown Node"@,
    {
        if node_id < self.nodes.len() {
            String::from_str(self.nodes[node_id].get_address())
        } else {
            String::from_str("Unknown Node")
        }
    }

    /// The number of nodes.
    pub fn node_count(&self) -> (r: usize)
        ensures
            r == self.nodes@.len(),
    {
        self.nodes.len()
    }

    /// The id of the validator, if one is selected.
    pub fn current_val_id(&self) -> (r: Option<usize>)
        ensures
            r == self.current_validator_id,
    {
        self.current_validator_id
    }

    pub fn set_difficulty(&mut self, difficulty: usize)
        ensures
            final(self).difficulty == difficulty,
            final(self).nodes == old(self).nodes,
            final(self).mempool == old(self).mempool,
            final(self).current_validator_id == old(self).current_validator_id,
            final(self).block_time == old(self).block_time,
            final(self).mining_active == old(self).mining_active,
    {
        self.difficulty = difficulty;
    }

    pub fn set_block_time(&mut self, seconds: u64)
        ensures
            final(self).block_time == seconds,
            final(self).nodes == old(self).nodes,
            final(self).mempool == old(self).mempool,
            final(self).current_validator_id == old(self).current_validator_id,
            final(self).difficulty == old(self).difficulty,
            final(self).mining_active == old(self).mining_active,
    {
        self.block_time = seconds;
    }

    /// The hashes of node `node_id`'s blocks, in chain order; none for an unknown id.
    pub fn get_node_blockchain_hashes(&self, node_id: usize) -> (r: Vec<String>)
        ensures
            node_id >= self.nodes@.len() ==> r@.len() == 0,
            node_id < self.nodes@.len() ==> views(r@) == self.nodes@[node_id as int].chain().map_values(
                |b: BlockView| b.hash,
            ),
    {
        let mut hashes: Vec<String> = Vec::new();
        if node_id < self.nodes.len() {
            let chain = &self.nodes[node_id].blockchain;
            let mut k: usize = 0;
            while k < chain.len()
                invariant
                    k <= chain@.len(),
                    hashes@.len() == k,
                    forall|m: int| 0 <= m < k ==> #[trigger] hashes@[m]@ == chain@[m]@.hash,
                decreases chain@.len() - k,
            {
                hashes.push(chain[k].hash.clone());
                k = k + 1;
            }
            assert(views(hashes@) =~= views(chain@).map_values(|b: BlockView| b.hash));
        }
        hashes
    }

    /// Makes node `validator_id` the only validator; an unknown id changes nothing.
    pub fn assign_validator(&mut self, validator_id: usize)
        requires
            old(self).wf(),
        ensures
            final(self).wf(),
            validator_id >= old(self).nodes@.len() ==> *final(self) == *old(self),
            validator_id < old(self).nodes@.len() ==> final(self).current_validator_id == Some(
                validator_id,
            ),
            final(self).nodes@.len() == old(self).nodes@.len(),
            forall|i: int|
                0 <= i < final(self).nodes@.len() ==> #[trigger] final(self).nodes@[i] == (Node {
                    is_validator: final(self).nodes@[i].is_validator,
                    ..old(self).nodes@[i]
                }),
            final(self).mempool == old(self).mempool,
            final(self).difficulty == old(self).difficulty,
    {
        if validator_id >= self.nodes.len() {
            return;
        }
        let ghost start = self.nodes@;
        let mut i: usize = 0;
        while i < self.nodes.len()
            invariant
                self.nodes@.len() == start.len(),
                validator_id < start.len(),
                i <= start.len(),
                forall|j: int|
                    0 <= j < start.len() ==> #[trigger] self.nodes@[j] == (Node {
                        is_validator: self.nodes@[j].is_validator,
                        ..start[j]
                    }),
                forall|j: int|
                    0 <= j < i ==> (#[trigger] self.nodes@[j]).is_validator == (j == validator_id),
                forall|j: int| 0 <= j < start.len() ==> (#[trigger] start[j]).wf(),
                self.mempool == old(self).mempool,
                self.difficulty == old(self).difficulty,
                self.current_validator_id == old(self).current_validator_id,
            decreases start.len() - i,
        {
            self.nodes[i].is_validator = i == validator_id;
            i = i + 1;
        }
        self.current_validator_id = Some(validator_id);
        assert forall|j: int| 0 <= j < self.nodes@.len() implies (#[trigger] self.nodes@[j]).wf() by {
            assert(self.nodes@[j].wallet == start[j].wallet);
            assert(self.nodes@[j].chain() == start[j].chain());
            assert(self.nodes@[j].outputs() == start[j].outputs());
        }
    }

    /// Makes a node drawn uniformly at random the only validator; nothing
    /// happens without nodes.
    pub fn select_random_validator(&mut self)
        requires
            old(self).wf(),
        ensures
            final(self).wf(),
            old(self).nodes@.len() == 0 ==> *final(self) == *old(self),
            old(self).nodes@.len() > 0 ==> final(self).current_validator_id.is_some(),
            final(self).nodes@.len() == old(self).nodes@.len(),
            forall|i: int|
                0 <= i < final(self).nodes@.len() ==> #[trigger] final(self).nodes@[i] == (Node {
                    is_validator: final(self).nodes@[i].is_validator,
                    ..old(self).nodes@[i]
                }),
            final(self).mempool == old(self).mempool,
            final(self).difficulty == old(self).difficulty,
    {
        if self.nodes.len() == 0 {
            return;
        }
        let validator_id = random_below(self.nodes.len());
        self.assign_validator(validator_id);
    }

    /// Offers `transaction` to every node but its sender; each keeps it in its
    /// pool when it accepts it. A transaction without inputs has no sender.
    pub fn broadcast_transaction(&mut self, transaction: &Transaction)
        requires
            old(self).wf(),
        ensures
            final(self).wf(),
            final(self).nodes@.len() == old(self).nodes@.len(),
            forall|i: int|
                0 <= i < final(self).nodes@.len() ==> {
                    let a = old(self).nodes@[i];
                    let b = #[trigger] final(self).nodes@[i];
                    &&& b == (Node { mempool: b.mempool, ..a })
                    &&& b.pool() == offered(a, a.pool(), transaction@)
                },
            final(self).mempool == old(self).mempool,
            final(self).current_validator_id == old(self).current_validator_id,
            final(self).difficulty == old(self).difficulty,
    {
        let has_sender = transaction.inputs.len() > 0;
        let sender_address = if has_sender {
            transaction.inputs[0].sender_address.clone()
        } else {
            String::new()
        };
        let ghost start = self.nodes@;
        assert(start == old(self).nodes@);
        let mut i: usize = 0;
        while i < self.nodes.len()
            invariant
                start == old(self).nodes@,
                self.nodes@.len() == start.len(),
                i <= start.len(),
                has_sender == (transaction@.inputs.len() > 0),
                has_sender ==> sender_address@ == transaction@.inputs[0].sender_address,
                forall|j: int| 0 <= j < start.len() ==> (#[trigger] start[j]).wf(),
                forall|j: int| i <= j < start.len() ==> #[trigger] self.nodes@[j] == start[j],
                self.mempool == old(self).mempool,
                self.difficulty == old(self).difficulty,
                self.current_validator_id == old(self).current_validator_id,
                forall|j: int|
                    0 <= j < i ==> {
                        let a = start[j];
                        let b = #[trigger] self.nodes@[j];
                        &&& b == (Node { mempool: b.mempool, ..a })
                        &&& b.pool() == offered(a, a.pool(), transaction@)
                    },
            decreases start.len() - i,
        {
            let is_sender = has_sender && self.nodes[i].wallet.has_address(&sender_address);
            if !is_sender && self.nodes[i].verify_transaction(transaction) {
                let copy = transaction.duplicate();
                let ghost prior = self.nodes@[i as int].mempool@;
                self.nodes[i].mempool.push(copy);
                assert(self.nodes@[i as int].pool() =~= views(prior).push(transaction@));
            }
            i = i + 1;
        }
        assert forall|j: int| 0 <= j < self.nodes@.len() implies (#[trigger] self.nodes@[j]).wf() by {
            assert(self.nodes@[j].wallet == start[j].wallet);
            assert(self.nodes@[j].blockchain == start[j].blockchain);
            assert(self.nodes@[j].utxo_set == start[j].utxo_set);
        }
    }

    /// Has node `sender_id` build a payment and keep it; the network then
    /// records it and offers it to every other node.
    pub fn create_transaction(&mut self, sender_id: usize, recipient_address: &str, amount: u64) -> (r:
        Option<Transaction>)
        requires
            old(self).wf(),
        ensures
            final(self).wf(),
            sender_id >= old(self).nodes@.len() ==> r.is_none() && *final(self) == *old(self),
            sender_id < old(self).nodes@.len() && amount > old(self).nodes@[sender_id as int].wallet@.balance
                ==> r.is_none(),
            r.is_none() ==> final(self).mempool == old(self).mempool,
            sender_id < old(self).nodes@.len() && amount <= old(self).nodes@[sender_id as int].wallet@.balance
                && r.is_none() ==> exists|t: TxView|
                crate::wallet::is_payment(
                    t,
                    old(self).nodes@[sender_id as int].wallet@,
                    recipient_address@,
                    amount,
                ) && !tx_acceptable(t, old(self).nodes@[sender_id as int].outputs()),
            r.is_none() ==> forall|i: int|
                0 <= i < old(self).nodes@.len() ==> (#[trigger] final(self).nodes@[i]).pool() == old(
                    self,
                ).nodes@[i].pool(),
            r matches Some(t) ==> forall|i: int|
                0 <= i < old(self).nodes@.len() ==> {
                    let a = old(self).nodes@[i];
                    let b = #[trigger] final(self).nodes@[i];
                    &&& b.chain() == a.chain()
                    &&& b.outputs() == a.outputs()
                    &&& b.wallet == a.wallet
                    &&& b.is_validator == a.is_validator
                    &&& b.pool() == offered(
                        a,
                        if i == sender_id {
                            a.pool().push(t@)
                        } else {
                            a.pool()
                        },
                        t@,
                    )
                },
            r matches Some(t) ==> {
                &&& crate::wallet::is_payment(
                    t@,
                    old(self).nodes@[sender_id as int].wallet@,
                    recipient_address@,
                    amount,
                )
                &&& tx_acceptable(t@, old(self).nodes@[sender_id as int].outputs())
                &&& views(final(self).mempool@) == views(old(self).mempool@).push(t@)
            },
            final(self).nodes@.len() == old(self).nodes@.len(),
            final(self).current_validator_id == old(self).current_validator_id,
            final(self).difficulty == old(self).difficulty,
    {
        if sender_id >= self.nodes.len() {
            return None;
        }
        match self.nodes[sender_id].create_transaction(recipient_address, amount) {
            Some(tx) => {
                let ghost prior = self.mempool@;
                self.mempool.push(tx.duplicate());
                assert(views(self.mempool@) =~= views(prior).push(tx@));
                assert forall|j: int| 0 <= j < self.nodes@.len() implies (#[trigger] self.nodes@[j]).wf()
                    && (self.nodes@[j].is_validator <==> self.current_validator_id == Some(j as usize)) by {
                    if j != sender_id {
                        assert(self.nodes@[j] == old(self).nodes@[j]);
                    }
                }
                let ghost mid = self.nodes@;
                self.broadcast_transaction(&tx);
                assert forall|i: int| 0 <= i < old(self).nodes@.len() implies {
                    let a = old(self).nodes@[i];
                    let b = #[trigger] self.nodes@[i];
                    &&& b.chain() == a.chain()
                    &&& b.outputs() == a.outputs()
                    &&& b.wallet == a.wallet
                    &&& b.is_validator == a.is_validator
                    &&& b.pool() == offered(
                        a,
                        if i == sender_id {
                            a.pool().push(tx@)
                        } else {
                            a.pool()
                        },
                        tx@,
                    )
                } by {
                    assert(self.nodes@[i] == (Node { mempool: self.nodes@[i].mempool, ..mid[i] }));
                    if i != sender_id {
                        assert(mid[i] == old(self).nodes@[i]);
                    }
                }
                Some(tx)
            },
            None => {
                assert forall|j: int| 0 <= j < self.nodes@.len() implies (#[trigger] self.nodes@[j]).wf()
                    && (self.nodes@[j].is_validator <==> self.current_validator_id == Some(j as usize)) by {
                    if j != sender_id {
                        assert(self.nodes@[j] == old(self).nodes@[j]);
                    }
                }
                None
            },
        }
    }

    /// Delivers `block` to every node but the validator (to every node when
    /// none is selected); each appends it when it accepts it.
    pub fn broadcast_block(&mut self, block: &Block)
        requires
            old(self).wf(),
        ensures
            final(self).wf(),
            final(self).nodes@.len() == old(self).nodes@.len(),
            forall|i: int|
                0 <= i < final(self).nodes@.len() ==> if receives(old(self).current_validator_id, i) {
                    block_delivered(
                        old(self).nodes@[i],
                        #[trigger] final(self).nodes@[i],
                        block@,
                        old(self).difficulty as nat,
                    )
                } else {
                    final(self).nodes@[i] == old(self).nodes@[i]
                },
            final(self).mempool == old(self).mempool,
            final(self).current_validator_id == old(self).current_validator_id,
            final(self).difficulty == old(self).difficulty,
    {
        let ghost start = self.nodes@;
        let mut i: usize = 0;
        while i < self.nodes.len()
            invariant
                start == old(self).nodes@,
                self.nodes@.len() == start.len(),
                i <= start.len(),
                forall|j: int| 0 <= j < start.len() ==> (#[trigger] start[j]).wf(),
                forall|j: int| i <= j < start.len() ==> #[trigger] self.nodes@[j] == start[j],
                forall|j: int|
                    0 <= j < i ==> if receives(old(self).current_validator_id, j) {
                        block_delivered(start[j], #[trigger] self.nodes@[j], block@, old(self).difficulty as nat)
                    } else {
                        self.nodes@[j] == start[j]
                    },
                self.mempool == old(self).mempool,
                self.difficulty == old(self).difficulty,
                self.current_validator_id == old(self).current_validator_id,
            decreases start.len() - i,
        {
            if self.current_validator_id != Some(i) {
                let copy = block.duplicate();
                let difficulty = self.difficulty;
                self.nodes[i].add_block_from_network(copy, difficulty);
            }
            i = i + 1;
        }
        assert forall|j: int| 0 <= j < self.nodes@.len() implies (#[trigger] self.nodes@[j]).wf()
            && (self.nodes@[j].is_validator <==> self.current_validator_id == Some(j as usize)) by {
            assert(start[j].wf());
        }
    }

    /// Delivers `blockchain` to every node but the validator (to every node
    /// when none is selected); each adopts it when it is valid and longer.
    pub fn broadcast_blockchain(&mut self, blockchain: Vec<Block>)
        requires
            old(self).wf(),
        ensures
            final(self).wf(),
            final(self).nodes@.len() == old(self).nodes@.len(),
            forall|i: int|
                0 <= i < final(self).nodes@.len() ==> if receives(old(self).current_validator_id, i) {
                    chain_delivered(
                        old(self).nodes@[i],
                        #[trigger] final(self).nodes@[i],
                        views(blockchain@),
                        old(self).difficulty as nat,
                    )
                } else {
                    final(self).nodes@[i] == old(self).nodes@[i]
                },
            final(self).mempool == old(self).mempool,
            final(self).current_validator_id == old(self).current_validator_id,
            final(self).difficulty == old(self).difficulty,
    {
        let ghost start = self.nodes@;
        let mut i: usize = 0;
        while i < self.nodes.len()
            invariant
                start == old(self).nodes@,
                self.nodes@.len() == start.len(),
                i <= start.len(),
                forall|j: int| 0 <= j < start.len() ==> (#[trigger] start[j]).wf(),
                forall|j: int| i <= j < start.len() ==> #[trigger] self.nodes@[j] == start[j],
                forall|j: int|
                    0 <= j < i ==> if receives(old(self).current_validator_id, j) {
                        chain_delivered(
                            start[j],
                            #[trigger] self.nodes@[j],
                            views(blockchain@),
                            old(self).difficulty as nat,
                        )
                    } else {
                        self.nodes@[j] == start[j]
                    },
                self.mempool == old(self).mempool,
                self.difficulty == old(self).difficulty,
                self.current_validator_id == old(self).current_validator_id,
            decreases start.len() - i,
        {
            if self.current_validator_id != Some(i) {
                let copy = duplicate_chain(&blockchain);
                let difficulty = self.difficulty;
                self.nodes[i].update_blockchain(copy, difficulty);
            }
            i = i + 1;
        }
        assert forall|j: int| 0 <= j < self.nodes@.len() implies (#[trigger] self.nodes@[j]).wf()
            && (self.nodes@[j].is_validator <==> self.current_validator_id == Some(j as usize)) by {
            assert(start[j].wf());
        }
    }

    /// Has the validator mine a block: it first takes the network's pending
    /// transactions it accepts, then builds and mines its block, appends it,
    /// and the block goes to every other node; the network drops the pending
    /// transactions the block includes, and a new validator is drawn.
    pub fn mine_block(&mut self) -> (r: Option<Block>)
        requires
            old(self).wf(),
        ensures
            final(self).wf(),
            final(self).nodes@.len() == old(self).nodes@.len(),
            final(self).difficulty == old(self).difficulty,
            old(self).current_validator_id.is_none() ==> r.is_none() && final(self).nodes
                == old(self).nodes && final(self).mempool == old(self).mempool,
            old(self).current_validator_id matches Some(v) ==> (old(self).difficulty == 0
                && next_index(old(self).nodes@[v as int].chain()) <= usize::MAX ==> r.is_some()),
            old(self).current_validator_id matches Some(v) ==> (next_index(
                old(self).nodes@[v as int].chain(),
            ) <= usize::MAX ==> final(self).nodes@[v as int].pool() == pick(
                offered_pool(old(self).nodes@[v as int], views(old(self).mempool@)),
                old(self).nodes@[v as int].outputs(),
            ).1),
            old(self).current_validator_id matches Some(v) ==> (next_index(
                old(self).nodes@[v as int].chain(),
            ) <= usize::MAX && r.is_none() ==> exists|cb: TxView, ts: u64|
                #[trigger] unminable(
                    candidate(
                        next_index(old(self).nodes@[v as int].chain()) as usize,
                        ts,
                        seq![cb] + pick(
                            offered_pool(old(self).nodes@[v as int], views(old(self).mempool@)),
                            old(self).nodes@[v as int].outputs(),
                        ).0,
                        next_previous_hash(old(self).nodes@[v as int].chain()),
                    ),
                    old(self).difficulty as nat,
                )),
            old(self).current_validator_id matches Some(v) ==> (r.is_none() ==> {
                &&& forall|i: int|
                    0 <= i < old(self).nodes@.len() && i != v ==> #[trigger] final(self).nodes@[i]
                        == old(self).nodes@[i]
                &&& final(self).nodes@[v as int].blockchain == old(self).nodes@[v as int].blockchain
                &&& final(self).nodes@[v as int].utxo_set == old(self).nodes@[v as int].utxo_set
                &&& final(self).nodes@[v as int].wallet == old(self).nodes@[v as int].wallet
                &&& final(self).mempool == old(self).mempool
                &&& final(self).current_validator_id == old(self).current_validator_id
            }),
            r matches Some(b) ==> {
                let v = old(self).current_validator_id.unwrap() as int;
                let validator = old(self).nodes@[v];
                &&& final(self).nodes@[v].chain() == validator.chain().push(b@)
                &&& b@.transactions.drop_first() == pick(
                    offered_pool(validator, views(old(self).mempool@)),
                    validator.outputs(),
                ).0
                &&& final(self).nodes@[v].wallet@.address == validator.wallet@.address
                &&& final(self).nodes@[v].wallet@.utxos == wallet_txs(
                    validator.wallet@.utxos,
                    validator.wallet@.address,
                    b@.transactions,
                )
                &&& chain_ok(validator.chain(), old(self).difficulty as nat) ==> chain_ok(
                    final(self).nodes@[v].chain(),
                    old(self).difficulty as nat,
                )
                &&& b@.transactions.len() >= 1
                &&& is_coinbase(b@.transactions[0])
                &&& b@.transactions[0].outputs == seq![
                    OutputView {
                        amount: validator.mining_reward,
                        recipient_address: validator.wallet@.address,
                    },
                ]
                &&& b.index == next_index(validator.chain())
                &&& b@.previous_hash == next_previous_hash(validator.chain())
                &&& b@.merkle_root == merkle_root_of(b@.transactions)
                &&& b@.hash == block_hash(b@)
                &&& has_leading_zeros(b@.hash, old(self).difficulty as nat)
                &&& views(final(self).mempool@) == strip_included(
                    views(old(self).mempool@),
                    b@.transactions,
                )
                &&& forall|i: int|
                    0 <= i < old(self).nodes@.len() && i != v ==> block_delivered(
                        old(self).nodes@[i],
                        Node {
                            is_validator: old(self).nodes@[i].is_validator,
                            ..#[trigger] final(self).nodes@[i]
                        },
                        b@,
                        old(self).difficulty as nat,
                    )
                &&& final(self).current_validator_id.is_some()
            },
    {
        let now = unix_time_now();
        self.last_block_time = now;
        let v = match self.current_validator_id {
            Some(v) => v,
            None => {
                return None;
            },
        };
        let ghost start = self.nodes@;
        let mut k: usize = 0;
        while k < self.mempool.len()
            invariant
                start == old(self).nodes@,
                v < start.len(),
                self.nodes@.len() == start.len(),
                k <= self.mempool@.len(),
                forall|j: int| 0 <= j < start.len() && j != v ==> #[trigger] self.nodes@[j] == start[j],
                self.nodes@[v as int] == (Node { mempool: self.nodes@[v as int].mempool, ..start[v as int] }),
                self.nodes@[v as int].pool() == start[v as int].pool() + admitted(
                    views(self.mempool@).take(k as int),
                    start[v as int].outputs(),
                ),
                self.mempool == old(self).mempool,
                self.difficulty == old(self).difficulty,
                self.current_validator_id == old(self).current_validator_id,
                old(self).current_validator_id == Some(v),
            decreases self.mempool@.len() - k,
        {
            let ghost pending = views(self.mempool@);
            assert(pending.take(k + 1).drop_last() =~= pending.take(k as int));
            assert(pending.take(k + 1).last() == self.mempool@[k as int]@);
            let ghost prior = self.nodes@[v as int].pool();
            if self.nodes[v].verify_transaction(&self.mempool[k]) {
                let copy = self.mempool[k].duplicate();
                let ghost prior_vec = self.nodes@[v as int].mempool@;
                self.nodes[v].mempool.push(copy);
                assert(self.nodes@[v as int].pool() =~= views(prior_vec).push(copy@));
                assert(start[v as int].pool() + admitted(pending.take(k + 1), start[v as int].outputs())
                    =~= (start[v as int].pool() + admitted(pending.take(k as int), start[v as int].outputs())).push(copy@));
            }
            k = k + 1;
        }
        assert(views(self.mempool@).take(k as int) =~= views(self.mempool@));
        assert(self.nodes@[v as int].pool() == offered_pool(start[v as int], views(old(self).mempool@)));
        assert(start[v as int].wf());
        assert(self.nodes@[v as int].wf()) by {
            assert(self.nodes@[v as int].wallet == start[v as int].wallet);
            assert(self.nodes@[v as int].chain() == start[v as int].chain());
            assert(self.nodes@[v as int].outputs() == start[v as int].outputs());
        }
        let difficulty = self.difficulty;
        let created = self.nodes[v].create_block(difficulty);
        assert(self.nodes@[v as int].is_validator == start[v as int].is_validator);
        assert forall|j: int| 0 <= j < self.nodes@.len() implies (#[trigger] self.nodes@[j]).wf()
            && (self.nodes@[j].is_validator <==> self.current_validator_id == Some(j as usize)) by {
            if j != v {
                assert(self.nodes@[j] == start[j]);
            }
        }
        match created {
            None => None,
            Some(block) => {
                let ghost b = block@;
                let ghost pending = views(self.mempool@);
                let mut rest: Vec<Transaction> = Vec::new();
                let mut k: usize = 0;
                assert(pending.take(0) =~= Seq::<TxView>::empty());
                while k < self.mempool.len()
                    invariant
                        k <= pending.len(),
                        pending == views(self.mempool@),
                        b == block@,
                        views(rest@) == strip_included(pending.take(k as int), b.transactions),
                    decreases pending.len() - k,
                {
                    let tx = &self.mempool[k];
                    assert(pending.take(k + 1).drop_last() =~= pending.take(k as int));
                    assert(pending.take(k + 1).last() == tx@);
                    if !contains_id(&block.transactions, &tx.id) {
                        let ghost prior = rest@;
                        rest.push(tx.duplicate());
                        assert(views(rest@) =~= views(prior).push(tx@));
                    }
                    k = k + 1;
                }
                assert(pending.take(k as int) =~= pending);
                self.mempool = rest;
                let ghost mid = self.nodes@;
                self.nodes[v].append_block(block.duplicate());
                assert forall|j: int| 0 <= j < self.nodes@.len() implies (#[trigger] self.nodes@[j]).wf()
                    && (self.nodes@[j].is_validator <==> self.current_validator_id == Some(j as usize)) by {
                    if j != v {
                        assert(self.nodes@[j] == mid[j]);
                    }
                }
                let ghost before_broadcast = self.nodes@;
                self.broadcast_block(&block);
                let ghost after_broadcast = self.nodes@;
                let total = self.nodes.len();
                self.select_random_validator();
                assert forall|i: int|
                    0 <= i < old(self).nodes@.len() && i != v implies block_delivered(
                        old(self).nodes@[i],
                        Node { is_validator: old(self).nodes@[i].is_validator, ..#[trigger] self.nodes@[i] },
                        b,
                        old(self).difficulty as nat,
                    ) by {
                    assert(before_broadcast[i] == mid[i]);
                    assert(mid[i] == start[i]);
                    assert(i < total);
                    assert(receives(Some(v), i));
                    assert(self.nodes@[i] == (Node { is_validator: self.nodes@[i].is_validator, ..after_broadcast[i] }));
                }
                assert(self.nodes@[v as int] == (Node { is_validator: self.nodes@[v as int].is_validator, ..after_broadcast[v as int] }));
                proof {
                    let c = start[v as int].chain();
                    if chain_ok(c, old(self).difficulty as nat) {
                        if c.len() > 0 {
                            assert(crate::node::link_ok(c.last(), b, old(self).difficulty as nat));
                        }
                        crate::node::lemma_chain_extends(c, b, old(self).difficulty as nat);
                    }
                }
                assert(after_broadcast[v as int] == before_broadcast[v as int]);
                Some(block)
            },
        }
    }

    /// Tampers with the last block of node `node_id`: installs `custom_hash`
    /// (mining a compliant hash when it misses the difficulty), or restamps and
    /// re-mines the block. When the other nodes with a valid chain are a
    /// strict majority, the tampered node takes the chain of the first of them,
    /// which then goes to every node, and the attack is refused (`false`);
    /// otherwise it stands (`true`).
    pub fn try_manipulate_blockchain(&mut self, node_id: usize, custom_hash: Option<String>) -> (r:
        bool)
        requires
            old(self).wf(),
        ensures
            final(self).wf(),
            final(self).nodes@.len() == old(self).nodes@.len(),
            final(self).mempool == old(self).mempool,
            final(self).current_validator_id == old(self).current_validator_id,
            final(self).difficulty == old(self).difficulty,
            node_id >= old(self).nodes@.len() || old(self).nodes@[node_id as int].chain().len() == 0
                ==> !r && *final(self) == *old(self),
            node_id < old(self).nodes@.len() && old(self).nodes@[node_id as int].chain().len() > 0
                ==> {
                let n = old(self).nodes@.len() as int;
                let before = old(self).nodes@[node_id as int].chain();
                let after = final(self).nodes@[node_id as int].chain();
                &&& r == !(valid_peer_count(old(self).nodes@, node_id as int, n) > n / 2)
                &&& r ==> {
                    &&& forall|i: int|
                        0 <= i < n && i != node_id ==> #[trigger] final(self).nodes@[i] == old(
                            self,
                        ).nodes@[i]
                    &&& after.len() == before.len()
                    &&& after.drop_last() == before.drop_last()
                    &&& custom_hash.is_some() && has_leading_zeros(
                        custom_hash.unwrap()@,
                        old(self).difficulty as nat,
                    ) ==> after.last() == (BlockView { hash: custom_hash.unwrap()@, ..before.last() })
                    &&& custom_hash.is_some() && !has_leading_zeros(
                        custom_hash.unwrap()@,
                        old(self).difficulty as nat,
                    ) ==> exists|found: bool|
                        mined(before.last(), after.last(), old(self).difficulty as nat, found)
                    &&& custom_hash.is_none() ==> exists|t: u64, found: bool|
                        #[trigger] mined(
                            restamped(old(self).nodes@[node_id as int].chain().last(), t),
                            final(self).nodes@[node_id as int].chain().last(),
                            old(self).difficulty as nat,
                            found,
                        )
                }
                &&& !r ==> exists|p: int|
                    0 <= p < n && p != node_id && chain_ok(
                        old(self).nodes@[p].chain(),
                        DEFAULT_DIFFICULTY as nat,
                    ) && #[trigger] final(self).nodes@[p].chain() == old(self).nodes@[p].chain()
                        && after == old(self).nodes@[p].chain() && forall|j: int|
                        0 <= j < n && j != node_id ==> if receives(
                            old(self).current_validator_id,
                            j,
                        ) {
                            chain_delivered(
                                old(self).nodes@[j],
                                #[trigger] final(self).nodes@[j],
                                old(self).nodes@[p].chain(),
                                old(self).difficulty as nat,
                            )
                        } else {
                            final(self).nodes@[j] == old(self).nodes@[j]
                        }
            },
    {
        if node_id >= self.nodes.len() {
            return false;
        }
        let chain_len = self.nodes[node_id].blockchain.len();
        if chain_len == 0 {
            return false;
        }
        let ghost start = self.nodes@;
        let difficulty = self.difficulty;
        let mut block = self.nodes[node_id].blockchain[chain_len - 1].duplicate();
        let ghost last = block@;
        assert(start[node_id as int].chain().last() == block@);
        let ghost mut found = false;
        let ghost mut stamp: u64 = 0;
        match custom_hash {
            Some(hash) => {
                block.hash = hash;
                if !starts_with_zeros(block.hash.as_str(), difficulty) {
                    let ghost with_hash = block@;
                    let mined_ok = block.mine_block(difficulty);
                    proof {
                        found = mined_ok;
                        assert forall|m: u64| header_hash(with_hash, m) == header_hash(last, m) by {}
                        assert(mined(last, block@, difficulty as nat, found));
                    }
                }
            },
            None => {
                block.timestamp = unix_time_now();
                block.hash = block.calculate_hash();
                let ghost stamped = block@;
                let mined_ok = block.mine_block(difficulty);
                proof {
                    found = mined_ok;
                    stamp = stamped.timestamp;
                    let target = restamped(last, stamp);
                    assert forall|m: u64| header_hash(stamped, m) == header_hash(target, m) by {}
                    assert(mined(target, block@, difficulty as nat, found));
                }
            },
        }
        let ghost tampered_block = block@;
        assert(start[node_id as int].wf());
        self.nodes[node_id].replace_last_block(block);
        let ghost tampered = self.nodes@;
        assert forall|j: int| 0 <= j < self.nodes@.len() implies (#[trigger] self.nodes@[j]).wf()
            && (self.nodes@[j].is_validator <==> self.current_validator_id == Some(j as usize))
            && (j != node_id ==> self.nodes@[j] == start[j]) by {
            if j != node_id {
                assert(self.nodes@[j] == start[j]);
            }
        }
        let total_nodes = self.nodes.len();
        let mut count: usize = 0;
        let mut source: Option<usize> = None;
        let mut i: usize = 0;
        while i < total_nodes
            invariant
                total_nodes == self.nodes@.len(),
                self.nodes@ == tampered,
                i <= total_nodes,
                count == valid_peer_count(tampered, node_id as int, i as int),
                count <= i,
                source.is_none() <==> count == 0,
                source matches Some(p) ==> p < i && p != node_id && chain_ok(
                    tampered[p as int].chain(),
                    DEFAULT_DIFFICULTY as nat,
                ),
            decreases total_nodes - i,
        {
            if i != node_id && self.nodes[i].is_chain_valid() {
                count = count + 1;
                if source.is_none() {
                    source = Some(i);
                }
            }
            i = i + 1;
        }
        proof {
            lemma_peer_count_ignores(tampered, start, node_id as int, total_nodes as int);
        }
        if count > total_nodes / 2 {
            let p = match source {
                Some(p) => p,
                None => {
                    return true;
                },
            };
            let valid_chain = duplicate_chain(&self.nodes[p].blockchain);
            self.nodes[node_id].adopt_chain(duplicate_chain(&valid_chain));
            let ghost restored = self.nodes@;
            assert forall|j: int| 0 <= j < self.nodes@.len() implies (#[trigger] self.nodes@[j]).wf()
                && (self.nodes@[j].is_validator <==> self.current_validator_id == Some(j as usize)) by {
                if j != node_id {
                    assert(self.nodes@[j] == tampered[j]);
                }
            }
            let ghost source = views(valid_chain@);
            assert(source == start[p as int].chain());
            self.broadcast_blockchain(valid_chain);
            assert forall|j: int| 0 <= j < total_nodes && j != node_id implies (#[trigger] restored[j]) == start[j] by {
                assert(restored[j] == tampered[j]);
            }
            assert(restored[p as int] == start[p as int]);
            assert(self.nodes@[p as int].chain() == start[p as int].chain());
            assert(self.nodes@[node_id as int].chain() == restored[node_id as int].chain());
            false
        } else {
            assert(self.nodes@[node_id as int].chain().last() == tampered_block);
            true
        }
    }

    /// Reports a hash change: a change by the validator stands (`true`), one
    /// by another node is refused (`false`). With no validator selected, a
    /// known node's change stands unless the other nodes form a majority.
    pub fn try_manipulate_hash(&mut self, node_id: usize, _fake_hash: String) -> (r: bool)
        ensures
            r == (match old(self).current_validator_id {
                Some(v) => node_id == v && node_id < old(self).nodes@.len(),
                None => node_id < old(self).nodes@.len() && !(old(self).nodes@.len() - 1
                    > old(self).nodes@.len() / 2),
            }),
            *final(self) == *old(self),
    {
        let total_nodes = self.nodes.len();
        match self.current_validator_id {
            Some(validator_id) => node_id == validator_id && node_id < total_nodes,
            None => {
                if node_id >= total_nodes {
                    return false;
                }
                let matching_hash_count = total_nodes - 1;
                !(matching_hash_count > total_nodes / 2)
            },
        }
    }

    /// Starts the automatic mining mode: refused when it is already on or no
    /// validator is selected.
    pub fn start_automatic_mining(&mut self) -> (r: Result<(), String>)
        ensures
            r.is_ok() <==> !old(self).mining_active && old(self).current_validator_id.is_some(),
            final(self).mining_active == (old(self).mining_active || r.is_ok()),
            final(self).nodes == old(self).nodes,
            final(self).mempool == old(self).mempool,
            final(self).current_validator_id == old(self).current_validator_id,
            final(self).difficulty == old(self).difficulty,
    {
        if self.mining_active {
            return Err(String::from_str("mining is already active"));
        }
        if self.current_validator_id.is_none() {
            return Err(String::from_str("a validator must be selected before mining starts"));
        }
        self.mining_active = true;
        Ok(())
    }

    /// Stops the automatic mining mode: refused when it is already off.
    pub fn stop_automatic_mining(&mut self) -> (r: Result<(), String>)
        ensures
            r.is_ok() <==> old(self).mining_active,
            !final(self).mining_active,
            final(self).nodes == old(self).nodes,
            final(self).mempool == old(self).mempool,
            final(self).current_validator_id == old(self).current_validator_id,
            final(self).difficulty == old(self).difficulty,
    {
        if !self.mining_active {
            return Err(String::from_str("mining is already stopped"));
        }
        self.mining_active = false;
        Ok(())
    }

    /// Links two distinct nodes both ways; unknown ids are skipped.
    pub fn connect_nodes(&mut self, node1_id: usize, node2_id: usize)
        requires
            old(self).wf(),
        ensures
            final(self).wf(),
            final(self).nodes@.len() == old(self).nodes@.len(),
            forall|i: int|
                0 <= i < final(self).nodes@.len() ==> {
                    let a = old(self).nodes@[i];
                    let b = #[trigger] final(self).nodes@[i];
                    &&& b.connections@ == (if node1_id != node2_id && (i == node1_id || i == node2_id) {
                        let peer = if i == node1_id { node2_id } else { node1_id };
                        if peer == a.id || a.connections@.contains(peer) {
                            a.connections@
                        } else {
                            a.connections@.push(peer)
                        }
                    } else {
                        a.connections@
                    })
                    &&& b == (Node { connections: b.connections, ..a })
                },
            final(self).mempool == old(self).mempool,
            final(self).current_validator_id == old(self).current_validator_id,
            final(self).difficulty == old(self).difficulty,
    {
        if node1_id == node2_id {
            return;
        }
        if node1_id < self.nodes.len() {
            self.nodes[node1_id].add_connection(node2_id);
        }
        if node2_id < self.nodes.len() {
            self.nodes[node2_id].add_connection(node1_id);
        }
    }
}

} // verus!
