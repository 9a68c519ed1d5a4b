use vstd::prelude::*;
use crate::block::{Block, BlockView};
use crate::transaction::{
    created_utxos, get_utxo_id, key_of, InputView, Transaction, TxView, UTXO, UtxoView, views,
};

verus! {

/// The position of the first output in `s` whose identifier is `key`, or -1.
pub open spec fn key_position(s: Seq<UtxoView>, key: Seq<char>) -> int
    decreases s.len(),
{
    if s.len() == 0 {
        -1
    } else if key_of(s[0]) == key {
        0
    } else {
        let p = key_position(s.subrange(1, s.len() as int), key);
        if p < 0 {
            -1
        } else {
            p + 1
        }
    }
}

/// `s` without the first output whose identifier is `key`.
pub open spec fn remove_key(s: Seq<UtxoView>, key: Seq<char>) -> Seq<UtxoView> {
    let p = key_position(s, key);
    if p < 0 {
        s
    } else {
        s.remove(p)
    }
}

pub open spec fn sum_amounts(s: Seq<UtxoView>) -> nat
    decreases s.len(),
{
    if s.len() == 0 {
        0
    } else {
        sum_amounts(s.drop_last()) + s.last().amount as nat
    }
}

/// Removes, for each input in turn, the first output that it names.
pub open spec fn remove_inputs(s: Seq<UtxoView>, inputs: Seq<InputView>) -> Seq<UtxoView>
    decreases inputs.len(),
{
    if inputs.len() == 0 {
        s
    } else {
        remove_key(remove_inputs(s, inputs.drop_last()), inputs.last().utxo_id)
    }
}

/// The unspent outputs after a transaction: what it spends leaves, what it pays joins.
pub open spec fn apply_tx(s: Seq<UtxoView>, t: TxView) -> Seq<UtxoView> {
    remove_inputs(s, t.inputs) + created_utxos(t)
}

pub open spec fn apply_txs(s: Seq<UtxoView>, txs: Seq<TxView>) -> Seq<UtxoView>
    decreases txs.len(),
{
    if txs.len() == 0 {
        s
    } else {
        apply_tx(apply_txs(s, txs.drop_last()), txs.last())
    }
}

pub open spec fn apply_block(s: Seq<UtxoView>, b: BlockView) -> Seq<UtxoView> {
    apply_txs(s, b.transactions)
}

/// The unspent outputs that replaying a chain from nothing leaves.
pub open spec fn replay(chain: Seq<BlockView>) -> Seq<UtxoView>
    decreases chain.len(),
{
    if chain.len() == 0 {
        seq![]
    } else {
        apply_block(replay(chain.drop_last()), chain.last())
    }
}

pub proof fn lemma_key_position(s: Seq<UtxoView>, key: Seq<char>, j: int)
    requires
        0 <= j <= s.len(),
        forall|m: int| 0 <= m < j ==> key_of(#[trigger] s[m]) != key,
    ensures
        j < s.len() && key_of(s[j]) == key ==> key_position(s, key) == j,
        j == s.len() ==> key_position(s, key) == -1,
    decreases j,
{
    if j > 0 {
        let t = s.subrange(1, s.len() as int);
        assert forall|m: int| 0 <= m < j - 1 implies key_of(#[trigger] t[m]) != key by {
            assert(t[m] == s[m + 1]);
        }
        lemma_key_position(t, key, j - 1);
    }
}

pub proof fn lemma_key_position_found(s: Seq<UtxoView>, key: Seq<char>)
    ensures
        -1 <= key_position(s, key) < s.len(),
        key_position(s, key) >= 0 ==> key_of(s[key_position(s, key)]) == key,
    decreases s.len(),
{
    if s.len() > 0 && key_of(s[0]) != key {
        let t = s.subrange(1, s.len() as int);
        lemma_key_position_found(t, key);
    }
}

pub proof fn lemma_sum_push(s: Seq<UtxoView>, u: UtxoView)
    ensures
        sum_amounts(s.push(u)) == sum_amounts(s) + u.amount,
{
    assert(s.push(u).drop_last() =~= s);
}

pub proof fn lemma_sum_remove(s: Seq<UtxoView>, p: int)
    requires
        0 <= p < s.len(),
    ensures
        sum_amounts(s.remove(p)) + s[p].amount == sum_amounts(s),
    decreases s.len(),
{
    if p == s.len() - 1 {
        assert(s.remove(p) =~= s.drop_last());
    } else {
        let d = s.drop_last();
        lemma_sum_remove(d, p);
        assert(s.remove(p) =~= d.remove(p).push(s.last()));
        lemma_sum_push(d.remove(p), s.last());
    }
}

pub proof fn lemma_sum_take(s: Seq<UtxoView>, k: int)
    requires
        0 <= k <= s.len(),
    ensures
        sum_amounts(s.take(k)) <= sum_amounts(s),
    decreases s.len() - k,
{
    if k < s.len() {
        lemma_sum_take(s, k + 1);
        assert(s.take(k + 1).drop_last() =~= s.take(k));
    } else {
        assert(s.take(k) =~= s);
    }
}

pub proof fn lemma_sum_take_step(s: Seq<UtxoView>, k: int)
    requires
        0 <= k < s.len(),
    ensures
        sum_amounts(s.take(k + 1)) == sum_amounts(s.take(k)) + s[k].amount,
{
    assert(s.take(k + 1).drop_last() =~= s.take(k));
}

/// The position of the first output in `set` whose identifier is `key`.
pub fn find_key(set: &Vec<UTXO>, key: &String) -> (r: Option<usize>)
    ensures
        match r {
            Some(p) => p as int == key_position(views(set@), key@),
            None => key_position(views(set@), key@) < 0,
        },
{
    let ghost s = views(set@);
    let mut j: usize = 0;
    while j < set.len()
        invariant
            j <= set@.len(),
            s == views(set@),
            forall|m: int| 0 <= m < j ==> key_of(#[trigger] s[m]) != key@,
        decreases set@.len() - j,
    {
        let utxo = &set[j];
        let k = get_utxo_id(utxo.transaction_id.as_str(), utxo.output_index);
        if k == *key {
            proof {
                lemma_key_position(s, key@, j as int);
            }
            return Some(j);
        }
        j = j + 1;
    }
    proof {
        lemma_key_position(s, key@, j as int);
    }
    None
}

/// Applies one transaction to an output set in place.
pub fn apply_tx_to(set: &mut Vec<UTXO>, tx: &Transaction)
    ensures
        views(final(set)@) == apply_tx(views(old(set)@), tx@),
{
    let ghost before = views(set@);
    let mut k: usize = 0;
    while k < tx.inputs.len()
        invariant
            k <= tx.inputs@.len(),
            views(set@) == remove_inputs(before, tx@.inputs.take(k as int)),
        decreases tx.inputs@.len() - k,
    {
        let pos = find_key(set, &tx.inputs[k].utxo_id);
        assert(tx@.inputs.take(k + 1).last() == tx@.inputs[k as int]);
        assert(tx@.inputs[k as int].utxo_id == tx.inputs@[k as int].utxo_id@);
        proof {
            assert(tx@.inputs.take(k + 1).drop_last() =~= tx@.inputs.take(k as int));
            lemma_key_position_found(views(set@), tx@.inputs[k as int].utxo_id);
        }
        let ghost key = tx@.inputs[k as int].utxo_id;
        let ghost prior = views(set@);
        match pos {
            Some(p) => {
                let ghost prior_vec = set@;
                set.remove(p);
                assert(views(set@) =~= views(prior_vec).remove(p as int));
            },
            None => {},
        }
        assert(views(set@) == remove_key(prior, key));
        assert(remove_inputs(before, tx@.inputs.take(k + 1)) == remove_key(
            remove_inputs(before, tx@.inputs.take(k as int)),
            key,
        ));
        k = k + 1;
    }
    assert(tx@.inputs.take(k as int) =~= tx@.inputs);
    let ghost removed = views(set@);
    let mut k: usize = 0;
    while k < tx.outputs.len()
        invariant
            k <= tx.outputs@.len(),
            views(set@) == removed + created_utxos(tx@).take(k as int),
        decreases tx.outputs@.len() - k,
    {
        let out = &tx.outputs[k];
        let utxo = UTXO {
            transaction_id: tx.id.clone(),
            output_index: k,
            amount: out.amount,
            recipient_address: out.recipient_address.clone(),
        };
        assert(utxo@ == created_utxos(tx@)[k as int]);
        let ghost prior = set@;
        set.push(utxo);
        assert(views(set@) =~= views(prior).push(utxo@));
        assert(created_utxos(tx@).take(k + 1) =~= created_utxos(tx@).take(k as int).push(utxo@));
        k = k + 1;
    }
    assert(created_utxos(tx@).take(k as int) =~= created_utxos(tx@));
}

/// Applies one block to an output set in place.
pub fn apply_block_to(set: &mut Vec<UTXO>, block: &Block)
    ensures
        views(final(set)@) == apply_block(views(old(set)@), block@),
{
    let ghost start = views(set@);
    let mut t: usize = 0;
    while t < block.transactions.len()
        invariant
            t <= block.transactions@.len(),
            views(set@) == apply_txs(start, block@.transactions.take(t as int)),
        decreases block.transactions@.len() - t,
    {
        apply_tx_to(set, &block.transactions[t]);
        assert(block@.transactions.take(t + 1).drop_last() =~= block@.transactions.take(t as int));
        t = t + 1;
    }
    assert(block@.transactions.take(t as int) =~= block@.transactions);
}

/// An exact copy of an output set.
pub fn duplicate_utxos(set: &Vec<UTXO>) -> (r: Vec<UTXO>)
    ensures
        views(r@) == views(set@),
{
    let mut r: Vec<UTXO> = Vec::new();
    let mut k: usize = 0;
    while k < set.len()
        invariant
            k <= set@.len(),
            r@.len() == k,
            forall|m: int| 0 <= m < k ==> #[trigger] r@[m]@ == set@[m]@,
        decreases set@.len() - k,
    {
        r.push(set[k].duplicate());
        k = k + 1;
    }
    assert(views(r@) =~= views(set@));
    r
}

} // verus!
