use vstd::prelude::*;
use vstd::string::*;
use crate::crypto::{digest_hex, hash_text};
use crate::text::{dec, has_leading_zeros, push_decimal, starts_with_zeros};
use crate::transaction::{Transaction, TxView, views};

verus! {

#[derive(Debug, Clone)]
pub struct Block {
    pub index: usize,
    pub timestamp: u64,
    pub transactions: Vec<Transaction>,
    pub previous_hash: String,
    pub hash: String,
    pub nonce: u64,
    pub merkle_root: String,
}

pub struct BlockView {
    pub index: usize,
    pub timestamp: u64,
    pub transactions: Seq<TxView>,
    pub previous_hash: Seq<char>,
    pub hash: Seq<char>,
    pub nonce: u64,
    pub merkle_root: Seq<char>,
}

impl View for Block {
    type V = BlockView;

    open spec fn view(&self) -> BlockView {
        BlockView {
            index: self.index,
            timestamp: self.timestamp,
            transactions: views(self.transactions@),
            previous_hash: self.previous_hash@,
            hash: self.hash@,
            nonce: self.nonce,
            merkle_root: self.merkle_root@,
        }
    }
}

/// The hash of a block header whose nonce is `nonce`.
pub open spec fn header_hash(b: BlockView, nonce: u64) -> Seq<char> {
    digest_hex(
        dec(b.index as nat) + dec(b.timestamp as nat) + b.merkle_root + b.previous_hash + dec(
            nonce as nat,
        ),
    )
}

/// The hash that a block's own header determines.
pub open spec fn block_hash(b: BlockView) -> Seq<char> {
    header_hash(b, b.nonce)
}

/// `b` with its timestamp replaced by `timestamp`.
pub open spec fn restamped(b: BlockView, timestamp: u64) -> BlockView {
    BlockView { timestamp, ..b }
}

/// Two blocks agree on everything but their nonce and hash.
pub open spec fn same_header(a: BlockView, b: BlockView) -> bool {
    &&& a.index == b.index
    &&& a.timestamp == b.timestamp
    &&& a.transactions == b.transactions
    &&& a.previous_hash == b.previous_hash
    &&& a.merkle_root == b.merkle_root
}

/// `n` is the least nonce under which the header of `b` hashes to `difficulty` zeros.
pub open spec fn least_nonce(b: BlockView, n: u64, difficulty: nat) -> bool {
    &&& has_leading_zeros(header_hash(b, n), difficulty)
    &&& forall|m: u64| m < n ==> !has_leading_zeros(header_hash(b, m), difficulty)
}

/// `after` is `before` mined to `difficulty`: same header, its own hash, and
/// the least nonce that works when `found`; when not, no nonce works.
pub open spec fn mined(before: BlockView, after: BlockView, difficulty: nat, found: bool) -> bool {
    &&& same_header(before, after)
    &&& after.hash == block_hash(after)
    &&& found == has_leading_zeros(after.hash, difficulty)
    &&& found ==> least_nonce(before, after.nonce, difficulty)
    &&& !found ==> forall|m: u64| !has_leading_zeros(header_hash(before, m), difficulty)
}

/// A level of the Merkle tree of odd length gets its last entry repeated.
pub open spec fn pad_even(h: Seq<Seq<char>>) -> Seq<Seq<char>> {
    if h.len() % 2 == 1 {
        h.push(h.last())
    } else {
        h
    }
}

/// The level above: each adjacent pair of the padded level hashed together.
pub open spec fn next_level(h: Seq<Seq<char>>) -> Seq<Seq<char>> {
    let p = pad_even(h);
    Seq::new(p.len() / 2, |k: int| digest_hex(p[2 * k] + p[2 * k + 1]))
}

/// The apex of the Merkle tree over a level; `"0"` over no entry.
pub open spec fn merkle_reduce(h: Seq<Seq<char>>) -> Seq<char>
    decreases h.len(),
{
    if h.len() == 0 {
        seq!['0']
    } else if next_level(h).len() <= 1 {
        next_level(h)[0]
    } else {
        merkle_reduce(next_level(h))
    }
}

/// The ids of a list of transactions.
pub open spec fn tx_ids(txs: Seq<TxView>) -> Seq<Seq<char>> {
    txs.map_values(|t: TxView| t.id)
}

/// The Merkle root of a list of transactions.
pub open spec fn merkle_root_of(txs: Seq<TxView>) -> Seq<char> {
    merkle_reduce(tx_ids(txs))
}

/// The level above `level`, computed.
fn pair_hashes(level: &Vec<String>) -> (r: Vec<String>)
    requires
        level@.len() >= 1,
    ensures
        views(r@) == next_level(views(level@)),
        forall|m: int| 0 <= m < r@.len() ==> (#[trigger] r@[m])@.len() == 64,
{
    let ghost h = views(level@);
    let ghost p = pad_even(h);
    let len = level.len();
    let count = len / 2 + len % 2;
    assert(p.len() / 2 == count);
    let mut r: Vec<String> = Vec::new();
    let mut k: usize = 0;
    while k < count
        invariant
            len == level@.len() >= 1,
            h == views(level@),
            p == pad_even(h),
            count == p.len() / 2,
            k <= count,
            r@.len() == k,
            forall|m: int| 0 <= m < k ==> #[trigger] r@[m]@ == digest_hex(p[2 * m] + p[2 * m + 1]),
            forall|m: int| 0 <= m < k ==> (#[trigger] r@[m])@.len() == 64,
        decreases count - k,
    {
        let mut combined = level[2 * k].clone();
        if 2 * k + 1 < len {
            combined.append(level[2 * k + 1].as_str());
        } else {
            combined.append(level[len - 1].as_str());
        }
        assert(combined@ == p[2 * k] + p[2 * k + 1]);
        r.push(hash_text(combined.as_str()));
        k = k + 1;
    }
    assert(views(r@) =~= next_level(h));
    r
}

impl Block {
    /// A block over `transactions` with nonce zero, its Merkle root and hash computed.
    pub fn new(index: usize, timestamp: u64, transactions: Vec<Transaction>, previous_hash: String) -> (r: Block)
        ensures
            r.index == index,
            r.timestamp == timestamp,
            r@.transactions == views(transactions@),
            r@.previous_hash == previous_hash@,
            r.nonce == 0,
            r@.merkle_root == merkle_root_of(r@.transactions),
            r@.hash == block_hash(r@),
            r@.hash.len() == 64,
            r@.transactions.len() > 0 ==> r@.merkle_root.len() == 64,
    {
        let mut block = Block {
            index,
            timestamp,
            transactions,
            previous_hash,
            hash: String::new(),
            nonce: 0,
            merkle_root: String::new(),
        };
        block.merkle_root = block.calculate_merkle_root();
        block.hash = block.calculate_hash();
        block
    }

    /// The hash of the header under the block's own nonce.
    pub fn calculate_hash(&self) -> (r: String)
        ensures
            r@ == block_hash(self@),
            r@.len() == 64,
    {
        let mut material = String::new();
        push_decimal(&mut material, self.index as u64);
        push_decimal(&mut material, self.timestamp);
        material.append(self.merkle_root.as_str());
        material.append(self.previous_hash.as_str());
        push_decimal(&mut material, self.nonce);
        hash_text(material.as_str())
    }

    /// The Merkle root over the ids of the block's transactions.
    pub fn calculate_merkle_root(&self) -> (r: String)
        ensures
            r@ == merkle_root_of(self@.transactions),
            self@.transactions.len() > 0 ==> r@.len() == 64,
    {
        let ghost ids = tx_ids(self@.transactions);
        if self.transactions.len() == 0 {
            let r = String::from_str("0");
            proof {
                reveal_strlit("0");
            }
            assert(r@ =~= seq!['0']);
            return r;
        }
        let mut level: Vec<String> = Vec::new();
        let mut k: usize = 0;
        while k < self.transactions.len()
            invariant
                k <= self.transactions@.len(),
                ids == tx_ids(self@.transactions),
                level@.len() == k,
                forall|m: int| 0 <= m < k ==> #[trigger] level@[m]@ == ids[m],
            decreases self.transactions@.len() - k,
        {
            level.push(self.transactions[k].id.clone());
            k = k + 1;
        }
        assert(views(level@) =~= ids);
        loop
            invariant
                level@.len() >= 1,
                merkle_reduce(views(level@)) == merkle_root_of(self@.transactions),
            decreases level@.len(),
        {
            let next = pair_hashes(&level);
            if next.len() <= 1 {
                return next[0].clone();
            }
            level = next;
        }
    }

    /// Proof of work: sets the nonce to zero and searches upward until the
    /// block's hash begins with `difficulty` zeros. `false` when the nonces run
    /// out first.
    pub fn mine_block(&mut self, difficulty: usize) -> (r: bool)
        ensures
            mined(old(self)@, final(self)@, difficulty as nat, r),
            difficulty == 0 ==> r && final(self).nonce == 0,
    {
        let ghost start = self@;
        self.nonce = 0;
        self.hash = self.calculate_hash();
        assert(block_hash(self@) == header_hash(start, 0));
        let mut found = starts_with_zeros(self.hash.as_str(), difficulty);
        while !found && self.nonce < u64::MAX
            invariant
                same_header(start, self@),
                self@.hash == block_hash(self@),
                self@.hash == header_hash(start, self.nonce),
                found == has_leading_zeros(self@.hash, difficulty as nat),
                forall|m: u64| m < self.nonce ==> !has_leading_zeros(header_hash(start, m), difficulty as nat),
            decreases u64::MAX - self.nonce,
        {
            self.nonce = self.nonce + 1;
            self.hash = self.calculate_hash();
            assert(block_hash(self@) == header_hash(start, self.nonce));
            found = starts_with_zeros(self.hash.as_str(), difficulty);
        }
        proof {
            if !found {
                assert forall|m: u64| !has_leading_zeros(header_hash(start, m), difficulty as nat) by {
                    if m == self.nonce {
                    }
                }
            }
        }
        found
    }

    /// An exact copy.
    pub fn duplicate(&self) -> (r: Block)
        ensures
            r@ == self@,
    {
        let mut transactions: Vec<Transaction> = Vec::new();
        let mut k: usize = 0;
        while k < self.transactions.len()
            invariant
                k <= self.transactions@.len(),
                transactions@.len() == k,
                forall|m: int| 0 <= m < k ==> #[trigger] transactions@[m]@ == self.transactions@[m]@,
            decreases self.transactions@.len() - k,
        {
            transactions.push(self.transactions[k].duplicate());
            k = k + 1;
        }
        assert(views(transactions@) =~= views(self.transactions@));
        Block {
            index: self.index,
            timestamp: self.timestamp,
            transactions,
            previous_hash: self.previous_hash.clone(),
            hash: self.hash.clone(),
            nonce: self.nonce,
            merkle_root: self.merkle_root.clone(),
        }
    }
}

/// The Merkle root over no transaction is `"0"`; over one transaction it is
/// the digest of its id written twice.
pub proof fn lemma_merkle_small_cases(t: TxView)
    ensures
        merkle_root_of(seq![]) == seq!['0'],
        merkle_root_of(seq![t]) == digest_hex(t.id + t.id),
{
    assert(tx_ids(seq![]) =~= seq![]);
    let ids = tx_ids(seq![t]);
    assert(ids =~= seq![t.id]);
    assert(pad_even(ids) =~= seq![t.id, t.id]);
    assert(next_level(ids).len() == 1);
}

} // verus!
