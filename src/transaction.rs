use vstd::prelude::*;
use vstd::string::*;
use crate::crypto::{digest_hex, hash_text, random_u64, unix_time_now};
use crate::text::{dec, push_decimal};

verus! {

/// An unspent output: identified by its transaction and its position there.
#[derive(Debug, Clone, PartialEq, Eq)]
pub struct UTXO {
    pub transaction_id: String,
    pub output_index: usize,
    pub amount: u64,
    pub recipient_address: String,
}

/// A reference to the output that a transaction spends, with the sender's signature.
#[derive(Debug, Clone, PartialEq, Eq)]
pub struct TxInput {
    pub utxo_id: String,
    pub utxo_output_index: usize,
    pub signature: Vec<u8>,
    pub sender_address: String,
}

/// An amount paid to an address.
#[derive(Debug, Clone, PartialEq, Eq)]
pub struct TxOutput {
    pub amount: u64,
    pub recipient_address: String,
}

#[derive(Debug, Clone, PartialEq, Eq)]
pub struct Transaction {
    pub id: String,
    pub inputs: Vec<TxInput>,
    pub outputs: Vec<TxOutput>,
    pub timestamp: u64,
}

pub struct UtxoView {
    pub transaction_id: Seq<char>,
    pub output_index: usize,
    pub amount: u64,
    pub recipient_address: Seq<char>,
}

pub struct InputView {
    pub utxo_id: Seq<char>,
    pub utxo_output_index: usize,
    pub signature: Seq<u8>,
    pub sender_address: Seq<char>,
}

pub struct OutputView {
    pub amount: u64,
    pub recipient_address: Seq<char>,
}

pub struct TxView {
    pub id: Seq<char>,
    pub inputs: Seq<InputView>,
    pub outputs: Seq<OutputView>,
    pub timestamp: u64,
}

/// The views of a sequence of values.
pub open spec fn views<T: View>(s: Seq<T>) -> Seq<T::V> {
    s.map_values(|x: T| x@)
}

impl View for UTXO {
    type V = UtxoView;

    open spec fn view(&self) -> UtxoView {
        UtxoView {
            transaction_id: self.transaction_id@,
            output_index: self.output_index,
            amount: self.amount,
            recipient_address: self.recipient_address@,
        }
    }
}

impl View for TxInput {
    type V = InputView;

    open spec fn view(&self) -> InputView {
        InputView {
            utxo_id: self.utxo_id@,
            utxo_output_index: self.utxo_output_index,
            signature: self.signature@,
            sender_address: self.sender_address@,
        }
    }
}

impl View for TxOutput {
    type V = OutputView;

    open spec fn view(&self) -> OutputView {
        OutputView { amount: self.amount, recipient_address: self.recipient_address@ }
    }
}

impl View for Transaction {
    type V = TxView;

    open spec fn view(&self) -> TxView {
        TxView {
            id: self.id@,
            inputs: views(self.inputs@),
            outputs: views(self.outputs@),
            timestamp: self.timestamp,
        }
    }
}

/// The identifier of an output: its transaction id followed by its decimal index.
pub open spec fn utxo_key(transaction_id: Seq<char>, output_index: usize) -> Seq<char> {
    transaction_id + dec(output_index as nat)
}

pub open spec fn key_of(u: UtxoView) -> Seq<char> {
    utxo_key(u.transaction_id, u.output_index)
}

/// What a transaction hashes for one input.
pub open spec fn input_material(i: InputView) -> Seq<char> {
    i.utxo_id + dec(i.utxo_output_index as nat) + i.sender_address
}

/// What a transaction hashes for one output.
pub open spec fn output_material(o: OutputView) -> Seq<char> {
    dec(o.amount as nat) + o.recipient_address
}

pub open spec fn inputs_material(s: Seq<InputView>) -> Seq<char>
    decreases s.len(),
{
    if s.len() == 0 {
        seq![]
    } else {
        inputs_material(s.drop_last()) + input_material(s.last())
    }
}

pub open spec fn outputs_material(s: Seq<OutputView>) -> Seq<char>
    decreases s.len(),
{
    if s.len() == 0 {
        seq![]
    } else {
        outputs_material(s.drop_last()) + output_material(s.last())
    }
}

/// The id of a transaction: the hexadecimal SHA-256 of its inputs, outputs and timestamp.
pub open spec fn tx_hash(inputs: Seq<InputView>, outputs: Seq<OutputView>, timestamp: u64) -> Seq<
    char,
> {
    digest_hex(inputs_material(inputs) + outputs_material(outputs) + dec(timestamp as nat))
}

/// The id that a transaction's own fields determine.
pub open spec fn recomputed_id(t: TxView) -> Seq<char> {
    tx_hash(t.inputs, t.outputs, t.timestamp)
}

/// A coinbase transaction has no inputs.
pub open spec fn is_coinbase(t: TxView) -> bool {
    t.inputs.len() == 0
}

pub open spec fn sum_outputs(s: Seq<OutputView>) -> nat
    decreases s.len(),
{
    if s.len() == 0 {
        0
    } else {
        sum_outputs(s.drop_last()) + s.last().amount as nat
    }
}

/// `u` is the output that input `i` refers to.
pub open spec fn spends(u: UtxoView, i: InputView) -> bool {
    key_of(u) == i.utxo_id && u.output_index == i.utxo_output_index
}

/// The first output of `set` that input `i` refers to.
pub open spec fn first_spent(set: Seq<UtxoView>, i: InputView) -> Option<UtxoView>
    decreases set.len(),
{
    if set.len() == 0 {
        None
    } else if spends(set[0], i) {
        Some(set[0])
    } else {
        first_spent(set.subrange(1, set.len() as int), i)
    }
}

pub open spec fn input_value(set: Seq<UtxoView>, i: InputView) -> nat {
    match first_spent(set, i) {
        Some(u) => u.amount as nat,
        None => 0,
    }
}

/// The sum of the amounts that the inputs draw from `set`.
pub open spec fn total_input(inputs: Seq<InputView>, set: Seq<UtxoView>) -> nat
    decreases inputs.len(),
{
    if inputs.len() == 0 {
        0
    } else {
        (total_input(inputs.drop_last(), set) + input_value(set, inputs.last())) as nat
    }
}

/// A coinbase with an output is valid; any other transaction pays out no more
/// than it draws.
pub open spec fn tx_valid(t: TxView, set: Seq<UtxoView>) -> bool {
    (t.inputs.len() == 0 && t.outputs.len() > 0) || sum_outputs(t.outputs) <= total_input(
        t.inputs,
        set,
    )
}

/// The outputs of a transaction as unspent outputs.
pub open spec fn created_utxos(t: TxView) -> Seq<UtxoView> {
    Seq::new(
        t.outputs.len(),
        |k: int|
            UtxoView {
                transaction_id: t.id,
                output_index: k as usize,
                amount: t.outputs[k].amount,
                recipient_address: t.outputs[k].recipient_address,
            },
    )
}

/// The identifier of the output `output_index` of transaction `tx_id`.
pub fn get_utxo_id(tx_id: &str, output_index: usize) -> (r: String)
    ensures
        r@ == utxo_key(tx_id@, output_index),
{
    let mut s = String::from_str(tx_id);
    push_decimal(&mut s, output_index as u64);
    s
}

proof fn lemma_first_spent_step(set: Seq<UtxoView>, i: InputView, j: int)
    requires
        0 <= j < set.len(),
        !spends(set[j], i),
    ensures
        first_spent(set.subrange(j, set.len() as int), i) == first_spent(
            set.subrange(j + 1, set.len() as int),
            i,
        ),
{
    assert(set.subrange(j, set.len() as int).subrange(1, set.len() - j) =~= set.subrange(
        j + 1,
        set.len() as int,
    ));
}

impl UTXO {
    /// An exact copy.
    pub fn duplicate(&self) -> (r: UTXO)
        ensures
            r@ == self@,
    {
        UTXO {
            transaction_id: self.transaction_id.clone(),
            output_index: self.output_index,
            amount: self.amount,
            recipient_address: self.recipient_address.clone(),
        }
    }
}

impl TxInput {
    /// An exact copy.
    pub fn duplicate(&self) -> (r: TxInput)
        ensures
            r@ == self@,
    {
        let mut signature: Vec<u8> = Vec::new();
        let mut k: usize = 0;
        while k < self.signature.len()
            invariant
                k <= self.signature@.len(),
                signature@ == self.signature@.take(k as int),
            decreases self.signature@.len() - k,
        {
            signature.push(self.signature[k]);
            k = k + 1;
            assert(signature@ =~= self.signature@.take(k as int));
        }
        assert(signature@ =~= self.signature@);
        TxInput {
            utxo_id: self.utxo_id.clone(),
            utxo_output_index: self.utxo_output_index,
            signature,
            sender_address: self.sender_address.clone(),
        }
    }
}

impl TxOutput {
    /// An exact copy.
    pub fn duplicate(&self) -> (r: TxOutput)
        ensures
            r@ == self@,
    {
        TxOutput { amount: self.amount, recipient_address: self.recipient_address.clone() }
    }
}

/// An exact copy of a list of inputs.
pub fn duplicate_inputs(s: &Vec<TxInput>) -> (r: Vec<TxInput>)
    ensures
        views(r@) == views(s@),
{
    let mut r: Vec<TxInput> = Vec::new();
    let mut k: usize = 0;
    while k < s.len()
        invariant
            k <= s@.len(),
            r@.len() == k,
            forall|m: int| 0 <= m < k ==> r@[m]@ == s@[m]@,
        decreases s@.len() - k,
    {
        r.push(s[k].duplicate());
        k = k + 1;
    }
    assert(views(r@) =~= views(s@));
    r
}

/// An exact copy of a list of outputs.
pub fn duplicate_outputs(s: &Vec<TxOutput>) -> (r: Vec<TxOutput>)
    ensures
        views(r@) == views(s@),
{
    let mut r: Vec<TxOutput> = Vec::new();
    let mut k: usize = 0;
    while k < s.len()
        invariant
            k <= s@.len(),
            r@.len() == k,
            forall|m: int| 0 <= m < k ==> r@[m]@ == s@[m]@,
        decreases s@.len() - k,
    {
        r.push(s[k].duplicate());
        k = k + 1;
    }
    assert(views(r@) =~= views(s@));
    r
}

impl Transaction {
    /// A transaction stamped with the current time, its id computed from its content.
    pub fn new(inputs: Vec<TxInput>, outputs: Vec<TxOutput>) -> (r: Transaction)
        ensures
            r@.inputs == views(inputs@),
            r@.outputs == views(outputs@),
            r@.id == recomputed_id(r@),
            r@.id.len() == 64,
    {
        let timestamp = unix_time_now();
        Transaction::new_at(inputs, outputs, timestamp)
    }

    /// A transaction with the given timestamp, its id computed from its content.
    pub fn new_at(inputs: Vec<TxInput>, outputs: Vec<TxOutput>, timestamp: u64) -> (r: Transaction)
        ensures
            r@.inputs == views(inputs@),
            r@.outputs == views(outputs@),
            r.timestamp == timestamp,
            r@.id == recomputed_id(r@),
            r@.id.len() == 64,
    {
        let mut tx = Transaction { id: String::new(), inputs, outputs, timestamp };
        tx.id = tx.calculate_hash();
        tx
    }

    /// A coinbase paying `amount` to `recipient_address`, stamped now, with a
    /// random nonce after its digest.
    pub fn new_coinbase(recipient_address: String, amount: u64) -> (r: Transaction)
        ensures
            r@.inputs.len() == 0,
            r@.outputs == seq![OutputView { amount, recipient_address: recipient_address@ }],
            exists|nonce: u64| r@.id == recomputed_id(r@) + dec(nonce as nat),
    {
        let timestamp = unix_time_now();
        let nonce = random_u64();
        Transaction::coinbase_at(recipient_address, amount, timestamp, nonce)
    }

    /// A coinbase with the given timestamp, whose id is its digest followed by
    /// the decimal `nonce`.
    pub fn coinbase_at(recipient_address: String, amount: u64, timestamp: u64, nonce: u64) -> (r:
        Transaction)
        ensures
            r@.inputs.len() == 0,
            r@.outputs == seq![OutputView { amount, recipient_address: recipient_address@ }],
            r.timestamp == timestamp,
            r@.id == recomputed_id(r@) + dec(nonce as nat),
    {
        let ghost recipient = recipient_address@;
        let mut outputs: Vec<TxOutput> = Vec::new();
        outputs.push(TxOutput { amount, recipient_address });
        let mut tx = Transaction { id: String::new(), inputs: Vec::new(), outputs, timestamp };
        let mut id = tx.calculate_hash();
        push_decimal(&mut id, nonce);
        tx.id = id;
        assert(tx@.outputs =~= seq![OutputView { amount, recipient_address: recipient }]);
        tx
    }

    /// The digest of the inputs, outputs and timestamp.
    pub fn calculate_hash(&self) -> (r: String)
        ensures
            r@ == recomputed_id(self@),
            r@.len() == 64,
    {
        let mut material = String::new();
        let mut k: usize = 0;
        while k < self.inputs.len()
            invariant
                k <= self.inputs@.len(),
                material@ == inputs_material(views(self.inputs@).take(k as int)),
            decreases self.inputs@.len() - k,
        {
            let input = &self.inputs[k];
            material.append(input.utxo_id.as_str());
            push_decimal(&mut material, input.utxo_output_index as u64);
            material.append(input.sender_address.as_str());
            assert(views(self.inputs@).take(k + 1).drop_last() =~= views(self.inputs@).take(
                k as int,
            ));
            k = k + 1;
            assert(material@ =~= inputs_material(views(self.inputs@).take(k as int)));
        }
        assert(views(self.inputs@).take(k as int) =~= views(self.inputs@));
        let ghost after_inputs = material@;
        let mut k: usize = 0;
        while k < self.outputs.len()
            invariant
                k <= self.outputs@.len(),
                material@ == after_inputs + outputs_material(views(self.outputs@).take(k as int)),
            decreases self.outputs@.len() - k,
        {
            let output = &self.outputs[k];
            push_decimal(&mut material, output.amount);
            material.append(output.recipient_address.as_str());
            assert(views(self.outputs@).take(k + 1).drop_last() =~= views(self.outputs@).take(
                k as int,
            ));
            k = k + 1;
            assert(material@ =~= after_inputs + outputs_material(
                views(self.outputs@).take(k as int),
            ));
        }
        assert(views(self.outputs@).take(k as int) =~= views(self.outputs@));
        push_decimal(&mut material, self.timestamp);
        hash_text(material.as_str())
    }

    /// An exact copy.
    pub fn duplicate(&self) -> (r: Transaction)
        ensures
            r@ == self@,
    {
        Transaction {
            id: self.id.clone(),
            inputs: duplicate_inputs(&self.inputs),
            outputs: duplicate_outputs(&self.outputs),
            timestamp: self.timestamp,
        }
    }

    /// The amount of the first output in `utxo_set` that `input` refers to, if any.
    fn spent_amount(input: &TxInput, utxo_set: &[UTXO]) -> (r: Option<u64>)
        ensures
            r == (match first_spent(views(utxo_set@), input@) {
                Some(u) => Some(u.amount),
                None => None,
            }),
    {
        let ghost set = views(utxo_set@);
        let mut j: usize = 0;
        assert(set.subrange(0, set.len() as int) =~= set);
        while j < utxo_set.len()
            invariant
                j <= set.len() == utxo_set@.len(),
                set == views(utxo_set@),
                first_spent(set, input@) == first_spent(set.subrange(j as int, set.len() as int), input@),
            decreases set.len() - j,
        {
            let utxo = &utxo_set[j];
            let key = get_utxo_id(utxo.transaction_id.as_str(), utxo.output_index);
            if key == input.utxo_id && utxo.output_index == input.utxo_output_index {
                return Some(utxo.amount);
            }
            proof {
                lemma_first_spent_step(set, input@, j as int);
            }
            j = j + 1;
        }
        None
    }

    /// The sum of the amounts the inputs draw from `utxo_set`, without overflow.
    fn total_input_wide(&self, utxo_set: &[UTXO]) -> (r: u128)
        ensures
            r == total_input(self@.inputs, views(utxo_set@)),
    {
        let ghost set = views(utxo_set@);
        let mut total: u128 = 0;
        let mut k: usize = 0;
        while k < self.inputs.len()
            invariant
                k <= self.inputs@.len(),
                set == views(utxo_set@),
                total == total_input(self@.inputs.take(k as int), set),
                total <= k * 0xffff_ffff_ffff_ffffu128,
            decreases self.inputs@.len() - k,
        {
            let amount = Transaction::spent_amount(&self.inputs[k], utxo_set);
            let add: u64 = match amount {
                Some(a) => a,
                None => 0,
            };
            assert(self@.inputs.take(k + 1).drop_last() =~= self@.inputs.take(k as int));
            assert(k * 0xffff_ffff_ffff_ffffu128 + 0xffff_ffff_ffff_ffffu128 <= 0xffff_ffff_ffff_ffff_ffff_ffff_ffff_ffffu128) by (nonlinear_arith)
                requires k < 0x1_0000_0000_0000_0000u128;
            total = total + add as u128;
            k = k + 1;
            assert((k - 1) * 0xffff_ffff_ffff_ffffu128 + 0xffff_ffff_ffff_ffffu128 == k * 0xffff_ffff_ffff_ffffu128) by (nonlinear_arith);
        }
        assert(self@.inputs.take(k as int) =~= self@.inputs);
        total
    }

    /// The sum of the output amounts, without overflow.
    fn total_output_wide(&self) -> (r: u128)
        ensures
            r == sum_outputs(self@.outputs),
    {
        let mut total: u128 = 0;
        let mut k: usize = 0;
        while k < self.outputs.len()
            invariant
                k <= self.outputs@.len(),
                total == sum_outputs(self@.outputs.take(k as int)),
                total <= k * 0xffff_ffff_ffff_ffffu128,
            decreases self.outputs@.len() - k,
        {
            assert(self@.outputs.take(k + 1).drop_last() =~= self@.outputs.take(k as int));
            assert(k * 0xffff_ffff_ffff_ffffu128 + 0xffff_ffff_ffff_ffffu128 <= 0xffff_ffff_ffff_ffff_ffff_ffff_ffff_ffffu128) by (nonlinear_arith)
                requires k < 0x1_0000_0000_0000_0000u128;
            total = total + self.outputs[k].amount as u128;
            k = k + 1;
            assert((k - 1) * 0xffff_ffff_ffff_ffffu128 + 0xffff_ffff_ffff_ffffu128 == k * 0xffff_ffff_ffff_ffffu128) by (nonlinear_arith);
        }
        assert(self@.outputs.take(k as int) =~= self@.outputs);
        total
    }

    /// The sum of the amounts of the outputs in `utxo_set` that the inputs refer to.
    pub fn get_total_input_amount(&self, utxo_set: &[UTXO]) -> (r: u64)
        requires
            total_input(self@.inputs, views(utxo_set@)) <= u64::MAX,
        ensures
            r == total_input(self@.inputs, views(utxo_set@)),
    {
        self.total_input_wide(utxo_set) as u64
    }

    /// The sum of the output amounts.
    pub fn get_total_output_amount(&self) -> (r: u64)
        requires
            sum_outputs(self@.outputs) <= u64::MAX,
        ensures
            r == sum_outputs(self@.outputs),
    {
        self.total_output_wide() as u64
    }

    /// A coinbase with an output is valid; any other transaction is valid when
    /// it pays out no more than its inputs draw from `utxo_set`.
    pub fn is_valid(&self, utxo_set: &[UTXO]) -> (r: bool)
        ensures
            r == tx_valid(self@, views(utxo_set@)),
    {
        if self.inputs.len() == 0 && self.outputs.len() > 0 {
            return true;
        }
        self.total_output_wide() <= self.total_input_wide(utxo_set)
    }
}

/// A copy of a transaction carries the id that its content determines, as its
/// source did.
pub proof fn lemma_copy_keeps_id(source: Transaction, copy: Transaction)
    requires
        source@.id == recomputed_id(source@),
        copy@ == source@,
    ensures
        copy@.id == recomputed_id(copy@),
{
}

} // verus!
