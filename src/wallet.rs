use vstd::prelude::*;
use vstd::string::*;
use vstd::utf8::encode_utf8;
use crate::crypto::{
    base58_encode, base58_of, ecdsa_der_of, ecdsa_sign, ecdsa_verifies, ecdsa_verify,
    generate_secret_key, is_secret_key, public_key_bytes, public_key_of, sha256, sha256_of,
};
use crate::ledger::{
    find_key, lemma_key_position_found, lemma_sum_push, lemma_sum_remove,
    lemma_sum_take, lemma_sum_take_step, remove_key, sum_amounts,
};
use crate::text::{dec, push_decimal};
use crate::transaction::{
    get_utxo_id, key_of, utxo_key, InputView, OutputView, Transaction, TxInput, TxOutput, TxView,
    UTXO, UtxoView, recomputed_id, views,
};

verus! {

/// A key pair, the address derived from it, and the outputs it owns.
#[derive(Clone, Debug)]
pub struct Wallet {
    private_key: Vec<u8>,
    public_key: Vec<u8>,
    address: String,
    balance: u64,
    utxos: Vec<UTXO>,
}

pub struct WalletView {
    pub secret: Seq<u8>,
    pub public_key: Seq<u8>,
    pub address: Seq<char>,
    pub balance: u64,
    pub utxos: Seq<UtxoView>,
}

impl View for Wallet {
    type V = WalletView;

    closed spec fn view(&self) -> WalletView {
        WalletView {
            secret: self.private_key@,
            public_key: self.public_key@,
            address: self.address@,
            balance: self.balance,
            utxos: views(self.utxos@),
        }
    }
}

/// Version byte zero, then the first 20 bytes of the SHA-256 of the key.
pub open spec fn address_payload(key: Seq<u8>) -> Seq<u8> {
    seq![0u8] + sha256_of(key).take(20)
}

/// Base58Check of a serialized public key, with a single-hash payload.
pub open spec fn address_of(key: Seq<u8>) -> Seq<char> {
    let payload = address_payload(key);
    base58_of(payload + sha256_of(sha256_of(payload)).take(4))
}

/// `s` with `u` added, where `u` pays `address` and the total stays representable.
pub open spec fn credit(s: Seq<UtxoView>, address: Seq<char>, u: UtxoView) -> Seq<UtxoView> {
    if u.recipient_address == address && sum_amounts(s) + u.amount <= u64::MAX {
        s.push(u)
    } else {
        s
    }
}

/// Some output in `s` comes from output `index` of transaction `tx_id`.
pub open spec fn owns_output(s: Seq<UtxoView>, tx_id: Seq<char>, index: usize) -> bool {
    exists|j: int| 0 <= j < s.len() && s[j].transaction_id == tx_id && s[j].output_index == index
}

/// The value of a decimal digit character; zero for any other character.
pub open spec fn digit_of(c: char) -> usize {
    if c == '1' {
        1
    } else if c == '2' {
        2
    } else if c == '3' {
        3
    } else if c == '4' {
        4
    } else if c == '5' {
        5
    } else if c == '6' {
        6
    } else if c == '7' {
        7
    } else if c == '8' {
        8
    } else if c == '9' {
        9
    } else {
        0
    }
}

/// The wallet's outputs after it sees an input: an input this wallet sent
/// names an owned output by its id (all but the last character) and index (the
/// last character); that output leaves.
pub open spec fn spend_step(s: Seq<UtxoView>, address: Seq<char>, i: InputView) -> Seq<UtxoView> {
    if i.sender_address == address && i.utxo_id.len() > 0 {
        let tx_id = i.utxo_id.drop_last();
        let index = digit_of(i.utxo_id.last());
        if owns_output(s, tx_id, index) {
            remove_key(s, utxo_key(tx_id, index))
        } else {
            s
        }
    } else {
        s
    }
}

pub open spec fn spend_steps(s: Seq<UtxoView>, address: Seq<char>, inputs: Seq<InputView>) -> Seq<
    UtxoView,
>
    decreases inputs.len(),
{
    if inputs.len() == 0 {
        s
    } else {
        spend_step(spend_steps(s, address, inputs.drop_last()), address, inputs.last())
    }
}

/// The wallet's outputs after it sees output `index` of transaction `tx_id`:
/// one paid to it and not yet owned joins.
pub open spec fn receive_step(
    s: Seq<UtxoView>,
    address: Seq<char>,
    tx_id: Seq<char>,
    index: usize,
    o: OutputView,
) -> Seq<UtxoView> {
    if o.recipient_address == address && !owns_output(s, tx_id, index) {
        credit(
            s,
            address,
            UtxoView {
                transaction_id: tx_id,
                output_index: index,
                amount: o.amount,
                recipient_address: address,
            },
        )
    } else {
        s
    }
}

pub open spec fn receive_steps(s: Seq<UtxoView>, address: Seq<char>, t: TxView, n: nat) -> Seq<
    UtxoView,
>
    decreases n,
{
    if n == 0 {
        s
    } else {
        receive_step(
            receive_steps(s, address, t, (n - 1) as nat),
            address,
            t.id,
            (n - 1) as usize,
            t.outputs[n - 1],
        )
    }
}

pub open spec fn wallet_tx(s: Seq<UtxoView>, address: Seq<char>, t: TxView) -> Seq<UtxoView> {
    receive_steps(spend_steps(s, address, t.inputs), address, t, t.outputs.len())
}

/// The wallet's outputs after it sees a list of transactions in order.
pub open spec fn wallet_txs(s: Seq<UtxoView>, address: Seq<char>, txs: Seq<TxView>) -> Seq<
    UtxoView,
>
    decreases txs.len(),
{
    if txs.len() == 0 {
        s
    } else {
        wallet_tx(wallet_txs(s, address, txs.drop_last()), address, txs.last())
    }
}

/// The number of owned outputs, in order, that a payment of `amount` draws:
/// the shortest non-empty prefix that covers it.
pub open spec fn first_cover(s: Seq<UtxoView>, amount: nat, k: nat) -> nat
    decreases s.len() - k,
{
    if k >= s.len() {
        s.len()
    } else if sum_amounts(s.take(k + 1 as int)) >= amount {
        k + 1
    } else {
        first_cover(s, amount, k + 1)
    }
}

pub open spec fn selection_len(s: Seq<UtxoView>, amount: nat) -> nat {
    first_cover(s, amount, 0)
}

/// An input that spends `u` on behalf of `address`.
pub open spec fn spends_owned(i: InputView, u: UtxoView, address: Seq<char>) -> bool {
    i.utxo_id == key_of(u) && i.utxo_output_index == u.output_index && i.sender_address == address
}

/// The payment to the recipient, then the change, if any, back to `address`.
pub open spec fn payment_outputs(
    recipient: Seq<char>,
    amount: u64,
    change: int,
    address: Seq<char>,
) -> Seq<OutputView> {
    if change > 0 {
        seq![
            OutputView { amount, recipient_address: recipient },
            OutputView { amount: change as u64, recipient_address: address },
        ]
    } else {
        seq![OutputView { amount, recipient_address: recipient }]
    }
}

/// What an input that spends `u` in a payment of `amount` signs: the output's
/// identifier, its index and the amount, in decimal.
pub open spec fn spend_message(u: UtxoView, amount: u64) -> Seq<char> {
    key_of(u) + dec(u.output_index as nat) + dec(amount as nat)
}

/// The signature of the wallet with secret `secret` over a spend message.
pub open spec fn spend_signature(secret: Seq<u8>, u: UtxoView, amount: u64) -> Seq<u8> {
    ecdsa_der_of(secret, sha256_of(encode_utf8(spend_message(u, amount))))
}

/// What `create_transaction` builds from the wallet `w`.
pub open spec fn is_payment(t: TxView, w: WalletView, recipient: Seq<char>, amount: u64) -> bool {
    let k = selection_len(w.utxos, amount as nat);
    &&& t.inputs.len() == k
    &&& forall|m: int| 0 <= m < k ==> spends_owned(#[trigger] t.inputs[m], w.utxos[m], w.address)
    &&& forall|m: int|
        0 <= m < k ==> (#[trigger] t.inputs[m]).signature == spend_signature(
            w.secret,
            w.utxos[m],
            amount,
        )
    &&& t.outputs == payment_outputs(
        recipient,
        amount,
        sum_amounts(w.utxos.take(k as int)) - amount,
        w.address,
    )
    &&& t.id == recomputed_id(t)
}

fn parse_digit(c: char) -> (r: usize)
    ensures
        r == digit_of(c),
{
    if c == '1' {
        1
    } else if c == '2' {
        2
    } else if c == '3' {
        3
    } else if c == '4' {
        4
    } else if c == '5' {
        5
    } else if c == '6' {
        6
    } else if c == '7' {
        7
    } else if c == '8' {
        8
    } else if c == '9' {
        9
    } else {
        0
    }
}

/// The address of a serialized public key.
pub fn address_from_key_bytes(key: &[u8]) -> (r: String)
    ensures
        r@ == address_of(key@),
{
    let h1 = sha256(key);
    let mut bytes: Vec<u8> = Vec::new();
    bytes.push(0u8);
    let mut k: usize = 0;
    while k < 20
        invariant
            k <= 20,
            h1@.len() == 32,
            bytes@ == seq![0u8] + h1@.take(k as int),
        decreases 20 - k,
    {
        bytes.push(h1[k]);
        k = k + 1;
        assert(bytes@ =~= seq![0u8] + h1@.take(k as int));
    }
    let ghost payload = bytes@;
    assert(payload == address_payload(key@));
    let c1 = sha256(bytes.as_slice());
    let c2 = sha256(c1.as_slice());
    let mut k: usize = 0;
    while k < 4
        invariant
            k <= 4,
            c2@.len() == 32,
            bytes@ == payload + c2@.take(k as int),
        decreases 4 - k,
    {
        bytes.push(c2[k]);
        k = k + 1;
        assert(bytes@ =~= payload + c2@.take(k as int));
    }
    base58_encode(bytes.as_slice())
}

impl Wallet {
    /// The invariant: a valid secret key, its public key and the address
    /// derived from it; the balance is the sum of the owned outputs, all paid
    /// to this wallet's address.
    pub open spec fn wf(&self) -> bool {
        &&& is_secret_key(self@.secret)
        &&& self@.public_key == public_key_of(self@.secret)
        &&& self@.address == address_of(self@.public_key)
        &&& self@.balance == sum_amounts(self@.utxos)
        &&& forall|j: int|
            0 <= j < self@.utxos.len() ==> (#[trigger] self@.utxos[j]).recipient_address
                == self@.address
    }

    /// A wallet with a fresh random key pair and no outputs.
    pub fn new() -> (r: Wallet)
        ensures
            r.wf(),
            r@.balance == 0,
            r@.utxos == Seq::<UtxoView>::empty(),
    {
        let private_key = generate_secret_key();
        let public_key = public_key_bytes(private_key.as_slice());
        let address = address_from_key_bytes(public_key.as_slice());
        let r = Wallet { private_key, public_key, address, balance: 0, utxos: Vec::new() };
        assert(r@.utxos =~= Seq::<UtxoView>::empty());
        r
    }

    /// Forgets every owned output; the keys and the address stay.
    pub fn clear_utxos(&mut self)
        requires
            old(self).wf(),
        ensures
            final(self).wf(),
            final(self)@.utxos == Seq::<UtxoView>::empty(),
            final(self)@.balance == 0,
            final(self)@.secret == old(self)@.secret,
            final(self)@.public_key == old(self)@.public_key,
            final(self)@.address == old(self)@.address,
    {
        self.utxos = Vec::new();
        self.balance = 0;
        assert(self@.utxos =~= Seq::<UtxoView>::empty());
    }

    pub fn get_address(&self) -> (r: &str)
        ensures
            r@ == self@.address,
    {
        self.address.as_str()
    }

    /// Whether `address` is this wallet's address.
    pub fn has_address(&self, address: &String) -> (r: bool)
        ensures
            r == (self@.address == address@),
    {
        self.address == *address
    }

    /// The 33-byte compressed public key.
    pub fn get_public_key(&self) -> (r: &[u8])
        ensures
            r@ == self@.public_key,
    {
        self.public_key.as_slice()
    }

    pub fn get_balance(&self) -> (r: u64)
        ensures
            r == self@.balance,
    {
        self.balance
    }

    /// The outputs this wallet owns, in the order it received them.
    pub fn owned_utxos(&self) -> (r: &[UTXO])
        ensures
            views(r@) == self@.utxos,
    {
        self.utxos.as_slice()
    }

    /// The DER-encoded ECDSA signature of the SHA-256 of `data`.
    pub fn sign(&self, data: &[u8]) -> (r: Vec<u8>)
        requires
            self.wf(),
        ensures
            r@ == ecdsa_der_of(self@.secret, sha256_of(data@)),
            ecdsa_verifies(self@.public_key, sha256_of(data@), r@),
    {
        let digest = sha256(data);
        ecdsa_sign(self.private_key.as_slice(), digest.as_slice())
    }

    /// Whether `signature` is a well-formed DER signature of the SHA-256 of
    /// `data` under this wallet's public key.
    pub fn verify(&self, data: &[u8], signature: &[u8]) -> (r: bool)
        ensures
            r == ecdsa_verifies(self@.public_key, sha256_of(data@), signature@),
    {
        let digest = sha256(data);
        ecdsa_verify(self.public_key.as_slice(), digest.as_slice(), signature)
    }

    /// Takes `utxo` on when it pays this wallet (and the balance stays representable).
    pub fn add_utxo(&mut self, utxo: UTXO)
        requires
            old(self).wf(),
        ensures
            final(self).wf(),
            final(self)@.address == old(self)@.address,
            final(self)@.secret == old(self)@.secret,
            final(self)@.utxos == credit(old(self)@.utxos, old(self)@.address, utxo@),
    {
        if utxo.recipient_address == self.address && utxo.amount <= u64::MAX - self.balance {
            proof {
                lemma_sum_push(self@.utxos, utxo@);
            }
            let ghost prior = self.utxos@;
            self.balance = self.balance + utxo.amount;
            self.utxos.push(utxo);
            assert(views(self.utxos@) =~= views(prior).push(utxo@));
        }
    }

    /// Drops the first owned output identified as output `output_index` of `tx_id`.
    pub fn remove_utxo(&mut self, tx_id: &str, output_index: usize)
        requires
            old(self).wf(),
        ensures
            final(self).wf(),
            final(self)@.address == old(self)@.address,
            final(self)@.secret == old(self)@.secret,
            final(self)@.utxos == remove_key(old(self)@.utxos, utxo_key(tx_id@, output_index)),
    {
        let key = get_utxo_id(tx_id, output_index);
        match find_key(&self.utxos, &key) {
            Some(p) => {
                let ghost prior = self@.utxos;
                proof {
                    lemma_key_position_found(prior, key@);
                    lemma_sum_remove(prior, p as int);
                }
                let removed = self.utxos.remove(p);
                assert(views(self.utxos@) =~= prior.remove(p as int));
                self.balance = self.balance - removed.amount;
                assert forall|j: int| 0 <= j < self@.utxos.len() implies (
                #[trigger] self@.utxos[j]).recipient_address == self@.address by {
                    if j < p {
                        assert(self@.utxos[j] == prior[j]);
                    } else {
                        assert(self@.utxos[j] == prior[j + 1]);
                    }
                }
            },
            None => {},
        }
    }

    /// A payment of `amount` to `recipient`, drawing owned outputs in order
    /// until they cover it and paying any excess back as change. `None` when
    /// the balance is short.
    pub fn create_transaction(&self, recipient_address: &str, amount: u64) -> (r: Option<
        Transaction,
    >)
        requires
            self.wf(),
        ensures
            r.is_none() <==> amount > self@.balance,
            r matches Some(t) ==> is_payment(t@, self@, recipient_address@, amount),
            amount == self@.balance ==> (r matches Some(t) && t@.outputs.len() == 1),
    {
        if amount > self.balance {
            return None;
        }
        let ghost s = self@.utxos;
        let ghost target = selection_len(s, amount as nat);
        let mut count: usize = 0;
        let mut selected: u64 = 0;
        let mut done = false;
        while !done && count < self.utxos.len()
            invariant
                self.wf(),
                s == self@.utxos,
                target == selection_len(s, amount as nat),
                amount <= self@.balance,
                count <= s.len(),
                selected == sum_amounts(s.take(count as int)),
                done ==> target == count && selected >= amount,
                !done ==> target == first_cover(s, amount as nat, count as nat),
            decreases s.len() - count,
        {
            proof {
                lemma_sum_take_step(s, count as int);
                lemma_sum_take(s, count + 1);
            }
            selected = selected + self.utxos[count].amount;
            count = count + 1;
            if selected >= amount {
                done = true;
            }
        }
        proof {
            if !done {
                assert(s.take(count as int) =~= s);
            }
            lemma_sum_take(s, count as int);
        }
        let mut inputs: Vec<TxInput> = Vec::new();
        let mut j: usize = 0;
        while j < count
            invariant
                self.wf(),
                s == self@.utxos,
                count <= s.len(),
                j <= count,
                inputs@.len() == j,
                forall|m: int|
                    0 <= m < j ==> spends_owned(#[trigger] inputs@[m]@, s[m], self@.address),
                forall|m: int|
                    0 <= m < j ==> (#[trigger] inputs@[m]@).signature == spend_signature(
                        self@.secret,
                        s[m],
                        amount,
                    ),
            decreases count - j,
        {
            let utxo = &self.utxos[j];
            let utxo_id = get_utxo_id(utxo.transaction_id.as_str(), utxo.output_index);
            let mut data = utxo_id.clone();
            push_decimal(&mut data, utxo.output_index as u64);
            push_decimal(&mut data, amount);
            assert(data@ == spend_message(s[j as int], amount));
            let signature = self.sign(data.as_str().as_bytes());
            inputs.push(
                TxInput {
                    utxo_id,
                    utxo_output_index: utxo.output_index,
                    signature,
                    sender_address: self.address.clone(),
                },
            );
            j = j + 1;
        }
        let mut outputs: Vec<TxOutput> = Vec::new();
        outputs.push(TxOutput { amount, recipient_address: String::from_str(recipient_address) });
        let change = selected - amount;
        if change > 0 {
            outputs.push(TxOutput { amount: change, recipient_address: self.address.clone() });
        }
        let ghost out_view = views(outputs@);
        assert(out_view =~= payment_outputs(
            recipient_address@,
            amount,
            sum_amounts(s.take(count as int)) - amount,
            self@.address,
        ));
        let tx = Transaction::new(inputs, outputs);
        assert forall|m: int| 0 <= m < count implies spends_owned(
            #[trigger] tx@.inputs[m],
            s[m],
            self@.address,
        ) && tx@.inputs[m].signature == spend_signature(self@.secret, s[m], amount) by {
            assert(tx@.inputs[m] == inputs@[m]@);
        }
        Some(tx)
    }

    /// Follows a list of transactions: owned outputs that this wallet spent
    /// leave, outputs paid to it join.
    pub fn update_utxos(&mut self, transactions: &[Transaction])
        requires
            old(self).wf(),
        ensures
            final(self).wf(),
            final(self)@.address == old(self)@.address,
            final(self)@.secret == old(self)@.secret,
            final(self)@.utxos == wallet_txs(
                old(self)@.utxos,
                old(self)@.address,
                views(transactions@),
            ),
    {
        let ghost start = self@.utxos;
        let ghost address = self@.address;
        let ghost txs = views(transactions@);
        let mut t: usize = 0;
        while t < transactions.len()
            invariant
                self.wf(),
                self@.address == address,
                self@.secret == old(self)@.secret,
                txs == views(transactions@),
                t <= txs.len(),
                self@.utxos == wallet_txs(start, address, txs.take(t as int)),
            decreases txs.len() - t,
        {
            let tx = &transactions[t];
            let ghost before = self@.utxos;
            let mut k: usize = 0;
            while k < tx.inputs.len()
                invariant
                    self.wf(),
                    self@.address == address,
                    self@.secret == old(self)@.secret,
                    k <= tx@.inputs.len(),
                    self@.utxos == spend_steps(before, address, tx@.inputs.take(k as int)),
                decreases tx@.inputs.len() - k,
            {
                let input = &tx.inputs[k];
                assert(tx@.inputs.take(k + 1).drop_last() =~= tx@.inputs.take(k as int));
                assert(tx@.inputs.take(k + 1).last() == input@);
                if input.sender_address == self.address {
                    let id = input.utxo_id.as_str();
                    let len = id.unicode_len();
                    if len > 0 {
                        let index = parse_digit(id.get_char(len - 1));
                        let tx_id = id.substring_char(0, len - 1);
                        assert(tx_id@ =~= input@.utxo_id.drop_last());
                        if self.owns(tx_id, index) {
                            self.remove_utxo(tx_id, index);
                        }
                    }
                }
                k = k + 1;
            }
            assert(tx@.inputs.take(k as int) =~= tx@.inputs);
            let ghost spent = self@.utxos;
            let mut k: usize = 0;
            while k < tx.outputs.len()
                invariant
                    self.wf(),
                    self@.address == address,
                    self@.secret == old(self)@.secret,
                    k <= tx@.outputs.len(),
                    self@.utxos == receive_steps(spent, address, tx@, k as nat),
                decreases tx@.outputs.len() - k,
            {
                let output = &tx.outputs[k];
                assert(tx@.outputs[k as int] == output@);
                if output.recipient_address == self.address {
                    if !self.owns(tx.id.as_str(), k) {
                        let utxo = UTXO {
                            transaction_id: tx.id.clone(),
                            output_index: k,
                            amount: output.amount,
                            recipient_address: self.address.clone(),
                        };
                        self.add_utxo(utxo);
                    }
                }
                k = k + 1;
            }
            assert(txs.take(t + 1).drop_last() =~= txs.take(t as int));
            assert(txs.take(t + 1).last() == tx@);
            t = t + 1;
        }
        assert(txs.take(t as int) =~= txs);
    }

    /// Whether an owned output comes from output `index` of transaction `tx_id`.
    fn owns(&self, tx_id: &str, index: usize) -> (r: bool)
        ensures
            r == owns_output(self@.utxos, tx_id@, index),
    {
        let target = String::from_str(tx_id);
        let mut j: usize = 0;
        while j < self.utxos.len()
            invariant
                j <= self.utxos@.len(),
                target@ == tx_id@,
                forall|m: int|
                    0 <= m < j ==> !((#[trigger] self@.utxos[m]).transaction_id == tx_id@
                        && self@.utxos[m].output_index == index),
            decreases self.utxos@.len() - j,
        {
            let u = &self.utxos[j];
            if u.transaction_id == target && u.output_index == index {
                assert(self@.utxos[j as int].transaction_id == tx_id@);
                return true;
            }
            j = j + 1;
        }
        false
    }
}

} // verus!
