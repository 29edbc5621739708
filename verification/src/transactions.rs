//! Transactions: ordered inputs that spend earlier outputs, and ordered
//! outputs that lock value to a public-key hash.
//!
//! A transaction's `id` is the SHA-256 digest of a canonical byte encoding
//! of its inputs and outputs, fixed at construction and used as the
//! addressing key in every index. A transaction is a coinbase exactly when
//! its input list is empty.

use vstd::prelude::*;
use crate::utils::{sha256_of, u64_be_bytes, u64_to_be_bytes, push_bytes, clone_bytes, sha256_digest};

verus! {

/// One input: a reference to an output of an earlier transaction, with the
/// material that authorizes the spend.
pub struct TxInput {
    pub txid: Vec<u8>,
    pub vout: usize,
    pub signature: Vec<u8>,
    pub pub_key: Vec<u8>,
}

/// One output: a value locked to the hash of a public key.
pub struct TxOutput {
    pub value: u64,
    pub pub_key_hash: Vec<u8>,
}

/// A transaction: a content digest `id`, inputs and outputs.
pub struct Transaction {
    pub id: Vec<u8>,
    pub vin: Vec<TxInput>,
    pub vout: Vec<TxOutput>,
}

/// The mathematical value of a `TxInput`.
pub ghost struct TxInputV {
    pub txid: Seq<u8>,
    pub vout: int,
    pub signature: Seq<u8>,
    pub pub_key: Seq<u8>,
}

/// The mathematical value of a `TxOutput`.
pub ghost struct TxOutputV {
    pub value: u64,
    pub pub_key_hash: Seq<u8>,
}

/// The mathematical value of a `Transaction`.
pub ghost struct TransactionV {
    pub id: Seq<u8>,
    pub vin: Seq<TxInputV>,
    pub vout: Seq<TxOutputV>,
}

impl View for TxInput {
    type V = TxInputV;

    open spec fn view(&self) -> TxInputV {
        TxInputV {
            txid: self.txid@,
            vout: self.vout as int,
            signature: self.signature@,
            pub_key: self.pub_key@,
        }
    }
}

impl View for TxOutput {
    type V = TxOutputV;

    open spec fn view(&self) -> TxOutputV {
        TxOutputV { value: self.value, pub_key_hash: self.pub_key_hash@ }
    }
}

impl View for Transaction {
    type V = TransactionV;

    open spec fn view(&self) -> TransactionV {
        TransactionV { id: self.id@, vin: inputs_view(self.vin@), vout: outputs_view(self.vout@) }
    }
}

/// The values of a sequence of inputs.
pub open spec fn inputs_view(s: Seq<TxInput>) -> Seq<TxInputV> {
    s.map_values(|t: TxInput| t@)
}

/// The values of a sequence of outputs.
pub open spec fn outputs_view(s: Seq<TxOutput>) -> Seq<TxOutputV> {
    s.map_values(|t: TxOutput| t@)
}

/// The values of a sequence of transactions.
pub open spec fn txs_view(s: Seq<Transaction>) -> Seq<TransactionV> {
    s.map_values(|t: Transaction| t@)
}

/// The canonical byte encoding of one input: each variable-length field is
/// preceded by its length.
pub open spec fn input_bytes(i: TxInputV) -> Seq<u8> {
    u64_be_bytes(i.txid.len() as u64) + i.txid + u64_be_bytes(i.vout as u64)
        + u64_be_bytes(i.signature.len() as u64) + i.signature
        + u64_be_bytes(i.pub_key.len() as u64) + i.pub_key
}

/// The canonical byte encoding of one output.
pub open spec fn output_bytes(o: TxOutputV) -> Seq<u8> {
    u64_be_bytes(o.value) + u64_be_bytes(o.pub_key_hash.len() as u64) + o.pub_key_hash
}

/// The concatenated encodings of a sequence of inputs.
pub open spec fn inputs_bytes(s: Seq<TxInputV>) -> Seq<u8>
    decreases s.len(),
{
    if s.len() == 0 {
        Seq::empty()
    } else {
        inputs_bytes(s.drop_last()) + input_bytes(s.last())
    }
}

/// The concatenated encodings of a sequence of outputs.
pub open spec fn outputs_bytes(s: Seq<TxOutputV>) -> Seq<u8>
    decreases s.len(),
{
    if s.len() == 0 {
        Seq::empty()
    } else {
        outputs_bytes(s.drop_last()) + output_bytes(s.last())
    }
}

/// The canonical byte encoding of a transaction's content: the two counted
/// field lists, inputs first.
pub open spec fn tx_content_bytes(vin: Seq<TxInputV>, vout: Seq<TxOutputV>) -> Seq<u8> {
    u64_be_bytes(vin.len() as u64) + inputs_bytes(vin) + u64_be_bytes(vout.len() as u64)
        + outputs_bytes(vout)
}

/// A well-formed transaction: at least one output, and an `id` that is the
/// content digest of its inputs and outputs.
pub open spec fn tx_wf(t: TransactionV) -> bool {
    &&& t.vout.len() > 0
    &&& t.id == sha256_of(tx_content_bytes(t.vin, t.vout))
}

impl TxInput {
    /// Builds an input referencing output `vout` of transaction `txid`.
    pub fn new(txid: Vec<u8>, vout: usize, signature: Vec<u8>, pub_key: Vec<u8>) -> (r: TxInput)
        ensures
            r@ == (TxInputV { txid: txid@, vout: vout as int, signature: signature@, pub_key: pub_key@ }),
    {
        TxInput { txid, vout, signature, pub_key }
    }

    /// A copy of this input.
    pub fn clone_input(&self) -> (r: TxInput)
        ensures
            r@ == self@,
    {
        TxInput {
            txid: clone_bytes(self.txid.as_slice()),
            vout: self.vout,
            signature: clone_bytes(self.signature.as_slice()),
            pub_key: clone_bytes(self.pub_key.as_slice()),
        }
    }
}

impl TxOutput {
    /// Builds an output locking `value` to `pub_key_hash`.
    pub fn new(value: u64, pub_key_hash: Vec<u8>) -> (r: TxOutput)
        ensures
            r@ == (TxOutputV { value, pub_key_hash: pub_key_hash@ }),
    {
        TxOutput { value, pub_key_hash }
    }

    /// A copy of this output.
    pub fn clone_output(&self) -> (r: TxOutput)
        ensures
            r@ == self@,
    {
        TxOutput { value: self.value, pub_key_hash: clone_bytes(self.pub_key_hash.as_slice()) }
    }
}

/// Writes the canonical encoding of one input.
fn encode_input(i: &TxInput, dst: &mut Vec<u8>)
    ensures
        final(dst)@ == old(dst)@ + input_bytes(i@),
{
    let len_txid = u64_to_be_bytes(i.txid.len() as u64);
    push_bytes(dst, len_txid.as_slice());
    push_bytes(dst, i.txid.as_slice());
    let vout_bytes = u64_to_be_bytes(i.vout as u64);
    push_bytes(dst, vout_bytes.as_slice());
    let len_sig = u64_to_be_bytes(i.signature.len() as u64);
    push_bytes(dst, len_sig.as_slice());
    push_bytes(dst, i.signature.as_slice());
    let len_pk = u64_to_be_bytes(i.pub_key.len() as u64);
    push_bytes(dst, len_pk.as_slice());
    push_bytes(dst, i.pub_key.as_slice());
    proof {
        assert(dst@ =~= old(dst)@ + input_bytes(i@));
    }
}

/// Writes the canonical encoding of one output.
fn encode_output(o: &TxOutput, dst: &mut Vec<u8>)
    ensures
        final(dst)@ == old(dst)@ + output_bytes(o@),
{
    let value_bytes = u64_to_be_bytes(o.value);
    push_bytes(dst, value_bytes.as_slice());
    let len_pkh = u64_to_be_bytes(o.pub_key_hash.len() as u64);
    push_bytes(dst, len_pkh.as_slice());
    push_bytes(dst, o.pub_key_hash.as_slice());
    proof {
        assert(dst@ =~= old(dst)@ + output_bytes(o@));
    }
}

/// Writes the canonical content encoding of `vin` and `vout`.
fn encode_tx_content(vin: &Vec<TxInput>, vout: &Vec<TxOutput>) -> (r: Vec<u8>)
    ensures
        r@ == tx_content_bytes(inputs_view(vin@), outputs_view(vout@)),
{
    let mut dst: Vec<u8> = Vec::new();
    let len_vin = u64_to_be_bytes(vin.len() as u64);
    push_bytes(&mut dst, len_vin.as_slice());
    let mut i: usize = 0;
    while i < vin.len()
        invariant
            i <= vin@.len(),
            dst@ == u64_be_bytes(vin@.len() as u64) + inputs_bytes(inputs_view(vin@).take(i as int)),
        decreases vin@.len() - i,
    {
        encode_input(&vin[i], &mut dst);
        proof {
            let v = inputs_view(vin@);
            assert(v.take(i + 1).drop_last() =~= v.take(i as int));
            assert(v.take(i + 1).last() == v[i as int]);
        }
        i = i + 1;
    }
    proof {
        assert(inputs_view(vin@).take(vin@.len() as int) =~= inputs_view(vin@));
    }
    let len_vout = u64_to_be_bytes(vout.len() as u64);
    push_bytes(&mut dst, len_vout.as_slice());
    let ghost prefix = dst@;
    let mut j: usize = 0;
    while j < vout.len()
        invariant
            j <= vout@.len(),
            dst@ == prefix + outputs_bytes(outputs_view(vout@).take(j as int)),
        decreases vout@.len() - j,
    {
        encode_output(&vout[j], &mut dst);
        proof {
            let v = outputs_view(vout@);
            assert(v.take(j + 1).drop_last() =~= v.take(j as int));
            assert(v.take(j + 1).last() == v[j as int]);
        }
        j = j + 1;
    }
    proof {
        assert(outputs_view(vout@).take(vout@.len() as int) =~= outputs_view(vout@));
        assert(dst@ =~= tx_content_bytes(inputs_view(vin@), outputs_view(vout@)));
    }
    dst
}

impl Transaction {
    /// Builds a transaction and fixes its `id` as the content digest of its
    /// inputs and outputs.
    pub fn new(vin: Vec<TxInput>, vout: Vec<TxOutput>) -> (r: Transaction)
        requires
            vout@.len() > 0,
        ensures
            r@.vin == inputs_view(vin@),
            r@.vout == outputs_view(vout@),
            r@.id == sha256_of(tx_content_bytes(inputs_view(vin@), outputs_view(vout@))),
            tx_wf(r@),
    {
        let content = encode_tx_content(&vin, &vout);
        let id = sha256_digest(content.as_slice());
        Transaction { id, vin, vout }
    }

    /// Builds a coinbase transaction: no inputs, a single output crediting
    /// `value` to `to_pub_key_hash`.
    pub fn new_coinbase_tx(to_pub_key_hash: Vec<u8>, value: u64) -> (r: Transaction)
        ensures
            r@.vin.len() == 0,
            r@.vout.len() == 1,
            r@.vout[0] == (TxOutputV { value, pub_key_hash: to_pub_key_hash@ }),
            tx_wf(r@),
    {
        let vout = vec![TxOutput::new(value, to_pub_key_hash)];
        let vin: Vec<TxInput> = Vec::new();
        proof {
            assert(inputs_view(vin@) =~= Seq::<TxInputV>::empty());
        }
        Transaction::new(vin, vout)
    }

    /// The content digest that addresses this transaction.
    pub fn get_id(&self) -> (r: &[u8])
        ensures
            r@ == self@.id,
    {
        self.id.as_slice()
    }

    /// Whether this transaction is a coinbase: no inputs.
    pub fn is_coinbase(&self) -> (r: bool)
        ensures
            r == (self@.vin.len() == 0),
    {
        self.vin.len() == 0
    }

    /// A copy of this transaction.
    pub fn clone_tx(&self) -> (r: Transaction)
        ensures
            r@ == self@,
    {
        let mut vin: Vec<TxInput> = Vec::new();
        let mut i: usize = 0;
        while i < self.vin.len()
            invariant
                i <= self.vin@.len(),
                vin@.len() == i,
                forall|k: int| 0 <= k < i ==> vin@[k]@ == #[trigger] self.vin@[k]@,
            decreases self.vin@.len() - i,
        {
            vin.push(self.vin[i].clone_input());
            i = i + 1;
        }
        let mut vout: Vec<TxOutput> = Vec::new();
        let mut j: usize = 0;
        while j < self.vout.len()
            invariant
                j <= self.vout@.len(),
                vout@.len() == j,
                forall|k: int| 0 <= k < j ==> vout@[k]@ == #[trigger] self.vout@[k]@,
            decreases self.vout@.len() - j,
        {
            vout.push(self.vout[j].clone_output());
            j = j + 1;
        }
        let id = clone_bytes(self.id.as_slice());
        proof {
            assert(inputs_view(vin@) =~= inputs_view(self.vin@));
            assert(outputs_view(vout@) =~= outputs_view(self.vout@));
        }
        Transaction { id, vin, vout }
    }
}

/// Clones a sequence of transactions.
pub fn clone_txs(txs: &[Transaction]) -> (r: Vec<Transaction>)
    ensures
        txs_view(r@) == txs_view(txs@),
{
    let mut r: Vec<Transaction> = Vec::new();
    let mut i: usize = 0;
    while i < txs.len()
        invariant
            i <= txs@.len(),
            r@.len() == i,
            forall|k: int| 0 <= k < i ==> r@[k]@ == #[trigger] txs@[k]@,
        decreases txs@.len() - i,
    {
        r.push(txs[i].clone_tx());
        i = i + 1;
    }
    proof {
        assert(txs_view(r@) =~= txs_view(txs@));
    }
    r
}

} // verus!
