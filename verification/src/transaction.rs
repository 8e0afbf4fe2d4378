//! The ledger unit: outputs that tie a value to an address, and
//! transactions that consume earlier outputs and produce new ones.

use crate::hashable::Hashable;
use crate::utility::{append_bytes, le_bytes, u64_bytes};
use vstd::prelude::*;
use vstd::utf8::encode_utf8;

verus! {

/// A spendable value tied to an address. It has no identity beyond its
/// content: two outputs with the same address and value are the same output.
#[derive(Debug)]
pub struct Output {
    pub to_addr: String,
    pub value: u64,
}

/// What an [`Output`] stands for: the characters of its address, and its value.
pub struct OutputView {
    pub to_addr: Seq<char>,
    pub value: u64,
}

impl OutputView {
    /// The address as UTF-8, then the value in eight little-endian bytes.
    pub open spec fn bytes(self) -> Seq<u8> {
        encode_utf8(self.to_addr) + le_bytes(self.value as nat, 8)
    }
}

impl View for Output {
    type V = OutputView;

    open spec fn view(&self) -> OutputView {
        OutputView { to_addr: self.to_addr@, value: self.value }
    }
}

/// The outputs that a vector of [`Output`] stands for, in order.
pub open spec fn outputs_view(outputs: Seq<Output>) -> Seq<OutputView> {
    outputs.map_values(|o: Output| o@)
}

/// The sum of the values of `outputs`.
pub open spec fn total_value(outputs: Seq<OutputView>) -> nat
    decreases outputs.len(),
{
    if outputs.len() == 0 {
        0
    } else {
        total_value(outputs.drop_last()) + outputs.last().value as nat
    }
}

/// The serializations of `outputs`, one after the other.
pub open spec fn outputs_bytes(outputs: Seq<OutputView>) -> Seq<u8>
    decreases outputs.len(),
{
    if outputs.len() == 0 {
        Seq::empty()
    } else {
        outputs_bytes(outputs.drop_last()) + outputs.last().bytes()
    }
}

/// Whether `wanted` occurs among `outputs`.
pub open spec fn has_output(outputs: Seq<OutputView>, wanted: OutputView) -> bool {
    exists|k: int| 0 <= k < outputs.len() && outputs[k] == wanted
}

/// A set of consumed outputs and a set of produced outputs.
#[derive(Debug)]
pub struct Transaction {
    pub inputs: Vec<Output>,
    pub outputs: Vec<Output>,
}

/// What a [`Transaction`] stands for.
pub struct TransactionView {
    pub inputs: Seq<OutputView>,
    pub outputs: Seq<OutputView>,
}

impl TransactionView {
    /// The sum of the values that the transaction consumes.
    pub open spec fn input_value(self) -> nat {
        total_value(self.inputs)
    }

    /// The sum of the values that the transaction produces.
    pub open spec fn output_value(self) -> nat {
        total_value(self.outputs)
    }

    /// A transaction that consumes nothing creates value: a coinbase.
    pub open spec fn is_coinbase(self) -> bool {
        self.inputs.len() == 0
    }

    /// What the transaction leaves to the block's coinbase: the surplus of
    /// its inputs over its outputs.
    pub open spec fn fee(self) -> int {
        self.input_value() - self.output_value()
    }

    /// The inputs' serializations, then the outputs'.
    pub open spec fn bytes(self) -> Seq<u8> {
        outputs_bytes(self.inputs) + outputs_bytes(self.outputs)
    }
}

impl View for Transaction {
    type V = TransactionView;

    open spec fn view(&self) -> TransactionView {
        TransactionView {
            inputs: outputs_view(self.inputs@),
            outputs: outputs_view(self.outputs@),
        }
    }
}

impl Clone for Output {
    fn clone(&self) -> (copy: Output)
        ensures
            copy == *self,
    {
        Output { to_addr: self.to_addr.clone(), value: self.value }
    }
}

impl Output {
    /// Whether the two outputs have the same address and the same value.
    pub fn same_as(&self, other: &Output) -> (same: bool)
        ensures
            same == (self@ == other@),
    {
        self.value == other.value && self.to_addr == other.to_addr
    }
}

impl Hashable for Output {
    open spec fn spec_bytes(&self) -> Seq<u8> {
        self@.bytes()
    }

    fn bytes(&self) -> (out: Vec<u8>) {
        let mut out: Vec<u8> = Vec::new();
        append_bytes(&mut out, self.to_addr.as_str().as_bytes());
        let mut value = u64_bytes(&self.value);
        out.append(&mut value);
        assert(out@ =~= self@.bytes() && self@.bytes() == self.spec_bytes());
        out
    }
}

/// The sum of the values of `outputs`. It cannot overflow: a vector holds
/// fewer than 2^64 outputs, each worth less than 2^64.
fn sum_values(outputs: &Vec<Output>) -> (total: u128)
    ensures
        total as nat == total_value(outputs_view(outputs@)),
{
    let ghost all = outputs_view(outputs@);
    let mut total: u128 = 0;
    let mut i: usize = 0;
    while i < outputs.len()
        invariant
            i <= outputs@.len(),
            all == outputs_view(outputs@),
            total as nat == total_value(all.take(i as int)),
            total <= i * 0xffff_ffff_ffff_ffff,
        decreases outputs@.len() - i,
    {
        proof {
            assert(all.take(i + 1).drop_last() =~= all.take(i as int));
            assert(i * 0xffff_ffff_ffff_ffff + 0xffff_ffff_ffff_ffff
                <= 0xffff_ffff_ffff_ffff * 0xffff_ffff_ffff_ffff + 0xffff_ffff_ffff_ffff)
                by (nonlinear_arith)
                requires
                    i <= 0xffff_ffff_ffff_ffff,
            ;
        }
        total = total + outputs[i].value as u128;
        i = i + 1;
    }
    assert(all.take(i as int) =~= all);
    total
}

/// The serializations of `outputs`, one after the other.
fn serialize_outputs(outputs: &Vec<Output>) -> (out: Vec<u8>)
    ensures
        out@ == outputs_bytes(outputs_view(outputs@)),
{
    let ghost all = outputs_view(outputs@);
    let mut out: Vec<u8> = Vec::new();
    let mut i: usize = 0;
    while i < outputs.len()
        invariant
            i <= outputs@.len(),
            all == outputs_view(outputs@),
            out@ == outputs_bytes(all.take(i as int)),
        decreases outputs@.len() - i,
    {
        let mut one = outputs[i].bytes();
        out.append(&mut one);
        i = i + 1;
        assert(all.take(i as int).drop_last() =~= all.take(i - 1));
    }
    assert(all.take(i as int) =~= all);
    out
}

impl Clone for Transaction {
    fn clone(&self) -> (copy: Transaction)
        ensures
            copy.inputs@ == self.inputs@,
            copy.outputs@ == self.outputs@,
            copy@ == self@,
    {
        Transaction { inputs: self.inputs.clone(), outputs: self.outputs.clone() }
    }
}

impl Transaction {
    /// The sum of the values that the transaction consumes.
    pub fn input_value(&self) -> (total: u128)
        ensures
            total as nat == self@.input_value(),
    {
        sum_values(&self.inputs)
    }

    /// The sum of the values that the transaction produces.
    pub fn output_value(&self) -> (total: u128)
        ensures
            total as nat == self@.output_value(),
    {
        sum_values(&self.outputs)
    }

    /// Whether the transaction consumes nothing.
    pub fn is_coinbase(&self) -> (coinbase: bool)
        ensures
            coinbase == self@.is_coinbase(),
    {
        self.inputs.len() == 0
    }

    /// Whether the transaction produces an output equal to `wanted`.
    pub fn pays(&self, wanted: &Output) -> (found: bool)
        ensures
            found == has_output(self@.outputs, wanted@),
    {
        let ghost all = outputs_view(self.outputs@);
        let mut k: usize = 0;
        while k < self.outputs.len()
            invariant
                k <= self.outputs@.len(),
                all == outputs_view(self.outputs@),
                forall|j: int| 0 <= j < k ==> all[j] != wanted@,
            decreases self.outputs@.len() - k,
        {
            if self.outputs[k].same_as(wanted) {
                assert(all[k as int] == wanted@);
                return true;
            }
            k = k + 1;
        }
        false
    }
}

impl Hashable for Transaction {
    open spec fn spec_bytes(&self) -> Seq<u8> {
        self@.bytes()
    }

    fn bytes(&self) -> (out: Vec<u8>) {
        let mut out = serialize_outputs(&self.inputs);
        let mut produced = serialize_outputs(&self.outputs);
        out.append(&mut produced);
        assert(out@ =~= self@.bytes() && self@.bytes() == self.spec_bytes());
        out
    }
}

} // verus!
