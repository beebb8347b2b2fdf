//! The entity model: immutable transaction and block records, together
//! with their mathematical views.

use vstd::prelude::*;

verus! {

/// A transfer recorded in a block: who sends, who receives, and the amount.
///
/// The amount is carried as the raw bit pattern of a 64-bit IEEE 754 value:
/// the wire format stores a double, but this library never interprets the
/// amount arithmetically, so it holds the bits unchanged.
pub struct Transaction {
    pub sender: String,
    pub recipient: String,
    pub amount_bits: u64,
}

/// The mathematical content of a [`Transaction`].
#[verifier::ext_equal]
pub ghost struct TransactionModel {
    pub sender: Seq<char>,
    pub recipient: Seq<char>,
    pub amount_bits: u64,
}

impl View for Transaction {
    type V = TransactionModel;

    open spec fn view(&self) -> TransactionModel {
        TransactionModel {
            sender: self.sender@,
            recipient: self.recipient@,
            amount_bits: self.amount_bits,
        }
    }
}

impl Clone for Transaction {
    fn clone(&self) -> (r: Self)
        ensures
            r == *self,
    {
        Transaction {
            sender: self.sender.clone(),
            recipient: self.recipient.clone(),
            amount_bits: self.amount_bits,
        }
    }
}

/// One block of the chain: a 1-based sequence index, a creation timestamp
/// (seconds and subsecond nanoseconds since the Unix epoch, informational
/// only), the transactions pooled since the previous block, the
/// proof-of-work value, and the previous block's digest string.
pub struct Block {
    pub index: u32,
    pub timestamp_secs: u64,
    pub timestamp_nanos: u32,
    pub transactions: Vec<Transaction>,
    pub proof: u64,
    pub previous_hash: String,
}

/// The mathematical content of a [`Block`].
#[verifier::ext_equal]
pub ghost struct BlockModel {
    pub index: u32,
    pub timestamp_secs: u64,
    pub timestamp_nanos: u32,
    pub transactions: Seq<TransactionModel>,
    pub proof: u64,
    pub previous_hash: Seq<char>,
}

impl View for Block {
    type V = BlockModel;

    open spec fn view(&self) -> BlockModel {
        BlockModel {
            index: self.index,
            timestamp_secs: self.timestamp_secs,
            timestamp_nanos: self.timestamp_nanos,
            transactions: self.transactions@.map_values(|t: Transaction| t@),
            proof: self.proof,
            previous_hash: self.previous_hash@,
        }
    }
}

impl Clone for Block {
    fn clone(&self) -> (r: Self)
        ensures
            r@ == self@,
    {
        let transactions = self.transactions.clone();
        proof {
            assert(transactions@ =~= self.transactions@);
        }
        Block {
            index: self.index,
            timestamp_secs: self.timestamp_secs,
            timestamp_nanos: self.timestamp_nanos,
            transactions,
            proof: self.proof,
            previous_hash: self.previous_hash.clone(),
        }
    }
}

/// The views of a sequence of blocks, in order.
pub open spec fn chain_models(blocks: Seq<Block>) -> Seq<BlockModel> {
    blocks.map_values(|b: Block| b@)
}

/// Relies on `std::time::SystemTime::now` (read once, then converted with
/// `duration_since(UNIX_EPOCH)`, `as_secs` and `subsec_nanos`): the current
/// wall-clock instant as seconds and subsecond nanoseconds since the Unix
/// epoch. The clock's value depends on nothing this library sees; only the
/// nanosecond bound, an invariant of `Duration`, is stated.
#[verifier::external_body]
fn current_timestamp() -> (r: (u64, u32))
    ensures
        r.1 < 1_000_000_000,
{
    match std::time::SystemTime::now().duration_since(std::time::UNIX_EPOCH) {
        Ok(d) => (d.as_secs(), d.subsec_nanos()),
        Err(_) => (0, 0),
    }
}

impl Block {
    /// A block carrying the given content, stamped with the current
    /// wall-clock time. The timestamp is informational only and is not
    /// constrained here.
    pub fn new(previous_txs: Vec<Transaction>, index: u32, previous_hash: String, proof: u64) -> (b:
        Block)
        ensures
            b@.index == index,
            b@.transactions == previous_txs@.map_values(|t: Transaction| t@),
            b@.previous_hash == previous_hash@,
            b@.proof == proof,
            b@.timestamp_nanos < 1_000_000_000,
    {
        let (timestamp_secs, timestamp_nanos) = current_timestamp();
        Block {
            index,
            timestamp_secs,
            timestamp_nanos,
            transactions: previous_txs,
            proof,
            previous_hash,
        }
    }
}

} // verus!
