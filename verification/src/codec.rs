//! The canonical, deterministic byte encoding of blocks, and the decimal
//! rendering used by the proof-of-work guess string.
//!
//! Field order is fixed and every field is length-prefixed or of fixed
//! width, so two nodes encode the same logical block to the same bytes:
//! integers as little-endian, strings as a 64-bit byte length followed by
//! the UTF-8 bytes, transaction lists as a 64-bit count followed by the
//! entries in order.

use vstd::bytes::*;
use vstd::prelude::*;
use vstd::string::StrSliceExecFns;
use vstd::utf8::encode_utf8;

use crate::model::{Block, BlockModel, Transaction, TransactionModel};

verus! {

/// Decimal ASCII digits of `n`, most significant first, without leading
/// zeros (a single `'0'` digit for zero).
pub open spec fn spec_dec_digits(n: nat) -> Seq<u8>
    decreases n,
{
    if n < 10 {
        seq![(48 + n) as u8]
    } else {
        spec_dec_digits(n / 10).push((48 + n % 10) as u8)
    }
}

proof fn lemma_reverse_push(s: Seq<u8>, x: u8)
    ensures
        s.push(x).reverse() == seq![x] + s.reverse(),
{
    assert(s.push(x).reverse() =~= seq![x] + s.reverse());
}

/// The decimal ASCII rendering of `n`, as a byte vector.
pub fn dec_bytes(n: u64) -> (r: Vec<u8>)
    ensures
        r@ == spec_dec_digits(n as nat),
{
    let mut rev: Vec<u8> = Vec::new();
    let mut m: u64 = n;
    let d: u8 = (m % 10) as u8;
    rev.push(48 + d);
    m = m / 10;
    proof {
        lemma_reverse_push(Seq::<u8>::empty(), (48 + d) as u8);
        assert(Seq::<u8>::empty().reverse() =~= Seq::<u8>::empty());
        if m == 0 {
            assert(spec_dec_digits(n as nat) =~= rev@.reverse());
        } else {
            assert(spec_dec_digits(n as nat) =~= spec_dec_digits(m as nat) + rev@.reverse());
        }
    }
    while m != 0
        invariant
            rev@.len() >= 1,
            m == 0 ==> spec_dec_digits(n as nat) == rev@.reverse(),
            m != 0 ==> spec_dec_digits(n as nat) == spec_dec_digits(m as nat) + rev@.reverse(),
        decreases m,
    {
        let ghost prev_rev = rev@;
        let ghost prev_m = m;
        let d: u8 = (m % 10) as u8;
        rev.push(48 + d);
        m = m / 10;
        proof {
            lemma_reverse_push(prev_rev, (48 + d) as u8);
            if m == 0 {
                assert(spec_dec_digits(prev_m as nat) =~= seq![(48 + d) as u8]);
                assert(spec_dec_digits(n as nat) =~= rev@.reverse());
            } else {
                assert(spec_dec_digits(prev_m as nat) == spec_dec_digits(m as nat).push(
                    (48 + d) as u8,
                ));
                assert(spec_dec_digits(m as nat).push((48 + d) as u8) =~= spec_dec_digits(m as nat)
                    + seq![(48 + d) as u8]);
                assert(spec_dec_digits(n as nat) =~= spec_dec_digits(m as nat) + rev@.reverse());
            }
        }
    }
    let mut r: Vec<u8> = Vec::new();
    let mut j: usize = rev.len();
    while j > 0
        invariant
            j <= rev@.len(),
            r@.len() == rev@.len() - j,
            forall|k: int| 0 <= k < r@.len() ==> r@[k] == rev@[rev@.len() - 1 - k],
        decreases j,
    {
        j = j - 1;
        r.push(rev[j]);
    }
    proof {
        assert(r@ =~= rev@.reverse());
    }
    r
}

/// Encoding of one string field: the byte length of its UTF-8 form as a
/// little-endian 64-bit value, then the UTF-8 bytes.
pub open spec fn spec_encode_str(s: Seq<char>) -> Seq<u8> {
    spec_u64_to_le_bytes(encode_utf8(s).len() as u64) + encode_utf8(s)
}

/// Encoding of one transaction: sender, recipient, then the amount bits.
pub open spec fn spec_encode_tx(t: TransactionModel) -> Seq<u8> {
    spec_encode_str(t.sender) + spec_encode_str(t.recipient) + spec_u64_to_le_bytes(t.amount_bits)
}

/// Encoding of a transaction list: each entry in order.
pub open spec fn spec_encode_txs(txs: Seq<TransactionModel>) -> Seq<u8>
    decreases txs.len(),
{
    if txs.len() == 0 {
        seq![]
    } else {
        spec_encode_txs(txs.drop_last()) + spec_encode_tx(txs.last())
    }
}

/// The canonical encoding of a block: index, timestamp seconds and
/// nanoseconds, transaction count and transactions, proof, previous hash.
pub open spec fn spec_encode_block(b: BlockModel) -> Seq<u8> {
    spec_u32_to_le_bytes(b.index) + spec_u64_to_le_bytes(b.timestamp_secs) + spec_u32_to_le_bytes(
        b.timestamp_nanos,
    ) + spec_u64_to_le_bytes(b.transactions.len() as u64) + spec_encode_txs(b.transactions)
        + spec_u64_to_le_bytes(b.proof) + spec_encode_str(b.previous_hash)
}

/// Appends the canonical encoding of one string field.
fn encode_str_into(out: &mut Vec<u8>, s: &str)
    ensures
        final(out)@ == old(out)@ + spec_encode_str(s@),
{
    let mut bytes = s.as_bytes_vec();
    let mut len_bytes = u64_to_le_bytes(bytes.len() as u64);
    out.append(&mut len_bytes);
    out.append(&mut bytes);
}

/// Appends the canonical encoding of one transaction.
fn encode_tx_into(out: &mut Vec<u8>, t: &Transaction)
    ensures
        final(out)@ == old(out)@ + spec_encode_tx(t@),
{
    encode_str_into(out, str_of(&t.sender));
    encode_str_into(out, str_of(&t.recipient));
    let mut amount = u64_to_le_bytes(t.amount_bits);
    out.append(&mut amount);
    proof {
        assert(final(out)@ =~= old(out)@ + spec_encode_tx(t@));
    }
}

/// A `&str` view of a `String`.
fn str_of(s: &String) -> (r: &str)
    ensures
        r@ == s@,
{
    s.as_str()
}

proof fn lemma_encode_txs_step(txs: Seq<TransactionModel>, i: int)
    requires
        0 <= i < txs.len(),
    ensures
        spec_encode_txs(txs.take(i + 1)) == spec_encode_txs(txs.take(i)) + spec_encode_tx(txs[i]),
{
    assert(txs.take(i + 1).drop_last() =~= txs.take(i));
    assert(txs.take(i + 1).last() == txs[i]);
}

/// The canonical byte encoding of a block, exactly [`spec_encode_block`]
/// of its content.
pub fn encode_block(b: &Block) -> (r: Vec<u8>)
    ensures
        r@ == spec_encode_block(b@),
{
    let mut out: Vec<u8> = Vec::new();
    let mut index_bytes = u32_to_le_bytes(b.index);
    out.append(&mut index_bytes);
    let mut secs_bytes = u64_to_le_bytes(b.timestamp_secs);
    out.append(&mut secs_bytes);
    let mut nanos_bytes = u32_to_le_bytes(b.timestamp_nanos);
    out.append(&mut nanos_bytes);
    let mut count_bytes = u64_to_le_bytes(b.transactions.len() as u64);
    out.append(&mut count_bytes);
    let ghost header = out@;
    let mut i: usize = 0;
    proof {
        assert(b@.transactions.take(0) =~= Seq::<TransactionModel>::empty());
        assert(spec_encode_txs(b@.transactions.take(0)) =~= Seq::<u8>::empty());
        assert(out@ =~= header + spec_encode_txs(b@.transactions.take(0)));
    }
    while i < b.transactions.len()
        invariant
            i <= b.transactions@.len(),
            b@.transactions.len() == b.transactions@.len(),
            out@ == header + spec_encode_txs(b@.transactions.take(i as int)),
        decreases b.transactions@.len() - i,
    {
        encode_tx_into(&mut out, &b.transactions[i]);
        proof {
            lemma_encode_txs_step(b@.transactions, i as int);
            assert(b@.transactions[i as int] == b.transactions@[i as int]@);
            assert(out@ =~= header + spec_encode_txs(b@.transactions.take(i + 1)));
        }
        i = i + 1;
    }
    proof {
        assert(b@.transactions.take(b.transactions@.len() as int) =~= b@.transactions);
    }
    let mut proof_bytes = u64_to_le_bytes(b.proof);
    out.append(&mut proof_bytes);
    encode_str_into(&mut out, str_of(&b.previous_hash));
    proof {
        assert(out@ =~= spec_encode_block(b@));
    }
    out
}

} // verus!
