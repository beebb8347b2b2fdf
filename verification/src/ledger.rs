//! The ledger aggregate: node identity, peer list, the chain, and the
//! pending-transaction pool, together with the proof-of-work engine, the
//! chain validator and the conflict resolver.

use vstd::prelude::*;
use vstd::string::StrSliceExecFns;
use vstd::utf8::encode_utf8;

use crate::codec::{dec_bytes, encode_block, spec_dec_digits, spec_encode_block};
use crate::hashing::{hash_bytes, spec_hash_hex};
use crate::model::{chain_models, Block, BlockModel, Transaction, TransactionModel};

verus! {

/// The proof value of the genesis block.
pub const GENESIS_PROOF: u64 = 100;

/// The sentinel previous-hash of the genesis block.
pub open spec fn genesis_previous_hash() -> Seq<char> {
    seq!['1']
}

/// The bit pattern of the fixed mining reward, one unit, as a 64-bit IEEE
/// 754 value.
pub const MINING_REWARD_BITS: u64 = 0x3FF0000000000000;

/// The reward credited to this node for a successful proof-of-work search:
/// from the sentinel sender "0" to the node, one unit.
pub open spec fn reward_transaction(node_id: Seq<char>) -> TransactionModel {
    TransactionModel { sender: seq!['0'], recipient: node_id, amount_bits: MINING_REWARD_BITS }
}

/// The digest string of a block: the uppercase-hex SHA-256 digest of its
/// canonical byte encoding.
pub open spec fn spec_hash_block(b: BlockModel) -> Seq<char> {
    spec_hash_hex(spec_encode_block(b))
}

/// The guess string hashed by the proof-of-work predicate: the decimal
/// renderings of the previous proof and the candidate proof, then the
/// previous block's digest string, as UTF-8 bytes.
pub open spec fn spec_guess_bytes(last_proof: u64, proof: u64, last_hash: Seq<char>) -> Seq<u8> {
    spec_dec_digits(last_proof as nat) + spec_dec_digits(proof as nat) + encode_utf8(last_hash)
}

/// Whether the last four characters of a digest string are "0000" — the
/// fixed difficulty of this ledger.
pub open spec fn ends_in_four_zeros(digest: Seq<char>) -> bool {
    digest.len() >= 4 && digest.subrange(digest.len() - 4, digest.len() as int) == seq![
        '0',
        '0',
        '0',
        '0',
    ]
}

/// The proof-of-work validity predicate: hashing the guess string built
/// from (last proof, candidate proof, last digest) yields a digest whose
/// last four characters are "0000".
pub open spec fn spec_valid_proof(last_proof: u64, proof: u64, last_hash: Seq<char>) -> bool {
    ends_in_four_zeros(spec_hash_hex(spec_guess_bytes(last_proof, proof, last_hash)))
}

/// Two adjacent blocks are consistent when the later one records the
/// earlier one's digest and the proof-of-work predicate holds for the pair.
pub open spec fn spec_adjacent_valid(previous: BlockModel, current: BlockModel) -> bool {
    let last_hash = spec_hash_block(previous);
    current.previous_hash == last_hash && spec_valid_proof(previous.proof, current.proof, last_hash)
}

/// A chain segment is valid when every adjacent pair in it is consistent.
/// Segments of length zero or one have no pairs and are valid.
pub open spec fn spec_window_valid(chain: Seq<BlockModel>) -> bool {
    forall|i: int| 0 < i < chain.len() ==> #[trigger] spec_adjacent_valid(chain[i - 1], chain[i])
}

/// The views of a list of candidate chains.
pub open spec fn chains_models(chains: Seq<Vec<Block>>) -> Seq<Seq<BlockModel>> {
    chains.map_values(|c: Vec<Block>| chain_models(c@))
}

/// The chain that conflict resolution adopts, scanning the candidates in
/// order: a candidate replaces the running best when it is strictly longer
/// than the best so far (initially the local length) and its window up to
/// the local length validates. Empty when no candidate qualifies.
pub open spec fn spec_resolve(candidates: Seq<Seq<BlockModel>>, local_len: nat) -> Seq<BlockModel>
    decreases candidates.len(),
{
    if candidates.len() == 0 {
        Seq::empty()
    } else {
        let prev = spec_resolve(candidates.drop_last(), local_len);
        let max_len: nat = if prev.len() == 0 {
            local_len
        } else {
            prev.len()
        };
        let c = candidates.last();
        if c.len() > max_len && spec_window_valid(c.take(local_len as int)) {
            c
        } else {
            prev
        }
    }
}

/// One address inserted into the peer list: appended unless already there.
pub open spec fn spec_insert_address(nodes: Seq<Seq<char>>, addr: Seq<char>) -> Seq<Seq<char>> {
    if nodes.contains(addr) {
        nodes
    } else {
        nodes.push(addr)
    }
}

/// A list of addresses inserted in order, each deduplicated against the
/// peer list grown so far.
pub open spec fn spec_register_all(nodes: Seq<Seq<char>>, addrs: Seq<Seq<char>>) -> Seq<Seq<char>>
    decreases addrs.len(),
{
    if addrs.len() == 0 {
        nodes
    } else {
        spec_register_all(spec_insert_address(nodes, addrs[0]), addrs.drop_first())
    }
}

/// A peer-registration request: the addresses to add to the peer list.
pub struct RegisterNodeRequest {
    pub addresses: Vec<String>,
}

/// A single node's ledger.
pub struct Blockchain {
    pub node_id: String,
    pub nodes: Vec<String>,
    pub chain: Vec<Block>,
    pub current_transactions: Vec<Transaction>,
}

/// The mathematical content of a [`Blockchain`].
pub ghost struct LedgerModel {
    pub node_id: Seq<char>,
    pub nodes: Seq<Seq<char>>,
    pub chain: Seq<BlockModel>,
    pub current_transactions: Seq<TransactionModel>,
}

impl View for Blockchain {
    type V = LedgerModel;

    open spec fn view(&self) -> LedgerModel {
        LedgerModel {
            node_id: self.node_id@,
            nodes: self.nodes@.map_values(|s: String| s@),
            chain: chain_models(self.chain@),
            current_transactions: self.current_transactions@.map_values(|t: Transaction| t@),
        }
    }
}

/// Relies on `uuid::Uuid::new_v4` and its `Display` form: a fresh random
/// version-4 UUID rendered as the 36-character hyphenated form. The value
/// is random, so nothing beyond its length is stated.
#[verifier::external_body]
fn fresh_node_id() -> (r: String)
    ensures
        r@.len() == 36,
{
    uuid::Uuid::new_v4().to_string()
}

/// String equality, as equality of the character sequences.
fn string_eq(a: &String, b: &String) -> (r: bool)
    ensures
        r == (a@ == b@),
{
    a.eq(b)
}

impl Blockchain {
    /// The chain always holds at least the genesis block.
    pub open spec fn wf(self) -> bool {
        self@.chain.len() >= 1
    }

    /// A fresh ledger: a new node identity, no peers, an empty pool, and a
    /// chain holding only the genesis block (index 1, the fixed proof, the
    /// fixed sentinel previous-hash, no transactions).
    pub fn new() -> (r: Blockchain)
        ensures
            r.wf(),
            r@.chain.len() == 1,
            r@.current_transactions.len() == 0,
            r@.nodes.len() == 0,
            r@.chain[0].index == 1,
            r@.chain[0].proof == GENESIS_PROOF,
            r@.chain[0].previous_hash == genesis_previous_hash(),
            r@.chain[0].transactions.len() == 0,
    {
        let mut ledger = Blockchain {
            node_id: fresh_node_id(),
            nodes: Vec::new(),
            chain: Vec::new(),
            current_transactions: Vec::new(),
        };
        proof {
            reveal_strlit("1");
            assert("1"@ =~= genesis_previous_hash());
        }
        ledger.new_block(GENESIS_PROOF, Some("1".to_owned()));
        ledger
    }

    /// Appends one address to the peer list unless it is already present:
    /// the list is an insertion-order set.
    pub fn register_node(&mut self, addr: String)
        ensures
            final(self)@.node_id == old(self)@.node_id,
            final(self)@.chain == old(self)@.chain,
            final(self)@.current_transactions == old(self)@.current_transactions,
            old(self)@.nodes.contains(addr@) ==> final(self)@.nodes == old(self)@.nodes,
            !old(self)@.nodes.contains(addr@) ==> final(self)@.nodes == old(self)@.nodes.push(
                addr@,
            ),
    {
        let mut i: usize = 0;
        while i < self.nodes.len()
            invariant
                *self == *old(self),
                i <= self.nodes@.len(),
                forall|k: int| 0 <= k < i ==> self.nodes@[k]@ != addr@,
            decreases self.nodes@.len() - i,
        {
            if string_eq(&self.nodes[i], &addr) {
                proof {
                    assert(old(self)@.nodes[i as int] == self.nodes@[i as int]@);
                }
                return ;
            }
            i += 1;
        }
        proof {
            assert forall|k: int| 0 <= k < old(self)@.nodes.len() implies old(self)@.nodes[k]
                != addr@ by {
                assert(old(self)@.nodes[k] == self.nodes@[k]@);
            }
            assert(!old(self)@.nodes.contains(addr@));
        }
        let ghost prev_nodes = self.nodes@;
        self.nodes.push(addr);
        proof {
            assert(self@.nodes =~= old(self)@.nodes.push(self.nodes@[prev_nodes.len() as int]@));
        }
    }

    /// Inserts every address of a registration request, in order, each
    /// deduplicated against the peer list grown so far.
    pub fn register_nodes(&mut self, req: &RegisterNodeRequest)
        ensures
            final(self)@.node_id == old(self)@.node_id,
            final(self)@.chain == old(self)@.chain,
            final(self)@.current_transactions == old(self)@.current_transactions,
            final(self)@.nodes == spec_register_all(
                old(self)@.nodes,
                req.addresses@.map_values(|s: String| s@),
            ),
    {
        let ghost addrs = req.addresses@.map_values(|s: String| s@);
        let mut k: usize = 0;
        proof {
            assert(addrs.take(0) =~= Seq::<Seq<char>>::empty());
        }
        while k < req.addresses.len()
            invariant
                k <= req.addresses@.len(),
                addrs == req.addresses@.map_values(|s: String| s@),
                self@.node_id == old(self)@.node_id,
                self@.chain == old(self)@.chain,
                self@.current_transactions == old(self)@.current_transactions,
                self@.nodes == spec_register_all(old(self)@.nodes, addrs.take(k as int)),
            decreases req.addresses@.len() - k,
        {
            let ghost nodes_before = self@.nodes;
            self.register_node(req.addresses[k].clone());
            proof {
                assert(addrs[k as int] == req.addresses@[k as int]@);
                assert(self@.nodes == spec_insert_address(nodes_before, addrs[k as int]));
                assert(addrs.take(k + 1) =~= addrs.take(k as int).push(addrs[k as int]));
                lemma_register_all_push(old(self)@.nodes, addrs.take(k as int), addrs[k as int]);
            }
            k += 1;
        }
        proof {
            assert(addrs.take(req.addresses@.len() as int) =~= addrs);
        }
    }

    /// Resolves the previous hash (the explicit override, or the digest of
    /// the current last block), builds a block carrying the whole pending
    /// pool with index one past the chain length, drains the pool, appends
    /// the block and returns a copy of it.
    pub fn new_block(&mut self, proof: u64, previous_hash: Option<String>) -> (b: Block)
        requires
            previous_hash is None ==> old(self)@.chain.len() >= 1,
            old(self)@.chain.len() < u32::MAX,
        ensures
            b@.index == old(self)@.chain.len() + 1,
            b@.proof == proof,
            b@.transactions == old(self)@.current_transactions,
            b@.previous_hash == (match previous_hash {
                Some(h) => h@,
                None => spec_hash_block(old(self)@.chain.last()),
            }),
            final(self)@.chain == old(self)@.chain.push(b@),
            final(self)@.current_transactions == Seq::<TransactionModel>::empty(),
            final(self)@.nodes == old(self)@.nodes,
            final(self)@.node_id == old(self)@.node_id,
    {
        let hash = match previous_hash {
            Some(h) => h,
            None => {
                let n = self.chain.len();
                let last = self.chain[n - 1].clone();
                proof {
                    assert(last@ == old(self)@.chain.last());
                }
                self.hash_block(&last)
            },
        };
        let index = self.chain.len() as u32 + 1;
        let pool = self.current_transactions.clone();
        proof {
            assert(pool@ =~= self.current_transactions@);
        }
        let block = Block::new(pool, index, hash, proof);
        proof {
            assert(block@.transactions =~= old(self)@.current_transactions);
        }
        self.current_transactions.clear();
        proof {
            assert(self@.current_transactions =~= Seq::<TransactionModel>::empty());
        }
        let ghost chain_before = self.chain@;
        self.chain.push(block.clone());
        proof {
            assert(self.chain@[chain_before.len() as int]@ == block@);
            assert(self@.chain =~= old(self)@.chain.push(block@));
        }
        block
    }

    /// Appends a transaction to the pending pool and returns the index the
    /// next block will have: the current chain length plus one (so 1 on an
    /// empty chain).
    pub fn new_transaction(&mut self, sender: String, recipient: String, amount_bits: u64) -> (idx:
        u32)
        requires
            old(self)@.chain.len() < u32::MAX,
        ensures
            final(self)@.current_transactions == old(self)@.current_transactions.push(
                TransactionModel { sender: sender@, recipient: recipient@, amount_bits },
            ),
            final(self)@.chain == old(self)@.chain,
            final(self)@.nodes == old(self)@.nodes,
            final(self)@.node_id == old(self)@.node_id,
            idx == old(self)@.chain.len() + 1,
    {
        let tx = Transaction { sender, recipient, amount_bits };
        self.current_transactions.push(tx);
        proof {
            assert(self@.current_transactions =~= old(self)@.current_transactions.push(
                TransactionModel {
                    sender: self.current_transactions@.last().sender@,
                    recipient: self.current_transactions@.last().recipient@,
                    amount_bits: self.current_transactions@.last().amount_bits,
                },
            ));
        }
        self.chain.len() as u32 + 1
    }

    /// The last block of the chain, absent only on an empty chain (which
    /// never happens after construction, since genesis is seeded).
    pub fn last_block(&self) -> (r: Option<&Block>)
        ensures
            match r {
                Some(b) => self@.chain.len() > 0 && b@ == self@.chain.last(),
                None => self@.chain.len() == 0,
            },
    {
        let n = self.chain.len();
        if n == 0 {
            None
        } else {
            let b = &self.chain[n - 1];
            proof {
                assert(b@ == self@.chain.last());
            }
            Some(b)
        }
    }

    /// The digest string of a block: its canonical encoding, hashed.
    pub fn hash_block(&self, block: &Block) -> (r: String)
        ensures
            r@ == spec_hash_block(block@),
            r@.len() == 64,
    {
        let bytes = encode_block(block);
        hash_bytes(bytes.as_slice())
    }

    /// Whether the proof-of-work predicate holds for (last proof, candidate
    /// proof, last digest string).
    pub fn valid_proof(&self, last_proof: u64, proof: u64, last_block_hash: &str) -> (r: bool)
        ensures
            r == spec_valid_proof(last_proof, proof, last_block_hash@),
    {
        let mut guess = dec_bytes(last_proof);
        let mut proof_digits = dec_bytes(proof);
        guess.append(&mut proof_digits);
        let mut hash_tail = last_block_hash.as_bytes_vec();
        guess.append(&mut hash_tail);
        proof {
            assert(guess@ =~= spec_guess_bytes(last_proof, proof, last_block_hash@));
        }
        let digest = hash_bytes(guess.as_slice());
        let c0 = digest.as_str().get_char(60);
        let c1 = digest.as_str().get_char(61);
        let c2 = digest.as_str().get_char(62);
        let c3 = digest.as_str().get_char(63);
        let r = c0 == '0' && c1 == '0' && c2 == '0' && c3 == '0';
        proof {
            let d = digest@;
            let tail = d.subrange(60, 64);
            if r {
                assert(tail =~= seq!['0', '0', '0', '0']);
            } else if ends_in_four_zeros(d) {
                assert(d[60] == tail[0] && d[61] == tail[1] && d[62] == tail[2] && d[63]
                    == tail[3]);
            }
        }
        r
    }

    /// The smallest candidate proof satisfying the proof-of-work predicate
    /// for the given last block, found by linear search from zero. `None`
    /// only when no 64-bit candidate satisfies the predicate.
    pub fn proof_of_work(&self, last_block: Block) -> (r: Option<u64>)
        ensures
            ({
                let last_hash = spec_hash_block(last_block@);
                match r {
                    Some(p) => spec_valid_proof(last_block@.proof, p, last_hash) && (forall|q: u64|
                        q < p ==> !spec_valid_proof(last_block@.proof, q, last_hash)),
                    None => forall|q: u64|
                        !spec_valid_proof(last_block@.proof, q, spec_hash_block(last_block@)),
                }
            }),
    {
        let last_proof = last_block.proof;
        let last_hash = self.hash_block(&last_block);
        let mut candidate: u64 = 0;
        loop
            invariant
                last_hash@ == spec_hash_block(last_block@),
                last_proof == last_block@.proof,
                forall|q: u64| q < candidate ==> !spec_valid_proof(last_proof, q, last_hash@),
            decreases u64::MAX - candidate,
        {
            if self.valid_proof(last_proof, candidate, last_hash.as_str()) {
                return Some(candidate);
            }
            if candidate == u64::MAX {
                return None;
            }
            candidate = candidate + 1;
        }
    }

    /// Mines one block: searches a proof against the last block, credits
    /// the fixed reward into the pool, and appends a block whose previous
    /// hash is the last block's digest. `None` only when the search finds
    /// no 64-bit proof, in which case the ledger is unchanged.
    pub fn mine(&mut self) -> (r: Option<Block>)
        requires
            old(self).wf(),
            old(self)@.chain.len() < u32::MAX,
        ensures
            ({
                let last = old(self)@.chain.last();
                let last_hash = spec_hash_block(last);
                match r {
                    Some(b) => {
                        &&& spec_valid_proof(last.proof, b@.proof, last_hash)
                        &&& forall|q: u64|
                            q < b@.proof ==> !spec_valid_proof(last.proof, q, last_hash)
                        &&& b@.index == old(self)@.chain.len() + 1
                        &&& b@.previous_hash == last_hash
                        &&& b@.transactions == old(self)@.current_transactions.push(
                            reward_transaction(old(self)@.node_id),
                        )
                        &&& final(self)@.chain == old(self)@.chain.push(b@)
                        &&& final(self)@.current_transactions == Seq::<TransactionModel>::empty()
                        &&& final(self)@.nodes == old(self)@.nodes
                        &&& final(self)@.node_id == old(self)@.node_id
                        &&& final(self).wf()
                    },
                    None => {
                        &&& forall|q: u64| !spec_valid_proof(last.proof, q, last_hash)
                        &&& *final(self) == *old(self)
                    },
                }
            }),
    {
        let n = self.chain.len();
        let last = self.chain[n - 1].clone();
        proof {
            assert(last@ == old(self)@.chain.last());
        }
        let found: u64;
        match self.proof_of_work(last.clone()) {
            Some(p) => {
                found = p;
            },
            None => {
                return None;
            },
        }
        let node_id = self.node_id.clone();
        proof {
            reveal_strlit("0");
            assert("0"@ =~= seq!['0']);
        }
        self.new_transaction("0".to_owned(), node_id, MINING_REWARD_BITS);
        proof {
            assert(self@.current_transactions.last() == reward_transaction(old(self)@.node_id));
            assert(self@.current_transactions =~= old(self)@.current_transactions.push(
                reward_transaction(old(self)@.node_id),
            ));
        }
        let previous_hash = self.hash_block(&last);
        let b = self.new_block(found, Some(previous_hash));
        Some(b)
    }

    /// Whether every adjacent pair of the candidate chain, within the
    /// window bounded by this node's current chain length, is consistent.
    /// The window is the local length by design: a longer candidate is
    /// checked only up to the local chain's length.
    pub fn is_chain_valid(&self, peer_chain: Vec<Block>) -> (r: bool)
        requires
            peer_chain@.len() >= self@.chain.len(),
        ensures
            r == spec_window_valid(chain_models(peer_chain@).take(self@.chain.len() as int)),
    {
        let window = self.chain.len();
        let ghost w = chain_models(peer_chain@).take(window as int);
        proof {
            assert forall|j: int| 0 <= j < window implies w[j] == peer_chain@[j]@ by {}
        }
        if window < 2 {
            proof {
                assert(spec_window_valid(w));
            }
            return true;
        }
        let mut i: usize = 1;
        while i < window
            invariant
                1 <= i <= window,
                window == self@.chain.len(),
                peer_chain@.len() >= window,
                w == chain_models(peer_chain@).take(window as int),
                forall|j: int| 0 <= j < window ==> #[trigger] w[j] == peer_chain@[j]@,
                forall|j: int|
                    0 < j < i ==> #[trigger] spec_adjacent_valid(
                        peer_chain@[j - 1]@,
                        peer_chain@[j]@,
                    ),
            decreases window - i,
        {
            match self.valid_adjacent_blocks(&peer_chain[i - 1], &peer_chain[i]) {
                Ok(_) => {},
                Err(_) => {
                    proof {
                        assert(!spec_adjacent_valid(w[i - 1], w[i as int]));
                        assert(!spec_window_valid(w));
                    }
                    return false;
                },
            }
            i += 1;
        }
        proof {
            assert forall|j: int| 0 < j < w.len() implies #[trigger] spec_adjacent_valid(
                w[j - 1],
                w[j],
            ) by {
                assert(spec_adjacent_valid(peer_chain@[j - 1]@, peer_chain@[j]@));
            }
        }
        true
    }

    /// Whether two adjacent blocks are consistent: the later one records
    /// the digest of the earlier one, and the proof-of-work predicate holds
    /// for the pair.
    fn valid_adjacent_blocks(&self, previous: &Block, current: &Block) -> (r: Result<(), bool>)
        ensures
            r is Ok <==> spec_adjacent_valid(previous@, current@),
            r is Err ==> r == Err::<(), bool>(false),
    {
        let last_block_hash = self.hash_block(previous);
        if !string_eq(&current.previous_hash, &last_block_hash) {
            return Err(false);
        }
        if !self.valid_proof(previous.proof, current.proof, last_block_hash.as_str()) {
            return Err(false);
        }
        Ok(())
    }

    /// Scans the fetched candidate chains in order, tracking the longest
    /// one that is strictly longer than the local chain and whose window
    /// up to the local length validates; if any qualified, replaces the
    /// local chain wholesale and reports true, else leaves it untouched and
    /// reports false. The caller fetches one candidate per peer.
    pub fn resolve_conflicts(&mut self, peer_chains: Vec<Vec<Block>>) -> (replaced: bool)
        ensures
            ({
                let best = spec_resolve(chains_models(peer_chains@), old(self)@.chain.len());
                &&& final(self)@.node_id == old(self)@.node_id
                &&& final(self)@.nodes == old(self)@.nodes
                &&& final(self)@.current_transactions == old(self)@.current_transactions
                &&& replaced == (best.len() > 0)
                &&& (replaced ==> final(self)@.chain == best)
                &&& (!replaced ==> final(self)@.chain == old(self)@.chain)
            }),
    {
        let ghost cands = chains_models(peer_chains@);
        let ghost local_len = self@.chain.len();
        let mut new_chain: Vec<Block> = Vec::new();
        let mut max_length: usize = self.chain.len();
        let mut k: usize = 0;
        proof {
            assert(cands.take(0) =~= Seq::<Seq<BlockModel>>::empty());
        }
        while k < peer_chains.len()
            invariant
                k <= peer_chains@.len(),
                *self == *old(self),
                cands == chains_models(peer_chains@),
                local_len == self@.chain.len(),
                max_length >= local_len,
                ({
                    let best = spec_resolve(cands.take(k as int), local_len);
                    &&& (new_chain@.len() == 0 ==> best.len() == 0 && max_length == local_len)
                    &&& (new_chain@.len() > 0 ==> chain_models(new_chain@) == best && max_length
                        == new_chain@.len())
                }),
            decreases peer_chains@.len() - k,
        {
            let ghost best_before = spec_resolve(cands.take(k as int), local_len);
            proof {
                assert(cands[k as int] == chain_models(peer_chains@[k as int]@));
            }
            let candidate = &peer_chains[k];
            if candidate.len() > max_length {
                let cloned = candidate.clone();
                proof {
                    assert(chain_models(cloned@) =~= chain_models(candidate@));
                }
                if self.is_chain_valid(cloned) {
                    max_length = candidate.len();
                    let replacement = candidate.clone();
                    proof {
                        assert(chain_models(replacement@) =~= chain_models(candidate@));
                    }
                    new_chain = replacement;
                }
            }
            proof {
                assert(cands.take(k + 1).drop_last() =~= cands.take(k as int));
                assert(cands.take(k + 1).last() == cands[k as int]);
            }
            k += 1;
        }
        proof {
            assert(cands.take(peer_chains@.len() as int) =~= cands);
        }
        if new_chain.len() > 0 {
            let ghost adopted = chain_models(new_chain@);
            self.chain = new_chain;
            proof {
                assert(self@.chain == adopted);
            }
            true
        } else {
            false
        }
    }
}

proof fn lemma_register_all_push(nodes: Seq<Seq<char>>, addrs: Seq<Seq<char>>, addr: Seq<char>)
    ensures
        spec_register_all(nodes, addrs.push(addr)) == spec_insert_address(
            spec_register_all(nodes, addrs),
            addr,
        ),
    decreases addrs.len(),
{
    if addrs.len() == 0 {
        assert(addrs.push(addr)[0] == addr);
        assert(addrs.push(addr).drop_first() =~= Seq::<Seq<char>>::empty());
        assert(spec_register_all(nodes, addrs.push(addr)) == spec_register_all(
            spec_insert_address(nodes, addr),
            Seq::<Seq<char>>::empty(),
        ));
        assert(spec_register_all(spec_insert_address(nodes, addr), Seq::<Seq<char>>::empty())
            == spec_insert_address(nodes, addr));
        assert(spec_register_all(nodes, addrs) == nodes);
    } else {
        assert(addrs.push(addr)[0] == addrs[0]);
        assert(addrs.push(addr).drop_first() =~= addrs.drop_first().push(addr));
        lemma_register_all_push(spec_insert_address(nodes, addrs[0]), addrs.drop_first(), addr);
    }
}

} // verus!
