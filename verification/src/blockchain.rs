//! The ledger: transactions, hash-linked blocks, the proof-of-work puzzle,
//! chain validation and longest-valid-chain reconciliation.

use crate::api::{Chain, ChainView};
use crate::clock::utc_now_text;
use crate::digest::{digest_len, sha256_hex, sha256_hex_digest};
use crate::peer::{
    canonical_address, canonical_peer, chain_url, chain_url_text, is_known_peer,
    lemma_with_peer_distinct, texts, with_peer,
};
use crate::text::{
    decimal_text, json_string_text, push_decimal, push_json_string, push_signed_decimal,
    signed_decimal_text,
};
use vstd::prelude::*;
use vstd::utf8::encode_utf8;

verus! {

/// A value transfer from one party to another.
#[derive(Debug, PartialEq, Eq, Hash)]
pub struct Transaction {
    pub sender: String,
    pub recipient: String,
    pub amount: i64,
}

/// What a [`Transaction`] holds.
pub struct TransactionView {
    pub sender: Seq<char>,
    pub recipient: Seq<char>,
    pub amount: int,
}

impl View for Transaction {
    type V = TransactionView;

    open spec fn view(&self) -> TransactionView {
        TransactionView {
            sender: self.sender@,
            recipient: self.recipient@,
            amount: self.amount as int,
        }
    }
}

impl Clone for Transaction {
    fn clone(&self) -> (copy: Self)
        ensures
            copy == *self,
    {
        Transaction {
            sender: self.sender.clone(),
            recipient: self.recipient.clone(),
            amount: self.amount,
        }
    }
}

/// An indexed, hash-linked container of transactions with its proof.
///
/// `timestamp` is the text of the instant at which the block was made, in
/// the form in which it travels between nodes.
#[derive(Debug, PartialEq, Eq, Hash)]
pub struct Block {
    pub index: u64,
    pub timestamp: String,
    pub transactions: Vec<Transaction>,
    pub proof: u64,
    pub previous_hash: String,
}

/// What a [`Block`] holds.
pub struct BlockView {
    pub index: nat,
    pub timestamp: Seq<char>,
    pub transactions: Seq<TransactionView>,
    pub proof: nat,
    pub previous_hash: Seq<char>,
}

/// The transactions of a list, each by what it holds.
pub open spec fn transaction_views(list: Seq<Transaction>) -> Seq<TransactionView> {
    Seq::new(list.len(), |i: int| list[i]@)
}

/// The blocks of a list, each by what it holds.
pub open spec fn block_views(list: Seq<Block>) -> Seq<BlockView> {
    Seq::new(list.len(), |i: int| list[i]@)
}

impl View for Block {
    type V = BlockView;

    open spec fn view(&self) -> BlockView {
        BlockView {
            index: self.index as nat,
            timestamp: self.timestamp@,
            transactions: transaction_views(self.transactions@),
            proof: self.proof as nat,
            previous_hash: self.previous_hash@,
        }
    }
}

/// Copies a list of transactions.
pub fn clone_transactions(list: &Vec<Transaction>) -> (copy: Vec<Transaction>)
    ensures
        copy@ == list@,
{
    let mut copy: Vec<Transaction> = Vec::new();
    let mut i: usize = 0;
    while i < list.len()
        invariant
            i <= list.len(),
            copy@ == list@.take(i as int),
        decreases list.len() - i,
    {
        copy.push(list[i].clone());
        i += 1;
    }
    copy
}

impl Clone for Block {
    fn clone(&self) -> (copy: Self)
        ensures
            copy@ == self@,
    {
        Block {
            index: self.index,
            timestamp: self.timestamp.clone(),
            transactions: clone_transactions(&self.transactions),
            proof: self.proof,
            previous_hash: self.previous_hash.clone(),
        }
    }
}

/// Copies a list of blocks.
pub fn clone_blocks(list: &Vec<Block>) -> (copy: Vec<Block>)
    ensures
        block_views(copy@) == block_views(list@),
{
    let mut copy: Vec<Block> = Vec::new();
    let mut i: usize = 0;
    while i < list.len()
        invariant
            i <= list.len(),
            copy@.len() == i,
            forall|k: int| 0 <= k < i ==> copy@[k]@ == list@[k]@,
        decreases list.len() - i,
    {
        copy.push(list[i].clone());
        i += 1;
    }
    copy
}

/// The wire form of a transaction: a JSON object with the fields `sender`,
/// `recipient` and `amount`, in this order and without white space.
pub open spec fn transaction_json(t: TransactionView) -> Seq<char> {
    "{\"sender\":"@ + json_string_text(t.sender) + ",\"recipient\":"@ + json_string_text(
        t.recipient,
    ) + ",\"amount\":"@ + signed_decimal_text(t.amount) + "}"@
}

/// The wire forms of the transactions of a list, with a comma between each
/// two neighbours.
pub open spec fn transaction_list_json(list: Seq<TransactionView>) -> Seq<char>
    decreases list.len(),
{
    if list.len() == 0 {
        Seq::empty()
    } else if list.len() == 1 {
        transaction_json(list[0])
    } else {
        transaction_list_json(list.drop_last()) + ","@ + transaction_json(list.last())
    }
}

/// The canonical wire form of a block: a JSON object with the fields
/// `index`, `timestamp`, `transactions`, `proof` and `previous_hash`, in
/// this order and without white space.
pub open spec fn block_json(b: BlockView) -> Seq<char> {
    "{\"index\":"@ + decimal_text(b.index) + ",\"timestamp\":"@ + json_string_text(b.timestamp)
        + ",\"transactions\":["@ + transaction_list_json(b.transactions) + "],\"proof\":"@
        + decimal_text(b.proof) + ",\"previous_hash\":"@ + json_string_text(b.previous_hash)
        + "}"@
}

/// The digest of a block: the SHA-256 digest, in hexadecimal, of the UTF-8
/// bytes of its canonical wire form.
pub open spec fn block_hash(b: BlockView) -> Seq<char> {
    sha256_hex(encode_utf8(block_json(b)))
}

/// Appends the wire form of `t` to `out`.
pub fn push_transaction_json(out: &mut String, t: &Transaction)
    ensures
        final(out)@ == old(out)@ + transaction_json(t@),
{
    out.append("{\"sender\":");
    push_json_string(out, t.sender.as_str());
    out.append(",\"recipient\":");
    push_json_string(out, t.recipient.as_str());
    out.append(",\"amount\":");
    push_signed_decimal(out, t.amount);
    out.append("}");
}

/// The canonical wire form of `block`.
pub fn canonical_json(block: &Block) -> (json: String)
    ensures
        json@ == block_json(block@),
{
    let mut out = String::new();
    out.append("{\"index\":");
    push_decimal(&mut out, block.index);
    out.append(",\"timestamp\":");
    push_json_string(&mut out, block.timestamp.as_str());
    out.append(",\"transactions\":[");
    let ghost head = out@;
    let ghost list = block@.transactions;
    let mut i: usize = 0;
    while i < block.transactions.len()
        invariant
            i <= block.transactions.len(),
            list == block@.transactions,
            out@ == head + transaction_list_json(list.take(i as int)),
        decreases block.transactions.len() - i,
    {
        proof {
            assert(list.take(i + 1).drop_last() == list.take(i as int));
            assert(list.take(i + 1).last() == block.transactions@[i as int]@);
        }
        if i > 0 {
            out.append(",");
        }
        push_transaction_json(&mut out, &block.transactions[i]);
        i += 1;
    }
    proof {
        assert(list.take(i as int) == list);
    }
    out.append("],\"proof\":");
    push_decimal(&mut out, block.proof);
    out.append(",\"previous_hash\":");
    push_json_string(&mut out, block.previous_hash.as_str());
    out.append("}");
    out
}

/// The text that a proof-of-work guess hashes: the decimal text of the
/// previous proof, that of the candidate proof, and the previous block's
/// stored `previous_hash`, one after the other.
pub open spec fn proof_guess(last_proof: nat, proof: nat, last_hash: Seq<char>) -> Seq<char> {
    decimal_text(last_proof) + decimal_text(proof) + last_hash
}

/// Whether a digest ends in four zero characters.
pub open spec fn ends_in_four_zeros(digest: Seq<char>) -> bool {
    seq!['0', '0', '0', '0'].is_suffix_of(digest)
}

/// The proof-of-work predicate: the SHA-256 digest of the guess, in
/// hexadecimal, ends in four zero characters.
pub open spec fn proof_is_valid(last_proof: nat, proof: nat, last_hash: Seq<char>) -> bool {
    ends_in_four_zeros(sha256_hex(encode_utf8(proof_guess(last_proof, proof, last_hash))))
}

/// No candidate below `bound` solves the puzzle.
pub open spec fn no_proof_below(last_proof: nat, last_hash: Seq<char>, bound: nat) -> bool {
    forall|q: nat| q < bound ==> !proof_is_valid(last_proof, q, last_hash)
}

/// `proof` is the smallest solution of the puzzle.
pub open spec fn is_least_proof(last_proof: nat, last_hash: Seq<char>, proof: nat) -> bool {
    proof_is_valid(last_proof, proof, last_hash) && no_proof_below(last_proof, last_hash, proof)
}

/// The link between two neighbours of a chain: the later block stores the
/// digest of the earlier one, and its proof solves the puzzle that the
/// earlier block's proof and stored `previous_hash` set.
pub open spec fn link_holds(earlier: BlockView, later: BlockView) -> bool {
    later.previous_hash == block_hash(earlier) && proof_is_valid(
        earlier.proof,
        later.proof,
        earlier.previous_hash,
    )
}

/// The link holds between the block at `i` and the one before it.
pub open spec fn link_holds_at(chain: Seq<BlockView>, i: int) -> bool {
    link_holds(chain[i - 1], chain[i])
}

/// A chain is valid when the link holds between each two neighbours. A
/// chain of at most one block is valid.
pub open spec fn chain_is_valid(chain: Seq<BlockView>) -> bool {
    forall|i: int| 0 < i < chain.len() ==> #[trigger] link_holds_at(chain, i)
}

/// The index of the block at `i` is one more than that of the block before
/// it.
pub open spec fn index_follows_at(chain: Seq<BlockView>, i: int) -> bool {
    chain[i].index == chain[i - 1].index + 1
}

/// Tests whether `digest` ends in four zero characters.
pub fn has_zero_suffix(digest: &str) -> (yes: bool)
    ensures
        yes == ends_in_four_zeros(digest@),
{
    let n = digest.unicode_len();
    if n < 4 {
        return false;
    }
    let yes = digest.get_char(n - 1) == '0' && digest.get_char(n - 2) == '0' && digest.get_char(
        n - 3,
    ) == '0' && digest.get_char(n - 4) == '0';
    proof {
        let zeros = seq!['0', '0', '0', '0'];
        let tail = digest@.subrange(n - 4, n as int);
        if yes {
            assert(zeros =~= tail);
        } else {
            assert(tail[0] == digest@[n - 4]);
            assert(tail[1] == digest@[n - 3]);
            assert(tail[2] == digest@[n - 2]);
            assert(tail[3] == digest@[n - 1]);
        }
    }
    yes
}

/// The ledger of one node: the chain, the pool of pending transactions and
/// the peers.
///
/// `nodes` holds the canonical `host:port` of each peer once, in the order
/// of registration.
#[derive(Debug)]
pub struct Blockchain {
    pub chain: Vec<Block>,
    pub current_transaction: Vec<Transaction>,
    pub nodes: Vec<String>,
}

/// What a [`Blockchain`] holds.
pub struct BlockchainView {
    pub chain: Seq<BlockView>,
    pub pending: Seq<TransactionView>,
    pub peers: Seq<Seq<char>>,
}

impl View for Blockchain {
    type V = BlockchainView;

    open spec fn view(&self) -> BlockchainView {
        BlockchainView {
            chain: block_views(self.chain@),
            pending: transaction_views(self.current_transaction@),
            peers: texts(self.nodes@),
        }
    }
}

/// The `previous_hash` that the genesis block stores.
pub open spec fn genesis_hash() -> Seq<char> {
    "0"@
}

/// The proof that the genesis block stores.
pub open spec fn genesis_proof() -> nat {
    100
}

/// The `previous_hash` of a block that is made without one.
pub open spec fn default_hash() -> Seq<char> {
    "1"@
}

/// The text of an optional `previous_hash`.
pub open spec fn hash_or_default(previous_hash: Option<&str>) -> Seq<char> {
    match previous_hash {
        Some(h) => h@,
        None => default_hash(),
    }
}

/// The transaction that rewards a miner: one unit from the sender `"0"`.
pub open spec fn reward(miner: Seq<char>) -> TransactionView {
    TransactionView { sender: "0"@, recipient: miner, amount: 1 }
}

impl BlockchainView {
    /// The index of the block that comes next: one more than that of the
    /// last block, and 1 on an empty chain.
    pub open spec fn next_index(self) -> nat {
        if self.chain.len() == 0 {
            1
        } else {
            self.chain.last().index + 1
        }
    }

    /// The ledger with `t` at the end of the pool.
    pub open spec fn with_transaction(self, t: TransactionView) -> BlockchainView {
        BlockchainView { pending: self.pending.push(t), ..self }
    }

    /// The block that takes the whole pool.
    pub open spec fn next_block(
        self,
        proof: nat,
        previous_hash: Seq<char>,
        timestamp: Seq<char>,
    ) -> BlockView {
        BlockView {
            index: self.next_index(),
            timestamp,
            transactions: self.pending,
            proof,
            previous_hash,
        }
    }

    /// The ledger after the pool was emptied into a new last block.
    pub open spec fn with_block(
        self,
        proof: nat,
        previous_hash: Seq<char>,
        timestamp: Seq<char>,
    ) -> BlockchainView {
        BlockchainView {
            chain: self.chain.push(self.next_block(proof, previous_hash, timestamp)),
            pending: Seq::empty(),
            peers: self.peers,
        }
    }

    /// The ledger after a block was mined on it with `proof`: the reward
    /// joins the pool, and the pool goes into a block that stores the
    /// digest of the block that was last.
    pub open spec fn mined(
        self,
        miner: Seq<char>,
        proof: nat,
        timestamp: Seq<char>,
    ) -> BlockchainView
        recommends
            self.chain.len() > 0,
    {
        self.with_transaction(reward(miner)).with_block(
            proof,
            block_hash(self.chain.last()),
            timestamp,
        )
    }

    /// The ledger after `netloc` was registered as a peer.
    pub open spec fn with_peer(self, netloc: Seq<char>) -> BlockchainView {
        BlockchainView { peers: with_peer(self.peers, netloc), ..self }
    }

    /// The ledger with another chain in place of its own.
    pub open spec fn with_chain(self, chain: Seq<BlockView>) -> BlockchainView {
        BlockchainView { chain, ..self }
    }

    /// The fresh ledger: the genesis block alone, made at `timestamp`.
    pub open spec fn fresh(timestamp: Seq<char>) -> BlockchainView {
        BlockchainView {
            chain: seq![
                BlockView {
                    index: 1,
                    timestamp,
                    transactions: Seq::empty(),
                    proof: genesis_proof(),
                    previous_hash: genesis_hash(),
                },
            ],
            pending: Seq::empty(),
            peers: Seq::empty(),
        }
    }

    /// What holds of a ledger that was made fresh and then submitted to,
    /// mined on and told of peers: the chain is not empty, the indices go
    /// up by one, the chain is valid, and no peer occurs twice.
    /// Reconciliation keeps the chain valid; the rest is as the winner's
    /// chain has it.
    pub open spec fn well_formed(self) -> bool {
        &&& self.chain.len() > 0
        &&& forall|i: int| 0 < i < self.chain.len() ==> #[trigger] index_follows_at(self.chain, i)
        &&& chain_is_valid(self.chain)
        &&& self.peers.no_duplicates()
    }
}

/// The answers of the peers, each by what it holds. A peer that could not
/// be reached, or whose answer could not be read, has `None`.
pub open spec fn response_views(responses: Seq<Option<Chain>>) -> Seq<Option<ChainView>> {
    Seq::new(
        responses.len(),
        |i: int|
            match responses[i] {
                Some(c) => Some(c@),
                None => None,
            },
    )
}

/// A peer's answer can replace a chain of `local_len` blocks: the peer
/// answered, it reports more than `local_len` blocks, and its chain is
/// valid.
pub open spec fn qualifies(local_len: nat, response: Option<ChainView>) -> bool {
    match response {
        Some(c) => c.length > local_len && chain_is_valid(c.chain),
        None => false,
    }
}

/// The length that an answer reports, and 0 where there is no answer.
pub open spec fn reported_length(response: Option<ChainView>) -> nat {
    match response {
        Some(c) => c.length,
        None => 0,
    }
}

/// The answer at `i` wins against a chain of `local_len` blocks: it
/// qualifies, no qualifying answer reports more, and every qualifying answer
/// before it reports less. Among answers that report the same greatest
/// length, the first in the order of `responses` wins.
pub open spec fn is_winner(local_len: nat, responses: Seq<Option<ChainView>>, i: int) -> bool {
    &&& 0 <= i < responses.len()
    &&& qualifies(local_len, responses[i])
    &&& forall|j: int|
        0 <= j < responses.len() && qualifies(local_len, #[trigger] responses[j])
            ==> reported_length(responses[j]) <= reported_length(responses[i])
    &&& forall|j: int|
        0 <= j < i && qualifies(local_len, #[trigger] responses[j]) ==> reported_length(
            responses[j],
        ) < reported_length(responses[i])
}

/// What reconciliation makes of a ledger: `after` is the ledger `before`
/// with the chain of the winner among `responses`, and `replaced` is true;
/// or no answer qualifies, `after` is `before`, and `replaced` is false.
pub open spec fn is_resolution(
    before: BlockchainView,
    responses: Seq<Option<ChainView>>,
    after: BlockchainView,
    replaced: bool,
) -> bool {
    if replaced {
        exists|i: int|
            is_winner(before.chain.len(), responses, i) && after == before.with_chain(
                (#[trigger] responses[i]).unwrap().chain,
            )
    } else {
        after == before && forall|i: int|
            0 <= i < responses.len() ==> !qualifies(before.chain.len(), #[trigger] responses[i])
    }
}

/// A fresh ledger is well formed, and its chain is the genesis block.
pub proof fn lemma_fresh_well_formed(genesis_time: Seq<char>)
    ensures
        BlockchainView::fresh(genesis_time).well_formed(),
        BlockchainView::fresh(genesis_time).chain.len() == 1,
{
}

/// A new last block keeps a ledger well formed where the link holds
/// between the block that was last and the new one.
pub proof fn lemma_linked_block_well_formed(
    ledger: BlockchainView,
    proof: nat,
    previous_hash: Seq<char>,
    timestamp: Seq<char>,
)
    requires
        ledger.well_formed(),
        link_holds(ledger.chain.last(), ledger.next_block(proof, previous_hash, timestamp)),
    ensures
        ledger.with_block(proof, previous_hash, timestamp).well_formed(),
        ledger.with_block(proof, previous_hash, timestamp).chain.len() == ledger.chain.len() + 1,
{
    let after = ledger.with_block(proof, previous_hash, timestamp);
    let n = ledger.chain.len() as int;
    assert forall|i: int| 0 < i < after.chain.len() implies #[trigger] index_follows_at(
        after.chain,
        i,
    ) by {
        if i < n {
            assert(index_follows_at(ledger.chain, i));
        }
    }
    assert forall|i: int| 0 < i < after.chain.len() implies #[trigger] link_holds_at(
        after.chain,
        i,
    ) by {
        if i < n {
            assert(link_holds_at(ledger.chain, i));
        }
    }
}

/// Mining with a proof that solves the puzzle of the last block keeps a
/// ledger well formed, and makes the chain one block longer.
pub proof fn lemma_mined_well_formed(
    ledger: BlockchainView,
    miner: Seq<char>,
    proof: nat,
    timestamp: Seq<char>,
)
    requires
        ledger.well_formed(),
        proof_is_valid(ledger.chain.last().proof, proof, ledger.chain.last().previous_hash),
    ensures
        ledger.mined(miner, proof, timestamp).well_formed(),
        ledger.mined(miner, proof, timestamp).chain.len() == ledger.chain.len() + 1,
{
    lemma_linked_block_well_formed(
        ledger.with_transaction(reward(miner)),
        proof,
        block_hash(ledger.chain.last()),
        timestamp,
    );
}

/// The smallest proof is one: two proofs that are both the smallest
/// solution of a puzzle are equal.
pub proof fn lemma_least_proof_unique(last_proof: nat, last_hash: Seq<char>, p: nat, q: nat)
    requires
        is_least_proof(last_proof, last_hash, p),
        is_least_proof(last_proof, last_hash, q),
    ensures
        p == q,
{
}

/// The digest depends on what a block holds and on nothing else: two
/// blocks with the same fields have the same canonical wire form and the
/// same digest.
pub proof fn lemma_hash_deterministic(a: Block, b: Block)
    requires
        a.index == b.index,
        a.timestamp@ == b.timestamp@,
        a.transactions@.len() == b.transactions@.len(),
        forall|i: int|
            0 <= i < a.transactions@.len() ==> (#[trigger] a.transactions@[i])@
                == b.transactions@[i]@,
        a.proof == b.proof,
        a.previous_hash@ == b.previous_hash@,
    ensures
        block_json(a@) == block_json(b@),
        block_hash(a@) == block_hash(b@),
{
    assert(a@.transactions =~= b@.transactions);
}

/// At most one answer wins.
pub proof fn lemma_winner_unique(
    local_len: nat,
    responses: Seq<Option<ChainView>>,
    i: int,
    j: int,
)
    requires
        is_winner(local_len, responses, i),
        is_winner(local_len, responses, j),
    ensures
        i == j,
{
}

/// Reconciliation has one outcome: the answers of the peers decide whether
/// the chain is replaced, and by which chain.
pub proof fn lemma_resolution_unique(
    before: BlockchainView,
    responses: Seq<Option<ChainView>>,
    after1: BlockchainView,
    replaced1: bool,
    after2: BlockchainView,
    replaced2: bool,
)
    requires
        is_resolution(before, responses, after1, replaced1),
        is_resolution(before, responses, after2, replaced2),
    ensures
        replaced1 == replaced2,
        after1 == after2,
{
    if replaced1 {
        let i = choose|i: int|
            is_winner(before.chain.len(), responses, i) && after1 == before.with_chain(
                (#[trigger] responses[i]).unwrap().chain,
            );
        if replaced2 {
            let j = choose|j: int|
                is_winner(before.chain.len(), responses, j) && after2 == before.with_chain(
                    (#[trigger] responses[j]).unwrap().chain,
                );
            lemma_winner_unique(before.chain.len(), responses, i, j);
        }
    } else if replaced2 {
        let j = choose|j: int|
            is_winner(before.chain.len(), responses, j) && after2 == before.with_chain(
                (#[trigger] responses[j]).unwrap().chain,
            );
    }
}

/// Reconciliation keeps a valid chain valid, and touches neither the pool
/// nor the peers.
pub proof fn lemma_resolution_keeps_valid(
    before: BlockchainView,
    responses: Seq<Option<ChainView>>,
    after: BlockchainView,
    replaced: bool,
)
    requires
        chain_is_valid(before.chain),
        is_resolution(before, responses, after, replaced),
    ensures
        chain_is_valid(after.chain),
        after.pending == before.pending,
        after.peers == before.peers,
{
}

/// Reconciliation does not shorten the chain, unless the winner holds
/// fewer blocks than the chain has. Only an answer that reports more blocks
/// than it holds can win in that way.
pub proof fn lemma_resolution_never_shrinks(
    before: BlockchainView,
    responses: Seq<Option<ChainView>>,
    after: BlockchainView,
    replaced: bool,
)
    requires
        is_resolution(before, responses, after, replaced),
        forall|i: int|
            is_winner(before.chain.len(), responses, i)
                ==> (#[trigger] responses[i]).unwrap().chain.len() >= before.chain.len(),
    ensures
        after.chain.len() >= before.chain.len(),
{
}

/// Where every qualifying answer holds at least as many blocks as it
/// reports, a reconciliation that replaces the chain makes it longer.
pub proof fn lemma_honest_resolution_grows(
    before: BlockchainView,
    responses: Seq<Option<ChainView>>,
    after: BlockchainView,
    replaced: bool,
)
    requires
        is_resolution(before, responses, after, replaced),
        forall|i: int|
            0 <= i < responses.len() && qualifies(before.chain.len(), #[trigger] responses[i])
                ==> reported_length(responses[i]) <= responses[i].unwrap().chain.len(),
    ensures
        replaced ==> after.chain.len() > before.chain.len(),
        !replaced ==> after == before,
{
}

/// A peer address that has no canonical `host:port` form.
#[derive(Debug, PartialEq, Eq)]
pub struct InvalidAddress;

impl Blockchain {
    /// The digest of `block`.
    pub fn hash(block: &Block) -> (digest: String)
        ensures
            digest@ == block_hash(block@),
            digest@.len() == digest_len(),
    {
        let serialized = canonical_json(block);
        sha256_hex_digest(serialized.as_str().as_bytes())
    }

    /// Tests the proof-of-work predicate.
    pub fn valid_proof(last_proof: u64, proof: u64, last_hash: &String) -> (valid: bool)
        ensures
            valid == proof_is_valid(last_proof as nat, proof as nat, last_hash@),
    {
        let mut guess = String::new();
        push_decimal(&mut guess, last_proof);
        push_decimal(&mut guess, proof);
        guess.append(last_hash.as_str());
        let guess_hash = sha256_hex_digest(guess.as_str().as_bytes());
        has_zero_suffix(guess_hash.as_str())
    }

    /// Searches for the smallest proof that solves the puzzle set by
    /// `last_block`, upwards from zero. `None` means that no 64-bit proof
    /// solves it.
    pub fn proof_of_work(last_block: &Block) -> (found: Option<u64>)
        ensures
            match found {
                Some(proof) => is_least_proof(
                    last_block@.proof,
                    last_block@.previous_hash,
                    proof as nat,
                ),
                None => no_proof_below(
                    last_block@.proof,
                    last_block@.previous_hash,
                    u64::MAX as nat + 1,
                ),
            },
    {
        let last_proof = last_block.proof;
        let last_hash = &last_block.previous_hash;
        let mut proof: u64 = 0;
        loop
            invariant
                last_proof == last_block.proof,
                last_hash@ == last_block.previous_hash@,
                no_proof_below(last_proof as nat, last_hash@, proof as nat),
            decreases u64::MAX - proof,
        {
            if Self::valid_proof(last_proof, proof, last_hash) {
                return Some(proof);
            }
            if proof == u64::MAX {
                return None;
            }
            proof += 1;
        }
    }

    /// Tests whether `chain` is valid. In a valid chain every block but
    /// the first stores a text of the length of a digest, so a block that
    /// was made without a `previous_hash` makes a chain invalid wherever it
    /// is not the first.
    pub fn valid_chain(&self, chain: &[Block]) -> (valid: bool)
        ensures
            valid == chain_is_valid(block_views(chain@)),
            valid ==> forall|i: int|
                0 < i < chain@.len() ==> (#[trigger] chain@[i]).previous_hash@.len()
                    == digest_len(),
    {
        let ghost blocks = block_views(chain@);
        let mut current_index: usize = 1;
        while current_index < chain.len()
            invariant
                1 <= current_index,
                blocks == block_views(chain@),
                forall|i: int|
                    0 < i < current_index && i < chain.len() ==> #[trigger] link_holds_at(
                        blocks,
                        i,
                    ),
                forall|i: int|
                    0 < i < current_index && i < chain.len() ==> (
                    #[trigger] chain@[i]).previous_hash@.len() == digest_len(),
            decreases chain.len() - current_index,
        {
            let last_block = &chain[current_index - 1];
            let block = &chain[current_index];
            proof {
                assert(blocks[current_index as int] == block@);
                assert(blocks[current_index - 1] == last_block@);
            }
            if !(block.previous_hash == Blockchain::hash(last_block)) {
                proof {
                    assert(!link_holds_at(blocks, current_index as int));
                }
                return false;
            }
            if !Blockchain::valid_proof(last_block.proof, block.proof, &last_block.previous_hash) {
                proof {
                    assert(!link_holds_at(blocks, current_index as int));
                }
                return false;
            }
            proof {
                assert(link_holds_at(blocks, current_index as int));
            }
            current_index += 1;
        }
        true
    }

    /// A fresh ledger, whose genesis block carries the time of the call.
    pub fn new() -> (ledger: Blockchain)
        ensures
            ledger@ == BlockchainView::fresh(ledger@.chain[0].timestamp),
            ledger@.well_formed(),
    {
        Self::new_at(utc_now_text())
    }

    /// A fresh ledger, whose genesis block carries `timestamp`.
    pub fn new_at(timestamp: String) -> (ledger: Blockchain)
        ensures
            ledger@ == BlockchainView::fresh(timestamp@),
            ledger@.well_formed(),
    {
        let mut blockchain = Blockchain {
            chain: Vec::new(),
            current_transaction: Vec::new(),
            nodes: Vec::new(),
        };
        proof {
            assert(blockchain@.chain =~= Seq::empty());
            assert(blockchain@.pending =~= Seq::empty());
        }
        blockchain.new_block_at(100, Some("0"), timestamp);
        proof {
            let fresh = BlockchainView::fresh(timestamp@);
            assert(blockchain@.chain =~= fresh.chain);
            assert(blockchain@.pending =~= fresh.pending);
            assert(blockchain@.peers =~= fresh.peers);
        }
        blockchain
    }

    /// Empties the pool into a new last block, which carries the time of
    /// the call, and returns a copy of the block. Without a
    /// `previous_hash` the block stores `"1"`.
    pub fn new_block(&mut self, proof: u64, previous_hash: Option<&str>) -> (block: Block)
        requires
            old(self)@.next_index() <= u64::MAX,
        ensures
            final(self)@ == old(self)@.with_block(
                proof as nat,
                hash_or_default(previous_hash),
                block@.timestamp,
            ),
            block@ == final(self)@.chain.last(),
            old(self)@.well_formed() && link_holds(old(self)@.chain.last(), block@)
                ==> final(self)@.well_formed(),
    {
        self.new_block_at(proof, previous_hash, utc_now_text())
    }

    /// Empties the pool into a new last block, which carries `timestamp`,
    /// and returns a copy of the block. Without a `previous_hash` the
    /// block stores `"1"`.
    pub fn new_block_at(
        &mut self,
        proof: u64,
        previous_hash: Option<&str>,
        timestamp: String,
    ) -> (block: Block)
        requires
            old(self)@.next_index() <= u64::MAX,
        ensures
            final(self)@ == old(self)@.with_block(
                proof as nat,
                hash_or_default(previous_hash),
                timestamp@,
            ),
            block@ == final(self)@.chain.last(),
            old(self)@.well_formed() && link_holds(old(self)@.chain.last(), block@)
                ==> final(self)@.well_formed(),
    {
        let index: u64 = if self.chain.len() == 0 {
            1
        } else {
            self.chain[self.chain.len() - 1].index + 1
        };
        let mut transactions: Vec<Transaction> = Vec::new();
        core::mem::swap(&mut self.current_transaction, &mut transactions);
        let stored_hash = match previous_hash {
            Some(h) => h.to_owned(),
            None => "1".to_owned(),
        };
        let block = Block { index, timestamp, transactions, proof, previous_hash: stored_hash };
        let copy = block.clone();
        self.chain.push(block);
        proof {
            assert(self@.chain =~= old(self)@.chain.push(block@));
            assert(self@.pending =~= Seq::empty());
            if old(self)@.well_formed() && link_holds(old(self)@.chain.last(), block@) {
                lemma_linked_block_well_formed(
                    old(self)@,
                    proof as nat,
                    hash_or_default(previous_hash),
                    timestamp@,
                );
            }
        }
        copy
    }

    /// Puts a transaction at the end of the pool and returns the index of
    /// the block that it will go into.
    pub fn new_transaction(&mut self, sender: &str, recipient: &str, amount: i64) -> (index: u64)
        requires
            old(self)@.next_index() <= u64::MAX,
        ensures
            final(self)@ == old(self)@.with_transaction(
                TransactionView { sender: sender@, recipient: recipient@, amount: amount as int },
            ),
            index == old(self)@.next_index(),
            old(self)@.well_formed() ==> final(self)@.well_formed(),
    {
        let transaction = Transaction {
            sender: sender.to_owned(),
            recipient: recipient.to_owned(),
            amount,
        };
        self.current_transaction.push(transaction);
        proof {
            assert(self@.pending =~= old(self)@.pending.push(transaction@));
        }
        if self.chain.len() == 0 {
            1
        } else {
            self.chain[self.chain.len() - 1].index + 1
        }
    }

    /// The last block of the chain.
    pub fn last_block(&self) -> (last: Option<&Block>)
        ensures
            match last {
                Some(block) => self.chain@.len() > 0 && *block == self.chain@.last(),
                None => self.chain@.len() == 0,
            },
    {
        if self.chain.len() == 0 {
            None
        } else {
            Some(&self.chain[self.chain.len() - 1])
        }
    }

    /// Mines a block: finds the smallest proof for the last block, puts
    /// the reward for `miner_id` at the end of the pool, and empties the
    /// pool into a new last block, which stores the digest of the block
    /// that was last and carries the time at which the search ended.
    /// Returns a copy of the new block.
    ///
    /// `None` means that no 64-bit proof solves the puzzle; the ledger is
    /// then as it was.
    pub fn mine(&mut self, miner_id: &str) -> (mined: Option<Block>)
        requires
            old(self)@.chain.len() > 0,
            old(self)@.next_index() <= u64::MAX,
        ensures
            match mined {
                Some(block) => {
                    &&& is_least_proof(
                        old(self)@.chain.last().proof,
                        old(self)@.chain.last().previous_hash,
                        block@.proof,
                    )
                    &&& final(self)@ == old(self)@.mined(miner_id@, block@.proof, block@.timestamp)
                    &&& block@ == final(self)@.chain.last()
                    &&& block@.index == old(self)@.chain.last().index + 1
                    &&& block@.transactions == old(self)@.pending.push(reward(miner_id@))
                    &&& block@.previous_hash == block_hash(old(self)@.chain.last())
                    &&& old(self)@.well_formed() ==> final(self)@.well_formed()
                },
                None => {
                    &&& no_proof_below(
                        old(self)@.chain.last().proof,
                        old(self)@.chain.last().previous_hash,
                        u64::MAX as nat + 1,
                    )
                    &&& *final(self) == *old(self)
                },
            },
    {
        let last_block = &self.chain[self.chain.len() - 1];
        match Self::proof_of_work(last_block) {
            Some(proof) => {
                let previous_hash = Self::hash(last_block);
                self.new_transaction("0", miner_id, 1);
                Some(self.new_block(proof, Some(previous_hash.as_str())))
            },
            None => None,
        }
    }

    /// Mines a block as [`Blockchain::mine`] does, but the new block
    /// carries `timestamp`.
    pub fn mine_at(&mut self, miner_id: &str, timestamp: String) -> (mined: Option<Block>)
        requires
            old(self)@.chain.len() > 0,
            old(self)@.next_index() <= u64::MAX,
        ensures
            match mined {
                Some(block) => {
                    &&& is_least_proof(
                        old(self)@.chain.last().proof,
                        old(self)@.chain.last().previous_hash,
                        block@.proof,
                    )
                    &&& final(self)@ == old(self)@.mined(miner_id@, block@.proof, timestamp@)
                    &&& block@ == final(self)@.chain.last()
                    &&& block@.index == old(self)@.chain.last().index + 1
                    &&& block@.transactions == old(self)@.pending.push(reward(miner_id@))
                    &&& block@.previous_hash == block_hash(old(self)@.chain.last())
                    &&& old(self)@.well_formed() ==> final(self)@.well_formed()
                },
                None => {
                    &&& no_proof_below(
                        old(self)@.chain.last().proof,
                        old(self)@.chain.last().previous_hash,
                        u64::MAX as nat + 1,
                    )
                    &&& *final(self) == *old(self)
                },
            },
    {
        let last_block = &self.chain[self.chain.len() - 1];
        match Self::proof_of_work(last_block) {
            Some(proof) => {
                let previous_hash = Self::hash(last_block);
                self.new_transaction("0", miner_id, 1);
                Some(self.new_block_at(proof, Some(previous_hash.as_str()), timestamp))
            },
            None => None,
        }
    }

    /// Registers the peer with the canonical address `netloc`, unless it
    /// is registered already. Tells whether the peer is new.
    pub fn register_netloc(&mut self, netloc: String) -> (added: bool)
        ensures
            final(self)@ == old(self)@.with_peer(netloc@),
            added == !is_known_peer(old(self)@.peers, netloc@),
            old(self)@.well_formed() ==> final(self)@.well_formed(),
    {
        let mut i: usize = 0;
        while i < self.nodes.len()
            invariant
                i <= self.nodes.len(),
                *self == *old(self),
                forall|k: int| 0 <= k < i ==> self.nodes@[k]@ != netloc@,
            decreases self.nodes.len() - i,
        {
            if self.nodes[i] == netloc {
                proof {
                    assert(self@.peers[i as int] == netloc@);
                }
                return false;
            }
            i += 1;
        }
        self.nodes.push(netloc);
        proof {
            assert(self@.peers =~= old(self)@.peers.push(netloc@));
            if old(self)@.well_formed() {
                lemma_with_peer_distinct(old(self)@.peers, netloc@);
            }
        }
        true
    }

    /// Registers the peer at `address`, a full URL or a bare `host:port`,
    /// under its canonical address. A malformed address is refused, and
    /// the ledger is then as it was.
    pub fn register_node(&mut self, address: &str) -> (done: Result<(), InvalidAddress>)
        ensures
            match canonical_peer(address@) {
                Some(netloc) => done is Ok && final(self)@ == old(self)@.with_peer(netloc),
                None => done is Err && *final(self) == *old(self),
            },
            old(self)@.well_formed() ==> final(self)@.well_formed(),
    {
        match canonical_address(address) {
            Some(netloc) => {
                self.register_netloc(netloc);
                Ok(())
            },
            None => Err(InvalidAddress),
        }
    }

    /// The addresses at which the peers serve their chains, in the order
    /// of the peers. The answers to these, in this order, are what
    /// [`Blockchain::resolve_conflicts`] takes.
    pub fn chain_urls(&self) -> (urls: Vec<String>)
        ensures
            urls@.len() == self@.peers.len(),
            forall|i: int|
                0 <= i < urls@.len() ==> (#[trigger] urls@[i])@ == chain_url_text(self@.peers[i]),
    {
        let mut urls: Vec<String> = Vec::new();
        let mut i: usize = 0;
        while i < self.nodes.len()
            invariant
                i <= self.nodes.len(),
                urls@.len() == i,
                forall|k: int|
                    0 <= k < i ==> (#[trigger] urls@[k])@ == chain_url_text(self@.peers[k]),
            decreases self.nodes.len() - i,
        {
            urls.push(chain_url(self.nodes[i].as_str()));
            i += 1;
        }
        urls
    }

    /// Replaces the chain by the winner among the answers of the peers, if
    /// there is one, and tells whether it did.
    ///
    /// An answer qualifies if it reports more blocks than the chain has and
    /// its chain is valid. Among the qualifying answers the one that
    /// reports the most blocks wins, and the first of them in the order of
    /// `responses` where several report as many. A peer that did not answer
    /// has `None` and is passed over.
    pub fn resolve_conflicts(&mut self, responses: &Vec<Option<Chain>>) -> (replaced: bool)
        ensures
            is_resolution(old(self)@, response_views(responses@), final(self)@, replaced),
            !replaced ==> *final(self) == *old(self),
            chain_is_valid(old(self)@.chain) ==> chain_is_valid(final(self)@.chain),
    {
        let ghost answers = response_views(responses@);
        let ghost local_len = self@.chain.len();
        let mut max_length: usize = self.chain.len();
        let mut new_chain: Option<&Chain> = None;
        let ghost mut winner: int = -1;
        let mut i: usize = 0;
        while i < responses.len()
            invariant
                i <= responses.len(),
                *self == *old(self),
                answers == response_views(responses@),
                local_len == old(self)@.chain.len(),
                -1 <= winner < i,
                winner == -1 <==> new_chain is None,
                winner == -1 ==> max_length == local_len,
                winner >= 0 ==> responses@[winner] == Some(*new_chain.unwrap()),
                winner >= 0 ==> qualifies(local_len, answers[winner]),
                winner >= 0 ==> max_length == reported_length(answers[winner]),
                forall|j: int|
                    0 <= j < i && qualifies(local_len, #[trigger] answers[j]) ==> winner >= 0
                        && reported_length(answers[j]) <= max_length,
                forall|j: int|
                    0 <= j < winner && qualifies(local_len, #[trigger] answers[j])
                        ==> reported_length(answers[j]) < max_length,
            decreases responses.len() - i,
        {
            match &responses[i] {
                Some(node_chain) => {
                    if node_chain.length > max_length && self.valid_chain(
                        node_chain.chain.as_slice(),
                    ) {
                        max_length = node_chain.length;
                        new_chain = Some(node_chain);
                        proof {
                            winner = i as int;
                        }
                    }
                },
                None => {},
            }
            i += 1;
        }
        match new_chain {
            Some(adopted) => {
                self.chain = clone_blocks(&adopted.chain);
                proof {
                    assert(is_winner(local_len, answers, winner));
                    assert(self@ == old(self)@.with_chain(answers[winner].unwrap().chain));
                }
                true
            },
            None => false,
        }
    }
}

impl Default for Blockchain {
    /// The empty ledger: no block, no pending transaction, no peer.
    fn default() -> (ledger: Blockchain)
        ensures
            ledger@.chain.len() == 0,
            ledger@.pending.len() == 0,
            ledger@.peers.len() == 0,
    {
        Blockchain { chain: Vec::new(), current_transaction: Vec::new(), nodes: Vec::new() }
    }
}

} // verus!
