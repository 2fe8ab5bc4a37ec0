//! Histories of a ledger: what holds of every ledger that was made fresh and
//! then only submitted to, mined on and told of peers.

use crate::blockchain::{
    chain_is_valid, is_least_proof, lemma_fresh_well_formed, lemma_mined_well_formed, reward,
    BlockchainView, TransactionView,
};
use crate::peer::lemma_with_peer_distinct;
use vstd::prelude::*;

verus! {

/// One operation on a ledger.
pub enum Operation {
    /// A transaction joins the pool.
    Submit { transaction: TransactionView },
    /// A block is mined for `miner` with `proof`, and carries `timestamp`.
    Mine { miner: Seq<char>, proof: nat, timestamp: Seq<char> },
    /// The peer with the canonical address `netloc` is registered.
    Register { netloc: Seq<char> },
}

/// Whether `operation` can be made on `ledger`: a block is mined only with
/// the smallest proof for the last block.
pub open spec fn may_follow(ledger: BlockchainView, operation: Operation) -> bool {
    match operation {
        Operation::Mine { miner, proof, timestamp } => ledger.chain.len() > 0 && is_least_proof(
            ledger.chain.last().proof,
            ledger.chain.last().previous_hash,
            proof,
        ),
        _ => true,
    }
}

/// The ledger after `operation`.
pub open spec fn apply(ledger: BlockchainView, operation: Operation) -> BlockchainView {
    match operation {
        Operation::Submit { transaction } => ledger.with_transaction(transaction),
        Operation::Mine { miner, proof, timestamp } => ledger.mined(miner, proof, timestamp),
        Operation::Register { netloc } => ledger.with_peer(netloc),
    }
}

/// The ledger that was made fresh at `genesis_time` and then went through
/// `operations`, in order.
pub open spec fn replay(genesis_time: Seq<char>, operations: Seq<Operation>) -> BlockchainView
    decreases operations.len(),
{
    if operations.len() == 0 {
        BlockchainView::fresh(genesis_time)
    } else {
        apply(replay(genesis_time, operations.drop_last()), operations.last())
    }
}

/// Each of `operations` can be made on the ledger that the ones before it
/// leave.
pub open spec fn is_history(genesis_time: Seq<char>, operations: Seq<Operation>) -> bool
    decreases operations.len(),
{
    operations.len() == 0 || (is_history(genesis_time, operations.drop_last()) && may_follow(
        replay(genesis_time, operations.drop_last()),
        operations.last(),
    ))
}

/// The ledger with each of `transactions` put at the end of the pool, in
/// order.
pub open spec fn with_transactions(
    ledger: BlockchainView,
    transactions: Seq<TransactionView>,
) -> BlockchainView
    decreases transactions.len(),
{
    if transactions.len() == 0 {
        ledger
    } else {
        with_transactions(ledger, transactions.drop_last()).with_transaction(transactions.last())
    }
}

/// Every ledger with a history is well formed; in particular its chain is
/// valid, however many blocks were mined on it.
pub proof fn lemma_history_well_formed(genesis_time: Seq<char>, operations: Seq<Operation>)
    requires
        is_history(genesis_time, operations),
    ensures
        replay(genesis_time, operations).well_formed(),
        chain_is_valid(replay(genesis_time, operations).chain),
    decreases operations.len(),
{
    if operations.len() == 0 {
        lemma_fresh_well_formed(genesis_time);
    } else {
        let before = replay(genesis_time, operations.drop_last());
        lemma_history_well_formed(genesis_time, operations.drop_last());
        match operations.last() {
            Operation::Submit { transaction } => {},
            Operation::Mine { miner, proof, timestamp } => {
                lemma_mined_well_formed(before, miner, proof, timestamp);
            },
            Operation::Register { netloc } => {
                lemma_with_peer_distinct(before.peers, netloc);
            },
        }
    }
}

/// Submissions reach the pool in their order, behind what it held.
pub proof fn lemma_submissions_in_order(ledger: BlockchainView, transactions: Seq<TransactionView>)
    ensures
        with_transactions(ledger, transactions).pending == ledger.pending + transactions,
        with_transactions(ledger, transactions).chain == ledger.chain,
        with_transactions(ledger, transactions).peers == ledger.peers,
    decreases transactions.len(),
{
    if transactions.len() == 0 {
        assert(ledger.pending + transactions =~= ledger.pending);
    } else {
        lemma_submissions_in_order(ledger, transactions.drop_last());
        assert(ledger.pending + transactions =~= (ledger.pending
            + transactions.drop_last()).push(transactions.last()));
    }
}

/// The block that is mined after some submissions holds what the pool held
/// before them, then the submissions in their order, then the reward of
/// the miner; and the pool is empty afterwards.
pub proof fn lemma_mined_block_holds_submissions(
    ledger: BlockchainView,
    transactions: Seq<TransactionView>,
    miner: Seq<char>,
    proof: nat,
    timestamp: Seq<char>,
)
    ensures
        with_transactions(ledger, transactions).mined(
            miner,
            proof,
            timestamp,
        ).chain.last().transactions == (ledger.pending + transactions).push(reward(miner)),
        with_transactions(ledger, transactions).mined(miner, proof, timestamp).pending.len() == 0,
{
    lemma_submissions_in_order(ledger, transactions);
}

} // verus!
