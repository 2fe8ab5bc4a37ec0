//! What a node answers to its clients and peers: the requests and responses
//! of the service, and the ledger operation behind each of them.

use crate::blockchain::{
    block_hash, block_views, chain_is_valid, clone_blocks, is_least_proof, is_resolution,
    no_proof_below,
    response_views, reward, transaction_views, Block, BlockView, Blockchain, Transaction,
    TransactionView,
};
use crate::peer::{canonical_address, canonical_peer, texts, with_peers};
use crate::text::{decimal_text, push_decimal};
use vstd::prelude::*;

verus! {

/// A request to submit a transaction.
#[derive(Debug, PartialEq, Eq)]
pub struct TransactionRequest {
    pub sender: String,
    pub recipient: String,
    pub amount: i64,
}

/// A request to register peers, each by its address.
#[derive(Debug, PartialEq, Eq)]
pub struct RegisterRequest {
    pub nodes: Vec<String>,
}

/// The answer to a registration: the peers that the node now knows.
#[derive(Debug, PartialEq, Eq)]
pub struct RegisterResponse {
    pub message: String,
    pub total_nodes: Vec<String>,
}

/// The answer to a reconciliation: the chain that the node now holds.
#[derive(Debug, PartialEq, Eq)]
pub struct ResolveResponse {
    pub message: String,
    pub chain: Vec<Block>,
}

/// An answer that is a message alone.
#[derive(Debug, PartialEq, Eq)]
pub struct MessageResponse {
    pub message: String,
}

/// The answer to a request to mine: the block that was made.
#[derive(Debug, PartialEq, Eq)]
pub struct MiningRespose {
    pub message: String,
    pub index: u64,
    pub transactions: Vec<Transaction>,
    pub proof: u64,
    pub previous_hash: String,
}

/// A node's chain as it travels between peers: the blocks, and the length
/// that the node reports for them.
#[derive(Debug, PartialEq, Eq)]
pub struct Chain {
    pub chain: Vec<Block>,
    pub length: usize,
}

/// What a [`Chain`] holds.
pub struct ChainView {
    pub chain: Seq<BlockView>,
    pub length: nat,
}

impl View for Chain {
    type V = ChainView;

    open spec fn view(&self) -> ChainView {
        ChainView { chain: block_views(self.chain@), length: self.length as nat }
    }
}

/// The transaction that a request asks for.
pub open spec fn requested(req: TransactionRequest) -> TransactionView {
    TransactionView { sender: req.sender@, recipient: req.recipient@, amount: req.amount as int }
}

/// The message that tells a client which block its transaction goes into.
pub open spec fn submitted_message(index: nat) -> Seq<char> {
    "Transaction will be add to block "@ + decimal_text(index)
}

/// The message for a block that was mined.
pub open spec fn mined_message() -> Seq<char> {
    "Đã đào được 1 block"@
}

/// The message for a list of peers that cannot be registered.
pub open spec fn invalid_nodes_message() -> Seq<char> {
    "Error: Vui lòng cung cấp danh sách nodes hợp lệ"@
}

/// The message for peers that were registered.
pub open spec fn registered_message() -> Seq<char> {
    "Nodes mới đã được thêm"@
}

/// The message of a reconciliation, by whether the chain was replaced.
pub open spec fn resolved_message(replaced: bool) -> Seq<char> {
    if replaced {
        "Chuỗi đã được làm mới"@
    } else {
        "Chuỗi không thay đổi"@
    }
}

/// Every address of the list has a canonical form.
pub open spec fn all_canonical(addresses: Seq<Seq<char>>) -> bool {
    forall|i: int| 0 <= i < addresses.len() ==> canonical_peer(#[trigger] addresses[i]) is Some
}

/// The canonical forms of the addresses of a list.
pub open spec fn canonical_peers(addresses: Seq<Seq<char>>) -> Seq<Seq<char>> {
    Seq::new(addresses.len(), |i: int| canonical_peer(addresses[i]).unwrap())
}

/// A list of addresses can be registered: it is not empty, and every
/// address has a canonical form.
pub open spec fn registrable(addresses: Seq<Seq<char>>) -> bool {
    addresses.len() > 0 && all_canonical(addresses)
}

/// Submits the transaction of `req` and tells the client which block it
/// will go into.
pub fn new_transaction(ledger: &mut Blockchain, req: &TransactionRequest) -> (response:
    MessageResponse)
    requires
        old(ledger)@.next_index() <= u64::MAX,
    ensures
        final(ledger)@ == old(ledger)@.with_transaction(requested(*req)),
        response.message@ == submitted_message(old(ledger)@.next_index()),
        old(ledger)@.well_formed() ==> final(ledger)@.well_formed(),
{
    let index = ledger.new_transaction(req.sender.as_str(), req.recipient.as_str(), req.amount);
    let mut message = "Transaction will be add to block ".to_owned();
    push_decimal(&mut message, index);
    MessageResponse { message }
}

/// Mines a block for the node `node_identifier` and describes it.
///
/// `None` means that no 64-bit proof solves the puzzle; the ledger is then
/// as it was.
pub fn mine(ledger: &mut Blockchain, node_identifier: &str) -> (response: Option<MiningRespose>)
    requires
        old(ledger)@.chain.len() > 0,
        old(ledger)@.next_index() <= u64::MAX,
    ensures
        match response {
            Some(mined) => {
                &&& is_least_proof(
                    old(ledger)@.chain.last().proof,
                    old(ledger)@.chain.last().previous_hash,
                    mined.proof as nat,
                )
                &&& final(ledger)@ == old(ledger)@.mined(
                    node_identifier@,
                    mined.proof as nat,
                    final(ledger)@.chain.last().timestamp,
                )
                &&& mined.message@ == mined_message()
                &&& mined.index == old(ledger)@.chain.last().index + 1
                &&& transaction_views(mined.transactions@) == old(ledger)@.pending.push(
                    reward(node_identifier@),
                )
                &&& mined.previous_hash@ == block_hash(old(ledger)@.chain.last())
                &&& old(ledger)@.well_formed() ==> final(ledger)@.well_formed()
            },
            None => {
                &&& no_proof_below(
                    old(ledger)@.chain.last().proof,
                    old(ledger)@.chain.last().previous_hash,
                    u64::MAX as nat + 1,
                )
                &&& *final(ledger) == *old(ledger)
            },
        },
{
    match ledger.mine(node_identifier) {
        Some(block) => Some(
            MiningRespose {
                message: "Đã đào được 1 block".to_owned(),
                index: block.index,
                transactions: block.transactions,
                proof: block.proof,
                previous_hash: block.previous_hash,
            },
        ),
        None => None,
    }
}

/// The node's chain, with its length.
pub fn chain(ledger: &Blockchain) -> (response: Chain)
    ensures
        response@.chain == ledger@.chain,
        response@.length == ledger@.chain.len(),
{
    let length = ledger.chain.len();
    Chain { chain: clone_blocks(&ledger.chain), length }
}

/// Copies a list of strings.
pub fn clone_strings(list: &Vec<String>) -> (copy: Vec<String>)
    ensures
        copy@ == list@,
{
    let mut copy: Vec<String> = Vec::new();
    let mut i: usize = 0;
    while i < list.len()
        invariant
            i <= list.len(),
            copy@ == list@.take(i as int),
        decreases list.len() - i,
    {
        copy.push(list[i].clone());
        i += 1;
    }
    copy
}

/// Registers the peers of `req`, each under its canonical address, and
/// lists the peers that the node then knows.
///
/// A request without addresses, or with an address that has no canonical
/// form, is refused as a whole, and the ledger is then as it was.
pub fn register_node(ledger: &mut Blockchain, req: &RegisterRequest) -> (response: Result<
    RegisterResponse,
    MessageResponse,
>)
    ensures
        match response {
            Ok(done) => {
                &&& registrable(texts(req.nodes@))
                &&& final(ledger)@.peers == with_peers(
                    old(ledger)@.peers,
                    canonical_peers(texts(req.nodes@)),
                )
                &&& final(ledger)@.chain == old(ledger)@.chain
                &&& final(ledger)@.pending == old(ledger)@.pending
                &&& done.message@ == registered_message()
                &&& texts(done.total_nodes@) == final(ledger)@.peers
                &&& old(ledger)@.well_formed() ==> final(ledger)@.well_formed()
            },
            Err(refused) => {
                &&& !registrable(texts(req.nodes@))
                &&& *final(ledger) == *old(ledger)
                &&& refused.message@ == invalid_nodes_message()
            },
        },
{
    let ghost addresses = texts(req.nodes@);
    if req.nodes.len() == 0 {
        return Err(
            MessageResponse {
                message: "Error: Vui lòng cung cấp danh sách nodes hợp lệ".to_owned(),
            },
        );
    }
    let mut netlocs: Vec<String> = Vec::new();
    let mut i: usize = 0;
    while i < req.nodes.len()
        invariant
            i <= req.nodes.len(),
            addresses == texts(req.nodes@),
            netlocs@.len() == i,
            forall|k: int|
                0 <= k < i ==> canonical_peer(#[trigger] addresses[k]) == Some(netlocs@[k]@),
        decreases req.nodes.len() - i,
    {
        match canonical_address(req.nodes[i].as_str()) {
            Some(netloc) => {
                netlocs.push(netloc);
            },
            None => {
                proof {
                    assert(canonical_peer(addresses[i as int]) is None);
                }
                return Err(
                    MessageResponse {
                        message: "Error: Vui lòng cung cấp danh sách nodes hợp lệ".to_owned(),
                    },
                );
            },
        }
        i += 1;
    }
    proof {
        assert(texts(netlocs@) =~= canonical_peers(addresses));
    }
    let ghost canonical = canonical_peers(addresses);
    let mut j: usize = 0;
    while j < netlocs.len()
        invariant
            j <= netlocs.len(),
            canonical == texts(netlocs@),
            ledger@.peers == with_peers(old(ledger)@.peers, canonical.take(j as int)),
            ledger@.chain == old(ledger)@.chain,
            ledger@.pending == old(ledger)@.pending,
            old(ledger)@.well_formed() ==> ledger@.well_formed(),
        decreases netlocs.len() - j,
    {
        proof {
            assert(canonical.take(j + 1).drop_last() == canonical.take(j as int));
            assert(canonical.take(j + 1).last() == netlocs@[j as int]@);
        }
        ledger.register_netloc(netlocs[j].clone());
        j += 1;
    }
    proof {
        assert(canonical.take(j as int) == canonical);
    }
    Ok(
        RegisterResponse {
            message: "Nodes mới đã được thêm".to_owned(),
            total_nodes: clone_strings(&ledger.nodes),
        },
    )
}

/// Reconciles the chain with the answers of the peers and shows the chain
/// that the node then holds.
pub fn resolve_nodes(ledger: &mut Blockchain, responses: &Vec<Option<Chain>>) -> (response:
    ResolveResponse)
    ensures
        is_resolution(
            old(ledger)@,
            response_views(responses@),
            final(ledger)@,
            true,
        ) && response.message@ == resolved_message(true) || is_resolution(
            old(ledger)@,
            response_views(responses@),
            final(ledger)@,
            false,
        ) && response.message@ == resolved_message(false),
        block_views(response.chain@) == final(ledger)@.chain,
        chain_is_valid(old(ledger)@.chain) ==> chain_is_valid(final(ledger)@.chain),
{
    let replaced = ledger.resolve_conflicts(responses);
    let message = if replaced {
        "Chuỗi đã được làm mới"
    } else {
        "Chuỗi không thay đổi"
    };
    ResolveResponse { message: message.to_owned(), chain: clone_blocks(&ledger.chain) }
}

} // verus!
