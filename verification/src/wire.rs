//! The canonical wire form can be read back: two blocks with the same wire
//! form are the same block, so every field enters the digest.

use crate::blockchain::{
    block_hash, block_json, transaction_json, transaction_list_json, BlockView, TransactionView,
};
use crate::digest::sha256_hex;
use crate::text::{
    decimal_text, ends_a_number, json_string_text, lemma_decimal_unique, lemma_json_string_unique,
    lemma_same_prefix, lemma_signed_decimal_unique, signed_decimal_text,
};
use vstd::prelude::*;
use vstd::utf8::{encode_utf8, encode_utf8_decode_utf8};

verus! {

/// A transaction can be read back from the wire form that it begins: where
/// the wire forms of two transactions, each followed by some text, make the
/// same text, the transactions are equal, and so is what follows them.
pub proof fn lemma_transaction_unique(
    t1: TransactionView,
    r1: Seq<char>,
    t2: TransactionView,
    r2: Seq<char>,
)
    requires
        transaction_json(t1) + r1 == transaction_json(t2) + r2,
    ensures
        t1 == t2,
        r1 == r2,
{
    let open = "{\"sender\":"@;
    let to = ",\"recipient\":"@;
    let of = ",\"amount\":"@;
    let close = "}"@;
    reveal_strlit("}");
    let c1 = close + r1;
    let c2 = close + r2;
    let b1 = of + (signed_decimal_text(t1.amount) + c1);
    let b2 = of + (signed_decimal_text(t2.amount) + c2);
    let a1 = to + (json_string_text(t1.recipient) + b1);
    let a2 = to + (json_string_text(t2.recipient) + b2);
    assert(transaction_json(t1) + r1 =~= open + (json_string_text(t1.sender) + a1));
    assert(transaction_json(t2) + r2 =~= open + (json_string_text(t2.sender) + a2));
    lemma_same_prefix(open, json_string_text(t1.sender) + a1, json_string_text(t2.sender) + a2);
    lemma_json_string_unique(t1.sender, a1, t2.sender, a2);
    lemma_same_prefix(
        to,
        json_string_text(t1.recipient) + b1,
        json_string_text(t2.recipient) + b2,
    );
    lemma_json_string_unique(t1.recipient, b1, t2.recipient, b2);
    lemma_same_prefix(of, signed_decimal_text(t1.amount) + c1, signed_decimal_text(t2.amount) + c2);
    assert(c1[0] == '}');
    assert(c2[0] == '}');
    lemma_signed_decimal_unique(t1.amount, c1, t2.amount, c2);
    lemma_same_prefix(close, r1, r2);
}

/// The wire form of a transaction begins with a brace.
pub proof fn lemma_transaction_begins_with_brace(t: TransactionView)
    ensures
        transaction_json(t).len() > 0,
        transaction_json(t)[0] == '{',
{
    reveal_strlit("{\"sender\":");
}

/// The wire form of a list of two or more transactions is that of the
/// first, a comma, and that of the others.
pub proof fn lemma_list_from_the_front(list: Seq<TransactionView>)
    requires
        list.len() >= 2,
    ensures
        transaction_list_json(list) == transaction_json(list[0]) + ","@ + transaction_list_json(
            list.drop_first(),
        ),
    decreases list.len(),
{
    let comma = ","@;
    let front = list.drop_last();
    let back = list.drop_first();
    let first = transaction_json(list[0]);
    let last = transaction_json(list.last());
    assert(transaction_list_json(list) == transaction_list_json(front) + comma + last);
    assert(front[0] == list[0]);
    assert(back.last() == list.last());
    if list.len() == 2 {
        assert(transaction_list_json(front) == first);
        assert(back[0] == list.last());
        assert(transaction_list_json(back) == last);
    } else {
        lemma_list_from_the_front(front);
        let middle = transaction_list_json(front.drop_first());
        assert(front.drop_first() =~= back.drop_last());
        assert(transaction_list_json(front) == first + comma + middle);
        assert(transaction_list_json(back) == middle + comma + last);
        assert(first + comma + middle + comma + last =~= first + comma + (middle + comma + last));
    }
}

/// A list of transactions can be read back from the wire form that it
/// begins, where a closing bracket follows the list.
pub proof fn lemma_transaction_list_unique(
    l1: Seq<TransactionView>,
    r1: Seq<char>,
    l2: Seq<TransactionView>,
    r2: Seq<char>,
)
    requires
        transaction_list_json(l1) + r1 == transaction_list_json(l2) + r2,
        r1.len() > 0 && r1[0] == ']',
        r2.len() > 0 && r2[0] == ']',
    ensures
        l1 == l2,
        r1 == r2,
    decreases l1.len(),
{
    let comma = ","@;
    reveal_strlit(",");
    let left = transaction_list_json(l1) + r1;
    let right = transaction_list_json(l2) + r2;
    if l1.len() == 0 {
        assert(left =~= r1);
        if l2.len() == 0 {
            assert(right =~= r2);
            assert(l1 =~= l2);
        } else {
            lemma_list_begins_with_brace(l2);
            assert(right[0] == transaction_list_json(l2)[0]);
            assert(false);
        }
    } else if l2.len() == 0 {
        assert(right =~= r2);
        lemma_list_begins_with_brace(l1);
        assert(left[0] == transaction_list_json(l1)[0]);
        assert(false);
    } else {
        let rest1 = if l1.len() == 1 {
            r1
        } else {
            comma + (transaction_list_json(l1.drop_first()) + r1)
        };
        let rest2 = if l2.len() == 1 {
            r2
        } else {
            comma + (transaction_list_json(l2.drop_first()) + r2)
        };
        if l1.len() >= 2 {
            lemma_list_from_the_front(l1);
        }
        if l2.len() >= 2 {
            lemma_list_from_the_front(l2);
        }
        assert(left =~= transaction_json(l1[0]) + rest1);
        assert(right =~= transaction_json(l2[0]) + rest2);
        lemma_transaction_unique(l1[0], rest1, l2[0], rest2);
        assert(rest1[0] == rest2[0]);
        if l1.len() == 1 {
            assert(l2.len() == 1);
            assert(l1 =~= l2);
        } else {
            assert(rest1[0] == ',');
            assert(l2.len() >= 2);
            lemma_same_prefix(
                comma,
                transaction_list_json(l1.drop_first()) + r1,
                transaction_list_json(l2.drop_first()) + r2,
            );
            lemma_transaction_list_unique(l1.drop_first(), r1, l2.drop_first(), r2);
            assert(l1 =~= seq![l1[0]] + l1.drop_first());
            assert(l2 =~= seq![l2[0]] + l2.drop_first());
        }
    }
}

/// The wire form of a list that is not empty begins with a brace.
pub proof fn lemma_list_begins_with_brace(list: Seq<TransactionView>)
    requires
        list.len() > 0,
    ensures
        transaction_list_json(list).len() > 0,
        transaction_list_json(list)[0] == '{',
    decreases list.len(),
{
    if list.len() == 1 {
        lemma_transaction_begins_with_brace(list[0]);
    } else {
        lemma_list_begins_with_brace(list.drop_last());
    }
}

/// The end of the wire form of a block, from the stored hash on.
spec fn from_hash(b: BlockView) -> Seq<char> {
    ",\"previous_hash\":"@ + (json_string_text(b.previous_hash) + "}"@)
}

/// The end of the wire form of a block, from the bracket that closes the
/// transactions on.
spec fn from_proof(b: BlockView) -> Seq<char> {
    "],\"proof\":"@ + (decimal_text(b.proof) + from_hash(b))
}

/// The end of the wire form of a block, from the transactions on.
spec fn from_transactions(b: BlockView) -> Seq<char> {
    ",\"transactions\":["@ + (transaction_list_json(b.transactions) + from_proof(b))
}

/// The end of the wire form of a block, from the timestamp on.
spec fn from_timestamp(b: BlockView) -> Seq<char> {
    ",\"timestamp\":"@ + (json_string_text(b.timestamp) + from_transactions(b))
}

/// The wire form of a block, field by field from the front.
proof fn lemma_block_json_by_fields(b: BlockView)
    ensures
        block_json(b) == "{\"index\":"@ + (decimal_text(b.index) + from_timestamp(b)),
{
    let hash = json_string_text(b.previous_hash);
    let proof = decimal_text(b.proof);
    let list = transaction_list_json(b.transactions);
    let time = json_string_text(b.timestamp);
    let index = decimal_text(b.index);
    let p1 = "{\"index\":"@ + index;
    let p2 = p1 + ",\"timestamp\":"@;
    let p3 = p2 + time;
    let p4 = p3 + ",\"transactions\":["@;
    let p5 = p4 + list;
    let p6 = p5 + "],\"proof\":"@;
    let p7 = p6 + proof;
    let p8 = p7 + ",\"previous_hash\":"@;
    lemma_regroup(p8, hash, "}"@);
    lemma_regroup(p7, ",\"previous_hash\":"@, hash + "}"@);
    lemma_regroup(p6, proof, from_hash(b));
    lemma_regroup(p5, "],\"proof\":"@, proof + from_hash(b));
    lemma_regroup(p4, list, from_proof(b));
    lemma_regroup(p3, ",\"transactions\":["@, list + from_proof(b));
    lemma_regroup(p2, time, from_transactions(b));
    lemma_regroup(p1, ",\"timestamp\":"@, time + from_transactions(b));
    lemma_regroup("{\"index\":"@, index, from_timestamp(b));
}

/// Texts put together from the left are the same put together from the
/// right.
proof fn lemma_regroup(a: Seq<char>, b: Seq<char>, c: Seq<char>)
    ensures
        a + b + c == a + (b + c),
{
    assert(a + b + c =~= a + (b + c));
}

/// What stands behind the two numbers of a block, and behind its
/// transactions.
proof fn lemma_field_ends(b: BlockView)
    ensures
        ends_a_number(from_timestamp(b)),
        ends_a_number(from_hash(b)),
        from_proof(b).len() > 0 && from_proof(b)[0] == ']',
{
    reveal_strlit(",\"timestamp\":");
    reveal_strlit("],\"proof\":");
    reveal_strlit(",\"previous_hash\":");
}

/// A block can be read back from its canonical wire form: two blocks with
/// the same wire form are equal in every field.
pub proof fn lemma_wire_form_unique(a: BlockView, b: BlockView)
    requires
        block_json(a) == block_json(b),
    ensures
        a == b,
{
    lemma_block_json_by_fields(a);
    lemma_block_json_by_fields(b);
    lemma_field_ends(a);
    lemma_field_ends(b);
    lemma_same_prefix(
        "{\"index\":"@,
        decimal_text(a.index) + from_timestamp(a),
        decimal_text(b.index) + from_timestamp(b),
    );
    lemma_decimal_unique(a.index, from_timestamp(a), b.index, from_timestamp(b));
    lemma_same_prefix(
        ",\"timestamp\":"@,
        json_string_text(a.timestamp) + from_transactions(a),
        json_string_text(b.timestamp) + from_transactions(b),
    );
    lemma_json_string_unique(a.timestamp, from_transactions(a), b.timestamp, from_transactions(b));
    lemma_same_prefix(
        ",\"transactions\":["@,
        transaction_list_json(a.transactions) + from_proof(a),
        transaction_list_json(b.transactions) + from_proof(b),
    );
    lemma_transaction_list_unique(a.transactions, from_proof(a), b.transactions, from_proof(b));
    lemma_same_prefix(
        "],\"proof\":"@,
        decimal_text(a.proof) + from_hash(a),
        decimal_text(b.proof) + from_hash(b),
    );
    lemma_decimal_unique(a.proof, from_hash(a), b.proof, from_hash(b));
    lemma_same_prefix(
        ",\"previous_hash\":"@,
        json_string_text(a.previous_hash) + "}"@,
        json_string_text(b.previous_hash) + "}"@,
    );
    lemma_json_string_unique(a.previous_hash, "}"@, b.previous_hash, "}"@);
}

/// Two different texts with the same SHA-256 digest.
pub open spec fn is_collision(x: Seq<u8>, y: Seq<u8>) -> bool {
    x != y && sha256_hex(x) == sha256_hex(y)
}

/// Changing any field of a block changes its canonical wire form, and with
/// it the digest, unless the two wire forms are a collision of SHA-256.
pub proof fn lemma_digest_tells_blocks_apart(a: BlockView, b: BlockView)
    requires
        a != b,
    ensures
        block_json(a) != block_json(b),
        encode_utf8(block_json(a)) != encode_utf8(block_json(b)),
        block_hash(a) != block_hash(b) || is_collision(
            encode_utf8(block_json(a)),
            encode_utf8(block_json(b)),
        ),
{
    if block_json(a) == block_json(b) {
        lemma_wire_form_unique(a, b);
    }
    encode_utf8_decode_utf8(block_json(a));
    encode_utf8_decode_utf8(block_json(b));
}

} // verus!
