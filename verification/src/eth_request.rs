use vstd::prelude::*;

use crate::hex::{hex_string, hex_to_u64, hex_value, law_hex_roundtrip, to_hex_lower};
use crate::json::{jv_get, Json, JsonValue};

verus! {

/// The entries of a batch joined by commas.
pub open spec fn join_entries(entries: Seq<Seq<char>>) -> Seq<char>
    decreases entries.len(),
{
    if entries.len() == 0 {
        Seq::empty()
    } else if entries.len() == 1 {
        entries[0]
    } else {
        join_entries(entries.drop_last()) + ","@ + entries.last()
    }
}

/// The body of a batch of JSON-RPC calls: a JSON array of the entries.  The
/// body of an empty batch is a lone `]`: the opening bracket gives way to
/// the closing one.
pub open spec fn batch_body(entries: Seq<Seq<char>>) -> Seq<char> {
    if entries.len() == 0 {
        "]"@
    } else {
        "["@ + join_entries(entries) + "]"@
    }
}

/// The body of the `eth_blockNumber` call.
pub open spec fn block_number_body_spec() -> Seq<char> {
    "{\"jsonrpc\":\"2.0\",\"method\":\"eth_blockNumber\",\"params\":[],\"id\":\"83\"}"@
}

/// The `eth_getBlockByNumber` call for block `b`, its number written `0x`
/// and lower-case digits of base 16, without the transactions in full.
pub open spec fn block_entry(b: u64) -> Seq<char> {
    "{\"jsonrpc\":\"2.0\",\"method\":\"eth_getBlockByNumber\",\"params\":[\"0x"@ + hex_string(
        b as nat,
    ) + "\", false],\"id\":\"1\"}"@
}

/// The `eth_getTransactionReceipt` call for the transaction of hash `h`.
pub open spec fn receipt_entry(h: Seq<char>) -> Seq<char> {
    "{\"jsonrpc\":\"2.0\",\"method\":\"eth_getTransactionReceipt\",\"params\":[\""@ + h
        + "\"],\"id\":\"1\"}"@
}

/// The body that asks for the number of the latest block.
pub fn block_number_body() -> (s: String)
    ensures
        s@ == block_number_body_spec(),
{
    String::from_str("{\"jsonrpc\":\"2.0\",\"method\":\"eth_blockNumber\",\"params\":[],\"id\":\"83\"}")
}

/// The call that asks for one block.
pub fn block_call(b: u64) -> (s: String)
    ensures
        s@ == block_entry(b),
{
    let hex = to_hex_lower(b);
    String::from_str("{\"jsonrpc\":\"2.0\",\"method\":\"eth_getBlockByNumber\",\"params\":[\"0x").concat(
        hex.as_str(),
    ).concat("\", false],\"id\":\"1\"}")
}

/// The call that asks for the receipt of one transaction.
pub fn receipt_call(hash: &str) -> (s: String)
    ensures
        s@ == receipt_entry(hash@),
{
    String::from_str("{\"jsonrpc\":\"2.0\",\"method\":\"eth_getTransactionReceipt\",\"params\":[\"").concat(
        hash,
    ).concat("\"],\"id\":\"1\"}")
}

proof fn lemma_join_push(entries: Seq<Seq<char>>, e: Seq<char>)
    requires
        entries.len() > 0,
    ensures
        join_entries(entries.push(e)) == join_entries(entries) + ","@ + e,
{
    assert(entries.push(e).drop_last() =~= entries);
}

/// The body of one batch of `eth_getBlockByNumber` calls, one per block.
pub fn blocks_body(blocks: &[u64]) -> (s: String)
    ensures
        s@ == batch_body(blocks@.map_values(|b: u64| block_entry(b))),
{
    let ghost entries = blocks@.map_values(|b: u64| block_entry(b));
    if blocks.len() == 0 {
        return String::from_str("]");
    }
    let mut s = String::from_str("[");
    let mut i: usize = 0;
    while i < blocks.len()
        invariant
            0 < blocks@.len(),
            i <= blocks@.len(),
            entries == blocks@.map_values(|b: u64| block_entry(b)),
            i == 0 ==> s@ == "["@,
            i > 0 ==> s@ == "["@ + join_entries(entries.subrange(0, i as int)),
        decreases blocks@.len() - i,
    {
        let call = block_call(blocks[i]);
        let ghost old_s = s@;
        if i > 0 {
            s.append(",");
        }
        s.append(call.as_str());
        proof {
            let pre = entries.subrange(0, i as int);
            assert(entries.subrange(0, i + 1) =~= pre.push(entries[i as int]));
            if i > 0 {
                lemma_join_push(pre, entries[i as int]);
                assert(s@ =~= "["@ + join_entries(entries.subrange(0, i + 1)));
            } else {
                assert(pre.push(entries[i as int]).len() == 1);
                assert(s@ =~= "["@ + join_entries(entries.subrange(0, i + 1)));
            }
        }
        i = i + 1;
    }
    assert(entries.subrange(0, blocks@.len() as int) =~= entries);
    s.append("]");
    s
}

/// The body of one batch of `eth_getTransactionReceipt` calls, one per
/// transaction hash.
pub fn receipts_body(hashes: &[String]) -> (s: String)
    ensures
        s@ == batch_body(hashes@.map_values(|h: String| receipt_entry(h@))),
{
    let ghost entries = hashes@.map_values(|h: String| receipt_entry(h@));
    if hashes.len() == 0 {
        return String::from_str("]");
    }
    let mut s = String::from_str("[");
    let mut i: usize = 0;
    while i < hashes.len()
        invariant
            0 < hashes@.len(),
            i <= hashes@.len(),
            entries == hashes@.map_values(|h: String| receipt_entry(h@)),
            i == 0 ==> s@ == "["@,
            i > 0 ==> s@ == "["@ + join_entries(entries.subrange(0, i as int)),
        decreases hashes@.len() - i,
    {
        let call = receipt_call(hashes[i].as_str());
        if i > 0 {
            s.append(",");
        }
        s.append(call.as_str());
        proof {
            let pre = entries.subrange(0, i as int);
            assert(entries.subrange(0, i + 1) =~= pre.push(entries[i as int]));
            if i > 0 {
                lemma_join_push(pre, entries[i as int]);
                assert(s@ =~= "["@ + join_entries(entries.subrange(0, i + 1)));
            } else {
                assert(pre.push(entries[i as int]).len() == 1);
                assert(s@ =~= "["@ + join_entries(entries.subrange(0, i + 1)));
            }
        }
        i = i + 1;
    }
    assert(entries.subrange(0, hashes@.len() as int) =~= entries);
    s.append("]");
    s
}


/// What an answer to `eth_blockNumber` says.
#[derive(Clone, Copy, Debug)]
pub enum BlockNumberAnswer {
    /// The number of the latest block.
    Number(u64),
    /// The result is a string that is no number of base 16.
    BadNumber,
    /// The node answered with an error.
    NodeError,
    /// Neither a result string nor an error.
    Unexpected,
}

/// How an answer to `eth_blockNumber` is read: a string `result` is the
/// block number in base 16; otherwise an `error` field is the node's error.
pub open spec fn block_number_answer_spec(resp: JsonValue) -> BlockNumberAnswer {
    match jv_get(resp, "result"@) {
        Some(JsonValue::Str(h)) => match hex_value(h) {
            Some(n) => BlockNumberAnswer::Number(n),
            None => BlockNumberAnswer::BadNumber,
        },
        _ => if jv_get(resp, "error"@) is Some {
            BlockNumberAnswer::NodeError
        } else {
            BlockNumberAnswer::Unexpected
        },
    }
}

/// Reads an answer to `eth_blockNumber`.
pub fn block_number_answer(resp: &Json) -> (a: BlockNumberAnswer)
    ensures
        a == block_number_answer_spec(resp@),
{
    let result = resp.get("result");
    let text = match result {
        Some(r) => r.as_str(),
        None => None,
    };
    match text {
        Some(h) => match hex_to_u64(h.as_str()) {
            Some(n) => BlockNumberAnswer::Number(n),
            None => BlockNumberAnswer::BadNumber,
        },
        None => {
            if resp.get("error").is_some() {
                BlockNumberAnswer::NodeError
            } else {
                BlockNumberAnswer::Unexpected
            }
        },
    }
}


/// The block number that an answer to `eth_blockNumber` gives: the number it
/// holds, or 0 where the node answered with an error or with something else.
/// A result string that is no number of base 16 is left out.
pub fn block_number_from_reply(resp: &Json) -> (n: u64)
    requires
        !(block_number_answer_spec(resp@) is BadNumber),
    ensures
        n == match block_number_answer_spec(resp@) {
            BlockNumberAnswer::Number(k) => k,
            _ => 0,
        },
{
    match block_number_answer(resp) {
        BlockNumberAnswer::Number(k) => k,
        _ => 0,
    }
}


/// The call for block `b` names block `b` itself: between the fixed text
/// before and after it stand digits that, after `0x`, read back as exactly
/// `b`, written in lower case with no leading zero, for every block number.
pub proof fn law_block_call_names_block(b: u64)
    ensures
        ({
            let pre = "{\"jsonrpc\":\"2.0\",\"method\":\"eth_getBlockByNumber\",\"params\":[\"0x"@;
            let post = "\", false],\"id\":\"1\"}"@;
            let e = block_entry(b);
            let d = e.subrange(pre.len() as int, e.len() - post.len());
            &&& e.len() >= pre.len() + post.len()
            &&& e == pre + d + post
            &&& hex_value(seq!['0', 'x'] + d) == Some(b)
            &&& d == hex_string(b as nat)
        }),
{
    let pre = "{\"jsonrpc\":\"2.0\",\"method\":\"eth_getBlockByNumber\",\"params\":[\"0x"@;
    let post = "\", false],\"id\":\"1\"}"@;
    let h = hex_string(b as nat);
    law_hex_roundtrip(b);
    let e = pre + h + post;
    assert(e.subrange(pre.len() as int, e.len() - post.len()) =~= h);
}

/// The call for a transaction quotes its hash unchanged: between the fixed
/// text before and after it stands the hash itself, whatever its length.
pub proof fn law_receipt_call_quotes_hash(h: Seq<char>)
    ensures
        ({
            let pre = "{\"jsonrpc\":\"2.0\",\"method\":\"eth_getTransactionReceipt\",\"params\":[\""@;
            let post = "\"],\"id\":\"1\"}"@;
            let e = receipt_entry(h);
            &&& e.len() == pre.len() + h.len() + post.len()
            &&& e.subrange(0, pre.len() as int) == pre
            &&& e.subrange(pre.len() as int, (pre.len() + h.len()) as int) == h
            &&& e.subrange((pre.len() + h.len()) as int, e.len() as int) == post
        }),
{
    let pre = "{\"jsonrpc\":\"2.0\",\"method\":\"eth_getTransactionReceipt\",\"params\":[\""@;
    let post = "\"],\"id\":\"1\"}"@;
    let e = pre + h + post;
    assert(e.subrange(0, pre.len() as int) =~= pre);
    assert(e.subrange(pre.len() as int, (pre.len() + h.len()) as int) =~= h);
    assert(e.subrange((pre.len() + h.len()) as int, e.len() as int) =~= post);
}

/// An answer whose `result` is a string that reads as the number `n` in
/// base 16 (as `from_hex_to_int` reads it) gives exactly the block number
/// `n`; one whose `result` string reads as no number is a bad number.
pub proof fn law_block_number_read(resp: JsonValue, s: Seq<char>)
    requires
        jv_get(resp, "result"@) == Some(JsonValue::Str(s)),
    ensures
        hex_value(s) matches Some(n) ==> block_number_answer_spec(resp) == BlockNumberAnswer::Number(n),
        hex_value(s) is None ==> block_number_answer_spec(resp) == BlockNumberAnswer::BadNumber,
{
}


/// Each entry followed by a comma, one after the other.
pub open spec fn entries_with_commas(entries: Seq<Seq<char>>) -> Seq<char>
    decreases entries.len(),
{
    if entries.len() == 0 {
        Seq::empty()
    } else {
        entries_with_commas(entries.drop_last()) + entries.last() + ","@
    }
}

proof fn lemma_with_commas(entries: Seq<Seq<char>>)
    requires
        entries.len() > 0,
    ensures
        entries_with_commas(entries) == join_entries(entries) + ","@,
    decreases entries.len(),
{
    if entries.len() == 1 {
        assert(entries.drop_last().len() == 0);
        assert(entries_with_commas(entries.drop_last()) == Seq::<char>::empty());
        assert(entries.last() == entries[0]);
        assert(Seq::<char>::empty() + entries[0] + ","@ =~= entries[0] + ","@);
    } else {
        lemma_with_commas(entries.drop_last());
        assert(join_entries(entries.drop_last()) + ","@ + entries.last() + ","@ =~= join_entries(
            entries.drop_last(),
        ) + ","@ + entries.last() + ","@);
    }
}

/// A batch body is `[`, then every entry followed by a comma, with the very
/// last character taken off, then `]`: a JSON array of the entries, and a
/// lone `]` for no entry.
pub proof fn law_batch_body_drops_last_comma(entries: Seq<Seq<char>>)
    ensures
        batch_body(entries) == ("["@ + entries_with_commas(entries)).drop_last() + "]"@,
{
    reveal_strlit("[");
    reveal_strlit(",");
    if entries.len() == 0 {
        assert(entries_with_commas(entries) == Seq::<char>::empty());
        assert(("["@ + Seq::<char>::empty()).drop_last() =~= Seq::<char>::empty());
        assert(Seq::<char>::empty() + "]"@ =~= "]"@);
    } else {
        lemma_with_commas(entries);
        assert(("["@ + (join_entries(entries) + ","@)).drop_last() =~= "["@ + join_entries(entries));
    }
}

} // verus!
