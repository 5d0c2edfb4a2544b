use batch_bench::eth_request::{
    block_call, block_number_answer, block_number_body, blocks_body, receipt_call, receipts_body,
    block_number_from_reply, BlockNumberAnswer,
};
use batch_bench::json::parse_json;

/// The body as a loop that pops the last comma writes it: an entry and a comma each, the
/// last character dropped, then `]`.
fn body_by_popping(entries: &[String]) -> String {
    let mut arg: String = "[".into();
    for e in entries {
        arg += &format!("{},", e);
    }
    arg.pop();
    arg += "]";
    arg
}

#[test]
fn block_number_body_is_the_call() {
    assert_eq!(block_number_body(), r#"{"jsonrpc":"2.0","method":"eth_blockNumber","params":[],"id":"83"}"#);
}

#[test]
fn block_call_writes_number_in_hex() {
    assert_eq!(
        block_call(436),
        r#"{"jsonrpc":"2.0","method":"eth_getBlockByNumber","params":["0x1b4", false],"id":"1"}"#
    );
}

#[test]
fn receipt_call_quotes_hash() {
    assert_eq!(
        receipt_call("0xabc"),
        r#"{"jsonrpc":"2.0","method":"eth_getTransactionReceipt","params":["0xabc"],"id":"1"}"#
    );
}

#[test]
fn blocks_body_of_empty_batch_is_a_bracket() {
    assert_eq!(blocks_body(&[]), "]");
    assert_eq!(receipts_body(&[]), "]");
}

#[test]
fn blocks_body_joins_calls() {
    let blocks = [1u64, 255, 4096];
    let entries: Vec<String> = blocks.iter().map(|b| block_call(*b)).collect();
    let body = blocks_body(&blocks);
    assert_eq!(body, body_by_popping(&entries));
    assert_eq!(
        blocks_body(&[10]),
        r#"[{"jsonrpc":"2.0","method":"eth_getBlockByNumber","params":["0xa", false],"id":"1"}]"#
    );
    let parsed = parse_json(&body).unwrap();
    assert_eq!(parsed.as_array().unwrap().len(), 3);
}

#[test]
fn receipts_body_joins_calls() {
    let hashes = vec!["0x01".to_string(), "0x02".to_string()];
    let entries: Vec<String> = hashes.iter().map(|h| receipt_call(h)).collect();
    assert_eq!(receipts_body(&hashes), body_by_popping(&entries));
    assert_eq!(
        receipts_body(&hashes),
        r#"[{"jsonrpc":"2.0","method":"eth_getTransactionReceipt","params":["0x01"],"id":"1"},{"jsonrpc":"2.0","method":"eth_getTransactionReceipt","params":["0x02"],"id":"1"}]"#
    );
}

#[test]
fn block_number_answer_reads_result() {
    let a = parse_json(r#"{"jsonrpc":"2.0","id":"83","result":"0x1b4"}"#).unwrap();
    assert!(matches!(block_number_answer(&a), BlockNumberAnswer::Number(436)));
}

#[test]
fn block_number_answer_bad_number() {
    let a = parse_json(r#"{"result":"0xzz"}"#).unwrap();
    assert!(matches!(block_number_answer(&a), BlockNumberAnswer::BadNumber));
}

#[test]
fn block_number_answer_node_error() {
    let a = parse_json(r#"{"error":{"code":-32000,"message":"busy"}}"#).unwrap();
    assert!(matches!(block_number_answer(&a), BlockNumberAnswer::NodeError));
}

#[test]
fn block_number_answer_unexpected() {
    let a = parse_json(r#"{"result":12}"#).unwrap();
    assert!(matches!(block_number_answer(&a), BlockNumberAnswer::Unexpected));
    let b = parse_json(r#"[1,2]"#).unwrap();
    assert!(matches!(block_number_answer(&b), BlockNumberAnswer::Unexpected));
}

#[test]
fn block_number_from_reply_gives_zero_on_errors() {
    let a = parse_json(r#"{"result":"0x1b4"}"#).unwrap();
    assert_eq!(block_number_from_reply(&a), 436);
    let e = parse_json(r#"{"error":{"code":-32000,"message":"busy"}}"#).unwrap();
    assert_eq!(block_number_from_reply(&e), 0);
    let u = parse_json(r#"{"result":null}"#).unwrap();
    assert_eq!(block_number_from_reply(&u), 0);
}
