use batch_bench::extention::{
    collect_gas, collect_hashes, parse_gas_from_json, reply_gas, reply_hashes, parse_hashes_from_json, try_parse_gas_from_json,
    try_parse_hashes_from_json,
};
use batch_bench::json::{parse_json, Json, JsonError};

const BLOCKS: &str = r#"[
  {"jsonrpc":"2.0","id":"1","result":{"number":"0x1","transactions":["0xa1","0xa2"]}},
  {"jsonrpc":"2.0","id":"1","result":{"number":"0x2","transactions":[]}},
  {"jsonrpc":"2.0","id":"1","result":{"number":"0x3","transactions":["0xc1"]}}
]"#;

const RECEIPTS: &str = r#"[
  {"jsonrpc":"2.0","id":"1","result":{"gasUsed":"0x5208"}},
  {"jsonrpc":"2.0","id":"1","result":{"gasUsed":"0x10"}}
]"#;

#[test]
fn parse_json_reads_values() {
    let j = parse_json(r#"{"a":[1,"x",null,true],"b":{"c":"d"}}"#).unwrap();
    let a = j.get("a").unwrap().as_array().unwrap();
    assert_eq!(a.len(), 4);
    assert!(matches!(a[0], Json::Number(ref n) if n == "1"));
    assert_eq!(a[1].as_str().unwrap(), "x");
    assert!(matches!(a[2], Json::Null));
    assert!(matches!(a[3], Json::Bool(true)));
    assert_eq!(j.get("b").unwrap().get("c").unwrap().as_str().unwrap(), "d");
    assert!(j.get("z").is_none());
    assert!(j.at(0).is_none());
    assert!(a[1].as_array().is_none());
    assert!(j.as_str().is_none());
}

#[test]
fn parse_json_later_key_wins() {
    let j = parse_json(r#"{"k":"first","k":"second"}"#).unwrap();
    assert_eq!(j.get("k").unwrap().as_str().unwrap(), "second");
}

#[test]
fn parse_json_error_kinds() {
    assert!(matches!(parse_json(""), Err(JsonError::Eof)));
    assert!(matches!(parse_json("[1,"), Err(JsonError::Eof)));
    assert!(matches!(parse_json("[1 2]"), Err(JsonError::Syntax)));
    assert!(matches!(parse_json("nope"), Err(JsonError::Syntax)));
}

#[test]
fn parse_hashes_from_json_flattens_blocks() {
    let h = parse_hashes_from_json(BLOCKS.to_string(), 3).unwrap();
    assert_eq!(h, vec!["0xa1", "0xa2", "0xc1"]);
    let h = parse_hashes_from_json(BLOCKS.to_string(), 1).unwrap();
    assert_eq!(h, vec!["0xa1", "0xa2"]);
    let h = parse_hashes_from_json(BLOCKS.to_string(), 0).unwrap();
    assert!(h.is_empty());
}

#[test]
fn parse_hashes_from_json_reports_bad_json() {
    assert!(parse_hashes_from_json("[{".to_string(), 1).is_err());
}

#[test]
fn try_parse_hashes_from_json_finds_missing_blocks() {
    assert_eq!(try_parse_hashes_from_json(BLOCKS.to_string(), 4).unwrap(), None);
    assert_eq!(
        try_parse_hashes_from_json(BLOCKS.to_string(), 2).unwrap(),
        Some(vec!["0xa1".to_string(), "0xa2".to_string()])
    );
    let not_strings = r#"[{"result":{"transactions":[{"hash":"0x1"}]}}]"#;
    assert_eq!(try_parse_hashes_from_json(not_strings.to_string(), 1).unwrap(), None);
    assert!(try_parse_hashes_from_json("x".to_string(), 1).is_err());
}

#[test]
fn parse_gas_from_json_reads_each_receipt() {
    let g = parse_gas_from_json(RECEIPTS.to_string(), 2).unwrap();
    assert_eq!(g, vec!["0x5208", "0x10"]);
    assert_eq!(try_parse_gas_from_json(RECEIPTS.to_string(), 3).unwrap(), None);
    let no_gas = r#"[{"result":{"gasUsed":21000}}]"#;
    assert_eq!(try_parse_gas_from_json(no_gas.to_string(), 1).unwrap(), None);
    assert!(try_parse_gas_from_json("{".to_string(), 1).is_err());
}

#[test]
fn collect_on_parsed_answers() {
    let blocks = parse_json(BLOCKS).unwrap();
    assert_eq!(collect_hashes(&blocks, 3).unwrap(), vec!["0xa1", "0xa2", "0xc1"]);
    assert!(collect_hashes(&blocks, 4).is_none());
    let receipts = parse_json(RECEIPTS).unwrap();
    assert_eq!(collect_gas(&receipts, 2).unwrap(), vec!["0x5208", "0x10"]);
    assert!(collect_gas(&blocks, 1).is_none());
}

#[test]
fn reply_hashes_reads_every_block() {
    let blocks = parse_json(BLOCKS).unwrap();
    assert_eq!(reply_hashes(&blocks).unwrap(), vec!["0xa1", "0xa2", "0xc1"]);
    let receipts = parse_json(RECEIPTS).unwrap();
    assert!(reply_hashes(&receipts).is_none());
    let not_array = parse_json(r#"{"result":{"transactions":["0x1"]}}"#).unwrap();
    assert!(reply_hashes(&not_array).is_none());
    let empty = parse_json("[]").unwrap();
    assert_eq!(reply_hashes(&empty).unwrap(), Vec::<String>::new());
}

#[test]
fn reply_gas_reads_every_receipt() {
    let receipts = parse_json(RECEIPTS).unwrap();
    assert_eq!(reply_gas(&receipts).unwrap(), vec!["0x5208", "0x10"]);
    let blocks = parse_json(BLOCKS).unwrap();
    assert!(reply_gas(&blocks).is_none());
    assert!(reply_gas(&parse_json("7").unwrap()).is_none());
}
