use vstd::prelude::*;
use vstd::utf8::{decode_utf8, encode_utf8, is_char_boundary};

verus! {

/// What follows the first eight bytes of a node address, its `https://`.
pub open spec fn node_tail(node: Seq<char>) -> Seq<char> {
    decode_utf8(encode_utf8(node).subrange(8, encode_utf8(node).len() as int))
}

/// The name of a stage in the name of its timing file.
pub open spec fn stage_suffix(stage: u64) -> Seq<char> {
    if stage == 0 {
        "_getBlocks"@
    } else if stage == 1 {
        "_getTransactions"@
    } else {
        "_other"@
    }
}

/// The character is no `/`.
pub open spec fn not_slash(c: char) -> bool {
    c != '/'
}

/// The timing file of a stage: in the directory `csv`, named after the
/// node address without its scheme and its slashes.
pub open spec fn csv_file_name_spec(node: Seq<char>, stage: u64) -> Seq<char> {
    "csv/"@ + node_tail(node).filter(|c: char| not_slash(c)) + stage_suffix(stage) + ".csv"@
}

/// The header row of the timing file of a stage.
pub open spec fn csv_header_spec(stage: u64) -> Seq<Seq<char>> {
    if stage == 0 {
        seq!["block_batch_size"@, "batch_concurrency"@, "time"@]
    } else {
        seq!["tx_batch"@, "tx_concurrency"@, "time"@]
    }
}

/// `s` without its slashes.
pub fn without_slashes(s: &str) -> (r: String)
    ensures
        r@ == s@.filter(|c: char| not_slash(c)),
{
    let n = s.unicode_len();
    let mut r = String::new();
    let mut i: usize = 0;
    while i < n
        invariant
            n == s@.len(),
            i <= n,
            r@ == s@.subrange(0, i as int).filter(|c: char| not_slash(c)),
        decreases n - i,
    {
        let c = s.get_char(i);
        proof {
            reveal_with_fuel(Seq::filter, 1);
            assert(s@.subrange(0, i + 1).drop_last() =~= s@.subrange(0, i as int));
            assert(s@.subrange(0, i + 1).last() == c);
        }
        if c != '/' {
            let one = s.substring_char(i, i + 1);
            let ghost before = r@;
            r.append(one);
            assert(one@ =~= seq![c]);
            assert(r@ =~= before.push(c));
        }
        i = i + 1;
    }
    assert(s@.subrange(0, n as int) =~= s@);
    r
}

/// The name of the timing file of a stage for a node.  The address must
/// have a character boundary after its eighth byte, as it has after an
/// `https://` scheme.
pub fn csv_file_name(node_name: &str, stage: u64) -> (name: String)
    requires
        is_char_boundary(encode_utf8(node_name@), 8),
    ensures
        name@ == csv_file_name_spec(node_name@, stage),
{
    proof {
        vstd::utf8::encode_utf8_valid_utf8(node_name@);
    }
    let (_, tail) = node_name.split_at(8);
    proof {
        vstd::utf8::encode_utf8_decode_utf8(tail@);
    }
    assert(tail@ == node_tail(node_name@));
    let kept = without_slashes(tail);
    let suffix = if stage == 0 {
        "_getBlocks"
    } else if stage == 1 {
        "_getTransactions"
    } else {
        "_other"
    };
    String::from_str("csv/").concat(kept.as_str()).concat(suffix).concat(".csv")
}

/// The header row of the timing file of a stage.
pub fn csv_header(stage: u64) -> (row: Vec<String>)
    ensures
        row@.map_values(|s: String| s@) == csv_header_spec(stage),
{
    let mut row: Vec<String> = Vec::new();
    if stage == 0 {
        row.push(String::from_str("block_batch_size"));
        row.push(String::from_str("batch_concurrency"));
    } else {
        row.push(String::from_str("tx_batch"));
        row.push(String::from_str("tx_concurrency"));
    }
    row.push(String::from_str("time"));
    assert(row@.map_values(|s: String| s@) =~= csv_header_spec(stage));
    row
}


/// The timing file lies in the directory `csv`, its name ends with the name
/// of the stage and `.csv`, and between them stand the characters of the
/// address after its eighth byte with no slash left: every other character
/// of it is kept.
pub proof fn law_csv_name_in_csv_dir(node: Seq<char>, stage: u64)
    ensures
        ({
            let name = csv_file_name_spec(node, stage);
            let end = stage_suffix(stage) + ".csv"@;
            let mid = name.subrange(4, name.len() - end.len());
            &&& name.len() >= 4 + end.len()
            &&& name.subrange(0, 4) == "csv/"@
            &&& name.subrange(name.len() - end.len(), name.len() as int) == end
            &&& forall|i: int| 0 <= i < mid.len() ==> #[trigger] mid[i] != '/'
            &&& forall|j: int|
                0 <= j < node_tail(node).len() && #[trigger] node_tail(node)[j] != '/' ==> mid.contains(
                    node_tail(node)[j],
                )
        }),
{
    reveal_strlit("csv/");
    let t = node_tail(node);
    let kept = t.filter(|c: char| not_slash(c));
    let end = stage_suffix(stage) + ".csv"@;
    let name = "csv/"@ + kept + stage_suffix(stage) + ".csv"@;
    assert(name == "csv/"@ + kept + end);
    assert(name.subrange(0, 4) =~= "csv/"@);
    assert(name.subrange(name.len() - end.len(), name.len() as int) =~= end);
    let mid = name.subrange(4, name.len() - end.len());
    assert(mid =~= kept);
    assert forall|i: int| 0 <= i < mid.len() implies #[trigger] mid[i] != '/' by {
        t.lemma_filter_pred(|c: char| not_slash(c), i);
    }
    assert forall|j: int| 0 <= j < t.len() && #[trigger] t[j] != '/' implies mid.contains(t[j]) by {
        t.lemma_filter_contains(|c: char| not_slash(c), j);
    }
}

} // verus!
