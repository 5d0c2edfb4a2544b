use vstd::prelude::*;

pub use crate::hex::from_hex_to_int;
use crate::json::{jv_at, jv_get, parse_json, parsed_json, Json, JsonError, JsonValue};

verus! {

/// `objs[i]["result"][name]`, where each step finds something.
pub open spec fn result_field(objs: JsonValue, i: int, name: Seq<char>) -> Option<JsonValue> {
    match jv_at(objs, i) {
        Some(o) => match jv_get(o, "result"@) {
            Some(r) => jv_get(r, name),
            None => None,
        },
        None => None,
    }
}

/// Every value is a string.
pub open spec fn all_strings(items: Seq<JsonValue>) -> bool {
    forall|i: int| 0 <= i < items.len() ==> (#[trigger] items[i]) is Str
}

/// The texts of values that are strings.
pub open spec fn strings_of(items: Seq<JsonValue>) -> Seq<Seq<char>> {
    Seq::new(items.len(), |i: int| items[i]->Str_0)
}

/// The transaction hashes of the `i`-th block of a batch answer:
/// `objs[i]["result"]["transactions"]`, a list of strings.
pub open spec fn block_hashes_at(objs: JsonValue, i: int) -> Option<Seq<Seq<char>>> {
    match result_field(objs, i, "transactions"@) {
        Some(JsonValue::Array(items)) => if all_strings(items) {
            Some(strings_of(items))
        } else {
            None
        },
        _ => None,
    }
}

/// The transaction hashes of the first `n` blocks of a batch answer, block
/// after block; `None` where one of them is not a list of strings.
pub open spec fn batch_hashes(objs: JsonValue, n: nat) -> Option<Seq<Seq<char>>> {
    if forall|i: int| 0 <= i < n ==> (#[trigger] block_hashes_at(objs, i)) is Some {
        Some(Seq::new(n, |i: int| block_hashes_at(objs, i)->0).flatten())
    } else {
        None
    }
}

/// The gas used by the `i`-th transaction of a batch of receipts:
/// `objs[i]["result"]["gasUsed"]`, a string.
pub open spec fn gas_at(objs: JsonValue, i: int) -> Option<Seq<char>> {
    match result_field(objs, i, "gasUsed"@) {
        Some(JsonValue::Str(g)) => Some(g),
        _ => None,
    }
}

/// The gas used by the first `n` transactions of a batch of receipts;
/// `None` where one of them has none.
pub open spec fn batch_gas(objs: JsonValue, n: nat) -> Option<Seq<Seq<char>>> {
    if forall|i: int| 0 <= i < n ==> (#[trigger] gas_at(objs, i)) is Some {
        Some(Seq::new(n, |i: int| gas_at(objs, i)->0))
    } else {
        None
    }
}

/// The texts of strings.
pub open spec fn texts(v: Seq<String>) -> Seq<Seq<char>> {
    v.map_values(|s: String| s@)
}

/// `objs[i]["result"][name]`.
pub fn result_field_of<'a>(objs: &'a Json, i: usize, name: &str) -> (r: Option<&'a Json>)
    ensures
        match r {
            Some(x) => result_field(objs@, i as int, name@) == Some(x@),
            None => result_field(objs@, i as int, name@) is None,
        },
{
    let o = objs.at(i);
    match o {
        Some(o) => {
            let res = o.get("result");
            match res {
                Some(res) => res.get(name),
                None => None,
            }
        },
        None => None,
    }
}

/// The texts of a list of values that are all strings.
fn collect_strings(items: &Vec<Json>, out: &mut Vec<String>) -> (ok: bool)
    ensures
        ({
            let vs = items@.map_values(|j: Json| j@);
            &&& ok == all_strings(vs)
            &&& ok ==> texts(final(out)@) == texts(old(out)@) + strings_of(vs)
        }),
{
    let ghost vs = items@.map_values(|j: Json| j@);
    let ghost start = texts(out@);
    let mut k: usize = 0;
    while k < items.len()
        invariant
            k <= items@.len(),
            vs == items@.map_values(|j: Json| j@),
            forall|j: int| 0 <= j < k ==> (#[trigger] vs[j]) is Str,
            texts(out@) == start + strings_of(vs.subrange(0, k as int)),
        decreases items@.len() - k,
    {
        match items[k].as_str() {
            Some(s) => {
                let ghost before = out@;
                out.push(s.clone());
                assert(texts(out@) =~= texts(before).push(s@));
                assert(strings_of(vs.subrange(0, k + 1)) =~= strings_of(vs.subrange(0, k as int)).push(
                    s@,
                ));
            },
            None => {
                assert(!(vs[k as int] is Str));
                return false;
            },
        }
        k = k + 1;
    }
    assert(vs.subrange(0, k as int) =~= vs);
    true
}

/// The transaction hashes of the first `batch_size` blocks of a batch
/// answer, where each holds a list of them.
pub fn collect_hashes(objs: &Json, batch_size: usize) -> (r: Option<Vec<String>>)
    ensures
        match r {
            Some(v) => batch_hashes(objs@, batch_size as nat) == Some(texts(v@)),
            None => batch_hashes(objs@, batch_size as nat) is None,
        },
{
    let ghost f = |i: int| block_hashes_at(objs@, i)->0;
    let mut out: Vec<String> = Vec::new();
    let mut i: usize = 0;
    while i < batch_size
        invariant
            i <= batch_size,
            f == (|i: int| block_hashes_at(objs@, i)->0),
            forall|j: int| 0 <= j < i ==> (#[trigger] block_hashes_at(objs@, j)) is Some,
            texts(out@) == Seq::new(i as nat, f).flatten_alt(),
        decreases batch_size - i,
    {
        let field = result_field_of(objs, i, "transactions");
        let items = match field {
            Some(t) => t.as_array(),
            None => None,
        };
        match items {
            Some(items) => {
                proof {
                    assert(items@.map_values(|j: Json| j@) =~= field->0@->Array_0);
                }
                let ok = collect_strings(items, &mut out);
                if !ok {
                    assert(block_hashes_at(objs@, i as int) is None);
                    return None;
                }
                proof {
                    assert(Seq::new((i + 1) as nat, f).drop_last() =~= Seq::new(i as nat, f));
                }
            },
            None => {
                assert(block_hashes_at(objs@, i as int) is None);
                return None;
            },
        }
        i = i + 1;
    }
    proof {
        Seq::new(batch_size as nat, f).lemma_flatten_and_flatten_alt_are_equivalent();
    }
    Some(out)
}

/// The gas used by the first `batch_size` transactions of a batch of
/// receipts, where each holds it.
pub fn collect_gas(objs: &Json, batch_size: usize) -> (r: Option<Vec<String>>)
    ensures
        match r {
            Some(v) => batch_gas(objs@, batch_size as nat) == Some(texts(v@)),
            None => batch_gas(objs@, batch_size as nat) is None,
        },
{
    let mut out: Vec<String> = Vec::new();
    let mut i: usize = 0;
    while i < batch_size
        invariant
            i <= batch_size,
            out@.len() == i,
            forall|j: int| 0 <= j < i ==> (#[trigger] gas_at(objs@, j)) is Some && texts(out@)[j]
                == gas_at(objs@, j)->0,
        decreases batch_size - i,
    {
        let field = result_field_of(objs, i, "gasUsed");
        let g = match field {
            Some(t) => t.as_str(),
            None => None,
        };
        match g {
            Some(g) => {
                out.push(g.clone());
            },
            None => {
                assert(gas_at(objs@, i as int) is None);
                return None;
            },
        }
        i = i + 1;
    }
    assert(texts(out@) =~= Seq::new(batch_size as nat, |i: int| gas_at(objs@, i)->0));
    Some(out)
}


/// Reads the transaction hashes of the first `batch_size` blocks of a batch
/// answer to `eth_getBlockByNumber`.  Every one of those blocks must hold a
/// list of hash strings.
pub fn parse_hashes_from_json(json: String, batch_size: usize) -> (r: Result<Vec<String>, JsonError>)
    requires
        parsed_json(json@) matches Ok(v) ==> batch_hashes(v, batch_size as nat) is Some,
    ensures
        match r {
            Ok(h) => parsed_json(json@) matches Ok(v) && batch_hashes(v, batch_size as nat)
                == Some(texts(h@)),
            Err(k) => parsed_json(json@) == Err::<JsonValue, JsonError>(k),
        },
{
    let objs = match parse_json(json.as_str()) {
        Ok(j) => j,
        Err(k) => return Err(k),
    };
    let hashes = collect_hashes(&objs, batch_size);
    Ok(hashes.unwrap())
}

/// Reads the gas used by the first `batch_size` transactions of a batch
/// answer to `eth_getTransactionReceipt`.  Every one of them must hold it as
/// a string.
pub fn parse_gas_from_json(json: String, batch_size: usize) -> (r: Result<Vec<String>, JsonError>)
    requires
        parsed_json(json@) matches Ok(v) ==> batch_gas(v, batch_size as nat) is Some,
    ensures
        match r {
            Ok(g) => parsed_json(json@) matches Ok(v) && batch_gas(v, batch_size as nat) == Some(
                texts(g@),
            ),
            Err(k) => parsed_json(json@) == Err::<JsonValue, JsonError>(k),
        },
{
    let objs = match parse_json(json.as_str()) {
        Ok(j) => j,
        Err(k) => return Err(k),
    };
    let gas = collect_gas(&objs, batch_size);
    Ok(gas.unwrap())
}

/// Like `parse_hashes_from_json`, for any answer: `Ok(None)` where one of
/// the blocks does not hold a list of hash strings.
pub fn try_parse_hashes_from_json(json: String, batch_size: usize) -> (r: Result<
    Option<Vec<String>>,
    JsonError,
>)
    ensures
        match r {
            Ok(Some(h)) => parsed_json(json@) matches Ok(v) && batch_hashes(v, batch_size as nat)
                == Some(texts(h@)),
            Ok(None) => parsed_json(json@) matches Ok(v) && batch_hashes(
                v,
                batch_size as nat,
            ) is None,
            Err(k) => parsed_json(json@) == Err::<JsonValue, JsonError>(k),
        },
{
    let objs = match parse_json(json.as_str()) {
        Ok(j) => j,
        Err(k) => return Err(k),
    };
    if collect_hashes(&objs, batch_size).is_none() {
        return Ok(None);
    }
    match parse_hashes_from_json(json, batch_size) {
        Ok(h) => Ok(Some(h)),
        Err(e) => Err(e),
    }
}

/// Like `parse_gas_from_json`, for any answer: `Ok(None)` where one of the
/// receipts does not hold the gas as a string.
pub fn try_parse_gas_from_json(json: String, batch_size: usize) -> (r: Result<
    Option<Vec<String>>,
    JsonError,
>)
    ensures
        match r {
            Ok(Some(g)) => parsed_json(json@) matches Ok(v) && batch_gas(v, batch_size as nat)
                == Some(texts(g@)),
            Ok(None) => parsed_json(json@) matches Ok(v) && batch_gas(
                v,
                batch_size as nat,
            ) is None,
            Err(k) => parsed_json(json@) == Err::<JsonValue, JsonError>(k),
        },
{
    let objs = match parse_json(json.as_str()) {
        Ok(j) => j,
        Err(k) => return Err(k),
    };
    if collect_gas(&objs, batch_size).is_none() {
        return Ok(None);
    }
    match parse_gas_from_json(json, batch_size) {
        Ok(g) => Ok(Some(g)),
        Err(e) => Err(e),
    }
}


/// The number of items of a reply that is a JSON array.
pub open spec fn reply_len(reply: JsonValue) -> nat {
    match reply {
        JsonValue::Array(items) => items.len(),
        _ => 0,
    }
}

/// The transaction hashes of every block of a batch reply; `None` where the
/// reply is no array or one of its blocks holds no list of hash strings.
pub fn reply_hashes(reply: &Json) -> (r: Option<Vec<String>>)
    ensures
        match r {
            Some(v) => reply@ is Array && batch_hashes(reply@, reply_len(reply@)) == Some(texts(v@)),
            None => !(reply@ is Array) || batch_hashes(reply@, reply_len(reply@)) is None,
        },
{
    match reply.as_array() {
        Some(items) => collect_hashes(reply, items.len()),
        None => None,
    }
}

/// The gas used by every transaction of a batch reply of receipts; `None`
/// where the reply is no array or one of its receipts holds no gas string.
pub fn reply_gas(reply: &Json) -> (r: Option<Vec<String>>)
    ensures
        match r {
            Some(v) => reply@ is Array && batch_gas(reply@, reply_len(reply@)) == Some(texts(v@)),
            None => !(reply@ is Array) || batch_gas(reply@, reply_len(reply@)) is None,
        },
{
    match reply.as_array() {
        Some(items) => collect_gas(reply, items.len()),
        None => None,
    }
}


/// The hashes read for block `i` are exactly the strings of
/// `objs[i]["result"]["transactions"]`, in order, one for one, and nothing
/// else of the block; where that is no list of strings none are read.
pub proof fn law_block_hashes_are_its_transactions(objs: JsonValue, i: int)
    ensures
        block_hashes_at(objs, i) matches Some(x) ==> (result_field(objs, i, "transactions"@) matches Some(
            JsonValue::Array(items),
        ) && x.len() == items.len() && forall|k: int|
            0 <= k < x.len() ==> items[k] == JsonValue::Str(#[trigger] x[k])),
        block_hashes_at(objs, i) is None ==> !(result_field(objs, i, "transactions"@) matches Some(
            JsonValue::Array(items),
        ) && forall|k: int| 0 <= k < items.len() ==> (#[trigger] items[k]) is Str),
{
    if let Some(JsonValue::Array(items)) = result_field(objs, i, "transactions"@) {
        if all_strings(items) {
            let x = strings_of(items);
            assert forall|k: int| 0 <= k < x.len() implies items[k] == JsonValue::Str(#[trigger] x[k]) by {
                assert(items[k] is Str);
            }
        }
    }
}

/// The hashes of the first `n + 1` blocks are those of the first `n`
/// followed by those of block `n`; there are none for no block.
pub proof fn law_batch_hashes_block_by_block(objs: JsonValue, n: nat)
    ensures
        batch_hashes(objs, 0) == Some(Seq::<Seq<char>>::empty()),
        batch_hashes(objs, n + 1) is Some <==> (batch_hashes(objs, n) is Some && block_hashes_at(
            objs,
            n as int,
        ) is Some),
        batch_hashes(objs, n + 1) is Some ==> batch_hashes(objs, n + 1)->0 == batch_hashes(objs, n)->0
            + block_hashes_at(objs, n as int)->0,
{
    let f = |i: int| block_hashes_at(objs, i)->0;
    assert(Seq::new(0, f) =~= Seq::<Seq<Seq<char>>>::empty());
    assert(Seq::<Seq<Seq<char>>>::empty().flatten() == Seq::<Seq<char>>::empty());
    if batch_hashes(objs, n + 1) is Some {
        assert(block_hashes_at(objs, n as int) is Some);
        assert forall|i: int| 0 <= i < n implies (#[trigger] block_hashes_at(objs, i)) is Some by {
            assert(block_hashes_at(objs, i) is Some);
        }
    }
    if batch_hashes(objs, n) is Some && block_hashes_at(objs, n as int) is Some {
        assert forall|i: int| 0 <= i < n + 1 implies (#[trigger] block_hashes_at(objs, i)) is Some by {
            if i < n {
                assert(block_hashes_at(objs, i) is Some);
            }
        }
    }
    let big = Seq::new(n + 1, f);
    let small = Seq::new(n, f);
    big.lemma_flatten_and_flatten_alt_are_equivalent();
    small.lemma_flatten_and_flatten_alt_are_equivalent();
    assert(big.drop_last() =~= small);
}

/// The gas read for the first `n` receipts is, for each, exactly the string
/// at `objs[i]["result"]["gasUsed"]`, whatever other fields the receipt has;
/// it is read whenever every one of them holds that string.
pub proof fn law_gas_is_gas_used(objs: JsonValue, n: nat)
    ensures
        batch_gas(objs, n) matches Some(gs) ==> gs.len() == n && forall|i: int|
            0 <= i < n ==> result_field(objs, i, "gasUsed"@) == Some(JsonValue::Str(#[trigger] gs[i])),
        (forall|i: int|
            0 <= i < n ==> (#[trigger] result_field(objs, i, "gasUsed"@)) matches Some(
                JsonValue::Str(_),
            )) ==> batch_gas(objs, n) is Some,
{
    if batch_gas(objs, n) is Some {
        let gs = batch_gas(objs, n)->0;
        assert forall|i: int| 0 <= i < n implies result_field(objs, i, "gasUsed"@) == Some(
            JsonValue::Str(#[trigger] gs[i]),
        ) by {
            assert(gas_at(objs, i) is Some);
        }
    }
    if forall|i: int|
        0 <= i < n ==> (#[trigger] result_field(objs, i, "gasUsed"@)) matches Some(JsonValue::Str(_)) {
        assert forall|i: int| 0 <= i < n implies (#[trigger] gas_at(objs, i)) is Some by {
            assert(result_field(objs, i, "gasUsed"@) matches Some(JsonValue::Str(_)));
        }
    }
}

} // verus!
