//! Loading item records: each data file's text parses as a JSON array of
//! records, and all files' records are concatenated in file order. A single
//! malformed file fails the whole load (fail-fast, no partial catalog).
//!
//! What one text parses to is named by `parse_of`; the load contract is
//! stated over that name, file by file.

use crate::JsonValue;
use vstd::prelude::*;

verus! {

/// serde_json's dynamically typed value, declared so the conversion wrapper
/// can take it; the library never reads it directly.
#[verifier::external_type_specification]
#[verifier::external_body]
pub struct ExValue(serde_json::Value);

/// What parsing one file's text yields: the records of the JSON array the
/// text holds, moved into the library's model, or `None` when the text is
/// not a JSON array.
pub uninterp spec fn parse_of(text: Seq<char>) -> Option<Seq<JsonValue>>;

/// Relies on the shape of `serde_json::Value`: each variant is moved to the
/// library's corresponding value kind, one for one. Numbers carry no
/// payload in the library's model: the browser never displays one.
#[verifier::external_body]
fn from_value(v: serde_json::Value) -> (r: JsonValue) {
    match v {
        serde_json::Value::Null => JsonValue::Null,
        serde_json::Value::Bool(b) => JsonValue::Bool(b),
        serde_json::Value::Number(_) => JsonValue::Num,
        serde_json::Value::String(s) => JsonValue::Str(s),
        serde_json::Value::Array(a) => JsonValue::Arr(a.into_iter().map(from_value).collect()),
        serde_json::Value::Object(m) => JsonValue::Obj(
            m.into_iter().map(|(k, x)| (k, from_value(x))).collect(),
        ),
    }
}

/// Relies on `serde_json::from_str`: whether a text parses as a JSON array,
/// and what it parses to, is a function of the text alone, so the outcome
/// is exactly `parse_of` of the text; each parsed value is moved one for
/// one into the library's model by `from_value`.
#[verifier::external_body]
fn parse_value_array(text: &str) -> (r: Option<Vec<JsonValue>>)
    ensures
        match r {
            Some(v) => parse_of(text@) == Some(v@),
            None => parse_of(text@) is None,
        },
{
    serde_json::from_str::<Vec<serde_json::Value>>(text).ok().map(
        |values| values.into_iter().map(from_value).collect(),
    )
}

/// Parse one file's text as a JSON array of item records; `None` exactly
/// when the text is not one.
pub fn parse_records(text: &str) -> (r: Option<Vec<JsonValue>>)
    ensures
        match r {
            Some(v) => parse_of(text@) == Some(v@),
            None => parse_of(text@) is None,
        },
{
    parse_value_array(text)
}

/// The record sequences of a sequence of per-file batches.
pub open spec fn batches_view(s: Seq<Vec<JsonValue>>) -> Seq<Seq<JsonValue>> {
    s.map_values(|b: Vec<JsonValue>| b@)
}

/// Concatenate per-file record batches into one collection, preserving
/// per-file and intra-file order.
pub fn concat_records(batches: Vec<Vec<JsonValue>>) -> (r: Vec<JsonValue>)
    ensures
        r@ == batches_view(batches@).flatten(),
{
    let ghost orig = batches@;
    let mut batches = batches;
    let mut r: Vec<JsonValue> = Vec::new();
    let ghost mut done: int = 0;
    proof {
        assert(batches_view(orig.take(0)) =~= Seq::<Seq<JsonValue>>::empty());
        assert(batches_view(orig.take(0)).flatten() =~= Seq::<JsonValue>::empty());
    }
    while batches.len() > 0
        invariant
            0 <= done <= orig.len(),
            batches@ == orig.skip(done),
            r@ == batches_view(orig.take(done)).flatten(),
        decreases batches@.len(),
    {
        let mut b = batches.remove(0);
        proof {
            assert(b == orig[done]);
            assert(batches@ =~= orig.skip(done + 1));
        }
        let ghost bv = b@;
        r.append(&mut b);
        proof {
            assert(batches_view(orig.take(done + 1)) =~= batches_view(orig.take(done)).push(bv));
            Seq::lemma_flatten_push(batches_view(orig.take(done)), bv);
            done = done + 1;
        }
    }
    proof {
        assert(orig.take(done) =~= orig);
    }
    r
}

/// Which file failed to parse.
#[derive(Debug)]
pub struct LoadError {
    pub file_index: usize,
}

/// Every one of the file texts parses as a JSON array of records.
pub open spec fn all_parse(texts: Seq<String>) -> bool {
    forall|i: int| 0 <= i < texts.len() ==> (#[trigger] parse_of(texts[i]@)) is Some
}

/// What each file text parses to, file by file, assuming every text parses.
pub open spec fn parses_of(texts: Seq<String>) -> Seq<Seq<JsonValue>> {
    Seq::new(texts.len(), |i: int| parse_of(texts[i]@).unwrap())
}

/// Load the records of all data files, given each file's text in directory
/// order. Success exactly when every text parses as a JSON array of
/// records, and then the result is the files' records concatenated in file
/// order; otherwise the error names the first file that does not parse
/// (fail-fast: every earlier file parses, nothing is kept).
pub fn load_records(texts: &Vec<String>) -> (r: Result<Vec<JsonValue>, LoadError>)
    ensures
        (r is Ok) == all_parse(texts@),
        r matches Ok(v) ==> v@ == parses_of(texts@).flatten(),
        r matches Err(e) ==> {
            &&& e.file_index < texts@.len()
            &&& parse_of(texts@[e.file_index as int]@) is None
            &&& forall|i: int|
                0 <= i < e.file_index ==> (#[trigger] parse_of(texts@[i]@)) is Some
        },
{
    let mut batches: Vec<Vec<JsonValue>> = Vec::new();
    let mut i: usize = 0;
    proof {
        assert(batches_view(batches@) =~= parses_of(texts@).take(0));
    }
    while i < texts.len()
        invariant
            i <= texts.len(),
            forall|k: int| 0 <= k < i ==> (#[trigger] parse_of(texts@[k]@)) is Some,
            batches_view(batches@) == parses_of(texts@).take(i as int),
        decreases texts.len() - i,
    {
        let ghost old_b = batches@;
        match parse_records(texts[i].as_str()) {
            Some(records) => {
                proof {
                    assert(parse_of(texts@[i as int]@) == Some(records@));
                }
                batches.push(records);
                proof {
                    assert(batches_view(batches@) =~= batches_view(old_b).push(records@));
                    assert(parses_of(texts@)[i as int] == records@);
                    assert(parses_of(texts@).take(i + 1) =~= parses_of(texts@).take(
                        i as int,
                    ).push(parses_of(texts@)[i as int]));
                }
            },
            None => {
                return Err(LoadError { file_index: i });
            },
        }
        i += 1;
    }
    let records = concat_records(batches);
    proof {
        assert(parses_of(texts@).take(texts@.len() as int) =~= parses_of(texts@));
    }
    Ok(records)
}

} // verus!
