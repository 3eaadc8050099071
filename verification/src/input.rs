//! Reading the identifier list from its line-oriented form.
//!
//! Each input line is a small JSON object whose integer `id` field names
//! one remote resource. The whole list is decoded before any partitioning;
//! a malformed line fails the whole list, which the caller treats as a
//! fatal startup error.

use vstd::prelude::*;

verus! {

/// The identifier one input line carries, if the line is a JSON object with
/// an integer `id` field: a fixed function of the line's text alone.
pub uninterp spec fn id_of_line(s: Seq<char>) -> Option<usize>;

/// Relies on serde_json::from_str and serde_json::Value::get: reads the
/// integer `id` field of the JSON object on one line; a line that is not a
/// JSON object with such a field yields nothing. The result is a function
/// of the line's text alone.
#[verifier::external_body]
fn parse_id_line(line: &str) -> (id: Option<usize>)
    ensures
        id == id_of_line(line@),
{
    let v: serde_json::Value = match serde_json::from_str(line) {
        Ok(v) => v,
        Err(_) => return None,
    };
    v.get("id").and_then(|n| n.as_u64()).and_then(|n| usize::try_from(n).ok())
}

/// Decode the identifier list: one identifier per line, in line order.
/// Succeeds exactly when every line carries an identifier; one malformed
/// line fails the whole list.
pub fn make_ids(lines: &Vec<String>) -> (ids: Option<Vec<usize>>)
    ensures
        ids is Some <==> (forall|i: int|
            0 <= i < lines@.len() ==> id_of_line(#[trigger] lines@[i]@) is Some),
        ids matches Some(all_ids) ==> all_ids@ == Seq::new(
            lines@.len(),
            |i: int| id_of_line(lines@[i]@).unwrap(),
        ),
{
    let mut all_ids: Vec<usize> = Vec::new();
    let n = lines.len();
    let mut i: usize = 0;
    while i < n
        invariant
            n == lines@.len(),
            i <= n,
            all_ids@.len() == i,
            forall|j: int|
                0 <= j < i ==> id_of_line(#[trigger] lines@[j]@) is Some && all_ids@[j]
                    == id_of_line(lines@[j]@).unwrap(),
        decreases n - i,
    {
        let parsed = parse_id_line(lines[i].as_str());
        match parsed {
            Option::Some(id) => {
                all_ids.push(id);
            },
            Option::None => {
                return Option::None;
            },
        }
        i = i + 1;
    }
    proof {
        assert(all_ids@ =~= Seq::new(lines@.len(), |j: int| id_of_line(lines@[j]@).unwrap()));
    }
    Option::Some(all_ids)
}

} // verus!
