//! JSON encoding and decoding through serde_json, behind trusted
//! contracts, and the verified assembly of JSON string arrays.

use vstd::prelude::*;
use vstd::string::StringExecFns;

verus! {

/// The compact JSON string literal that serde_json writes for the text
/// `s`: quoted, with `"`, `\` and control characters escaped. The library
/// only names this value; it never spells the escaping out.
pub uninterp spec fn json_quoted(s: Seq<char>) -> Seq<char>;

/// Relies on `serde_json::to_string` for `&str`: it writes the value as a
/// JSON string literal — quoted, with `"`, `\` and every control character
/// escaped, so the result holds no raw newline — and cannot fail for a
/// string value.
#[verifier::external_body]
pub(crate) fn json_string(s: &str) -> (r: String)
    ensures
        r@ == json_quoted(s@),
        forall|i: int| 0 <= i < r@.len() ==> r@[i] != '\n',
{
    serde_json::to_string(s).unwrap()
}

/// What `parse_array_elements` returns for the text `s`: `None` where `s`
/// is not a JSON document with a top-level array, else the compact
/// serialization of each array element, in order.
pub uninterp spec fn json_array_elems(s: Seq<char>) -> Option<Seq<Seq<char>>>;

/// Relies on `serde_json::from_str::<Value>` and the `Display` form of
/// `serde_json::Value`: parses `s` as JSON and, where the document is a
/// top-level array, re-serializes each element compactly, in order.
/// Compact serialization escapes control characters, so no element holds a
/// raw newline.
#[verifier::external_body]
pub(crate) fn parse_array_elements(s: &str) -> (r: Option<Vec<String>>)
    ensures
        r.deep_view() == json_array_elems(s@),
        r matches Some(v) ==> forall|i: int, j: int|
            0 <= i < v.deep_view().len() && 0 <= j < v.deep_view()[i].len() ==> v.deep_view()[i][j]
                != '\n',
{
    match serde_json::from_str::<serde_json::Value>(s) {
        Ok(serde_json::Value::Array(items)) => Some(
            items.iter().map(|v| v.to_string()).collect(),
        ),
        _ => None,
    }
}

/// The inside of a JSON array of strings: the quoted items, separated by
/// commas.
pub open spec fn json_str_items(v: Seq<Seq<char>>) -> Seq<char>
    decreases v.len(),
{
    if v.len() == 0 {
        Seq::empty()
    } else if v.len() == 1 {
        json_quoted(v[0])
    } else {
        json_str_items(v.drop_last()) + ","@ + json_quoted(v.last())
    }
}

/// The JSON array holding the texts of `v` as strings, in order.
pub open spec fn json_str_array(v: Seq<Seq<char>>) -> Seq<char> {
    "["@ + json_str_items(v) + "]"@
}

/// Writes the texts of `items` as a JSON array of strings.
pub fn json_string_array(items: &Vec<String>) -> (r: String)
    ensures
        r@ == json_str_array(items.deep_view()),
{
    let ghost iv = items.deep_view();
    let mut s = "[".to_owned();
    let mut i: usize = 0;
    proof {
        assert(s@ =~= "["@ + json_str_items(iv.take(0)));
    }
    while i < items.len()
        invariant
            0 <= i <= items.len(),
            iv == items.deep_view(),
            iv.len() == items@.len(),
            s@ == "["@ + json_str_items(iv.take(i as int)),
        decreases items.len() - i,
    {
        if i > 0 {
            s.append(",");
        }
        let q = json_string(items[i].as_str());
        s.append(q.as_str());
        proof {
            assert(iv[i as int] == items@[i as int]@);
            if i == 0 {
                assert(json_str_items(iv.take(1)) == json_quoted(iv.take(1)[0]));
                assert(iv.take(1)[0] == iv[0]);
                assert(s@ =~= "["@ + json_str_items(iv.take(i + 1)));
            } else {
                assert(iv.take(i + 1).drop_last() =~= iv.take(i as int));
                assert(iv.take(i + 1).last() == iv[i as int]);
                assert(json_str_items(iv.take(i + 1)) == json_str_items(iv.take(i as int)) + ","@
                    + json_quoted(iv[i as int]));
                assert(s@ =~= "["@ + json_str_items(iv.take(i + 1)));
            }
        }
        i = i + 1;
    }
    s.append("]");
    proof {
        assert(iv.take(iv.len() as int) =~= iv);
        assert(s@ =~= json_str_array(iv));
    }
    s
}

} // verus!
