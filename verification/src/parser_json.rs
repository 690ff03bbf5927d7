//! JSON format adapter: URLs live in a top-level `urls` array. The JSON
//! parse itself is the work of `serde_json`; its result is named by
//! [`json_string_items`] and the selection of string items is verified.

use vstd::prelude::*;

verus! {

/// The items of the top-level array under `key` in the JSON document
/// `content`: `None` when the document does not parse, or `key` is
/// absent, or its value is not an array; otherwise one entry per array
/// element, in order, strings as `Some` and any other element as
/// `None`.
pub uninterp spec fn json_string_items(content: Seq<char>, key: Seq<char>) -> Option<
    Seq<Option<Seq<char>>>,
>;

/// Relies on `serde_json::from_str`, `Value::get`, `Value::as_array`
/// and `Value::as_str`: reads the top-level array under `key` out of
/// `content`, element by element.
#[verifier::external_body]
fn read_json_string_items(content: &str, key: &str) -> (items: Option<Vec<Option<String>>>)
    ensures
        items.deep_view() == json_string_items(content@, key@),
{
    let parsed: serde_json::Value = match serde_json::from_str(content) {
        Ok(value) => value,
        Err(_) => return None,
    };
    let field = match parsed.get(key) {
        Some(field) => field,
        None => return None,
    };
    let array = match field.as_array() {
        Some(array) => array,
        None => return None,
    };
    Some(array.iter().map(|element| element.as_str().map(|s| s.to_string())).collect())
}

/// The `Some` entries of `items`, in order.
pub open spec fn some_strings(items: Seq<Option<Seq<char>>>) -> Seq<Seq<char>>
    decreases items.len(),
{
    if items.len() == 0 {
        seq![]
    } else {
        let rest = some_strings(items.skip(1));
        match items[0] {
            Some(s) => seq![s] + rest,
            None => rest,
        }
    }
}

/// What a JSON document contributes: its array's string items, in
/// order; an unreadable document or a missing array contributes
/// nothing.
pub open spec fn json_urls(items: Option<Seq<Option<Seq<char>>>>) -> Seq<Seq<char>> {
    match items {
        None => seq![],
        Some(its) => some_strings(its),
    }
}

/// The verified tail of JSON parsing: keeps the string items of the
/// array, in order, and drops everything else.
pub fn urls_from_json_items(items: Option<Vec<Option<String>>>) -> (urls: Vec<String>)
    ensures
        urls.deep_view() == json_urls(items.deep_view()),
{
    let mut out: Vec<String> = Vec::new();
    proof {
        assert(out.deep_view() =~= Seq::<Seq<char>>::empty());
    }
    match items {
        None => out,
        Some(its) => {
            let ghost dv = its.deep_view();
            let n = its.len();
            let mut i: usize = 0;
            proof {
                assert(dv.skip(0) =~= dv);
                assert(Seq::<Seq<char>>::empty() + some_strings(dv) =~= some_strings(dv));
            }
            while i < n
                invariant
                    n == its@.len(),
                    i <= n,
                    dv == its.deep_view(),
                    out.deep_view() + some_strings(dv.skip(i as int)) == some_strings(dv),
                decreases n - i,
            {
                let ghost before = out.deep_view();
                let ghost rest = dv.skip(i as int);
                proof {
                    assert(forall|m: int| 0 <= m < rest.len() ==> rest[m] == dv[m + i]);
                    assert(rest.skip(1) =~= dv.skip(i + 1));
                }
                match &its[i] {
                    Some(s) => {
                        proof {
                            assert(its@[i as int] == Some(*s));
                            assert(dv[i as int] == Some(s@));
                        }
                        out.push(s.clone());
                        proof {
                            assert(out.deep_view() =~= before + seq![s@]);
                            assert((before + seq![s@]) + some_strings(dv.skip(i + 1)) =~= before + (
                            seq![s@] + some_strings(dv.skip(i + 1))));
                        }
                    },
                    None => {
                        proof {
                            assert(its@[i as int] is None);
                            assert(dv[i as int] is None);
                        }
                    },
                }
                i += 1;
            }
            proof {
                assert(dv.skip(n as int).len() == 0);
                assert(some_strings(dv.skip(n as int)) =~= Seq::<Seq<char>>::empty());
                assert(out.deep_view() + Seq::<Seq<char>>::empty() =~= out.deep_view());
            }
            out
        },
    }
}

/// Parses a JSON document and extracts the URLs under its `urls` array
/// key. Malformed JSON, a missing key, a non-array value and
/// non-string elements all degrade to an empty contribution, never an
/// error.
pub fn parser_json(content: &str) -> (urls: Vec<String>)
    ensures
        urls.deep_view() == json_urls(json_string_items(content@, "urls"@)),
{
    urls_from_json_items(read_json_string_items(content, "urls"))
}

} // verus!
