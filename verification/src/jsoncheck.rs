//! JSON object checking for push payloads.
//!
//! Whether a text parses as a JSON object, and which top-level keys that
//! object has, are functions of the text alone; they are stated by name and
//! supplied by `serde_json`.

use vstd::prelude::*;
use crate::text::str_eq;

verus! {

/// The top-level keys of `s` parsed as a JSON object, or `None` when `s` is
/// not the text of a JSON object.
pub uninterp spec fn json_object_keys(s: Seq<char>) -> Option<Set<Seq<char>>>;

/// Relies on `serde_json::from_str::<serde_json::Value>`: parsing is a
/// function of the text alone, and only the `Object` variant carries
/// top-level keys — any other parse, or a parse failure, is not an object.
#[verifier::external_body]
fn parse_object_keys(s: &str) -> (r: Option<Vec<String>>)
    ensures
        r is Some <==> json_object_keys(s@) is Some,
        match r {
            Some(ks) => {
                &&& json_object_keys(s@) == Some(ks@.map_values(|k: String| k@).to_set())
                &&& forall|i: int, j: int| 0 <= i < j < ks@.len() ==> ks@[i]@ != ks@[j]@
            },
            None => true,
        },
{
    match serde_json::from_str::<serde_json::Value>(s) {
        Ok(serde_json::Value::Object(m)) => Some(m.into_iter().map(|kv| kv.0).collect()),
        Ok(serde_json::Value::Null) => None,
        Ok(serde_json::Value::Bool(_)) => None,
        Ok(serde_json::Value::Number(_)) => None,
        Ok(serde_json::Value::String(_)) => None,
        Ok(serde_json::Value::Array(_)) => None,
        Err(_) => None,
    }
}

/// Whether `s` is the text of a JSON object.
pub fn is_json_object(s: &str) -> (r: bool)
    ensures
        r == (json_object_keys(s@) is Some),
{
    parse_object_keys(s).is_some()
}

/// Whether `s` is the text of a JSON object that has both a "title" and a
/// "body" key — the shape a push payload must render to.
pub fn is_push_shape(s: &str) -> (r: bool)
    ensures
        r == spec_push_shape(s@),
{
    proof {
        reveal_strlit("title");
        reveal_strlit("body");
    }
    match parse_object_keys(s) {
        None => false,
        Some(ks) => {
            let ghost key_set = ks@.map_values(|k: String| k@).to_set();
            let mut has_title = false;
            let mut has_body = false;
            let mut i: usize = 0;
            while i < ks.len()
                invariant
                    i <= ks.len(),
                    json_object_keys(s@) == Some(key_set),
                    key_set == ks@.map_values(|k: String| k@).to_set(),
                    has_title == exists|j: int| 0 <= j < i && ks@[j]@ == "title"@,
                    has_body == exists|j: int| 0 <= j < i && ks@[j]@ == "body"@,
                decreases ks.len() - i,
            {
                proof {
                    reveal_strlit("title");
                    reveal_strlit("body");
                    assert("title"@.len() == 5);
                    assert("body"@.len() == 4);
                    assert("title"@ != "body"@);
                }
                if str_eq(ks[i].as_str(), "title") {
                    has_title = true;
                } else if str_eq(ks[i].as_str(), "body") {
                    has_body = true;
                }
                proof {
                    assert((exists|j: int| 0 <= j < i + 1 && ks@[j]@ == "title"@) == ((exists|
                        j: int,
                    | 0 <= j < i && ks@[j]@ == "title"@) || ks@[i as int]@ == "title"@));
                    assert((exists|j: int| 0 <= j < i + 1 && ks@[j]@ == "body"@) == ((exists|
                        j: int,
                    | 0 <= j < i && ks@[j]@ == "body"@) || ks@[i as int]@ == "body"@));
                }
                i += 1;
            }
            proof {
                let mapped = ks@.map_values(|k: String| k@);
                assert(has_title == key_set.contains("title"@)) by {
                    if has_title {
                        let j = choose|j: int| 0 <= j < ks@.len() && ks@[j]@ == "title"@;
                        assert(mapped[j] == "title"@);
                        assert(mapped.contains("title"@));
                    } else {
                        if key_set.contains("title"@) {
                            assert(mapped.contains("title"@));
                            let j = choose|j: int|
                                0 <= j < mapped.len() && mapped[j] == "title"@;
                            assert(ks@[j]@ == "title"@);
                        }
                    }
                }
                assert(has_body == key_set.contains("body"@)) by {
                    if has_body {
                        let j = choose|j: int| 0 <= j < ks@.len() && ks@[j]@ == "body"@;
                        assert(mapped[j] == "body"@);
                        assert(mapped.contains("body"@));
                    } else {
                        if key_set.contains("body"@) {
                            assert(mapped.contains("body"@));
                            let j = choose|j: int|
                                0 <= j < mapped.len() && mapped[j] == "body"@;
                            assert(ks@[j]@ == "body"@);
                        }
                    }
                }
            }
            has_title && has_body
        },
    }
}

/// A push render output must be a JSON object holding "title" and "body".
pub open spec fn spec_push_shape(s: Seq<char>) -> bool {
    match json_object_keys(s) {
        None => false,
        Some(ks) => ks.contains("title"@) && ks.contains("body"@),
    }
}

} // verus!
