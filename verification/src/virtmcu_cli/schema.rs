//! Keeping the schema of a world in order.
use vstd::prelude::*;

use crate::json;
use crate::json::{
    list_value, parse_json, parts_of, pretty_json, text_value, with_values, JsonParts, JsonView,
};
use crate::sorting;
use crate::text;
use crate::text::{
    begins_with, contains_text, joined2, no_items, owned, push_item, replace_text, same_text,
};

verus! {

/// Where a reference points once it stays within the schema.
pub open spec fn fixed_ref(s: Seq<char>) -> Seq<char> {
    if s.len() > 0 && s[0] == '#' {
        s
    } else {
        "#/$defs/"@ + text::replaced(text::replaced(s, ".yaml"@, ""@), ".json"@, ""@)
    }
}

/// A value with every reference to another file turned into one within the schema.
pub open spec fn fixed_refs(j: JsonView) -> JsonView
    decreases j,
{
    match j {
        JsonView::List(list) => JsonView::List(
            Seq::new(
                list.len(),
                |i: int|
                    if 0 <= i < list.len() {
                        fixed_refs(list[i])
                    } else {
                        JsonView::Null
                    },
            ),
        ),
        JsonView::Object(list) => JsonView::Object(
            Seq::new(
                list.len(),
                |i: int|
                    if 0 <= i < list.len() {
                        (
                            list[i].0,
                            match list[i].1 {
                                JsonView::Text(s) => if list[i].0 == "$ref"@ {
                                    JsonView::Text(fixed_ref(s))
                                } else {
                                    JsonView::Text(s)
                                },
                                _ => fixed_refs(list[i].1),
                            },
                        )
                    } else {
                        (""@, JsonView::Null)
                    },
            ),
        ),
        _ => j,
    }
}

/// Where a reference points once it stays within the schema.
pub fn fix_ref(s: &str) -> (r: String)
    ensures
        r@ == fixed_ref(s@),
{
    if begins_with(s, '#') {
        owned(s)
    } else {
        proof {
            reveal_strlit(".yaml");
            reveal_strlit(".json");
        }
        let short = replace_text(replace_text(s, ".yaml", "").as_str(), ".json", "");
        joined2("#/$defs/", short.as_str())
    }
}

fn fixed_list(items: Vec<serde_json::Value>) -> (r: Vec<serde_json::Value>)
    ensures
        r@.len() == items@.len(),
        forall|i: int|
            0 <= i < r@.len() ==> json::json_contents(#[trigger] r@[i]) == fixed_refs(
                json::json_contents(items@[i]),
            ),
    decreases json::all_contents(items@), 0nat,
{
    let mut out: Vec<serde_json::Value> = Vec::new();
    let ghost all = items@;
    for x in it: items
        invariant
            it.seq() == all,
            out@.len() == it.index(),
            forall|i: int|
                0 <= i < out@.len() ==> json::json_contents(#[trigger] out@[i]) == fixed_refs(
                    json::json_contents(all[i]),
                ),
    {
        proof {
            assert(json::all_contents(all)[it.index()] == json::json_contents(x));
        }
        out.push(fixed(x));
    }
    out
}

/// What a member holds once references are fixed.
pub open spec fn fixed_member(name: Seq<char>, j: JsonView) -> JsonView {
    match j {
        JsonView::Text(s) => if name == "$ref"@ {
            JsonView::Text(fixed_ref(s))
        } else {
            JsonView::Text(s)
        },
        _ => fixed_refs(j),
    }
}

fn fixed_members(names: &Vec<String>, values: Vec<serde_json::Value>) -> (r: Vec<
    serde_json::Value,
>)
    requires
        names@.len() == values@.len(),
    ensures
        r@.len() == values@.len(),
        forall|i: int|
            0 <= i < r@.len() ==> json::json_contents(#[trigger] r@[i]) == fixed_member(
                names@[i]@,
                json::json_contents(values@[i]),
            ),
    decreases json::members(sorting::views(names@), json::all_contents(values@)), 0nat,
{
    let mut out: Vec<serde_json::Value> = Vec::new();
    let ghost all = values@;
    for x in it: values
        invariant
            it.seq() == all,
            names@.len() == all.len(),
            out@.len() == it.index(),
            forall|i: int|
                0 <= i < out@.len() ==> json::json_contents(#[trigger] out@[i]) == fixed_member(
                    names@[i]@,
                    json::json_contents(all[i]),
                ),
    {
        proof {
            let list = json::members(sorting::views(names@), json::all_contents(all));
            let pair = list[it.index()];
            assert(pair.1 == json::json_contents(x));
            assert(decreases_to!(list => pair));
            assert(decreases_to!(pair => pair.1));
        }
        let name = names[out.len()].as_str();
        let value = match parts_of(&x) {
            JsonParts::Text(s) => {
                if same_text(name, "$ref") {
                    text_value(fix_ref(s.as_str()).as_str())
                } else {
                    x
                }
            },
            _ => fixed(x),
        };
        out.push(value);
    }
    out
}

fn fixed(v: serde_json::Value) -> (r: serde_json::Value)
    ensures
        json::json_contents(r) == fixed_refs(json::json_contents(v)),
    decreases json::json_contents(v), 0nat,
{
    match parts_of(&v) {
        JsonParts::List(items) => {
            let out = fixed_list(items);
            let r = list_value(out);
            proof {
                assert(json::json_contents(r)->List_0 =~= fixed_refs(json::json_contents(v))->List_0);
            }
            r
        },
        JsonParts::Object(names, values) => {
            let ghost j = json::json_contents(v);
            let ghost texts = sorting::views(names@);
            let ghost all = json::all_contents(values@);
            proof {
                assert(j->Object_0 == json::members(texts, all));
                assert(decreases_to!(j => j->Object_0));
            }
            let out = fixed_members(&names, values);
            let r = with_values(v, out);
            proof {
                assert(json::json_contents(r)->Object_0 =~= fixed_refs(j)->Object_0);
            }
            r
        },
        _ => v,
    }
}

/// Turns every reference to another file into one within the schema.
pub fn fix_json_refs(v: &mut serde_json::Value)
    ensures
        json::json_contents(*final(v)) == fixed_refs(json::json_contents(*old(v))),
{
    let mut taken = text_value("");
    std::mem::swap(&mut taken, v);
    *v = fixed(taken);
}

/// The text of a schema once every reference to another file is one within it; `None` if it is no
/// JSON, or cannot be printed.
pub fn fixed_schema(json: &str) -> (r: Option<String>)
    ensures
        match json::json_tree_of(json@) {
            Some(tree) => text::optional(r) == json::json_pretty_of(fixed_refs(tree)),
            None => r is None,
        },
{
    match parse_json(json) {
        Ok(mut v) => {
            fix_json_refs(&mut v);
            match pretty_json(&v) {
                Ok(s) => Some(s),
                Err(_) => None,
            }
        },
        Err(_) => None,
    }
}

proof fn lemma_fixed_ref_again(s: Seq<char>)
    ensures
        fixed_ref(fixed_ref(s)) == fixed_ref(s),
{
    reveal_strlit("#/$defs/");
    assert("#/$defs/"@[0] == '#');
}

/// A schema whose references were fixed stays as it is when they are fixed again.
pub proof fn law_fixed_refs_stay(j: JsonView)
    ensures
        fixed_refs(fixed_refs(j)) == fixed_refs(j),
    decreases j,
{
    let once = fixed_refs(j);
    match j {
        JsonView::List(list) => {
            assert forall|i: int| 0 <= i < list.len() implies #[trigger] fixed_refs(
                once,
            )->List_0[i] == once->List_0[i] by {
                law_fixed_refs_stay(list[i]);
            }
            assert(fixed_refs(once)->List_0 =~= once->List_0);
        },
        JsonView::Object(list) => {
            assert forall|i: int| 0 <= i < list.len() implies #[trigger] fixed_refs(
                once,
            )->Object_0[i] == once->Object_0[i] by {
                match list[i].1 {
                    JsonView::Text(s) => {
                        lemma_fixed_ref_again(s);
                    },
                    _ => {
                        law_fixed_refs_stay(list[i].1);
                        assert(!(fixed_refs(list[i].1) is Text));
                    },
                }
            }
            assert(fixed_refs(once)->Object_0 =~= once->Object_0);
        },
        _ => {},
    }
}

/// The file that holds the schema.
pub const SCHEMA_FILE: &'static str = "schema/world_schema.json";

/// The file that is made from the schema.
pub const MODEL_FILE: &'static str = "tools/deterministic_coordinator/src/generated/topology.rs";

/// Those of the two files that the state of the repository names.
pub open spec fn stale_files_of(status: Seq<char>) -> Seq<Seq<char>> {
    (if text::occurs(status, SCHEMA_FILE@) {
        seq![SCHEMA_FILE@]
    } else {
        Seq::empty()
    }) + (if text::occurs(status, MODEL_FILE@) {
        seq![MODEL_FILE@]
    } else {
        Seq::empty()
    })
}

/// Tells which of the files that belong to the schema are out of date: those that the state of the
/// repository names. They are in order if none is.
pub fn stale_files(status: &str) -> (r: Vec<String>)
    ensures
        sorting::views(r@) == stale_files_of(status@),
{
    let mut r = no_items();
    if contains_text(status, SCHEMA_FILE) {
        push_item(&mut r, SCHEMA_FILE);
    }
    if contains_text(status, MODEL_FILE) {
        push_item(&mut r, MODEL_FILE);
    }
    proof {
        assert(sorting::views(r@) =~= stale_files_of(status@));
    }
    r
}

} // verus!
