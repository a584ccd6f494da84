//! Arguments of the `Read` tool: what is valid, what is cleaned up before they
//! are handed on, and how a stalled stream of them is repaired.

use crate::json::{Json, JsonModel};
use crate::json_text::{json_read, json_written, read_json, write_json};
use crate::text::{
    byte_len, count_bytes, join, same_text, text_view, trim_end, without_trailing_space,
};
use vstd::prelude::*;

verus! {

/// A buffered `Read` call whose arguments end in this many bytes of white space
/// has stalled.
pub const BUFFERED_READ_REPAIR_TRAILING_WHITESPACE_BYTES: usize = 1_024;

/// Whether `Read` takes an argument of this name.
pub open spec fn is_read_key(key: Seq<char>) -> bool {
    key == "file_path"@ || key == "offset"@ || key == "limit"@ || key == "pages"@
}

/// Whether the arguments are ones that `Read` takes: an object without foreign
/// keys, with a non-empty path, and where given an offset that is an integer
/// from zero on, a limit that is an integer from one on, and pages that are a
/// string.
pub open spec fn valid_read_args(value: JsonModel) -> bool {
    match value {
        JsonModel::Object(entries) => {
            &&& forall|i: int| 0 <= i < entries.len() ==> is_read_key(#[trigger] entries[i].0)
            &&& value.text_at("file_path"@).len() > 0
            &&& value.get("offset"@) matches Some(offset) ==> (offset.as_i64() matches Some(n)
                && n >= 0)
            &&& value.get("limit"@) matches Some(limit) ==> (limit.as_i64() matches Some(n) && n
                > 0)
            &&& value.get("pages"@) matches Some(pages) ==> pages is Str
        },
        _ => false,
    }
}

fn has_only_read_keys(entries: &Vec<(String, Json)>) -> (all: bool)
    ensures
        all == forall|i: int| 0 <= i < entries@.len() ==> is_read_key(#[trigger] entries@[i].0@),
{
    let mut i: usize = 0;
    while i < entries.len()
        invariant
            i <= entries@.len(),
            forall|j: int| 0 <= j < i ==> is_read_key(#[trigger] entries@[j].0@),
        decreases entries@.len() - i,
    {
        let key = entries[i].0.as_str();
        if !(same_text(key, "file_path") || same_text(key, "offset") || same_text(key, "limit")
            || same_text(key, "pages")) {
            assert(!is_read_key(entries@[i as int].0@));
            return false;
        }
        i += 1;
    }
    true
}

/// Computes [`valid_read_args`].
pub fn is_valid_read_args(value: &Json) -> (valid: bool)
    ensures
        valid == valid_read_args(value@),
{
    let entries = match value {
        Json::Object(entries) => entries,
        _ => {
            return false;
        },
    };
    let ghost model = value@->Object_0;
    assert(forall|i: int| 0 <= i < model.len() ==> model[i].0 == #[trigger] entries@[i].0@);
    if !has_only_read_keys(entries) {
        let ghost i = choose|i: int|
            0 <= i < entries@.len() && !is_read_key(#[trigger] entries@[i].0@);
        assert(!is_read_key(model[i].0));
        return false;
    }
    if value.text_at("file_path").is_empty() {
        return false;
    }
    let offset_fits = match value.get("offset") {
        Some(offset) => match offset.as_i64() {
            Some(n) => n >= 0,
            None => false,
        },
        None => true,
    };
    let limit_fits = match value.get("limit") {
        Some(limit) => match limit.as_i64() {
            Some(n) => n > 0,
            None => false,
        },
        None => true,
    };
    let pages_fit = match value.get("pages") {
        Some(pages) => pages.as_str().is_some(),
        None => true,
    };
    offset_fits && limit_fits && pages_fit
}

/// The entries whose key is another one.
pub open spec fn entries_without(
    entries: Seq<(Seq<char>, JsonModel)>,
    key: Seq<char>,
) -> Seq<(Seq<char>, JsonModel)>
    decreases entries.len(),
{
    if entries.len() == 0 {
        Seq::empty()
    } else {
        let rest = entries_without(entries.drop_last(), key);
        if entries.last().0 == key {
            rest
        } else {
            rest.push(entries.last())
        }
    }
}

/// The object without the entries of a key.
pub open spec fn without_key(value: JsonModel, key: Seq<char>) -> JsonModel {
    match value {
        JsonModel::Object(entries) => JsonModel::Object(entries_without(entries, key)),
        _ => value,
    }
}

/// An object without a key has no such entry, and every other one as before.
pub proof fn law_removed_key_is_gone(
    entries: Seq<(Seq<char>, JsonModel)>,
    key: Seq<char>,
    other: Seq<char>,
)
    ensures
        without_key(JsonModel::Object(entries), key).get(key) is None,
        other != key ==> without_key(JsonModel::Object(entries), key).get(other)
            == JsonModel::Object(entries).get(other),
    decreases entries.len(),
{
    if entries.len() > 0 {
        let rest = entries_without(entries.drop_last(), key);
        law_removed_key_is_gone(entries.drop_last(), key, other);
        if entries.last().0 != key {
            assert(rest.push(entries.last()).drop_last() =~= rest);
        }
    }
}

fn remove_key(value: Json, key: &str) -> (kept: Json)
    ensures
        kept@ == without_key(value@, key@),
{
    match value {
        Json::Object(entries) => {
            let ghost all = entries@;
            let ghost model = Json::Object(entries)@->Object_0;
            let mut kept = Json::object();
            assert(model.take(0) =~= Seq::empty());
            for entry in iter: entries
                invariant
                    iter.seq() == all,
                    model.len() == all.len(),
                    forall|i: int|
                        0 <= i < all.len() ==> #[trigger] model[i] == (all[i].0@, all[i].1@),
                    kept@ == JsonModel::Object(entries_without(model.take(iter.index()), key@)),
            {
                assert(model[iter.index()] == (entry.0@, entry.1@));
                assert(model.take(iter.index() + 1).drop_last() =~= model.take(iter.index()));
                if !same_text(entry.0.as_str(), key) {
                    kept = kept.with(entry.0.as_str(), entry.1);
                }
            }
            assert(model.take(model.len() as int) =~= model);
            kept
        },
        other => other,
    }
}

/// The arguments of a tool call as they are handed on. An empty `pages` of
/// `Read` is left out; all else stays as it is.
pub open spec fn sanitized_args(name: Seq<char>, args: Seq<char>) -> Seq<char> {
    if name != "Read"@ {
        args
    } else {
        sanitized_read(args, json_read(args))
    }
}

/// The arguments of `Read` as they are handed on, where reading them as JSON
/// gives `parsed`.
pub open spec fn sanitized_read(args: Seq<char>, parsed: Option<JsonModel>) -> Seq<char> {
    match parsed {
        Some(value) => if value.str_at("pages"@) == Some(Seq::<char>::empty()) {
            json_written(without_key(value, "pages"@))
        } else {
            args
        },
        None => args,
    }
}

/// Cleans up the arguments of `Read`, given what they are as JSON.
pub fn sanitize_parsed_read_args(args: &str, parsed: Option<Json>) -> (sanitized: String)
    ensures
        sanitized@ == sanitized_read(
            args@,
            match parsed {
                Some(value) => Some(value@),
                None => None,
            },
        ),
{
    match parsed {
        Some(value) => {
            let empty = match value.str_at("pages") {
                Some(pages) => {
                    proof {
                        assert(pages@.len() == 0 ==> pages@ =~= Seq::empty());
                    }
                    pages.is_empty()
                },
                None => false,
            };
            if empty {
                write_json(&remove_key(value, "pages"))
            } else {
                args.to_string()
            }
        },
        None => args.to_string(),
    }
}

/// Computes [`sanitized_args`].
pub fn sanitize_read_args(name: &str, args: &str) -> (sanitized: String)
    ensures
        sanitized@ == sanitized_args(name@, args@),
{
    if !same_text(name, "Read") {
        return args.to_string();
    }
    let parsed = read_json(args);
    sanitize_parsed_read_args(args, parsed)
}

/// The arguments that a text gives, where reading it as JSON gives `parsed`.
pub open spec fn candidate_read(parsed: Option<JsonModel>) -> Option<Seq<char>> {
    match parsed {
        Some(value) => if valid_read_args(value) {
            Some(sanitized_args("Read"@, json_written(value)))
        } else {
            None
        },
        None => None,
    }
}

/// Takes a value as arguments of `Read`, where it is valid as such.
pub fn accept_read_args_candidate(parsed: Option<Json>) -> (args: Option<String>)
    ensures
        text_view(args) == candidate_read(
            match parsed {
                Some(value) => Some(value@),
                None => None,
            },
        ),
{
    match parsed {
        Some(value) => if is_valid_read_args(&value) {
            Some(sanitize_read_args("Read", write_json(&value).as_str()))
        } else {
            None
        },
        None => None,
    }
}

/// Reads a text as arguments of `Read`, where it is valid as such.
pub fn parse_read_args_candidate(text: &str) -> (args: Option<String>)
    ensures
        text_view(args) == candidate_read(json_read(text@)),
{
    let parsed = read_json(text);
    accept_read_args_candidate(parsed)
}

/// Whether the arguments end in so much white space that the stream has stalled.
pub open spec fn has_stalled(args: Seq<char>) -> bool {
    byte_len(args) - byte_len(without_trailing_space(args))
        >= BUFFERED_READ_REPAIR_TRAILING_WHITESPACE_BYTES
}

/// The arguments that a stalled `Read` call is finished with: those before the
/// white space, as they are or else with a closing brace.
pub open spec fn repaired_args(name: Seq<char>, args: Seq<char>) -> Option<Seq<char>> {
    let trimmed = without_trailing_space(args);
    if name != "Read"@ || !has_stalled(args) {
        None
    } else {
        match candidate_read(json_read(trimmed)) {
            Some(repaired) => Some(repaired),
            None => candidate_read(json_read(trimmed + "}"@)),
        }
    }
}

/// Computes [`repaired_args`].
pub fn repair_whitespace_stalled_read_args(name: &str, args: &str) -> (repaired: Option<String>)
    ensures
        text_view(repaired) == repaired_args(name@, args@),
{
    if !same_text(name, "Read") {
        return None;
    }
    let trimmed = trim_end(args);
    let trailing_whitespace: usize = count_bytes(args).saturating_sub(count_bytes(trimmed));
    if trailing_whitespace < BUFFERED_READ_REPAIR_TRAILING_WHITESPACE_BYTES {
        return None;
    }
    match parse_read_args_candidate(trimmed) {
        Some(repaired) => Some(repaired),
        None => parse_read_args_candidate(join(trimmed, "}").as_str()),
    }
}

} // verus!
