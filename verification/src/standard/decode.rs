//! Reading texts from their JSON form in dictionaries (the text that follows a command).
use crate::base::decode::{json_string, json_variant, read_string, read_variant, str_eq};
use crate::base::stroke::Stroke;
use crate::json::{field, get_field, json_document, parse_json, Json, JsonV};
use crate::standard::types::{texts_view, StateAction, Text, TextAction, TextV};
use vstd::prelude::*;

verus! {

/// The boolean a JSON text holds, if it holds one
pub open spec fn json_bool(text: Seq<char>) -> Option<bool> {
    match json_document(text) {
        Ok(JsonV::Bool(b)) => Some(b),
        _ => None,
    }
}

/// Reads a boolean
pub fn read_bool(text: &str) -> (r: Option<bool>)
    ensures
        r == json_bool(text@),
{
    match parse_json(text) {
        Ok(Json::Bool(b)) => Some(b),
        _ => None,
    }
}

/// The fields of a JSON object, if the text holds one
pub open spec fn json_object(text: Seq<char>) -> Option<Seq<(Seq<char>, Seq<char>)>> {
    match json_document(text) {
        Ok(JsonV::Object(o)) => Some(o),
        _ => None,
    }
}

/// Reads the fields of an object
pub fn read_object(text: &str) -> (r: Option<Vec<(String, String)>>)
    ensures
        match r {
            Some(o) => json_object(text@) == Some(o@.map_values(|e: (String, String)| (e.0@, e.1@))),
            None => json_object(text@) is None,
        },
{
    match parse_json(text) {
        Ok(Json::Object(o)) => Some(o),
        _ => None,
    }
}

/// Whether a JSON text holds null
pub open spec fn json_null(text: Seq<char>) -> bool {
    json_document(text) == Ok::<JsonV, Seq<char>>(JsonV::Null)
}

/// Reads a null
pub fn read_null(text: &str) -> (r: bool)
    ensures
        r == json_null(text@),
{
    match parse_json(text) {
        Ok(Json::Null) => true,
        _ => false,
    }
}

/// The state action with this name
pub open spec fn state_action_named(name: Seq<char>) -> Option<StateAction> {
    if name == "ForceCapitalize"@ {
        Some(StateAction::ForceCapitalize)
    } else if name == "SuppressSpace"@ {
        Some(StateAction::SuppressSpace)
    } else if name == "Clear"@ {
        Some(StateAction::Clear)
    } else {
        None
    }
}

/// The text action with this name
pub open spec fn text_action_named(name: Seq<char>) -> Option<TextAction> {
    if name == "CapitalizePrev"@ {
        Some(TextAction::CapitalizePrev)
    } else if name == "SuppressSpacePrev"@ {
        Some(TextAction::SuppressSpacePrev)
    } else if name == "AddSpacePrev"@ {
        Some(TextAction::AddSpacePrev)
    } else {
        None
    }
}

/// The optional boolean of a field: missing or null is none, a boolean is some; `None` when the
/// field holds something else
pub open spec fn optional_bool(f: Option<Seq<char>>) -> Option<Option<bool>> {
    match f {
        None => Some(None),
        Some(t) => if json_null(t) {
            Some(None)
        } else {
            match json_bool(t) {
                Some(b) => Some(Some(b)),
                None => None,
            }
        },
    }
}

/// The boolean of a field that must be there
pub open spec fn required_bool(f: Option<Seq<char>>) -> Option<bool> {
    match f {
        Some(t) => json_bool(t),
        None => None,
    }
}

/// The attached text a JSON object holds: `text`, `joined_next` and `carry_capitalization` must be
/// there; `do_orthography` may be missing or null
pub open spec fn json_attached(text: Seq<char>) -> Option<TextV> {
    match json_object(text) {
        Some(o) => match (
            match field(o, "text"@) {
                Some(t) => json_string(t),
                None => None,
            },
            required_bool(field(o, "joined_next"@)),
            optional_bool(field(o, "do_orthography"@)),
            required_bool(field(o, "carry_capitalization"@)),
        ) {
            (Some(t), Some(j), Some(d), Some(c)) => Some(
                TextV::Attached {
                    text: t,
                    joined_next: j,
                    do_orthography: d,
                    carry_capitalization: c,
                },
            ),
            _ => None,
        },
        None => None,
    }
}

/// The text a JSON text holds: an object with the variant's name as its one key
pub open spec fn json_text(text: Seq<char>) -> Option<TextV> {
    match json_variant(text) {
        Some((tag, body)) => if tag == "Lit"@ {
            match json_string(body) {
                Some(s) => Some(TextV::Lit(s)),
                None => None,
            }
        } else if tag == "UnknownStroke"@ {
            match json_string(body) {
                Some(s) => Some(TextV::UnknownStroke(s)),
                None => None,
            }
        } else if tag == "Glued"@ {
            match json_string(body) {
                Some(s) => Some(TextV::Glued(s)),
                None => None,
            }
        } else if tag == "StateAction"@ {
            match json_string(body) {
                Some(s) => match state_action_named(s) {
                    Some(a) => Some(TextV::StateAction(a)),
                    None => None,
                },
                None => None,
            }
        } else if tag == "TextAction"@ {
            match json_string(body) {
                Some(s) => match text_action_named(s) {
                    Some(a) => Some(TextV::TextAction(a)),
                    None => None,
                },
                None => None,
            }
        } else if tag == "Attached"@ {
            json_attached(body)
        } else {
            None
        },
        None => None,
    }
}

fn read_required_bool(o: &Vec<(String, String)>, key: &str) -> (r: Option<bool>)
    ensures
        r == required_bool(field(o@.map_values(|e: (String, String)| (e.0@, e.1@)), key@)),
{
    match get_field(o, key) {
        Some(t) => read_bool(t.as_str()),
        None => None,
    }
}

fn read_optional_bool(o: &Vec<(String, String)>, key: &str) -> (r: Option<Option<bool>>)
    ensures
        r == optional_bool(field(o@.map_values(|e: (String, String)| (e.0@, e.1@)), key@)),
{
    match get_field(o, key) {
        None => Some(None),
        Some(t) => {
            if read_null(t.as_str()) {
                Some(None)
            } else {
                match read_bool(t.as_str()) {
                    Some(b) => Some(Some(b)),
                    None => None,
                }
            }
        },
    }
}

fn read_attached(text: &str) -> (r: Option<Text>)
    ensures
        match r {
            Some(t) => json_attached(text@) == Some(t@),
            None => json_attached(text@) is None,
        },
{
    let o = match read_object(text) {
        Some(o) => o,
        None => return None,
    };
    let t = match get_field(&o, "text") {
        Some(t) => read_string(t.as_str()),
        None => None,
    };
    let joined_next = read_required_bool(&o, "joined_next");
    let do_orthography = read_optional_bool(&o, "do_orthography");
    let carry = read_required_bool(&o, "carry_capitalization");
    match (t, joined_next, do_orthography, carry) {
        (Some(t), Some(j), Some(d), Some(c)) => Some(
            Text::Attached { text: t, joined_next: j, do_orthography: d, carry_capitalization: c },
        ),
        _ => None,
    }
}

/// Reads a text
pub fn read_text(text: &str) -> (r: Option<Text>)
    ensures
        match r {
            Some(t) => json_text(text@) == Some(t@),
            None => json_text(text@) is None,
        },
{
    let (tag, body) = match read_variant(text) {
        Some(v) => v,
        None => return None,
    };
    let tag = tag.as_str();
    let body = body.as_str();
    if str_eq(tag, "Lit") {
        match read_string(body) {
            Some(s) => Some(Text::Lit(s)),
            None => None,
        }
    } else if str_eq(tag, "UnknownStroke") {
        match read_string(body) {
            Some(s) => Some(Text::UnknownStroke(Stroke::new(s.as_str()))),
            None => None,
        }
    } else if str_eq(tag, "Glued") {
        match read_string(body) {
            Some(s) => Some(Text::Glued(s)),
            None => None,
        }
    } else if str_eq(tag, "StateAction") {
        match read_string(body) {
            Some(s) => {
                if str_eq(s.as_str(), "ForceCapitalize") {
                    Some(Text::StateAction(StateAction::ForceCapitalize))
                } else if str_eq(s.as_str(), "SuppressSpace") {
                    Some(Text::StateAction(StateAction::SuppressSpace))
                } else if str_eq(s.as_str(), "Clear") {
                    Some(Text::StateAction(StateAction::Clear))
                } else {
                    None
                }
            },
            None => None,
        }
    } else if str_eq(tag, "TextAction") {
        match read_string(body) {
            Some(s) => {
                if str_eq(s.as_str(), "CapitalizePrev") {
                    Some(Text::TextAction(TextAction::CapitalizePrev))
                } else if str_eq(s.as_str(), "SuppressSpacePrev") {
                    Some(Text::TextAction(TextAction::SuppressSpacePrev))
                } else if str_eq(s.as_str(), "AddSpacePrev") {
                    Some(Text::TextAction(TextAction::AddSpacePrev))
                } else {
                    None
                }
            },
            None => None,
        }
    } else if str_eq(tag, "Attached") {
        read_attached(body)
    } else {
        None
    }
}

/// The texts of JSON texts, one each
pub open spec fn json_texts_of(items: Seq<Seq<char>>) -> Option<Seq<TextV>>
    decreases items.len(),
{
    if items.len() == 0 {
        Some(Seq::empty())
    } else {
        match (json_texts_of(items.drop_last()), json_text(items.last())) {
            (Some(a), Some(t)) => Some(a.push(t)),
            _ => None,
        }
    }
}

/// The texts a JSON text holds: an array of texts
pub open spec fn json_texts(text: Seq<char>) -> Option<Seq<TextV>> {
    match json_document(text) {
        Ok(JsonV::Array(items)) => json_texts_of(items),
        _ => None,
    }
}

proof fn lemma_texts_prefix(items: Seq<Seq<char>>, k: int)
    requires
        0 <= k <= items.len(),
        json_texts_of(items.take(k)) is None,
    ensures
        json_texts_of(items) is None,
    decreases items.len() - k,
{
    if k < items.len() {
        assert(items.take(k + 1).drop_last() =~= items.take(k));
        lemma_texts_prefix(items, k + 1);
    } else {
        assert(items.take(k) =~= items);
    }
}

/// Reads a list of texts
pub fn read_texts(text: &str) -> (r: Option<Vec<Text>>)
    ensures
        match r {
            Some(v) => json_texts(text@) == Some(texts_view(v@)),
            None => json_texts(text@) is None,
        },
{
    let items = match parse_json(text) {
        Ok(Json::Array(a)) => a,
        _ => return None,
    };
    let ghost all = items@.map_values(|s: String| s@);
    let mut r: Vec<Text> = Vec::new();
    let mut i: usize = 0;
    while i < items.len()
        invariant
            i <= items.len(),
            all == items@.map_values(|s: String| s@),
            json_document(text@) == Ok::<JsonV, Seq<char>>(JsonV::Array(all)),
            json_texts_of(all.take(i as int)) == Some(texts_view(r@)),
        decreases items.len() - i,
    {
        assert(all.take(i + 1).drop_last() =~= all.take(i as int));
        assert(all.take(i + 1).last() == items@[i as int]@);
        let t = match read_text(items[i].as_str()) {
            Some(t) => t,
            None => {
                proof {
                    lemma_texts_prefix(all, i + 1);
                }
                return None;
            },
        };
        let ghost before = r@;
        r.push(t);
        assert(texts_view(r@) =~= texts_view(before).push(t@));
        i += 1;
    }
    assert(all.take(i as int) =~= all);
    Some(r)
}

} // verus!
