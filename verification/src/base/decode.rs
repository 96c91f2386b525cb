//! Reading commands, keys and modifiers from their JSON form in dictionaries: a unit variant is
//! its name as a string, another variant an object with the variant's name as its one key.
use crate::base::commands::{Command, CommandV, Key, Modifier, SpecialKey};
use crate::json::{json_document, parse_json, Json, JsonV};
use vstd::prelude::*;

verus! {

/// Whether two strings are equal
pub fn str_eq(a: &str, b: &str) -> (r: bool)
    ensures
        r == (a@ == b@),
{
    a.to_owned() == b.to_owned()
}

/// The string a JSON text holds, if it holds one
pub open spec fn json_string(text: Seq<char>) -> Option<Seq<char>> {
    match json_document(text) {
        Ok(JsonV::Str(s)) => Some(s),
        _ => None,
    }
}

/// The non-negative integer a JSON text holds, if it holds one that fits in 64 bits
pub open spec fn json_number(text: Seq<char>) -> Option<u64> {
    match json_document(text) {
        Ok(JsonV::Number(Some(n))) => Some(n),
        _ => None,
    }
}

/// The element texts of a JSON array, if the text holds one
pub open spec fn json_array(text: Seq<char>) -> Option<Seq<Seq<char>>> {
    match json_document(text) {
        Ok(JsonV::Array(a)) => Some(a),
        _ => None,
    }
}

/// The single key of a JSON object and the text of its value, if the text holds such an object
pub open spec fn json_variant(text: Seq<char>) -> Option<(Seq<char>, Seq<char>)> {
    match json_document(text) {
        Ok(JsonV::Object(o)) => if o.len() == 1 {
            Some(o[0])
        } else {
            None
        },
        _ => None,
    }
}

/// Reads a string
pub fn read_string(text: &str) -> (r: Option<String>)
    ensures
        match r {
            Some(s) => json_string(text@) == Some(s@),
            None => json_string(text@) is None,
        },
{
    match parse_json(text) {
        Ok(Json::Str(s)) => Some(s),
        _ => None,
    }
}

/// Reads a non-negative integer
pub fn read_number(text: &str) -> (r: Option<u64>)
    ensures
        r == json_number(text@),
{
    match parse_json(text) {
        Ok(Json::Number(Some(n))) => Some(n),
        _ => None,
    }
}

/// Reads the element texts of an array
pub fn read_array(text: &str) -> (r: Option<Vec<String>>)
    ensures
        match r {
            Some(a) => json_array(text@) == Some(a@.map_values(|s: String| s@)),
            None => json_array(text@) is None,
        },
{
    match parse_json(text) {
        Ok(Json::Array(a)) => Some(a),
        _ => None,
    }
}

/// Reads an object with a single key: the key and the text of its value
pub fn read_variant(text: &str) -> (r: Option<(String, String)>)
    ensures
        match r {
            Some(v) => json_variant(text@) == Some((v.0@, v.1@)),
            None => json_variant(text@) is None,
        },
{
    match parse_json(text) {
        Ok(Json::Object(mut o)) => {
            if o.len() == 1 {
                let ghost before = o@;
                let v = o.pop().unwrap();
                assert(before[0] == v);
                Some(v)
            } else {
                None
            }
        },
        _ => None,
    }
}

/// The special key with this name
pub open spec fn special_key_named(name: Seq<char>) -> Option<SpecialKey> {
    if name == "Backspace"@ {
        Some(SpecialKey::Backspace)
    } else if name == "CapsLock"@ {
        Some(SpecialKey::CapsLock)
    } else if name == "Delete"@ {
        Some(SpecialKey::Delete)
    } else if name == "DownArrow"@ {
        Some(SpecialKey::DownArrow)
    } else if name == "End"@ {
        Some(SpecialKey::End)
    } else if name == "Escape"@ {
        Some(SpecialKey::Escape)
    } else if name == "F1"@ {
        Some(SpecialKey::F1)
    } else if name == "F10"@ {
        Some(SpecialKey::F10)
    } else if name == "F11"@ {
        Some(SpecialKey::F11)
    } else if name == "F12"@ {
        Some(SpecialKey::F12)
    } else if name == "F2"@ {
        Some(SpecialKey::F2)
    } else if name == "F3"@ {
        Some(SpecialKey::F3)
    } else if name == "F4"@ {
        Some(SpecialKey::F4)
    } else if name == "F5"@ {
        Some(SpecialKey::F5)
    } else if name == "F6"@ {
        Some(SpecialKey::F6)
    } else if name == "F7"@ {
        Some(SpecialKey::F7)
    } else if name == "F8"@ {
        Some(SpecialKey::F8)
    } else if name == "F9"@ {
        Some(SpecialKey::F9)
    } else if name == "Home"@ {
        Some(SpecialKey::Home)
    } else if name == "LeftArrow"@ {
        Some(SpecialKey::LeftArrow)
    } else if name == "PageDown"@ {
        Some(SpecialKey::PageDown)
    } else if name == "PageUp"@ {
        Some(SpecialKey::PageUp)
    } else if name == "Return"@ {
        Some(SpecialKey::Return)
    } else if name == "RightArrow"@ {
        Some(SpecialKey::RightArrow)
    } else if name == "Space"@ {
        Some(SpecialKey::Space)
    } else if name == "Tab"@ {
        Some(SpecialKey::Tab)
    } else if name == "UpArrow"@ {
        Some(SpecialKey::UpArrow)
    } else {
        None
    }
}

/// The special key with this name
pub fn special_key_from_name(name: &str) -> (r: Option<SpecialKey>)
    ensures
        r == special_key_named(name@),
{
    if str_eq(name, "Backspace") {
        Some(SpecialKey::Backspace)
    } else if str_eq(name, "CapsLock") {
        Some(SpecialKey::CapsLock)
    } else if str_eq(name, "Delete") {
        Some(SpecialKey::Delete)
    } else if str_eq(name, "DownArrow") {
        Some(SpecialKey::DownArrow)
    } else if str_eq(name, "End") {
        Some(SpecialKey::End)
    } else if str_eq(name, "Escape") {
        Some(SpecialKey::Escape)
    } else if str_eq(name, "F1") {
        Some(SpecialKey::F1)
    } else if str_eq(name, "F10") {
        Some(SpecialKey::F10)
    } else if str_eq(name, "F11") {
        Some(SpecialKey::F11)
    } else if str_eq(name, "F12") {
        Some(SpecialKey::F12)
    } else if str_eq(name, "F2") {
        Some(SpecialKey::F2)
    } else if str_eq(name, "F3") {
        Some(SpecialKey::F3)
    } else if str_eq(name, "F4") {
        Some(SpecialKey::F4)
    } else if str_eq(name, "F5") {
        Some(SpecialKey::F5)
    } else if str_eq(name, "F6") {
        Some(SpecialKey::F6)
    } else if str_eq(name, "F7") {
        Some(SpecialKey::F7)
    } else if str_eq(name, "F8") {
        Some(SpecialKey::F8)
    } else if str_eq(name, "F9") {
        Some(SpecialKey::F9)
    } else if str_eq(name, "Home") {
        Some(SpecialKey::Home)
    } else if str_eq(name, "LeftArrow") {
        Some(SpecialKey::LeftArrow)
    } else if str_eq(name, "PageDown") {
        Some(SpecialKey::PageDown)
    } else if str_eq(name, "PageUp") {
        Some(SpecialKey::PageUp)
    } else if str_eq(name, "Return") {
        Some(SpecialKey::Return)
    } else if str_eq(name, "RightArrow") {
        Some(SpecialKey::RightArrow)
    } else if str_eq(name, "Space") {
        Some(SpecialKey::Space)
    } else if str_eq(name, "Tab") {
        Some(SpecialKey::Tab)
    } else if str_eq(name, "UpArrow") {
        Some(SpecialKey::UpArrow)
    } else {
        None
    }
}

/// The modifier with this name
pub open spec fn modifier_named(name: Seq<char>) -> Option<Modifier> {
    if name == "Alt"@ {
        Some(Modifier::Alt)
    } else if name == "Control"@ {
        Some(Modifier::Control)
    } else if name == "Meta"@ {
        Some(Modifier::Meta)
    } else if name == "Option"@ {
        Some(Modifier::Option)
    } else if name == "Shift"@ {
        Some(Modifier::Shift)
    } else if name == "Fn"@ {
        Some(Modifier::Fn)
    } else {
        None
    }
}

/// The modifier with this name
pub fn modifier_from_name(name: &str) -> (r: Option<Modifier>)
    ensures
        r == modifier_named(name@),
{
    if str_eq(name, "Alt") {
        Some(Modifier::Alt)
    } else if str_eq(name, "Control") {
        Some(Modifier::Control)
    } else if str_eq(name, "Meta") {
        Some(Modifier::Meta)
    } else if str_eq(name, "Option") {
        Some(Modifier::Option)
    } else if str_eq(name, "Shift") {
        Some(Modifier::Shift)
    } else if str_eq(name, "Fn") {
        Some(Modifier::Fn)
    } else {
        None
    }
}

/// The key a JSON text holds: `{"Special": name}` or `{"Layout": "c"}` with a single character
pub open spec fn json_key(text: Seq<char>) -> Option<Key> {
    match json_variant(text) {
        Some((tag, body)) => if tag == "Special"@ {
            match json_string(body) {
                Some(name) => match special_key_named(name) {
                    Some(k) => Some(Key::Special(k)),
                    None => None,
                },
                None => None,
            }
        } else if tag == "Layout"@ {
            match json_string(body) {
                Some(c) => if c.len() == 1 {
                    Some(Key::Layout(c[0]))
                } else {
                    None
                },
                None => None,
            }
        } else {
            None
        },
        None => None,
    }
}

/// Reads a key
pub fn read_key(text: &str) -> (r: Option<Key>)
    ensures
        r == json_key(text@),
{
    let (tag, body) = match read_variant(text) {
        Some(v) => v,
        None => return None,
    };
    if str_eq(tag.as_str(), "Special") {
        match read_string(body.as_str()) {
            Some(name) => match special_key_from_name(name.as_str()) {
                Some(k) => Some(Key::Special(k)),
                None => None,
            },
            None => None,
        }
    } else if str_eq(tag.as_str(), "Layout") {
        match read_string(body.as_str()) {
            Some(c) => {
                if c.as_str().unicode_len() == 1 {
                    Some(Key::Layout(c.as_str().get_char(0)))
                } else {
                    None
                }
            },
            None => None,
        }
    } else {
        None
    }
}

/// The modifiers of a JSON text holding an array of modifier names
pub open spec fn json_modifiers_of(items: Seq<Seq<char>>) -> Option<Seq<Modifier>>
    decreases items.len(),
{
    if items.len() == 0 {
        Some(Seq::empty())
    } else {
        match (json_modifiers_of(items.drop_last()), json_string(items.last())) {
            (Some(a), Some(name)) => match modifier_named(name) {
                Some(m) => Some(a.push(m)),
                None => None,
            },
            _ => None,
        }
    }
}

/// The modifiers a JSON text holds: an array of modifier names
pub open spec fn json_modifiers(text: Seq<char>) -> Option<Seq<Modifier>> {
    match json_array(text) {
        Some(items) => json_modifiers_of(items),
        None => None,
    }
}

/// Reads a list of modifiers
pub fn read_modifiers(text: &str) -> (r: Option<Vec<Modifier>>)
    ensures
        match r {
            Some(m) => json_modifiers(text@) == Some(m@),
            None => json_modifiers(text@) is None,
        },
{
    let items = match read_array(text) {
        Some(a) => a,
        None => return None,
    };
    let ghost all = items@.map_values(|s: String| s@);
    let mut r: Vec<Modifier> = Vec::new();
    let mut i: usize = 0;
    while i < items.len()
        invariant
            i <= items.len(),
            all == items@.map_values(|s: String| s@),
            json_array(text@) == Some(all),
            json_modifiers_of(all.take(i as int)) == Some(r@),
        decreases items.len() - i,
    {
        assert(all.take(i + 1).drop_last() =~= all.take(i as int));
        assert(all.take(i + 1).last() == items@[i as int]@);
        let name = match read_string(items[i].as_str()) {
            Some(n) => n,
            None => {
                proof {
                    lemma_modifiers_prefix(all, i + 1);
                }
                return None;
            },
        };
        match modifier_from_name(name.as_str()) {
            Some(m) => r.push(m),
            None => {
                proof {
                    lemma_modifiers_prefix(all, i + 1);
                }
                return None;
            },
        }
        i += 1;
    }
    assert(all.take(i as int) =~= all);
    Some(r)
}

/// The strings of a JSON array
pub open spec fn json_strings_of(items: Seq<Seq<char>>) -> Option<Seq<Seq<char>>>
    decreases items.len(),
{
    if items.len() == 0 {
        Some(Seq::empty())
    } else {
        match (json_strings_of(items.drop_last()), json_string(items.last())) {
            (Some(a), Some(s)) => Some(a.push(s)),
            _ => None,
        }
    }
}

/// The strings a JSON text holds: an array of strings
pub open spec fn json_strings(text: Seq<char>) -> Option<Seq<Seq<char>>> {
    match json_array(text) {
        Some(items) => json_strings_of(items),
        None => None,
    }
}

/// Reads a list of strings
pub fn read_strings(text: &str) -> (r: Option<Vec<String>>)
    ensures
        match r {
            Some(v) => json_strings(text@) == Some(v@.map_values(|s: String| s@)),
            None => json_strings(text@) is None,
        },
{
    let items = match read_array(text) {
        Some(a) => a,
        None => return None,
    };
    let ghost all = items@.map_values(|s: String| s@);
    let mut r: Vec<String> = Vec::new();
    let mut i: usize = 0;
    while i < items.len()
        invariant
            i <= items.len(),
            all == items@.map_values(|s: String| s@),
            json_array(text@) == Some(all),
            json_strings_of(all.take(i as int)) == Some(r@.map_values(|s: String| s@)),
        decreases items.len() - i,
    {
        assert(all.take(i + 1).drop_last() =~= all.take(i as int));
        assert(all.take(i + 1).last() == items@[i as int]@);
        let s = match read_string(items[i].as_str()) {
            Some(s) => s,
            None => {
                proof {
                    lemma_strings_prefix(all, i + 1);
                }
                return None;
            },
        };
        let ghost before = r@;
        r.push(s);
        assert(r@.map_values(|s: String| s@) =~= before.map_values(|s: String| s@).push(s@));
        i += 1;
    }
    assert(all.take(i as int) =~= all);
    Some(r)
}

/// The command a JSON text holds
pub open spec fn json_command(text: Seq<char>) -> Option<CommandV> {
    match json_string(text) {
        Some(name) => if name == "PrintHello"@ {
            Some(CommandV::PrintHello)
        } else if name == "NoOp"@ {
            Some(CommandV::NoOp)
        } else {
            None
        },
        None => match json_variant(text) {
            Some((tag, body)) => json_command_variant(tag, body),
            None => None,
        },
    }
}

/// The command of a variant with fields, from the variant's name and the text of its fields
pub open spec fn json_command_variant(tag: Seq<char>, body: Seq<char>) -> Option<CommandV> {
    if tag == "Replace"@ {
        match json_array(body) {
            Some(a) => if a.len() == 2 {
                match (json_number(a[0]), json_string(a[1])) {
                    (Some(n), Some(s)) => if n <= usize::MAX {
                        Some(CommandV::Replace(n as usize, s))
                    } else {
                        None
                    },
                    _ => None,
                }
            } else {
                None
            },
            None => None,
        }
    } else if tag == "Keys"@ {
        match json_array(body) {
            Some(a) => if a.len() == 2 {
                match (json_key(a[0]), json_modifiers(a[1])) {
                    (Some(k), Some(m)) => Some(CommandV::Keys(k, m)),
                    _ => None,
                }
            } else {
                None
            },
            None => None,
        }
    } else if tag == "Raw"@ {
        match json_number(body) {
            Some(n) => if n <= u16::MAX {
                Some(CommandV::Raw(n as u16))
            } else {
                None
            },
            None => None,
        }
    } else if tag == "Shell"@ {
        match json_array(body) {
            Some(a) => if a.len() == 2 {
                match (json_string(a[0]), json_strings(a[1])) {
                    (Some(c), Some(args)) => Some(CommandV::Shell(c, args)),
                    _ => None,
                }
            } else {
                None
            },
            None => None,
        }
    } else if tag == "TranslatorCommand"@ {
        match json_string(body) {
            Some(s) => Some(CommandV::TranslatorCommand(s)),
            None => None,
        }
    } else {
        None
    }
}

/// Reads a command
pub fn read_command(text: &str) -> (r: Option<Command>)
    ensures
        match r {
            Some(c) => json_command(text@) == Some(c@),
            None => json_command(text@) is None,
        },
{
    if let Some(name) = read_string(text) {
        if str_eq(name.as_str(), "PrintHello") {
            return Some(Command::PrintHello);
        } else if str_eq(name.as_str(), "NoOp") {
            return Some(Command::NoOp);
        } else {
            return None;
        }
    }
    let (tag, body) = match read_variant(text) {
        Some(v) => v,
        None => return None,
    };
    let tag = tag.as_str();
    let body = body.as_str();
    if str_eq(tag, "Replace") {
        let a = match read_array(body) {
            Some(a) => a,
            None => return None,
        };
        if a.len() != 2 {
            return None;
        }
        let n = read_number(a[0].as_str());
        let s = read_string(a[1].as_str());
        match (n, s) {
            (Some(n), Some(s)) => {
                if n <= usize::MAX as u64 {
                    Some(Command::Replace(n as usize, s))
                } else {
                    None
                }
            },
            _ => None,
        }
    } else if str_eq(tag, "Keys") {
        let a = match read_array(body) {
            Some(a) => a,
            None => return None,
        };
        if a.len() != 2 {
            return None;
        }
        let k = read_key(a[0].as_str());
        let m = read_modifiers(a[1].as_str());
        match (k, m) {
            (Some(k), Some(m)) => Some(Command::Keys(k, m)),
            _ => None,
        }
    } else if str_eq(tag, "Raw") {
        match read_number(body) {
            Some(n) => {
                if n <= u16::MAX as u64 {
                    Some(Command::Raw(n as u16))
                } else {
                    None
                }
            },
            None => None,
        }
    } else if str_eq(tag, "Shell") {
        let a = match read_array(body) {
            Some(a) => a,
            None => return None,
        };
        if a.len() != 2 {
            return None;
        }
        let c = read_string(a[0].as_str());
        let args = read_strings(a[1].as_str());
        match (c, args) {
            (Some(c), Some(args)) => Some(Command::Shell(c, args)),
            _ => None,
        }
    } else if str_eq(tag, "TranslatorCommand") {
        match read_string(body) {
            Some(s) => Some(Command::TranslatorCommand(s)),
            None => None,
        }
    } else {
        None
    }
}

/// The commands of JSON texts, one each
pub open spec fn json_commands_of(items: Seq<Seq<char>>) -> Option<Seq<CommandV>>
    decreases items.len(),
{
    if items.len() == 0 {
        Some(Seq::empty())
    } else {
        match (json_commands_of(items.drop_last()), json_command(items.last())) {
            (Some(a), Some(c)) => Some(a.push(c)),
            _ => None,
        }
    }
}

/// The commands a JSON text holds: an array of commands
pub open spec fn json_commands(text: Seq<char>) -> Option<Seq<CommandV>> {
    match json_array(text) {
        Some(items) => json_commands_of(items),
        None => None,
    }
}

/// Reads a list of commands
pub fn read_commands(text: &str) -> (r: Option<Vec<Command>>)
    ensures
        match r {
            Some(v) => json_commands(text@) == Some(v@.map_values(|c: Command| c@)),
            None => json_commands(text@) is None,
        },
{
    let items = match read_array(text) {
        Some(a) => a,
        None => return None,
    };
    let ghost all = items@.map_values(|s: String| s@);
    let mut r: Vec<Command> = Vec::new();
    let mut i: usize = 0;
    while i < items.len()
        invariant
            i <= items.len(),
            all == items@.map_values(|s: String| s@),
            json_array(text@) == Some(all),
            json_commands_of(all.take(i as int)) == Some(r@.map_values(|c: Command| c@)),
        decreases items.len() - i,
    {
        assert(all.take(i + 1).drop_last() =~= all.take(i as int));
        assert(all.take(i + 1).last() == items@[i as int]@);
        let c = match read_command(items[i].as_str()) {
            Some(c) => c,
            None => {
                proof {
                    lemma_commands_prefix(all, i + 1);
                }
                return None;
            },
        };
        let ghost before = r@;
        r.push(c);
        assert(r@.map_values(|c: Command| c@) =~= before.map_values(|c: Command| c@).push(c@));
        i += 1;
    }
    assert(all.take(i as int) =~= all);
    Some(r)
}

proof fn lemma_modifiers_prefix(items: Seq<Seq<char>>, k: int)
    requires
        0 <= k <= items.len(),
        json_modifiers_of(items.take(k)) is None,
    ensures
        json_modifiers_of(items) is None,
    decreases items.len() - k,
{
    if k < items.len() {
        assert(items.take(k + 1).drop_last() =~= items.take(k));
        lemma_modifiers_prefix(items, k + 1);
    } else {
        assert(items.take(k) =~= items);
    }
}

proof fn lemma_strings_prefix(items: Seq<Seq<char>>, k: int)
    requires
        0 <= k <= items.len(),
        json_strings_of(items.take(k)) is None,
    ensures
        json_strings_of(items) is None,
    decreases items.len() - k,
{
    if k < items.len() {
        assert(items.take(k + 1).drop_last() =~= items.take(k));
        lemma_strings_prefix(items, k + 1);
    } else {
        assert(items.take(k) =~= items);
    }
}

proof fn lemma_commands_prefix(items: Seq<Seq<char>>, k: int)
    requires
        0 <= k <= items.len(),
        json_commands_of(items.take(k)) is None,
    ensures
        json_commands_of(items) is None,
    decreases items.len() - k,
{
    if k < items.len() {
        assert(items.take(k + 1).drop_last() =~= items.take(k));
        lemma_commands_prefix(items, k + 1);
    } else {
        assert(items.take(k) =~= items);
    }
}

} // verus!
