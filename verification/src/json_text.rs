//! Writing commands as compact JSON text, the way `serde_json` writes the values that the
//! command types serialize to: enums externally tagged, object keys in sorted order, strings
//! escaped.
use crate::applescript::{decimal, decimal_string, decimal_string_usize};
use crate::base::commands::{strings_view, Command, CommandV, Key, Modifier, SpecialKey};
use crate::serial_ports::hex_digit;
use crate::text::{push_char, push_str};
use vstd::prelude::*;

verus! {

/// How a character is written inside a JSON string: quotes and backslashes escaped, control
/// characters written by their short escape or as `\u00` and two lower case hexadecimal digits
pub open spec fn escape_char(c: char) -> Seq<char> {
    if c == '"' {
        "\\\""@
    } else if c == '\\' {
        "\\\\"@
    } else if c == '\n' {
        "\\n"@
    } else if c == '\r' {
        "\\r"@
    } else if c == '\t' {
        "\\t"@
    } else if c == '\u{8}' {
        "\\b"@
    } else if c == '\u{c}' {
        "\\f"@
    } else if (c as u32) < 0x20 {
        "\\u00"@ + seq![hex_digit((c as u32) as int / 16), hex_digit((c as u32) as int % 16)]
    } else {
        seq![c]
    }
}

/// The characters of a text, each written as inside a JSON string
pub open spec fn escaped(s: Seq<char>) -> Seq<char>
    decreases s.len(),
{
    if s.len() == 0 {
        Seq::empty()
    } else {
        escaped(s.drop_last()) + escape_char(s.last())
    }
}

/// A text written as a JSON string
pub open spec fn json_str(s: Seq<char>) -> Seq<char> {
    "\""@ + escaped(s) + "\""@
}

/// JSON texts separated by commas
pub open spec fn joined(items: Seq<Seq<char>>) -> Seq<char>
    decreases items.len(),
{
    if items.len() == 0 {
        Seq::empty()
    } else if items.len() == 1 {
        items[0]
    } else {
        joined(items.drop_last()) + ","@ + items.last()
    }
}

/// JSON texts as a JSON array
pub open spec fn json_array_of(items: Seq<Seq<char>>) -> Seq<char> {
    "["@ + joined(items) + "]"@
}

/// The name of a special key
pub open spec fn special_key_name(k: SpecialKey) -> Seq<char> {
    match k {
        SpecialKey::Backspace => "Backspace"@,
        SpecialKey::CapsLock => "CapsLock"@,
        SpecialKey::Delete => "Delete"@,
        SpecialKey::DownArrow => "DownArrow"@,
        SpecialKey::End => "End"@,
        SpecialKey::Escape => "Escape"@,
        SpecialKey::F1 => "F1"@,
        SpecialKey::F10 => "F10"@,
        SpecialKey::F11 => "F11"@,
        SpecialKey::F12 => "F12"@,
        SpecialKey::F2 => "F2"@,
        SpecialKey::F3 => "F3"@,
        SpecialKey::F4 => "F4"@,
        SpecialKey::F5 => "F5"@,
        SpecialKey::F6 => "F6"@,
        SpecialKey::F7 => "F7"@,
        SpecialKey::F8 => "F8"@,
        SpecialKey::F9 => "F9"@,
        SpecialKey::Home => "Home"@,
        SpecialKey::LeftArrow => "LeftArrow"@,
        SpecialKey::PageDown => "PageDown"@,
        SpecialKey::PageUp => "PageUp"@,
        SpecialKey::Return => "Return"@,
        SpecialKey::RightArrow => "RightArrow"@,
        SpecialKey::Space => "Space"@,
        SpecialKey::Tab => "Tab"@,
        SpecialKey::UpArrow => "UpArrow"@,
    }
}

/// The name of a modifier
pub open spec fn modifier_name(m: Modifier) -> Seq<char> {
    match m {
        Modifier::Alt => "Alt"@,
        Modifier::Control => "Control"@,
        Modifier::Meta => "Meta"@,
        Modifier::Option => "Option"@,
        Modifier::Shift => "Shift"@,
        Modifier::Fn => "Fn"@,
    }
}

/// A key as JSON text
pub open spec fn key_json(k: Key) -> Seq<char> {
    match k {
        Key::Special(s) => "{\"Special\":"@ + json_str(special_key_name(s)) + "}"@,
        Key::Layout(c) => "{\"Layout\":"@ + json_str(seq![c]) + "}"@,
    }
}

/// A command as JSON text
pub open spec fn command_json(c: CommandV) -> Seq<char> {
    match c {
        CommandV::Replace(n, s) => "{\"Replace\":["@ + decimal(n as nat) + ","@ + json_str(s)
            + "]}"@,
        CommandV::PrintHello => json_str("PrintHello"@),
        CommandV::NoOp => json_str("NoOp"@),
        CommandV::Keys(k, m) => "{\"Keys\":["@ + key_json(k) + ","@ + json_array_of(
            m.map_values(|x: Modifier| json_str(modifier_name(x))),
        ) + "]}"@,
        CommandV::Raw(code) => "{\"Raw\":"@ + decimal(code as nat) + "}"@,
        CommandV::Shell(cmd, args) => "{\"Shell\":["@ + json_str(cmd) + ","@ + json_array_of(
            args.map_values(|a: Seq<char>| json_str(a)),
        ) + "]}"@,
        CommandV::TranslatorCommand(s) => "{\"TranslatorCommand\":"@ + json_str(s) + "}"@,
    }
}

/// Commands as a JSON array
pub open spec fn commands_json(cs: Seq<CommandV>) -> Seq<char> {
    json_array_of(cs.map_values(|c: CommandV| command_json(c)))
}

/// A text written as a JSON string.
///
/// Calls `serde_json::to_string` on the text. Its string formatter writes the text in double
/// quotes with `"` and `\` escaped, the backspace, tab, line feed, form feed and carriage return
/// by their short escapes, the other characters below 0x20 as `\u00` and two lower case
/// hexadecimal digits, and every other character as it is; writing a string does not fail. That
/// is what `json_str` states.
#[verifier::external_body]
pub fn write_json_str(t: &str) -> (r: String)
    ensures
        r@ == json_str(t@),
{
    match serde_json::to_string(t) {
        Ok(s) => s,
        Err(_) => String::new(),
    }
}

/// Appends the next item of a list written as JSON: a comma before every item but the first
fn push_item(
    r: &mut String,
    items: Ghost<Seq<Seq<char>>>,
    start: Ghost<Seq<char>>,
    first: bool,
    item: &str,
)
    requires
        old(r)@ == start@ + joined(items@),
        first == (items@.len() == 0),
    ensures
        final(r)@ == start@ + joined(items@.push(item@)),
{
    let ghost all = items@.push(item@);
    assert(all.drop_last() =~= items@);
    if first {
        push_str(r, item);
        assert(r@ =~= start@ + joined(all));
    } else {
        push_str(r, ",");
        push_str(r, item);
        assert(r@ =~= start@ + joined(all));
    }
}

/// A key as JSON text
pub fn write_key_json(k: Key) -> (r: String)
    ensures
        r@ == key_json(k),
{
    match k {
        Key::Special(s) => {
            let mut r = "{\"Special\":".to_owned();
            let name = write_json_str(special_key_str(s));
            push_str(&mut r, name.as_str());
            push_str(&mut r, "}");
            r
        },
        Key::Layout(c) => {
            let mut one = String::new();
            push_char(&mut one, c);
            assert(one@ =~= seq![c]);
            let mut r = "{\"Layout\":".to_owned();
            let text = write_json_str(one.as_str());
            push_str(&mut r, text.as_str());
            push_str(&mut r, "}");
            r
        },
    }
}

fn special_key_str(k: SpecialKey) -> (r: &'static str)
    ensures
        r@ == special_key_name(k),
{
    match k {
        SpecialKey::Backspace => "Backspace",
        SpecialKey::CapsLock => "CapsLock",
        SpecialKey::Delete => "Delete",
        SpecialKey::DownArrow => "DownArrow",
        SpecialKey::End => "End",
        SpecialKey::Escape => "Escape",
        SpecialKey::F1 => "F1",
        SpecialKey::F10 => "F10",
        SpecialKey::F11 => "F11",
        SpecialKey::F12 => "F12",
        SpecialKey::F2 => "F2",
        SpecialKey::F3 => "F3",
        SpecialKey::F4 => "F4",
        SpecialKey::F5 => "F5",
        SpecialKey::F6 => "F6",
        SpecialKey::F7 => "F7",
        SpecialKey::F8 => "F8",
        SpecialKey::F9 => "F9",
        SpecialKey::Home => "Home",
        SpecialKey::LeftArrow => "LeftArrow",
        SpecialKey::PageDown => "PageDown",
        SpecialKey::PageUp => "PageUp",
        SpecialKey::Return => "Return",
        SpecialKey::RightArrow => "RightArrow",
        SpecialKey::Space => "Space",
        SpecialKey::Tab => "Tab",
        SpecialKey::UpArrow => "UpArrow",
    }
}

fn modifier_str(m: Modifier) -> (r: &'static str)
    ensures
        r@ == modifier_name(m),
{
    match m {
        Modifier::Alt => "Alt",
        Modifier::Control => "Control",
        Modifier::Meta => "Meta",
        Modifier::Option => "Option",
        Modifier::Shift => "Shift",
        Modifier::Fn => "Fn",
    }
}

fn write_modifiers(ms: &Vec<Modifier>) -> (r: String)
    ensures
        r@ == json_array_of(ms@.map_values(|x: Modifier| json_str(modifier_name(x)))),
{
    let ghost items = ms@.map_values(|x: Modifier| json_str(modifier_name(x)));
    let mut r = "[".to_owned();
    let ghost start = r@;
    let mut i: usize = 0;
    assert(items.take(0) =~= Seq::<Seq<char>>::empty());
    while i < ms.len()
        invariant
            i <= ms.len(),
            items == ms@.map_values(|x: Modifier| json_str(modifier_name(x))),
            r@ == start + joined(items.take(i as int)),
        decreases ms.len() - i,
    {
        let item = write_json_str(modifier_str(ms[i]));
        push_item(&mut r, Ghost(items.take(i as int)), Ghost(start), i == 0, item.as_str());
        assert(items.take(i as int).push(item@) =~= items.take(i + 1));
        i += 1;
    }
    assert(items.take(i as int) =~= items);
    push_str(&mut r, "]");
    r
}

fn write_strings(v: &Vec<String>) -> (r: String)
    ensures
        r@ == json_array_of(strings_view(v@).map_values(|a: Seq<char>| json_str(a))),
{
    let ghost items = strings_view(v@).map_values(|a: Seq<char>| json_str(a));
    let mut r = "[".to_owned();
    let ghost start = r@;
    let mut i: usize = 0;
    assert(items.take(0) =~= Seq::<Seq<char>>::empty());
    while i < v.len()
        invariant
            i <= v.len(),
            items == strings_view(v@).map_values(|a: Seq<char>| json_str(a)),
            r@ == start + joined(items.take(i as int)),
        decreases v.len() - i,
    {
        let item = write_json_str(v[i].as_str());
        push_item(&mut r, Ghost(items.take(i as int)), Ghost(start), i == 0, item.as_str());
        assert(items.take(i as int).push(item@) =~= items.take(i + 1));
        i += 1;
    }
    assert(items.take(i as int) =~= items);
    push_str(&mut r, "]");
    r
}

/// A command as JSON text
pub fn write_command_json(c: &Command) -> (r: String)
    ensures
        r@ == command_json(c@),
{
    match c {
        Command::Replace(n, s) => {
            let mut r = "{\"Replace\":[".to_owned();
            let num = decimal_string_usize(*n);
            push_str(&mut r, num.as_str());
            push_str(&mut r, ",");
            let text = write_json_str(s.as_str());
            push_str(&mut r, text.as_str());
            push_str(&mut r, "]}");
            r
        },
        Command::PrintHello => write_json_str("PrintHello"),
        Command::NoOp => write_json_str("NoOp"),
        Command::Keys(k, ms) => {
            let mut r = "{\"Keys\":[".to_owned();
            let key = write_key_json(*k);
            push_str(&mut r, key.as_str());
            push_str(&mut r, ",");
            let mods = write_modifiers(ms);
            push_str(&mut r, mods.as_str());
            push_str(&mut r, "]}");
            r
        },
        Command::Raw(code) => {
            let mut r = "{\"Raw\":".to_owned();
            let num = decimal_string(*code as u32);
            push_str(&mut r, num.as_str());
            push_str(&mut r, "}");
            r
        },
        Command::Shell(cmd, args) => {
            let mut r = "{\"Shell\":[".to_owned();
            let text = write_json_str(cmd.as_str());
            push_str(&mut r, text.as_str());
            push_str(&mut r, ",");
            let list = write_strings(args);
            push_str(&mut r, list.as_str());
            push_str(&mut r, "]}");
            r
        },
        Command::TranslatorCommand(s) => {
            let mut r = "{\"TranslatorCommand\":".to_owned();
            let text = write_json_str(s.as_str());
            push_str(&mut r, text.as_str());
            push_str(&mut r, "}");
            r
        },
    }
}

/// Commands as a JSON array
pub fn write_commands_json(cs: &Vec<Command>) -> (r: String)
    ensures
        r@ == commands_json(cs@.map_values(|c: Command| c@)),
{
    let ghost items = cs@.map_values(|c: Command| c@).map_values(|c: CommandV| command_json(c));
    let mut r = "[".to_owned();
    let ghost start = r@;
    let mut i: usize = 0;
    assert(items.take(0) =~= Seq::<Seq<char>>::empty());
    while i < cs.len()
        invariant
            i <= cs.len(),
            items == cs@.map_values(|c: Command| c@).map_values(|c: CommandV| command_json(c)),
            r@ == start + joined(items.take(i as int)),
        decreases cs.len() - i,
    {
        let item = write_command_json(&cs[i]);
        push_item(&mut r, Ghost(items.take(i as int)), Ghost(start), i == 0, item.as_str());
        assert(items.take(i as int).push(item@) =~= items.take(i + 1));
        i += 1;
    }
    assert(items.take(i as int) =~= items);
    push_str(&mut r, "]");
    r
}

} // verus!
