//! Converting Plover dictionaries: keyboard shortcuts written the Plover way (`{#Control_L(a)}`)
//! become commands of this translator.
use crate::base::commands::{Command, CommandV, Key, Modifier, SpecialKey};
use crate::base::decode::{json_string, read_string, str_eq};
use crate::json::{json_document, parse_json, Json, JsonV};
use crate::json_text::{commands_json, json_str, write_commands_json, write_json_str};
use crate::text::push_str;
use crate::pattern::{group, group_text, groups_view, regex_captures, regex_captures_of};
use crate::text::{chars_of, to_lowercase, unicode_lowercase};
use vstd::prelude::*;
use vstd::utf8::encode_utf8;

verus! {

/// Why a keyboard shortcut could not be converted
#[derive(Debug, PartialEq)]
pub enum ConversionError {
    InvalidFormat,
    InvalidKeyboardShortcut,
    UnbalancedParens,
    UnknownModifier(String),
    UnknownKey(String),
}

/// The value of a conversion error
pub enum ConversionErrorV {
    InvalidFormat,
    InvalidKeyboardShortcut,
    UnbalancedParens,
    UnknownModifier(Seq<char>),
    UnknownKey(Seq<char>),
}

impl View for ConversionError {
    type V = ConversionErrorV;

    open spec fn view(&self) -> ConversionErrorV {
        match self {
            ConversionError::InvalidFormat => ConversionErrorV::InvalidFormat,
            ConversionError::InvalidKeyboardShortcut => ConversionErrorV::InvalidKeyboardShortcut,
            ConversionError::UnbalancedParens => ConversionErrorV::UnbalancedParens,
            ConversionError::UnknownModifier(m) => ConversionErrorV::UnknownModifier(m@),
            ConversionError::UnknownKey(k) => ConversionErrorV::UnknownKey(k@),
        }
    }
}

/// A dictionary entry with commands: the text that comes after them and whether to delete the
/// space before them are left out when not needed
#[derive(Debug, PartialEq)]
pub struct Cmd {
    pub cmds: Vec<Command>,
    pub text_after: Option<String>,
    pub suppress_space_before: bool,
}

/// The value of a command entry
pub struct CmdV {
    pub cmds: Seq<CommandV>,
    pub text_after: Option<Seq<char>>,
    pub suppress_space_before: bool,
}

impl View for Cmd {
    type V = CmdV;

    open spec fn view(&self) -> CmdV {
        CmdV {
            cmds: self.cmds@.map_values(|c: Command| c@),
            text_after: match &self.text_after {
                Some(t) => Some(t@),
                None => None,
            },
            suppress_space_before: self.suppress_space_before,
        }
    }
}

/// The plojo modifier of a lowercased Plover modifier
pub open spec fn plover_modifier(m: Seq<char>) -> Option<Modifier> {
    if m == "shift_l"@ || m == "shift_r"@ || m == "shift"@ {
        Some(Modifier::Shift)
    } else if m == "control_l"@ || m == "control_r"@ || m == "control"@ {
        Some(Modifier::Control)
    } else if m == "alt_l"@ || m == "alt_r"@ || m == "alt"@ {
        Some(Modifier::Alt)
    } else if m == "option"@ {
        Some(Modifier::Option)
    } else if m == "super_l"@ || m == "super_r"@ || m == "super"@ || m == "windows"@ || m
        == "command"@ {
        Some(Modifier::Meta)
    } else {
        None
    }
}

/// Parses a lowercased plover modifier into a plojo modifier
pub fn parse_plover_modifier(m: &str) -> (r: Result<Modifier, ConversionError>)
    ensures
        match r {
            Ok(x) => plover_modifier(m@) == Some(x),
            Err(e) => plover_modifier(m@) is None && e@ == ConversionErrorV::UnknownModifier(m@),
        },
{
    if str_eq(m, "shift_l") || str_eq(m, "shift_r") || str_eq(m, "shift") {
        Ok(Modifier::Shift)
    } else if str_eq(m, "control_l") || str_eq(m, "control_r") || str_eq(m, "control") {
        Ok(Modifier::Control)
    } else if str_eq(m, "alt_l") || str_eq(m, "alt_r") || str_eq(m, "alt") {
        Ok(Modifier::Alt)
    } else if str_eq(m, "option") {
        Ok(Modifier::Option)
    } else if str_eq(m, "super_l") || str_eq(m, "super_r") || str_eq(m, "super") || str_eq(
        m,
        "windows",
    ) || str_eq(m, "command") {
        Ok(Modifier::Meta)
    } else {
        Err(ConversionError::UnknownModifier(m.to_owned()))
    }
}

/// The Plover names of keys other than the letters and digits (the names of Plover's key_combo)
pub open spec fn plover_key_names() -> Seq<(Seq<char>, Key)> {
    seq![
        ("backspace"@, Key::Special(SpecialKey::Backspace)),
        ("caps_lock"@, Key::Special(SpecialKey::CapsLock)),
        ("delete"@, Key::Special(SpecialKey::Delete)),
        ("end"@, Key::Special(SpecialKey::End)),
        ("escape"@, Key::Special(SpecialKey::Escape)),
        ("home"@, Key::Special(SpecialKey::Home)),
        ("page_down"@, Key::Special(SpecialKey::PageDown)),
        ("page_up"@, Key::Special(SpecialKey::PageUp)),
        ("return"@, Key::Special(SpecialKey::Return)),
        ("space"@, Key::Special(SpecialKey::Space)),
        ("tab"@, Key::Special(SpecialKey::Tab)),
        ("down"@, Key::Special(SpecialKey::DownArrow)),
        ("left"@, Key::Special(SpecialKey::LeftArrow)),
        ("right"@, Key::Special(SpecialKey::RightArrow)),
        ("up"@, Key::Special(SpecialKey::UpArrow)),
        ("f1"@, Key::Special(SpecialKey::F1)),
        ("f2"@, Key::Special(SpecialKey::F2)),
        ("f3"@, Key::Special(SpecialKey::F3)),
        ("f4"@, Key::Special(SpecialKey::F4)),
        ("f5"@, Key::Special(SpecialKey::F5)),
        ("f6"@, Key::Special(SpecialKey::F6)),
        ("f7"@, Key::Special(SpecialKey::F7)),
        ("f8"@, Key::Special(SpecialKey::F8)),
        ("f9"@, Key::Special(SpecialKey::F9)),
        ("f10"@, Key::Special(SpecialKey::F10)),
        ("f11"@, Key::Special(SpecialKey::F11)),
        ("f12"@, Key::Special(SpecialKey::F12)),
        ("aacute"@, Key::Layout('á')),
        ("acircumflex"@, Key::Layout('â')),
        ("acute"@, Key::Layout('´')),
        ("adiaeresis"@, Key::Layout('ä')),
        ("ae"@, Key::Layout('æ')),
        ("agrave"@, Key::Layout('à')),
        ("ampersand"@, Key::Layout('&')),
        ("apostrophe"@, Key::Layout('\'')),
        ("aring"@, Key::Layout('å')),
        ("asciicircum"@, Key::Layout('^')),
        ("asciitilde"@, Key::Layout('~')),
        ("asterisk"@, Key::Layout('*')),
        ("at"@, Key::Layout('@')),
        ("atilde"@, Key::Layout('ã')),
        ("backslash"@, Key::Layout('\\')),
        ("bar"@, Key::Layout('|')),
        ("braceleft"@, Key::Layout('{')),
        ("braceright"@, Key::Layout('}')),
        ("bracketleft"@, Key::Layout('[')),
        ("bracketright"@, Key::Layout(']')),
        ("brokenbar"@, Key::Layout('¦')),
        ("ccedilla"@, Key::Layout('ç')),
        ("cedilla"@, Key::Layout('¸')),
        ("cent"@, Key::Layout('¢')),
        ("clear"@, Key::Layout('\u{000b}')),
        ("colon"@, Key::Layout(':')),
        ("comma"@, Key::Layout(',')),
        ("copyright"@, Key::Layout('©')),
        ("currency"@, Key::Layout('¤')),
        ("degree"@, Key::Layout('°')),
        ("diaeresis"@, Key::Layout('¨')),
        ("division"@, Key::Layout('÷')),
        ("dollar"@, Key::Layout('$')),
        ("eacute"@, Key::Layout('é')),
        ("ecircumflex"@, Key::Layout('ê')),
        ("ediaeresis"@, Key::Layout('ë')),
        ("egrave"@, Key::Layout('è')),
        ("equal"@, Key::Layout('=')),
        ("eth"@, Key::Layout('ð')),
        ("exclam"@, Key::Layout('!')),
        ("exclamdown"@, Key::Layout('¡')),
        ("grave"@, Key::Layout('`')),
        ("greater"@, Key::Layout('>')),
        ("guillemotleft"@, Key::Layout('«')),
        ("guillemotright"@, Key::Layout('»')),
        ("hyphen"@, Key::Layout('­')),
        ("iacute"@, Key::Layout('í')),
        ("icircumflex"@, Key::Layout('î')),
        ("idiaeresis"@, Key::Layout('ï')),
        ("igrave"@, Key::Layout('ì')),
        ("less"@, Key::Layout('<')),
        ("macron"@, Key::Layout('¯')),
        ("masculine"@, Key::Layout('º')),
        ("minus"@, Key::Layout('-')),
        ("mu"@, Key::Layout('µ')),
        ("multiply"@, Key::Layout('×')),
        ("nobreakspace"@, Key::Layout('\u{00a0}')),
        ("notsign"@, Key::Layout('¬')),
        ("ntilde"@, Key::Layout('ñ')),
        ("numbersign"@, Key::Layout('#')),
        ("oacute"@, Key::Layout('ó')),
        ("ocircumflex"@, Key::Layout('ô')),
        ("odiaeresis"@, Key::Layout('ö')),
        ("ograve"@, Key::Layout('ò')),
        ("onehalf"@, Key::Layout('½')),
        ("onequarter"@, Key::Layout('¼')),
        ("onesuperior"@, Key::Layout('¹')),
        ("ooblique"@, Key::Layout('Ø')),
        ("ordfeminine"@, Key::Layout('ª')),
        ("oslash"@, Key::Layout('ø')),
        ("otilde"@, Key::Layout('õ')),
        ("paragraph"@, Key::Layout('¶')),
        ("parenleft"@, Key::Layout('(')),
        ("parenright"@, Key::Layout(')')),
        ("percent"@, Key::Layout('%')),
        ("period"@, Key::Layout('.')),
        ("periodcentered"@, Key::Layout('·')),
        ("plus"@, Key::Layout('+')),
        ("plusminus"@, Key::Layout('±')),
        ("question"@, Key::Layout('?')),
        ("questiondown"@, Key::Layout('¿')),
        ("quotedbl"@, Key::Layout('"')),
        ("quoteleft"@, Key::Layout('`')),
        ("quoteright"@, Key::Layout('\'')),
        ("registered"@, Key::Layout('®')),
        ("section"@, Key::Layout('§')),
        ("semicolon"@, Key::Layout(';')),
        ("slash"@, Key::Layout('/')),
        ("ssharp"@, Key::Layout('ß')),
        ("sterling"@, Key::Layout('£')),
        ("thorn"@, Key::Layout('þ')),
        ("threequarters"@, Key::Layout('¾')),
        ("threesuperior"@, Key::Layout('³')),
        ("twosuperior"@, Key::Layout('²')),
        ("uacute"@, Key::Layout('ú')),
        ("ucircumflex"@, Key::Layout('û')),
        ("udiaeresis"@, Key::Layout('ü')),
        ("ugrave"@, Key::Layout('ù')),
        ("underscore"@, Key::Layout('_')),
        ("yacute"@, Key::Layout('ý')),
        ("ydiaeresis"@, Key::Layout('ÿ')),
        ("yen"@, Key::Layout('¥')),
    ]
}

/// The key with a name in a table: the first entry with that name
pub open spec fn named_key(table: Seq<(Seq<char>, Key)>, name: Seq<char>) -> Option<Key>
    decreases table.len(),
{
    if table.len() == 0 {
        None
    } else if table[0].0 == name {
        Some(table[0].1)
    } else {
        named_key(table.skip(1), name)
    }
}

/// The plojo key of a lowercased Plover key: a single letter or digit is that key of the layout;
/// other keys go by their names
pub open spec fn plover_key(k: Seq<char>) -> Option<Key> {
    if k.len() == 1 && (('a' <= k[0] && k[0] <= 'z') || ('0' <= k[0] && k[0] <= '9')) {
        Some(Key::Layout(k[0]))
    } else {
        named_key(plover_key_names(), k)
    }
}

/// The Plover names of keys other than the letters and digits
fn key_names() -> (r: Vec<(&'static str, Key)>)
    ensures
        r@.map_values(|e: (&'static str, Key)| (e.0@, e.1)) == plover_key_names(),
{
    let r = vec![
        ("backspace", Key::Special(SpecialKey::Backspace)),
        ("caps_lock", Key::Special(SpecialKey::CapsLock)),
        ("delete", Key::Special(SpecialKey::Delete)),
        ("end", Key::Special(SpecialKey::End)),
        ("escape", Key::Special(SpecialKey::Escape)),
        ("home", Key::Special(SpecialKey::Home)),
        ("page_down", Key::Special(SpecialKey::PageDown)),
        ("page_up", Key::Special(SpecialKey::PageUp)),
        ("return", Key::Special(SpecialKey::Return)),
        ("space", Key::Special(SpecialKey::Space)),
        ("tab", Key::Special(SpecialKey::Tab)),
        ("down", Key::Special(SpecialKey::DownArrow)),
        ("left", Key::Special(SpecialKey::LeftArrow)),
        ("right", Key::Special(SpecialKey::RightArrow)),
        ("up", Key::Special(SpecialKey::UpArrow)),
        ("f1", Key::Special(SpecialKey::F1)),
        ("f2", Key::Special(SpecialKey::F2)),
        ("f3", Key::Special(SpecialKey::F3)),
        ("f4", Key::Special(SpecialKey::F4)),
        ("f5", Key::Special(SpecialKey::F5)),
        ("f6", Key::Special(SpecialKey::F6)),
        ("f7", Key::Special(SpecialKey::F7)),
        ("f8", Key::Special(SpecialKey::F8)),
        ("f9", Key::Special(SpecialKey::F9)),
        ("f10", Key::Special(SpecialKey::F10)),
        ("f11", Key::Special(SpecialKey::F11)),
        ("f12", Key::Special(SpecialKey::F12)),
        ("aacute", Key::Layout('á')),
        ("acircumflex", Key::Layout('â')),
        ("acute", Key::Layout('´')),
        ("adiaeresis", Key::Layout('ä')),
        ("ae", Key::Layout('æ')),
        ("agrave", Key::Layout('à')),
        ("ampersand", Key::Layout('&')),
        ("apostrophe", Key::Layout('\'')),
        ("aring", Key::Layout('å')),
        ("asciicircum", Key::Layout('^')),
        ("asciitilde", Key::Layout('~')),
        ("asterisk", Key::Layout('*')),
        ("at", Key::Layout('@')),
        ("atilde", Key::Layout('ã')),
        ("backslash", Key::Layout('\\')),
        ("bar", Key::Layout('|')),
        ("braceleft", Key::Layout('{')),
        ("braceright", Key::Layout('}')),
        ("bracketleft", Key::Layout('[')),
        ("bracketright", Key::Layout(']')),
        ("brokenbar", Key::Layout('¦')),
        ("ccedilla", Key::Layout('ç')),
        ("cedilla", Key::Layout('¸')),
        ("cent", Key::Layout('¢')),
        ("clear", Key::Layout('\u{000b}')),
        ("colon", Key::Layout(':')),
        ("comma", Key::Layout(',')),
        ("copyright", Key::Layout('©')),
        ("currency", Key::Layout('¤')),
        ("degree", Key::Layout('°')),
        ("diaeresis", Key::Layout('¨')),
        ("division", Key::Layout('÷')),
        ("dollar", Key::Layout('$')),
        ("eacute", Key::Layout('é')),
        ("ecircumflex", Key::Layout('ê')),
        ("ediaeresis", Key::Layout('ë')),
        ("egrave", Key::Layout('è')),
        ("equal", Key::Layout('=')),
        ("eth", Key::Layout('ð')),
        ("exclam", Key::Layout('!')),
        ("exclamdown", Key::Layout('¡')),
        ("grave", Key::Layout('`')),
        ("greater", Key::Layout('>')),
        ("guillemotleft", Key::Layout('«')),
        ("guillemotright", Key::Layout('»')),
        ("hyphen", Key::Layout('­')),
        ("iacute", Key::Layout('í')),
        ("icircumflex", Key::Layout('î')),
        ("idiaeresis", Key::Layout('ï')),
        ("igrave", Key::Layout('ì')),
        ("less", Key::Layout('<')),
        ("macron", Key::Layout('¯')),
        ("masculine", Key::Layout('º')),
        ("minus", Key::Layout('-')),
        ("mu", Key::Layout('µ')),
        ("multiply", Key::Layout('×')),
        ("nobreakspace", Key::Layout('\u{00a0}')),
        ("notsign", Key::Layout('¬')),
        ("ntilde", Key::Layout('ñ')),
        ("numbersign", Key::Layout('#')),
        ("oacute", Key::Layout('ó')),
        ("ocircumflex", Key::Layout('ô')),
        ("odiaeresis", Key::Layout('ö')),
        ("ograve", Key::Layout('ò')),
        ("onehalf", Key::Layout('½')),
        ("onequarter", Key::Layout('¼')),
        ("onesuperior", Key::Layout('¹')),
        ("ooblique", Key::Layout('Ø')),
        ("ordfeminine", Key::Layout('ª')),
        ("oslash", Key::Layout('ø')),
        ("otilde", Key::Layout('õ')),
        ("paragraph", Key::Layout('¶')),
        ("parenleft", Key::Layout('(')),
        ("parenright", Key::Layout(')')),
        ("percent", Key::Layout('%')),
        ("period", Key::Layout('.')),
        ("periodcentered", Key::Layout('·')),
        ("plus", Key::Layout('+')),
        ("plusminus", Key::Layout('±')),
        ("question", Key::Layout('?')),
        ("questiondown", Key::Layout('¿')),
        ("quotedbl", Key::Layout('"')),
        ("quoteleft", Key::Layout('`')),
        ("quoteright", Key::Layout('\'')),
        ("registered", Key::Layout('®')),
        ("section", Key::Layout('§')),
        ("semicolon", Key::Layout(';')),
        ("slash", Key::Layout('/')),
        ("ssharp", Key::Layout('ß')),
        ("sterling", Key::Layout('£')),
        ("thorn", Key::Layout('þ')),
        ("threequarters", Key::Layout('¾')),
        ("threesuperior", Key::Layout('³')),
        ("twosuperior", Key::Layout('²')),
        ("uacute", Key::Layout('ú')),
        ("ucircumflex", Key::Layout('û')),
        ("udiaeresis", Key::Layout('ü')),
        ("ugrave", Key::Layout('ù')),
        ("underscore", Key::Layout('_')),
        ("yacute", Key::Layout('ý')),
        ("ydiaeresis", Key::Layout('ÿ')),
        ("yen", Key::Layout('¥')),
    ];
    assert(r@.map_values(|e: (&'static str, Key)| (e.0@, e.1)) =~= plover_key_names());
    r
}

/// Parses a lowercased plover key into a plojo key
pub fn parse_plover_key(k: &str) -> (r: Result<Key, ConversionError>)
    ensures
        match r {
            Ok(x) => plover_key(k@) == Some(x),
            Err(e) => plover_key(k@) is None && e@ == ConversionErrorV::UnknownKey(k@),
        },
{
    let chars = chars_of(k);
    if chars.len() == 1 && (('a' <= chars[0] && chars[0] <= 'z') || ('0' <= chars[0] && chars[0]
        <= '9')) {
        return Ok(Key::Layout(chars[0]));
    }
    let names = key_names();
    let ghost table = plover_key_names();
    let mut i: usize = 0;
    assert(table.skip(0) =~= table);
    assert(plover_key(k@) == named_key(table, k@));
    while i < names.len()
        invariant
            i <= names.len(),
            plover_key(k@) == named_key(table, k@),
            names@.map_values(|e: (&'static str, Key)| (e.0@, e.1)) == table,
            named_key(table.skip(i as int), k@) == named_key(table, k@),
        decreases names.len() - i,
    {
        assert(table.skip(i as int)[0] == (names@[i as int].0@, names@[i as int].1));
        assert(table.skip(i as int).skip(1) =~= table.skip(i + 1));
        if str_eq(names[i].0, k) {
            return Ok(names[i].1);
        }
        i += 1;
    }
    Err(ConversionError::UnknownKey(k.to_owned()))
}

/// A single key with modifiers in the Plover format: `modifier(modifier(key))`
pub const KEY_COMBO: &'static str = "^((?:[a-z_]+\\()*)([a-z0-9_]+)(\\)*)$";

/// A keyboard shortcut entry: an optional `{^}`, the shortcut `{#...}`, then optionally `{^}`
/// and `{-|}`
pub const SHORTCUT: &'static str =
    "^((?:\\{\\^\\})?)\\{#([^\\} ]+)\\}((?:\\{\\^\\}(?:\\{-\\|\\})?)?)$";

/// The pieces of a text between opening parentheses, as splitting it at each `(` gives them
pub open spec fn paren_pieces(s: Seq<char>) -> Seq<Seq<char>>
    decreases s.len(),
{
    if s.len() == 0 {
        seq![Seq::empty()]
    } else {
        let r = paren_pieces(s.drop_last());
        if s.last() == '(' {
            r.push(Seq::empty())
        } else {
            r.update(r.len() - 1, r.last().push(s.last()))
        }
    }
}

proof fn lemma_paren_pieces_len(s: Seq<char>)
    ensures
        paren_pieces(s).len() >= 1,
    decreases s.len(),
{
    if s.len() > 0 {
        lemma_paren_pieces_len(s.drop_last());
    }
}

/// The plojo modifiers of Plover modifiers, in order; the first unknown one is an error
pub open spec fn plover_modifiers(ms: Seq<Seq<char>>) -> Result<Seq<Modifier>, ConversionErrorV>
    decreases ms.len(),
{
    if ms.len() == 0 {
        Ok(Seq::empty())
    } else {
        match plover_modifiers(ms.drop_last()) {
            Err(e) => Err(e),
            Ok(a) => match plover_modifier(ms.last()) {
                Some(m) => Ok(a.push(m)),
                None => Err(ConversionErrorV::UnknownModifier(ms.last())),
            },
        }
    }
}

/// The command of a Plover key combination: it is lowercased, then its modifiers (one per
/// closing parenthesis) and its key are read
pub open spec fn key_combo_spec(s: Seq<char>) -> Result<CommandV, ConversionErrorV> {
    match regex_captures_of(KEY_COMBO@, unicode_lowercase(s)) {
        None => Err(ConversionErrorV::InvalidKeyboardShortcut),
        Some(g) => {
            let mods = paren_pieces(group_text(g, 1)).drop_last();
            if mods.len() != encode_utf8(group_text(g, 3)).len() {
                Err(ConversionErrorV::UnbalancedParens)
            } else {
                match plover_modifiers(mods) {
                    Err(e) => Err(e),
                    Ok(ms) => match plover_key(group_text(g, 2)) {
                        Some(k) => Ok(CommandV::Keys(k, ms)),
                        None => Err(ConversionErrorV::UnknownKey(group_text(g, 2))),
                    },
                }
            }
        },
    }
}

/// Splits a text at each opening parenthesis
fn split_parens(s: &str) -> (r: Vec<String>)
    ensures
        r@.map_values(|x: String| x@) == paren_pieces(s@),
{
    let chars = chars_of(s);
    let mut pieces: Vec<String> = Vec::new();
    let mut current: Vec<char> = Vec::new();
    let mut i: usize = 0;
    while i < chars.len()
        invariant
            i <= chars.len(),
            chars@ == s@,
            pieces@.map_values(|x: String| x@).push(current@) == paren_pieces(s@.take(i as int)),
        decreases chars.len() - i,
    {
        let ghost before = pieces@.map_values(|x: String| x@);
        let ghost cur = current@;
        assert(s@.take(i + 1).drop_last() =~= s@.take(i as int));
        if chars[i] == '(' {
            let piece = crate::text::string_from_chars(current.as_slice());
            pieces.push(piece);
            current = Vec::new();
            assert(pieces@.map_values(|x: String| x@) =~= before.push(cur));
            assert(pieces@.map_values(|x: String| x@).push(current@) =~= before.push(cur).push(
                Seq::empty(),
            ));
        } else {
            current.push(chars[i]);
            assert(before.push(current@) =~= before.push(cur).update(
                before.push(cur).len() - 1,
                cur.push(chars[i as int]),
            ));
        }
        i += 1;
    }
    assert(s@.take(i as int) =~= s@);
    let last = crate::text::string_from_chars(current.as_slice());
    let ghost before = pieces@.map_values(|x: String| x@);
    pieces.push(last);
    assert(pieces@.map_values(|x: String| x@) =~= before.push(last@));
    pieces
}

proof fn lemma_modifiers_failed(ms: Seq<Seq<char>>, k: int)
    requires
        0 <= k <= ms.len(),
        plover_modifiers(ms.take(k)) is Err,
    ensures
        plover_modifiers(ms) == plover_modifiers(ms.take(k)),
    decreases ms.len() - k,
{
    if k < ms.len() {
        assert(ms.take(k + 1).drop_last() =~= ms.take(k));
        lemma_modifiers_failed(ms, k + 1);
    } else {
        assert(ms.take(k) =~= ms);
    }
}

/// Parses a single plover keyboard shortcut string into a plojo recognizable command
///
/// See plover documentation for details
/// https://github.com/openstenoproject/plover/wiki/Dictionary-Format#keyboard-shortcuts
///
/// This only accepts a single key + modifiers. Multiple keys do not work (there should not be
/// spaces)
pub fn parse_key_combo(s: &str) -> (r: Result<Command, ConversionError>)
    ensures
        match r {
            Ok(c) => key_combo_spec(s@) == Ok::<CommandV, ConversionErrorV>(c@),
            Err(e) => key_combo_spec(s@) == Err::<CommandV, ConversionErrorV>(e@),
        },
{
    let lower = to_lowercase(s);
    let g = match regex_captures(KEY_COMBO, lower.as_str()) {
        Some(g) => g,
        None => {
            return Err(ConversionError::InvalidKeyboardShortcut);
        },
    };
    let closing = group(&g, 3);
    let num_modifiers = closing.as_str().as_bytes().len();
    let mut modifiers_str = split_parens(group(&g, 1).as_str());
    proof {
        lemma_paren_pieces_len(group_text(groups_view(g@), 1));
    }
    // remove last item created by trailing '(' from the regex
    let ghost pieces = modifiers_str@.map_values(|x: String| x@);
    modifiers_str.pop();
    let ghost mods = modifiers_str@.map_values(|x: String| x@);
    assert(mods =~= pieces.drop_last());
    if modifiers_str.len() != num_modifiers {
        return Err(ConversionError::UnbalancedParens);
    }
    let mut modifiers: Vec<Modifier> = Vec::new();
    let mut i: usize = 0;
    assert(mods.take(0) =~= Seq::<Seq<char>>::empty());
    while i < modifiers_str.len()
        invariant
            i <= modifiers_str.len(),
            mods == modifiers_str@.map_values(|x: String| x@),
            regex_captures_of(KEY_COMBO@, unicode_lowercase(s@)) == Some(groups_view(g@)),
            mods == paren_pieces(group_text(groups_view(g@), 1)).drop_last(),
            mods.len() == encode_utf8(group_text(groups_view(g@), 3)).len(),
            plover_modifiers(mods.take(i as int)) == Ok::<Seq<Modifier>, ConversionErrorV>(
                modifiers@,
            ),
        decreases modifiers_str.len() - i,
    {
        assert(mods.take(i + 1).drop_last() =~= mods.take(i as int));
        assert(mods.take(i + 1).last() == modifiers_str@[i as int]@);
        match parse_plover_modifier(modifiers_str[i].as_str()) {
            Ok(m) => modifiers.push(m),
            Err(e) => {
                proof {
                    lemma_modifiers_failed(mods, i + 1);
                }
                return Err(e);
            },
        }
        i += 1;
    }
    assert(mods.take(i as int) =~= mods);
    let key = parse_plover_key(group(&g, 2).as_str())?;
    Ok(Command::Keys(key, modifiers))
}

/// The command entry of a keyboard shortcut: the key combination is read, the `{^}{-|}` or `{^}`
/// at the end is the text after it, and a `{^}` at the start deletes the space before it
pub open spec fn shortcut_spec(s: Seq<char>) -> Result<CmdV, ConversionErrorV> {
    match regex_captures_of(SHORTCUT@, s) {
        None => Err(ConversionErrorV::InvalidFormat),
        Some(g) => match key_combo_spec(group_text(g, 2)) {
            Err(e) => Err(e),
            Ok(c) => Ok(
                CmdV {
                    cmds: seq![c],
                    text_after: if group_text(g, 3).len() == 0 {
                        None
                    } else {
                        Some(group_text(g, 3))
                    },
                    suppress_space_before: group_text(g, 1).len() > 0,
                },
            ),
        },
    }
}

/// Convert a basic keyboard shortcut string into a command that can be interpreted by plojo.
///
/// This is the basic format: `{^}{#Shift_L(Alt_L(a))}{^}{-|}`
/// Where the `{^}` in the beginning is optional and the ending `{^}` and `{-|}` are optional
///
/// The keyboard shortcut in the middle follows the pattern `{#..}`. There must be only one
/// shortcut key (no spaces).
///
/// The modifier keys are translated into the plojo format in the order they appear.
pub fn convert_keyboard_shortcut(s: &str) -> (r: Result<Cmd, ConversionError>)
    ensures
        match r {
            Ok(c) => shortcut_spec(s@) == Ok::<CmdV, ConversionErrorV>(c@),
            Err(e) => shortcut_spec(s@) == Err::<CmdV, ConversionErrorV>(e@),
        },
{
    let c = match regex_captures(SHORTCUT, s) {
        Some(c) => c,
        None => {
            return Err(ConversionError::InvalidFormat);
        },
    };
    let cmd = parse_key_combo(group(&c, 2).as_str())?;
    let after = group(&c, 3);
    let text_after = if after.as_str().is_empty() {
        None
    } else {
        Some(after)
    };
    let suppress_space_before = !group(&c, 1).as_str().is_empty();
    let cmds = vec![cmd];
    let r = Cmd { cmds, text_after, suppress_space_before };
    assert(r@.cmds =~= shortcut_spec(s@)->Ok_0.cmds);
    Ok(r)
}

/// Whether a text holds `{#`, the start of a keyboard shortcut
pub open spec fn has_shortcut(s: Seq<char>) -> bool {
    exists|i: int| 0 <= i && i + 1 < s.len() && s[i] == '{' && #[trigger] s[i + 1] == '#'
}

/// What becomes of a Plover translation: `{#}` (doing nothing) and text without a keyboard
/// shortcut are kept as they are; one with a keyboard shortcut is converted
pub open spec fn convert_spec(plover_text: Seq<char>) -> Option<Result<CmdV, ConversionErrorV>> {
    if plover_text == "{#}"@ {
        None
    } else if has_shortcut(plover_text) {
        Some(shortcut_spec(plover_text))
    } else {
        None
    }
}

/// Converts a Plover translation: nothing when it is to be kept as it is, otherwise the command
/// entry of its keyboard shortcut or why that could not be converted
pub fn convert_translation(plover_text: &str) -> (r: Option<Result<Cmd, ConversionError>>)
    ensures
        match r {
            None => convert_spec(plover_text@) is None,
            Some(Ok(c)) => convert_spec(plover_text@) == Some(Ok::<CmdV, ConversionErrorV>(c@)),
            Some(Err(e)) => convert_spec(plover_text@) == Some(Err::<CmdV, ConversionErrorV>(e@)),
        },
{
    // ignore a "do nothing" stroke
    if str_eq(plover_text, "{#}") {
        return None;
    }
    let chars = chars_of(plover_text);
    let mut i: usize = 0;
    let mut found = false;
    while i < chars.len() && !found
        invariant
            i <= chars.len(),
            chars@ == plover_text@,
            found ==> has_shortcut(plover_text@),
            !found ==> forall|j: int|
                0 <= j < i && j + 1 < plover_text@.len() ==> !(plover_text@[j] == '{' && #[trigger] plover_text@[j + 1] == '#'),
        decreases chars.len() - i + if found {
            0int
        } else {
            1int
        },
    {
        if i + 1 < chars.len() && chars[i] == '{' && chars[i + 1] == '#' {
            found = true;
            assert(plover_text@[i + 1] == '#');
        } else {
            i += 1;
        }
    }
    if found {
        // must convert plover shortcut format if it exists
        Some(convert_keyboard_shortcut(plover_text))
    } else {
        proof {
            assert forall|j: int| 0 <= j && j + 1 < plover_text@.len() implies !(plover_text@[j] == '{'
                && #[trigger] plover_text@[j + 1] == '#') by {
                assert(j < i);
            }
        }
        // ignore non command strokes
        None
    }
}

/// The entries of a dictionary written one per line, in the order given
pub open spec fn entries_text(entries: Seq<(Seq<char>, Seq<char>)>) -> Seq<char>
    decreases entries.len(),
{
    if entries.len() == 0 {
        Seq::empty()
    } else {
        let line = "\n\""@ + entries.last().0 + "\": "@ + entries.last().1;
        if entries.len() == 1 {
            line
        } else {
            entries_text(entries.drop_last()) + ","@ + line
        }
    }
}

/// A dictionary written out as a JSON object with one entry on each line: each stroke with the
/// JSON text of its translation
pub open spec fn serialize_spec(entries: Seq<(Seq<char>, Seq<char>)>) -> Seq<char> {
    if entries.len() == 0 {
        "{}"@
    } else {
        "{"@ + entries_text(entries) + "\n}"@
    }
}

/// Serialize a dictionary with one entry on each line; the entries are each a stroke and the
/// JSON text of its translation, in the order they are to be written
pub fn serialize(entries: &Vec<(String, String)>) -> (r: String)
    ensures
        r@ == serialize_spec(entries@.map_values(|e: (String, String)| (e.0@, e.1@))),
{
    let ghost all = entries@.map_values(|e: (String, String)| (e.0@, e.1@));
    if entries.len() == 0 {
        return "{}".to_owned();
    }
    let mut result = "{".to_owned();
    let ghost start = result@;
    let mut i: usize = 0;
    while i < entries.len()
        invariant
            i <= entries.len(),
            all == entries@.map_values(|e: (String, String)| (e.0@, e.1@)),
            result@ == start + entries_text(all.take(i as int)),
        decreases entries.len() - i,
    {
        if i > 0 {
            crate::text::push_str(&mut result, ",");
        }
        crate::text::push_str(&mut result, "\n\"");
        crate::text::push_str(&mut result, entries[i].0.as_str());
        crate::text::push_str(&mut result, "\": ");
        crate::text::push_str(&mut result, entries[i].1.as_str());
        proof {
            assert(all.take(i + 1).drop_last() =~= all.take(i as int));
            assert(all.take(i + 1).last() == (entries@[i as int].0@, entries@[i as int].1@));
            if i == 0 {
                assert(all.take(0) =~= Seq::<(Seq<char>, Seq<char>)>::empty());
            }
        }
        i += 1;
        assert(result@ =~= start + entries_text(all.take(i as int)));
    }
    assert(all.take(i as int) =~= all);
    crate::text::push_str(&mut result, "\n}");
    result
}

/// A command entry as JSON text, the way `serde_json` writes it: the keys in sorted order, the
/// text after the commands and the flag for the space before them only when they are needed
pub open spec fn cmd_json(c: CmdV) -> Seq<char> {
    "{\"cmds\":"@ + commands_json(c.cmds) + (if c.suppress_space_before {
        ",\"suppress_space_before\":true"@
    } else {
        Seq::empty()
    }) + (match c.text_after {
        Some(t) => ",\"text_after\":"@ + json_str(t),
        None => Seq::empty(),
    }) + "}"@
}

/// Writes a command entry as JSON text
pub fn write_cmd_json(c: &Cmd) -> (r: String)
    ensures
        r@ == cmd_json(c@),
{
    let mut r = "{\"cmds\":".to_owned();
    let cmds = write_commands_json(&c.cmds);
    push_str(&mut r, cmds.as_str());
    let ghost head = r@;
    if c.suppress_space_before {
        push_str(&mut r, ",\"suppress_space_before\":true");
    }
    let ghost mid = r@;
    match &c.text_after {
        Some(t) => {
            push_str(&mut r, ",\"text_after\":");
            let text = write_json_str(t.as_str());
            push_str(&mut r, text.as_str());
        },
        None => {},
    }
    push_str(&mut r, "}");
    assert(r@ =~= cmd_json(c@));
    r
}

/// The JSON text of a dictionary value after conversion: a keyboard shortcut that converts
/// becomes its command entry, any other string stays as it is; a value that is not a string has
/// no conversion
pub open spec fn converted_value(value: Seq<char>) -> Option<Seq<char>> {
    match json_string(value) {
        None => None,
        Some(s) => match convert_spec(s) {
            Some(Ok(c)) => Some(cmd_json(c)),
            _ => Some(value),
        },
    }
}

/// The entries of a dictionary after conversion, in the same order; none when some value is not
/// a string
pub open spec fn converted_entries(o: Seq<(Seq<char>, Seq<char>)>) -> Option<
    Seq<(Seq<char>, Seq<char>)>,
>
    decreases o.len(),
{
    if o.len() == 0 {
        Some(Seq::empty())
    } else {
        match (converted_entries(o.drop_last()), converted_value(o.last().1)) {
            (Some(r), Some(v)) => Some(r.push((o.last().0, v))),
            _ => None,
        }
    }
}

/// The texts of dictionary entries
pub open spec fn entries_view(es: Seq<(String, String)>) -> Seq<(Seq<char>, Seq<char>)> {
    es.map_values(|e: (String, String)| (e.0@, e.1@))
}

/// The message when the dictionary is not JSON
pub const NOT_JSON: &'static str = "unable to parse JSON";

/// The message when the dictionary is not a JSON object
pub const NOT_OBJECT: &'static str = "dictionary top level should be an object";

/// The message when a value of the dictionary is not a string
pub const NOT_STRINGS: &'static str = "plover dictionary should only contain string values";

proof fn lemma_converted_none_stays(o: Seq<(Seq<char>, Seq<char>)>, j: int)
    requires
        0 <= j <= o.len(),
        converted_entries(o.take(j)) is None,
    ensures
        converted_entries(o) is None,
    decreases o.len() - j,
{
    if j < o.len() {
        assert(o.take(j + 1).drop_last() =~= o.take(j));
        lemma_converted_none_stays(o, j + 1);
    } else {
        assert(o.take(j) =~= o);
    }
}

/// Converts the keyboard shortcuts of a Plover dictionary (a JSON object of strings) into command
/// entries: each entry keeps its stroke, and its value becomes the JSON text of the command entry
/// when it is a shortcut that converts, or stays as its JSON text otherwise (shortcuts that fail
/// to convert included). The entries come in the order the parsed object holds them
pub fn convert_dictionary(contents: &str) -> (r: Result<Vec<(String, String)>, String>)
    ensures
        match r {
            Ok(es) => json_document(contents@) matches Ok(JsonV::Object(o))
                && converted_entries(o) == Some(entries_view(es@)),
            Err(m) => match json_document(contents@) {
                Ok(JsonV::Object(o)) => converted_entries(o) is None && m@ == NOT_STRINGS@,
                Ok(_) => m@ == NOT_OBJECT@,
                Err(_) => m@ == NOT_JSON@,
            },
        },
{
    let fields = match parse_json(contents) {
        Ok(Json::Object(o)) => o,
        Ok(_) => {
            return Err(NOT_OBJECT.to_owned());
        },
        Err(_) => {
            return Err(NOT_JSON.to_owned());
        },
    };
    let ghost o = fields@.map_values(|e: (String, String)| (e.0@, e.1@));
    let mut result: Vec<(String, String)> = Vec::new();
    let mut i: usize = 0;
    assert(o.take(0) =~= Seq::<(Seq<char>, Seq<char>)>::empty());
    assert(entries_view(result@) =~= Seq::<(Seq<char>, Seq<char>)>::empty());
    while i < fields.len()
        invariant
            i <= fields.len(),
            o == fields@.map_values(|e: (String, String)| (e.0@, e.1@)),
            json_document(contents@) == Ok::<JsonV, Seq<char>>(JsonV::Object(o)),
            converted_entries(o.take(i as int)) == Some(entries_view(result@)),
        decreases fields.len() - i,
    {
        let (stroke, value) = &fields[i];
        assert(o.take(i + 1).drop_last() =~= o.take(i as int));
        assert(o.take(i + 1).last() == (stroke@, value@));
        let ghost before = result@;
        match read_string(value.as_str()) {
            None => {
                proof {
                    assert(converted_value(value@) is None);
                    assert(converted_entries(o.take(i + 1)) is None);
                    lemma_converted_none_stays(o, i + 1);
                }
                return Err(NOT_STRINGS.to_owned());
            },
            Some(s) => {
                match convert_translation(s.as_str()) {
                    Some(Ok(c)) => {
                        let text = write_cmd_json(&c);
                        result.push((stroke.clone(), text));
                    },
                    _ => {
                        result.push((stroke.clone(), value.clone()));
                    },
                }
            },
        }
        assert(entries_view(result@) =~= entries_view(before).push(result@.last()@));
        i += 1;
    }
    assert(o.take(i as int) =~= o);
    Ok(result)
}

} // verus!
