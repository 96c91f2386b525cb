//! Reverse lookup: which strokes give a translation, in which dictionary.
use crate::base::commands::{clone_strings, strings_view};
use crate::base::decode::{json_string, read_string};
use crate::json::{json_document, parse_json, Json, JsonV};
use crate::text::push_str;
use vstd::hash_map::StringHashMap;
use vstd::prelude::*;

verus! {

/// A dictionary reversed: each translation with the strokes that give it, in the order of the
/// dictionary
pub struct Dict {
    strokes: StringHashMap<Vec<String>>,
}

/// The texts of a list of strings
pub open spec fn strings_of(v: Seq<String>) -> Seq<Seq<char>> {
    v.map_values(|s: String| s@)
}

impl View for Dict {
    type V = Map<Seq<char>, Seq<Seq<char>>>;

    closed spec fn view(&self) -> Map<Seq<char>, Seq<Seq<char>>> {
        self.strokes@.map_values(|v: Vec<String>| strings_of(v@))
    }
}

/// The map that the pairs make: a later pair for a translation overrides an earlier one
pub open spec fn pairs_map(pairs: Seq<(Seq<char>, Seq<Seq<char>>)>) -> Map<
    Seq<char>,
    Seq<Seq<char>>,
>
    decreases pairs.len(),
{
    if pairs.len() == 0 {
        Map::empty()
    } else {
        pairs_map(pairs.drop_last()).insert(pairs.last().0, pairs.last().1)
    }
}

/// The strokes already kept for a translation
pub open spec fn strokes_for(m: Map<Seq<char>, Seq<Seq<char>>>, t: Seq<char>) -> Seq<Seq<char>> {
    if m.contains_key(t) {
        m[t]
    } else {
        Seq::empty()
    }
}

/// The key a dictionary value is looked up by: a string as it is, anything else as its JSON text
pub open spec fn value_key(value: Seq<char>) -> Seq<char> {
    match json_string(value) {
        Some(s) => s,
        None => value,
    }
}

/// The dictionary entries reversed: each stroke is added to the strokes of its translation
pub open spec fn reversed(entries: Seq<(Seq<char>, Seq<char>)>) -> Map<Seq<char>, Seq<Seq<char>>>
    decreases entries.len(),
{
    if entries.len() == 0 {
        Map::empty()
    } else {
        let m = reversed(entries.drop_last());
        let t = value_key(entries.last().1);
        m.insert(t, strokes_for(m, t).push(entries.last().0))
    }
}

/// Every stroke of the dictionary is listed under its translation
pub proof fn lemma_entry_is_listed(entries: Seq<(Seq<char>, Seq<char>)>, i: int)
    requires
        0 <= i < entries.len(),
    ensures
        reversed(entries).contains_key(value_key(entries[i].1)),
        reversed(entries)[value_key(entries[i].1)].contains(entries[i].0),
    decreases entries.len(),
{
    let rest = entries.drop_last();
    let m = reversed(rest);
    let t = value_key(entries.last().1);
    let listed = strokes_for(m, t).push(entries.last().0);
    if i == entries.len() - 1 {
        assert(listed[listed.len() - 1] == entries[i].0);
    } else {
        lemma_entry_is_listed(rest, i);
        assert(rest[i] == entries[i]);
        let ti = value_key(entries[i].1);
        if t == ti {
            let k = choose|k: int| 0 <= k < m[ti].len() && m[ti][k] == entries[i].0;
            assert(listed[k] == entries[i].0);
        }
    }
}

/// Every stroke listed under a translation is a stroke of the dictionary with that translation
pub proof fn lemma_listed_is_entry(entries: Seq<(Seq<char>, Seq<char>)>, t: Seq<char>, j: int)
    requires
        reversed(entries).contains_key(t),
        0 <= j < reversed(entries)[t].len(),
    ensures
        exists|i: int|
            0 <= i < entries.len() && entries[i].0 == reversed(entries)[t][j] && value_key(
                #[trigger] entries[i].1,
            ) == t,
    decreases entries.len(),
{
    let rest = entries.drop_last();
    let m = reversed(rest);
    let last = entries.last();
    let tl = value_key(last.1);
    let n = entries.len() - 1;
    if tl == t {
        let listed = strokes_for(m, t).push(last.0);
        if j == listed.len() - 1 {
            assert(entries[n].0 == reversed(entries)[t][j] && value_key(entries[n].1) == t);
        } else {
            assert(m.contains_key(t));
            lemma_listed_is_entry(rest, t, j);
            let i = choose|i: int|
                0 <= i < rest.len() && rest[i].0 == m[t][j] && value_key(#[trigger] rest[i].1) == t;
            assert(entries[i] == rest[i]);
            assert(entries[i].0 == reversed(entries)[t][j] && value_key(entries[i].1) == t);
        }
    } else {
        lemma_listed_is_entry(rest, t, j);
        let i = choose|i: int|
            0 <= i < rest.len() && rest[i].0 == m[t][j] && value_key(#[trigger] rest[i].1) == t;
        assert(entries[i] == rest[i]);
        assert(entries[i].0 == reversed(entries)[t][j] && value_key(entries[i].1) == t);
    }
}

impl Dict {
    /// A dictionary without entries
    pub fn empty() -> (d: Self)
        ensures
            d@ == Map::<Seq<char>, Seq<Seq<char>>>::empty(),
    {
        let d = Dict { strokes: StringHashMap::new() };
        assert(d@ =~= Map::<Seq<char>, Seq<Seq<char>>>::empty());
        d
    }

    /// The strokes of a translation
    pub fn get(&self, translation: &str) -> (r: Option<&Vec<String>>)
        ensures
            match r {
                Some(v) => self@.contains_key(translation@) && strings_of(v@)
                    == self@[translation@],
                None => !self@.contains_key(translation@),
            },
    {
        self.strokes.get(translation)
    }

    /// Sets the strokes of a translation
    pub fn insert(&mut self, translation: String, strokes: Vec<String>)
        ensures
            final(self)@ == old(self)@.insert(translation@, strings_of(strokes@)),
    {
        let ghost t = translation@;
        let ghost s = strings_of(strokes@);
        self.strokes.insert(translation, strokes);
        assert(self@ =~= old(self)@.insert(t, s));
    }

    /// Adds a stroke to the strokes of a translation
    pub fn add_stroke(&mut self, translation: String, stroke: String)
        ensures
            final(self)@ == old(self)@.insert(
                translation@,
                strokes_for(old(self)@, translation@).push(stroke@),
            ),
    {
        let mut strokes: Vec<String> = match self.get(translation.as_str()) {
            Some(v) => v.clone(),
            None => Vec::new(),
        };
        proof {
            if !old(self)@.contains_key(translation@) {
                assert(strings_of(strokes@) =~= Seq::<Seq<char>>::empty());
            }
        }
        let ghost before = strokes@;
        strokes.push(stroke);
        assert(strings_of(strokes@) =~= strings_of(before).push(stroke@));
        self.insert(translation, strokes);
    }

    /// Builds a dictionary from translations and their strokes; a later pair for a translation
    /// overrides an earlier one
    pub fn from_pairs(pairs: Vec<(String, Vec<String>)>) -> (d: Self)
        ensures
            d@ == pairs_map(pairs_view(pairs@)),
    {
        let ghost all = pairs_view(pairs@);
        let mut d = Dict::empty();
        let mut i: usize = 0;
        while i < pairs.len()
            invariant
                i <= pairs.len(),
                all == pairs_view(pairs@),
                d@ == pairs_map(all.take(i as int)),
            decreases pairs.len() - i,
        {
            let strokes = clone_strings(&pairs[i].1);
            assert(all.take(i + 1).drop_last() =~= all.take(i as int));
            assert(all[i as int] == (pairs@[i as int].0@, strings_of(pairs@[i as int].1@)));
            assert(strings_of(strokes@) == strings_view(strokes@));
            d.insert(pairs[i].0.clone(), strokes);
            i += 1;
        }
        assert(all.take(i as int) =~= all);
        d
    }
}

/// The values of translations with their strokes
pub open spec fn pairs_view(pairs: Seq<(String, Vec<String>)>) -> Seq<(Seq<char>, Seq<Seq<char>>)> {
    pairs.map_values(|p: (String, Vec<String>)| (p.0@, strings_of(p.1@)))
}

/// The dictionaries that have the translation, in order, with its strokes in each
pub open spec fn lookup_spec(
    dicts: Seq<(Map<Seq<char>, Seq<Seq<char>>>, Seq<char>)>,
    translation: Seq<char>,
) -> Seq<(Seq<Seq<char>>, Seq<char>)>
    decreases dicts.len(),
{
    if dicts.len() == 0 {
        Seq::empty()
    } else {
        let rest = lookup_spec(dicts.drop_last(), translation);
        let (d, name) = dicts.last();
        if d.contains_key(translation) {
            rest.push((d[translation], name))
        } else {
            rest
        }
    }
}

/// The values of named dictionaries
pub open spec fn dicts_view(dicts: Seq<(Dict, String)>) -> Seq<(Map<Seq<char>, Seq<Seq<char>>>, Seq<char>)> {
    dicts.map_values(|d: (Dict, String)| (d.0@, d.1@))
}

/// The values of the matches
pub open spec fn matches_view(matches: Seq<(&Vec<String>, &String)>) -> Seq<(Seq<Seq<char>>, Seq<char>)> {
    matches.map_values(|m: (&Vec<String>, &String)| (strings_of(m.0@), m.1@))
}

/// Look up a given translation in the dictionaries.
///
/// The translation should be the literal string in the dictionary or a string representation of
/// the JSON object in the dictionary.
pub fn lookup<'a>(dicts: &'a [(Dict, String)], translation: String) -> (r: Vec<(&'a Vec<String>, &'a String)>)
    ensures
        matches_view(r@) == lookup_spec(dicts_view(dicts@), translation@),
{
    let ghost all = dicts_view(dicts@);
    let mut strokes: Vec<(&'a Vec<String>, &'a String)> = Vec::new();
    let mut i: usize = 0;
    while i < dicts.len()
        invariant
            i <= dicts.len(),
            all == dicts_view(dicts@),
            matches_view(strokes@) == lookup_spec(all.take(i as int), translation@),
        decreases dicts.len() - i,
    {
        let (d, dict_name) = &dicts[i];
        assert(all.take(i + 1).drop_last() =~= all.take(i as int));
        assert(all.take(i + 1).last() == (d@, dict_name@));
        let ghost before = strokes@;
        if let Some(s) = d.get(translation.as_str()) {
            strokes.push((s, dict_name));
            assert(matches_view(strokes@) =~= matches_view(before).push(
                (strings_of(s@), dict_name@),
            ));
        }
        i += 1;
    }
    assert(all.take(i as int) =~= all);
    strokes
}

/// The matches written out: for each dictionary its name, then each of its strokes on a line
pub open spec fn format_spec(matches: Seq<(Seq<Seq<char>>, Seq<char>)>) -> Seq<char>
    decreases matches.len(),
{
    if matches.len() == 0 {
        Seq::empty()
    } else {
        format_spec(matches.drop_last()) + "\nFile: "@ + matches.last().1 + "\n"@ + lines(
            matches.last().0,
        )
    }
}

/// The number of strokes found over all the dictionaries matched
pub open spec fn match_count(matches: Seq<(Seq<Seq<char>>, Seq<char>)>) -> int
    decreases matches.len(),
{
    if matches.len() == 0 {
        0
    } else {
        match_count(matches.drop_last()) + matches.last().0.len()
    }
}

/// Counts the strokes found over all the dictionaries matched
pub fn count_matches(matches: &[(&Vec<String>, &String)]) -> (r: usize)
    requires
        match_count(matches_view(matches@)) <= usize::MAX,
    ensures
        r == match_count(matches_view(matches@)),
{
    let ghost all = matches_view(matches@);
    let mut total: usize = 0;
    let mut i: usize = 0;
    while i < matches.len()
        invariant
            i <= matches.len(),
            all == matches_view(matches@),
            total == match_count(all.take(i as int)),
            match_count(all) <= usize::MAX,
        decreases matches.len() - i,
    {
        proof {
            assert(all.take(i + 1).drop_last() =~= all.take(i as int));
            lemma_match_count_prefix(all, i + 1);
        }
        total = total + matches[i].0.len();
        i += 1;
    }
    assert(all.take(i as int) =~= all);
    total
}

proof fn lemma_match_count_prefix(m: Seq<(Seq<Seq<char>>, Seq<char>)>, k: int)
    requires
        0 <= k <= m.len(),
    ensures
        0 <= match_count(m.take(k)) <= match_count(m),
    decreases m.len() - k,
{
    if k < m.len() {
        lemma_match_count_prefix(m, k + 1);
        lemma_match_count_nonneg(m.take(k));
        assert(m.take(k + 1).drop_last() =~= m.take(k));
        assert(match_count(m.take(k + 1)) == match_count(m.take(k)) + m[k].0.len());
    } else {
        assert(m.take(k) =~= m);
        lemma_match_count_nonneg(m);
    }
}

proof fn lemma_match_count_nonneg(m: Seq<(Seq<Seq<char>>, Seq<char>)>)
    ensures
        match_count(m) >= 0,
    decreases m.len(),
{
    if m.len() > 0 {
        lemma_match_count_nonneg(m.drop_last());
    }
}

/// Each stroke followed by a line break
pub open spec fn lines(strokes: Seq<Seq<char>>) -> Seq<char>
    decreases strokes.len(),
{
    if strokes.len() == 0 {
        Seq::empty()
    } else {
        lines(strokes.drop_last()) + strokes.last() + "\n"@
    }
}

/// Format the matches as a string of the dictionary name and the matched strokes
pub fn format_lookup(matches: &[(&Vec<String>, &String)]) -> (r: String)
    ensures
        r@ == format_spec(matches_view(matches@)),
{
    let ghost all = matches_view(matches@);
    let mut all_str = String::new();
    let mut i: usize = 0;
    while i < matches.len()
        invariant
            i <= matches.len(),
            all == matches_view(matches@),
            all_str@ == format_spec(all.take(i as int)),
        decreases matches.len() - i,
    {
        let (m, dict_name) = matches[i];
        assert(all.take(i + 1).drop_last() =~= all.take(i as int));
        assert(all.take(i + 1).last() == (strings_of(m@), dict_name@));
        let ghost start = all_str@;
        push_str(&mut all_str, "\nFile: ");
        push_str(&mut all_str, dict_name.as_str());
        push_str(&mut all_str, "\n");
        let ghost head = all_str@;
        let mut k: usize = 0;
        while k < m.len()
            invariant
                k <= m.len(),
                all_str@ == head + lines(strings_of(m@).take(k as int)),
            decreases m.len() - k,
        {
            push_str(&mut all_str, m[k].as_str());
            push_str(&mut all_str, "\n");
            assert(strings_of(m@).take(k + 1).drop_last() =~= strings_of(m@).take(k as int));
            k += 1;
            assert(all_str@ =~= head + lines(strings_of(m@).take(k as int)));
        }
        assert(strings_of(m@).take(k as int) =~= strings_of(m@));
        i += 1;
        assert(all_str@ =~= format_spec(all.take(i as int)));
    }
    assert(all.take(i as int) =~= all);
    all_str
}

/// Whether a raw dictionary is a JSON object, which is what can be reversed
pub open spec fn is_dictionary(raw: Seq<char>) -> bool {
    json_document(raw) is Ok && json_document(raw)->Ok_0 is Object
}

/// The entries of a raw dictionary that is a JSON object
pub open spec fn dictionary_entries(raw: Seq<char>) -> Seq<(Seq<char>, Seq<char>)> {
    json_document(raw)->Ok_0->Object_0
}

/// Parses a dictionary into a map from output text to strokes.
///
/// Any dictionary entry that is an object can be looked up with the object as a JSON string
/// (omit spaces from the string)
///
/// The dictionary should be a string of a JSON object
pub fn parse_dictionary(raw_dict: &str) -> (d: Dict)
    requires
        is_dictionary(raw_dict@),
    ensures
        d@ == reversed(dictionary_entries(raw_dict@)),
{
    let entries = match parse_json(raw_dict) {
        Ok(Json::Object(o)) => o,
        _ => {
            return Dict::empty();
        },
    };
    let ghost all = entries@.map_values(|e: (String, String)| (e.0@, e.1@));
    let mut dict = Dict::empty();
    let mut i: usize = 0;
    // insert the JSON reversed (translation to stroke map)
    while i < entries.len()
        invariant
            i <= entries.len(),
            all == entries@.map_values(|e: (String, String)| (e.0@, e.1@)),
            all == dictionary_entries(raw_dict@),
            dict@ == reversed(all.take(i as int)),
        decreases entries.len() - i,
    {
        let (stroke, translation) = &entries[i];
        assert(all.take(i + 1).drop_last() =~= all.take(i as int));
        assert(all.take(i + 1).last() == (stroke@, translation@));
        // format non strings as raw JSON text
        let t = match read_string(translation.as_str()) {
            Some(s) => s,
            None => translation.clone(),
        };
        // add the stroke to the other strokes for this translation
        dict.add_stroke(t, stroke.clone());
        i += 1;
    }
    assert(all.take(i as int) =~= all);
    dict
}

/// Load the dictionaries from their raw contents and their names. Returns the parsed dictionary
/// and its name
pub fn load_dictionaries(files: Vec<(String, String)>) -> (r: Vec<(Dict, String)>)
    requires
        forall|i: int| 0 <= i < files.len() ==> is_dictionary(#[trigger] files@[i].0@),
    ensures
        r.len() == files.len(),
        forall|i: int|
            0 <= i < files.len() ==> #[trigger] r@[i].0@ == reversed(
                dictionary_entries(files@[i].0@),
            ) && r@[i].1@ == files@[i].1@,
{
    let mut dicts: Vec<(Dict, String)> = Vec::new();
    let mut i: usize = 0;
    while i < files.len()
        invariant
            i <= files.len(),
            dicts.len() == i,
            forall|k: int| 0 <= k < files.len() ==> is_dictionary(#[trigger] files@[k].0@),
            forall|k: int|
                0 <= k < i ==> #[trigger] dicts@[k].0@ == reversed(
                    dictionary_entries(files@[k].0@),
                ) && dicts@[k].1@ == files@[k].1@,
        decreases files.len() - i,
    {
        let dict = parse_dictionary(files[i].0.as_str());
        dicts.push((dict, files[i].1.clone()));
        i += 1;
    }
    dicts
}

/// Whether a raw dictionary is a JSON object
pub fn check_dictionary(raw: &str) -> (b: bool)
    ensures
        b == is_dictionary(raw@),
{
    match parse_json(raw) {
        Ok(Json::Object(_)) => true,
        _ => false,
    }
}

/// Loads the dictionaries when every one of them is a JSON object; nothing otherwise
pub fn try_load_dictionaries(files: Vec<(String, String)>) -> (r: Option<Vec<(Dict, String)>>)
    ensures
        match r {
            Some(d) => d.len() == files.len() && forall|i: int|
                0 <= i < files.len() ==> #[trigger] d@[i].0@ == reversed(
                    dictionary_entries(files@[i].0@),
                ) && d@[i].1@ == files@[i].1@,
            None => exists|i: int| 0 <= i < files.len() && !is_dictionary(#[trigger] files@[i].0@),
        },
{
    let mut i: usize = 0;
    while i < files.len()
        invariant
            i <= files.len(),
            forall|k: int| 0 <= k < i ==> is_dictionary(#[trigger] files@[k].0@),
        decreases files.len() - i,
    {
        if !check_dictionary(files[i].0.as_str()) {
            return None;
        }
        i += 1;
    }
    Some(load_dictionaries(files))
}

} // verus!
