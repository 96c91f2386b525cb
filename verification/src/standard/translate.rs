//! Looks up the strokes in the dictionary, using a greedy algorithm to convert them into
//! translations.
use crate::base::stroke::{is_center_key, Stroke};
use crate::standard::dictionary::{join_strokes, strokes_view, Dictionary};
use crate::standard::types::{Text, TextV, Translation, TranslationV};
use crate::text::{chars_of, string_from_chars};
use vstd::prelude::*;

verus! {

/// Limit the max number of strokes per translation for performance reasons
pub const MAX_TRANSLATION_STROKE_LEN: usize = 10;

/// The suffix keys of suffix folding (all on the right hand): `-Z`, `-D`, `-S` and `-G`, tried in
/// this order
pub open spec fn suffix_keys() -> Seq<char> {
    seq!['Z', 'D', 'S', 'G']
}

/// The index of the first center key (or of the center dash) from `i` on; the length when none
pub open spec fn first_center_from(raw: Seq<char>, i: int) -> int
    decreases raw.len() - i,
{
    if i < 0 || i >= raw.len() {
        raw.len() as int
    } else if is_center_key(raw[i]) {
        i
    } else {
        first_center_from(raw, i + 1)
    }
}

/// The index of the last occurrence of `c` among the first `n` characters; -1 when none
pub open spec fn last_index(raw: Seq<char>, c: char, n: int) -> int
    decreases n,
{
    if n <= 0 || n > raw.len() {
        -1
    } else if raw[n - 1] == c {
        n - 1
    } else {
        last_index(raw, c, n - 1)
    }
}

/// The stroke without the suffix key: its last occurrence is removed, then a dash left at the end
pub open spec fn folded_base(raw: Seq<char>, c: char) -> Seq<char> {
    let i = last_index(raw, c, raw.len() as int);
    let removed = if 0 <= i { raw.remove(i) } else { raw };
    if removed.len() > 0 && removed.last() == '-' {
        removed.drop_last()
    } else {
        removed
    }
}

/// Tries the suffix keys in order: one that is pressed after the center keys, whose base stroke
/// and suffix stroke both have translations, gives the two translations one after the other
pub open spec fn try_suffixes(
    d: Map<Seq<char>, Seq<TranslationV>>,
    raw: Seq<char>,
    center: int,
    keys: Seq<char>,
) -> Option<Seq<TranslationV>>
    decreases keys.len(),
{
    if keys.len() == 0 {
        None
    } else {
        let c = keys[0];
        let base = folded_base(raw, c);
        let suffix = seq!['-', c];
        if raw.skip(center).contains(c) && d.contains_key(base) && d.contains_key(suffix) {
            Some(d[base] + d[suffix])
        } else {
            try_suffixes(d, raw, center, keys.skip(1))
        }
    }
}

/// What suffix folding gives for a stroke: its own translation if it has one; otherwise, when it
/// has keys of the right hand (and so center keys), the first suffix that can be taken out of it
pub open spec fn suffix_folding_spec(d: Map<Seq<char>, Seq<TranslationV>>, raw: Seq<char>) -> Option<
    Seq<TranslationV>,
> {
    if d.contains_key(raw) {
        Some(d[raw])
    } else if first_center_from(raw, 0) < raw.len() {
        try_suffixes(d, raw, first_center_from(raw, 0), suffix_keys())
    } else {
        None
    }
}

/// Try to extract a suffix from a stroke (handles "suffix folding")
/// It will check if the resulting stroke and suffix have translations and return that
///
/// For example, "KARS" will return the look up of "KAR" and "-S" in the dictionary
/// "WORLD" will return None because there is no suffix to remove
pub fn try_suffix_folding(dict: &Dictionary, stroke: &Stroke) -> (r: Option<Vec<Translation>>)
    ensures
        match r {
            Some(t) => suffix_folding_spec(dict@, stroke@) == Some(translations_view_of(t)),
            None => suffix_folding_spec(dict@, stroke@) is None,
        },
{
    // if the stroke itself has a translation, don't extract suffixes
    if let Some(t) = dict.get(stroke.as_str()) {
        return Some(t);
    }
    let raw = chars_of(stroke.as_str());
    // ignore stroke if it doesn't contains right hand keys (since all suffixes are right hand)
    // this is detected with middle keys, which must be present if there are right hand keys
    let mut center: usize = 0;
    while center < raw.len() && !is_center_key_char(raw[center])
        invariant
            center <= raw.len(),
            raw@ == stroke@,
            first_center_from(raw@, center as int) == first_center_from(raw@, 0),
        decreases raw.len() - center,
    {
        center += 1;
    }
    if center == raw.len() {
        return None;
    }
    let keys: Vec<char> = vec!['Z', 'D', 'S', 'G'];
    assert(keys@ =~= suffix_keys());
    assert(keys@.skip(0) =~= keys@);
    let mut k: usize = 0;
    // try each suffix in order
    while k < keys.len()
        invariant
            k <= keys.len(),
            keys@ == suffix_keys(),
            raw@ == stroke@,
            center < raw.len(),
            center == first_center_from(raw@, 0),
            !dict@.contains_key(stroke@),
            try_suffixes(dict@, raw@, center as int, keys@.skip(k as int)) == try_suffixes(
                dict@,
                raw@,
                center as int,
                suffix_keys(),
            ),
        decreases keys.len() - k,
    {
        let c = keys[k];
        assert(keys@.skip(k as int)[0] == c);
        assert(keys@.skip(k as int).skip(1) =~= keys@.skip(k + 1));
        // check if the suffix exists in the stroke (after the center strokes)
        if contains_from(&raw, center, c) {
            let base = folded_base_of(&raw, c);
            let base = string_from_chars(base.as_slice());
            if let Some(mut t) = dict.get(base.as_str()) {
                let suffix = string_from_chars(&['-', c]);
                assert(suffix@ =~= seq!['-', c]);
                if let Some(mut suffix_translation) = dict.get(suffix.as_str()) {
                    let ghost tb = t@;
                    let ghost ts = suffix_translation@;
                    t.append(&mut suffix_translation);
                    assert(translations_view_of(t) =~= translations_view_of_seq(tb)
                        + translations_view_of_seq(ts));
                    return Some(t);
                }
            }
        }
        k += 1;
    }
    None
}

/// The values of a list of translations
pub open spec fn translations_view_of(t: Vec<Translation>) -> Seq<TranslationV> {
    translations_view_of_seq(t@)
}

/// The values of a sequence of translations
pub open spec fn translations_view_of_seq(t: Seq<Translation>) -> Seq<TranslationV> {
    t.map_values(|x: Translation| x@)
}

fn is_center_key_char(c: char) -> (b: bool)
    ensures
        b == is_center_key(c),
{
    c == 'A' || c == 'O' || c == 'E' || c == 'U' || c == '*' || c == '-'
}

/// Whether `c` occurs in `raw` from `from` on
fn contains_from(raw: &Vec<char>, from: usize, c: char) -> (b: bool)
    requires
        from <= raw.len(),
    ensures
        b == raw@.skip(from as int).contains(c),
{
    let mut i: usize = from;
    while i < raw.len()
        invariant
            from <= i <= raw.len(),
            forall|j: int| from <= j < i ==> raw@[j] != c,
        decreases raw.len() - i,
    {
        if raw[i] == c {
            assert(raw@.skip(from as int)[i - from] == c);
            return true;
        }
        i += 1;
    }
    proof {
        if raw@.skip(from as int).contains(c) {
            let j = choose|j: int| 0 <= j < raw@.skip(from as int).len() && raw@.skip(from as int)[j] == c;
            assert(raw@[from + j] == c);
        }
    }
    false
}

/// The stroke without the suffix key, as `folded_base` says
fn folded_base_of(raw: &Vec<char>, c: char) -> (r: Vec<char>)
    ensures
        r@ == folded_base(raw@, c),
{
    // find the last occurrence of the suffix key
    let mut n: usize = raw.len();
    while n > 0 && raw[n - 1] != c
        invariant
            n <= raw.len(),
            last_index(raw@, c, n as int) == last_index(raw@, c, raw.len() as int),
        decreases n,
    {
        n -= 1;
    }
    let mut r: Vec<char> = Vec::new();
    let mut i: usize = 0;
    while i < raw.len()
        invariant
            i <= raw.len(),
            n <= raw.len(),
            n > 0 ==> raw@[n - 1] == c,
            r@ == if n > 0 && i >= n {
                raw@.take(i as int).remove(n - 1)
            } else {
                raw@.take(i as int)
            },
        decreases raw.len() - i,
    {
        if !(n > 0 && i == n - 1) {
            r.push(raw[i]);
        }
        i += 1;
        assert(r@ =~= if n > 0 && i >= n {
            raw@.take(i as int).remove(n - 1)
        } else {
            raw@.take(i as int)
        });
    }
    assert(raw@.take(i as int) =~= raw@);
    assert(last_index(raw@, c, n as int) == if n > 0 {
        n - 1
    } else {
        -1
    });
    // remove extraneous dash if there is any
    if r.len() > 0 && r[r.len() - 1] == '-' {
        r.pop();
    }
    r
}

/// The translation of the first `k` strokes, if any: a single stroke goes through suffix folding
pub open spec fn match_len(d: Map<Seq<char>, Seq<TranslationV>>, strokes: Seq<Seq<char>>, k: int) -> Option<
    Seq<TranslationV>,
> {
    if k == 1 {
        suffix_folding_spec(d, strokes[0])
    } else if d.contains_key(join_strokes(strokes.take(k))) {
        Some(d[join_strokes(strokes.take(k))])
    } else {
        None
    }
}

/// The largest number of strokes, at most `k`, that have a translation, with that translation;
/// 0 when none has
pub open spec fn longest_match(d: Map<Seq<char>, Seq<TranslationV>>, strokes: Seq<Seq<char>>, k: int) -> (
    int,
    Seq<TranslationV>,
)
    decreases k,
{
    if k <= 0 {
        (0, Seq::empty())
    } else {
        match match_len(d, strokes, k) {
            Some(t) => (k, t),
            None => longest_match(d, strokes, k - 1),
        }
    }
}

/// The translations of strokes: from the oldest stroke on, the most strokes (up to ten) that have
/// a translation are taken; a stroke that starts no translation is an unknown stroke
pub open spec fn translate_spec(d: Map<Seq<char>, Seq<TranslationV>>, strokes: Seq<Seq<char>>) -> Seq<
    TranslationV,
>
    decreases strokes.len(),
{
    if strokes.len() == 0 {
        Seq::empty()
    } else {
        let m = if strokes.len() < MAX_TRANSLATION_STROKE_LEN {
            strokes.len() as int
        } else {
            MAX_TRANSLATION_STROKE_LEN as int
        };
        let (k, t) = longest_match(d, strokes, m);
        if 1 <= k <= strokes.len() {
            t + translate_spec(d, strokes.skip(k))
        } else {
            seq![TranslationV::Text(TextV::UnknownStroke(strokes[0]))] + translate_spec(
                d,
                strokes.skip(1),
            )
        }
    }
}

proof fn lemma_longest_match_bounds(
    d: Map<Seq<char>, Seq<TranslationV>>,
    strokes: Seq<Seq<char>>,
    k: int,
)
    ensures
        0 <= longest_match(d, strokes, k).0 <= if k < 0 {
            0
        } else {
            k
        },
    decreases k,
{
    if k > 0 {
        lemma_longest_match_bounds(d, strokes, k - 1);
    }
}

/// Looks up the definition of strokes in the dictionary, from the stroke at `from` on
pub fn translate_from(dict: &Dictionary, strokes: &[Stroke], from: usize) -> (r: Vec<Translation>)
    requires
        from <= strokes@.len(),
    ensures
        translations_view_of(r) == translate_spec(
            dict@,
            strokes_view(strokes@).skip(from as int),
        ),
{
    let ghost all = strokes_view(strokes@);
    let n = strokes.len();
    let mut all_translations: Vec<Translation> = Vec::new();
    let mut start: usize = from;
    assert(translations_view_of(all_translations) + translate_spec(dict@, all.skip(from as int))
        =~= translate_spec(dict@, all.skip(from as int)));
    while start < strokes.len()
        invariant
            from <= start <= strokes@.len(),
            strokes@.len() == n,
            all == strokes_view(strokes@),
            translations_view_of(all_translations) + translate_spec(dict@, all.skip(start as int))
                == translate_spec(dict@, all.skip(from as int)),
        decreases strokes.len() - start,
    {
        let ghost rest = all.skip(start as int);
        let ghost before = translations_view_of(all_translations);
        // limit how far to look forward
        let m: usize = if strokes.len() - start < MAX_TRANSLATION_STROKE_LEN {
            strokes.len() - start
        } else {
            MAX_TRANSLATION_STROKE_LEN
        };
        let mut k: usize = m;
        let mut found: Option<Vec<Translation>> = None;
        // look forward up to a certain number of strokes, starting from the most strokes
        while k > 0 && found.is_none()
            invariant
                k <= m <= strokes@.len() - start,
                start < strokes@.len(),
                strokes@.len() == n,
                found is Some ==> k >= 1,
                rest == all.skip(start as int),
                all == strokes_view(strokes@),
                longest_match(dict@, rest, m as int) == match found {
                    Some(t) => (k as int, translations_view_of(t)),
                    None => longest_match(dict@, rest, k as int),
                },
            decreases k + if found is None {
                1int
            } else {
                0int
            },
        {
            if k == 1 {
                assert(rest[0] == strokes@[start as int]@);
                found = try_suffix_folding(dict, &strokes[start]);
            } else {
                assert(start + k <= strokes@.len());
                assert(rest.take(k as int) =~= all.subrange(start as int, start + k));
                found = dict.lookup_range(strokes, start, start + k);
            }
            if found.is_none() {
                k -= 1;
            }
        }
        proof {
            lemma_longest_match_bounds(dict@, rest, m as int);
            assert(rest.len() == strokes@.len() - start);
        }
        match found {
            Some(mut t) => {
                let ghost tv = translations_view_of(t);
                assert(1 <= k <= rest.len());
                assert(translate_spec(dict@, rest) == tv + translate_spec(dict@, rest.skip(k as int)));
                all_translations.append(&mut t);
                assert(rest.skip(k as int) =~= all.skip(start + k));
                assert(translations_view_of(all_translations) =~= before + tv);
                assert(translations_view_of(all_translations) + translate_spec(
                    dict@,
                    all.skip(start + k),
                ) =~= before + translate_spec(dict@, rest));
                start += k;
            },
            None => {
                // no translation for any number of strokes from the start: an unknown stroke
                assert(k == 0);
                assert(longest_match(dict@, rest, 0) == (0int, Seq::<TranslationV>::empty()));
                assert(translate_spec(dict@, rest) == seq![
                    TranslationV::Text(TextV::UnknownStroke(rest[0])),
                ] + translate_spec(dict@, rest.skip(1)));
                all_translations.push(Translation::Text(Text::UnknownStroke(strokes[start].clone())));
                assert(rest.skip(1) =~= all.skip(start + 1));
                assert(translations_view_of(all_translations) =~= before + seq![
                    TranslationV::Text(TextV::UnknownStroke(rest[0])),
                ]);
                assert(translations_view_of(all_translations) + translate_spec(
                    dict@,
                    all.skip(start + 1),
                ) =~= before + translate_spec(dict@, rest));
                start += 1;
            },
        }
    }
    assert(all.skip(start as int).len() == 0);
    assert(translations_view_of(all_translations) =~= translate_spec(dict@, all.skip(from as int)));
    all_translations
}

/// Looks up the definition of strokes in the dictionary, converting them into translations. Since
/// multiple strokes could map to one dictionary translation, a greedy algorithm is used starting
/// from the oldest strokes
pub fn translate_strokes(dict: &Dictionary, strokes: &[Stroke]) -> (r: Vec<Translation>)
    ensures
        translations_view_of(r) == translate_spec(dict@, strokes_view(strokes@)),
{
    assert(strokes_view(strokes@).skip(0) =~= strokes_view(strokes@));
    translate_from(dict, strokes, 0)
}

/// Whether none of the translations is a command
pub open spec fn no_commands(ts: Seq<TranslationV>) -> bool {
    forall|i: int| 0 <= i < ts.len() ==> !(#[trigger] ts[i] is Command)
}

/// Whether no entry of the dictionary holds a command
pub open spec fn dict_has_no_commands(d: Map<Seq<char>, Seq<TranslationV>>) -> bool {
    forall|k: Seq<char>| #[trigger] d.contains_key(k) ==> no_commands(d[k])
}

proof fn lemma_no_commands_concat(a: Seq<TranslationV>, b: Seq<TranslationV>)
    requires
        no_commands(a),
        no_commands(b),
    ensures
        no_commands(a + b),
{
    assert forall|i: int| 0 <= i < (a + b).len() implies !(#[trigger] (a + b)[i] is Command) by {
        if i < a.len() {
            assert((a + b)[i] == a[i]);
        } else {
            assert((a + b)[i] == b[i - a.len()]);
        }
    }
}

proof fn lemma_try_suffixes_no_commands(
    d: Map<Seq<char>, Seq<TranslationV>>,
    raw: Seq<char>,
    center: int,
    keys: Seq<char>,
)
    requires
        dict_has_no_commands(d),
    ensures
        try_suffixes(d, raw, center, keys) matches Some(t) ==> no_commands(t),
    decreases keys.len(),
{
    if keys.len() > 0 {
        let c = keys[0];
        let base = folded_base(raw, c);
        let suffix = seq!['-', c];
        if raw.skip(center).contains(c) && d.contains_key(base) && d.contains_key(suffix) {
            lemma_no_commands_concat(d[base], d[suffix]);
        } else {
            lemma_try_suffixes_no_commands(d, raw, center, keys.skip(1));
        }
    }
}

proof fn lemma_longest_match_no_commands(
    d: Map<Seq<char>, Seq<TranslationV>>,
    strokes: Seq<Seq<char>>,
    k: int,
)
    requires
        dict_has_no_commands(d),
    ensures
        no_commands(longest_match(d, strokes, k).1),
    decreases k,
{
    if k > 0 {
        if k == 1 {
            let raw = strokes[0];
            if !d.contains_key(raw) && first_center_from(raw, 0) < raw.len() {
                lemma_try_suffixes_no_commands(d, raw, first_center_from(raw, 0), suffix_keys());
            }
        }
        lemma_longest_match_no_commands(d, strokes, k - 1);
    }
}

/// A dictionary without commands translates any strokes into text alone
pub proof fn lemma_translate_no_commands(d: Map<Seq<char>, Seq<TranslationV>>, strokes: Seq<Seq<char>>)
    requires
        dict_has_no_commands(d),
    ensures
        no_commands(translate_spec(d, strokes)),
    decreases strokes.len(),
{
    if strokes.len() > 0 {
        let m = if strokes.len() < MAX_TRANSLATION_STROKE_LEN {
            strokes.len() as int
        } else {
            MAX_TRANSLATION_STROKE_LEN as int
        };
        let (k, t) = longest_match(d, strokes, m);
        lemma_longest_match_no_commands(d, strokes, m);
        if 1 <= k <= strokes.len() {
            lemma_translate_no_commands(d, strokes.skip(k));
            lemma_no_commands_concat(t, translate_spec(d, strokes.skip(k)));
        } else {
            let u = seq![TranslationV::Text(TextV::UnknownStroke(strokes[0]))];
            lemma_translate_no_commands(d, strokes.skip(1));
            lemma_no_commands_concat(u, translate_spec(d, strokes.skip(1)));
        }
    }
}

/// A stroke with a trailing dash dropped
pub open spec fn without_trailing_dash(s: Seq<char>) -> Seq<char> {
    if s.len() > 0 && s.last() == '-' {
        s.drop_last()
    } else {
        s
    }
}

proof fn lemma_last_index_is_last(raw: Seq<char>, c: char, i: int, n: int)
    requires
        0 <= i < n <= raw.len(),
        raw[i] == c,
        forall|j: int| i < j < raw.len() ==> raw[j] != c,
    ensures
        last_index(raw, c, n) == i,
    decreases n,
{
    if n - 1 > i {
        lemma_last_index_is_last(raw, c, i, n - 1);
    }
}

proof fn lemma_last_index_absent(raw: Seq<char>, c: char, n: int)
    requires
        0 <= n <= raw.len(),
        forall|j: int| 0 <= j < raw.len() ==> raw[j] != c,
    ensures
        last_index(raw, c, n) == -1,
    decreases n,
{
    if n > 0 {
        lemma_last_index_absent(raw, c, n - 1);
    }
}

/// Folding a suffix key out of a stroke removes the last occurrence of the key (the one on the
/// right hand, when the key is also on the left), then a dash left at the end
pub proof fn lemma_folded_base_removes_last_key(raw: Seq<char>, c: char, i: int)
    requires
        0 <= i < raw.len(),
        raw[i] == c,
        forall|j: int| i < j < raw.len() ==> raw[j] != c,
    ensures
        folded_base(raw, c) == without_trailing_dash(raw.remove(i)),
{
    lemma_last_index_is_last(raw, c, i, raw.len() as int);
}

/// A stroke without the suffix key is only stripped of a dash at its end
pub proof fn lemma_folded_base_without_key(raw: Seq<char>, c: char)
    requires
        forall|j: int| 0 <= j < raw.len() ==> raw[j] != c,
    ensures
        folded_base(raw, c) == without_trailing_dash(raw),
{
    lemma_last_index_absent(raw, c, raw.len() as int);
}

/// Whether the suffix key `c` can be folded out of a stroke whose first center key is at
/// `center`: it is pressed after the center keys, and both the stroke without it and the suffix
/// alone have entries
pub open spec fn can_fold(
    d: Map<Seq<char>, Seq<TranslationV>>,
    raw: Seq<char>,
    center: int,
    c: char,
) -> bool {
    &&& exists|i: int| center <= i < raw.len() && raw[i] == c
    &&& d.contains_key(folded_base(raw, c))
    &&& d.contains_key(seq!['-', c])
}

proof fn lemma_contains_after(raw: Seq<char>, center: int, c: char)
    requires
        0 <= center <= raw.len(),
    ensures
        raw.skip(center).contains(c) <==> exists|i: int| center <= i < raw.len() && raw[i] == c,
{
    if raw.skip(center).contains(c) {
        let j = choose|j: int| 0 <= j < raw.skip(center).len() && raw.skip(center)[j] == c;
        assert(raw[center + j] == c);
    }
    if exists|i: int| center <= i < raw.len() && raw[i] == c {
        let i = choose|i: int| center <= i < raw.len() && raw[i] == c;
        assert(raw.skip(center)[i - center] == c);
    }
}

proof fn lemma_try_suffixes_result(
    d: Map<Seq<char>, Seq<TranslationV>>,
    raw: Seq<char>,
    center: int,
    keys: Seq<char>,
)
    requires
        0 <= center <= raw.len(),
    ensures
        (forall|m: int| 0 <= m < keys.len() ==> !can_fold(d, raw, center, #[trigger] keys[m]))
            ==> try_suffixes(d, raw, center, keys) is None,
        forall|m: int|
            0 <= m < keys.len() && can_fold(d, raw, center, #[trigger] keys[m]) && (forall|n: int|
                0 <= n < m ==> !can_fold(d, raw, center, keys[n])) ==> try_suffixes(
                d,
                raw,
                center,
                keys,
            ) == Some(d[folded_base(raw, keys[m])] + d[seq!['-', keys[m]]]),
    decreases keys.len(),
{
    if keys.len() > 0 {
        let c = keys[0];
        lemma_contains_after(raw, center, c);
        let rest = keys.skip(1);
        lemma_try_suffixes_result(d, raw, center, rest);
        assert forall|m: int| 0 <= m < rest.len() implies rest[m] == keys[m + 1] by {}
        if !can_fold(d, raw, center, c) {
            if forall|m: int| 0 <= m < keys.len() ==> !can_fold(d, raw, center, #[trigger] keys[m]) {
                assert forall|m: int| 0 <= m < rest.len() implies !can_fold(
                    d,
                    raw,
                    center,
                    #[trigger] rest[m],
                ) by {
                    assert(rest[m] == keys[m + 1]);
                }
            }
            assert forall|m: int|
                0 <= m < keys.len() && can_fold(d, raw, center, #[trigger] keys[m]) && (forall|
                    n: int,
                | 0 <= n < m ==> !can_fold(d, raw, center, keys[n])) implies try_suffixes(
                d,
                raw,
                center,
                keys,
            ) == Some(d[folded_base(raw, keys[m])] + d[seq!['-', keys[m]]]) by {
                assert(m > 0);
                assert(rest[m - 1] == keys[m]);
                assert forall|n: int| 0 <= n < m - 1 implies !can_fold(d, raw, center, rest[n]) by {
                    assert(rest[n] == keys[n + 1]);
                }
                assert(can_fold(d, raw, center, rest[m - 1]));
            }
        }
    }
}

/// A stroke with an entry of its own is translated by it. Otherwise, when it has a center key
/// (a vowel, the star or the dash), the first of `-Z`, `-D`, `-S` and `-G`, in this order, that
/// can be folded out of it gives the entry of the rest of the stroke followed by that of the
/// suffix; when none can, or there is no center key, it has no translation
pub proof fn lemma_suffix_folding(d: Map<Seq<char>, Seq<TranslationV>>, raw: Seq<char>)
    ensures
        d.contains_key(raw) ==> suffix_folding_spec(d, raw) == Some(d[raw]),
        !d.contains_key(raw) && (forall|i: int| 0 <= i < raw.len() ==> !is_center_key(
            #[trigger] raw[i],
        )) ==> suffix_folding_spec(d, raw) is None,
        forall|i: int, m: int|
            #![trigger raw[i], "ZDSG"@[m]]
            0 <= i < raw.len() && is_center_key(raw[i]) && (forall|j: int|
                0 <= j < i ==> !is_center_key(#[trigger] raw[j])) && !d.contains_key(raw) && 0 <= m
                < 4 && can_fold(d, raw, i, "ZDSG"@[m]) && (forall|n: int|
                0 <= n < m ==> !can_fold(d, raw, i, "ZDSG"@[n])) ==> suffix_folding_spec(d, raw)
                == Some(d[folded_base(raw, "ZDSG"@[m])] + d[seq!['-', "ZDSG"@[m]]]),
        forall|i: int|
            #![trigger raw[i]]
            0 <= i < raw.len() && is_center_key(raw[i]) && (forall|j: int|
                0 <= j < i ==> !is_center_key(#[trigger] raw[j])) && !d.contains_key(raw) && (forall|
                m: int,
            | 0 <= m < 4 ==> !can_fold(d, raw, i, #[trigger] "ZDSG"@[m])) ==> suffix_folding_spec(
                d,
                raw,
            ) is None,
{
    reveal_strlit("ZDSG");
    assert("ZDSG"@ =~= suffix_keys());
    lemma_first_center(raw, 0);
    let k = first_center_from(raw, 0);
    if 0 <= k < raw.len() {
        lemma_try_suffixes_result(d, raw, k, suffix_keys());
    }
    assert forall|i: int|
        0 <= i < raw.len() && is_center_key(raw[i]) && (forall|j: int|
            0 <= j < i ==> !is_center_key(#[trigger] raw[j])) implies i == k by {
        if k < i {
            assert(is_center_key(raw[k]));
        }
        if i < k {
            assert(!is_center_key(raw[i]));
        }
    }
}

proof fn lemma_first_center(raw: Seq<char>, from: int)
    requires
        0 <= from <= raw.len(),
    ensures
        from <= first_center_from(raw, from) <= raw.len(),
        first_center_from(raw, from) < raw.len() ==> is_center_key(
            raw[first_center_from(raw, from)],
        ),
        forall|j: int| from <= j < first_center_from(raw, from) ==> !is_center_key(#[trigger] raw[j]),
    decreases raw.len() - from,
{
    if from < raw.len() && !is_center_key(raw[from]) {
        lemma_first_center(raw, from + 1);
    }
}

} // verus!
