//! Looks up strokes in a dictionary of the first generation, using a greedy algorithm to convert
//! them into translations.
use crate::base::stroke::Stroke;
use crate::legacy::dictionary::Dictionary;
use crate::legacy::types::{translations_view, Translation, TranslationV};
use crate::standard::dictionary::{join_strokes, strokes_view};
use vstd::prelude::*;

verus! {

/// Limit the max number of strokes per translation for performance reasons
pub const MAX_TRANSLATION_STROKE_LEN: usize = 15;

/// The largest number of strokes, at most `k`, that have a translation, with that translation;
/// 0 when none has
pub open spec fn longest_match(d: Map<Seq<char>, TranslationV>, strokes: Seq<Seq<char>>, k: int) -> (
    int,
    Option<TranslationV>,
)
    decreases k,
{
    if k <= 0 {
        (0, None)
    } else if d.contains_key(join_strokes(strokes.take(k))) {
        (k, Some(d[join_strokes(strokes.take(k))]))
    } else {
        longest_match(d, strokes, k - 1)
    }
}

/// The translations of strokes: from the oldest stroke on, the most strokes (up to fifteen) that
/// have a translation are taken; a stroke that starts no translation is an unknown stroke
pub open spec fn translate_spec(d: Map<Seq<char>, TranslationV>, strokes: Seq<Seq<char>>) -> Seq<
    TranslationV,
>
    decreases strokes.len(),
{
    if strokes.len() == 0 {
        Seq::empty()
    } else {
        let m = if strokes.len() < MAX_TRANSLATION_STROKE_LEN {
            strokes.len() as int
        } else {
            MAX_TRANSLATION_STROKE_LEN as int
        };
        let (k, t) = longest_match(d, strokes, m);
        if 1 <= k <= strokes.len() && t is Some {
            seq![t->Some_0] + translate_spec(d, strokes.skip(k))
        } else {
            seq![TranslationV::UnknownStroke(strokes[0])] + translate_spec(d, strokes.skip(1))
        }
    }
}

proof fn lemma_longest_match(d: Map<Seq<char>, TranslationV>, strokes: Seq<Seq<char>>, k: int)
    ensures
        0 <= longest_match(d, strokes, k).0 <= if k < 0 {
            0
        } else {
            k
        },
        longest_match(d, strokes, k).0 > 0 <==> longest_match(d, strokes, k).1 is Some,
    decreases k,
{
    if k > 0 {
        lemma_longest_match(d, strokes, k - 1);
    }
}

/// Looks up the definition of strokes in the dictionary, converting them into a Translation. Since
/// multiple strokes could map to one dictionary translation, a greedy algorithm is used starting
/// from the oldest strokes
pub fn translate_strokes(strokes: &Vec<Stroke>, dict: &Dictionary) -> (r: Vec<Translation>)
    ensures
        translations_view(r@) == translate_spec(dict@, strokes_view(strokes@)),
{
    let ghost all = strokes_view(strokes@);
    let n = strokes.len();
    let mut translations: Vec<Translation> = Vec::new();
    let mut start: usize = 0;
    assert(all.skip(0) =~= all);
    assert(translations_view(translations@) + translate_spec(dict@, all) =~= translate_spec(
        dict@,
        all,
    ));
    while start < n
        invariant
            start <= n == strokes@.len(),
            all == strokes_view(strokes@),
            translations_view(translations@) + translate_spec(dict@, all.skip(start as int))
                == translate_spec(dict@, all),
        decreases n - start,
    {
        let ghost rest = all.skip(start as int);
        let ghost before = translations_view(translations@);
        // limit how far to look forward
        let m: usize = if n - start < MAX_TRANSLATION_STROKE_LEN {
            n - start
        } else {
            MAX_TRANSLATION_STROKE_LEN
        };
        let mut k: usize = m;
        let mut found: Option<Translation> = None;
        // look forward up to a certain number of strokes, starting from the most strokes
        while k > 0 && found.is_none()
            invariant
                k <= m <= n - start,
                start < n == strokes@.len(),
                rest == all.skip(start as int),
                all == strokes_view(strokes@),
                found is Some ==> k >= 1,
                longest_match(dict@, rest, m as int) == match found {
                    Some(t) => (k as int, Some(t@)),
                    None => longest_match(dict@, rest, k as int),
                },
            decreases k + if found is None {
                1int
            } else {
                0int
            },
        {
            assert(rest.take(k as int) =~= all.subrange(start as int, start + k));
            found = dict.lookup_range(strokes.as_slice(), start, start + k);
            if found.is_none() {
                k -= 1;
            }
        }
        proof {
            lemma_longest_match(dict@, rest, m as int);
            assert(rest.len() == n - start);
        }
        match found {
            Some(t) => {
                let ghost tv = t@;
                assert(translate_spec(dict@, rest) == seq![tv] + translate_spec(
                    dict@,
                    rest.skip(k as int),
                ));
                translations.push(t);
                assert(rest.skip(k as int) =~= all.skip(start + k));
                assert(translations_view(translations@) =~= before.push(tv));
                assert(translations_view(translations@) + translate_spec(
                    dict@,
                    all.skip(start + k),
                ) =~= before + translate_spec(dict@, rest));
                start += k;
            },
            None => {
                // translation for this stroke
                assert(k == 0);
                assert(translate_spec(dict@, rest) == seq![TranslationV::UnknownStroke(rest[0])]
                    + translate_spec(dict@, rest.skip(1)));
                translations.push(Translation::UnknownStroke(strokes[start].clone()));
                assert(rest.skip(1) =~= all.skip(start + 1));
                assert(translations_view(translations@) =~= before.push(
                    TranslationV::UnknownStroke(rest[0]),
                ));
                assert(translations_view(translations@) + translate_spec(
                    dict@,
                    all.skip(start + 1),
                ) =~= before + translate_spec(dict@, rest));
                start += 1;
            },
        }
    }
    assert(all.skip(start as int).len() == 0);
    assert(translations_view(translations@) =~= translate_spec(dict@, all));
    translations
}

} // verus!
