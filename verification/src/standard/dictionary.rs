//! A dictionary from strokes to their translations.
use crate::base::stroke::Stroke;
use crate::standard::types::{clone_translations, translations_view, Translation, TranslationV};
use crate::text::{push_char, push_str};
use vstd::hash_map::StringHashMap;
use vstd::prelude::*;

verus! {

/// The strokes of a multi-stroke key, joined with `/` between them
pub open spec fn join_strokes(strokes: Seq<Seq<char>>) -> Seq<char>
    decreases strokes.len(),
{
    if strokes.len() == 0 {
        Seq::empty()
    } else if strokes.len() == 1 {
        strokes[0]
    } else {
        join_strokes(strokes.drop_last()) + seq!['/'] + strokes.last()
    }
}

/// The texts of a list of strokes
pub open spec fn strokes_view(s: Seq<Stroke>) -> Seq<Seq<char>> {
    s.map_values(|x: Stroke| x@)
}

/// Maps a stroke (or several strokes joined with `/`) to what it translates to
pub struct Dictionary {
    strokes: StringHashMap<Vec<Translation>>,
}

impl View for Dictionary {
    type V = Map<Seq<char>, Seq<TranslationV>>;

    closed spec fn view(&self) -> Map<Seq<char>, Seq<TranslationV>> {
        self.strokes@.map_values(|v: Vec<Translation>| translations_view(v@))
    }
}

/// The map that the entries make, in order: a later entry for a stroke overrides an earlier one
pub open spec fn entries_map(entries: Seq<(Seq<char>, Seq<TranslationV>)>) -> Map<
    Seq<char>,
    Seq<TranslationV>,
>
    decreases entries.len(),
{
    if entries.len() == 0 {
        Map::empty()
    } else {
        entries_map(entries.drop_last()).insert(entries.last().0, entries.last().1)
    }
}

/// The values of a list of dictionary entries
pub open spec fn entries_view(entries: Seq<(Stroke, Vec<Translation>)>) -> Seq<
    (Seq<char>, Seq<TranslationV>),
> {
    entries.map_values(|e: (Stroke, Vec<Translation>)| (e.0@, translations_view(e.1@)))
}

impl Dictionary {
    /// A dictionary without entries
    pub fn empty() -> (d: Self)
        ensures
            d@ == Map::<Seq<char>, Seq<TranslationV>>::empty(),
    {
        let d = Dictionary { strokes: StringHashMap::new() };
        assert(d@ =~= Map::<Seq<char>, Seq<TranslationV>>::empty());
        d
    }

    /// Adds an entry, replacing any earlier one for the same stroke
    pub fn insert(&mut self, stroke: Stroke, translations: Vec<Translation>)
        ensures
            final(self)@ == old(self)@.insert(stroke@, translations_view(translations@)),
    {
        let ghost t = translations_view(translations@);
        self.strokes.insert(stroke.to_raw(), translations);
        assert(self@ =~= old(self)@.insert(stroke@, t));
    }

    /// Adds the entries in order; a later entry for a stroke overrides an earlier one
    pub fn extend(&mut self, entries: Vec<(Stroke, Vec<Translation>)>)
        ensures
            final(self)@ == old(self)@.union_prefer_right(entries_map(entries_view(entries@))),
    {
        let ghost all = entries_view(entries@);
        let n = entries.len();
        assert(all.len() == n);
        let mut entries = entries;
        let mut rest: Vec<(Stroke, Vec<Translation>)> = Vec::new();
        // take the entries out in reverse, to insert them in order
        while entries.len() > 0
            invariant
                entries_view(entries@) + entries_view(rest@).reverse() == all,
            decreases entries.len(),
        {
            let ghost before = entries@;
            let e = entries.pop().unwrap();
            rest.push(e);
            proof {
                assert(entries@ == before.drop_last());
                assert(entries_view(before) =~= entries_view(entries@).push(
                    (e.0@, translations_view(e.1@)),
                ));
                assert(entries_view(rest@).reverse() =~= seq![(e.0@, translations_view(e.1@))]
                    + entries_view(rest@.drop_last()).reverse());
            }
        }
        assert(entries_view(entries@) =~= Seq::<(Seq<char>, Seq<TranslationV>)>::empty());
        assert(entries_view(rest@).reverse() =~= all);
        let ghost start = self@;
        assert(start =~= start.union_prefer_right(entries_map(all.take(0))));
        let mut k: usize = 0;
        while rest.len() > 0
            invariant
                k <= all.len(),
                all.len() <= usize::MAX,
                rest.len() + k == all.len(),
                entries_view(rest@).reverse() == all.skip(k as int),
                self@ == start.union_prefer_right(entries_map(all.take(k as int))),
            decreases rest.len(),
        {
            let ghost before = rest@;
            let (stroke, translations) = rest.pop().unwrap();
            proof {
                assert(entries_view(before).reverse() =~= seq![(stroke@, translations_view(translations@))]
                    + entries_view(rest@).reverse());
                assert(all.skip(k as int)[0] == all[k as int]);
                assert(all[k as int] == (stroke@, translations_view(translations@)));
                assert(all.take(k + 1).drop_last() =~= all.take(k as int));
                assert(entries_view(rest@).reverse() =~= all.skip(k as int).skip(1));
                assert(all.skip(k as int).skip(1) =~= all.skip(k + 1));
            }
            self.insert(stroke, translations);
            k += 1;
            assert(self@ =~= start.union_prefer_right(entries_map(all.take(k as int))));
        }
        assert(all.take(k as int) =~= all);
    }

    /// Builds a dictionary from entries; a later entry for a stroke overrides an earlier one
    pub fn from_entries(entries: Vec<(Stroke, Vec<Translation>)>) -> (d: Self)
        ensures
            d@ == entries_map(entries_view(entries@)),
    {
        let mut d = Self::empty();
        d.extend(entries);
        assert(d@ =~= entries_map(entries_view(entries@)));
        d
    }

    /// Looks up the translations stored under a key
    pub fn get(&self, key: &str) -> (r: Option<Vec<Translation>>)
        ensures
            match r {
                Some(t) => self@.contains_key(key@) && translations_view(t@) == self@[key@],
                None => !self@.contains_key(key@),
            },
    {
        match self.strokes.get(key) {
            Some(t) => Some(clone_translations(t)),
            None => None,
        }
    }

    /// Looks up the strokes from `from` up to `to`, joined with `/`
    pub fn lookup_range(&self, strokes: &[Stroke], from: usize, to: usize) -> (r: Option<
        Vec<Translation>,
    >)
        requires
            from <= to <= strokes@.len(),
        ensures
            ({
                let key = join_strokes(strokes_view(strokes@).subrange(from as int, to as int));
                match r {
                    Some(t) => self@.contains_key(key) && translations_view(t@) == self@[key],
                    None => !self@.contains_key(key),
                }
            }),
    {
        // combine strokes with a `/` between them
        let mut combined = String::new();
        let mut i: usize = from;
        while i < to
            invariant
                from <= i <= to <= strokes@.len(),
                combined@ == join_strokes(strokes_view(strokes@).subrange(from as int, i as int)),
            decreases to - i,
        {
            let ghost before = combined@;
            if i > from {
                push_char(&mut combined, '/');
            }
            push_str(&mut combined, strokes[i].as_str());
            proof {
                let s = strokes_view(strokes@).subrange(from as int, i + 1);
                assert(s.drop_last() =~= strokes_view(strokes@).subrange(from as int, i as int));
                if i == from {
                    assert(combined@ =~= s[0]);
                } else {
                    assert(combined@ =~= before + seq!['/'] + s.last());
                }
            }
            i += 1;
        }
        self.get(combined.as_str())
    }

    /// Looks up the translation of a stroke, or of several strokes joined with `/`
    pub fn lookup(&self, strokes: &[Stroke]) -> (r: Option<Vec<Translation>>)
        ensures
            match r {
                Some(t) => self@.contains_key(join_strokes(strokes_view(strokes@)))
                    && translations_view(t@) == self@[join_strokes(strokes_view(strokes@))],
                None => !self@.contains_key(join_strokes(strokes_view(strokes@))),
            },
    {
        assert(strokes_view(strokes@).subrange(0, strokes@.len() as int) =~= strokes_view(
            strokes@,
        ));
        self.lookup_range(strokes, 0, strokes.len())
    }
}

} // verus!
