//! A dictionary of the first generation: each stroke (or strokes joined by `/`) stands for one
//! translation.
use crate::base::stroke::Stroke;
use crate::legacy::types::{Translation, TranslationV};
use crate::standard::dictionary::{join_strokes, strokes_view};
use crate::text::{push_char, push_str};
use vstd::hash_map::StringHashMap;
use vstd::prelude::*;

verus! {

/// Maps strokes to their translation
pub struct Dictionary {
    strokes: StringHashMap<Translation>,
}

impl View for Dictionary {
    type V = Map<Seq<char>, TranslationV>;

    closed spec fn view(&self) -> Map<Seq<char>, TranslationV> {
        self.strokes@.map_values(|t: Translation| t@)
    }
}

/// The map the entries make, in order: a later entry for a stroke overrides an earlier one
pub open spec fn entries_map(entries: Seq<(Seq<char>, TranslationV)>) -> Map<Seq<char>, TranslationV>
    decreases entries.len(),
{
    if entries.len() == 0 {
        Map::empty()
    } else {
        entries_map(entries.drop_last()).insert(entries.last().0, entries.last().1)
    }
}

/// The values of dictionary entries
pub open spec fn entries_view(entries: Seq<(Stroke, Translation)>) -> Seq<(Seq<char>, TranslationV)> {
    entries.map_values(|e: (Stroke, Translation)| (e.0@, e.1@))
}

impl Dictionary {
    /// Builds a dictionary; later entries override earlier ones for the same stroke
    pub fn new(entries: Vec<(Stroke, Translation)>) -> (d: Self)
        ensures
            d@ == entries_map(entries_view(entries@)),
    {
        let ghost all = entries_view(entries@);
        let mut d = Dictionary { strokes: StringHashMap::new() };
        assert(d@ =~= Map::<Seq<char>, TranslationV>::empty());
        let mut i: usize = 0;
        while i < entries.len()
            invariant
                i <= entries.len(),
                all == entries_view(entries@),
                d@ == entries_map(all.take(i as int)),
            decreases entries.len() - i,
        {
            assert(all.take(i + 1).drop_last() =~= all.take(i as int));
            assert(all.take(i + 1).last() == (entries@[i as int].0@, entries@[i as int].1@));
            let stroke = entries[i].0.as_str().to_owned();
            let translation = entries[i].1.clone();
            let ghost before = d@;
            let ghost t = translation@;
            d.strokes.insert(stroke, translation);
            assert(d@ =~= before.insert(entries@[i as int].0@, t));
            i += 1;
        }
        assert(all.take(i as int) =~= all);
        d
    }

    /// Looks up the strokes from `from` up to `to`, joined with `/`
    pub fn lookup_range(&self, strokes: &[Stroke], from: usize, to: usize) -> (r: Option<
        Translation,
    >)
        requires
            from <= to <= strokes@.len(),
        ensures
            ({
                let key = join_strokes(strokes_view(strokes@).subrange(from as int, to as int));
                match r {
                    Some(t) => self@.contains_key(key) && t@ == self@[key],
                    None => !self@.contains_key(key),
                }
            }),
    {
        // combine strokes with a `/` between them
        let mut combined = String::new();
        let mut i: usize = from;
        while i < to
            invariant
                from <= i <= to <= strokes@.len(),
                combined@ == join_strokes(strokes_view(strokes@).subrange(from as int, i as int)),
            decreases to - i,
        {
            let ghost before = combined@;
            if i > from {
                push_char(&mut combined, '/');
            }
            push_str(&mut combined, strokes[i].as_str());
            proof {
                let s = strokes_view(strokes@).subrange(from as int, i + 1);
                assert(s.drop_last() =~= strokes_view(strokes@).subrange(from as int, i as int));
                if i == from {
                    assert(combined@ =~= s[0]);
                } else {
                    assert(combined@ =~= before + seq!['/'] + s.last());
                }
            }
            i += 1;
        }
        match self.strokes.get(combined.as_str()) {
            Some(t) => Some(t.clone()),
            None => None,
        }
    }

    /// Looks up the translation of a stroke, or of several strokes joined with `/`
    pub fn lookup(&self, strokes: &[Stroke]) -> (r: Option<Translation>)
        ensures
            match r {
                Some(t) => self@.contains_key(join_strokes(strokes_view(strokes@))) && t@
                    == self@[join_strokes(strokes_view(strokes@))],
                None => !self@.contains_key(join_strokes(strokes_view(strokes@))),
            },
    {
        assert(strokes_view(strokes@).subrange(0, strokes@.len() as int) =~= strokes_view(
            strokes@,
        ));
        self.lookup_range(strokes, 0, strokes.len())
    }
}

} // verus!
