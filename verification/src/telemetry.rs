//! Statistics over the log of strokes: how often each stroke, and each pair of strokes in a row,
//! was pressed.
pub mod raw;

use crate::base::decode::str_eq;
use vstd::prelude::*;

verus! {

/// A line of the stroke log
#[derive(Debug, PartialEq)]
pub struct LogEntry {
    pub time: i64,
    pub stroke: String,
    pub content: Content,
}

/// What a stroke did
#[derive(Debug, PartialEq)]
pub enum Content {
    Replace { backspace_num: u32, text: String },
    Command,
    NoOp,
}

/// A way to process log strokes to get some statistic
pub trait Processor {
    /// Whether the entries can be processed without a count running over
    spec fn can_process(&self, entries: Seq<LogEntry>) -> bool;

    /// Process log entries in order
    fn process(&mut self, entries: &[LogEntry])
        requires
            old(self).can_process(entries@),
    ;
}

/// Each key with how many times it occurred, in the order the keys first occurred
pub struct Counts<K> {
    pub items: Seq<(K, nat)>,
}

/// The index of a key; the length when it never occurred
pub open spec fn index_of_key<K>(counts: Seq<(K, nat)>, key: K) -> int
    decreases counts.len(),
{
    if counts.len() == 0 {
        0
    } else if counts[0].0 == key {
        0
    } else {
        1 + index_of_key(counts.skip(1), key)
    }
}

/// The count of a key; 0 when it never occurred
pub open spec fn count_of<K>(counts: Seq<(K, nat)>, key: K) -> nat {
    let i = index_of_key(counts, key);
    if 0 <= i < counts.len() {
        counts[i].1
    } else {
        0
    }
}

/// The counts after one more occurrence of a key: its count goes up, or it is added at the end
pub open spec fn bump<K>(counts: Seq<(K, nat)>, key: K) -> Seq<(K, nat)> {
    let i = index_of_key(counts, key);
    if i < counts.len() {
        counts.update(i, (key, counts[i].1 + 1))
    } else {
        counts.push((key, 1))
    }
}

/// The counts after the keys occurred, one after the other
pub open spec fn bump_all<K>(counts: Seq<(K, nat)>, keys: Seq<K>) -> Seq<(K, nat)>
    decreases keys.len(),
{
    if keys.len() == 0 {
        counts
    } else {
        bump(bump_all(counts, keys.drop_last()), keys.last())
    }
}

/// Whether an entry counts: commands, the undo stroke and strokes that did nothing do not
pub open spec fn counts_entry(e: LogEntry) -> bool {
    !(e.content is NoOp) && !(e.content is Command) && e.stroke@ != "*"@
}

/// The strokes of the entries that count, in order
pub open spec fn kept_strokes(entries: Seq<LogEntry>) -> Seq<Seq<char>>
    decreases entries.len(),
{
    if entries.len() == 0 {
        Seq::empty()
    } else if counts_entry(entries.last()) {
        kept_strokes(entries.drop_last()).push(entries.last().stroke@)
    } else {
        kept_strokes(entries.drop_last())
    }
}

/// Each stroke of a bi-gram must occur this frequently
pub const BIGRAM_THRESHOLD: u32 = 2;

/// The pairs of strokes in a row, both of which occur often enough in the counts
pub open spec fn bigrams(counts: Seq<(Seq<char>, nat)>, strokes: Seq<Seq<char>>) -> Seq<
    (Seq<char>, Seq<char>),
>
    decreases strokes.len(),
{
    if strokes.len() < 2 {
        Seq::empty()
    } else {
        let rest = bigrams(counts, strokes.drop_last());
        let prev = strokes[strokes.len() - 2];
        let cur = strokes.last();
        if count_of(counts, prev) >= BIGRAM_THRESHOLD && count_of(counts, cur) >= BIGRAM_THRESHOLD {
            rest.push((prev, cur))
        } else {
            rest
        }
    }
}

/// Counts how often strokes, and pairs of strokes in a row, are pressed
pub struct FrequencyAnalyzer {
    grams_1: Vec<(String, u32)>,
    grams_2: Vec<([String; 2], u32)>,
}

/// The value of the stroke counts
pub open spec fn grams_1_view(g: Seq<(String, u32)>) -> Seq<(Seq<char>, nat)> {
    g.map_values(|e: (String, u32)| (e.0@, e.1 as nat))
}

/// The value of the counts of pairs
pub open spec fn grams_2_view(g: Seq<([String; 2], u32)>) -> Seq<((Seq<char>, Seq<char>), nat)> {
    g.map_values(|e: ([String; 2], u32)| ((e.0@[0]@, e.0@[1]@), e.1 as nat))
}

/// The value of a frequency analyzer: the counts of strokes and of pairs of strokes
pub struct FrequencyV {
    pub grams_1: Seq<(Seq<char>, nat)>,
    pub grams_2: Seq<((Seq<char>, Seq<char>), nat)>,
}

impl FrequencyV {
    /// No stroke, and no pair of strokes, is counted twice, and every count is above zero
    pub open spec fn well_formed(self) -> bool {
        &&& keys_distinct(self.grams_1)
        &&& counts_positive(self.grams_1)
        &&& keys_distinct(self.grams_2)
        &&& counts_positive(self.grams_2)
    }
}

impl View for FrequencyAnalyzer {
    type V = FrequencyV;

    closed spec fn view(&self) -> FrequencyV {
        FrequencyV { grams_1: grams_1_view(self.grams_1@), grams_2: grams_2_view(self.grams_2@) }
    }
}

/// Every count is at most `bound`
pub open spec fn counts_within<K>(counts: Seq<(K, nat)>, bound: int) -> bool {
    forall|j: int| 0 <= j < counts.len() ==> #[trigger] counts[j].1 <= bound
}

proof fn lemma_index_of_key<K>(counts: Seq<(K, nat)>, key: K)
    ensures
        0 <= index_of_key(counts, key) <= counts.len(),
        index_of_key(counts, key) < counts.len() ==> counts[index_of_key(counts, key)].0 == key,
        forall|j: int| 0 <= j < index_of_key(counts, key) ==> counts[j].0 != key,
    decreases counts.len(),
{
    if counts.len() > 0 && counts[0].0 != key {
        lemma_index_of_key(counts.skip(1), key);
        assert forall|j: int| 0 <= j < index_of_key(counts, key) implies counts[j].0 != key by {
            if j > 0 {
                assert(counts[j] == counts.skip(1)[j - 1]);
            }
        }
    }
}

proof fn lemma_index_is_first<K>(counts: Seq<(K, nat)>, key: K, i: int)
    requires
        0 <= i <= counts.len(),
        i < counts.len() ==> counts[i].0 == key,
        forall|j: int| 0 <= j < i ==> counts[j].0 != key,
    ensures
        index_of_key(counts, key) == i,
    decreases counts.len(),
{
    if counts.len() > 0 && counts[0].0 != key {
        assert forall|j: int| 0 <= j < i - 1 implies counts.skip(1)[j].0 != key by {
            assert(counts.skip(1)[j] == counts[j + 1]);
        }
        lemma_index_is_first(counts.skip(1), key, i - 1);
    }
}

fn find_stroke(counts: &Vec<(String, u32)>, key: &String) -> (r: usize)
    ensures
        r as int == index_of_key(grams_1_view(counts@), key@),
{
    let ghost v = grams_1_view(counts@);
    let mut i: usize = 0;
    while i < counts.len()
        invariant
            i <= counts.len(),
            v == grams_1_view(counts@),
            forall|j: int| 0 <= j < i ==> v[j].0 != key@,
        decreases counts.len() - i,
    {
        if counts[i].0 == *key {
            proof {
                lemma_index_is_first(v, key@, i as int);
            }
            return i;
        }
        i += 1;
    }
    proof {
        lemma_index_is_first(v, key@, i as int);
    }
    i
}

fn find_pair(counts: &Vec<([String; 2], u32)>, a: &String, b: &String) -> (r: usize)
    ensures
        r as int == index_of_key(grams_2_view(counts@), (a@, b@)),
{
    let ghost v = grams_2_view(counts@);
    let mut i: usize = 0;
    while i < counts.len()
        invariant
            i <= counts.len(),
            v == grams_2_view(counts@),
            forall|j: int| 0 <= j < i ==> v[j].0 != (a@, b@),
        decreases counts.len() - i,
    {
        if counts[i].0[0] == *a && counts[i].0[1] == *b {
            proof {
                lemma_index_is_first(v, (a@, b@), i as int);
            }
            return i;
        }
        i += 1;
    }
    proof {
        lemma_index_is_first(v, (a@, b@), i as int);
    }
    i
}

/// Whether the entry counts
fn counts_entry_exec(e: &LogEntry) -> (b: bool)
    ensures
        b == counts_entry(*e),
{
    match e.content {
        Content::NoOp | Content::Command => false,
        Content::Replace { .. } => !str_eq(e.stroke.as_str(), "*"),
    }
}

impl FrequencyAnalyzer {
    pub fn new() -> (f: Self)
        ensures
            f@.grams_1 == Seq::<(Seq<char>, nat)>::empty(),
            f@.grams_2 == Seq::<((Seq<char>, Seq<char>), nat)>::empty(),
            f@.well_formed(),
    {
        let f = Self { grams_1: Vec::new(), grams_2: Vec::new() };
        assert(f@.grams_1 =~= Seq::<(Seq<char>, nat)>::empty());
        assert(f@.grams_2 =~= Seq::<((Seq<char>, Seq<char>), nat)>::empty());
        f
    }

    /// One more occurrence of a stroke
    fn bump_stroke(&mut self, stroke: &String, bound: Ghost<int>)
        requires
            counts_within(old(self)@.grams_1, bound@),
            bound@ + 1 <= u32::MAX,
            bound@ >= 0,
        ensures
            final(self)@.grams_1 == bump(old(self)@.grams_1, stroke@),
            final(self)@.grams_2 == old(self)@.grams_2,
            counts_within(final(self)@.grams_1, bound@ + 1),
    {
        let i = find_stroke(&self.grams_1, stroke);
        proof {
            lemma_index_of_key(old(self)@.grams_1, stroke@);
        }
        if i < self.grams_1.len() {
            let count = self.grams_1[i].1;
            assert(old(self)@.grams_1[i as int].1 == count);
            let key = self.grams_1[i].0.clone();
            self.grams_1.set(i, (key, count + 1));
        } else {
            self.grams_1.push((stroke.clone(), 1));
        }
        assert(self@.grams_1 =~= bump(old(self)@.grams_1, stroke@));
    }

    /// One more occurrence of a pair of strokes
    fn bump_pair(&mut self, a: &String, b: &String, bound: Ghost<int>)
        requires
            counts_within(old(self)@.grams_2, bound@),
            bound@ + 1 <= u32::MAX,
            bound@ >= 0,
        ensures
            final(self)@.grams_2 == bump(old(self)@.grams_2, (a@, b@)),
            final(self)@.grams_1 == old(self)@.grams_1,
            counts_within(final(self)@.grams_2, bound@ + 1),
    {
        let i = find_pair(&self.grams_2, a, b);
        proof {
            lemma_index_of_key(old(self)@.grams_2, (a@, b@));
        }
        if i < self.grams_2.len() {
            let count = self.grams_2[i].1;
            assert(old(self)@.grams_2[i as int].1 == count);
            let key = [self.grams_2[i].0[0].clone(), self.grams_2[i].0[1].clone()];
            self.grams_2.set(i, (key, count + 1));
        } else {
            self.grams_2.push(([a.clone(), b.clone()], 1));
        }
        assert(self@.grams_2 =~= bump(old(self)@.grams_2, (a@, b@)));
    }

    /// The count of a stroke
    fn stroke_count(&self, stroke: &String) -> (r: u32)
        ensures
            r as nat == count_of(self@.grams_1, stroke@),
    {
        let i = find_stroke(&self.grams_1, stroke);
        proof {
            lemma_index_of_key(self@.grams_1, stroke@);
        }
        if i < self.grams_1.len() {
            self.grams_1[i].1
        } else {
            0
        }
    }
}

/// The counts of at least `threshold`, in order
pub open spec fn at_least<K>(counts: Seq<(K, nat)>, threshold: nat) -> Seq<(K, nat)>
    decreases counts.len(),
{
    if counts.len() == 0 {
        Seq::empty()
    } else if counts.last().1 >= threshold {
        at_least(counts.drop_last(), threshold).push(counts.last())
    } else {
        at_least(counts.drop_last(), threshold)
    }
}

/// Where a count goes in a list sorted from the largest count down: after every count at least
/// as large
pub open spec fn insert_position<K>(sorted: Seq<(K, nat)>, count: nat) -> int
    decreases sorted.len(),
{
    if sorted.len() == 0 {
        0
    } else if sorted[0].1 < count {
        0
    } else {
        1 + insert_position(sorted.skip(1), count)
    }
}

/// The counts sorted from the largest down; equal counts keep their order
pub open spec fn sort_desc<K>(counts: Seq<(K, nat)>) -> Seq<(K, nat)>
    decreases counts.len(),
{
    if counts.len() == 0 {
        Seq::empty()
    } else {
        let sorted = sort_desc(counts.drop_last());
        sorted.insert(insert_position(sorted, counts.last().1), counts.last())
    }
}

/// Whether the counts go from the largest down
pub open spec fn is_sorted_desc<K>(s: Seq<(K, nat)>) -> bool {
    forall|i: int, j: int| 0 <= i < j < s.len() ==> #[trigger] s[i].1 >= #[trigger] s[j].1
}

proof fn lemma_insert_position<K>(sorted: Seq<(K, nat)>, count: nat)
    requires
        is_sorted_desc(sorted),
    ensures
        0 <= insert_position(sorted, count) <= sorted.len(),
        forall|j: int| 0 <= j < insert_position(sorted, count) ==> sorted[j].1 >= count,
        forall|j: int|
            insert_position(sorted, count) <= j < sorted.len() ==> sorted[j].1 < count,
    decreases sorted.len(),
{
    if sorted.len() > 0 && sorted[0].1 >= count {
        let rest = sorted.skip(1);
        assert(is_sorted_desc(rest)) by {
            assert forall|i: int, j: int| 0 <= i < j < rest.len() implies #[trigger] rest[i].1
                >= #[trigger] rest[j].1 by {
                assert(rest[i] == sorted[i + 1] && rest[j] == sorted[j + 1]);
            }
        }
        lemma_insert_position(rest, count);
        assert forall|j: int| 0 <= j < insert_position(sorted, count) implies sorted[j].1
            >= count by {
            if j > 0 {
                assert(sorted[j] == rest[j - 1]);
            }
        }
        assert forall|j: int| insert_position(sorted, count) <= j < sorted.len() implies sorted[j].1
            < count by {
            assert(sorted[j] == rest[j - 1]);
        }
    } else if sorted.len() > 0 {
        assert forall|j: int| 0 <= j < sorted.len() implies sorted[j].1 < count by {
            if j > 0 {
                assert(sorted[0].1 >= sorted[j].1);
            }
        }
    }
}

/// Sorting gives the counts from the largest down
pub proof fn lemma_sort_desc_sorted<K>(counts: Seq<(K, nat)>)
    ensures
        is_sorted_desc(sort_desc(counts)),
        sort_desc(counts).len() == counts.len(),
    decreases counts.len(),
{
    if counts.len() > 0 {
        let sorted = sort_desc(counts.drop_last());
        lemma_sort_desc_sorted(counts.drop_last());
        let x = counts.last();
        let p = insert_position(sorted, x.1);
        lemma_insert_position(sorted, x.1);
        let r = sorted.insert(p, x);
        assert forall|i: int, j: int| 0 <= i < j < r.len() implies #[trigger] r[i].1
            >= #[trigger] r[j].1 by {
            if j < p {
                assert(r[i] == sorted[i] && r[j] == sorted[j]);
            } else if j == p {
                assert(r[i] == sorted[i]);
            } else if i < p {
                assert(r[i] == sorted[i] && r[j] == sorted[j - 1]);
            } else if i == p {
                assert(r[j] == sorted[j - 1]);
            } else {
                assert(r[i] == sorted[i - 1] && r[j] == sorted[j - 1]);
            }
        }
    }
}

/// Every count of the list is at least `threshold`
pub proof fn lemma_at_least<K>(counts: Seq<(K, nat)>, threshold: nat)
    ensures
        forall|i: int| 0 <= i < at_least(counts, threshold).len() ==> #[trigger] at_least(
            counts,
            threshold,
        )[i].1 >= threshold,
        at_least(counts, threshold).len() <= counts.len(),
    decreases counts.len(),
{
    if counts.len() > 0 {
        lemma_at_least(counts.drop_last(), threshold);
    }
}

proof fn lemma_sort_keeps_counts<K>(counts: Seq<(K, nat)>, threshold: nat)
    requires
        forall|i: int| 0 <= i < counts.len() ==> #[trigger] counts[i].1 >= threshold,
    ensures
        forall|i: int| 0 <= i < sort_desc(counts).len() ==> #[trigger] sort_desc(counts)[i].1
            >= threshold,
    decreases counts.len(),
{
    if counts.len() > 0 {
        let rest = counts.drop_last();
        assert forall|i: int| 0 <= i < rest.len() implies #[trigger] rest[i].1 >= threshold by {
            assert(rest[i] == counts[i]);
        }
        lemma_sort_keeps_counts(rest, threshold);
        lemma_sort_desc_sorted(rest);
        let sorted = sort_desc(rest);
        let p = insert_position(sorted, counts.last().1);
        assert forall|i: int| 0 <= i < sort_desc(counts).len() implies #[trigger] sort_desc(
            counts,
        )[i].1 >= threshold by {
            lemma_insert_position(sorted, counts.last().1);
            if i < p {
                assert(sort_desc(counts)[i] == sorted[i]);
            } else if i > p {
                assert(sort_desc(counts)[i] == sorted[i - 1]);
            }
        }
    }
}

/// The values of stroke counts handed out
pub open spec fn stroke_counts_view(v: Seq<(&String, u32)>) -> Seq<(Seq<char>, nat)> {
    v.map_values(|e: (&String, u32)| (e.0@, e.1 as nat))
}

/// The values of pair counts handed out
pub open spec fn pair_counts_view(v: Seq<(&[String; 2], u32)>) -> Seq<((Seq<char>, Seq<char>), nat)> {
    v.map_values(|e: (&[String; 2], u32)| ((e.0@[0]@, e.0@[1]@), e.1 as nat))
}

impl FrequencyAnalyzer {
    /// Get list of 1 grams (stroke frequencies) with the more common at the start of the list.
    /// Only strokes that occur `threshold` many times will be returned
    pub fn grams_1(&self, threshold: u32) -> (r: Vec<(&String, u32)>)
        ensures
            stroke_counts_view(r@) == sort_desc(at_least(self@.grams_1, threshold as nat)),
            is_sorted_desc(stroke_counts_view(r@)),
            forall|i: int| 0 <= i < r.len() ==> #[trigger] r@[i].1 >= threshold,
    {
        let ghost all = self@.grams_1;
        let mut freqs: Vec<(&String, u32)> = Vec::new();
        let mut i: usize = 0;
        while i < self.grams_1.len()
            invariant
                i <= self.grams_1.len(),
                all == grams_1_view(self.grams_1@),
                stroke_counts_view(freqs@) == sort_desc(at_least(all.take(i as int), threshold as nat)),
            decreases self.grams_1.len() - i,
        {
            let (stroke, count) = &self.grams_1[i];
            assert(all.take(i + 1).drop_last() =~= all.take(i as int));
            assert(all.take(i + 1).last() == (stroke@, *count as nat));
            if *count >= threshold {
                let ghost sorted = stroke_counts_view(freqs@);
                proof {
                    lemma_sort_desc_sorted(at_least(all.take(i as int), threshold as nat));
                }
                // the first place with a smaller count
                let mut p: usize = 0;
                while p < freqs.len() && freqs[p].1 >= *count
                    invariant
                        p <= freqs.len(),
                        sorted == stroke_counts_view(freqs@),
                        is_sorted_desc(sorted),
                        forall|j: int| 0 <= j < p ==> #[trigger] sorted[j].1 >= *count as nat,
                    decreases freqs.len() - p,
                {
                    p += 1;
                }
                proof {
                    lemma_insert_position(sorted, *count as nat);
                    let ip = insert_position(sorted, *count as nat);
                    if p < freqs.len() {
                        assert(sorted[p as int].1 < *count as nat);
                    }
                    if ip < p {
                        assert(sorted[ip].1 >= *count as nat);
                    }
                    if ip > p {
                        assert(sorted[p as int].1 >= *count as nat);
                    }
                    assert(ip == p);
                    let s2 = at_least(all.take(i as int), threshold as nat).push((stroke@, *count as nat));
                    assert(s2.drop_last() =~= at_least(all.take(i as int), threshold as nat));
                    assert(at_least(all.take(i + 1), threshold as nat) == s2);
                }
                freqs.insert(p, (stroke, *count));
                assert(stroke_counts_view(freqs@) =~= sorted.insert(p as int, (stroke@, *count as nat)));
            }
            i += 1;
        }
        assert(all.take(i as int) =~= all);
        proof {
            lemma_sort_desc_sorted(at_least(all, threshold as nat));
            lemma_at_least(all, threshold as nat);
            lemma_sort_keeps_counts(at_least(all, threshold as nat), threshold as nat);
            assert forall|i: int| 0 <= i < freqs.len() implies #[trigger] freqs@[i].1 >= threshold by {
                assert(stroke_counts_view(freqs@)[i].1 == freqs@[i].1 as nat);
            }
        }
        freqs
    }

    /// Get a list of bi-grams (frequencies of two strokes in a row) with the more common at the
    /// start of the list. Only pairs that occur `threshold` many times will be returned
    pub fn grams_2(&self, threshold: u32) -> (r: Vec<(&[String; 2], u32)>)
        ensures
            pair_counts_view(r@) == sort_desc(at_least(self@.grams_2, threshold as nat)),
            is_sorted_desc(pair_counts_view(r@)),
            forall|i: int| 0 <= i < r.len() ==> #[trigger] r@[i].1 >= threshold,
    {
        let ghost all = self@.grams_2;
        let mut freqs: Vec<(&[String; 2], u32)> = Vec::new();
        let mut i: usize = 0;
        while i < self.grams_2.len()
            invariant
                i <= self.grams_2.len(),
                all == grams_2_view(self.grams_2@),
                pair_counts_view(freqs@) == sort_desc(at_least(all.take(i as int), threshold as nat)),
            decreases self.grams_2.len() - i,
        {
            let (strokes, count) = &self.grams_2[i];
            assert(all.take(i + 1).drop_last() =~= all.take(i as int));
            assert(all.take(i + 1).last() == ((strokes@[0]@, strokes@[1]@), *count as nat));
            if *count >= threshold {
                let ghost sorted = pair_counts_view(freqs@);
                proof {
                    lemma_sort_desc_sorted(at_least(all.take(i as int), threshold as nat));
                }
                // the first place with a smaller count
                let mut p: usize = 0;
                while p < freqs.len() && freqs[p].1 >= *count
                    invariant
                        p <= freqs.len(),
                        sorted == pair_counts_view(freqs@),
                        is_sorted_desc(sorted),
                        forall|j: int| 0 <= j < p ==> #[trigger] sorted[j].1 >= *count as nat,
                    decreases freqs.len() - p,
                {
                    p += 1;
                }
                proof {
                    lemma_insert_position(sorted, *count as nat);
                    let ip = insert_position(sorted, *count as nat);
                    if p < freqs.len() {
                        assert(sorted[p as int].1 < *count as nat);
                    }
                    if ip < p {
                        assert(sorted[ip].1 >= *count as nat);
                    }
                    if ip > p {
                        assert(sorted[p as int].1 >= *count as nat);
                    }
                    assert(ip == p);
                    let s2 = at_least(all.take(i as int), threshold as nat).push(((strokes@[0]@, strokes@[1]@), *count as nat));
                    assert(s2.drop_last() =~= at_least(all.take(i as int), threshold as nat));
                    assert(at_least(all.take(i + 1), threshold as nat) == s2);
                }
                freqs.insert(p, (strokes, *count));
                assert(pair_counts_view(freqs@) =~= sorted.insert(p as int, ((strokes@[0]@, strokes@[1]@), *count as nat)));
            }
            i += 1;
        }
        assert(all.take(i as int) =~= all);
        proof {
            lemma_sort_desc_sorted(at_least(all, threshold as nat));
            lemma_at_least(all, threshold as nat);
            lemma_sort_keeps_counts(at_least(all, threshold as nat), threshold as nat);
            assert forall|i: int| 0 <= i < freqs.len() implies #[trigger] freqs@[i].1 >= threshold by {
                assert(pair_counts_view(freqs@)[i].1 == freqs@[i].1 as nat);
            }
        }
        freqs
    }
}

impl FrequencyAnalyzer {
    fn process_grams_1(&mut self, entries: &[LogEntry])
        requires
            entries@.len() <= u32::MAX,
            counts_within(old(self)@.grams_1, u32::MAX - entries@.len()),
        ensures
            final(self)@.grams_1 == bump_all(old(self)@.grams_1, kept_strokes(entries@)),
            final(self)@.grams_2 == old(self)@.grams_2,
    {
        let ghost start = self@.grams_1;
        let mut i: usize = 0;
        assert(kept_strokes(entries@.take(0)) =~= Seq::<Seq<char>>::empty());
        while i < entries.len()
            invariant
                i <= entries@.len() <= u32::MAX,
                self@.grams_1 == bump_all(start, kept_strokes(entries@.take(i as int))),
                self@.grams_2 == old(self)@.grams_2,
                counts_within(self@.grams_1, u32::MAX - entries@.len() + i),
            decreases entries.len() - i,
        {
            let entry = &entries[i];
            assert(entries@.take(i + 1).drop_last() =~= entries@.take(i as int));
            assert(entries@.take(i + 1).last() == *entry);
            let ghost kept = kept_strokes(entries@.take(i as int));
            if counts_entry_exec(entry) {
                assert(kept.push(entry.stroke@).drop_last() =~= kept);
                // increment the stroke's counter, or add one if it isn't there
                self.bump_stroke(&entry.stroke, Ghost(u32::MAX - entries@.len() + i));
            }
            i += 1;
        }
        assert(entries@.take(i as int) =~= entries@);
    }

    fn process_grams_2(&mut self, entries: &[LogEntry])
        requires
            entries@.len() <= u32::MAX,
            counts_within(old(self)@.grams_2, u32::MAX - entries@.len()),
        ensures
            final(self)@.grams_2 == bump_all(
                old(self)@.grams_2,
                bigrams(old(self)@.grams_1, kept_strokes(entries@)),
            ),
            final(self)@.grams_1 == old(self)@.grams_1,
    {
        let ghost start = self@.grams_2;
        let ghost g1 = self@.grams_1;
        let mut prev: Option<String> = None;
        let mut i: usize = 0;
        assert(kept_strokes(entries@.take(0)) =~= Seq::<Seq<char>>::empty());
        while i < entries.len()
            invariant
                i <= entries@.len() <= u32::MAX,
                self@.grams_1 == g1,
                self@.grams_2 == bump_all(start, bigrams(g1, kept_strokes(entries@.take(i as int)))),
                counts_within(self@.grams_2, u32::MAX - entries@.len() + i),
                match prev {
                    Some(p) => kept_strokes(entries@.take(i as int)).len() > 0 && p@ == kept_strokes(
                        entries@.take(i as int),
                    ).last(),
                    None => kept_strokes(entries@.take(i as int)).len() == 0,
                },
            decreases entries.len() - i,
        {
            let entry = &entries[i];
            let ghost kept = kept_strokes(entries@.take(i as int));
            assert(entries@.take(i + 1).drop_last() =~= entries@.take(i as int));
            assert(entries@.take(i + 1).last() == *entry);
            if counts_entry_exec(entry) {
                let stroke = &entry.stroke;
                let ghost kept2 = kept.push(stroke@);
                assert(kept2.drop_last() =~= kept);
                // insert the bi-gram of the previous stroke and this stroke
                if let Some(p) = &prev {
                    assert(kept2[kept2.len() - 2] == p@);
                    // only insert if both occur frequently enough on their own
                    if self.stroke_count(p) >= BIGRAM_THRESHOLD && self.stroke_count(stroke)
                        >= BIGRAM_THRESHOLD {
                        let ghost b = bigrams(g1, kept);
                        assert(bigrams(g1, kept2) == b.push((p@, stroke@)));
                        assert(b.push((p@, stroke@)).drop_last() =~= b);
                        self.bump_pair(p, stroke, Ghost(u32::MAX - entries@.len() + i));
                    } else {
                        assert(bigrams(g1, kept2) == bigrams(g1, kept));
                    }
                } else {
                    assert(bigrams(g1, kept2) =~= Seq::<(Seq<char>, Seq<char>)>::empty());
                    assert(bigrams(g1, kept) =~= Seq::<(Seq<char>, Seq<char>)>::empty());
                }
                prev = Some(stroke.clone());
            }
            i += 1;
        }
        assert(entries@.take(i as int) =~= entries@);
    }
}

impl Processor for FrequencyAnalyzer {
    open spec fn can_process(&self, entries: Seq<LogEntry>) -> bool {
        &&& entries.len() <= u32::MAX
        &&& counts_within(self@.grams_1, u32::MAX - entries.len())
        &&& counts_within(self@.grams_2, u32::MAX - entries.len())
    }

    /// Process a series of entries; commands, the undo stroke and strokes that did nothing are
    /// ignored
    fn process(&mut self, entries: &[LogEntry])
        ensures
            final(self)@.grams_1 == bump_all(old(self)@.grams_1, kept_strokes(entries@)),
            final(self)@.grams_2 == bump_all(
                old(self)@.grams_2,
                bigrams(final(self)@.grams_1, kept_strokes(entries@)),
            ),
            old(self)@.well_formed() ==> final(self)@.well_formed(),
    {
        self.process_grams_1(entries);
        self.process_grams_2(entries);
        proof {
            if old(self)@.well_formed() {
                lemma_bump_all(old(self)@.grams_1, kept_strokes(entries@));
                lemma_bump_all(
                    old(self)@.grams_2,
                    bigrams(self@.grams_1, kept_strokes(entries@)),
                );
            }
        }
    }
}

/// How many times a key occurs
pub open spec fn occurrences<K>(keys: Seq<K>, key: K) -> nat
    decreases keys.len(),
{
    if keys.len() == 0 {
        0
    } else {
        occurrences(keys.drop_last(), key) + if keys.last() == key {
            1nat
        } else {
            0nat
        }
    }
}

/// Whether no key occurs twice
pub open spec fn keys_distinct<K>(counts: Seq<(K, nat)>) -> bool {
    forall|i: int, j: int| 0 <= i < j < counts.len() ==> #[trigger] counts[i].0 != #[trigger] counts[j].0
}

/// Whether every count is above zero
pub open spec fn counts_positive<K>(counts: Seq<(K, nat)>) -> bool {
    forall|i: int| 0 <= i < counts.len() ==> #[trigger] counts[i].1 > 0
}

/// The stroke counts after batches of entries were processed, one after the other, from nothing
pub open spec fn counts_after(batches: Seq<Seq<LogEntry>>) -> Seq<(Seq<char>, nat)>
    decreases batches.len(),
{
    if batches.len() == 0 {
        Seq::empty()
    } else {
        bump_all(counts_after(batches.drop_last()), kept_strokes(batches.last()))
    }
}

/// The strokes of all batches that count, in order
pub open spec fn kept_in(batches: Seq<Seq<LogEntry>>) -> Seq<Seq<char>>
    decreases batches.len(),
{
    if batches.len() == 0 {
        Seq::empty()
    } else {
        kept_in(batches.drop_last()) + kept_strokes(batches.last())
    }
}

proof fn lemma_count_of_at<K>(counts: Seq<(K, nat)>, j: int)
    requires
        keys_distinct(counts),
        0 <= j < counts.len(),
    ensures
        count_of(counts, counts[j].0) == counts[j].1,
{
    assert forall|i: int| 0 <= i < j implies counts[i].0 != counts[j].0 by {
        assert(counts[i].0 != counts[j].0);
    }
    lemma_index_is_first(counts, counts[j].0, j);
}

proof fn lemma_count_of_absent<K>(counts: Seq<(K, nat)>, key: K)
    requires
        forall|j: int| 0 <= j < counts.len() ==> counts[j].0 != key,
    ensures
        count_of(counts, key) == 0,
{
    lemma_index_of_key(counts, key);
}

proof fn lemma_bump<K>(counts: Seq<(K, nat)>, key: K)
    requires
        keys_distinct(counts),
        counts_positive(counts),
    ensures
        keys_distinct(bump(counts, key)),
        counts_positive(bump(counts, key)),
        forall|s: K| #[trigger]
            count_of(bump(counts, key), s) == count_of(counts, s) + if s == key {
                1nat
            } else {
                0nat
            },
{
    lemma_index_of_key(counts, key);
    let i = index_of_key(counts, key);
    let b = bump(counts, key);
    if i < counts.len() {
        assert(b == counts.update(i, (key, counts[i].1 + 1)));
        assert(keys_distinct(b)) by {
            assert forall|x: int, y: int| 0 <= x < y < b.len() implies #[trigger] b[x].0
                != #[trigger] b[y].0 by {
                assert(b[x].0 == counts[x].0 && b[y].0 == counts[y].0);
            }
        }
        assert forall|s: K| #[trigger]
            count_of(b, s) == count_of(counts, s) + if s == key {
                1nat
            } else {
                0nat
            } by {
            if exists|j: int| 0 <= j < counts.len() && counts[j].0 == s {
                let j = choose|j: int| 0 <= j < counts.len() && counts[j].0 == s;
                lemma_count_of_at(counts, j);
                lemma_count_of_at(b, j);
                if j != i {
                    assert(counts[j].0 != counts[i].0);
                }
            } else {
                lemma_count_of_absent(counts, s);
                lemma_count_of_absent(b, s);
            }
        }
    } else {
        assert(b == counts.push((key, 1nat)));
        assert(keys_distinct(b)) by {
            assert forall|x: int, y: int| 0 <= x < y < b.len() implies #[trigger] b[x].0
                != #[trigger] b[y].0 by {
                assert(b[x] == counts[x]);
                if y < counts.len() {
                    assert(b[y] == counts[y]);
                }
            }
        }
        assert forall|s: K| #[trigger]
            count_of(b, s) == count_of(counts, s) + if s == key {
                1nat
            } else {
                0nat
            } by {
            if exists|j: int| 0 <= j < counts.len() && counts[j].0 == s {
                let j = choose|j: int| 0 <= j < counts.len() && counts[j].0 == s;
                lemma_count_of_at(counts, j);
                assert(b[j] == counts[j]);
                lemma_count_of_at(b, j);
            } else {
                lemma_count_of_absent(counts, s);
                if s == key {
                    lemma_count_of_at(b, counts.len() as int);
                } else {
                    lemma_count_of_absent(b, s);
                }
            }
        }
    }
}

proof fn lemma_bump_all<K>(counts: Seq<(K, nat)>, keys: Seq<K>)
    requires
        keys_distinct(counts),
        counts_positive(counts),
    ensures
        keys_distinct(bump_all(counts, keys)),
        counts_positive(bump_all(counts, keys)),
        forall|s: K| #[trigger]
            count_of(bump_all(counts, keys), s) == count_of(counts, s) + occurrences(keys, s),
    decreases keys.len(),
{
    if keys.len() > 0 {
        let prev = bump_all(counts, keys.drop_last());
        lemma_bump_all(counts, keys.drop_last());
        lemma_bump(prev, keys.last());
        assert forall|s: K| #[trigger]
            count_of(bump_all(counts, keys), s) == count_of(counts, s) + occurrences(keys, s) by {
            assert(count_of(prev, s) == count_of(counts, s) + occurrences(keys.drop_last(), s));
        }
    }
}

proof fn lemma_occurrences_concat<K>(a: Seq<K>, b: Seq<K>, key: K)
    ensures
        occurrences(a + b, key) == occurrences(a, key) + occurrences(b, key),
    decreases b.len(),
{
    if b.len() == 0 {
        assert(a + b =~= a);
    } else {
        assert((a + b).drop_last() =~= a + b.drop_last());
        lemma_occurrences_concat(a, b.drop_last(), key);
    }
}

proof fn lemma_counts_after(batches: Seq<Seq<LogEntry>>)
    ensures
        keys_distinct(counts_after(batches)),
        counts_positive(counts_after(batches)),
        forall|s: Seq<char>| #[trigger]
            count_of(counts_after(batches), s) == occurrences(kept_in(batches), s),
    decreases batches.len(),
{
    if batches.len() == 0 {
        assert forall|s: Seq<char>| #[trigger]
            count_of(counts_after(batches), s) == occurrences(kept_in(batches), s) by {
            lemma_count_of_absent(Seq::<(Seq<char>, nat)>::empty(), s);
        }
    } else {
        let prev = counts_after(batches.drop_last());
        lemma_counts_after(batches.drop_last());
        lemma_bump_all(prev, kept_strokes(batches.last()));
        assert forall|s: Seq<char>| #[trigger]
            count_of(counts_after(batches), s) == occurrences(kept_in(batches), s) by {
            assert(count_of(prev, s) == occurrences(kept_in(batches.drop_last()), s));
            lemma_occurrences_concat(kept_in(batches.drop_last()), kept_strokes(batches.last()), s);
        }
    }
}

proof fn lemma_at_least_members<K>(counts: Seq<(K, nat)>, threshold: nat)
    ensures
        forall|x: (K, nat)| #[trigger]
            at_least(counts, threshold).contains(x) <==> counts.contains(x) && x.1 >= threshold,
        keys_distinct(counts) ==> keys_distinct(at_least(counts, threshold)),
    decreases counts.len(),
{
    if counts.len() > 0 {
        let rest = counts.drop_last();
        let x = counts.last();
        let a = at_least(rest, threshold);
        lemma_at_least_members(rest, threshold);
        assert forall|y: (K, nat)| #[trigger]
            at_least(counts, threshold).contains(y) <==> counts.contains(y) && y.1 >= threshold by {
            if counts.contains(y) {
                let j = choose|j: int| 0 <= j < counts.len() && counts[j] == y;
                if j < rest.len() {
                    assert(rest[j] == y);
                }
            }
            if rest.contains(y) {
                let j = choose|j: int| 0 <= j < rest.len() && rest[j] == y;
                assert(counts[j] == y);
            }
            if x.1 >= threshold {
                assert(at_least(counts, threshold) == a.push(x));
                if a.push(x).contains(y) {
                    let j = choose|j: int| 0 <= j < a.push(x).len() && a.push(x)[j] == y;
                    if j < a.len() {
                        assert(a[j] == y);
                    }
                }
                if a.contains(y) {
                    let j = choose|j: int| 0 <= j < a.len() && a[j] == y;
                    assert(a.push(x)[j] == y);
                }
                assert(a.push(x)[a.len() as int] == x);
            }
            assert(counts[counts.len() - 1] == x);
        }
        if keys_distinct(counts) && x.1 >= threshold {
            assert(keys_distinct(rest)) by {
                assert forall|i: int, j: int| 0 <= i < j < rest.len() implies #[trigger] rest[i].0
                    != #[trigger] rest[j].0 by {
                    assert(rest[i] == counts[i] && rest[j] == counts[j]);
                }
            }
            let r = a.push(x);
            assert forall|i: int, j: int| 0 <= i < j < r.len() implies #[trigger] r[i].0
                != #[trigger] r[j].0 by {
                assert(r[i] == a[i]);
                if j < a.len() {
                    assert(r[j] == a[j]);
                } else {
                    assert(a.contains(a[i]));
                    let k = choose|k: int| 0 <= k < rest.len() && rest[k] == a[i];
                    assert(counts[k] == a[i]);
                    assert(counts[counts.len() - 1] == x);
                    assert(counts[k].0 != counts[counts.len() - 1].0);
                }
            }
        } else if keys_distinct(counts) {
            assert(keys_distinct(rest)) by {
                assert forall|i: int, j: int| 0 <= i < j < rest.len() implies #[trigger] rest[i].0
                    != #[trigger] rest[j].0 by {
                    assert(rest[i] == counts[i] && rest[j] == counts[j]);
                }
            }
        }
    }
}

proof fn lemma_sort_members<K>(counts: Seq<(K, nat)>)
    ensures
        forall|x: (K, nat)| #[trigger] sort_desc(counts).contains(x) <==> counts.contains(x),
        keys_distinct(counts) ==> keys_distinct(sort_desc(counts)),
    decreases counts.len(),
{
    if counts.len() > 0 {
        let rest = counts.drop_last();
        let x = counts.last();
        let sorted = sort_desc(rest);
        lemma_sort_members(rest);
        lemma_sort_desc_sorted(rest);
        lemma_insert_position(sorted, x.1);
        let p = insert_position(sorted, x.1);
        let r = sorted.insert(p, x);
        assert(sort_desc(counts) == r);
        assert(counts[counts.len() - 1] == x);
        assert forall|y: (K, nat)| #[trigger] r.contains(y) <==> counts.contains(y) by {
            if r.contains(y) {
                let k = choose|k: int| 0 <= k < r.len() && r[k] == y;
                if k < p {
                    assert(sorted[k] == y);
                    assert(sorted.contains(y));
                    let j = choose|j: int| 0 <= j < rest.len() && rest[j] == y;
                    assert(counts[j] == y);
                } else if k > p {
                    assert(sorted[k - 1] == y);
                    assert(sorted.contains(y));
                    let j = choose|j: int| 0 <= j < rest.len() && rest[j] == y;
                    assert(counts[j] == y);
                }
            }
            if counts.contains(y) {
                let j = choose|j: int| 0 <= j < counts.len() && counts[j] == y;
                if j < rest.len() {
                    assert(rest[j] == y);
                    assert(rest.contains(y));
                    assert(sorted.contains(y));
                    let k = choose|k: int| 0 <= k < sorted.len() && sorted[k] == y;
                    if k < p {
                        assert(r[k] == y);
                    } else {
                        assert(r[k + 1] == y);
                    }
                } else {
                    assert(r[p] == y);
                }
            }
        }
        if keys_distinct(counts) {
            assert(keys_distinct(rest)) by {
                assert forall|i: int, j: int| 0 <= i < j < rest.len() implies #[trigger] rest[i].0
                    != #[trigger] rest[j].0 by {
                    assert(rest[i] == counts[i] && rest[j] == counts[j]);
                }
            }
            assert forall|k: int| 0 <= k < sorted.len() implies #[trigger] sorted[k].0 != x.0 by {
                assert(sorted.contains(sorted[k]));
                let j = choose|j: int| 0 <= j < rest.len() && rest[j] == sorted[k];
                assert(counts[j] == sorted[k]);
                assert(counts[j].0 != counts[counts.len() - 1].0);
            }
            assert forall|i: int, j: int| 0 <= i < j < r.len() implies #[trigger] r[i].0
                != #[trigger] r[j].0 by {
                if j < p {
                    assert(r[i] == sorted[i] && r[j] == sorted[j]);
                } else if j == p {
                    assert(r[i] == sorted[i]);
                } else if i < p {
                    assert(r[i] == sorted[i] && r[j] == sorted[j - 1]);
                } else if i == p {
                    assert(r[j] == sorted[j - 1]);
                } else {
                    assert(r[i] == sorted[i - 1] && r[j] == sorted[j - 1]);
                }
            }
        }
    }
}

/// After batches of entries were processed from nothing, the stroke counts handed out hold each
/// stroke that was kept at least `threshold` times (and at least once) exactly once, with the
/// number of times it was kept, the most frequent first. Commands, the undo stroke and strokes
/// that did nothing are not kept
pub proof fn lemma_grams_1_counts(batches: Seq<Seq<LogEntry>>, threshold: nat)
    ensures
        ({
            let r = sort_desc(at_least(counts_after(batches), threshold));
            &&& keys_distinct(r)
            &&& is_sorted_desc(r)
            &&& forall|i: int|
                0 <= i < r.len() ==> #[trigger] r[i].1 == occurrences(kept_in(batches), r[i].0)
                    && r[i].1 >= threshold && r[i].1 > 0
            &&& forall|s: Seq<char>|
                #![trigger occurrences(kept_in(batches), s)]
                occurrences(kept_in(batches), s) > 0 && occurrences(kept_in(batches), s)
                    >= threshold ==> exists|i: int| 0 <= i < r.len() && r[i].0 == s
        }),
{
    let c = counts_after(batches);
    let a = at_least(c, threshold);
    let r = sort_desc(a);
    lemma_counts_after(batches);
    lemma_at_least_members(c, threshold);
    lemma_sort_members(a);
    lemma_sort_desc_sorted(a);
    assert forall|i: int| 0 <= i < r.len() implies #[trigger] r[i].1 == occurrences(
        kept_in(batches),
        r[i].0,
    ) && r[i].1 >= threshold && r[i].1 > 0 by {
        assert(r.contains(r[i]));
        assert(a.contains(r[i]));
        assert(c.contains(r[i]));
        let j = choose|j: int| 0 <= j < c.len() && c[j] == r[i];
        lemma_count_of_at(c, j);
        assert(count_of(c, r[i].0) == occurrences(kept_in(batches), r[i].0));
    }
    assert forall|s: Seq<char>|
        #![trigger occurrences(kept_in(batches), s)]
        occurrences(kept_in(batches), s) > 0 && occurrences(kept_in(batches), s) >= threshold
            implies exists|i: int| 0 <= i < r.len() && r[i].0 == s by {
        assert(count_of(c, s) == occurrences(kept_in(batches), s));
        if forall|j: int| 0 <= j < c.len() ==> c[j].0 != s {
            lemma_count_of_absent(c, s);
        }
        let j = choose|j: int| 0 <= j < c.len() && c[j].0 == s;
        lemma_count_of_at(c, j);
        assert(c.contains(c[j]));
        assert(a.contains(c[j]));
        assert(r.contains(c[j]));
        let i = choose|i: int| 0 <= i < r.len() && r[i] == c[j];
        assert(r[i].0 == s);
    }
}

} // verus!
