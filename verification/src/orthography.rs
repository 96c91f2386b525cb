//! Spelling rules for joining a word and a suffix (the same rules as Plover's English ones).
use crate::pattern::{group, group_text, groups_view, regex_captures, regex_captures_of};
use crate::text::push_str;
use vstd::prelude::*;

verus! {

/// A piece of the replacement text: a capturing group of the base word or of the suffix, or a
/// literal string
#[derive(Debug, PartialEq)]
pub enum ReplaceItem {
    BaseGroup(usize),
    SuffixGroup(usize),
    Lit(String),
}

/// The value of a replacement piece
pub enum ReplaceItemV {
    BaseGroup(int),
    SuffixGroup(int),
    Lit(Seq<char>),
}

impl View for ReplaceItem {
    type V = ReplaceItemV;

    open spec fn view(&self) -> ReplaceItemV {
        match self {
            ReplaceItem::BaseGroup(g) => ReplaceItemV::BaseGroup(*g as int),
            ReplaceItem::SuffixGroup(g) => ReplaceItemV::SuffixGroup(*g as int),
            ReplaceItem::Lit(s) => ReplaceItemV::Lit(s@),
        }
    }
}

/// If a word matches `base` and its suffix matches `suffix`, the two are replaced by `replace`
pub struct Rule {
    pub base: String,
    pub suffix: String,
    pub replace: Vec<ReplaceItem>,
}

/// The value of a rule
pub struct RuleV {
    pub base: Seq<char>,
    pub suffix: Seq<char>,
    pub replace: Seq<ReplaceItemV>,
}

impl View for Rule {
    type V = RuleV;

    open spec fn view(&self) -> RuleV {
        RuleV {
            base: self.base@,
            suffix: self.suffix@,
            replace: self.replace@.map_values(|r: ReplaceItem| r@),
        }
    }
}

/// The values of a list of rules
pub open spec fn rules_view(v: Seq<Rule>) -> Seq<RuleV> {
    v.map_values(|r: Rule| r@)
}

/// A rule whose replacement is the first group of the base followed by a literal
pub open spec fn rule_with_lit(base: Seq<char>, suffix: Seq<char>, lit: Seq<char>) -> RuleV {
    RuleV { base, suffix, replace: seq![ReplaceItemV::BaseGroup(1), ReplaceItemV::Lit(lit)] }
}

/// The orthography rules, tried in this order
pub open spec fn orthography_rules() -> Seq<RuleV> {
    seq![
        // artistic + ly = artistically
        rule_with_lit("^(.*[aeiou]c)$"@, "^ly$"@, "ally"@),
        // statute + ry = statutory
        rule_with_lit("^(.*t)e$"@, "^ry$"@, "ory"@),
        // frequent + cy = frequency (tcy/tecy removal)
        rule_with_lit("^(.*[naeiou])te?$"@, "^cy$"@, "cy"@),
        // establish + s = establishes (sibilant pluralization)
        rule_with_lit("^(.*(?:s|sh|x|z|zh))$"@, "^s$"@, "es"@),
        // speech + s = speeches (soft ch pluralization)
        rule_with_lit("^(.*(?:oa|ea|i|ee|oo|au|ou|l|n|[gin]ar|t)ch)$"@, "^s$"@, "es"@),
        // cherry + s = cherries (consonant + y pluralization)
        rule_with_lit("^(.+[bcdfghjklmnpqrstvwxz])y$"@, "^s$"@, "ies"@),
        // die+ing = dying
        rule_with_lit("^(.+)ie$"@, "^ing$"@, "ying"@),
        // metallurgy + ist = metallurgist
        rule_with_lit("^(.+[cdfghlmnpr])y$"@, "^ist$"@, "ist"@),
        // beauty + ful = beautiful (y -> i)
        RuleV {
            base: "^(.+[bcdfghjklmnpqrstvwxz])y$"@,
            suffix: "^([a-hj-xz].*)$"@,
            replace: seq![
                ReplaceItemV::BaseGroup(1),
                ReplaceItemV::Lit("i"@),
                ReplaceItemV::SuffixGroup(1),
            ],
        },
        // write + en = written
        rule_with_lit("^(.+)te$"@, "^en$"@, "tten"@),
        // free + ed = freed
        RuleV {
            base: "^(.+e)e$"@,
            suffix: "^(e.+)$"@,
            replace: seq![ReplaceItemV::BaseGroup(1), ReplaceItemV::SuffixGroup(1)],
        },
        // narrate + ing = narrating (silent e)
        RuleV {
            base: "^(.+[bcdfghjklmnpqrstuvwxz])e$"@,
            suffix: "^([aeiouy].*)$"@,
            replace: seq![ReplaceItemV::BaseGroup(1), ReplaceItemV::SuffixGroup(1)],
        },
        // defer + ed = deferred (consonant doubling)
        RuleV {
            base: "^(.*(?:[bcdfghjklmnprstvwxyz]|qu)[aeiou])([bcdfgklmnprtvz])$"@,
            suffix: "^([aeiouy].*)$"@,
            replace: seq![
                ReplaceItemV::BaseGroup(1),
                ReplaceItemV::BaseGroup(2),
                ReplaceItemV::BaseGroup(2),
                ReplaceItemV::SuffixGroup(1),
            ],
        },
    ]
}

/// A lower case ASCII consonant (`y` counts as one)
pub open spec fn is_consonant(c: char) -> bool {
    'a' <= c <= 'z' && c != 'a' && c != 'e' && c != 'i' && c != 'o' && c != 'u'
}

/// The consonants that are doubled before a suffix that starts with a vowel (defer + ed =
/// deferred, stop + ing = stopping): all but `h`, `j`, `q`, `s`, `w`, `x` and `y`
pub open spec fn doubled_consonants() -> Seq<char> {
    "bcdfgklmnprtvz"@
}

/// The doubling rule is the last rule: a word that ends in a consonant (or `qu`), a vowel and
/// one of the doubled consonants, followed by a suffix that starts with a vowel or `y`, gets that
/// consonant twice; the doubled consonants are exactly the consonants but `h`, `j`, `q`, `s`,
/// `w`, `x` and `y`
pub proof fn lemma_doubling_rule()
    ensures
        orthography_rules().len() == 13,
        orthography_rules()[12].base == "^(.*(?:[bcdfghjklmnprstvwxyz]|qu)[aeiou])(["@
            + doubled_consonants() + "])$"@,
        orthography_rules()[12].suffix == "^([aeiouy].*)$"@,
        orthography_rules()[12].replace == seq![
            ReplaceItemV::BaseGroup(1),
            ReplaceItemV::BaseGroup(2),
            ReplaceItemV::BaseGroup(2),
            ReplaceItemV::SuffixGroup(1),
        ],
        forall|c: char|
            #[trigger] doubled_consonants().contains(c) <==> is_consonant(c) && c != 'h' && c != 'j'
                && c != 'q' && c != 's' && c != 'w' && c != 'x' && c != 'y',
{
    reveal_strlit("^(.*(?:[bcdfghjklmnprstvwxyz]|qu)[aeiou])([");
    reveal_strlit("bcdfgklmnprtvz");
    reveal_strlit("])$");
    reveal_strlit("^(.*(?:[bcdfghjklmnprstvwxyz]|qu)[aeiou])([bcdfgklmnprtvz])$");
    assert(orthography_rules()[12].base =~= "^(.*(?:[bcdfghjklmnprstvwxyz]|qu)[aeiou])(["@
        + doubled_consonants() + "])$"@);
    let d = doubled_consonants();
    assert forall|c: char|
        #[trigger] d.contains(c) <==> is_consonant(c) && c != 'h' && c != 'j' && c != 'q' && c
            != 's' && c != 'w' && c != 'x' && c != 'y' by {
        if d.contains(c) {
            let i = choose|i: int| 0 <= i < d.len() && d[i] == c;
            assert(0 <= i < 14);
        }
        if is_consonant(c) && c != 'h' && c != 'j' && c != 'q' && c != 's' && c != 'w' && c != 'x'
            && c != 'y' {
            let n = c as u32;
            assert(97 <= n <= 122);
            if c == 'b' {
                assert(d[0] == c);
            } else if c == 'c' {
                assert(d[1] == c);
            } else if c == 'd' {
                assert(d[2] == c);
            } else if c == 'f' {
                assert(d[3] == c);
            } else if c == 'g' {
                assert(d[4] == c);
            } else if c == 'k' {
                assert(d[5] == c);
            } else if c == 'l' {
                assert(d[6] == c);
            } else if c == 'm' {
                assert(d[7] == c);
            } else if c == 'n' {
                assert(d[8] == c);
            } else if c == 'p' {
                assert(d[9] == c);
            } else if c == 'r' {
                assert(d[10] == c);
            } else if c == 't' {
                assert(d[11] == c);
            } else if c == 'v' {
                assert(d[12] == c);
            } else {
                assert(c == 'z');
                assert(d[13] == c);
            }
        }
    }
}

fn lit_rule(base: &str, suffix: &str, lit: &str) -> (r: Rule)
    ensures
        r@ == rule_with_lit(base@, suffix@, lit@),
{
    let r = Rule {
        base: base.to_owned(),
        suffix: suffix.to_owned(),
        replace: vec![ReplaceItem::BaseGroup(1), ReplaceItem::Lit(lit.to_owned())],
    };
    assert(r@.replace =~= rule_with_lit(base@, suffix@, lit@).replace);
    r
}

/// The orthography rules, as Plover has them
pub fn default_orthography() -> (r: Vec<Rule>)
    ensures
        rules_view(r@) == orthography_rules(),
{
    let beauty = Rule {
        base: "^(.+[bcdfghjklmnpqrstvwxz])y$".to_owned(),
        suffix: "^([a-hj-xz].*)$".to_owned(),
        replace: vec![
            ReplaceItem::BaseGroup(1),
            ReplaceItem::Lit("i".to_owned()),
            ReplaceItem::SuffixGroup(1),
        ],
    };
    let free = Rule {
        base: "^(.+e)e$".to_owned(),
        suffix: "^(e.+)$".to_owned(),
        replace: vec![ReplaceItem::BaseGroup(1), ReplaceItem::SuffixGroup(1)],
    };
    let narrate = Rule {
        base: "^(.+[bcdfghjklmnpqrstuvwxz])e$".to_owned(),
        suffix: "^([aeiouy].*)$".to_owned(),
        replace: vec![ReplaceItem::BaseGroup(1), ReplaceItem::SuffixGroup(1)],
    };
    let defer = Rule {
        base: "^(.*(?:[bcdfghjklmnprstvwxyz]|qu)[aeiou])([bcdfgklmnprtvz])$".to_owned(),
        suffix: "^([aeiouy].*)$".to_owned(),
        replace: vec![
            ReplaceItem::BaseGroup(1),
            ReplaceItem::BaseGroup(2),
            ReplaceItem::BaseGroup(2),
            ReplaceItem::SuffixGroup(1),
        ],
    };
    let r = vec![
        lit_rule("^(.*[aeiou]c)$", "^ly$", "ally"),
        lit_rule("^(.*t)e$", "^ry$", "ory"),
        lit_rule("^(.*[naeiou])te?$", "^cy$", "cy"),
        lit_rule("^(.*(?:s|sh|x|z|zh))$", "^s$", "es"),
        lit_rule("^(.*(?:oa|ea|i|ee|oo|au|ou|l|n|[gin]ar|t)ch)$", "^s$", "es"),
        lit_rule("^(.+[bcdfghjklmnpqrstvwxz])y$", "^s$", "ies"),
        lit_rule("^(.+)ie$", "^ing$", "ying"),
        lit_rule("^(.+[cdfghlmnpr])y$", "^ist$", "ist"),
        beauty,
        lit_rule("^(.+)te$", "^en$", "tten"),
        free,
        narrate,
        defer,
    ];
    assert(r@[8]@.replace =~= orthography_rules()[8].replace);
    assert(r@[10]@.replace =~= orthography_rules()[10].replace);
    assert(r@[11]@.replace =~= orthography_rules()[11].replace);
    assert(r@[12]@.replace =~= orthography_rules()[12].replace);
    assert(rules_view(r@) =~= orthography_rules());
    r
}

/// The text a replacement piece stands for, given the groups of the base and of the suffix
pub open spec fn item_text(
    item: ReplaceItemV,
    base_groups: Seq<Option<Seq<char>>>,
    suffix_groups: Seq<Option<Seq<char>>>,
) -> Seq<char> {
    match item {
        ReplaceItemV::BaseGroup(g) => group_text(base_groups, g),
        ReplaceItemV::SuffixGroup(g) => group_text(suffix_groups, g),
        ReplaceItemV::Lit(s) => s,
    }
}

/// The replacement text: the pieces one after the other
pub open spec fn replacement(
    items: Seq<ReplaceItemV>,
    base_groups: Seq<Option<Seq<char>>>,
    suffix_groups: Seq<Option<Seq<char>>>,
) -> Seq<char>
    decreases items.len(),
{
    if items.len() == 0 {
        Seq::empty()
    } else {
        replacement(items.drop_last(), base_groups, suffix_groups) + item_text(
            items.last(),
            base_groups,
            suffix_groups,
        )
    }
}

/// Joins a word and a suffix with the first of the rules whose patterns both match; with no such
/// rule, the suffix is simply put after the word
pub open spec fn merge_with(rules: Seq<RuleV>, base: Seq<char>, suffix: Seq<char>) -> Seq<char>
    decreases rules.len(),
{
    if rules.len() == 0 {
        base + suffix
    } else {
        match (
            regex_captures_of(rules[0].base, base),
            regex_captures_of(rules[0].suffix, suffix),
        ) {
            (Some(bg), Some(sg)) => replacement(rules[0].replace, bg, sg),
            _ => merge_with(rules.skip(1), base, suffix),
        }
    }
}

/// Joins a word and a suffix, applying the orthography rules
pub open spec fn merge_spec(base: Seq<char>, suffix: Seq<char>) -> Seq<char> {
    merge_with(orthography_rules(), base, suffix)
}

proof fn lemma_merge_skips(rules: Seq<RuleV>, base: Seq<char>, suffix: Seq<char>, k: int)
    requires
        0 <= k <= rules.len(),
        forall|i: int|
            0 <= i < k ==> !(regex_captures_of(#[trigger] rules[i].base, base) is Some
                && regex_captures_of(rules[i].suffix, suffix) is Some),
    ensures
        merge_with(rules, base, suffix) == merge_with(rules.skip(k), base, suffix),
    decreases k,
{
    if k == 0 {
        assert(rules.skip(0) =~= rules);
    } else {
        lemma_merge_skips(rules, base, suffix, k - 1);
        let rest = rules.skip(k - 1);
        assert(rest[0] == rules[k - 1]);
        assert(rest.skip(1) =~= rules.skip(k));
    }
}

/// When no earlier rule applies and the doubling rule matches the word and the suffix, the word
/// (up to its last consonant), that consonant twice, and the suffix are joined
pub proof fn lemma_merge_doubles_consonant(
    base: Seq<char>,
    suffix: Seq<char>,
    bg: Seq<Option<Seq<char>>>,
    sg: Seq<Option<Seq<char>>>,
)
    requires
        forall|i: int|
            0 <= i < 12 ==> !(regex_captures_of(#[trigger] orthography_rules()[i].base, base) is Some
                && regex_captures_of(orthography_rules()[i].suffix, suffix) is Some),
        regex_captures_of(orthography_rules()[12].base, base) == Some(bg),
        regex_captures_of(orthography_rules()[12].suffix, suffix) == Some(sg),
    ensures
        merge_spec(base, suffix) == group_text(bg, 1) + group_text(bg, 2) + group_text(bg, 2)
            + group_text(sg, 1),
{
    let rules = orthography_rules();
    lemma_merge_skips(rules, base, suffix, 12);
    let rest = rules.skip(12);
    assert(rest[0] == rules[12]);
    let items = rules[12].replace;
    assert(items.drop_last().drop_last().drop_last().drop_last() =~= Seq::<ReplaceItemV>::empty());
    assert(replacement(items, bg, sg) =~= group_text(bg, 1) + group_text(bg, 2) + group_text(bg, 2)
        + group_text(sg, 1)) by {
        reveal_with_fuel(replacement, 5);
        assert(items.drop_last() =~= seq![
            ReplaceItemV::BaseGroup(1),
            ReplaceItemV::BaseGroup(2),
            ReplaceItemV::BaseGroup(2),
        ]);
        assert(items.drop_last().drop_last() =~= seq![
            ReplaceItemV::BaseGroup(1),
            ReplaceItemV::BaseGroup(2),
        ]);
        assert(items.drop_last().drop_last().drop_last() =~= seq![ReplaceItemV::BaseGroup(1)]);
    }
}

/// Applies orthography rules to a given base word and a suffix
pub fn merge(base: &str, suffix: &str) -> (r: String)
    ensures
        r@ == merge_spec(base@, suffix@),
{
    let rules = default_orthography();
    let mut i: usize = 0;
    assert(rules_view(rules@).skip(0) =~= rules_view(rules@));
    while i < rules.len()
        invariant
            i <= rules.len(),
            rules_view(rules@) == orthography_rules(),
            merge_with(rules_view(rules@).skip(i as int), base@, suffix@) == merge_spec(
                base@,
                suffix@,
            ),
        decreases rules.len() - i,
    {
        let rule = &rules[i];
        let ghost rest = rules_view(rules@).skip(i as int);
        assert(rest[0] == rule@);
        assert(rest.skip(1) =~= rules_view(rules@).skip(i + 1));
        let base_captures = regex_captures(rule.base.as_str(), base);
        let suffix_captures = regex_captures(rule.suffix.as_str(), suffix);
        if let (Some(bg), Some(sg)) = (base_captures, suffix_captures) {
            let mut s = String::new();
            let mut k: usize = 0;
            while k < rule.replace.len()
                invariant
                    k <= rule.replace.len(),
                    s@ == replacement(
                        rule@.replace.take(k as int),
                        groups_view(bg@),
                        groups_view(sg@),
                    ),
                decreases rule.replace.len() - k,
            {
                match &rule.replace[k] {
                    ReplaceItem::BaseGroup(g) => {
                        let t = group(&bg, *g);
                        push_str(&mut s, t.as_str());
                    },
                    ReplaceItem::SuffixGroup(g) => {
                        let t = group(&sg, *g);
                        push_str(&mut s, t.as_str());
                    },
                    ReplaceItem::Lit(t) => {
                        push_str(&mut s, t.as_str());
                    },
                }
                k += 1;
                assert(rule@.replace.take(k as int).drop_last() =~= rule@.replace.take(k - 1));
            }
            assert(rule@.replace.take(k as int) =~= rule@.replace);
            return s;
        }
        i += 1;
    }
    let mut s = base.to_owned();
    push_str(&mut s, suffix);
    s
}

/// Joins the words two by two: each word at an even position with the suffix after it
pub open spec fn apply_spec(strs: Seq<Seq<char>>) -> Seq<char>
    decreases strs.len(),
{
    if strs.len() == 0 {
        Seq::empty()
    } else if strs.len() == 1 {
        strs[0]
    } else {
        merge_spec(strs[0], strs[1]) + apply_spec(strs.skip(2))
    }
}

/// Join a word and suffixes together, applying orthographic (spelling) rules
pub fn apply_orthography(strs: Vec<String>) -> (r: String)
    ensures
        r@ == apply_spec(strs@.map_values(|s: String| s@)),
        strs.len() == 1 ==> r@ == strs@[0]@,
{
    let ghost all = strs@.map_values(|s: String| s@);
    let mut r = String::new();
    let mut i: usize = 0;
    assert(all.skip(0) =~= all);
    assert(r@ + apply_spec(all.skip(0)) =~= apply_spec(all));
    while i < strs.len() && strs.len() - i >= 2
        invariant
            i <= strs.len(),
            all == strs@.map_values(|s: String| s@),
            r@ + apply_spec(all.skip(i as int)) == apply_spec(all),
        decreases strs.len() - i,
    {
        let joined = merge(strs[i].as_str(), strs[i + 1].as_str());
        proof {
            let rest = all.skip(i as int);
            assert(rest[0] == all[i as int] && rest[1] == all[i + 1]);
            assert(rest.skip(2) =~= all.skip(i + 2));
            assert(r@ + joined@ + apply_spec(all.skip(i + 2)) =~= r@ + (joined@ + apply_spec(
                all.skip(i + 2),
            )));
        }
        push_str(&mut r, joined.as_str());
        i += 2;
    }
    if i < strs.len() {
        proof {
            let rest = all.skip(i as int);
            assert(rest.len() == 1 && rest[0] == all[i as int]);
        }
        push_str(&mut r, strs[i].as_str());
    } else {
        assert(all.skip(i as int).len() == 0);
        assert(r@ + apply_spec(all.skip(i as int)) =~= r@);
    }
    r
}

} // verus!
