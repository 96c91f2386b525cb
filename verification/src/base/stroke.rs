use vstd::prelude::*;
use crate::text::{chars_of, push_char, push_str, string_from_chars};

verus! {

/// A steno stroke. Can be a single stroke (ex: "H-L") or several strokes (ex: "H-L/WORLD")
#[derive(Debug, Hash)]
pub struct Stroke(String);

impl View for Stroke {
    type V = Seq<char>;

    closed spec fn view(&self) -> Seq<char> {
        self.0@
    }
}

impl Clone for Stroke {
    fn clone(&self) -> (r: Self)
        ensures
            r@ == self@,
    {
        Stroke(self.0.clone())
    }
}

impl PartialEq for Stroke {
    fn eq(&self, other: &Self) -> (r: bool) {
        self.0 == other.0
    }
}

impl vstd::std_specs::cmp::PartialEqSpecImpl for Stroke {
    open spec fn obeys_eq_spec() -> bool {
        true
    }

    open spec fn eq_spec(&self, other: &Self) -> bool {
        self@ == other@
    }
}

impl Eq for Stroke {
}

impl Stroke {
    pub fn new(stroke: &str) -> (s: Self)
        ensures
            s@ == stroke@,
    {
        Self(stroke.to_owned())
    }

    pub fn to_raw(self) -> (s: String)
        ensures
            s@ == self@,
    {
        self.0
    }

    /// The text of the stroke, without giving it up
    pub fn as_str(&self) -> (s: &str)
        ensures
            s@ == self@,
    {
        self.0.as_str()
    }

    /// The undo stroke is the lone star key
    pub fn is_undo(&self) -> (b: bool)
        ensures
            b == (self@ == seq!['*']),
    {
        let s = self.0.as_str();
        if s.unicode_len() == 1 {
            let c = s.get_char(0);
            proof {
                if c == '*' {
                    assert(self@ =~= seq!['*']);
                }
            }
            c == '*'
        } else {
            false
        }
    }

    /// A stroke is valid when it is not empty
    pub fn is_valid(&self) -> (b: bool)
        ensures
            b == (self@.len() > 0),
    {
        !self.0.as_str().is_empty()
    }
}

/// Raw stroke representation that can be converted to a stroke
#[derive(Debug, PartialEq, Default)]
pub struct RawStroke {
    pub num_key: bool,
    pub left_hand: String,
    pub center_left: String,
    pub star_key: bool,
    pub center_right: String,
    pub right_hand: String,
}

/// The keys of a raw stroke, grouped by part of the layout
pub struct RawKeys {
    pub num_key: bool,
    pub left_hand: Seq<char>,
    pub center_left: Seq<char>,
    pub star_key: bool,
    pub center_right: Seq<char>,
    pub right_hand: Seq<char>,
}

impl View for RawStroke {
    type V = RawKeys;

    open spec fn view(&self) -> RawKeys {
        RawKeys {
            num_key: self.num_key,
            left_hand: self.left_hand@,
            center_left: self.center_left@,
            star_key: self.star_key,
            center_right: self.center_right@,
            right_hand: self.right_hand@,
        }
    }
}

/// Keys in the middle of the steno layout (plus the dash that stands in for them)
pub open spec fn is_center_key(key: char) -> bool {
    key == 'A' || key == 'O' || key == 'E' || key == 'U' || key == '*' || key == '-'
}

/// The number a left hand key stands for when the number bar is pressed
pub open spec fn left_number(key: char) -> char {
    if key == 'S' {
        '1'
    } else if key == 'T' {
        '2'
    } else if key == 'P' {
        '3'
    } else if key == 'H' {
        '4'
    } else {
        key
    }
}

/// The number a center or right hand key stands for when the number bar is pressed
pub open spec fn right_number(key: char) -> char {
    if key == 'A' {
        '5'
    } else if key == 'O' {
        '0'
    } else if key == 'F' {
        '6'
    } else if key == 'P' {
        '7'
    } else if key == 'L' {
        '8'
    } else if key == 'T' {
        '9'
    } else {
        key
    }
}

/// Whether some key up to and including position `i` is a center key
pub open spec fn center_reached(s: Seq<char>, i: int) -> bool {
    exists|j: int| 0 <= j <= i && is_center_key(#[trigger] s[j])
}

/// The keys of a stroke, each replaced by the number it stands for: keys before the first center
/// key use the left hand numbers, the others the right hand numbers
pub open spec fn number_stroke(s: Seq<char>) -> Seq<char> {
    Seq::new(
        s.len(),
        |i: int|
            if center_reached(s, i) {
                right_number(s[i])
            } else {
                left_number(s[i])
            },
    )
}

fn is_center_key_exec(key: char) -> (b: bool)
    ensures
        b == is_center_key(key),
{
    key == 'A' || key == 'O' || key == 'E' || key == 'U' || key == '*' || key == '-'
}

/// Converts a stroke into a number stroke
/// The center dash ('-') will not be removed
pub fn to_number_stroke(stroke: &str) -> (r: String)
    ensures
        r@ == number_stroke(stroke@),
{
    let keys = chars_of(stroke);
    let mut result: Vec<char> = Vec::new();
    let mut first_half = true;
    let mut i: usize = 0;
    while i < keys.len()
        invariant
            keys@ == stroke@,
            i <= keys.len(),
            result@ == number_stroke(stroke@).subrange(0, i as int),
            first_half == !(i > 0 && center_reached(stroke@, i - 1)),
        decreases keys.len() - i,
    {
        let key = keys[i];
        if is_center_key_exec(key) {
            first_half = false;
        }
        let mapped = if first_half {
            match key {
                'S' => '1',
                'T' => '2',
                'P' => '3',
                'H' => '4',
                k => k,
            }
        } else {
            match key {
                'A' => '5',
                'O' => '0',
                'F' => '6',
                'P' => '7',
                'L' => '8',
                'T' => '9',
                k => k,
            }
        };
        proof {
            if is_center_key(key) {
                assert(center_reached(stroke@, i as int));
            }
            if i > 0 && center_reached(stroke@, i - 1) {
                let j = choose|j: int| 0 <= j <= i - 1 && is_center_key(#[trigger] stroke@[j]);
                assert(center_reached(stroke@, i as int));
            }
            if center_reached(stroke@, i as int) && !is_center_key(key) {
                let j = choose|j: int| 0 <= j <= i && is_center_key(#[trigger] stroke@[j]);
                assert(j < i);
                assert(center_reached(stroke@, i - 1));
            }
        }
        result.push(mapped);
        i += 1;
        assert(result@ =~= number_stroke(stroke@).subrange(0, i as int));
    }
    assert(number_stroke(stroke@).subrange(0, i as int) =~= number_stroke(stroke@));
    string_from_chars(result.as_slice())
}

/// The keys of a raw stroke joined into a stroke without the number bar: the star key is put
/// between the two halves of the center keys, and a dash stands in for the center when there are
/// no center keys nor star key but there are right hand keys
pub open spec fn joined_keys(raw: RawKeys) -> Seq<char> {
    raw.left_hand + raw.center_left + (if raw.star_key {
        seq!['*']
    } else if raw.center_left.len() == 0 && raw.center_right.len() == 0
        && raw.right_hand.len() > 0 {
        seq!['-']
    } else {
        Seq::empty()
    }) + raw.center_right + raw.right_hand
}

/// The stroke a raw stroke stands for: with the number bar, keys become numbers, and a `#` is put
/// in front when no key changed
pub open spec fn raw_stroke_text(raw: RawKeys) -> Seq<char> {
    let keys = joined_keys(raw);
    if raw.num_key {
        if number_stroke(keys) == keys {
            seq!['#'] + keys
        } else {
            number_stroke(keys)
        }
    } else {
        keys
    }
}

/// Converts a raw stroke to a stroke
pub fn stroke_from_raw(raw: RawStroke) -> (s: Stroke)
    ensures
        s@ == raw_stroke_text(raw@),
{
    let mut stroke = String::new();
    push_str(&mut stroke, raw.left_hand.as_str());
    push_str(&mut stroke, raw.center_left.as_str());
    if raw.star_key {
        push_char(&mut stroke, '*');
    } else {
        // the hyphen is only used when there are no center strokes nor star key, and there are
        // keys on the right hand
        if raw.center_left.as_str().is_empty() && raw.center_right.as_str().is_empty()
            && !raw.right_hand.as_str().is_empty() {
            push_char(&mut stroke, '-');
        }
    }
    push_str(&mut stroke, raw.center_right.as_str());
    push_str(&mut stroke, raw.right_hand.as_str());
    assert(stroke@ =~= joined_keys(raw@));
    if raw.num_key {
        let number_stroke = to_number_stroke(stroke.as_str());
        if number_stroke == stroke {
            // only add the "#" sign if the stroke is the same
            // (to distinguish it from a stroke without the number key)
            let mut with_sign = String::new();
            push_char(&mut with_sign, '#');
            push_str(&mut with_sign, number_stroke.as_str());
            Stroke(with_sign)
        } else {
            Stroke(number_stroke)
        }
    } else {
        Stroke(stroke)
    }
}

impl From<RawStroke> for Stroke {
    fn from(raw: RawStroke) -> (s: Stroke)
        ensures
            s@ == raw_stroke_text(raw@),
    {
        stroke_from_raw(raw)
    }
}

/// The result of the conversion is stated on `from` itself: a stroke is a string, and no spec
/// function can build a string from its characters, so there is no `from_spec` value to name
impl vstd::std_specs::convert::FromSpecImpl<RawStroke> for Stroke {
    open spec fn obeys_from_spec() -> bool {
        false
    }

    open spec fn from_spec(raw: RawStroke) -> Stroke {
        arbitrary()
    }
}

} // verus!
