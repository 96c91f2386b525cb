//! The keyboard used as a steno machine: keys pressed together form a stroke, which is complete
//! once every key is released again.
use crate::base::decode::str_eq;
use crate::base::stroke::Stroke;
use crate::text::string_from_chars;
use vstd::prelude::*;

verus! {

/// A key of the keyboard, by the name the keyboard listener gives it
#[derive(Debug, PartialEq, Eq, Hash)]
pub struct Key(String);

impl View for Key {
    type V = Seq<char>;

    closed spec fn view(&self) -> Seq<char> {
        self.0@
    }
}

impl Key {
    /// The key with this name
    pub fn new(name: &str) -> (k: Self)
        ensures
            k@ == name@,
    {
        Self(name.to_owned())
    }

    /// Whether two keys are the same
    pub fn same(&self, other: &Key) -> (b: bool)
        ensures
            b == (self@ == other@),
    {
        str_eq(self.0.as_str(), other.0.as_str())
    }
}

impl Clone for Key {
    fn clone(&self) -> (r: Self)
        ensures
            r@ == self@,
    {
        Key(self.0.clone())
    }
}

/// The names of keys
pub open spec fn names(v: Seq<Key>) -> Seq<Seq<char>> {
    v.map_values(|k: Key| k@)
}

/// The set of the names of keys
pub open spec fn key_set(v: Seq<Key>) -> Set<Seq<char>> {
    names(v).to_set()
}

/// A mapping from hardware keys to chars to build a stroke
pub struct Layout {
    /// left hand keys
    pub left_keys: Vec<(Key, char)>,
    /// if no center key is present and there are right_keys, a dash (`-`) is inserted
    pub center_keys: Vec<(Key, char)>,
    /// right hand keys
    pub right_keys: Vec<(Key, char)>,
}

/// The value of a layout: for each part, the names of the keys with the letters they stand for
pub struct LayoutV {
    pub left: Seq<(Seq<char>, char)>,
    pub center: Seq<(Seq<char>, char)>,
    pub right: Seq<(Seq<char>, char)>,
}

/// The names of the keys of a part of a layout, with their letters
pub open spec fn pairs_view(v: Seq<(Key, char)>) -> Seq<(Seq<char>, char)> {
    v.map_values(|p: (Key, char)| (p.0@, p.1))
}

impl View for Layout {
    type V = LayoutV;

    open spec fn view(&self) -> LayoutV {
        LayoutV {
            left: pairs_view(self.left_keys@),
            center: pairs_view(self.center_keys@),
            right: pairs_view(self.right_keys@),
        }
    }
}

/// Steno keys on a QWERTY keyboard: the left hand on the home and top rows, vowels on the bottom
/// row, the star in the middle and the right hand from `U` to `'`
pub open spec fn steno_qwerty_spec() -> LayoutV {
    LayoutV {
        left: seq![
            ("KeyQ"@, 'S'),
            ("KeyA"@, 'S'),
            ("KeyW"@, 'T'),
            ("KeyS"@, 'K'),
            ("KeyE"@, 'P'),
            ("KeyD"@, 'W'),
            ("KeyR"@, 'H'),
            ("KeyF"@, 'R'),
        ],
        center: seq![
            ("KeyC"@, 'A'),
            ("KeyV"@, 'O'),
            ("KeyT"@, '*'),
            ("KeyG"@, '*'),
            ("KeyY"@, '*'),
            ("KeyH"@, '*'),
            ("KeyN"@, 'E'),
            ("KeyM"@, 'U'),
        ],
        right: seq![
            ("KeyU"@, 'F'),
            ("KeyJ"@, 'R'),
            ("KeyI"@, 'P'),
            ("KeyK"@, 'B'),
            ("KeyO"@, 'L'),
            ("KeyL"@, 'G'),
            ("KeyP"@, 'T'),
            ("SemiColon"@, 'S'),
            ("LeftBracket"@, 'D'),
            ("Quote"@, 'Z'),
        ],
    }
}

impl Layout {
    /// Steno keys on a QWERTY keyboard
    pub fn steno_querty() -> (l: Self)
        ensures
            l@ == steno_qwerty_spec(),
    {
        let l = Self {
            left_keys: vec![
                (Key::new("KeyQ"), 'S'),
                (Key::new("KeyA"), 'S'),
                (Key::new("KeyW"), 'T'),
                (Key::new("KeyS"), 'K'),
                (Key::new("KeyE"), 'P'),
                (Key::new("KeyD"), 'W'),
                (Key::new("KeyR"), 'H'),
                (Key::new("KeyF"), 'R'),
            ],
            center_keys: vec![
                (Key::new("KeyC"), 'A'),
                (Key::new("KeyV"), 'O'),
                (Key::new("KeyT"), '*'),
                (Key::new("KeyG"), '*'),
                (Key::new("KeyY"), '*'),
                (Key::new("KeyH"), '*'),
                (Key::new("KeyN"), 'E'),
                (Key::new("KeyM"), 'U'),
            ],
            right_keys: vec![
                (Key::new("KeyU"), 'F'),
                (Key::new("KeyJ"), 'R'),
                (Key::new("KeyI"), 'P'),
                (Key::new("KeyK"), 'B'),
                (Key::new("KeyO"), 'L'),
                (Key::new("KeyL"), 'G'),
                (Key::new("KeyP"), 'T'),
                (Key::new("SemiColon"), 'S'),
                (Key::new("LeftBracket"), 'D'),
                (Key::new("Quote"), 'Z'),
            ],
        };
        assert(l@.left =~= steno_qwerty_spec().left);
        assert(l@.center =~= steno_qwerty_spec().center);
        assert(l@.right =~= steno_qwerty_spec().right);
        l
    }
}

/// The letters of the keys of a part of a layout that are pressed, in the order of the layout,
/// each letter once
pub open spec fn collect(pairs: Seq<(Seq<char>, char)>, keys: Set<Seq<char>>) -> Seq<char>
    decreases pairs.len(),
{
    if pairs.len() == 0 {
        Seq::empty()
    } else {
        let prev = collect(pairs.drop_last(), keys);
        if keys.contains(pairs.last().0) && !prev.contains(pairs.last().1) {
            prev.push(pairs.last().1)
        } else {
            prev
        }
    }
}

/// The stroke of the pressed keys: the left, center and right letters, with a dash in the center
/// when there are right letters and no center ones; none when no key of the layout is pressed
pub open spec fn convert_spec(layout: LayoutV, keys: Set<Seq<char>>) -> Option<Seq<char>> {
    let left = collect(layout.left, keys);
    let center = collect(layout.center, keys);
    let right = collect(layout.right, keys);
    let middle = if center.len() == 0 && right.len() > 0 {
        seq!['-']
    } else {
        center
    };
    let result = left + middle + right;
    if result.len() == 0 {
        None
    } else {
        Some(result)
    }
}

/// Whether a key is among the keys
pub fn has_key(keys: &Vec<Key>, key: &Key) -> (b: bool)
    ensures
        b == key_set(keys@).contains(key@),
{
    let mut i: usize = 0;
    while i < keys.len()
        invariant
            i <= keys.len(),
            forall|j: int| 0 <= j < i ==> names(keys@)[j] != key@,
        decreases keys.len() - i,
    {
        if keys[i].same(key) {
            assert(names(keys@)[i as int] == key@);
            return true;
        }
        i += 1;
    }
    false
}

fn has_char(v: &Vec<char>, c: char) -> (b: bool)
    ensures
        b == v@.contains(c),
{
    let mut i: usize = 0;
    while i < v.len()
        invariant
            i <= v.len(),
            forall|j: int| 0 <= j < i ==> v@[j] != c,
        decreases v.len() - i,
    {
        if v[i] == c {
            return true;
        }
        i += 1;
    }
    false
}

fn collect_exec(pairs: &Vec<(Key, char)>, keys: &Vec<Key>) -> (r: Vec<char>)
    ensures
        r@ == collect(pairs_view(pairs@), key_set(keys@)),
{
    let ghost all = pairs_view(pairs@);
    let mut r: Vec<char> = Vec::new();
    let mut i: usize = 0;
    while i < pairs.len()
        invariant
            i <= pairs.len(),
            all == pairs_view(pairs@),
            r@ == collect(all.take(i as int), key_set(keys@)),
        decreases pairs.len() - i,
    {
        let (k, c) = &pairs[i];
        proof {
            assert(all.take(i + 1).drop_last() =~= all.take(i as int));
            assert(all.take(i + 1).last() == (k@, *c));
        }
        // add it to the string, but don't add it twice
        if has_key(keys, k) && !has_char(&r, *c) {
            r.push(*c);
        }
        i += 1;
    }
    assert(all.take(i as int) =~= all);
    r
}

/// Converts pressed keys to a stroke based on the layout. Returns None if none of the keys
/// pressed could be mapped to a stroke key
pub fn convert_stroke(layout: &Layout, keys: &Vec<Key>) -> (r: Option<Stroke>)
    ensures
        match r {
            Some(s) => convert_spec(layout@, key_set(keys@)) == Some(s@),
            None => convert_spec(layout@, key_set(keys@)) is None,
        },
{
    // check each key in the layout to see it exists
    let left = collect_exec(&layout.left_keys, keys);
    // same thing for center
    let mut center = collect_exec(&layout.center_keys, keys);
    // same thing for right
    let right = collect_exec(&layout.right_keys, keys);
    // put a dash if there is no center and there are right keys
    if center.len() == 0 && right.len() > 0 {
        center = vec!['-'];
    }
    let mut result = left;
    let mut c = center;
    let mut r = right;
    result.append(&mut c);
    result.append(&mut r);
    if result.len() == 0 {
        None
    } else {
        let s = string_from_chars(result.as_slice());
        Some(Stroke::new(s.as_str()))
    }
}

/// The keys with every key of a name taken out
pub open spec fn without_key(s: Seq<Key>, name: Seq<char>) -> Seq<Key>
    decreases s.len(),
{
    if s.len() == 0 {
        s
    } else {
        let r = without_key(s.drop_last(), name);
        if s.last()@ == name {
            r
        } else {
            r.push(s.last())
        }
    }
}

proof fn lemma_key_set_push(s: Seq<Key>, k: Key)
    ensures
        key_set(s.push(k)) == key_set(s).insert(k@),
{
    assert(names(s.push(k)) =~= names(s).push(k@));
    names(s).lemma_push_to_set_commute(k@);
}

proof fn lemma_without_key(s: Seq<Key>, name: Seq<char>)
    ensures
        key_set(without_key(s, name)) == key_set(s).remove(name),
    decreases s.len(),
{
    if s.len() == 0 {
        assert(key_set(s) =~= Set::<Seq<char>>::empty());
        assert(key_set(without_key(s, name)) =~= key_set(s).remove(name));
    } else {
        let t = s.drop_last();
        lemma_without_key(t, name);
        lemma_key_set_push(t, s.last());
        assert(t.push(s.last()) =~= s);
        if s.last()@ != name {
            lemma_key_set_push(without_key(t, name), s.last());
            assert(key_set(without_key(s, name)) =~= key_set(s).remove(name));
        } else {
            assert(key_set(without_key(s, name)) =~= key_set(s).remove(name));
        }
    }
}

fn remove_key(keys: &Vec<Key>, key: &Key) -> (r: Vec<Key>)
    ensures
        key_set(r@) == key_set(keys@).remove(key@),
{
    let mut r: Vec<Key> = Vec::new();
    let mut i: usize = 0;
    while i < keys.len()
        invariant
            i <= keys.len(),
            names(r@) == names(without_key(keys@.take(i as int), key@)),
        decreases keys.len() - i,
    {
        assert(keys@.take(i + 1).drop_last() =~= keys@.take(i as int));
        let ghost before = r@;
        if !keys[i].same(key) {
            let k = keys[i].clone();
            r.push(k);
            assert(names(r@) =~= names(before).push(keys@[i as int]@));
            assert(names(without_key(keys@.take(i + 1), key@)) =~= names(
                without_key(keys@.take(i as int), key@),
            ).push(keys@[i as int]@));
        }
        i += 1;
    }
    assert(keys@.take(i as int) =~= keys@);
    proof {
        lemma_without_key(keys@, key@);
    }
    r
}

fn insert_key(keys: &mut Vec<Key>, key: Key)
    ensures
        key_set(final(keys)@) == key_set(old(keys)@).insert(key@),
{
    if has_key(keys, &key) {
        assert(key_set(keys@).insert(key@) =~= key_set(keys@));
    } else {
        proof {
            lemma_key_set_push(keys@, key);
        }
        keys.push(key);
    }
}

/// Listen to the keyboard as a steno machine
///
/// Only 1 keyboard machine should be created at a time.
pub struct KeyboardMachine {
    down_keys: Vec<Key>,
    up_keys: Vec<Key>,
    stroke: Option<Stroke>,
}

/// The value of a keyboard machine: the keys held down, the keys released since the last stroke,
/// and the stroke formed and not yet taken
pub struct MachineV {
    pub down: Set<Seq<char>>,
    pub up: Set<Seq<char>>,
    pub stroke: Option<Seq<char>>,
}

impl View for KeyboardMachine {
    type V = MachineV;

    closed spec fn view(&self) -> MachineV {
        MachineV {
            down: key_set(self.down_keys@),
            up: key_set(self.up_keys@),
            stroke: match self.stroke {
                Some(s) => Some(s@),
                None => None,
            },
        }
    }
}

/// The machine after a key is pressed or released: a released key ends the stroke once no key is
/// down anymore, and the stroke is then formed from the keys released since the last one
pub open spec fn handle_key_spec(m: MachineV, key: Seq<char>, is_down: bool) -> MachineV {
    if is_down {
        MachineV { down: m.down.insert(key), ..m }
    } else {
        let down = m.down.remove(key);
        let up = m.up.insert(key);
        if down.is_empty() {
            MachineV { down, up: Set::empty(), stroke: convert_spec(steno_qwerty_spec(), up) }
        } else {
            MachineV { down, up, stroke: m.stroke }
        }
    }
}

/// Whether a key event would end a stroke while the last one has not been taken yet
pub open spec fn overruns(m: MachineV, key: Seq<char>, is_down: bool) -> bool {
    !is_down && m.down.remove(key).is_empty() && m.stroke is Some
}

impl KeyboardMachine {
    pub fn new() -> (m: Self)
        ensures
            m@.down == Set::<Seq<char>>::empty(),
            m@.up == Set::<Seq<char>>::empty(),
            m@.stroke is None,
    {
        let m = Self { down_keys: Vec::new(), up_keys: Vec::new(), stroke: None };
        assert(key_set(m.down_keys@) =~= Set::<Seq<char>>::empty());
        m
    }

    /// Handles a key pressed down or up
    pub fn handle_key(&mut self, key: Key, is_down: bool)
        requires
            !overruns(old(self)@, key@, is_down),
        ensures
            final(self)@ == handle_key_spec(old(self)@, key@, is_down),
    {
        if is_down {
            insert_key(&mut self.down_keys, key);
        } else {
            let down = remove_key(&self.down_keys, &key);
            self.down_keys = down;
            let ghost name = key@;
            insert_key(&mut self.up_keys, key);
            // this stroke has ended once all the keys are up
            if self.down_keys.len() == 0 {
                assert(key_set(self.down_keys@) =~= Set::<Seq<char>>::empty());
                let stroke = convert_stroke(&Layout::steno_querty(), &self.up_keys);
                self.stroke = stroke;
                self.up_keys.clear();
                assert(key_set(self.up_keys@) =~= Set::<Seq<char>>::empty());
            } else {
                assert(names(self.down_keys@)[0] == self.down_keys@[0]@);
                assert(key_set(self.down_keys@).contains(self.down_keys@[0]@));
            }
        }
    }

    /// Returns the stroke that has been formed or None if the stroke is not ready yet.
    /// This moves the stroke out of the machine.
    pub fn get_stroke(&mut self) -> (r: Option<Stroke>)
        ensures
            match r {
                Some(s) => old(self)@.stroke == Some(s@),
                None => old(self)@.stroke is None,
            },
            final(self)@ == (MachineV { stroke: None, ..old(self)@ }),
    {
        self.stroke.take()
    }
}

} // verus!
