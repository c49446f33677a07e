//! The engine's vocabulary shared by the games: colors, keys, input events,
//! the set of held keys, and the traits a game's parts implement.
use std::time::Duration;
use vstd::prelude::*;

verus! {

/// A drawing color: a packed `0xRRGGBB` value or one of the named colors.
#[derive(Clone, Copy, PartialEq, Eq, Structural, Debug)]
pub enum Color {
    Hex(u32),
    White,
    Green,
    Red,
    Cyan,
    Black,
}

/// The red, green and blue channels of a color.
pub open spec fn color_channels(c: Color) -> (u8, u8, u8) {
    match c {
        Color::Hex(v) => (((v / 65536) % 256) as u8, ((v / 256) % 256) as u8, (v % 256) as u8),
        Color::White => (255, 255, 255),
        Color::Green => (0, 255, 0),
        Color::Red => (255, 0, 0),
        Color::Cyan => (0, 255, 255),
        Color::Black => (0, 0, 0),
    }
}

/// The channels of a packed color put back together give its low 24 bits,
/// so no bit of `0xRRGGBB` is lost or moved; and each named color has the
/// channels of its usual packed value.
pub proof fn lemma_channels_repack(v: u32)
    ensures
        ({
            let c = color_channels(Color::Hex(v));
            c.0 * 65536 + c.1 * 256 + c.2 == v % 16777216
        }),
        color_channels(Color::White) == color_channels(Color::Hex(0xffffff)),
        color_channels(Color::Green) == color_channels(Color::Hex(0x00ff00)),
        color_channels(Color::Red) == color_channels(Color::Hex(0xff0000)),
        color_channels(Color::Cyan) == color_channels(Color::Hex(0x00ffff)),
        color_channels(Color::Black) == color_channels(Color::Hex(0x000000)),
{
    assert(((v / 65536) % 256) * 65536 + ((v / 256) % 256) * 256 + v % 256 == v % 16777216) by (bit_vector);
    let c = color_channels(Color::Hex(v));
    assert(c.0 == (v / 65536) % 256);
    assert(c.1 == (v / 256) % 256);
    assert(c.2 == v % 256);
}

impl Color {
    /// The red, green and blue channels: a packed value is split into its
    /// bytes `0xRRGGBB` (the top byte is ignored); the named colors are the
    /// usual full-intensity ones.
    pub fn rgb(self) -> (r: (u8, u8, u8))
        ensures
            r == color_channels(self),
            self matches Color::Hex(v) ==> r.0 * 65536 + r.1 * 256 + r.2 == v % 16777216,
    {
        proof {
            if let Color::Hex(v) = self {
                lemma_channels_repack(v);
            }
        }
        match self {
            Color::Hex(v) => {
                let red = ((v >> 16) & 0xff) as u8;
                let green = ((v >> 8) & 0xff) as u8;
                let blue = (v & 0xff) as u8;
                assert(((v >> 16) & 0xff) == (v / 65536) % 256) by (bit_vector);
                assert(((v >> 8) & 0xff) == (v / 256) % 256) by (bit_vector);
                assert((v & 0xff) == v % 256) by (bit_vector);
                (red, green, blue)
            },
            Color::White => (255, 255, 255),
            Color::Green => (0, 255, 0),
            Color::Red => (255, 0, 0),
            Color::Cyan => (0, 255, 255),
            Color::Black => (0, 0, 0),
        }
    }
}

/// A key the games react to.
#[derive(Clone, Copy, PartialEq, Eq, Structural, Debug, Hash)]
pub enum Key {
    Left,
    Right,
    Up,
    Down,
    W,
    A,
    S,
    D,
    LShift,
    LCtrl,
}

/// An input event handed to a game.
#[derive(Clone, Copy, PartialEq, Eq, Structural, Debug)]
pub enum Event {
    KeyDown { key: Key },
    KeyUp { key: Key },
}

/// The set of keys held down, kept as a vector in which no key occurs twice.
/// vstd specifies `HashSet<K>` only for keys with `obeys_key_model::<K>()`,
/// which it grants to integers and booleans and not to an enum with a
/// derived `Hash` such as `Key`; so the set is kept as a vector without
/// repeats, whose view is the set of its elements.
pub struct KeySet {
    keys: Vec<Key>,
}

impl View for KeySet {
    type V = Set<Key>;

    closed spec fn view(&self) -> Set<Key> {
        self.keys@.to_set()
    }
}

impl KeySet {
    #[verifier::type_invariant]
    spec fn inv(self) -> bool {
        self.keys@.no_duplicates()
    }

    /// An empty set.
    pub fn new() -> (r: KeySet)
        ensures
            r@ == Set::<Key>::empty(),
    {
        let r = KeySet { keys: Vec::new() };
        assert(r.keys@.to_set() =~= Set::<Key>::empty());
        r
    }

    fn position(&self, key: Key) -> (r: Option<usize>)
        ensures
            match r {
                Some(i) => i < self.keys@.len() && self.keys@[i as int] == key,
                None => !self.keys@.contains(key),
            },
    {
        let mut i: usize = 0;
        while i < self.keys.len()
            invariant
                i <= self.keys@.len(),
                forall|k: int| 0 <= k < i ==> self.keys@[k] != key,
            decreases self.keys@.len() - i,
        {
            if self.keys[i] == key {
                return Some(i);
            }
            i = i + 1;
        }
        None
    }

    /// Whether `key` is held.
    pub fn contains(&self, key: &Key) -> (r: bool)
        ensures
            r == self@.contains(*key),
    {
        let p = self.position(*key);
        proof {
            if self.keys@.contains(*key) {
                assert(self.keys@.to_set().contains(*key));
            }
        }
        p.is_some()
    }

    /// Adds `key`; returns whether it was not held before.
    pub fn insert(&mut self, key: Key) -> (r: bool)
        ensures
            r == !old(self)@.contains(key),
            final(self)@ == old(self)@.insert(key),
    {
        proof { use_type_invariant(&*self); }
        match self.position(key) {
            Some(_) => {
                proof {
                    assert(self.keys@.to_set().insert(key) =~= self.keys@.to_set());
                }
                false
            },
            None => {
                let ghost before = self.keys@;
                assert((before.push(key)).no_duplicates()) by {
                    assert forall|a: int, b: int| 0 <= a < b < before.len() + 1 implies before.push(key)[a] != before.push(key)[b] by {
                        if b == before.len() {
                            assert(before.contains(before[a]));
                        }
                    }
                }
                let mut keys: Vec<Key> = Vec::new();
                std::mem::swap(&mut keys, &mut self.keys);
                keys.push(key);
                self.keys = keys;
                proof {
                    assert(self.keys@ == before.push(key));
                    assert(before.push(key) =~= before + seq![key]);
                    Seq::lemma_to_set_insert_commutes(before, key);
                    assert(self.keys@.to_set() =~= before.to_set().insert(key));
                }
                true
            },
        }
    }

    /// Removes `key`; returns whether it was held.
    pub fn remove(&mut self, key: &Key) -> (r: bool)
        ensures
            r == old(self)@.contains(*key),
            final(self)@ == old(self)@.remove(*key),
    {
        proof { use_type_invariant(&*self); }
        match self.position(*key) {
            Some(i) => {
                let ghost before = self.keys@;
                assert(before.remove(i as int).no_duplicates()) by {
                    let s = before.remove(i as int);
                    assert forall|a: int, b: int| 0 <= a < b < s.len() implies s[a] != s[b] by {
                        let a0 = if a < i { a } else { a + 1 };
                        let b0 = if b < i { b } else { b + 1 };
                        assert(s[a] == before[a0] && s[b] == before[b0]);
                    }
                }
                let mut keys: Vec<Key> = Vec::new();
                std::mem::swap(&mut keys, &mut self.keys);
                keys.remove(i);
                self.keys = keys;
                proof {
                    let s = self.keys@;
                    assert(s == before.remove(i as int));
                    assert forall|x: Key| s.to_set().contains(x) <==> before.to_set().remove(*key).contains(x) by {
                        if s.contains(x) {
                            let k = choose|k: int| 0 <= k < s.len() && s[k] == x;
                            let k0 = if k < i { k } else { k + 1 };
                            assert(before[k0] == x);
                            assert(k0 != i);
                        }
                        if before.contains(x) && x != *key {
                            let k = choose|k: int| 0 <= k < before.len() && before[k] == x;
                            assert(k != i);
                            let k1 = if k < i { k } else { k - 1 };
                            assert(s[k1] == x);
                        }
                    }
                    assert(s.to_set() =~= before.to_set().remove(*key));
                    assert(before.to_set().contains(*key));
                }
                true
            },
            None => {
                proof {
                    assert(self.keys@.to_set().remove(*key) =~= self.keys@.to_set());
                }
                false
            },
        }
    }

    /// Applies an input event: a pressed key becomes held, a released key
    /// stops being held.
    pub fn apply(&mut self, event: Event)
        ensures
            match event {
                Event::KeyDown { key } => final(self)@ == old(self)@.insert(key),
                Event::KeyUp { key } => final(self)@ == old(self)@.remove(key),
            },
    {
        match event {
            Event::KeyDown { key } => {
                self.insert(key);
            },
            Event::KeyUp { key } => {
                self.remove(&key);
            },
        }
    }
}

/// An engine error, carrying its message.
#[derive(PartialEq, Eq, Debug)]
pub struct Error {
    pub message: String,
}

/// A part of a game that is told when it is added, on each update and when
/// it is removed; each hook may fail. The provided hooks do nothing and
/// succeed.
pub trait System {
    fn on_add(&self) -> (r: Result<(), Error>)
        default_ensures
            r is Ok,
    {
        Ok(())
    }

    fn on_update(&self) -> (r: Result<(), Error>)
        default_ensures
            r is Ok,
    {
        Ok(())
    }

    fn on_remove(&self) -> (r: Result<(), Error>)
        default_ensures
            r is Ok,
    {
        Ok(())
    }
}

/// A kind of game object: it advances by a time step and draws itself.
pub trait GameObject {
    fn update(delta_time: Duration);

    fn render();
}

} // verus!
