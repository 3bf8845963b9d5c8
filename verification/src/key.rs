//! Packed key chords.
//!
//! A chord is a set of keys held down together. Each key has a slot, and a
//! chord is stored as one bit per slot: the four modifiers in slots 0 to 3,
//! the letters `a` to `z` in slots 4 to 29, the digits `0` to `9` in slots 30
//! to 39.

use vstd::prelude::*;
use crate::text::{chars_of, lower_char, lowered, spells, trim_bounds, trimmed};

verus! {

/// The slot of the Ctrl key.
pub const CTRL: u64 = 0;

/// The slot of the Shift key.
pub const SHIFT: u64 = 1;

/// The slot of the Alt key.
pub const ALT: u64 = 2;

/// The slot of the Super key.
pub const SUPER: u64 = 3;

/// The slot of the letter `a`; the other letters follow in order.
pub const LETTERS: u64 = 4;

/// The slot of the digit `0`; the other digits follow in order.
pub const DIGITS: u64 = 30;

/// The number of slots.
pub const SLOTS: u64 = 40;

/// Whether bit `slot` of `repr` is set.
pub open spec fn bit(repr: u64, slot: u64) -> bool {
    slot < 64 && (repr >> slot) & 1 == 1
}

/// The bit pattern with exactly the bits of `slots` below `n` set.
pub open spec fn pack(slots: Set<int>, n: nat) -> u64
    decreases n,
{
    if n == 0 || n > 64 {
        0
    } else if slots.contains(n - 1) {
        pack(slots, (n - 1) as nat) | (1u64 << ((n - 1) as u64))
    } else {
        pack(slots, (n - 1) as nat)
    }
}

/// The bit pattern of the chord in which exactly the keys of `slots` are held.
pub open spec fn chord_of(slots: Set<int>) -> u64 {
    pack(slots, SLOTS as nat)
}

/// A chord: one bit per key that is held down.
#[derive(Debug, Clone, Copy, PartialEq, Eq, Hash, Structural)]
pub struct Key {
    pub repr: u64,
}

impl View for Key {
    type V = Set<int>;

    /// The slots of the keys that are held.
    open spec fn view(&self) -> Set<int> {
        Set::new(|slot: int| 0 <= slot < 64 && bit(self.repr, slot as u64))
    }
}

/// No bit of zero is set.
pub proof fn lemma_bit_zero(slot: u64)
    ensures
        !bit(0, slot),
{
    if slot < 64 {
        assert((0u64 >> slot) & 1 != 1) by (bit_vector);
    }
}

/// Setting bit `s` sets that bit and leaves the others as they are.
pub proof fn lemma_bit_or(x: u64, s: u64, slot: u64)
    requires
        s < 64,
    ensures
        bit(x | (1u64 << s), slot) == (bit(x, slot) || slot == s),
{
    if slot < 64 {
        assert((((x | (1u64 << s)) >> slot) & 1 == 1) == ((x >> slot) & 1 == 1 || slot == s))
            by (bit_vector)
            requires
                s < 64,
                slot < 64,
        ;
    }
}

/// Packing no key sets no bit.
pub proof fn lemma_pack_empty(n: nat)
    ensures
        pack(Set::<int>::empty(), n) == 0,
    decreases n,
{
    if 0 < n <= 64 {
        lemma_pack_empty((n - 1) as nat);
    }
}

/// The bits of `pack(slots, n)` are the slots of `slots` below `n`.
pub proof fn lemma_pack_bits(slots: Set<int>, n: nat, slot: u64)
    requires
        n <= 64,
    ensures
        bit(pack(slots, n), slot) == (slot < n && slots.contains(slot as int)),
    decreases n,
{
    if n == 0 {
        lemma_bit_zero(slot);
    } else {
        lemma_pack_bits(slots, (n - 1) as nat, slot);
        if slots.contains(n - 1) {
            lemma_bit_or(pack(slots, (n - 1) as nat), (n - 1) as u64, slot);
        }
    }
}

/// Reading the held keys back from the packed bits gives the set that was
/// packed, for every set of slots.
pub proof fn lemma_chord_round_trip(slots: Set<int>)
    requires
        forall|slot: int| slots.contains(slot) ==> 0 <= slot < SLOTS,
    ensures
        (Key { repr: chord_of(slots) })@ == slots,
{
    let key = Key { repr: chord_of(slots) };
    assert forall|slot: int| key@.contains(slot) == slots.contains(slot) by {
        if 0 <= slot < 64 {
            lemma_pack_bits(slots, SLOTS as nat, slot as u64);
        }
    }
    assert(key@ =~= slots);
}

/// No bit is set beyond the slots that were packed.
pub proof fn lemma_pack_bound(slots: Set<int>, n: nat)
    requires
        n < 64,
    ensures
        pack(slots, n) & (u64::MAX << (n as u64)) == 0,
    decreases n,
{
    if n == 0 {
        assert(0u64 & (u64::MAX << 0u64) == 0) by (bit_vector);
    } else {
        let m = (n - 1) as u64;
        let below = pack(slots, m as nat);
        lemma_pack_bound(slots, m as nat);
        assert(below & (u64::MAX << m) == 0 ==> (below | (1u64 << m)) & (u64::MAX << ((m + 1) as u64))
            == 0 && below & (u64::MAX << ((m + 1) as u64)) == 0) by (bit_vector)
            requires
                m < 63,
        ;
    }
}

/// A chord has no bit beyond its slots.
pub proof fn lemma_chord_bound(slots: Set<int>)
    ensures
        chord_of(slots) < 0x100_0000_0000,
{
    let x = chord_of(slots);
    lemma_pack_bound(slots, SLOTS as nat);
    assert(x & (u64::MAX << 40u64) == 0 ==> x < 0x100_0000_0000) by (bit_vector);
}

/// Packing the keys that are read from a bit pattern gives the pattern's bits
/// below `n`.
pub proof fn lemma_pack_view(key: Key, n: nat)
    requires
        n < 64,
    ensures
        pack(key@, n) == key.repr & !(u64::MAX << (n as u64)),
    decreases n,
{
    let x = key.repr;
    if n == 0 {
        assert(x & !(u64::MAX << 0u64) == 0) by (bit_vector);
    } else {
        let m = (n - 1) as u64;
        lemma_pack_view(key, m as nat);
        assert(key@.contains(m as int) == bit(x, m));
        assert((x >> m) & 1 == 1 ==> (x & !(u64::MAX << m)) | (1u64 << m) == x & !(u64::MAX << (
            (m + 1) as u64))) by (bit_vector)
            requires
                m < 63,
        ;
        assert((x >> m) & 1 != 1 ==> x & !(u64::MAX << m) == x & !(u64::MAX << ((m + 1) as u64)))
            by (bit_vector)
            requires
                m < 63,
        ;
    }
}

/// A chord is the packing of the keys that are held in it. So two chords with
/// the same keys are the same chord.
pub proof fn lemma_chord_of_view(key: Key)
    requires
        key.repr < 0x100_0000_0000,
    ensures
        chord_of(key@) == key.repr,
{
    let x = key.repr;
    lemma_pack_view(key, SLOTS as nat);
    assert(x & !(u64::MAX << 40u64) == x) by (bit_vector)
        requires
            x < 0x100_0000_0000,
    ;
}

/// How a key name is spelled: in small letters, without white space around it.
pub open spec fn spelling(name: Seq<char>) -> Seq<char> {
    trimmed(lowered(name))
}

/// The slot of the key that `name` names, if it names one.
///
/// A modifier goes by any of its names, a letter or a digit by itself. Case
/// does not matter, nor does white space around the name.
pub open spec fn slot_of_name(name: Seq<char>) -> Option<int> {
    let word = spelling(name);
    if word == "ctrl"@ || word == "control"@ {
        Some(CTRL as int)
    } else if word == "shift"@ {
        Some(SHIFT as int)
    } else if word == "alt"@ || word == "alternate"@ || word == "option"@ {
        Some(ALT as int)
    } else if word == "super"@ || word == "win"@ || word == "windows"@ || word == "cmd"@ || word
        == "command"@ {
        Some(SUPER as int)
    } else if word.len() == 1 && 'a' <= word[0] <= 'z' {
        Some(LETTERS + (word[0] as int - 'a' as int))
    } else if word.len() == 1 && '0' <= word[0] <= '9' {
        Some(DIGITS + (word[0] as int - '0' as int))
    } else {
        None
    }
}

/// The slots of the keys that the names of a list name. A name that names no
/// key adds nothing.
pub open spec fn named(names: Seq<Seq<char>>) -> Set<int> {
    Set::new(
        |slot: int|
            exists|i: int| 0 <= i < names.len() && #[trigger] slot_of_name(names[i]) == Some(slot),
    )
}

/// Every key has a slot below the number of slots.
pub proof fn lemma_slot_in_range(name: Seq<char>)
    ensures
        slot_of_name(name) matches Some(slot) ==> 0 <= slot < SLOTS,
{
}

/// One more name adds the key that it names.
pub proof fn lemma_named_push(names: Seq<Seq<char>>, name: Seq<char>)
    ensures
        named(names.push(name)) == match slot_of_name(name) {
            Some(slot) => named(names).insert(slot),
            None => named(names),
        },
{
    let more = names.push(name);
    let sum = match slot_of_name(name) {
        Some(slot) => named(names).insert(slot),
        None => named(names),
    };
    assert forall|slot: int| named(more).contains(slot) == sum.contains(slot) by {
        if named(more).contains(slot) {
            let i = choose|i: int|
                0 <= i < more.len() && #[trigger] slot_of_name(more[i]) == Some(slot);
            if i < names.len() {
                assert(slot_of_name(names[i]) == Some(slot));
            }
        }
        if named(names).contains(slot) {
            let i = choose|i: int|
                0 <= i < names.len() && #[trigger] slot_of_name(names[i]) == Some(slot);
            assert(slot_of_name(more[i]) == Some(slot));
        }
        if slot_of_name(name) == Some(slot) {
            assert(slot_of_name(more[names.len() as int]) == Some(slot));
        }
    }
    assert(named(more) =~= sum);
}

/// Letter case does not matter to what a name names.
pub proof fn lemma_name_any_case(a: Seq<char>, b: Seq<char>)
    requires
        lowered(a) == lowered(b),
    ensures
        slot_of_name(a) == slot_of_name(b),
{
}

/// Whether `names` has a name that differs from `name` in letter case at most.
pub open spec fn has_like(names: Seq<Seq<char>>, name: Seq<char>) -> bool {
    exists|j: int| 0 <= j < names.len() && lowered(#[trigger] names[j]) == lowered(name)
}

/// Two lists of names name the same chord when each name of either list has
/// in the other list a name that differs from it in letter case at most. So
/// the order of the names does not matter, nor their case, nor how often a
/// name comes.
pub proof fn lemma_names_any_order_any_case(a: Seq<Seq<char>>, b: Seq<Seq<char>>)
    requires
        forall|i: int| 0 <= i < a.len() ==> #[trigger] has_like(b, a[i]),
        forall|j: int| 0 <= j < b.len() ==> #[trigger] has_like(a, b[j]),
    ensures
        named(a) == named(b),
        chord_of(named(a)) == chord_of(named(b)),
{
    assert forall|slot: int| named(a).contains(slot) == named(b).contains(slot) by {
        if named(a).contains(slot) {
            let i = choose|i: int| 0 <= i < a.len() && #[trigger] slot_of_name(a[i]) == Some(slot);
            assert(has_like(b, a[i]));
            let j = choose|j: int| 0 <= j < b.len() && lowered(#[trigger] b[j]) == lowered(a[i]);
            lemma_name_any_case(a[i], b[j]);
        }
        if named(b).contains(slot) {
            let j = choose|j: int| 0 <= j < b.len() && #[trigger] slot_of_name(b[j]) == Some(slot);
            assert(has_like(a, b[j]));
            let i = choose|i: int| 0 <= i < a.len() && lowered(#[trigger] a[i]) == lowered(b[j]);
            lemma_name_any_case(b[j], a[i]);
        }
    }
    assert(named(a) =~= named(b));
}

/// One more key in the set sets the bit of its slot.
pub proof fn lemma_pack_insert(slots: Set<int>, slot: int, n: nat)
    requires
        0 <= slot < 64,
        n <= 64,
    ensures
        pack(slots.insert(slot), n) == if slot < n {
            pack(slots, n) | (1u64 << (slot as u64))
        } else {
            pack(slots, n)
        },
    decreases n,
{
    if n > 0 {
        let below = pack(slots, (n - 1) as nat);
        let top = 1u64 << ((n - 1) as u64);
        let one = 1u64 << (slot as u64);
        lemma_pack_insert(slots, slot, (n - 1) as nat);
        assert((below | one) | top == (below | top) | one) by (bit_vector);
        assert((below | top) | top == below | top) by (bit_vector);
    }
}

/// Which keys are held down, key by key.
#[derive(Debug, Clone, Copy, PartialEq, Eq)]
pub struct Pressed {
    pub ctrl: bool,
    pub shift: bool,
    pub alt: bool,
    pub meta: bool,
    /// The letters, `a` first.
    pub letters: [bool; 26],
    /// The digits, `0` first.
    pub digits: [bool; 10],
}

impl Pressed {
    /// Whether the key of `slot` is held.
    pub open spec fn holds(&self, slot: int) -> bool {
        if slot == CTRL {
            self.ctrl
        } else if slot == SHIFT {
            self.shift
        } else if slot == ALT {
            self.alt
        } else if slot == SUPER {
            self.meta
        } else if LETTERS <= slot < DIGITS {
            self.letters@[slot - LETTERS]
        } else if DIGITS <= slot < SLOTS {
            self.digits@[slot - DIGITS]
        } else {
            false
        }
    }
}

impl View for Pressed {
    type V = Set<int>;

    /// The slots of the keys that are held.
    open spec fn view(&self) -> Set<int> {
        Set::new(|slot: int| self.holds(slot))
    }
}

impl Key {
    /// The chord with no key held.
    pub fn none() -> (key: Key)
        ensures
            key.repr == 0,
            key@ == Set::<int>::empty(),
    {
        let key = Key { repr: 0 };
        proof {
            assert forall|slot: int| !key@.contains(slot) by {
                if 0 <= slot < 64 {
                    lemma_bit_zero(slot as u64);
                }
            }
            assert(key@ =~= Set::<int>::empty());
        }
        key
    }

    /// Whether a key is down by the state word that the system gives for it:
    /// the word's top bit says so. A key that cannot be read has the word zero
    /// and counts as up.
    pub fn is_down(state: i16) -> (down: bool)
        ensures
            down == (state < 0),
    {
        state < 0
    }

    /// Whether one of two keys is down by their state words. The two Super
    /// keys are one key of a chord.
    pub fn either_down(left: i16, right: i16) -> (down: bool)
        ensures
            down == (left < 0 || right < 0),
    {
        Key::is_down(left) || Key::is_down(right)
    }

    /// Whether the key of `slot` is held in this chord.
    pub fn holds(&self, slot: u64) -> (held: bool)
        ensures
            held == self@.contains(slot as int),
    {
        slot < 64 && (self.repr >> slot) & 1 == 1
    }

    /// The chord of the keys that are held in `state`.
    pub fn from_pressed(state: &Pressed) -> (key: Key)
        ensures
            key.repr == chord_of(state@),
            key@ == state@,
            key.repr < 0x100_0000_0000,
    {
        let ghost slots = state@;
        let mut repr: u64 = 0;
        assert(repr == pack(slots, 0));
        if state.ctrl {
            repr = repr | (1u64 << CTRL);
        }
        assert(repr == pack(slots, 1));
        if state.shift {
            repr = repr | (1u64 << SHIFT);
        }
        assert(repr == pack(slots, 2));
        if state.alt {
            repr = repr | (1u64 << ALT);
        }
        assert(repr == pack(slots, 3));
        if state.meta {
            repr = repr | (1u64 << SUPER);
        }
        assert(repr == pack(slots, 4));
        let mut i: usize = 0;
        while i < 26
            invariant
                i <= 26,
                slots == state@,
                repr == pack(slots, (LETTERS + i) as nat),
            decreases 26 - i,
        {
            if state.letters[i] {
                repr = repr | (1u64 << (LETTERS + i as u64));
            }
            i += 1;
        }
        let mut i: usize = 0;
        while i < 10
            invariant
                i <= 10,
                slots == state@,
                repr == pack(slots, (DIGITS + i) as nat),
            decreases 10 - i,
        {
            if state.digits[i] {
                repr = repr | (1u64 << (DIGITS + i as u64));
            }
            i += 1;
        }
        proof {
            lemma_chord_round_trip(slots);
            lemma_chord_bound(slots);
        }
        Key { repr }
    }

    /// The slot of the key that `name` names, if it names one.
    pub fn slot_of(name: &str) -> (slot: Option<u64>)
        ensures
            match slot {
                Some(found) => slot_of_name(name@) == Some(found as int),
                None => slot_of_name(name@) is None,
            },
    {
        let mut word = chars_of(name);
        let mut i: usize = 0;
        while i < word.len()
            invariant
                i <= word.len() == name@.len(),
                forall|k: int| 0 <= k < i ==> word@[k] == crate::text::lower(name@[k]),
                forall|k: int| i <= k < word.len() ==> word@[k] == name@[k],
            decreases word.len() - i,
        {
            let c = lower_char(word[i]);
            word[i] = c;
            i += 1;
        }
        assert(word@ == lowered(name@));
        let (from, to) = trim_bounds(&word);
        let ghost spelled = word@.subrange(from as int, to as int);
        assert(spelled == spelling(name@));
        if spells(&word, from, to, "ctrl") || spells(&word, from, to, "control") {
            Some(CTRL)
        } else if spells(&word, from, to, "shift") {
            Some(SHIFT)
        } else if spells(&word, from, to, "alt") || spells(&word, from, to, "alternate") || spells(
            &word,
            from,
            to,
            "option",
        ) {
            Some(ALT)
        } else if spells(&word, from, to, "super") || spells(&word, from, to, "win") || spells(
            &word,
            from,
            to,
            "windows",
        ) || spells(&word, from, to, "cmd") || spells(&word, from, to, "command") {
            Some(SUPER)
        } else if to - from == 1 {
            let c = word[from];
            assert(c == spelled[0]);
            if 'a' <= c && c <= 'z' {
                Some(LETTERS + (c as u64 - 'a' as u64))
            } else if '0' <= c && c <= '9' {
                Some(DIGITS + (c as u64 - '0' as u64))
            } else {
                None
            }
        } else {
            None
        }
    }

    /// The chord of the keys that a list of names names.
    ///
    /// A name that names no key is passed over, and the rest of the chord is
    /// still built.
    pub fn from_names(key_names: Vec<String>) -> (key: Key)
        ensures
            key.repr == chord_of(named(key_names.deep_view())),
            key@ == named(key_names.deep_view()),
            key.repr < 0x100_0000_0000,
    {
        let ghost names = key_names.deep_view();
        let mut repr: u64 = 0;
        let mut i: usize = 0;
        proof {
            assert(named(names.take(0)) =~= Set::<int>::empty());
            lemma_pack_empty(SLOTS as nat);
        }
        while i < key_names.len()
            invariant
                i <= key_names.len(),
                names == key_names.deep_view(),
                repr == chord_of(named(names.take(i as int))),
            decreases key_names.len() - i,
        {
            let slot = Key::slot_of(key_names[i].as_str());
            proof {
                assert(names.take(i + 1) == names.take(i as int).push(names[i as int]));
                lemma_named_push(names.take(i as int), names[i as int]);
                lemma_slot_in_range(names[i as int]);
            }
            match slot {
                Some(found) => {
                    proof {
                        lemma_pack_insert(named(names.take(i as int)), found as int, SLOTS as nat);
                    }
                    repr = repr | (1u64 << found);
                },
                None => {},
            }
            i += 1;
        }
        proof {
            assert(names.take(i as int) == names);
            assert forall|slot: int| named(names).contains(slot) implies 0 <= slot < SLOTS by {
                let k = choose|k: int|
                    0 <= k < names.len() && #[trigger] slot_of_name(names[k]) == Some(slot);
                lemma_slot_in_range(names[k]);
            }
            lemma_chord_round_trip(named(names));
            lemma_chord_bound(named(names));
        }
        Key { repr }
    }

    /// The keys that are held in this chord, key by key. Bits beyond the last
    /// slot stand for no key.
    pub fn pressed(&self) -> (state: Pressed)
        ensures
            forall|slot: int| state@.contains(slot) == (self@.contains(slot) && slot < SLOTS),
    {
        let mut letters = [false; 26];
        let mut i: usize = 0;
        while i < 26
            invariant
                i <= 26,
                forall|k: int| 0 <= k < i ==> letters@[k] == self@.contains(LETTERS + k),
            decreases 26 - i,
        {
            letters[i] = self.holds(LETTERS + i as u64);
            i += 1;
        }
        let mut digits = [false; 10];
        let mut i: usize = 0;
        while i < 10
            invariant
                i <= 10,
                forall|k: int| 0 <= k < i ==> digits@[k] == self@.contains(DIGITS + k),
            decreases 10 - i,
        {
            digits[i] = self.holds(DIGITS + i as u64);
            i += 1;
        }
        Pressed {
            ctrl: self.holds(CTRL),
            shift: self.holds(SHIFT),
            alt: self.holds(ALT),
            meta: self.holds(SUPER),
            letters,
            digits,
        }
    }
}

} // verus!
