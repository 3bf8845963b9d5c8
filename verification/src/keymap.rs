//! The table from chords to commands, and the records it is built from.

use std::collections::HashMap;
use vstd::prelude::*;
use crate::key::{chord_of, named, Key};

verus! {

/// One record of the configuration: the names of the keys of a chord, and the
/// command that the chord runs.
#[derive(Debug, Clone)]
pub struct Keybind {
    pub keys: Vec<String>,
    pub script: String,
}

impl Keybind {
    /// The chord that the record's key names name.
    pub open spec fn chord(&self) -> Key {
        Key { repr: chord_of(named(self.keys.deep_view())) }
    }
}

/// What a list of records binds: each chord to the command of the last record
/// that names it.
pub open spec fn bound(keybinds: Seq<Keybind>) -> Map<Key, Seq<char>>
    decreases keybinds.len(),
{
    if keybinds.len() == 0 {
        Map::empty()
    } else {
        bound(keybinds.drop_last()).insert(keybinds.last().chord(), keybinds.last().script@)
    }
}

/// A chord is bound exactly when some record names it, and then to the
/// command of the last record that does.
pub proof fn lemma_last_binding_wins(keybinds: Seq<Keybind>, key: Key)
    ensures
        bound(keybinds).contains_key(key) <==> exists|i: int|
            0 <= i < keybinds.len() && #[trigger] keybinds[i].chord() == key,
        forall|i: int|
            0 <= i < keybinds.len() && #[trigger] keybinds[i].chord() == key && (forall|j: int|
                i < j < keybinds.len() ==> #[trigger] keybinds[j].chord() != key) ==> bound(
                keybinds,
            )[key] == keybinds[i].script@,
    decreases keybinds.len(),
{
    if keybinds.len() > 0 {
        let front = keybinds.drop_last();
        let last = keybinds.len() - 1;
        lemma_last_binding_wins(front, key);
        if bound(front).contains_key(key) {
            let i = choose|i: int| 0 <= i < front.len() && #[trigger] front[i].chord() == key;
            assert(keybinds[i].chord() == key);
        }
        if keybinds[last].chord() != key && bound(keybinds).contains_key(key) {
            assert(bound(front).contains_key(key));
        }
        assert forall|i: int|
            0 <= i < keybinds.len() && #[trigger] keybinds[i].chord() == key && (forall|j: int|
                i < j < keybinds.len() ==> #[trigger] keybinds[j].chord() != key) implies bound(
            keybinds,
        )[key] == keybinds[i].script@ by {
            if i < last {
                assert(keybinds[last].chord() != key);
                assert(front[i].chord() == key);
                assert forall|j: int| i < j < front.len() implies #[trigger] front[j].chord()
                    != key by {
                    assert(keybinds[j].chord() != key);
                }
            }
        }
        if exists|i: int| 0 <= i < keybinds.len() && #[trigger] keybinds[i].chord() == key {
            let i = choose|i: int| 0 <= i < keybinds.len() && #[trigger] keybinds[i].chord() == key;
            if i < last {
                assert(front[i].chord() == key);
            }
        }
    }
}

/// The table from chords to commands.
#[derive(Debug, Clone)]
pub struct Keymap(pub HashMap<u64, String>);

impl View for Keymap {
    type V = Map<Key, Seq<char>>;

    /// The command of each bound chord.
    open spec fn view(&self) -> Map<Key, Seq<char>> {
        Map::new(|key: Key| self.0@.contains_key(key.repr), |key: Key| self.0@[key.repr]@)
    }
}

impl Keymap {
    /// The table that binds nothing.
    pub fn new() -> (map: Keymap)
        ensures
            map@ == Map::<Key, Seq<char>>::empty(),
    {
        let map = Keymap(HashMap::new());
        assert(map@ =~= Map::<Key, Seq<char>>::empty());
        map
    }

    /// Binds `key` to `script`, and returns the command that `key` was bound
    /// to before.
    pub fn insert(&mut self, key: Key, script: String) -> (before: Option<String>)
        ensures
            final(self)@ == old(self)@.insert(key, script@),
            match before {
                Some(was) => old(self)@.contains_key(key) && old(self)@[key] == was@,
                None => !old(self)@.contains_key(key),
            },
    {
        broadcast use vstd::std_specs::hash::group_hash_axioms;

        let before = self.0.insert(key.repr, script);
        assert(self@ =~= old(self)@.insert(key, script@));
        before
    }

    /// The command that `key` is bound to.
    pub fn get(&self, key: &Key) -> (script: Option<&String>)
        ensures
            match script {
                Some(found) => self@.contains_key(*key) && self@[*key] == found@,
                None => !self@.contains_key(*key),
            },
    {
        broadcast use vstd::std_specs::hash::group_hash_axioms;

        self.0.get(&key.repr)
    }

    /// The number of bound chords.
    pub fn len(&self) -> (n: usize)
        ensures
            n == self@.len(),
    {
        broadcast use vstd::std_specs::hash::group_hash_axioms;

        proof {
            let chord = |repr: u64| Key { repr };
            assert forall|key: Key| self.0@.dom().map(chord).contains(key) == self@.dom().contains(
                key,
            ) by {
                if self@.dom().contains(key) {
                    assert(self.0@.dom().contains(key.repr) && key == chord(key.repr));
                }
            }
            assert(self.0@.dom().map(chord) =~= self@.dom());
            vstd::set_lib::lemma_map_size(self.0@.dom(), self@.dom(), chord);
        }
        self.0.len()
    }

    /// The table that a list of records binds.
    pub fn from_keybinds(keybinds: Vec<Keybind>) -> (map: Keymap)
        ensures
            map@ == bound(keybinds@),
    {
        let mut map = Keymap::new();
        for keybind in it: keybinds
            invariant
                it.seq() == keybinds@,
                map@ == bound(keybinds@.take(it.index())),
        {
            proof {
                let read = keybinds@.take(it.index() + 1);
                assert(read.drop_last() == keybinds@.take(it.index()));
                assert(read.last() == keybind);
            }
            let key = Key::from_names(keybind.keys);
            map.insert(key, keybind.script);
        }
        assert(keybinds@.take(keybinds@.len() as int) == keybinds@);
        map
    }
}

} // verus!
