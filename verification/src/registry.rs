//! The registry: which callback each key is bound to.

use crate::callback::{share, FormatterCallback};
use crate::text::Text;
use fnv::FnvHashMap;
use smartstring::{LazyCompact, SmartString};
use vstd::prelude::*;

verus! {

/// For each key the slot in which its callback is kept: an `FnvHashMap` from
/// compact strings to slot numbers. Proofs do not look inside: the map's
/// entries are named by [`slots`], and the three private functions at the end
/// of this file state, without proof, what the map's operations do to them.
#[verifier::external_body]
pub struct KeyIndex {
    map: FnvHashMap<SmartString<LazyCompact>, usize>,
}

/// The entries of a [`KeyIndex`]: from a key's characters to its slot.
pub uninterp spec fn slots(index: KeyIndex) -> Map<Seq<char>, usize>;

/// A mapping from keys to callbacks.
///
/// Any text may serve as a key. One that holds `{` or `}` can be stored but
/// no template can name it.
#[verifier::reject_recursive_types(T)]
pub struct FormatMap<T> {
    index: KeyIndex,
    callbacks: Vec<FormatterCallback<T>>,
}

impl<T> View for FormatMap<T> {
    type V = Map<Seq<char>, FormatterCallback<T>>;

    closed spec fn view(&self) -> Map<Seq<char>, FormatterCallback<T>> {
        Map::new(
            |key: Seq<char>| slots(self.index).contains_key(key),
            |key: Seq<char>| self.callbacks@[slots(self.index)[key] as int],
        )
    }
}

impl<T> FormatMap<T> {
    /// Every slot that the index names holds a callback, and no two keys
    /// share a slot.
    #[verifier::type_invariant]
    spec fn slots_in_order(self) -> bool {
        &&& forall|key: Seq<char>| #[trigger]
            slots(self.index).contains_key(key) ==> slots(self.index)[key] < self.callbacks@.len()
        &&& forall|a: Seq<char>, b: Seq<char>|
            #![trigger slots(self.index)[a], slots(self.index)[b]]
            slots(self.index).contains_key(a) && slots(self.index).contains_key(b) && slots(
                self.index,
            )[a] == slots(self.index)[b] ==> a == b
    }

    /// A registry without bindings.
    pub fn new() -> (registry: FormatMap<T>)
        ensures
            registry@ == Map::<Seq<char>, FormatterCallback<T>>::empty(),
    {
        let registry = FormatMap { index: index_new(), callbacks: Vec::new() };
        assert(registry@ =~= Map::<Seq<char>, FormatterCallback<T>>::empty());
        registry
    }

    /// Binds `key` to `callback`. A binding that `key` had before is replaced
    /// and returned.
    pub fn insert(&mut self, key: Text, callback: FormatterCallback<T>) -> (previous: Option<
        FormatterCallback<T>,
    >)
        ensures
            final(self)@ == old(self)@.insert(key@, callback),
            previous == (if old(self)@.contains_key(key@) {
                Some(old(self)@[key@])
            } else {
                None
            }),
    {
        let mut taken = FormatMap::new();
        std::mem::swap(self, &mut taken);
        proof {
            use_type_invariant(&taken);
        }
        let FormatMap { mut index, mut callbacks } = taken;
        let previous = match index_get(&index, key.as_str()) {
            Some(slot) => {
                let previous = share(&callbacks[slot]);
                callbacks.set(slot, callback);
                Some(previous)
            },
            None => {
                let slot = callbacks.len();
                callbacks.push(callback);
                index_insert(&mut index, key, slot);
                None
            },
        };
        *self = FormatMap { index, callbacks };
        assert(self@ =~= old(self)@.insert(key@, callback));
        previous
    }

    /// The callback that `key` is bound to, if any.
    pub fn lookup(&self, key: &str) -> (found: Option<&FormatterCallback<T>>)
        ensures
            found == (if self@.contains_key(key@) {
                Some(&self@[key@])
            } else {
                None
            }),
    {
        proof {
            use_type_invariant(self);
        }
        match index_get(&self.index, key) {
            Some(slot) => Some(&self.callbacks[slot]),
            None => None,
        }
    }
}

impl<T> Default for FormatMap<T> {
    fn default() -> (registry: FormatMap<T>)
        ensures
            registry@ == Map::<Seq<char>, FormatterCallback<T>>::empty(),
    {
        FormatMap::new()
    }
}

/// `FnvHashMap::default`: a map without entries.
#[verifier::external_body]
fn index_new() -> (index: KeyIndex)
    ensures
        slots(index).dom() == Set::<Seq<char>>::empty(),
{
    KeyIndex { map: FnvHashMap::default() }
}

/// `HashMap::get` on the index, by the key's characters: the slot entered
/// under exactly these characters, `None` where there is no such entry.
#[verifier::external_body]
fn index_get(index: &KeyIndex, key: &str) -> (slot: Option<usize>)
    ensures
        slot == (if slots(*index).contains_key(key@) {
            Some(slots(*index)[key@])
        } else {
            None
        }),
{
    index.map.get(key).copied()
}

/// `HashMap::insert` on the index: afterwards `key` leads to `slot`, and
/// every other key leads where it did.
#[verifier::external_body]
fn index_insert(index: &mut KeyIndex, key: Text, slot: usize)
    ensures
        slots(*final(index)) == slots(*old(index)).insert(key@, slot),
{
    index.map.insert(key.inner, slot);
}

} // verus!
