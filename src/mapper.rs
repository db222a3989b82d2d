//! The layer mapper: which configuration a key has on a layer.
use std::collections::HashMap;
use vstd::prelude::*;
use crate::keys::{KeyAction, KeyActionSet, KeyConf, KeyId, LayerId, TapKeyConf};

verus! {

broadcast use vstd::std_specs::hash::group_hash_axioms;

/// Looks up the configuration of a key on a layer; `None` means the key is
/// not mapped there and its press is ignored.
pub trait LayerMapper<T>: Sized {
    /// The configuration of `key` on `layer`.
    spec fn conf_of(&self, layer: LayerId, key: KeyId) -> Option<KeyConf<T>>;

    fn get_conf(&self, layer: &LayerId, key: &KeyId) -> (r: Option<KeyConf<T>>)
        ensures
            r == self.conf_of(*layer, *key),
    ;
}

/// The key under which a table holds the configuration of `key` on `layer`.
pub open spec fn table_key(layer: LayerId, key: KeyId) -> u32 {
    ((layer as u32) * 0x10000 + (key as u32)) as u32
}

pub fn to_table_key(layer: LayerId, key: KeyId) -> (r: u32)
    ensures
        r == table_key(layer, key),
{
    (layer as u32) * 0x10000 + (key as u32)
}

/// Two (layer, key) pairs share a table key only if they are equal.
pub proof fn lemma_table_key_injective(l1: LayerId, k1: KeyId, l2: LayerId, k2: KeyId)
    ensures
        table_key(l1, k1) == table_key(l2, k2) ==> l1 == l2 && k1 == k2,
{
}

/// A mapper backed by a table from (layer, key) to configuration.
pub struct HashMapMapper<T> {
    map: HashMap<u32, KeyConf<T>>,
}

impl<T> HashMapMapper<T> {
    /// The table, by `table_key`.
    pub closed spec fn table(&self) -> Map<u32, KeyConf<T>> {
        self.map@
    }

    /// The configuration that the table holds for `key` on `layer`.
    pub open spec fn lookup(&self, layer: LayerId, key: KeyId) -> Option<KeyConf<T>> {
        if self.table().contains_key(table_key(layer, key)) {
            Some(self.table()[table_key(layer, key)])
        } else {
            None
        }
    }

    /// An empty table.
    pub fn new() -> (r: Self)
        ensures
            r.table() == Map::<u32, KeyConf<T>>::empty(),
    {
        HashMapMapper { map: HashMap::new() }
    }

    /// Sets the configuration of `key` on `layer`, replacing any earlier one.
    pub fn insert(&mut self, layer: LayerId, key: KeyId, conf: KeyConf<T>)
        ensures
            final(self).table() == old(self).table().insert(table_key(layer, key), conf),
            final(self).lookup(layer, key) == Some(conf),
            forall|l: LayerId, k: KeyId|
                !(l == layer && k == key) ==> #[trigger] final(self).lookup(l, k) == old(
                    self,
                ).lookup(l, k),
    {
        let k: u32 = to_table_key(layer, key);
        self.map.insert(k, conf);
        proof {
            assert forall|l: LayerId, k2: KeyId|
                !(l == layer && k2 == key) implies #[trigger] self.lookup(l, k2) == old(self).lookup(
                l,
                k2,
            ) by {
                lemma_table_key_injective(l, k2, layer, key);
            }
        }
    }

    /// The table itself, keyed by `to_table_key`.
    pub fn get_hashmap(&mut self) -> (r: &mut HashMap<u32, KeyConf<T>>)
        ensures
            r@ == old(self).table(),
            final(self).table() == final(r)@,
    {
        &mut self.map
    }
}

impl<T: Copy> HashMapMapper<T> {
    fn find(&self, layer: LayerId, key: KeyId) -> (r: Option<KeyConf<T>>)
        ensures
            r == self.lookup(layer, key),
    {
        let k: u32 = to_table_key(layer, key);
        match self.map.get(&k) {
            Some(conf) => Some(*conf),
            None => None,
        }
    }
}

impl<T: Copy> LayerMapper<T> for HashMapMapper<T> {
    open spec fn conf_of(&self, layer: LayerId, key: KeyId) -> Option<KeyConf<T>> {
        self.lookup(layer, key)
    }

    fn get_conf(&self, layer: &LayerId, key: &KeyId) -> (r: Option<KeyConf<T>>) {
        self.find(*layer, *key)
    }
}

/// The configuration that sends a key's own code as a tap.
pub open spec fn echo_conf(key: KeyId) -> KeyConf<KeyId> {
    KeyConf::Tap(TapKeyConf { tap: KeyActionSet::Single(KeyAction::SendKey(key)) })
}

/// A mapper that takes a configuration from its table, and otherwise taps
/// the physical key as its own output code.
pub struct MapOrEchoMapper(pub HashMapMapper<KeyId>);

impl LayerMapper<KeyId> for MapOrEchoMapper {
    open spec fn conf_of(&self, layer: LayerId, key: KeyId) -> Option<KeyConf<KeyId>> {
        match self.0.lookup(layer, key) {
            Some(conf) => Some(conf),
            None => Some(echo_conf(key)),
        }
    }

    fn get_conf(&self, layer: &LayerId, key: &KeyId) -> (r: Option<KeyConf<KeyId>>) {
        match self.0.find(*layer, *key) {
            Some(conf) => Some(conf),
            None => Some(KeyConf::Tap(TapKeyConf { tap: KeyActionSet::Single(KeyAction::SendKey(*key)) })),
        }
    }
}

/// A mapper for trying the keyboard out: every key on every layer taps the
/// code `key * (layer + 1)`.
pub struct SimpleMapper {}

impl SimpleMapper {
    pub fn new() -> (r: Self) {
        SimpleMapper {}
    }
}

/// The code that `SimpleMapper` gives `key` on `layer`.
pub open spec fn simple_code(layer: LayerId, key: KeyId) -> u32 {
    ((layer as u32 + 1) * (key as u32)) as u32
}

impl LayerMapper<u32> for SimpleMapper {
    open spec fn conf_of(&self, layer: LayerId, key: KeyId) -> Option<KeyConf<u32>> {
        Some(
            KeyConf::Tap(
                TapKeyConf { tap: KeyActionSet::Single(KeyAction::SendKey(simple_code(layer, key))) },
            ),
        )
    }

    fn get_conf(&self, layer: &LayerId, key: &KeyId) -> (r: Option<KeyConf<u32>>) {
        proof {
            assert((*layer as u32 + 1) * (*key as u32) <= 256 * 65535) by (nonlinear_arith)
                requires
                    *layer as u32 + 1 <= 256,
                    *key as u32 <= 65535,
            ;
        }
        let key_code: u32 = (*layer as u32 + 1) * (*key as u32);
        Some(KeyConf::Tap(TapKeyConf { tap: KeyActionSet::Single(KeyAction::SendKey(key_code)) }))
    }
}

} // verus!
