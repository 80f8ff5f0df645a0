use std::collections::BTreeMap;
use vstd::hash_map::StringHashMap;
use vstd::prelude::*;
use vstd::string::StringExecFns;

verus! {

/// The sound that a key without an entry resolves to.
pub const DEFAULT_SOUND_ID: i32 = 65;

/// What `key_id` resolves to in the table `entries`.
pub open spec fn resolved(entries: Map<Seq<char>, i32>, key_id: Seq<char>) -> i32 {
    if entries.contains_key(key_id) {
        entries[key_id]
    } else {
        DEFAULT_SOUND_ID
    }
}

/// The table from key identifier to sound id.
pub struct KeyMap {
    entries: StringHashMap<i32>,
}

impl View for KeyMap {
    type V = Map<Seq<char>, i32>;

    closed spec fn view(&self) -> Map<Seq<char>, i32> {
        self.entries@
    }
}

impl KeyMap {
    pub fn new() -> (r: KeyMap)
        ensures
            r@ == Map::<Seq<char>, i32>::empty(),
    {
        KeyMap { entries: StringHashMap::new() }
    }

    /// The sound id of `key_id`, or the default where the key has no entry.
    pub fn resolve(&self, key_id: &str) -> (r: i32)
        ensures
            r == resolved(self@, key_id@),
    {
        match self.entries.get(key_id) {
            Some(id) => *id,
            None => DEFAULT_SOUND_ID,
        }
    }

    /// Makes `key_id` map to `sound_id`, whatever it mapped to before.
    pub fn reassign(&mut self, key_id: &str, sound_id: i32)
        ensures
            final(self)@ == old(self)@.insert(key_id@, sound_id),
    {
        self.entries.insert(String::from_str(key_id), sound_id);
    }

    /// Whether `key_id` has an entry of its own.
    pub fn contains_key(&self, key_id: &str) -> (r: bool)
        ensures
            r == self@.contains_key(key_id@),
    {
        self.entries.contains_key(key_id)
    }

    /// The number of keys with an entry.
    pub fn len(&self) -> (r: usize)
        ensures
            r == self@.len(),
    {
        self.entries.len()
    }
}

/// Reassigning a key twice to the same sound is reassigning it once.
pub proof fn lemma_reassign_idempotent(entries: Map<Seq<char>, i32>, key_id: Seq<char>, sound_id: i32)
    ensures
        entries.insert(key_id, sound_id).insert(key_id, sound_id) == entries.insert(
            key_id,
            sound_id,
        ),
        resolved(entries.insert(key_id, sound_id), key_id) == sound_id,
{
    assert(entries.insert(key_id, sound_id).insert(key_id, sound_id) =~= entries.insert(
        key_id,
        sound_id,
    ));
}

/// Why a key map could not be had from a configuration text.
#[derive(Debug, Clone, Copy, PartialEq, Eq)]
pub enum KeyMapError {
    /// The text is no TOML table of whole numbers that fit 32 bits.
    Malformed,
}

/// The error of the `toml` crate's deserialiser.
#[verifier::external_type_specification]
#[verifier::external_body]
pub struct ExTomlError(toml::de::Error);

/// The entries that `toml::from_str` reads from a text as a table from
/// strings to 32-bit numbers, in the order of their keys; nothing where it
/// reports an error.
pub uninterp spec fn toml_key_entries(text: Seq<char>) -> Option<Seq<(Seq<char>, i32)>>;

/// Entries as plain values.
pub open spec fn entry_views(entries: Seq<(String, i32)>) -> Seq<(Seq<char>, i32)> {
    entries.map_values(|e: (String, i32)| (e.0@, e.1))
}

/// The table that a list of entries makes, a later entry in place of an
/// earlier one with the same key.
pub open spec fn key_map_of(entries: Seq<(Seq<char>, i32)>) -> Map<Seq<char>, i32>
    decreases entries.len(),
{
    if entries.len() == 0 {
        Map::empty()
    } else {
        key_map_of(entries.drop_last()).insert(entries.last().0, entries.last().1)
    }
}

/// Calls `toml::from_str` to read the text as a `BTreeMap<String, i32>` and
/// hands out its entries in the map's order. Nothing is proved of the
/// parsing: the contract gives the outcome a name, and says that an error
/// comes exactly where the name holds nothing.
#[verifier::external_body]
fn toml_entries(text: &str) -> (r: Result<Vec<(String, i32)>, toml::de::Error>)
    ensures
        toml_key_entries(text@) == match r {
            Ok(entries) => Some(entry_views(entries@)),
            Err(_) => None,
        },
{
    match toml::from_str::<BTreeMap<String, i32>>(text) {
        Ok(table) => Ok(table.into_iter().collect()),
        Err(e) => Err(e),
    }
}

/// The key map that holds the given entries.
pub fn key_map_from_entries(entries: &Vec<(String, i32)>) -> (r: KeyMap)
    ensures
        r@ == key_map_of(entry_views(entries@)),
{
    let mut keymap = KeyMap::new();
    let mut i: usize = 0;
    let ghost all = entry_views(entries@);
    proof {
        assert(all.take(0) =~= Seq::<(Seq<char>, i32)>::empty());
    }
    while i < entries.len()
        invariant
            i <= entries@.len(),
            all == entry_views(entries@),
            keymap@ == key_map_of(all.take(i as int)),
        decreases entries@.len() - i,
    {
        proof {
            assert(all.take(i + 1).drop_last() =~= all.take(i as int));
            assert(all.take(i + 1).last() == (entries@[i as int].0@, entries@[i as int].1));
        }
        keymap.reassign(entries[i].0.as_str(), entries[i].1);
        i += 1;
    }
    assert(all.take(i as int) =~= all);
    keymap
}

/// Reads the key map from the text of its configuration: a TOML table whose
/// keys are key identifiers and whose values are sound ids.
pub fn get_key_map(config_str: &str) -> (r: Result<KeyMap, KeyMapError>)
    ensures
        match r {
            Ok(keymap) => toml_key_entries(config_str@) is Some && keymap@ == key_map_of(
                toml_key_entries(config_str@).unwrap(),
            ),
            Err(e) => toml_key_entries(config_str@) is None && e == KeyMapError::Malformed,
        },
{
    match toml_entries(config_str) {
        Ok(entries) => Ok(key_map_from_entries(&entries)),
        Err(_) => Err(KeyMapError::Malformed),
    }
}

} // verus!
