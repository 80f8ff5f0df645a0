use crate::available::AvailableSounds;
use crate::edges::{edge_keys, key_ids, pressed_edges};
use crate::keymap::{resolved, KeyMap};
use crate::repair::resolve_with_repair;
use vstd::prelude::*;

verus! {

/// The pause between two polls of the keyboard, in milliseconds.
pub const POLL_INTERVAL_MS: u64 = 10;

/// Whether two tables agree on `key_id`: both without an entry for it, or
/// both with the same one.
pub open spec fn same_entry(
    a: Map<Seq<char>, i32>,
    b: Map<Seq<char>, i32>,
    key_id: Seq<char>,
) -> bool {
    a.contains_key(key_id) == b.contains_key(key_id) && (a.contains_key(key_id) ==> a[key_id]
        == b[key_id])
}

/// The sounds to play for the keys that went down between two snapshots of
/// the keyboard, one for each such key, in the order of `current`. A key
/// whose sound is not available is given an available one, drawn at random,
/// and keeps it; every sound handed out is available. The table changes
/// only at keys that went down with a sound that was not available, and
/// holds an available sound there afterwards. Where no sound is available
/// nothing is handed out and nothing changes.
pub fn dispatch(
    keymap: &mut KeyMap,
    available: &AvailableSounds,
    previous: &Vec<String>,
    current: &Vec<String>,
) -> (sounds: Vec<i32>)
    requires
        available.wf(),
    ensures
        forall|i: int| 0 <= i < sounds@.len() ==> available@.contains(#[trigger] sounds@[i]),
        available@ == Set::<i32>::empty() ==> sounds@.len() == 0 && final(keymap)@ == old(keymap)@,
        available@ != Set::<i32>::empty() ==> sounds@.len() == edge_keys(
            key_ids(previous@),
            key_ids(current@),
        ).len(),
        available@ != Set::<i32>::empty() ==> forall|i: int|
            0 <= i < sounds@.len() ==> resolved(
                final(keymap)@,
                edge_keys(key_ids(previous@), key_ids(current@))[i],
            ) == #[trigger] sounds@[i],
        forall|k: Seq<char>|
            !#[trigger] same_entry(final(keymap)@, old(keymap)@, k) ==> edge_keys(
                key_ids(previous@),
                key_ids(current@),
            ).contains(k) && !available@.contains(resolved(old(keymap)@, k)) && final(keymap)@.contains_key(k) && available@.contains(final(keymap)@[k]),
{
    let edges = pressed_edges(previous, current);
    let ghost keys = key_ids(edges@);
    let mut sounds: Vec<i32> = Vec::new();
    let mut i: usize = 0;
    while i < edges.len()
        invariant
            i <= edges@.len(),
            available.wf(),
            keys == key_ids(edges@),
            forall|j: int| 0 <= j < sounds@.len() ==> available@.contains(#[trigger] sounds@[j]),
            available@ == Set::<i32>::empty() ==> sounds@.len() == 0 && keymap@ == old(keymap)@,
            available@ != Set::<i32>::empty() ==> sounds@.len() == i,
            available@ != Set::<i32>::empty() ==> forall|j: int|
                0 <= j < i ==> resolved(keymap@, keys[j]) == #[trigger] sounds@[j],
            forall|k: Seq<char>|
                !#[trigger] same_entry(keymap@, old(keymap)@, k) ==> keys.take(
                    i as int,
                ).contains(k) && !available@.contains(resolved(old(keymap)@, k))
                    && keymap@.contains_key(k) && available@.contains(keymap@[k]),
        decreases edges@.len() - i,
    {
        let ghost table = keymap@;
        let ghost played = sounds@;
        let ghost key = keys[i as int];
        assert(key == edges@[i as int]@);
        let sound = resolve_with_repair(keymap, available, edges[i].as_str());
        match sound {
            Some(id) => {
                sounds.push(id);
            },
            None => {},
        }
        proof {
            assert(keys.take(i + 1)[i as int] == key);
            assert forall|k: Seq<char>| keys.take(i as int).contains(k) implies keys.take(
                i + 1,
            ).contains(k) by {
                let j = choose|j: int| 0 <= j < i && keys.take(i as int)[j] == k;
                assert(keys.take(i + 1)[j] == k);
            }
            if available@ != Set::<i32>::empty() {
                let id = sound.unwrap();
                assert forall|j: int| 0 <= j < i + 1 implies resolved(keymap@, keys[j])
                    == #[trigger] sounds@[j] by {
                    if j < i {
                        assert(played[j] == sounds@[j]);
                        assert(resolved(table, keys[j]) == played[j]);
                        assert(available@.contains(played[j]));
                    }
                }
            }
            assert forall|k: Seq<char>| !#[trigger] same_entry(
                keymap@,
                old(keymap)@,
                k,
            ) implies keys.take(i + 1).contains(k) && !available@.contains(
                resolved(old(keymap)@, k),
            ) && keymap@.contains_key(k) && available@.contains(keymap@[k]) by {
                if !same_entry(table, old(keymap)@, k) {
                    assert(keys.take(i as int).contains(k));
                    assert(available@.contains(resolved(table, k)));
                    if k == key {
                        assert(keymap@ == table);
                    } else if keymap@ != table {
                        assert(keymap@ == table.insert(key, sound.unwrap()));
                    }
                } else {
                    assert(keymap@ != table);
                    assert(keymap@ == table.insert(key, sound.unwrap()));
                    assert(k == key);
                    assert(keys.take(i + 1).contains(k));
                }
            }
            assert forall|j: int| 0 <= j < sounds@.len() implies available@.contains(
                #[trigger] sounds@[j],
            ) by {
                if j < played.len() {
                    assert(played[j] == sounds@[j]);
                }
            }
        }
        i += 1;
    }
    proof {
        assert(keys.take(i as int) =~= keys);
    }
    sounds
}

} // verus!
