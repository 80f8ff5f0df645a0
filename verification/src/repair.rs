use crate::available::AvailableSounds;
use crate::keymap::{resolved, KeyMap};
use rand::seq::SliceRandom;
use vstd::prelude::*;

verus! {

/// Calls `rand::seq::SliceRandom::choose` on the ids with the thread's
/// generator. The draw itself is not modelled: the contract only says that
/// nothing comes out of an empty slice and that what comes out of another is
/// one of its elements.
#[verifier::external_body]
fn choose_id(ids: &Vec<i32>) -> (r: Option<i32>)
    ensures
        ids@.len() == 0 ==> r is None,
        ids@.len() > 0 ==> r is Some && ids@.contains(r.unwrap()),
{
    ids.choose(&mut rand::thread_rng()).copied()
}

/// The sound that a key press plays: the key's own where that is available,
/// else the drawn one; nothing where neither is.
pub open spec fn repaired_sound(
    entries: Map<Seq<char>, i32>,
    available: Set<i32>,
    key_id: Seq<char>,
    drawn: Option<i32>,
) -> Option<i32> {
    if available.contains(resolved(entries, key_id)) {
        Some(resolved(entries, key_id))
    } else if drawn is Some && available.contains(drawn.unwrap()) {
        drawn
    } else {
        None
    }
}

/// The table after a key press: unchanged where the key's sound is available
/// or nothing usable was drawn, else with the key reassigned to the draw.
pub open spec fn repaired_entries(
    entries: Map<Seq<char>, i32>,
    available: Set<i32>,
    key_id: Seq<char>,
    drawn: Option<i32>,
) -> Map<Seq<char>, i32> {
    if available.contains(resolved(entries, key_id)) {
        entries
    } else if drawn is Some && available.contains(drawn.unwrap()) {
        entries.insert(key_id, drawn.unwrap())
    } else {
        entries
    }
}

/// Whether a key press on the table `entries` with the draw `drawn` plays
/// `sound` and leaves the table `after`.
pub open spec fn repairs_to(
    entries: Map<Seq<char>, i32>,
    available: Set<i32>,
    key_id: Seq<char>,
    drawn: Option<i32>,
    sound: Option<i32>,
    after: Map<Seq<char>, i32>,
) -> bool {
    sound == repaired_sound(entries, available, key_id, drawn) && after == repaired_entries(
        entries,
        available,
        key_id,
        drawn,
    )
}

/// Resolves `key_id` given the outcome of a draw: the key's own sound where
/// it is available, else the drawn sound, which the key then keeps.
pub fn resolve_with_draw(
    keymap: &mut KeyMap,
    available: &AvailableSounds,
    key_id: &str,
    drawn: Option<i32>,
) -> (r: Option<i32>)
    ensures
        r == repaired_sound(old(keymap)@, available@, key_id@, drawn),
        final(keymap)@ == repaired_entries(old(keymap)@, available@, key_id@, drawn),
{
    let candidate = keymap.resolve(key_id);
    if available.contains(candidate) {
        return Some(candidate);
    }
    match drawn {
        Some(id) => {
            if available.contains(id) {
                keymap.reassign(key_id, id);
                Some(id)
            } else {
                None
            }
        },
        None => None,
    }
}

/// Resolves `key_id` to a sound that is available. A key whose sound is not
/// available is given one drawn at random from the available ones, and keeps
/// it. Nothing is returned, and nothing changed, only where the key's sound is
/// not available and no sound is.
pub fn resolve_with_repair(keymap: &mut KeyMap, available: &AvailableSounds, key_id: &str) -> (r:
    Option<i32>)
    requires
        available.wf(),
    ensures
        exists|drawn: Option<i32>| #[trigger]
            repairs_to(old(keymap)@, available@, key_id@, drawn, r, final(keymap)@),
        available@.contains(resolved(old(keymap)@, key_id@)) ==> r == Some(
            resolved(old(keymap)@, key_id@),
        ) && final(keymap)@ == old(keymap)@,
        r is None <==> !available@.contains(resolved(old(keymap)@, key_id@)) && available@
            == Set::<i32>::empty(),
        r is None ==> final(keymap)@ == old(keymap)@,
        r is Some ==> available@.contains(r.unwrap()) && resolved(final(keymap)@, key_id@)
            == r.unwrap(),
        r is Some && !available@.contains(resolved(old(keymap)@, key_id@)) ==> final(keymap)@
            == old(keymap)@.insert(key_id@, r.unwrap()),
{
    let candidate = keymap.resolve(key_id);
    if available.contains(candidate) {
        assert(repairs_to(old(keymap)@, available@, key_id@, None, Some(candidate), keymap@));
        return Some(candidate);
    }
    let ids = available.to_vec();
    let drawn = choose_id(&ids);
    proof {
        available.lemma_slots();
        if ids@.len() == 0 {
            assert(available@ =~= Set::<i32>::empty());
        } else {
            assert(available@.contains(drawn.unwrap()));
        }
    }
    let r = resolve_with_draw(keymap, available, key_id, drawn);
    assert(repairs_to(old(keymap)@, available@, key_id@, drawn, r, keymap@));
    r
}

/// Once a key has been resolved to a sound, resolving it again gives the same
/// sound and leaves the table as it is, whatever is drawn.
pub proof fn lemma_repair_is_sticky(
    entries: Map<Seq<char>, i32>,
    available: Set<i32>,
    key_id: Seq<char>,
    first_draw: Option<i32>,
    later_draw: Option<i32>,
)
    requires
        repaired_sound(entries, available, key_id, first_draw) is Some,
    ensures
        repaired_sound(
            repaired_entries(entries, available, key_id, first_draw),
            available,
            key_id,
            later_draw,
        ) == repaired_sound(entries, available, key_id, first_draw),
        repaired_entries(
            repaired_entries(entries, available, key_id, first_draw),
            available,
            key_id,
            later_draw,
        ) == repaired_entries(entries, available, key_id, first_draw),
{
}

/// A key whose sound is not available resolves to an available sound, never
/// to its own, whenever the draw is one of the available sounds.
pub proof fn lemma_repair_is_total(
    entries: Map<Seq<char>, i32>,
    available: Set<i32>,
    key_id: Seq<char>,
    drawn: i32,
)
    requires
        !available.contains(resolved(entries, key_id)),
        available.contains(drawn),
    ensures
        repaired_sound(entries, available, key_id, Some(drawn)) == Some(drawn),
        repaired_sound(entries, available, key_id, Some(drawn)).unwrap() != resolved(
            entries,
            key_id,
        ),
        resolved(repaired_entries(entries, available, key_id, Some(drawn)), key_id) == drawn,
{
}

} // verus!
