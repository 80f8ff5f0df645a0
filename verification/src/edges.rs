use vstd::prelude::*;

verus! {

/// The key identifiers that a list of keys stands for.
pub open spec fn key_ids(keys: Seq<String>) -> Seq<Seq<char>> {
    keys.map_values(|k: String| k@)
}

/// The keys of `current` that `previous` does not hold, in the order of
/// `current`.
pub open spec fn edge_keys(previous: Seq<Seq<char>>, current: Seq<Seq<char>>) -> Seq<Seq<char>> {
    current.filter(|k: Seq<char>| !previous.contains(k))
}

/// Whether `key` is one of `keys`.
pub fn is_pressed(keys: &Vec<String>, key: &String) -> (r: bool)
    ensures
        r == key_ids(keys@).contains(key@),
{
    let mut i: usize = 0;
    while i < keys.len()
        invariant
            i <= keys@.len(),
            forall|j: int| 0 <= j < i ==> key_ids(keys@)[j] != key@,
        decreases keys@.len() - i,
    {
        if keys[i] == *key {
            assert(key_ids(keys@)[i as int] == key@);
            return true;
        }
        i += 1;
    }
    false
}

/// The keys that went down between two snapshots: those pressed in `current`
/// and not in `previous`, in the order of `current`. A key that is held gives
/// nothing, and neither does one that was let go.
pub fn pressed_edges(previous: &Vec<String>, current: &Vec<String>) -> (edges: Vec<String>)
    ensures
        key_ids(edges@) == edge_keys(key_ids(previous@), key_ids(current@)),
{
    let mut edges: Vec<String> = Vec::new();
    let mut i: usize = 0;
    let ghost held = |k: Seq<char>| !key_ids(previous@).contains(k);
    proof {
        assert(key_ids(current@).take(0) =~= Seq::<Seq<char>>::empty());
        assert(key_ids(edges@) =~= Seq::<Seq<char>>::empty());
        reveal(Seq::filter);
    }
    while i < current.len()
        invariant
            i <= current@.len(),
            held == |k: Seq<char>| !key_ids(previous@).contains(k),
            key_ids(edges@) == key_ids(current@).take(i as int).filter(held),
        decreases current@.len() - i,
    {
        let ghost before = key_ids(edges@);
        let down = !is_pressed(previous, &current[i]);
        if down {
            edges.push(current[i].clone());
        }
        proof {
            let ids = key_ids(current@);
            assert(ids.take(i + 1) =~= ids.take(i as int).push(ids[i as int]));
            Seq::lemma_filter_push(ids.take(i as int), ids[i as int], held);
            if down {
                assert(key_ids(edges@) =~= before.push(ids[i as int]));
            } else {
                assert(key_ids(edges@) =~= before);
            }
        }
        i += 1;
    }
    assert(key_ids(current@).take(i as int) =~= key_ids(current@));
    edges
}

/// The edge between two snapshots holds exactly the keys of the second that
/// are not in the first.
pub proof fn lemma_edges_are_set_difference(previous: Seq<Seq<char>>, current: Seq<Seq<char>>)
    ensures
        edge_keys(previous, current).to_set() == current.to_set().difference(previous.to_set()),
        forall|k: Seq<char>|
            edge_keys(previous, current).contains(k) <==> current.contains(k) && !previous.contains(
                k,
            ),
{
    let held = |k: Seq<char>| !previous.contains(k);
    let edges = edge_keys(previous, current);
    assert forall|k: Seq<char>| edges.contains(k) <==> current.contains(k) && !previous.contains(
        k,
    ) by {
        if edges.contains(k) {
            let j = choose|j: int| 0 <= j < edges.len() && edges[j] == k;
            current.lemma_filter_pred(held, j);
            current.lemma_filter_contains_rev(held, k);
        }
        if current.contains(k) && !previous.contains(k) {
            let j = choose|j: int| 0 <= j < current.len() && current[j] == k;
            current.lemma_filter_contains(held, j);
        }
    }
    assert(edge_keys(previous, current).to_set() =~= current.to_set().difference(
        previous.to_set(),
    ));
}

} // verus!
