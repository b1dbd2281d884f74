//! The ordered list of live track identifiers: column `i` holds `tracks[i]`.
use vstd::prelude::*;

verus! {

/// `i` is the first column that holds `id`.
pub open spec fn is_first_index(tracks: Seq<usize>, id: usize, i: int) -> bool {
    &&& 0 <= i < tracks.len()
    &&& tracks[i] == id
    &&& forall|j: int| 0 <= j < i ==> tracks[j] != id
}

/// The column of `id`; meaningful where `tracks` contains `id`.
pub open spec fn column_of(tracks: Seq<usize>, id: usize) -> int {
    choose|i: int| is_first_index(tracks, id, i)
}

/// A live track has exactly one first column, and [`column_of`] is that column.
pub proof fn lemma_column_of(tracks: Seq<usize>, id: usize)
    requires
        tracks.contains(id),
    ensures
        is_first_index(tracks, id, column_of(tracks, id)),
        forall|i: int| #[trigger] is_first_index(tracks, id, i) ==> i == column_of(tracks, id),
{
    let w = choose|w: int| 0 <= w < tracks.len() && tracks[w] == id;
    lemma_first_exists(tracks, id, w);
    let c = column_of(tracks, id);
    assert forall|i: int| #[trigger] is_first_index(tracks, id, i) implies i == c by {
        if i < c {
            assert(tracks[i] == id);
        } else if c < i {
            assert(tracks[c] == id);
        }
    }
}

proof fn lemma_first_exists(tracks: Seq<usize>, id: usize, w: int)
    requires
        0 <= w < tracks.len(),
        tracks[w] == id,
    ensures
        exists|i: int| is_first_index(tracks, id, i),
    decreases w,
{
    if exists|j: int| 0 <= j < w && tracks[j] == id {
        let j = choose|j: int| 0 <= j < w && tracks[j] == id;
        lemma_first_exists(tracks, id, j);
    } else {
        assert(is_first_index(tracks, id, w));
    }
}

/// The column of `id` among `tracks`, if it is live.
pub fn position(tracks: &Vec<usize>, id: usize) -> (r: Option<usize>)
    ensures
        r is None <==> !tracks@.contains(id),
        r matches Some(i) ==> i == column_of(tracks@, id) && is_first_index(tracks@, id, i as int),
{
    let mut i: usize = 0;
    while i < tracks.len()
        invariant
            i <= tracks.len(),
            forall|j: int| 0 <= j < i ==> tracks@[j] != id,
        decreases tracks.len() - i,
    {
        if tracks[i] == id {
            proof {
                lemma_column_of(tracks@, id);
                assert(is_first_index(tracks@, id, i as int));
            }
            return Some(i);
        }
        i = i + 1;
    }
    None
}

/// Whether `id` is live.
pub fn is_live(tracks: &Vec<usize>, id: usize) -> (r: bool)
    ensures
        r == tracks@.contains(id),
{
    position(tracks, id).is_some()
}

/// Inserting an id that is not live keeps the ids distinct.
pub proof fn lemma_insert_no_duplicates(tracks: Seq<usize>, i: int, id: usize)
    requires
        tracks.no_duplicates(),
        !tracks.contains(id),
        0 <= i <= tracks.len(),
    ensures
        tracks.insert(i, id).no_duplicates(),
{
    let u = tracks.insert(i, id);
    assert forall|a: int, b: int| 0 <= a < u.len() && 0 <= b < u.len() && a != b implies u[a]
        != u[b] by {
        if a != i && b != i {
            let sa = if a < i { a } else { a - 1 };
            let sb = if b < i { b } else { b - 1 };
            assert(u[a] == tracks[sa]);
            assert(u[b] == tracks[sb]);
        } else if a == i {
            let sb = if b < i { b } else { b - 1 };
            assert(u[b] == tracks[sb]);
        } else {
            let sa = if a < i { a } else { a - 1 };
            assert(u[a] == tracks[sa]);
        }
    }
}

/// Removing a column keeps the ids distinct and drops exactly the id it held.
pub proof fn lemma_remove_no_duplicates(tracks: Seq<usize>, i: int)
    requires
        tracks.no_duplicates(),
        0 <= i < tracks.len(),
    ensures
        tracks.remove(i).no_duplicates(),
        forall|id: usize| #[trigger]
            tracks.remove(i).contains(id) <==> tracks.contains(id) && id != tracks[i],
{
    let u = tracks.remove(i);
    assert forall|a: int, b: int| 0 <= a < u.len() && 0 <= b < u.len() && a != b implies u[a]
        != u[b] by {
        let sa = if a < i { a } else { a + 1 };
        let sb = if b < i { b } else { b + 1 };
        assert(u[a] == tracks[sa]);
        assert(u[b] == tracks[sb]);
    }
    assert forall|id: usize| #[trigger]
        u.contains(id) <==> tracks.contains(id) && id != tracks[i] by {
        if u.contains(id) {
            let a = choose|a: int| 0 <= a < u.len() && u[a] == id;
            let sa = if a < i { a } else { a + 1 };
            assert(tracks[sa] == id);
        }
        if tracks.contains(id) && id != tracks[i] {
            let s = choose|s: int| 0 <= s < tracks.len() && tracks[s] == id;
            let a = if s < i { s } else { s - 1 };
            assert(u[a] == id);
        }
    }
}

} // verus!
