//! Laws of the interpreter, stated over the spec functions that the
//! executable functions' contracts use.
use vstd::prelude::*;

use crate::events::{event_rows, next_tracks, render, start_all, tracks_after, Event};
use crate::events::bare;
use crate::rows::{rows_text, Row, Shape};
use crate::tracks::{column_of, lemma_column_of};

verus! {

/// `first` and `second` draw the same rows and leave the same tracks when
/// applied to `tracks`.
pub open spec fn same_effect(tracks: Seq<usize>, first: Event, second: Event) -> bool {
    &&& event_rows(tracks, first) == event_rows(tracks, second)
    &&& next_tracks(tracks, first) == next_tracks(tracks, second)
}

/// Every row that an event draws has as many tokens as there are live
/// tracks either before the event or after it.
pub proof fn lemma_row_width(tracks: Seq<usize>, event: Event)
    ensures
        forall|j: int|
            0 <= j < event_rows(tracks, event).len() ==> {
                let w = (#[trigger] event_rows(tracks, event)[j]).width;
                w == tracks.len() || w == next_tracks(tracks, event).len()
            },
{
    match event {
        Event::StopTrack(id) => {
            if tracks.contains(id) {
                lemma_column_of(tracks, id);
            }
        },
        Event::JoinTrack(from, _) => {
            if tracks.contains(from) {
                lemma_column_of(tracks, from);
            }
        },
        _ => {},
    }
}

/// Starting a live track, starting a batch of tracks that are all live, or
/// splitting off a track that is live, draws nothing and leaves the tracks
/// as they are.
pub proof fn lemma_no_op(tracks: Seq<usize>, event: Event)
    requires
        match event {
            Event::StartTrack(id) => tracks.contains(id),
            Event::StartTracks(ids) => forall|i: int|
                0 <= i < ids@.len() ==> tracks.contains(#[trigger] ids@[i]),
            Event::SplitTrack(_, new) => tracks.contains(new),
            _ => false,
        },
    ensures
        event_rows(tracks, event) == Seq::<Row>::empty(),
        next_tracks(tracks, event) == tracks,
{
    if let Event::StartTracks(ids) = event {
        lemma_start_all_live(tracks, ids@);
    }
}

proof fn lemma_start_all_live(tracks: Seq<usize>, ids: Seq<usize>)
    requires
        forall|i: int| 0 <= i < ids.len() ==> tracks.contains(#[trigger] ids[i]),
    ensures
        start_all(tracks, ids) == tracks,
    decreases ids.len(),
{
    if ids.len() > 0 {
        let rest = ids.drop_last();
        assert forall|i: int| 0 <= i < rest.len() implies tracks.contains(#[trigger] rest[i]) by {
            assert(rest[i] == ids[i]);
        }
        lemma_start_all_live(tracks, rest);
        assert(tracks.contains(ids[ids.len() - 1]));
    }
}

/// The tracks after a batch start hold exactly the tracks before it and the
/// members of the batch.
pub proof fn lemma_start_all_contains(tracks: Seq<usize>, ids: Seq<usize>)
    ensures
        forall|x: usize|
            #[trigger] start_all(tracks, ids).contains(x) <==> tracks.contains(x) || ids.contains(
                x,
            ),
    decreases ids.len(),
{
    if ids.len() > 0 {
        let rest = ids.drop_last();
        lemma_start_all_contains(tracks, rest);
        let before = start_all(tracks, rest);
        assert forall|x: usize| #[trigger]
            start_all(tracks, ids).contains(x) <==> tracks.contains(x) || ids.contains(x) by {
            if ids.contains(x) && !rest.contains(x) {
                let i = choose|i: int| 0 <= i < ids.len() && ids[i] == x;
                if i < ids.len() - 1 {
                    assert(rest[i] == x);
                }
                if !before.contains(x) {
                    assert(before.push(x)[before.len() as int] == x);
                }
            }
            if rest.contains(x) {
                let i = choose|i: int| 0 <= i < rest.len() && rest[i] == x;
                assert(ids[i] == x);
            }
            if !before.contains(ids.last()) && before.push(ids.last()).contains(x) {
                let i = choose|i: int|
                    0 <= i < before.push(ids.last()).len() && before.push(ids.last())[i] == x;
                if i < before.len() {
                    assert(before[i] == x);
                } else {
                    assert(ids[ids.len() - 1] == x);
                }
            }
            if before.contains(x) && !before.contains(ids.last()) {
                let i = choose|i: int| 0 <= i < before.len() && before[i] == x;
                assert(before.push(ids.last())[i] == x);
            }
        }
    }
}

/// A member of a batch start that is live already, or that repeats an
/// earlier member, can be left out without changing the tracks it leaves
/// (and so the row it draws).
pub proof fn lemma_redundant_member(tracks: Seq<usize>, ids: Seq<usize>, i: int)
    requires
        0 <= i < ids.len(),
        tracks.contains(ids[i]) || ids.take(i).contains(ids[i]),
    ensures
        start_all(tracks, ids.remove(i)) == start_all(tracks, ids),
    decreases ids.len(),
{
    let rest = ids.drop_last();
    if i == ids.len() - 1 {
        assert(ids.remove(i) =~= rest);
        lemma_start_all_contains(tracks, rest);
        if ids.take(i).contains(ids[i]) {
            assert(ids.take(i) =~= rest);
        }
        assert(start_all(tracks, rest).contains(ids.last()));
    } else {
        assert(rest.take(i) =~= ids.take(i));
        assert(rest[i] == ids[i]);
        lemma_redundant_member(tracks, rest, i);
        let shorter = ids.remove(i);
        assert(shorter.drop_last() =~= rest.remove(i));
        assert(shorter.last() == ids.last());
    }
}

/// The degenerate splits and joins draw and do exactly what the simpler
/// event that they stand for does: a split off a track that is not live is
/// a start of the new track; a join of a track with itself, or into a track
/// that is not live, is a stop; a join of a track that is not live is
/// nothing at all.
pub proof fn lemma_degradations(tracks: Seq<usize>, a: usize, b: usize)
    ensures
        !tracks.contains(a) && !tracks.contains(b) ==> same_effect(
            tracks,
            Event::SplitTrack(a, b),
            Event::StartTrack(b),
        ),
        same_effect(tracks, Event::JoinTrack(a, a), Event::StopTrack(a)),
        tracks.contains(a) && !tracks.contains(b) ==> same_effect(
            tracks,
            Event::JoinTrack(a, b),
            Event::StopTrack(a),
        ),
        !tracks.contains(a) ==> event_rows(tracks, Event::JoinTrack(a, b)) == Seq::<Row>::empty()
            && next_tracks(tracks, Event::JoinTrack(a, b)) == tracks,
{
}

/// Replacing an event by one with the same effect at the point where it
/// stands leaves the whole diagram, and the tracks at its end, unchanged.
pub proof fn lemma_replace_event(before: Seq<Event>, first: Event, second: Event, after: Seq<Event>)
    requires
        same_effect(tracks_after(before), first, second),
    ensures
        render(before.push(first) + after) == render(before.push(second) + after),
        tracks_after(before.push(first) + after) == tracks_after(before.push(second) + after),
    decreases after.len(),
{
    let x = before.push(first);
    let y = before.push(second);
    if after.len() == 0 {
        assert(x + after =~= x);
        assert(y + after =~= y);
        assert(x.drop_last() =~= before);
        assert(y.drop_last() =~= before);
    } else {
        let rest = after.drop_last();
        lemma_replace_event(before, first, second, rest);
        assert((x + after).drop_last() =~= x + rest);
        assert((y + after).drop_last() =~= y + rest);
        assert((x + after).last() == after.last());
        assert((y + after).last() == after.last());
    }
}

/// The members of `ids` that a batch start adds to `tracks`: those that are
/// not live and do not repeat an earlier member, in their order in `ids`.
pub open spec fn fresh_members(tracks: Seq<usize>, ids: Seq<usize>) -> Seq<usize>
    decreases ids.len(),
{
    if ids.len() == 0 {
        seq![]
    } else {
        let before = fresh_members(tracks, ids.drop_last());
        if tracks.contains(ids.last()) || before.contains(ids.last()) {
            before
        } else {
            before.push(ids.last())
        }
    }
}

/// A batch start appends exactly its fresh members to the tracks.
pub proof fn lemma_start_all_fresh(tracks: Seq<usize>, ids: Seq<usize>)
    ensures
        start_all(tracks, ids) == tracks + fresh_members(tracks, ids),
    decreases ids.len(),
{
    if ids.len() == 0 {
        assert(tracks + Seq::<usize>::empty() =~= tracks);
    } else {
        lemma_start_all_fresh(tracks, ids.drop_last());
        let p = fresh_members(tracks, ids.drop_last());
        let x = ids.last();
        assert((tracks + p).contains(x) <==> tracks.contains(x) || p.contains(x)) by {
            if (tracks + p).contains(x) {
                let i = choose|i: int| 0 <= i < (tracks + p).len() && (tracks + p)[i] == x;
                if i >= tracks.len() {
                    assert(p[i - tracks.len()] == x);
                }
            }
            if tracks.contains(x) {
                let i = choose|i: int| 0 <= i < tracks.len() && tracks[i] == x;
                assert((tracks + p)[i] == x);
            }
            if p.contains(x) {
                let i = choose|i: int| 0 <= i < p.len() && p[i] == x;
                assert((tracks + p)[tracks.len() + i] == x);
            }
        }
        assert((tracks + p).push(x) =~= tracks + p.push(x));
    }
}

/// A batch start adds its fresh members after the live tracks, and draws
/// one plain row as wide as the tracks after it if there is any fresh
/// member, and nothing otherwise.
pub proof fn lemma_batch_start(tracks: Seq<usize>, ids: &[usize])
    ensures
        next_tracks(tracks, Event::StartTracks(ids)) == tracks + fresh_members(tracks, ids@),
        event_rows(tracks, Event::StartTracks(ids)) == if fresh_members(tracks, ids@).len() == 0 {
            Seq::<Row>::empty()
        } else {
            seq![bare(Shape::Plain, tracks.len() + fresh_members(tracks, ids@).len())]
        },
{
    lemma_start_all_fresh(tracks, ids@);
}

/// Two batch starts with the same fresh members have the same effect: the
/// members that are live or repeated make no difference.
pub proof fn lemma_batch_same_effect(tracks: Seq<usize>, first: &[usize], second: &[usize])
    requires
        fresh_members(tracks, first@) == fresh_members(tracks, second@),
    ensures
        same_effect(tracks, Event::StartTracks(first), Event::StartTracks(second)),
{
    lemma_batch_start(tracks, first);
    lemma_batch_start(tracks, second);
}

/// An event that draws nothing and leaves the tracks as they are can be
/// left out of any sequence without changing the diagram or the tracks at
/// its end.
pub proof fn lemma_drop_no_op(before: Seq<Event>, event: Event, after: Seq<Event>)
    requires
        event_rows(tracks_after(before), event) == Seq::<Row>::empty(),
        next_tracks(tracks_after(before), event) == tracks_after(before),
    ensures
        render(before.push(event) + after) == render(before + after),
        tracks_after(before.push(event) + after) == tracks_after(before + after),
    decreases after.len(),
{
    let x = before.push(event);
    if after.len() == 0 {
        assert(x + after =~= x);
        assert(before + after =~= before);
        assert(x.drop_last() =~= before);
        assert(rows_text(Seq::<Row>::empty()) == Seq::<char>::empty());
        assert(render(before) + Seq::<char>::empty() =~= render(before));
    } else {
        let rest = after.drop_last();
        lemma_drop_no_op(before, event, rest);
        assert((x + after).drop_last() =~= x + rest);
        assert((before + after).drop_last() =~= before + rest);
        assert((x + after).last() == after.last());
        assert((before + after).last() == after.last());
    }
}

/// Stopping a live track draws one row if it is the rightmost track, and
/// two rows otherwise.
pub proof fn lemma_stop_row_count(tracks: Seq<usize>, id: usize)
    requires
        tracks.contains(id),
    ensures
        event_rows(tracks, Event::StopTrack(id)).len() == if column_of(tracks, id) == tracks.len()
            - 1 {
            1int
        } else {
            2int
        },
{
    lemma_column_of(tracks, id);
}

} // verus!
