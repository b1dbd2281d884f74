//! Events and the interpreter that folds them into diagram rows.
use vstd::prelude::*;
use vstd::string::StrSliceExecFns;

use crate::rows::{push_labeled_row, push_row, rows_text, Row, Shape};
use crate::rows::{lemma_rows_text_small, lemma_rows_text_take};
use crate::text::{label_lines, lemma_label_lines_nonempty, split_lines};
use crate::tracks::{
    column_of, is_first_index, is_live, lemma_column_of, lemma_insert_no_duplicates,
    lemma_remove_no_duplicates, position,
};

verus! {

/// Relies on the type `std::io::Error`, which is carried as an opaque value.
#[verifier::external_type_specification]
#[verifier::external_body]
pub struct ExIoError(std::io::Error);

/// One change to the diagram. Events are produced by [`crate::Metro`], or
/// written by hand and rendered with [`to_string`].
#[derive(Clone, Copy, Debug)]
pub enum Event<'a> {
    /// `StartTrack(track_id)`: adds the track rightmost, unless it is live.
    StartTrack(usize),
    /// `StartTracks(track_ids)`: adds, in order, each track that is not live,
    /// and draws one row if any was added.
    StartTracks(&'a [usize]),
    /// `StopTrack(track_id)`: ends the track, if it is live, and pulls the
    /// rails to its right one column to the left.
    StopTrack(usize),
    /// `Station(track_id, text)`: a labelled row, marked on the track if it is
    /// live; each line of `text` gets a row of its own.
    Station(usize, &'a str),
    /// `SplitTrack(from_track_id, new_track_id)`: a new track branching right
    /// off `from_track_id`. Nothing happens if `new_track_id` is live; if
    /// `from_track_id` is not, this is `StartTrack(new_track_id)`.
    SplitTrack(usize, usize),
    /// `JoinTrack(from_track_id, to_track_id)`: merges `from_track_id` into
    /// `to_track_id` and removes it. Nothing happens if `from_track_id` is not
    /// live; if `to_track_id` is not live or is the same track, this is
    /// `StopTrack(from_track_id)`.
    JoinTrack(usize, usize),
    /// One row of rails.
    NoEvent,
}

/// A row without label.
pub open spec fn bare(shape: Shape, width: nat) -> Row {
    Row { shape, width, label: None }
}

/// The tracks after adding, in order, each of `ids` that is not yet live.
pub open spec fn start_all(tracks: Seq<usize>, ids: Seq<usize>) -> Seq<usize>
    decreases ids.len(),
{
    if ids.len() == 0 {
        tracks
    } else {
        let before = start_all(tracks, ids.drop_last());
        if before.contains(ids.last()) {
            before
        } else {
            before.push(ids.last())
        }
    }
}

/// The rows that end the live track `id`: a terminator row, then, unless the
/// track is rightmost, a row that pulls the tracks right of it to the left.
pub open spec fn stop_rows(tracks: Seq<usize>, id: usize) -> Seq<Row> {
    if !tracks.contains(id) {
        seq![]
    } else {
        let k = column_of(tracks, id);
        let n = tracks.len();
        if k + 1 == n {
            seq![bare(Shape::Halt(k as usize), n)]
        } else {
            seq![bare(Shape::Halt(k as usize), n), bare(Shape::Pull(k as usize), n)]
        }
    }
}

/// The tracks after `id` is stopped.
pub open spec fn stop_tracks(tracks: Seq<usize>, id: usize) -> Seq<usize> {
    if tracks.contains(id) {
        tracks.remove(column_of(tracks, id))
    } else {
        tracks
    }
}

/// The rows of a station: the first line marked on the track, if it is live,
/// each further line on plain rails.
pub open spec fn station_rows(tracks: Seq<usize>, id: usize, text: Seq<char>) -> Seq<Row> {
    let lines = label_lines(text);
    Seq::new(
        lines.len(),
        |j: int|
            Row {
                shape: if j == 0 && tracks.contains(id) {
                    Shape::Marker(column_of(tracks, id) as usize)
                } else {
                    Shape::Plain
                },
                width: tracks.len(),
                label: Some(lines[j]),
            },
    )
}

/// The rows of a join of two distinct live tracks.
pub open spec fn merge_rows(tracks: Seq<usize>, from: usize, to: usize) -> Seq<Row> {
    let a = column_of(tracks, from);
    let b = column_of(tracks, to);
    let l = if a < b { a } else { b };
    let r = if a < b { b } else { a };
    let m = (tracks.len() - 1) as nat;
    if r - l == 1 {
        seq![bare(Shape::Merge(l as usize), m)]
    } else {
        seq![bare(Shape::Slide(l as usize, r as usize), m), bare(Shape::Land(l as usize), m)]
    }
}

/// The rows that `event` draws on the given tracks.
pub open spec fn event_rows(tracks: Seq<usize>, event: Event) -> Seq<Row> {
    let n = tracks.len();
    match event {
        Event::StartTrack(id) => if tracks.contains(id) {
            seq![]
        } else {
            seq![bare(Shape::Plain, n + 1)]
        },
        Event::StartTracks(ids) => {
            let after = start_all(tracks, ids@);
            if after.len() > n {
                seq![bare(Shape::Plain, after.len())]
            } else {
                seq![]
            }
        },
        Event::StopTrack(id) => stop_rows(tracks, id),
        Event::Station(id, text) => station_rows(tracks, id, text@),
        Event::SplitTrack(from, new) => if tracks.contains(new) {
            seq![]
        } else if !tracks.contains(from) {
            seq![bare(Shape::Plain, n + 1)]
        } else {
            seq![bare(Shape::Branch(column_of(tracks, from) as usize), n)]
        },
        Event::JoinTrack(from, to) => if from == to {
            stop_rows(tracks, from)
        } else if !tracks.contains(from) {
            seq![]
        } else if !tracks.contains(to) {
            stop_rows(tracks, from)
        } else {
            merge_rows(tracks, from, to)
        },
        Event::NoEvent => seq![bare(Shape::Plain, n)],
    }
}

/// The live tracks after `event`.
pub open spec fn next_tracks(tracks: Seq<usize>, event: Event) -> Seq<usize> {
    match event {
        Event::StartTrack(id) => if tracks.contains(id) {
            tracks
        } else {
            tracks.push(id)
        },
        Event::StartTracks(ids) => start_all(tracks, ids@),
        Event::StopTrack(id) => stop_tracks(tracks, id),
        Event::Station(_, _) => tracks,
        Event::SplitTrack(from, new) => if tracks.contains(new) {
            tracks
        } else if !tracks.contains(from) {
            tracks.push(new)
        } else {
            tracks.insert(column_of(tracks, from) + 1, new)
        },
        Event::JoinTrack(from, to) => stop_tracks(tracks, from),
        Event::NoEvent => tracks,
    }
}

/// The text that `event` draws on the given tracks.
pub open spec fn event_text(tracks: Seq<usize>, event: Event) -> Seq<char> {
    rows_text(event_rows(tracks, event))
}

/// The tracks before the first event: track `0` alone.
pub open spec fn seed() -> Seq<usize> {
    seq![0usize]
}

/// The live tracks after a sequence of events, starting from [`seed`].
pub open spec fn tracks_after(events: Seq<Event>) -> Seq<usize>
    decreases events.len(),
{
    if events.len() == 0 {
        seed()
    } else {
        next_tracks(tracks_after(events.drop_last()), events.last())
    }
}

/// The diagram of a sequence of events, starting from [`seed`].
pub open spec fn render(events: Seq<Event>) -> Seq<char>
    decreases events.len(),
{
    if events.len() == 0 {
        seq![]
    } else {
        render(events.drop_last()) + event_text(tracks_after(events.drop_last()), events.last())
    }
}

/// Ends the live track at column `k` (the column of `tracks[k]`).
fn stop_at(tracks: &mut Vec<usize>, k: usize, out: &mut String)
    requires
        k < old(tracks)@.len(),
        is_first_index(old(tracks)@, old(tracks)@[k as int], k as int),
    ensures
        final(tracks)@ == stop_tracks(old(tracks)@, old(tracks)@[k as int]),
        final(out)@ == old(out)@ + rows_text(stop_rows(old(tracks)@, old(tracks)@[k as int])),
{
    let ghost t = tracks@;
    let ghost id = t[k as int];
    proof {
        lemma_column_of(t, id);
    }
    let n = tracks.len();
    push_row(out, Shape::Halt(k), n);
    if k + 1 != n {
        push_row(out, Shape::Pull(k), n);
    }
    tracks.remove(k);
    proof {
        lemma_rows_text_small(bare(Shape::Halt(k), n as nat), bare(Shape::Pull(k), n as nat));
    }
}

/// Appends the rows that end `track_id`, if it is live, and removes it.
pub fn stop_track(tracks: &mut Vec<usize>, track_id: usize, out: &mut String)
    ensures
        final(tracks)@ == stop_tracks(old(tracks)@, track_id),
        final(out)@ == old(out)@ + rows_text(stop_rows(old(tracks)@, track_id)),
{
    if let Some(k) = position(tracks, track_id) {
        stop_at(tracks, k, out);
    } else {
        proof {
            assert(rows_text(seq![]) =~= Seq::<char>::empty());
        }
    }
}

/// Appends one row per line of `text`; the first one is marked on track
/// `id` if it is live.
fn push_station(out: &mut String, tracks: &Vec<usize>, id: usize, text: &str)
    ensures
        final(out)@ == old(out)@ + rows_text(station_rows(tracks@, id, text@)),
{
    let lines = split_lines(text);
    let k = position(tracks, id);
    let n = tracks.len();
    let ghost rows = station_rows(tracks@, id, text@);
    proof {
        lemma_label_lines_nonempty(text@);
    }
    let mut j: usize = 0;
    while j < lines.len()
        invariant
            j <= lines.len(),
            n == tracks@.len(),
            lines.len() == rows.len(),
            rows == station_rows(tracks@, id, text@),
            forall|i: int| 0 <= i < lines.len() ==> #[trigger] lines[i]@ == label_lines(text@)[i],
            k is None <==> !tracks@.contains(id),
            k matches Some(c) ==> c == column_of(tracks@, id),
            out@ == old(out)@ + rows_text(rows.take(j as int)),
        decreases lines.len() - j,
    {
        let shape = match k {
            Some(c) => if j == 0 {
                Shape::Marker(c)
            } else {
                Shape::Plain
            },
            None => Shape::Plain,
        };
        push_labeled_row(out, shape, n, lines[j]);
        proof {
            lemma_rows_text_take(rows, j as int);
            assert(rows[j as int] == Row { shape, width: n as nat, label: Some(lines[j as int]@) });
        }
        j = j + 1;
    }
    proof {
        assert(rows.take(j as int) =~= rows);
    }
}

/// Adds each of `ids` that is not live, in order.
fn start_tracks(tracks: &mut Vec<usize>, ids: &[usize])
    requires
        old(tracks)@.no_duplicates(),
    ensures
        final(tracks)@ == start_all(old(tracks)@, ids@),
        final(tracks)@.no_duplicates(),
{
    let mut i: usize = 0;
    while i < ids.len()
        invariant
            i <= ids@.len(),
            tracks@ == start_all(old(tracks)@, ids@.take(i as int)),
            tracks@.no_duplicates(),
        decreases ids.len() - i,
    {
        assert(ids@.take(i + 1).drop_last() =~= ids@.take(i as int));
        let id = ids[i];
        if !is_live(tracks, id) {
            proof {
                lemma_insert_no_duplicates(tracks@, tracks@.len() as int, id);
                assert(tracks@.insert(tracks@.len() as int, id) =~= tracks@.push(id));
            }
            tracks.push(id);
        }
        i = i + 1;
    }
    assert(ids@.take(i as int) =~= ids@);
}

/// The interpreter: the live tracks, leftmost first, with the rules that
/// turn each event into rows.
pub struct Interpreter {
    tracks: Vec<usize>,
}

impl View for Interpreter {
    type V = Seq<usize>;

    /// The live tracks, leftmost first.
    closed spec fn view(&self) -> Seq<usize> {
        self.tracks@
    }
}

impl Interpreter {
    /// No track is live twice.
    pub closed spec fn wf(&self) -> bool {
        self.tracks@.no_duplicates()
    }

    /// An interpreter with track `0` live.
    pub fn new() -> (r: Self)
        ensures
            r@ == seed(),
            r.wf(),
    {
        let mut tracks: Vec<usize> = Vec::new();
        tracks.push(0);
        proof {
            assert(tracks@ =~= seed());
        }
        Interpreter { tracks }
    }

    /// The live tracks, leftmost first.
    pub fn tracks(&self) -> (r: &Vec<usize>)
        ensures
            r@ == self@,
    {
        &self.tracks
    }

    /// Appends to `out` the rows that `event` draws, and applies it to the
    /// live tracks.
    pub fn apply(&mut self, event: &Event, out: &mut String)
        requires
            old(self).wf(),
        ensures
            final(self).wf(),
            final(self)@ == next_tracks(old(self)@, *event),
            final(out)@ == old(out)@ + event_text(old(self)@, *event),
    {
        let ghost t = self.tracks@;
        let tracks = &mut self.tracks;
        match *event {
            Event::StartTrack(id) => {
                if !is_live(tracks, id) {
                    proof {
                        lemma_insert_no_duplicates(t, t.len() as int, id);
                        assert(t.insert(t.len() as int, id) =~= t.push(id));
                    }
                    tracks.push(id);
                    push_row(out, Shape::Plain, tracks.len());
                    proof {
                        let row = bare(Shape::Plain, tracks@.len() as nat);
                        lemma_rows_text_small(row, row);
                    }
                } else {
                    proof {
                        assert(rows_text(seq![]) =~= Seq::<char>::empty());
                    }
                }
            },
            Event::StartTracks(ids) => {
                let n = tracks.len();
                start_tracks(tracks, ids);
                if tracks.len() > n {
                    push_row(out, Shape::Plain, tracks.len());
                    proof {
                        let row = bare(Shape::Plain, tracks@.len() as nat);
                        lemma_rows_text_small(row, row);
                    }
                } else {
                    proof {
                        assert(rows_text(seq![]) =~= Seq::<char>::empty());
                    }
                }
            },
            Event::StopTrack(id) => {
                proof {
                    if t.contains(id) {
                        lemma_column_of(t, id);
                        lemma_remove_no_duplicates(t, column_of(t, id));
                    }
                }
                stop_track(tracks, id, out);
            },
            Event::Station(id, text) => {
                push_station(out, tracks, id, text);
            },
            Event::SplitTrack(from, new) => {
                if is_live(tracks, new) {
                    proof {
                        assert(rows_text(seq![]) =~= Seq::<char>::empty());
                    }
                } else {
                    match position(tracks, from) {
                        Some(c) => {
                            push_row(out, Shape::Branch(c), tracks.len());
                            proof {
                                lemma_insert_no_duplicates(t, c + 1, new);
                                let row = bare(Shape::Branch(c), t.len());
                                lemma_rows_text_small(row, row);
                            }
                            tracks.insert(c + 1, new);
                        },
                        None => {
                            proof {
                                lemma_insert_no_duplicates(t, t.len() as int, new);
                                assert(t.insert(t.len() as int, new) =~= t.push(new));
                            }
                            tracks.push(new);
                            push_row(out, Shape::Plain, tracks.len());
                            proof {
                                let row = bare(Shape::Plain, tracks@.len() as nat);
                                lemma_rows_text_small(row, row);
                            }
                        },
                    }
                }
            },
            Event::JoinTrack(from, to) => {
                match position(tracks, from) {
                    None => {
                        proof {
                            assert(rows_text(seq![]) =~= Seq::<char>::empty());
                        }
                    },
                    Some(a) => {
                        proof {
                            lemma_column_of(t, from);
                            lemma_remove_no_duplicates(t, a as int);
                        }
                        let b = if from == to {
                            None
                        } else {
                            position(tracks, to)
                        };
                        match b {
                            None => {
                                stop_at(tracks, a, out);
                            },
                            Some(b) => {
                                let n = tracks.len();
                                let l = if a < b { a } else { b };
                                let r = if a < b { b } else { a };
                                if r - l == 1 {
                                    push_row(out, Shape::Merge(l), n - 1);
                                    proof {
                                        let row = bare(Shape::Merge(l), (n - 1) as nat);
                                        lemma_rows_text_small(row, row);
                                    }
                                } else {
                                    push_row(out, Shape::Slide(l, r), n - 1);
                                    push_row(out, Shape::Land(l), n - 1);
                                    proof {
                                        lemma_rows_text_small(
                                            bare(Shape::Slide(l, r), (n - 1) as nat),
                                            bare(Shape::Land(l), (n - 1) as nat),
                                        );
                                    }
                                }
                                tracks.remove(a);
                            },
                        }
                    },
                }
            },
            Event::NoEvent => {
                push_row(out, Shape::Plain, tracks.len());
                proof {
                    let row = bare(Shape::Plain, t.len());
                    lemma_rows_text_small(row, row);
                }
            },
        }
    }
}

/// Renders `events`, starting from track `0`, into a string.
fn render_into(events: &[Event], out: &mut String)
    ensures
        final(out)@ == old(out)@ + render(events@),
{
    let mut interpreter = Interpreter::new();
    let mut i: usize = 0;
    while i < events.len()
        invariant
            i <= events@.len(),
            interpreter.wf(),
            interpreter@ == tracks_after(events@.take(i as int)),
            out@ == old(out)@ + render(events@.take(i as int)),
        decreases events.len() - i,
    {
        proof {
            assert(events@.take(i + 1).drop_last() =~= events@.take(i as int));
        }
        interpreter.apply(&events[i], out);
        i = i + 1;
    }
    proof {
        assert(events@.take(i as int) =~= events@);
    }
}

/// Renders `events` into a string, one line per row. Track `0` is live
/// before the first event.
pub fn to_string(events: &[Event]) -> (r: std::io::Result<String>)
    ensures
        r matches Ok(s) && s@ == render(events@),
{
    let mut s = String::new();
    render_into(events, &mut s);
    Ok(s)
}

/// Renders `events` into UTF-8 bytes, one line per row. Track `0` is live
/// before the first event.
pub fn to_vec(events: &[Event]) -> (r: std::io::Result<Vec<u8>>)
    ensures
        r matches Ok(v) && v@ == vstd::utf8::encode_utf8(render(events@)),
{
    let mut s = String::new();
    render_into(events, &mut s);
    Ok(s.as_str().as_bytes_vec())
}

} // verus!
