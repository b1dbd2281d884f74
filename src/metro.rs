//! A builder that records events through track handles.
use vstd::prelude::*;

use crate::events::{render, stop_tracks, to_string, to_vec, Event};
use crate::tracks::{
    is_live, lemma_column_of, lemma_insert_no_duplicates, lemma_remove_no_duplicates, position,
};

verus! {

/// Records a stream of [`Event`]s through [`Track`] handles, so that a
/// caller never has to write the edge cases of the events by hand.
///
/// Each track method takes the `Metro` it belongs to; a track is ended by an
/// explicit [`Track::stop`] or [`Track::join`].
pub struct Metro<'a> {
    live: Vec<usize>,
    events: Vec<Event<'a>>,
    next_id: usize,
}

/// A handle to a track of a [`Metro`], created by [`Metro::new_track`],
/// [`Metro::new_track_with_id`] or [`Track::split`].
#[derive(Debug)]
pub struct Track {
    id: usize,
}

impl Track {
    /// The track id of this handle.
    pub closed spec fn track_id(&self) -> usize {
        self.id
    }

    fn new(id: usize) -> (r: Track)
        ensures
            r.track_id() == id,
    {
        Track { id }
    }

    /// Returns the track id.
    pub fn id(&self) -> (r: usize)
        ensures
            r == self.track_id(),
    {
        self.id
    }

    /// Stops this track and removes it from `metro`, if it is live there.
    /// The id can then be used again with [`Metro::new_track_with_id`].
    pub fn stop<'a>(self, metro: &mut Metro<'a>)
        requires
            old(metro).wf(),
        ensures
            final(metro).wf(),
            !final(metro).live_tracks().contains(self.track_id()),
            old(metro).live_tracks().contains(self.track_id()) ==> final(metro).recorded()
                == old(metro).recorded().push(Event::StopTrack(self.track_id())),
            !old(metro).live_tracks().contains(self.track_id()) ==> final(metro).recorded()
                == old(metro).recorded(),
            final(metro).live_tracks() == stop_tracks(old(metro).live_tracks(), self.track_id()),
            final(metro).fresh_id() == old(metro).fresh_id(),
    {
        if is_live(&metro.live, self.id) {
            metro.add_event(Event::StopTrack(self.id));
            metro.remove_live(self.id);
        }
    }

    /// Records a station on this track.
    pub fn add_station<'a>(&mut self, metro: &mut Metro<'a>, text: &'a str)
        requires
            old(metro).wf(),
        ensures
            final(metro).wf(),
            *final(self) == *old(self),
            final(metro).recorded() == old(metro).recorded().push(
                Event::Station(old(self).track_id(), text),
            ),
            final(metro).live_tracks() == old(metro).live_tracks(),
            final(metro).fresh_id() == old(metro).fresh_id(),
    {
        metro.add_event(Event::Station(self.id, text));
    }

    /// Creates a track, with the next unused id, that branches off this one.
    pub fn split<'a>(&self, metro: &mut Metro<'a>) -> (r: Track)
        requires
            old(metro).wf(),
            old(metro).fresh_id() < usize::MAX,
        ensures
            final(metro).wf(),
            r.track_id() == old(metro).fresh_id(),
            final(metro).fresh_id() == old(metro).fresh_id() + 1,
            Metro::splits(*old(metro), *final(metro), self.track_id(), r.track_id()),
    {
        let id = metro.next_id();
        self.split_with_id(metro, id)
    }

    /// Creates a track with the id `new_track_id` that branches off this one.
    /// If `new_track_id` is live already, this returns a handle to it and
    /// records nothing.
    pub fn split_with_id<'a>(&self, metro: &mut Metro<'a>, new_track_id: usize) -> (r: Track)
        requires
            old(metro).wf(),
        ensures
            final(metro).wf(),
            r.track_id() == new_track_id,
            final(metro).fresh_id() == old(metro).fresh_id(),
            Metro::splits(*old(metro), *final(metro), self.track_id(), new_track_id),
    {
        if !is_live(&metro.live, new_track_id) {
            metro.push_live(new_track_id);
            metro.add_event(Event::SplitTrack(self.id, new_track_id));
        }
        Track::new(new_track_id)
    }

    /// Merges this track into `to_track`, removing this one from `metro`.
    pub fn join<'a>(self, to_track: &Track, metro: &mut Metro<'a>)
        requires
            old(metro).wf(),
        ensures
            final(metro).wf(),
            !final(metro).live_tracks().contains(self.track_id()),
            final(metro).recorded() == old(metro).recorded().push(
                Event::JoinTrack(self.track_id(), to_track.track_id()),
            ),
            final(metro).live_tracks() == stop_tracks(old(metro).live_tracks(), self.track_id()),
            final(metro).fresh_id() == old(metro).fresh_id(),
    {
        metro.add_event(Event::JoinTrack(self.id, to_track.id));
        metro.remove_live(self.id);
    }

    /// Whether this track is no longer live in `metro`. A new track with the
    /// same id makes it live again.
    pub fn is_dangling(&self, metro: &Metro) -> (r: bool)
        ensures
            r == !metro.live_tracks().contains(self.track_id()),
    {
        !is_live(&metro.live, self.id)
    }

    fn clone_ref(&self) -> (r: Track)
        ensures
            r.track_id() == self.track_id(),
    {
        Track { id: self.id }
    }
}

impl<'a> Metro<'a> {
    /// The ids of the live tracks, in the order they were created.
    pub closed spec fn live_tracks(&self) -> Seq<usize> {
        self.live@
    }

    /// The events recorded so far.
    pub closed spec fn recorded(&self) -> Seq<Event<'a>> {
        self.events@
    }

    /// The id that the next [`Metro::new_track`] or [`Track::split`] uses.
    pub closed spec fn fresh_id(&self) -> nat {
        self.next_id as nat
    }

    /// No id is live twice.
    pub closed spec fn wf(&self) -> bool {
        self.live@.no_duplicates()
    }

    /// `after` is `before` once track `id` is started: unchanged if it is
    /// live, else with `id` live and a `StartTrack(id)` recorded.
    pub open spec fn starts(before: Metro<'a>, after: Metro<'a>, id: usize) -> bool {
        if before.live_tracks().contains(id) {
            after.live_tracks() == before.live_tracks() && after.recorded() == before.recorded()
        } else {
            &&& after.live_tracks() == before.live_tracks().push(id)
            &&& after.recorded() == before.recorded().push(Event::StartTrack(id))
        }
    }

    /// `after` is `before` once track `new` is split off `from`: unchanged if
    /// `new` is live, else with `new` live and a `SplitTrack(from, new)`
    /// recorded.
    pub open spec fn splits(before: Metro<'a>, after: Metro<'a>, from: usize, new: usize) -> bool {
        if before.live_tracks().contains(new) {
            after.live_tracks() == before.live_tracks() && after.recorded() == before.recorded()
        } else {
            &&& after.live_tracks() == before.live_tracks().push(new)
            &&& after.recorded() == before.recorded().push(Event::SplitTrack(from, new))
        }
    }

    /// Creates an empty `Metro`.
    pub fn new() -> (r: Self)
        ensures
            r.live_tracks() == Seq::<usize>::empty(),
            r.recorded() == Seq::<Event<'a>>::empty(),
            r.fresh_id() == 0,
            r.wf(),
    {
        Metro { live: Vec::new(), events: Vec::new(), next_id: 0 }
    }

    fn next_id(&mut self) -> (r: usize)
        requires
            old(self).fresh_id() < usize::MAX,
        ensures
            r == old(self).fresh_id(),
            final(self).fresh_id() == old(self).fresh_id() + 1,
            final(self).live_tracks() == old(self).live_tracks(),
            final(self).recorded() == old(self).recorded(),
            final(self).wf() == old(self).wf(),
    {
        let id = self.next_id;
        self.next_id = self.next_id + 1;
        id
    }

    fn add_event(&mut self, event: Event<'a>)
        ensures
            final(self).recorded() == old(self).recorded().push(event),
            final(self).live_tracks() == old(self).live_tracks(),
            final(self).fresh_id() == old(self).fresh_id(),
            final(self).wf() == old(self).wf(),
    {
        self.events.push(event);
    }

    fn remove_live(&mut self, id: usize)
        requires
            old(self).wf(),
        ensures
            final(self).wf(),
            !final(self).live_tracks().contains(id),
            final(self).live_tracks() == stop_tracks(old(self).live_tracks(), id),
            final(self).recorded() == old(self).recorded(),
            final(self).fresh_id() == old(self).fresh_id(),
    {
        if let Some(k) = position(&self.live, id) {
            proof {
                lemma_column_of(self.live@, id);
                lemma_remove_no_duplicates(self.live@, k as int);
            }
            self.live.remove(k);
        }
    }

    fn push_live(&mut self, id: usize)
        requires
            old(self).wf(),
            !old(self).live_tracks().contains(id),
        ensures
            final(self).wf(),
            final(self).live_tracks() == old(self).live_tracks().push(id),
            final(self).recorded() == old(self).recorded(),
            final(self).fresh_id() == old(self).fresh_id(),
    {
        proof {
            let t = self.live@;
            lemma_insert_no_duplicates(t, t.len() as int, id);
            assert(t.insert(t.len() as int, id) =~= t.push(id));
        }
        self.live.push(id);
    }

    /// Creates a track with the next unused id.
    pub fn new_track(&mut self) -> (r: Track)
        requires
            old(self).wf(),
            old(self).fresh_id() < usize::MAX,
        ensures
            final(self).wf(),
            r.track_id() == old(self).fresh_id(),
            final(self).fresh_id() == old(self).fresh_id() + 1,
            Metro::starts(*old(self), *final(self), r.track_id()),
    {
        let id = self.next_id();
        self.new_track_with_id(id)
    }

    /// Creates a track with the id `track_id`. If it is live already, this
    /// returns a handle to it and records nothing.
    pub fn new_track_with_id(&mut self, track_id: usize) -> (r: Track)
        requires
            old(self).wf(),
        ensures
            final(self).wf(),
            r.track_id() == track_id,
            final(self).fresh_id() == old(self).fresh_id(),
            Metro::starts(*old(self), *final(self), track_id),
    {
        if !is_live(&self.live, track_id) {
            self.push_live(track_id);
            self.add_event(Event::StartTrack(track_id));
        }
        Track::new(track_id)
    }

    /// A handle to the track `track_id`, if it is live.
    pub fn get_track(&mut self, track_id: usize) -> (r: Option<Track>)
        requires
            old(self).wf(),
        ensures
            final(self).wf(),
            *final(self) == *old(self),
            r is Some <==> old(self).live_tracks().contains(track_id),
            r matches Some(t) ==> t.track_id() == track_id,
    {
        if is_live(&self.live, track_id) {
            let t = Track::new(track_id);
            Some(t.clone_ref())
        } else {
            None
        }
    }

    /// Records a station that belongs to no track. It is drawn with the id
    /// `usize::MAX`, which no track is expected to use.
    pub fn add_station(&mut self, text: &'a str)
        requires
            old(self).wf(),
        ensures
            final(self).wf(),
            final(self).recorded() == old(self).recorded().push(Event::Station(usize::MAX, text)),
            final(self).live_tracks() == old(self).live_tracks(),
            final(self).fresh_id() == old(self).fresh_id(),
    {
        self.add_event(Event::Station(usize::MAX, text));
    }

    /// Renders the recorded events into UTF-8 bytes; see [`to_vec`].
    pub fn to_vec(&self) -> (r: std::io::Result<Vec<u8>>)
        ensures
            r matches Ok(v) && v@ == vstd::utf8::encode_utf8(render(self.recorded())),
    {
        to_vec(self.events.as_slice())
    }

    /// Renders the recorded events into a string; see [`to_string`].
    pub fn to_string(&self) -> (r: std::io::Result<String>)
        ensures
            r matches Ok(s) && s@ == render(self.recorded()),
    {
        to_string(self.events.as_slice())
    }

    /// A copy of the recorded events.
    pub fn to_events(&self) -> (r: Vec<Event<'a>>)
        ensures
            r@ == self.recorded(),
    {
        let mut r: Vec<Event<'a>> = Vec::new();
        let mut i: usize = 0;
        while i < self.events.len()
            invariant
                i <= self.events@.len(),
                r@ == self.events@.take(i as int),
            decreases self.events.len() - i,
        {
            r.push(self.events[i]);
            i = i + 1;
            assert(r@ =~= self.events@.take(i as int));
        }
        assert(self.events@.take(i as int) =~= self.events@);
        r
    }

    /// The recorded events, consuming the `Metro`.
    pub fn into_events(self) -> (r: Vec<Event<'a>>)
        ensures
            r@ == self.recorded(),
    {
        self.events
    }
}

} // verus!
