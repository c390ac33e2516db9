//! The queue of the tracks that were discovered so far: it only grows, it
//! keeps the order of discovery, and it holds each name once.

use crate::manifest::{tracks_view, Track, TrackView};
use std::collections::VecDeque;
use vstd::prelude::*;

verus! {

/// Some track of the list has the name `name`.
pub open spec fn has_name(tracks: Seq<TrackView>, name: Seq<char>) -> bool {
    exists|j: int| 0 <= j < tracks.len() && (#[trigger] tracks[j]).name == name
}

/// No two tracks of the list have the same name.
pub open spec fn names_distinct(tracks: Seq<TrackView>) -> bool {
    forall|i: int, j: int|
        0 <= i < j < tracks.len() ==> (#[trigger] tracks[i]).name != (#[trigger] tracks[j]).name
}

/// The queue after `track` was offered to it: the track stands at the end
/// if its name is new, and the queue is as before if it is not.
pub open spec fn appended(queue: Seq<TrackView>, track: TrackView) -> Seq<TrackView> {
    if has_name(queue, track.name) {
        queue
    } else {
        queue.push(track)
    }
}

/// The queue after the tracks of `found` were offered to it one by one,
/// first to last.
pub open spec fn merged(queue: Seq<TrackView>, found: Seq<TrackView>) -> Seq<TrackView>
    decreases found.len(),
{
    if found.len() == 0 {
        queue
    } else {
        appended(merged(queue, found.drop_last()), found.last())
    }
}

/// `a` is how `b` starts.
pub open spec fn is_prefix(a: Seq<TrackView>, b: Seq<TrackView>) -> bool {
    a.len() <= b.len() && b.take(a.len() as int) == a
}

/// Offering a track never shortens the queue nor moves what it holds, and
/// lengthens it by one track at most.
pub proof fn lemma_append_extends(queue: Seq<TrackView>, track: TrackView)
    ensures
        is_prefix(queue, appended(queue, track)),
        appended(queue, track).len() <= queue.len() + 1,
        has_name(appended(queue, track), track.name),
{
    let after = appended(queue, track);
    assert(after.take(queue.len() as int) =~= queue);
    if !has_name(queue, track.name) {
        assert(after[queue.len() as int].name == track.name);
    }
}

/// Offering a track keeps the names distinct.
pub proof fn lemma_append_keeps_distinct(queue: Seq<TrackView>, track: TrackView)
    requires
        names_distinct(queue),
    ensures
        names_distinct(appended(queue, track)),
{
}

/// A track whose name was offered before is not taken again: offering
/// two tracks of one name leaves the queue as the first of them left it.
pub proof fn lemma_append_twice(queue: Seq<TrackView>, first: TrackView, second: TrackView)
    requires
        first.name == second.name,
    ensures
        appended(appended(queue, first), second) == appended(queue, first),
{
    lemma_append_extends(queue, first);
}

/// Merging never shortens the queue nor moves what it holds: the queue
/// before is how the queue after starts.
pub proof fn lemma_merge_extends(queue: Seq<TrackView>, found: Seq<TrackView>)
    ensures
        is_prefix(queue, merged(queue, found)),
        merged(queue, found).len() <= queue.len() + found.len(),
    decreases found.len(),
{
    if found.len() == 0 {
        assert(queue.take(queue.len() as int) =~= queue);
    } else {
        let before = merged(queue, found.drop_last());
        lemma_merge_extends(queue, found.drop_last());
        lemma_append_extends(before, found.last());
        let after = merged(queue, found);
        assert(after.take(queue.len() as int) =~= before.take(queue.len() as int));
    }
}

/// Merging keeps the names distinct.
pub proof fn lemma_merge_keeps_distinct(queue: Seq<TrackView>, found: Seq<TrackView>)
    requires
        names_distinct(queue),
    ensures
        names_distinct(merged(queue, found)),
    decreases found.len(),
{
    if found.len() > 0 {
        lemma_merge_keeps_distinct(queue, found.drop_last());
        lemma_append_keeps_distinct(merged(queue, found.drop_last()), found.last());
    }
}

/// A name that a list holds is held by every list that starts with it.
pub proof fn lemma_prefix_keeps_names(a: Seq<TrackView>, b: Seq<TrackView>, name: Seq<char>)
    requires
        is_prefix(a, b),
        has_name(a, name),
    ensures
        has_name(b, name),
{
    let j = choose|j: int| 0 <= j < a.len() && (#[trigger] a[j]).name == name;
    assert(b.take(a.len() as int)[j] == b[j]);
    assert(b[j].name == name);
}

/// A name that the queue holds stays in it through a merge.
pub proof fn lemma_merge_keeps_names(queue: Seq<TrackView>, found: Seq<TrackView>, name: Seq<char>)
    requires
        has_name(queue, name),
    ensures
        has_name(merged(queue, found), name),
{
    lemma_merge_extends(queue, found);
    lemma_prefix_keeps_names(queue, merged(queue, found), name);
}

/// After a merge the queue holds the name of every track that was found.
pub proof fn lemma_merge_holds_found(queue: Seq<TrackView>, found: Seq<TrackView>, k: int)
    requires
        0 <= k < found.len(),
    ensures
        has_name(merged(queue, found), found[k].name),
    decreases found.len(),
{
    let before = merged(queue, found.drop_last());
    lemma_append_extends(before, found.last());
    if k < found.len() - 1 {
        lemma_merge_holds_found(queue, found.drop_last(), k);
        assert(found.drop_last()[k] == found[k]);
        lemma_prefix_keeps_names(before, appended(before, found.last()), found[k].name);
    }
}

/// Every track of the queue after a merge was in the queue before, at the
/// same place, or is one of the tracks that were found, under a name that
/// the queue did not hold.
pub proof fn lemma_merge_sources(queue: Seq<TrackView>, found: Seq<TrackView>, i: int)
    requires
        0 <= i < merged(queue, found).len(),
    ensures
        i < queue.len() ==> merged(queue, found)[i] == queue[i],
        i >= queue.len() ==> found.contains(merged(queue, found)[i]) && !has_name(
            queue,
            merged(queue, found)[i].name,
        ),
    decreases found.len(),
{
    lemma_merge_extends(queue, found);
    let after = merged(queue, found);
    if i < queue.len() {
        assert(after.take(queue.len() as int)[i] == after[i]);
    } else {
        let before = merged(queue, found.drop_last());
        lemma_merge_extends(queue, found.drop_last());
        if i < before.len() {
            lemma_merge_sources(queue, found.drop_last(), i);
            let j = choose|j: int|
                0 <= j < found.drop_last().len() && found.drop_last()[j] == before[i];
            assert(found[j] == before[i]);
        } else {
            assert(after[i] == found.last());
            assert(found[found.len() - 1] == after[i]);
            if has_name(queue, found.last().name) {
                lemma_merge_keeps_names(queue, found.drop_last(), found.last().name);
            }
        }
    }
}

/// Merging two lists one after the other is merging the one list that
/// holds the first and then the second.
pub proof fn lemma_merge_concat(queue: Seq<TrackView>, first: Seq<TrackView>, second: Seq<TrackView>)
    ensures
        merged(merged(queue, first), second) == merged(queue, first + second),
    decreases second.len(),
{
    if second.len() == 0 {
        assert(first + second =~= first);
    } else {
        lemma_merge_concat(queue, first, second.drop_last());
        assert((first + second).drop_last() =~= first + second.drop_last());
        assert((first + second).last() == second.last());
    }
}

/// Merging a list that was merged before changes nothing.
pub proof fn lemma_merge_twice(queue: Seq<TrackView>, found: Seq<TrackView>)
    ensures
        merged(merged(queue, found), found) == merged(queue, found),
{
    assert forall|k: int| 0 <= k < found.len() implies has_name(
        merged(queue, found),
        (#[trigger] found[k]).name,
    ) by {
        lemma_merge_holds_found(queue, found, k);
    }
    lemma_merge_again(merged(queue, found), found, found.len() as int);
    assert(found.take(found.len() as int) =~= found);
}

/// Merging tracks whose names the queue holds changes nothing.
pub proof fn lemma_merge_again(queue: Seq<TrackView>, found: Seq<TrackView>, k: int)
    requires
        0 <= k <= found.len(),
        forall|j: int| 0 <= j < k ==> has_name(queue, (#[trigger] found[j]).name),
    ensures
        merged(queue, found.take(k)) == queue,
    decreases k,
{
    if k > 0 {
        lemma_merge_again(queue, found, k - 1);
        assert(found.take(k).drop_last() =~= found.take(k - 1));
        assert(found.take(k).last() == found[k - 1]);
    }
}

/// Tracks come in the order of their discovery: what a first poll found
/// keeps its place when a second poll is merged, and what only the second
/// poll found stands behind it.
pub proof fn lemma_discovery_order(first: Seq<TrackView>, second: Seq<TrackView>)
    ensures
        is_prefix(
            merged(Seq::empty(), first),
            merged(merged(Seq::empty(), first), second),
        ),
        merged(merged(Seq::empty(), first), second) == merged(Seq::empty(), first + second),
        names_distinct(merged(merged(Seq::empty(), first), second)),
{
    lemma_merge_extends(merged(Seq::empty(), first), second);
    lemma_merge_concat(Seq::empty(), first, second);
    lemma_merge_keeps_distinct(Seq::empty(), first + second);
}

/// The tracks that were discovered so far.
pub struct TrackQueue {
    tracks: VecDeque<Track>,
}

impl View for TrackQueue {
    type V = Seq<TrackView>;

    closed spec fn view(&self) -> Seq<TrackView> {
        tracks_view(self.tracks@)
    }
}

impl TrackQueue {
    /// No name occurs twice.
    pub open spec fn wf(&self) -> bool {
        names_distinct(self@)
    }

    /// A queue without tracks.
    pub fn new() -> (r: TrackQueue)
        ensures
            r.wf(),
            r@ == Seq::<TrackView>::empty(),
    {
        let r = TrackQueue { tracks: VecDeque::with_capacity(256) };
        assert(r@ =~= Seq::<TrackView>::empty());
        r
    }

    /// Number of tracks.
    pub fn len(&self) -> (n: usize)
        ensures
            n == self@.len(),
    {
        self.tracks.len()
    }

    /// The track at position `idx`, if the queue has grown that far.
    pub fn get(&self, idx: usize) -> (r: Option<&Track>)
        ensures
            self@.len() <= usize::MAX,
            match r {
                Some(t) => idx < self@.len() && t@ == self@[idx as int],
                None => idx >= self@.len(),
            },
    {
        if idx < self.tracks.len() {
            Some(&self.tracks[idx])
        } else {
            None
        }
    }

    /// Tells whether a track of this name is in the queue.
    pub fn contains(&self, name: &String) -> (r: bool)
        ensures
            r == has_name(self@, name@),
    {
        let mut j: usize = 0;
        while j < self.tracks.len()
            invariant
                j <= self@.len(),
                self@.len() == self.tracks@.len(),
                forall|i: int| 0 <= i < j ==> (#[trigger] self@[i]).name != name@,
            decreases self@.len() - j,
        {
            assert(self@[j as int] == self.tracks@[j as int]@);
            if self.tracks[j].name == *name {
                return true;
            }
            j += 1;
        }
        false
    }

    /// Offers a track to the queue. It is put at the end if no track of its
    /// name is there yet, and dropped if one is. The result tells whether
    /// the queue took it.
    pub fn append(&mut self, track: Track) -> (taken: bool)
        requires
            old(self).wf(),
        ensures
            final(self).wf(),
            final(self)@ == appended(old(self)@, track@),
            taken == !has_name(old(self)@, track@.name),
    {
        if self.contains(&track.name) {
            false
        } else {
            proof {
                assert(tracks_view(self.tracks@.push(track)) =~= self@.push(track@));
            }
            self.tracks.push_back(track);
            true
        }
    }

    /// Offers the tracks of `found` to the queue, first to last.
    pub fn merge(&mut self, found: &Vec<Track>)
        requires
            old(self).wf(),
        ensures
            final(self).wf(),
            final(self)@ == merged(old(self)@, tracks_view(found@)),
    {
        let ghost offered = tracks_view(found@);
        let mut k: usize = 0;
        while k < found.len()
            invariant
                k <= found@.len(),
                offered == tracks_view(found@),
                self.wf(),
                self@ == merged(old(self)@, offered.take(k as int)),
            decreases found@.len() - k,
        {
            proof {
                assert(offered.take(k + 1).drop_last() =~= offered.take(k as int));
                assert(offered.take(k + 1).last() == found@[k as int]@);
            }
            let _ = self.append(found[k].duplicate());
            k += 1;
        }
        assert(offered.take(k as int) =~= offered);
    }
}

} // verus!
