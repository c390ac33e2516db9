//! The client of one stream: the tracks discovered so far, the position of
//! the next track to hand out, and the address that segments are fetched
//! from. It does no fetching itself: it says what to fetch next.

use crate::manifest::{parse_manifest, HlsManifest, Track, TrackView};
use crate::queue::{is_prefix, lemma_merge_extends, merged, names_distinct, TrackQueue};
use vstd::prelude::*;

verus! {

/// The address `url` with `path` in place of its own path, or nothing where
/// `url` is no address. What else the address holds stays: its scheme, its
/// host and port, its query and its fragment.
pub uninterp spec fn url_with_path(url: Seq<char>, path: Seq<char>) -> Option<Seq<char>>;

/// The root of the address `url`: the address with the empty path in place
/// of its own, or nothing where `url` is no address. Only the path goes: a
/// query or a fragment of `url` is part of its root too.
pub open spec fn root_url(url: Seq<char>) -> Option<Seq<char>> {
    url_with_path(url, Seq::empty())
}

/// The address that `locator` names when it is read against the address
/// `base`, or nothing where the two give no address.
pub uninterp spec fn resolved_url(base: Seq<char>, locator: Seq<char>) -> Option<Seq<char>>;

/// Reads `url` with `Url::parse`, puts `path` in place of its path with
/// `Url::set_path` and writes the address out again. The contract gives the
/// outcome its name, `url_with_path`, and claims nothing else of it: that
/// the outcome is set by the characters of the two arguments alone. Only
/// the empty path is admitted: with it the address cannot grow beyond what
/// the outside type can hold.
#[verifier::external_body]
fn with_path(url: &str, path: &str) -> (r: Option<String>)
    requires
        path@.len() == 0,
    ensures
        match r {
            Some(changed) => url_with_path(url@, path@) == Some(changed@),
            None => url_with_path(url@, path@) is None,
        },
{
    match reqwest::Url::parse(url) {
        Ok(mut parsed) => {
            parsed.set_path(path);
            Some(String::from(parsed))
        },
        Err(_) => None,
    }
}

/// Reads `base` with `Url::parse`, resolves `locator` against it with
/// `Url::join` and writes the address out. The contract gives the outcome
/// its name, `resolved_url`, and claims nothing else of it: that the
/// outcome is set by the characters of the two arguments alone.
#[verifier::external_body]
fn resolve(base: &str, locator: &str) -> (r: Option<String>)
    ensures
        match r {
            Some(address) => resolved_url(base@, locator@) == Some(address@),
            None => resolved_url(base@, locator@) is None,
        },
{
    match reqwest::Url::parse(base) {
        Ok(parsed) => match parsed.join(locator) {
            Ok(joined) => Some(String::from(joined)),
            Err(_) => None,
        },
        Err(_) => None,
    }
}

/// What the client asks of its caller when it is asked for the next track.
#[derive(Debug)]
pub enum Pull {
    /// No track stands at the client's position yet: ask again later.
    Wait,
    /// Fetch the segment at `url`; it is the track `name`.
    Fetch { url: String, name: String },
    /// The track `name` has a locator that gives no address.
    Unresolved { name: String },
}

/// What a pull is, with text as sequences of characters.
pub enum PullView {
    Wait,
    Fetch { url: Seq<char>, name: Seq<char> },
    Unresolved { name: Seq<char> },
}

impl View for Pull {
    type V = PullView;

    open spec fn view(&self) -> PullView {
        match self {
            Pull::Wait => PullView::Wait,
            Pull::Fetch { url, name } => PullView::Fetch { url: url@, name: name@ },
            Pull::Unresolved { name } => PullView::Unresolved { name: name@ },
        }
    }
}

/// The pull for a track, given the address that its locator gave.
pub open spec fn pull_for(name: Seq<char>, address: Option<Seq<char>>) -> PullView {
    match address {
        Some(url) => PullView::Fetch { url, name },
        None => PullView::Unresolved { name },
    }
}

/// Makes the pull for a track out of the address that its locator gave.
pub fn pull_of(track: &Track, address: Option<String>) -> (r: Pull)
    ensures
        r@ == pull_for(
            track@.name,
            match address {
                Some(url) => Some(url@),
                None => None,
            },
        ),
{
    match address {
        Some(url) => Pull::Fetch { url, name: track.name.clone() },
        None => Pull::Unresolved { name: track.name.clone() },
    }
}

/// The client of one stream.
pub struct HlsClient {
    idx: usize,
    uri: String,
    run: bool,
    tracks: TrackQueue,
}

impl HlsClient {
    /// The position is inside the queue or at its end, and the queue holds
    /// no name twice.
    pub closed spec fn wf(&self) -> bool {
        self.idx <= self.tracks@.len() && self.tracks.wf()
    }

    /// The tracks discovered so far, in the order of their discovery.
    pub closed spec fn queue(&self) -> Seq<TrackView> {
        self.tracks@
    }

    /// Number of tracks handed out so far.
    pub closed spec fn spec_position(&self) -> usize {
        self.idx
    }

    /// The address that segments are resolved against.
    pub closed spec fn base(&self) -> Seq<char> {
        self.uri@
    }

    /// Whether the client was not stopped yet.
    pub closed spec fn running(&self) -> bool {
        self.run
    }

    /// The tracks handed out so far, first to last.
    pub open spec fn delivered(&self) -> Seq<TrackView> {
        self.queue().take(self.spec_position() as int)
    }

    /// Tracks are handed out in the order of the queue, none passed over:
    /// what was handed out is how the queue starts.
    pub proof fn lemma_delivered_in_queue_order(&self)
        requires
            self.wf(),
        ensures
            is_prefix(self.delivered(), self.queue()),
            self.delivered().len() == self.spec_position(),
            names_distinct(self.queue()),
    {
        assert(self.queue().take(self.delivered().len() as int) =~= self.delivered());
    }

    /// A running client at the start of the stream whose segments are
    /// resolved against `root`.
    pub fn with_root(root: String) -> (r: HlsClient)
        ensures
            r.wf(),
            r.queue() == Seq::<TrackView>::empty(),
            r.spec_position() == 0,
            r.base() == root@,
            r.running(),
    {
        HlsClient { idx: 0, uri: root, run: true, tracks: TrackQueue::new() }
    }

    /// A running client for the stream whose manifest lies at `url`:
    /// segments are resolved against the root of that address, which is the
    /// address without its path. `None` where `url` is no address.
    pub fn new(url: &str) -> (r: Option<HlsClient>)
        ensures
            match r {
                Some(c) => {
                    &&& c.wf()
                    &&& c.queue() == Seq::<TrackView>::empty()
                    &&& c.spec_position() == 0
                    &&& c.running()
                    &&& root_url(url@) == Some(c.base())
                },
                None => root_url(url@) is None,
            },
    {
        proof {
            reveal_strlit("");
            assert(""@ =~= Seq::<char>::empty());
        }
        match with_path(url, "") {
            Some(root) => Some(HlsClient::with_root(root)),
            None => None,
        }
    }

    /// Stops the client: the loops that serve it end at their next turn.
    pub fn stop(&mut self)
        ensures
            !final(self).running(),
            final(self).queue() == old(self).queue(),
            final(self).spec_position() == old(self).spec_position(),
            final(self).base() == old(self).base(),
            final(self).wf() == old(self).wf(),
    {
        self.run = false;
    }

    #[verifier::when_used_as_spec(running)]
    pub fn is_running(&self) -> (r: bool)
        ensures
            r == self.running(),
    {
        self.run
    }

    #[verifier::when_used_as_spec(spec_position)]
    pub fn position(&self) -> (r: usize)
        ensures
            r == self.spec_position(),
    {
        self.idx
    }

    /// Number of tracks discovered so far.
    pub fn discovered(&self) -> (n: usize)
        ensures
            n == self.queue().len(),
    {
        self.tracks.len()
    }

    /// The address that segments are resolved against.
    pub fn root(&self) -> (r: &String)
        ensures
            r@ == self.base(),
    {
        &self.uri
    }

    /// Merges the tracks of a manifest into the queue: each track whose
    /// name is new is put at the end, in the manifest's order.
    pub fn merge(&mut self, manifest: &HlsManifest)
        requires
            old(self).wf(),
        ensures
            final(self).wf(),
            final(self).queue() == merged(old(self).queue(), manifest@.tracks),
            final(self).delivered() == old(self).delivered(),
            final(self).spec_position() == old(self).spec_position(),
            final(self).base() == old(self).base(),
            final(self).running() == old(self).running(),
    {
        proof {
            lemma_merge_extends(self.tracks@, manifest@.tracks);
        }
        self.tracks.merge(&manifest.tracks);
        proof {
            let before = old(self).tracks@;
            let after = self.tracks@;
            assert(after.take(self.idx as int) =~= after.take(before.len() as int).take(
                self.idx as int,
            ));
        }
    }

    /// One poll of the manifest: reads `document` and merges the tracks of
    /// the manifest that it spells. A document that spells none changes
    /// nothing. The result tells whether a manifest was read.
    pub fn poll(&mut self, document: &str) -> (read: bool)
        requires
            old(self).wf(),
        ensures
            final(self).wf(),
            read == parse_manifest(document@) is Some,
            final(self).queue() == match parse_manifest(document@) {
                Some(m) => merged(old(self).queue(), m.tracks),
                None => old(self).queue(),
            },
            final(self).delivered() == old(self).delivered(),
            final(self).spec_position() == old(self).spec_position(),
            final(self).base() == old(self).base(),
            final(self).running() == old(self).running(),
    {
        match HlsManifest::new(document) {
            Some(manifest) => {
                self.merge(&manifest);
                true
            },
            None => false,
        }
    }

    /// Hands out the next track. Where the queue has a track at the
    /// client's position, the position moves on by one and the result says
    /// what to fetch: the address that the track's locator gives against the
    /// client's base. Where it has none yet, nothing changes and the result
    /// is `Wait`.
    pub fn next(&mut self) -> (r: Pull)
        requires
            old(self).wf(),
        ensures
            final(self).wf(),
            final(self).queue() == old(self).queue(),
            final(self).base() == old(self).base(),
            final(self).running() == old(self).running(),
            old(self).spec_position() < old(self).queue().len() ==> {
                let track = old(self).queue()[old(self).spec_position() as int];
                &&& final(self).spec_position() == old(self).spec_position() + 1
                &&& final(self).delivered() == old(self).delivered().push(track)
                &&& r@ == pull_for(track.name, resolved_url(old(self).base(), track.name))
            },
            old(self).spec_position() >= old(self).queue().len() ==> {
                &&& final(self).spec_position() == old(self).spec_position()
                &&& r@ == PullView::Wait
            },
    {
        match self.tracks.get(self.idx) {
            Some(track) => {
                let address = resolve(self.uri.as_str(), track.name.as_str());
                let pull = pull_of(track, address);
                proof {
                    let q = self.tracks@;
                    assert(q.take(self.idx + 1) =~= q.take(self.idx as int).push(
                        q[self.idx as int],
                    ));
                }
                self.idx = self.idx + 1;
                pull
            },
            None => Pull::Wait,
        }
    }
}

} // verus!
