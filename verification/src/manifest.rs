//! The manifest of a segmented stream: its grammar, stated over tokens, and
//! the parser that reads it.

use crate::number::{
    is_duration, is_duration_token, is_number_char, lemma_duration_shape, parse_i32, parse_integer,
};
use crate::text::{
    chars_of, is_token, lemma_tokens_are_tokens, same_text, span_is, spans_text, spans_within,
    token_spans, tokens,
};
use vstd::prelude::*;

verus! {

/// A value of the manifest's metadata. A real value is held by the 32 bits
/// of its single-precision encoding.
#[derive(Debug)]
pub enum HlsManifestMetadataType {
    Text(String),
    Integer(i32),
    Double(u32),
}

/// What a metadata value is, with text as a sequence of characters.
pub enum MetadataValue {
    Text(Seq<char>),
    Integer(i32),
    Double(u32),
}

impl View for HlsManifestMetadataType {
    type V = MetadataValue;

    open spec fn view(&self) -> MetadataValue {
        match self {
            HlsManifestMetadataType::Text(s) => MetadataValue::Text(s@),
            HlsManifestMetadataType::Integer(v) => MetadataValue::Integer(*v),
            HlsManifestMetadataType::Double(b) => MetadataValue::Double(*b),
        }
    }
}

/// One segment of the stream: where to fetch it, and how long it plays.
/// The duration is kept as the manifest wrote it: seconds as a decimal
/// number that is not negative.
#[derive(Debug)]
pub struct Track {
    pub name: String,
    pub duration: String,
}

pub struct TrackView {
    pub name: Seq<char>,
    pub duration: Seq<char>,
}

impl View for Track {
    type V = TrackView;

    open spec fn view(&self) -> TrackView {
        TrackView { name: self.name@, duration: self.duration@ }
    }
}

impl Track {
    /// A second track with the same name and duration.
    pub fn duplicate(&self) -> (r: Track)
        ensures
            r@ == self@,
    {
        Track { name: self.name.clone(), duration: self.duration.clone() }
    }
}

/// The views of a list of tracks, in the same order.
pub open spec fn tracks_view(tracks: Seq<Track>) -> Seq<TrackView> {
    Seq::new(tracks.len(), |i: int| tracks[i]@)
}

/// The mapping that a list of pairs stands for: each key with the value
/// of the last pair that holds it.
pub open spec fn entries_map(entries: Seq<(String, HlsManifestMetadataType)>) -> Map<
    Seq<char>,
    MetadataValue,
>
    decreases entries.len(),
{
    if entries.len() == 0 {
        Map::empty()
    } else {
        entries_map(entries.drop_last()).insert(entries.last().0@, entries.last().1@)
    }
}

/// No two pairs of the list hold the same key.
pub open spec fn keys_distinct(entries: Seq<(String, HlsManifestMetadataType)>) -> bool {
    forall|i: int, j: int|
        0 <= i < j < entries.len() ==> (#[trigger] entries[i]).0@ != (#[trigger] entries[j]).0@
}

/// With distinct keys the mapping holds exactly the pairs of the list.
pub proof fn lemma_entries_map(entries: Seq<(String, HlsManifestMetadataType)>)
    requires
        keys_distinct(entries),
    ensures
        forall|j: int|
            0 <= j < entries.len() ==> entries_map(entries).contains_key(
                (#[trigger] entries[j]).0@,
            ) && entries_map(entries)[entries[j].0@] == entries[j].1@,
        forall|k: Seq<char>| #[trigger]
            entries_map(entries).contains_key(k) ==> exists|j: int|
                0 <= j < entries.len() && (#[trigger] entries[j]).0@ == k,
        entries_map(entries).dom().finite(),
        entries_map(entries).len() == entries.len(),
    decreases entries.len(),
{
    if entries.len() > 0 {
        let front = entries.drop_last();
        let last = entries.last();
        assert(keys_distinct(front)) by {
            assert forall|i: int, j: int| 0 <= i < j < front.len() implies (#[trigger] front[i]).0@
                != (#[trigger] front[j]).0@ by {
                assert(front[i] == entries[i] && front[j] == entries[j]);
            }
        }
        lemma_entries_map(front);
        assert(!entries_map(front).contains_key(last.0@)) by {
            if entries_map(front).contains_key(last.0@) {
                let j = choose|j: int| 0 <= j < front.len() && (#[trigger] front[j]).0@ == last.0@;
                assert(front[j] == entries[j]);
                assert(entries[entries.len() - 1] == last);
            }
        }
        assert forall|j: int| 0 <= j < entries.len() implies entries_map(entries).contains_key(
            (#[trigger] entries[j]).0@,
        ) && entries_map(entries)[entries[j].0@] == entries[j].1@ by {
            if j < front.len() {
                assert(front[j] == entries[j]);
            }
        }
        assert forall|k: Seq<char>| #[trigger]
            entries_map(entries).contains_key(k) implies exists|j: int|
            0 <= j < entries.len() && (#[trigger] entries[j]).0@ == k by {
            if k == last.0@ {
                assert(entries[entries.len() - 1].0@ == k);
            } else {
                let j = choose|j: int| 0 <= j < front.len() && (#[trigger] front[j]).0@ == k;
                assert(front[j] == entries[j]);
            }
        }
    }
}

/// The metadata of a manifest: a mapping from keys to values.
#[derive(Debug)]
pub struct Metadata {
    entries: Vec<(String, HlsManifestMetadataType)>,
}

impl View for Metadata {
    type V = Map<Seq<char>, MetadataValue>;

    closed spec fn view(&self) -> Map<Seq<char>, MetadataValue> {
        entries_map(self.entries@)
    }
}

impl Metadata {
    /// Each key is held once.
    pub closed spec fn wf(&self) -> bool {
        keys_distinct(self.entries@)
    }

    /// The empty mapping.
    pub fn new() -> (r: Metadata)
        ensures
            r.wf(),
            r@ == Map::<Seq<char>, MetadataValue>::empty(),
    {
        Metadata { entries: Vec::new() }
    }

    /// The pairs of the mapping, each key once.
    pub fn entries(&self) -> (r: &Vec<(String, HlsManifestMetadataType)>)
        ensures
            entries_map(r@) == self@,
            self.wf() ==> keys_distinct(r@),
    {
        &self.entries
    }

    /// Number of keys.
    pub fn len(&self) -> (n: usize)
        requires
            self.wf(),
        ensures
            self@.dom().finite(),
            n == self@.len(),
    {
        proof {
            lemma_entries_map(self.entries@);
        }
        self.entries.len()
    }

    /// Position of `key` among the pairs, if it is there.
    fn position(&self, key: &str) -> (r: Option<usize>)
        requires
            self.wf(),
        ensures
            match r {
                Some(j) => j < self.entries@.len() && self.entries@[j as int].0@ == key@,
                None => forall|j: int|
                    0 <= j < self.entries@.len() ==> (#[trigger] self.entries@[j]).0@ != key@,
            },
    {
        let mut j: usize = 0;
        while j < self.entries.len()
            invariant
                j <= self.entries@.len(),
                forall|i: int| 0 <= i < j ==> (#[trigger] self.entries@[i]).0@ != key@,
            decreases self.entries@.len() - j,
        {
            if same_text(self.entries[j].0.as_str(), key) {
                return Some(j);
            }
            j += 1;
        }
        None
    }

    /// The value stored under `key`.
    pub fn get(&self, key: &str) -> (r: Option<&HlsManifestMetadataType>)
        requires
            self.wf(),
        ensures
            match r {
                Some(v) => self@.contains_key(key@) && self@[key@] == v@,
                None => !self@.contains_key(key@),
            },
    {
        proof {
            lemma_entries_map(self.entries@);
        }
        match self.position(key) {
            Some(j) => Some(&self.entries[j].1),
            None => None,
        }
    }

    /// Stores `value` under `key`, in place of what was stored there.
    pub fn insert(&mut self, key: String, value: HlsManifestMetadataType)
        requires
            old(self).wf(),
        ensures
            final(self).wf(),
            final(self)@ == old(self)@.insert(key@, value@),
    {
        let ghost before = self.entries@;
        proof {
            lemma_entries_map(before);
        }
        match self.position(key.as_str()) {
            Some(j) => {
                self.entries.set(j, (key, value));
                proof {
                    let after = self.entries@;
                    assert(keys_distinct(after)) by {
                        assert forall|a: int, b: int| 0 <= a < b < after.len() implies (
                        #[trigger] after[a]).0@ != (#[trigger] after[b]).0@ by {
                            assert(after[a].0@ == before[a].0@);
                            assert(after[b].0@ == before[b].0@);
                        }
                    }
                    lemma_entries_map(after);
                    assert(entries_map(after) =~= entries_map(before).insert(key@, value@)) by {
                        assert forall|k: Seq<char>|
                            entries_map(after).contains_key(k) implies #[trigger] entries_map(
                            before,
                        ).insert(key@, value@).contains_key(k) by {
                            let i = choose|i: int|
                                0 <= i < after.len() && (#[trigger] after[i]).0@ == k;
                            assert(before[i].0@ == k);
                        }
                        assert forall|k: Seq<char>|
                            entries_map(before).insert(key@, value@).contains_key(
                                k,
                            ) implies #[trigger] entries_map(after).contains_key(k)
                            && entries_map(after)[k] == entries_map(before).insert(
                            key@,
                            value@,
                        )[k] by {
                            if k == key@ {
                                assert(after[j as int].0@ == k);
                            } else {
                                let i = choose|i: int|
                                    0 <= i < before.len() && (#[trigger] before[i]).0@ == k;
                                assert(after[i] == before[i]);
                            }
                        }
                    }
                }
            },
            None => {
                self.entries.push((key, value));
                proof {
                    let after = self.entries@;
                    assert(after.drop_last() =~= before);
                    assert(keys_distinct(after)) by {
                        assert forall|a: int, b: int| 0 <= a < b < after.len() implies (
                        #[trigger] after[a]).0@ != (#[trigger] after[b]).0@ by {
                            assert(after[a] == before[a]);
                            if b < before.len() {
                                assert(after[b] == before[b]);
                            }
                        }
                    }
                }
            },
        }
    }
}

/// The word that a manifest starts with.
pub open spec fn marker() -> Seq<char> {
    "#EXTM3U"@
}

/// The tag that announces a segment.
pub open spec fn segment_tag() -> Seq<char> {
    "#EXTINF"@
}

/// The tags that announce an integer of the stream's metadata.
pub open spec fn is_header_tag(t: Seq<char>) -> bool {
    ||| t == "#EXT-X-VERSION"@
    ||| t == "#EXT-X-TARGETDURATION"@
    ||| t == "#EXT-X-MEDIA-SEQUENCE"@
    ||| t == "#EXT-X-DISCONTINUITY-SEQUENCE"@
}

/// What a token is to the grammar.
pub enum TagKind {
    Header,
    Segment,
    Other,
}

pub open spec fn tag_kind(t: Seq<char>) -> TagKind {
    if is_header_tag(t) {
        TagKind::Header
    } else if t == segment_tag() {
        TagKind::Segment
    } else {
        TagKind::Other
    }
}

/// What a manifest holds.
pub struct ManifestView {
    pub metadata: Map<Seq<char>, MetadataValue>,
    pub tracks: Seq<TrackView>,
}

/// A manifest with no metadata and no track.
pub open spec fn empty_manifest() -> ManifestView {
    ManifestView { metadata: Map::empty(), tracks: Seq::empty() }
}

/// Where reading goes on after the token at position `i`.
///
/// A header tag takes the token after it along, whether or not that token
/// is an integer. A segment tag takes the token after it along only if it
/// is a duration; the locator that follows the duration is read again as a
/// token of its own.
pub open spec fn next_position(toks: Seq<Seq<char>>, i: int) -> int {
    match tag_kind(toks[i]) {
        TagKind::Header => if i + 1 < toks.len() {
            i + 2
        } else {
            i + 1
        },
        TagKind::Segment => if i + 1 < toks.len() && is_duration(toks[i + 1]) {
            i + 2
        } else {
            i + 1
        },
        TagKind::Other => i + 1,
    }
}

/// The manifest `acc` with what the token at position `i` adds to it.
///
/// A header tag followed by an integer stores the integer under the tag.
/// A segment tag followed by a duration and a locator appends a track.
/// Anything else adds nothing.
pub open spec fn record(toks: Seq<Seq<char>>, i: int, acc: ManifestView) -> ManifestView {
    match tag_kind(toks[i]) {
        TagKind::Header => if i + 1 < toks.len() {
            match parse_integer(toks[i + 1]) {
                Some(v) => ManifestView {
                    metadata: acc.metadata.insert(toks[i], MetadataValue::Integer(v)),
                    tracks: acc.tracks,
                },
                None => acc,
            }
        } else {
            acc
        },
        TagKind::Segment => if i + 2 < toks.len() && is_duration(toks[i + 1]) {
            ManifestView {
                metadata: acc.metadata,
                tracks: acc.tracks.push(TrackView { name: toks[i + 2], duration: toks[i + 1] }),
            }
        } else {
            acc
        },
        TagKind::Other => acc,
    }
}

/// The manifest `acc` with all that the tokens from position `i` on add to
/// it, read from left to right.
pub open spec fn scan(toks: Seq<Seq<char>>, i: int, acc: ManifestView) -> ManifestView
    decreases toks.len() - i,
{
    if 0 <= i < toks.len() {
        scan(toks, next_position(toks, i), record(toks, i, acc))
    } else {
        acc
    }
}

/// The manifest that a list of tokens spells, if it spells one: the list
/// starts with the marker and yields at least one track.
pub open spec fn manifest_of_tokens(toks: Seq<Seq<char>>) -> Option<ManifestView> {
    if toks.len() == 0 || toks[0] != marker() {
        None
    } else if scan(toks, 0, empty_manifest()).tracks.len() == 0 {
        None
    } else {
        Some(scan(toks, 0, empty_manifest()))
    }
}

/// The manifest that a document spells, if it spells one.
pub open spec fn parse_manifest(document: Seq<char>) -> Option<ManifestView> {
    manifest_of_tokens(tokens(document))
}

/// What holds of every manifest that was read from tokens: each track
/// has a token for its name and a duration for its length, and each key of
/// the metadata is a header tag with an integer under it.
pub open spec fn well_formed(m: ManifestView) -> bool {
    &&& forall|j: int|
        0 <= j < m.tracks.len() ==> is_token((#[trigger] m.tracks[j]).name) && is_duration(
            m.tracks[j].duration,
        )
    &&& forall|k: Seq<char>| #[trigger]
        m.metadata.contains_key(k) ==> is_header_tag(k) && m.metadata[k] is Integer
}

/// Reading tokens keeps a manifest well formed.
pub proof fn lemma_scan_well_formed(toks: Seq<Seq<char>>, i: int, acc: ManifestView)
    requires
        0 <= i,
        forall|k: int| 0 <= k < toks.len() ==> is_token(#[trigger] toks[k]),
        well_formed(acc),
    ensures
        well_formed(scan(toks, i, acc)),
    decreases toks.len() - i,
{
    if i < toks.len() {
        let next = record(toks, i, acc);
        assert(well_formed(next)) by {
            assert forall|j: int| 0 <= j < next.tracks.len() implies is_token(
                (#[trigger] next.tracks[j]).name,
            ) && is_duration(next.tracks[j].duration) by {
                if j < acc.tracks.len() {
                    assert(next.tracks[j] == acc.tracks[j]);
                }
            }
        }
        lemma_scan_well_formed(toks, next_position(toks, i), next);
    }
}

/// The track was announced by a segment tag: somewhere among the tokens
/// stand the tag, the track's duration and the track's name, one after
/// the other.
pub open spec fn from_segment(toks: Seq<Seq<char>>, track: TrackView) -> bool {
    exists|i: int|
        {
            &&& 0 <= i
            &&& i + 2 < toks.len()
            &&& #[trigger] toks[i] == segment_tag()
            &&& toks[i + 1] == track.duration
            &&& toks[i + 2] == track.name
            &&& is_duration(track.duration)
        }
}

/// Reading tokens adds only tracks that a segment tag announced.
pub proof fn lemma_scan_tracks_from_segments(toks: Seq<Seq<char>>, i: int, acc: ManifestView)
    requires
        0 <= i,
        forall|j: int| 0 <= j < acc.tracks.len() ==> from_segment(toks, #[trigger] acc.tracks[j]),
    ensures
        forall|j: int|
            0 <= j < scan(toks, i, acc).tracks.len() ==> from_segment(
                toks,
                #[trigger] scan(toks, i, acc).tracks[j],
            ),
    decreases toks.len() - i,
{
    if i < toks.len() {
        let next = record(toks, i, acc);
        assert forall|j: int| 0 <= j < next.tracks.len() implies from_segment(
            toks,
            #[trigger] next.tracks[j],
        ) by {
            if j < acc.tracks.len() {
                assert(next.tracks[j] == acc.tracks[j]);
            } else {
                assert(toks[i] == segment_tag());
            }
        }
        lemma_scan_tracks_from_segments(toks, next_position(toks, i), next);
        assert(scan(toks, i, acc) == scan(toks, next_position(toks, i), next));
    }
}

/// Without a segment tag among the tokens from position `i` on, reading
/// them adds no track.
pub proof fn lemma_scan_without_segments(toks: Seq<Seq<char>>, i: int, acc: ManifestView)
    requires
        0 <= i,
        forall|k: int| i <= k < toks.len() ==> #[trigger] toks[k] != segment_tag(),
    ensures
        scan(toks, i, acc).tracks == acc.tracks,
    decreases toks.len() - i,
{
    if i < toks.len() {
        lemma_scan_without_segments(toks, next_position(toks, i), record(toks, i, acc));
    }
}

/// Reading that starts at position `from` comes to position `i`.
pub open spec fn reads(toks: Seq<Seq<char>>, from: int, i: int) -> bool
    decreases i - from,
{
    from == i || (0 <= from < i && next_position(toks, from) <= i && reads(
        toks,
        next_position(toks, from),
        i,
    ))
}

/// The segment tag is no header tag and no duration.
pub proof fn lemma_segment_tag_is_a_tag_of_its_own()
    ensures
        !is_header_tag(segment_tag()),
        !is_duration(segment_tag()),
        tag_kind(segment_tag()) is Segment,
{
    reveal_strlit("#EXTINF");
    reveal_strlit("#EXT-X-VERSION");
    reveal_strlit("#EXT-X-TARGETDURATION");
    reveal_strlit("#EXT-X-MEDIA-SEQUENCE");
    reveal_strlit("#EXT-X-DISCONTINUITY-SEQUENCE");
    assert(segment_tag().len() == 7);
    assert(segment_tag()[0] == '#');
    if is_duration(segment_tag()) {
        lemma_duration_shape(segment_tag());
        assert(is_number_char(segment_tag()[0]));
    }
}

/// Reading comes to every token that is no duration and does not follow
/// a header tag: nothing takes such a token along.
pub proof fn lemma_reads(toks: Seq<Seq<char>>, from: int, i: int)
    requires
        0 <= from <= i < toks.len(),
        !is_duration(toks[i]),
        from < i ==> !is_header_tag(toks[i - 1]),
    ensures
        reads(toks, from, i),
    decreases i - from,
{
    if from < i {
        let next = next_position(toks, from);
        if next <= i {
            lemma_reads(toks, next, i);
        }
    }
}

/// Reading tokens loses no track.
pub proof fn lemma_scan_keeps_tracks(toks: Seq<Seq<char>>, i: int, acc: ManifestView)
    requires
        0 <= i,
    ensures
        scan(toks, i, acc).tracks.len() >= acc.tracks.len(),
    decreases toks.len() - i,
{
    if i < toks.len() {
        lemma_scan_keeps_tracks(toks, next_position(toks, i), record(toks, i, acc));
    }
}

/// A segment tag that reading comes to, with a duration and one more
/// token after it, adds a track.
pub proof fn lemma_read_segment_adds_track(
    toks: Seq<Seq<char>>,
    from: int,
    i: int,
    acc: ManifestView,
)
    requires
        0 <= from,
        reads(toks, from, i),
        i + 2 < toks.len(),
        tag_kind(toks[i]) is Segment,
        is_duration(toks[i + 1]),
    ensures
        scan(toks, from, acc).tracks.len() >= acc.tracks.len() + 1,
    decreases i - from,
{
    let next = next_position(toks, from);
    let more = record(toks, from, acc);
    if from == i {
        lemma_scan_keeps_tracks(toks, next, more);
    } else {
        lemma_read_segment_adds_track(toks, next, i, more);
    }
}

/// A document that starts with the marker and holds a segment tag with a
/// duration and one more token after it spells a manifest, unless a
/// header tag stands right before the segment tag and takes it along.
pub proof fn lemma_segment_gives_manifest(document: Seq<char>, i: int)
    requires
        tokens(document).len() > 0,
        tokens(document)[0] == marker(),
        1 <= i,
        i + 2 < tokens(document).len(),
        tokens(document)[i] == segment_tag(),
        is_duration(tokens(document)[i + 1]),
        !is_header_tag(tokens(document)[i - 1]),
    ensures
        parse_manifest(document) is Some,
{
    let toks = tokens(document);
    lemma_segment_tag_is_a_tag_of_its_own();
    lemma_reads(toks, 0, i);
    lemma_read_segment_adds_track(toks, 0, i, empty_manifest());
}

/// A document that does not start with the marker spells no manifest.
pub proof fn lemma_marker_is_required(document: Seq<char>)
    requires
        tokens(document).len() == 0 || tokens(document)[0] != marker(),
    ensures
        parse_manifest(document) is None,
{
}

/// A document without a segment tag spells no manifest, whatever its
/// headers hold.
pub proof fn lemma_segment_is_required(document: Seq<char>)
    requires
        forall|k: int| 0 <= k < tokens(document).len() ==> #[trigger] tokens(document)[k]
            != segment_tag(),
    ensures
        parse_manifest(document) is None,
{
    lemma_scan_without_segments(tokens(document), 0, empty_manifest());
}

/// A manifest that a document spells has at least one track and is well
/// formed, and each of its tracks was announced by a segment tag of the
/// document that a duration and one more token follow.
pub proof fn lemma_manifest_shape(document: Seq<char>)
    ensures
        match parse_manifest(document) {
            Some(m) => {
                &&& m.tracks.len() > 0
                &&& well_formed(m)
                &&& forall|j: int|
                    0 <= j < m.tracks.len() ==> from_segment(
                        tokens(document),
                        #[trigger] m.tracks[j],
                    )
            },
            None => true,
        },
{
    lemma_tokens_are_tokens(document);
    lemma_scan_well_formed(tokens(document), 0, empty_manifest());
    lemma_scan_tracks_from_segments(tokens(document), 0, empty_manifest());
}

/// A document in which no segment tag is followed by a duration and one
/// more token spells no manifest.
pub proof fn lemma_segment_with_duration_is_required(document: Seq<char>)
    requires
        forall|i: int|
            0 <= i && i + 2 < tokens(document).len() && #[trigger] tokens(document)[i]
                == segment_tag() ==> !is_duration(tokens(document)[i + 1]),
    ensures
        parse_manifest(document) is None,
{
    lemma_manifest_shape(document);
    match parse_manifest(document) {
        Some(m) => {
            assert(from_segment(tokens(document), m.tracks[0]));
        },
        None => {},
    }
}

/// The tags of the grammar, as characters.
struct Tags {
    version: Vec<char>,
    target_duration: Vec<char>,
    media_sequence: Vec<char>,
    discontinuity_sequence: Vec<char>,
    segment: Vec<char>,
}

impl Tags {
    spec fn wf(&self) -> bool {
        &&& self.version@ == "#EXT-X-VERSION"@
        &&& self.target_duration@ == "#EXT-X-TARGETDURATION"@
        &&& self.media_sequence@ == "#EXT-X-MEDIA-SEQUENCE"@
        &&& self.discontinuity_sequence@ == "#EXT-X-DISCONTINUITY-SEQUENCE"@
        &&& self.segment@ == "#EXTINF"@
    }

    fn new() -> (r: Tags)
        ensures
            r.wf(),
    {
        Tags {
            version: chars_of("#EXT-X-VERSION"),
            target_duration: chars_of("#EXT-X-TARGETDURATION"),
            media_sequence: chars_of("#EXT-X-MEDIA-SEQUENCE"),
            discontinuity_sequence: chars_of("#EXT-X-DISCONTINUITY-SEQUENCE"),
            segment: chars_of("#EXTINF"),
        }
    }

    /// Tells what the token between `start` and `end` is to the grammar.
    fn classify(&self, chars: &Vec<char>, start: usize, end: usize) -> (r: TagKind)
        requires
            self.wf(),
            start <= end <= chars@.len(),
        ensures
            r == tag_kind(chars@.subrange(start as int, end as int)),
    {
        if span_is(chars, start, end, &self.version) || span_is(
            chars,
            start,
            end,
            &self.target_duration,
        ) || span_is(chars, start, end, &self.media_sequence) || span_is(
            chars,
            start,
            end,
            &self.discontinuity_sequence,
        ) {
            TagKind::Header
        } else if span_is(chars, start, end, &self.segment) {
            TagKind::Segment
        } else {
            TagKind::Other
        }
    }
}

/// A manifest: the stream's metadata and its tracks, in the order in which
/// the document lists them.
#[derive(Debug)]
pub struct HlsManifest {
    pub metadata: Metadata,
    pub tracks: Vec<Track>,
}

impl View for HlsManifest {
    type V = ManifestView;

    open spec fn view(&self) -> ManifestView {
        ManifestView { metadata: self.metadata@, tracks: tracks_view(self.tracks@) }
    }
}

impl HlsManifest {
    /// Reads what follows the header tag at position `i`: where the next
    /// token is an integer, it is stored under the tag. The result is the
    /// position at which reading goes on.
    fn parse_header(
        document: &str,
        chars: &Vec<char>,
        spans: &Vec<(usize, usize)>,
        i: usize,
        metadata: &mut Metadata,
    ) -> (next: usize)
        requires
            chars@ == document@,
            spans_within(spans@, chars@.len()),
            i < spans@.len(),
            tag_kind(spans_text(chars@, spans@)[i as int]) is Header,
            old(metadata).wf(),
        ensures
            final(metadata).wf(),
            next == next_position(spans_text(chars@, spans@), i as int),
            next <= spans@.len(),
            final(metadata)@ == record(
                spans_text(chars@, spans@),
                i as int,
                ManifestView { metadata: old(metadata)@, tracks: Seq::empty() },
            ).metadata,
    {
        let ghost toks = spans_text(chars@, spans@);
        let n = spans.len();
        let (a, b) = spans[i];
        assert(toks[i as int] == chars@.subrange(a as int, b as int));
        if i + 1 < n {
            let (c, d) = spans[i + 1];
            assert(toks[i + 1] == chars@.subrange(c as int, d as int));
            match parse_i32(chars, c, d) {
                Some(v) => {
                    let key = String::from_str(document.substring_char(a, b));
                    metadata.insert(key, HlsManifestMetadataType::Integer(v));
                },
                None => {},
            }
            i + 2
        } else {
            i + 1
        }
    }

    /// Reads a manifest from a document.
    ///
    /// The result is the manifest that the document spells, and `None` where
    /// it spells none: where it has no token, does not start with the
    /// marker, or yields no track.
    pub fn new(document: &str) -> (r: Option<HlsManifest>)
        ensures
            match r {
                Some(m) => m.metadata.wf() && parse_manifest(document@) == Some(m@),
                None => parse_manifest(document@) is None,
            },
    {
        let chars = chars_of(document);
        let spans = token_spans(&chars);
        let ghost toks = tokens(document@);
        let n = spans.len();
        if n == 0 {
            return None;
        }
        let marker = chars_of("#EXTM3U");
        assert(toks[0] == chars@.subrange(spans@[0].0 as int, spans@[0].1 as int));
        if !span_is(&chars, spans[0].0, spans[0].1, &marker) {
            return None;
        }
        let tags = Tags::new();
        let mut metadata = Metadata::new();
        let mut tracks: Vec<Track> = Vec::new();
        let mut i: usize = 0;
        assert(tracks_view(tracks@) =~= Seq::<TrackView>::empty());
        while i < n
            invariant
                i <= n,
                n == spans@.len(),
                chars@ == document@,
                tags.wf(),
                metadata.wf(),
                toks == tokens(document@),
                spans_within(spans@, chars@.len()),
                spans_text(chars@, spans@) == toks,
                scan(toks, 0, empty_manifest()) == scan(
                    toks,
                    i as int,
                    ManifestView { metadata: metadata@, tracks: tracks_view(tracks@) },
                ),
            decreases n - i,
        {
            let ghost acc = ManifestView { metadata: metadata@, tracks: tracks_view(tracks@) };
            let ghost at = i as int;
            let (a, b) = spans[i];
            assert(toks[i as int] == chars@.subrange(a as int, b as int));
            match tags.classify(&chars, a, b) {
                TagKind::Header => {
                    i = HlsManifest::parse_header(document, &chars, &spans, i, &mut metadata);
                },
                TagKind::Segment => {
                    if i + 1 < n {
                        let (c, d) = spans[i + 1];
                        assert(toks[i + 1] == chars@.subrange(c as int, d as int));
                        if is_duration_token(&chars, c, d) {
                            if i + 2 < n {
                                let (e, f) = spans[i + 2];
                                assert(toks[i + 2] == chars@.subrange(e as int, f as int));
                                let track = Track {
                                    name: String::from_str(document.substring_char(e, f)),
                                    duration: String::from_str(document.substring_char(c, d)),
                                };
                                proof {
                                    assert(tracks_view(tracks@.push(track)) =~= tracks_view(
                                        tracks@,
                                    ).push(track@));
                                }
                                tracks.push(track);
                            }
                            i += 2;
                        } else {
                            i += 1;
                        }
                    } else {
                        i += 1;
                    }
                },
                TagKind::Other => {
                    i += 1;
                },
            }
            assert(i as int == next_position(toks, at));
            assert(ManifestView { metadata: metadata@, tracks: tracks_view(tracks@) } == record(
                toks,
                at,
                acc,
            ));
        }
        if tracks.len() == 0 {
            return None;
        }
        Some(HlsManifest { metadata, tracks })
    }
}

} // verus!
