//! Follows a live HLS audio stream: fetches and refreshes the playlist, downloads new segments,
//! and turns each into bytes of the elementary stream.
//!
//! The [`Worker`] decides. Its caller does what it asks for (fetch, push, wait, close) and tells it
//! what came of that, together with whether the session has been stopped in the meantime.

use vstd::prelude::*;

use crate::m3u8;
use crate::m3u8::{MediaPlaylist, Segment, Variant};
use crate::segment;
use crate::text;
use crate::ts_demuxer::AudioCodec;

verus! {

/// How many seconds an open waits for the first bytes of audio.
pub const OPEN_TIMEOUT_SECONDS: u64 = 20;

/// How many segments are remembered before the memory is cleared. A live playlist does not repeat
/// old segments, so that they need not be remembered for ever.
pub const MAX_SEEN_SEGMENTS: usize = 500;

/// How many seconds pass before a media playlist that could not be fetched is tried again.
pub const RETRY_SECONDS: u64 = 2;

/// How many seconds pass between two looks at a playlist that gives no duration.
pub const DEFAULT_POLL_SECONDS: u64 = 3;

/// An open HLS stream: the queue that its bytes go to, and its codec.
pub struct HlsStream<Q> {
    pub queue: Q,
    /// The codec of the elementary stream, as far as it is known.
    pub codec: AudioCodec,
}

/// Ends the opening of a stream. `ready` says whether bytes have arrived in time; `last_issue` is
/// the last thing that went wrong, for where they have not.
pub fn open<Q>(queue: Q, ready: bool, codec: AudioCodec, last_issue: String) -> (opened: Result<
    HlsStream<Q>,
    String,
>)
    ensures
        opened == (if ready {
            Ok::<HlsStream<Q>, String>(HlsStream { queue, codec })
        } else {
            Err::<HlsStream<Q>, String>(last_issue)
        }),
{
    if ready {
        Ok(HlsStream { queue, codec })
    } else {
        Err(last_issue)
    }
}

/// Where the time between two looks at a playlist comes from.
#[derive(Clone, Copy, Debug, PartialEq, Eq, Structural)]
pub enum PollSource {
    TargetDuration,
    LastSegment,
    Default,
}

/// The target duration of the playlist where it is positive, or else the duration of its last
/// segment where that is positive.
pub fn poll_source(target_is_positive: bool, last_is_positive: bool) -> (source: PollSource)
    ensures
        target_is_positive ==> source == PollSource::TargetDuration,
        !target_is_positive && last_is_positive ==> source == PollSource::LastSegment,
        !target_is_positive && !last_is_positive ==> source == PollSource::Default,
{
    if target_is_positive {
        PollSource::TargetDuration
    } else if last_is_positive {
        PollSource::LastSegment
    } else {
        PollSource::Default
    }
}

/// How long a worker waits.
#[derive(Debug)]
pub enum WaitTime {
    /// The time before a fetch is tried again.
    Retry,
    /// The time between two looks at a playlist: its target duration and the duration of its last
    /// segment, as numerals.
    Poll { target: String, last: Option<String> },
}

/// What a worker asks for.
#[derive(Debug)]
pub enum HlsAction {
    /// Fetch the playlist at a URL.
    FetchPlaylist(String),
    /// Fetch the segment at a URL.
    FetchSegment(String),
    /// Push bytes into the queue.
    Push(Vec<u8>),
    /// Wait, unless the session is stopped.
    Wait(WaitTime),
    /// Close the queue, with an error or cleanly, and quit.
    Close(Option<String>),
    /// Quit.
    Quit,
}

/// What came of what a worker asked for.
#[derive(Debug)]
pub enum HlsEvent {
    /// The playlist, or why it could not be fetched.
    Playlist(Result<String, String>),
    /// The segment, or why it could not be fetched.
    Segment(Result<Vec<u8>, String>),
    /// Whether the queue took the bytes: not if it is closed.
    Pushed(bool),
    /// The time has passed.
    Waited,
}

/// What a worker is waiting for.
#[derive(Clone, Copy, Debug, PartialEq, Eq, Structural)]
pub enum Phase {
    /// The first playlist.
    Opening,
    /// A media playlist.
    Media,
    /// A segment.
    Segment,
    /// A push.
    Push,
    /// Time to pass.
    Waiting,
    /// Nothing.
    Finished,
}

/// How long a worker waits, as texts.
pub enum WaitView {
    Retry,
    Poll { target: Seq<char>, last: Option<Seq<char>> },
}

/// What a worker asks for, as texts and bytes.
pub enum ActionView {
    FetchPlaylist(Seq<char>),
    FetchSegment(Seq<char>),
    Push(Seq<u8>),
    Wait(WaitView),
    Close(Option<Seq<char>>),
    Quit,
}

/// What came of it, as texts and bytes.
pub enum EventView {
    Playlist(Result<Seq<char>, Seq<char>>),
    Segment(Result<Seq<u8>, Seq<char>>),
    Pushed(bool),
    Waited,
}

impl View for WaitTime {
    type V = WaitView;

    open spec fn view(&self) -> WaitView {
        match *self {
            WaitTime::Retry => WaitView::Retry,
            WaitTime::Poll { target, last } => WaitView::Poll {
                target: target@,
                last: text::optional_text(last),
            },
        }
    }
}

impl View for HlsAction {
    type V = ActionView;

    open spec fn view(&self) -> ActionView {
        match *self {
            HlsAction::FetchPlaylist(url) => ActionView::FetchPlaylist(url@),
            HlsAction::FetchSegment(url) => ActionView::FetchSegment(url@),
            HlsAction::Push(bytes) => ActionView::Push(bytes@),
            HlsAction::Wait(time) => ActionView::Wait(time@),
            HlsAction::Close(error) => ActionView::Close(text::optional_text(error)),
            HlsAction::Quit => ActionView::Quit,
        }
    }
}

impl View for HlsEvent {
    type V = EventView;

    open spec fn view(&self) -> EventView {
        match *self {
            HlsEvent::Playlist(Ok(body)) => EventView::Playlist(Ok(body@)),
            HlsEvent::Playlist(Err(error)) => EventView::Playlist(Err(error@)),
            HlsEvent::Segment(Ok(data)) => EventView::Segment(Ok(data@)),
            HlsEvent::Segment(Err(error)) => EventView::Segment(Err(error@)),
            HlsEvent::Pushed(taken) => EventView::Pushed(taken),
            HlsEvent::Waited => EventView::Waited,
        }
    }
}

/// The event is the one that a worker in this phase waits for.
pub open spec fn fits(phase: Phase, event: EventView) -> bool {
    match event {
        EventView::Playlist(_) => phase == Phase::Opening || phase == Phase::Media,
        EventView::Segment(_) => phase == Phase::Segment,
        EventView::Pushed(_) => phase == Phase::Push,
        EventView::Waited => phase == Phase::Waiting,
    }
}

/// The position of the variant of the highest bandwidth, the last of them where there are several.
pub open spec fn best_of(variants: Seq<(Seq<char>, int)>) -> int
    decreases variants.len(),
{
    if variants.len() <= 1 {
        0
    } else {
        let best = best_of(variants.drop_last());
        if variants.last().1 >= variants[best].1 {
            variants.len() - 1
        } else {
            best
        }
    }
}

/// No variant has a higher bandwidth than the best, and no later one has the same.
pub proof fn law_best_variant_has_the_highest_bandwidth(variants: Seq<(Seq<char>, int)>)
    requires
        variants.len() > 0,
    ensures
        0 <= best_of(variants) < variants.len(),
        forall|i: int|
            0 <= i < variants.len() ==> (#[trigger] variants[i]).1 <= variants[best_of(variants)].1,
        forall|i: int|
            best_of(variants) < i < variants.len() ==> (#[trigger] variants[i]).1
                < variants[best_of(variants)].1,
    decreases variants.len(),
{
    if variants.len() > 1 {
        let earlier = variants.drop_last();
        law_best_variant_has_the_highest_bandwidth(earlier);
        let best = best_of(earlier);
        assert(earlier[best] == variants[best]);
        assert forall|i: int| 0 <= i < variants.len() implies (#[trigger] variants[i]).1
            <= variants[best_of(variants)].1 by {
            if i < earlier.len() {
                assert(earlier[i] == variants[i]);
            }
        }
        assert forall|i: int| best_of(variants) < i < variants.len() implies (#[trigger] variants[i]).1
            < variants[best_of(variants)].1 by {
            if i < earlier.len() {
                assert(earlier[i] == variants[i]);
            }
        }
    }
}

/// The state of a worker.
pub struct WorkerView {
    pub phase: Phase,
    /// The URL of the playlist that is followed.
    pub url: Seq<char>,
    /// The segments that have been asked for.
    pub seen: Set<Seq<char>>,
    pub wrote_anything: bool,
    pub wrote_this_round: bool,
    pub codec: AudioCodec,
    pub last_issue: Seq<char>,
    /// The segments of the playlist at hand.
    pub segments: Seq<Seq<char>>,
    /// How many of them have been gone through.
    pub next: int,
    /// What the playlist at hand says of durations and of its end. Without a tag for it the
    /// target duration is zero.
    pub target: Seq<char>,
    pub last_duration: Option<Seq<char>>,
    pub is_end_list: bool,
}

/// A worker that has just been started.
pub open spec fn started(url: Seq<char>) -> WorkerView {
    WorkerView {
        phase: Phase::Opening,
        url,
        seen: Set::empty(),
        wrote_anything: false,
        wrote_this_round: false,
        codec: AudioCodec::Unknown,
        last_issue: "no segments were listed in the media playlist"@,
        segments: Seq::empty(),
        next: 0,
        target: "0"@,
        last_duration: None,
        is_end_list: false,
    }
}

/// The first segment, from a position on, that has not been asked for.
pub open spec fn next_unseen(segments: Seq<Seq<char>>, seen: Set<Seq<char>>, from: int) -> int
    decreases segments.len() - from,
{
    if from >= segments.len() || !seen.contains(segments[from]) {
        from
    } else {
        next_unseen(segments, seen, from + 1)
    }
}

/// Ends with a close: cleanly where anything was written, and else with the last issue.
pub open spec fn ending(worker: WorkerView) -> (WorkerView, ActionView) {
    (
        WorkerView { phase: Phase::Finished, ..worker },
        ActionView::Close(
            if worker.wrote_anything {
                None
            } else {
                Some(worker.last_issue)
            },
        ),
    )
}

/// Ends with a close that tells an issue.
pub open spec fn failing(worker: WorkerView, issue: Seq<char>) -> (WorkerView, ActionView) {
    (
        WorkerView { phase: Phase::Finished, last_issue: issue, ..worker },
        ActionView::Close(Some(issue)),
    )
}

/// Begins a round: looks at the playlist again.
pub open spec fn round_start(worker: WorkerView, stopped: bool) -> (WorkerView, ActionView) {
    if stopped {
        ending(worker)
    } else {
        (
            WorkerView { phase: Phase::Media, ..worker },
            ActionView::FetchPlaylist(worker.url),
        )
    }
}

/// The segments that are remembered after a round.
pub open spec fn remembered(seen: Set<Seq<char>>) -> Set<Seq<char>> {
    if seen.len() > MAX_SEEN_SEGMENTS {
        Set::empty()
    } else {
        seen
    }
}

/// Ends a round: for good where the playlist says so, and else after a wait where nothing new came.
pub open spec fn round_end(worker: WorkerView, stopped: bool) -> (WorkerView, ActionView) {
    if worker.is_end_list || stopped {
        ending(worker)
    } else {
        let rested = WorkerView { seen: remembered(worker.seen), ..worker };
        if worker.wrote_this_round {
            round_start(rested, stopped)
        } else {
            (
                WorkerView { phase: Phase::Waiting, ..rested },
                ActionView::Wait(
                    WaitView::Poll { target: worker.target, last: worker.last_duration },
                ),
            )
        }
    }
}

/// Goes on to the next segment that has not been asked for, or ends the round.
pub open spec fn next_segment(worker: WorkerView, stopped: bool) -> (WorkerView, ActionView) {
    let at = next_unseen(worker.segments, worker.seen, worker.next);
    if stopped || at >= worker.segments.len() {
        round_end(worker, stopped)
    } else {
        let uri = worker.segments[at];
        (
            WorkerView {
                phase: Phase::Segment,
                seen: worker.seen.insert(uri),
                next: at + 1,
                ..worker
            },
            ActionView::FetchSegment(uri),
        )
    }
}

/// The first playlist has come: the best variant of a master playlist is followed, and any other
/// playlist itself.
pub open spec fn opened_with(
    worker: WorkerView,
    playlist: Result<Seq<char>, Seq<char>>,
    stopped: bool,
) -> (WorkerView, ActionView) {
    match playlist {
        Err(error) => failing(worker, "could not fetch playlist: "@ + error),
        Ok(body) => if !text::occurs(body, "#EXT-X-STREAM-INF"@) {
            round_start(worker, stopped)
        } else {
            let variants = m3u8::variants_of(body, worker.url);
            if variants.len() == 0 {
                failing(worker, "master playlist has no variants"@)
            } else {
                round_start(
                    WorkerView { url: variants[best_of(variants)].0, ..worker },
                    stopped,
                )
            }
        },
    }
}

/// The texts of the segments of a playlist.
pub open spec fn uris_of(playlist: m3u8::MediaView) -> Seq<Seq<char>> {
    Seq::new(playlist.segments.len(), |i: int| playlist.segments[i].0)
}

/// The target duration that a playlist says: none at all where it has no tag for it.
pub open spec fn said_target(body: Seq<char>, media: m3u8::MediaView) -> Seq<char> {
    if m3u8::gives_target(body) {
        media.target_duration
    } else {
        "0"@
    }
}

/// A worker with another playlist at hand.
pub open spec fn with_playlist(worker: WorkerView, body: Seq<char>) -> WorkerView {
    let media = m3u8::media_of(body, worker.url);
    WorkerView {
        wrote_this_round: false,
        segments: uris_of(media),
        next: 0,
        target: said_target(body, media),
        last_duration: if media.segments.len() > 0 {
            Some(media.segments.last().1)
        } else {
            None
        },
        is_end_list: media.is_end_list,
        ..worker
    }
}

/// A media playlist has come, or not: before anything has been written that is the end, and later
/// it is tried again.
pub open spec fn refreshed_with(
    worker: WorkerView,
    playlist: Result<Seq<char>, Seq<char>>,
    stopped: bool,
) -> (WorkerView, ActionView) {
    match playlist {
        Err(error) => {
            let issue = "could not fetch media playlist: "@ + error;
            if worker.wrote_anything {
                (
                    WorkerView { phase: Phase::Waiting, last_issue: issue, ..worker },
                    ActionView::Wait(WaitView::Retry),
                )
            } else {
                failing(worker, issue)
            }
        },
        Ok(body) => next_segment(
            with_playlist(worker, body),
            stopped,
        ),
    }
}

/// What is said of a segment without audio.
pub open spec fn no_audio_text() -> Seq<char> {
    "segment produced no audio elementary stream (unsupported codec/container?)"@
}

/// A segment has come, or not: its audio is pushed, and one without audio is passed over.
pub open spec fn fetched_with(
    worker: WorkerView,
    data: Result<Seq<u8>, Seq<char>>,
    stopped: bool,
) -> (WorkerView, ActionView) {
    match data {
        Err(error) => next_segment(
            WorkerView { last_issue: "segment fetch failed: "@ + error, ..worker },
            stopped,
        ),
        Ok(bytes) => match segment::segment_audio(bytes, worker.segments[worker.next - 1]) {
            None => next_segment(WorkerView { last_issue: no_audio_text(), ..worker }, stopped),
            Some((audio, codec)) => (
                WorkerView {
                    phase: Phase::Push,
                    codec: if codec == AudioCodec::Unknown { worker.codec } else { codec },
                    ..worker
                },
                ActionView::Push(audio),
            ),
        },
    }
}

/// The bytes have been pushed, or the queue is closed.
pub open spec fn pushed_with(worker: WorkerView, taken: bool, stopped: bool) -> (
    WorkerView,
    ActionView,
) {
    if taken {
        next_segment(
            WorkerView { wrote_anything: true, wrote_this_round: true, ..worker },
            stopped,
        )
    } else {
        (WorkerView { phase: Phase::Finished, ..worker }, ActionView::Quit)
    }
}

/// What a worker does about an event. `stopped` says whether the session has been stopped by then.
pub open spec fn worker_step(worker: WorkerView, event: EventView, stopped: bool) -> (
    WorkerView,
    ActionView,
) {
    match event {
        EventView::Playlist(playlist) => if worker.phase == Phase::Opening {
            opened_with(worker, playlist, stopped)
        } else {
            refreshed_with(worker, playlist, stopped)
        },
        EventView::Segment(data) => fetched_with(worker, data, stopped),
        EventView::Pushed(taken) => pushed_with(worker, taken, stopped),
        EventView::Waited => round_start(worker, stopped),
    }
}

/// The state of a worker makes sense: a segment that is being fetched or pushed is one of those at
/// hand and has been marked as seen.
pub open spec fn valid_worker(worker: WorkerView) -> bool {
    &&& 0 <= worker.next <= worker.segments.len()
    &&& worker.seen.finite()
    &&& worker.phase == Phase::Segment || worker.phase == Phase::Push ==> worker.next > 0
        && worker.seen.contains(worker.segments[worker.next - 1])
    &&& worker.phase == Phase::Opening ==> !worker.wrote_anything
}

/// The URIs of a playlist that a worker has asked for resolve. It reads them of a master playlist
/// to begin with, and of a media playlist afterwards.
pub open spec fn playlist_resolves(worker: WorkerView, body: Seq<char>) -> bool {
    if worker.phase == Phase::Opening {
        text::occurs(body, "#EXT-X-STREAM-INF"@) ==> m3u8::master_resolvable(body, worker.url)
    } else {
        m3u8::media_resolvable(body, worker.url)
    }
}

/// Decides what is done to follow an HLS stream.
pub struct Worker {
    phase: Phase,
    url: String,
    seen: Vec<String>,
    wrote_anything: bool,
    wrote_this_round: bool,
    codec: AudioCodec,
    last_issue: String,
    segments: Vec<Segment>,
    next: usize,
    target: String,
    is_end_list: bool,
}

/// The texts of some segments.
spec fn segment_uris(segments: Seq<Segment>) -> Seq<Seq<char>> {
    Seq::new(segments.len(), |i: int| segments[i].uri@)
}

impl View for Worker {
    type V = WorkerView;

    closed spec fn view(&self) -> WorkerView {
        WorkerView {
            phase: self.phase,
            url: self.url@,
            seen: text::string_texts(self.seen@).to_set(),
            wrote_anything: self.wrote_anything,
            wrote_this_round: self.wrote_this_round,
            codec: self.codec,
            last_issue: self.last_issue@,
            segments: segment_uris(self.segments@),
            next: self.next as int,
            target: self.target@,
            last_duration: if self.segments@.len() > 0 {
                Some(self.segments@.last().duration@)
            } else {
                None
            },
            is_end_list: self.is_end_list,
        }
    }
}

/// As many segments are remembered as there are entries.
proof fn lemma_seen_len(seen: Seq<String>)
    requires
        text::string_texts(seen).no_duplicates(),
    ensures
        text::string_texts(seen).to_set().finite(),
        text::string_texts(seen).to_set().len() == seen.len(),
{
    text::string_texts(seen).unique_seq_to_set();
}

impl Worker {
    /// The state makes sense, and no segment is remembered twice.
    pub closed spec fn wf(&self) -> bool {
        &&& valid_worker(self@)
        &&& text::string_texts(self.seen@).no_duplicates()
    }

    /// A worker for the playlist at a URL, and its first wish.
    pub fn new(playlist_url: &str) -> (worker: (Self, HlsAction))
        ensures
            worker.0.wf(),
            worker.0@ == started(playlist_url@),
            worker.1@ == ActionView::FetchPlaylist(playlist_url@),
    {
        let worker = Worker {
            phase: Phase::Opening,
            url: playlist_url.to_string(),
            seen: Vec::new(),
            wrote_anything: false,
            wrote_this_round: false,
            codec: AudioCodec::Unknown,
            last_issue: "no segments were listed in the media playlist".to_string(),
            segments: Vec::new(),
            next: 0,
            target: "0".to_string(),
            is_end_list: false,
        };
        proof {
            lemma_seen_len(worker.seen@);
            assert(worker@.seen =~= Set::empty());
            assert(worker@.segments =~= Seq::empty());
        }
        (worker, HlsAction::FetchPlaylist(playlist_url.to_string()))
    }

    /// The codec of the stream, as far as it is known.
    pub fn codec(&self) -> (codec: AudioCodec)
        ensures
            codec == self@.codec,
    {
        self.codec
    }

    /// The last thing that went wrong.
    pub fn last_issue(&self) -> (issue: String)
        ensures
            issue@ == self@.last_issue,
    {
        self.last_issue.clone()
    }

    /// The URIs of a playlist that the worker has asked for resolve.
    pub fn resolves(&self, body: &str) -> (yes: bool)
        ensures
            yes == playlist_resolves(self@, body@),
    {
        if self.phase == Phase::Opening {
            !m3u8::is_master_playlist(body) || m3u8::master_resolves(body, self.url.as_str())
        } else {
            m3u8::media_resolves(body, self.url.as_str())
        }
    }

    /// The segment has been asked for.
    fn is_seen(&self, uri: &String) -> (seen: bool)
        ensures
            seen == self@.seen.contains(uri@),
    {
        for position in 0..self.seen.len()
            invariant
                forall|i: int| 0 <= i < position ==> (#[trigger] self.seen@[i])@ != uri@,
        {
            if self.seen[position] == *uri {
                assert(text::string_texts(self.seen@)[position as int] == uri@);
                return true;
            }
        }
        proof {
            let texts = text::string_texts(self.seen@);
            if texts.contains(uri@) {
                let i = texts.index_of(uri@);
                assert(texts[i] == self.seen@[i]@);
            }
        }
        false
    }

    /// Ends with a close.
    fn end(&mut self) -> (action: HlsAction)
        requires
            old(self).wf(),
        ensures
            final(self).wf(),
            (final(self)@, action@) == ending(old(self)@),
    {
        self.phase = Phase::Finished;
        if self.wrote_anything {
            HlsAction::Close(None)
        } else {
            HlsAction::Close(Some(self.last_issue.clone()))
        }
    }

    /// Ends with a close that tells an issue.
    fn fail(&mut self, issue: String) -> (action: HlsAction)
        requires
            old(self).wf(),
        ensures
            final(self).wf(),
            (final(self)@, action@) == failing(old(self)@, issue@),
    {
        self.phase = Phase::Finished;
        self.last_issue = issue.clone();
        HlsAction::Close(Some(issue))
    }

    /// Begins a round.
    fn start_round(&mut self, stopped: bool) -> (action: HlsAction)
        requires
            old(self).wf(),
        ensures
            final(self).wf(),
            (final(self)@, action@) == round_start(old(self)@, stopped),
    {
        if stopped {
            return self.end();
        }
        self.phase = Phase::Media;
        HlsAction::FetchPlaylist(self.url.clone())
    }

    /// Ends a round.
    fn end_round(&mut self, stopped: bool) -> (action: HlsAction)
        requires
            old(self).wf(),
        ensures
            final(self).wf(),
            (final(self)@, action@) == round_end(old(self)@, stopped),
    {
        if self.is_end_list || stopped {
            return self.end();
        }
        proof {
            lemma_seen_len(self.seen@);
        }
        let last: Option<String> = if self.segments.len() > 0 {
            Some(self.segments[self.segments.len() - 1].duration.clone())
        } else {
            None
        };
        if self.wrote_this_round {
            self.phase = Phase::Media;
            self.forget_segments();
            return HlsAction::FetchPlaylist(self.url.clone());
        }
        self.phase = Phase::Waiting;
        self.forget_segments();
        HlsAction::Wait(WaitTime::Poll { target: self.target.clone(), last })
    }

    /// Clears the memory of segments where it has grown too long.
    fn forget_segments(&mut self)
        requires
            old(self).wf(),
            old(self)@.phase != Phase::Segment,
            old(self)@.phase != Phase::Push,
        ensures
            final(self).wf(),
            final(self)@ == (WorkerView { seen: remembered(old(self)@.seen), ..old(self)@ }),
    {
        proof {
            lemma_seen_len(self.seen@);
        }
        if self.seen.len() > MAX_SEEN_SEGMENTS {
            self.seen = Vec::new();
            proof {
                lemma_seen_len(self.seen@);
                assert(self@.seen =~= Set::empty());
            }
        }
    }

    /// Goes on to the next segment that has not been asked for.
    fn go_on(&mut self, stopped: bool) -> (action: HlsAction)
        requires
            old(self).wf(),
        ensures
            final(self).wf(),
            (final(self)@, action@) == next_segment(old(self)@, stopped),
    {
        if stopped {
            return self.end_round(stopped);
        }
        let mut at: usize = self.next;
        while at < self.segments.len() && self.is_seen(&self.segments[at].uri)
            invariant
                at <= self.segments@.len(),
                next_unseen(self@.segments, self@.seen, self@.next) == next_unseen(
                    self@.segments,
                    self@.seen,
                    at as int,
                ),
            decreases self.segments@.len() - at,
        {
            at += 1;
        }
        if at >= self.segments.len() {
            return self.end_round(stopped);
        }
        let uri: String = self.segments[at].uri.clone();
        proof {
            lemma_remember(self.seen@, uri);
        }
        self.seen.push(uri.clone());
        self.next = at + 1;
        self.phase = Phase::Segment;
        proof {
            lemma_seen_len(self.seen@);
        }
        HlsAction::FetchSegment(uri)
    }

    /// Takes the first playlist.
    fn take_first_playlist(&mut self, playlist: Result<String, String>, stopped: bool) -> (action:
        HlsAction)
        requires
            old(self).wf(),
            old(self)@.phase == Phase::Opening,
            playlist matches Ok(body) ==> playlist_resolves(old(self)@, body@),
        ensures
            final(self).wf(),
            (final(self)@, action@) == opened_with(
                old(self)@,
                (match playlist {
                    Ok(body) => Ok(body@),
                    Err(error) => Err(error@),
                }),
                stopped,
            ),
    {
        match playlist {
            Err(error) => {
                let mut issue: String = "could not fetch playlist: ".to_string();
                issue.append(error.as_str());
                self.fail(issue)
            },
            Ok(body) => {
                if m3u8::is_master_playlist(body.as_str()) {
                    let variants: Vec<Variant> = m3u8::parse_master_playlist(
                        body.as_str(),
                        self.url.as_str(),
                    );
                    match best_variant(&variants) {
                        Some(best) => {
                            self.url = variants[best].uri.clone();
                        },
                        None => {
                            return self.fail("master playlist has no variants".to_string());
                        },
                    }
                }
                self.start_round(stopped)
            },
        }
    }

    /// Takes a media playlist.
    fn take_media_playlist(&mut self, playlist: Result<String, String>, stopped: bool) -> (action:
        HlsAction)
        requires
            old(self).wf(),
            old(self)@.phase == Phase::Media,
            playlist matches Ok(body) ==> playlist_resolves(old(self)@, body@),
        ensures
            final(self).wf(),
            (final(self)@, action@) == refreshed_with(
                old(self)@,
                (match playlist {
                    Ok(body) => Ok(body@),
                    Err(error) => Err(error@),
                }),
                stopped,
            ),
    {
        match playlist {
            Err(error) => {
                let mut issue: String = "could not fetch media playlist: ".to_string();
                issue.append(error.as_str());
                if self.wrote_anything {
                    self.last_issue = issue;
                    self.phase = Phase::Waiting;
                    HlsAction::Wait(WaitTime::Retry)
                } else {
                    self.fail(issue)
                }
            },
            Ok(body) => {
                let media: MediaPlaylist = m3u8::parse_media_playlist(
                    body.as_str(),
                    self.url.as_str(),
                );
                let ghost says = m3u8::media_of(body@, self.url@);
                proof {
                    assert(segment_uris(media.segments@) =~= uris_of(says)) by {
                        assert forall|i: int| 0 <= i < media.segments@.len() implies (
                        #[trigger] media.segments@[i]).uri@ == says.segments[i].0 by {
                            assert(m3u8::segment_views(media.segments@)[i] == says.segments[i]);
                        }
                    }
                    if media.segments@.len() > 0 {
                        assert(m3u8::segment_views(media.segments@).last() == says.segments.last());
                    }
                }
                self.wrote_this_round = false;
                self.segments = media.segments;
                self.next = 0;
                self.target = if m3u8::gives_target_duration(body.as_str()) {
                    media.target_duration
                } else {
                    "0".to_string()
                };
                self.is_end_list = media.is_end_list;
                self.go_on(stopped)
            },
        }
    }

    /// Takes a segment.
    fn take_segment(&mut self, data: Result<Vec<u8>, String>, stopped: bool) -> (action: HlsAction)
        requires
            old(self).wf(),
            old(self)@.phase == Phase::Segment,
        ensures
            final(self).wf(),
            (final(self)@, action@) == fetched_with(
                old(self)@,
                (match data {
                    Ok(bytes) => Ok(bytes@),
                    Err(error) => Err(error@),
                }),
                stopped,
            ),
    {
        match data {
            Err(error) => {
                let mut issue: String = "segment fetch failed: ".to_string();
                issue.append(error.as_str());
                self.last_issue = issue;
                self.go_on(stopped)
            },
            Ok(bytes) => {
                let at: usize = self.next - 1;
                match segment::elementary_stream(
                    bytes.as_slice(),
                    self.segments[at].uri.as_str(),
                ) {
                    None => {
                        self.last_issue =
                        "segment produced no audio elementary stream (unsupported codec/container?)".to_string();
                        self.go_on(stopped)
                    },
                    Some((audio, codec)) => {
                        if codec != AudioCodec::Unknown {
                            self.codec = codec;
                        }
                        self.phase = Phase::Push;
                        HlsAction::Push(audio)
                    },
                }
            },
        }
    }

    /// Takes what became of a push.
    fn take_push(&mut self, taken: bool, stopped: bool) -> (action: HlsAction)
        requires
            old(self).wf(),
            old(self)@.phase == Phase::Push,
        ensures
            final(self).wf(),
            (final(self)@, action@) == pushed_with(old(self)@, taken, stopped),
    {
        if !taken {
            self.phase = Phase::Finished;
            return HlsAction::Quit;
        }
        self.wrote_this_round = true;
        self.wrote_anything = true;
        self.go_on(stopped)
    }

    /// Takes what came of the last wish and gives the next.
    pub fn step(&mut self, event: HlsEvent, stopped: bool) -> (action: HlsAction)
        requires
            old(self).wf(),
            fits(old(self)@.phase, event@),
            event@ matches EventView::Playlist(Ok(body)) ==> playlist_resolves(old(self)@, body),
        ensures
            final(self).wf(),
            (final(self)@, action@) == worker_step(old(self)@, event@, stopped),
    {
        match event {
            HlsEvent::Playlist(playlist) => if self.phase == Phase::Opening {
                self.take_first_playlist(playlist, stopped)
            } else {
                self.take_media_playlist(playlist, stopped)
            },
            HlsEvent::Segment(data) => self.take_segment(data, stopped),
            HlsEvent::Pushed(taken) => self.take_push(taken, stopped),
            HlsEvent::Waited => self.start_round(stopped),
        }
    }
}

/// The variant of the highest bandwidth, the last of them where there are several.
pub fn best_variant(variants: &Vec<Variant>) -> (best: Option<usize>)
    ensures
        match best {
            Some(position) => position < variants@.len() && position == best_of(
                m3u8::variant_views(variants@),
            ),
            None => variants@.len() == 0,
        },
{
    if variants.len() == 0 {
        return None;
    }
    let ghost views = m3u8::variant_views(variants@);
    let mut best: usize = 0;
    assert(best_of(views.take(1)) == 0);
    for position in 1..variants.len()
        invariant
            views == m3u8::variant_views(variants@),
            best < position,
            best == best_of(views.take(position as int)),
    {
        proof {
            assert(views.take(position + 1).drop_last() =~= views.take(position as int));
            assert(views.take(position + 1)[best as int] == views[best as int]);
            assert(views[best as int].1 == variants@[best as int].bandwidth);
            assert(views[position as int].1 == variants@[position as int].bandwidth);
        }
        if variants[position].bandwidth >= variants[best].bandwidth {
            best = position;
        }
    }
    assert(views.take(views.len() as int) =~= views);
    Some(best)
}

/// One more segment is remembered.
proof fn lemma_remember(seen: Seq<String>, uri: String)
    requires
        text::string_texts(seen).no_duplicates(),
        !text::string_texts(seen).to_set().contains(uri@),
    ensures
        text::string_texts(seen.push(uri)).no_duplicates(),
        text::string_texts(seen.push(uri)).to_set() == text::string_texts(seen).to_set().insert(uri@),
{
    let before = text::string_texts(seen);
    let after = text::string_texts(seen.push(uri));
    assert(after =~= before.push(uri@));
    assert forall|t: Seq<char>| after.contains(t) == (before.contains(t) || t == uri@) by {
        if before.contains(t) {
            let i = before.index_of(t);
            assert(after[i] == t);
        }
        if t == uri@ {
            assert(after[before.len() as int] == t);
        }
        if after.contains(t) {
            let i = after.index_of(t);
            if i < before.len() {
                assert(before[i] == t);
            }
        }
    }
    assert forall|i: int, j: int|
        0 <= i < after.len() && 0 <= j < after.len() && i != j implies after[i] != after[j] by {
        assert(before.contains(after[i]) || i == before.len()) by {
            if i < before.len() {
                assert(before[i] == after[i]);
            }
        }
        assert(before.contains(after[j]) || j == before.len()) by {
            if j < before.len() {
                assert(before[j] == after[j]);
            }
        }
        if i < before.len() && j < before.len() {
            assert(before[i] != before[j]);
        }
    }
    assert(after.to_set() =~= before.to_set().insert(uri@));
}

/// Where the next unseen segment is.
proof fn lemma_next_unseen(segments: Seq<Seq<char>>, seen: Set<Seq<char>>, from: int)
    requires
        0 <= from <= segments.len(),
    ensures
        from <= next_unseen(segments, seen, from) <= segments.len(),
        next_unseen(segments, seen, from) < segments.len() ==> !seen.contains(
            segments[next_unseen(segments, seen, from)],
        ),
    decreases segments.len() - from,
{
    if from < segments.len() && seen.contains(segments[from]) {
        lemma_next_unseen(segments, seen, from + 1);
    }
}

/// Going on to the next segment: the state still makes sense, and what is asked for is new.
proof fn lemma_next_segment(worker: WorkerView, stopped: bool)
    requires
        0 <= worker.next <= worker.segments.len(),
        worker.seen.finite(),
    ensures
        ({
            let (after, action) = next_segment(worker, stopped);
            &&& valid_worker(after)
            &&& action matches ActionView::FetchSegment(uri) ==> !worker.seen.contains(uri)
                && after.seen == worker.seen.insert(uri)
        }),
{
    lemma_next_unseen(worker.segments, worker.seen, worker.next);
}

/// A step leaves a worker in a state that makes sense, and asks only for segments that are new.
proof fn lemma_step(worker: WorkerView, event: EventView, stopped: bool)
    requires
        valid_worker(worker),
        fits(worker.phase, event),
    ensures
        ({
            let (after, action) = worker_step(worker, event, stopped);
            &&& valid_worker(after)
            &&& action matches ActionView::FetchSegment(uri) ==> !worker.seen.contains(uri)
                && after.seen == worker.seen.insert(uri)
        }),
{
    match event {
        EventView::Playlist(Ok(body)) => {
            lemma_next_segment(
                with_playlist(worker, body),
                stopped,
            );
        },
        EventView::Segment(Err(error)) => {
            lemma_next_segment(
                WorkerView { last_issue: "segment fetch failed: "@ + error, ..worker },
                stopped,
            );
        },
        EventView::Segment(Ok(_)) => {
            lemma_next_segment(WorkerView { last_issue: no_audio_text(), ..worker }, stopped);
        },
        EventView::Pushed(_) => {
            lemma_next_segment(
                WorkerView { wrote_anything: true, wrote_this_round: true, ..worker },
                stopped,
            );
        },
        _ => {},
    }
}

/// A step leaves a worker in a state that makes sense.
pub proof fn law_steps_keep_a_worker_valid(worker: WorkerView, event: EventView, stopped: bool)
    requires
        valid_worker(worker),
        fits(worker.phase, event),
    ensures
        valid_worker(worker_step(worker, event, stopped).0),
{
    lemma_step(worker, event, stopped);
}

/// As long as a segment is remembered it is not asked for again, and what is asked for is
/// remembered.
pub proof fn law_no_segment_is_fetched_twice(worker: WorkerView, event: EventView, stopped: bool)
    requires
        valid_worker(worker),
        fits(worker.phase, event),
    ensures
        worker_step(worker, event, stopped).1 matches ActionView::FetchSegment(uri)
            ==> !worker.seen.contains(uri) && worker_step(worker, event, stopped).0.seen
            == worker.seen.insert(uri),
{
    lemma_step(worker, event, stopped);
}

/// What is remembered is bounded: at the end of a round it is at most [`MAX_SEEN_SEGMENTS`]
/// segments, and within one at most as many more as the playlist has given.
pub open spec fn memory_is_bounded(worker: WorkerView) -> bool {
    &&& worker.seen.len() <= MAX_SEEN_SEGMENTS + worker.next
    &&& worker.phase == Phase::Opening || worker.phase == Phase::Media || worker.phase
        == Phase::Waiting ==> worker.seen.len() <= MAX_SEEN_SEGMENTS
}

/// A worker that has just been started is in a state that makes sense and remembers nothing.
pub proof fn law_a_started_worker_is_valid(url: Seq<char>)
    ensures
        valid_worker(started(url)),
        memory_is_bounded(started(url)),
        started(url).seen.len() == 0,
{
}

/// However long a stream is listened to, the memory of segments stays bounded.
pub proof fn law_memory_stays_bounded(worker: WorkerView, event: EventView, stopped: bool)
    requires
        valid_worker(worker),
        memory_is_bounded(worker),
        fits(worker.phase, event),
    ensures
        memory_is_bounded(worker_step(worker, event, stopped).0),
{
    lemma_next_unseen(worker.segments, worker.seen, worker.next);
    match event {
        EventView::Playlist(Ok(body)) => {
            lemma_next_unseen(uris_of(m3u8::media_of(body, worker.url)), worker.seen, 0);
        },
        _ => {},
    }
}

/// A worker of a stopped session fetches nothing more, and with the next step at the latest it
/// has finished.
pub proof fn law_stop_ends_the_worker(worker: WorkerView, event: EventView, next: EventView)
    requires
        fits(worker.phase, event),
        fits(worker_step(worker, event, true).0.phase, next),
    ensures
        !(worker_step(worker, event, true).1 is FetchPlaylist),
        !(worker_step(worker, event, true).1 is FetchSegment),
        worker_step(worker_step(worker, event, true).0, next, true).0.phase == Phase::Finished,
{
}

/// A worker closes with an error if and only if it has written nothing, and the error is its last
/// issue.
pub proof fn law_error_is_told_where_nothing_was_written(
    worker: WorkerView,
    event: EventView,
    stopped: bool,
)
    requires
        valid_worker(worker),
        fits(worker.phase, event),
    ensures
        ({
            let (after, action) = worker_step(worker, event, stopped);
            action matches ActionView::Close(error) ==> after.phase == Phase::Finished && error == (
            if after.wrote_anything {
                None
            } else {
                Some(after.last_issue)
            })
        }),
{
}

/// A round of a live playlist that brings nothing new ends in a wait: for the target duration where
/// the playlist says one, and else for the duration of its last segment, where there is one.
pub proof fn law_a_poll_goes_by_what_the_playlist_says(worker: WorkerView, body: Seq<char>)
    requires
        worker.phase == Phase::Media,
        !m3u8::media_of(body, worker.url).is_end_list,
        forall|i: int|
            0 <= i < m3u8::media_of(body, worker.url).segments.len() ==> worker.seen.contains(
                (#[trigger] m3u8::media_of(body, worker.url).segments[i]).0,
            ),
    ensures
        ({
            let media = m3u8::media_of(body, worker.url);
            let last = if media.segments.len() > 0 {
                Some(media.segments.last().1)
            } else {
                None
            };
            worker_step(worker, EventView::Playlist(Ok(body)), false).1 == ActionView::Wait(
                WaitView::Poll {
                    target: if m3u8::gives_target(body) { media.target_duration } else { "0"@ },
                    last,
                },
            )
        }),
{
    let media = m3u8::media_of(body, worker.url);
    let uris = uris_of(media);
    assert forall|i: int| 0 <= i < uris.len() implies worker.seen.contains(#[trigger] uris[i]) by {
        assert(uris[i] == media.segments[i].0);
    }
    lemma_all_seen(uris, worker.seen, 0);
}

/// Where all segments have been asked for, there is no next one.
proof fn lemma_all_seen(segments: Seq<Seq<char>>, seen: Set<Seq<char>>, from: int)
    requires
        0 <= from <= segments.len(),
        forall|i: int| 0 <= i < segments.len() ==> seen.contains(#[trigger] segments[i]),
    ensures
        next_unseen(segments, seen, from) == segments.len(),
    decreases segments.len() - from,
{
    if from < segments.len() {
        lemma_all_seen(segments, seen, from + 1);
    }
}

/// What is pushed is the audio of the segment that was fetched.
pub proof fn law_pushed_bytes_are_the_audio_of_the_segment(
    worker: WorkerView,
    event: EventView,
    stopped: bool,
)
    requires
        valid_worker(worker),
        fits(worker.phase, event),
    ensures
        worker_step(worker, event, stopped).1 matches ActionView::Push(audio) ==> {
            &&& event matches EventView::Segment(Ok(data))
            &&& segment::segment_audio(data, worker.segments[worker.next - 1]) matches Some(
                (found, _),
            )
            &&& found == audio
        },
{
}

/// The audio of a segment, of which a fetch gave `data`: none where it could not be fetched.
pub open spec fn audio_in(data: Result<Seq<u8>, Seq<char>>, uri: Seq<char>) -> Seq<u8> {
    match data {
        Ok(bytes) => match segment::segment_audio(bytes, uri) {
            Some((audio, _)) => audio,
            None => Seq::empty(),
        },
        Err(_) => Seq::empty(),
    }
}

/// The audio of the segments, from a position on, that have not been asked for: one behind the
/// other, and each once. `fetch` says what the fetch of each gives.
pub open spec fn unseen_audio(
    segments: Seq<Seq<char>>,
    seen: Set<Seq<char>>,
    from: int,
    fetch: spec_fn(Seq<char>) -> Result<Seq<u8>, Seq<char>>,
) -> Seq<u8>
    decreases segments.len() - from,
{
    if from >= segments.len() {
        Seq::empty()
    } else {
        let uri = segments[from];
        if seen.contains(uri) {
            unseen_audio(segments, seen, from + 1, fetch)
        } else {
            audio_in(fetch(uri), uri) + unseen_audio(segments, seen.insert(uri), from + 1, fetch)
        }
    }
}

/// All that a worker pushes from its present wish on, within some steps, before it turns to
/// another playlist, waits or quits. `fetch` says what the fetch of each segment gives; the queue
/// takes all.
pub open spec fn pushed_within(
    worker: WorkerView,
    wish: ActionView,
    fetch: spec_fn(Seq<char>) -> Result<Seq<u8>, Seq<char>>,
    steps: nat,
) -> Seq<u8>
    decreases steps,
{
    match wish {
        ActionView::Push(audio) => if steps == 0 {
            audio
        } else {
            let (after, next) = worker_step(worker, EventView::Pushed(true), false);
            audio + pushed_within(after, next, fetch, (steps - 1) as nat)
        },
        ActionView::FetchSegment(uri) => if steps == 0 {
            Seq::empty()
        } else {
            let (after, next) = worker_step(worker, EventView::Segment(fetch(uri)), false);
            pushed_within(after, next, fetch, (steps - 1) as nat)
        },
        _ => Seq::empty(),
    }
}

/// The bytes that are pushed in a round are the audio of the segments of its playlist, in order,
/// without those that have been asked for before and each once. A round that is cut short has
/// pushed the front of that.
pub proof fn law_a_round_pushes_the_audio_of_its_segments(
    worker: WorkerView,
    body: Seq<char>,
    fetch: spec_fn(Seq<char>) -> Result<Seq<u8>, Seq<char>>,
    steps: nat,
)
    requires
        worker.phase == Phase::Media,
    ensures
        ({
            let (after, wish) = worker_step(worker, EventView::Playlist(Ok(body)), false);
            let segments = uris_of(m3u8::media_of(body, worker.url));
            let audio = unseen_audio(segments, worker.seen, 0, fetch);
            let pushed = pushed_within(after, wish, fetch, steps);
            &&& pushed.is_prefix_of(audio)
            &&& steps >= 2 * segments.len() ==> pushed == audio
        }),
{
    lemma_round(with_playlist(worker, body), fetch, steps);
}

/// From one segment to the next the audio is pushed in order.
proof fn lemma_round(
    worker: WorkerView,
    fetch: spec_fn(Seq<char>) -> Result<Seq<u8>, Seq<char>>,
    steps: nat,
)
    requires
        0 <= worker.next <= worker.segments.len(),
    ensures
        ({
            let (after, wish) = next_segment(worker, false);
            let audio = unseen_audio(worker.segments, worker.seen, worker.next, fetch);
            let pushed = pushed_within(after, wish, fetch, steps);
            &&& pushed.is_prefix_of(audio)
            &&& steps >= 2 * (worker.segments.len() - worker.next) ==> pushed == audio
        }),
    decreases steps,
{
    let (after, wish) = next_segment(worker, false);
    let at = next_unseen(worker.segments, worker.seen, worker.next);
    let audio = unseen_audio(worker.segments, worker.seen, worker.next, fetch);
    let pushed = pushed_within(after, wish, fetch, steps);
    lemma_next_unseen(worker.segments, worker.seen, worker.next);
    lemma_unseen_audio(worker.segments, worker.seen, worker.next, fetch);
    if at < worker.segments.len() && steps > 0 {
        let uri = worker.segments[at];
        let own = audio_in(fetch(uri), uri);
        let rest = unseen_audio(worker.segments, worker.seen.insert(uri), at + 1, fetch);
        match fetch(uri) {
            Err(error) => {
                let failed = WorkerView {
                    last_issue: "segment fetch failed: "@ + error,
                    ..after
                };
                lemma_round(failed, fetch, (steps - 1) as nat);
                assert(own + rest =~= rest);
            },
            Ok(bytes) => match segment::segment_audio(bytes, uri) {
                None => {
                    let failed = WorkerView { last_issue: no_audio_text(), ..after };
                    lemma_round(failed, fetch, (steps - 1) as nat);
                    assert(own + rest =~= rest);
                },
                Some((found, codec)) => {
                    let (pushing, push) = worker_step(
                        after,
                        EventView::Segment(fetch(uri)),
                        false,
                    );
                    assert(push == ActionView::Push(found));
                    assert(pushed == pushed_within(pushing, push, fetch, (steps - 1) as nat));
                    if steps >= 2 {
                        let written = WorkerView {
                            wrote_anything: true,
                            wrote_this_round: true,
                            ..pushing
                        };
                        lemma_round(written, fetch, (steps - 2) as nat);
                        let (later, next) = next_segment(written, false);
                        let tail = pushed_within(later, next, fetch, (steps - 2) as nat);
                        assert(pushed == found + tail);
                        assert(tail =~= rest.take(tail.len() as int));
                        assert(pushed =~= (found + rest).take(pushed.len() as int));
                    } else {
                        assert(pushed == found);
                        assert(found =~= (found + rest).take(found.len() as int));
                    }
                },
            },
        }
    } else {
        assert(pushed =~= Seq::empty());
        assert(audio.take(0) =~= Seq::empty());
    }
}

/// Segments that have been asked for give no audio.
proof fn lemma_unseen_audio(
    segments: Seq<Seq<char>>,
    seen: Set<Seq<char>>,
    from: int,
    fetch: spec_fn(Seq<char>) -> Result<Seq<u8>, Seq<char>>,
)
    requires
        0 <= from <= segments.len(),
    ensures
        unseen_audio(segments, seen, from, fetch) == unseen_audio(
            segments,
            seen,
            next_unseen(segments, seen, from),
            fetch,
        ),
    decreases segments.len() - from,
{
    if from < segments.len() && seen.contains(segments[from]) {
        lemma_unseen_audio(segments, seen, from + 1, fetch);
    }
}

/// Every event is the one that the worker waits for by then.
pub open spec fn run_fits(worker: WorkerView, events: Seq<(EventView, bool)>) -> bool
    decreases events.len(),
{
    events.len() == 0 || (run_fits(worker, events.drop_last()) && fits(
        after_run(worker, events.drop_last()).phase,
        events.last().0,
    ))
}

/// A worker after some events, in order. With each comes whether the session has been stopped.
pub open spec fn after_run(worker: WorkerView, events: Seq<(EventView, bool)>) -> WorkerView
    decreases events.len(),
{
    if events.len() == 0 {
        worker
    } else {
        let (event, stopped) = events.last();
        worker_step(after_run(worker, events.drop_last()), event, stopped).0
    }
}

/// The segments that a worker asks for in some events, in order.
pub open spec fn asked_in(worker: WorkerView, events: Seq<(EventView, bool)>) -> Seq<Seq<char>>
    decreases events.len(),
{
    if events.len() == 0 {
        Seq::empty()
    } else {
        let (event, stopped) = events.last();
        let before = after_run(worker, events.drop_last());
        let earlier = asked_in(worker, events.drop_last());
        match worker_step(before, event, stopped).1 {
            ActionView::FetchSegment(uri) => earlier.push(uri),
            _ => earlier,
        }
    }
}

/// Over any run of a worker, through any number of playlists, failures and waits: as long as no more
/// than 500 different segments have been asked for, none is asked for twice, and all are remembered.
pub proof fn law_no_segment_is_asked_for_twice_in_a_run(
    url: Seq<char>,
    events: Seq<(EventView, bool)>,
)
    requires
        run_fits(started(url), events),
        asked_in(started(url), events).to_set().len() <= 500,
    ensures
        asked_in(started(url), events).no_duplicates(),
        after_run(started(url), events).seen == asked_in(started(url), events).to_set(),
        valid_worker(after_run(started(url), events)),
    decreases events.len(),
{
    let worker = started(url);
    let asked = asked_in(worker, events);
    if events.len() == 0 {
        assert(asked.to_set() =~= Set::empty());
    } else {
        let earlier_events = events.drop_last();
        let earlier = asked_in(worker, earlier_events);
        let before = after_run(worker, earlier_events);
        let (event, stopped) = events.last();
        let (after, action) = worker_step(before, event, stopped);
        earlier.lemma_cardinality_of_set();
        asked.lemma_cardinality_of_set();
        if let ActionView::FetchSegment(uri) = action {
            lemma_to_set_push(earlier, uri);
        }
        assert(earlier.to_set().len() <= 500) by {
            if action is FetchSegment {
                let uri = action->FetchSegment_0;
                if earlier.to_set().contains(uri) {
                    assert(earlier.to_set().insert(uri) =~= earlier.to_set());
                }
            }
        }
        law_no_segment_is_asked_for_twice_in_a_run(url, earlier_events);
        lemma_step(before, event, stopped);
        if let ActionView::FetchSegment(uri) = action {
            assert(!earlier.contains(uri)) by {
                if earlier.contains(uri) {
                    assert(earlier.to_set().contains(uri));
                }
            }
            assert(asked =~= earlier.push(uri));
            assert forall|i: int, j: int|
                0 <= i < asked.len() && 0 <= j < asked.len() && i != j implies asked[i] != asked[j] by {
                if i < earlier.len() && j < earlier.len() {
                    assert(earlier[i] != earlier[j]);
                } else if i < earlier.len() {
                    assert(earlier.contains(earlier[i]));
                } else {
                    assert(earlier.contains(earlier[j]));
                }
            }
        } else {
            assert(after.seen == before.seen);
        }
    }
}

proof fn lemma_to_set_push(texts: Seq<Seq<char>>, text: Seq<char>)
    ensures
        texts.push(text).to_set() == texts.to_set().insert(text),
{
    let more = texts.push(text);
    assert forall|t: Seq<char>| more.to_set().contains(t) == texts.to_set().insert(text).contains(t) by {
        if texts.contains(t) {
            let i = texts.index_of(t);
            assert(more[i] == t);
        }
        if t == text {
            assert(more[texts.len() as int] == t);
        }
        if more.contains(t) {
            let i = more.index_of(t);
            if i < texts.len() {
                assert(texts[i] == t);
            }
        }
    }
    assert(more.to_set() =~= texts.to_set().insert(text));
}

/// Of a master playlist the variant is followed that no other exceeds in bandwidth, the last of
/// those where there are several. Any other playlist is followed itself. Nothing else changes.
pub proof fn law_the_best_variant_is_followed(worker: WorkerView, body: Seq<char>, best: int)
    requires
        worker.phase == Phase::Opening,
    ensures
        ({
            let variants = m3u8::variants_of(body, worker.url);
            let (after, action) = worker_step(worker, EventView::Playlist(Ok(body)), false);
            &&& !text::occurs(body, "#EXT-X-STREAM-INF"@) ==> action == ActionView::FetchPlaylist(
                worker.url,
            ) && after == (WorkerView { phase: Phase::Media, ..worker })
            &&& text::occurs(body, "#EXT-X-STREAM-INF"@) && 0 <= best < variants.len() && (forall|
                i: int,
            |
                0 <= i < variants.len() ==> (#[trigger] variants[i]).1 <= variants[best].1 && (i > best
                    ==> variants[i].1 < variants[best].1)) ==> action == ActionView::FetchPlaylist(
                variants[best].0,
            ) && after == (WorkerView { phase: Phase::Media, url: variants[best].0, ..worker })
            &&& text::occurs(body, "#EXT-X-STREAM-INF"@) && variants.len() == 0 ==> action
                == ActionView::Close(Some("master playlist has no variants"@))
        }),
{
    let variants = m3u8::variants_of(body, worker.url);
    if variants.len() > 0 {
        law_best_variant_has_the_highest_bandwidth(variants);
        let found = best_of(variants);
        if text::occurs(body, "#EXT-X-STREAM-INF"@) && 0 <= best < variants.len() && (forall|i: int|
            0 <= i < variants.len() ==> (#[trigger] variants[i]).1 <= variants[best].1 && (i > best
                ==> variants[i].1 < variants[best].1)) {
            if found < best {
                assert(variants[best].1 < variants[found].1);
                assert(variants[found].1 <= variants[best].1);
            } else if best < found {
                assert(variants[found].1 < variants[best].1);
                assert(variants[best].1 <= variants[found].1);
            }
        }
    }
}

/// A playlist that cannot be fetched is the end as long as nothing has been written. Later it is
/// fetched again after a short wait, from the same URL and with everything still remembered.
pub proof fn law_a_live_stream_outlasts_a_failed_refresh(worker: WorkerView, error: Seq<char>)
    ensures
        worker.phase == Phase::Opening ==> worker_step(
            worker,
            EventView::Playlist(Err(error)),
            false,
        ).1 == ActionView::Close(Some("could not fetch playlist: "@ + error)),
        worker.phase == Phase::Media && !worker.wrote_anything ==> worker_step(
            worker,
            EventView::Playlist(Err(error)),
            false,
        ).1 == ActionView::Close(Some("could not fetch media playlist: "@ + error)),
        worker.phase == Phase::Media && worker.wrote_anything ==> {
            let (waiting, wait) = worker_step(worker, EventView::Playlist(Err(error)), false);
            let (again, fetch) = worker_step(waiting, EventView::Waited, false);
            &&& wait == ActionView::Wait(WaitView::Retry)
            &&& waiting.phase == Phase::Waiting
            &&& fetch == ActionView::FetchPlaylist(worker.url)
            &&& again == (WorkerView {
                last_issue: "could not fetch media playlist: "@ + error,
                ..worker
            })
        },
{
}

/// A worker that has a playlist at hand asks for the first of its segments, from where it is on,
/// that it has not asked for.
pub proof fn law_the_next_new_segment_is_asked_for(
    worker: WorkerView,
    body: Seq<char>,
    at: int,
)
    requires
        worker.phase == Phase::Media,
        ({
            let segments = m3u8::media_of(body, worker.url).segments;
            &&& 0 <= at < segments.len()
            &&& !worker.seen.contains(segments[at].0)
            &&& forall|i: int| 0 <= i < at ==> worker.seen.contains((#[trigger] segments[i]).0)
        }),
    ensures
        ({
            let segments = m3u8::media_of(body, worker.url).segments;
            let (after, action) = worker_step(worker, EventView::Playlist(Ok(body)), false);
            &&& action == ActionView::FetchSegment(segments[at].0)
            &&& after.phase == Phase::Segment
            &&& after.next == at + 1
            &&& after.seen == worker.seen.insert(segments[at].0)
            &&& after.segments.len() == segments.len()
            &&& forall|i: int|
                0 <= i < segments.len() ==> #[trigger] after.segments[i] == segments[i].0
            &&& after.wrote_anything == worker.wrote_anything
            &&& !after.wrote_this_round
            &&& after.url == worker.url
            &&& after.codec == worker.codec
            &&& after.last_issue == worker.last_issue
            &&& after.is_end_list == m3u8::media_of(body, worker.url).is_end_list
        }),
{
    let segments = m3u8::media_of(body, worker.url).segments;
    let uris = uris_of(m3u8::media_of(body, worker.url));
    assert forall|i: int| 0 <= i < at implies worker.seen.contains(#[trigger] uris[i]) by {
        assert(uris[i] == segments[i].0);
    }
    assert(uris[at] == segments[at].0);
    lemma_next_is(uris, worker.seen, 0, at);
}

proof fn lemma_next_is(segments: Seq<Seq<char>>, seen: Set<Seq<char>>, from: int, at: int)
    requires
        0 <= from <= at < segments.len(),
        !seen.contains(segments[at]),
        forall|i: int| from <= i < at ==> seen.contains(#[trigger] segments[i]),
    ensures
        next_unseen(segments, seen, from) == at,
    decreases at - from,
{
    if from < at {
        lemma_next_is(segments, seen, from + 1, at);
    }
}

/// A segment with audio is pushed, and its codec noted. Behind the push, and behind a segment that
/// could not be fetched or has no audio, comes the next segment that has not been asked for; what
/// went wrong is noted, and that something was written.
pub proof fn law_segments_follow_each_other(
    worker: WorkerView,
    data: Seq<u8>,
    error: Seq<char>,
    at: int,
)
    requires
        valid_worker(worker),
        worker.next <= at < worker.segments.len(),
        !worker.seen.contains(worker.segments[at]),
        forall|i: int| worker.next <= i < at ==> worker.seen.contains(#[trigger] worker.segments[i]),
    ensures
        worker.phase == Phase::Segment ==> {
            let uri = worker.segments[worker.next - 1];
            &&& segment::segment_audio(data, uri) matches Some((audio, codec)) ==> worker_step(
                worker,
                EventView::Segment(Ok(data)),
                false,
            ) == (
                WorkerView {
                    phase: Phase::Push,
                    codec: if codec == AudioCodec::Unknown { worker.codec } else { codec },
                    ..worker
                },
                ActionView::Push(audio),
            )
            &&& segment::segment_audio(data, uri) is None ==> worker_step(
                worker,
                EventView::Segment(Ok(data)),
                false,
            ) == (
                WorkerView {
                    last_issue:
                        "segment produced no audio elementary stream (unsupported codec/container?)"@,
                    seen: worker.seen.insert(worker.segments[at]),
                    next: at + 1,
                    ..worker
                },
                ActionView::FetchSegment(worker.segments[at]),
            )
            &&& worker_step(worker, EventView::Segment(Err(error)), false) == (
                WorkerView {
                    last_issue: "segment fetch failed: "@ + error,
                    seen: worker.seen.insert(worker.segments[at]),
                    next: at + 1,
                    ..worker
                },
                ActionView::FetchSegment(worker.segments[at]),
            )
        },
        worker.phase == Phase::Push ==> worker_step(worker, EventView::Pushed(true), false) == (
            WorkerView {
                phase: Phase::Segment,
                wrote_anything: true,
                wrote_this_round: true,
                seen: worker.seen.insert(worker.segments[at]),
                next: at + 1,
                ..worker
            },
            ActionView::FetchSegment(worker.segments[at]),
        ),
        worker.phase == Phase::Push ==> worker_step(worker, EventView::Pushed(false), false).1
            == ActionView::Quit && worker_step(worker, EventView::Pushed(false), false).0.phase
            == Phase::Finished,
{
    lemma_next_is(worker.segments, worker.seen, worker.next, at);
}

/// After the last segment of a playlist that has ended the queue is closed; cleanly, for something
/// was just written. After that of a live playlist the playlist is looked at again at once, since
/// something new may be there already.
pub proof fn law_a_round_that_wrote_something_goes_on_at_once(worker: WorkerView)
    requires
        valid_worker(worker),
        worker.phase == Phase::Push,
        forall|i: int|
            worker.next <= i < worker.segments.len() ==> worker.seen.contains(
                #[trigger] worker.segments[i],
            ),
    ensures
        ({
            let (after, action) = worker_step(worker, EventView::Pushed(true), false);
            &&& worker.is_end_list ==> action == ActionView::Close(None) && after.phase
                == Phase::Finished
            &&& !worker.is_end_list ==> action == ActionView::FetchPlaylist(worker.url)
                && after.phase == Phase::Media && after.url == worker.url && after.wrote_anything
            &&& !worker.is_end_list && worker.seen.len() <= 500 ==> after.seen == worker.seen
        }),
{
    lemma_none_left(worker.segments, worker.seen, worker.next);
}

proof fn lemma_none_left(segments: Seq<Seq<char>>, seen: Set<Seq<char>>, from: int)
    requires
        0 <= from <= segments.len(),
        forall|i: int| from <= i < segments.len() ==> seen.contains(#[trigger] segments[i]),
    ensures
        next_unseen(segments, seen, from) == segments.len(),
    decreases segments.len() - from,
{
    if from < segments.len() {
        lemma_none_left(segments, seen, from + 1);
    }
}

/// A playlist that has ended and gives nothing new closes the queue: cleanly where anything was ever
/// written, and else with the last thing that went wrong.
pub proof fn law_an_ended_playlist_closes_the_queue(worker: WorkerView, body: Seq<char>)
    requires
        worker.phase == Phase::Media,
        m3u8::media_of(body, worker.url).is_end_list,
        forall|i: int|
            0 <= i < m3u8::media_of(body, worker.url).segments.len() ==> worker.seen.contains(
                (#[trigger] m3u8::media_of(body, worker.url).segments[i]).0,
            ),
    ensures
        worker_step(worker, EventView::Playlist(Ok(body)), false).1 == ActionView::Close(
            if worker.wrote_anything {
                None
            } else {
                Some(worker.last_issue)
            },
        ),
{
    let media = m3u8::media_of(body, worker.url);
    let uris = uris_of(media);
    assert forall|i: int| 0 <= i < uris.len() implies worker.seen.contains(#[trigger] uris[i]) by {
        assert(uris[i] == media.segments[i].0);
    }
    lemma_none_left(uris, worker.seen, 0);
}

/// A worker begins with nothing: no segment asked for, nothing written, no codec known.
pub proof fn law_a_worker_begins_with_nothing(url: Seq<char>)
    ensures
        started(url).phase == Phase::Opening,
        started(url).url == url,
        started(url).seen == Set::<Seq<char>>::empty(),
        !started(url).wrote_anything,
        started(url).codec == AudioCodec::Unknown,
        started(url).last_issue == "no segments were listed in the media playlist"@,
        !started(url).wrote_this_round,
        started(url).segments.len() == 0,
        started(url).next == 0,
        started(url).target == "0"@,
        started(url).last_duration is None,
        !started(url).is_end_list,
{
}

/// A wait is followed by another look at the playlist, with everything still remembered.
pub proof fn law_a_wait_is_followed_by_another_look(worker: WorkerView)
    requires
        worker.phase == Phase::Waiting,
    ensures
        worker_step(worker, EventView::Waited, false) == (
            WorkerView { phase: Phase::Media, ..worker },
            ActionView::FetchPlaylist(worker.url),
        ),
{
}

/// A stop closes the queue: cleanly where anything was written, and else with the last thing that
/// went wrong. Only a push that is under way is still made.
pub proof fn law_a_stop_closes_the_queue(worker: WorkerView, data: Seq<u8>, error: Seq<char>)
    requires
        valid_worker(worker),
    ensures
        worker.phase == Phase::Waiting ==> worker_step(worker, EventView::Waited, true).1
            == ActionView::Close(
            if worker.wrote_anything {
                None
            } else {
                Some(worker.last_issue)
            },
        ),
        worker.phase == Phase::Push ==> worker_step(worker, EventView::Pushed(true), true).1
            == ActionView::Close(None),
        worker.phase == Phase::Segment ==> worker_step(worker, EventView::Segment(Err(error)), true).1
            == ActionView::Close(
            if worker.wrote_anything {
                None
            } else {
                Some("segment fetch failed: "@ + error)
            },
        ),
{
}

/// A stream has twenty seconds to begin. A refresh that failed is tried again after two, and a
/// playlist that gives no duration is looked at every three.
pub proof fn law_waits_are_of_a_few_seconds()
    ensures
        OPEN_TIMEOUT_SECONDS == 20,
        RETRY_SECONDS == 2,
        DEFAULT_POLL_SECONDS == 3,
        MAX_SEEN_SEGMENTS == 500,
{
}

/// A worker takes the answer to what it asks for, whatever that is, and no other one.
pub proof fn law_a_worker_takes_the_answer_to_its_wish(
    worker: WorkerView,
    event: EventView,
    stopped: bool,
    playlist: Result<Seq<char>, Seq<char>>,
    data: Result<Seq<u8>, Seq<char>>,
    taken: bool,
    url: Seq<char>,
)
    requires
        valid_worker(worker),
        fits(worker.phase, event),
    ensures
        ({
            let (after, action) = worker_step(worker, event, stopped);
            &&& action is FetchPlaylist <==> fits(after.phase, EventView::Playlist(playlist))
            &&& action is FetchSegment <==> fits(after.phase, EventView::Segment(data))
            &&& action is Push <==> fits(after.phase, EventView::Pushed(taken))
            &&& action is Wait <==> fits(after.phase, EventView::Waited)
        }),
        fits(started(url).phase, EventView::Playlist(playlist)),
{
}

/// A playlist at a URL that has something before its query can always be read. Of one that has not,
/// a first playlist without variants can be read all the same.
pub proof fn law_a_playlist_with_a_path_can_be_read(worker: WorkerView, body: Seq<char>)
    ensures
        worker.url.len() == 0 || worker.url[0] != '?' ==> playlist_resolves(worker, body),
        worker.phase == Phase::Opening && !text::occurs(body, "#EXT-X-STREAM-INF"@)
            ==> playlist_resolves(worker, body),
        worker.phase == Phase::Opening && text::occurs(body, "#EXT-X-STREAM-INF"@)
            ==> playlist_resolves(worker, body) == m3u8::master_resolvable(body, worker.url),
        worker.phase != Phase::Opening ==> playlist_resolves(worker, body)
            == m3u8::media_resolvable(body, worker.url),
{
    if worker.url.len() == 0 || worker.url[0] != '?' {
        let variants = m3u8::variant_lines(m3u8::playlist_lines(body));
        assert forall|i: int| 0 <= i < variants.len() implies m3u8::resolvable(
            worker.url,
            (#[trigger] variants[i]).1,
        ) by {
            m3u8::law_every_uri_resolves_against_a_path(worker.url, variants[i].1);
        }
        let lines = m3u8::playlist_lines(body);
        assert forall|i: int|
            0 <= i < lines.len() && m3u8::is_uri_line(#[trigger] lines[i]) implies m3u8::resolvable(
            worker.url,
            lines[i],
        ) by {
            m3u8::law_every_uri_resolves_against_a_path(worker.url, lines[i]);
        }
    }
}

/// The segments that are gone through are those of the playlist, in order.
pub proof fn law_the_segments_of_the_playlist_are_gone_through(playlist: m3u8::MediaView)
    ensures
        uris_of(playlist).len() == playlist.segments.len(),
        forall|i: int|
            0 <= i < playlist.segments.len() ==> #[trigger] uris_of(playlist)[i]
                == playlist.segments[i].0,
{
}

} // verus!
