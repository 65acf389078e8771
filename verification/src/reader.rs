//! The reader: the state that keeps the highlighted word, the play flag, the
//! segment index and the live track in step with one another.
//!
//! Each event from outside (a tick of the sampler, a command of the user, the
//! end of a load) is one call. The call brings the state to its next fixed
//! point and hands back what the outside has to do: requests to the audio
//! sink and requests to load the audio of a segment.
//!
//! What each event does is defined on [`ReaderView`], the state as plain
//! values; the methods of [`Reader`] compute exactly that.

use crate::document::{contents, texts, views, LoadError, Segment, Source, Text, Word};
use crate::mapper::{lemma_seek_round_trip, lemma_word_at, locate, word_at};
use crate::track::{AudioPlayer, Start, Track, TrackState};
use vstd::prelude::*;

verus! {

/// Time allowed past the nominal end of a segment before the reader moves
/// on, so that trailing audio is not cut off.
pub const GRACE: u64 = 300;

/// The tick count at which the sampler's counter starts over.
pub const TICK_CEILING: u64 = 65535;

/// The interval between two ticks of the sampler.
pub const SAMPLE_INTERVAL: u32 = 10;

/// What the outside does for the reader.
#[derive(Clone, Copy, Debug, PartialEq, Eq)]
pub enum Action {
    /// Decode the raw bytes that segment `segment` holds, then report
    /// `audio_ready` or `audio_failed` with `token`.
    Decode { token: u64, segment: usize },
    /// Fetch the bytes that segment `segment` refers to and decode them, then
    /// report `audio_ready` or `audio_failed` with `token`.
    Fetch { token: u64, segment: usize },
    /// Create a source node for the track and bind it to the track's buffer.
    Create { track: Track },
    /// Connect the track's node to the output and start it at output time
    /// `when`, `offset` into the buffer.
    Start { track: Track, when: u32, offset: u64 },
    /// Stop the track's node, disconnect it and drop it.
    Halt { track: Track },
    /// Drop the buffer of the track: it is gone from the table.
    Release { track: Track },
}

/// The audio of the current segment, as far as the reader has it.
#[derive(Clone, Copy, Debug, PartialEq, Eq, Structural)]
pub enum AudioStatus {
    /// There is no current segment.
    Absent,
    /// The segment has no audio.
    Silent,
    /// A load was requested and has not ended.
    Loading,
    /// A track is attached.
    Ready,
    /// The audio could not be had.
    Failed(LoadError),
}

/// The state of a reader as plain values.
pub struct ReaderView {
    /// A document was loaded.
    pub loaded: bool,
    /// The segments of the document; none while no document is loaded.
    pub segments: Seq<Segment>,
    /// Why the last document could not be loaded, if it could not.
    pub text_error: Option<LoadError>,
    pub segment_index: usize,
    /// The highlighted word of the current segment.
    pub progress: Option<usize>,
    /// The last value of `progress` that came from the audio.
    pub progress_from_audio: Option<usize>,
    /// The live track.
    pub audio: Option<Track>,
    /// The table of tracks, by identity.
    pub player: Map<Seq<u8>, TrackState>,
    /// The clock of the sink as last read.
    pub now: u32,
    /// The last position sampled from a playing track.
    pub audio_progress: Option<u64>,
    pub playing: bool,
    /// The sampler's tick counter.
    pub update_tick: u64,
    /// The token of the last load that was requested.
    pub pending: u64,
    pub status: AudioStatus,
}

/// The state after an event, and what the outside has to do.
pub struct Step {
    pub state: ReaderView,
    pub actions: Seq<Action>,
}

/// The requests that start `track` as `start` says: the old node is halted
/// where the track plays, a node is created where none is left, and the
/// node is started.
pub open spec fn start_actions(track: Track, start: Start) -> Seq<Action> {
    let halt = if start.halt {
        seq![Action::Halt { track }]
    } else {
        Seq::empty()
    };
    let create = if start.create {
        seq![Action::Create { track }]
    } else {
        Seq::empty()
    };
    halt + create + seq![Action::Start { track, when: start.when, offset: start.offset }]
}

/// The requests that take `track` from the sink; `halt` says whether its
/// node is running.
pub open spec fn release_actions(track: Track, halt: bool) -> Seq<Action> {
    if halt {
        seq![Action::Halt { track }, Action::Release { track }]
    } else {
        seq![Action::Release { track }]
    }
}

/// The token after `token`.
pub open spec fn next_token(token: u64) -> u64 {
    if token < u64::MAX {
        (token + 1) as u64
    } else {
        0
    }
}

/// The tick counter after one more tick: it starts over before it reaches
/// the ceiling.
pub open spec fn next_tick(count: u64) -> u64 {
    if count + 1 >= TICK_CEILING {
        0
    } else {
        (count + 1) as u64
    }
}

/// The index after `index`, held at the largest one.
pub open spec fn next_index(index: usize) -> usize {
    if index < usize::MAX {
        (index + 1) as usize
    } else {
        index
    }
}

/// The later of two clock readings.
pub open spec fn later(a: u32, b: u32) -> u32 {
    if b > a {
        b
    } else {
        a
    }
}

impl ReaderView {
    /// The state of a reader that has seen no event.
    pub open spec fn initial() -> ReaderView {
        ReaderView {
            loaded: false,
            segments: Seq::empty(),
            text_error: None,
            segment_index: 0,
            progress: None,
            progress_from_audio: None,
            audio: None,
            player: Map::empty(),
            now: 0,
            audio_progress: None,
            playing: false,
            update_tick: 0,
            pending: 0,
            status: AudioStatus::Absent,
        }
    }

    /// The state once the clock of the sink was read as `now`. The clock is
    /// monotonic: a reading below the one held changes nothing.
    pub open spec fn clocked(self, now: u32) -> ReaderView {
        ReaderView { now: later(self.now, now), ..self }
    }

    /// The current segment, if there is one.
    pub open spec fn segment(self) -> Option<Segment> {
        if self.segment_index < self.segments.len() {
            Some(self.segments[self.segment_index as int])
        } else {
            None
        }
    }

    /// The words of the current segment.
    pub open spec fn words(self) -> Seq<Word> {
        match self.segment() {
            Some(segment) => segment.words@,
            None => Seq::empty(),
        }
    }

    /// The table holds the live track and nothing else.
    pub open spec fn solo(self) -> bool {
        match self.audio {
            Some(track) => self.player.dom() =~= set![track@],
            None => self.player.dom() =~= Set::<Seq<u8>>::empty(),
        }
    }

    /// The segment index is below the number of segments, or 0 where there
    /// is none.
    pub open spec fn indexed(self) -> bool {
        self.segment_index < self.segments.len() || self.segment_index == 0
    }

    /// The live track plays exactly when the play flag is set.
    pub open spec fn in_step(self) -> bool {
        match self.audio {
            Some(track) => self.player[track@].is_playing == self.playing,
            None => true,
        }
    }

    /// What holds of a reader between two events, but for `in_step`.
    pub open spec fn shape(self) -> bool {
        &&& self.indexed()
        &&& self.solo()
        &&& self.segments.len() <= usize::MAX
        &&& !self.loaded ==> self.segments.len() == 0
        &&& match self.progress {
            Some(i) => i < self.words().len(),
            None => true,
        }
        &&& (self.status == AudioStatus::Ready) == (self.audio is Some)
        &&& (self.status == AudioStatus::Absent) == (self.segments.len() == 0)
    }

    /// What holds of a reader between two events.
    pub open spec fn inv(self) -> bool {
        self.shape() && self.in_step()
    }

    /// Where playback starts when the play flag is set: at the start of the
    /// highlighted word if that word has a span, at the track's offset
    /// otherwise.
    pub open spec fn seek(self) -> Option<u32> {
        match self.progress {
            Some(i) => if i < self.words().len() {
                self.words()[i as int].onset()
            } else {
                None
            },
            None => None,
        }
    }

    /// What went wrong, for the outside to show: the reason why the document
    /// could not be loaded, or else the reason why the audio of the current
    /// segment could not be had.
    pub open spec fn failure(self) -> Option<LoadError> {
        match self.text_error {
            Some(error) => Some(error),
            None => match self.status {
                AudioStatus::Failed(error) => Some(error),
                _ => None,
            },
        }
    }

    /// The live track follows the play flag: it is started where the flag is
    /// set and it does not play, paused where the flag is clear and it
    /// plays.
    pub open spec fn sync(self) -> Step {
        match self.audio {
            Some(track) => {
                let state = self.player[track@];
                if self.playing && !state.is_playing {
                    Step {
                        state: ReaderView {
                            player: self.player.insert(
                                track@,
                                state.started(self.seek(), self.now),
                            ),
                            ..self
                        },
                        actions: start_actions(track, state.start_command(self.seek(), self.now)),
                    }
                } else if !self.playing && state.is_playing {
                    Step {
                        state: ReaderView {
                            player: self.player.insert(track@, state.paused(self.now)),
                            ..self
                        },
                        actions: seq![Action::Halt { track }],
                    }
                } else {
                    Step { state: self, actions: Seq::empty() }
                }
            },
            None => Step { state: self, actions: Seq::empty() },
        }
    }

    /// The live track is stopped and taken from the table.
    pub open spec fn release(self) -> Step {
        match self.audio {
            Some(track) => Step {
                state: ReaderView { audio: None, player: self.player.remove(track@), ..self },
                actions: release_actions(track, self.player[track@].is_playing),
            },
            None => Step { state: self, actions: Seq::empty() },
        }
    }

    /// The audio of the current segment is asked for under a new token.
    pub open spec fn request(self) -> Step {
        let token = next_token(self.pending);
        let asked = ReaderView { pending: token, ..self };
        match self.segment() {
            Some(segment) => match segment.audio.resolved() {
                Ok(Source::Silent) => Step {
                    state: ReaderView { status: AudioStatus::Silent, ..asked },
                    actions: Seq::empty(),
                },
                Ok(Source::Inline) => Step {
                    state: ReaderView { status: AudioStatus::Loading, ..asked },
                    actions: seq![Action::Decode { token, segment: self.segment_index }],
                },
                Ok(Source::Remote) => Step {
                    state: ReaderView { status: AudioStatus::Loading, ..asked },
                    actions: seq![Action::Fetch { token, segment: self.segment_index }],
                },
                Err(error) => Step {
                    state: ReaderView { status: AudioStatus::Failed(error), ..asked },
                    actions: Seq::empty(),
                },
            },
            None => Step {
                state: ReaderView { status: AudioStatus::Absent, ..asked },
                actions: Seq::empty(),
            },
        }
    }

    /// The current segment is loaded anew: no word is highlighted, the track
    /// of the segment before is released, and the audio is asked for.
    pub open spec fn load_segment(self) -> Step {
        let released = ReaderView { progress: None, ..self }.release();
        let requested = released.state.request();
        Step { state: requested.state, actions: released.actions + requested.actions }
    }

    /// The segment index is set to `index`. A sample of the audio that is
    /// present clears the play flag; an index past the last segment becomes
    /// the last and clears the play flag; the segment is loaded anew. Without
    /// segments nothing happens.
    pub open spec fn navigate(self, index: usize) -> Step {
        if self.segments.len() == 0 {
            Step { state: self, actions: Seq::empty() }
        } else {
            let past = index >= self.segments.len();
            ReaderView {
                segment_index: if past {
                    (self.segments.len() - 1) as usize
                } else {
                    index
                },
                playing: self.playing && self.audio_progress is None && !past,
                ..self
            }.load_segment()
        }
    }

    /// A document arrives. The segment index stays, but for one past the
    /// last segment, which becomes the last and clears the play flag; the
    /// segment is loaded anew.
    pub open spec fn load_text(self, segments: Seq<Segment>) -> Step {
        let past = self.segment_index >= segments.len();
        ReaderView {
            loaded: true,
            segments,
            text_error: None,
            segment_index: if segments.len() == 0 {
                0
            } else if past {
                (segments.len() - 1) as usize
            } else {
                self.segment_index
            },
            playing: self.playing && !(segments.len() > 0 && past),
            ..self
        }.load_segment()
    }

    /// The highlighted word is set by hand. A value past the last word
    /// becomes the last word (none where there are no words) and clears the
    /// play flag; a word other than the last one that came from the audio
    /// clears the play flag.
    pub open spec fn scrub(self, progress: Option<usize>) -> Step {
        let len = self.words().len();
        let set = match progress {
            None => ReaderView { progress: None, ..self },
            Some(i) => if i >= len {
                ReaderView {
                    progress: if len == 0 {
                        None
                    } else {
                        Some((len - 1) as usize)
                    },
                    playing: false,
                    ..self
                }
            } else {
                ReaderView {
                    progress: Some(i),
                    playing: self.playing && self.progress_from_audio == Some(i),
                    ..self
                }
            },
        };
        set.sync()
    }

    /// The play flag is set to `playing`.
    pub open spec fn set_playing(self, playing: bool) -> Step {
        ReaderView { playing, ..self }.sync()
    }

    /// The position that a sample of the live track gives.
    pub open spec fn sample(self) -> Option<u64> {
        match self.audio {
            Some(track) => self.player[track@].position(self.now),
            None => None,
        }
    }

    /// The highlight follows the audio: where a word is spoken at `position`
    /// and it is not the highlighted one, it becomes the highlighted one and
    /// is remembered as coming from the audio.
    pub open spec fn follow(self, position: u64) -> ReaderView {
        match word_at(self.words(), position as int) {
            Some(i) => if self.progress != Some(i as usize) {
                ReaderView {
                    progress: Some(i as usize),
                    progress_from_audio: Some(i as usize),
                    ..self
                }
            } else {
                self
            },
            None => self,
        }
    }

    /// The audio of the current segment is over at `position`: the duration
    /// and the grace time have passed.
    pub open spec fn ended(self, position: u64) -> bool {
        match self.segment() {
            Some(segment) => position >= segment.duration + GRACE,
            None => false,
        }
    }

    /// One tick of the sampler. The counter moves on; where the live track
    /// plays, its position is sampled, the highlight follows it, and past
    /// the end of the segment the sample is dropped and the reader moves to
    /// the next segment.
    pub open spec fn tick(self) -> Step {
        let ticked = ReaderView { update_tick: next_tick(self.update_tick), ..self };
        match ticked.sample() {
            Some(position) => {
                let followed = ReaderView { audio_progress: Some(position), ..ticked }.follow(
                    position,
                );
                if followed.ended(position) {
                    ReaderView { audio_progress: None, ..followed }.navigate(
                        next_index(followed.segment_index),
                    )
                } else {
                    Step { state: followed, actions: Seq::empty() }
                }
            },
            None => Step { state: ticked, actions: Seq::empty() },
        }
    }

    /// The reader waits for the load with this token.
    pub open spec fn awaits(self, token: u64) -> bool {
        self.status == AudioStatus::Loading && token == self.pending
    }

    /// The audio of the current segment is decoded: `track`, new in the
    /// table, becomes the live track and follows the play flag.
    pub open spec fn attach(self, track: Track) -> Step {
        ReaderView {
            audio: Some(track),
            player: self.player.insert(track@, TrackState::fresh()),
            status: AudioStatus::Ready,
            ..self
        }.sync()
    }

    /// The load with this token failed. Only the load that the reader waits
    /// for counts.
    pub open spec fn fail(self, token: u64, error: LoadError) -> ReaderView {
        if self.awaits(token) {
            ReaderView { status: AudioStatus::Failed(error), ..self }
        } else {
            self
        }
    }
}


/// The reader.
pub struct Reader {
    text: Option<Text>,
    text_error: Option<LoadError>,
    segment_index: usize,
    progress: Option<usize>,
    progress_from_audio: Option<usize>,
    audio: Option<Track>,
    audio_progress: Option<u64>,
    playing: bool,
    update_tick: u64,
    pending: u64,
    status: AudioStatus,
    player: AudioPlayer,
}

impl View for Reader {
    type V = ReaderView;

    closed spec fn view(&self) -> ReaderView {
        ReaderView {
            loaded: self.text is Some,
            segments: match self.text {
                Some(text) => text.segments@,
                None => Seq::empty(),
            },
            text_error: self.text_error,
            segment_index: self.segment_index,
            progress: self.progress,
            progress_from_audio: self.progress_from_audio,
            audio: self.audio,
            player: self.player@,
            now: self.player.clock(),
            audio_progress: self.audio_progress,
            playing: self.playing,
            update_tick: self.update_tick,
            pending: self.pending,
            status: self.status,
        }
    }
}

impl Reader {
    /// The reader is between two events: its table is well formed and its
    /// state is as `ReaderView::inv` says.
    pub closed spec fn wf(&self) -> bool {
        self.player.wf() && self@.inv()
    }

    /// What holds of the state of a well-formed reader.
    pub proof fn lemma_wf(&self)
        requires
            self.wf(),
        ensures
            self@.inv(),
            forall|id: Seq<u8>|
                self@.player.contains_key(id) ==> (#[trigger] self@.player[id]).wf(self@.now),
    {
        self.player.lemma_wf();
    }

    /// A reader without a document.
    pub fn new() -> (reader: Reader)
        ensures
            reader.wf(),
            reader@ == ReaderView::initial(),
    {
        Reader {
            text: None,
            text_error: None,
            segment_index: 0,
            progress: None,
            progress_from_audio: None,
            audio: None,
            audio_progress: None,
            playing: false,
            update_tick: 0,
            pending: 0,
            status: AudioStatus::Absent,
            player: AudioPlayer::new(),
        }
    }

    /// The current segment, if there is one.
    pub fn segment(&self) -> (segment: Option<&Segment>)
        ensures
            match segment {
                Some(s) => self@.segment() == Some(*s),
                None => self@.segment() is None,
            },
    {
        match &self.text {
            Some(text) => text.segment(self.segment_index),
            None => None,
        }
    }

    /// Whether a document is loaded.
    pub fn is_loaded(&self) -> (loaded: bool)
        ensures
            loaded == self@.loaded,
    {
        self.text.is_some()
    }

    /// Why the last document could not be loaded, if it could not.
    pub fn text_error(&self) -> (error: Option<LoadError>)
        ensures
            error == self@.text_error,
    {
        self.text_error
    }

    /// What went wrong, for the outside to show.
    pub fn failure(&self) -> (error: Option<LoadError>)
        ensures
            error == self@.failure(),
    {
        match self.text_error {
            Some(error) => Some(error),
            None => match self.status {
                AudioStatus::Failed(error) => Some(error),
                _ => None,
            },
        }
    }

    /// The number of segments.
    pub fn segment_count(&self) -> (count: usize)
        ensures
            count == self@.segments.len(),
    {
        match &self.text {
            Some(text) => text.segments.len(),
            None => 0,
        }
    }

    /// The index of the current segment.
    pub fn segment_index(&self) -> (index: usize)
        ensures
            index == self@.segment_index,
    {
        self.segment_index
    }

    /// The highlighted word of the current segment.
    pub fn progress(&self) -> (progress: Option<usize>)
        ensures
            progress == self@.progress,
    {
        self.progress
    }

    /// The last highlighted word that came from the audio.
    pub fn progress_from_audio(&self) -> (progress: Option<usize>)
        ensures
            progress == self@.progress_from_audio,
    {
        self.progress_from_audio
    }

    /// The last position sampled from a playing track.
    pub fn audio_progress(&self) -> (position: Option<u64>)
        ensures
            position == self@.audio_progress,
    {
        self.audio_progress
    }

    /// The play flag.
    pub fn playing(&self) -> (playing: bool)
        ensures
            playing == self@.playing,
    {
        self.playing
    }

    /// The audio of the current segment, as far as the reader has it.
    pub fn status(&self) -> (status: AudioStatus)
        ensures
            status == self@.status,
    {
        self.status
    }

    /// The live track.
    pub fn track(&self) -> (track: Option<Track>)
        ensures
            track == self@.audio,
    {
        self.audio
    }

    /// The playback state of the live track.
    pub fn track_state(&self) -> (state: Option<TrackState>)
        requires
            self.wf(),
        ensures
            state == match self@.audio {
                Some(track) => Some(self@.player[track@]),
                None => None,
            },
    {
        match self.audio {
            Some(track) => self.player.state(&track),
            None => None,
        }
    }

    /// The token of the last load that was requested.
    pub fn pending(&self) -> (token: u64)
        ensures
            token == self@.pending,
    {
        self.pending
    }

    /// The sampler's tick counter.
    pub fn update_tick(&self) -> (count: u64)
        ensures
            count == self@.update_tick,
    {
        self.update_tick
    }

    /// The clock of the sink as last read.
    pub fn current_time(&self) -> (now: u32)
        ensures
            now == self@.now,
    {
        self.player.current_time()
    }

    /// The number of words of the current segment.
    pub fn content_length(&self) -> (length: usize)
        ensures
            length == self@.words().len(),
    {
        match self.segment() {
            Some(segment) => segment.words.len(),
            None => 0,
        }
    }

    /// The texts of the words of the current segment.
    pub fn content(&self) -> (content: Vec<String>)
        ensures
            views(content@) == texts(self@.words()),
    {
        match self.segment() {
            Some(segment) => contents(&segment.words),
            None => {
                let content: Vec<String> = Vec::new();
                assert(views(content@) =~= texts(self@.words()));
                content
            },
        }
    }

    /// The texts of the words of every segment.
    pub fn segments_content(&self) -> (content: Vec<Vec<String>>)
        ensures
            content@.len() == self@.segments.len(),
            forall|i: int|
                0 <= i < content@.len() ==> views(#[trigger] content@[i]@) == texts(
                    self@.segments[i].words@,
                ),
    {
        match &self.text {
            Some(text) => text.contents(),
            None => Vec::new(),
        }
    }

    /// The segment at `index`, if the document has one there.
    pub fn segment_at(&self, index: usize) -> (segment: Option<&Segment>)
        ensures
            match segment {
                Some(s) => index < self@.segments.len() && self@.segments[index as int] == *s,
                None => index >= self@.segments.len(),
            },
    {
        match &self.text {
            Some(text) => text.segment(index),
            None => None,
        }
    }

    fn seek(&self) -> (offset: Option<u32>)
        ensures
            offset == self@.seek(),
    {
        match self.progress {
            Some(i) => match self.segment() {
                Some(segment) => if i < segment.words.len() {
                    segment.words[i].start()
                } else {
                    None
                },
                None => None,
            },
            None => None,
        }
    }

    fn sync(&mut self, actions: &mut Vec<Action>)
        requires
            old(self).player.wf(),
            old(self)@.shape(),
        ensures
            final(self).wf(),
            final(self)@ == old(self)@.sync().state,
            final(actions)@ == old(actions)@ + old(self)@.sync().actions,
    {
        proof {
            lemma_sync_inv(self@);
        }
        match self.audio {
            Some(track) => {
                let is_playing = match self.player.state(&track) {
                    Some(state) => state.is_playing,
                    None => false,
                };
                if self.playing && !is_playing {
                    let start = match self.seek() {
                        Some(offset) => track.play_at(&mut self.player, offset),
                        None => track.play(&mut self.player),
                    };
                    if start.halt {
                        actions.push(Action::Halt { track });
                    }
                    if start.create {
                        actions.push(Action::Create { track });
                    }
                    actions.push(Action::Start { track, when: start.when, offset: start.offset });
                } else if !self.playing && is_playing {
                    track.pause(&mut self.player);
                    actions.push(Action::Halt { track });
                }
            },
            None => {},
        }
        assert(final(actions)@ =~= old(actions)@ + old(self)@.sync().actions);
    }

    fn release(&mut self, actions: &mut Vec<Action>)
        requires
            old(self).player.wf(),
            old(self)@.solo(),
        ensures
            final(self).player.wf(),
            final(self)@ == old(self)@.release().state,
            final(actions)@ == old(actions)@ + old(self)@.release().actions,
    {
        if let Some(track) = self.audio {
            let halt = track.release(&mut self.player);
            if halt {
                actions.push(Action::Halt { track });
            }
            actions.push(Action::Release { track });
            self.audio = None;
        }
        assert(final(actions)@ =~= old(actions)@ + old(self)@.release().actions);
    }

    fn request(&mut self, actions: &mut Vec<Action>)
        ensures
            final(self).player == old(self).player,
            final(self)@ == old(self)@.request().state,
            final(actions)@ == old(actions)@ + old(self)@.request().actions,
    {
        let token = if self.pending < u64::MAX {
            self.pending + 1
        } else {
            0
        };
        let source = match self.segment() {
            Some(segment) => Some(segment.audio.source()),
            None => None,
        };
        self.pending = token;
        match source {
            Some(Ok(Source::Silent)) => {
                self.status = AudioStatus::Silent;
            },
            Some(Ok(Source::Inline)) => {
                self.status = AudioStatus::Loading;
                actions.push(Action::Decode { token, segment: self.segment_index });
            },
            Some(Ok(Source::Remote)) => {
                self.status = AudioStatus::Loading;
                actions.push(Action::Fetch { token, segment: self.segment_index });
            },
            Some(Err(error)) => {
                self.status = AudioStatus::Failed(error);
            },
            None => {
                self.status = AudioStatus::Absent;
            },
        }
        assert(final(actions)@ =~= old(actions)@ + old(self)@.request().actions);
    }

    fn load_segment(&mut self, actions: &mut Vec<Action>)
        requires
            old(self).player.wf(),
            old(self)@.solo(),
            old(self)@.indexed(),
        ensures
            final(self).wf(),
            final(self)@ == old(self)@.load_segment().state,
            final(actions)@ == old(actions)@ + old(self)@.load_segment().actions,
    {
        proof {
            if self.text is Some {
                assert(self.text->0.segments@.len() == self.text->0.segments.len());
            }
            lemma_load_segment_inv(self@);
        }
        self.progress = None;
        self.release(actions);
        self.request(actions);
        assert(final(actions)@ =~= old(actions)@ + old(self)@.load_segment().actions);
    }

    fn navigate(&mut self, index: usize, actions: &mut Vec<Action>)
        requires
            old(self).wf(),
        ensures
            final(self).wf(),
            final(self)@ == old(self)@.navigate(index).state,
            final(actions)@ == old(actions)@ + old(self)@.navigate(index).actions,
    {
        let count = match &self.text {
            Some(text) => text.segments.len(),
            None => 0,
        };
        if count == 0 {
            assert(final(actions)@ =~= old(actions)@ + old(self)@.navigate(index).actions);
            return ;
        }
        if self.audio_progress.is_some() {
            self.playing = false;
        }
        if index >= count {
            self.segment_index = count - 1;
            self.playing = false;
        } else {
            self.segment_index = index;
        }
        self.load_segment(actions);
    }

    /// A document arrives. The segment index stays, but for one past the
    /// last segment, which becomes the last and clears the play flag; the
    /// current segment is loaded anew.
    pub fn load_text(&mut self, text: Text) -> (actions: Vec<Action>)
        requires
            old(self).wf(),
        ensures
            final(self).wf(),
            final(self)@ == old(self)@.load_text(text.segments@).state,
            actions@ == old(self)@.load_text(text.segments@).actions,
    {
        let mut actions: Vec<Action> = Vec::new();
        let count = text.segments.len();
        if count == 0 {
            self.segment_index = 0;
        } else if self.segment_index >= count {
            self.segment_index = count - 1;
            self.playing = false;
        }
        self.text = Some(text);
        self.text_error = None;
        self.load_segment(&mut actions);
        assert(actions@ =~= old(self)@.load_text(text.segments@).actions);
        actions
    }

    /// The document could not be loaded: the reason is kept for the outside
    /// to show.
    pub fn text_failed(&mut self, error: LoadError)
        requires
            old(self).wf(),
        ensures
            final(self).wf(),
            final(self)@ == (ReaderView { text_error: Some(error), ..old(self)@ }),
    {
        self.text_error = Some(error);
    }

    /// Sets the segment index. Any value is taken: one past the last
    /// segment becomes the last and clears the play flag.
    pub fn set_segment_index(&mut self, index: usize) -> (actions: Vec<Action>)
        requires
            old(self).wf(),
        ensures
            final(self).wf(),
            final(self)@ == old(self)@.navigate(index).state,
            actions@ == old(self)@.navigate(index).actions,
    {
        let mut actions: Vec<Action> = Vec::new();
        self.navigate(index, &mut actions);
        assert(actions@ =~= old(self)@.navigate(index).actions);
        actions
    }

    /// Sets the highlighted word by hand, at the clock reading `now`.
    pub fn set_progress(&mut self, progress: Option<usize>, now: u32) -> (actions: Vec<Action>)
        requires
            old(self).wf(),
        ensures
            final(self).wf(),
            final(self)@ == old(self)@.clocked(now).scrub(progress).state,
            actions@ == old(self)@.clocked(now).scrub(progress).actions,
    {
        let mut actions: Vec<Action> = Vec::new();
        self.player.advance_to(now);
        let len = match self.segment() {
            Some(segment) => segment.words.len(),
            None => 0,
        };
        match progress {
            None => {
                self.progress = None;
            },
            Some(i) => {
                if i >= len {
                    self.progress = if len == 0 {
                        None
                    } else {
                        Some(len - 1)
                    };
                    self.playing = false;
                } else {
                    self.progress = Some(i);
                    let from_audio = match self.progress_from_audio {
                        Some(j) => j == i,
                        None => false,
                    };
                    if !from_audio {
                        self.playing = false;
                    }
                }
            },
        }
        self.sync(&mut actions);
        assert(actions@ =~= old(self)@.clocked(now).scrub(progress).actions);
        actions
    }

    /// Sets the play flag, at the clock reading `now`.
    pub fn set_playing(&mut self, playing: bool, now: u32) -> (actions: Vec<Action>)
        requires
            old(self).wf(),
        ensures
            final(self).wf(),
            final(self)@ == old(self)@.clocked(now).set_playing(playing).state,
            actions@ == old(self)@.clocked(now).set_playing(playing).actions,
    {
        let mut actions: Vec<Action> = Vec::new();
        self.player.advance_to(now);
        self.playing = playing;
        self.sync(&mut actions);
        assert(actions@ =~= old(self)@.clocked(now).set_playing(playing).actions);
        actions
    }

    /// Flips the play flag, at the clock reading `now`.
    pub fn toggle_playing(&mut self, now: u32) -> (actions: Vec<Action>)
        requires
            old(self).wf(),
        ensures
            final(self).wf(),
            final(self)@ == old(self)@.clocked(now).set_playing(!old(self)@.playing).state,
            actions@ == old(self)@.clocked(now).set_playing(!old(self)@.playing).actions,
    {
        let playing = !self.playing;
        self.set_playing(playing, now)
    }

    /// One tick of the sampler, with the clock reading `now`.
    pub fn tick(&mut self, now: u32) -> (actions: Vec<Action>)
        requires
            old(self).wf(),
        ensures
            final(self).wf(),
            final(self)@ == old(self)@.clocked(now).tick().state,
            actions@ == old(self)@.clocked(now).tick().actions,
    {
        let mut actions: Vec<Action> = Vec::new();
        self.update_tick = if self.update_tick >= TICK_CEILING - 1 {
            0
        } else {
            self.update_tick + 1
        };
        self.player.advance_to(now);
        let sample = match self.audio {
            Some(track) => track.progress(&self.player),
            None => None,
        };
        if let Some(position) = sample {
            self.audio_progress = Some(position);
            let found = match self.segment() {
                Some(segment) => locate(&segment.words, position),
                None => None,
            };
            if let Some(i) = found {
                let same = match self.progress {
                    Some(j) => j == i,
                    None => false,
                };
                if !same {
                    self.progress_from_audio = Some(i);
                    self.progress = Some(i);
                }
            }
            let over = match self.segment() {
                Some(segment) => position >= segment.duration as u64 + GRACE,
                None => false,
            };
            if over {
                self.audio_progress = None;
                let next = if self.segment_index < usize::MAX {
                    self.segment_index + 1
                } else {
                    self.segment_index
                };
                self.navigate(next, &mut actions);
            }
        }
        assert(actions@ =~= old(self)@.clocked(now).tick().actions);
        actions
    }

    /// The audio of a segment is decoded, at the clock reading `now`. Where
    /// the reader waits for the load with this token, a new track becomes the
    /// live track and is handed back, for the outside to keep the buffer
    /// under it. Any other load is stale: nothing changes, and the outside
    /// drops the buffer.
    pub fn audio_ready(&mut self, token: u64, now: u32) -> (attached: (Option<Track>, Vec<Action>))
        requires
            old(self).wf(),
        ensures
            final(self).wf(),
            attached.0 is Some == old(self)@.awaits(token),
            match attached.0 {
                Some(track) => {
                    &&& !old(self)@.player.contains_key(track@)
                    &&& final(self)@ == old(self)@.clocked(now).attach(track).state
                    &&& attached.1@ == old(self)@.clocked(now).attach(track).actions
                },
                None => final(self)@ == old(self)@ && attached.1@ == Seq::<Action>::empty(),
            },
    {
        let mut actions: Vec<Action> = Vec::new();
        let waiting = match self.status {
            AudioStatus::Loading => token == self.pending,
            _ => false,
        };
        if !waiting {
            return (None, actions);
        }
        self.player.advance_to(now);
        let made = Track::new(&mut self.player);
        match made {
            Some(track) => {
                self.audio = Some(track);
                self.status = AudioStatus::Ready;
                self.sync(&mut actions);
                assert(actions@ =~= old(self)@.clocked(now).attach(track).actions);
                (Some(track), actions)
            },
            None => (None, actions),
        }
    }

    /// The audio of a segment could not be had. Only the load that the
    /// reader waits for counts.
    pub fn audio_failed(&mut self, token: u64, error: LoadError)
        requires
            old(self).wf(),
        ensures
            final(self).wf(),
            final(self)@ == old(self)@.fail(token, error),
    {
        let waiting = match self.status {
            AudioStatus::Loading => token == self.pending,
            _ => false,
        };
        if waiting {
            self.status = AudioStatus::Failed(error);
        }
    }

    /// Ends the reader: the live track is stopped and released.
    pub fn close(self) -> (actions: Vec<Action>)
        requires
            self.wf(),
        ensures
            actions@ == self@.release().actions,
    {
        let mut reader = self;
        let mut actions: Vec<Action> = Vec::new();
        reader.release(&mut actions);
        assert(actions@ =~= self@.release().actions);
        actions
    }
}

/// After `sync` the live track plays exactly when the play flag is set.
pub proof fn lemma_sync_inv(s: ReaderView)
    requires
        s.shape(),
    ensures
        s.sync().state.inv(),
        s.sync().state.playing == s.playing,
        s.sync().state.progress == s.progress,
{
    if let Some(track) = s.audio {
        let after = s.sync().state;
        assert(after.player.dom() =~= s.player.dom());
    }
}

/// Loading a segment leaves no word highlighted and no track live.
pub proof fn lemma_load_segment_inv(s: ReaderView)
    requires
        s.solo(),
        s.indexed(),
        s.segments.len() <= usize::MAX,
        !s.loaded ==> s.segments.len() == 0,
    ensures
        s.load_segment().state.inv(),
        s.load_segment().state.progress is None,
        s.load_segment().state.audio is None,
{
    let released = ReaderView { progress: None, ..s }.release().state;
    assert(released.player.dom() =~= Set::<Seq<u8>>::empty());
}

/// The highlighted word is a word of the current segment, and the segment
/// index is that of a segment wherever there is one.
pub proof fn lemma_in_range(s: ReaderView)
    requires
        s.inv(),
    ensures
        match s.progress {
            Some(i) => i < s.words().len(),
            None => true,
        },
        s.segments.len() > 0 ==> s.segment_index < s.segments.len(),
        s.segments.len() == 0 ==> s.segment_index == 0 && s.audio is None,
{
}

/// Reading the clock keeps the invariant.
pub proof fn lemma_clocked_inv(s: ReaderView, now: u32)
    requires
        s.inv(),
    ensures
        s.clocked(now).inv(),
{
}

/// Setting the segment index keeps the invariant.
pub proof fn lemma_navigate_inv(s: ReaderView, index: usize)
    requires
        s.inv(),
    ensures
        s.navigate(index).state.inv(),
{
    if s.segments.len() > 0 {
        let past = index >= s.segments.len();
        lemma_load_segment_inv(
            ReaderView {
                segment_index: if past {
                    (s.segments.len() - 1) as usize
                } else {
                    index
                },
                playing: s.playing && s.audio_progress is None && !past,
                ..s
            },
        );
    }
}

/// The arrival of a document keeps the invariant.
pub proof fn lemma_load_text_inv(s: ReaderView, segments: Seq<Segment>)
    requires
        s.inv(),
        segments.len() <= usize::MAX,
    ensures
        s.load_text(segments).state.inv(),
{
    let past = s.segment_index >= segments.len();
    lemma_load_segment_inv(
        ReaderView {
            loaded: true,
            segments,
            text_error: None,
            segment_index: if segments.len() == 0 {
                0
            } else if past {
                (segments.len() - 1) as usize
            } else {
                s.segment_index
            },
            playing: s.playing && !(segments.len() > 0 && past),
            ..s
        },
    );
}

/// Setting the highlighted word by hand keeps the invariant.
pub proof fn lemma_scrub_inv(s: ReaderView, progress: Option<usize>)
    requires
        s.inv(),
    ensures
        s.scrub(progress).state.inv(),
{
    let len = s.words().len();
    let set = match progress {
        None => ReaderView { progress: None, ..s },
        Some(i) => if i >= len {
            ReaderView {
                progress: if len == 0 {
                    None
                } else {
                    Some((len - 1) as usize)
                },
                playing: false,
                ..s
            }
        } else {
            ReaderView {
                progress: Some(i),
                playing: s.playing && s.progress_from_audio == Some(i),
                ..s
            }
        },
    };
    lemma_sync_inv(set);
}

/// Setting the play flag keeps the invariant.
pub proof fn lemma_set_playing_inv(s: ReaderView, playing: bool)
    requires
        s.inv(),
    ensures
        s.set_playing(playing).state.inv(),
{
    lemma_sync_inv(ReaderView { playing, ..s });
}

/// A tick keeps the invariant.
pub proof fn lemma_tick_inv(s: ReaderView)
    requires
        s.inv(),
    ensures
        s.tick().state.inv(),
{
    let ticked = ReaderView { update_tick: next_tick(s.update_tick), ..s };
    if let Some(position) = ticked.sample() {
        let sampled = ReaderView { audio_progress: Some(position), ..ticked };
        lemma_word_at(sampled.words(), position as int);
        let followed = sampled.follow(position);
        if followed.ended(position) {
            lemma_navigate_inv(
                ReaderView { audio_progress: None, ..followed },
                next_index(followed.segment_index),
            );
        }
    }
}

/// Attaching a new track to a reader that waits for one keeps the invariant.
pub proof fn lemma_attach_inv(s: ReaderView, track: Track)
    requires
        s.inv(),
        s.status == AudioStatus::Loading,
        !s.player.contains_key(track@),
    ensures
        s.attach(track).state.inv(),
{
    let attached = ReaderView {
        audio: Some(track),
        player: s.player.insert(track@, TrackState::fresh()),
        status: AudioStatus::Ready,
        ..s
    };
    assert(attached.player.dom() =~= set![track@]);
    lemma_sync_inv(attached);
}

/// The failure of a load keeps the invariant.
pub proof fn lemma_fail_inv(s: ReaderView, token: u64, error: LoadError)
    requires
        s.inv(),
    ensures
        s.fail(token, error).inv(),
{
}

/// A scrub pauses: setting the highlighted word by hand to a word other than
/// the last one that came from the audio leaves the play flag clear, and the
/// live track not playing, whatever the play flag was.
pub proof fn lemma_scrub_pauses(s: ReaderView, i: usize)
    requires
        s.inv(),
        s.progress_from_audio != Some(i),
    ensures
        !s.scrub(Some(i)).state.playing,
        s.scrub(Some(i)).state.audio matches Some(track) ==> !s.scrub(Some(i)).state.player[track@].is_playing,
{
    lemma_scrub_inv(s, Some(i));
}

/// A scrub to the last word that came from the audio, inside the segment,
/// leaves the play flag as it was.
pub proof fn lemma_scrub_to_audio_keeps_playing(s: ReaderView, i: usize)
    requires
        s.inv(),
        s.progress_from_audio == Some(i),
        i < s.words().len(),
    ensures
        s.scrub(Some(i)).state.playing == s.playing,
        s.scrub(Some(i)).state.progress == Some(i),
{
    lemma_sync_inv(ReaderView { progress: Some(i), ..s });
}

/// Loading a segment resets the highlight: after the segment index is set,
/// to whatever value and be it the one it had, and after a document arrives,
/// no word is highlighted and no track is live.
pub proof fn lemma_load_resets(s: ReaderView, index: usize, segments: Seq<Segment>)
    requires
        s.inv(),
        segments.len() <= usize::MAX,
    ensures
        s.navigate(index).state.progress is None,
        s.navigate(index).state.audio is None,
        s.load_text(segments).state.progress is None,
        s.load_text(segments).state.audio is None,
{
    lemma_navigate_inv(s, index);
    lemma_load_text_inv(s, segments);
}

/// The segment index is clamped: an index past the last segment becomes the
/// last and clears the play flag, any other index is taken as it is.
pub proof fn lemma_navigate_clamps(s: ReaderView, index: usize)
    requires
        s.inv(),
        s.segments.len() > 0,
    ensures
        index >= s.segments.len() ==> s.navigate(index).state.segment_index == s.segments.len() - 1
            && !s.navigate(index).state.playing,
        index < s.segments.len() ==> s.navigate(index).state.segment_index == index,
        s.audio_progress is Some ==> !s.navigate(index).state.playing,
        s.audio_progress is None && index < s.segments.len() ==> s.navigate(index).state.playing
            == s.playing,
{
}

/// Past the end of a segment the reader moves on: a tick whose sample lies at
/// or past the duration and the grace time drops the sample, releases the
/// track and goes to the next segment, or stays at the last and clears the
/// play flag. A tick whose sample lies before that keeps the segment and
/// the sample.
pub proof fn lemma_tick_advances(s: ReaderView)
    requires
        s.inv(),
        s.sample() is Some,
    ensures
        ({
            let position = s.sample().unwrap();
            let after = s.tick().state;
            let length = s.segments.len();
            let duration = s.segments[s.segment_index as int].duration;
            &&& s.segment_index < length
            &&& position >= duration + GRACE ==> {
                &&& after.audio_progress is None
                &&& after.audio is None
                &&& after.progress is None
                &&& s.segment_index + 1 < length ==> after.segment_index == s.segment_index + 1
                    && after.playing == s.playing
                &&& s.segment_index + 1 == length ==> after.segment_index == s.segment_index
                    && !after.playing
            }
            &&& position < duration + GRACE ==> {
                &&& after.audio_progress == Some(position)
                &&& after.audio == s.audio
                &&& after.segment_index == s.segment_index
                &&& after.playing == s.playing
                &&& s.tick().actions == Seq::<Action>::empty()
            }
        }),
{
    let ticked = ReaderView { update_tick: next_tick(s.update_tick), ..s };
    let position = s.sample().unwrap();
    let sampled = ReaderView { audio_progress: Some(position), ..ticked };
    lemma_word_at(sampled.words(), position as int);
    let followed = sampled.follow(position);
    if followed.ended(position) {
        lemma_navigate_inv(
            ReaderView { audio_progress: None, ..followed },
            next_index(followed.segment_index),
        );
    }
}

/// The highlight follows the audio: after a tick that keeps the segment, the
/// highlighted word is the word spoken at the sample where there is one,
/// and the one it was where there is none.
pub proof fn lemma_tick_follows(s: ReaderView)
    requires
        s.inv(),
        s.sample() matches Some(position) && !s.ended(position),
    ensures
        ({
            let position = s.sample().unwrap();
            let after = s.tick().state;
            match word_at(s.words(), position as int) {
                Some(i) => after.progress == Some(i as usize) && (s.progress != Some(i as usize)
                    ==> after.progress_from_audio == Some(i as usize)),
                None => after.progress == s.progress && after.progress_from_audio
                    == s.progress_from_audio,
            }
        }),
{
    let position = s.sample().unwrap();
    lemma_word_at(s.words(), position as int);
}

/// Clearing the play flag twice is clearing it once: the second time nothing
/// changes and nothing is asked of the sink.
pub proof fn lemma_pause_again(s: ReaderView)
    requires
        s.inv(),
    ensures
        s.set_playing(false).state.set_playing(false) == (Step {
            state: s.set_playing(false).state,
            actions: Seq::empty(),
        }),
{
    lemma_set_playing_inv(s, false);
    let once = s.set_playing(false).state;
    assert(ReaderView { playing: false, ..once } == once);
}

/// Playing from a word comes back to the word: where the live track is
/// paused, word `i` is highlighted and has a span that does not end before
/// it starts, no word before it is spoken at its start, and the segment has
/// not ended there, setting the play flag and ticking at once leaves word
/// `i` highlighted and the play flag set.
pub proof fn lemma_play_from_word(s: ReaderView, i: usize)
    requires
        s.inv(),
        s.audio is Some,
        !s.playing,
        s.progress == Some(i),
        s.words()[i as int] matches Word::Timestamped { start, end, .. } && start <= end,
        forall|j: int|
            0 <= j < i ==> !(#[trigger] s.words()[j]).covers(
                s.words()[i as int].onset().unwrap() as int,
            ),
        !s.ended(s.words()[i as int].onset().unwrap() as u64),
    ensures
        s.set_playing(true).state.sample() == Some(s.words()[i as int].onset().unwrap() as u64),
        s.set_playing(true).state.tick().state.progress == Some(i),
        s.set_playing(true).state.tick().state.playing,
{
    let track = s.audio.unwrap();
    let state = s.player[track@];
    lemma_seek_round_trip(s.words(), i as int, state, s.now);
    lemma_set_playing_inv(s, true);
}

/// The tick counter is bookkeeping only: whatever it reads, a tick samples,
/// highlights, moves on and asks the same, and the counter alone differs.
pub proof fn lemma_tick_counter_apart(s: ReaderView, count: u64)
    ensures
        (ReaderView { update_tick: count, ..s }).tick().actions == s.tick().actions,
        (ReaderView { update_tick: count, ..s }).tick().state == (ReaderView {
            update_tick: next_tick(count),
            ..s.tick().state
        }),
        next_tick(count) < TICK_CEILING,
{
}

/// A load that the reader does not wait for changes nothing when it fails,
/// and a load that it waits for is no longer waited for once it has ended.
pub proof fn lemma_loads_end_once(s: ReaderView, token: u64, error: LoadError, track: Track)
    ensures
        !s.awaits(token) ==> s.fail(token, error) == s,
        !s.fail(token, error).awaits(token),
        !s.attach(track).state.awaits(token),
{
}

} // verus!
