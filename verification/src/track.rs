//! Playback state of audio tracks and the table that owns it.
//!
//! The audio sink itself is not here: every operation takes the state of a
//! track to its next state and says what the sink has to do for it (create a
//! source node, start it, stop it). The caller carries that out.
//!
//! All times are whole milliseconds. Clock readings and seek targets are
//! `u32`; positions inside a track, which accumulate, are `u64`.

use rand::RngCore;
use vstd::prelude::*;

verus! {

/// Playback state of one track.
#[derive(Clone, Copy, Debug, PartialEq, Eq, Structural)]
pub struct TrackState {
    /// A source node bound to the track's buffer exists.
    pub node: bool,
    /// Position from which playback starts next.
    pub offset: u64,
    /// Start anchor: the clock reading at the last start, less the offset at
    /// that start. Meaningful only while playing.
    pub start_time: i64,
    /// The node is started and not yet stopped.
    pub is_playing: bool,
}

/// What the sink does to start a track.
#[derive(Clone, Copy, Debug, PartialEq, Eq, Structural)]
pub struct Start {
    /// The track plays: stop its node, disconnect it and drop it first. A
    /// node is started once only.
    pub halt: bool,
    /// No source node is left: create one and bind it to the buffer.
    pub create: bool,
    /// Output time at which the node starts.
    pub when: u32,
    /// Position in the buffer at which it starts.
    pub offset: u64,
}

impl TrackState {
    /// The state of a track that was never played.
    pub open spec fn fresh() -> TrackState {
        TrackState { node: false, offset: 0, start_time: 0, is_playing: false }
    }

    /// The state is consistent with a clock that reads `now`.
    pub open spec fn wf(self, now: u32) -> bool {
        &&& self.offset <= u32::MAX + now
        &&& self.is_playing ==> self.node && -(u32::MAX as int) <= self.start_time <= now
    }

    /// The position that a sample taken at `now` reports: the time since the
    /// start anchor while playing, nothing otherwise.
    pub open spec fn position(self, now: u32) -> Option<u64> {
        if self.is_playing {
            Some((now - self.start_time) as u64)
        } else {
            None
        }
    }

    /// The state once a source node exists.
    pub open spec fn prepared(self) -> TrackState {
        TrackState { node: true, ..self }
    }

    /// The position from which a start at `now` with seek target `offset`
    /// begins: the target if one is given, else the offset of the track, or
    /// the position that it has reached if it plays.
    pub open spec fn start_offset(self, offset: Option<u32>, now: u32) -> u64 {
        match offset {
            Some(o) => o as u64,
            None => self.paused(now).offset,
        }
    }

    /// The state after a start at `now`, from `offset` if one is given and
    /// from the current offset otherwise. A track that plays is paused
    /// first, so that the time played is its offset and its node is gone:
    /// it then goes on with a new node, from the target or from where it
    /// was.
    pub open spec fn started(self, offset: Option<u32>, now: u32) -> TrackState {
        TrackState {
            node: true,
            offset: self.start_offset(offset, now),
            start_time: (now - self.start_offset(offset, now)) as i64,
            is_playing: true,
        }
    }

    /// What the sink does for that start.
    pub open spec fn start_command(self, offset: Option<u32>, now: u32) -> Start {
        Start {
            halt: self.is_playing,
            create: !self.paused(now).node,
            when: now,
            offset: self.start_offset(offset, now),
        }
    }

    /// The state after a pause at `now`: the elapsed time becomes the offset
    /// and the node is gone. A paused track stays as it is.
    pub open spec fn paused(self, now: u32) -> TrackState {
        if self.is_playing {
            TrackState {
                node: false,
                offset: (now - self.start_time) as u64,
                start_time: self.start_time,
                is_playing: false,
            }
        } else {
            self
        }
    }

    /// The state after a stop: as a pause, with the offset back at 0,
    /// whether the track plays or not.
    pub open spec fn stopped(self) -> TrackState {
        if self.is_playing {
            TrackState { node: false, offset: 0, start_time: self.start_time, is_playing: false }
        } else {
            TrackState { offset: 0, ..self }
        }
    }
}

/// The table's record of one track: its identity and its playback state.
#[derive(Clone, Copy, Debug, PartialEq, Eq)]
pub struct TrackInternal {
    pub id: [u8; 32],
    pub state: TrackState,
}

impl TrackInternal {
    /// The record of a track that was never played.
    pub fn new(id: [u8; 32]) -> (record: TrackInternal)
        ensures
            record.id == id,
            record.state == TrackState::fresh(),
    {
        TrackInternal {
            id,
            state: TrackState { node: false, offset: 0, start_time: 0, is_playing: false },
        }
    }

    /// Makes sure that a source node exists. Returns whether the sink has to
    /// create one.
    pub fn prepare(&mut self) -> (create: bool)
        ensures
            final(self).id == old(self).id,
            final(self).state == old(self).state.prepared(),
            create == !old(self).state.node,
    {
        if self.state.node {
            return false;
        }
        self.state.node = true;
        true
    }

    /// Starts the track at `now`, from `offset` if one is given and from the
    /// current offset otherwise, and records the start anchor. A track that
    /// plays is paused first and goes on with a new node.
    pub fn internal_play(&mut self, offset: Option<u32>, now: u32) -> (start: Start)
        requires
            old(self).state.wf(now),
        ensures
            final(self).id == old(self).id,
            final(self).state == old(self).state.started(offset, now),
            final(self).state.wf(now),
            start == old(self).state.start_command(offset, now),
    {
        let halt = self.pause(now);
        let create = self.prepare();
        if let Some(o) = offset {
            self.state.offset = o as u64;
        }
        self.state.start_time = now as i64 - self.state.offset as i64;
        self.state.is_playing = true;
        Start { halt, create, when: now, offset: self.state.offset }
    }

    /// Pauses the track at `now`. Returns whether the sink has a node to stop
    /// and disconnect.
    pub fn pause(&mut self, now: u32) -> (halt: bool)
        requires
            old(self).state.wf(now),
        ensures
            final(self).id == old(self).id,
            final(self).state == old(self).state.paused(now),
            final(self).state.wf(now),
            halt == old(self).state.is_playing,
    {
        if !self.state.is_playing {
            return false;
        }
        let elapsed: i64 = now as i64 - self.state.start_time;
        self.state.offset = elapsed as u64;
        self.state.is_playing = false;
        self.state.node = false;
        true
    }

    /// Stops the track: its offset is back at 0, whether it plays or not.
    /// Returns whether the sink has a node to stop and disconnect.
    pub fn stop(&mut self) -> (halt: bool)
        ensures
            final(self).id == old(self).id,
            final(self).state == old(self).state.stopped(),
            forall|now: u32| old(self).state.wf(now) ==> final(self).state.wf(now),
            halt == old(self).state.is_playing,
    {
        self.state.offset = 0;
        if !self.state.is_playing {
            return false;
        }
        self.state.is_playing = false;
        self.state.node = false;
        true
    }

    /// The position of the track at `now` while it plays.
    pub fn progress(&self, now: u32) -> (position: Option<u64>)
        requires
            self.state.wf(now),
        ensures
            position == self.state.position(now),
    {
        if !self.state.is_playing {
            return None;
        }
        let elapsed: i64 = now as i64 - self.state.start_time;
        Some(elapsed as u64)
    }
}

/// Record `i` of `entries` carries the identity `id`.
spec fn at(entries: Seq<TrackInternal>, i: int, id: Seq<u8>) -> bool {
    0 <= i < entries.len() && entries[i].id@ == id
}

/// No two records carry the same identity.
spec fn distinct(entries: Seq<TrackInternal>) -> bool {
    forall|i: int, j: int|
        #![trigger entries[i], entries[j]]
        0 <= i < entries.len() && 0 <= j < entries.len() && i != j ==> entries[i].id@
            != entries[j].id@
}

/// At most one record is playing.
spec fn one_live(entries: Seq<TrackInternal>) -> bool {
    forall|i: int, j: int|
        #![trigger entries[i], entries[j]]
        0 <= i < entries.len() && 0 <= j < entries.len() && entries[i].state.is_playing
            && entries[j].state.is_playing ==> i == j
}

/// The records as a map from identity to state.
spec fn table(entries: Seq<TrackInternal>) -> Map<Seq<u8>, TrackState> {
    Map::new(
        |id: Seq<u8>| exists|i: int| at(entries, i, id),
        |id: Seq<u8>| entries[choose|i: int| at(entries, i, id)].state,
    )
}

proof fn lemma_table_empty(entries: Seq<TrackInternal>)
    requires
        entries.len() == 0,
    ensures
        table(entries) == Map::<Seq<u8>, TrackState>::empty(),
        table(entries).dom() == Set::<Seq<u8>>::empty(),
{
    assert forall|id: Seq<u8>| !table(entries).contains_key(id) by {
        if table(entries).contains_key(id) {
            let k = choose|k: int| at(entries, k, id);
            assert(at(entries, k, id));
        }
    }
    assert(table(entries) =~= Map::<Seq<u8>, TrackState>::empty());
    assert(table(entries).dom() =~= Set::<Seq<u8>>::empty());
}

proof fn lemma_table_at(entries: Seq<TrackInternal>, i: int)
    requires
        distinct(entries),
        0 <= i < entries.len(),
    ensures
        table(entries).contains_key(entries[i].id@),
        table(entries)[entries[i].id@] == entries[i].state,
{
    let id = entries[i].id@;
    assert(at(entries, i, id));
    let k = choose|k: int| at(entries, k, id);
    assert(at(entries, k, id));
    assert(entries[k].id@ == entries[i].id@);
    assert(k == i);
}

proof fn lemma_table_update(entries: Seq<TrackInternal>, i: int, record: TrackInternal)
    requires
        distinct(entries),
        0 <= i < entries.len(),
        record.id@ == entries[i].id@,
    ensures
        distinct(entries.update(i, record)),
        table(entries.update(i, record)) == table(entries).insert(record.id@, record.state),
{
    let after = entries.update(i, record);
    assert(distinct(after)) by {
        assert forall|a: int, b: int|
            0 <= a < after.len() && 0 <= b < after.len() && a != b implies after[a].id@
            != after[b].id@ by {
            assert(after[a].id@ == entries[a].id@);
            assert(after[b].id@ == entries[b].id@);
        }
    }
    let lhs = table(after);
    let rhs = table(entries).insert(record.id@, record.state);
    assert forall|id: Seq<u8>| lhs.contains_key(id) <==> rhs.contains_key(id) by {
        if lhs.contains_key(id) {
            let k = choose|k: int| at(after, k, id);
            assert(at(entries, k, id));
        }
        if rhs.contains_key(id) {
            if id == record.id@ {
                assert(at(after, i, id));
            } else {
                let k = choose|k: int| at(entries, k, id);
                assert(at(after, k, id));
            }
        }
    }
    assert forall|id: Seq<u8>| lhs.contains_key(id) implies lhs[id] == rhs[id] by {
        let k = choose|k: int| at(after, k, id);
        assert(at(after, k, id));
        lemma_table_at(after, k);
        if k != i {
            lemma_table_at(entries, k);
        }
    }
    assert(lhs =~= rhs);
}

proof fn lemma_table_push(entries: Seq<TrackInternal>, record: TrackInternal)
    requires
        distinct(entries),
        !table(entries).contains_key(record.id@),
    ensures
        distinct(entries.push(record)),
        table(entries.push(record)) == table(entries).insert(record.id@, record.state),
{
    let after = entries.push(record);
    assert(distinct(after)) by {
        assert forall|a: int, b: int|
            0 <= a < after.len() && 0 <= b < after.len() && a != b implies after[a].id@
            != after[b].id@ by {
            if a < entries.len() && after[a].id@ == record.id@ {
                assert(at(entries, a, record.id@));
            }
            if b < entries.len() && after[b].id@ == record.id@ {
                assert(at(entries, b, record.id@));
            }
        }
    }
    let lhs = table(after);
    let rhs = table(entries).insert(record.id@, record.state);
    let last = entries.len() as int;
    assert forall|id: Seq<u8>| lhs.contains_key(id) <==> rhs.contains_key(id) by {
        if lhs.contains_key(id) {
            let k = choose|k: int| at(after, k, id);
            if k != last {
                assert(at(entries, k, id));
            }
        }
        if rhs.contains_key(id) {
            if id == record.id@ {
                assert(at(after, last, id));
            } else {
                let k = choose|k: int| at(entries, k, id);
                assert(at(after, k, id));
            }
        }
    }
    assert forall|id: Seq<u8>| lhs.contains_key(id) implies lhs[id] == rhs[id] by {
        let k = choose|k: int| at(after, k, id);
        assert(at(after, k, id));
        lemma_table_at(after, k);
        if k != last {
            lemma_table_at(entries, k);
        }
    }
    assert(lhs =~= rhs);
}

proof fn lemma_table_swap_remove(entries: Seq<TrackInternal>, i: int)
    requires
        distinct(entries),
        0 <= i < entries.len(),
    ensures
        distinct(entries.update(i, entries.last()).drop_last()),
        table(entries.update(i, entries.last()).drop_last()) == table(entries).remove(
            entries[i].id@,
        ),
{
    let after = entries.update(i, entries.last()).drop_last();
    let last = entries.len() - 1;
    let gone = entries[i].id@;
    // Record `a` of `after` is record `origin(a)` of `entries`.
    let origin = |a: int| if a == i { last } else { a };
    assert forall|a: int| 0 <= a < after.len() implies after[a] == entries[origin(a)] by {}
    assert(distinct(after)) by {
        assert forall|a: int, b: int|
            0 <= a < after.len() && 0 <= b < after.len() && a != b implies after[a].id@
            != after[b].id@ by {
            assert(after[a] == entries[origin(a)]);
            assert(after[b] == entries[origin(b)]);
            assert(origin(a) != origin(b));
        }
    }
    let lhs = table(after);
    let rhs = table(entries).remove(gone);
    assert forall|id: Seq<u8>| lhs.contains_key(id) <==> rhs.contains_key(id) by {
        if lhs.contains_key(id) {
            let k = choose|k: int| at(after, k, id);
            assert(after[k] == entries[origin(k)]);
            assert(at(entries, origin(k), id));
            assert(origin(k) != i);
            assert(entries[origin(k)].id@ != entries[i].id@);
        }
        if rhs.contains_key(id) {
            let k = choose|k: int| at(entries, k, id);
            assert(k != i);
            if k == last {
                assert(after[i] == entries[last]);
                assert(at(after, i, id));
            } else {
                assert(after[k] == entries[k]);
                assert(at(after, k, id));
            }
        }
    }
    assert forall|id: Seq<u8>| lhs.contains_key(id) implies lhs[id] == rhs[id] by {
        let k = choose|k: int| at(after, k, id);
        assert(at(after, k, id));
        lemma_table_at(after, k);
        assert(after[k] == entries[origin(k)]);
        lemma_table_at(entries, origin(k));
    }
    assert(lhs =~= rhs);
}

/// Pausing is idempotent: a second pause, at whatever clock reading, leaves
/// the state that the first one left.
pub proof fn lemma_pause_idempotent(state: TrackState, now: u32, again: u32)
    ensures
        state.paused(now).paused(again) == state.paused(now),
        !state.paused(now).is_playing,
{
}

/// Pausing a track of a table twice leaves the table that pausing it once
/// left.
pub proof fn lemma_pause_twice(
    table: Map<Seq<u8>, TrackState>,
    id: Seq<u8>,
    now: u32,
    again: u32,
)
    requires
        table.contains_key(id),
    ensures
        ({
            let once = table.insert(id, table[id].paused(now));
            once.insert(id, once[id].paused(again)) == once
        }),
{
    let once = table.insert(id, table[id].paused(now));
    assert(once.insert(id, once[id].paused(again)) =~= once);
}

/// Stopping is idempotent as well, and leaves every track at offset 0 and
/// not playing: whatever it was, a start without a target begins at 0.
pub proof fn lemma_stop_idempotent(state: TrackState)
    ensures
        state.stopped().stopped() == state.stopped(),
        !state.stopped().is_playing,
        state.stopped().offset == 0,
        forall|now: u32| (#[trigger] state.stopped().started(None, now)).offset == 0,
{
}

/// A stop differs from a pause in the offset alone.
pub proof fn lemma_stop_is_pause_at_zero(state: TrackState, now: u32)
    ensures
        state.stopped() == (TrackState { offset: 0, ..state.paused(now) }),
{
}

/// A start of a track that plays goes on where the track is: the sink
/// halts the old node and starts a new one at the position reached, and a
/// sample reports the same as before the start.
pub proof fn lemma_start_while_playing(state: TrackState, now: u32, at: u32)
    requires
        state.wf(now),
        state.is_playing,
        now <= at,
    ensures
        state.started(None, now).wf(now),
        state.started(None, now).position(at) == state.position(at),
        state.start_command(None, now) == (Start {
            halt: true,
            create: true,
            when: now,
            offset: state.position(now).unwrap(),
        }),
{
}

/// A start with a target of a track that plays is a seek: the sink halts
/// the old node and starts a new one at the target.
pub proof fn lemma_seek_while_playing(state: TrackState, offset: u32, now: u32)
    requires
        state.is_playing,
    ensures
        state.started(Some(offset), now).position(now) == Some(offset as u64),
        state.start_command(Some(offset), now) == (Start {
            halt: true,
            create: true,
            when: now,
            offset: offset as u64,
        }),
{
}

/// A start of a track that does not play halts nothing, and creates a node
/// only where none exists.
pub proof fn lemma_start_while_paused(state: TrackState, offset: Option<u32>, now: u32)
    requires
        !state.is_playing,
    ensures
        state.start_command(offset, now) == (Start {
            halt: false,
            create: !state.node,
            when: now,
            offset: match offset {
                Some(o) => o as u64,
                None => state.offset,
            },
        }),
{
}

/// A track that was started at `now` from `offset` and is sampled at `at`
/// reports `offset` and the time since.
pub proof fn lemma_position_after_start(state: TrackState, offset: u32, now: u32, at: u32)
    requires
        now <= at,
    ensures
        state.started(Some(offset), now).position(at) == Some((offset + (at - now)) as u64),
{
}

/// A pause keeps the position: a track paused at `now` and started again at
/// `resume` reports at `at` what it reported at `now`, and the time since
/// `resume`.
pub proof fn lemma_resume_keeps_position(state: TrackState, now: u32, resume: u32, at: u32)
    requires
        state.wf(now),
        state.is_playing,
        now <= resume <= at,
    ensures
        state.paused(now).started(None, resume).position(at) == Some(
            (state.position(now).unwrap() + (at - resume)) as u64,
        ),
{
}

/// Draws the 32 bytes of a track identity from `rand::rng()` with
/// `RngCore::fill_bytes`, which overwrites the whole buffer with the
/// generator's output. Nothing is claimed of the bytes. The generator is
/// seeded from the operating system on a thread's first use, and `rand::rng`
/// panics if that seeding fails. It is seeded anew from the operating system
/// after every 64 KiB of output on a thread, and `fill_bytes` panics if that
/// fails. Neither depends on anything that the caller hands over.
#[verifier::external_body]
fn random_id() -> (id: [u8; 32]) {
    let mut id = [0u8; 32];
    rand::rng().fill_bytes(&mut id);
    id
}

/// Whether two identities hold the same bytes.
pub fn same_id(a: &[u8; 32], b: &[u8; 32]) -> (same: bool)
    ensures
        same == (a@ == b@),
{
    let mut i: usize = 0;
    while i < 32
        invariant
            i <= 32,
            forall|j: int| 0 <= j < i ==> a@[j] == b@[j],
        decreases 32 - i,
    {
        if a[i] != b[i] {
            return false;
        }
        i = i + 1;
    }
    assert(a@ =~= b@);
    true
}

/// The table of tracks: the clock of the audio sink as last read, and the
/// playback state of every track that was registered and not released.
pub struct AudioPlayer {
    now: u32,
    tracks: Vec<TrackInternal>,
}

/// A handle to one registered track.
#[derive(Clone, Copy, Debug, PartialEq, Eq)]
pub struct Track {
    id: [u8; 32],
}

impl View for Track {
    type V = Seq<u8>;

    /// The identity of the track.
    closed spec fn view(&self) -> Seq<u8> {
        self.id@
    }
}

impl View for AudioPlayer {
    type V = Map<Seq<u8>, TrackState>;

    /// The state of each registered track, by identity.
    closed spec fn view(&self) -> Map<Seq<u8>, TrackState> {
        table(self.tracks@)
    }
}

impl AudioPlayer {
    /// The clock reading that the table holds.
    pub closed spec fn clock(&self) -> u32 {
        self.now
    }

    /// Identities are unique, every state is consistent with the clock, and
    /// at most one track is playing.
    pub closed spec fn wf(&self) -> bool {
        &&& distinct(self.tracks@)
        &&& one_live(self.tracks@)
        &&& forall|i: int| 0 <= i < self.tracks@.len() ==> (#[trigger] self.tracks@[i]).state.wf(self.now)
    }

    /// No track is playing.
    pub open spec fn idle(&self) -> bool {
        forall|id: Seq<u8>| self@.contains_key(id) ==> !(#[trigger] self@[id]).is_playing
    }

    /// No track but the one with the identity `id` is playing.
    pub open spec fn idle_but(&self, id: Seq<u8>) -> bool {
        forall|other: Seq<u8>|
            self@.contains_key(other) && other != id ==> !(#[trigger] self@[other]).is_playing
    }

    /// Every state in a well-formed table is consistent with its clock, and
    /// two playing tracks are one and the same.
    pub proof fn lemma_wf(&self)
        requires
            self.wf(),
        ensures
            forall|id: Seq<u8>| self@.contains_key(id) ==> (#[trigger] self@[id]).wf(self.clock()),
            forall|a: Seq<u8>, b: Seq<u8>|
                self@.contains_key(a) && self@.contains_key(b) && (#[trigger] self@[a]).is_playing
                    && (#[trigger] self@[b]).is_playing ==> a == b,
            self@.dom().finite(),
    {
        let entries = self.tracks@;
        assert forall|id: Seq<u8>| self@.contains_key(id) implies (#[trigger] self@[id]).wf(
            self.clock(),
        ) by {
            let k = choose|k: int| at(entries, k, id);
            lemma_table_at(entries, k);
        }
        assert forall|a: Seq<u8>, b: Seq<u8>|
            self@.contains_key(a) && self@.contains_key(b) && (#[trigger] self@[a]).is_playing && (
            #[trigger] self@[b]).is_playing implies a == b by {
            let i = choose|i: int| at(entries, i, a);
            let j = choose|j: int| at(entries, j, b);
            lemma_table_at(entries, i);
            lemma_table_at(entries, j);
            assert(entries[i].state.is_playing && entries[j].state.is_playing);
        }
        lemma_table_finite(entries);
    }

    /// An empty table whose clock reads 0.
    pub fn new() -> (player: AudioPlayer)
        ensures
            player.wf(),
            player@ == Map::<Seq<u8>, TrackState>::empty(),
            player.clock() == 0,
    {
        let player = AudioPlayer { now: 0, tracks: Vec::new() };
        proof {
            lemma_table_empty(player.tracks@);
        }
        player
    }

    /// The clock reading that the table holds.
    pub fn current_time(&self) -> (now: u32)
        ensures
            now == self.clock(),
    {
        self.now
    }

    /// The number of registered tracks.
    pub fn len(&self) -> (n: usize)
        requires
            self.wf(),
        ensures
            n == self@.dom().len(),
    {
        proof {
            lemma_table_len(self.tracks@);
        }
        self.tracks.len()
    }

    /// Takes a reading of the sink's clock. The clock is monotonic: a reading
    /// below the one held is dropped.
    pub fn advance_to(&mut self, now: u32)
        requires
            old(self).wf(),
        ensures
            final(self).wf(),
            final(self)@ == old(self)@,
            final(self).clock() == if now > old(self).clock() {
                now
            } else {
                old(self).clock()
            },
    {
        if now > self.now {
            self.now = now;
        }
    }

    /// The place of the first record with the identity `id`.
    fn index_of(&self, id: &[u8; 32]) -> (found: Option<usize>)
        ensures
            match found {
                Some(i) => at(self.tracks@, i as int, id@) && forall|j: int|
                    0 <= j < i ==> !at(self.tracks@, j, id@),
                None => forall|j: int| !at(self.tracks@, j, id@),
            },
    {
        let mut i: usize = 0;
        while i < self.tracks.len()
            invariant
                i <= self.tracks@.len(),
                forall|j: int| 0 <= j < i ==> !at(self.tracks@, j, id@),
            decreases self.tracks@.len() - i,
        {
            if same_id(&self.tracks[i].id, id) {
                return Some(i);
            }
            i = i + 1;
        }
        None
    }

    /// The place of the record of a registered track.
    fn slot(&self, id: &[u8; 32]) -> (i: usize)
        requires
            self.wf(),
            self@.contains_key(id@),
        ensures
            at(self.tracks@, i as int, id@),
            self.tracks@[i as int].state == self@[id@],
    {
        let found = self.index_of(id);
        proof {
            let k = choose|k: int| at(self.tracks@, k, id@);
            assert(at(self.tracks@, k, id@));
            if let Some(i) = found {
                lemma_table_at(self.tracks@, i as int);
            }
        }
        match found {
            Some(i) => i,
            None => 0,
        }
    }

    /// Whether a track with the identity `id` is registered.
    pub fn contains(&self, id: &[u8; 32]) -> (held: bool)
        ensures
            held == self@.contains_key(id@),
    {
        let found = self.index_of(id);
        proof {
            if let Some(i) = found {
                assert(at(self.tracks@, i as int, id@));
            }
        }
        found.is_some()
    }

    /// The state of a track, if it is registered.
    pub fn state(&self, track: &Track) -> (state: Option<TrackState>)
        requires
            self.wf(),
        ensures
            state == if self@.contains_key(track@) {
                Some(self@[track@])
            } else {
                None
            },
    {
        match self.index_of(&track.id) {
            Some(i) => {
                proof {
                    lemma_table_at(self.tracks@, i as int);
                }
                Some(self.tracks[i].state)
            },
            None => None,
        }
    }

    /// Whether no track is playing.
    pub fn is_idle(&self) -> (idle: bool)
        requires
            self.wf(),
        ensures
            idle == self.idle(),
    {
        let mut i: usize = 0;
        while i < self.tracks.len()
            invariant
                i <= self.tracks@.len(),
                self.wf(),
                forall|j: int| 0 <= j < i ==> !self.tracks@[j].state.is_playing,
            decreases self.tracks@.len() - i,
        {
            if self.tracks[i].state.is_playing {
                proof {
                    lemma_table_at(self.tracks@, i as int);
                    assert(self@[self.tracks@[i as int].id@].is_playing);
                }
                return false;
            }
            i = i + 1;
        }
        proof {
            assert forall|id: Seq<u8>| self@.contains_key(id) implies !(#[trigger] self@[id]).is_playing by {
                let k = choose|k: int| at(self.tracks@, k, id);
                lemma_table_at(self.tracks@, k);
            }
        }
        true
    }

    /// Whether no track but `track` is playing.
    pub fn is_idle_but(&self, track: &Track) -> (idle: bool)
        requires
            self.wf(),
        ensures
            idle == self.idle_but(track@),
    {
        let mut i: usize = 0;
        while i < self.tracks.len()
            invariant
                i <= self.tracks@.len(),
                self.wf(),
                forall|j: int|
                    0 <= j < i ==> !self.tracks@[j].state.is_playing || self.tracks@[j].id@
                        == track@,
            decreases self.tracks@.len() - i,
        {
            if self.tracks[i].state.is_playing && !same_id(&self.tracks[i].id, &track.id) {
                proof {
                    lemma_table_at(self.tracks@, i as int);
                    assert(self@[self.tracks@[i as int].id@].is_playing);
                }
                return false;
            }
            i = i + 1;
        }
        proof {
            assert forall|other: Seq<u8>|
                self@.contains_key(other) && other != track@ implies !(
                #[trigger] self@[other]).is_playing by {
                let k = choose|k: int| at(self.tracks@, k, other);
                lemma_table_at(self.tracks@, k);
            }
        }
        true
    }

    /// Registers a track under the identity `id`, unless a track already has
    /// it.
    pub fn register(&mut self, id: [u8; 32]) -> (track: Option<Track>)
        requires
            old(self).wf(),
        ensures
            final(self).wf(),
            final(self).clock() == old(self).clock(),
            match track {
                Some(t) => {
                    &&& t@ == id@
                    &&& !old(self)@.contains_key(id@)
                    &&& final(self)@ == old(self)@.insert(id@, TrackState::fresh())
                },
                None => old(self)@.contains_key(id@) && final(self)@ == old(self)@,
            },
    {
        if self.contains(&id) {
            return None;
        }
        let record = TrackInternal::new(id);
        proof {
            lemma_table_push(self.tracks@, record);
            let after = self.tracks@.push(record);
            assert forall|i: int, j: int|
                0 <= i < after.len() && 0 <= j < after.len() && after[i].state.is_playing
                    && after[j].state.is_playing implies i == j by {
                assert(after[i] == self.tracks@[i]);
                assert(after[j] == self.tracks@[j]);
            }
            assert forall|i: int| 0 <= i < after.len() implies (#[trigger] after[i]).state.wf(
                self.now,
            ) by {
                if i < self.tracks@.len() {
                    assert(after[i] == self.tracks@[i]);
                }
            }
        }
        self.tracks.push(record);
        Some(Track { id })
    }

    /// Puts `record` in place `i`, where a record of the same identity is.
    fn put(&mut self, i: usize, record: TrackInternal)
        requires
            old(self).wf(),
            i < old(self).tracks@.len(),
            record.id@ == old(self).tracks@[i as int].id@,
            record.state.wf(old(self).now),
            record.state.is_playing ==> old(self).idle_but(record.id@),
        ensures
            final(self).wf(),
            final(self).now == old(self).now,
            final(self)@ == old(self)@.insert(record.id@, record.state),
    {
        proof {
            let before = self.tracks@;
            let after = before.update(i as int, record);
            lemma_table_update(before, i as int, record);
            assert forall|a: int, b: int|
                0 <= a < after.len() && 0 <= b < after.len() && after[a].state.is_playing
                    && after[b].state.is_playing implies a == b by {
                if a != i as int {
                    assert(after[a] == before[a]);
                    lemma_table_at(before, a);
                }
                if b != i as int {
                    assert(after[b] == before[b]);
                    lemma_table_at(before, b);
                }
                if a != i as int && b != i as int {
                    assert(before[a].state.is_playing && before[b].state.is_playing);
                } else if a != b {
                    let other = if a == i as int { b } else { a };
                    assert(before[other].state.is_playing);
                    assert(before[other].id@ != before[i as int].id@);
                    assert(self@[before[other].id@].is_playing);
                }
            }
            assert forall|a: int| 0 <= a < after.len() implies (#[trigger] after[a]).state.wf(
                self.now,
            ) by {
                if a != i as int {
                    assert(after[a] == before[a]);
                }
            }
        }
        self.tracks[i] = record;
    }
}

impl Track {
    /// The bytes of the track's identity.
    pub fn id(&self) -> (id: [u8; 32])
        ensures
            id@ == self@,
    {
        self.id
    }

    /// Registers a track under an identity drawn at random. Fails only if
    /// the table already holds a track with the identity drawn.
    pub fn new(player: &mut AudioPlayer) -> (track: Option<Track>)
        requires
            old(player).wf(),
        ensures
            final(player).wf(),
            final(player).clock() == old(player).clock(),
            match track {
                Some(t) => {
                    &&& !old(player)@.contains_key(t@)
                    &&& final(player)@ == old(player)@.insert(t@, TrackState::fresh())
                },
                None => final(player)@ == old(player)@ && old(player)@.dom().len() > 0,
            },
    {
        let id = random_id();
        let track = player.register(id);
        proof {
            if track is None {
                old(player).lemma_wf();
                assert(old(player)@.dom().contains(id@));
                if old(player)@.dom().len() == 0 {
                    old(player)@.dom().lemma_len0_is_empty();
                }
            }
        }
        track
    }

    /// Makes sure that the track has a source node. Returns whether the sink
    /// has to create one.
    pub fn prepare(&self, player: &mut AudioPlayer) -> (create: bool)
        requires
            old(player).wf(),
            old(player)@.contains_key(self@),
        ensures
            final(player).wf(),
            final(player).clock() == old(player).clock(),
            final(player)@ == old(player)@.insert(self@, old(player)@[self@].prepared()),
            create == !old(player)@[self@].node,
    {
        let i = player.slot(&self.id);
        let mut record = player.tracks[i];
        let create = record.prepare();
        proof {
            player.lemma_wf();
        }
        player.put(i, record);
        create
    }

    /// Starts the track from its current offset at the table's clock reading.
    /// Returns what the sink does for it. A track that plays already goes on
    /// where it is, with a new node: the sink halts the old one first. No
    /// other track may be playing.
    pub fn play(&self, player: &mut AudioPlayer) -> (start: Start)
        requires
            old(player).wf(),
            old(player)@.contains_key(self@),
            old(player).idle_but(self@),
        ensures
            final(player).wf(),
            final(player).clock() == old(player).clock(),
            final(player)@ == old(player)@.insert(
                self@,
                old(player)@[self@].started(None, old(player).clock()),
            ),
            start == old(player)@[self@].start_command(None, old(player).clock()),
    {
        self.internal_play(player, None)
    }

    /// Starts the track from `offset` at the table's clock reading. Returns
    /// what the sink does for it. A track that plays already is taken to
    /// `offset`, with a new node: the sink halts the old one first. No other
    /// track may be playing.
    pub fn play_at(&self, player: &mut AudioPlayer, offset: u32) -> (start: Start)
        requires
            old(player).wf(),
            old(player)@.contains_key(self@),
            old(player).idle_but(self@),
        ensures
            final(player).wf(),
            final(player).clock() == old(player).clock(),
            final(player)@ == old(player)@.insert(
                self@,
                old(player)@[self@].started(Some(offset), old(player).clock()),
            ),
            start == old(player)@[self@].start_command(Some(offset), old(player).clock()),
    {
        self.internal_play(player, Some(offset))
    }

    fn internal_play(&self, player: &mut AudioPlayer, offset: Option<u32>) -> (start: Start)
        requires
            old(player).wf(),
            old(player)@.contains_key(self@),
            old(player).idle_but(self@),
        ensures
            final(player).wf(),
            final(player).clock() == old(player).clock(),
            final(player)@ == old(player)@.insert(
                self@,
                old(player)@[self@].started(offset, old(player).clock()),
            ),
            start == old(player)@[self@].start_command(offset, old(player).clock()),
    {
        let i = player.slot(&self.id);
        let mut record = player.tracks[i];
        let start = record.internal_play(offset, player.now);
        player.put(i, record);
        start
    }

    /// Pauses the track at the table's clock reading: the time played
    /// becomes its offset. Returns whether the sink has a node to stop and
    /// disconnect. A track that is not playing stays as it is.
    pub fn pause(&self, player: &mut AudioPlayer) -> (halt: bool)
        requires
            old(player).wf(),
            old(player)@.contains_key(self@),
        ensures
            final(player).wf(),
            final(player).clock() == old(player).clock(),
            final(player)@ == old(player)@.insert(
                self@,
                old(player)@[self@].paused(old(player).clock()),
            ),
            halt == old(player)@[self@].is_playing,
    {
        let i = player.slot(&self.id);
        let mut record = player.tracks[i];
        let halt = record.pause(player.now);
        player.put(i, record);
        halt
    }

    /// Stops the track: as a pause, with the offset back at 0, whether the
    /// track plays or not. Returns whether the sink has a node to stop and
    /// disconnect.
    pub fn stop(&self, player: &mut AudioPlayer) -> (halt: bool)
        requires
            old(player).wf(),
            old(player)@.contains_key(self@),
        ensures
            final(player).wf(),
            final(player).clock() == old(player).clock(),
            final(player)@ == old(player)@.insert(self@, old(player)@[self@].stopped()),
            halt == old(player)@[self@].is_playing,
    {
        let i = player.slot(&self.id);
        let mut record = player.tracks[i];
        let halt = record.stop();
        player.put(i, record);
        halt
    }

    /// The position of the track at the table's clock reading while it
    /// plays, nothing while it does not.
    pub fn progress(&self, player: &AudioPlayer) -> (position: Option<u64>)
        requires
            player.wf(),
            player@.contains_key(self@),
        ensures
            position == player@[self@].position(player.clock()),
    {
        let i = player.slot(&self.id);
        player.tracks[i].progress(player.now)
    }

    /// Stops the track and takes it out of the table. Returns whether the
    /// sink has a node to stop and disconnect.
    pub fn release(self, player: &mut AudioPlayer) -> (halt: bool)
        requires
            old(player).wf(),
            old(player)@.contains_key(self@),
        ensures
            final(player).wf(),
            final(player).clock() == old(player).clock(),
            final(player)@ == old(player)@.remove(self@),
            halt == old(player)@[self@].is_playing,
    {
        let i = player.slot(&self.id);
        let halt = player.tracks[i].state.is_playing;
        proof {
            let before = player.tracks@;
            let after = before.update(i as int, before.last()).drop_last();
            let last = before.len() - 1;
            lemma_table_swap_remove(before, i as int);
            assert forall|a: int| 0 <= a < after.len() implies after[a] == before[if a == i as int {
                last
            } else {
                a
            }] by {}
            assert forall|a: int, b: int|
                0 <= a < after.len() && 0 <= b < after.len() && after[a].state.is_playing
                    && after[b].state.is_playing implies a == b by {
                let oa = if a == i as int { last } else { a };
                let ob = if b == i as int { last } else { b };
                assert(after[a] == before[oa]);
                assert(after[b] == before[ob]);
                assert(before[oa].state.is_playing && before[ob].state.is_playing);
            }
            assert forall|a: int| 0 <= a < after.len() implies (#[trigger] after[a]).state.wf(
                player.now,
            ) by {
                let oa = if a == i as int { last } else { a };
                assert(after[a] == before[oa]);
            }
        }
        player.tracks.swap_remove(i);
        halt
    }
}

proof fn lemma_table_finite(entries: Seq<TrackInternal>)
    ensures
        table(entries).dom().finite(),
    decreases entries.len(),
{
    if entries.len() == 0 {
        lemma_table_empty(entries);
    } else {
        let front = entries.drop_last();
        let last = entries.last();
        lemma_table_finite(front);
        assert(table(entries).dom() =~= table(front).dom().insert(last.id@)) by {
            assert forall|id: Seq<u8>|
                table(entries).dom().contains(id) <==> table(front).dom().insert(
                    last.id@,
                ).contains(id) by {
                if table(entries).contains_key(id) {
                    let k = choose|k: int| at(entries, k, id);
                    if k < front.len() {
                        assert(at(front, k, id));
                    }
                }
                if table(front).contains_key(id) {
                    let k = choose|k: int| at(front, k, id);
                    assert(at(entries, k, id));
                }
                if id == last.id@ {
                    assert(at(entries, entries.len() - 1, id));
                }
            }
        }
    }
}

proof fn lemma_table_len(entries: Seq<TrackInternal>)
    requires
        distinct(entries),
    ensures
        table(entries).dom().finite(),
        table(entries).dom().len() == entries.len(),
    decreases entries.len(),
{
    lemma_table_finite(entries);
    if entries.len() == 0 {
        lemma_table_empty(entries);
    } else {
        let front = entries.drop_last();
        let last = entries.last();
        assert(distinct(front)) by {
            assert forall|a: int, b: int|
                0 <= a < front.len() && 0 <= b < front.len() && a != b implies front[a].id@
                != front[b].id@ by {
                assert(front[a] == entries[a]);
                assert(front[b] == entries[b]);
            }
        }
        lemma_table_len(front);
        assert(!table(front).contains_key(last.id@)) by {
            if table(front).contains_key(last.id@) {
                let k = choose|k: int| at(front, k, last.id@);
                assert(front[k] == entries[k]);
                assert(entries[k].id@ == entries[entries.len() - 1].id@);
            }
        }
        lemma_table_push(front, last);
        assert(front.push(last) =~= entries);
    }
}

} // verus!
