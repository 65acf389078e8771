use literacy::track::{same_id, AudioPlayer, Start, Track, TrackInternal, TrackState};

fn fresh() -> TrackState {
    TrackState { node: false, offset: 0, start_time: 0, is_playing: false }
}

fn id_of(byte: u8) -> [u8; 32] {
    [byte; 32]
}

#[test]
fn new_player_is_empty_and_idle() {
    let player = AudioPlayer::new();
    assert_eq!(player.len(), 0);
    assert_eq!(player.current_time(), 0);
    assert!(player.is_idle());
    assert!(!player.contains(&id_of(1)));
}

#[test]
fn clock_is_monotonic() {
    let mut player = AudioPlayer::new();
    player.advance_to(500);
    assert_eq!(player.current_time(), 500);
    player.advance_to(200);
    assert_eq!(player.current_time(), 500);
    player.advance_to(500);
    assert_eq!(player.current_time(), 500);
    player.advance_to(u32::MAX);
    assert_eq!(player.current_time(), u32::MAX);
}

#[test]
fn register_takes_an_identity_once() {
    let mut player = AudioPlayer::new();
    let track = player.register(id_of(7)).expect("identity is free");
    assert_eq!(track.id(), id_of(7));
    assert!(player.contains(&id_of(7)));
    assert_eq!(player.len(), 1);
    assert_eq!(player.state(&track), Some(fresh()));
    assert!(player.register(id_of(7)).is_none());
    assert_eq!(player.len(), 1);
    let other = player.register(id_of(8)).expect("identity is free");
    assert_eq!(player.len(), 2);
    assert_ne!(track, other);
}

#[test]
fn new_track_in_empty_table_succeeds() {
    let mut player = AudioPlayer::new();
    let track = Track::new(&mut player).expect("an empty table takes any identity");
    assert_eq!(player.len(), 1);
    assert!(player.contains(&track.id()));
    assert_eq!(player.state(&track), Some(fresh()));
}

#[test]
fn new_tracks_have_distinct_identities() {
    let mut player = AudioPlayer::new();
    let a = Track::new(&mut player).expect("first track");
    let b = Track::new(&mut player).expect("second track");
    let c = Track::new(&mut player).expect("third track");
    assert_ne!(a.id(), b.id());
    assert_ne!(a.id(), c.id());
    assert_ne!(b.id(), c.id());
    assert_ne!(a.id(), [0u8; 32]);
    assert_eq!(player.len(), 3);
}

#[test]
fn same_id_compares_every_byte() {
    let a = id_of(3);
    let mut b = id_of(3);
    assert!(same_id(&a, &b));
    b[31] = 4;
    assert!(!same_id(&a, &b));
    b[31] = 3;
    b[0] = 0;
    assert!(!same_id(&a, &b));
}

#[test]
fn prepare_creates_a_node_once() {
    let mut player = AudioPlayer::new();
    let track = player.register(id_of(1)).unwrap();
    assert!(track.prepare(&mut player));
    assert_eq!(player.state(&track).unwrap().node, true);
    assert!(!track.prepare(&mut player));
    assert_eq!(
        player.state(&track),
        Some(TrackState { node: true, offset: 0, start_time: 0, is_playing: false })
    );
}

#[test]
fn play_starts_from_the_current_offset() {
    let mut player = AudioPlayer::new();
    player.advance_to(1_000);
    let track = player.register(id_of(1)).unwrap();
    let start = track.play(&mut player);
    assert_eq!(start, Start { halt: false, create: true, when: 1_000, offset: 0 });
    assert_eq!(
        player.state(&track),
        Some(TrackState { node: true, offset: 0, start_time: 1_000, is_playing: true })
    );
    assert!(!player.is_idle());
    assert_eq!(track.progress(&player), Some(0));
    player.advance_to(1_250);
    assert_eq!(track.progress(&player), Some(250));
}

#[test]
fn play_after_prepare_creates_no_second_node() {
    let mut player = AudioPlayer::new();
    let track = player.register(id_of(1)).unwrap();
    assert!(track.prepare(&mut player));
    let start = track.play(&mut player);
    assert_eq!(start, Start { halt: false, create: false, when: 0, offset: 0 });
}

#[test]
fn play_at_sets_the_offset_and_the_anchor() {
    let mut player = AudioPlayer::new();
    player.advance_to(400);
    let track = player.register(id_of(1)).unwrap();
    let start = track.play_at(&mut player, 1_000);
    assert_eq!(start, Start { halt: false, create: true, when: 400, offset: 1_000 });
    assert_eq!(
        player.state(&track),
        Some(TrackState { node: true, offset: 1_000, start_time: -600, is_playing: true })
    );
    assert_eq!(track.progress(&player), Some(1_000));
    player.advance_to(900);
    assert_eq!(track.progress(&player), Some(1_500));
}

#[test]
fn pause_accumulates_elapsed_time_into_offset() {
    let mut player = AudioPlayer::new();
    player.advance_to(100);
    let track = player.register(id_of(1)).unwrap();
    track.play_at(&mut player, 2_000);
    player.advance_to(350);
    assert!(track.pause(&mut player));
    assert_eq!(
        player.state(&track),
        Some(TrackState { node: false, offset: 2_250, start_time: -1_900, is_playing: false })
    );
    assert_eq!(track.progress(&player), None);
    assert!(player.is_idle());
}

#[test]
fn pause_twice_is_pause_once() {
    let mut player = AudioPlayer::new();
    let track = player.register(id_of(1)).unwrap();
    track.play(&mut player);
    player.advance_to(700);
    assert!(track.pause(&mut player));
    let once = player.state(&track);
    player.advance_to(900);
    assert!(!track.pause(&mut player));
    assert_eq!(player.state(&track), once);
    assert_eq!(once.unwrap().offset, 700);
}

#[test]
fn pause_of_a_track_never_played_changes_nothing() {
    let mut player = AudioPlayer::new();
    let track = player.register(id_of(1)).unwrap();
    player.advance_to(50);
    assert!(!track.pause(&mut player));
    assert_eq!(player.state(&track), Some(fresh()));
}

#[test]
fn resume_continues_from_the_paused_position() {
    let mut player = AudioPlayer::new();
    let track = player.register(id_of(1)).unwrap();
    track.play(&mut player);
    player.advance_to(300);
    track.pause(&mut player);
    player.advance_to(10_000);
    let start = track.play(&mut player);
    assert_eq!(start, Start { halt: false, create: true, when: 10_000, offset: 300 });
    player.advance_to(10_200);
    assert_eq!(track.progress(&player), Some(500));
}

#[test]
fn stop_resets_the_offset() {
    let mut player = AudioPlayer::new();
    let track = player.register(id_of(1)).unwrap();
    track.play_at(&mut player, 5_000);
    player.advance_to(100);
    assert!(track.stop(&mut player));
    let state = player.state(&track).unwrap();
    assert_eq!(state.offset, 0);
    assert!(!state.is_playing);
    assert!(!state.node);
    assert_eq!(track.progress(&player), None);
    assert!(!track.stop(&mut player));
}

#[test]
fn stop_of_a_paused_track_resets_its_offset() {
    let mut player = AudioPlayer::new();
    let track = player.register(id_of(1)).unwrap();
    track.play(&mut player);
    player.advance_to(640);
    track.pause(&mut player);
    assert_eq!(player.state(&track).unwrap().offset, 640);
    assert!(!track.stop(&mut player));
    assert_eq!(
        player.state(&track),
        Some(TrackState { node: false, offset: 0, start_time: 0, is_playing: false })
    );
    let start = track.play(&mut player);
    assert_eq!(start, Start { halt: false, create: true, when: 640, offset: 0 });
    assert_eq!(track.progress(&player), Some(0));
}

#[test]
fn stop_after_a_seek_and_a_pause_starts_the_buffer_at_zero() {
    let mut player = AudioPlayer::new();
    let track = player.register(id_of(1)).unwrap();
    track.play_at(&mut player, 1_500);
    track.pause(&mut player);
    assert_eq!(player.state(&track).unwrap().offset, 1_500);
    track.stop(&mut player);
    let state = player.state(&track).unwrap();
    assert_eq!(state.offset, 0);
    assert!(!state.is_playing);
    assert!(!state.node);
    assert_eq!(track.play(&mut player).offset, 0);
}

#[test]
fn stop_of_a_prepared_track_keeps_its_node() {
    let mut player = AudioPlayer::new();
    let track = player.register(id_of(1)).unwrap();
    track.prepare(&mut player);
    assert!(!track.stop(&mut player));
    assert_eq!(
        player.state(&track),
        Some(TrackState { node: true, offset: 0, start_time: 0, is_playing: false })
    );
}

#[test]
fn stop_twice_is_stop_once() {
    let mut player = AudioPlayer::new();
    let track = player.register(id_of(1)).unwrap();
    track.play_at(&mut player, 300);
    player.advance_to(50);
    assert!(track.stop(&mut player));
    let once = player.state(&track);
    assert!(!track.stop(&mut player));
    assert_eq!(player.state(&track), once);
}

#[test]
fn play_of_a_playing_track_goes_on_with_a_new_node() {
    let mut player = AudioPlayer::new();
    let track = player.register(id_of(1)).unwrap();
    track.play_at(&mut player, 1_000);
    player.advance_to(250);
    let before = player.state(&track).unwrap();
    let start = track.play(&mut player);
    assert_eq!(start, Start { halt: true, create: true, when: 250, offset: 1_250 });
    let after = player.state(&track).unwrap();
    assert!(after.is_playing);
    assert!(after.node);
    assert_eq!(after.offset, 1_250);
    assert_eq!(after.start_time, before.start_time);
    assert_eq!(track.progress(&player), Some(1_250));
    player.advance_to(400);
    assert_eq!(track.progress(&player), Some(1_400));
    assert_eq!(player.len(), 1);
}

#[test]
fn play_at_of_a_playing_track_seeks() {
    let mut player = AudioPlayer::new();
    let track = player.register(id_of(1)).unwrap();
    track.play(&mut player);
    player.advance_to(700);
    let start = track.play_at(&mut player, 40);
    assert_eq!(start, Start { halt: true, create: true, when: 700, offset: 40 });
    assert_eq!(track.progress(&player), Some(40));
    player.advance_to(710);
    assert_eq!(track.progress(&player), Some(50));
    assert!(track.pause(&mut player));
    assert_eq!(player.state(&track).unwrap().offset, 50);
}

#[test]
fn idle_but_leaves_one_track_out() {
    let mut player = AudioPlayer::new();
    let a = player.register(id_of(1)).unwrap();
    let b = player.register(id_of(2)).unwrap();
    assert!(player.is_idle_but(&a));
    assert!(player.is_idle_but(&b));
    a.play(&mut player);
    assert!(!player.is_idle());
    assert!(player.is_idle_but(&a));
    assert!(!player.is_idle_but(&b));
    a.pause(&mut player);
    assert!(player.is_idle_but(&b));
}

#[test]
fn progress_is_none_unless_playing() {
    let mut player = AudioPlayer::new();
    let track = player.register(id_of(1)).unwrap();
    assert_eq!(track.progress(&player), None);
    track.prepare(&mut player);
    assert_eq!(track.progress(&player), None);
}

#[test]
fn release_removes_the_track_and_reports_a_running_node() {
    let mut player = AudioPlayer::new();
    let a = player.register(id_of(1)).unwrap();
    let b = player.register(id_of(2)).unwrap();
    let c = player.register(id_of(3)).unwrap();
    b.play(&mut player);
    assert!(!a.release(&mut player));
    assert!(!player.contains(&id_of(1)));
    assert_eq!(player.len(), 2);
    assert!(player.state(&b).unwrap().is_playing);
    assert_eq!(player.state(&c), Some(fresh()));
    assert!(b.release(&mut player));
    assert_eq!(player.len(), 1);
    assert!(player.is_idle());
    assert_eq!(player.state(&b), None);
    assert!(player.contains(&id_of(3)));
}

#[test]
fn operations_touch_only_their_own_track() {
    let mut player = AudioPlayer::new();
    let a = player.register(id_of(1)).unwrap();
    let b = player.register(id_of(2)).unwrap();
    a.play_at(&mut player, 10);
    player.advance_to(5);
    assert_eq!(player.state(&b), Some(fresh()));
    a.pause(&mut player);
    assert_eq!(player.state(&a).unwrap().offset, 15);
    b.play(&mut player);
    assert_eq!(player.state(&a).unwrap().offset, 15);
    assert_eq!(player.state(&b).unwrap().start_time, 5);
}

#[test]
fn positions_past_the_clock_range_are_exact() {
    let mut player = AudioPlayer::new();
    let track = player.register(id_of(1)).unwrap();
    track.play_at(&mut player, u32::MAX);
    player.advance_to(u32::MAX);
    assert_eq!(track.progress(&player), Some(2 * (u32::MAX as u64)));
    track.pause(&mut player);
    assert_eq!(player.state(&track).unwrap().offset, 2 * (u32::MAX as u64));
    let start = track.play(&mut player);
    assert_eq!(start.offset, 2 * (u32::MAX as u64));
    assert_eq!(track.progress(&player), Some(2 * (u32::MAX as u64)));
}

#[test]
fn record_operations_follow_the_state_machine() {
    let mut record = TrackInternal::new(id_of(9));
    assert_eq!(record.id, id_of(9));
    assert_eq!(record.state, fresh());
    assert!(record.prepare());
    let start = record.internal_play(Some(40), 100);
    assert_eq!(start, Start { halt: false, create: false, when: 100, offset: 40 });
    assert_eq!(record.progress(130), Some(70));
    assert!(record.pause(130));
    assert_eq!(record.state.offset, 70);
    assert_eq!(record.progress(130), None);
    let again = record.internal_play(None, 200);
    assert_eq!(again, Start { halt: false, create: true, when: 200, offset: 70 });
    let seek = record.internal_play(Some(500), 260);
    assert_eq!(seek, Start { halt: true, create: true, when: 260, offset: 500 });
    assert_eq!(record.progress(300), Some(540));
    assert!(record.stop());
    assert_eq!(record.state.offset, 0);
    record.state.offset = 90;
    assert!(!record.stop());
    assert_eq!(record.state.offset, 0);
}
