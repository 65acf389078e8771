use literacy::document::Word;
use literacy::mapper::locate;
use literacy::track::AudioPlayer;

fn word(content: &str, start: u32, end: u32) -> Word {
    Word::Timestamped { content: content.to_string(), start, end }
}

fn raw(content: &str) -> Word {
    Word::Raw(content.to_string())
}

#[test]
fn locate_finds_the_word_that_holds_the_time() {
    let words = vec![word("a", 0, 400), word("b", 500, 900), word("c", 1_000, 1_500)];
    assert_eq!(locate(&words, 0), Some(0));
    assert_eq!(locate(&words, 399), Some(0));
    assert_eq!(locate(&words, 700), Some(1));
    assert_eq!(locate(&words, 1_200), Some(2));
}

#[test]
fn locate_includes_both_ends_of_a_span() {
    let words = vec![word("a", 100, 200)];
    assert_eq!(locate(&words, 99), None);
    assert_eq!(locate(&words, 100), Some(0));
    assert_eq!(locate(&words, 200), Some(0));
    assert_eq!(locate(&words, 201), None);
}

#[test]
fn locate_finds_nothing_in_a_gap() {
    let words = vec![word("a", 0, 400), word("b", 500, 900)];
    assert_eq!(locate(&words, 450), None);
}

#[test]
fn locate_finds_nothing_before_and_after_all_words() {
    let words = vec![word("a", 100, 400), word("b", 500, 900)];
    assert_eq!(locate(&words, 0), None);
    assert_eq!(locate(&words, 901), None);
    assert_eq!(locate(&words, u64::MAX), None);
}

#[test]
fn locate_takes_the_first_of_two_words_that_share_a_time() {
    let words = vec![word("a", 0, 1_000), word("b", 1_000, 2_000)];
    assert_eq!(locate(&words, 1_000), Some(0));
    assert_eq!(locate(&words, 1_001), Some(1));
}

#[test]
fn locate_never_matches_raw_words() {
    let words = vec![raw("a"), raw("b")];
    assert_eq!(locate(&words, 0), None);
    assert_eq!(locate(&words, 1_000), None);
}

#[test]
fn locate_skips_raw_words_in_a_mix() {
    let words = vec![raw("a"), word("b", 0, 10), raw("c"), word("d", 11, 20)];
    assert_eq!(locate(&words, 5), Some(1));
    assert_eq!(locate(&words, 15), Some(3));
}

#[test]
fn locate_in_no_words_finds_nothing() {
    let words: Vec<Word> = Vec::new();
    assert_eq!(locate(&words, 0), None);
}

#[test]
fn locate_ignores_a_span_that_ends_before_it_starts() {
    let words = vec![word("a", 500, 100), word("b", 0, 1_000)];
    assert_eq!(locate(&words, 300), Some(1));
}

#[test]
fn seek_to_a_word_comes_back_to_it() {
    let words = vec![word("a", 0, 900), word("b", 1_000, 2_000), word("c", 2_100, 3_000)];
    let mut player = AudioPlayer::new();
    player.advance_to(12_345);
    let track = player.register([1u8; 32]).unwrap();
    for (i, w) in words.iter().enumerate() {
        let start = w.start().unwrap();
        track.play_at(&mut player, start);
        let sample = track.progress(&player).unwrap();
        assert_eq!(sample, start as u64);
        assert_eq!(locate(&words, sample), Some(i));
        track.pause(&mut player);
    }
}

#[test]
fn seek_to_a_word_that_shares_its_start_lands_on_the_earlier_word() {
    let words = vec![word("a", 0, 1_000), word("b", 1_000, 2_000)];
    let mut player = AudioPlayer::new();
    let track = player.register([1u8; 32]).unwrap();
    track.play_at(&mut player, words[1].start().unwrap());
    let sample = track.progress(&player).unwrap();
    assert_eq!(locate(&words, sample), Some(0));
}
