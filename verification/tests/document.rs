use literacy::document::{contents, Audio, LoadError, Segment, Source, Text, Wav, Word};

fn word(content: &str, start: u32, end: u32) -> Word {
    Word::Timestamped { content: content.to_string(), start, end }
}

#[test]
fn word_content_is_its_text() {
    assert_eq!(Word::Raw("plain".to_string()).content(), "plain");
    assert_eq!(word("timed", 1, 2).content(), "timed");
    assert_eq!(Word::Raw(String::new()).content(), "");
}

#[test]
fn word_converts_into_its_text() {
    let owned: String = Word::Raw("plain".to_string()).into();
    assert_eq!(owned, "plain");
    let timed = word("timed", 1, 2);
    let borrowed: String = (&timed).into();
    assert_eq!(borrowed, "timed");
    let moved: String = timed.into();
    assert_eq!(moved, "timed");
}

#[test]
fn word_start_is_the_start_of_its_span() {
    assert_eq!(word("a", 30, 40).start(), Some(30));
    assert_eq!(Word::Raw("a".to_string()).start(), None);
}

#[test]
fn word_is_at_times_inside_its_span() {
    let w = word("a", 30, 40);
    assert!(!w.is_at(29));
    assert!(w.is_at(30));
    assert!(w.is_at(35));
    assert!(w.is_at(40));
    assert!(!w.is_at(41));
    assert!(!Word::Raw("a".to_string()).is_at(35));
}

#[test]
fn contents_projects_words_in_order() {
    let words = vec![word("one", 0, 1), Word::Raw("two".to_string()), word("three", 2, 3)];
    assert_eq!(contents(&words), vec!["one", "two", "three"]);
    assert_eq!(contents(&Vec::new()), Vec::<String>::new());
}

#[test]
fn text_contents_projects_every_segment() {
    let text = Text {
        segments: vec![
            Segment { words: vec![word("a", 0, 1), word("b", 1, 2)], audio: Audio::Silent, duration: 2 },
            Segment { words: vec![], audio: Audio::Silent, duration: 0 },
            Segment { words: vec![Word::Raw("c".to_string())], audio: Audio::Silent, duration: 1 },
        ],
    };
    let expected: Vec<Vec<String>> =
        vec![vec!["a".to_string(), "b".to_string()], vec![], vec!["c".to_string()]];
    assert_eq!(text.contents(), expected);
}

#[test]
fn text_segment_is_found_by_index() {
    let text = Text {
        segments: vec![
            Segment { words: vec![], audio: Audio::Silent, duration: 10 },
            Segment { words: vec![], audio: Audio::Silent, duration: 20 },
        ],
    };
    assert_eq!(text.segment(0).unwrap().duration, 10);
    assert_eq!(text.segment(1).unwrap().duration, 20);
    assert!(text.segment(2).is_none());
    assert!(text.segment(usize::MAX).is_none());
}

#[test]
fn audio_source_says_how_the_audio_is_had() {
    assert_eq!(Audio::Silent.source(), Ok(Source::Silent));
    assert_eq!(Audio::Wav(Wav::Raw(vec![1, 2, 3])).source(), Ok(Source::Inline));
    assert_eq!(Audio::Ref("a.wav".to_string()).source(), Ok(Source::Remote));
}

#[test]
fn audio_source_refuses_unimplemented_forms() {
    assert_eq!(
        Audio::Wav(Wav::Compressed(vec![1])).source(),
        Err(LoadError::UnimplementedAudioVariant)
    );
    assert_eq!(
        Audio::Wav(Wav::Base64("AA==".to_string())).source(),
        Err(LoadError::UnimplementedAudioVariant)
    );
    assert_eq!(
        Audio::Wav(Wav::Base64Compressed("AA==".to_string())).source(),
        Err(LoadError::UnimplementedAudioVariant)
    );
}

#[test]
fn audio_bytes_are_the_raw_bytes_only() {
    assert_eq!(Audio::Wav(Wav::Raw(vec![1, 2, 3])).bytes(), Some(&vec![1u8, 2, 3]));
    assert_eq!(Audio::Wav(Wav::Compressed(vec![1, 2, 3])).bytes(), None);
    assert_eq!(Audio::Silent.bytes(), None);
    assert_eq!(Audio::Ref("a.wav".to_string()).bytes(), None);
}

#[test]
fn audio_url_is_the_reference_only() {
    assert_eq!(Audio::Ref("a.wav".to_string()).url(), Some(&"a.wav".to_string()));
    assert_eq!(Audio::Wav(Wav::Base64("a.wav".to_string())).url(), None);
    assert_eq!(Audio::Silent.url(), None);
}
