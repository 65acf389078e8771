//! The document that is read along: a text of segments, each with its words
//! and its audio.
//!
//! Times are whole milliseconds from the start of a segment's audio.

use vstd::prelude::*;

verus! {

/// A document: its segments in reading order.
#[derive(Clone, Debug)]
pub struct Text {
    pub segments: Vec<Segment>,
}

/// One stretch of the document, with its own words and audio.
#[derive(Clone, Debug)]
pub struct Segment {
    pub words: Vec<Word>,
    pub audio: Audio,
    /// Length of the audio. The segment ends here, whatever the buffer holds.
    pub duration: u32,
}

/// Where the audio of a segment comes from.
#[derive(Clone, Debug)]
pub enum Audio {
    /// The segment has no audio.
    Silent,
    /// The audio is part of the document.
    Wav(Wav),
    /// The audio is fetched from this address.
    Ref(String),
}

/// Audio held in the document.
#[derive(Clone, Debug)]
pub enum Wav {
    Raw(Vec<u8>),
    Compressed(Vec<u8>),
    Base64(String),
    Base64Compressed(String),
}

/// A word, with or without the span of the audio in which it is spoken.
#[derive(Clone, Debug)]
pub enum Word {
    Raw(String),
    Timestamped { content: String, start: u32, end: u32 },
}

/// Why a document or the audio of a segment could not be had.
#[derive(Clone, Copy, Debug, PartialEq, Eq, Structural)]
pub enum LoadError {
    /// The sink could not decode the bytes.
    Decode,
    /// The bytes behind a reference could not be fetched.
    Fetch,
    /// The document is malformed.
    Parse,
    /// The audio is held in a form that is not supported.
    UnimplementedAudioVariant,
}

/// How the audio of a segment is obtained.
#[derive(Clone, Copy, Debug, PartialEq, Eq, Structural)]
pub enum Source {
    /// There is none.
    Silent,
    /// The document holds the bytes: decode them.
    Inline,
    /// The document holds an address: fetch the bytes, then decode them.
    Remote,
}

impl Word {
    /// The text of the word.
    pub open spec fn text(self) -> Seq<char> {
        match self {
            Word::Raw(content) => content@,
            Word::Timestamped { content, .. } => content@,
        }
    }

    /// The word is spoken at `t`: it has a span and `t` lies in it, both ends
    /// included.
    pub open spec fn covers(self, t: int) -> bool {
        match self {
            Word::Raw(_) => false,
            Word::Timestamped { start, end, .. } => start <= t <= end,
        }
    }

    /// The start of the word's span, if it has one.
    pub open spec fn onset(self) -> Option<u32> {
        match self {
            Word::Raw(_) => None,
            Word::Timestamped { start, .. } => Some(start),
        }
    }

    /// The text of the word.
    pub fn content(&self) -> (content: String)
        ensures
            content@ == self.text(),
    {
        match self {
            Word::Raw(content) => content.clone(),
            Word::Timestamped { content, .. } => content.clone(),
        }
    }

    /// Whether the word is spoken at `t`.
    pub fn is_at(&self, t: u64) -> (hit: bool)
        ensures
            hit == self.covers(t as int),
    {
        match self {
            Word::Raw(_) => false,
            Word::Timestamped { start, end, .. } => *start as u64 <= t && t <= *end as u64,
        }
    }

    /// The start of the word's span, if it has one.
    pub fn start(&self) -> (start: Option<u32>)
        ensures
            start == self.onset(),
    {
        match self {
            Word::Raw(_) => None,
            Word::Timestamped { start, .. } => Some(*start),
        }
    }
}

impl From<Word> for String {
    fn from(word: Word) -> (content: String) {
        match word {
            Word::Raw(content) => content,
            Word::Timestamped { content, .. } => content,
        }
    }
}

impl vstd::std_specs::convert::FromSpecImpl<Word> for String {
    open spec fn obeys_from_spec() -> bool {
        true
    }

    open spec fn from_spec(word: Word) -> String {
        match word {
            Word::Raw(content) => content,
            Word::Timestamped { content, .. } => content,
        }
    }
}

impl From<&Word> for String {
    fn from(word: &Word) -> (content: String) {
        match word {
            Word::Raw(content) => content.clone(),
            Word::Timestamped { content, .. } => content.clone(),
        }
    }
}

impl vstd::std_specs::convert::FromSpecImpl<&Word> for String {
    open spec fn obeys_from_spec() -> bool {
        true
    }

    open spec fn from_spec(word: &Word) -> String {
        match word {
            Word::Raw(content) => *content,
            Word::Timestamped { content, .. } => *content,
        }
    }
}

/// The texts of `words`, in order.
pub open spec fn texts(words: Seq<Word>) -> Seq<Seq<char>> {
    Seq::new(words.len(), |i: int| words[i].text())
}

/// The views of `strings`, in order.
pub open spec fn views(strings: Seq<String>) -> Seq<Seq<char>> {
    Seq::new(strings.len(), |i: int| strings[i]@)
}

/// The texts of `words`, in order.
pub fn contents(words: &Vec<Word>) -> (content: Vec<String>)
    ensures
        views(content@) == texts(words@),
{
    let mut content: Vec<String> = Vec::new();
    let mut i: usize = 0;
    while i < words.len()
        invariant
            i <= words@.len(),
            content@.len() == i,
            forall|j: int| 0 <= j < i ==> content@[j]@ == words@[j].text(),
        decreases words@.len() - i,
    {
        content.push(words[i].content());
        i = i + 1;
    }
    assert(views(content@) =~= texts(words@));
    content
}

impl Audio {
    /// How the audio is obtained, or the reason why it cannot be. Only raw
    /// bytes are supported of the forms that a document can hold.
    pub open spec fn resolved(self) -> Result<Source, LoadError> {
        match self {
            Audio::Silent => Ok(Source::Silent),
            Audio::Wav(Wav::Raw(_)) => Ok(Source::Inline),
            Audio::Wav(_) => Err(LoadError::UnimplementedAudioVariant),
            Audio::Ref(_) => Ok(Source::Remote),
        }
    }

    /// How the audio is obtained, or the reason why it cannot be.
    pub fn source(&self) -> (source: Result<Source, LoadError>)
        ensures
            source == self.resolved(),
    {
        match self {
            Audio::Silent => Ok(Source::Silent),
            Audio::Wav(Wav::Raw(_)) => Ok(Source::Inline),
            Audio::Wav(_) => Err(LoadError::UnimplementedAudioVariant),
            Audio::Ref(_) => Ok(Source::Remote),
        }
    }

    /// The bytes to decode, where the document holds them raw.
    pub fn bytes(&self) -> (bytes: Option<&Vec<u8>>)
        ensures
            match bytes {
                Some(b) => *self == Audio::Wav(Wav::Raw(*b)),
                None => self.resolved() != Ok::<Source, LoadError>(Source::Inline),
            },
    {
        match self {
            Audio::Wav(Wav::Raw(bytes)) => Some(bytes),
            _ => None,
        }
    }

    /// The address to fetch the bytes from, where the document holds one.
    pub fn url(&self) -> (url: Option<&String>)
        ensures
            match url {
                Some(u) => *self == Audio::Ref(*u),
                None => self.resolved() != Ok::<Source, LoadError>(Source::Remote),
            },
    {
        match self {
            Audio::Ref(url) => Some(url),
            _ => None,
        }
    }
}

impl Text {
    /// The segment at `index`, if the text has one there.
    pub fn segment(&self, index: usize) -> (segment: Option<&Segment>)
        ensures
            segment == if index < self.segments@.len() {
                Some(&self.segments@[index as int])
            } else {
                None
            },
    {
        if index < self.segments.len() {
            Some(&self.segments[index])
        } else {
            None
        }
    }

    /// The texts of the words of every segment, in order.
    pub fn contents(&self) -> (content: Vec<Vec<String>>)
        ensures
            content@.len() == self.segments@.len(),
            forall|i: int|
                0 <= i < content@.len() ==> views(#[trigger] content@[i]@) == texts(
                    self.segments@[i].words@,
                ),
    {
        let mut content: Vec<Vec<String>> = Vec::new();
        let mut i: usize = 0;
        while i < self.segments.len()
            invariant
                i <= self.segments@.len(),
                content@.len() == i,
                forall|j: int|
                    0 <= j < i ==> views(#[trigger] content@[j]@) == texts(
                        self.segments@[j].words@,
                    ),
            decreases self.segments@.len() - i,
        {
            content.push(contents(&self.segments[i].words));
            i = i + 1;
        }
        content
    }
}

} // verus!
