use vstd::prelude::*;

use crate::classifier::{texts_of, TokenClassifier};
use crate::entity::{token_views, Tagged, Token};

verus! {

/// The token stream recorded for one text.
pub struct RecordedText {
    pub text: String,
    pub tokens: Vec<Token>,
}

/// A recording as plain values: each text with its tokens.
pub open spec fn recording_view(entries: Seq<RecordedText>) -> Seq<(Seq<char>, Seq<Tagged>)> {
    entries.map_values(|e: RecordedText| (e.text@, token_views(e.tokens@)))
}

/// The tokens recorded for a text: those of its first entry, none where the
/// text is not recorded.
pub open spec fn recorded_tokens(entries: Seq<(Seq<char>, Seq<Tagged>)>, text: Seq<char>) -> Seq<
    Tagged,
>
    decreases entries.len(),
{
    if entries.len() == 0 {
        Seq::empty()
    } else if entries[0].0 == text {
        entries[0].1
    } else {
        recorded_tokens(entries.drop_first(), text)
    }
}

/// No text is recorded twice.
pub open spec fn texts_distinct(entries: Seq<(Seq<char>, Seq<Tagged>)>) -> bool {
    forall|i: int, j: int| 0 <= i < j < entries.len() ==> entries[i].0 != entries[j].0
}

/// Why a recording cannot back a classifier.
#[derive(Debug, PartialEq, Eq, Structural)]
pub enum RecordingError {
    /// The entry at this index repeats the text of an earlier one.
    DuplicateText(usize),
}

/// A classifier that replays the token streams recorded for known texts and
/// finds no tokens in any other text, whatever the mode flags.
pub struct RecordedClassifier {
    entries: Vec<RecordedText>,
}

impl RecordedClassifier {
    /// The recording, as plain values.
    pub closed spec fn recording(&self) -> Seq<(Seq<char>, Seq<Tagged>)> {
        recording_view(self.entries@)
    }

    /// Builds a classifier from a recording in which each text occurs once.
    pub fn from_recording(entries: Vec<RecordedText>) -> (r: Result<
        RecordedClassifier,
        RecordingError,
    >)
        ensures
            texts_distinct(recording_view(entries@)) <==> r is Ok,
            r matches Ok(c) ==> c.recording() == recording_view(entries@),
            r matches Err(RecordingError::DuplicateText(j)) ==> {
                &&& j < entries@.len()
                &&& exists|i: int| 0 <= i < j && entries@[i].text@ == entries@[j as int].text@
                &&& texts_distinct(recording_view(entries@).subrange(0, j as int))
            },
    {
        let n = entries.len();
        let mut j: usize = 0;
        while j < n
            invariant
                n == entries@.len(),
                j <= n,
                forall|a: int, b: int|
                    0 <= a < b < j ==> entries@[a].text@ != entries@[b].text@,
            decreases n - j,
        {
            let mut i: usize = 0;
            while i < j
                invariant
                    n == entries@.len(),
                    i <= j < n,
                    forall|a: int, b: int|
                        0 <= a < b < j ==> entries@[a].text@ != entries@[b].text@,
                    forall|a: int| 0 <= a < i ==> entries@[a].text@ != entries@[j as int].text@,
                decreases j - i,
            {
                if entries[i].text == entries[j].text {
                    proof {
                        let v = recording_view(entries@);
                        assert(v[i as int].0 == entries@[i as int].text@);
                        assert(v[j as int].0 == entries@[j as int].text@);
                        let w = v.subrange(0, j as int);
                        assert forall|a: int, b: int| 0 <= a < b < w.len() implies w[a].0
                            != w[b].0 by {
                            assert(w[a].0 == entries@[a].text@);
                            assert(w[b].0 == entries@[b].text@);
                        }
                    }
                    return Err(RecordingError::DuplicateText(j));
                }
                i = i + 1;
            }
            j = j + 1;
        }
        proof {
            let v = recording_view(entries@);
            assert forall|a: int, b: int| 0 <= a < b < v.len() implies v[a].0 != v[b].0 by {
                assert(v[a].0 == entries@[a].text@);
                assert(v[b].0 == entries@[b].text@);
            }
        }
        Ok(RecordedClassifier { entries })
    }

    /// The tokens recorded for a text, copied out.
    fn tokens_for(&self, text: &str) -> (r: Vec<Token>)
        ensures
            token_views(r@) == recorded_tokens(self.recording(), text@),
    {
        let wanted = String::from_str(text);
        let n = self.entries.len();
        let mut i: usize = 0;
        assert(self.recording().subrange(0, n as int) =~= self.recording());
        while i < n
            invariant
                n == self.entries@.len(),
                i <= n,
                wanted@ == text@,
                recorded_tokens(self.recording(), text@) == recorded_tokens(
                    self.recording().subrange(i as int, n as int),
                    text@,
                ),
            decreases n - i,
        {
            let ghost rest = self.recording().subrange(i as int, n as int);
            assert(rest.drop_first() =~= self.recording().subrange(i + 1, n as int));
            assert(rest[0].0 == self.entries@[i as int].text@);
            if self.entries[i].text == wanted {
                let r = copy_tokens(&self.entries[i].tokens);
                return r;
            }
            i = i + 1;
        }
        Vec::new()
    }
}

/// A copy of a token sequence.
fn copy_tokens(tokens: &Vec<Token>) -> (r: Vec<Token>)
    ensures
        token_views(r@) == token_views(tokens@),
{
    let mut out: Vec<Token> = Vec::new();
    let n = tokens.len();
    let mut i: usize = 0;
    while i < n
        invariant
            n == tokens@.len(),
            i <= n,
            out@.len() == i,
            token_views(out@) == token_views(tokens@.subrange(0, i as int)),
        decreases n - i,
    {
        let t = &tokens[i];
        let copy = Token { text: t.text.clone(), score: t.score, label: t.label.clone() };
        assert(copy@ == t@);
        let ghost before = out@;
        out.push(copy);
        assert(tokens@.subrange(0, i + 1) =~= tokens@.subrange(0, i as int).push(tokens@[i as int]));
        assert(out@ =~= before.push(copy));
        assert forall|k: int| 0 <= k <= i implies #[trigger] token_views(out@)[k] == token_views(
            tokens@.subrange(0, i + 1),
        )[k] by {
            if k < i {
                assert(token_views(before)[k] == token_views(tokens@.subrange(0, i as int))[k]);
            }
        }
        assert(token_views(out@) =~= token_views(tokens@.subrange(0, i + 1)));
        i = i + 1;
    }
    assert(tokens@.subrange(0, n as int) =~= tokens@);
    out
}

impl TokenClassifier for RecordedClassifier {
    type Config = Vec<RecordedText>;

    type Error = RecordingError;

    open spec fn text_tokens(&self, text: Seq<char>, consolidate: bool, sentence_split: bool) -> Seq<
        Tagged,
    > {
        recorded_tokens(self.recording(), text)
    }

    fn new(config: Vec<RecordedText>) -> (r: Result<RecordedClassifier, RecordingError>)
        ensures
            texts_distinct(recording_view(config@)) <==> r is Ok,
            r matches Ok(c) ==> c.recording() == recording_view(config@),
    {
        RecordedClassifier::from_recording(config)
    }

    fn predict(&self, inputs: &[&str], consolidate: bool, sentence_split: bool) -> (r: Vec<Token>) {
        let mut out: Vec<Token> = Vec::new();
        let n = inputs.len();
        let mut i: usize = 0;
        while i < n
            invariant
                n == inputs@.len(),
                i <= n,
                token_views(out@) == texts_of(inputs@.subrange(0, i as int)).flat_map(
                    |t: Seq<char>|
                        if t.len() == 0 {
                            Seq::<Tagged>::empty()
                        } else {
                            self.text_tokens(t, consolidate, sentence_split)
                        },
                ),
            decreases n - i,
        {
            let text: &str = inputs[i];
            let ghost f = |t: Seq<char>|
                if t.len() == 0 {
                    Seq::<Tagged>::empty()
                } else {
                    self.text_tokens(t, consolidate, sentence_split)
                };
            let ghost before = token_views(out@);
            proof {
                assert(texts_of(inputs@.subrange(0, i + 1)) =~= texts_of(
                    inputs@.subrange(0, i as int),
                ).push(text@));
                texts_of(inputs@.subrange(0, i as int)).lemma_flat_map_push(f, text@);
            }
            if text.unicode_len() > 0 {
                let mut found = self.tokens_for(text);
                let ghost added = found@;
                out.append(&mut found);
                assert(token_views(out@) =~= before + token_views(added));
            } else {
                assert(f(text@) =~= Seq::<Tagged>::empty());
                assert(token_views(out@) =~= before + f(text@));
            }
            i = i + 1;
        }
        assert(inputs@.subrange(0, n as int) =~= inputs@);
        out
    }
}

} // verus!
