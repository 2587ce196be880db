use vstd::prelude::*;
use vstd::seq_lib::lemma_flatten_concat;

use crate::entity::{token_views, Tagged, Token};

verus! {

/// A token-classification backend: built once from its configuration, then
/// asked to tag batches of texts.
///
/// Implementations tag each text on its own, as a function of the text and
/// the two mode flags: `text_tokens` names that tagging.
pub trait TokenClassifier: Sized {
    /// The resources that the backend is built from.
    type Config;

    /// What the backend reports when it cannot be built.
    type Error;

    /// The tokens of one non-empty text, left to right.
    spec fn text_tokens(&self, text: Seq<char>, consolidate: bool, sentence_split: bool) -> Seq<
        Tagged,
    >;

    /// Builds the backend from its configuration.
    fn new(config: Self::Config) -> Result<Self, Self::Error>;

    /// Tags a batch of texts: all tokens of the first text, then all tokens of
    /// the second, and so on; a text with no characters has no tokens.
    fn predict(&self, inputs: &[&str], consolidate: bool, sentence_split: bool) -> (r: Vec<Token>)
        ensures
            token_views(r@) == texts_of(inputs@).flat_map(
                |t: Seq<char>|
                    if t.len() == 0 {
                        Seq::<Tagged>::empty()
                    } else {
                        self.text_tokens(t, consolidate, sentence_split)
                    },
            ),
    ;
}

/// The characters of each text of a batch.
pub open spec fn texts_of(inputs: Seq<&str>) -> Seq<Seq<char>> {
    inputs.map_values(|s: &str| s@)
}

/// The token stream of a batch: the tokens of each text in turn.
pub open spec fn batch_tokens<C: TokenClassifier>(
    c: &C,
    texts: Seq<Seq<char>>,
    consolidate: bool,
    sentence_split: bool,
) -> Seq<Tagged> {
    texts.flat_map(
        |t: Seq<char>|
            if t.len() == 0 {
                Seq::<Tagged>::empty()
            } else {
                c.text_tokens(t, consolidate, sentence_split)
            },
    )
}

/// The token stream of two batches, one after the other, is the stream of the
/// first batch followed by that of the second.
pub proof fn lemma_batch_tokens_concat<C: TokenClassifier>(
    c: &C,
    a: Seq<Seq<char>>,
    b: Seq<Seq<char>>,
    consolidate: bool,
    sentence_split: bool,
)
    ensures
        batch_tokens(c, a + b, consolidate, sentence_split) == batch_tokens(
            c,
            a,
            consolidate,
            sentence_split,
        ) + batch_tokens(c, b, consolidate, sentence_split),
{
    let f = |t: Seq<char>|
        if t.len() == 0 {
            Seq::<Tagged>::empty()
        } else {
            c.text_tokens(t, consolidate, sentence_split)
        };
    assert((a + b).map_values(f) =~= a.map_values(f) + b.map_values(f));
    lemma_flatten_concat(a.map_values(f), b.map_values(f));
}

/// A batch of empty texts has no tokens.
pub proof fn lemma_batch_tokens_of_empty_texts<C: TokenClassifier>(
    c: &C,
    texts: Seq<Seq<char>>,
    consolidate: bool,
    sentence_split: bool,
)
    requires
        forall|i: int| 0 <= i < texts.len() ==> (#[trigger] texts[i]).len() == 0,
    ensures
        batch_tokens(c, texts, consolidate, sentence_split) == Seq::<Tagged>::empty(),
    decreases texts.len(),
{
    if texts.len() > 0 {
        let f = |t: Seq<char>|
            if t.len() == 0 {
                Seq::<Tagged>::empty()
            } else {
                c.text_tokens(t, consolidate, sentence_split)
            };
        let front = texts.drop_last();
        assert forall|i: int| 0 <= i < front.len() implies (#[trigger] front[i]).len() == 0 by {
            assert(front[i] == texts[i]);
        }
        lemma_batch_tokens_of_empty_texts(c, front, consolidate, sentence_split);
        assert(front.push(texts.last()) =~= texts);
        front.lemma_flat_map_push(f, texts.last());
        assert(texts.last().len() == 0);
        assert(batch_tokens(c, texts, consolidate, sentence_split) =~= Seq::<Tagged>::empty());
    }
}

} // verus!
