use vstd::prelude::*;

use crate::classifier::{
    batch_tokens, lemma_batch_tokens_concat, lemma_batch_tokens_of_empty_texts, texts_of,
    TokenClassifier,
};
use crate::entity::{
    entities_from_tokens, entities_of, entity_views, is_entity, lemma_entities_of_concat, Entity,
    Tagged,
};

verus! {

/// Extracts named entities with a token classifier that it owns.
pub struct NERModel<C> {
    token_classification_model: C,
}

impl<C: TokenClassifier> NERModel<C> {
    /// The classifier that the model drives.
    pub closed spec fn classifier(&self) -> C {
        self.token_classification_model
    }

    /// The entities that the model finds in a batch of texts: the entity
    /// tokens of the classifier's document-level, unsplit tagging.
    pub open spec fn entities(&self, texts: Seq<Seq<char>>) -> Seq<Tagged> {
        entities_of(batch_tokens(&self.classifier(), texts, true, false))
    }

    /// Builds a model around a classifier, or passes on the error with which
    /// building the classifier failed.
    pub fn from_classifier(built: Result<C, C::Error>) -> (r: Result<NERModel<C>, C::Error>)
        ensures
            match built {
                Ok(c) => r matches Ok(m) && m.classifier() == c,
                Err(e) => r == Err::<NERModel<C>, C::Error>(e),
            },
    {
        match built {
            Ok(c) => Ok(NERModel { token_classification_model: c }),
            Err(e) => Err(e),
        }
    }

    /// Builds the classifier from the configuration, handed on as it came, and
    /// a model around it; a failure to build the classifier is returned
    /// unchanged.
    pub fn new(ner_config: C::Config) -> (r: Result<NERModel<C>, C::Error>)
        ensures
            match r {
                Ok(m) => call_ensures(C::new, (ner_config,), Ok::<C, C::Error>(m.classifier())),
                Err(e) => call_ensures(C::new, (ner_config,), Err::<C, C::Error>(e)),
            },
    {
        let built = C::new(ner_config);
        Self::from_classifier(built)
    }

    /// Extracts the entities of a batch of texts, in the order of the texts
    /// and, within a text, in the order of its tokens.
    pub fn predict(&self, input: &[&str]) -> (r: Vec<Entity>)
        ensures
            entity_views(r@) == self.entities(texts_of(input@)),
            forall|i: int| 0 <= i < r@.len() ==> is_entity(#[trigger] r@[i]@),
    {
        let tokens = self.token_classification_model.predict(input, true, false);
        let r = entities_from_tokens(tokens);
        proof {
            lemma_entities_are_entities(batch_tokens(&self.classifier(), texts_of(input@), true, false));
            assert forall|i: int| 0 <= i < r@.len() implies is_entity(#[trigger] r@[i]@) by {
                assert(entity_views(r@)[i] == r@[i]@);
            }
        }
        r
    }
}

/// A batch in which every text is empty has no entities.
pub proof fn lemma_empty_texts_have_no_entities<C: TokenClassifier>(
    m: &NERModel<C>,
    texts: Seq<Seq<char>>,
)
    requires
        forall|i: int| 0 <= i < texts.len() ==> (#[trigger] texts[i]).len() == 0,
    ensures
        m.entities(texts) == Seq::<Tagged>::empty(),
{
    lemma_batch_tokens_of_empty_texts(&m.classifier(), texts, true, false);
}

/// The entities of two batches, one after the other, are the entities of the
/// first batch followed by those of the second: every entity that comes from
/// a text of the first batch precedes every entity from the second.
pub proof fn lemma_batch_order<C: TokenClassifier>(
    m: &NERModel<C>,
    a: Seq<Seq<char>>,
    b: Seq<Seq<char>>,
)
    ensures
        m.entities(a + b) == m.entities(a) + m.entities(b),
{
    let c = m.classifier();
    lemma_batch_tokens_concat(&c, a, b, true, false);
    lemma_entities_of_concat(batch_tokens(&c, a, true, false), batch_tokens(&c, b, true, false));
}

/// No entity of a token stream carries the outside label.
pub proof fn lemma_entities_are_entities(tokens: Seq<Tagged>)
    ensures
        forall|i: int| 0 <= i < entities_of(tokens).len() ==> is_entity(#[trigger] entities_of(tokens)[i]),
    decreases tokens.len(),
{
    if tokens.len() > 0 {
        let prev = entities_of(tokens.drop_last());
        lemma_entities_are_entities(tokens.drop_last());
        assert forall|i: int| 0 <= i < entities_of(tokens).len() implies is_entity(
            #[trigger] entities_of(tokens)[i],
        ) by {
            if i < prev.len() {
                assert(entities_of(tokens)[i] == prev[i]);
            }
        }
    }
}

} // verus!
