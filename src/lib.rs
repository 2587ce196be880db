//! Named-entity extraction over a pluggable token classifier.
//!
//! A [`ner::NERModel`] drives a [`classifier::TokenClassifier`] in its
//! entity-oriented mode and keeps, one for one and in order, the tokens that
//! are tagged as part of an entity.
pub mod classifier;
pub mod entity;
pub mod ner;
pub mod recorded;

pub use classifier::TokenClassifier;
pub use entity::{entities_from_tokens, Entity, Token};
pub use ner::NERModel;
pub use recorded::{RecordedClassifier, RecordedText, RecordingError};
