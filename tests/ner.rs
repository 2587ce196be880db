use ner_pipeline::{
    entities_from_tokens, Entity, NERModel, RecordedClassifier, RecordedText, RecordingError, Token,
    TokenClassifier,
};

fn token(text: &str, score: f64, label: &str) -> Token {
    Token { text: text.to_string(), score: score.to_bits(), label: label.to_string() }
}

fn tagged(words: &[(&str, f64, &str)]) -> Vec<(String, f64, String)> {
    words.iter().map(|(w, s, l)| (w.to_string(), *s, l.to_string())).collect()
}

fn recorded(text: &str, words: &[(&str, f64, &str)]) -> RecordedText {
    RecordedText {
        text: text.to_string(),
        tokens: words.iter().map(|(w, s, l)| token(w, *s, l)).collect(),
    }
}

const FIRST: &str = "My name is Amy. I live in Paris.";
const SECOND: &str = "Paris is a city in France.";

fn sample_recording() -> Vec<RecordedText> {
    vec![
        recorded(
            FIRST,
            &[
                ("My", 0.9994, "O"),
                ("name", 0.9996, "O"),
                ("is", 0.9997, "O"),
                ("Amy", 0.9986, "I-PER"),
                (".", 0.9999, "O"),
                ("I", 0.9995, "O"),
                ("live", 0.9998, "O"),
                ("in", 0.9997, "O"),
                ("Paris", 0.9985, "I-LOC"),
                (".", 0.9999, "O"),
            ],
        ),
        recorded(
            SECOND,
            &[
                ("Paris", 0.9988, "I-LOC"),
                ("is", 0.9998, "O"),
                ("a", 0.9999, "O"),
                ("city", 0.9997, "O"),
                ("in", 0.9998, "O"),
                ("France", 0.9993, "I-LOC"),
                (".", 0.9999, "O"),
            ],
        ),
        recorded("", &[("Nobody", 0.5, "I-PER")]),
    ]
}

fn sample_model() -> NERModel<RecordedClassifier> {
    match NERModel::new(sample_recording()) {
        Ok(m) => m,
        Err(e) => panic!("construction failed: {:?}", e),
    }
}

fn fields(e: &Entity) -> (String, f64, String) {
    (e.word.clone(), f64::from_bits(e.score), e.label.clone())
}

#[test]
fn sample_sentences_give_four_entities() {
    let model = sample_model();
    let output = model.predict(&[FIRST, SECOND]);
    let got: Vec<(String, f64, String)> = output.iter().map(fields).collect();
    assert_eq!(
        got,
        tagged(&[
            ("Amy", 0.9986, "I-PER"),
            ("Paris", 0.9985, "I-LOC"),
            ("Paris", 0.9988, "I-LOC"),
            ("France", 0.9993, "I-LOC"),
        ])
    );
}

#[test]
fn empty_texts_give_no_entities() {
    let model = sample_model();
    assert!(model.predict(&[]).is_empty());
    assert!(model.predict(&[""]).is_empty());
    assert!(model.predict(&["", "", ""]).is_empty());
}

#[test]
fn no_entity_has_the_outside_label() {
    let model = sample_model();
    let output = model.predict(&[SECOND, "plain words only", FIRST]);
    assert_eq!(output.len(), 4);
    assert!(output.iter().all(|e| e.label != "O"));
}

#[test]
fn entities_follow_the_order_of_the_texts() {
    let model = sample_model();
    let output = model.predict(&[SECOND, FIRST]);
    let words: Vec<String> = output.iter().map(|e| e.word.clone()).collect();
    assert_eq!(words, vec!["Paris", "France", "Amy", "Paris"]);
    assert_eq!(f64::from_bits(output[0].score), 0.9988);
    assert_eq!(f64::from_bits(output[3].score), 0.9985);
}

#[test]
fn predicting_twice_gives_the_same_entities() {
    let model = sample_model();
    let a: Vec<(String, f64, String)> = model.predict(&[FIRST, SECOND]).iter().map(fields).collect();
    let b: Vec<(String, f64, String)> = model.predict(&[FIRST, SECOND]).iter().map(fields).collect();
    assert_eq!(a, b);
}

#[test]
fn construction_failure_is_passed_on() {
    let mut recording = sample_recording();
    recording.push(recorded(SECOND, &[("Paris", 0.25, "I-LOC")]));
    match NERModel::<RecordedClassifier>::new(recording) {
        Ok(_) => panic!("construction should have failed"),
        Err(e) => assert_eq!(e, RecordingError::DuplicateText(3)),
    }
}

#[test]
fn from_classifier_passes_the_error_on() {
    let built: Result<RecordedClassifier, RecordingError> = Err(RecordingError::DuplicateText(7));
    match NERModel::from_classifier(built) {
        Ok(_) => panic!("expected the error"),
        Err(e) => assert_eq!(e, RecordingError::DuplicateText(7)),
    }
}

#[test]
fn from_classifier_keeps_the_classifier() {
    let built = RecordedClassifier::from_recording(sample_recording());
    let model = match NERModel::from_classifier(built) {
        Ok(m) => m,
        Err(e) => panic!("construction failed: {:?}", e),
    };
    assert_eq!(model.predict(&[FIRST]).len(), 2);
}

#[test]
fn recorded_classifier_replays_and_ignores_unknown_texts() {
    let c = match RecordedClassifier::from_recording(sample_recording()) {
        Ok(c) => c,
        Err(e) => panic!("construction failed: {:?}", e),
    };
    let tokens = c.predict(&["unknown text", SECOND, ""], true, false);
    let words: Vec<String> = tokens.iter().map(|t| t.text.clone()).collect();
    assert_eq!(words, vec!["Paris", "is", "a", "city", "in", "France", "."]);
    assert_eq!(f64::from_bits(tokens[5].score), 0.9993);
    assert_eq!(tokens[5].label, "I-LOC");
}

#[test]
fn recording_with_a_repeated_text_is_refused() {
    let recording = vec![
        recorded("a b", &[]),
        recorded("c", &[]),
        recorded("d", &[]),
        recorded("c", &[("c", 0.5, "I-ORG")]),
    ];
    match RecordedClassifier::from_recording(recording) {
        Ok(_) => panic!("a repeated text should be refused"),
        Err(e) => assert_eq!(e, RecordingError::DuplicateText(3)),
    }
    assert!(RecordedClassifier::from_recording(Vec::new()).is_ok());
}

#[test]
fn tokens_map_one_for_one_without_merging() {
    let tokens = vec![
        token("New", 0.25, "I-LOC"),
        token("York", 0.75, "I-LOC"),
        token("is", 0.5, "O"),
        token("big", 0.125, "o"),
        token("", 1.0, "OO"),
    ];
    let got: Vec<(String, f64, String)> = entities_from_tokens(tokens).iter().map(fields).collect();
    assert_eq!(
        got,
        tagged(&[("New", 0.25, "I-LOC"), ("York", 0.75, "I-LOC"), ("big", 0.125, "o"), ("", 1.0, "OO")])
    );
}

#[test]
fn score_bits_pass_through_unchanged() {
    let odd = f64::from_bits(0x3FEF_F2E4_8E8A_71DE);
    let got = entities_from_tokens(vec![token("Amy", odd, "I-PER")]);
    assert_eq!(got.len(), 1);
    assert_eq!(got[0].score, 0x3FEF_F2E4_8E8A_71DE);
}

#[test]
fn only_outside_tokens_give_nothing() {
    let tokens = vec![token("a", 0.5, "O"), token("b", 0.5, "O")];
    assert!(entities_from_tokens(tokens).is_empty());
    assert!(entities_from_tokens(Vec::new()).is_empty());
}
