use vstd::prelude::*;

verus! {

/// What a token result or an entity holds, as plain values.
///
/// A confidence score is carried as the bit pattern of its IEEE-754 binary64
/// value, so that it passes through unchanged.
pub ghost struct Tagged {
    pub word: Seq<char>,
    pub score: u64,
    pub label: Seq<char>,
}

/// The label that a classifier gives to a token outside any entity.
pub open spec fn outside_label() -> Seq<char> {
    seq!['O']
}

/// Whether a tagged span belongs to an entity.
pub open spec fn is_entity(t: Tagged) -> bool {
    t.label != outside_label()
}

/// The entities of a token stream: the tokens whose label is not the outside
/// label, one entity per token, in the order of the stream.
pub open spec fn entities_of(tokens: Seq<Tagged>) -> Seq<Tagged>
    decreases tokens.len(),
{
    if tokens.len() == 0 {
        Seq::empty()
    } else if is_entity(tokens.last()) {
        entities_of(tokens.drop_last()).push(tokens.last())
    } else {
        entities_of(tokens.drop_last())
    }
}

/// The entities of two token streams, one after the other, are the entities
/// of the first stream followed by those of the second.
pub proof fn lemma_entities_of_concat(x: Seq<Tagged>, y: Seq<Tagged>)
    ensures
        entities_of(x + y) == entities_of(x) + entities_of(y),
    decreases y.len(),
{
    if y.len() == 0 {
        assert(x + y =~= x);
        assert(entities_of(x) + entities_of(y) =~= entities_of(x));
    } else {
        lemma_entities_of_concat(x, y.drop_last());
        assert((x + y).drop_last() =~= x + y.drop_last());
        assert((x + y).last() == y.last());
        if is_entity(y.last()) {
            assert(entities_of(x + y) =~= entities_of(x) + entities_of(y));
        }
    }
}

/// One token as a classifier reports it.
pub struct Token {
    /// The sub-string of the input that the token covers.
    pub text: String,
    /// Bit pattern of the binary64 confidence score.
    pub score: u64,
    /// The tag given to the token.
    pub label: String,
}

impl View for Token {
    type V = Tagged;

    open spec fn view(&self) -> Tagged {
        Tagged { word: self.text@, score: self.score, label: self.label@ }
    }
}

/// A recognized named entity.
pub struct Entity {
    /// The text span of the entity.
    pub word: String,
    /// Bit pattern of the binary64 confidence score.
    pub score: u64,
    /// The entity type (for example `I-PER` or `I-LOC`).
    pub label: String,
}

impl View for Entity {
    type V = Tagged;

    open spec fn view(&self) -> Tagged {
        Tagged { word: self.word@, score: self.score, label: self.label@ }
    }
}

/// The views of a sequence of tokens.
pub open spec fn token_views(tokens: Seq<Token>) -> Seq<Tagged> {
    tokens.map_values(|t: Token| t@)
}

/// The views of a sequence of entities.
pub open spec fn entity_views(entities: Seq<Entity>) -> Seq<Tagged> {
    entities.map_values(|e: Entity| e@)
}

/// Turns a token stream into entities: drops each token labelled with the
/// outside label and maps every other one to an entity with the same word,
/// score and label, keeping their order.
pub fn entities_from_tokens(tokens: Vec<Token>) -> (r: Vec<Entity>)
    ensures
        entity_views(r@) == entities_of(token_views(tokens@)),
{
    let outside = String::from_str("O");
    proof {
        reveal_strlit("O");
    }
    let mut out: Vec<Entity> = Vec::new();
    let n = tokens.len();
    let mut i: usize = 0;
    while i < n
        invariant
            n == tokens@.len(),
            i <= n,
            outside@ == outside_label(),
            entity_views(out@) == entities_of(token_views(tokens@.subrange(0, i as int))),
        decreases n - i,
    {
        let token = &tokens[i];
        let ghost prefix = token_views(tokens@.subrange(0, i as int));
        let ghost next = token_views(tokens@.subrange(0, i + 1));
        assert(next.drop_last() =~= prefix);
        assert(next.last() == token@);
        if !(token.label == outside) {
            let e = Entity {
                word: token.text.clone(),
                score: token.score,
                label: token.label.clone(),
            };
            out.push(e);
            assert(entity_views(out@) =~= entities_of(prefix).push(token@));
        }
        i = i + 1;
    }
    assert(tokens@.subrange(0, n as int) =~= tokens@);
    out
}

} // verus!
