use vstd::prelude::*;

verus! {

/// One token ready for storage: its dictionary form, part of speech, source
/// sentence and the surface form that appeared in the sentence.
#[derive(Debug, PartialOrd, Ord)]
pub struct Term {
    expression: String,
    surface_string: String,
    sentence: String,
    pos: String,
}

/// The mathematical value of a `Term`.
pub struct TermModel {
    pub expression: Seq<char>,
    pub pos: Seq<char>,
    pub sentence: Seq<char>,
    pub surface_string: Seq<char>,
}

impl View for Term {
    type V = TermModel;

    closed spec fn view(&self) -> TermModel {
        TermModel {
            expression: self.expression@,
            pos: self.pos@,
            sentence: self.sentence@,
            surface_string: self.surface_string@,
        }
    }
}

impl Term {
    pub fn new(expression: String, pos: String, sentence: String, surface_string: String) -> (r:
        Self)
        ensures
            r@.expression == expression@,
            r@.pos == pos@,
            r@.sentence == sentence@,
            r@.surface_string == surface_string@,
    {
        Term { expression, pos, sentence, surface_string }
    }

    pub fn expression(&self) -> (r: &str)
        ensures
            r@ == self@.expression,
    {
        self.expression.as_str()
    }

    pub fn pos(&self) -> (r: &str)
        ensures
            r@ == self@.pos,
    {
        self.pos.as_str()
    }

    pub fn sentence(&self) -> (r: &str)
        ensures
            r@ == self@.sentence,
    {
        self.sentence.as_str()
    }

    pub fn surface_string(&self) -> (r: &str)
        ensures
            r@ == self@.surface_string,
    {
        self.surface_string.as_str()
    }

    /// Copies the four strings into a new term.
    pub fn duplicate(&self) -> (r: Term)
        ensures
            r@ == self@,
    {
        Term {
            expression: self.expression.clone(),
            pos: self.pos.clone(),
            sentence: self.sentence.clone(),
            surface_string: self.surface_string.clone(),
        }
    }
}

/// Two terms are the same occurrence when expression, surface form and
/// sentence agree; the part of speech is not compared.
impl PartialEq for Term {
    fn eq(&self, other: &Term) -> (r: bool)
        ensures
            r == (self@.expression == other@.expression && self@.surface_string
                == other@.surface_string && self@.sentence == other@.sentence),
    {
        self.expression == other.expression && self.surface_string == other.surface_string
            && self.sentence == other.sentence
    }
}

impl Eq for Term {

}

impl vstd::std_specs::cmp::PartialEqSpecImpl for Term {
    open spec fn obeys_eq_spec() -> bool {
        true
    }

    open spec fn eq_spec(&self, other: &Term) -> bool {
        self@.expression == other@.expression && self@.surface_string == other@.surface_string
            && self@.sentence == other@.sentence
    }
}

} // verus!
