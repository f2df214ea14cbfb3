use crate::text::{clone_strings, strings_view};
use vstd::prelude::*;

verus! {

/// A vocabulary expression with what is known about it: its parts of speech,
/// sentences and surface forms (one each for a fresh token), readings and
/// definitions.
#[derive(Debug, Clone)]
pub struct Expression {
    expression: String,
    pos: Vec<String>,
    sentence: Vec<String>,
    surface_string: Vec<String>,
    reading: Vec<String>,
    definition: Vec<String>,
}

pub struct ExpressionView {
    pub expression: Seq<char>,
    pub pos: Seq<Seq<char>>,
    pub sentence: Seq<Seq<char>>,
    pub surface_string: Seq<Seq<char>>,
    pub reading: Seq<Seq<char>>,
    pub definition: Seq<Seq<char>>,
}

impl View for Expression {
    type V = ExpressionView;

    closed spec fn view(&self) -> ExpressionView {
        ExpressionView {
            expression: self.expression@,
            pos: strings_view(self.pos@),
            sentence: strings_view(self.sentence@),
            surface_string: strings_view(self.surface_string@),
            reading: strings_view(self.reading@),
            definition: strings_view(self.definition@),
        }
    }
}

impl Expression {
    /// An expression with the given text and nothing else known.
    pub fn new(expression: String) -> (r: Expression)
        ensures
            r@.expression == expression@,
            r@.pos.len() == 0,
            r@.sentence.len() == 0,
            r@.surface_string.len() == 0,
            r@.reading.len() == 0,
            r@.definition.len() == 0,
    {
        Expression {
            expression,
            pos: Vec::new(),
            sentence: Vec::new(),
            surface_string: Vec::new(),
            reading: Vec::new(),
            definition: Vec::new(),
        }
    }

    pub fn pos(self, pos: Vec<String>) -> (r: Expression)
        ensures
            r@ == (ExpressionView { pos: strings_view(pos@), ..self@ }),
    {
        Expression { pos, ..self }
    }

    pub fn sentence(self, sentence: Vec<String>) -> (r: Expression)
        ensures
            r@ == (ExpressionView { sentence: strings_view(sentence@), ..self@ }),
    {
        Expression { sentence, ..self }
    }

    pub fn surface_string(self, surface_string: Vec<String>) -> (r: Expression)
        ensures
            r@ == (ExpressionView { surface_string: strings_view(surface_string@), ..self@ }),
    {
        Expression { surface_string, ..self }
    }

    pub fn get_expression(&self) -> (r: &str)
        ensures
            r@ == self@.expression,
    {
        self.expression.as_str()
    }

    pub fn get_sentence(&self) -> (r: &Vec<String>)
        ensures
            strings_view(r@) == self@.sentence,
    {
        &self.sentence
    }

    pub fn get_surface_string(&self) -> (r: &Vec<String>)
        ensures
            strings_view(r@) == self@.surface_string,
    {
        &self.surface_string
    }

    pub fn get_pos(&self) -> (r: &Vec<String>)
        ensures
            strings_view(r@) == self@.pos,
    {
        &self.pos
    }
    /// A copy of the expression.
    pub fn copy(&self) -> (r: Expression)
        ensures
            r@ == self@,
    {
        Expression {
            expression: self.expression.clone(),
            pos: clone_strings(&self.pos),
            sentence: clone_strings(&self.sentence),
            surface_string: clone_strings(&self.surface_string),
            reading: clone_strings(&self.reading),
            definition: clone_strings(&self.definition),
        }
    }
}

} // verus!
