use crate::text::strings_view;
use vstd::prelude::*;

verus! {

/// The surface forms of an expression.
#[derive(Debug)]
pub struct SurfaceString(pub Vec<String>);

/// The readings of an expression.
#[derive(Debug)]
pub struct Reading(pub Vec<String>);

/// The parts of speech of an expression.
#[derive(Debug)]
pub struct Pos(pub Vec<String>);

/// The sentences of an expression.
#[derive(Debug)]
pub struct Sentence(pub Vec<String>);

/// The definitions of an expression.
#[derive(Debug)]
pub struct Definition(pub Vec<String>);

/// An expression with each optional piece of information given at once.
#[derive(Debug)]
pub struct Expression {
    expression: String,
    pos: Option<Pos>,
    sentence: Option<Sentence>,
    surface_string: Option<SurfaceString>,
    reading: Option<Reading>,
    definition: Option<Definition>,
}

impl Expression {
    pub closed spec fn spec_expression(&self) -> Seq<char> {
        self.expression@
    }

    pub closed spec fn spec_pos(&self) -> Option<Seq<Seq<char>>> {
        match &self.pos {
            Some(p) => Some(strings_view(p.0@)),
            None => None,
        }
    }

    pub closed spec fn spec_sentence(&self) -> Option<Seq<Seq<char>>> {
        match &self.sentence {
            Some(p) => Some(strings_view(p.0@)),
            None => None,
        }
    }

    pub closed spec fn spec_surface_string(&self) -> Option<Seq<Seq<char>>> {
        match &self.surface_string {
            Some(p) => Some(strings_view(p.0@)),
            None => None,
        }
    }

    pub fn new(
        expression: String,
        pos: Option<Pos>,
        sentence: Option<Sentence>,
        surface_string: Option<SurfaceString>,
        reading: Option<Reading>,
        definition: Option<Definition>,
    ) -> (r: Expression)
        ensures
            r.spec_expression() == expression@,
            r.spec_pos() == (match pos {
                Some(p) => Some(strings_view(p.0@)),
                None => None::<Seq<Seq<char>>>,
            }),
            r.spec_sentence() == (match sentence {
                Some(p) => Some(strings_view(p.0@)),
                None => None::<Seq<Seq<char>>>,
            }),
            r.spec_surface_string() == (match surface_string {
                Some(p) => Some(strings_view(p.0@)),
                None => None::<Seq<Seq<char>>>,
            }),
    {
        Expression { expression, surface_string, reading, pos, sentence, definition }
    }

    pub fn get_expression(&self) -> (r: &str)
        ensures
            r@ == self.spec_expression(),
    {
        self.expression.as_str()
    }

    pub fn get_sentence(&self) -> (r: &Option<Sentence>)
        ensures
            self.spec_sentence() == (match r {
                Some(p) => Some(strings_view(p.0@)),
                None => None::<Seq<Seq<char>>>,
            }),
    {
        &self.sentence
    }

    pub fn get_surface_string(&self) -> (r: &Option<SurfaceString>)
        ensures
            self.spec_surface_string() == (match r {
                Some(p) => Some(strings_view(p.0@)),
                None => None::<Seq<Seq<char>>>,
            }),
    {
        &self.surface_string
    }

    pub fn get_pos(&self) -> (r: &Option<Pos>)
        ensures
            self.spec_pos() == (match r {
                Some(p) => Some(strings_view(p.0@)),
                None => None::<Seq<Seq<char>>>,
            }),
    {
        &self.pos
    }
}

} // verus!
