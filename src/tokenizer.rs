use crate::text::{clone_strings, strings_view};
use crate::progress::Progress;
use vstd::prelude::*;

verus! {

/// A lexical unit produced from a sentence: its dictionary form, part of
/// speech, source sentence and surface form (one each when fresh).
#[derive(Debug)]
pub struct Token {
    token: String,
    pos: Vec<String>,
    sentence: Vec<String>,
    surface_string: Vec<String>,
}

pub struct TokenModel {
    pub token: Seq<char>,
    pub pos: Seq<Seq<char>>,
    pub sentence: Seq<Seq<char>>,
    pub surface_string: Seq<Seq<char>>,
}

impl View for Token {
    type V = TokenModel;

    closed spec fn view(&self) -> TokenModel {
        TokenModel {
            token: self.token@,
            pos: strings_view(self.pos@),
            sentence: strings_view(self.sentence@),
            surface_string: strings_view(self.surface_string@),
        }
    }
}

pub open spec fn tokens_view(s: Seq<Token>) -> Seq<TokenModel> {
    s.map_values(|t: Token| t@)
}

pub open spec fn token_lists_view(s: Seq<Vec<Token>>) -> Seq<Seq<TokenModel>> {
    s.map_values(|l: Vec<Token>| tokens_view(l@))
}

/// Whether two lists hold the same strings in the same order.
fn strings_equal(a: &Vec<String>, b: &Vec<String>) -> (r: bool)
    ensures
        r == (strings_view(a@) == strings_view(b@)),
{
    if a.len() != b.len() {
        assert(strings_view(a@).len() != strings_view(b@).len());
        return false;
    }
    let mut i: usize = 0;
    while i < a.len()
        invariant
            i <= a@.len(),
            a@.len() == b@.len(),
            forall|j: int| 0 <= j < i ==> a@[j]@ == b@[j]@,
        decreases a@.len() - i,
    {
        if a[i] != b[i] {
            assert(strings_view(a@)[i as int] != strings_view(b@)[i as int]);
            return false;
        }
        i = i + 1;
    }
    assert(strings_view(a@) =~= strings_view(b@));
    true
}

impl Token {
    pub fn new(token: String) -> (r: Token)
        ensures
            r@.token == token@,
            r@.pos.len() == 0,
            r@.sentence.len() == 0,
            r@.surface_string.len() == 0,
    {
        Token { token, pos: Vec::new(), sentence: Vec::new(), surface_string: Vec::new() }
    }

    pub fn pos(self, pos: Vec<String>) -> (r: Token)
        ensures
            r@ == (TokenModel { pos: strings_view(pos@), ..self@ }),
    {
        Token { pos, ..self }
    }

    pub fn sentence(self, sentence: Vec<String>) -> (r: Token)
        ensures
            r@ == (TokenModel { sentence: strings_view(sentence@), ..self@ }),
    {
        Token { sentence, ..self }
    }

    pub fn surface_string(self, surface_string: Vec<String>) -> (r: Token)
        ensures
            r@ == (TokenModel { surface_string: strings_view(surface_string@), ..self@ }),
    {
        Token { surface_string, ..self }
    }

    /// A copy of the token.
    pub fn copy(&self) -> (r: Token)
        ensures
            r@ == self@,
    {
        Token {
            token: self.token.clone(),
            pos: clone_strings(&self.pos),
            sentence: clone_strings(&self.sentence),
            surface_string: clone_strings(&self.surface_string),
        }
    }

    pub fn get_token(&self) -> (r: &str)
        ensures
            r@ == self@.token,
    {
        self.token.as_str()
    }

    pub fn get_pos(&self) -> (r: &Vec<String>)
        ensures
            strings_view(r@) == self@.pos,
    {
        &self.pos
    }

    pub fn get_sentence(&self) -> (r: &Vec<String>)
        ensures
            strings_view(r@) == self@.sentence,
    {
        &self.sentence
    }

    pub fn get_surface_string(&self) -> (r: &Vec<String>)
        ensures
            strings_view(r@) == self@.surface_string,
    {
        &self.surface_string
    }
}

impl PartialEq for Token {
    fn eq(&self, other: &Token) -> (r: bool)
        ensures
            r == (self@ == other@),
    {
        self.token == other.token && strings_equal(&self.pos, &other.pos) && strings_equal(
            &self.sentence,
            &other.sentence,
        ) && strings_equal(&self.surface_string, &other.surface_string)
    }
}

impl vstd::std_specs::cmp::PartialEqSpecImpl for Token {
    open spec fn obeys_eq_spec() -> bool {
        true
    }

    open spec fn eq_spec(&self, other: &Token) -> bool {
        self@ == other@
    }
}

/// The token lists one after the other, in order.
pub fn concat_token_lists(lists: &Vec<Vec<Token>>) -> (r: Vec<Token>)
    ensures
        tokens_view(r@) == token_lists_view(lists@).flatten(),
{
    let ghost ls = token_lists_view(lists@);
    let mut r: Vec<Token> = Vec::new();
    let mut i: usize = 0;
    assert(ls.take(0).flatten() =~= Seq::<TokenModel>::empty());
    while i < lists.len()
        invariant
            i <= lists@.len(),
            ls == token_lists_view(lists@),
            tokens_view(r@) == ls.take(i as int).flatten(),
        decreases lists@.len() - i,
    {
        let list = &lists[i];
        let ghost head = tokens_view(r@);
        let mut j: usize = 0;
        while j < list.len()
            invariant
                j <= list@.len(),
                tokens_view(r@) == head + tokens_view(list@).take(j as int),
            decreases list@.len() - j,
        {
            let ghost before = r@;
            r.push(list[j].copy());
            assert(tokens_view(r@) =~= tokens_view(before).push(list@[j as int]@));
            assert(tokens_view(list@).take(j + 1) =~= tokens_view(list@).take(j as int).push(list@[j as int]@));
            assert(tokens_view(r@) =~= head + tokens_view(list@).take(j + 1));
            j = j + 1;
        }
        proof {
            assert(tokens_view(list@).take(list@.len() as int) =~= tokens_view(list@));
            assert(ls.take(i + 1) =~= ls.take(i as int).push(ls[i as int]));
            ls.take(i as int).lemma_flatten_push(ls[i as int]);
        }
        i = i + 1;
    }
    assert(ls.take(lists@.len() as int) =~= ls);
    r
}

/// Why a backend could not tokenize a sentence.
#[derive(Debug, PartialEq, Eq, Structural)]
pub enum TokenizerError {
    /// The analyzer process could not be started or fed.
    Backend,
    /// The analyzer's output could not be read as text.
    Output,
}

/// A morphological analyzer that turns one sentence into tokens.
pub trait Tokenize {
    /// Whether the analyzer may turn `sentence` into the tokens `out`. An
    /// analyzer that says nothing of its output allows any.
    #[verifier::opaque]
    open spec fn produces(&self, sentence: Seq<char>, out: Seq<TokenModel>) -> bool {
        true
    }

    /// Whether the analyzer may fail on `sentence` with `error`. An analyzer
    /// that says nothing of its failures allows any.
    #[verifier::opaque]
    open spec fn fails(&self, sentence: Seq<char>, error: TokenizerError) -> bool {
        true
    }

    fn tokenize(&self, sentence: &str) -> (r: Result<Vec<Token>, TokenizerError>)
        ensures
            r is Ok ==> self.produces(sentence@, tokens_view(r->Ok_0@)),
            r is Err ==> self.fails(sentence@, r->Err_0);
}

/// Drives a backend over a list of sentences.
pub struct Tokenizer<T: Tokenize> {
    tokenizer: T,
}

impl<T: Tokenize> Tokenizer<T> {
    pub fn new(tokenizer: T) -> (r: Self)
        ensures
            r.backend() == tokenizer,
    {
        Tokenizer { tokenizer }
    }

    pub closed spec fn backend(&self) -> T {
        self.tokenizer
    }

    /// Tokenizes the sentences in order, each handed to the backend once and
    /// verbatim, and concatenates the tokens (see `concat_token_lists`); one
    /// progress event per sentence tokenized. The first backend error ends
    /// the run and is returned as it came.
    pub fn tokenize<F: FnMut()>(&self, sentence_list: &Vec<String>, progress: &mut Progress<F>) -> (r: Result<Vec<Token>, TokenizerError>)
        requires
            forall|f: F| call_requires(f, ()),
        ensures
            sentence_list@.len() == 0 ==> r is Ok && r->Ok_0@.len() == 0,
            r is Ok ==> exists|ls: Seq<Seq<TokenModel>>|
                #![trigger ls.flatten()]
                ls.len() == sentence_list@.len()
                    && (forall|i: int| 0 <= i < ls.len() ==> self.backend().produces(#[trigger] sentence_list@[i]@, ls[i]))
                    && tokens_view(r->Ok_0@) == ls.flatten(),
            r is Ok ==> final(progress).count() == old(progress).count() + sentence_list@.len(),
            r is Err ==> exists|k: int, ls: Seq<Seq<TokenModel>>|
                #![trigger sentence_list@[k], ls.len()]
                0 <= k < sentence_list@.len() && self.backend().fails(sentence_list@[k]@, r->Err_0) && ls.len() == k
                    && (forall|j: int| 0 <= j < k ==> self.backend().produces(#[trigger] sentence_list@[j]@, ls[j]))
                    && final(progress).count() == old(progress).count() + k,
    {
        let mut lists: Vec<Vec<Token>> = Vec::new();
        let mut i: usize = 0;
        while i < sentence_list.len()
            invariant
                i <= sentence_list@.len(),
                lists@.len() == i,
                forall|j: int| 0 <= j < i ==> self.backend().produces(#[trigger] sentence_list@[j]@, token_lists_view(lists@)[j]),
                progress.count() == old(progress).count() + i,
                forall|f: F| call_requires(f, ()),
            decreases sentence_list@.len() - i,
        {
            let list = match self.tokenizer.tokenize(sentence_list[i].as_str()) {
                Ok(list) => list,
                Err(e) => {
                    proof {
                        let ls = token_lists_view(lists@);
                        let k = i as int;
                        assert(sentence_list@[k] == sentence_list@[k]);
                        assert(ls.len() == k);
                    }
                    return Err(e);
                },
            };
            let ghost before = lists@;
            lists.push(list);
            proof {
                assert forall|j: int| 0 <= j < i + 1 implies self.backend().produces(#[trigger] sentence_list@[j]@, token_lists_view(lists@)[j]) by {
                    if j < i {
                        assert(lists@[j] == before[j]);
                    }
                }
            }
            progress.step();
            i = i + 1;
        }
        let token_list = concat_token_lists(&lists);
        proof {
            let ls = token_lists_view(lists@);
            assert(ls.len() == sentence_list@.len());
            if lists@.len() == 0 {
                assert(ls =~= Seq::<Seq<TokenModel>>::empty());
                assert(tokens_view(token_list@).len() == token_list@.len());
            }
        }
        Ok(token_list)
    }
}

} // verus!
