use crate::expression::{Expression, ExpressionView};
use crate::model::{import_spec, insert_all_spec, new_terms, terms_view};
use crate::store::{Store, StoreError};
use crate::term::{Term, TermModel};
use crate::text::{clone_strings, contains_string, strings_view};
use crate::tokenizer::{concat_token_lists, token_lists_view, tokens_view, Token, TokenModel, Tokenize, TokenizerError};
use crate::progress::Progress;
use vstd::prelude::*;

verus! {

broadcast use vstd::seq::Seq::lemma_push_map_commute;

pub open spec fn expressions_view(s: Seq<Expression>) -> Seq<ExpressionView> {
    s.map_values(|e: Expression| e@)
}

/// The expression a token becomes.
pub open spec fn token_expression(t: TokenModel) -> ExpressionView {
    ExpressionView {
        expression: t.token,
        pos: t.pos,
        sentence: t.sentence,
        surface_string: t.surface_string,
        reading: Seq::empty(),
        definition: Seq::empty(),
    }
}

/// A token with a part of speech, a sentence and a surface form.
pub open spec fn token_complete(t: TokenModel) -> bool {
    t.pos.len() > 0 && t.sentence.len() > 0 && t.surface_string.len() > 0
}

pub open spec fn expression_complete(e: ExpressionView) -> bool {
    e.pos.len() > 0 && e.sentence.len() > 0 && e.surface_string.len() > 0
}

/// The term stored for an expression: its first part of speech, sentence and
/// surface form.
pub open spec fn expression_term(e: ExpressionView) -> TermModel {
    TermModel { expression: e.expression, pos: e.pos[0], sentence: e.sentence[0], surface_string: e.surface_string[0] }
}

pub open spec fn token_term(t: TokenModel) -> TermModel {
    expression_term(token_expression(t))
}

/// Turns tokens into expressions, one for one.
pub fn token_list_to_expression_list(token_list: Vec<Token>) -> (r: Vec<Expression>)
    ensures
        expressions_view(r@) == tokens_view(token_list@).map_values(|t: TokenModel| token_expression(t)),
{
    let ghost want = tokens_view(token_list@).map_values(|t: TokenModel| token_expression(t));
    let mut r: Vec<Expression> = Vec::new();
    let mut i: usize = 0;
    while i < token_list.len()
        invariant
            i <= token_list@.len(),
            want == tokens_view(token_list@).map_values(|t: TokenModel| token_expression(t)),
            expressions_view(r@) == want.take(i as int),
        decreases token_list@.len() - i,
    {
        let token = &token_list[i];
        assert(tokens_view(token_list@)[i as int] == token@);
        let e = Expression::new(String::from_str(token.get_token()))
            .pos(clone_strings(token.get_pos()))
            .sentence(clone_strings(token.get_sentence()))
            .surface_string(clone_strings(token.get_surface_string()));
        r.push(e);
        proof {
            assert(e@.reading =~= Seq::<Seq<char>>::empty());
            assert(e@.definition =~= Seq::<Seq<char>>::empty());
            assert(e@ == want[i as int]);
            assert(expressions_view(r@) =~= want.take(i + 1));
        }
        i = i + 1;
    }
    assert(want.take(token_list@.len() as int) =~= want);
    r
}

/// Drops every expression whose sentence is one of `sentence_list`.
pub fn filter_imported_expression_list(sentence_list: &Vec<String>, expression_list: Vec<Expression>) -> (r: Vec<Expression>)
    requires
        forall|i: int| 0 <= i < expression_list@.len() ==> (#[trigger] expression_list@[i])@.sentence.len() > 0,
    ensures
        expressions_view(r@) == expressions_view(expression_list@).filter(
            |e: ExpressionView| !strings_view(sentence_list@).contains(e.sentence[0]),
        ),
{
    let ghost pred = |e: ExpressionView| !strings_view(sentence_list@).contains(e.sentence[0]);
    let ghost all = expressions_view(expression_list@);
    let mut r: Vec<Expression> = Vec::new();
    let mut i: usize = 0;
    while i < expression_list.len()
        invariant
            i <= expression_list@.len(),
            all == expressions_view(expression_list@),
            pred == (|e: ExpressionView| !strings_view(sentence_list@).contains(e.sentence[0])),
            forall|i: int| 0 <= i < expression_list@.len() ==> (#[trigger] expression_list@[i])@.sentence.len() > 0,
            expressions_view(r@) == all.take(i as int).filter(pred),
        decreases expression_list@.len() - i,
    {
        let expression = &expression_list[i];
        proof {
            reveal(Seq::filter);
            assert(all.take(i + 1).drop_last() =~= all.take(i as int));
            assert(all.take(i + 1).last() == expression@);
            assert(expression@.sentence.len() > 0);
        }
        let sentences = expression.get_sentence();
        assert(strings_view(sentences@)[0] == sentences@[0]@);
        if !contains_string(sentence_list, sentences[0].as_str()) {
            let ghost before = r@;
            let c = expression.copy();
            r.push(c);
            assert(expressions_view(r@) =~= expressions_view(before).push(expression@));
        }
        i = i + 1;
    }
    assert(all.take(expression_list@.len() as int) =~= all);
    r
}

fn first_string(list: &Vec<String>) -> (r: String)
    requires
        list@.len() > 0,
    ensures
        r@ == strings_view(list@)[0],
{
    list[0].clone()
}

/// The term of each expression, in order.
pub fn expression_list_to_term_list(expression_list: &Vec<Expression>) -> (r: Vec<Term>)
    requires
        forall|i: int| 0 <= i < expression_list@.len() ==> expression_complete(#[trigger] expression_list@[i]@),
    ensures
        terms_view(r@) == expressions_view(expression_list@).map_values(|e: ExpressionView| expression_term(e)),
{
    let ghost want = expressions_view(expression_list@).map_values(|e: ExpressionView| expression_term(e));
    let mut r: Vec<Term> = Vec::new();
    let mut i: usize = 0;
    while i < expression_list.len()
        invariant
            i <= expression_list@.len(),
            want == expressions_view(expression_list@).map_values(|e: ExpressionView| expression_term(e)),
            forall|i: int| 0 <= i < expression_list@.len() ==> expression_complete(#[trigger] expression_list@[i]@),
            terms_view(r@) == want.take(i as int),
        decreases expression_list@.len() - i,
    {
        let e = &expression_list[i];
        assert(expression_complete(e@));
        let t = Term::new(
            String::from_str(e.get_expression()),
            first_string(e.get_pos()),
            first_string(e.get_sentence()),
            first_string(e.get_surface_string()),
        );
        r.push(t);
        proof {
            assert(t@ == want[i as int]);
            assert(terms_view(r@) =~= want.take(i + 1));
        }
        i = i + 1;
    }
    assert(want.take(expression_list@.len() as int) =~= want);
    r
}

/// Stores the expressions (their first part of speech, sentence and surface
/// form) in one all-or-nothing step.
pub fn insert_expression_list(store: &mut Store, expression_list: &Vec<Expression>) -> (r: Result<(), StoreError>)
    requires
        old(store).wf(),
        forall|i: int| 0 <= i < expression_list@.len() ==> expression_complete(#[trigger] expression_list@[i]@),
    ensures
        final(store).wf(),
        r is Ok <==> old(store).headroom(expression_list@.len() as nat),
        r is Ok ==> final(store)@ == insert_all_spec(
            old(store)@,
            expressions_view(expression_list@).map_values(|e: ExpressionView| expression_term(e)),
        ),
        r is Err ==> final(store)@ == old(store)@,
{
    let term_list = expression_list_to_term_list(expression_list);
    assert(term_list@.len() == terms_view(term_list@).len());
    store.insert_term_list(&term_list)
}

/// Drops the expressions from sentences of `sentence_list` that the store
/// already holds.
pub fn deduplicate_expression_list(store: &Store, sentence_list: &Vec<String>, expression_list: Vec<Expression>) -> (r: Vec<Expression>)
    requires
        forall|i: int| 0 <= i < expression_list@.len() ==> (#[trigger] expression_list@[i])@.sentence.len() > 0,
    ensures
        expressions_view(r@) == expressions_view(expression_list@).filter(
            |e: ExpressionView|
                !strings_view(sentence_list@).filter(|s: Seq<char>| store@.has_sentence(s)).contains(e.sentence[0]),
        ),
{
    let duplicate_sentence_list = store.select_imported_sentence_list(sentence_list);
    filter_imported_expression_list(&duplicate_sentence_list, expression_list)
}

/// Whether every token has a part of speech, a sentence and a surface form.
pub fn tokens_complete(token_list: &Vec<Token>) -> (r: bool)
    ensures
        r == forall|i: int| 0 <= i < token_list@.len() ==> token_complete(#[trigger] token_list@[i]@),
{
    let mut i: usize = 0;
    while i < token_list.len()
        invariant
            i <= token_list@.len(),
            forall|j: int| 0 <= j < i ==> token_complete(#[trigger] token_list@[j]@),
        decreases token_list@.len() - i,
    {
        let t = &token_list[i];
        if t.get_pos().len() == 0 || t.get_sentence().len() == 0 || t.get_surface_string().len() == 0 {
            assert(!token_complete(token_list@[i as int]@));
            return false;
        }
        i = i + 1;
    }
    true
}

/// One ingestion batch from tokenizer output: tokens of sentences that were
/// imported before are dropped, the rest is stored, all or nothing.
pub fn import_token_list(store: &mut Store, token_list: Vec<Token>) -> (r: Result<(), StoreError>)
    requires
        old(store).wf(),
        forall|i: int| 0 <= i < token_list@.len() ==> token_complete(#[trigger] token_list@[i]@),
    ensures
        final(store).wf(),
        r is Ok <==> old(store).headroom(
            new_terms(old(store)@, tokens_view(token_list@).map_values(|t: TokenModel| token_term(t))).len(),
        ),
        r is Ok ==> final(store)@ == import_spec(old(store)@, tokens_view(token_list@).map_values(|t: TokenModel| token_term(t))),
        r is Err ==> final(store)@ == old(store)@,
{
    let ghost tv = tokens_view(token_list@);
    assert forall|i: int| 0 <= i < tv.len() implies token_complete(#[trigger] tv[i]) by {
        assert(tv[i] == token_list@[i]@);
    }
    let expression_list = token_list_to_expression_list(token_list);
    proof {
        let ev = expressions_view(expression_list@);
        assert(ev.len() == tv.len());
        assert forall|i: int| 0 <= i < expression_list@.len() implies expression_complete(#[trigger] expression_list@[i]@) by {
            assert(ev[i] == expression_list@[i]@);
            assert(token_complete(tv[i]));
            assert(ev[i] == token_expression(tv[i]));
        }
    }
    let term_list = expression_list_to_term_list(&expression_list);
    proof {
        assert(terms_view(term_list@) =~= tv.map_values(|t: TokenModel| token_term(t)));
    }
    store.import_term_list(term_list)
}

/// Tokenizes the sentences in order with the backend, each handed over once
/// and verbatim, and turns every token into an expression; one progress
/// event per sentence tokenized. The first backend error ends the run and is
/// returned as it came.
pub fn tokenize_sentence_list<T: Tokenize, F: FnMut()>(
    tokenizer: &T,
    sentence_list: &Vec<String>,
    progress: &mut Progress<F>,
) -> (r: Result<Vec<Expression>, TokenizerError>)
    requires
        forall|f: F| call_requires(f, ()),
    ensures
        sentence_list@.len() == 0 ==> r is Ok && r->Ok_0@.len() == 0,
        r is Ok ==> exists|ls: Seq<Seq<TokenModel>>|
            #![trigger ls.flatten()]
            ls.len() == sentence_list@.len()
                && (forall|i: int| 0 <= i < ls.len() ==> tokenizer.produces(#[trigger] sentence_list@[i]@, ls[i]))
                && expressions_view(r->Ok_0@) == ls.flatten().map_values(|t: TokenModel| token_expression(t)),
        r is Ok ==> final(progress).count() == old(progress).count() + sentence_list@.len(),
        r is Err ==> exists|k: int, ls: Seq<Seq<TokenModel>>|
            #![trigger sentence_list@[k], ls.len()]
            0 <= k < sentence_list@.len() && tokenizer.fails(sentence_list@[k]@, r->Err_0) && ls.len() == k
                && (forall|j: int| 0 <= j < k ==> tokenizer.produces(#[trigger] sentence_list@[j]@, ls[j]))
                && final(progress).count() == old(progress).count() + k,
{
    let mut lists: Vec<Vec<Token>> = Vec::new();
    let mut i: usize = 0;
    while i < sentence_list.len()
        invariant
            i <= sentence_list@.len(),
            lists@.len() == i,
            forall|j: int| 0 <= j < i ==> tokenizer.produces(#[trigger] sentence_list@[j]@, token_lists_view(lists@)[j]),
            progress.count() == old(progress).count() + i,
            forall|f: F| call_requires(f, ()),
        decreases sentence_list@.len() - i,
    {
        let list = match tokenizer.tokenize(sentence_list[i].as_str()) {
            Ok(list) => list,
            Err(e) => {
                    proof {
                        let ls = token_lists_view(lists@);
                        let k = i as int;
                        assert(sentence_list@[k] == sentence_list@[k]);
                        assert(ls.len() == k);
                    }
                    return Err(e);
            },
        };
        let ghost before = lists@;
        lists.push(list);
        proof {
            assert forall|j: int| 0 <= j < i + 1 implies tokenizer.produces(#[trigger] sentence_list@[j]@, token_lists_view(lists@)[j]) by {
                if j < i {
                    assert(lists@[j] == before[j]);
                }
            }
        }
        progress.step();
        i = i + 1;
    }
    let token_list = concat_token_lists(&lists);
    let expression_list = token_list_to_expression_list(token_list);
    proof {
        let ls = token_lists_view(lists@);
        assert(ls.len() == sentence_list@.len());
        if lists@.len() == 0 {
            assert(ls =~= Seq::<Seq<TokenModel>>::empty());
            assert(expressions_view(expression_list@).len() == expression_list@.len());
        }
    }
    Ok(expression_list)
}

} // verus!
