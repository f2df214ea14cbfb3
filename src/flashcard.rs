use crate::dictionary::{
    filter_definition_with_pos_list, filter_spec, gloss_lists_view, senses_view, DictionaryDefinition, SenseModel,
};
use crate::expression::Expression;
use crate::posconverter::{convert_pos_list, convert_spec};
use crate::model::{occurrences_of, set_excluded_spec, set_in_anki_spec, StoreModel};
use crate::store::{Occurrence, Store};
use crate::text::strings_view;
use vstd::prelude::*;

verus! {

broadcast use vstd::seq::Seq::lemma_push_map_commute;

/// The strings joined with "; " between them.
pub open spec fn join_spec(list: Seq<Seq<char>>) -> Seq<char>
    decreases list.len(),
{
    if list.len() == 0 {
        Seq::empty()
    } else if list.len() == 1 {
        list[0]
    } else {
        join_spec(list.drop_last()) + "; "@ + list.last()
    }
}

/// The list items of the definition block, one per gloss list.
pub open spec fn items_spec(definition_list: Seq<Seq<Seq<char>>>) -> Seq<char>
    decreases definition_list.len(),
{
    if definition_list.len() == 0 {
        Seq::empty()
    } else {
        items_spec(definition_list.drop_last()) + " <li>"@ + join_spec(definition_list.last()) + "</li>\n"@
    }
}

/// The warning lines above the block: one when the senses were not narrowed
/// by part of speech; else one when they were not narrowed by written form.
pub open spec fn warnings_spec(is_specific_definition: bool, is_specific_kanji: bool) -> Seq<char> {
    if !is_specific_definition {
        "WARNING: Not filtered by pos.<br>\n"@
    } else if !is_specific_kanji {
        "WARNING: Not filtered by kanji. <br>\n"@
    } else {
        Seq::empty()
    }
}

pub open spec fn definition_spec(
    definition_list: Seq<Seq<Seq<char>>>,
    is_specific_definition: bool,
    is_specific_kanji: bool,
) -> Seq<char> {
    warnings_spec(is_specific_definition, is_specific_kanji) + "<ol>\n"@ + items_spec(definition_list) + "</ol>"@
}


/// Joins the strings with "; ".
pub fn join_list(list: &Vec<String>) -> (r: String)
    ensures
        r@ == join_spec(strings_view(list@)),
{
    let ghost v = strings_view(list@);
    let mut r = String::new();
    let mut i: usize = 0;
    while i < list.len()
        invariant
            i <= list@.len(),
            v == strings_view(list@),
            r@ == join_spec(v.take(i as int)),
        decreases list@.len() - i,
    {
        proof {
            assert(v.take(i + 1).drop_last() =~= v.take(i as int));
            assert(v.take(i + 1).last() == list@[i as int]@);
        }
        if i > 0 {
            r.append("; ");
        } else {
            assert(join_spec(v.take(0)) =~= Seq::<char>::empty());
        }
        r.append(list[i].as_str());
        proof {
            if i == 0 {
                assert(r@ =~= v.take(1)[0]);
            }
        }
        i = i + 1;
    }
    assert(v.take(list@.len() as int) =~= v);
    r
}

/// The HTML definition block of a flashcard: the warning lines, then one list
/// item per gloss list with its glosses joined by "; ".
pub fn format_anki_definition(
    definition_list: &Vec<Vec<String>>,
    is_specific_definition: bool,
    is_specific_kanji: bool,
) -> (r: String)
    ensures
        r@ == definition_spec(gloss_lists_view(definition_list@), is_specific_definition, is_specific_kanji),
{
    let ghost v = gloss_lists_view(definition_list@);
    let mut r = String::new();
    if !is_specific_definition {
        r.append("WARNING: Not filtered by pos.<br>\n");
    } else if !is_specific_kanji {
        r.append("WARNING: Not filtered by kanji. <br>\n");
    }
    r.append("<ol>\n");
    let ghost head = r@;
    assert(head == warnings_spec(is_specific_definition, is_specific_kanji) + "<ol>\n"@);
    let mut i: usize = 0;
    while i < definition_list.len()
        invariant
            i <= definition_list@.len(),
            v == gloss_lists_view(definition_list@),
            r@ == head + items_spec(v.take(i as int)),
        decreases definition_list@.len() - i,
    {
        proof {
            assert(v.take(i + 1).drop_last() =~= v.take(i as int));
            assert(v.take(i + 1).last() == strings_view(definition_list@[i as int]@));
        }
        let line = join_list(&definition_list[i]);
        r.append(" <li>");
        r.append(line.as_str());
        r.append("</li>\n");
        assert(r@ =~= head + items_spec(v.take(i + 1)));
        i = i + 1;
    }
    assert(v.take(definition_list@.len() as int) =~= v);
    r.append("</ol>");
    r
}

/// The readings joined with "; ".
pub fn format_anki_reading(reading_list: &Vec<String>) -> (r: String)
    ensures
        r@ == join_spec(strings_view(reading_list@)),
{
    join_list(reading_list)
}

/// The example sentence: the first of the list.
pub fn format_anki_sentence(sentence_list: &Vec<String>) -> (r: String)
    requires
        sentence_list@.len() > 0,
    ensures
        r@ == sentence_list@[0]@,
{
    sentence_list[0].clone()
}

pub open spec fn audio_url_spec(expression: Seq<char>, reading: Seq<char>) -> (Seq<char>, Seq<char>) {
    (
        "https://assets.languagepod101.com/dictionary/japanese/audiomp3.php?kanji="@ + expression + "&kana="@ + reading,
        "vocabulist_"@ + expression + "_"@ + reading,
    )
}

/// The audio locator and the file name for one reading of an expression.
pub fn url_for_expression(expression: &str, reading: &str) -> (r: (String, String))
    ensures
        (r.0@, r.1@) == audio_url_spec(expression@, reading@),
{
    let mut url = String::from_str("https://assets.languagepod101.com/dictionary/japanese/audiomp3.php?kanji=");
    url.append(expression);
    url.append("&kana=");
    url.append(reading);
    let mut file = String::from_str("vocabulist_");
    file.append(expression);
    file.append("_");
    file.append(reading);
    (url, file)
}

pub open spec fn url_list_spec(expression: Seq<char>, reading_list: Seq<Seq<char>>) -> Seq<(Seq<char>, Seq<char>)> {
    if reading_list.len() == 0 {
        seq![audio_url_spec(expression, expression)]
    } else {
        reading_list.map_values(|r: Seq<char>| audio_url_spec(expression, r))
    }
}

pub open spec fn pairs_view(v: Seq<(String, String)>) -> Seq<(Seq<char>, Seq<char>)> {
    v.map_values(|p: (String, String)| (p.0@, p.1@))
}

/// One audio locator per reading; with no reading, one that uses the
/// expression itself as the reading.
pub fn create_url_list(expression: &str, reading_list: &Vec<String>) -> (r: Vec<(String, String)>)
    ensures
        pairs_view(r@) == url_list_spec(expression@, strings_view(reading_list@)),
{
    let ghost rv = strings_view(reading_list@);
    let mut r: Vec<(String, String)> = Vec::new();
    if reading_list.len() == 0 {
        r.push(url_for_expression(expression, expression));
        assert(pairs_view(r@) =~= url_list_spec(expression@, rv));
        return r;
    }
    let mut i: usize = 0;
    while i < reading_list.len()
        invariant
            i <= reading_list@.len(),
            rv == strings_view(reading_list@),
            pairs_view(r@) == rv.map_values(|x: Seq<char>| audio_url_spec(expression@, x)).take(i as int),
        decreases reading_list@.len() - i,
    {
        r.push(url_for_expression(expression, reading_list[i].as_str()));
        proof {
            let want = rv.map_values(|x: Seq<char>| audio_url_spec(expression@, x));
            assert(rv[i as int] == reading_list@[i as int]@);
            assert(pairs_view(r@) =~= want.take(i + 1));
        }
        i = i + 1;
    }
    assert(rv.map_values(|x: Seq<char>| audio_url_spec(expression@, x)).take(reading_list@.len() as int) =~= rv.map_values(|x: Seq<char>| audio_url_spec(expression@, x)));
    r
}

/// A complete flashcard: the expression, its definition block, its readings,
/// an example sentence and the audio locators with their file names.
pub struct Flashcard {
    pub expression: String,
    pub definition: String,
    pub reading: String,
    pub sentence: String,
    pub url_list: Vec<(String, String)>,
}

pub struct FlashcardModel {
    pub expression: Seq<char>,
    pub definition: Seq<char>,
    pub reading: Seq<char>,
    pub sentence: Seq<char>,
    pub url_list: Seq<(Seq<char>, Seq<char>)>,
}

impl Flashcard {
    pub open spec fn model(&self) -> FlashcardModel {
        FlashcardModel {
            expression: self.expression@,
            definition: self.definition@,
            reading: self.reading@,
            sentence: self.sentence@,
            url_list: pairs_view(self.url_list@),
        }
    }
}

/// The flashcard for an expression with at least one sense: the senses are
/// narrowed to the parts of speech the expression was stored under (repeated
/// gloss lists dropped), and the first stored sentence is the example.
pub open spec fn card_spec(
    m: StoreModel,
    expression: Seq<char>,
    senses: Seq<SenseModel>,
    is_specific_kanji: bool,
    readings: Seq<Seq<char>>,
) -> FlashcardModel {
    let occ = occurrences_of(m, expression);
    let pos = occ.map_values(|o: Occurrence| m.pos[o.pos_id as int].tag);
    let sentences = occ.map_values(|o: Occurrence| m.sentences[o.sentence_id as int]);
    let f = filter_spec(senses, convert_spec(pos));
    FlashcardModel {
        expression,
        definition: definition_spec(f.0, f.1, is_specific_kanji),
        reading: join_spec(readings),
        sentence: if sentences.len() > 0 { sentences[0] } else { Seq::empty() },
        url_list: url_list_spec(expression, readings),
    }
}

/// Builds the flashcard of an expression from its dictionary senses and
/// readings. An expression without any sense gets no flashcard: it is marked
/// excluded in the store instead, and nothing is handed on for export.
pub fn create_flashcard(
    store: &mut Store,
    expression: &str,
    definition_list: &Vec<DictionaryDefinition>,
    is_specific_kanji: bool,
    reading_list: &Vec<String>,
) -> (r: Option<Flashcard>)
    requires
        old(store).wf(),
    ensures
        final(store).wf(),
        r is None <==> definition_list@.len() == 0,
        r is None ==> final(store)@ == set_excluded_spec(old(store)@, seq![expression@], true),
        r is Some ==> final(store)@ == old(store)@ && r->0.model() == card_spec(
            old(store)@,
            expression@,
            senses_view(definition_list@),
            is_specific_kanji,
            strings_view(reading_list@),
        ),
        forall|n: nat| old(store).headroom(n) ==> #[trigger] final(store).headroom(n),
{
    if definition_list.len() == 0 {
        let mut list: Vec<Expression> = Vec::new();
        list.push(Expression::new(String::from_str(expression)));
        assert(list@.map_values(|e: Expression| e@.expression) =~= seq![expression@]);
        store.set_expression_list_excluded(&list, true);
        return None;
    }
    let pos_list = store.select_pos_for_expression(expression);
    let sentence_list = store.select_sentence_for_expression(expression);
    let (filtered, is_specific_definition) = filter_definition_with_pos_list(
        definition_list,
        &convert_pos_list(&pos_list),
    );
    let definition = format_anki_definition(&filtered, is_specific_definition, is_specific_kanji);
    let reading = format_anki_reading(reading_list);
    let sentence = if sentence_list.len() > 0 {
        format_anki_sentence(&sentence_list)
    } else {
        String::new()
    };
    let url_list = create_url_list(expression, reading_list);
    proof {
        assert(strings_view(sentence_list@).len() == sentence_list@.len());
        if sentence_list@.len() > 0 {
            assert(strings_view(sentence_list@)[0] == sentence_list@[0]@);
        }
    }
    Some(Flashcard { expression: String::from_str(expression), definition, reading, sentence, url_list })
}

/// A candidate for a flashcard: an expression with what the dictionary gave
/// for it.
pub struct Candidate {
    pub expression: String,
    pub definition_list: Vec<DictionaryDefinition>,
    pub is_specific_kanji: bool,
    pub reading_list: Vec<String>,
}

pub struct CandidateModel {
    pub expression: Seq<char>,
    pub senses: Seq<SenseModel>,
    pub is_specific_kanji: bool,
    pub readings: Seq<Seq<char>>,
}

impl Candidate {
    pub open spec fn model(&self) -> CandidateModel {
        CandidateModel {
            expression: self.expression@,
            senses: senses_view(self.definition_list@),
            is_specific_kanji: self.is_specific_kanji,
            readings: strings_view(self.reading_list@),
        }
    }
}

pub open spec fn candidates_view(s: Seq<Candidate>) -> Seq<CandidateModel> {
    s.map_values(|c: Candidate| c.model())
}

pub open spec fn cards_view(s: Seq<Flashcard>) -> Seq<FlashcardModel> {
    s.map_values(|c: Flashcard| c.model())
}

/// The store and the flashcards after going through the candidates in order.
pub open spec fn generate_spec(m: StoreModel, cs: Seq<CandidateModel>) -> (StoreModel, Seq<FlashcardModel>)
    decreases cs.len(),
{
    if cs.len() == 0 {
        (m, Seq::empty())
    } else {
        let before = generate_spec(m, cs.drop_last());
        let c = cs.last();
        if c.senses.len() == 0 {
            (set_excluded_spec(before.0, seq![c.expression], true), before.1)
        } else {
            (before.0, before.1.push(card_spec(before.0, c.expression, c.senses, c.is_specific_kanji, c.readings)))
        }
    }
}

/// Goes through the candidates from position `start`, most wanted first,
/// until `max` flashcards are made; a candidate without senses is excluded and
/// does not count. Also returns the position after the last candidate used,
/// where a later call can go on.
pub fn create_flashcards_from_expression_list(
    store: &mut Store,
    candidate_list: &Vec<Candidate>,
    start: usize,
    max: i32,
) -> (r: (Vec<Flashcard>, usize))
    requires
        old(store).wf(),
        start <= candidate_list@.len(),
    ensures
        final(store).wf(),
        start <= r.1 <= candidate_list@.len(),
        generate_spec(old(store)@, candidates_view(candidate_list@).subrange(start as int, r.1 as int))
            == (final(store)@, cards_view(r.0@)),
        r.0@.len() < max ==> r.1 == candidate_list@.len(),
        r.0@.len() <= (if max > 0 { max as int } else { 0 }),
{
    let ghost cs = candidates_view(candidate_list@);
    let mut r: Vec<Flashcard> = Vec::new();
    let mut i: usize = start;
    assert(cs.subrange(start as int, start as int) =~= Seq::<CandidateModel>::empty());
    if max <= 0 {
        return (r, i);
    }
    while i < candidate_list.len() && (r.len() as i64) < (max as i64)
        invariant
            start <= i <= candidate_list@.len(),
            cs == candidates_view(candidate_list@),
            max > 0,
            store.wf(),
            r@.len() <= max,
            generate_spec(old(store)@, cs.subrange(start as int, i as int)) == (store@, cards_view(r@)),
        decreases candidate_list@.len() - i,
    {
        let c = &candidate_list[i];
        let ghost cards_before = r@;
        proof {
            assert(cs.subrange(start as int, i + 1).drop_last() =~= cs.subrange(start as int, i as int));
            assert(cs.subrange(start as int, i + 1).last() == c.model());
        }
        match create_flashcard(store, c.expression.as_str(), &c.definition_list, c.is_specific_kanji, &c.reading_list) {
            Some(card) => {
                r.push(card);
                assert(cards_view(r@) =~= cards_view(cards_before).push(card.model()));
            },
            None => {},
        }
        i = i + 1;
    }
    (r, i)
}

/// One step of a generation run after an export attempt: a card that was
/// exported marks its expression as in the flashcard set and counts toward
/// the quota; a card whose export failed changes nothing, so a later
/// candidate takes its place.
pub fn record_export(store: &mut Store, card: &Flashcard, exported: bool, count: i32) -> (r: i32)
    requires
        old(store).wf(),
        count < i32::MAX,
    ensures
        final(store).wf(),
        exported ==> final(store)@ == set_in_anki_spec(old(store)@, card.expression@, true) && r == count + 1,
        !exported ==> final(store)@ == old(store)@ && r == count,
{
    if exported {
        store.update_in_anki_for_expression(true, card.expression.as_str());
        count + 1
    } else {
        count
    }
}

/// Whether a generation run goes on: fewer than `max` cards were exported and
/// candidates are left from position `next` on.
pub fn generation_goes_on(count: i32, max: i32, next: usize, candidate_count: usize) -> (r: bool)
    ensures
        r == (count < max && next < candidate_count),
{
    count < max && next < candidate_count
}

} // verus!
