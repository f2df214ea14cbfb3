use vocabulist_rs::dictionary::DictionaryDefinition;
use vocabulist_rs::flashcard::{
    create_flashcard, create_flashcards_from_expression_list, create_url_list, format_anki_definition,
    format_anki_reading, format_anki_sentence, generation_goes_on, record_export, url_for_expression, Candidate,
};
use vocabulist_rs::store::Store;
use vocabulist_rs::term::Term;

fn strings(list: &[&str]) -> Vec<String> {
    list.iter().map(|x| x.to_string()).collect()
}

fn sense(glosses: &[&str], pos: &[&str]) -> DictionaryDefinition {
    DictionaryDefinition::new(strings(glosses), strings(pos))
}

fn store_with_salt() -> Store {
    let mut store = Store::new();
    store.insert_term(&Term::new(
        "塩".to_string(),
        "名詞".to_string(),
        "ここのソースは舐めてみるとちょっと塩っぱい".to_string(),
        "塩".to_string(),
    ));
    store.insert_term(&Term::new("何".to_string(), "名詞".to_string(), "何時ですか".to_string(), "何".to_string()));
    store
}

fn excluded(store: &Store, text: &str) -> bool {
    store.expression_rows().iter().find(|r| r.expression == text).unwrap().is_excluded
}

#[test]
fn definition_block_layout() {
    let list = vec![strings(&["salt", "table salt"]), strings(&["tide"])];
    assert_eq!(
        format_anki_definition(&list, true, true),
        "<ol>\n <li>salt; table salt</li>\n <li>tide</li>\n</ol>"
    );
    assert_eq!(
        format_anki_definition(&list, false, false),
        "WARNING: Not filtered by pos.<br>\n<ol>\n <li>salt; table salt</li>\n <li>tide</li>\n</ol>"
    );
    assert_eq!(
        format_anki_definition(&list, true, false),
        "WARNING: Not filtered by kanji. <br>\n<ol>\n <li>salt; table salt</li>\n <li>tide</li>\n</ol>"
    );
    assert_eq!(format_anki_definition(&Vec::new(), true, true), "<ol>\n</ol>");
}

#[test]
fn readings_and_sentence() {
    assert_eq!(format_anki_reading(&strings(&["しお", "えん"])), "しお; えん");
    assert_eq!(format_anki_reading(&Vec::new()), "");
    assert_eq!(format_anki_sentence(&strings(&["first", "second"])), "first");
}

#[test]
fn audio_locators() {
    let (url, file) = url_for_expression("塩", "しお");
    assert_eq!(url, "https://assets.languagepod101.com/dictionary/japanese/audiomp3.php?kanji=塩&kana=しお");
    assert_eq!(file, "vocabulist_塩_しお");
    assert_eq!(create_url_list("塩", &Vec::new()), vec![url_for_expression("塩", "塩")]);
    assert_eq!(
        create_url_list("塩", &strings(&["しお", "えん"])),
        vec![url_for_expression("塩", "しお"), url_for_expression("塩", "えん")]
    );
}

#[test]
fn duplicate_gloss_lists_are_removed() {
    let senses = vec![sense(&["a"], &["n"]), sense(&["b"], &["n"]), sense(&["a"], &[]), sense(&["b", "c"], &["n"])];
    let (list, specific) = vocabulist_rs::dictionary::filter_definition_with_pos_list(&senses, &strings(&["n"]));
    assert!(specific);
    assert_eq!(list, vec![strings(&["a"]), strings(&["b"]), strings(&["b", "c"])]);
    let (all, specific) = vocabulist_rs::dictionary::filter_definition_with_pos_list(&senses, &strings(&["prt"]));
    assert!(!specific);
    assert_eq!(all, vec![strings(&["a"]), strings(&["b"]), strings(&["b", "c"])]);
}

#[test]
fn failed_export_does_not_count() {
    let mut store = store_with_salt();
    let senses = vec![sense(&["salt"], &["n"])];
    let card = create_flashcard(&mut store, "塩", &senses, true, &Vec::new()).unwrap();
    assert_eq!(record_export(&mut store, &card, false, 0), 0);
    assert!(store.select_expression_in_anki(0).is_empty());
    assert_eq!(record_export(&mut store, &card, true, 0), 1);
    assert_eq!(store.select_expression_in_anki(0), strings(&["塩"]));
    assert!(generation_goes_on(0, 1, 0, 2));
    assert!(!generation_goes_on(1, 1, 0, 2));
    assert!(!generation_goes_on(0, 1, 2, 2));
}

#[test]
fn expression_without_senses_is_excluded() {
    let mut store = store_with_salt();
    let card = create_flashcard(&mut store, "塩", &Vec::new(), true, &Vec::new());
    assert!(card.is_none());
    assert!(excluded(&store, "塩"));
    assert!(!excluded(&store, "何"));
}

#[test]
fn flashcard_is_assembled() {
    let mut store = store_with_salt();
    let senses = vec![sense(&["salt"], &["n"]), sense(&["salt"], &[]), sense(&["to salt"], &["vt"])];
    let card = create_flashcard(&mut store, "塩", &senses, false, &strings(&["しお"])).unwrap();
    assert_eq!(card.expression, "塩");
    assert_eq!(card.definition, "WARNING: Not filtered by kanji. <br>\n<ol>\n <li>salt</li>\n</ol>");
    assert_eq!(card.reading, "しお");
    assert_eq!(card.sentence, "ここのソースは舐めてみるとちょっと塩っぱい");
    assert_eq!(card.url_list, vec![url_for_expression("塩", "しお")]);
    assert!(!excluded(&store, "塩"));
}

#[test]
fn generation_stops_at_quota() {
    let mut store = store_with_salt();
    let candidates = vec![
        Candidate {
            expression: "何".to_string(),
            definition_list: Vec::new(),
            is_specific_kanji: true,
            reading_list: Vec::new(),
        },
        Candidate {
            expression: "塩".to_string(),
            definition_list: vec![sense(&["salt"], &["n"])],
            is_specific_kanji: true,
            reading_list: strings(&["しお"]),
        },
        Candidate {
            expression: "塩".to_string(),
            definition_list: vec![sense(&["salt"], &["n"])],
            is_specific_kanji: true,
            reading_list: strings(&["しお"]),
        },
    ];
    let (cards, next) = create_flashcards_from_expression_list(&mut store, &candidates, 0, 1);
    assert_eq!(cards.len(), 1);
    assert_eq!(next, 2);
    assert_eq!(cards[0].definition, "<ol>\n <li>salt</li>\n</ol>");
    assert!(excluded(&store, "何"));
    let (rest, end) = create_flashcards_from_expression_list(&mut store, &candidates, next, 5);
    assert_eq!(rest.len(), 1);
    assert_eq!(end, 3);
    let (none, same) = create_flashcards_from_expression_list(&mut store, &candidates, 1, 0);
    assert!(none.is_empty());
    assert_eq!(same, 1);
}
