use vocabulist_rs::expression::Expression;
use vocabulist_rs::ingest::{
    deduplicate_expression_list, filter_imported_expression_list, import_token_list, insert_expression_list,
    token_list_to_expression_list, tokens_complete,
};
use vocabulist_rs::progress::Progress;
use vocabulist_rs::store::{ExpressionRow, Occurrence, PosRow, Store, StoreError};
use vocabulist_rs::term::Term;
use vocabulist_rs::tokenizer::Token;

fn strings(list: &[&str]) -> Vec<String> {
    list.iter().map(|x| x.to_string()).collect()
}

fn expression_texts(store: &Store) -> Vec<String> {
    store.expression_rows().iter().map(|r| r.expression.clone()).collect()
}

fn frequency_of(store: &Store, text: &str) -> u64 {
    store.expression_rows().iter().find(|r| r.expression == text).map(|r| r.frequency).unwrap_or(0)
}

fn is_excluded(store: &Store, text: &str) -> bool {
    store.expression_rows().iter().find(|r| r.expression == text).map(|r| r.is_excluded).unwrap()
}

fn term(expression: &str, pos: &str, sentence: &str, surface: &str) -> Term {
    Term::new(expression.to_string(), pos.to_string(), sentence.to_string(), surface.to_string())
}

fn token(expression: &str, pos: &str, sentence: &str, surface: &str) -> Token {
    Token::new(expression.to_string())
        .pos(vec![pos.to_string()])
        .sentence(vec![sentence.to_string()])
        .surface_string(vec![surface.to_string()])
}

fn select_fixture() -> Store {
    let mut store = Store::new();
    let term_list = vec![
        term("名前", "名詞", "名前は何ですか", "名前"),
        term("は", "助詞", "名前は何ですか", "は"),
        term("は", "助詞", "『しんのすけ』という名前はからかいの対象ですか", "は"),
        term("何", "名詞", "今のアナウンスは何だったのですか。", "何"),
        term("何", "名詞", "名前は何ですか", "何"),
        term("何", "名詞", "何時ですか", "何"),
    ];
    for term in term_list.iter() {
        store.insert_term(term);
    }
    store
}

fn sentence_fixture() -> Store {
    let mut store = Store::new();
    let sentence_list = strings(&[
        "プロ野球は今、客を５０００人まで入れて試合をしています。",
        "８月からはイベントの客の数を増やしてもいいと国が言っていたため、会場の半分まで客を増やす予定でした。",
    ]);
    for sentence in sentence_list.iter() {
        store.insert_sentence(sentence);
    }
    store
}

fn name_sentence_tokens() -> Vec<Token> {
    let sentence = "名前は何ですか";
    vec![
        token("名前", "名詞", sentence, "名前"),
        token("は", "助詞", sentence, "は"),
        token("何", "名詞", sentence, "何"),
        token("です", "助動詞", sentence, "です"),
        token("か", "助詞", sentence, "か"),
    ]
}

#[test]
fn test_insert_expression() {
    let mut store = Store::new();
    let expression_list = strings(&[
        "プロ", "プロ", "野球", "は", "今", "客", "を", "人", "まで", "入れ", "て", "試合", "を", "し", "て", "い", "ます",
    ]);
    // terms with frequency 2
    let frequency_list = strings(&["プロ", "て", "を"]);

    let mut tmp_list = expression_list.clone();
    tmp_list.sort();
    tmp_list.dedup();
    let num_rows = tmp_list.len();

    for expression in expression_list.iter() {
        store.insert_expression(expression);
    }

    let result_list = expression_texts(&store);
    let frequency_result_list: Vec<String> = store
        .expression_rows()
        .iter()
        .filter(|r| r.frequency > 1)
        .map(|r| r.expression.clone())
        .collect();

    assert_eq!(result_list.len(), num_rows);
    for result in result_list.iter() {
        assert!(expression_list.contains(result));
    }
    for result in frequency_result_list.iter() {
        assert!(frequency_list.contains(result));
    }
}

#[test]
fn test_insert_sentence() {
    let mut store = Store::new();
    let sentence_list = strings(&[
        "プロ野球は今、客を５０００人まで入れて試合をしています。",
        "プロ野球は今、客を５０００人まで入れて試合をしています。",
        "８月からはイベントの客の数を増やしてもいいと国が言っていたため、会場の半分まで客を増やす予定でした。",
    ]);
    let mut sorted_list = sentence_list.clone();
    sorted_list.sort();
    sorted_list.dedup();

    for sentence in sentence_list.iter() {
        store.insert_sentence(sentence);
    }

    let mut result_list = store.sentence_rows().clone();
    result_list.sort();

    assert_eq!(result_list, sorted_list);
    assert_ne!(result_list, sentence_list);
}

#[test]
fn test_insert_pos() {
    let mut store = Store::new();
    let pos_list = strings(&["名詞", "名詞", "助詞", "名詞", "記号", "名詞", "助詞", "名詞", "名詞", "名詞", "名詞", "名詞"]);
    let mut sorted_list = pos_list.clone();
    sorted_list.sort();
    sorted_list.dedup();

    for pos in pos_list.iter() {
        store.insert_pos(pos);
    }

    let mut result_list: Vec<String> = store.pos_rows().iter().map(|r| r.pos.clone()).collect();
    result_list.sort();

    assert_eq!(sorted_list, sorted_list);
    assert_eq!(result_list, sorted_list);
}

#[test]
fn test_insert_surface_string() {
    let mut store = Store::new();
    let surface_string_list = strings(&[
        "プロ", "プロ", "野球", "は", "今", "客", "を", "人", "まで", "入れ", "て", "試合", "を", "し", "て", "い", "ます",
    ]);
    let mut sorted_list = surface_string_list.clone();
    sorted_list.sort();
    sorted_list.dedup();

    for surface_string in surface_string_list.iter() {
        store.insert_surface_string(surface_string);
    }

    let mut result_list = store.surface_string_rows().clone();
    result_list.sort();

    assert_eq!(result_list, sorted_list);
    assert_ne!(result_list, surface_string_list);
}

#[test]
fn test_insert_term() {
    let mut store = Store::new();
    let expected_num_expressions = 3;
    let expected_num_pos = 2;
    let expected_num_sentences = 1;
    let expected_num_surface_strings = 3;

    let term_list = vec![
        term("名前", "名詞", "名前は何ですか", "名前"),
        term("は", "助詞", "名前は何ですか", "は"),
        term("何", "名詞", "名前は何ですか", "何"),
        term("何", "名詞", "名前は何ですか", "何"),
    ];

    for term in term_list.iter() {
        store.insert_term(term);
    }

    let mut result_list: Vec<(String, Vec<String>)> = Vec::new();
    for term in term_list.iter() {
        let expression_list: Vec<String> =
            expression_texts(&store).into_iter().filter(|e| e == term.expression()).collect();
        result_list.push((term.expression().to_string(), expression_list));
        result_list.push((term.pos().to_string(), store.select_pos_for_expression(term.expression())));
        result_list.push((term.sentence().to_string(), store.select_sentence_for_expression(term.expression())));
        let surface_string_list: Vec<String> = store
            .occurrence_rows()
            .iter()
            .filter(|o| store.expression_rows()[o.expression_id].expression == term.expression())
            .map(|o| store.surface_string_rows()[o.surface_string_id].clone())
            .collect();
        result_list.push((term.surface_string().to_string(), surface_string_list));
    }

    assert_eq!(store.expression_rows().len(), expected_num_expressions, "unexpected number of expressions in database");
    assert_eq!(store.pos_rows().len(), expected_num_pos, "unexpected number of pos in database");
    assert_eq!(store.sentence_rows().len(), expected_num_sentences, "unexpected number of sentences in database");
    assert_eq!(
        store.surface_string_rows().len(),
        expected_num_surface_strings,
        "unexpected nuber of surface strings in database"
    );
    for result in result_list.iter() {
        assert!(result.1.contains(&result.0), "join table is broken");
    }
}

#[test]
fn test_select_sentence_list() {
    let store = sentence_fixture();
    let does_exist = store.select_sentence_exists("プロ野球は今、客を５０００人まで入れて試合をしています。");
    let does_not_exist = store.select_sentence_exists("Hello World");
    assert!(does_exist == true, "sentence does not exist when it should");
    assert!(does_not_exist == false, "sentence exists when it should not");
}

#[test]
fn test_select_sentence_exists() {
    let store = sentence_fixture();
    let sentence = "プロ野球は今、客を５０００人まで入れて試合をしています。";
    let does_exist = store.select_sentence_exists(sentence);
    let does_not_exist = store.select_sentence_exists("Hello World");
    assert!(does_exist == true, "sentence does not exist when it should");
    assert!(does_not_exist == false, "sentence exists when it should not");
}

#[test]
fn mod_test_select_expression() {
    let mut store = Store::new();
    let mut term_list = vec![
        term("名前", "名詞", "名前は何ですか", "名前"),
        term("は", "助詞", "名前は何ですか", "は"),
        term("は", "助詞", "『しんのすけ』という名前はからかいの対象ですか", "は"),
        term("何", "名詞", "今のアナウンスは何だったのですか。", "何"),
        term("何", "名詞", "名前は何ですか", "何"),
        term("何", "名詞", "何時ですか", "何"),
    ];
    term_list.sort();
    let expected_term = vec!["何".to_string()];
    let expected_list = vec!["何".to_string(), "は".to_string(), "名前".to_string()];

    for term in term_list.iter() {
        store.insert_term(term);
    }
    let term_count = store.expression_rows().len();

    let result_list = store.select_expression(0);
    let result_one = store.select_expression(1);

    assert_eq!(term_count, 3);
    assert_eq!(result_list, expected_list);
    assert_eq!(result_one, expected_term);
}

#[test]
fn mod_test_select_expression_excluded() {
    let mut store = select_fixture();
    let expected_all = vec!["何".to_string(), "は".to_string()];
    let expected_one = vec!["何".to_string()];
    let excluded_list = vec![Expression::new("何".to_string()), Expression::new("は".to_string())];
    store.update_is_excluded_for_expression_list(&excluded_list, true, &mut Progress::new(|| {}));

    let result_all = store.select_expression_excluded(0);
    let result_one = store.select_expression_excluded(1);

    assert_eq!(result_all, expected_all);
    assert_eq!(result_one, expected_one);
}

#[test]
fn select_test_select_expression() {
    let store = select_fixture();
    let expected_term = vec!["何".to_string()];
    let expected_list = vec!["何".to_string(), "は".to_string(), "名前".to_string()];
    let term_count = store.expression_rows().len();

    let result_list = store.select_expression(0);
    let result_one = store.select_expression(1);

    assert_eq!(term_count, 3);
    assert_eq!(result_list, expected_list);
    assert_eq!(result_one, expected_term);
}

#[test]
fn select_test_select_expression_excluded() {
    let mut store = select_fixture();
    let expected_all = vec!["何".to_string(), "は".to_string()];
    let expected_one = vec!["何".to_string()];
    let excluded_list = vec![Expression::new("何".to_string()), Expression::new("は".to_string())];
    store.update_is_excluded_for_expression_list(&excluded_list, true, &mut Progress::new(|| {}));

    let result_all = store.select_expression_excluded(0);
    let result_one = store.select_expression_excluded(1);

    assert_eq!(result_all, expected_all);
    assert_eq!(result_one, expected_one);
}

#[test]
fn test_select_expression_in_anki() {
    let mut store = select_fixture();
    let expected_all = vec!["何".to_string(), "は".to_string()];
    let expected_one = vec!["何".to_string()];
    for expression in ["何", "は"].iter() {
        store.update_in_anki_for_expression(true, expression);
    }

    let result_all = store.select_expression_in_anki(0);
    let result_one = store.select_expression_in_anki(1);

    assert_eq!(result_all, expected_all);
    assert_eq!(result_one, expected_one);
}

#[test]
fn reimporting_a_sentence_changes_nothing() {
    let mut store = Store::new();
    import_token_list(&mut store, name_sentence_tokens()).unwrap();
    let first: Vec<(String, u64)> = store.expression_rows().iter().map(|r| (r.expression.clone(), r.frequency)).collect();
    let occurrences = store.occurrence_rows().clone();

    import_token_list(&mut store, name_sentence_tokens()).unwrap();
    let second: Vec<(String, u64)> = store.expression_rows().iter().map(|r| (r.expression.clone(), r.frequency)).collect();

    assert_eq!(first, second);
    assert_eq!(&occurrences, store.occurrence_rows());
    assert_eq!(store.expression_rows().len(), 5);
    for row in store.expression_rows().iter() {
        assert_eq!(row.frequency, 1);
    }
    assert_eq!(store.sentence_rows().len(), 1);
    assert_eq!(store.surface_string_rows().len(), 5);
    assert_eq!(store.pos_rows().len(), 3);
}

#[test]
fn frequencies_grow_over_batches() {
    let mut store = Store::new();
    import_token_list(&mut store, vec![token("何", "名詞", "何時ですか", "何")]).unwrap();
    let before = frequency_of(&store, "何");
    import_token_list(
        &mut store,
        vec![token("何", "名詞", "名前は何ですか", "何"), token("何", "名詞", "名前は何ですか", "何")],
    )
    .unwrap();
    let after = frequency_of(&store, "何");
    assert_eq!(before, 1);
    assert_eq!(after, 3);
    assert_eq!(store.occurrence_rows().len(), 2);
}

#[test]
fn join_rows_name_existing_rows() {
    let mut store = select_fixture();
    import_token_list(&mut store, name_sentence_tokens()).unwrap();
    for o in store.occurrence_rows().iter() {
        assert!(o.expression_id < store.expression_rows().len());
        assert!(o.pos_id < store.pos_rows().len());
        assert!(o.sentence_id < store.sentence_rows().len());
        assert!(o.surface_string_id < store.surface_string_rows().len());
    }
}

#[test]
fn excluding_a_tag_cascades_to_expressions() {
    let mut store = Store::new();
    store.insert_term(&term("走る", "動詞", "走る人", "走る"));
    store.insert_term(&term("人", "名詞", "走る人", "人"));
    store.insert_term(&term("一", "名詞", "一人", "一"));
    store.insert_term(&term("一", "数詞", "一つ", "一"));
    store.update_is_excluded_for_pos_list(&strings(&["名詞"]), true, &mut Progress::new(|| {}));
    assert!(is_excluded(&store, "人"));
    assert!(!is_excluded(&store, "走る"));
    // 一 was also seen under 数詞, which stays included
    assert!(!is_excluded(&store, "一"));
    assert!(store.pos_rows().iter().find(|p| p.pos == "名詞").unwrap().is_excluded);
    assert!(!store.pos_rows().iter().find(|p| p.pos == "動詞").unwrap().is_excluded);
    assert_eq!(store.select_pos_list(false, true, -1), strings(&["動詞", "数詞"]));
    assert_eq!(store.select_pos_list(true, true, -1), strings(&["動詞", "名詞", "数詞"]));
    assert_eq!(store.select_pos_list(true, false, 2), strings(&["数詞", "名詞"]));

    store.update_is_excluded_for_pos_list(&strings(&["名詞"]), false, &mut Progress::new(|| {}));
    assert!(!is_excluded(&store, "人"));
}

#[test]
fn default_listing_orders_by_frequency() {
    let mut store = Store::new();
    for _ in 0..3 {
        store.insert_expression(&"low".to_string());
    }
    for _ in 0..5 {
        store.insert_expression(&"high".to_string());
    }
    let list = store.select_expression_list(false, false, false, "frequency", false, -1);
    let texts: Vec<&str> = list.iter().map(|e| e.get_expression()).collect();
    assert_eq!(texts, vec!["high", "low"]);
}

#[test]
fn listing_orders_filters_and_limits() {
    let mut store = select_fixture();
    let by_text: Vec<String> = store
        .select_expression_list(false, false, false, "expression", true, -1)
        .iter()
        .map(|e| e.get_expression().to_string())
        .collect();
    assert_eq!(by_text, strings(&["は", "何", "名前"]));
    let by_id: Vec<String> = store
        .select_expression_list(false, false, false, "id", true, 2)
        .iter()
        .map(|e| e.get_expression().to_string())
        .collect();
    assert_eq!(by_id, strings(&["名前", "は"]));
    let asc: Vec<String> = store
        .select_expression_list(false, false, false, "frequency", true, 0)
        .iter()
        .map(|e| e.get_expression().to_string())
        .collect();
    assert!(asc.is_empty());

    store.update_is_excluded_for_expression_list(&vec![Expression::new("何".to_string())], true, &mut Progress::new(|| {}));
    store.update_in_anki_for_expression(true, "は");
    let visible: Vec<String> = store
        .select_expression_list(false, false, false, "frequency", false, -1)
        .iter()
        .map(|e| e.get_expression().to_string())
        .collect();
    assert_eq!(visible, strings(&["名前"]));
    let with_excluded: Vec<String> = store
        .select_expression_list(false, true, false, "frequency", false, -1)
        .iter()
        .map(|e| e.get_expression().to_string())
        .collect();
    assert_eq!(with_excluded, strings(&["何", "名前"]));

    store.reset_in_anki();
    assert!(store.select_expression_in_anki(0).is_empty());
}

#[test]
fn sentence_level_deduplication() {
    let store = select_fixture();
    let expression_list = token_list_to_expression_list(vec![
        token("名前", "名詞", "名前は何ですか", "名前"),
        token("新しい", "形容詞", "新しい文", "新しい"),
    ]);
    assert_eq!(expression_list[1].get_pos(), &strings(&["形容詞"]));
    let sentence_list = strings(&["名前は何ですか", "新しい文"]);
    assert_eq!(store.select_imported_sentence_list(&sentence_list), strings(&["名前は何ですか"]));
    let kept = deduplicate_expression_list(&store, &sentence_list, expression_list);
    assert_eq!(kept.len(), 1);
    assert_eq!(kept[0].get_expression(), "新しい");

    let again = filter_imported_expression_list(
        &strings(&["新しい文"]),
        token_list_to_expression_list(vec![token("新しい", "形容詞", "新しい文", "新しい")]),
    );
    assert!(again.is_empty());
}

#[test]
fn inserting_expressions_stores_terms() {
    let mut store = Store::new();
    let expression_list = token_list_to_expression_list(name_sentence_tokens());
    insert_expression_list(&mut store, &expression_list).unwrap();
    assert_eq!(store.expression_rows().len(), 5);
    assert_eq!(store.select_pos_for_expression("か"), strings(&["助詞"]));
    assert_eq!(store.select_sentence_for_expression("何"), strings(&["名前は何ですか"]));
    assert!(tokens_complete(&name_sentence_tokens()));
    assert!(!tokens_complete(&vec![Token::new("x".to_string())]));
}

#[test]
fn headroom_tracks_frequencies() {
    let mut store = Store::new();
    assert!(store.has_headroom(10));
    assert!(!store.has_headroom(u64::MAX));
    let result = store.insert_term_list(&vec![term("a", "b", "c", "d")]);
    assert_eq!(result, Ok(()));
    assert!(store.has_headroom(u64::MAX - 1));
    store.insert_expression(&"a".to_string());
    assert!(!store.has_headroom(u64::MAX - 1));
    assert!(store.has_headroom(u64::MAX - 2));
    assert_eq!(store.import_term_list(vec![term("a", "b", "c", "d")]), Ok(()));
    assert_eq!(frequency_of(&store, "a"), 2);
}

#[test]
fn full_counter_refuses_the_batch() {
    let mut store = Store::new();
    assert!(store.restore_expression(ExpressionRow {
        expression: "何".to_string(),
        frequency: u64::MAX,
        is_excluded: false,
        is_learned: false,
        in_anki: false,
    }));
    let result = store.insert_term_list(&vec![term("名前", "名詞", "名前は何ですか", "名前")]);
    assert_eq!(result, Err(StoreError::FrequencyOverflow));
    assert_eq!(store.expression_rows().len(), 1);
    assert!(store.sentence_rows().is_empty());
    let result = import_token_list(&mut store, name_sentence_tokens());
    assert_eq!(result, Err(StoreError::FrequencyOverflow));
    assert!(store.occurrence_rows().is_empty());
}

#[test]
fn saved_rows_are_restored() {
    let mut store = Store::new();
    let row = ExpressionRow {
        expression: "名前".to_string(),
        frequency: 7,
        is_excluded: true,
        is_learned: true,
        in_anki: false,
    };
    assert!(store.restore_expression(row));
    assert!(!store.restore_expression(ExpressionRow {
        expression: "名前".to_string(),
        frequency: 1,
        is_excluded: false,
        is_learned: false,
        in_anki: false,
    }));
    assert!(store.restore_pos(PosRow { pos: "名詞".to_string(), is_excluded: true }));
    assert!(!store.restore_pos(PosRow { pos: "名詞".to_string(), is_excluded: false }));
    store.insert_sentence(&"名前は何ですか".to_string());
    store.insert_surface_string(&"名前".to_string());
    let o = Occurrence { expression_id: 0, pos_id: 0, sentence_id: 0, surface_string_id: 0 };
    assert!(store.restore_occurrence(o));
    assert!(!store.restore_occurrence(o));
    assert!(!store.restore_occurrence(Occurrence { expression_id: 1, pos_id: 0, sentence_id: 0, surface_string_id: 0 }));
    assert_eq!(frequency_of(&store, "名前"), 7);
    assert!(is_excluded(&store, "名前"));
    assert_eq!(store.select_pos_for_expression("名前"), strings(&["名詞"]));
}

#[test]
fn exclusion_reports_each_input() {
    let mut store = select_fixture();
    let mut called = 0;
    store.update_is_excluded_for_pos_list(&strings(&["名詞", "助詞", "記号"]), true, &mut Progress::new(|| called += 1));
    assert_eq!(called, 3);
    assert!(is_excluded(&store, "名前"));
    assert!(is_excluded(&store, "は"));
    let mut called = 0;
    let list = vec![Expression::new("名前".to_string()), Expression::new("無い".to_string())];
    store.update_is_excluded_for_expression_list(&list, false, &mut Progress::new(|| called += 1));
    assert_eq!(called, 2);
    assert!(!is_excluded(&store, "名前"));
    assert!(is_excluded(&store, "何"));
}

#[test]
fn flashcard_candidates_are_over_fetched() {
    let mut store = Store::new();
    for (text, n) in [("a", 5), ("b", 4), ("c", 3), ("d", 2), ("e", 1)].iter() {
        for _ in 0..*n {
            store.insert_expression(&text.to_string());
        }
    }
    store.update_in_anki_for_expression(true, "a");
    let list: Vec<String> = store.select_flashcard_candidates(1).iter().map(|e| e.get_expression().to_string()).collect();
    assert_eq!(list, strings(&["b", "c"]));
    assert_eq!(store.select_flashcard_candidates(-1).len(), 4);
    assert!(store.select_flashcard_candidates(0).is_empty());
}

#[test]
fn mixed_tag_expression_follows_the_last_included_tag() {
    let mut store = Store::new();
    store.insert_term(&term("一", "名詞", "一人", "一"));
    store.insert_term(&term("一", "数詞", "一つ", "一"));
    store.update_is_excluded_for_pos_list(&strings(&["名詞"]), true, &mut Progress::new(|| {}));
    assert!(!is_excluded(&store, "一"));
    store.update_is_excluded_for_pos_list(&strings(&["数詞"]), true, &mut Progress::new(|| {}));
    assert!(is_excluded(&store, "一"));
    store.update_is_excluded_for_pos_list(&strings(&["名詞"]), false, &mut Progress::new(|| {}));
    assert!(!is_excluded(&store, "一"));
}

#[test]
fn fresh_store_takes_its_first_import() {
    let mut store = Store::new();
    assert!(store.has_headroom(5));
    assert_eq!(import_token_list(&mut store, name_sentence_tokens()), Ok(()));
    assert_eq!(
        expression_texts(&store),
        strings(&["名前", "は", "何", "です", "か"])
    );
}
