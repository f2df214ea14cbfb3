use vocabulist_rs::select_builder::{decimal_string, SelectBuilder};

#[test]
fn test_query() {
    let expected_query = "SELECT expression, pos, sentence, surface_string FROM expressions \
        JOIN expressions_pos_sentences_surface_strings ON expression_id = expressions.id \
        JOIN pos ON pos.id = pos_id \
        JOIN sentences ON sentences.id = sentence_id \
        JOIN surface_strings ON surface_strings.id = surface_string_id;";

    let select = SelectBuilder::new();
    let query = select.query();

    assert_eq!(query, expected_query);
}

#[test]
fn test_limit() {
    let limit_zero = "SELECT expression, pos, sentence, surface_string FROM expressions \
        JOIN expressions_pos_sentences_surface_strings ON expression_id = expressions.id \
        JOIN pos ON pos.id = pos_id \
        JOIN sentences ON sentences.id = sentence_id \
        JOIN surface_strings ON surface_strings.id = surface_string_id;";

    let limit_ten = "SELECT expression, pos, sentence, surface_string FROM expressions \
        JOIN expressions_pos_sentences_surface_strings ON expression_id = expressions.id \
        JOIN pos ON pos.id = pos_id \
        JOIN sentences ON sentences.id = sentence_id \
        JOIN surface_strings ON surface_strings.id = surface_string_id \
        LIMIT 10;";

    let limit_hundred = "SELECT expression, pos, sentence, surface_string FROM expressions \
        JOIN expressions_pos_sentences_surface_strings ON expression_id = expressions.id \
        JOIN pos ON pos.id = pos_id \
        JOIN sentences ON sentences.id = sentence_id \
        JOIN surface_strings ON surface_strings.id = surface_string_id \
        LIMIT 100;";

    assert_eq!(SelectBuilder::new().query(), limit_zero);
    assert_eq!(SelectBuilder::new().limit(0).query(), limit_zero);

    assert_eq!(SelectBuilder::new().limit(10).query(), limit_ten);

    assert_eq!(SelectBuilder::new().limit(100).query(), limit_hundred);
}

#[test]
fn decimal_text_of_numbers() {
    assert_eq!(decimal_string(0), "0");
    assert_eq!(decimal_string(7), "7");
    assert_eq!(decimal_string(4096), "4096");
    assert_eq!(decimal_string(u32::MAX), "4294967295");
}
