use std::collections::HashMap;
use vocabulist_rs::anki::{
    create_audio_fields, create_fields, expression_field, field_value, verify_fields, ConfigError,
};

fn field_map(definition: String, expression: String, reading: String, sentence: String) -> HashMap<String, String> {
    let mut field_map: HashMap<String, String> = HashMap::new();

    field_map.insert("Expression".to_string(), expression);
    field_map.insert("Reading".to_string(), reading);
    field_map.insert("Definition".to_string(), definition);
    field_map.insert("Sentence".to_string(), sentence);

    field_map
}

fn as_map(pairs: Vec<(String, String)>) -> HashMap<String, String> {
    pairs.into_iter().collect()
}

fn standard_fields() -> Vec<Vec<String>> {
    vec![
        vec!["Expression".to_string(), "Reading".to_string(), "Definition".to_string(), "Sentence".to_string()],
        vec!["expression".to_string(), "reading".to_string(), "definition".to_string(), "sentence".to_string()],
    ]
}

#[test]
fn create_fields_all_information() {
    let field_list = standard_fields();

    let expression = "塩".to_string();
    let reading = "しお".to_string();
    let definition = "salt (i.e. sodium chloride); common salt; table salt".to_string();
    let sentence = "ここのソースは舐めてみるとちょっと塩っぱい".to_string();

    let fields = field_map(definition.clone(), expression.clone(), reading.clone(), sentence.clone());

    assert_eq!(as_map(create_fields(&field_list, &definition, &expression, &reading, &sentence)), fields);
}

#[test]
fn create_fields_no_reading() {
    let field_list = standard_fields();

    let expression = "塩".to_string();
    let reading = "".to_string();
    let definition = "salt (i.e. sodium chloride); common salt; table salt".to_string();
    let sentence = "ここのソースは舐めてみるとちょっと塩っぱい".to_string();

    let fields = field_map(definition.clone(), expression.clone(), expression.clone(), sentence.clone());

    assert_eq!(as_map(create_fields(&field_list, &definition, &expression, &reading, &sentence)), fields);
}

#[test]
#[should_panic]
fn create_fields_should_panic() {
    let field_list = standard_fields();

    let expression = "塩".to_string();
    let reading = "しお".to_string();
    let definition = "salt (i.e. sodium chloride); common salt; table salt".to_string();
    let sentence = "ここのソースは舐めてみるとちょっと塩っぱい".to_string();

    let fields = field_map(definition.clone(), expression.clone(), reading.clone(), sentence.clone());

    assert_eq!(as_map(create_fields(&field_list, "", "", "", "")), fields);
}

#[test]
fn roles_are_matched_in_any_case() {
    let field_list = vec![
        vec!["Front".to_string(), "Sound".to_string(), "Back".to_string(), "Other".to_string()],
        vec!["EXPRESSION".to_string(), "Audio".to_string(), "Definition".to_string(), "notes".to_string()],
    ];
    let pairs = create_fields(&field_list, "def", "exp", "rd", "sen");
    assert_eq!(
        pairs,
        vec![
            ("Front".to_string(), "exp".to_string()),
            ("Sound".to_string(), "".to_string()),
            ("Back".to_string(), "def".to_string()),
            ("Other".to_string(), "".to_string()),
        ]
    );
    assert_eq!(create_audio_fields(&field_list), vec!["Sound".to_string()]);
    assert_eq!(expression_field(&field_list), "Front");
}

#[test]
fn field_values_by_role() {
    assert_eq!(field_value("reading", "d", "e", "", "s"), "e");
    assert_eq!(field_value("reading", "d", "e", "r", "s"), "r");
    assert_eq!(field_value("sentence", "d", "e", "r", "s"), "s");
    assert_eq!(field_value("audio", "d", "e", "r", "s"), "");
}

#[test]
fn field_configuration_is_checked() {
    assert_eq!(verify_fields(&standard_fields()), Ok(()));
    assert_eq!(verify_fields(&vec![vec!["Front".to_string()]]), Err(ConfigError::MissingFieldList));
    assert_eq!(
        verify_fields(&vec![vec!["Front".to_string()], vec![]]),
        Err(ConfigError::FieldCountMismatch)
    );
    let no_expression = vec![vec!["Back".to_string()], vec!["definition".to_string()]];
    assert_eq!(expression_field(&no_expression), "");
}
