use vocabulist_rs::config::{AnkiConnect, Config};

#[test]
fn test_dictionary_path() {
    let database_path = String::from("database");
    let dictionary_path = String::from("dictionary");
    let backend = String::from("mecab");

    let anki: AnkiConnect = Default::default();

    let config = Config::new(database_path, Some(dictionary_path.clone()), backend, anki);

    assert_eq!(config.dictionary_path(), dictionary_path);
}

#[test]
fn test_dictionary_path_default() {
    let database_path = String::from("database");
    let dictionary_path = format!("/usr/local/share/vocabulist/{}", "jmdict.db");
    let backend = String::from("mecab");

    let anki: AnkiConnect = Default::default();

    let config = Config::new(database_path, None, backend, anki);

    assert_eq!(config.dictionary_path(), dictionary_path);
}

#[test]
fn default_config_joins_database_into_directory() {
    let config = Config::default(String::from("/home/user/.vocabulist_rs"));
    assert_eq!(config.database_path(), "/home/user/.vocabulist_rs/vocabulist_rs.db");
    assert_eq!(config.backend(), "mecab");
    assert_eq!(config.anki().deck_name(), "Default");
    assert_eq!(config.anki().model_name(), "Basic");
    assert!(!config.anki().allow_duplicates());
    assert_eq!(config.anki().duplicate_scope(), "deck");
    assert!(!config.anki().audio());
    assert_eq!(
        config.anki().fields(),
        &vec![
            vec!["Front".to_string(), "Back".to_string()],
            vec!["expression".to_string(), "definition".to_string()]
        ]
    );
    assert_eq!(config.anki().tags(), &vec!["vocabulist".to_string()]);
    assert_eq!(config.dictionary_path(), "/usr/local/share/vocabulist/jmdict.db");
}

#[test]
fn homebrew_config_matches_default() {
    let config = Config::homebrew(String::from("conf"));
    assert_eq!(config.database_path(), "conf/vocabulist_rs.db");
    assert_eq!(config.backend(), "mecab");
}

#[test]
fn configured_dictionary_path_is_kept_apart_from_default() {
    let anki: AnkiConnect = Default::default();
    let config = Config::new("db".to_string(), None, "mecab".to_string(), anki);
    assert_eq!(config.configured_dictionary_path(), None);
    let anki: AnkiConnect = Default::default();
    let config = Config::new("db".to_string(), Some("jm.db".to_string()), "mecab".to_string(), anki);
    assert_eq!(config.configured_dictionary_path(), Some("jm.db".to_string()));
}
