use vocabulist_rs::progress::Progress;
use vocabulist_rs::tokenizer::{concat_token_lists, Token, Tokenize, Tokenizer, TokenizerError};

/// mock struct that implements Tokenize
struct Backend;

/// implement Tokenize for the Backend struct
impl Tokenize for Backend {
    /// implement tokenize for the Backend struct
    fn tokenize(&self, sentence: &str) -> Result<Vec<Token>, TokenizerError> {
        let mut token_list: Vec<Token> = Vec::new();
        match sentence {
            "魅力がたっぷりと詰まっている" => {
                token_list.push(
                    Token::new("魅力".to_string())
                        .pos(vec!["名詞".to_string()])
                        .sentence(vec!["魅力がたっぷりと詰まっている".to_string()])
                        .surface_string(vec!["魅力".to_string()]),
                );
                token_list.push(
                    Token::new("が".to_string())
                        .pos(vec!["助詞".to_string()])
                        .sentence(vec!["魅力がたっぷりと詰まっている".to_string()])
                        .surface_string(vec!["が".to_string()]),
                );
                token_list.push(
                    Token::new("たっぷりだ".to_string())
                        .pos(vec!["形容詞".to_string()])
                        .sentence(vec!["魅力がたっぷりと詰まっている".to_string()])
                        .surface_string(vec!["たっぷり".to_string()]),
                );
                token_list.push(
                    Token::new("と".to_string())
                        .pos(vec!["助詞".to_string()])
                        .sentence(vec!["魅力がたっぷりと詰まっている".to_string()])
                        .surface_string(vec!["と".to_string()]),
                );
                token_list.push(
                    Token::new("詰まる".to_string())
                        .pos(vec!["動詞".to_string()])
                        .sentence(vec!["魅力がたっぷりと詰まっている".to_string()])
                        .surface_string(vec!["詰まって".to_string()]),
                );
                token_list.push(
                    Token::new("いる".to_string())
                        .pos(vec!["接尾辞".to_string()])
                        .sentence(vec!["魅力がたっぷりと詰まっている".to_string()])
                        .surface_string(vec!["いる".to_string()]),
                );

                Ok(token_list)
            }
            "はるさんハウスはどこですか" => {
                token_list.push(
                    Token::new("はる".to_string())
                        .pos(vec!["名詞".to_string()])
                        .sentence(vec!["はるさんハウスはどこですか".to_string()])
                        .surface_string(vec!["はる".to_string()]),
                );
                token_list.push(
                    Token::new("さん".to_string())
                        .pos(vec!["接尾辞".to_string()])
                        .sentence(vec!["はるさんハウスはどこですか".to_string()])
                        .surface_string(vec!["さん".to_string()]),
                );
                token_list.push(
                    Token::new("ハウス".to_string())
                        .pos(vec!["名詞".to_string()])
                        .sentence(vec!["はるさんハウスはどこですか".to_string()])
                        .surface_string(vec!["ハウス".to_string()]),
                );
                token_list.push(
                    Token::new("は".to_string())
                        .pos(vec!["助詞".to_string()])
                        .sentence(vec!["はるさんハウスはどこですか".to_string()])
                        .surface_string(vec!["は".to_string()]),
                );
                token_list.push(
                    Token::new("どこ".to_string())
                        .pos(vec!["指示詞".to_string()])
                        .sentence(vec!["はるさんハウスはどこですか".to_string()])
                        .surface_string(vec!["どこ".to_string()]),
                );
                token_list.push(
                    Token::new("だ".to_string())
                        .pos(vec!["判定詞".to_string()])
                        .sentence(vec!["はるさんハウスはどこですか".to_string()])
                        .surface_string(vec!["です".to_string()]),
                );
                token_list.push(
                    Token::new("か".to_string())
                        .pos(vec!["助詞".to_string()])
                        .sentence(vec!["はるさんハウスはどこですか".to_string()])
                        .surface_string(vec!["か".to_string()]),
                );

                Ok(token_list)
            }
            _ => Ok(token_list),
        }
    }
}

/// return a list of tokens to compare to the result of tokenze
fn expected_token_list() -> Vec<Token> {
    let mut expected_token_list: Vec<Token> = Vec::new();
    expected_token_list.push(
        Token::new("魅力".to_string())
            .pos(vec!["名詞".to_string()])
            .sentence(vec!["魅力がたっぷりと詰まっている".to_string()])
            .surface_string(vec!["魅力".to_string()]),
    );
    expected_token_list.push(
        Token::new("が".to_string())
            .pos(vec!["助詞".to_string()])
            .sentence(vec!["魅力がたっぷりと詰まっている".to_string()])
            .surface_string(vec!["が".to_string()]),
    );
    expected_token_list.push(
        Token::new("たっぷりだ".to_string())
            .pos(vec!["形容詞".to_string()])
            .sentence(vec!["魅力がたっぷりと詰まっている".to_string()])
            .surface_string(vec!["たっぷり".to_string()]),
    );
    expected_token_list.push(
        Token::new("と".to_string())
            .pos(vec!["助詞".to_string()])
            .sentence(vec!["魅力がたっぷりと詰まっている".to_string()])
            .surface_string(vec!["と".to_string()]),
    );
    expected_token_list.push(
        Token::new("詰まる".to_string())
            .pos(vec!["動詞".to_string()])
            .sentence(vec!["魅力がたっぷりと詰まっている".to_string()])
            .surface_string(vec!["詰まって".to_string()]),
    );
    expected_token_list.push(
        Token::new("いる".to_string())
            .pos(vec!["接尾辞".to_string()])
            .sentence(vec!["魅力がたっぷりと詰まっている".to_string()])
            .surface_string(vec!["いる".to_string()]),
    );
    expected_token_list.push(
        Token::new("はる".to_string())
            .pos(vec!["名詞".to_string()])
            .sentence(vec!["はるさんハウスはどこですか".to_string()])
            .surface_string(vec!["はる".to_string()]),
    );
    expected_token_list.push(
        Token::new("さん".to_string())
            .pos(vec!["接尾辞".to_string()])
            .sentence(vec!["はるさんハウスはどこですか".to_string()])
            .surface_string(vec!["さん".to_string()]),
    );
    expected_token_list.push(
        Token::new("ハウス".to_string())
            .pos(vec!["名詞".to_string()])
            .sentence(vec!["はるさんハウスはどこですか".to_string()])
            .surface_string(vec!["ハウス".to_string()]),
    );
    expected_token_list.push(
        Token::new("は".to_string())
            .pos(vec!["助詞".to_string()])
            .sentence(vec!["はるさんハウスはどこですか".to_string()])
            .surface_string(vec!["は".to_string()]),
    );
    expected_token_list.push(
        Token::new("どこ".to_string())
            .pos(vec!["指示詞".to_string()])
            .sentence(vec!["はるさんハウスはどこですか".to_string()])
            .surface_string(vec!["どこ".to_string()]),
    );
    expected_token_list.push(
        Token::new("だ".to_string())
            .pos(vec!["判定詞".to_string()])
            .sentence(vec!["はるさんハウスはどこですか".to_string()])
            .surface_string(vec!["です".to_string()]),
    );
    expected_token_list.push(
        Token::new("か".to_string())
            .pos(vec!["助詞".to_string()])
            .sentence(vec!["はるさんハウスはどこですか".to_string()])
            .surface_string(vec!["か".to_string()]),
    );

    expected_token_list
}

/// assert that Tokenizer.tokenize returns the correct output
#[test]
fn mod_test_tokenize() {
    let sentence_list = vec![
        "魅力がたっぷりと詰まっている".to_string(),
        "はるさんハウスはどこですか".to_string(),
    ];

    let expected_token_list = expected_token_list();

    let backend = Backend;
    let tokenizer = Tokenizer::new(backend);

    let mut called = 0;
    let mut callback = Progress::new(|| called += 1);

    let token_list = tokenizer
        .tokenize(&sentence_list, &mut callback)
        .expect("Failed to unwrap token_list");

    assert_eq!(token_list, expected_token_list);
    assert_eq!(called, 2);
}

struct Failing;

impl Tokenize for Failing {
    fn tokenize(&self, _sentence: &str) -> Result<Vec<Token>, TokenizerError> {
        Err(TokenizerError::Backend)
    }
}

#[test]
fn tokenize_empty_sentence_list() {
    let tokenizer = Tokenizer::new(Backend);
    let mut called = 0;
    let mut callback = Progress::new(|| called += 1);
    let token_list = tokenizer.tokenize(&Vec::new(), &mut callback).expect("empty input");
    assert!(token_list.is_empty());
    assert_eq!(called, 0);
}

#[test]
fn tokenize_callback_runs_for_sentence_without_tokens() {
    let tokenizer = Tokenizer::new(Backend);
    let mut called = 0;
    let mut callback = Progress::new(|| called += 1);
    let token_list = tokenizer
        .tokenize(&vec!["unknown".to_string(), "another".to_string()], &mut callback)
        .expect("no error");
    assert!(token_list.is_empty());
    assert_eq!(called, 2);
}

#[test]
fn tokenize_stops_at_backend_error() {
    let tokenizer = Tokenizer::new(Failing);
    let mut called = 0;
    let mut callback = Progress::new(|| called += 1);
    let result = tokenizer.tokenize(&vec!["名前は何ですか".to_string()], &mut callback);
    assert_eq!(result.unwrap_err(), TokenizerError::Backend);
    assert_eq!(called, 0);
}

#[test]
fn sentences_become_expressions() {
    let sentence_list = vec!["はるさんハウスはどこですか".to_string()];
    let mut called = 0;
    let mut callback = Progress::new(|| called += 1);
    let expression_list = vocabulist_rs::ingest::tokenize_sentence_list(&Backend, &sentence_list, &mut callback)
        .expect("no error");
    assert_eq!(called, 1);
    assert_eq!(expression_list.len(), 7);
    assert_eq!(expression_list[5].get_expression(), "だ");
    assert_eq!(expression_list[5].get_surface_string(), &vec!["です".to_string()]);
    assert_eq!(expression_list[5].get_pos(), &vec!["判定詞".to_string()]);
}

#[test]
fn token_lists_are_concatenated_in_order() {
    let a = Token::new("a".to_string());
    let b = Token::new("b".to_string());
    let c = Token::new("c".to_string());
    let lists = vec![vec![a.copy(), b.copy()], vec![], vec![c.copy()]];
    assert_eq!(concat_token_lists(&lists), vec![a, b, c]);
    assert!(concat_token_lists(&Vec::new()).is_empty());
}

struct FailsSecond;

impl Tokenize for FailsSecond {
    fn tokenize(&self, sentence: &str) -> Result<Vec<Token>, TokenizerError> {
        if sentence == "second" {
            Err(TokenizerError::Output)
        } else {
            Ok(vec![Token::new(sentence.to_string())])
        }
    }
}

#[test]
fn tokenize_reports_sentences_before_an_error() {
    let tokenizer = Tokenizer::new(FailsSecond);
    let mut called = 0;
    let mut callback = Progress::new(|| called += 1);
    let result = tokenizer.tokenize(
        &vec!["first".to_string(), "second".to_string(), "third".to_string()],
        &mut callback,
    );
    assert_eq!(result.unwrap_err(), TokenizerError::Output);
    assert_eq!(called, 1);
}
