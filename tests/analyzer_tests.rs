use vocabulist_rs::analyzer::{output_to_token_list, tokenize_output, Jumanpp, Mecab};
use vocabulist_rs::tokenizer::Token;

fn token(expression: &str, pos: &str, sentence: &str, surface: &str) -> Token {
    Token::new(expression.to_string())
        .pos(vec![pos.to_string()])
        .sentence(vec![sentence.to_string()])
        .surface_string(vec![surface.to_string()])
}

#[test]
fn mecab_output_is_parsed() {
    let sentence = "名前は何ですか";
    let output = "名前\t名詞,一般,*,*,*,*,名前,ナマエ,ナマエ\n\
                  は\t助詞,係助詞,*,*,*,*,は,ハ,ワ\n\
                  何\t名詞,代名詞,一般,*,*,*,何,ナニ,ナニ\n\
                  です\t助動詞,*,*,*,特殊・デス,基本形,です,デス,デス\n\
                  か\t助詞,副助詞／並立助詞／終助詞,*,*,*,*,か,カ,カ\n\
                  EOS\n";
    let expected = vec![
        token("名前", "名詞", sentence, "名前"),
        token("は", "助詞", sentence, "は"),
        token("何", "名詞", sentence, "何"),
        token("です", "助動詞", sentence, "です"),
        token("か", "助詞", sentence, "か"),
    ];
    assert_eq!(output_to_token_list(output.to_string(), sentence), expected);
}

#[test]
fn mecab_symbols_and_short_lines_are_skipped() {
    let sentence = "行く。";
    let output = "行く\t動詞,自立,*,*,五段・カ行促音便,基本形,行く,イク,イク\r\n。\t記号,句点,*,*,*,*,。,。,。\r\nbroken line\r\nEOS";
    let expected = vec![token("行く", "動詞", sentence, "行く")];
    assert_eq!(output_to_token_list(output.to_string(), sentence), expected);
}

#[test]
fn jumanpp_output_is_parsed() {
    let sentence = "魅力がたっぷりと詰まっている";
    let output = "魅力 みりょく 魅力 名詞 6 普通名詞 1 * 0 * 0 \"代表表記:魅力/みりょく\"\n\
                  が が が 助詞 9 格助詞 1 * 0 * 0 NIL\n\
                  @ が が が 助詞 9 格助詞 1 * 0 * 0 NIL\n\
                  詰まって つまって 詰まる 動詞 2 * 0 子音動詞ラ行 10 タ系連用テ形 14 NIL\n\
                  。 。 。 特殊 1 句点 1 * 0 * 0 NIL\n\
                  EOS\n";
    let expected = vec![
        token("魅力", "名詞", sentence, "魅力"),
        token("が", "助詞", sentence, "が"),
        token("詰まる", "動詞", sentence, "詰まって"),
    ];
    assert_eq!(tokenize_output(sentence, output), expected);
}

#[test]
fn jumanpp_malformed_lines_are_skipped() {
    assert_eq!(tokenize_output("x", "a b\n\nEOS"), Vec::new());
    assert_eq!(tokenize_output("x", ""), Vec::new());
}

#[test]
fn backends_keep_their_binary() {
    assert_eq!(Mecab::new("mecab".to_string()).path(), "mecab");
    assert_eq!(Jumanpp::new("/usr/bin/jumanpp".to_string()).path(), "/usr/bin/jumanpp");
}
