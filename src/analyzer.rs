use crate::text::strings_view;
use crate::tokenizer::{tokens_view, Token, TokenModel};
use regex::Regex;
use vstd::prelude::*;

verus! {

/// The pieces of `s` between separator characters; `n` separators give
/// `n + 1` pieces, empty ones included.
pub open spec fn split_on(s: Seq<char>, is_sep: spec_fn(char) -> bool) -> Seq<Seq<char>>
    decreases s.len(),
{
    if s.len() == 0 {
        seq![Seq::empty()]
    } else {
        let rest = split_on(s.drop_first(), is_sep);
        if is_sep(s[0]) {
            seq![Seq::<char>::empty()] + rest
        } else {
            rest.update(0, seq![s[0]] + rest[0])
        }
    }
}

/// The piece without a final carriage return.
pub open spec fn strip_cr(p: Seq<char>) -> Seq<char> {
    if p.len() > 0 && p.last() == '\r' {
        p.drop_last()
    } else {
        p
    }
}

/// The lines of `s`: split at "\n" or "\r\n", with no empty line for a final
/// line ending.
pub open spec fn lines_spec(s: Seq<char>) -> Seq<Seq<char>> {
    let pieces = split_on(s, |c: char| c == '\n');
    let body = Seq::new((pieces.len() - 1) as nat, |i: int| strip_cr(pieces[i]));
    if pieces.last().len() == 0 {
        body
    } else {
        body.push(pieces.last())
    }
}

pub open spec fn is_field_sep(c: char) -> bool {
    c == ',' || c == '\t'
}

/// Relies on str::lines: the lines of the text, split at "\n" or "\r\n",
/// without the line endings, and no empty line after a final line ending.
#[verifier::external_body]
fn text_lines(s: &str) -> (r: Vec<String>)
    ensures
        strings_view(r@) == lines_spec(s@),
{
    s.lines().map(String::from).collect()
}

/// Relies on str::split with a char pattern: the pieces between occurrences
/// of the character, empty pieces included.
#[verifier::external_body]
fn split_at_char(s: &str, sep: char) -> (r: Vec<String>)
    ensures
        strings_view(r@) == split_on(s@, |c: char| c == sep),
{
    s.split(sep).map(String::from).collect()
}

/// Relies on regex::Regex::new and Regex::split: the pattern "[,\t]" compiles,
/// and splitting yields the pieces between matches, empty pieces included.
#[verifier::external_body]
fn regex_split(pattern: &str, haystack: &str) -> (r: Vec<String>)
    requires
        pattern@ == "[,\t]"@,
    ensures
        strings_view(r@) == split_on(haystack@, |c: char| is_field_sep(c)),
{
    Regex::new(pattern).unwrap().split(haystack).map(String::from).collect()
}

pub open spec fn token_model(expression: Seq<char>, pos: Seq<char>, sentence: Seq<char>, surface: Seq<char>) -> TokenModel {
    TokenModel { token: expression, pos: seq![pos], sentence: seq![sentence], surface_string: seq![surface] }
}

/// The token of one line of MeCab output: ten fields split at commas and
/// tabs, surface form first, part of speech second, dictionary form eighth.
/// Lines of another shape, and symbols, give none.
pub open spec fn mecab_line(line: Seq<char>, sentence: Seq<char>) -> Option<TokenModel> {
    let f = split_on(line, |c: char| is_field_sep(c));
    if f.len() == 10 && f[1] != "記号"@ {
        Some(token_model(f[7], f[1], sentence, f[0]))
    } else {
        None
    }
}

/// The token of one line of Juman++ output: fields split at spaces, surface
/// form first, dictionary form third, part of speech fourth. The end marker,
/// alternative-reading lines ("@"), special characters and lines with fewer
/// than four fields give none.
pub open spec fn jumanpp_line(line: Seq<char>, sentence: Seq<char>) -> Option<TokenModel> {
    let f = split_on(line, |c: char| c == ' ');
    if f.len() >= 4 && f[0] != "EOS"@ && f[0] != "@"@ && f[3] != "特殊"@ {
        Some(token_model(f[2], f[3], sentence, f[0]))
    } else {
        None
    }
}

/// The tokens of the lines, in order, with `mecab` choosing the line format.
pub open spec fn parse_spec(lines: Seq<Seq<char>>, sentence: Seq<char>, mecab: bool) -> Seq<TokenModel>
    decreases lines.len(),
{
    if lines.len() == 0 {
        Seq::empty()
    } else {
        let prev = parse_spec(lines.drop_last(), sentence, mecab);
        let t = if mecab { mecab_line(lines.last(), sentence) } else { jumanpp_line(lines.last(), sentence) };
        match t {
            Some(t) => prev.push(t),
            None => prev,
        }
    }
}

fn single(s: &String) -> (r: Vec<String>)
    ensures
        strings_view(r@) == seq![s@],
{
    let mut r: Vec<String> = Vec::new();
    r.push(s.clone());
    assert(strings_view(r@) =~= seq![s@]);
    r
}

fn make_token(expression: &String, pos: &String, sentence: &String, surface: &String) -> (r: Token)
    ensures
        r@ == token_model(expression@, pos@, sentence@, surface@),
{
    Token::new(expression.clone()).pos(single(pos)).sentence(single(sentence)).surface_string(single(surface))
}

fn parse_output(output: &str, sentence: &str, mecab: bool) -> (r: Vec<Token>)
    ensures
        tokens_view(r@) == parse_spec(lines_spec(output@), sentence@, mecab),
{
    let lines = text_lines(output);
    let ghost ls = strings_view(lines@);
    let sentence_string = String::from_str(sentence);
    let pattern = "[,\t]";
    let mut r: Vec<Token> = Vec::new();
    let mut i: usize = 0;
    while i < lines.len()
        invariant
            i <= lines@.len(),
            ls == strings_view(lines@),
            ls == lines_spec(output@),
            sentence_string@ == sentence@,
            pattern@ == "[,\t]"@,
            tokens_view(r@) == parse_spec(ls.take(i as int), sentence@, mecab),
        decreases lines@.len() - i,
    {
        let line = lines[i].as_str();
        proof {
            assert(ls.take(i + 1).drop_last() =~= ls.take(i as int));
            assert(ls.take(i + 1).last() == line@);
        }
        let ghost before = r@;
        if mecab {
            let f = regex_split(pattern, line);
            proof {
                assert(strings_view(f@).len() == f@.len());
            }
            if f.len() == 10 && f[1] != String::from_str("記号") {
                proof {
                    assert(strings_view(f@)[1] == f@[1]@);
                    assert(strings_view(f@)[7] == f@[7]@);
                    assert(strings_view(f@)[0] == f@[0]@);
                }
                r.push(make_token(&f[7], &f[1], &sentence_string, &f[0]));
                assert(tokens_view(r@) =~= tokens_view(before).push(mecab_line(line@, sentence@)->0));
            } else {
                proof {
                    if f@.len() == 10 {
                        assert(strings_view(f@)[1] == f@[1]@);
                    }
                }
            }
        } else {
            let f = split_at_char(line, ' ');
            proof {
                assert(strings_view(f@).len() == f@.len());
                assert(split_on(line@, |c: char| c == ' ') == strings_view(f@));
            }
            if f.len() >= 4 && f[0] != String::from_str("EOS") && f[0] != String::from_str("@")
                && f[3] != String::from_str("特殊") {
                proof {
                    assert(strings_view(f@)[0] == f@[0]@);
                    assert(strings_view(f@)[2] == f@[2]@);
                    assert(strings_view(f@)[3] == f@[3]@);
                }
                r.push(make_token(&f[2], &f[3], &sentence_string, &f[0]));
                assert(tokens_view(r@) =~= tokens_view(before).push(jumanpp_line(line@, sentence@)->0));
            } else {
                proof {
                    if f@.len() >= 4 {
                        assert(strings_view(f@)[0] == f@[0]@);
                        assert(strings_view(f@)[3] == f@[3]@);
                    }
                }
            }
        }
        i = i + 1;
    }
    assert(ls.take(lines@.len() as int) =~= ls);
    r
}

/// The tokens of MeCab's output for `sentence`, one per line that holds a
/// non-symbol morpheme; other lines are skipped.
pub fn output_to_token_list(output_string: String, sentence: &str) -> (r: Vec<Token>)
    ensures
        tokens_view(r@) == parse_spec(lines_spec(output_string@), sentence@, true),
{
    parse_output(output_string.as_str(), sentence, true)
}

/// The tokens of Juman++'s output for `sentence`, one per line that holds a
/// non-special morpheme; other lines, malformed ones included, are skipped.
pub fn tokenize_output(sentence: &str, output: &str) -> (r: Vec<Token>)
    ensures
        tokens_view(r@) == parse_spec(lines_spec(output@), sentence@, false),
{
    parse_output(output, sentence, false)
}

/// The MeCab backend: the path of its binary.
pub struct Mecab {
    path: String,
}

impl Mecab {
    pub closed spec fn binary(&self) -> Seq<char> {
        self.path@
    }

    pub fn new(path: String) -> (r: Self)
        ensures
            r.binary() == path@,
    {
        Mecab { path }
    }

    pub fn path(&self) -> (r: &String)
        ensures
            r@ == self.binary(),
    {
        &self.path
    }
}

/// The Juman++ backend: the path of its binary.
pub struct Jumanpp {
    path: String,
}

impl Jumanpp {
    pub closed spec fn binary(&self) -> Seq<char> {
        self.path@
    }

    pub fn new(path: String) -> (r: Self)
        ensures
            r.binary() == path@,
    {
        Jumanpp { path }
    }

    pub fn path(&self) -> (r: &String)
        ensures
            r@ == self.binary(),
    {
        &self.path
    }
}

} // verus!
