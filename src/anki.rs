use crate::text::strings_view;
use vstd::prelude::*;

verus! {

broadcast use vstd::seq::Seq::lemma_push_map_commute;

/// What `str::to_lowercase` gives for a text.
pub uninterp spec fn lower_of(s: Seq<char>) -> Seq<char>;

/// Relies on str::to_lowercase: the result depends on the characters alone.
#[verifier::external_body]
fn lowercase(s: &str) -> (r: String)
    ensures
        r@ == lower_of(s@),
{
    s.to_lowercase()
}

/// Why the note-field configuration cannot be used.
#[derive(Debug, PartialEq, Eq, Structural)]
pub enum ConfigError {
    /// The configuration must hold exactly a list of field names and a list
    /// of their roles.
    MissingFieldList,
    /// The field names and the roles differ in number.
    FieldCountMismatch,
}

pub open spec fn fields_view(field_list: Seq<Vec<String>>) -> Seq<Seq<Seq<char>>> {
    field_list.map_values(|v: Vec<String>| strings_view(v@))
}

/// A field configuration: a list of note field names and a list, as long, of
/// the role that fills each ("expression", "reading", "definition",
/// "sentence", "audio", in any case).
pub open spec fn fields_valid(field_list: Seq<Seq<Seq<char>>>) -> bool {
    field_list.len() == 2 && field_list[0].len() == field_list[1].len()
}

/// Checks the shape of a field configuration.
pub fn verify_fields(field_list: &Vec<Vec<String>>) -> (r: Result<(), ConfigError>)
    ensures
        r is Ok <==> fields_valid(fields_view(field_list@)),
        r == Err::<(), ConfigError>(ConfigError::MissingFieldList) <==> field_list@.len() != 2,
{
    if field_list.len() != 2 {
        return Err(ConfigError::MissingFieldList);
    }
    if field_list[0].len() != field_list[1].len() {
        assert(strings_view(field_list@[0]@).len() != strings_view(field_list@[1]@).len());
        return Err(ConfigError::FieldCountMismatch);
    }
    Ok(())
}

/// The value a field gets from its lower-cased role: an empty reading falls
/// back to the expression; audio fields and unknown roles stay empty.
pub open spec fn role_value(
    role: Seq<char>,
    definition: Seq<char>,
    expression: Seq<char>,
    reading: Seq<char>,
    sentence: Seq<char>,
) -> Seq<char> {
    if role == "definition"@ {
        definition
    } else if role == "expression"@ {
        expression
    } else if role == "reading"@ {
        if reading.len() == 0 { expression } else { reading }
    } else if role == "sentence"@ {
        sentence
    } else {
        Seq::empty()
    }
}

/// The value of a field whose lower-cased role is `role`.
pub fn field_value(role: &str, definition: &str, expression: &str, reading: &str, sentence: &str) -> (r: String)
    ensures
        r@ == role_value(role@, definition@, expression@, reading@, sentence@),
{
    let role = String::from_str(role);
    if role == String::from_str("definition") {
        String::from_str(definition)
    } else if role == String::from_str("expression") {
        String::from_str(expression)
    } else if role == String::from_str("reading") {
        if reading.unicode_len() == 0 {
            String::from_str(expression)
        } else {
            String::from_str(reading)
        }
    } else if role == String::from_str("sentence") {
        String::from_str(sentence)
    } else {
        String::new()
    }
}

pub open spec fn field_pairs_view(v: Seq<(String, String)>) -> Seq<(Seq<char>, Seq<char>)> {
    v.map_values(|p: (String, String)| (p.0@, p.1@))
}

/// The note fields: each field name with the value its role gives.
pub fn create_fields(
    field_list: &Vec<Vec<String>>,
    definition: &str,
    expression: &str,
    reading: &str,
    sentence: &str,
) -> (r: Vec<(String, String)>)
    requires
        fields_valid(fields_view(field_list@)),
    ensures
        field_pairs_view(r@) == Seq::new(
            field_list@[0]@.len(),
            |i: int|
                (
                    field_list@[0]@[i]@,
                    role_value(lower_of(field_list@[1]@[i]@), definition@, expression@, reading@, sentence@),
                ),
        ),
{
    assert(strings_view(field_list@[0]@).len() == strings_view(field_list@[1]@).len());
    let ghost want = Seq::new(
        field_list@[0]@.len(),
        |i: int|
            (
                field_list@[0]@[i]@,
                role_value(lower_of(field_list@[1]@[i]@), definition@, expression@, reading@, sentence@),
            ),
    );
    let names = &field_list[0];
    let roles = &field_list[1];
    let mut r: Vec<(String, String)> = Vec::new();
    let mut i: usize = 0;
    while i < names.len()
        invariant
            i <= names@.len(),
            names@.len() == roles@.len(),
            names == field_list@[0],
            roles == field_list@[1],
            want.len() == names@.len(),
            want == Seq::new(
                field_list@[0]@.len(),
                |i: int|
                    (
                        field_list@[0]@[i]@,
                        role_value(lower_of(field_list@[1]@[i]@), definition@, expression@, reading@, sentence@),
                    ),
            ),
            field_pairs_view(r@) == want.take(i as int),
        decreases names@.len() - i,
    {
        let role = lowercase(roles[i].as_str());
        let value = field_value(role.as_str(), definition, expression, reading, sentence);
        r.push((names[i].clone(), value));
        proof {
            assert(field_pairs_view(r@) =~= want.take(i + 1));
        }
        i = i + 1;
    }
    assert(want.take(names@.len() as int) =~= want);
    r
}

/// The names of the fields whose role is "audio" (in any case), in order.
pub open spec fn audio_fields_spec(names: Seq<Seq<char>>, roles: Seq<Seq<char>>, n: int) -> Seq<Seq<char>>
    decreases n,
{
    if n <= 0 {
        Seq::empty()
    } else if lower_of(roles[n - 1]) == "audio"@ {
        audio_fields_spec(names, roles, n - 1).push(names[n - 1])
    } else {
        audio_fields_spec(names, roles, n - 1)
    }
}

/// The names of the fields that receive the audio.
pub fn create_audio_fields(field_list: &Vec<Vec<String>>) -> (r: Vec<String>)
    requires
        fields_valid(fields_view(field_list@)),
    ensures
        strings_view(r@) == audio_fields_spec(
            strings_view(field_list@[0]@),
            strings_view(field_list@[1]@),
            field_list@[0]@.len() as int,
        ),
{
    assert(strings_view(field_list@[0]@).len() == strings_view(field_list@[1]@).len());
    let names = &field_list[0];
    let roles = &field_list[1];
    let ghost ns = strings_view(names@);
    let ghost rs = strings_view(roles@);
    let mut r: Vec<String> = Vec::new();
    let mut i: usize = 0;
    while i < names.len()
        invariant
            i <= names@.len(),
            names@.len() == roles@.len(),
            ns == strings_view(names@),
            rs == strings_view(roles@),
            strings_view(r@) == audio_fields_spec(ns, rs, i as int),
        decreases names@.len() - i,
    {
        let role = lowercase(roles[i].as_str());
        assert(rs[i as int] == roles@[i as int]@);
        assert(ns[i as int] == names@[i as int]@);
        if role == String::from_str("audio") {
            let ghost before = r@;
            r.push(names[i].clone());
            assert(strings_view(r@) =~= strings_view(before).push(ns[i as int]));
        }
        i = i + 1;
    }
    r
}

/// The name of the first field whose role is "expression" (in any case).
pub open spec fn expression_field_spec(names: Seq<Seq<char>>, roles: Seq<Seq<char>>, n: int) -> Seq<char>
    decreases n,
{
    if n <= 0 {
        Seq::empty()
    } else if lower_of(roles[0]) == "expression"@ {
        names[0]
    } else {
        expression_field_spec(names.drop_first(), roles.drop_first(), n - 1)
    }
}

/// The name of the field that holds the expression, or "" when none does.
pub fn expression_field(field_list: &Vec<Vec<String>>) -> (r: String)
    requires
        fields_valid(fields_view(field_list@)),
    ensures
        r@ == expression_field_spec(
            strings_view(field_list@[0]@),
            strings_view(field_list@[1]@),
            field_list@[0]@.len() as int,
        ),
{
    assert(strings_view(field_list@[0]@).len() == strings_view(field_list@[1]@).len());
    let names = &field_list[0];
    let roles = &field_list[1];
    let ghost ns = strings_view(names@);
    let ghost rs = strings_view(roles@);
    assert(names == field_list@[0]);
    assert(ns.skip(0) =~= ns);
    assert(rs.skip(0) =~= rs);
    let mut i: usize = 0;
    while i < names.len()
        invariant
            i <= names@.len(),
            names@.len() == roles@.len(),
            ns == strings_view(names@),
            rs == strings_view(roles@),
            ns == strings_view(field_list@[0]@),
            rs == strings_view(field_list@[1]@),
            expression_field_spec(ns, rs, ns.len() as int) == expression_field_spec(ns.skip(i as int), rs.skip(i as int), ns.len() - i),
        decreases names@.len() - i,
    {
        let role = lowercase(roles[i].as_str());
        assert(rs.skip(i as int)[0] == roles@[i as int]@);
        assert(ns.skip(i as int)[0] == names@[i as int]@);
        if role == String::from_str("expression") {
            assert(expression_field_spec(ns.skip(i as int), rs.skip(i as int), ns.len() - i) == ns.skip(i as int)[0]);
            return names[i].clone();
        }
        assert(ns.skip(i as int).drop_first() =~= ns.skip(i + 1));
        assert(rs.skip(i as int).drop_first() =~= rs.skip(i + 1));
        i = i + 1;
    }
    String::new()
}

} // verus!
