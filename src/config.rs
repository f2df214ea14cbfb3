use crate::text::strings_view;
use vstd::prelude::*;

verus! {

/// What `Path::join` gives for a directory and a file name, as text.
pub uninterp spec fn joined_path(dir: Seq<char>, name: Seq<char>) -> Seq<char>;

/// Relies on std::path::Path::join: the path of `name` inside `dir`, which
/// depends on the two texts alone.
#[verifier::external_body]
fn join_path(dir: &str, name: &str) -> (r: String)
    ensures
        r@ == joined_path(dir@, name@),
{
    std::path::Path::new(dir).join(name).to_string_lossy().into_owned()
}

pub open spec fn database_file() -> Seq<char> {
    "vocabulist_rs.db"@
}

pub open spec fn default_dictionary_path() -> Seq<char> {
    "/usr/local/share/vocabulist/jmdict.db"@
}

/// Where the vocabulary store and the dictionary are, which analyzer to use,
/// and how to reach the flashcard exporter.
pub struct Config {
    database_path: String,
    dictionary_path: Option<String>,
    backend: String,
    anki: AnkiConnect,
}

/// The exporter's settings: deck, note model, duplicate policy, audio, field
/// configuration and tags.
pub struct AnkiConnect {
    deck_name: String,
    model_name: String,
    allow_duplicates: bool,
    duplicate_scope: String,
    audio: bool,
    fields: Vec<Vec<String>>,
    tags: Vec<String>,
}

pub struct AnkiConnectModel {
    pub deck_name: Seq<char>,
    pub model_name: Seq<char>,
    pub allow_duplicates: bool,
    pub duplicate_scope: Seq<char>,
    pub audio: bool,
    pub fields: Seq<Seq<Seq<char>>>,
    pub tags: Seq<Seq<char>>,
}

pub struct ConfigModel {
    pub database_path: Seq<char>,
    pub dictionary_path: Option<Seq<char>>,
    pub backend: Seq<char>,
    pub anki: AnkiConnectModel,
}

pub open spec fn field_lists_view(v: Seq<Vec<String>>) -> Seq<Seq<Seq<char>>> {
    v.map_values(|x: Vec<String>| strings_view(x@))
}

impl View for AnkiConnect {
    type V = AnkiConnectModel;

    closed spec fn view(&self) -> AnkiConnectModel {
        AnkiConnectModel {
            deck_name: self.deck_name@,
            model_name: self.model_name@,
            allow_duplicates: self.allow_duplicates,
            duplicate_scope: self.duplicate_scope@,
            audio: self.audio,
            fields: field_lists_view(self.fields@),
            tags: strings_view(self.tags@),
        }
    }
}

impl View for Config {
    type V = ConfigModel;

    closed spec fn view(&self) -> ConfigModel {
        ConfigModel {
            database_path: self.database_path@,
            dictionary_path: match self.dictionary_path {
                Some(p) => Some(p@),
                None => None,
            },
            backend: self.backend@,
            anki: self.anki@,
        }
    }
}

/// The settings a new configuration starts with, beside its database path.
pub open spec fn default_config(database_path: Seq<char>) -> ConfigModel {
    ConfigModel {
        database_path,
        dictionary_path: None,
        backend: "mecab"@,
        anki: AnkiConnectModel {
            deck_name: "Default"@,
            model_name: "Basic"@,
            allow_duplicates: false,
            duplicate_scope: "deck"@,
            audio: false,
            fields: seq![seq!["Front"@, "Back"@], seq!["expression"@, "definition"@]],
            tags: seq!["vocabulist"@],
        },
    }
}

fn pair(a: &str, b: &str) -> (r: Vec<String>)
    ensures
        strings_view(r@) == seq![a@, b@],
{
    let mut r: Vec<String> = Vec::new();
    r.push(String::from_str(a));
    r.push(String::from_str(b));
    assert(strings_view(r@) =~= seq![a@, b@]);
    r
}

impl Config {
    pub fn new(
        database_path: String,
        dictionary_path: Option<String>,
        backend: String,
        anki: AnkiConnect,
    ) -> (r: Self)
        ensures
            r@.database_path == database_path@,
            r@.dictionary_path == (match dictionary_path {
                Some(p) => Some(p@),
                None => None::<Seq<char>>,
            }),
            r@.backend == backend@,
            r@.anki == anki@,
    {
        Config { database_path, dictionary_path, backend, anki }
    }

    /// The starting configuration around a given database path.
    pub fn from_database_path(database_path: String) -> (r: Config)
        ensures
            r@ == default_config(database_path@),
    {
        let mut fields: Vec<Vec<String>> = Vec::new();
        fields.push(pair("Front", "Back"));
        fields.push(pair("expression", "definition"));
        let mut tags: Vec<String> = Vec::new();
        tags.push(String::from_str("vocabulist"));
        assert(field_lists_view(fields@) =~= seq![seq!["Front"@, "Back"@], seq!["expression"@, "definition"@]]);
        assert(strings_view(tags@) =~= seq!["vocabulist"@]);
        let anki = AnkiConnect::new(
            String::from_str("Default"),
            String::from_str("Basic"),
            false,
            String::from_str("deck"),
            false,
            fields,
            tags,
        );
        Config { database_path, dictionary_path: None, backend: String::from_str("mecab"), anki }
    }

    /// The starting configuration, with its database in the configuration
    /// directory.
    pub fn default(configuration_path: String) -> (r: Config)
        ensures
            r@ == default_config(joined_path(configuration_path@, database_file())),
    {
        let database_path = join_path(configuration_path.as_str(), "vocabulist_rs.db");
        Self::from_database_path(database_path)
    }

    /// The starting configuration for a Homebrew installation.
    pub fn homebrew(configuration_path: String) -> (r: Config)
        ensures
            r@ == default_config(joined_path(configuration_path@, database_file())),
    {
        let database_path = join_path(configuration_path.as_str(), "vocabulist_rs.db");
        Self::from_database_path(database_path)
    }

    pub fn database_path(&self) -> (r: &String)
        ensures
            r@ == self@.database_path,
    {
        &self.database_path
    }

    /// The configured dictionary, or the one installed by default.
    pub fn dictionary_path(&self) -> (r: String)
        ensures
            r@ == (match self@.dictionary_path {
                Some(p) => p,
                None => default_dictionary_path(),
            }),
    {
        match &self.dictionary_path {
            Some(path) => path.clone(),
            None => String::from_str("/usr/local/share/vocabulist/jmdict.db"),
        }
    }

    /// The dictionary path as configured, if one is.
    pub fn configured_dictionary_path(&self) -> (r: Option<String>)
        ensures
            r is None <==> self@.dictionary_path is None,
            r is Some ==> self@.dictionary_path == Some(r->0@),
    {
        match &self.dictionary_path {
            Some(path) => Some(path.clone()),
            None => None,
        }
    }

    pub fn anki(&self) -> (r: &AnkiConnect)
        ensures
            r@ == self@.anki,
    {
        &self.anki
    }

    pub fn backend(&self) -> (r: &str)
        ensures
            r@ == self@.backend,
    {
        self.backend.as_str()
    }
}

impl AnkiConnect {
    pub fn new(
        deck_name: String,
        model_name: String,
        allow_duplicates: bool,
        duplicate_scope: String,
        audio: bool,
        fields: Vec<Vec<String>>,
        tags: Vec<String>,
    ) -> (r: AnkiConnect)
        ensures
            r@ == (AnkiConnectModel {
                deck_name: deck_name@,
                model_name: model_name@,
                allow_duplicates,
                duplicate_scope: duplicate_scope@,
                audio,
                fields: field_lists_view(fields@),
                tags: strings_view(tags@),
            }),
    {
        AnkiConnect { deck_name, model_name, allow_duplicates, duplicate_scope, audio, fields, tags }
    }

    pub fn deck_name(&self) -> (r: &str)
        ensures
            r@ == self@.deck_name,
    {
        self.deck_name.as_str()
    }

    pub fn model_name(&self) -> (r: &str)
        ensures
            r@ == self@.model_name,
    {
        self.model_name.as_str()
    }

    pub fn allow_duplicates(&self) -> (r: bool)
        ensures
            r == self@.allow_duplicates,
    {
        self.allow_duplicates
    }

    pub fn duplicate_scope(&self) -> (r: &str)
        ensures
            r@ == self@.duplicate_scope,
    {
        self.duplicate_scope.as_str()
    }

    pub fn audio(&self) -> (r: bool)
        ensures
            r == self@.audio,
    {
        self.audio
    }

    pub fn fields(&self) -> (r: &Vec<Vec<String>>)
        ensures
            field_lists_view(r@) == self@.fields,
    {
        &self.fields
    }

    pub fn tags(&self) -> (r: &Vec<String>)
        ensures
            strings_view(r@) == self@.tags,
    {
        &self.tags
    }
}

impl Default for AnkiConnect {
    fn default() -> (r: AnkiConnect)
        ensures
            r@.deck_name.len() == 0,
            r@.model_name.len() == 0,
            !r@.allow_duplicates,
            r@.duplicate_scope.len() == 0,
            !r@.audio,
            r@.fields.len() == 0,
            r@.tags.len() == 0,
    {
        AnkiConnect {
            deck_name: String::new(),
            model_name: String::new(),
            allow_duplicates: false,
            duplicate_scope: String::new(),
            audio: false,
            fields: Vec::new(),
            tags: Vec::new(),
        }
    }
}

} // verus!
