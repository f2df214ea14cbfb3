use crate::text::{clone_strings, contains_string, strings_view};
use itertools::Itertools;
use vstd::prelude::*;

verus! {

/// One dictionary sense: its glosses and its part-of-speech tags (which may
/// be empty when the dictionary leaves them to the sense before).
pub struct DictionaryDefinition {
    definition_list: Vec<String>,
    pos_list: Vec<String>,
}

pub struct SenseModel {
    pub glosses: Seq<Seq<char>>,
    pub pos: Seq<Seq<char>>,
}

impl View for DictionaryDefinition {
    type V = SenseModel;

    closed spec fn view(&self) -> SenseModel {
        SenseModel { glosses: strings_view(self.definition_list@), pos: strings_view(self.pos_list@) }
    }
}

pub open spec fn senses_view(s: Seq<DictionaryDefinition>) -> Seq<SenseModel> {
    s.map_values(|d: DictionaryDefinition| d@)
}

pub open spec fn gloss_lists_view(s: Seq<Vec<String>>) -> Seq<Seq<Seq<char>>> {
    s.map_values(|g: Vec<String>| strings_view(g@))
}

impl DictionaryDefinition {
    pub fn new(definition_list: Vec<String>, pos_list: Vec<String>) -> (r: DictionaryDefinition)
        ensures
            r@.glosses == strings_view(definition_list@),
            r@.pos == strings_view(pos_list@),
    {
        DictionaryDefinition { definition_list, pos_list }
    }

    pub fn definition_list(&self) -> (r: &Vec<String>)
        ensures
            strings_view(r@) == self@.glosses,
    {
        &self.definition_list
    }

    pub fn pos_list(&self) -> (r: &Vec<String>)
        ensures
            strings_view(r@) == self@.pos,
    {
        &self.pos_list
    }
}

/// The tags that apply to sense `i`: its own, or when it has none those that
/// applied to the sense before it (none before the first).
pub open spec fn effective_pos(senses: Seq<SenseModel>, i: int) -> Seq<Seq<char>>
    decreases i,
{
    if i <= 0 {
        if senses.len() > 0 { senses[0].pos } else { Seq::empty() }
    } else if senses[i].pos.len() > 0 {
        senses[i].pos
    } else {
        effective_pos(senses, i - 1)
    }
}

/// Whether sense `i` carries one of the allowed tags.
pub open spec fn sense_allowed(senses: Seq<SenseModel>, i: int, allowed: Seq<Seq<char>>) -> bool {
    exists|k: int| 0 <= k < effective_pos(senses, i).len() && allowed.contains(#[trigger] effective_pos(senses, i)[k])
}

/// The glosses of the first `n` senses that carry an allowed tag, in order.
pub open spec fn allowed_glosses(senses: Seq<SenseModel>, allowed: Seq<Seq<char>>, n: int) -> Seq<Seq<Seq<char>>>
    decreases n,
{
    if n <= 0 {
        Seq::empty()
    } else if sense_allowed(senses, n - 1, allowed) {
        allowed_glosses(senses, allowed, n - 1).push(senses[n - 1].glosses)
    } else {
        allowed_glosses(senses, allowed, n - 1)
    }
}

/// The glosses of the senses that carry an allowed tag, with `true`; when no
/// sense does, the glosses of every sense, with `false`. Repeated gloss lists
/// are dropped, keeping the first of each.
pub open spec fn filter_spec(senses: Seq<SenseModel>, allowed: Seq<Seq<char>>) -> (Seq<Seq<Seq<char>>>, bool) {
    let kept = allowed_glosses(senses, allowed, senses.len() as int);
    if kept.len() > 0 {
        (first_occurrences(kept), true)
    } else {
        (first_occurrences(senses.map_values(|s: SenseModel| s.glosses)), false)
    }
}

/// The first occurrence of each element, in order.
pub open spec fn first_occurrences<A>(s: Seq<A>) -> Seq<A>
    decreases s.len(),
{
    if s.len() == 0 {
        s
    } else {
        let p = first_occurrences(s.drop_last());
        if p.contains(s.last()) {
            p
        } else {
            p.push(s.last())
        }
    }
}

proof fn lemma_first_occurrences_nonempty<A>(s: Seq<A>)
    requires
        s.len() > 0,
    ensures
        first_occurrences(s).len() > 0,
{
    let p = first_occurrences(s.drop_last());
    if p.contains(s.last()) {
        assert(p.len() > 0);
    }
}

/// Relies on itertools::Itertools::unique: it yields each item the first time
/// it comes, in order, comparing items by value.
#[verifier::external_body]
fn unique_gloss_lists(list: Vec<Vec<String>>) -> (r: Vec<Vec<String>>)
    ensures
        gloss_lists_view(r@) == first_occurrences(gloss_lists_view(list@)),
{
    list.into_iter().unique().collect()
}

/// Whether some string of `list` is in `allowed`.
fn intersects(list: &Vec<String>, allowed: &Vec<String>) -> (r: bool)
    ensures
        r == exists|k: int| 0 <= k < list@.len() && strings_view(allowed@).contains(#[trigger] strings_view(list@)[k]),
{
    let mut i: usize = 0;
    while i < list.len()
        invariant
            i <= list@.len(),
            forall|k: int| 0 <= k < i ==> !strings_view(allowed@).contains(#[trigger] strings_view(list@)[k]),
        decreases list@.len() - i,
    {
        if contains_string(allowed, list[i].as_str()) {
            assert(strings_view(list@)[i as int] == list@[i as int]@);
            return true;
        }
        assert(strings_view(list@)[i as int] == list@[i as int]@);
        i = i + 1;
    }
    false
}

/// Keeps the senses whose tags meet the allowed tags; a sense without tags
/// of its own takes those of the sense before it. When nothing is kept, every
/// sense is returned and the flag is `false`.
pub fn filter_definition_with_pos_list(
    definition_list: &Vec<DictionaryDefinition>,
    allowed_pos_list: &Vec<String>,
) -> (r: (Vec<Vec<String>>, bool))
    ensures
        gloss_lists_view(r.0@) == filter_spec(senses_view(definition_list@), strings_view(allowed_pos_list@)).0,
        r.1 == filter_spec(senses_view(definition_list@), strings_view(allowed_pos_list@)).1,
        definition_list@.len() > 0 ==> r.0@.len() > 0,
{
    let ghost senses = senses_view(definition_list@);
    let ghost allowed = strings_view(allowed_pos_list@);
    let mut filtered: Vec<Vec<String>> = Vec::new();
    let mut cached: usize = 0;
    let mut i: usize = 0;
    while i < definition_list.len()
        invariant
            i <= definition_list@.len(),
            senses == senses_view(definition_list@),
            allowed == strings_view(allowed_pos_list@),
            i > 0 ==> cached < i && definition_list@[cached as int]@.pos == effective_pos(senses, i - 1),
            gloss_lists_view(filtered@) == allowed_glosses(senses, allowed, i as int),
        decreases definition_list@.len() - i,
    {
        let definition = &definition_list[i];
        assert(senses[i as int] == definition@);
        let source = if definition.pos_list().len() > 0 || i == 0 { i } else { cached };
        assert(definition_list@[source as int]@.pos == effective_pos(senses, i as int));
        if intersects(definition_list[source].pos_list(), allowed_pos_list) {
            let glosses = clone_strings(definition.definition_list());
            let ghost before = filtered@;
            filtered.push(glosses);
            assert(gloss_lists_view(filtered@) =~= gloss_lists_view(before).push(senses[i as int].glosses));
        }
        cached = source;
        i = i + 1;
    }
    if filtered.len() == 0 {
        let mut all: Vec<Vec<String>> = Vec::new();
        let mut j: usize = 0;
        while j < definition_list.len()
            invariant
                j <= definition_list@.len(),
                senses == senses_view(definition_list@),
                gloss_lists_view(all@) == senses.map_values(|s: SenseModel| s.glosses).take(j as int),
            decreases definition_list@.len() - j,
        {
            let glosses = clone_strings(definition_list[j].definition_list());
            let ghost before = all@;
            all.push(glosses);
            assert(gloss_lists_view(all@) =~= gloss_lists_view(before).push(senses[j as int].glosses));
            assert(gloss_lists_view(all@) =~= senses.map_values(|s: SenseModel| s.glosses).take(j + 1));
            j = j + 1;
        }
        assert(senses.map_values(|s: SenseModel| s.glosses).take(definition_list@.len() as int) =~= senses.map_values(|s: SenseModel| s.glosses));
        let unique = unique_gloss_lists(all);
        proof {
            if definition_list@.len() > 0 {
                lemma_first_occurrences_nonempty(senses.map_values(|s: SenseModel| s.glosses));
            }
        }
        (unique, false)
    } else {
        let ghost kept = gloss_lists_view(filtered@);
        let unique = unique_gloss_lists(filtered);
        proof {
            lemma_first_occurrences_nonempty(kept);
        }
        (unique, true)
    }
}

/// The senses of an expression: those found by its written form when there
/// are any (with `true`), else those found by its reading (with `false`).
pub fn select_definition_for_expression(
    keb_definition_list: Vec<DictionaryDefinition>,
    reb_definition_list: Vec<DictionaryDefinition>,
) -> (r: (Vec<DictionaryDefinition>, bool))
    ensures
        keb_definition_list@.len() > 0 ==> r.0@ == keb_definition_list@ && r.1,
        keb_definition_list@.len() == 0 ==> r.0@ == reb_definition_list@ && !r.1,
{
    if keb_definition_list.len() > 0 {
        (keb_definition_list, true)
    } else {
        (reb_definition_list, false)
    }
}

} // verus!
