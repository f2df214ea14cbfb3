use crate::sort::{sorted_by, SortItemModel, SortKey};
use crate::store::Occurrence;
use crate::term::{Term, TermModel};
use vstd::prelude::*;

verus! {

/// The value of an expression row.
pub struct ExpressionModel {
    pub text: Seq<char>,
    pub frequency: nat,
    pub is_excluded: bool,
    pub is_learned: bool,
    pub in_anki: bool,
}

/// The value of a part-of-speech row.
pub struct PosModel {
    pub tag: Seq<char>,
    pub is_excluded: bool,
}

/// The contents of a store: four keyed tables, addressed by position, and the
/// join table.
pub struct StoreModel {
    pub expressions: Seq<ExpressionModel>,
    pub pos: Seq<PosModel>,
    pub sentences: Seq<Seq<char>>,
    pub surface_strings: Seq<Seq<char>>,
    pub occurrences: Seq<Occurrence>,
}


pub open spec fn expression_texts(rows: Seq<ExpressionModel>) -> Seq<Seq<char>> {
    rows.map_values(|r: ExpressionModel| r.text)
}

pub open spec fn pos_tags(rows: Seq<PosModel>) -> Seq<Seq<char>> {
    rows.map_values(|r: PosModel| r.tag)
}

/// No key appears twice.
pub open spec fn unique_keys(keys: Seq<Seq<char>>) -> bool {
    forall|i: int, j: int| 0 <= i < keys.len() && 0 <= j < keys.len() && keys[i] == keys[j] ==> i == j
}

pub open spec fn occurrence_in_range(m: StoreModel, o: Occurrence) -> bool {
    &&& o.expression_id < m.expressions.len()
    &&& o.pos_id < m.pos.len()
    &&& o.sentence_id < m.sentences.len()
    &&& o.surface_string_id < m.surface_strings.len()
}

impl StoreModel {
    /// Keys are unique in each table, every join row names existing rows, and
    /// no join row appears twice.
    pub open spec fn wf(self) -> bool {
        &&& unique_keys(expression_texts(self.expressions))
        &&& unique_keys(pos_tags(self.pos))
        &&& unique_keys(self.sentences)
        &&& unique_keys(self.surface_strings)
        &&& forall|i: int| 0 <= i < self.occurrences.len() ==> occurrence_in_range(self, #[trigger] self.occurrences[i])
        &&& self.occurrences.no_duplicates()
    }

    /// The position of the expression with the given text.
    pub open spec fn expression_id(self, text: Seq<char>) -> int {
        expression_texts(self.expressions).index_of(text)
    }

    pub open spec fn has_expression(self, text: Seq<char>) -> bool {
        expression_texts(self.expressions).contains(text)
    }

    pub open spec fn has_sentence(self, sentence: Seq<char>) -> bool {
        self.sentences.contains(sentence)
    }

    /// The part-of-speech tag of a join row.
    pub open spec fn occurrence_tag(self, o: Occurrence) -> Seq<char> {
        self.pos[o.pos_id as int].tag
    }

    /// Whether the expression at `e` ever occurred under a tag that `tags` holds.
    pub open spec fn occurs_under(self, e: int, tags: Seq<Seq<char>>) -> bool {
        exists|k: int|
            0 <= k < self.occurrences.len() && #[trigger] self.occurrences[k].expression_id == e
                && tags.contains(self.occurrence_tag(self.occurrences[k]))
    }

    /// Whether the expression at `e` has at least one occurrence and every one
    /// of them carries a tag that `tags` holds.
    pub open spec fn occurs_only_under(self, e: int, tags: Seq<Seq<char>>) -> bool {
        &&& exists|k: int| 0 <= k < self.occurrences.len() && #[trigger] self.occurrences[k].expression_id == e
        &&& forall|k: int|
            0 <= k < self.occurrences.len() && #[trigger] self.occurrences[k].expression_id == e
                ==> tags.contains(self.occurrence_tag(self.occurrences[k]))
    }
}

/// The key table after an insert-or-ignore of `k`.
pub open spec fn upsert_key(keys: Seq<Seq<char>>, k: Seq<char>) -> Seq<Seq<char>> {
    if keys.contains(k) {
        keys
    } else {
        keys.push(k)
    }
}

/// The expression table after one occurrence of `k`: a new row with frequency
/// one, or the existing row with its frequency raised by one.
pub open spec fn upsert_expression(rows: Seq<ExpressionModel>, k: Seq<char>) -> Seq<ExpressionModel> {
    if expression_texts(rows).contains(k) {
        let i = expression_texts(rows).index_of(k);
        rows.update(
            i,
            ExpressionModel {
                text: rows[i].text,
                frequency: rows[i].frequency + 1,
                is_excluded: rows[i].is_excluded,
                is_learned: rows[i].is_learned,
                in_anki: rows[i].in_anki,
            },
        )
    } else {
        rows.push(
            ExpressionModel {
                text: k,
                frequency: 1,
                is_excluded: false,
                is_learned: false,
                in_anki: false,
            },
        )
    }
}

pub open spec fn upsert_pos(rows: Seq<PosModel>, k: Seq<char>) -> Seq<PosModel> {
    if pos_tags(rows).contains(k) {
        rows
    } else {
        rows.push(PosModel { tag: k, is_excluded: false })
    }
}

/// The store after one term: each of the four rows is created if missing, the
/// expression's frequency counts this occurrence, and the join row is added
/// unless it is already there.
pub open spec fn insert_term_spec(m: StoreModel, t: TermModel) -> StoreModel {
    let e = upsert_expression(m.expressions, t.expression);
    let p = upsert_pos(m.pos, t.pos);
    let s = upsert_key(m.sentences, t.sentence);
    let f = upsert_key(m.surface_strings, t.surface_string);
    let o = Occurrence {
        expression_id: expression_texts(e).index_of(t.expression) as usize,
        pos_id: pos_tags(p).index_of(t.pos) as usize,
        sentence_id: s.index_of(t.sentence) as usize,
        surface_string_id: f.index_of(t.surface_string) as usize,
    };
    StoreModel {
        expressions: e,
        pos: p,
        sentences: s,
        surface_strings: f,
        occurrences: if m.occurrences.contains(o) {
            m.occurrences
        } else {
            m.occurrences.push(o)
        },
    }
}

/// The store after the terms, in order.
pub open spec fn insert_all_spec(m: StoreModel, ts: Seq<TermModel>) -> StoreModel
    decreases ts.len(),
{
    if ts.len() == 0 {
        m
    } else {
        insert_term_spec(insert_all_spec(m, ts.drop_last()), ts.last())
    }
}

/// The terms whose sentence the store does not hold yet.
pub open spec fn new_terms(m: StoreModel, ts: Seq<TermModel>) -> Seq<TermModel>
    decreases ts.len(),
{
    if ts.len() == 0 {
        ts
    } else if m.has_sentence(ts.last().sentence) {
        new_terms(m, ts.drop_last())
    } else {
        new_terms(m, ts.drop_last()).push(ts.last())
    }
}

/// One ingestion batch: terms from sentences that were imported before are
/// dropped, the others are inserted in order.
pub open spec fn import_spec(m: StoreModel, ts: Seq<TermModel>) -> StoreModel {
    insert_all_spec(m, new_terms(m, ts))
}

pub open spec fn terms_view(ts: Seq<Term>) -> Seq<TermModel> {
    ts.map_values(|t: Term| t@)
}


/// One term keeps the store well formed.
pub proof fn lemma_insert_term_wf(m: StoreModel, t: TermModel)
    requires
        m.wf(),
    ensures
        insert_term_spec(m, t).wf(),
{
    let r = insert_term_spec(m, t);
    let ks = expression_texts(m.expressions);
    if ks.contains(t.expression) {
        let i = ks.index_of(t.expression);
        assert(expression_texts(r.expressions) =~= ks);
    } else {
        lemma_push_unique(ks, t.expression);
        assert(expression_texts(r.expressions) =~= ks.push(t.expression));
    }
    let ps = pos_tags(m.pos);
    if !ps.contains(t.pos) {
        lemma_push_unique(ps, t.pos);
        assert(pos_tags(r.pos) =~= ps.push(t.pos));
    }
    if !m.sentences.contains(t.sentence) {
        lemma_push_unique(m.sentences, t.sentence);
    }
    if !m.surface_strings.contains(t.surface_string) {
        lemma_push_unique(m.surface_strings, t.surface_string);
    }
    let et = expression_texts(r.expressions);
    let pt = pos_tags(r.pos);
    assert(et.contains(t.expression)) by {
        if !ks.contains(t.expression) {
            assert(et[ks.len() as int] == t.expression);
        }
    }
    assert(pt.contains(t.pos)) by {
        if !ps.contains(t.pos) {
            assert(pt[ps.len() as int] == t.pos);
        }
    }
    assert(r.sentences.contains(t.sentence)) by {
        if !m.sentences.contains(t.sentence) {
            assert(r.sentences[m.sentences.len() as int] == t.sentence);
        }
    }
    assert(r.surface_strings.contains(t.surface_string)) by {
        if !m.surface_strings.contains(t.surface_string) {
            assert(r.surface_strings[m.surface_strings.len() as int] == t.surface_string);
        }
    }
    let o = Occurrence {
        expression_id: et.index_of(t.expression) as usize,
        pos_id: pt.index_of(t.pos) as usize,
        sentence_id: r.sentences.index_of(t.sentence) as usize,
        surface_string_id: r.surface_strings.index_of(t.surface_string) as usize,
    };
    assert(occurrence_in_range(r, o));
    assert forall|i: int| 0 <= i < r.occurrences.len() implies occurrence_in_range(r, #[trigger] r.occurrences[i]) by {
        if i < m.occurrences.len() {
            assert(occurrence_in_range(m, m.occurrences[i]));
        }
    }
    if !m.occurrences.contains(o) {
        assert forall|i: int, j: int| 0 <= i < r.occurrences.len() && 0 <= j < r.occurrences.len() && i != j implies r.occurrences[i] != r.occurrences[j] by {
            if i < m.occurrences.len() && j < m.occurrences.len() {
            } else if i < m.occurrences.len() {
                assert(r.occurrences[j] == o);
            } else {
                assert(r.occurrences[i] == o);
            }
        }
    }
}

/// A batch keeps the store well formed.
pub proof fn lemma_insert_all_wf(m: StoreModel, ts: Seq<TermModel>)
    requires
        m.wf(),
    ensures
        insert_all_spec(m, ts).wf(),
    decreases ts.len(),
{
    if ts.len() > 0 {
        lemma_insert_all_wf(m, ts.drop_last());
        lemma_insert_term_wf(insert_all_spec(m, ts.drop_last()), ts.last());
    }
}

/// Join integrity: after an ingestion batch every join row still names an
/// existing expression, part of speech, sentence and surface form, and the
/// keys of each table stay unique.
pub proof fn lemma_import_keeps_integrity(m: StoreModel, ts: Seq<TermModel>)
    requires
        m.wf(),
    ensures
        import_spec(m, ts).wf(),
        forall|i: int| 0 <= i < import_spec(m, ts).occurrences.len() ==> occurrence_in_range(import_spec(m, ts), #[trigger] import_spec(m, ts).occurrences[i]),
{
    lemma_insert_all_wf(m, new_terms(m, ts));
}

/// Frequency monotonicity for one term: storing a term never lowers a
/// frequency, rows keep their position and text, and the term's sentence is
/// stored afterwards.
pub proof fn lemma_insert_term_monotone(m: StoreModel, t: TermModel)
    ensures
        insert_term_spec(m, t).expressions.len() >= m.expressions.len(),
        forall|i: int| 0 <= i < m.expressions.len() ==> {
            &&& (#[trigger] insert_term_spec(m, t).expressions[i]).text == m.expressions[i].text
            &&& insert_term_spec(m, t).expressions[i].frequency >= m.expressions[i].frequency
        },
        forall|x: Seq<char>| m.sentences.contains(x) ==> #[trigger] insert_term_spec(m, t).sentences.contains(x),
        insert_term_spec(m, t).sentences.contains(t.sentence),
{
    let r = insert_term_spec(m, t);
    let ks = expression_texts(m.expressions);
    if ks.contains(t.expression) {
        let i = ks.index_of(t.expression);
        assert forall|j: int| 0 <= j < m.expressions.len() implies (#[trigger] r.expressions[j]).text == m.expressions[j].text by {
            if j == i {
                assert(ks[i] == t.expression);
            }
        }
    }
    assert forall|x: Seq<char>| m.sentences.contains(x) implies #[trigger] r.sentences.contains(x) by {
        let k = choose|k: int| 0 <= k < m.sentences.len() && m.sentences[k] == x;
        assert(r.sentences[k] == x);
    }
    if !m.sentences.contains(t.sentence) {
        assert(r.sentences[m.sentences.len() as int] == t.sentence);
    }
}

/// A batch never lowers a frequency; rows keep their position and text; every
/// sentence of the batch is stored afterwards.
proof fn lemma_insert_all_monotone(m: StoreModel, ts: Seq<TermModel>)
    ensures
        insert_all_spec(m, ts).expressions.len() >= m.expressions.len(),
        forall|i: int| 0 <= i < m.expressions.len() ==> {
            &&& (#[trigger] insert_all_spec(m, ts).expressions[i]).text == m.expressions[i].text
            &&& insert_all_spec(m, ts).expressions[i].frequency >= m.expressions[i].frequency
        },
        forall|x: Seq<char>| m.sentences.contains(x) ==> #[trigger] insert_all_spec(m, ts).sentences.contains(x),
        forall|k: int| 0 <= k < ts.len() ==> insert_all_spec(m, ts).sentences.contains(#[trigger] ts[k].sentence),
    decreases ts.len(),
{
    if ts.len() > 0 {
        let p = insert_all_spec(m, ts.drop_last());
        lemma_insert_all_monotone(m, ts.drop_last());
        lemma_insert_term_monotone(p, ts.last());
        let r = insert_all_spec(m, ts);
        assert forall|i: int| 0 <= i < m.expressions.len() implies {
            &&& (#[trigger] r.expressions[i]).text == m.expressions[i].text
            &&& r.expressions[i].frequency >= m.expressions[i].frequency
        } by {
            assert(p.expressions[i].text == m.expressions[i].text);
            assert(r.expressions[i].text == p.expressions[i].text);
        }
        assert forall|k: int| 0 <= k < ts.len() implies r.sentences.contains(#[trigger] ts[k].sentence) by {
            if k < ts.len() - 1 {
                assert(ts.drop_last()[k] == ts[k]);
                assert(p.sentences.contains(ts[k].sentence));
            }
        }
    }
}

/// Frequency monotonicity: an ingestion batch never lowers the frequency of an
/// expression that was stored before it, and that expression keeps its place.
pub proof fn lemma_import_frequency_monotone(m: StoreModel, ts: Seq<TermModel>)
    ensures
        import_spec(m, ts).expressions.len() >= m.expressions.len(),
        forall|i: int| 0 <= i < m.expressions.len() ==> {
            &&& (#[trigger] import_spec(m, ts).expressions[i]).text == m.expressions[i].text
            &&& import_spec(m, ts).expressions[i].frequency >= m.expressions[i].frequency
        },
{
    lemma_insert_all_monotone(m, new_terms(m, ts));
}

/// A term is dropped by `new_terms` only when its sentence is stored.
proof fn lemma_new_terms_keeps(m: StoreModel, ts: Seq<TermModel>, k: int)
    requires
        0 <= k < ts.len(),
        !m.has_sentence(ts[k].sentence),
    ensures
        new_terms(m, ts).contains(ts[k]),
    decreases ts.len(),
{
    if k == ts.len() - 1 {
        let n = new_terms(m, ts);
        assert(n[n.len() - 1] == ts[k]);
    } else {
        assert(ts.drop_last()[k] == ts[k]);
        lemma_new_terms_keeps(m, ts.drop_last(), k);
        let p = new_terms(m, ts.drop_last());
        let j = choose|j: int| 0 <= j < p.len() && p[j] == ts[k];
        let n = new_terms(m, ts);
        if !m.has_sentence(ts.last().sentence) {
            assert(n[j] == ts[k]);
        }
    }
}

/// When the store holds every sentence of the terms, none of them is new.
proof fn lemma_new_terms_empty(m: StoreModel, ts: Seq<TermModel>)
    requires
        forall|k: int| 0 <= k < ts.len() ==> m.has_sentence(#[trigger] ts[k].sentence),
    ensures
        new_terms(m, ts).len() == 0,
    decreases ts.len(),
{
    if ts.len() > 0 {
        assert forall|k: int| 0 <= k < ts.drop_last().len() implies m.has_sentence(#[trigger] ts.drop_last()[k].sentence) by {
            assert(ts.drop_last()[k] == ts[k]);
        }
        lemma_new_terms_empty(m, ts.drop_last());
        assert(m.has_sentence(ts[ts.len() - 1].sentence));
    }
}

/// Idempotent ingestion: importing a batch a second time changes nothing, so
/// no frequency grows and no join row is added.
pub proof fn lemma_reimport_unchanged(m: StoreModel, ts: Seq<TermModel>)
    ensures
        import_spec(import_spec(m, ts), ts) == import_spec(m, ts),
{
    let n = new_terms(m, ts);
    let m2 = import_spec(m, ts);
    lemma_insert_all_monotone(m, n);
    assert forall|k: int| 0 <= k < ts.len() implies m2.has_sentence(#[trigger] ts[k].sentence) by {
        if m.has_sentence(ts[k].sentence) {
        } else {
            lemma_new_terms_keeps(m, ts, k);
            let j = choose|j: int| 0 <= j < n.len() && n[j] == ts[k];
            assert(m2.sentences.contains(n[j].sentence));
        }
    }
    lemma_new_terms_empty(m2, ts);
    assert(new_terms(m2, ts) =~= Seq::<TermModel>::empty());
}

/// The row with its exclusion and flashcard flags replaced.
pub open spec fn with_flags(r: ExpressionModel, is_excluded: bool, in_anki: bool) -> ExpressionModel {
    ExpressionModel {
        text: r.text,
        frequency: r.frequency,
        is_excluded,
        is_learned: r.is_learned,
        in_anki,
    }
}

/// Excluding (or including) tags: each listed tag takes the flag, and so does
/// every expression that ever occurred under one of them.
pub open spec fn set_pos_excluded_spec(m: StoreModel, tags: Seq<Seq<char>>, is_excluded: bool) -> StoreModel {
    let p = StoreModel { pos: pos_flags(m.pos, tags, is_excluded), ..m };
    StoreModel { expressions: cascade_spec(p, tags, is_excluded), ..p }
}

/// The part-of-speech table with each listed tag set to the flag.
pub open spec fn pos_flags(rows: Seq<PosModel>, tags: Seq<Seq<char>>, is_excluded: bool) -> Seq<PosModel> {
    Seq::new(
        rows.len(),
        |i: int|
            if tags.contains(rows[i].tag) {
                PosModel { tag: rows[i].tag, is_excluded }
            } else {
                rows[i]
            },
    )
}

/// Whether every occurrence of the expression at `e` carries an excluded tag.
pub open spec fn only_excluded_tags(m: StoreModel, e: int) -> bool {
    forall|k: int|
        0 <= k < m.occurrences.len() && #[trigger] m.occurrences[k].expression_id == e
            ==> m.pos[m.occurrences[k].pos_id as int].is_excluded
}

/// The expression table after the listed tags took the flag: including a tag
/// includes every expression seen under it; excluding one excludes each
/// expression seen under it whose occurrences all carry excluded tags now.
pub open spec fn cascade_spec(p: StoreModel, tags: Seq<Seq<char>>, is_excluded: bool) -> Seq<ExpressionModel> {
    Seq::new(
        p.expressions.len(),
        |i: int|
            if p.occurs_under(i, tags) && (!is_excluded || only_excluded_tags(p, i)) {
                with_flags(p.expressions[i], is_excluded, p.expressions[i].in_anki)
            } else {
                p.expressions[i]
            },
    )
}

/// The expression table after setting one flag on the selected rows: every
/// row when `all`, else the rows whose text `texts` holds. The flag is the
/// exclusion flag when `excluded_flag`, else the flashcard flag.
pub open spec fn flag_rows(
    rows: Seq<ExpressionModel>,
    texts: Seq<Seq<char>>,
    all: bool,
    excluded_flag: bool,
    value: bool,
) -> Seq<ExpressionModel> {
    Seq::new(
        rows.len(),
        |i: int|
            if all || texts.contains(rows[i].text) {
                if excluded_flag {
                    with_flags(rows[i], value, rows[i].in_anki)
                } else {
                    with_flags(rows[i], rows[i].is_excluded, value)
                }
            } else {
                rows[i]
            },
    )
}

/// Excluding (or including) the expressions with the given texts.
pub open spec fn set_excluded_spec(m: StoreModel, texts: Seq<Seq<char>>, is_excluded: bool) -> StoreModel {
    StoreModel { expressions: flag_rows(m.expressions, texts, false, true, is_excluded), ..m }
}

/// Setting the flashcard flag of the expression with the given text.
pub open spec fn set_in_anki_spec(m: StoreModel, text: Seq<char>, in_anki: bool) -> StoreModel {
    StoreModel { expressions: flag_rows(m.expressions, seq![text], false, false, in_anki), ..m }
}

/// Clearing the flashcard flag of every expression.
pub open spec fn reset_in_anki_spec(m: StoreModel) -> StoreModel {
    StoreModel { expressions: flag_rows(m.expressions, Seq::empty(), true, false, false), ..m }
}

/// Pos-cascade exclusion: excluding tags excludes every expression whose
/// occurrences all carry one of them; an expression with an occurrence under
/// a tag that stays included keeps its flag, and so does an expression never
/// seen under the listed tags.
pub proof fn lemma_pos_cascade(m: StoreModel, tags: Seq<Seq<char>>)
    requires
        m.wf(),
    ensures
        forall|i: int|
            0 <= i < m.expressions.len() && m.occurs_only_under(i, tags)
                ==> (#[trigger] set_pos_excluded_spec(m, tags, true).expressions[i]).is_excluded,
        forall|i: int, k: int|
            0 <= i < m.expressions.len() && 0 <= k < m.occurrences.len() && m.occurrences[k].expression_id == i
                && !(#[trigger] set_pos_excluded_spec(m, tags, true).pos[m.occurrences[k].pos_id as int]).is_excluded
                ==> #[trigger] set_pos_excluded_spec(m, tags, true).expressions[i] == m.expressions[i],
        forall|i: int|
            0 <= i < m.expressions.len() && !m.occurs_under(i, tags)
                ==> #[trigger] set_pos_excluded_spec(m, tags, true).expressions[i] == m.expressions[i],
{
    let r = set_pos_excluded_spec(m, tags, true);
    let p = StoreModel { pos: pos_flags(m.pos, tags, true), ..m };
    assert forall|k: int| 0 <= k < m.occurrences.len() implies #[trigger] p.occurrence_tag(m.occurrences[k]) == m.occurrence_tag(m.occurrences[k]) by {
        assert(occurrence_in_range(m, m.occurrences[k]));
    }
    assert forall|i: int| 0 <= i < m.expressions.len() implies p.occurs_under(i, tags) == m.occurs_under(i, tags) by {
        if m.occurs_under(i, tags) {
            let k = choose|k: int| 0 <= k < m.occurrences.len() && #[trigger] m.occurrences[k].expression_id == i
                && tags.contains(m.occurrence_tag(m.occurrences[k]));
            assert(p.occurrence_tag(m.occurrences[k]) == m.occurrence_tag(m.occurrences[k]));
        }
        if p.occurs_under(i, tags) {
            let k = choose|k: int| 0 <= k < p.occurrences.len() && #[trigger] p.occurrences[k].expression_id == i
                && tags.contains(p.occurrence_tag(p.occurrences[k]));
            assert(p.occurrence_tag(m.occurrences[k]) == m.occurrence_tag(m.occurrences[k]));
        }
    }
    assert forall|i: int|
        0 <= i < m.expressions.len() && m.occurs_only_under(i, tags)
            implies (#[trigger] set_pos_excluded_spec(m, tags, true).expressions[i]).is_excluded by {
        let k = choose|k: int| 0 <= k < m.occurrences.len() && #[trigger] m.occurrences[k].expression_id == i;
        assert(tags.contains(m.occurrence_tag(m.occurrences[k])));
        assert(m.occurs_under(i, tags));
        assert forall|k2: int| 0 <= k2 < p.occurrences.len() && #[trigger] p.occurrences[k2].expression_id == i
            implies p.pos[p.occurrences[k2].pos_id as int].is_excluded by {
            assert(tags.contains(m.occurrence_tag(m.occurrences[k2])));
            assert(occurrence_in_range(m, m.occurrences[k2]));
        }
        assert(only_excluded_tags(p, i));
    }
    assert forall|i: int, k: int|
        0 <= i < m.expressions.len() && 0 <= k < m.occurrences.len() && m.occurrences[k].expression_id == i
            && !(#[trigger] set_pos_excluded_spec(m, tags, true).pos[m.occurrences[k].pos_id as int]).is_excluded
            implies #[trigger] set_pos_excluded_spec(m, tags, true).expressions[i] == m.expressions[i] by {
        assert(!only_excluded_tags(p, i));
    }
}

/// Changing flags keeps the store well formed.
pub proof fn lemma_flags_keep_wf(m: StoreModel, es: Seq<ExpressionModel>, ps: Seq<PosModel>)
    requires
        m.wf(),
        es.len() == m.expressions.len(),
        ps.len() == m.pos.len(),
        forall|i: int| 0 <= i < es.len() ==> (#[trigger] es[i]).text == m.expressions[i].text,
        forall|i: int| 0 <= i < ps.len() ==> (#[trigger] ps[i]).tag == m.pos[i].tag,
    ensures
        (StoreModel { expressions: es, pos: ps, ..m }).wf(),
{
    assert(expression_texts(es) =~= expression_texts(m.expressions));
    assert(pos_tags(ps) =~= pos_tags(m.pos));
    let r = StoreModel { expressions: es, pos: ps, ..m };
    assert forall|i: int| 0 <= i < r.occurrences.len() implies occurrence_in_range(r, #[trigger] r.occurrences[i]) by {
        assert(occurrence_in_range(m, m.occurrences[i]));
    }
}

/// A row passes when each flag that is asked for has the asked value.
pub open spec fn row_matches(r: ExpressionModel, in_anki: Option<bool>, is_excluded: Option<bool>, is_learned: Option<bool>) -> bool {
    &&& (in_anki is None || r.in_anki == in_anki->0)
    &&& (is_excluded is None || r.is_excluded == is_excluded->0)
    &&& (is_learned is None || r.is_learned == is_learned->0)
}

/// The expression rows as items to order, in table order.
pub open spec fn expression_items(m: StoreModel) -> Seq<SortItemModel> {
    Seq::new(
        m.expressions.len(),
        |i: int| SortItemModel { id: i, frequency: m.expressions[i].frequency as int, text: m.expressions[i].text },
    )
}

/// The part-of-speech rows as items to order, in table order.
pub open spec fn pos_items(m: StoreModel) -> Seq<SortItemModel> {
    Seq::new(m.pos.len(), |i: int| SortItemModel { id: i, frequency: 0, text: m.pos[i].tag })
}

/// The first `limit` items, or all of them when there is no limit.
pub open spec fn limited(s: Seq<SortItemModel>, limit: Option<usize>) -> Seq<SortItemModel> {
    match limit {
        Some(n) => if n < s.len() { s.take(n as int) } else { s },
        None => s,
    }
}

/// `out` lists the candidates in an order that the key allows, cut at the
/// limit.
pub open spec fn is_listing(
    candidates: Seq<SortItemModel>,
    key: SortKey,
    asc: bool,
    limit: Option<usize>,
    out: Seq<SortItemModel>,
) -> bool {
    exists|full: Seq<SortItemModel>|
        #![trigger limited(full, limit)]
        full.to_multiset() == candidates.to_multiset() && sorted_by(key, asc, full) && out == limited(full, limit)
}

pub open spec fn item_texts(s: Seq<SortItemModel>) -> Seq<Seq<char>> {
    s.map_values(|x: SortItemModel| x.text)
}

/// The listing of expressions selected by three flag filters.
pub open spec fn expression_candidates(m: StoreModel, in_anki: Option<bool>, is_excluded: Option<bool>, is_learned: Option<bool>) -> Seq<SortItemModel> {
    expression_items(m).filter(|x: SortItemModel| row_matches(m.expressions[x.id], in_anki, is_excluded, is_learned))
}

/// The part-of-speech rows listed: all of them, or the ones not excluded.
pub open spec fn pos_candidates(m: StoreModel, include_excluded: bool) -> Seq<SortItemModel> {
    pos_items(m).filter(|x: SortItemModel| include_excluded || !m.pos[x.id].is_excluded)
}

/// The order a listing request names: "id", "expression", or else frequency.
pub open spec fn order_key(order_by: Seq<char>) -> SortKey {
    if order_by == "id"@ {
        SortKey::Id
    } else if order_by == "expression"@ {
        SortKey::Text
    } else {
        SortKey::Frequency
    }
}

/// A limit of -1 or below means none.
pub open spec fn limit_of(limit: i32) -> Option<usize> {
    if limit > -1 {
        Some(limit as usize)
    } else {
        None
    }
}

/// The join rows of the expression with the given text, in table order.
pub open spec fn occurrences_of(m: StoreModel, text: Seq<char>) -> Seq<Occurrence> {
    m.occurrences.filter(|o: Occurrence| m.expressions[o.expression_id as int].text == text)
}


/// With unique keys, the position found is the one `index_of` names.
pub proof fn lemma_unique_index(keys: Seq<Seq<char>>, i: int)
    requires
        unique_keys(keys),
        0 <= i < keys.len(),
    ensures
        keys.contains(keys[i]),
        keys.index_of(keys[i]) == i,
{
    assert(keys.contains(keys[i]));
    let j = keys.index_of(keys[i]);
    assert(0 <= j < keys.len() && keys[j] == keys[i]);
}

/// Appending a key that is absent keeps keys unique.
pub proof fn lemma_push_unique(keys: Seq<Seq<char>>, k: Seq<char>)
    requires
        unique_keys(keys),
        !keys.contains(k),
    ensures
        unique_keys(keys.push(k)),
        keys.push(k).index_of(k) == keys.len(),
{
    let ks = keys.push(k);
    assert forall|i: int, j: int| 0 <= i < ks.len() && 0 <= j < ks.len() && ks[i] == ks[j] implies i == j by {
        if i < keys.len() && j == keys.len() {
            assert(keys[i] == k);
        }
        if j < keys.len() && i == keys.len() {
            assert(keys[j] == k);
        }
    }
    lemma_unique_index(ks, keys.len() as int);
}

/// Excluding texts one list after another is excluding them all at once.
pub proof fn lemma_set_excluded_push(m: StoreModel, texts: Seq<Seq<char>>, t: Seq<char>, v: bool)
    ensures
        set_excluded_spec(set_excluded_spec(m, texts, v), seq![t], v) == set_excluded_spec(m, texts.push(t), v),
{
    let a = set_excluded_spec(set_excluded_spec(m, texts, v), seq![t], v);
    let b = set_excluded_spec(m, texts.push(t), v);
    assert forall|i: int| 0 <= i < m.expressions.len() implies a.expressions[i] == b.expressions[i] by {
        let x = m.expressions[i].text;
        assert(seq![t].contains(x) <==> x == t) by {
            if x == t {
                assert(seq![t][0] == x);
            }
        }
        assert(texts.push(t).contains(x) <==> (texts.contains(x) || x == t)) by {
            if texts.contains(x) {
                let k = choose|k: int| 0 <= k < texts.len() && texts[k] == x;
                assert(texts.push(t)[k] == x);
            }
            if x == t {
                assert(texts.push(t)[texts.len() as int] == x);
            }
            if texts.push(t).contains(x) {
                let k = choose|k: int| 0 <= k < texts.push(t).len() && texts.push(t)[k] == x;
                if k < texts.len() {
                    assert(texts[k] == x);
                }
            }
        }
    }
    assert(a.expressions =~= b.expressions);
}

/// Setting tags one list after another sets them all at once.
pub proof fn lemma_pos_flags_push(rows: Seq<PosModel>, tags: Seq<Seq<char>>, t: Seq<char>, v: bool)
    ensures
        pos_flags(pos_flags(rows, tags, v), seq![t], v) == pos_flags(rows, tags.push(t), v),
{
    let a = pos_flags(pos_flags(rows, tags, v), seq![t], v);
    let b = pos_flags(rows, tags.push(t), v);
    let all = tags.push(t);
    assert forall|i: int| 0 <= i < rows.len() implies a[i] == b[i] by {
        let x = rows[i].tag;
        if tags.contains(x) {
            let k = choose|k: int| 0 <= k < tags.len() && tags[k] == x;
            assert(all[k] == x);
        }
        if x == t {
            assert(all[tags.len() as int] == x);
            assert(seq![t][0] == x);
        }
        if all.contains(x) {
            let k = choose|k: int| 0 <= k < all.len() && all[k] == x;
            if k < tags.len() {
                assert(tags[k] == x);
            }
        }
        if seq![t].contains(x) {
            let k = choose|k: int| 0 <= k < 1 && seq![t][k] == x;
        }
    }
    assert(a =~= b);
}

/// The row a first occurrence creates.
pub open spec fn fresh_row(text: Seq<char>) -> ExpressionModel {
    ExpressionModel { text, frequency: 1, is_excluded: false, is_learned: false, in_anki: false }
}

/// Terms none of whose sentences the store holds are all new.
pub proof fn lemma_new_terms_all(m: StoreModel, ts: Seq<TermModel>)
    requires
        forall|k: int| 0 <= k < ts.len() ==> !m.has_sentence(#[trigger] ts[k].sentence),
    ensures
        new_terms(m, ts) == ts,
    decreases ts.len(),
{
    if ts.len() > 0 {
        assert forall|k: int| 0 <= k < ts.drop_last().len() implies !m.has_sentence(#[trigger] ts.drop_last()[k].sentence) by {
            assert(ts.drop_last()[k] == ts[k]);
        }
        lemma_new_terms_all(m, ts.drop_last());
        assert(!m.has_sentence(ts[ts.len() - 1].sentence));
        assert(ts.drop_last().push(ts.last()) =~= ts);
    }
}

/// Storing terms whose expressions are new and pairwise distinct appends one
/// row per term, each with frequency one.
pub proof fn lemma_insert_all_fresh(m: StoreModel, ts: Seq<TermModel>)
    requires
        forall|k: int| 0 <= k < ts.len() ==> !m.has_expression(#[trigger] ts[k].expression),
        forall|j: int, k: int| 0 <= j < k < ts.len() ==> #[trigger] ts[j].expression != #[trigger] ts[k].expression,
    ensures
        insert_all_spec(m, ts).expressions == m.expressions + Seq::new(ts.len(), |k: int| fresh_row(ts[k].expression)),
    decreases ts.len(),
{
    let fresh = Seq::new(ts.len(), |k: int| fresh_row(ts[k].expression));
    if ts.len() == 0 {
        assert(m.expressions + fresh =~= m.expressions);
    } else {
        let ps = ts.drop_last();
        assert forall|k: int| 0 <= k < ps.len() implies !m.has_expression(#[trigger] ps[k].expression) by {
            assert(ps[k] == ts[k]);
        }
        assert forall|j: int, k: int| 0 <= j < k < ps.len() implies #[trigger] ps[j].expression != #[trigger] ps[k].expression by {
            assert(ps[j] == ts[j] && ps[k] == ts[k]);
        }
        lemma_insert_all_fresh(m, ps);
        let p = insert_all_spec(m, ps);
        let pf = Seq::new(ps.len(), |k: int| fresh_row(ps[k].expression));
        let t = ts.last();
        assert(!expression_texts(p.expressions).contains(t.expression)) by {
            if expression_texts(p.expressions).contains(t.expression) {
                let i = choose|i: int| 0 <= i < expression_texts(p.expressions).len() && expression_texts(p.expressions)[i] == t.expression;
                if i < m.expressions.len() {
                    assert(expression_texts(m.expressions)[i] == t.expression);
                    assert(!m.has_expression(ts[ts.len() - 1].expression));
                } else {
                    let k = i - m.expressions.len();
                    assert(pf[k].text == ps[k].expression);
                    assert(ps[k] == ts[k]);
                    assert(ts[k].expression != ts[ts.len() - 1].expression);
                }
            }
        }
        assert(insert_all_spec(m, ts).expressions =~= m.expressions + fresh);
    }
}

/// Importing a new sentence twice: the first import adds one row of
/// frequency one per distinct new expression, and the second changes nothing.
pub proof fn lemma_new_sentence_imported_once(m: StoreModel, ts: Seq<TermModel>)
    requires
        forall|k: int| 0 <= k < ts.len() ==> !m.has_sentence(#[trigger] ts[k].sentence),
        forall|k: int| 0 <= k < ts.len() ==> !m.has_expression(#[trigger] ts[k].expression),
        forall|j: int, k: int| 0 <= j < k < ts.len() ==> #[trigger] ts[j].expression != #[trigger] ts[k].expression,
    ensures
        import_spec(m, ts).expressions == m.expressions + Seq::new(ts.len(), |k: int| fresh_row(ts[k].expression)),
        import_spec(import_spec(m, ts), ts) == import_spec(m, ts),
{
    lemma_new_terms_all(m, ts);
    lemma_insert_all_fresh(m, ts);
    lemma_reimport_unchanged(m, ts);
}

/// One term counts once: the term's expression gets frequency one when new,
/// or one more than before; every other row, and every flag, stays as it was.
pub proof fn lemma_insert_term_frequency(m: StoreModel, t: TermModel)
    requires
        m.wf(),
    ensures
        ({
            let r = insert_term_spec(m, t);
            let i = r.expression_id(t.expression);
            &&& 0 <= i < r.expressions.len()
            &&& r.expressions[i].text == t.expression
            &&& r.expressions[i].frequency == (if m.has_expression(t.expression) {
                m.expressions[i].frequency + 1
            } else {
                1
            })
            &&& r.expressions[i].is_excluded == (m.has_expression(t.expression) && m.expressions[i].is_excluded)
            &&& forall|j: int| 0 <= j < m.expressions.len() && j != i ==> #[trigger] r.expressions[j] == m.expressions[j]
        }),
{
    let r = insert_term_spec(m, t);
    let ks = expression_texts(m.expressions);
    if ks.contains(t.expression) {
        let i = ks.index_of(t.expression);
        assert(expression_texts(r.expressions) =~= ks);
    } else {
        lemma_push_unique(ks, t.expression);
        assert(expression_texts(r.expressions) =~= ks.push(t.expression));
    }
}

/// The join row of a term: its four rows' positions after the term is stored.
pub open spec fn term_occurrence(r: StoreModel, t: TermModel) -> Occurrence {
    Occurrence {
        expression_id: expression_texts(r.expressions).index_of(t.expression) as usize,
        pos_id: pos_tags(r.pos).index_of(t.pos) as usize,
        sentence_id: r.sentences.index_of(t.sentence) as usize,
        surface_string_id: r.surface_strings.index_of(t.surface_string) as usize,
    }
}

/// A stored term has its join row, naming existing rows; storing a term whose
/// join row is already there adds no join row.
pub proof fn lemma_insert_term_join_row(m: StoreModel, t: TermModel)
    requires
        m.wf(),
    ensures
        ({
            let r = insert_term_spec(m, t);
            let o = term_occurrence(r, t);
            &&& r.wf()
            &&& r.occurrences.contains(o)
            &&& occurrence_in_range(r, o)
            &&& m.occurrences.contains(o) ==> r.occurrences == m.occurrences
            &&& !m.occurrences.contains(o) ==> r.occurrences == m.occurrences.push(o)
        }),
{
    lemma_insert_term_wf(m, t);
    let r = insert_term_spec(m, t);
    let o = term_occurrence(r, t);
    if !m.occurrences.contains(o) {
        assert(r.occurrences[m.occurrences.len() as int] == o);
    }
    let k = choose|k: int| 0 <= k < r.occurrences.len() && r.occurrences[k] == o;
    assert(occurrence_in_range(r, r.occurrences[k]));
}

/// A listing by descending frequency never puts a less frequent expression
/// before a more frequent one.
pub proof fn lemma_descending_frequency(
    candidates: Seq<SortItemModel>,
    limit: Option<usize>,
    out: Seq<SortItemModel>,
)
    requires
        is_listing(candidates, SortKey::Frequency, false, limit, out),
    ensures
        forall|i: int, j: int| 0 <= i < j < out.len() ==> #[trigger] out[i].frequency >= #[trigger] out[j].frequency,
{
    let full = choose|full: Seq<SortItemModel>|
        #![trigger limited(full, limit)]
        full.to_multiset() == candidates.to_multiset() && sorted_by(SortKey::Frequency, false, full)
            && out == limited(full, limit);
    assert forall|i: int, j: int| 0 <= i < j < out.len() implies #[trigger] out[i].frequency >= #[trigger] out[j].frequency by {
        assert(out[i] == full[i] && out[j] == full[j]);
    }
}

} // verus!
