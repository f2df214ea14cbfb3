use crate::expression::Expression;
use crate::progress::Progress;
use crate::model::{
    ExpressionModel, PosModel, StoreModel, expression_candidates, expression_items,
    expression_texts, flag_rows, import_spec, insert_all_spec, insert_term_spec, is_listing,
    item_texts, lemma_flags_keep_wf, lemma_push_unique, lemma_unique_index, limit_of, limited,
    new_terms, occurrence_in_range, occurrences_of, order_key, pos_candidates, pos_items,
    pos_tags, reset_in_anki_spec, row_matches, set_excluded_spec, set_in_anki_spec,
    set_pos_excluded_spec, terms_view, unique_keys, upsert_expression, upsert_key, upsert_pos,
    with_flags, lemma_set_excluded_push, lemma_pos_flags_push, pos_flags, cascade_spec,
    only_excluded_tags,
};
use crate::sort::{items_view, sort_items, SortItem, SortItemModel, SortKey};
use crate::term::Term;
use crate::text::{contains_string, strings_view};
use vstd::prelude::*;

verus! {

broadcast use vstd::seq::Seq::lemma_push_map_commute;

/// A row of the expression table: the canonical form of a lexical unit and
/// its flags.
pub struct ExpressionRow {
    pub expression: String,
    pub frequency: u64,
    pub is_excluded: bool,
    pub is_learned: bool,
    pub in_anki: bool,
}

/// A row of the part-of-speech table.
pub struct PosRow {
    pub pos: String,
    pub is_excluded: bool,
}

/// One row of the join table: ids (table positions) of an expression, a part
/// of speech, a sentence and a surface form that occurred together.
#[derive(Clone, Copy, Debug, PartialEq, Eq, Structural)]
pub struct Occurrence {
    pub expression_id: usize,
    pub pos_id: usize,
    pub sentence_id: usize,
    pub surface_string_id: usize,
}

/// The store failed to take a batch; nothing of the batch was applied.
#[derive(Debug, PartialEq, Eq, Structural)]
pub enum StoreError {
    /// A frequency counter would pass the largest `u64`.
    FrequencyOverflow,
}

/// The normalized vocabulary store: expressions, parts of speech, sentences
/// and surface forms, each keyed by its text, and the table that joins them.
pub struct Store {
    expressions: Vec<ExpressionRow>,
    pos: Vec<PosRow>,
    sentences: Vec<String>,
    surface_strings: Vec<String>,
    occurrences: Vec<Occurrence>,
}

impl ExpressionRow {
    pub open spec fn model(&self) -> ExpressionModel {
        ExpressionModel {
            text: self.expression@,
            frequency: self.frequency as nat,
            is_excluded: self.is_excluded,
            is_learned: self.is_learned,
            in_anki: self.in_anki,
        }
    }
}

impl PosRow {
    pub open spec fn model(&self) -> PosModel {
        PosModel { tag: self.pos@, is_excluded: self.is_excluded }
    }
}

impl View for Store {
    type V = StoreModel;

    closed spec fn view(&self) -> StoreModel {
        StoreModel {
            expressions: self.expressions@.map_values(|r: ExpressionRow| r.model()),
            pos: self.pos@.map_values(|r: PosRow| r.model()),
            sentences: strings_view(self.sentences@),
            surface_strings: strings_view(self.surface_strings@),
            occurrences: self.occurrences@,
        }
    }
}

/// Position of `k` in `keys`, if it is there.
fn find_key(keys: &Vec<String>, k: &String) -> (r: Option<usize>)
    ensures
        r is Some ==> r->0 < keys@.len() && keys@[r->0 as int]@ == k@,
        r is None ==> !strings_view(keys@).contains(k@),
{
    let mut i: usize = 0;
    while i < keys.len()
        invariant
            i <= keys@.len(),
            forall|j: int| 0 <= j < i ==> keys@[j]@ != k@,
        decreases keys@.len() - i,
    {
        if keys[i] == *k {
            return Some(i);
        }
        i = i + 1;
    }
    proof {
        let ks = strings_view(keys@);
        assert forall|j: int| 0 <= j < ks.len() implies ks[j] != k@ by {
            assert(ks[j] == keys@[j]@);
        }
    }
    None
}

/// Inserts `k` unless present; returns its position.
fn upsert_string(keys: &mut Vec<String>, k: &String) -> (r: usize)
    requires
        unique_keys(strings_view(old(keys)@)),
    ensures
        strings_view(final(keys)@) == upsert_key(strings_view(old(keys)@), k@),
        unique_keys(strings_view(final(keys)@)),
        r < final(keys)@.len(),
        r as int == strings_view(final(keys)@).index_of(k@),
{
    let ghost ks = strings_view(keys@);
    match find_key(keys, k) {
        Some(i) => {
            proof {
                assert(ks[i as int] == k@);
                lemma_unique_index(ks, i as int);
            }
            i
        },
        None => {
            let n = keys.len();
            keys.push(k.clone());
            proof {
                lemma_push_unique(ks, k@);
                assert(strings_view(keys@) =~= ks.push(k@));
            }
            n
        },
    }
}

impl Store {
    pub closed spec fn wf(&self) -> bool {
        self@.wf()
    }

    /// Every frequency can grow by `n` within `u64`.
    pub closed spec fn headroom(&self, n: nat) -> bool {
        &&& n < u64::MAX
        &&& forall|i: int| 0 <= i < self.expressions@.len() ==> self.expressions@[i].frequency + n <= u64::MAX
    }

    /// An empty store.
    pub fn new() -> (r: Store)
        ensures
            r.wf(),
            forall|n: nat| n < u64::MAX ==> #[trigger] r.headroom(n),
            r@.expressions.len() == 0,
            r@.pos.len() == 0,
            r@.sentences.len() == 0,
            r@.surface_strings.len() == 0,
            r@.occurrences.len() == 0,
    {
        Store {
            expressions: Vec::new(),
            pos: Vec::new(),
            sentences: Vec::new(),
            surface_strings: Vec::new(),
            occurrences: Vec::new(),
        }
    }

    fn find_expression(&self, k: &String) -> (r: Option<usize>)
        ensures
            r is Some ==> r->0 < self@.expressions.len() && self@.expressions[r->0 as int].text == k@,
            r is None ==> !self@.has_expression(k@),
    {
        let mut i: usize = 0;
        while i < self.expressions.len()
            invariant
                i <= self.expressions@.len(),
                forall|j: int| 0 <= j < i ==> self.expressions@[j].expression@ != k@,
            decreases self.expressions@.len() - i,
        {
            if self.expressions[i].expression == *k {
                return Some(i);
            }
            i = i + 1;
        }
        proof {
            let ks = expression_texts(self@.expressions);
            assert forall|j: int| 0 <= j < ks.len() implies ks[j] != k@ by {
                assert(ks[j] == self.expressions@[j].expression@);
            }
        }
        None
    }

    fn find_pos(&self, k: &String) -> (r: Option<usize>)
        ensures
            r is Some ==> r->0 < self@.pos.len() && self@.pos[r->0 as int].tag == k@,
            r is None ==> !pos_tags(self@.pos).contains(k@),
    {
        let mut i: usize = 0;
        while i < self.pos.len()
            invariant
                i <= self.pos@.len(),
                forall|j: int| 0 <= j < i ==> self.pos@[j].pos@ != k@,
            decreases self.pos@.len() - i,
        {
            if self.pos[i].pos == *k {
                return Some(i);
            }
            i = i + 1;
        }
        proof {
            let ks = pos_tags(self@.pos);
            assert forall|j: int| 0 <= j < ks.len() implies ks[j] != k@ by {
                assert(ks[j] == self.pos@[j].pos@);
            }
        }
        None
    }

    /// Creates the expression with frequency one, or raises the frequency
    /// of the stored one; returns its position.
    pub fn insert_expression(&mut self, k: &String) -> (r: usize)
        requires
            old(self).wf(),
            old(self).headroom(1),
        ensures
            final(self)@ == (StoreModel { expressions: upsert_expression(old(self)@.expressions, k@), ..old(self)@ }),
            unique_keys(expression_texts(final(self)@.expressions)),
            r < final(self)@.expressions.len(),
            r as int == expression_texts(final(self)@.expressions).index_of(k@),
            forall|n: nat| n < u64::MAX && old(self).headroom(n + 1) ==> #[trigger] final(self).headroom(n),
    {
        let ghost m = self@;
        match self.find_expression(k) {
            Some(i) => {
                let row = ExpressionRow {
                    expression: self.expressions[i].expression.clone(),
                    frequency: self.expressions[i].frequency + 1,
                    is_excluded: self.expressions[i].is_excluded,
                    is_learned: self.expressions[i].is_learned,
                    in_anki: self.expressions[i].in_anki,
                };
                self.expressions.set(i, row);
                proof {
                    let ks = expression_texts(m.expressions);
                    assert(ks[i as int] == k@);
                    lemma_unique_index(ks, i as int);
                    assert(self@.expressions =~= upsert_expression(m.expressions, k@));
                    assert(expression_texts(self@.expressions) =~= ks);
                    assert forall|n: nat| n < u64::MAX && old(self).headroom(n + 1) implies #[trigger] self.headroom(n) by {
                        assert forall|j: int| 0 <= j < self.expressions@.len() implies self.expressions@[j].frequency + n <= u64::MAX by {
                            assert(old(self).expressions@[j].frequency + n + 1 <= u64::MAX);
                            if j == i as int {
                                assert(self.expressions@[j].frequency == old(self).expressions@[j].frequency + 1);
                            } else {
                                assert(self.expressions@[j] == old(self).expressions@[j]);
                            }
                        }
                    }
                }
                i
            },
            None => {
                let n = self.expressions.len();
                let row = ExpressionRow {
                    expression: k.clone(),
                    frequency: 1,
                    is_excluded: false,
                    is_learned: false,
                    in_anki: false,
                };
                self.expressions.push(row);
                proof {
                    let ks = expression_texts(m.expressions);
                    lemma_push_unique(ks, k@);
                    assert(self@.expressions =~= upsert_expression(m.expressions, k@));
                    assert(expression_texts(self@.expressions) =~= ks.push(k@));
                    assert forall|n: nat| n < u64::MAX && old(self).headroom(n + 1) implies #[trigger] self.headroom(n) by {
                        assert forall|j: int| 0 <= j < self.expressions@.len() implies self.expressions@[j].frequency + n <= u64::MAX by {
                            if j < old(self).expressions@.len() {
                                assert(old(self).expressions@[j].frequency + n + 1 <= u64::MAX);
                            } else {
                                assert(old(self).headroom(n + 1));
                            }
                        }
                    }
                }
                n
            },
        }
    }

    /// Creates the part-of-speech tag unless stored; returns its position.
    pub fn insert_pos(&mut self, k: &String) -> (r: usize)
        requires
            old(self).wf(),
        ensures
            final(self)@ == (StoreModel { pos: upsert_pos(old(self)@.pos, k@), ..old(self)@ }),
            unique_keys(pos_tags(final(self)@.pos)),
            r < final(self)@.pos.len(),
            r as int == pos_tags(final(self)@.pos).index_of(k@),
            forall|n: nat| old(self).headroom(n) ==> #[trigger] final(self).headroom(n),
    {
        let ghost m = self@;
        match self.find_pos(k) {
            Some(i) => {
                proof {
                    let ks = pos_tags(m.pos);
                    assert(ks[i as int] == k@);
                    lemma_unique_index(ks, i as int);
                }
                i
            },
            None => {
                let n = self.pos.len();
                self.pos.push(PosRow { pos: k.clone(), is_excluded: false });
                proof {
                    let ks = pos_tags(m.pos);
                    lemma_push_unique(ks, k@);
                    assert(self@.pos =~= upsert_pos(m.pos, k@));
                    assert(pos_tags(self@.pos) =~= ks.push(k@));
                }
                n
            },
        }
    }

    /// Stores one term (see `insert_term_spec`).
    pub fn insert_term(&mut self, term: &Term)
        requires
            old(self).wf(),
            old(self).headroom(1),
        ensures
            final(self).wf(),
            final(self)@ == insert_term_spec(old(self)@, term@),
            forall|n: nat| n < u64::MAX && old(self).headroom(n + 1) ==> #[trigger] final(self).headroom(n),
    {
        let ghost m = self@;
        let expression = String::from_str(term.expression());
        let pos = String::from_str(term.pos());
        let sentence = String::from_str(term.sentence());
        let surface_string = String::from_str(term.surface_string());
        let e = self.insert_expression(&expression);
        let ghost st1 = *self;
        let p = self.insert_pos(&pos);
        let ghost st2 = *self;
        let s = upsert_string(&mut self.sentences, &sentence);
        let f = upsert_string(&mut self.surface_strings, &surface_string);
        let o = Occurrence { expression_id: e, pos_id: p, sentence_id: s, surface_string_id: f };
        let mut found = false;
        let mut k: usize = 0;
        while k < self.occurrences.len()
            invariant
                k <= self.occurrences@.len(),
                !found ==> forall|j: int| 0 <= j < k ==> self.occurrences@[j] != o,
                found ==> self.occurrences@.contains(o),
            decreases self.occurrences@.len() - k,
        {
            if self.occurrences[k] == o {
                found = true;
            }
            k = k + 1;
        }
        if !found {
            self.occurrences.push(o);
        }
        proof {
            let t = term@;
            let r = insert_term_spec(m, t);
            assert(self@.expressions == r.expressions);
            assert(self@.pos == r.pos);
            assert(self@.sentences == r.sentences);
            assert(self@.surface_strings == r.surface_strings);
            assert(o == Occurrence {
                expression_id: expression_texts(r.expressions).index_of(t.expression) as usize,
                pos_id: pos_tags(r.pos).index_of(t.pos) as usize,
                sentence_id: r.sentences.index_of(t.sentence) as usize,
                surface_string_id: r.surface_strings.index_of(t.surface_string) as usize,
            });
            assert(self@.occurrences =~= r.occurrences);
            assert(self@ == r);
            let n = self@;
            assert forall|i: int| 0 <= i < n.occurrences.len() implies occurrence_in_range(n, #[trigger] n.occurrences[i]) by {
                if i < m.occurrences.len() {
                    assert(occurrence_in_range(m, m.occurrences[i]));
                }
            }
            if !found {
                assert forall|i: int, j: int| 0 <= i < n.occurrences.len() && 0 <= j < n.occurrences.len() && i != j implies n.occurrences[i] != n.occurrences[j] by {
                    if i < m.occurrences.len() && j < m.occurrences.len() {
                    } else if i < m.occurrences.len() {
                        assert(n.occurrences[j] == o);
                    } else {
                        assert(n.occurrences[i] == o);
                    }
                }
            }
            assert forall|nn: nat| nn < u64::MAX && old(self).headroom(nn + 1) implies #[trigger] self.headroom(nn) by {
                assert(st1.headroom(nn));
                assert(st2.headroom(nn));
                assert(self.expressions@ == st2.expressions@);
            }
        }
    }

    /// Whether every frequency can grow by `n` within `u64`.
    pub fn has_headroom(&self, n: u64) -> (r: bool)
        ensures
            r == self.headroom(n as nat),
    {
        if n == u64::MAX {
            return false;
        }
        let mut i: usize = 0;
        while i < self.expressions.len()
            invariant
                i <= self.expressions@.len(),
                n < u64::MAX,
                forall|j: int| 0 <= j < i ==> self.expressions@[j].frequency + n <= u64::MAX,
            decreases self.expressions@.len() - i,
        {
            if self.expressions[i].frequency > u64::MAX - n {
                return false;
            }
            i = i + 1;
        }
        true
    }

    /// Stores the terms in order, in one all-or-nothing step: when a
    /// frequency could overflow nothing is stored and the error is returned.
    pub fn insert_term_list(&mut self, term_list: &Vec<Term>) -> (r: Result<(), StoreError>)
        requires
            old(self).wf(),
        ensures
            final(self).wf(),
            r is Ok <==> old(self).headroom(term_list@.len() as nat),
            r is Ok ==> final(self)@ == insert_all_spec(old(self)@, terms_view(term_list@)),
            r is Err ==> final(self)@ == old(self)@,
    {
        if term_list.len() as u64 >= u64::MAX || !self.has_headroom(term_list.len() as u64) {
            return Err(StoreError::FrequencyOverflow);
        }
        let ghost ts = terms_view(term_list@);
        let mut i: usize = 0;
        while i < term_list.len()
            invariant
                i <= term_list@.len(),
                term_list@.len() < u64::MAX,
                ts == terms_view(term_list@),
                self.wf(),
                self.headroom((term_list@.len() - i) as nat),
                self@ == insert_all_spec(old(self)@, ts.take(i as int)),
            decreases term_list@.len() - i,
        {
            self.insert_term(&term_list[i]);
            proof {
                assert(ts.take(i + 1).drop_last() =~= ts.take(i as int));
                assert(ts.take(i + 1).last() == term_list@[i as int]@);
                assert(((term_list@.len() - i - 1) as nat) < u64::MAX);
                assert(((term_list@.len() - i - 1) as nat) + 1 == (term_list@.len() - i) as nat);
            }
            i = i + 1;
        }
        proof {
            assert(ts.take(term_list@.len() as int) =~= ts);
        }
        Ok(())
    }

    /// Whether the sentence was stored before.
    pub fn select_sentence_exists(&self, sentence: &str) -> (r: bool)
        ensures
            r == self@.has_sentence(sentence@),
    {
        let k = String::from_str(sentence);
        match find_key(&self.sentences, &k) {
            Some(i) => {
                assert(strings_view(self.sentences@)[i as int] == k@);
                true
            },
            None => false,
        }
    }

    /// The sentences of `sentence_list` that the store already holds, in order.
    pub fn select_imported_sentence_list(&self, sentence_list: &Vec<String>) -> (r: Vec<String>)
        ensures
            strings_view(r@) == strings_view(sentence_list@).filter(|x: Seq<char>| self@.has_sentence(x)),
    {
        let ghost f = |x: Seq<char>| self@.has_sentence(x);
        let ghost v = strings_view(sentence_list@);
        let mut r: Vec<String> = Vec::new();
        let mut i: usize = 0;
        while i < sentence_list.len()
            invariant
                i <= sentence_list@.len(),
                v == strings_view(sentence_list@),
                f == (|x: Seq<char>| self@.has_sentence(x)),
                strings_view(r@) == v.take(i as int).filter(f),
            decreases sentence_list@.len() - i,
        {
            let sentence = &sentence_list[i];
            proof {
                reveal(Seq::filter);
                assert(v.take(i + 1).drop_last() =~= v.take(i as int));
                assert(v.take(i + 1).last() == sentence@);
            }
            if self.select_sentence_exists(sentence.as_str()) {
                r.push(sentence.clone());
                assert(strings_view(r@) =~= v.take(i as int).filter(f).push(sentence@));
            }
            i = i + 1;
        }
        assert(v.take(sentence_list@.len() as int) =~= v);
        r
    }

    /// Drops every term whose sentence the store already holds: a sentence
    /// is imported at most once, whatever it tokenizes to now.
    pub fn filter_new_term_list(&self, term_list: Vec<Term>) -> (r: Vec<Term>)
        ensures
            terms_view(r@) == new_terms(self@, terms_view(term_list@)),
    {
        let ghost ts = terms_view(term_list@);
        let mut r: Vec<Term> = Vec::new();
        let mut i: usize = 0;
        while i < term_list.len()
            invariant
                i <= term_list@.len(),
                ts == terms_view(term_list@),
                terms_view(r@) == new_terms(self@, ts.take(i as int)),
            decreases term_list@.len() - i,
        {
            let term = &term_list[i];
            proof {
                assert(ts.take(i + 1).drop_last() =~= ts.take(i as int));
                assert(ts.take(i + 1).last() == term@);
            }
            if !self.select_sentence_exists(term.sentence()) {
                r.push(term.duplicate());
                assert(terms_view(r@) =~= new_terms(self@, ts.take(i as int)).push(term@));
            }
            i = i + 1;
        }
        assert(ts.take(term_list@.len() as int) =~= ts);
        r
    }

    /// One ingestion batch: the terms of sentences imported before are
    /// dropped and the rest is stored, all or nothing.
    pub fn import_term_list(&mut self, term_list: Vec<Term>) -> (r: Result<(), StoreError>)
        requires
            old(self).wf(),
        ensures
            final(self).wf(),
            r is Ok <==> old(self).headroom(new_terms(old(self)@, terms_view(term_list@)).len()),
            r is Ok ==> final(self)@ == import_spec(old(self)@, terms_view(term_list@)),
            r is Err ==> final(self)@ == old(self)@,
    {
        let fresh = self.filter_new_term_list(term_list);
        proof {
            assert(terms_view(fresh@).len() == fresh@.len());
        }
        self.insert_term_list(&fresh)
    }

    /// Replaces the flags of the expression at `i`.
    fn set_expression_flags(&mut self, i: usize, is_excluded: bool, in_anki: bool)
        requires
            i < old(self)@.expressions.len(),
        ensures
            final(self)@ == (StoreModel {
                expressions: old(self)@.expressions.update(i as int, with_flags(old(self)@.expressions[i as int], is_excluded, in_anki)),
                ..old(self)@
            }),
            final(self).expressions@.len() == old(self).expressions@.len(),
            forall|j: int| 0 <= j < old(self).expressions@.len() ==> (#[trigger] final(self).expressions@[j]).frequency == old(self).expressions@[j].frequency,
    {
        let row = ExpressionRow {
            expression: self.expressions[i].expression.clone(),
            frequency: self.expressions[i].frequency,
            is_excluded,
            is_learned: self.expressions[i].is_learned,
            in_anki,
        };
        self.expressions.set(i, row);
        proof {
            assert(self@.expressions =~= old(self)@.expressions.update(i as int, with_flags(old(self)@.expressions[i as int], is_excluded, in_anki)));
        }
    }

    /// Whether the expression at `e` has a join row whose tag is in `pos_list`.
    fn occurs_under(&self, e: usize, pos_list: &Vec<String>) -> (r: bool)
        requires
            self.wf(),
        ensures
            r == self@.occurs_under(e as int, strings_view(pos_list@)),
    {
        let ghost m = self@;
        let ghost tags = strings_view(pos_list@);
        let mut k: usize = 0;
        while k < self.occurrences.len()
            invariant
                self.wf(),
                m == self@,
                tags == strings_view(pos_list@),
                k <= self.occurrences@.len(),
                forall|j: int|
                    0 <= j < k && #[trigger] m.occurrences[j].expression_id == e
                        ==> !tags.contains(m.occurrence_tag(m.occurrences[j])),
            decreases self.occurrences@.len() - k,
        {
            let o = self.occurrences[k];
            proof {
                assert(occurrence_in_range(m, m.occurrences[k as int]));
            }
            if o.expression_id == e && contains_string(pos_list, self.pos[o.pos_id].pos.as_str()) {
                assert(m.occurrences[k as int].expression_id == e);
                return true;
            }
            k = k + 1;
        }
        false
    }

    /// Sets the exclusion flag of each listed tag.
    fn set_pos_flags(&mut self, pos_list: &Vec<String>, is_excluded: bool)
        requires
            old(self).wf(),
        ensures
            final(self).wf(),
            final(self)@ == (StoreModel { pos: pos_flags(old(self)@.pos, strings_view(pos_list@), is_excluded), ..old(self)@ }),
            final(self).expressions@ == old(self).expressions@,
    {
        let ghost m = self@;
        let ghost tags = strings_view(pos_list@);
        let ghost goal = pos_flags(m.pos, tags, is_excluded);
        assert(m.pos =~= goal.take(0) + m.pos.skip(0));
        let mut i: usize = 0;
        while i < self.pos.len()
            invariant
                m.wf(),
                m == old(self)@,
                goal == pos_flags(m.pos, tags, is_excluded),
                self.expressions@ == old(self).expressions@,
                i <= self.pos@.len(),
                self.pos@.len() == m.pos.len(),
                tags == strings_view(pos_list@),
                self@ == (StoreModel { pos: goal.take(i as int) + m.pos.skip(i as int), ..m }),
            decreases self.pos@.len() - i,
        {
            let ghost before = self@;
            assert(before.pos[i as int] == m.pos[i as int]);
            assert(self.pos@[i as int].model() == before.pos[i as int]);
            if contains_string(pos_list, self.pos[i].pos.as_str()) {
                let row = PosRow { pos: self.pos[i].pos.clone(), is_excluded };
                self.pos.set(i, row);
                assert(self@.pos == before.pos.update(i as int, goal[i as int]));
            } else {
                assert(before.pos[i as int] == goal[i as int]);
            }
            proof {
                assert(self@.pos =~= goal.take(i + 1) + m.pos.skip(i + 1));
            }
            i = i + 1;
        }
        proof {
            assert(self@.pos =~= goal);
            lemma_flags_keep_wf(m, m.expressions, goal);
        }
    }

    /// Whether every occurrence of the expression at `e` carries an excluded tag.
    fn only_excluded_tags(&self, e: usize) -> (r: bool)
        requires
            self.wf(),
        ensures
            r == only_excluded_tags(self@, e as int),
    {
        let ghost m = self@;
        let mut k: usize = 0;
        while k < self.occurrences.len()
            invariant
                self.wf(),
                m == self@,
                k <= self.occurrences@.len(),
                forall|j: int|
                    0 <= j < k && #[trigger] m.occurrences[j].expression_id == e
                        ==> m.pos[m.occurrences[j].pos_id as int].is_excluded,
            decreases self.occurrences@.len() - k,
        {
            let o = self.occurrences[k];
            proof {
                assert(occurrence_in_range(m, m.occurrences[k as int]));
                assert(self.pos@[o.pos_id as int].model() == m.pos[o.pos_id as int]);
            }
            if o.expression_id == e && !self.pos[o.pos_id].is_excluded {
                assert(m.occurrences[k as int].expression_id == e);
                return false;
            }
            k = k + 1;
        }
        true
    }

    /// Passes the listed tags' flag on to the expressions seen under them
    /// (see `cascade_spec`).
    fn cascade(&mut self, pos_list: &Vec<String>, is_excluded: bool)
        requires
            old(self).wf(),
        ensures
            final(self).wf(),
            final(self)@ == (StoreModel { expressions: cascade_spec(old(self)@, strings_view(pos_list@), is_excluded), ..old(self)@ }),
            forall|n: nat| old(self).headroom(n) ==> #[trigger] final(self).headroom(n),
    {
        let ghost m = self@;
        let ghost tags = strings_view(pos_list@);
        let ghost goal = cascade_spec(m, tags, is_excluded);
        let ghost st = *self;
        assert(self@.expressions =~= goal.take(0) + m.expressions.skip(0));
        let mut i: usize = 0;
        while i < self.expressions.len()
            invariant
                m.wf(),
                m == old(self)@,
                goal == cascade_spec(m, tags, is_excluded),
                st == *old(self),
                i <= self.expressions@.len(),
                self.expressions@.len() == m.expressions.len(),
                tags == strings_view(pos_list@),
                self.wf(),
                forall|j: int| 0 <= j < m.expressions.len() ==> (#[trigger] self.expressions@[j]).frequency == st.expressions@[j].frequency,
                self@ == (StoreModel { expressions: goal.take(i as int) + m.expressions.skip(i as int), ..m }),
            decreases self.expressions@.len() - i,
        {
            let ghost cur = self@;
            let hit = self.occurs_under(i, pos_list) && (!is_excluded || self.only_excluded_tags(i));
            proof {
                assert(cur.occurs_under(i as int, tags) == m.occurs_under(i as int, tags));
                assert(only_excluded_tags(cur, i as int) == only_excluded_tags(m, i as int));
            }
            assert(cur.expressions[i as int] == m.expressions[i as int]);
            if hit {
                let in_anki = self.expressions[i].in_anki;
                self.set_expression_flags(i, is_excluded, in_anki);
                assert(self@.expressions == cur.expressions.update(i as int, goal[i as int]));
            } else {
                assert(cur.expressions[i as int] == goal[i as int]);
            }
            proof {
                assert(self@.expressions =~= goal.take(i + 1) + m.expressions.skip(i + 1));
                lemma_flags_keep_wf(m, self@.expressions, m.pos);
            }
            i = i + 1;
        }
        proof {
            assert(self@.expressions =~= goal);
            assert forall|n: nat| old(self).headroom(n) implies #[trigger] self.headroom(n) by {
                assert forall|j: int| 0 <= j < self.expressions@.len() implies self.expressions@[j].frequency + n <= u64::MAX by {
                    assert(self.expressions@[j].frequency == st.expressions@[j].frequency);
                }
            }
        }
    }

    fn flag_rows(&mut self, texts: &Vec<String>, all: bool, excluded_flag: bool, value: bool)
        requires
            old(self).wf(),
        ensures
            final(self).wf(),
            final(self)@ == (StoreModel {
                expressions: flag_rows(old(self)@.expressions, strings_view(texts@), all, excluded_flag, value),
                ..old(self)@
            }),
            forall|n: nat| old(self).headroom(n) ==> #[trigger] final(self).headroom(n),
    {
        let ghost m = self@;
        let ghost goal = flag_rows(m.expressions, strings_view(texts@), all, excluded_flag, value);
        assert(self@.expressions =~= goal.take(0) + m.expressions.skip(0));
        let mut i: usize = 0;
        while i < self.expressions.len()
            invariant
                m.wf(),
                m == old(self)@,
                goal == flag_rows(m.expressions, strings_view(texts@), all, excluded_flag, value),
                i <= self.expressions@.len(),
                self.expressions@.len() == m.expressions.len(),
                self.wf(),
                forall|j: int| 0 <= j < m.expressions.len() ==> (#[trigger] self.expressions@[j]).frequency == old(self).expressions@[j].frequency,
                self@ == (StoreModel { expressions: goal.take(i as int) + m.expressions.skip(i as int), ..m }),
            decreases self.expressions@.len() - i,
        {
            let ghost cur = self@;
            assert(cur.expressions[i as int] == m.expressions[i as int]);
            assert(self.expressions@[i as int].model() == cur.expressions[i as int]);
            if all || contains_string(texts, self.expressions[i].expression.as_str()) {
                let is_excluded = if excluded_flag { value } else { self.expressions[i].is_excluded };
                let in_anki = if excluded_flag { self.expressions[i].in_anki } else { value };
                self.set_expression_flags(i, is_excluded, in_anki);
                assert(self@.expressions == cur.expressions.update(i as int, goal[i as int]));
            } else {
                assert(cur.expressions[i as int] == goal[i as int]);
            }
            proof {
                assert(self@.expressions =~= goal.take(i + 1) + m.expressions.skip(i + 1));
                lemma_flags_keep_wf(m, self@.expressions, m.pos);
                assert(self@.pos == m.pos);
            }
            i = i + 1;
        }
        proof {
            assert(self@.expressions =~= goal);
            assert forall|n: nat| old(self).headroom(n) implies #[trigger] self.headroom(n) by {
                assert forall|j: int| 0 <= j < self.expressions@.len() implies self.expressions@[j].frequency + n <= u64::MAX by {
                    assert(self.expressions@[j].frequency == old(self).expressions@[j].frequency);
                }
            }
        }
    }

    /// Sets the exclusion flag of every stored expression named in the list.
    pub(crate) fn set_expression_list_excluded(&mut self, expression_list: &Vec<Expression>, is_excluded: bool)
        requires
            old(self).wf(),
        ensures
            final(self).wf(),
            final(self)@ == set_excluded_spec(old(self)@, expression_list@.map_values(|e: Expression| e@.expression), is_excluded),
            forall|n: nat| old(self).headroom(n) ==> #[trigger] final(self).headroom(n),
    {
        let mut texts: Vec<String> = Vec::new();
        let mut i: usize = 0;
        while i < expression_list.len()
            invariant
                i <= expression_list@.len(),
                strings_view(texts@) == expression_list@.map_values(|e: Expression| e@.expression).take(i as int),
            decreases expression_list@.len() - i,
        {
            texts.push(String::from_str(expression_list[i].get_expression()));
            proof {
                let want = expression_list@.map_values(|e: Expression| e@.expression);
                assert(strings_view(texts@) =~= want.take(i + 1));
            }
            i = i + 1;
        }
        assert(expression_list@.map_values(|e: Expression| e@.expression).take(expression_list@.len() as int) =~= expression_list@.map_values(|e: Expression| e@.expression));
        self.flag_rows(&texts, false, true, is_excluded);
    }

    /// Marks the expression with the given text as being in the flashcard set
    /// (or not).
    pub fn update_in_anki_for_expression(&mut self, in_anki: bool, expression: &str)
        requires
            old(self).wf(),
        ensures
            final(self).wf(),
            final(self)@ == set_in_anki_spec(old(self)@, expression@, in_anki),
            forall|n: nat| old(self).headroom(n) ==> #[trigger] final(self).headroom(n),
    {
        let mut texts: Vec<String> = Vec::new();
        texts.push(String::from_str(expression));
        assert(strings_view(texts@) =~= seq![expression@]);
        self.flag_rows(&texts, false, false, in_anki);
    }

    /// Clears the flashcard flag of every expression.
    pub fn reset_in_anki(&mut self)
        requires
            old(self).wf(),
        ensures
            final(self).wf(),
            final(self)@ == reset_in_anki_spec(old(self)@),
            forall|n: nat| old(self).headroom(n) ==> #[trigger] final(self).headroom(n),
    {
        let texts: Vec<String> = Vec::new();
        assert(strings_view(texts@) =~= Seq::<Seq<char>>::empty());
        self.flag_rows(&texts, true, false, false);
    }

    /// Orders the candidates and cuts the listing at the limit.
    fn order_and_limit(items: &Vec<SortItem>, key: SortKey, asc: bool, limit: Option<usize>) -> (r: Vec<SortItem>)
        ensures
            is_listing(items_view(items@), key, asc, limit, items_view(r@)),
    {
        let mut sorted = sort_items(items, key, asc);
        let ghost full = items_view(sorted@);
        match limit {
            Some(n) => {
                if n < sorted.len() {
                    sorted.truncate(n);
                    assert(items_view(sorted@) =~= full.take(n as int));
                }
            },
            None => {},
        }
        assert(limited(full, limit) == items_view(sorted@));
        sorted
    }

    fn row_matches(&self, i: usize, in_anki: Option<bool>, is_excluded: Option<bool>, is_learned: Option<bool>) -> (r: bool)
        requires
            i < self@.expressions.len(),
        ensures
            r == row_matches(self@.expressions[i as int], in_anki, is_excluded, is_learned),
    {
        let row = &self.expressions[i];
        assert(row.model() == self@.expressions[i as int]);
        (match in_anki { None => true, Some(v) => row.in_anki == v })
            && (match is_excluded { None => true, Some(v) => row.is_excluded == v })
            && (match is_learned { None => true, Some(v) => row.is_learned == v })
    }

    /// The expressions whose flags pass the filters, ordered and cut at the
    /// limit.
    pub fn select_expression_items(
        &self,
        in_anki: Option<bool>,
        is_excluded: Option<bool>,
        is_learned: Option<bool>,
        key: SortKey,
        asc: bool,
        limit: Option<usize>,
    ) -> (r: Vec<SortItem>)
        ensures
            is_listing(expression_candidates(self@, in_anki, is_excluded, is_learned), key, asc, limit, items_view(r@)),
    {
        let ghost m = self@;
        let ghost pred = |x: SortItemModel| row_matches(m.expressions[x.id], in_anki, is_excluded, is_learned);
        let ghost all = expression_items(m);
        let mut items: Vec<SortItem> = Vec::new();
        let mut i: usize = 0;
        while i < self.expressions.len()
            invariant
                m == self@,
                all == expression_items(m),
                pred == (|x: SortItemModel| row_matches(m.expressions[x.id], in_anki, is_excluded, is_learned)),
                i <= self.expressions@.len(),
                m.expressions.len() == self.expressions@.len(),
                items_view(items@) == all.take(i as int).filter(pred),
            decreases self.expressions@.len() - i,
        {
            proof {
                reveal(Seq::filter);
                assert(all.take(i + 1).drop_last() =~= all.take(i as int));
                assert(self.expressions@[i as int].model() == m.expressions[i as int]);
            }
            if self.row_matches(i, in_anki, is_excluded, is_learned) {
                let item = SortItem {
                    id: i,
                    frequency: self.expressions[i].frequency,
                    text: self.expressions[i].expression.clone(),
                };
                items.push(item);
                assert(items_view(items@) =~= all.take(i as int).filter(pred).push(item.model()));
            }
            i = i + 1;
        }
        assert(all.take(self.expressions@.len() as int) =~= all);
        Self::order_and_limit(&items, key, asc, limit)
    }

    fn texts_of(items: &Vec<SortItem>) -> (r: Vec<String>)
        ensures
            strings_view(r@) == item_texts(items_view(items@)),
    {
        let mut r: Vec<String> = Vec::new();
        let mut i: usize = 0;
        while i < items.len()
            invariant
                i <= items@.len(),
                strings_view(r@) == item_texts(items_view(items@)).take(i as int),
            decreases items@.len() - i,
        {
            r.push(items[i].text.clone());
            proof {
                let want = item_texts(items_view(items@));
                assert(strings_view(r@) =~= want.take(i + 1));
            }
            i = i + 1;
        }
        assert(item_texts(items_view(items@)).take(items@.len() as int) =~= item_texts(items_view(items@)));
        r
    }

    /// Lists expressions: flashcard, excluded and learned ones only when the
    /// matching argument asks for them; ordered by "id", "expression" or
    /// (any other value) frequency; cut at `limit` unless it is -1 or below.
    pub fn select_expression_list(
        &self,
        in_anki: bool,
        is_excluded: bool,
        is_learned: bool,
        order_by: &str,
        is_asc: bool,
        limit: i32,
    ) -> (r: Vec<Expression>)
        ensures
            exists|out: Seq<SortItemModel>|
                is_listing(
                    expression_candidates(
                        self@,
                        if in_anki { None } else { Some(false) },
                        if is_excluded { None } else { Some(false) },
                        if is_learned { None } else { Some(false) },
                    ),
                    order_key(order_by@),
                    is_asc,
                    limit_of(limit),
                    out,
                ) && r@.map_values(|e: Expression| e@.expression) == item_texts(out),
    {
        let order = String::from_str(order_by);
        let key = if order == String::from_str("id") {
            SortKey::Id
        } else if order == String::from_str("expression") {
            SortKey::Text
        } else {
            SortKey::Frequency
        };
        let lim = if limit > -1 { Some(limit as usize) } else { None };
        let items = self.select_expression_items(
            if in_anki { None } else { Some(false) },
            if is_excluded { None } else { Some(false) },
            if is_learned { None } else { Some(false) },
            key,
            is_asc,
            lim,
        );
        let mut r: Vec<Expression> = Vec::new();
        let mut i: usize = 0;
        while i < items.len()
            invariant
                i <= items@.len(),
                r@.map_values(|e: Expression| e@.expression) == item_texts(items_view(items@)).take(i as int),
            decreases items@.len() - i,
        {
            let e = Expression::new(items[i].text.clone());
            r.push(e);
            proof {
                let want = item_texts(items_view(items@));
                assert(r@.map_values(|e: Expression| e@.expression) =~= want.take(i + 1));
            }
            i = i + 1;
        }
        assert(item_texts(items_view(items@)).take(items@.len() as int) =~= item_texts(items_view(items@)));
        r
    }

    /// The most frequent expressions first; a limit of 0 means none.
    pub fn select_expression(&self, limit: u32) -> (r: Vec<String>)
        ensures
            exists|out: Seq<SortItemModel>|
                is_listing(
                    expression_candidates(self@, None, None, None),
                    SortKey::Frequency,
                    false,
                    if limit == 0 { None } else { Some(limit as usize) },
                    out,
                ) && strings_view(r@) == item_texts(out),
    {
        let lim = if limit == 0 { None } else { Some(limit as usize) };
        let items = self.select_expression_items(None, None, None, SortKey::Frequency, false, lim);
        Self::texts_of(&items)
    }

    /// The excluded expressions, most frequent first; a limit of 0 means none.
    pub fn select_expression_excluded(&self, limit: u32) -> (r: Vec<String>)
        ensures
            exists|out: Seq<SortItemModel>|
                is_listing(
                    expression_candidates(self@, None, Some(true), None),
                    SortKey::Frequency,
                    false,
                    if limit == 0 { None } else { Some(limit as usize) },
                    out,
                ) && strings_view(r@) == item_texts(out),
    {
        let lim = if limit == 0 { None } else { Some(limit as usize) };
        let items = self.select_expression_items(None, Some(true), None, SortKey::Frequency, false, lim);
        Self::texts_of(&items)
    }

    /// The expressions in the flashcard set, most frequent first; a limit of 0
    /// means none.
    pub fn select_expression_in_anki(&self, limit: u32) -> (r: Vec<String>)
        ensures
            exists|out: Seq<SortItemModel>|
                is_listing(
                    expression_candidates(self@, Some(true), None, None),
                    SortKey::Frequency,
                    false,
                    if limit == 0 { None } else { Some(limit as usize) },
                    out,
                ) && strings_view(r@) == item_texts(out),
    {
        let lim = if limit == 0 { None } else { Some(limit as usize) };
        let items = self.select_expression_items(Some(true), None, None, SortKey::Frequency, false, lim);
        Self::texts_of(&items)
    }

    /// Lists part-of-speech tags (excluded ones only when asked for) by text,
    /// cut at `limit` unless it is -1 or below.
    pub fn select_pos_list(&self, is_excluded: bool, is_asc: bool, limit: i32) -> (r: Vec<String>)
        ensures
            exists|out: Seq<SortItemModel>|
                is_listing(pos_candidates(self@, is_excluded), SortKey::Text, is_asc, limit_of(limit), out)
                    && strings_view(r@) == item_texts(out),
    {
        let ghost m = self@;
        let ghost pred = |x: SortItemModel| is_excluded || !m.pos[x.id].is_excluded;
        let ghost all = pos_items(m);
        let mut items: Vec<SortItem> = Vec::new();
        let mut i: usize = 0;
        while i < self.pos.len()
            invariant
                m == self@,
                all == pos_items(m),
                pred == (|x: SortItemModel| is_excluded || !m.pos[x.id].is_excluded),
                i <= self.pos@.len(),
                m.pos.len() == self.pos@.len(),
                items_view(items@) == all.take(i as int).filter(pred),
            decreases self.pos@.len() - i,
        {
            proof {
                reveal(Seq::filter);
                assert(all.take(i + 1).drop_last() =~= all.take(i as int));
                assert(self.pos@[i as int].model() == m.pos[i as int]);
            }
            if is_excluded || !self.pos[i].is_excluded {
                let item = SortItem { id: i, frequency: 0, text: self.pos[i].pos.clone() };
                items.push(item);
                assert(items_view(items@) =~= all.take(i as int).filter(pred).push(item.model()));
            }
            i = i + 1;
        }
        assert(all.take(self.pos@.len() as int) =~= all);
        let lim = if limit > -1 { Some(limit as usize) } else { None };
        let sorted = Self::order_and_limit(&items, SortKey::Text, is_asc, lim);
        Self::texts_of(&sorted)
    }

    /// The tag of each join row of the expression, in table order.
    pub fn select_pos_for_expression(&self, expression: &str) -> (r: Vec<String>)
        requires
            self.wf(),
        ensures
            strings_view(r@) == occurrences_of(self@, expression@).map_values(|o: Occurrence| self@.pos[o.pos_id as int].tag),
    {
        self.join_column(expression, true)
    }

    /// The sentence of each join row of the expression, in table order.
    pub fn select_sentence_for_expression(&self, expression: &str) -> (r: Vec<String>)
        requires
            self.wf(),
        ensures
            strings_view(r@) == occurrences_of(self@, expression@).map_values(|o: Occurrence| self@.sentences[o.sentence_id as int]),
    {
        self.join_column(expression, false)
    }

    fn join_column(&self, expression: &str, want_pos: bool) -> (r: Vec<String>)
        requires
            self.wf(),
        ensures
            want_pos ==> strings_view(r@) == occurrences_of(self@, expression@).map_values(|o: Occurrence| self@.pos[o.pos_id as int].tag),
            !want_pos ==> strings_view(r@) == occurrences_of(self@, expression@).map_values(|o: Occurrence| self@.sentences[o.sentence_id as int]),
    {
        let ghost m = self@;
        let ghost pred = |o: Occurrence| m.expressions[o.expression_id as int].text == expression@;
        let ghost f = |o: Occurrence| if want_pos { m.pos[o.pos_id as int].tag } else { m.sentences[o.sentence_id as int] };
        let key = String::from_str(expression);
        let mut r: Vec<String> = Vec::new();
        let mut k: usize = 0;
        while k < self.occurrences.len()
            invariant
                m == self@,
                m.wf(),
                key@ == expression@,
                pred == (|o: Occurrence| m.expressions[o.expression_id as int].text == expression@),
                f == (|o: Occurrence| if want_pos { m.pos[o.pos_id as int].tag } else { m.sentences[o.sentence_id as int] }),
                k <= self.occurrences@.len(),
                strings_view(r@) == m.occurrences.take(k as int).filter(pred).map_values(f),
            decreases self.occurrences@.len() - k,
        {
            let o = self.occurrences[k];
            proof {
                reveal(Seq::filter);
                assert(m.occurrences.take(k + 1).drop_last() =~= m.occurrences.take(k as int));
                assert(m.occurrences.take(k + 1).last() == o);
                assert(occurrence_in_range(m, m.occurrences[k as int]));
                assert(self.expressions@[o.expression_id as int].model() == m.expressions[o.expression_id as int]);
                assert(self.pos@[o.pos_id as int].model() == m.pos[o.pos_id as int]);
                assert(self.sentences@[o.sentence_id as int]@ == m.sentences[o.sentence_id as int]);
            }
            if self.expressions[o.expression_id].expression == key {
                let v = if want_pos {
                    self.pos[o.pos_id].pos.clone()
                } else {
                    self.sentences[o.sentence_id].clone()
                };
                let ghost prev = m.occurrences.take(k as int).filter(pred);
                r.push(v);
                proof {
                    let want = prev.push(o).map_values(f);
                    assert(strings_view(r@) =~= want);
                }
            }
            k = k + 1;
        }
        assert(m.occurrences.take(self.occurrences@.len() as int) =~= m.occurrences);
        proof {
            let occ = occurrences_of(m, expression@);
            assert(m.occurrences.filter(pred) == occ);
            if want_pos {
                assert(occ.map_values(f) =~= occ.map_values(|o: Occurrence| m.pos[o.pos_id as int].tag));
            } else {
                assert(occ.map_values(f) =~= occ.map_values(|o: Occurrence| m.sentences[o.sentence_id as int]));
            }
        }
        r
    }

    /// Creates the sentence unless stored; returns its position.
    pub fn insert_sentence(&mut self, k: &String) -> (r: usize)
        requires
            old(self).wf(),
        ensures
            final(self).wf(),
            final(self)@ == (StoreModel { sentences: upsert_key(old(self)@.sentences, k@), ..old(self)@ }),
            r as int == final(self)@.sentences.index_of(k@),
    {
        let ghost m = self@;
        let r = upsert_string(&mut self.sentences, k);
        proof {
            let n = self@;
            assert forall|i: int| 0 <= i < n.occurrences.len() implies occurrence_in_range(n, #[trigger] n.occurrences[i]) by {
                assert(occurrence_in_range(m, m.occurrences[i]));
            }
        }
        r
    }

    /// Creates the surface form unless stored; returns its position.
    pub fn insert_surface_string(&mut self, k: &String) -> (r: usize)
        requires
            old(self).wf(),
        ensures
            final(self).wf(),
            final(self)@ == (StoreModel { surface_strings: upsert_key(old(self)@.surface_strings, k@), ..old(self)@ }),
            r as int == final(self)@.surface_strings.index_of(k@),
    {
        let ghost m = self@;
        let r = upsert_string(&mut self.surface_strings, k);
        proof {
            let n = self@;
            assert forall|i: int| 0 <= i < n.occurrences.len() implies occurrence_in_range(n, #[trigger] n.occurrences[i]) by {
                assert(occurrence_in_range(m, m.occurrences[i]));
            }
        }
        r
    }

    /// The expression table.
    pub fn expression_rows(&self) -> (r: &Vec<ExpressionRow>)
        ensures
            r@.map_values(|x: ExpressionRow| x.model()) == self@.expressions,
    {
        &self.expressions
    }

    /// The part-of-speech table.
    pub fn pos_rows(&self) -> (r: &Vec<PosRow>)
        ensures
            r@.map_values(|x: PosRow| x.model()) == self@.pos,
    {
        &self.pos
    }

    /// The sentence table.
    pub fn sentence_rows(&self) -> (r: &Vec<String>)
        ensures
            strings_view(r@) == self@.sentences,
    {
        &self.sentences
    }

    /// The surface-form table.
    pub fn surface_string_rows(&self) -> (r: &Vec<String>)
        ensures
            strings_view(r@) == self@.surface_strings,
    {
        &self.surface_strings
    }

    /// The join table.
    pub fn occurrence_rows(&self) -> (r: &Vec<Occurrence>)
        ensures
            r@ == self@.occurrences,
    {
        &self.occurrences
    }

    /// Adds a stored expression row as it was saved; refuses a text that is
    /// already present.
    pub fn restore_expression(&mut self, row: ExpressionRow) -> (r: bool)
        requires
            old(self).wf(),
        ensures
            final(self).wf(),
            r == !old(self)@.has_expression(row.expression@),
            r ==> final(self)@ == (StoreModel { expressions: old(self)@.expressions.push(row.model()), ..old(self)@ }),
            !r ==> final(self)@ == old(self)@,
    {
        let ghost m = self@;
        match self.find_expression(&row.expression) {
            Some(i) => {
                assert(expression_texts(m.expressions)[i as int] == row.expression@);
                false
            },
            None => {
                let ghost model = row.model();
                self.expressions.push(row);
                proof {
                    lemma_push_unique(expression_texts(m.expressions), model.text);
                    assert(self@.expressions =~= m.expressions.push(model));
                    assert(expression_texts(self@.expressions) =~= expression_texts(m.expressions).push(model.text));
                    let n = self@;
                    assert forall|i: int| 0 <= i < n.occurrences.len() implies occurrence_in_range(n, #[trigger] n.occurrences[i]) by {
                        assert(occurrence_in_range(m, m.occurrences[i]));
                    }
                }
                true
            },
        }
    }

    /// Adds a stored part-of-speech row as it was saved; refuses a tag that
    /// is already present.
    pub fn restore_pos(&mut self, row: PosRow) -> (r: bool)
        requires
            old(self).wf(),
        ensures
            final(self).wf(),
            r == !pos_tags(old(self)@.pos).contains(row.pos@),
            r ==> final(self)@ == (StoreModel { pos: old(self)@.pos.push(row.model()), ..old(self)@ }),
            !r ==> final(self)@ == old(self)@,
    {
        let ghost m = self@;
        match self.find_pos(&row.pos) {
            Some(i) => {
                assert(pos_tags(m.pos)[i as int] == row.pos@);
                false
            },
            None => {
                let ghost model = row.model();
                self.pos.push(row);
                proof {
                    lemma_push_unique(pos_tags(m.pos), model.tag);
                    assert(self@.pos =~= m.pos.push(model));
                    assert(pos_tags(self@.pos) =~= pos_tags(m.pos).push(model.tag));
                    let n = self@;
                    assert forall|i: int| 0 <= i < n.occurrences.len() implies occurrence_in_range(n, #[trigger] n.occurrences[i]) by {
                        assert(occurrence_in_range(m, m.occurrences[i]));
                    }
                }
                true
            },
        }
    }

    /// Adds a stored join row as it was saved; refuses one that names a
    /// missing row or is already present.
    pub fn restore_occurrence(&mut self, o: Occurrence) -> (r: bool)
        requires
            old(self).wf(),
        ensures
            final(self).wf(),
            r == (occurrence_in_range(old(self)@, o) && !old(self)@.occurrences.contains(o)),
            r ==> final(self)@ == (StoreModel { occurrences: old(self)@.occurrences.push(o), ..old(self)@ }),
            !r ==> final(self)@ == old(self)@,
    {
        let ghost m = self@;
        if o.expression_id >= self.expressions.len() || o.pos_id >= self.pos.len() || o.sentence_id >= self.sentences.len()
            || o.surface_string_id >= self.surface_strings.len() {
            return false;
        }
        let mut k: usize = 0;
        while k < self.occurrences.len()
            invariant
                m == self@,
                m.wf(),
                occurrence_in_range(m, o),
                k <= self.occurrences@.len(),
                forall|j: int| 0 <= j < k ==> self.occurrences@[j] != o,
            decreases self.occurrences@.len() - k,
        {
            if self.occurrences[k] == o {
                assert(m.occurrences[k as int] == o);
                return false;
            }
            k = k + 1;
        }
        self.occurrences.push(o);
        proof {
            let n = self@;
            assert forall|i: int| 0 <= i < n.occurrences.len() implies occurrence_in_range(n, #[trigger] n.occurrences[i]) by {
                if i < m.occurrences.len() {
                    assert(occurrence_in_range(m, m.occurrences[i]));
                }
            }
            assert forall|i: int, j: int| 0 <= i < n.occurrences.len() && 0 <= j < n.occurrences.len() && i != j implies n.occurrences[i] != n.occurrences[j] by {
                if i < m.occurrences.len() && j < m.occurrences.len() {
                } else if i < m.occurrences.len() {
                    assert(n.occurrences[j] == o);
                } else {
                    assert(n.occurrences[i] == o);
                }
            }
        }
        true
    }

    /// Sets the exclusion flag of each listed tag, one after another, with one
    /// progress event per tag; then passes the flag on to the expressions seen
    /// under the tags (see `set_pos_excluded_spec`).
    pub fn update_is_excluded_for_pos_list<F: FnMut()>(
        &mut self,
        pos_list: &Vec<String>,
        is_excluded: bool,
        progress: &mut Progress<F>,
    )
        requires
            old(self).wf(),
            forall|f: F| call_requires(f, ()),
        ensures
            final(self).wf(),
            final(self)@ == set_pos_excluded_spec(old(self)@, strings_view(pos_list@), is_excluded),
            final(progress).count() == old(progress).count() + pos_list@.len(),
            forall|n: nat| old(self).headroom(n) ==> #[trigger] final(self).headroom(n),
    {
        let ghost m = self@;
        let ghost tags = strings_view(pos_list@);
        assert(pos_flags(m.pos, tags.take(0), is_excluded) =~= m.pos);
        let mut i: usize = 0;
        while i < pos_list.len()
            invariant
                i <= pos_list@.len(),
                m == old(self)@,
                m.wf(),
                tags == strings_view(pos_list@),
                self.wf(),
                self@ == (StoreModel { pos: pos_flags(m.pos, tags.take(i as int), is_excluded), ..m }),
                self.expressions@ == old(self).expressions@,
                progress.count() == old(progress).count() + i,
                forall|f: F| call_requires(f, ()),
            decreases pos_list@.len() - i,
        {
            let mut one: Vec<String> = Vec::new();
            one.push(pos_list[i].clone());
            self.set_pos_flags(&one, is_excluded);
            proof {
                let t = tags[i as int];
                assert(strings_view(one@) =~= seq![t]);
                lemma_pos_flags_push(m.pos, tags.take(i as int), t, is_excluded);
                assert(tags.take(i as int).push(t) =~= tags.take(i + 1));
            }
            progress.step();
            i = i + 1;
        }
        assert(tags.take(pos_list@.len() as int) =~= tags);
        let ghost st = *self;
        self.cascade(pos_list, is_excluded);
        proof {
            assert forall|n: nat| old(self).headroom(n) implies #[trigger] self.headroom(n) by {
                assert(st.headroom(n));
            }
        }
    }

    /// Sets the exclusion flag of every stored expression named in the list,
    /// one after another, with one progress event per listed expression.
    pub fn update_is_excluded_for_expression_list<F: FnMut()>(
        &mut self,
        expression_list: &Vec<Expression>,
        is_excluded: bool,
        progress: &mut Progress<F>,
    )
        requires
            old(self).wf(),
            forall|f: F| call_requires(f, ()),
        ensures
            final(self).wf(),
            final(self)@ == set_excluded_spec(old(self)@, expression_list@.map_values(|e: Expression| e@.expression), is_excluded),
            final(progress).count() == old(progress).count() + expression_list@.len(),
            forall|n: nat| old(self).headroom(n) ==> #[trigger] final(self).headroom(n),
    {
        let ghost m = self@;
        let ghost texts = expression_list@.map_values(|e: Expression| e@.expression);
        proof {
            let e = set_excluded_spec(m, texts.take(0), is_excluded);
            assert(e.expressions =~= m.expressions);
        }
        let mut i: usize = 0;
        while i < expression_list.len()
            invariant
                i <= expression_list@.len(),
                m == old(self)@,
                texts == expression_list@.map_values(|e: Expression| e@.expression),
                self.wf(),
                self@ == set_excluded_spec(m, texts.take(i as int), is_excluded),
                forall|n: nat| old(self).headroom(n) ==> #[trigger] self.headroom(n),
                progress.count() == old(progress).count() + i,
                forall|f: F| call_requires(f, ()),
            decreases expression_list@.len() - i,
        {
            let ghost st = *self;
            let mut one: Vec<String> = Vec::new();
            one.push(String::from_str(expression_list[i].get_expression()));
            self.flag_rows(&one, false, true, is_excluded);
            proof {
                let t = texts[i as int];
                assert(strings_view(one@) =~= seq![t]);
                lemma_set_excluded_push(m, texts.take(i as int), t, is_excluded);
                assert(texts.take(i as int).push(t) =~= texts.take(i + 1));
                assert forall|n: nat| old(self).headroom(n) implies #[trigger] self.headroom(n) by {
                    assert(st.headroom(n));
                }
            }
            progress.step();
            i = i + 1;
        }
        assert(texts.take(expression_list@.len() as int) =~= texts);
    }

    /// The candidates for a run that should make `max` flashcards: twice as
    /// many expressions (no limit when that passes `i32`, or for a negative
    /// `max`), none excluded, learned or already in the flashcard set, most
    /// frequent first.
    pub fn select_flashcard_candidates(&self, max: i32) -> (r: Vec<Expression>)
        ensures
            exists|out: Seq<SortItemModel>|
                is_listing(
                    expression_candidates(self@, Some(false), Some(false), Some(false)),
                    SortKey::Frequency,
                    false,
                    if 0 <= max <= i32::MAX / 2 { Some((2 * max) as usize) } else { None },
                    out,
                ) && r@.map_values(|e: Expression| e@.expression) == item_texts(out),
    {
        let limit: i32 = if 0 <= max && max <= i32::MAX / 2 { 2 * max } else { -1 };
        let r = self.select_expression_list(false, false, false, "frequency", false, limit);
        proof {
            reveal_strlit("frequency");
            reveal_strlit("id");
            reveal_strlit("expression");
            assert("frequency"@ != "id"@ && "frequency"@ != "expression"@) by {
                assert("frequency"@.len() != "id"@.len());
                assert("frequency"@.len() != "expression"@.len());
            }
        }
        r
    }
}

} // verus!
