use crate::text::{lemma_lex_irreflexive, lemma_lex_transitive, lex_lt, string_lt};
use vstd::prelude::*;

verus! {

broadcast use vstd::seq_lib::to_multiset_build, vstd::seq_lib::to_multiset_insert;

/// What a listing is ordered by.
#[derive(Clone, Copy, Debug, PartialEq, Eq, Structural)]
pub enum SortKey {
    /// Position in the table, the order of insertion.
    Id,
    /// Frequency counter.
    Frequency,
    /// Text, by code point.
    Text,
}

/// A row to be ordered: its position, frequency and text.
pub struct SortItem {
    pub id: usize,
    pub frequency: u64,
    pub text: String,
}

pub struct SortItemModel {
    pub id: int,
    pub frequency: int,
    pub text: Seq<char>,
}

impl SortItem {
    pub open spec fn model(&self) -> SortItemModel {
        SortItemModel { id: self.id as int, frequency: self.frequency as int, text: self.text@ }
    }
}

pub open spec fn items_view(s: Seq<SortItem>) -> Seq<SortItemModel> {
    s.map_values(|x: SortItem| x.model())
}

/// Whether `a` must come strictly before `b`.
pub open spec fn precedes(key: SortKey, asc: bool, a: SortItemModel, b: SortItemModel) -> bool {
    match key {
        SortKey::Id => if asc { a.id < b.id } else { a.id > b.id },
        SortKey::Frequency => if asc { a.frequency < b.frequency } else { a.frequency > b.frequency },
        SortKey::Text => if asc { lex_lt(a.text, b.text) } else { lex_lt(b.text, a.text) },
    }
}

/// No item comes strictly before an item that precedes it in the sequence.
pub open spec fn sorted_by(key: SortKey, asc: bool, s: Seq<SortItemModel>) -> bool {
    forall|i: int, j: int| 0 <= i < j < s.len() ==> !precedes(key, asc, #[trigger] s[j], #[trigger] s[i])
}

proof fn lemma_precedes_strict(key: SortKey, asc: bool, a: SortItemModel, b: SortItemModel, c: SortItemModel)
    ensures
        !precedes(key, asc, a, a),
        precedes(key, asc, a, b) && precedes(key, asc, b, c) ==> precedes(key, asc, a, c),
{
    lemma_lex_irreflexive(a.text);
    if key == SortKey::Text && precedes(key, asc, a, b) && precedes(key, asc, b, c) {
        if asc {
            lemma_lex_transitive(a.text, b.text, c.text);
        } else {
            lemma_lex_transitive(c.text, b.text, a.text);
        }
    }
}

fn item_precedes(key: SortKey, asc: bool, a: &SortItem, b: &SortItem) -> (r: bool)
    ensures
        r == precedes(key, asc, a.model(), b.model()),
{
    match key {
        SortKey::Id => if asc { a.id < b.id } else { a.id > b.id },
        SortKey::Frequency => if asc { a.frequency < b.frequency } else { a.frequency > b.frequency },
        SortKey::Text => if asc {
            string_lt(a.text.as_str(), b.text.as_str())
        } else {
            string_lt(b.text.as_str(), a.text.as_str())
        },
    }
}

impl SortItem {
    pub fn copy(&self) -> (r: SortItem)
        ensures
            r.model() == self.model(),
    {
        SortItem { id: self.id, frequency: self.frequency, text: self.text.clone() }
    }
}

/// Orders the items by the key: a permutation in which no item comes after
/// one that it precedes.
pub fn sort_items(items: &Vec<SortItem>, key: SortKey, asc: bool) -> (r: Vec<SortItem>)
    ensures
        items_view(r@).to_multiset() == items_view(items@).to_multiset(),
        sorted_by(key, asc, items_view(r@)),
{
    let ghost src = items_view(items@);
    let mut r: Vec<SortItem> = Vec::new();
    let mut i: usize = 0;
    assert(items_view(r@) =~= src.take(0));
    while i < items.len()
        invariant
            i <= items@.len(),
            src == items_view(items@),
            items_view(r@).to_multiset() == src.take(i as int).to_multiset(),
            sorted_by(key, asc, items_view(r@)),
        decreases items@.len() - i,
    {
        let x = items[i].copy();
        let ghost rv = items_view(r@);
        let mut p: usize = 0;
        let mut found = false;
        while p < r.len() && !found
            invariant
                p <= r@.len(),
                rv == items_view(r@),
                forall|q: int| 0 <= q < p && (q < p - 1 || !found) ==> !precedes(key, asc, x.model(), #[trigger] rv[q]),
                found ==> p >= 1 && precedes(key, asc, x.model(), rv[p - 1]),
            decreases r@.len() - p + (if found { 0int } else { 1int }),
        {
            if item_precedes(key, asc, &x, &r[p]) {
                found = true;
            }
            p = p + 1;
        }
        let pos = if found { p - 1 } else { p };
        proof {
            assert(forall|q: int| 0 <= q < pos ==> !precedes(key, asc, x.model(), #[trigger] rv[q]));
            assert(pos < rv.len() ==> precedes(key, asc, x.model(), rv[pos as int]));
        }
        r.insert(pos, x);
        proof {
            let nv = items_view(r@);
            assert(nv =~= rv.insert(pos as int, x.model()));
            assert forall|a: int, b: int| 0 <= a < b < nv.len() implies !precedes(key, asc, #[trigger] nv[b], #[trigger] nv[a]) by {
                lemma_precedes_strict(key, asc, nv[b], x.model(), rv[pos as int]);
                lemma_precedes_strict(key, asc, x.model(), x.model(), x.model());
                if b < pos {
                } else if b == pos {
                } else if a < pos {
                    assert(nv[b] == rv[b - 1]);
                } else if a == pos {
                    assert(nv[b] == rv[b - 1]);
                    if b - 1 > pos {
                        assert(!precedes(key, asc, rv[b - 1], rv[pos as int]));
                    }
                } else {
                    assert(nv[b] == rv[b - 1]);
                    assert(nv[a] == rv[a - 1]);
                }
            }
            assert(src.take(i + 1) =~= src.take(i as int).push(x.model()));
        }
        i = i + 1;
    }
    assert(src.take(items@.len() as int) =~= src);
    r
}

} // verus!
