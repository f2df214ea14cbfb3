use crate::text::strings_view;
use vstd::prelude::*;

verus! {

/// The column a listing query is ordered by.
#[derive(Clone, Copy, Debug, PartialEq, Eq, Structural)]
pub enum OrderBy {
    Frequency,
    Expression,
    Pos,
    Sentence,
    SurfaceString,
}

/// A listing query over the joined tables, built step by step.
pub struct SelectBuilder {
    query: String,
    join_list: Vec<String>,
    filter: Vec<String>,
    limit: u32,
    order_by: OrderBy,
    asc: bool,
}

pub open spec fn digit_spec(d: nat) -> char {
    "0123456789"@[d as int]
}

/// The decimal digits of `n`, most significant first.
pub open spec fn decimal_spec(n: nat) -> Seq<char>
    decreases n,
{
    if n < 10 {
        seq![digit_spec(n)]
    } else {
        decimal_spec(n / 10).push(digit_spec(n % 10))
    }
}

/// The decimal text of a number.
pub fn decimal_string(n: u32) -> (r: String)
    ensures
        r@ == decimal_spec(n as nat),
    decreases n,
{
    let digits = "0123456789";
    proof {
        reveal_strlit("0123456789");
    }
    let d = (n % 10) as usize;
    let last = digits.substring_char(d, d + 1);
    assert(last@ =~= seq![digit_spec(d as nat)]);
    if n < 10 {
        String::from_str(last)
    } else {
        let mut s = decimal_string(n / 10);
        s.append(last);
        s
    }
}

pub open spec fn base_query() -> Seq<char> {
    "SELECT expression, pos, sentence, surface_string FROM expressions"@
}

pub open spec fn base_joins() -> Seq<Seq<char>> {
    seq![
        "JOIN expressions_pos_sentences_surface_strings ON expression_id = expressions.id"@,
        "JOIN pos ON pos.id = pos_id"@,
        "JOIN sentences ON sentences.id = sentence_id"@,
        "JOIN surface_strings ON surface_strings.id = surface_string_id"@,
    ]
}

/// The strings joined with single spaces.
pub open spec fn space_join(list: Seq<Seq<char>>) -> Seq<char>
    decreases list.len(),
{
    if list.len() == 0 {
        Seq::empty()
    } else if list.len() == 1 {
        list[0]
    } else {
        space_join(list.drop_last()) + " "@ + list.last()
    }
}

/// The query text: the base query, the joins, a limit when one is set, and
/// a closing semicolon.
pub open spec fn query_spec(query: Seq<char>, joins: Seq<Seq<char>>, limit: nat) -> Seq<char> {
    query + " "@ + space_join(joins) + (if limit > 0 { " LIMIT "@ + decimal_spec(limit) } else { Seq::empty() }) + ";"@
}

impl SelectBuilder {
    pub closed spec fn spec_query(&self) -> Seq<char> {
        self.query@
    }

    pub closed spec fn spec_joins(&self) -> Seq<Seq<char>> {
        strings_view(self.join_list@)
    }

    pub closed spec fn spec_limit(&self) -> nat {
        self.limit as nat
    }

    /// A query over all joined rows, without limit, by descending frequency.
    pub fn new() -> (r: Self)
        ensures
            r.spec_query() == base_query(),
            r.spec_joins() == base_joins(),
            r.spec_limit() == 0,
    {
        let mut join_list: Vec<String> = Vec::new();
        join_list.push(String::from_str("JOIN expressions_pos_sentences_surface_strings ON expression_id = expressions.id"));
        join_list.push(String::from_str("JOIN pos ON pos.id = pos_id"));
        join_list.push(String::from_str("JOIN sentences ON sentences.id = sentence_id"));
        join_list.push(String::from_str("JOIN surface_strings ON surface_strings.id = surface_string_id"));
        assert(strings_view(join_list@) =~= base_joins());
        SelectBuilder {
            query: String::from_str("SELECT expression, pos, sentence, surface_string FROM expressions"),
            join_list,
            filter: Vec::new(),
            limit: 0,
            order_by: OrderBy::Frequency,
            asc: false,
        }
    }

    /// The same query with at most `limit` rows (0: no limit).
    pub fn limit(self, limit: u32) -> (r: Self)
        ensures
            r.spec_query() == self.spec_query(),
            r.spec_joins() == self.spec_joins(),
            r.spec_limit() == limit as nat,
    {
        SelectBuilder { limit, ..self }
    }

    /// The SQL text of the query.
    pub fn query(&self) -> (r: String)
        ensures
            r@ == query_spec(self.spec_query(), self.spec_joins(), self.spec_limit()),
    {
        let ghost joins = strings_view(self.join_list@);
        let mut joined = String::new();
        let mut i: usize = 0;
        while i < self.join_list.len()
            invariant
                i <= self.join_list@.len(),
                joins == strings_view(self.join_list@),
                joined@ == space_join(joins.take(i as int)),
            decreases self.join_list@.len() - i,
        {
            proof {
                assert(joins.take(i + 1).drop_last() =~= joins.take(i as int));
                assert(joins.take(i + 1).last() == self.join_list@[i as int]@);
            }
            if i > 0 {
                joined.append(" ");
            } else {
                assert(space_join(joins.take(0)) =~= Seq::<char>::empty());
            }
            joined.append(self.join_list[i].as_str());
            proof {
                if i == 0 {
                    assert(joined@ =~= joins.take(1)[0]);
                }
            }
            i = i + 1;
        }
        assert(joins.take(self.join_list@.len() as int) =~= joins);
        let mut r = self.query.clone();
        r.append(" ");
        r.append(joined.as_str());
        if self.limit > 0 {
            r.append(" LIMIT ");
            let n = decimal_string(self.limit);
            r.append(n.as_str());
        }
        r.append(";");
        r
    }
}

} // verus!
