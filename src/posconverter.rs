use crate::text::{lemma_strings_view_concat, strings_view};
use vstd::prelude::*;

verus! {

broadcast use vstd::seq::Seq::lemma_push_map_commute;

/// Dictionary tags of the adjective category.
pub open spec fn adj_tags() -> Seq<Seq<char>> {
    seq!["adj-f"@, "adj-i"@, "adj-ix"@, "adj-ku"@, "adj-na"@, "adj-nari"@, "adj-no"@, "adj-pn"@, "adj-shiku"@, "adj-t"@, "aux-adj"@]
}

/// Dictionary tags of the adverb category.
pub open spec fn adv_tags() -> Seq<Seq<char>> {
    seq!["adv-to"@, "adv"@]
}

/// Dictionary tags of the auxiliary verb category.
pub open spec fn aux_v_tags() -> Seq<Seq<char>> {
    seq!["aux-v"@]
}

/// Dictionary tags of the conjunction category.
pub open spec fn conj_tags() -> Seq<Seq<char>> {
    seq!["conj"@]
}

/// Dictionary tags of the interjection category.
pub open spec fn int_tags() -> Seq<Seq<char>> {
    seq!["int"@]
}

/// Dictionary tags of the noun category.
pub open spec fn n_tags() -> Seq<Seq<char>> {
    seq!["n-adv"@, "n-pr"@, "n-pref"@, "n-suf"@, "n-t"@, "n"@]
}

/// Dictionary tags of the particle category.
pub open spec fn prt_tags() -> Seq<Seq<char>> {
    seq!["prt"@]
}

/// Dictionary tags of the prefix category.
pub open spec fn pref_tags() -> Seq<Seq<char>> {
    seq!["pref"@]
}

/// Dictionary tags of the suffix category.
pub open spec fn suf_tags() -> Seq<Seq<char>> {
    seq!["suf"@]
}

/// Dictionary tags of the verb category.
pub open spec fn v_tags() -> Seq<Seq<char>> {
    seq!["v1-s"@, "v1"@, "v2a-s"@, "v2b-k"@, "v2d-s"@, "v2g-k"@, "v2g-s"@, "v2h-k"@, "v2h-s"@, "v2k-k"@, "v2k-s"@, "v2m-s"@, "v2n-s"@, "v2r-k"@, "v2r-s"@, "v2s-s"@, "v2t-k"@, "v2t-s"@, "v2w-s"@, "v2y-k"@, "v2y-s"@, "v2z-s"@, "v4b"@, "v4g"@, "v4h"@, "v4k"@, "v4m"@, "v4r"@, "v4s"@, "v4t"@, "v5aru"@, "v5b"@, "v5g"@, "v5k-s"@, "v5k"@, "v5m"@, "v5n"@, "v5r-i"@, "v5r"@, "v5s"@, "v5t"@, "v5u-s"@, "v5u"@, "vi"@, "vk"@, "vn"@, "vr"@, "vs-c"@, "vs-i"@, "vs-s"@, "vs"@, "vt"@, "vz"@]
}

/// The dictionary tags that a tokenizer part-of-speech category stands for,
/// if the category is one that the dictionary knows.
pub open spec fn conversion(pos: Seq<char>) -> Option<Seq<Seq<char>>> {
    if pos == "形容詞"@ {
        Some(adj_tags())
    } else if pos == "副詞"@ {
        Some(adv_tags())
    } else if pos == "助動詞"@ {
        Some(aux_v_tags())
    } else if pos == "接続詞"@ {
        Some(conj_tags())
    } else if pos == "感動詞"@ {
        Some(int_tags())
    } else if pos == "名詞"@ {
        Some(n_tags())
    } else if pos == "助詞"@ {
        Some(prt_tags())
    } else if pos == "接頭辞"@ {
        Some(pref_tags())
    } else if pos == "接尾辞"@ {
        Some(suf_tags())
    } else if pos == "動詞"@ {
        Some(v_tags())
    } else {
        None
    }
}

/// The concatenation of the dictionary tags of each category, in order.
pub open spec fn convert_spec(pos_list: Seq<Seq<char>>) -> Seq<Seq<char>>
    decreases pos_list.len(),
{
    if pos_list.len() == 0 {
        Seq::empty()
    } else {
        convert_spec(pos_list.drop_last()) + match conversion(pos_list.last()) {
            Some(tags) => tags,
            None => Seq::empty(),
        }
    }
}

fn tag_list(tags: &[&str]) -> (r: Vec<String>)
    ensures
        strings_view(r@) == tags@.map_values(|t: &str| t@),
{
    let mut r: Vec<String> = Vec::new();
    let mut i: usize = 0;
    while i < tags.len()
        invariant
            i <= tags@.len(),
            strings_view(r@) == tags@.map_values(|t: &str| t@).take(i as int),
        decreases tags@.len() - i,
    {
        r.push(String::from_str(tags[i]));
        proof {
            let want = tags@.map_values(|t: &str| t@);
            assert(strings_view(r@) =~= want.take(i + 1));
        }
        i = i + 1;
    }
    assert(tags@.map_values(|t: &str| t@).take(tags@.len() as int) =~= tags@.map_values(|t: &str| t@));
    r
}

/// The dictionary tags for one tokenizer category.
pub fn conversion_map(pos: &str) -> (r: Option<Vec<String>>)
    ensures
        r is None <==> conversion(pos@) is None,
        r is Some ==> strings_view(r->0@) == conversion(pos@)->0,
{
    let p = String::from_str(pos);
    if p == String::from_str("形容詞") {
        let tags: [&str; 11] = ["adj-f", "adj-i", "adj-ix", "adj-ku", "adj-na", "adj-nari", "adj-no", "adj-pn", "adj-shiku", "adj-t", "aux-adj"];
        let r = tag_list(tags.as_slice());
        assert(tags@.map_values(|t: &str| t@) =~= adj_tags());
        Some(r)
    } else if p == String::from_str("副詞") {
        let tags: [&str; 2] = ["adv-to", "adv"];
        let r = tag_list(tags.as_slice());
        assert(tags@.map_values(|t: &str| t@) =~= adv_tags());
        Some(r)
    } else if p == String::from_str("助動詞") {
        let tags: [&str; 1] = ["aux-v"];
        let r = tag_list(tags.as_slice());
        assert(tags@.map_values(|t: &str| t@) =~= aux_v_tags());
        Some(r)
    } else if p == String::from_str("接続詞") {
        let tags: [&str; 1] = ["conj"];
        let r = tag_list(tags.as_slice());
        assert(tags@.map_values(|t: &str| t@) =~= conj_tags());
        Some(r)
    } else if p == String::from_str("感動詞") {
        let tags: [&str; 1] = ["int"];
        let r = tag_list(tags.as_slice());
        assert(tags@.map_values(|t: &str| t@) =~= int_tags());
        Some(r)
    } else if p == String::from_str("名詞") {
        let tags: [&str; 6] = ["n-adv", "n-pr", "n-pref", "n-suf", "n-t", "n"];
        let r = tag_list(tags.as_slice());
        assert(tags@.map_values(|t: &str| t@) =~= n_tags());
        Some(r)
    } else if p == String::from_str("助詞") {
        let tags: [&str; 1] = ["prt"];
        let r = tag_list(tags.as_slice());
        assert(tags@.map_values(|t: &str| t@) =~= prt_tags());
        Some(r)
    } else if p == String::from_str("接頭辞") {
        let tags: [&str; 1] = ["pref"];
        let r = tag_list(tags.as_slice());
        assert(tags@.map_values(|t: &str| t@) =~= pref_tags());
        Some(r)
    } else if p == String::from_str("接尾辞") {
        let tags: [&str; 1] = ["suf"];
        let r = tag_list(tags.as_slice());
        assert(tags@.map_values(|t: &str| t@) =~= suf_tags());
        Some(r)
    } else if p == String::from_str("動詞") {
        let tags: [&str; 53] = ["v1-s", "v1", "v2a-s", "v2b-k", "v2d-s", "v2g-k", "v2g-s", "v2h-k", "v2h-s", "v2k-k", "v2k-s", "v2m-s", "v2n-s", "v2r-k", "v2r-s", "v2s-s", "v2t-k", "v2t-s", "v2w-s", "v2y-k", "v2y-s", "v2z-s", "v4b", "v4g", "v4h", "v4k", "v4m", "v4r", "v4s", "v4t", "v5aru", "v5b", "v5g", "v5k-s", "v5k", "v5m", "v5n", "v5r-i", "v5r", "v5s", "v5t", "v5u-s", "v5u", "vi", "vk", "vn", "vr", "vs-c", "vs-i", "vs-s", "vs", "vt", "vz"];
        let r = tag_list(tags.as_slice());
        assert(tags@.map_values(|t: &str| t@) =~= v_tags());
        Some(r)
    } else {
        None
    }
}

/// Every tokenizer category of the list turned into its dictionary tags;
/// categories the dictionary does not know contribute nothing.
pub fn convert_pos_list(pos_list: &Vec<String>) -> (r: Vec<String>)
    ensures
        strings_view(r@) == convert_spec(strings_view(pos_list@)),
{
    let ghost ps = strings_view(pos_list@);
    let mut r: Vec<String> = Vec::new();
    let mut i: usize = 0;
    while i < pos_list.len()
        invariant
            i <= pos_list@.len(),
            ps == strings_view(pos_list@),
            strings_view(r@) == convert_spec(ps.take(i as int)),
        decreases pos_list@.len() - i,
    {
        proof {
            assert(ps.take(i + 1).drop_last() =~= ps.take(i as int));
            assert(ps.take(i + 1).last() == pos_list@[i as int]@);
        }
        match conversion_map(pos_list[i].as_str()) {
            Some(list) => {
                let ghost before = r@;
                let mut list = list;
                let ghost lv = list@;
                r.append(&mut list);
                proof {
                    lemma_strings_view_concat(before, lv);
                }
            },
            None => {},
        }
        i = i + 1;
    }
    assert(ps.take(pos_list@.len() as int) =~= ps);
    r
}

} // verus!
