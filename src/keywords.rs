use vstd::prelude::*;
use crate::text::{byte_len, contains_str, lower_of, lowercase, replace_char, replace_with_space, strs};

verus! {

/// A search term as it is stored: lowercased, with underscores read as spaces.
pub open spec fn normalize(s: Seq<char>) -> Seq<char> {
    replace_char(lower_of(s), '_', ' ')
}

/// Insert `k` into `sorted` after every element that is not longer, in bytes.
pub open spec fn insert_by_len(sorted: Seq<Seq<char>>, k: Seq<char>) -> Seq<Seq<char>>
    decreases sorted.len(),
{
    if sorted.len() == 0 {
        seq![k]
    } else if byte_len(sorted.last()) <= byte_len(k) {
        sorted.push(k)
    } else {
        insert_by_len(sorted.drop_last(), k).push(sorted.last())
    }
}

/// The stable sort of `s` by byte length.
pub open spec fn sort_by_len(s: Seq<Seq<char>>) -> Seq<Seq<char>>
    decreases s.len(),
{
    if s.len() == 0 {
        s
    } else {
        insert_by_len(sort_by_len(s.drop_last()), s.last())
    }
}

/// Append to `acc` each element of `rest` that `acc` does not hold yet, in order.
pub open spec fn dedup_onto(acc: Seq<Seq<char>>, rest: Seq<Seq<char>>) -> Seq<Seq<char>>
    decreases rest.len(),
{
    if rest.len() == 0 {
        acc
    } else {
        let a = dedup_onto(acc, rest.drop_last());
        if a.contains(rest.last()) {
            a
        } else {
            a.push(rest.last())
        }
    }
}

/// The keyword list of an item: its normalized description first, then its
/// normalized aliases and tags, shortest first, without repeats.
pub open spec fn keyword_set(description: Seq<char>, extra: Seq<Seq<char>>) -> Seq<Seq<char>> {
    dedup_onto(seq![normalize(description)], sort_by_len(extra.map_values(|k: Seq<char>| normalize(k))))
}

proof fn lemma_insert_by_len(sorted: Seq<Seq<char>>, k: Seq<char>, j: int)
    requires
        0 <= j <= sorted.len(),
        forall|i: int| j <= i < sorted.len() ==> byte_len(#[trigger] sorted[i]) > byte_len(k),
        j > 0 ==> byte_len(sorted[j - 1]) <= byte_len(k),
    ensures
        insert_by_len(sorted, k) == sorted.insert(j, k),
    decreases sorted.len(),
{
    if sorted.len() == 0 {
        assert(sorted.insert(j, k) =~= seq![k]);
    } else if byte_len(sorted.last()) <= byte_len(k) {
        assert(sorted.insert(j, k) =~= sorted.push(k));
    } else {
        let d = sorted.drop_last();
        lemma_insert_by_len(d, k, j);
        assert(sorted.insert(j, k) =~= d.insert(j, k).push(sorted.last()));
    }
}

/// Lowercase `s` and read its underscores as spaces.
pub fn normalize_keyword(s: &str) -> (r: String)
    ensures
        r@ == normalize(s@),
{
    let lower = lowercase(s);
    replace_with_space(lower.as_str(), '_')
}

/// Stable sort of `v` by byte length.
fn sort_by_byte_len(v: &Vec<String>) -> (r: Vec<String>)
    ensures
        strs(r@) == sort_by_len(strs(v@)),
{
    let mut out: Vec<String> = Vec::new();
    let mut lens: Vec<usize> = Vec::new();
    let mut i: usize = 0;
    while i < v.len()
        invariant
            i <= v.len(),
            lens.len() == out.len(),
            forall|m: int| 0 <= m < out.len() ==> lens@[m] == byte_len(#[trigger] out@[m]@),
            strs(out@) == sort_by_len(strs(v@).subrange(0, i as int)),
        decreases v.len() - i,
    {
        let k = v[i].clone();
        let kl = k.as_str().len();
        assert(kl == byte_len(k@));
        let mut j = out.len();
        while j > 0 && lens[j - 1] > kl
            invariant
                j <= out.len(),
                lens.len() == out.len(),
                forall|m: int| 0 <= m < out.len() ==> lens@[m] == byte_len(#[trigger] out@[m]@),
                forall|m: int| j <= m < out.len() ==> lens@[m] > kl,
            decreases j,
        {
            j -= 1;
        }
        proof {
            let s = strs(out@);
            assert forall|m: int| j <= m < s.len() implies byte_len(#[trigger] s[m]) > byte_len(k@) by {
                assert(lens@[m] == byte_len(out@[m]@));
                assert(s[m] == out@[m]@);
            }
            if j > 0 {
                assert(lens@[j - 1] == byte_len(out@[j - 1]@));
            }
            lemma_insert_by_len(s, k@, j as int);
            let t = strs(v@).subrange(0, i + 1);
            assert(t.drop_last() =~= strs(v@).subrange(0, i as int));
            assert(strs(out@.insert(j as int, k)) =~= s.insert(j as int, k@));
        }
        let ghost out0 = out@;
        let ghost lens0 = lens@;
        out.insert(j, k);
        lens.insert(j, kl);
        i += 1;
        proof {
            assert forall|m: int| 0 <= m < out.len() implies lens@[m] == byte_len(#[trigger] out@[m]@) by {
                if m < j {
                    assert(out@[m] == out0[m] && lens@[m] == lens0[m]);
                } else if m > j {
                    assert(out@[m] == out0[m - 1] && lens@[m] == lens0[m - 1]);
                }
            }
        }
    }
    assert(strs(v@).subrange(0, v.len() as int) =~= strs(v@));
    out
}

/// The keyword list of an item with the given description and aliases
/// followed by tags.
pub fn build_keyword_list(description: &str, extra: &Vec<String>) -> (r: Vec<String>)
    ensures
        strs(r@) == keyword_set(description@, strs(extra@)),
{
    let desc = normalize_keyword(description);
    let ghost norm_all = strs(extra@).map_values(|k: Seq<char>| normalize(k));
    let mut normalized: Vec<String> = Vec::new();
    let mut i: usize = 0;
    while i < extra.len()
        invariant
            i <= extra.len(),
            norm_all == strs(extra@).map_values(|k: Seq<char>| normalize(k)),
            strs(normalized@) == norm_all.subrange(0, i as int),
        decreases extra.len() - i,
    {
        let k = normalize_keyword(extra[i].as_str());
        assert(strs(extra@)[i as int] == extra@[i as int]@);
        assert(norm_all[i as int] == k@);
        let ghost before = normalized@;
        normalized.push(k);
        assert(strs(normalized@) =~= strs(before).push(k@));
        i += 1;
        assert(strs(normalized@) =~= norm_all.subrange(0, i as int));
    }
    assert(strs(normalized@) =~= norm_all);
    let sorted = sort_by_byte_len(&normalized);
    let mut out: Vec<String> = Vec::new();
    out.push(desc);
    assert(strs(out@) =~= seq![desc@]);
    let mut i: usize = 0;
    while i < sorted.len()
        invariant
            i <= sorted.len(),
            strs(out@) == dedup_onto(seq![desc@], strs(sorted@).subrange(0, i as int)),
        decreases sorted.len() - i,
    {
        proof {
            let t = strs(sorted@).subrange(0, i + 1);
            assert(t.drop_last() =~= strs(sorted@).subrange(0, i as int));
            assert(t.last() == sorted@[i as int]@);
        }
        if !contains_str(&out, &sorted[i]) {
            let k = sorted[i].clone();
            let ghost before = out@;
            out.push(k);
            assert(strs(out@) =~= strs(before).push(k@));
        }
        i += 1;
    }
    assert(strs(sorted@).subrange(0, sorted.len() as int) =~= strs(sorted@));
    out
}

} // verus!
