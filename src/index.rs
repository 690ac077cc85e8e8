use vstd::prelude::*;
use vstd::hash_map::StringHashMap;
use vstd::string::StrSliceExecFns;
use crate::constants::{MAX_PREFIX_LENGTH, MIN_KEYWORD_LENGTH};
use crate::text::{byte_len, char_prefix, replace_char, replace_with_space, split_words, strs, words_of};

verus! {

/// `s` with hyphens read as spaces, so that hyphenated keywords split into words.
pub open spec fn dashes_to_spaces(s: Seq<char>) -> Seq<char> {
    replace_char(s, '-', ' ')
}

/// The elements of `s` that are long enough, in bytes, to be indexed.
pub open spec fn long_terms(s: Seq<Seq<char>>) -> Seq<Seq<char>>
    decreases s.len(),
{
    if s.len() == 0 {
        s
    } else {
        let rest = long_terms(s.drop_last());
        if byte_len(s.last()) >= MIN_KEYWORD_LENGTH {
            rest.push(s.last())
        } else {
            rest
        }
    }
}

/// The words of the multi-word keywords in `kws` that are long enough to be indexed.
pub open spec fn split_terms(kws: Seq<Seq<char>>) -> Seq<Seq<char>>
    decreases kws.len(),
{
    if kws.len() == 0 {
        kws
    } else {
        let words = words_of(dashes_to_spaces(kws.last()));
        split_terms(kws.drop_last()) + if words.len() > 1 {
            long_terms(words)
        } else {
            Seq::empty()
        }
    }
}

/// Every term that an item with keyword list `kws` is indexed by.
pub open spec fn index_terms(kws: Seq<Seq<char>>) -> Seq<Seq<char>> {
    long_terms(kws) + split_terms(kws)
}

/// Whether term `t` is filed under `key`: the whole term, or one of its prefixes
/// of `MIN_KEYWORD_LENGTH` up to `MAX_PREFIX_LENGTH` characters.
pub open spec fn files_under(t: Seq<char>, key: Seq<char>) -> bool {
    key == t || (MIN_KEYWORD_LENGTH <= key.len() <= MAX_PREFIX_LENGTH && key.len() <= t.len()
        && key == t.subrange(0, key.len() as int))
}

/// Whether an item with keyword list `kws` is found under `key`.
pub open spec fn filed_for(kws: Seq<Seq<char>>, key: Seq<char>) -> bool {
    exists|j: int| 0 <= j < index_terms(kws).len() && files_under(#[trigger] index_terms(kws)[j], key)
}

/// Whether the item at catalog position `p` is found under `key`, given the
/// keyword table and the catalog's ids.
pub open spec fn posting(
    table: Map<Seq<char>, Seq<Seq<char>>>,
    ids: Seq<Seq<char>>,
    key: Seq<char>,
    p: int,
) -> bool {
    0 <= p < ids.len() && table.contains_key(ids[p]) && filed_for(table[ids[p]], key)
}

/// Whether `m` holds position `q` under `key`.
pub open spec fn holds(m: Map<Seq<char>, Seq<usize>>, key: Seq<char>, q: usize) -> bool {
    m.contains_key(key) && m[key].contains(q)
}

/// Every list of `m` is non-empty and strictly increasing.
pub open spec fn lists_sorted(m: Map<Seq<char>, Seq<usize>>) -> bool {
    forall|key: Seq<char>| #[trigger] m.contains_key(key) ==> {
        &&& m[key].len() > 0
        &&& forall|i: int, j: int| 0 <= i < j < m[key].len() ==> m[key][i] < m[key][j]
    }
}

/// Every position in `m` is at most `p`.
pub open spec fn positions_at_most(m: Map<Seq<char>, Seq<usize>>, p: usize) -> bool {
    forall|key: Seq<char>, i: int| m.contains_key(key) && 0 <= i < m[key].len() ==> #[trigger] m[key][i] <= p
}

/// `m` is the inverted index of the catalog `ids` under the keyword table `table`:
/// a key is present exactly when some item is found under it, and its list holds
/// exactly those items' positions, ascending and without repeats.
pub open spec fn is_search_index(
    m: Map<Seq<char>, Seq<usize>>,
    table: Map<Seq<char>, Seq<Seq<char>>>,
    ids: Seq<Seq<char>>,
) -> bool {
    &&& lists_sorted(m)
    &&& forall|key: Seq<char>, q: usize| #[trigger] holds(m, key, q) <==> posting(table, ids, key, q as int)
}

/// The map that a slot table and a list of buckets stand for.
pub open spec fn slots_view(slots: Map<Seq<char>, usize>, buckets: Seq<Vec<usize>>) -> Map<Seq<char>, Seq<usize>> {
    Map::new(
        |k: Seq<char>| slots.contains_key(k) && slots[k] < buckets.len(),
        |k: Seq<char>| buckets[slots[k] as int]@,
    )
}

/// Each key has its own bucket, and each bucket its own key.
pub open spec fn slots_wf(slots: Map<Seq<char>, usize>, keys: Seq<String>, buckets: Seq<Vec<usize>>) -> bool {
    &&& keys.len() == buckets.len()
    &&& forall|k: Seq<char>| #[trigger] slots.contains_key(k) ==> slots[k] < keys.len() && keys[slots[k] as int]@ == k
    &&& forall|b: int| 0 <= b < keys.len() ==> slots.contains_key(#[trigger] keys[b]@) && slots[keys[b]@] == b
}

/// The inverted index: each key (a keyword or keyword prefix) maps to the
/// ascending catalog positions of the items found under it.
pub struct SearchIndex {
    slots: StringHashMap<usize>,
    keys: Vec<String>,
    buckets: Vec<Vec<usize>>,
}

impl View for SearchIndex {
    type V = Map<Seq<char>, Seq<usize>>;

    closed spec fn view(&self) -> Map<Seq<char>, Seq<usize>> {
        slots_view(self.slots@, self.buckets@)
    }
}

impl SearchIndex {
    #[verifier::type_invariant]
    closed spec fn wf(&self) -> bool {
        slots_wf(self.slots@, self.keys@, self.buckets@)
    }

    /// An index with no keys.
    pub fn new() -> (r: Self)
        ensures
            r@ == Map::<Seq<char>, Seq<usize>>::empty(),
    {
        let r = SearchIndex { slots: StringHashMap::new(), keys: Vec::new(), buckets: Vec::new() };
        assert(r@ =~= Map::<Seq<char>, Seq<usize>>::empty());
        r
    }

    /// The positions filed under `key`.
    pub fn get(&self, key: &str) -> (r: Option<&Vec<usize>>)
        ensures
            match r {
                Some(v) => self@.contains_key(key@) && v@ == self@[key@],
                None => !self@.contains_key(key@),
            },
    {
        match self.slots.get(key) {
            Some(b) => {
                if *b < self.buckets.len() {
                    Some(&self.buckets[*b])
                } else {
                    None
                }
            },
            None => None,
        }
    }

    /// The number of keys.
    pub fn len(&self) -> (r: usize)
        ensures
            r == self@.dom().len(),
    {
        proof {
            use_type_invariant(self);
            lemma_slots_len(self.slots@, self.keys@, self.buckets@);
        }
        self.keys.len()
    }
}

proof fn lemma_slots_len(slots: Map<Seq<char>, usize>, keys: Seq<String>, buckets: Seq<Vec<usize>>)
    requires
        slots_wf(slots, keys, buckets),
    ensures
        slots_view(slots, buckets).dom().len() == keys.len(),
{
    let x = vstd::set_lib::set_int_range(0, keys.len() as int);
    let f = |b: int| keys[b]@;
    let y = slots_view(slots, buckets).dom();
    vstd::set_lib::lemma_int_range(0, keys.len() as int);
    assert forall|b1: int, b2: int| x.contains(b1) && x.contains(b2) && #[trigger] f(b1) == #[trigger] f(b2) implies b1 == b2 by {
        assert(slots[keys[b1]@] == b1);
        assert(slots[keys[b2]@] == b2);
    }
    assert forall|k: Seq<char>| y.contains(k) <==> x.map(f).contains(k) by {
        if y.contains(k) {
            let b = slots[k] as int;
            assert(x.contains(b) && f(b) == k);
        }
        if x.map(f).contains(k) {
            let b = choose|b: int| x.contains(b) && f(b) == k;
            assert(slots.contains_key(keys[b]@));
        }
    }
    assert(x.map(f) =~= y);
    vstd::set_lib::lemma_map_size(x, y, f);
}

/// Append to `out` the elements of `s` that are long enough to be indexed.
fn push_long_terms(out: &mut Vec<String>, s: &Vec<String>)
    ensures
        strs(final(out)@) == strs(old(out)@) + long_terms(strs(s@)),
{
    let ghost start = strs(out@);
    let mut i: usize = 0;
    while i < s.len()
        invariant
            i <= s.len(),
            strs(out@) == start + long_terms(strs(s@).subrange(0, i as int)),
        decreases s.len() - i,
    {
        let ghost before = strs(out@);
        proof {
            let t = strs(s@).subrange(0, i + 1);
            assert(t.drop_last() =~= strs(s@).subrange(0, i as int));
            assert(t.last() == s@[i as int]@);
        }
        if s[i].as_str().len() >= MIN_KEYWORD_LENGTH {
            out.push(s[i].clone());
            assert(strs(out@) =~= before.push(s@[i as int]@));
        }
        i += 1;
    }
    assert(strs(s@).subrange(0, s.len() as int) =~= strs(s@));
}

/// The terms that an item with keyword list `kws` is indexed by: its keywords
/// that are long enough, then the long enough words of its multi-word keywords.
pub fn index_terms_of(kws: &Vec<String>) -> (r: Vec<String>)
    ensures
        strs(r@) == index_terms(strs(kws@)),
{
    let mut out: Vec<String> = Vec::new();
    push_long_terms(&mut out, kws);
    assert(strs(out@) =~= long_terms(strs(kws@)));
    let ghost k = strs(kws@);
    let mut i: usize = 0;
    while i < kws.len()
        invariant
            i <= kws.len(),
            k == strs(kws@),
            strs(out@) == long_terms(k) + split_terms(k.subrange(0, i as int)),
        decreases kws.len() - i,
    {
        let spaced = replace_with_space(kws[i].as_str(), '-');
        let words = split_words(spaced.as_str());
        let ghost before = strs(out@);
        proof {
            let t = k.subrange(0, i + 1);
            assert(t.drop_last() =~= k.subrange(0, i as int));
            assert(t.last() == kws@[i as int]@);
        }
        if words.len() > 1 {
            push_long_terms(&mut out, &words);
            assert(strs(out@) =~= long_terms(k) + split_terms(k.subrange(0, i + 1)));
        } else {
            assert(strs(out@) =~= long_terms(k) + split_terms(k.subrange(0, i + 1)));
        }
        i += 1;
    }
    assert(k.subrange(0, kws.len() as int) =~= k);
    out
}

/// An inverted index under construction.
pub(crate) struct IndexBuilder {
    pub(crate) slots: StringHashMap<usize>,
    pub(crate) keys: Vec<String>,
    pub(crate) buckets: Vec<Vec<usize>>,
}

impl IndexBuilder {
    pub(crate) open spec fn model(&self) -> Map<Seq<char>, Seq<usize>> {
        slots_view(self.slots@, self.buckets@)
    }

    pub(crate) open spec fn wf(&self) -> bool {
        slots_wf(self.slots@, self.keys@, self.buckets@)
    }

    /// Whether positions up to `p` may still be added.
    pub(crate) open spec fn open_for(&self, p: usize) -> bool {
        &&& self.wf()
        &&& lists_sorted(self.model())
        &&& positions_at_most(self.model(), p)
    }

    pub(crate) fn new() -> (r: Self)
        ensures
            r.open_for(0),
            r.model() == Map::<Seq<char>, Seq<usize>>::empty(),
    {
        let r = IndexBuilder { slots: StringHashMap::new(), keys: Vec::new(), buckets: Vec::new() };
        assert(r.model() =~= Map::<Seq<char>, Seq<usize>>::empty());
        r
    }

    /// File position `p` under `key`.
    pub(crate) fn add(&mut self, key: String, p: usize)
        requires
            old(self).open_for(p),
        ensures
            final(self).open_for(p),
            forall|k: Seq<char>, q: usize|
                #[trigger] holds(final(self).model(), k, q) <==> holds(old(self).model(), k, q) || (k == key@
                    && q == p),
    {
        let ghost m0 = self.model();
        match self.slots.get(key.as_str()) {
            Some(b) => {
                let b = *b;
                let n = self.buckets[b].len();
                assert(m0.contains_key(key@));
                assert(self.buckets@[b as int]@ == m0[key@]);
                let last = self.buckets[b][n - 1];
                if last != p {
                    let ghost bucket0 = self.buckets@[b as int]@;
                    self.buckets[b].push(p);
                    proof {
                        assert(self.buckets@[b as int]@ == bucket0.push(p));
                        assert forall|k: Seq<char>| k != key@ && #[trigger] m0.contains_key(k) implies self.model().contains_key(k)
                            && self.model()[k] == m0[k] by {
                            assert(self.keys@[self.slots@[k] as int]@ == k);
                        }
                        assert(self.model()[key@] == bucket0.push(p));
                        assert forall|k: Seq<char>| #[trigger] self.model().contains_key(k) implies m0.contains_key(k) by {}
                        assert forall|k: Seq<char>, q: usize| #[trigger] holds(self.model(), k, q) <==> holds(m0, k, q) || (k == key@ && q == p) by {
                            if k == key@ {
                                assert(self.model()[k] == bucket0.push(p));
                                assert(m0[k] == bucket0);
                                assert(self.model()[k][bucket0.len() as int] == p);
                                if bucket0.contains(q) {
                                    let i = choose|i: int| 0 <= i < bucket0.len() && bucket0[i] == q;
                                    assert(self.model()[k][i] == q);
                                }
                            }
                        }
                        assert forall|k: Seq<char>| #[trigger] self.model().contains_key(k) implies {
                            &&& self.model()[k].len() > 0
                            &&& forall|i: int, j: int| 0 <= i < j < self.model()[k].len() ==> self.model()[k][i] < self.model()[k][j]
                        } by {
                            if k == key@ {
                                assert(bucket0[n - 1] <= p);
                            }
                        }
                    }
                } else {
                    proof {
                        assert forall|k: Seq<char>, q: usize| #[trigger] holds(self.model(), k, q) <==> holds(m0, k, q) || (k == key@ && q == p) by {
                            if k == key@ && q == p {
                                assert(m0[k][n - 1] == p);
                            }
                        }
                    }
                }
            },
            None => {
                let b = self.keys.len();
                let ghost buckets0 = self.buckets@;
                let ghost keys0 = self.keys@;
                let ghost slots0 = self.slots@;
                self.slots.insert(key.clone(), b);
                self.keys.push(key);
                let mut fresh: Vec<usize> = Vec::new();
                fresh.push(p);
                self.buckets.push(fresh);
                proof {
                    assert(self.keys@[b as int]@ == key@);
                    assert forall|k: Seq<char>| #[trigger] self.slots@.contains_key(k) implies self.slots@[k] < self.keys@.len()
                        && self.keys@[self.slots@[k] as int]@ == k by {
                        if k != key@ {
                            assert(slots0.contains_key(k));
                            assert(keys0[slots0[k] as int]@ == k);
                        }
                    }
                    assert forall|c: int| 0 <= c < self.keys@.len() implies self.slots@.contains_key(#[trigger] self.keys@[c]@)
                        && self.slots@[self.keys@[c]@] == c by {
                        if c < b {
                            assert(self.keys@[c] == keys0[c]);
                            assert(slots0.contains_key(keys0[c]@) && slots0[keys0[c]@] == c);
                            assert(keys0[c]@ != key@);
                        }
                    }
                    assert forall|k: Seq<char>| k != key@ implies (#[trigger] self.model().contains_key(k) <==> m0.contains_key(k))
                        && (m0.contains_key(k) ==> self.model()[k] == m0[k]) by {
                        if m0.contains_key(k) {
                            assert(self.buckets@[slots0[k] as int] == buckets0[slots0[k] as int]);
                        }
                    }
                    assert(self.model().contains_key(key@));
                    assert(self.model()[key@] =~= seq![p]);
                    assert forall|k: Seq<char>, q: usize| #[trigger] holds(self.model(), k, q) <==> holds(m0, k, q) || (k == key@ && q == p) by {
                        if k == key@ {
                            assert(!m0.contains_key(k));
                            assert(self.model()[k][0] == p);
                            assert(self.model()[k].contains(q) ==> q == p);
                            assert(holds(self.model(), k, q) <==> q == p);
                        } else {
                            assert(self.model().contains_key(k) <==> m0.contains_key(k));
                            if m0.contains_key(k) {
                                assert(self.model()[k] == m0[k]);
                            }
                            assert(holds(self.model(), k, q) <==> holds(m0, k, q));
                        }
                    }
                }
            },
        }
    }

    /// File position `p` under term `t` and under each of its indexed prefixes.
    pub(crate) fn add_term(&mut self, t: &String, p: usize)
        requires
            old(self).open_for(p),
        ensures
            final(self).open_for(p),
            forall|k: Seq<char>, q: usize|
                #[trigger] holds(final(self).model(), k, q) <==> holds(old(self).model(), k, q) || (q == p
                    && files_under(t@, k)),
    {
        self.add(t.clone(), p);
        let n = t.as_str().unicode_len();
        let cap = if n < MAX_PREFIX_LENGTH {
            n
        } else {
            MAX_PREFIX_LENGTH
        };
        let mut i: usize = MIN_KEYWORD_LENGTH;
        while i <= cap
            invariant
                self.open_for(p),
                n == t@.len(),
                cap <= MAX_PREFIX_LENGTH,
                cap <= n,
                MIN_KEYWORD_LENGTH <= i,
                i <= cap + 1 || i == MIN_KEYWORD_LENGTH,
                forall|k: Seq<char>, q: usize|
                    #[trigger] holds(self.model(), k, q) <==> holds(old(self).model(), k, q) || (q == p && (k
                        == t@ || (MIN_KEYWORD_LENGTH <= k.len() < i && k.len() <= t@.len() && k == t@.subrange(
                        0,
                        k.len() as int,
                    )))),
            decreases cap + 1 - i,
        {
            let prefix = char_prefix(t.as_str(), i);
            self.add(prefix, p);
            i += 1;
        }
    }

    /// The finished index.
    pub(crate) fn finish(self) -> (r: SearchIndex)
        requires
            self.wf(),
        ensures
            r@ == self.model(),
    {
        SearchIndex { slots: self.slots, keys: self.keys, buckets: self.buckets }
    }
}

} // verus!
