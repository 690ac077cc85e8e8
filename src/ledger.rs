use vstd::prelude::*;
use vstd::pervasive::VecAdditionalExecFns;
use crate::text::{contains_str, strs};

verus! {

/// Usage entries as (glyph, count) pairs of plain values.
pub open spec fn pairs(v: Seq<(String, u32)>) -> Seq<(Seq<char>, u32)> {
    v.map_values(|e: (String, u32)| (e.0@, e.1))
}

/// No glyph appears twice.
pub open spec fn keys_unique(s: Seq<(Seq<char>, u32)>) -> bool {
    forall|i: int, j: int| 0 <= i < j < s.len() ==> s[i].0 != s[j].0
}

/// The last position of glyph `k` in `s`, or -1.
pub open spec fn position_of(s: Seq<(Seq<char>, u32)>, k: Seq<char>) -> int
    decreases s.len(),
{
    if s.len() == 0 {
        -1
    } else if s.last().0 == k {
        s.len() - 1
    } else {
        position_of(s.drop_last(), k)
    }
}

/// The count recorded for `k`, zero when there is none.
pub open spec fn count_of(s: Seq<(Seq<char>, u32)>, k: Seq<char>) -> u32 {
    let p = position_of(s, k);
    if p >= 0 {
        s[p].1
    } else {
        0
    }
}

/// `a + b`, held at `u32::MAX`.
pub open spec fn sat_add(a: u32, b: u32) -> u32 {
    if a + b > u32::MAX {
        u32::MAX
    } else {
        (a + b) as u32
    }
}

/// `s` with the count of `k` set to `c`; a new glyph goes last.
pub open spec fn assigned(s: Seq<(Seq<char>, u32)>, k: Seq<char>, c: u32) -> Seq<(Seq<char>, u32)> {
    let p = position_of(s, k);
    if p >= 0 {
        s.update(p, (k, c))
    } else {
        s.push((k, c))
    }
}

/// `s` with `amount` added to the count of `k`.
pub open spec fn bumped(s: Seq<(Seq<char>, u32)>, k: Seq<char>, amount: u32) -> Seq<(Seq<char>, u32)> {
    assigned(s, k, sat_add(count_of(s, k), amount))
}

/// `s` without the entry of `k`.
pub open spec fn without_key(s: Seq<(Seq<char>, u32)>, k: Seq<char>) -> Seq<(Seq<char>, u32)> {
    let p = position_of(s, k);
    if p >= 0 {
        s.remove(p)
    } else {
        s
    }
}

/// `s` after assigning each entry of `entries` in turn.
pub open spec fn assign_all(s: Seq<(Seq<char>, u32)>, entries: Seq<(Seq<char>, u32)>) -> Seq<(Seq<char>, u32)>
    decreases entries.len(),
{
    if entries.len() == 0 {
        s
    } else {
        let e = entries.last();
        assigned(assign_all(s, entries.drop_last()), e.0, e.1)
    }
}

/// Insert `e` into `sorted` after every entry whose count is not smaller.
pub open spec fn insert_by_count(sorted: Seq<(Seq<char>, u32)>, e: (Seq<char>, u32)) -> Seq<(Seq<char>, u32)>
    decreases sorted.len(),
{
    if sorted.len() == 0 {
        seq![e]
    } else if sorted.last().1 >= e.1 {
        sorted.push(e)
    } else {
        insert_by_count(sorted.drop_last(), e).push(sorted.last())
    }
}

/// The entries by count, highest first; equal counts keep the ledger's order.
pub open spec fn sort_by_count(s: Seq<(Seq<char>, u32)>) -> Seq<(Seq<char>, u32)>
    decreases s.len(),
{
    if s.len() == 0 {
        s
    } else {
        insert_by_count(sort_by_count(s.drop_last()), s.last())
    }
}

/// The glyphs of the first `limit` entries by count.
pub open spec fn top_ids(s: Seq<(Seq<char>, u32)>, limit: nat) -> Seq<Seq<char>> {
    let r = sort_by_count(s);
    r.subrange(0, if limit < r.len() { limit as int } else { r.len() as int }).map_values(
        |e: (Seq<char>, u32)| e.0,
    )
}

/// The elements of `s` that `pool` holds (`inside`) or does not hold, in order.
pub open spec fn select(s: Seq<Seq<char>>, pool: Seq<Seq<char>>, inside: bool) -> Seq<Seq<char>>
    decreases s.len(),
{
    if s.len() == 0 {
        s
    } else {
        let rest = select(s.drop_last(), pool, inside);
        if pool.contains(s.last()) == inside {
            rest.push(s.last())
        } else {
            rest
        }
    }
}

/// `items` with the glyphs of `top` that it holds moved to the front, in the
/// order of `top`; the rest keep their order.
pub open spec fn pinned_first(items: Seq<Seq<char>>, top: Seq<Seq<char>>) -> Seq<Seq<char>> {
    select(top, items, true) + select(items, top, false)
}

pub proof fn lemma_position_of(s: Seq<(Seq<char>, u32)>, k: Seq<char>)
    ensures
        -1 <= position_of(s, k) < s.len(),
        position_of(s, k) >= 0 ==> s[position_of(s, k)].0 == k,
        position_of(s, k) == -1 ==> forall|i: int| 0 <= i < s.len() ==> s[i].0 != k,
    decreases s.len(),
{
    if s.len() > 0 {
        let d = s.drop_last();
        lemma_position_of(d, k);
        assert forall|i: int| 0 <= i < d.len() implies d[i] == s[i] by {}
    }
}

proof fn lemma_position_unique(s: Seq<(Seq<char>, u32)>, k: Seq<char>, i: int)
    requires
        keys_unique(s),
        0 <= i < s.len(),
        s[i].0 == k,
    ensures
        position_of(s, k) == i,
{
    lemma_position_of(s, k);
}

/// Position of `k` in `v`, searching from the end.
fn find(v: &Vec<(String, u32)>, k: &String) -> (r: Option<usize>)
    ensures
        match r {
            Some(i) => i < v@.len() && i as int == position_of(pairs(v@), k@),
            None => position_of(pairs(v@), k@) == -1,
        },
{
    let ghost s = pairs(v@);
    let mut i = v.len();
    assert(s.subrange(0, i as int) =~= s);
    while i > 0
        invariant
            i <= v@.len(),
            s == pairs(v@),
            position_of(s, k@) == position_of(s.subrange(0, i as int), k@),
        decreases i,
    {
        let ghost t = s.subrange(0, i as int);
        assert(t.last() == (v@[i - 1].0@, v@[i - 1].1));
        if v[i - 1].0 == *k {
            return Some(i - 1);
        }
        assert(t.drop_last() =~= s.subrange(0, i - 1));
        i -= 1;
    }
    None
}

/// The usage ledger: a count per glyph, in the order glyphs were first recorded.
pub struct UsageLedger {
    entries: Vec<(String, u32)>,
}

impl View for UsageLedger {
    type V = Seq<(Seq<char>, u32)>;

    closed spec fn view(&self) -> Seq<(Seq<char>, u32)> {
        pairs(self.entries@)
    }
}

impl UsageLedger {
    #[verifier::type_invariant]
    closed spec fn wf(&self) -> bool {
        keys_unique(pairs(self.entries@))
    }

    /// An empty ledger.
    pub fn new() -> (r: Self)
        ensures
            r@ == Seq::<(Seq<char>, u32)>::empty(),
    {
        let r = UsageLedger { entries: Vec::new() };
        assert(r@ =~= Seq::<(Seq<char>, u32)>::empty());
        r
    }

    /// The number of glyphs with a count.
    pub fn len(&self) -> (r: usize)
        ensures
            r == self@.len(),
    {
        self.entries.len()
    }

    /// Whether no glyph has a count.
    pub fn is_empty(&self) -> (r: bool)
        ensures
            r == (self@.len() == 0),
    {
        self.entries.len() == 0
    }

    /// The count of `k`, if it has one.
    pub fn get(&self, k: &str) -> (r: Option<&u32>)
        ensures
            match r {
                Some(c) => position_of(self@, k@) >= 0 && *c == self@[position_of(self@, k@)].1,
                None => position_of(self@, k@) == -1,
            },
    {
        let key = k.to_owned();
        match find(&self.entries, &key) {
            Some(i) => Some(&self.entries[i].1),
            None => None,
        }
    }

    /// The entries, in ledger order.
    pub fn entries(&self) -> (r: &Vec<(String, u32)>)
        ensures
            pairs(r@) == self@,
            keys_unique(self@),
    {
        proof {
            use_type_invariant(self);
        }
        &self.entries
    }

    /// Set the count of `k` to `c`.
    pub fn assign(&mut self, k: String, c: u32)
        ensures
            final(self)@ == assigned(old(self)@, k@, c),
            keys_unique(final(self)@),
    {
        proof {
            use_type_invariant(&*self);
        }
        let mut v: Vec<(String, u32)> = Vec::new();
        std::mem::swap(&mut v, &mut self.entries);
        let ghost s = pairs(v@);
        proof {
            lemma_position_of(s, k@);
        }
        match find(&v, &k) {
            Some(i) => {
                v.set(i, (k, c));
                assert(pairs(v@) =~= s.update(i as int, (k@, c)));
            },
            None => {
                v.push((k, c));
                assert(pairs(v@) =~= s.push((k@, c)));
            },
        }
        self.entries = v;
    }

    /// Add `amount` to the count of `k`, which starts at zero; the count stays
    /// at `u32::MAX` rather than wrap.
    pub fn increment(&mut self, k: &str, amount: u32)
        ensures
            final(self)@ == bumped(old(self)@, k@, amount),
            count_of(final(self)@, k@) == sat_add(count_of(old(self)@, k@), amount),
            keys_unique(final(self)@),
    {
        proof {
            use_type_invariant(&*self);
            lemma_position_of(self@, k@);
        }
        let key = k.to_owned();
        let current = match find(&self.entries, &key) {
            Some(i) => self.entries[i].1,
            None => 0,
        };
        let c = current.saturating_add(amount);
        self.assign(key, c);
        proof {
            lemma_assigned_position(old(self)@, k@, c);
        }
    }

    /// Remove the count of `k`, if it has one.
    pub fn remove(&mut self, k: &str)
        ensures
            final(self)@ == without_key(old(self)@, k@),
    {
        proof {
            use_type_invariant(&*self);
        }
        let key = k.to_owned();
        let mut v: Vec<(String, u32)> = Vec::new();
        std::mem::swap(&mut v, &mut self.entries);
        let ghost s = pairs(v@);
        match find(&v, &key) {
            Some(i) => {
                v.remove(i);
                assert(pairs(v@) =~= s.remove(i as int));
            },
            None => {},
        }
        self.entries = v;
    }

    /// Remove every count.
    pub fn clear(&mut self)
        ensures
            final(self)@ == Seq::<(Seq<char>, u32)>::empty(),
    {
        self.entries = Vec::new();
        assert(self@ =~= Seq::<(Seq<char>, u32)>::empty());
    }
}

proof fn lemma_assigned_position(s: Seq<(Seq<char>, u32)>, k: Seq<char>, c: u32)
    requires
        keys_unique(s),
    ensures
        position_of(assigned(s, k, c), k) >= 0,
        assigned(s, k, c)[position_of(assigned(s, k, c), k)] == (k, c),
{
    lemma_position_of(s, k);
    let t = assigned(s, k, c);
    let p = position_of(s, k);
    if p >= 0 {
        assert(t[p].0 == k);
        assert(keys_unique(t));
        lemma_position_unique(t, k, p);
    } else {
        assert(t.last() == (k, c));
    }
}

proof fn lemma_insert_by_count(sorted: Seq<(Seq<char>, u32)>, e: (Seq<char>, u32), j: int)
    requires
        0 <= j <= sorted.len(),
        forall|i: int| j <= i < sorted.len() ==> (#[trigger] sorted[i]).1 < e.1,
        j > 0 ==> sorted[j - 1].1 >= e.1,
    ensures
        insert_by_count(sorted, e) == sorted.insert(j, e),
    decreases sorted.len(),
{
    if sorted.len() == 0 {
        assert(sorted.insert(j, e) =~= seq![e]);
    } else if sorted.last().1 >= e.1 {
        assert(sorted.insert(j, e) =~= sorted.push(e));
    } else {
        let d = sorted.drop_last();
        lemma_insert_by_count(d, e, j);
        assert(sorted.insert(j, e) =~= d.insert(j, e).push(sorted.last()));
    }
}

impl UsageLedger {
    /// The glyphs of the `limit` highest counts, highest first; equal counts
    /// keep the ledger's order.
    pub fn top(&self, limit: usize) -> (r: Vec<String>)
        ensures
            strs(r@) == top_ids(self@, limit as nat),
    {
        let ghost s = self@;
        let mut sorted: Vec<(String, u32)> = Vec::new();
        let mut i: usize = 0;
        while i < self.entries.len()
            invariant
                i <= self.entries@.len(),
                s == pairs(self.entries@),
                pairs(sorted@) == sort_by_count(s.subrange(0, i as int)),
            decreases self.entries@.len() - i,
        {
            let k = self.entries[i].0.clone();
            let c = self.entries[i].1;
            let mut j = sorted.len();
            while j > 0 && sorted[j - 1].1 < c
                invariant
                    j <= sorted@.len(),
                    forall|m: int| j <= m < sorted@.len() ==> (#[trigger] sorted@[m]).1 < c,
                decreases j,
            {
                j -= 1;
            }
            proof {
                let ps = pairs(sorted@);
                assert forall|m: int| j <= m < ps.len() implies (#[trigger] ps[m]).1 < c by {
                    assert(ps[m].1 == sorted@[m].1);
                }
                lemma_insert_by_count(ps, (k@, c), j as int);
                let t = s.subrange(0, i + 1);
                assert(t.drop_last() =~= s.subrange(0, i as int));
                assert(t.last() == (k@, c));
            }
            let ghost before = sorted@;
            sorted.insert(j, (k, c));
            assert(pairs(sorted@) =~= pairs(before).insert(j as int, (k@, c)));
            i += 1;
        }
        assert(s.subrange(0, self.entries@.len() as int) =~= s);
        let n = if limit < sorted.len() {
            limit
        } else {
            sorted.len()
        };
        let mut out: Vec<String> = Vec::new();
        let mut m: usize = 0;
        while m < n
            invariant
                m <= n,
                n <= sorted@.len(),
                strs(out@) == pairs(sorted@).subrange(0, m as int).map_values(|e: (Seq<char>, u32)| e.0),
            decreases n - m,
        {
            let ghost before = strs(out@);
            out.push(sorted[m].0.clone());
            assert(strs(out@) =~= before.push(sorted@[m as int].0@));
            assert(pairs(sorted@)[m as int].0 == sorted@[m as int].0@);
            assert(strs(out@) =~= pairs(sorted@).subrange(0, m + 1).map_values(|e: (Seq<char>, u32)| e.0));
            m += 1;
        }
        out
    }
}

/// `items` with the glyphs of `top` that it holds moved to the front, in the
/// order of `top`; the other items follow in their own order.
pub fn order_by_usage(items: &Vec<String>, top: &Vec<String>) -> (r: Vec<String>)
    ensures
        strs(r@) == pinned_first(strs(items@), strs(top@)),
{
    let mut out: Vec<String> = Vec::new();
    let mut i: usize = 0;
    while i < top.len()
        invariant
            i <= top@.len(),
            strs(out@) == select(strs(top@).subrange(0, i as int), strs(items@), true),
        decreases top@.len() - i,
    {
        proof {
            let t = strs(top@).subrange(0, i + 1);
            assert(t.drop_last() =~= strs(top@).subrange(0, i as int));
            assert(t.last() == top@[i as int]@);
        }
        let ghost before = strs(out@);
        if contains_str(items, &top[i]) {
            out.push(top[i].clone());
            assert(strs(out@) =~= before.push(top@[i as int]@));
        }
        i += 1;
    }
    assert(strs(top@).subrange(0, top@.len() as int) =~= strs(top@));
    let ghost head = strs(out@);
    let mut i: usize = 0;
    while i < items.len()
        invariant
            i <= items@.len(),
            strs(out@) == head + select(strs(items@).subrange(0, i as int), strs(top@), false),
        decreases items@.len() - i,
    {
        proof {
            let t = strs(items@).subrange(0, i + 1);
            assert(t.drop_last() =~= strs(items@).subrange(0, i as int));
            assert(t.last() == items@[i as int]@);
        }
        let ghost before = strs(out@);
        if !contains_str(top, &items[i]) {
            out.push(items[i].clone());
            assert(strs(out@) =~= before.push(items@[i as int]@));
        }
        i += 1;
    }
    assert(strs(items@).subrange(0, items@.len() as int) =~= strs(items@));
    out
}

/// Whether some entry of `s` is for glyph `k`.
pub open spec fn has_key(s: Seq<(Seq<char>, u32)>, k: Seq<char>) -> bool {
    exists|i: int| 0 <= i < s.len() && (#[trigger] s[i]).0 == k
}

proof fn lemma_insert_by_count_places(sorted: Seq<(Seq<char>, u32)>, e: (Seq<char>, u32))
    ensures
        exists|j: int| 0 <= j <= sorted.len() && insert_by_count(sorted, e) == sorted.insert(j, e),
    decreases sorted.len(),
{
    if sorted.len() == 0 {
        assert(insert_by_count(sorted, e) == sorted.insert(0, e));
    } else if sorted.last().1 >= e.1 {
        assert(insert_by_count(sorted, e) == sorted.insert(sorted.len() as int, e));
    } else {
        let d = sorted.drop_last();
        lemma_insert_by_count_places(d, e);
        let j = choose|j: int| 0 <= j <= d.len() && insert_by_count(d, e) == d.insert(j, e);
        assert(d.insert(j, e).push(sorted.last()) =~= sorted.insert(j, e));
    }
}

/// Sorting by count keeps the entries' glyphs, each once.
pub proof fn lemma_sort_by_count_keys(s: Seq<(Seq<char>, u32)>)
    requires
        keys_unique(s),
    ensures
        keys_unique(sort_by_count(s)),
        sort_by_count(s).len() == s.len(),
        forall|k: Seq<char>| has_key(sort_by_count(s), k) <==> has_key(s, k),
    decreases s.len(),
{
    if s.len() > 0 {
        let d = s.drop_last();
        let e = s.last();
        assert forall|i: int, j: int| 0 <= i < j < d.len() implies d[i].0 != d[j].0 by {
            assert(d[i] == s[i] && d[j] == s[j]);
        }
        lemma_sort_by_count_keys(d);
        let sd = sort_by_count(d);
        lemma_insert_by_count_places(sd, e);
        let j = choose|j: int| 0 <= j <= sd.len() && insert_by_count(sd, e) == sd.insert(j, e);
        let r = sd.insert(j, e);
        assert(!has_key(d, e.0)) by {
            if has_key(d, e.0) {
                let i = choose|i: int| 0 <= i < d.len() && (#[trigger] d[i]).0 == e.0;
                assert(s[i].0 == s[s.len() - 1].0);
            }
        }
        assert forall|k: Seq<char>| has_key(r, k) <==> has_key(s, k) by {
            if has_key(r, k) {
                let i = choose|i: int| 0 <= i < r.len() && (#[trigger] r[i]).0 == k;
                if i == j {
                    assert(s[s.len() - 1].0 == k);
                } else {
                    let i2 = if i < j { i } else { i - 1 };
                    assert(sd[i2].0 == k);
                    assert(has_key(sd, k));
                    assert(has_key(d, k));
                    let i3 = choose|i3: int| 0 <= i3 < d.len() && (#[trigger] d[i3]).0 == k;
                    assert(s[i3].0 == k);
                }
            }
            if has_key(s, k) {
                let i = choose|i: int| 0 <= i < s.len() && (#[trigger] s[i]).0 == k;
                if i == s.len() - 1 {
                    assert(r[j].0 == k);
                } else {
                    assert(d[i].0 == k);
                    assert(has_key(d, k));
                    let i2 = choose|i2: int| 0 <= i2 < sd.len() && (#[trigger] sd[i2]).0 == k;
                    if i2 < j {
                        assert(r[i2].0 == k);
                    } else {
                        assert(r[i2 + 1].0 == k);
                    }
                }
            }
        }
        assert forall|a: int, b: int| 0 <= a < b < r.len() implies r[a].0 != r[b].0 by {
            if a == j {
                assert(r[b] == sd[b - 1]);
                assert(has_key(sd, r[b].0));
            } else if b == j {
                assert(r[a] == sd[a]);
                assert(has_key(sd, r[a].0));
            } else {
                let a2 = if a < j { a } else { a - 1 };
                let b2 = if b < j { b } else { b - 1 };
                assert(r[a] == sd[a2] && r[b] == sd[b2]);
            }
        }
    }
}

/// The pinned glyphs of a ledger are distinct.
pub proof fn lemma_top_ids_distinct(s: Seq<(Seq<char>, u32)>, limit: nat)
    requires
        keys_unique(s),
    ensures
        top_ids(s, limit).no_duplicates(),
{
    lemma_sort_by_count_keys(s);
    let r = sort_by_count(s);
    let t = top_ids(s, limit);
    assert forall|a: int, b: int| 0 <= a < t.len() && 0 <= b < t.len() && a != b implies t[a] != t[b] by {
        assert(t[a] == r[a].0 && t[b] == r[b].0);
    }
}

/// What `select` keeps.
pub proof fn lemma_select_contains(s: Seq<Seq<char>>, pool: Seq<Seq<char>>, inside: bool, y: Seq<char>)
    ensures
        select(s, pool, inside).contains(y) <==> s.contains(y) && pool.contains(y) == inside,
        select(s, pool, inside).len() <= s.len(),
    decreases s.len(),
{
    if s.len() > 0 {
        let d = s.drop_last();
        lemma_select_contains(d, pool, inside, y);
        let rd = select(d, pool, inside);
        let r = select(s, pool, inside);
        if r.contains(y) {
            let i = choose|i: int| 0 <= i < r.len() && r[i] == y;
            if i < rd.len() {
                assert(rd[i] == y);
                let i2 = choose|i2: int| 0 <= i2 < d.len() && d[i2] == y;
                assert(s[i2] == y);
            } else {
                assert(s[s.len() - 1] == y);
            }
        }
        if s.contains(y) && pool.contains(y) == inside {
            let i = choose|i: int| 0 <= i < s.len() && s[i] == y;
            if i < d.len() {
                assert(d[i] == y);
                let i2 = choose|i2: int| 0 <= i2 < rd.len() && rd[i2] == y;
                assert(r[i2] == y);
            } else {
                assert(r[r.len() - 1] == y);
            }
        }
    }
}

/// `select` depends on the pool only through the elements of `s`.
proof fn lemma_select_same_pool(s: Seq<Seq<char>>, pool_a: Seq<Seq<char>>, pool_b: Seq<Seq<char>>, inside: bool)
    requires
        forall|y: Seq<char>| s.contains(y) ==> (pool_a.contains(y) <==> pool_b.contains(y)),
    ensures
        select(s, pool_a, inside) == select(s, pool_b, inside),
    decreases s.len(),
{
    if s.len() > 0 {
        let d = s.drop_last();
        assert forall|y: Seq<char>| d.contains(y) implies (pool_a.contains(y) <==> pool_b.contains(y)) by {
            let i = choose|i: int| 0 <= i < d.len() && d[i] == y;
            assert(s[i] == y);
        }
        lemma_select_same_pool(d, pool_a, pool_b, inside);
        assert(s.contains(s.last()));
    }
}

/// Taking out `x` and then the glyphs of `t` is taking out those of `t.push(x)`.
proof fn lemma_select_twice(items: Seq<Seq<char>>, t: Seq<Seq<char>>, x: Seq<char>)
    ensures
        select(select(items, seq![x], false), t, false) == select(items, t.push(x), false),
    decreases items.len(),
{
    if items.len() > 0 {
        let d = items.drop_last();
        let y = items.last();
        lemma_select_twice(d, t, x);
        assert(seq![x].contains(y) <==> y == x) by {
            if y == x {
                assert(seq![x][0] == y);
            }
        }
        assert(t.push(x).contains(y) <==> t.contains(y) || y == x) by {
            if t.contains(y) {
                let i = choose|i: int| 0 <= i < t.len() && t[i] == y;
                assert(t.push(x)[i] == y);
            }
            if y == x {
                assert(t.push(x)[t.len() as int] == y);
            }
            if t.push(x).contains(y) {
                let i = choose|i: int| 0 <= i < t.len() + 1 && t.push(x)[i] == y;
                if i < t.len() {
                    assert(t[i] == y);
                }
            }
        }
        let inner = select(d, seq![x], false);
        if y != x {
            assert(select(items, seq![x], false) == inner.push(y));
            assert(inner.push(y).drop_last() =~= inner);
        }
    }
}

/// Pinning never lengthens a list whose pinned glyphs are distinct.
pub proof fn lemma_pinned_first_len(items: Seq<Seq<char>>, top: Seq<Seq<char>>)
    requires
        top.no_duplicates(),
    ensures
        pinned_first(items, top).len() <= items.len(),
    decreases top.len(),
{
    if top.len() == 0 {
        lemma_select_contains(items, top, false, seq![]);
        assert(select(top, items, true) =~= Seq::<Seq<char>>::empty());
    } else {
        let t = top.drop_last();
        let x = top.last();
        let rest = select(items, seq![x], false);
        assert(t.no_duplicates()) by {
            assert forall|a: int, b: int| 0 <= a < t.len() && 0 <= b < t.len() && a != b implies t[a] != t[b] by {
                assert(t[a] == top[a] && t[b] == top[b]);
            }
        }
        lemma_pinned_first_len(rest, t);
        assert forall|y: Seq<char>| t.contains(y) implies (items.contains(y) <==> rest.contains(y)) by {
            let i = choose|i: int| 0 <= i < t.len() && t[i] == y;
            assert(top[i] == y);
            assert(y != x);
            lemma_select_contains(items, seq![x], false, y);
            assert(seq![x].contains(y) ==> y == x) by {
                if seq![x].contains(y) {
                    let k = choose|k: int| 0 <= k < 1 && seq![x][k] == y;
                }
            }
        }
        lemma_select_same_pool(t, items, rest, true);
        lemma_select_twice(items, t, x);
        assert(t.push(x) =~= top);
        lemma_select_contains(items, seq![x], false, x);
        assert(seq![x].contains(x)) by {
            assert(seq![x][0] == x);
        }
        if items.contains(x) {
            lemma_select_drops(items, x);
        }
    }
}

proof fn lemma_select_drops(items: Seq<Seq<char>>, x: Seq<char>)
    requires
        items.contains(x),
    ensures
        select(items, seq![x], false).len() < items.len(),
    decreases items.len(),
{
    let d = items.drop_last();
    assert(seq![x].contains(x)) by {
        assert(seq![x][0] == x);
    }
    lemma_select_contains(d, seq![x], false, x);
    if items.last() != x {
        let i = choose|i: int| 0 <= i < items.len() && items[i] == x;
        assert(d[i] == x);
        lemma_select_drops(d, x);
    }
}

} // verus!
