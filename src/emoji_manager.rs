use vstd::prelude::*;
use vstd::hash_map::StringHashMap;
use crate::constants::{
    write_delay, MAX_PREFIX_LENGTH, MAX_SEARCH_RESULTS, MILLIS_PER_SEC, MIN_KEYWORD_LENGTH, MIN_SEARCH_LENGTH,
    RANK_WRITE_DELAY_SECS,
};
use crate::document::{ledger_from_json, ledger_json, read_ledger_json, write_ledger_json};
use crate::errors::EmojiError;
use crate::index::{files_under, holds, index_terms, index_terms_of, is_search_index, posting, IndexBuilder, SearchIndex};
use crate::keywords::{build_keyword_list, keyword_set};
use crate::ledger::{
    assign_all, bumped, count_of, keys_unique, lemma_pinned_first_len, lemma_select_contains,
    lemma_top_ids_distinct, order_by_usage, pairs, pinned_first, sat_add, select, top_ids, without_key,
    UsageLedger,
};
use crate::scheduler::{WriteScheduler, WriteStep};
use crate::text::{
    byte_len, lower_of, lowercase, strip_variation_selector, strs, trim, trimmed, without_char,
    VARIATION_SELECTOR,
};

verus! {

/// One catalog entry: a glyph and what describes it.
#[derive(Debug, Clone)]
pub struct EmojiData {
    pub emoji: String,
    pub description: Option<String>,
    pub category: Option<String>,
    pub aliases: Option<Vec<String>>,
    pub tags: Option<Vec<String>>,
    pub unicode_version: Option<String>,
    pub ios_version: Option<String>,
}

/// The characters of an optional string, empty when absent.
pub open spec fn opt_text(o: Option<String>) -> Seq<char> {
    match o {
        Some(s) => s@,
        None => Seq::empty(),
    }
}

/// The strings of an optional list, empty when absent.
pub open spec fn opt_list(o: Option<Vec<String>>) -> Seq<Seq<char>> {
    match o {
        Some(v) => strs(v@),
        None => Seq::empty(),
    }
}

/// The keyword list of a catalog entry.
pub open spec fn keywords_of(e: EmojiData) -> Seq<Seq<char>> {
    keyword_set(opt_text(e.description), opt_list(e.aliases) + opt_list(e.tags))
}

/// Glyph to keyword list for a catalog; a later entry with the same glyph wins.
pub open spec fn keyword_table(items: Seq<EmojiData>) -> Map<Seq<char>, Seq<Seq<char>>>
    decreases items.len(),
{
    if items.len() == 0 {
        Map::empty()
    } else {
        keyword_table(items.drop_last()).insert(items.last().emoji@, keywords_of(items.last()))
    }
}

/// The glyphs of a catalog, in catalog order.
pub open spec fn ids_of(items: Seq<EmojiData>) -> Seq<Seq<char>> {
    items.map_values(|e: EmojiData| e.emoji@)
}

/// The keyword table as plain values.
pub open spec fn table_view(t: StringHashMap<Vec<String>>) -> Map<Seq<char>, Seq<Seq<char>>> {
    t@.map_values(|v: Vec<String>| strs(v@))
}

/// The glyphs at positions `ps` of the catalog `ids`; positions outside it are skipped.
pub open spec fn ids_at(ps: Seq<usize>, ids: Seq<Seq<char>>) -> Seq<Seq<char>>
    decreases ps.len(),
{
    if ps.len() == 0 {
        Seq::empty()
    } else {
        let rest = ids_at(ps.drop_last(), ids);
        if ps.last() < ids.len() {
            rest.push(ids[ps.last() as int])
        } else {
            rest
        }
    }
}

/// The first `MAX_SEARCH_RESULTS` elements of `s`.
pub open spec fn capped<T>(s: Seq<T>) -> Seq<T> {
    s.subrange(0, if s.len() < MAX_SEARCH_RESULTS { s.len() as int } else { MAX_SEARCH_RESULTS as int })
}

/// Built state of the engine: catalog, usage ledger, keyword table and index.
pub struct EmojiManagerData {
    pub emojis: Vec<EmojiData>,
    pub ranks: UsageLedger,
    pub keywords: StringHashMap<Vec<String>>,
    pub index: SearchIndex,
    pub emojis_loaded: bool,
    pub ranks_loaded: bool,
    pub keywords_built: bool,
    pub index_built: bool,
}

impl EmojiManagerData {
    /// Nothing loaded or built.
    pub fn new() -> (r: Self)
        ensures
            r.emojis@.len() == 0,
            r.ranks@.len() == 0,
            table_view(r.keywords) == Map::<Seq<char>, Seq<Seq<char>>>::empty(),
            r.index@ == Map::<Seq<char>, Seq<usize>>::empty(),
            !r.emojis_loaded,
            !r.ranks_loaded,
            !r.keywords_built,
            !r.index_built,
            r.wf(),
    {
        let r = EmojiManagerData {
            emojis: Vec::new(),
            ranks: UsageLedger::new(),
            keywords: StringHashMap::new(),
            index: SearchIndex::new(),
            emojis_loaded: false,
            ranks_loaded: false,
            keywords_built: false,
            index_built: false,
        };
        assert(table_view(r.keywords) =~= Map::<Seq<char>, Seq<Seq<char>>>::empty());
        r
    }

    /// What the builders guarantee of each other: the keyword table and the
    /// index, once built, are those of the loaded catalog.
    pub open spec fn wf(&self) -> bool {
        &&& self.keywords_built ==> table_view(self.keywords) == keyword_table(self.emojis@)
        &&& !self.keywords_built ==> table_view(self.keywords) == Map::<Seq<char>, Seq<Seq<char>>>::empty()
        &&& self.index_built ==> is_search_index(self.index@, table_view(self.keywords), ids_of(self.emojis@))
        &&& !self.index_built ==> self.index@ == Map::<Seq<char>, Seq<usize>>::empty()
        &&& self.index_built ==> self.keywords_built
        &&& self.keywords_built ==> self.emojis_loaded
        &&& !self.emojis_loaded ==> self.emojis@.len() == 0
    }
}

/// The result list of a query before usage ranking: the whole catalog for a
/// query shorter than `MIN_SEARCH_LENGTH` bytes, else the items filed under it.
pub open spec fn unranked(d: EmojiManagerData, f: Seq<char>) -> Seq<Seq<char>> {
    let ids = ids_of(d.emojis@);
    if byte_len(f) < MIN_SEARCH_LENGTH {
        capped(ids)
    } else if d.index@.contains_key(f) {
        ids_at(capped(d.index@[f]), ids)
    } else {
        Seq::empty()
    }
}

/// The answer to query `q` with the `max_top` most used glyphs pinned first.
pub open spec fn search_result(d: EmojiManagerData, q: Seq<char>, max_top: usize) -> Seq<Seq<char>> {
    let t = trimmed(q);
    let table = table_view(d.keywords);
    let stripped = without_char(t, VARIATION_SELECTOR);
    if table.contains_key(t) {
        seq![t]
    } else if stripped != t && table.contains_key(stripped) {
        seq![stripped]
    } else {
        let list = unranked(d, lower_of(t));
        if max_top == 0 {
            list
        } else {
            pinned_first(list, top_ids(d.ranks@, max_top as nat))
        }
    }
}

/// The ledger that a read of the ledger file gives: the parsed document, or
/// an empty ledger when the file is missing, unreadable or not a ledger.
pub open spec fn loaded_ledger(document: Result<Option<String>, EmojiError>) -> Seq<(Seq<char>, u32)> {
    match document {
        Ok(Some(t)) => match ledger_from_json(t@) {
            Some(entries) => assign_all(Seq::empty(), entries),
            None => Seq::empty(),
        },
        _ => Seq::empty(),
    }
}

/// The search engine: built state, file locations for the caller's I/O, and
/// the write-back state machine of the usage ledger.
pub struct EmojiManager {
    pub emoji_file_path: String,
    pub ranks_file_path: String,
    pub data: EmojiManagerData,
    pub writer: WriteScheduler,
    pub init_success: bool,
}

impl EmojiManager {
    /// The built state is consistent, and a successful initialization means
    /// that everything is loaded and built.
    pub open spec fn wf(&self) -> bool {
        &&& self.data.wf()
        &&& self.init_success ==> self.data.emojis_loaded && self.data.ranks_loaded
            && self.data.keywords_built && self.data.index_built
    }

    /// `other` differs from `self` at most in the ledger, its loaded flag and
    /// the write-back state.
    pub open spec fn same_catalog(&self, other: &EmojiManager) -> bool {
        &&& other.emoji_file_path == self.emoji_file_path
        &&& other.ranks_file_path == self.ranks_file_path
        &&& other.data.emojis == self.data.emojis
        &&& other.data.keywords == self.data.keywords
        &&& other.data.index == self.data.index
        &&& other.data.emojis_loaded == self.data.emojis_loaded
        &&& other.data.keywords_built == self.data.keywords_built
        &&& other.data.index_built == self.data.index_built
        &&& other.init_success == self.init_success
    }

    /// `other` differs from `self` at most in the ledger's counts and the
    /// write-back state.
    pub open spec fn same_but_ranks(&self, other: &EmojiManager) -> bool {
        &&& self.same_catalog(other)
        &&& other.data.ranks_loaded == self.data.ranks_loaded
    }

    /// An engine with nothing loaded, over the given files.
    pub fn new(emoji_file_path: String, ranks_file_path: String) -> (r: Self)
        ensures
            r.emoji_file_path == emoji_file_path,
            r.ranks_file_path == ranks_file_path,
            r.data.emojis@.len() == 0,
            r.data.ranks@.len() == 0,
            table_view(r.data.keywords) == Map::<Seq<char>, Seq<Seq<char>>>::empty(),
            r.data.index@ == Map::<Seq<char>, Seq<usize>>::empty(),
            !r.data.emojis_loaded,
            !r.data.ranks_loaded,
            !r.data.keywords_built,
            !r.data.index_built,
            r.data.wf(),
            r.wf(),
            !r.init_success,
            !r.writer.pending,
            !r.writer.worker_active,
            r.writer.write_delay_ms == RANK_WRITE_DELAY_SECS * MILLIS_PER_SEC,
    {
        EmojiManager {
            emoji_file_path,
            ranks_file_path,
            data: EmojiManagerData::new(),
            writer: WriteScheduler::new(write_delay()),
            init_success: false,
        }
    }

    /// Whether `initialize` has succeeded.
    pub fn is_initialized(&self) -> (r: bool)
        ensures
            r == self.init_success,
    {
        self.init_success
    }

    /// Take in the parsed catalog, once. A catalog that is already loaded is
    /// kept and `catalog` ignored; an error in `catalog` is returned and
    /// changes nothing.
    pub fn load_emojis(&mut self, catalog: Result<Vec<EmojiData>, EmojiError>) -> (r: Result<(), EmojiError>)
        ensures
            old(self).data.emojis_loaded ==> r is Ok && *final(self) == *old(self),
            !old(self).data.emojis_loaded ==> match catalog {
                Ok(items) => r is Ok && *final(self) == (EmojiManager {
                    data: EmojiManagerData { emojis: items, emojis_loaded: true, ..old(self).data },
                    ..*old(self)
                }),
                Err(e) => r == Err::<(), EmojiError>(e) && *final(self) == *old(self),
            },
            old(self).data.wf() ==> final(self).data.wf(),
            old(self).wf() ==> final(self).wf(),
    {
        if self.data.emojis_loaded {
            return Ok(());
        }
        match catalog {
            Ok(items) => {
                self.data.emojis = items;
                self.data.emojis_loaded = true;
                Ok(())
            },
            Err(e) => Err(e),
        }
    }

    /// Take in the ledger document, once. A missing file (`Ok(None)`), an
    /// unreadable one (`Err`) and a document that is not a map from glyph to
    /// count all give an empty ledger: history starts afresh rather than the
    /// engine failing. A ledger that is already loaded is kept.
    pub fn load_ranks(&mut self, document: Result<Option<String>, EmojiError>) -> (r: Result<(), EmojiError>)
        ensures
            r is Ok,
            old(self).data.ranks_loaded ==> *final(self) == *old(self),
            !old(self).data.ranks_loaded ==> final(self).data.ranks_loaded && final(self).data.ranks@
                == loaded_ledger(document),
            old(self).same_catalog(final(self)),
            final(self).writer == old(self).writer,
            old(self).data.wf() ==> final(self).data.wf(),
            old(self).wf() ==> final(self).wf(),
    {
        if self.data.ranks_loaded {
            return Ok(());
        }
        let text = match document {
            Ok(text) => text,
            Err(_) => None,
        };
        let mut ranks = UsageLedger::new();
        match text {
            Some(t) => {
                match read_ledger_json(t.as_str()) {
                    Some(entries) => {
                        let mut i: usize = 0;
                        while i < entries.len()
                            invariant
                                i <= entries@.len(),
                                ranks@ == assign_all(Seq::empty(), pairs(entries@).subrange(0, i as int)),
                            decreases entries@.len() - i,
                        {
                            let k = entries[i].0.clone();
                            ranks.assign(k, entries[i].1);
                            proof {
                                let s = pairs(entries@).subrange(0, i + 1);
                                assert(s.drop_last() =~= pairs(entries@).subrange(0, i as int));
                            }
                            i += 1;
                        }
                        assert(pairs(entries@).subrange(0, entries@.len() as int) =~= pairs(entries@));
                    },
                    None => {},
                }
            },
            None => {},
        }
        self.data.ranks = ranks;
        self.data.ranks_loaded = true;
        Ok(())
    }

    /// Derive the keyword list of every catalog entry, once. Fails, changing
    /// nothing, while the catalog is not loaded.
    pub fn build_keywords(&mut self) -> (r: Result<(), EmojiError>)
        ensures
            old(self).data.keywords_built ==> r is Ok && *final(self) == *old(self),
            !old(self).data.keywords_built && !old(self).data.emojis_loaded ==> (r matches Err(
                EmojiError::Json(_),
            )) && *final(self) == *old(self),
            !old(self).data.keywords_built && old(self).data.emojis_loaded ==> {
                &&& r is Ok
                &&& final(self).data.keywords_built
                &&& table_view(final(self).data.keywords) == keyword_table(old(self).data.emojis@)
                &&& *final(self) == (EmojiManager {
                    data: EmojiManagerData {
                        keywords: final(self).data.keywords,
                        keywords_built: true,
                        ..old(self).data
                    },
                    ..*old(self)
                })
            },
            old(self).data.wf() ==> final(self).data.wf(),
            old(self).wf() ==> final(self).wf(),
    {
        if self.data.keywords_built {
            return Ok(());
        }
        if !self.data.emojis_loaded {
            return Err(EmojiError::Json("emoji catalog is not loaded".to_owned()));
        }
        let mut table: StringHashMap<Vec<String>> = StringHashMap::new();
        let n = self.data.emojis.len();
        let mut i: usize = 0;
        assert(table_view(table) =~= keyword_table(self.data.emojis@.subrange(0, 0)));
        while i < n
            invariant
                n == self.data.emojis@.len(),
                i <= n,
                table_view(table) == keyword_table(self.data.emojis@.subrange(0, i as int)),
            decreases n - i,
        {
            let e = &self.data.emojis[i];
            let mut extra: Vec<String> = Vec::new();
            match &e.aliases {
                Some(a) => append_strings(&mut extra, a),
                None => {},
            }
            match &e.tags {
                Some(t) => append_strings(&mut extra, t),
                None => {},
            }
            assert(strs(extra@) =~= opt_list(e.aliases) + opt_list(e.tags));
            let kws = match &e.description {
                Some(d) => build_keyword_list(d.as_str(), &extra),
                None => {
                    let empty = "";
                    proof {
                        reveal_strlit("");
                        assert(empty@ =~= opt_text(e.description));
                    }
                    build_keyword_list(empty, &extra)
                },
            };
            let ghost before = table_view(table);
            table.insert(e.emoji.clone(), kws);
            proof {
                let items = self.data.emojis@.subrange(0, i + 1);
                assert(items.drop_last() =~= self.data.emojis@.subrange(0, i as int));
                assert(items.last() == *e);
                assert(table_view(table) =~= before.insert(e.emoji@, keywords_of(*e)));
            }
            i += 1;
        }
        assert(self.data.emojis@.subrange(0, n as int) =~= self.data.emojis@);
        self.data.keywords = table;
        self.data.keywords_built = true;
        Ok(())
    }

    /// Build the inverted index from the keyword table, once. Fails, changing
    /// nothing, while the keywords are not built.
    pub fn build_index(&mut self) -> (r: Result<(), EmojiError>)
        ensures
            old(self).data.index_built ==> r is Ok && *final(self) == *old(self),
            !old(self).data.index_built && !old(self).data.keywords_built ==> (r matches Err(
                EmojiError::Json(_),
            )) && *final(self) == *old(self),
            !old(self).data.index_built && old(self).data.keywords_built ==> {
                &&& r is Ok
                &&& final(self).data.index_built
                &&& is_search_index(
                    final(self).data.index@,
                    table_view(old(self).data.keywords),
                    ids_of(old(self).data.emojis@),
                )
                &&& *final(self) == (EmojiManager {
                    data: EmojiManagerData { index: final(self).data.index, index_built: true, ..old(self).data },
                    ..*old(self)
                })
            },
            old(self).data.wf() ==> final(self).data.wf(),
            old(self).wf() ==> final(self).wf(),
    {
        if self.data.index_built {
            return Ok(());
        }
        if !self.data.keywords_built {
            return Err(EmojiError::Json("keywords are not built".to_owned()));
        }
        let ghost table = table_view(self.data.keywords);
        let ghost ids = ids_of(self.data.emojis@);
        let mut builder = IndexBuilder::new();
        let n = self.data.emojis.len();
        let mut p: usize = 0;
        while p < n
            invariant
                n == self.data.emojis@.len(),
                p <= n,
                table == table_view(self.data.keywords),
                ids == ids_of(self.data.emojis@),
                builder.open_for(p),
                forall|k: Seq<char>, q: usize|
                    #[trigger] holds(builder.model(), k, q) <==> (q < p && posting(table, ids, k, q as int)),
            decreases n - p,
        {
            let id = &self.data.emojis[p].emoji;
            assert(ids[p as int] == id@);
            match self.data.keywords.get(id.as_str()) {
                Some(kws) => {
                    assert(table.contains_key(id@) && table[id@] == strs(kws@));
                    let terms = index_terms_of(kws);
                    let ghost ts = strs(terms@);
                    let mut j: usize = 0;
                    while j < terms.len()
                        invariant
                            j <= terms@.len(),
                            ts == strs(terms@),
                            builder.open_for(p),
                            forall|k: Seq<char>, q: usize|
                                #[trigger] holds(builder.model(), k, q) <==> (q < p && posting(table, ids, k, q as int))
                                    || (q == p && exists|jj: int| 0 <= jj < j && files_under(#[trigger] ts[jj], k)),
                        decreases terms@.len() - j,
                    {
                        let ghost m0 = builder.model();
                        builder.add_term(&terms[j], p);
                        proof {
                            assert(ts[j as int] == terms@[j as int]@);
                            assert forall|k: Seq<char>, q: usize| #[trigger] holds(builder.model(), k, q) <==> (q < p
                                && posting(table, ids, k, q as int)) || (q == p && exists|jj: int|
                                0 <= jj < j + 1 && files_under(#[trigger] ts[jj], k)) by {
                                if q == p && files_under(ts[j as int], k) {
                                    assert(0 <= j < j + 1 && files_under(ts[j as int], k));
                                }
                                if q == p && (exists|jj: int| 0 <= jj < j + 1 && files_under(#[trigger] ts[jj], k)) {
                                    let jj = choose|jj: int| 0 <= jj < j + 1 && files_under(#[trigger] ts[jj], k);
                                    if jj < j {
                                        assert(holds(m0, k, q));
                                    }
                                }
                            }
                        }
                        j += 1;
                    }
                    proof {
                        assert forall|k: Seq<char>, q: usize| #[trigger] holds(builder.model(), k, q) <==> (q < p + 1
                            && posting(table, ids, k, q as int)) by {
                            if q == p {
                                if posting(table, ids, k, q as int) {
                                    let jj = choose|jj: int| 0 <= jj < index_terms(table[id@]).len() && files_under(
                                        #[trigger] index_terms(table[id@])[jj],
                                        k,
                                    );
                                    assert(files_under(ts[jj], k));
                                }
                                if exists|jj: int| 0 <= jj < terms@.len() && files_under(#[trigger] ts[jj], k) {
                                    let jj = choose|jj: int| 0 <= jj < terms@.len() && files_under(#[trigger] ts[jj], k);
                                    assert(files_under(index_terms(table[id@])[jj], k));
                                }
                            }
                        }
                    }
                },
                None => {
                    proof {
                        assert(!table.contains_key(id@));
                        assert forall|k: Seq<char>, q: usize| #[trigger] holds(builder.model(), k, q) <==> (q < p + 1
                            && posting(table, ids, k, q as int)) by {}
                    }
                },
            }
            proof {
                let m = builder.model();
                assert forall|k: Seq<char>, i: int| m.contains_key(k) && 0 <= i < m[k].len() implies #[trigger] m[k][i]
                    <= p + 1 by {}
            }
            p += 1;
        }
        let index = builder.finish();
        proof {
            assert forall|k: Seq<char>, q: usize| #[trigger] holds(index@, k, q) <==> posting(table, ids, k, q as int) by {
                if posting(table, ids, k, q as int) {
                    assert(q < n);
                }
            }
        }
        self.data.index = index;
        self.data.index_built = true;
        Ok(())
    }
}

/// Append copies of the strings of `v` to `out`.
fn append_strings(out: &mut Vec<String>, v: &Vec<String>)
    ensures
        strs(final(out)@) == strs(old(out)@) + strs(v@),
{
    let ghost start = strs(out@);
    let mut i: usize = 0;
    while i < v.len()
        invariant
            i <= v@.len(),
            strs(out@) == start + strs(v@).subrange(0, i as int),
        decreases v@.len() - i,
    {
        let ghost before = strs(out@);
        out.push(v[i].clone());
        assert(strs(out@) =~= before.push(v@[i as int]@));
        assert(strs(out@) =~= start + strs(v@).subrange(0, i + 1));
        i += 1;
    }
    assert(strs(v@).subrange(0, v@.len() as int) =~= strs(v@));
}

/// With no usage counts nothing is pinned: the list keeps its order.
pub proof fn lemma_nothing_pinned(items: Seq<Seq<char>>, limit: nat)
    ensures
        pinned_first(items, top_ids(Seq::empty(), limit)) == items,
{
    let top = top_ids(Seq::<(Seq<char>, u32)>::empty(), limit);
    assert(top =~= Seq::<Seq<char>>::empty());
    lemma_select_from_nothing(items);
    assert(select(top, items, true) =~= Seq::<Seq<char>>::empty());
    assert(pinned_first(items, top) =~= items);
}

proof fn lemma_select_from_nothing(s: Seq<Seq<char>>)
    ensures
        select(s, Seq::empty(), false) == s,
    decreases s.len(),
{
    if s.len() > 0 {
        lemma_select_from_nothing(s.drop_last());
        assert(s.drop_last().push(s.last()) =~= s);
    }
}

impl EmojiManager {
    /// The glyphs of the `limit` highest counts of `ranks`, highest first.
    pub fn get_top_emojis_from_ranks(&self, ranks: &UsageLedger, limit: usize) -> (r: Vec<String>)
        ensures
            strs(r@) == top_ids(ranks@, limit as nat),
    {
        if ranks.is_empty() {
            let r: Vec<String> = Vec::new();
            assert(strs(r@) =~= top_ids(ranks@, limit as nat));
            return r;
        }
        ranks.top(limit)
    }

    /// `emojis` with the `max_top_emojis` most used glyphs that it holds moved
    /// to the front, most used first; the rest keep their order.
    pub fn order_emojis_by_usage(&self, emojis: Vec<String>, max_top_emojis: usize) -> (r: Vec<String>)
        ensures
            strs(r@) == pinned_first(strs(emojis@), top_ids(self.data.ranks@, max_top_emojis as nat)),
    {
        if self.data.ranks.is_empty() {
            proof {
                assert(self.data.ranks@ =~= Seq::<(Seq<char>, u32)>::empty());
                lemma_nothing_pinned(strs(emojis@), max_top_emojis as nat);
            }
            return emojis;
        }
        let top = self.get_top_emojis_from_ranks(&self.data.ranks, max_top_emojis);
        order_by_usage(&emojis, &top)
    }

    /// Answer a query: a glyph of the catalog, typed or pasted, finds itself;
    /// a query shorter than `MIN_SEARCH_LENGTH` bytes browses the catalog;
    /// any other finds the items filed under it in the index. The result holds
    /// at most `MAX_SEARCH_RESULTS` items, with the `max_top_emojis` most used
    /// pinned first (none for 0).
    pub fn get_emojis(&self, filter_word: &str, max_top_emojis: usize) -> (r: Result<Vec<String>, EmojiError>)
        ensures
            r matches Ok(v) && strs(v@) == search_result(self.data, filter_word@, max_top_emojis),
    {
        let query = trim(filter_word);
        if self.data.keywords.contains_key(query) {
            let mut v: Vec<String> = Vec::new();
            v.push(query.to_owned());
            assert(strs(v@) =~= seq![query@]);
            return Ok(v);
        }
        let stripped = strip_variation_selector(query);
        let query_owned = query.to_owned();
        if stripped != query_owned && self.data.keywords.contains_key(stripped.as_str()) {
            let mut v: Vec<String> = Vec::new();
            v.push(stripped);
            assert(strs(v@) =~= seq![without_char(query@, VARIATION_SELECTOR)]);
            return Ok(v);
        }
        let filter = lowercase(query);
        let ghost ids = ids_of(self.data.emojis@);
        let mut list: Vec<String> = Vec::new();
        if filter.as_str().len() < MIN_SEARCH_LENGTH {
            let n = if self.data.emojis.len() < MAX_SEARCH_RESULTS {
                self.data.emojis.len()
            } else {
                MAX_SEARCH_RESULTS
            };
            let mut i: usize = 0;
            while i < n
                invariant
                    i <= n,
                    n <= self.data.emojis@.len(),
                    ids == ids_of(self.data.emojis@),
                    strs(list@) == ids.subrange(0, i as int),
                decreases n - i,
            {
                let ghost before = strs(list@);
                list.push(self.data.emojis[i].emoji.clone());
                assert(ids[i as int] == self.data.emojis@[i as int].emoji@);
                assert(strs(list@) =~= before.push(ids[i as int]));
                assert(strs(list@) =~= ids.subrange(0, i + 1));
                i += 1;
            }
            assert(strs(list@) =~= capped(ids));
        } else {
            match self.data.index.get(filter.as_str()) {
                Some(ps) => {
                    let m = if ps.len() < MAX_SEARCH_RESULTS {
                        ps.len()
                    } else {
                        MAX_SEARCH_RESULTS
                    };
                    let mut j: usize = 0;
                    while j < m
                        invariant
                            j <= m,
                            m <= ps@.len(),
                            ids == ids_of(self.data.emojis@),
                            strs(list@) == ids_at(ps@.subrange(0, j as int), ids),
                        decreases m - j,
                    {
                        let ghost before = strs(list@);
                        let q = ps[j];
                        proof {
                            let t = ps@.subrange(0, j + 1);
                            assert(t.drop_last() =~= ps@.subrange(0, j as int));
                            assert(t.last() == q);
                        }
                        if q < self.data.emojis.len() {
                            list.push(self.data.emojis[q].emoji.clone());
                            assert(strs(list@) =~= before.push(ids[q as int]));
                        }
                        j += 1;
                    }
                    assert(ps@.subrange(0, m as int) =~= capped(ps@));
                },
                None => {
                    assert(strs(list@) =~= Seq::<Seq<char>>::empty());
                },
            }
        }
        if max_top_emojis == 0 {
            Ok(list)
        } else {
            Ok(self.order_emojis_by_usage(list, max_top_emojis))
        }
    }

    /// The keyword list of a glyph; empty for a glyph without one.
    pub fn get_keywords(&self, emoji: &str) -> (r: Result<Vec<String>, EmojiError>)
        ensures
            r matches Ok(v) && strs(v@) == if table_view(self.data.keywords).contains_key(emoji@) {
                table_view(self.data.keywords)[emoji@]
            } else {
                Seq::empty()
            },
    {
        let mut out: Vec<String> = Vec::new();
        match self.data.keywords.get(emoji) {
            Some(v) => {
                append_strings(&mut out, v);
                assert(strs(out@) =~= strs(v@));
            },
            None => {
                assert(strs(out@) =~= Seq::<Seq<char>>::empty());
            },
        }
        Ok(out)
    }

    /// Add `amount` (1 when `None`) to the usage count of `emoji` at time
    /// `now_ms`, and mark the ledger for write-back. The result says whether
    /// the caller must start a writer.
    pub fn increment_usage(&mut self, emoji: &str, amount: Option<u32>, now_ms: u64) -> (start_writer: bool)
        ensures
            final(self).data.ranks@ == bumped(
                old(self).data.ranks@,
                emoji@,
                match amount {
                    Some(a) => a,
                    None => 1u32,
                },
            ),
            count_of(final(self).data.ranks@, emoji@) == sat_add(
                count_of(old(self).data.ranks@, emoji@),
                match amount {
                    Some(a) => a,
                    None => 1u32,
                },
            ),
            final(self).writer == old(self).writer.after_mutation(now_ms),
            start_writer == !old(self).writer.worker_active,
            old(self).same_but_ranks(final(self)),
            old(self).data.wf() ==> final(self).data.wf(),
            old(self).wf() ==> final(self).wf(),
    {
        let amount = match amount {
            Some(a) => a,
            None => 1,
        };
        self.data.ranks.increment(emoji, amount);
        self.writer.schedule_write(now_ms)
    }

    /// Forget the usage count of `emoji`, if any, at time `now_ms`, and mark
    /// the ledger for write-back. The result says whether the caller must
    /// start a writer.
    pub fn remove_emoji_rank(&mut self, emoji: &str, now_ms: u64) -> (start_writer: bool)
        ensures
            final(self).data.ranks@ == without_key(old(self).data.ranks@, emoji@),
            final(self).writer == old(self).writer.after_mutation(now_ms),
            start_writer == !old(self).writer.worker_active,
            old(self).same_but_ranks(final(self)),
            old(self).data.wf() ==> final(self).data.wf(),
            old(self).wf() ==> final(self).wf(),
    {
        self.data.ranks.remove(emoji);
        self.writer.schedule_write(now_ms)
    }

    /// Forget every usage count. The result is the document to write at once,
    /// without waiting for the write-back delay: an empty JSON object.
    pub fn reset_ranks(&mut self) -> (r: Result<String, EmojiError>)
        ensures
            r matches Ok(doc) && doc@ == "{}"@,
            final(self).data.ranks@ == Seq::<(Seq<char>, u32)>::empty(),
            final(self).writer == old(self).writer,
            old(self).same_but_ranks(final(self)),
            old(self).data.wf() ==> final(self).data.wf(),
            old(self).wf() ==> final(self).wf(),
    {
        self.data.ranks.clear();
        let entries = self.data.ranks.entries();
        assert(pairs(entries@).len() == entries@.len());
        let doc = write_ledger_json(entries);
        Ok(doc)
    }

    /// The ledger document to write now.
    pub fn ranks_document(&self) -> (r: String)
        ensures
            r@ == ledger_json(self.data.ranks@),
    {
        write_ledger_json(self.data.ranks.entries())
    }

    /// The background writer's next step at time `now_ms`.
    pub fn next_write_step(&mut self, now_ms: u64) -> (r: WriteStep)
        ensures
            r == old(self).writer.step_at(now_ms),
            final(self).writer == old(self).writer.after_step(now_ms),
            final(self).data == old(self).data,
            old(self).same_but_ranks(final(self)),
            old(self).wf() ==> final(self).wf(),
    {
        self.writer.next_step(now_ms)
    }

    /// Report whether the background writer's write succeeded.
    pub fn finish_write(&mut self, written: bool)
        ensures
            final(self).writer == old(self).writer.after_write(written),
            final(self).data == old(self).data,
            old(self).same_but_ranks(final(self)),
            old(self).wf() ==> final(self).wf(),
    {
        self.writer.finish_write(written)
    }

    /// Load the catalog and the ledger document, then build the keywords and
    /// the index; a no-op once it has succeeded. `catalog` and
    /// `ranks_document` are the outcomes of reading the two files. Only an
    /// error in a catalog that is still needed fails, changing nothing; a
    /// later call then starts again. An unreadable ledger gives an empty one.
    pub fn initialize(
        &mut self,
        catalog: Result<Vec<EmojiData>, EmojiError>,
        ranks_document: Result<Option<String>, EmojiError>,
    ) -> (r: Result<(), EmojiError>)
        ensures
            old(self).init_success ==> r is Ok && *final(self) == *old(self),
            !old(self).init_success ==> (r is Ok <==> old(self).data.emojis_loaded || catalog is Ok),
            r is Err ==> r == Err::<(), EmojiError>(catalog->Err_0) && *final(self) == *old(self),
            !old(self).init_success && !old(self).data.emojis_loaded && catalog is Ok ==> final(self).data.emojis
                == catalog->Ok_0,
            old(self).data.emojis_loaded ==> final(self).data.emojis == old(self).data.emojis,
            !old(self).init_success && !old(self).data.ranks_loaded && r is Ok ==> final(self).data.ranks@
                == loaded_ledger(ranks_document),
            old(self).data.ranks_loaded ==> final(self).data.ranks == old(self).data.ranks,
            r is Ok && !old(self).init_success ==> final(self).init_success,
            r is Ok && old(self).wf() ==> final(self).data.emojis_loaded && final(self).data.ranks_loaded
                && final(self).data.keywords_built && final(self).data.index_built,
            final(self).writer == old(self).writer,
            old(self).data.wf() ==> final(self).data.wf(),
            old(self).wf() ==> final(self).wf(),
    {
        if self.init_success {
            return Ok(());
        }
        match self.load_emojis(catalog) {
            Ok(()) => {},
            Err(e) => {
                return Err(e);
            },
        }
        let _ = self.load_ranks(ranks_document);
        match self.build_keywords() {
            Ok(()) => {},
            Err(e) => {
                return Err(e);
            },
        }
        match self.build_index() {
            Ok(()) => {},
            Err(e) => {
                return Err(e);
            },
        }
        self.init_success = true;
        Ok(())
    }
}

/// A glyph has a keyword list exactly when it is in the catalog.
pub proof fn lemma_table_keys(items: Seq<EmojiData>, k: Seq<char>)
    ensures
        keyword_table(items).contains_key(k) <==> ids_of(items).contains(k),
    decreases items.len(),
{
    if items.len() > 0 {
        let d = items.drop_last();
        lemma_table_keys(d, k);
        if ids_of(d).contains(k) {
            let i = choose|i: int| 0 <= i < ids_of(d).len() && ids_of(d)[i] == k;
            assert(ids_of(items)[i] == k);
        }
        if ids_of(items).contains(k) {
            let i = choose|i: int| 0 <= i < ids_of(items).len() && ids_of(items)[i] == k;
            if i < d.len() {
                assert(ids_of(d)[i] == k);
            }
        }
        assert(ids_of(items)[items.len() - 1] == items.last().emoji@);
    }
}

/// Prefix completeness: in a built index, each prefix of a key of
/// `MIN_KEYWORD_LENGTH` to `MAX_PREFIX_LENGTH` characters is a key too, and it
/// finds every item that the key finds.
pub proof fn lemma_prefix_complete(d: EmojiManagerData, key: Seq<char>, p: usize, i: int)
    requires
        d.wf(),
        d.index_built,
        holds(d.index@, key, p),
        MIN_KEYWORD_LENGTH <= i <= MAX_PREFIX_LENGTH,
        i <= key.len(),
    ensures
        holds(d.index@, key.subrange(0, i), p),
{
    let table = table_view(d.keywords);
    let ids = ids_of(d.emojis@);
    assert(posting(table, ids, key, p as int));
    let kws = table[ids[p as int]];
    let j = choose|j: int| 0 <= j < index_terms(kws).len() && files_under(#[trigger] index_terms(kws)[j], key);
    let t = index_terms(kws)[j];
    assert(key.subrange(0, i) =~= t.subrange(0, i));
    assert(files_under(t, key.subrange(0, i)));
    assert(posting(table, ids, key.subrange(0, i), p as int));
}

/// Ranking stability: with an empty usage ledger a search returns its results
/// in index or catalog order, whatever the number of pinned glyphs.
pub proof fn lemma_empty_ledger_keeps_order(d: EmojiManagerData, q: Seq<char>, max_top: usize)
    requires
        d.ranks@.len() == 0,
    ensures
        search_result(d, q, max_top) == search_result(d, q, 0),
{
    assert(d.ranks@ =~= Seq::<(Seq<char>, u32)>::empty());
    lemma_nothing_pinned(unranked(d, lower_of(trimmed(q))), max_top as nat);
}

/// Glyph bypass: a query that is, once trimmed, a glyph of the catalog finds
/// that glyph alone, however short it is.
pub proof fn lemma_glyph_finds_itself(d: EmojiManagerData, q: Seq<char>, max_top: usize)
    requires
        d.wf(),
        d.keywords_built,
        ids_of(d.emojis@).contains(trimmed(q)),
    ensures
        search_result(d, q, max_top) == seq![trimmed(q)],
{
    lemma_table_keys(d.emojis@, trimmed(q));
}

proof fn lemma_ids_at(ps: Seq<usize>, ids: Seq<Seq<char>>)
    ensures
        ids_at(ps, ids).len() <= ps.len(),
        forall|i: int| 0 <= i < ids_at(ps, ids).len() ==> ids.contains(#[trigger] ids_at(ps, ids)[i]),
    decreases ps.len(),
{
    if ps.len() > 0 {
        lemma_ids_at(ps.drop_last(), ids);
        let r = ids_at(ps, ids);
        let rd = ids_at(ps.drop_last(), ids);
        assert forall|i: int| 0 <= i < r.len() implies ids.contains(#[trigger] r[i]) by {
            if i < rd.len() {
                assert(r[i] == rd[i]);
            } else {
                assert(r[i] == ids[ps.last() as int]);
            }
        }
    }
}

proof fn lemma_all_in<T>(s: Seq<T>, r: Seq<T>, ids: Seq<T>)
    requires
        forall|i: int| 0 <= i < s.len() ==> ids.contains(#[trigger] s[i]),
        forall|y: T| r.contains(y) ==> s.contains(y),
    ensures
        forall|i: int| 0 <= i < r.len() ==> ids.contains(#[trigger] r[i]),
{
    assert forall|i: int| 0 <= i < r.len() implies ids.contains(#[trigger] r[i]) by {
        assert(r.contains(r[i]));
        let j = choose|j: int| 0 <= j < s.len() && s[j] == r[i];
        assert(ids.contains(s[j]));
    }
}

/// Search bound: a search returns at most `MAX_SEARCH_RESULTS` glyphs, each a
/// glyph of the catalog.
pub proof fn lemma_search_bounded(d: EmojiManagerData, q: Seq<char>, max_top: usize)
    requires
        d.wf(),
        keys_unique(d.ranks@),
    ensures
        search_result(d, q, max_top).len() <= MAX_SEARCH_RESULTS,
        forall|i: int| 0 <= i < search_result(d, q, max_top).len() ==> ids_of(d.emojis@).contains(
            #[trigger] search_result(d, q, max_top)[i],
        ),
{
    let t = trimmed(q);
    let table = table_view(d.keywords);
    let stripped = without_char(t, VARIATION_SELECTOR);
    let ids = ids_of(d.emojis@);
    let r = search_result(d, q, max_top);
    if table.contains_key(t) {
        lemma_table_keys(d.emojis@, t);
        assert(r[0] == t);
    } else if stripped != t && table.contains_key(stripped) {
        lemma_table_keys(d.emojis@, stripped);
        assert(r[0] == stripped);
    } else {
        let f = lower_of(t);
        let list = unranked(d, f);
        if byte_len(f) < MIN_SEARCH_LENGTH {
            assert forall|i: int| 0 <= i < list.len() implies ids.contains(#[trigger] list[i]) by {
                assert(list[i] == ids[i]);
            }
        } else if d.index@.contains_key(f) {
            lemma_ids_at(capped(d.index@[f]), ids);
        }
        if max_top != 0 {
            let top = top_ids(d.ranks@, max_top as nat);
            lemma_top_ids_distinct(d.ranks@, max_top as nat);
            lemma_pinned_first_len(list, top);
            assert forall|y: Seq<char>| r.contains(y) implies list.contains(y) by {
                lemma_select_contains(top, list, true, y);
                lemma_select_contains(list, top, false, y);
                let a = select(top, list, true);
                let b = select(list, top, false);
                let i = choose|i: int| 0 <= i < r.len() && r[i] == y;
                if i < a.len() {
                    assert(a[i] == y);
                    assert(a.contains(y));
                } else {
                    assert(b[i - a.len()] == y);
                    assert(b.contains(y));
                }
            }
            lemma_all_in(list, r, ids);
        }
    }
}

} // verus!
