//! Query building and result shaping over the store's ranked search.

use vstd::prelude::*;

use crate::fact::{Fact, FactModel};
use crate::storage::{fact_score, query_tokens, score_sorted, search_hit, Storage};
use crate::text::is_str_prefix;
use crate::StoreError;

verus! {

/// A search query: free text plus structural filters.
#[derive(Debug)]
pub struct SearchQuery {
    /// Full-text query.
    pub text: Option<String>,
    /// Keep only facts whose path starts with this prefix.
    pub path_prefix: Option<String>,
    /// Tags every result must carry.
    pub tags: Vec<String>,
    /// Tags no result may carry.
    pub not_tags: Vec<String>,
    /// Minimum trust score, in thousandths.
    pub min_trust: Option<u32>,
    /// Also return deprecated facts.
    pub include_deprecated: bool,
    /// Maximum results.
    pub limit: usize,
    /// Token budget for AI context.
    pub token_budget: Option<usize>,
}

impl Default for SearchQuery {
    /// The empty query.
    fn default() -> (r: SearchQuery)
        ensures
            r.text is None,
            r.path_prefix is None,
            r.tags@.len() == 0,
            r.not_tags@.len() == 0,
            r.min_trust is None,
            !r.include_deprecated,
            r.limit == 0,
            r.token_budget is None,
    {
        SearchQuery {
            text: None,
            path_prefix: None,
            tags: Vec::new(),
            not_tags: Vec::new(),
            min_trust: None,
            include_deprecated: false,
            limit: 0,
            token_budget: None,
        }
    }
}

impl SearchQuery {
    /// A text query with the default limit.
    pub fn new(text: &str) -> (r: SearchQuery)
        ensures
            match r.text {
                Some(t) => t@ == text@,
                None => false,
            },
            r.limit == 20,
            r.path_prefix is None,
            r.tags@.len() == 0,
            r.min_trust is None,
    {
        SearchQuery { text: Some(text.to_owned()), limit: 20, ..SearchQuery::default() }
    }

    /// Restrict to a path prefix.
    pub fn with_path(self, path: &str) -> (r: SearchQuery)
        ensures
            match r.path_prefix {
                Some(p) => p@ == path@,
                None => false,
            },
            r.text == self.text,
            r.limit == self.limit,
    {
        SearchQuery { path_prefix: Some(path.to_owned()), ..self }
    }

    /// Require these tags.
    pub fn with_tags(self, tags: Vec<String>) -> (r: SearchQuery)
        ensures
            r.tags@ == tags@,
            r.text == self.text,
    {
        SearchQuery { tags, ..self }
    }

    /// Cap the number of results.
    pub fn with_limit(self, limit: usize) -> (r: SearchQuery)
        ensures
            r.limit == limit,
            r.text == self.text,
    {
        SearchQuery { limit, ..self }
    }

    /// Require at least this trust, in thousandths.
    pub fn with_min_trust(self, min_trust: u32) -> (r: SearchQuery)
        ensures
            r.min_trust == Some(min_trust),
            r.text == self.text,
    {
        SearchQuery { min_trust: Some(min_trust), ..self }
    }

    /// Also return deprecated facts.
    pub fn include_deprecated(self) -> (r: SearchQuery)
        ensures
            r.include_deprecated,
            r.text == self.text,
    {
        SearchQuery { include_deprecated: true, ..self }
    }
}

/// A search hit with its relevance and an estimated token cost.
#[derive(Debug)]
pub struct SearchResult {
    /// The matching fact.
    pub fact: Fact,
    /// Relevance, in thousandths of a unit.
    pub relevance: u32,
    /// Estimated token cost of returning this fact.
    pub token_count: usize,
}

/// The fact carries this tag.
pub open spec fn contains_tag(f: FactModel, tag: Seq<char>) -> bool {
    exists|u: int| 0 <= u < f.tags.len() && (#[trigger] f.tags[u]) == tag
}

/// The fact carries every one of the wanted tags.
pub open spec fn carries_all_tags(f: FactModel, tags: Seq<String>) -> bool
    decreases tags.len(),
{
    if tags.len() == 0 {
        true
    } else {
        carries_all_tags(f, tags.drop_last()) && contains_tag(f, tags.last()@)
    }
}

/// The structural filters of a query, applied to one fact.
pub open spec fn spec_query_filter(q: SearchQuery, f: FactModel) -> bool {
    &&& match q.path_prefix {
        Some(p) => is_str_prefix(crate::text::rtrim(p@, |c: char| c == '/'), f.path),
        None => true,
    }
    &&& match q.min_trust {
        Some(m) => f.trust_score >= m,
        None => true,
    }
    &&& carries_all_tags(f, q.tags@)
}

/// Estimated token cost of a fact: about one token per four characters of
/// content, title and path, plus a flat overhead.
pub open spec fn spec_estimate(f: FactModel) -> int {
    f.content.len() as int / 4 + f.title.len() as int / 4 + f.path.len() as int / 4 + 20
}

fn estimate_tokens(fact: &Fact) -> (r: usize)
    ensures
        r as int == spec_estimate(fact@),
{
    let a = fact.content.as_str().unicode_len() / 4;
    let b = fact.title.as_str().unicode_len() / 4;
    let c = fact.path.as_str().unicode_len() / 4;
    proof {
        vstd::arithmetic::div_mod::lemma_div_is_ordered(
            fact@.content.len() as int,
            usize::MAX as int,
            4,
        );
        vstd::arithmetic::div_mod::lemma_div_is_ordered(
            fact@.title.len() as int,
            usize::MAX as int,
            4,
        );
        vstd::arithmetic::div_mod::lemma_div_is_ordered(
            fact@.path.len() as int,
            usize::MAX as int,
            4,
        );
    }
    a + b + c + 20
}

/// The result cap actually applied: the query's limit clamped to what the
/// ranking layer accepts.
pub open spec fn spec_effective_limit(q: SearchQuery) -> int {
    if q.limit > i64::MAX as usize {
        i64::MAX as int
    } else {
        q.limit as int
    }
}

/// Whether the fact carries every one of the wanted tags.
#[verifier::loop_isolation(false)]
fn has_all_tags(f: &Fact, tags: &Vec<String>) -> (r: bool)
    ensures
        r == carries_all_tags(f@, tags@),
{
    let tn = tags.len();
    proof {
        assert(tags@.take(0) =~= Seq::<String>::empty());
    }
    let mut t: usize = 0;
    while t < tn
        invariant
            0 <= t <= tn,
            tn == tags@.len(),
            carries_all_tags(f@, tags@.take(t as int)),
        decreases tn - t,
    {
        let want: &String = &tags[t];
        let fm = f.tags.len();
        let mut found = false;
        let mut u: usize = 0;
        while u < fm && !found
            invariant
                0 <= u <= fm,
                fm == f.tags@.len(),
                !found ==> forall|z: int| 0 <= z < u ==> (#[trigger] f@.tags[z]) != want@,
                found ==> contains_tag(f@, want@),
            decreases fm - u,
        {
            let tg: &String = &f.tags[u];
            proof {
                assert(tg@ == f@.tags[u as int]);
            }
            if crate::text::str_eq(tg.as_str(), want.as_str()) {
                found = true;
            }
            u = u + 1;
        }
        proof {
            assert(tags@.take(t + 1).drop_last() =~= tags@.take(t as int));
            assert(tags@.take(t + 1).last() == tags@[t as int]);
            assert(want@ == tags@[t as int]@);
        }
        if !found {
            proof {
                assert(forall|z: int| 0 <= z < f@.tags.len() ==> (#[trigger] f@.tags[z]) != want@);
                assert(!contains_tag(f@, want@));
                lemma_missing_tag(f@, tags@, t as int);
            }
            return false;
        }
        t = t + 1;
    }
    proof {
        assert(tags@.take(tn as int) =~= tags@);
    }
    true
}

/// A missing tag refutes the whole conjunction.
proof fn lemma_missing_tag(f: FactModel, tags: Seq<String>, t: int)
    requires
        0 <= t < tags.len(),
        !contains_tag(f, tags[t]@),
    ensures
        !carries_all_tags(f, tags),
    decreases tags.len(),
{
    if tags.len() > 0 {
        if t == tags.len() - 1 {
            assert(tags.last() == tags[t]);
        } else {
            assert(tags.drop_last()[t] == tags[t]);
            lemma_missing_tag(f, tags.drop_last(), t);
        }
    }
}

/// Run a query against the store: rank by the free text, then apply the
/// structural filters in order.
#[verifier::loop_isolation(false)]
#[verifier::rlimit(80)]
pub fn search(storage: &Storage, query: &SearchQuery) -> (r: Result<Vec<SearchResult>, StoreError>)
    ensures
        match r {
            Ok(v) => exists|base: Seq<FactModel>|
                {
                    let text = match query.text {
                        Some(t) => t@,
                        None => "*"@,
                    };
                    let toks = query_tokens(text);
                    let ranked = if base.len() <= spec_effective_limit(*query) {
                        base
                    } else {
                        base.take(spec_effective_limit(*query))
                    };
                    &&& (#[trigger] base.to_multiset()) == storage.rows().filter(
                        |f: FactModel| search_hit(f, toks),
                    ).to_multiset()
                    &&& score_sorted(base, toks)
                    &&& v@.map_values(|sr: SearchResult| sr.fact@) == ranked.filter(
                        |f: FactModel| spec_query_filter(*query, f),
                    )
                    &&& forall|i: int|
                        0 <= i < v@.len() ==> (#[trigger] v@[i]).relevance == 1000 && v@[i].token_count
                            as int == spec_estimate(v@[i].fact@)
                },
            Err(_) => false,
        },
{
    let text: &str = match &query.text {
        Some(t) => t.as_str(),
        None => "*",
    };
    let limit_i64: i64 = if query.limit > (i64::MAX as usize) {
        i64::MAX
    } else {
        query.limit as i64
    };
    proof {
        assert(limit_i64 >= 0);
        assert(limit_i64 as int == spec_effective_limit(*query));
    }
    let base = match storage.search(text, limit_i64) {
        Ok(b) => b,
        Err(e) => {
            return Err(e);
        },
    };
    let ghost textv = match &query.text {
        Some(t) => t@,
        None => "*"@,
    };
    let ghost toks = query_tokens(textv);
    let ghost fullw = choose|fullw: Seq<FactModel>|
        {
            &&& (#[trigger] fullw.to_multiset()) == storage.rows().filter(
                |f: FactModel| search_hit(f, toks),
            ).to_multiset()
            &&& score_sorted(fullw, toks)
            &&& base@.map_values(|f: Fact| f@) == (if limit_i64 < 0 || fullw.len() <= limit_i64 {
                fullw
            } else {
                fullw.take(limit_i64 as int)
            })
        };
    let ghost basev = base@.map_values(|f: Fact| f@);
    let ghost qf = |f: FactModel| spec_query_filter(*query, f);
    proof {
        assert(basev.take(0).filter(qf) =~= Seq::<FactModel>::empty()) by {
            reveal(Seq::filter);
        }
    }
    let n = base.len();
    let mut out: Vec<SearchResult> = Vec::new();
    let mut i: usize = 0;
    while i < n
        invariant
            0 <= i <= n,
            n == base@.len(),
            basev == base@.map_values(|f: Fact| f@),
            out@.map_values(|sr: SearchResult| sr.fact@) =~= basev.take(i as int).filter(qf),
            forall|k: int|
                0 <= k < out@.len() ==> (#[trigger] out@[k]).relevance == 1000 && out@[k].token_count
                    as int == spec_estimate(out@[k].fact@),
        decreases n - i,
    {
        let f: &Fact = &base[i];
        proof {
            assert(f@ == basev[i as int]);
        }
        let path_ok: bool = match &query.path_prefix {
            Some(p) => {
                let pn = p.as_str().unicode_len();
                let mut e: usize = pn;
                while e > 0 && p.as_str().get_char(e - 1) == '/'
                    invariant
                        0 <= e <= pn,
                        pn == p@.len(),
                        forall|j: int| e <= j < pn ==> #[trigger] p@[j] == '/',
                    decreases e,
                {
                    e = e - 1;
                }
                proof {
                    crate::text::lemma_rtrim_range(p@, |c: char| c == '/', e as int);
                }
                let trimmed = p.as_str().substring_char(0, e);
                crate::text::str_starts_with(f.path.as_str(), trimmed)
            },
            None => true,
        };
        let trust_ok: bool = match &query.min_trust {
            Some(m) => f.trust_score >= *m,
            None => true,
        };
        let tags_ok: bool = has_all_tags(f, &query.tags);
        let keep = path_ok && trust_ok && tags_ok;
        proof {
            reveal(Seq::filter);
            assert(basev.take(i + 1).drop_last() =~= basev.take(i as int));
            assert(basev.take(i + 1).last() == basev[i as int]);
            assert(path_ok == (match query.path_prefix {
                Some(p) => is_str_prefix(crate::text::rtrim(p@, |c: char| c == '/'), f@.path),
                None => true,
            }));
            assert(trust_ok == (match query.min_trust {
                Some(m) => f@.trust_score >= m,
                None => true,
            }));
            assert(tags_ok == carries_all_tags(f@, query.tags@));
            assert(keep == qf(basev[i as int]));
        }
        if keep {
            let tc = estimate_tokens(f);
            let sr = SearchResult { fact: f.clone(), relevance: 1000, token_count: tc };
            proof {
                assert(sr.fact@ == basev[i as int]);
                assert(out@.push(sr).map_values(|x: SearchResult| x.fact@) =~= out@.map_values(
                    |x: SearchResult| x.fact@,
                ).push(sr.fact@));
            }
            out.push(sr);
        }
        i = i + 1;
    }
    proof {
        assert(basev.take(n as int) =~= basev);
        let ranked = if fullw.len() <= spec_effective_limit(*query) {
            fullw
        } else {
            fullw.take(spec_effective_limit(*query))
        };
        assert(basev == ranked);
        assert(out@.map_values(|sr: SearchResult| sr.fact@) == ranked.filter(qf));
    }
    Ok(out)
}

/// Token cost of the first `k` results.
pub open spec fn tokens_sum(rs: Seq<SearchResult>, k: int) -> int
    decreases k,
{
    if k <= 0 {
        0
    } else {
        tokens_sum(rs, k - 1) + rs[k - 1].token_count
    }
}

/// Keep the longest prefix of the results whose summed token cost stays
/// within the budget.
#[verifier::loop_isolation(false)]
pub fn truncate_to_budget(results: Vec<SearchResult>, budget: usize) -> (r: Vec<SearchResult>)
    ensures
        exists|k: int|
            0 <= k <= results@.len() && r@ == results@.take(k) && #[trigger] tokens_sum(
                results@,
                k,
            ) <= budget && (k < results@.len() ==> tokens_sum(results@, k + 1) > budget),
{
    let n = results.len();
    let mut total: u128 = 0;
    let mut k: usize = 0;
    while k < n && total + (results[k].token_count as u128) <= budget as u128
        invariant
            0 <= k <= n,
            n == results@.len(),
            total == tokens_sum(results@, k as int),
            total <= budget,
        decreases n - k,
    {
        total = total + results[k].token_count as u128;
        k = k + 1;
    }
    let mut kept = results;
    kept.truncate(k);
    proof {
        assert(kept@ == results@.take(k as int));
        assert(tokens_sum(results@, k as int) <= budget);
        if (k as int) < results@.len() {
            assert(tokens_sum(results@, k as int + 1) > budget);
        }
    }
    kept
}

} // verus!
