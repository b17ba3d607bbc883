//! The fact store: an append-only collection of facts with status
//! transitions, lookup, ranked search, grouped listing and garbage
//! collection.
//!
//! The store holds its rows in memory; a caller that wants durability
//! mirrors the rows to a backing file and replays them on open. Every
//! operation here is specified against the mathematical sequence of row
//! models.

use vstd::prelude::*;

use crate::fact::{Fact, FactModel, Status};
use crate::StoreError;

verus! {

/// First row with the given id, if any.
pub open spec fn find_fact(s: Seq<FactModel>, id: u128) -> Option<FactModel>
    decreases s.len(),
{
    if s.len() == 0 {
        None
    } else if s[0].id == id {
        Some(s[0])
    } else {
        find_fact(s.drop_first(), id)
    }
}

/// Whether some row carries the given id.
pub open spec fn contains_id(s: Seq<FactModel>, id: u128) -> bool {
    exists|i: int| 0 <= i < s.len() && (#[trigger] s[i]).id == id
}

pub proof fn lemma_find_fact_at(s: Seq<FactModel>, id: u128, i: int)
    requires
        0 <= i < s.len(),
        s[i].id == id,
        forall|j: int| 0 <= j < i ==> (#[trigger] s[j]).id != id,
    ensures
        find_fact(s, id) == Some(s[i]),
    decreases s.len(),
{
    if i == 0 {
    } else {
        assert(s[0].id != id);
        assert(s.drop_first() =~= s.skip(1));
        lemma_find_fact_at(s.skip(1), id, i - 1);
    }
}

pub proof fn lemma_find_fact_none(s: Seq<FactModel>, id: u128)
    requires
        forall|j: int| 0 <= j < s.len() ==> (#[trigger] s[j]).id != id,
    ensures
        find_fact(s, id) is None,
    decreases s.len(),
{
    if s.len() > 0 {
        assert(s.drop_first() =~= s.skip(1));
        lemma_find_fact_none(s.skip(1), id);
    }
}

/// All rows with the given id set to `status`, touched at `now`.
pub open spec fn set_status(s: Seq<FactModel>, id: u128, status: Status, now: i64) -> Seq<
    FactModel,
> {
    s.map_values(
        |f: FactModel|
            if f.id == id {
                FactModel { status, updated_at: now, ..f }
            } else {
                f
            },
    )
}

/// All pending rows with the given id set to `status`, touched at `now`.
pub open spec fn set_pending_status(s: Seq<FactModel>, id: u128, status: Status, now: i64) -> Seq<
    FactModel,
> {
    s.map_values(
        |f: FactModel|
            if f.id == id && f.status == Status::PendingReview {
                FactModel { status, updated_at: now, ..f }
            } else {
                f
            },
    )
}

/// The fact store.
pub struct Storage {
    facts: Vec<Fact>,
}

impl Storage {
    /// The rows of the store, as mathematical values, in insertion order.
    pub closed spec fn rows(&self) -> Seq<FactModel> {
        self.facts@.map_values(|f: Fact| f@)
    }

    /// Well-formed: ids are unique.
    pub closed spec fn wf(&self) -> bool {
        unique_ids(self.rows())
    }

    /// An empty store.
    pub fn new() -> (r: Storage)
        ensures
            r.wf(),
            r.rows() == Seq::<FactModel>::empty(),
    {
        let r = Storage { facts: Vec::new() };
        proof {
            assert(r.rows() =~= Seq::<FactModel>::empty());
        }
        r
    }

    /// An empty in-memory store; never fails.
    pub fn open_memory() -> (r: Result<Storage, StoreError>)
        ensures
            match r {
                Ok(st) => st.wf() && st.rows() == Seq::<FactModel>::empty(),
                Err(_) => false,
            },
    {
        Ok(Storage::new())
    }

    /// Every row, in insertion order, for callers that mirror the store to
    /// durable storage.
    pub fn all_facts(&self) -> (r: Vec<Fact>)
        ensures
            r@.map_values(|f: Fact| f@) == self.rows(),
    {
        let n = self.facts.len();
        proof {
            assert(self.rows().len() == n);
        }
        let mut out: Vec<Fact> = Vec::new();
        let mut i: usize = 0;
        while i < n
            invariant
                0 <= i <= n,
                n == self.facts@.len(),
                self.rows().len() == n,
                out@.map_values(|f: Fact| f@) =~= self.rows().take(i as int),
            decreases n - i,
        {
            let f = self.facts[i].clone();
            proof {
                assert(f@ == self.rows()[i as int]);
                assert(out@.push(f).map_values(|x: Fact| x@) =~= out@.map_values(
                    |x: Fact| x@,
                ).push(f@));
            }
            out.push(f);
            i = i + 1;
        }
        proof {
            assert(self.rows().take(n as int) =~= self.rows());
        }
        out
    }

    /// Whether some row carries the given id.
    fn has_id(&self, id: u128) -> (r: bool)
        ensures
            r == contains_id(self.rows(), id),
    {
        let n = self.facts.len();
        proof {
            assert(self.rows().len() == n);
        }
        let mut i: usize = 0;
        while i < n
            invariant
                0 <= i <= n,
                n == self.rows().len(),
                n == self.facts@.len(),
                forall|j: int| 0 <= j < i ==> (#[trigger] self.rows()[j]).id != id,
            decreases n - i,
        {
            if self.facts[i].id == id {
                proof {
                    assert(self.rows()[i as int].id == id);
                }
                return true;
            }
            i = i + 1;
        }
        false
    }

    /// Append a new fact. Fails, leaving the store unchanged, when a row
    /// with the same id already exists.
    pub fn insert(&mut self, fact: &Fact) -> (r: Result<(), StoreError>)
        requires
            old(self).wf(),
        ensures
            final(self).wf(),
            match r {
                Ok(()) => !contains_id(old(self).rows(), fact@.id) && final(self).rows() == old(
                    self,
                ).rows().push(fact@),
                Err(e) => e == StoreError::BackendError && contains_id(old(self).rows(), fact@.id)
                    && final(self).rows() == old(self).rows(),
            },
    {
        if self.has_id(fact.id) {
            return Err(StoreError::BackendError);
        }
        let copy = fact.clone();
        proof {
            assert(self.facts@.push(copy).map_values(|f: Fact| f@) =~= self.rows().push(fact@));
        }
        self.facts.push(copy);
        proof {
            let rs = self.rows();
            let or = old(self).rows();
            assert(forall|i: int| 0 <= i < or.len() ==> rs[i] == or[i]);
            assert(rs[rs.len() - 1].id == fact@.id);
            assert forall|i: int, j: int| 0 <= i < j < rs.len() implies (#[trigger] rs[i]).id != (
            #[trigger] rs[j]).id by {
                if j < rs.len() - 1 {
                    assert(or[i].id != or[j].id);
                } else {
                    assert(!contains_id(or, fact@.id));
                    assert(or[i].id != fact@.id);
                }
            }
        }
        Ok(())
    }

    /// Look a fact up by id.
    pub fn get_by_id(&self, id: u128) -> (r: Result<Option<Fact>, StoreError>)
        ensures
            match r {
                Ok(Some(f)) => find_fact(self.rows(), id) == Some(f@),
                Ok(None) => find_fact(self.rows(), id) is None,
                Err(_) => false,
            },
    {
        let n = self.facts.len();
        proof {
            assert(self.rows().len() == n);
        }
        let mut i: usize = 0;
        while i < n
            invariant
                0 <= i <= n,
                n == self.rows().len(),
                n == self.facts@.len(),
                forall|j: int| 0 <= j < i ==> (#[trigger] self.rows()[j]).id != id,
            decreases n - i,
        {
            if self.facts[i].id == id {
                let f = self.facts[i].clone();
                proof {
                    assert(self.rows()[i as int].id == id);
                    lemma_find_fact_at(self.rows(), id, i as int);
                }
                return Ok(Some(f));
            }
            i = i + 1;
        }
        proof {
            lemma_find_fact_none(self.rows(), id);
        }
        Ok(None)
    }

    /// All active facts at exactly this path, newest first.
    #[verifier::loop_isolation(false)]
    #[verifier::rlimit(60)]
    pub fn get_by_path(&self, path: &str) -> (r: Result<Vec<Fact>, StoreError>)
        ensures
            match r {
                Ok(v) => v@.map_values(|f: Fact| f@).to_multiset() == self.rows().filter(
                    |f: FactModel| active_at(f, path@),
                ).to_multiset() && forall|a: int, b: int|
                    0 <= a < b < v@.len() ==> (#[trigger] v@[a])@.created_at >= (
                    #[trigger] v@[b])@.created_at,
                Err(_) => false,
            },
    {
        let ghost pred = |f: FactModel| active_at(f, path@);
        let ghost pm = |p: (u128, Fact)| (p.0, p.1@);
        let ghost sm = |p: (u128, Fact)| p.1@;
        let ghost keyed = |p: (u128, FactModel)| p.0 == created_key(p.1.created_at);
        let n = self.facts.len();
        proof {
            assert(self.rows().len() == n);
            assert(self.rows().take(0).filter(pred) =~= Seq::<FactModel>::empty()) by {
                reveal(Seq::filter);
            }
        }
        let mut pairs: Vec<(u128, Fact)> = Vec::new();
        let mut i: usize = 0;
        while i < n
            invariant
                0 <= i <= n,
                n == self.facts@.len(),
                self.rows().len() == n,
                pairs@.map_values(sm) =~= self.rows().take(i as int).filter(pred),
                forall|k: int| 0 <= k < pairs@.len() ==> keyed(#[trigger] pairs@.map_values(pm)[k]),
            decreases n - i,
        {
            let keep = matches!(self.facts[i].status, Status::Active) && crate::text::str_eq(
                self.facts[i].path.as_str(),
                path,
            );
            proof {
                reveal(Seq::filter);
                assert(self.rows().take(i + 1).drop_last() =~= self.rows().take(i as int));
                assert(self.rows().take(i + 1).last() == self.rows()[i as int]);
                assert(keep == pred(self.rows()[i as int]));
            }
            if keep {
                let key = created_key_exec(self.facts[i].created_at);
                let copy = self.facts[i].clone();
                proof {
                    assert(copy@ == self.rows()[i as int]);
                    assert(pairs@.push((key, copy)).map_values(sm) =~= pairs@.map_values(sm).push(
                        copy@,
                    ));
                    assert(pairs@.push((key, copy)).map_values(pm) =~= pairs@.map_values(pm).push(
                        (key, copy@),
                    ));
                }
                pairs.push((key, copy));
            }
            i = i + 1;
        }
        proof {
            assert(self.rows().take(n as int) =~= self.rows());
        }
        let ghost before_pairs = pairs@;
        sort_pairs_desc(&mut pairs);
        proof {
            lemma_multiset_members(before_pairs.map_values(pm), pairs@.map_values(pm));
            assert forall|k: int| 0 <= k < pairs@.len() implies keyed(
                #[trigger] pairs@.map_values(pm)[k],
            ) by {
                let e = pairs@.map_values(pm)[k];
                assert(before_pairs.map_values(pm).contains(e));
                let w = choose|w: int|
                    0 <= w < before_pairs.len() && before_pairs.map_values(pm)[w] == e;
                assert(keyed(before_pairs.map_values(pm)[w]));
            }
        }
        let m = pairs.len();
        let mut out: Vec<Fact> = Vec::new();
        let mut k: usize = 0;
        while k < m
            invariant
                0 <= k <= m,
                m == pairs@.len(),
                out@.map_values(|f: Fact| f@) =~= pairs@.map_values(sm).take(k as int),
            decreases m - k,
        {
            let f = pairs[k].1.clone();
            proof {
                assert(f@ == pairs@.map_values(sm)[k as int]);
                assert(out@.push(f).map_values(|x: Fact| x@) =~= out@.map_values(
                    |x: Fact| x@,
                ).push(f@));
            }
            out.push(f);
            k = k + 1;
        }
        proof {
            assert(pairs@.map_values(sm).take(m as int) =~= pairs@.map_values(sm));
            assert forall|a: int, b: int| 0 <= a < b < out@.len() implies (
            #[trigger] out@[a])@.created_at >= (#[trigger] out@[b])@.created_at by {
                assert(pairs@.map_values(pm)[a] == (pairs@[a].0, pairs@[a].1@));
                assert(pairs@.map_values(pm)[b] == (pairs@[b].0, pairs@[b].1@));
                assert(pairs@.map_values(sm)[a] == pairs@[a].1@);
                assert(pairs@.map_values(sm)[b] == pairs@[b].1@);
                assert(out@[a]@ == pairs@[a].1@);
                assert(out@[b]@ == pairs@[b].1@);
                assert(pairs@[a].0 >= pairs@[b].0);
                assert(keyed((pairs@[a].0, pairs@[a].1@)));
                assert(keyed((pairs@[b].0, pairs@[b].1@)));
                lemma_created_key_order(pairs@[a].1@.created_at, pairs@[b].1@.created_at);
            }
        }
        Ok(out)
    }

    /// All active facts whose path starts with the given prefix (trailing
    /// slashes ignored), ordered by path and then newest first.
    #[verifier::loop_isolation(false)]
    #[verifier::rlimit(60)]
    pub fn get_by_path_prefix(&self, prefix: &str) -> (r: Result<Vec<Fact>, StoreError>)
        ensures
            match r {
                Ok(v) => {
                    let p = crate::text::rtrim(prefix@, |c: char| c == '/');
                    &&& v@.map_values(|f: Fact| f@).to_multiset() == self.rows().filter(
                        |f: FactModel| f.status == Status::Active && crate::text::is_str_prefix(
                            p,
                            f.path,
                        ),
                    ).to_multiset()
                    &&& forall|a: int, b: int|
                        0 <= a < b < v@.len() ==> path_order_le(
                            (#[trigger] v@[a])@,
                            (#[trigger] v@[b])@,
                        )
                },
                Err(_) => false,
            },
    {
        let ghost sl = |c: char| c == '/';
        let pn = prefix.unicode_len();
        let mut e: usize = pn;
        while e > 0 && prefix.get_char(e - 1) == '/'
            invariant
                0 <= e <= pn,
                pn == prefix@.len(),
                forall|j: int| e <= j < pn ==> #[trigger] prefix@[j] == '/',
            decreases e,
        {
            e = e - 1;
        }
        proof {
            crate::text::lemma_rtrim_range(prefix@, sl, e as int);
        }
        let p_str = prefix.substring_char(0, e);
        let ghost p = crate::text::rtrim(prefix@, sl);
        proof {
            assert(p_str@ =~= p);
        }
        let ghost pred = |f: FactModel| f.status == Status::Active
            && crate::text::is_str_prefix(p, f.path);
        let n = self.facts.len();
        proof {
            assert(self.rows().len() == n);
            assert(self.rows().take(0).filter(pred) =~= Seq::<FactModel>::empty()) by {
                reveal(Seq::filter);
            }
        }
        let mut out: Vec<Fact> = Vec::new();
        let mut i: usize = 0;
        while i < n
            invariant
                0 <= i <= n,
                n == self.facts@.len(),
                self.rows().len() == n,
                out@.map_values(|f: Fact| f@) =~= self.rows().take(i as int).filter(pred),
            decreases n - i,
        {
            let keep = matches!(self.facts[i].status, Status::Active)
                && crate::text::str_starts_with(self.facts[i].path.as_str(), p_str);
            proof {
                reveal(Seq::filter);
                assert(self.rows().take(i + 1).drop_last() =~= self.rows().take(i as int));
                assert(self.rows().take(i + 1).last() == self.rows()[i as int]);
                assert(keep == pred(self.rows()[i as int]));
            }
            if keep {
                let copy = self.facts[i].clone();
                proof {
                    assert(copy@ == self.rows()[i as int]);
                    assert(out@.push(copy).map_values(|f: Fact| f@) =~= out@.map_values(
                        |f: Fact| f@,
                    ).push(copy@));
                }
                out.push(copy);
            }
            i = i + 1;
        }
        proof {
            assert(self.rows().take(n as int) =~= self.rows());
        }
        sort_by_path_order(&mut out);
        Ok(out)
    }

    /// All facts awaiting review, newest first.
    #[verifier::loop_isolation(false)]
    #[verifier::rlimit(60)]
    pub fn get_pending_review(&self) -> (r: Result<Vec<Fact>, StoreError>)
        ensures
            match r {
                Ok(v) => v@.map_values(|f: Fact| f@).to_multiset() == self.rows().filter(
                    |f: FactModel| f.status == Status::PendingReview,
                ).to_multiset() && forall|a: int, b: int|
                    0 <= a < b < v@.len() ==> (#[trigger] v@[a])@.created_at >= (
                    #[trigger] v@[b])@.created_at,
                Err(_) => false,
            },
    {
        let ghost pred = |f: FactModel| f.status == Status::PendingReview;
        let ghost pm = |p: (u128, Fact)| (p.0, p.1@);
        let ghost sm = |p: (u128, Fact)| p.1@;
        let ghost keyed = |p: (u128, FactModel)| p.0 == created_key(p.1.created_at);
        let n = self.facts.len();
        proof {
            assert(self.rows().len() == n);
            assert(self.rows().take(0).filter(pred) =~= Seq::<FactModel>::empty()) by {
                reveal(Seq::filter);
            }
        }
        let mut pairs: Vec<(u128, Fact)> = Vec::new();
        let mut i: usize = 0;
        while i < n
            invariant
                0 <= i <= n,
                n == self.facts@.len(),
                self.rows().len() == n,
                pairs@.map_values(sm) =~= self.rows().take(i as int).filter(pred),
                forall|k: int| 0 <= k < pairs@.len() ==> keyed(#[trigger] pairs@.map_values(pm)[k]),
            decreases n - i,
        {
            let keep = matches!(self.facts[i].status, Status::PendingReview);
            proof {
                reveal(Seq::filter);
                assert(self.rows().take(i + 1).drop_last() =~= self.rows().take(i as int));
                assert(self.rows().take(i + 1).last() == self.rows()[i as int]);
                assert(keep == pred(self.rows()[i as int]));
            }
            if keep {
                let key = created_key_exec(self.facts[i].created_at);
                let copy = self.facts[i].clone();
                proof {
                    assert(copy@ == self.rows()[i as int]);
                    assert(pairs@.push((key, copy)).map_values(sm) =~= pairs@.map_values(sm).push(
                        copy@,
                    ));
                    assert(pairs@.push((key, copy)).map_values(pm) =~= pairs@.map_values(pm).push(
                        (key, copy@),
                    ));
                }
                pairs.push((key, copy));
            }
            i = i + 1;
        }
        proof {
            assert(self.rows().take(n as int) =~= self.rows());
        }
        let ghost before_pairs = pairs@;
        sort_pairs_desc(&mut pairs);
        proof {
            lemma_multiset_members(before_pairs.map_values(pm), pairs@.map_values(pm));
            assert forall|k: int| 0 <= k < pairs@.len() implies keyed(
                #[trigger] pairs@.map_values(pm)[k],
            ) by {
                let e = pairs@.map_values(pm)[k];
                assert(before_pairs.map_values(pm).contains(e));
                let w = choose|w: int|
                    0 <= w < before_pairs.len() && before_pairs.map_values(pm)[w] == e;
                assert(keyed(before_pairs.map_values(pm)[w]));
            }
        }
        let m = pairs.len();
        let mut out: Vec<Fact> = Vec::new();
        let mut k: usize = 0;
        while k < m
            invariant
                0 <= k <= m,
                m == pairs@.len(),
                out@.map_values(|f: Fact| f@) =~= pairs@.map_values(sm).take(k as int),
            decreases m - k,
        {
            let f = pairs[k].1.clone();
            proof {
                assert(f@ == pairs@.map_values(sm)[k as int]);
                assert(out@.push(f).map_values(|x: Fact| x@) =~= out@.map_values(
                    |x: Fact| x@,
                ).push(f@));
            }
            out.push(f);
            k = k + 1;
        }
        proof {
            assert(pairs@.map_values(sm).take(m as int) =~= pairs@.map_values(sm));
            assert forall|a: int, b: int| 0 <= a < b < out@.len() implies (
            #[trigger] out@[a])@.created_at >= (#[trigger] out@[b])@.created_at by {
                assert(pairs@.map_values(pm)[a] == (pairs@[a].0, pairs@[a].1@));
                assert(pairs@.map_values(pm)[b] == (pairs@[b].0, pairs@[b].1@));
                assert(pairs@.map_values(sm)[a] == pairs@[a].1@);
                assert(pairs@.map_values(sm)[b] == pairs@[b].1@);
                assert(out@[a]@ == pairs@[a].1@);
                assert(out@[b]@ == pairs@[b].1@);
                assert(pairs@[a].0 >= pairs@[b].0);
                assert(keyed((pairs@[a].0, pairs@[a].1@)));
                assert(keyed((pairs@[b].0, pairs@[b].1@)));
                lemma_created_key_order(pairs@[a].1@.created_at, pairs@[b].1@.created_at);
            }
        }
        Ok(out)
    }

    /// Aggregate counts by status.
    #[verifier::loop_isolation(false)]
    pub fn stats(&self) -> (r: Result<StorageStats, StoreError>)
        ensures
            match r {
                Ok(st) => {
                    &&& st.total_facts == self.rows().len()
                    &&& st.total == st.total_facts as i64
                    &&& st.active_facts == self.rows().filter(
                        |f: FactModel| f.status == Status::Active,
                    ).len()
                    &&& st.deprecated_facts == self.rows().filter(
                        |f: FactModel| f.status == Status::Deprecated,
                    ).len()
                    &&& st.pending_review_facts == self.rows().filter(
                        |f: FactModel| f.status == Status::PendingReview,
                    ).len()
                },
                Err(_) => false,
            },
    {
        let ghost pa = |f: FactModel| f.status == Status::Active;
        let ghost pd = |f: FactModel| f.status == Status::Deprecated;
        let ghost pp = |f: FactModel| f.status == Status::PendingReview;
        let n = self.facts.len();
        proof {
            reveal(Seq::filter);
            assert(self.rows().len() == n);
            assert(self.rows().take(0).filter(pa) =~= Seq::<FactModel>::empty());
            assert(self.rows().take(0).filter(pd) =~= Seq::<FactModel>::empty());
            assert(self.rows().take(0).filter(pp) =~= Seq::<FactModel>::empty());
        }
        let mut active: usize = 0;
        let mut deprecated: usize = 0;
        let mut pending: usize = 0;
        let mut i: usize = 0;
        while i < n
            invariant
                0 <= i <= n,
                n == self.facts@.len(),
                self.rows().len() == n,
                active == self.rows().take(i as int).filter(pa).len(),
                deprecated == self.rows().take(i as int).filter(pd).len(),
                pending == self.rows().take(i as int).filter(pp).len(),
                active <= i && deprecated <= i && pending <= i,
            decreases n - i,
        {
            proof {
                reveal(Seq::filter);
                assert(self.rows().take(i + 1).drop_last() =~= self.rows().take(i as int));
                assert(self.rows().take(i + 1).last() == self.rows()[i as int]);
                self.rows().take(i + 1).lemma_filter_len(pa);
                self.rows().take(i + 1).lemma_filter_len(pd);
                self.rows().take(i + 1).lemma_filter_len(pp);
            }
            match self.facts[i].status {
                Status::Active => {
                    active = active + 1;
                },
                Status::Deprecated => {
                    deprecated = deprecated + 1;
                },
                Status::PendingReview => {
                    pending = pending + 1;
                },
                _ => {},
            }
            i = i + 1;
        }
        proof {
            assert(self.rows().take(n as int) =~= self.rows());
        }
        Ok(
            StorageStats {
                total: n as i64,
                total_facts: n,
                active_facts: active,
                deprecated_facts: deprecated,
                pending_review_facts: pending,
            },
        )
    }

    /// Ranked full-text search: tokenize the query on whitespace, let any
    /// word match, score active facts with heavier weight on path and
    /// title, and return the best matches, highest score first. A negative
    /// limit returns them all.
    #[verifier::loop_isolation(false)]
    #[verifier::rlimit(100)]
    #[verifier::spinoff_prover]
    pub fn search(&self, query: &str, limit: i64) -> (r: Result<Vec<Fact>, StoreError>)
        ensures
            match r {
                Ok(v) => exists|full: Seq<FactModel>|
                    {
                        &&& (#[trigger] full.to_multiset()) == self.rows().filter(
                            |f: FactModel| search_hit(f, query_tokens(query@)),
                        ).to_multiset()
                        &&& score_sorted(full, query_tokens(query@))
                        &&& v@.map_values(|f: Fact| f@) == (if limit < 0 || full.len() <= limit {
                            full
                        } else {
                            full.take(limit as int)
                        })
                    },
                Err(_) => false,
            },
    {
        let ghost wsp = |c: char| crate::text::is_ws_char(c);
        let ghost pm = |p: (u128, Fact)| (p.0, p.1@);
        let ghost sm = |p: (u128, Fact)| p.1@;
        let toks = crate::text::split_ws(query);
        let ghost tv = toks@.map_values(|t: String| t@);
        proof {
            assert(tv == query_tokens(query@));
            crate::text::lemma_split_on_nonempty(query@, wsp);
            assert forall|k: int| 0 <= k < toks@.len() implies (#[trigger] toks@[k])@.len()
                >= 1 by {
                assert(toks@[k]@ == tv[k]);
            }
        }
        let ghost pred = |f: FactModel| search_hit(f, query_tokens(query@));
        let ghost keyed = |p: (u128, FactModel)| p.0 as int == fact_score(p.1, tv);
        let n = self.facts.len();
        proof {
            assert(self.rows().len() == n);
            assert(self.rows().take(0).filter(pred) =~= Seq::<FactModel>::empty()) by {
                reveal(Seq::filter);
            }
        }
        let mut pairs: Vec<(u128, Fact)> = Vec::new();
        let mut i: usize = 0;
        while i < n
            invariant
                0 <= i <= n,
                n == self.facts@.len(),
                self.rows().len() == n,
                forall|k: int| 0 <= k < toks@.len() ==> (#[trigger] toks@[k])@.len() >= 1,
                tv == toks@.map_values(|t: String| t@),
                pairs@.map_values(sm) =~= self.rows().take(i as int).filter(pred),
                forall|k: int| 0 <= k < pairs@.len() ==> keyed(#[trigger] pairs@.map_values(pm)[k]),
            decreases n - i,
        {
            let score = score_exec(&self.facts[i], &toks);
            let active = matches!(self.facts[i].status, Status::Active);
            let keep = active && score > 0;
            proof {
                reveal(Seq::filter);
                assert(self.facts@[i as int]@ == self.rows()[i as int]);
                assert(self.rows().take(i + 1).drop_last() =~= self.rows().take(i as int));
                assert(self.rows().take(i + 1).last() == self.rows()[i as int]);
                assert(keep == pred(self.rows()[i as int]));
            }
            if keep {
                let copy = self.facts[i].clone();
                proof {
                    assert(copy@ == self.rows()[i as int]);
                    assert(pairs@.push((score, copy)).map_values(sm) =~= pairs@.map_values(
                        sm,
                    ).push(copy@));
                    assert(pairs@.push((score, copy)).map_values(pm) =~= pairs@.map_values(
                        pm,
                    ).push((score, copy@)));
                }
                pairs.push((score, copy));
            }
            i = i + 1;
        }
        proof {
            assert(self.rows().take(n as int) =~= self.rows());
        }
        let ghost before_pairs = pairs@;
        sort_pairs_desc(&mut pairs);
        proof {
            lemma_multiset_members(before_pairs.map_values(pm), pairs@.map_values(pm));
            assert forall|k: int| 0 <= k < pairs@.len() implies keyed(
                #[trigger] pairs@.map_values(pm)[k],
            ) by {
                let e = pairs@.map_values(pm)[k];
                assert(before_pairs.map_values(pm).contains(e));
                let w = choose|w: int|
                    0 <= w < before_pairs.len() && before_pairs.map_values(pm)[w] == e;
                assert(keyed(before_pairs.map_values(pm)[w]));
            }
            assert(score_sorted(pairs@.map_values(sm), tv)) by {
                assert forall|a: int, b: int| 0 <= a < b < pairs@.len() implies fact_score(
                    #[trigger] pairs@.map_values(sm)[a],
                    tv,
                ) >= fact_score(#[trigger] pairs@.map_values(sm)[b], tv) by {
                    assert(pairs@.map_values(pm)[a] == (pairs@[a].0, pairs@[a].1@));
                    assert(pairs@.map_values(pm)[b] == (pairs@[b].0, pairs@[b].1@));
                    assert(pairs@.map_values(sm)[a] == pairs@[a].1@);
                    assert(pairs@.map_values(sm)[b] == pairs@[b].1@);
                    assert(pairs@[a].0 >= pairs@[b].0);
                }
            }
        }
        let ghost full = pairs@.map_values(sm);
        let m = pairs.len();
        let mut out: Vec<Fact> = Vec::new();
        let mut k: usize = 0;
        while k < m && (limit < 0 || (k as i64) < limit)
            invariant
                0 <= k <= m,
                m == pairs@.len(),
                full == pairs@.map_values(sm),
                limit >= 0 ==> k <= limit,
                out@.map_values(|f: Fact| f@) =~= full.take(k as int),
            decreases m - k,
        {
            let f = pairs[k].1.clone();
            proof {
                assert(f@ == full[k as int]);
                assert(out@.push(f).map_values(|x: Fact| x@) =~= out@.map_values(
                    |x: Fact| x@,
                ).push(f@));
            }
            out.push(f);
            k = k + 1;
        }
        proof {
            if limit < 0 || m <= limit {
                assert(k == m);
                assert(full.take(m as int) =~= full);
                assert(out@.map_values(|f: Fact| f@) == full);
            } else {
                assert(k == limit);
            }
        }
        Ok(out)
    }

    /// The full sorted listing of child groups under a prefix, with counts.
    #[verifier::loop_isolation(false)]
    #[verifier::rlimit(100)]
    #[verifier::spinoff_prover]
    fn collect_groups(&self, prefix: &str) -> (r: Vec<PathInfo>)
        ensures
            forall|a: int, b: int|
                0 <= a < b < r@.len() ==> crate::text::lex_lt(
                    (#[trigger] r@[a]).path@,
                    (#[trigger] r@[b]).path@,
                ),
            forall|k: int| 0 <= k < r@.len() ==> is_group(self.rows(), prefix@, (#[trigger] r@[k]).path@),
            forall|k: int|
                0 <= k < r@.len() ==> (#[trigger] r@[k]).fact_count == group_count(
                    self.rows(),
                    prefix@,
                    r@[k].path@,
                ),
            forall|g: Seq<char>|
                #[trigger] is_group(self.rows(), prefix@, g) ==> exists|k: int|
                    0 <= k < r@.len() && (#[trigger] r@[k]).path@ == g,
    {
        let ghost sl = |c: char| c == '/';
        let n = self.facts.len();
        let plen = prefix.unicode_len();
        proof {
            assert(self.rows().len() == n);
        }
        let mut groups: Vec<PathInfo> = Vec::new();
        let mut i: usize = 0;
        while i < n
            invariant
                0 <= i <= n,
                n == self.facts@.len(),
                self.rows().len() == n,
                plen == prefix@.len(),
                forall|a: int, b: int|
                    0 <= a < b < groups@.len() ==> crate::text::lex_lt(
                        (#[trigger] groups@[a]).path@,
                        (#[trigger] groups@[b]).path@,
                    ),
                forall|k: int|
                    0 <= k < groups@.len() ==> is_group(
                        self.rows().take(i as int),
                        prefix@,
                        (#[trigger] groups@[k]).path@,
                    ),
                forall|k: int|
                    0 <= k < groups@.len() ==> (#[trigger] groups@[k]).fact_count == group_count(
                        self.rows().take(i as int),
                        prefix@,
                        groups@[k].path@,
                    ),
                forall|g: Seq<char>|
                    #[trigger] is_group(self.rows().take(i as int), prefix@, g) ==> exists|k: int|
                        0 <= k < groups@.len() && (#[trigger] groups@[k]).path@ == g,
            decreases n - i,
        {
            let ghost pre = self.rows().take(i as int);
            let ghost post = self.rows().take(i + 1);
            proof {
                assert(post.drop_last() =~= pre);
                assert(post.last() == self.rows()[i as int]);
                assert(forall|w: int| 0 <= w < i ==> #[trigger] post[w] == pre[w]);
            }
            let active = matches!(self.facts[i].status, Status::Active);
            let matched = active && crate::text::str_starts_with(
                self.facts[i].path.as_str(),
                prefix,
            );
            proof {
                assert(matched == listing_matches(self.rows()[i as int], prefix@));
            }
            if matched {
                let pl = self.facts[i].path.unicode_len();
                proof {
                    assert(self.facts@[i as int].path@ == self.rows()[i as int].path);
                    assert(plen <= pl);
                }
                let mut j: usize = plen;
                while j < pl && self.facts[i].path.as_str().get_char(j) != '/'
                    invariant
                        plen <= j <= pl,
                        pl == self.facts@[i as int].path@.len(),
                        i < n,
                        forall|k: int|
                            plen <= k < j ==> #[trigger] self.facts@[i as int].path@[k] != '/',
                    decreases pl - j,
                {
                    j = j + 1;
                }
                proof {
                    let pathv = self.rows()[i as int].path;
                    let sk = pathv.skip(plen as int);
                    assert(forall|m: int| 0 <= m < sk.len() ==> #[trigger] sk[m] == pathv[m
                        + plen]);
                    crate::text::lemma_first_such_at(sk, sl, j - plen);
                    if j < pl {
                        assert(group_of(pathv, prefix@) == pathv.take(j as int));
                    } else {
                        assert(group_of(pathv, prefix@) == pathv);
                    }
                }
                let g: String = if j < pl {
                    self.facts[i].path.as_str().substring_char(0, j).to_owned()
                } else {
                    self.facts[i].path.clone()
                };
                let ghost gv = g@;
                proof {
                    assert(gv == group_of(self.rows()[i as int].path, prefix@));
                    assert(is_group(post, prefix@, gv)) by {
                        assert(listing_matches(post[i as int], prefix@));
                    }
                }
                let m = groups.len();
                let mut pos: usize = 0;
                while pos < m && crate::text::str_lex_lt(groups[pos].path.as_str(), g.as_str())
                    invariant
                        0 <= pos <= m,
                        m == groups@.len(),
                        forall|k: int|
                            0 <= k < pos ==> crate::text::lex_lt(
                                (#[trigger] groups@[k]).path@,
                                gv,
                            ),
                    decreases m - pos,
                {
                    pos = pos + 1;
                }
                let found = pos < m && crate::text::str_eq(groups[pos].path.as_str(), g.as_str());
                proof {
                    if pos < m && !found {
                        crate::text::lemma_lex_trichotomy(groups@[pos as int].path@, gv);
                        assert(crate::text::lex_lt(gv, groups@[pos as int].path@));
                    }
                    // groups other than `gv` keep their counts and membership
                    assert forall|gk: Seq<char>| gk != gv implies group_count(post, prefix@, gk)
                        == group_count(pre, prefix@, gk) by {
                        assert(!(listing_matches(post.last(), prefix@) && group_of(
                            post.last().path,
                            prefix@,
                        ) == gk));
                    }
                    assert(group_count(post, prefix@, gv) == group_count(pre, prefix@, gv) + 1);
                    assert forall|gk: Seq<char>|
                        #[trigger] is_group(post, prefix@, gk) && gk != gv implies is_group(
                        pre,
                        prefix@,
                        gk,
                    ) by {
                        let w = choose|w: int|
                            0 <= w < post.len() && listing_matches(#[trigger] post[w], prefix@)
                                && group_of(post[w].path, prefix@) == gk;
                        assert(w < i);
                        assert(pre[w] == post[w]);
                    }
                    assert forall|gk: Seq<char>| #[trigger] is_group(pre, prefix@, gk) implies
                        is_group(post, prefix@, gk) by {
                        let w = choose|w: int|
                            0 <= w < pre.len() && listing_matches(#[trigger] pre[w], prefix@)
                                && group_of(pre[w].path, prefix@) == gk;
                        assert(post[w] == pre[w]);
                        assert(listing_matches(post[w], prefix@));
                    }
                }
                if found {
                    let cnt = groups[pos].fact_count;
                    proof {
                        lemma_group_count_le(pre, prefix@, gv);
                        assert(groups@[pos as int].path@ == gv);
                    }
                    let updated = PathInfo { path: g, fact_count: cnt + 1 };
                    let ghost before = groups@;
                    groups.set(pos, updated);
                    proof {
                        assert(groups@ =~= before.update(pos as int, updated));
                        assert(forall|k: int|
                            0 <= k < groups@.len() && k != pos ==> #[trigger] groups@[k]
                                == before[k]);
                        assert(groups@[pos as int].path@ == gv);
                        assert forall|k: int| 0 <= k < groups@.len() && k != pos implies (
                        #[trigger] groups@[k]).path@ != gv by {
                            if k < pos {
                                crate::text::lemma_lex_trichotomy(before[k].path@, gv);
                            } else {
                                assert(crate::text::lex_lt(
                                    before[pos as int].path@,
                                    before[k].path@,
                                ));
                                crate::text::lemma_lex_trichotomy(before[k].path@, gv);
                            }
                        }
                        assert forall|gk: Seq<char>| #[trigger] is_group(post, prefix@, gk)
                            implies exists|k: int|
                            0 <= k < groups@.len() && (#[trigger] groups@[k]).path@ == gk by {
                            if gk == gv {
                                assert(groups@[pos as int].path@ == gv);
                            } else {
                                assert(is_group(pre, prefix@, gk));
                                let k0 = choose|k0: int|
                                    0 <= k0 < before.len() && (#[trigger] before[k0]).path@ == gk;
                                assert(groups@[k0].path@ == gk);
                            }
                        }
                        assert forall|k: int| 0 <= k < groups@.len() implies is_group(
                            post,
                            prefix@,
                            (#[trigger] groups@[k]).path@,
                        ) && groups@[k].fact_count == group_count(
                            post,
                            prefix@,
                            groups@[k].path@,
                        ) by {
                            if k == pos as int {
                                assert(groups@[k].path@ == gv);
                                assert(groups@[k].fact_count == cnt + 1);
                            } else {
                                assert(groups@[k] == before[k]);
                                assert(groups@[k].path@ != gv);
                                assert(is_group(pre, prefix@, before[k].path@));
                            }
                        }
                    }
                } else {
                    proof {
                        // `gv` was not present, so its count so far is zero
                        assert(!is_group(pre, prefix@, gv)) by {
                            if is_group(pre, prefix@, gv) {
                                let k = choose|k: int|
                                    0 <= k < groups@.len() && (#[trigger] groups@[k]).path@ == gv;
                                if k < pos as int {
                                    crate::text::lemma_lex_trichotomy(groups@[k].path@, gv);
                                } else if k == pos as int {
                                    assert(pos < m);
                                } else {
                                    assert(crate::text::lex_lt(
                                        groups@[pos as int].path@,
                                        groups@[k].path@,
                                    ));
                                    crate::text::lemma_lex_trichotomy(
                                        groups@[pos as int].path@,
                                        gv,
                                    );
                                    crate::text::lemma_lex_trans(
                                        groups@[pos as int].path@,
                                        groups@[k].path@,
                                        gv,
                                    );
                                    crate::text::lemma_lex_trichotomy(groups@[k].path@, gv);
                                }
                            }
                        }
                        lemma_group_count_zero(pre, prefix@, gv);
                    }
                    let entry = PathInfo { path: g, fact_count: 1 };
                    let ghost before = groups@;
                    groups.insert(pos, entry);
                    proof {
                        assert(groups@ =~= before.insert(pos as int, entry));
                        assert(groups@.len() == before.len() + 1);
                        assert(forall|k: int| 0 <= k < pos ==> #[trigger] groups@[k] == before[k]);
                        assert(groups@[pos as int] == entry);
                        assert(forall|k: int|
                            pos < k < groups@.len() ==> #[trigger] groups@[k] == before[k - 1]);
                        assert forall|a: int, b: int| 0 <= a < b < groups@.len() implies
                            crate::text::lex_lt(
                            (#[trigger] groups@[a]).path@,
                            (#[trigger] groups@[b]).path@,
                        ) by {
                            if b == pos as int {
                                assert(crate::text::lex_lt(before[a].path@, gv));
                            } else if a == pos as int {
                                assert(b > pos);
                                assert(groups@[b].path@ == before[b - 1].path@);
                                if b - 1 == pos as int {
                                    assert(crate::text::lex_lt(gv, before[pos as int].path@));
                                } else {
                                    assert(crate::text::lex_lt(gv, before[pos as int].path@));
                                    assert(crate::text::lex_lt(
                                        before[pos as int].path@,
                                        before[b - 1].path@,
                                    ));
                                    crate::text::lemma_lex_trans(
                                        gv,
                                        before[pos as int].path@,
                                        before[b - 1].path@,
                                    );
                                }
                            } else if a < pos as int && b > pos as int {
                                assert(groups@[a].path@ == before[a].path@);
                                assert(groups@[b].path@ == before[b - 1].path@);
                                if b - 1 == a {
                                    assert(false);
                                } else {
                                    assert(crate::text::lex_lt(
                                        before[a].path@,
                                        before[b - 1].path@,
                                    ));
                                }
                            }
                        }
                        assert forall|k: int| 0 <= k < groups@.len() && k != pos implies (
                        #[trigger] groups@[k]).path@ != gv by {
                            if k < pos as int {
                                crate::text::lemma_lex_trichotomy(groups@[k].path@, gv);
                            } else {
                                assert(groups@[k].path@ == before[k - 1].path@);
                                assert(crate::text::lex_lt(gv, before[pos as int].path@));
                                if k - 1 == pos as int {
                                    crate::text::lemma_lex_trichotomy(gv, before[pos as int].path@);
                                } else {
                                    assert(crate::text::lex_lt(
                                        before[pos as int].path@,
                                        before[k - 1].path@,
                                    ));
                                    crate::text::lemma_lex_trans(
                                        gv,
                                        before[pos as int].path@,
                                        before[k - 1].path@,
                                    );
                                    crate::text::lemma_lex_trichotomy(gv, before[k - 1].path@);
                                }
                            }
                        }
                        assert forall|gk: Seq<char>| #[trigger] is_group(post, prefix@, gk)
                            implies exists|k: int|
                            0 <= k < groups@.len() && (#[trigger] groups@[k]).path@ == gk by {
                            if gk == gv {
                                assert(groups@[pos as int].path@ == gv);
                            } else {
                                assert(is_group(pre, prefix@, gk));
                                let k0 = choose|k0: int|
                                    0 <= k0 < before.len() && (#[trigger] before[k0]).path@ == gk;
                                if k0 < pos as int {
                                    assert(groups@[k0].path@ == gk);
                                } else {
                                    assert(groups@[k0 + 1].path@ == gk);
                                }
                            }
                        }
                        assert forall|k: int| 0 <= k < groups@.len() implies is_group(
                            post,
                            prefix@,
                            (#[trigger] groups@[k]).path@,
                        ) && groups@[k].fact_count == group_count(
                            post,
                            prefix@,
                            groups@[k].path@,
                        ) by {
                            if k == pos as int {
                                assert(groups@[k].path@ == gv);
                                assert(groups@[k].fact_count == 1);
                            } else if k < pos as int {
                                assert(groups@[k] == before[k]);
                                assert(groups@[k].path@ != gv);
                                assert(is_group(pre, prefix@, before[k].path@));
                            } else {
                                assert(groups@[k] == before[k - 1]);
                                assert(groups@[k].path@ != gv);
                                assert(is_group(pre, prefix@, before[k - 1].path@));
                            }
                        }
                    }
                }
            } else {
                proof {
                    assert forall|gk: Seq<char>| group_count(post, prefix@, gk) == group_count(
                        pre,
                        prefix@,
                        gk,
                    ) by {
                        assert(!listing_matches(post.last(), prefix@));
                    }
                    assert forall|gk: Seq<char>| #[trigger] is_group(post, prefix@, gk) implies
                        is_group(pre, prefix@, gk) by {
                        let w = choose|w: int|
                            0 <= w < post.len() && listing_matches(#[trigger] post[w], prefix@)
                                && group_of(post[w].path, prefix@) == gk;
                        assert(w < i);
                        assert(pre[w] == post[w]);
                    }
                    assert forall|gk: Seq<char>| #[trigger] is_group(pre, prefix@, gk) implies
                        is_group(post, prefix@, gk) by {
                        let w = choose|w: int|
                            0 <= w < pre.len() && listing_matches(#[trigger] pre[w], prefix@)
                                && group_of(pre[w].path, prefix@) == gk;
                        assert(post[w] == pre[w]);
                        assert(listing_matches(post[w], prefix@));
                    }
                }
            }
            i = i + 1;
        }
        proof {
            assert(self.rows().take(n as int) =~= self.rows());
        }
        groups
    }

    /// One page of child groups under `parent`, in lexicographic order,
    /// starting strictly after `cursor`, with at most `limit` entries;
    /// `has_more` says whether groups remain past the page.
    #[verifier::loop_isolation(false)]
    #[verifier::rlimit(100)]
    #[verifier::spinoff_prover]
    pub fn list_children(&self, parent: &str, limit: i64, cursor: Option<&str>) -> (r: Result<
        (Vec<PathInfo>, bool),
        StoreError,
    >)
        requires
            limit >= 0,
        ensures
            match r {
                Ok(page) => is_page(
                    self.rows(),
                    listing_prefix(parent@),
                    match cursor {
                        Some(c) => c@,
                        None => Seq::<char>::empty(),
                    },
                    limit as int,
                    page.0@,
                    page.1,
                ),
                Err(_) => false,
            },
    {
        let ghost sl = |c: char| c == '/';
        let pn = parent.unicode_len();
        let root = pn == 0 || crate::text::str_eq(parent, "/") || crate::text::str_eq(
            parent,
            "@",
        );
        let prefix: String = if root {
            let s = String::from_str("@");
            proof {
                reveal_strlit("@");
                reveal_strlit("/");
                assert(s@ =~= seq!['@']);
                if parent@.len() != 0 {
                    if parent@ == "/"@ {
                        assert(parent@ =~= seq!['/']);
                    } else {
                        assert(parent@ == "@"@);
                        assert(parent@ =~= seq!['@']);
                    }
                }
                assert(listing_prefix(parent@) == seq!['@']);
            }
            s
        } else {
            let mut e: usize = pn;
            while e > 0 && parent.get_char(e - 1) == '/'
                invariant
                    0 <= e <= pn,
                    pn == parent@.len(),
                    forall|j: int| e <= j < pn ==> #[trigger] parent@[j] == '/',
                decreases e,
            {
                e = e - 1;
            }
            proof {
                crate::text::lemma_rtrim_range(parent@, sl, e as int);
            }
            let mut s = parent.substring_char(0, e).to_owned();
            s.append("/");
            proof {
                reveal_strlit("/");
                reveal_strlit("@");
                assert("/"@ =~= seq!['/']);
                assert(s@ =~= crate::text::rtrim(parent@, sl) + seq!['/']);
                assert(parent@.len() != 0);
                if parent@ == seq!['/'] {
                    assert(parent@ == "/"@);
                }
                if parent@ == seq!['@'] {
                    assert(parent@ == "@"@);
                }
                assert(listing_prefix(parent@) == crate::text::rtrim(parent@, sl) + seq!['/']);
            }
            s
        };
        let ghost pv = listing_prefix(parent@);
        proof {
            assert(prefix@ == pv);
        }
        let groups = self.collect_groups(prefix.as_str());
        let cursor_str: &str = match cursor {
            Some(c) => c,
            None => "",
        };
        let ghost cs = match cursor {
            Some(c) => c@,
            None => Seq::<char>::empty(),
        };
        proof {
            reveal_strlit("");
            assert(cursor_str@ == cs);
        }
        let m = groups.len();
        let mut pos0: usize = 0;
        while pos0 < m && !crate::text::str_lex_lt(cursor_str, groups[pos0].path.as_str())
            invariant
                0 <= pos0 <= m,
                m == groups@.len(),
                forall|k: int|
                    0 <= k < pos0 ==> !crate::text::lex_lt(cs, (#[trigger] groups@[k]).path@),
            decreases m - pos0,
        {
            pos0 = pos0 + 1;
        }
        let mut page: Vec<PathInfo> = Vec::new();
        let mut t: usize = pos0;
        let mut cnt: i64 = 0;
        while t < m && cnt < limit
            invariant
                pos0 <= t <= m,
                m == groups@.len(),
                cnt == t - pos0,
                cnt <= limit,
                page@.len() == t - pos0,
                forall|q: int| 0 <= q < page@.len() ==> #[trigger] page@[q].path@ == groups@[pos0
                    + q].path@ && page@[q].fact_count == groups@[pos0 + q].fact_count,
            decreases m - t,
        {
            let entry = PathInfo {
                path: groups[t].path.clone(),
                fact_count: groups[t].fact_count,
            };
            proof {
                assert(entry.path@ == groups@[t as int].path@);
                assert(entry.fact_count == groups@[t as int].fact_count);
                assert(forall|q: int|
                    0 <= q < page@.len() ==> #[trigger] page@.push(entry)[q] == page@[q]);
                assert(page@.push(entry)[page@.len() as int] == entry);
            }
            page.push(entry);
            t = t + 1;
            cnt = cnt + 1;
        }
        let has_more = t < m;
        proof {
            let rows = self.rows();
            let pg = page@;
            assert(pos0 < m ==> crate::text::lex_lt(cs, groups@[pos0 as int].path@));
            assert forall|q: int| 0 <= q < pg.len() implies crate::text::lex_lt(
                cs,
                (#[trigger] pg[q]).path@,
            ) by {
                assert(pg[q].path@ == groups@[pos0 + q].path@);
                assert(crate::text::lex_lt(cs, groups@[pos0 as int].path@));
                if q > 0 {
                    assert(crate::text::lex_lt(
                        groups@[pos0 as int].path@,
                        groups@[pos0 + q].path@,
                    ));
                    crate::text::lemma_lex_trans(
                        cs,
                        groups@[pos0 as int].path@,
                        groups@[pos0 + q].path@,
                    );
                }
            }
            assert forall|g: Seq<char>|
                #[trigger] is_group(rows, pv, g) && crate::text::lex_lt(cs, g) && pg.len() > 0 && (
                crate::text::lex_lt(g, pg[pg.len() - 1].path@) || g == pg[pg.len()
                    - 1].path@) implies exists|q: int|
                0 <= q < pg.len() && (#[trigger] pg[q]).path@ == g by {
                let k = choose|k: int| 0 <= k < groups@.len() && (#[trigger] groups@[k]).path@ == g;
                let lastv = pg[pg.len() - 1].path@;
                assert(lastv == groups@[t - 1].path@);
                if k < pos0 {
                    assert(!crate::text::lex_lt(cs, groups@[k].path@));
                    assert(false);
                }
                if k > t - 1 {
                    assert(crate::text::lex_lt(groups@[t - 1].path@, groups@[k].path@));
                    if g == lastv {
                        crate::text::lemma_lex_trichotomy(lastv, g);
                        assert(false);
                    } else {
                        assert(crate::text::lex_lt(g, lastv));
                        crate::text::lemma_lex_trans(g, lastv, groups@[k].path@);
                        crate::text::lemma_lex_trichotomy(g, groups@[k].path@);
                        assert(false);
                    }
                }
                assert(pos0 <= k <= t - 1);
                assert(pg[k - pos0].path@ == g);
            }
            if !has_more {
                assert(t == m);
                assert forall|g: Seq<char>|
                    #[trigger] is_group(rows, pv, g) && crate::text::lex_lt(cs, g) implies exists|
                    q: int,
                | 0 <= q < pg.len() && (#[trigger] pg[q]).path@ == g by {
                    let k = choose|k: int|
                        0 <= k < groups@.len() && (#[trigger] groups@[k]).path@ == g;
                    if k < pos0 {
                        assert(!crate::text::lex_lt(cs, groups@[k].path@));
                        assert(false);
                    }
                    assert(pg[k - pos0].path@ == g);
                }
            } else {
                assert(cnt == limit);
                assert(pg.len() == limit);
                let g = groups@[t as int].path@;
                assert(is_group(rows, pv, g));
                assert(crate::text::lex_lt(cs, g)) by {
                    assert(crate::text::lex_lt(cs, groups@[pos0 as int].path@));
                    if t > pos0 {
                        assert(crate::text::lex_lt(groups@[pos0 as int].path@, groups@[t as int].path@));
                        crate::text::lemma_lex_trans(
                            cs,
                            groups@[pos0 as int].path@,
                            groups@[t as int].path@,
                        );
                    }
                }
                if pg.len() > 0 {
                    assert(pg[pg.len() - 1].path@ == groups@[t - 1].path@);
                    assert(crate::text::lex_lt(groups@[t - 1].path@, groups@[t as int].path@));
                }
            }
        }
        Ok((page, has_more))
    }

    /// The full listing of child groups under `parent`, without pagination.
    pub fn list_children_all(&self, parent: &str) -> (r: Result<Vec<PathInfo>, StoreError>)
        ensures
            match r {
                Ok(v) => is_page(
                    self.rows(),
                    listing_prefix(parent@),
                    Seq::<char>::empty(),
                    10000,
                    v@,
                    false,
                ) || exists|hm: bool|
                    #[trigger] is_page(
                        self.rows(),
                        listing_prefix(parent@),
                        Seq::<char>::empty(),
                        10000,
                        v@,
                        hm,
                    ),
                Err(_) => false,
            },
    {
        match self.list_children(parent, 10000, None) {
            Ok((v, hm)) => {
                proof {
                    assert(is_page(
                        self.rows(),
                        listing_prefix(parent@),
                        Seq::<char>::empty(),
                        10000,
                        v@,
                        hm,
                    ));
                }
                Ok(v)
            },
            Err(e) => Err(e),
        }
    }

    /// Whether some row supersedes the given id.
    fn is_referenced(&self, id: u128) -> (r: bool)
        ensures
            r == referenced(self.rows(), id),
    {
        let n = self.facts.len();
        proof {
            assert(self.rows().len() == n);
        }
        let mut i: usize = 0;
        while i < n
            invariant
                0 <= i <= n,
                n == self.rows().len(),
                n == self.facts@.len(),
                forall|j: int|
                    0 <= j < i ==> (#[trigger] self.rows()[j]).supersedes != Some(id),
            decreases n - i,
        {
            let hit = match self.facts[i].supersedes {
                Some(p) => p == id,
                None => false,
            };
            if hit {
                proof {
                    assert(self.rows()[i as int].supersedes == Some(id));
                }
                return true;
            }
            proof {
                assert(self.rows()[i as int].supersedes != Some(id));
            }
            i = i + 1;
        }
        false
    }

    /// One garbage-collection pass against an explicit clock reading.
    /// Candidates are the deprecated or superseded rows older than the
    /// retention cutoff, listed oldest first; a dry run deletes nothing.
    /// Active rows and rows awaiting review are never removed, nor is
    /// anything newer than the cutoff.
    #[verifier::loop_isolation(false)]
    #[verifier::rlimit(100)]
    #[verifier::spinoff_prover]
    pub fn garbage_collect_at(&mut self, retention_days: u32, dry_run: bool, now: i64) -> (r:
        Result<GcResult, StoreError>)
        requires
            old(self).wf(),
        ensures
            final(self).wf(),
            match r {
                Ok(res) => gc_post(
                    old(self).rows(),
                    final(self).rows(),
                    res,
                    res.candidates@,
                    retention_days,
                    dry_run,
                    now,
                ),
                Err(_) => false,
            },
            forall|i: int|
                0 <= i < old(self).rows().len() && ((#[trigger] old(self).rows()[i]).status
                    == Status::Active || old(self).rows()[i].status == Status::PendingReview || old(self).rows()[i].updated_at >= gc_cutoff(now, retention_days))
                    ==> final(self).rows().contains(old(self).rows()[i]),
    {
        let ghost cutoff = gc_cutoff(now, retention_days);
        let ghost cpred = |f: FactModel| gc_candidate(old(self).rows(), f, cutoff);
        let ghost pm = |p: (u128, Fact)| (p.0, p.1@);
        let ghost sm = |p: (u128, Fact)| p.1@;
        let ghost keyed = |p: (u128, FactModel)|
            p.0 == 0xffff_ffff_ffff_ffff_ffff_ffff_ffff_ffffu128 - created_key(p.1.updated_at);
        let cutoff_exec: i128 = now as i128 - retention_days as i128 * 86_400_000;
        proof {
            assert(cutoff_exec == cutoff);
        }
        let n = self.facts.len();
        proof {
            assert(self.rows().len() == n);
            assert(self.rows().take(0).filter(cpred) =~= Seq::<FactModel>::empty()) by {
                reveal(Seq::filter);
            }
        }
        let mut pairs: Vec<(u128, Fact)> = Vec::new();
        let mut i: usize = 0;
        while i < n
            invariant
                0 <= i <= n,
                n == self.facts@.len(),
                self.rows().len() == n,
                self.rows() == old(self).rows(),
                pairs@.map_values(sm) =~= self.rows().take(i as int).filter(cpred),
                forall|k: int| 0 <= k < pairs@.len() ==> keyed(#[trigger] pairs@.map_values(pm)[k]),
            decreases n - i,
        {
            let fid = self.facts[i].id;
            let fupd = self.facts[i].updated_at;
            let dep = matches!(self.facts[i].status, Status::Deprecated);
            let act = matches!(self.facts[i].status, Status::Active);
            let pend = matches!(self.facts[i].status, Status::PendingReview);
            let old_enough = (fupd as i128) < cutoff_exec;
            let referenced_here = if dep {
                true
            } else {
                self.is_referenced(fid)
            };
            let is_cand = referenced_here && !act && !pend && old_enough;
            proof {
                reveal(Seq::filter);
                assert(self.rows().take(i + 1).drop_last() =~= self.rows().take(i as int));
                assert(self.rows().take(i + 1).last() == self.rows()[i as int]);
                assert(is_cand == cpred(self.rows()[i as int]));
            }
            if is_cand {
                let key: u128 = 0xffff_ffff_ffff_ffff_ffff_ffff_ffff_ffffu128 - created_key_exec(
                    fupd,
                );
                let copy = self.facts[i].clone();
                proof {
                    assert(copy@ == self.rows()[i as int]);
                    assert(pairs@.push((key, copy)).map_values(sm) =~= pairs@.map_values(sm).push(
                        copy@,
                    ));
                    assert(pairs@.push((key, copy)).map_values(pm) =~= pairs@.map_values(pm).push(
                        (key, copy@),
                    ));
                }
                pairs.push((key, copy));
            }
            i = i + 1;
        }
        proof {
            assert(self.rows().take(n as int) =~= self.rows());
            assert(pairs@.map_values(sm) =~= gc_candidates(old(self).rows(), cutoff));
        }
        let ghost before_pairs = pairs@;
        sort_pairs_desc(&mut pairs);
        proof {
            lemma_multiset_members(before_pairs.map_values(pm), pairs@.map_values(pm));
            assert forall|k: int| 0 <= k < pairs@.len() implies keyed(
                #[trigger] pairs@.map_values(pm)[k],
            ) by {
                let e = pairs@.map_values(pm)[k];
                assert(before_pairs.map_values(pm).contains(e));
                let w = choose|w: int|
                    0 <= w < before_pairs.len() && before_pairs.map_values(pm)[w] == e;
                assert(keyed(before_pairs.map_values(pm)[w]));
            }
        }
        let m = pairs.len();
        let mut candidates: Vec<GcCandidate> = Vec::new();
        let mut k: usize = 0;
        while k < m
            invariant
                0 <= k <= m,
                m == pairs@.len(),
                candidates@.len() == k,
                forall|q: int|
                    0 <= q < k ==> gc_cand_view(#[trigger] candidates@[q]) == gc_cand_model(
                        pairs@.map_values(sm)[q],
                    ),
                forall|q: int|
                    0 <= q < k ==> (#[trigger] candidates@[q]).updated_at == pairs@.map_values(
                        sm,
                    )[q].updated_at,
            decreases m - k,
        {
            let reason = if matches!(pairs[k].1.status, Status::Deprecated) {
                GcReason::Deprecated
            } else {
                GcReason::Superseded
            };
            let c = GcCandidate {
                id: pairs[k].1.id,
                path: pairs[k].1.path.clone(),
                reason,
                updated_at: pairs[k].1.updated_at,
            };
            proof {
                assert(pairs@.map_values(sm)[k as int] == pairs@[k as int].1@);
                assert(gc_cand_view(c) == gc_cand_model(pairs@.map_values(sm)[k as int]));
            }
            candidates.push(c);
            k = k + 1;
        }
        proof {
            assert(candidates@.map_values(|c: GcCandidate| gc_cand_view(c)) =~= pairs@.map_values(
                sm,
            ).map_values(|f: FactModel| gc_cand_model(f)));
            lemma_map_multiset(
                pairs@.map_values(sm),
                gc_candidates(old(self).rows(), cutoff),
                |f: FactModel| gc_cand_model(f),
            );
            assert forall|a: int, b: int| 0 <= a < b < candidates@.len() implies (
            #[trigger] candidates@[a]).updated_at <= (#[trigger] candidates@[b]).updated_at by {
                assert(pairs@.map_values(pm)[a] == (pairs@[a].0, pairs@[a].1@));
                assert(pairs@.map_values(pm)[b] == (pairs@[b].0, pairs@[b].1@));
                assert(pairs@.map_values(sm)[a] == pairs@[a].1@);
                assert(pairs@.map_values(sm)[b] == pairs@[b].1@);
                assert(pairs@[a].0 >= pairs@[b].0);
                assert(keyed((pairs@[a].0, pairs@[a].1@)));
                assert(keyed((pairs@[b].0, pairs@[b].1@)));
                lemma_created_key_order(pairs@[a].1@.updated_at, pairs@[b].1@.updated_at);
            }
        }
        if dry_run {
            proof {
                broadcast use vstd::seq_lib::group_seq_properties;

            }
            return Ok(GcResult { deleted_count: 0, candidates });
        }
        let ghost spred = |f: FactModel| !gc_candidate(old(self).rows(), f, cutoff);
        proof {
            assert(self.rows().take(0).filter(spred) =~= Seq::<FactModel>::empty()) by {
                reveal(Seq::filter);
            }
        }
        let mut kept: Vec<Fact> = Vec::new();
        let mut i2: usize = 0;
        while i2 < n
            invariant
                0 <= i2 <= n,
                n == self.facts@.len(),
                self.rows().len() == n,
                self.rows() == old(self).rows(),
                kept@.map_values(|f: Fact| f@) =~= self.rows().take(i2 as int).filter(spred),
            decreases n - i2,
        {
            let fid = self.facts[i2].id;
            let fupd = self.facts[i2].updated_at;
            let dep = matches!(self.facts[i2].status, Status::Deprecated);
            let act = matches!(self.facts[i2].status, Status::Active);
            let pend = matches!(self.facts[i2].status, Status::PendingReview);
            let old_enough = (fupd as i128) < cutoff_exec;
            let referenced_here = if dep {
                true
            } else {
                self.is_referenced(fid)
            };
            let keep = !(referenced_here && !act && !pend && old_enough);
            proof {
                reveal(Seq::filter);
                assert(self.rows().take(i2 + 1).drop_last() =~= self.rows().take(i2 as int));
                assert(self.rows().take(i2 + 1).last() == self.rows()[i2 as int]);
                assert(keep == spred(self.rows()[i2 as int]));
            }
            if keep {
                let copy = self.facts[i2].clone();
                proof {
                    assert(copy@ == self.rows()[i2 as int]);
                    assert(kept@.push(copy).map_values(|f: Fact| f@) =~= kept@.map_values(
                        |f: Fact| f@,
                    ).push(copy@));
                }
                kept.push(copy);
            }
            i2 = i2 + 1;
        }
        proof {
            assert(self.rows().take(n as int) =~= self.rows());
        }
        let deleted = candidates.len();
        self.facts = kept;
        proof {
            assert(self.rows() =~= gc_survivors(old(self).rows(), cutoff));
            lemma_filter_unique_ids(old(self).rows(), spred);
            broadcast use vstd::seq_lib::group_seq_properties;

            assert forall|q: int|
                0 <= q < old(self).rows().len() && ((#[trigger] old(self).rows()[q]).status
                    == Status::Active || old(self).rows()[q].status == Status::PendingReview || old(self).rows()[q].updated_at >= cutoff) implies self.rows().contains(
                old(self).rows()[q],
            ) by {
                assert(spred(old(self).rows()[q]));
                old(self).rows().lemma_filter_contains(spred, q);
            }
            assert(candidates@.len() == gc_candidates(old(self).rows(), cutoff).len()) by {
                broadcast use vstd::seq_lib::group_to_multiset_ensures;

                assert(candidates@.map_values(|c: GcCandidate| gc_cand_view(c)).len()
                    == candidates@.len());
            }
        }
        Ok(GcResult { deleted_count: deleted, candidates })
    }

    /// One garbage-collection pass against the current clock. What holds of
    /// every reading: a dry run changes nothing, and active rows and rows
    /// awaiting review are never removed.
    pub fn garbage_collect(&mut self, retention_days: u32, dry_run: bool) -> (r: Result<
        GcResult,
        StoreError,
    >)
        requires
            old(self).wf(),
        ensures
            final(self).wf(),
            match r {
                Ok(res) => exists|now: i64|
                    #[trigger] gc_post(
                        old(self).rows(),
                        final(self).rows(),
                        res,
                        res.candidates@,
                        retention_days,
                        dry_run,
                        now,
                    ),
                Err(_) => false,
            },
            dry_run ==> final(self).rows() == old(self).rows(),
            forall|i: int|
                0 <= i < old(self).rows().len() && ((#[trigger] old(self).rows()[i]).status
                    == Status::Active || old(self).rows()[i].status == Status::PendingReview)
                    ==> final(self).rows().contains(old(self).rows()[i]),
    {
        let now = crate::clock::now_millis();
        let r = self.garbage_collect_at(retention_days, dry_run, now);
        proof {
            match &r {
                Ok(res) => {
                    assert(gc_post(
                        old(self).rows(),
                        self.rows(),
                        *res,
                        res.candidates@,
                        retention_days,
                        dry_run,
                        now,
                    ));
                },
                Err(_) => {},
            }
            if dry_run {
                assert(self.rows() == old(self).rows());
            }
        }
        r
    }

    /// First fact that supersedes the given id, in insertion order.
    fn find_successor_exec(&self, id: u128) -> (r: Option<Fact>)
        ensures
            match r {
                Some(f) => find_successor(self.rows(), id) == Some(f@),
                None => find_successor(self.rows(), id) is None,
            },
    {
        let n = self.facts.len();
        proof {
            assert(self.rows().len() == n);
        }
        let mut i: usize = 0;
        while i < n
            invariant
                0 <= i <= n,
                n == self.rows().len(),
                n == self.facts@.len(),
                forall|j: int|
                    0 <= j < i ==> (#[trigger] self.rows()[j]).supersedes != Some(id),
            decreases n - i,
        {
            let hit = match self.facts[i].supersedes {
                Some(p) => p == id,
                None => false,
            };
            if hit {
                let f = self.facts[i].clone();
                proof {
                    assert(self.rows()[i as int].supersedes == Some(id));
                    lemma_find_successor_at(self.rows(), id, i as int);
                }
                return Some(f);
            }
            proof {
                assert(self.rows()[i as int].supersedes != Some(id));
            }
            i = i + 1;
        }
        proof {
            lemma_find_successor_none(self.rows(), id);
        }
        None
    }

    /// The supersession history of a fact: the walk backward along
    /// `supersedes`, returned oldest first. The walk is bounded by the
    /// store's size, so even a cyclic chain ends.
    #[verifier::loop_isolation(false)]
    pub fn get_history_chain(&self, id: u128) -> (r: Result<Vec<Fact>, StoreError>)
        ensures
            match r {
                Ok(v) => v@.map_values(|f: Fact| f@) == chain_back(
                    self.rows(),
                    id,
                    (self.rows().len() + 1) as nat,
                ).reverse(),
                Err(_) => false,
            },
    {
        let ghost full = (self.rows().len() + 1) as nat;
        let n = self.facts.len();
        proof {
            assert(self.rows().len() == n);
        }
        let mut acc: Vec<Fact> = Vec::new();
        let mut cur: Option<u128> = Some(id);
        let mut fuel: u128 = n as u128 + 1;
        proof {
            assert(acc@.map_values(|f: Fact| f@) =~= Seq::<FactModel>::empty());
        }
        while fuel > 0 && cur.is_some()
            invariant
                fuel <= n as u128 + 1,
                chain_back(self.rows(), id, full) == acc@.map_values(|f: Fact| f@) + (match cur {
                    Some(c) => chain_back(self.rows(), c, fuel as nat),
                    None => Seq::<FactModel>::empty(),
                }),
            decreases fuel,
        {
            let c = cur.unwrap();
            match self.get_by_id(c) {
                Ok(Some(f)) => {
                    let nxt = f.supersedes;
                    proof {
                        assert(find_fact(self.rows(), c) == Some(f@));
                        assert(acc@.push(f).map_values(|x: Fact| x@) =~= acc@.map_values(
                            |x: Fact| x@,
                        ).push(f@));
                        match nxt {
                            Some(p) => {
                                assert(chain_back(self.rows(), c, fuel as nat) == seq![f@]
                                    + chain_back(self.rows(), p, (fuel - 1) as nat));
                            },
                            None => {
                                assert(chain_back(self.rows(), c, fuel as nat) == seq![f@]);
                            },
                        }
                        assert(acc@.map_values(|x: Fact| x@) + chain_back(
                            self.rows(),
                            c,
                            fuel as nat,
                        ) =~= acc@.map_values(|x: Fact| x@).push(f@) + (match nxt {
                            Some(p) => chain_back(self.rows(), p, (fuel - 1) as nat),
                            None => Seq::<FactModel>::empty(),
                        }));
                    }
                    acc.push(f);
                    cur = nxt;
                },
                Ok(None) => {
                    proof {
                        assert(chain_back(self.rows(), c, fuel as nat)
                            =~= Seq::<FactModel>::empty());
                    }
                    cur = None;
                },
                Err(e) => {
                    return Err(e);
                },
            }
            fuel = fuel - 1;
            proof {
                assert(acc@.map_values(|x: Fact| x@) + (match cur {
                    Some(p) => chain_back(self.rows(), p, fuel as nat),
                    None => Seq::<FactModel>::empty(),
                }) =~= chain_back(self.rows(), id, full));
            }
        }
        proof {
            match cur {
                Some(c) => {
                    assert(fuel == 0);
                    assert(chain_back(self.rows(), c, 0) =~= Seq::<FactModel>::empty());
                },
                None => {},
            }
            assert(acc@.map_values(|f: Fact| f@) =~= chain_back(self.rows(), id, full));
        }
        Ok(reverse_facts(acc))
    }

    /// The facts that supersede the given one, walking forward, oldest
    /// first. The walk is bounded by the store's size.
    #[verifier::loop_isolation(false)]
    pub fn get_superseding_facts(&self, id: u128) -> (r: Result<Vec<Fact>, StoreError>)
        ensures
            match r {
                Ok(v) => v@.map_values(|f: Fact| f@) == chain_fwd(
                    self.rows(),
                    id,
                    (self.rows().len() + 1) as nat,
                ),
                Err(_) => false,
            },
    {
        let ghost full = (self.rows().len() + 1) as nat;
        let n = self.facts.len();
        proof {
            assert(self.rows().len() == n);
        }
        let mut acc: Vec<Fact> = Vec::new();
        let mut cur: Option<u128> = Some(id);
        let mut fuel: u128 = n as u128 + 1;
        proof {
            assert(acc@.map_values(|f: Fact| f@) =~= Seq::<FactModel>::empty());
        }
        while fuel > 0 && cur.is_some()
            invariant
                fuel <= n as u128 + 1,
                chain_fwd(self.rows(), id, full) == acc@.map_values(|f: Fact| f@) + (match cur {
                    Some(c) => chain_fwd(self.rows(), c, fuel as nat),
                    None => Seq::<FactModel>::empty(),
                }),
            decreases fuel,
        {
            let c = cur.unwrap();
            match self.find_successor_exec(c) {
                Some(g) => {
                    let gid = g.id;
                    proof {
                        assert(find_successor(self.rows(), c) == Some(g@));
                        assert(chain_fwd(self.rows(), c, fuel as nat) == seq![g@] + chain_fwd(
                            self.rows(),
                            g@.id,
                            (fuel - 1) as nat,
                        ));
                        assert(acc@.push(g).map_values(|x: Fact| x@) =~= acc@.map_values(
                            |x: Fact| x@,
                        ).push(g@));
                        assert(acc@.map_values(|x: Fact| x@) + chain_fwd(
                            self.rows(),
                            c,
                            fuel as nat,
                        ) =~= acc@.map_values(|x: Fact| x@).push(g@) + chain_fwd(
                            self.rows(),
                            gid,
                            (fuel - 1) as nat,
                        ));
                    }
                    acc.push(g);
                    cur = Some(gid);
                },
                None => {
                    proof {
                        assert(chain_fwd(self.rows(), c, fuel as nat)
                            =~= Seq::<FactModel>::empty());
                    }
                    cur = None;
                },
            }
            fuel = fuel - 1;
            proof {
                assert(acc@.map_values(|x: Fact| x@) + (match cur {
                    Some(p) => chain_fwd(self.rows(), p, fuel as nat),
                    None => Seq::<FactModel>::empty(),
                }) =~= chain_fwd(self.rows(), id, full));
            }
        }
        proof {
            match cur {
                Some(c) => {
                    assert(fuel == 0);
                    assert(chain_fwd(self.rows(), c, 0) =~= Seq::<FactModel>::empty());
                },
                None => {},
            }
            assert(acc@.map_values(|f: Fact| f@) =~= chain_fwd(self.rows(), id, full));
        }
        Ok(acc)
    }

    /// Set the status of the rows with this id, moving `updated_at` to the
    /// clock. Rows without the id are untouched; a missing id is not an
    /// error.
    fn set_status_exec(&mut self, id: u128, status: Status) -> (r: Result<(), StoreError>)
        requires
            old(self).wf(),
        ensures
            final(self).wf(),
            match r {
                Ok(()) => exists|now: i64|
                    final(self).rows() == #[trigger] set_status(old(self).rows(), id, status, now),
                Err(_) => false,
            },
    {
        let now = crate::clock::now_millis();
        let n = self.facts.len();
        proof {
            assert(self.rows().len() == n);
            assert(self.rows().take(0) =~= set_status(old(self).rows(), id, status, now).take(0));
        }
        let mut i: usize = 0;
        while i < n
            invariant
                0 <= i <= n,
                n == self.facts@.len(),
                self.rows().len() == n,
                old(self).wf(),
                self.rows().len() == old(self).rows().len(),
                self.rows().take(i as int) =~= set_status(
                    old(self).rows(),
                    id,
                    status,
                    now,
                ).take(i as int),
                forall|j: int| i <= j < n ==> #[trigger] self.rows()[j] == old(self).rows()[j],
            decreases n - i,
        {
            if self.facts[i].id == id {
                proof {
                    assert(self.rows()[i as int] == old(self).rows()[i as int]);
                }
                let ghost prev = self.facts@;
                let mut updated = self.facts[i].clone();
                proof {
                    assert(updated@ == self.rows()[i as int]);
                }
                updated.status = status;
                updated.updated_at = now;
                proof {
                    assert(updated@ == (FactModel {
                        status,
                        updated_at: now,
                        ..old(self).rows()[i as int]
                    }));
                }
                self.facts.set(i, updated);
                proof {
                    assert(self.facts@ == prev.update(i as int, updated));
                    assert(forall|j: int|
                        0 <= j < n && j != i ==> self.facts@[j] == prev[j]);
                    assert(forall|j: int|
                        0 <= j < n && j != i ==> #[trigger] self.rows()[j] == prev.map_values(
                            |f: Fact| f@,
                        )[j]);
                }
            }
            proof {
                assert(self.rows().take(i + 1) =~= set_status(
                    old(self).rows(),
                    id,
                    status,
                    now,
                ).take(i + 1));
            }
            i = i + 1;
        }
        proof {
            assert(self.rows().take(n as int) =~= self.rows());
            assert(set_status(old(self).rows(), id, status, now).take(n as int) =~= set_status(
                old(self).rows(),
                id,
                status,
                now,
            ));
            assert(self.rows() =~= set_status(old(self).rows(), id, status, now));
            assert forall|a: int, b: int| 0 <= a < b < self.rows().len() implies (
            #[trigger] self.rows()[a]).id != (#[trigger] self.rows()[b]).id by {
                assert(old(self).rows()[a].id != old(self).rows()[b].id);
            }
        }
        Ok(())
    }

    /// Mark the fact with this id as superseded; only `status` and
    /// `updated_at` change, and a missing id is not an error.
    pub fn mark_superseded(&mut self, id: u128) -> (r: Result<(), StoreError>)
        requires
            old(self).wf(),
        ensures
            final(self).wf(),
            match r {
                Ok(()) => exists|now: i64|
                    final(self).rows() == #[trigger] set_status(
                        old(self).rows(),
                        id,
                        Status::Superseded,
                        now,
                    ),
                Err(_) => false,
            },
    {
        self.set_status_exec(id, Status::Superseded)
    }

    /// Mark the fact with this id as deprecated; only `status` and
    /// `updated_at` change, and a missing id is not an error.
    pub fn mark_deprecated(&mut self, id: u128) -> (r: Result<(), StoreError>)
        requires
            old(self).wf(),
        ensures
            final(self).wf(),
            match r {
                Ok(()) => exists|now: i64|
                    final(self).rows() == #[trigger] set_status(
                        old(self).rows(),
                        id,
                        Status::Deprecated,
                        now,
                    ),
                Err(_) => false,
            },
    {
        self.set_status_exec(id, Status::Deprecated)
    }

    /// Approve a fact awaiting review: it becomes active. Fails, leaving the
    /// store unchanged, when no row with this id is pending review.
    pub fn approve_fact(&mut self, id: u128) -> (r: Result<(), StoreError>)
        requires
            old(self).wf(),
        ensures
            final(self).wf(),
            match r {
                Ok(()) => (exists|i: int|
                    0 <= i < old(self).rows().len() && (#[trigger] old(self).rows()[i]).id == id
                        && old(self).rows()[i].status == Status::PendingReview) && exists|now: i64|
                    final(self).rows() == #[trigger] set_pending_status(
                        old(self).rows(),
                        id,
                        Status::Active,
                        now,
                    ),
                Err(e) => e == StoreError::NotFound && final(self).rows() == old(self).rows() && forall|
                    i: int,
                |
                    0 <= i < old(self).rows().len() && (#[trigger] old(self).rows()[i]).id == id
                        ==> old(self).rows()[i].status != Status::PendingReview,
            },
    {
        let now = crate::clock::now_millis();
        let n = self.facts.len();
        proof {
            assert(self.rows().len() == n);
        }
        let mut i: usize = 0;
        while i < n
            invariant
                0 <= i <= n,
                n == self.facts@.len(),
                self.rows().len() == n,
                self.rows() == old(self).rows(),
                old(self).wf(),
                forall|j: int|
                    0 <= j < i && (#[trigger] self.rows()[j]).id == id ==> self.rows()[j].status
                        != Status::PendingReview,
            decreases n - i,
        {
            let is_target = self.facts[i].id == id && matches!(
                self.facts[i].status,
                Status::PendingReview
            );
            if is_target {
                let mut updated = self.facts[i].clone();
                updated.status = Status::Active;
                updated.updated_at = now;
                proof {
                    assert(updated@ == (FactModel {
                        status: Status::Active,
                        updated_at: now,
                        ..old(self).rows()[i as int]
                    }));
                }
                self.facts.set(i, updated);
                proof {
                    let or = old(self).rows();
                    let tr = set_pending_status(or, id, Status::Active, now);
                    assert forall|k: int| 0 <= k < n implies self.rows()[k] == tr[k] by {
                        if k != i as int {
                            assert(or[k].id == id ==> k > i as int || or[k].status
                                != Status::PendingReview);
                            if or[k].id == id && or[k].status == Status::PendingReview {
                                assert(or[k].id == or[i as int].id);
                                assert(false);
                            }
                        }
                    }
                    assert(self.rows() =~= tr);
                    assert forall|a: int, b: int| 0 <= a < b < self.rows().len() implies (
                    #[trigger] self.rows()[a]).id != (#[trigger] self.rows()[b]).id by {
                        assert(or[a].id != or[b].id);
                    }
                }
                return Ok(());
            }
            i = i + 1;
        }
        Err(StoreError::NotFound)
    }

    /// Reject a fact awaiting review: its row is removed outright. Fails,
    /// leaving the store unchanged, when no row with this id is pending
    /// review.
    pub fn reject_fact(&mut self, id: u128) -> (r: Result<(), StoreError>)
        requires
            old(self).wf(),
        ensures
            final(self).wf(),
            match r {
                Ok(()) => final(self).rows() == old(self).rows().filter(
                    |f: FactModel| !(f.id == id && f.status == Status::PendingReview),
                ) && (exists|i: int|
                    0 <= i < old(self).rows().len() && (#[trigger] old(self).rows()[i]).id == id
                        && old(self).rows()[i].status == Status::PendingReview),
                Err(e) => e == StoreError::NotFound && final(self).rows() == old(self).rows() && forall|
                    i: int,
                |
                    0 <= i < old(self).rows().len() && (#[trigger] old(self).rows()[i]).id == id
                        ==> old(self).rows()[i].status != Status::PendingReview,
            },
    {
        let pred = |f: FactModel| !(f.id == id && f.status == Status::PendingReview);
        let n = self.facts.len();
        proof {
            assert(self.rows().len() == n);
        }
        let mut i: usize = 0;
        while i < n
            invariant
                0 <= i <= n,
                n == self.facts@.len(),
                self.rows().len() == n,
                self.rows() == old(self).rows(),
                old(self).wf(),
                forall|j: int|
                    0 <= j < i && (#[trigger] self.rows()[j]).id == id ==> self.rows()[j].status
                        != Status::PendingReview,
            decreases n - i,
        {
            let is_target = self.facts[i].id == id && matches!(
                self.facts[i].status,
                Status::PendingReview
            );
            if is_target {
                proof {
                    assert(self.rows()[i as int].id == id);
                    assert(self.rows()[i as int].status == Status::PendingReview);
                }
                self.facts.remove(i);
                proof {
                    let or = old(self).rows();
                    let p = |f: FactModel| !(f.id == id && f.status == Status::PendingReview);
                    assert(or[i as int].id == id && or[i as int].status == Status::PendingReview);
                    assert forall|j: int| 0 <= j < or.len() && j != i as int implies p(
                        #[trigger] or[j],
                    ) by {
                        if j > i as int {
                            assert(or[i as int].id != or[j].id);
                        }
                    }
                    assert(self.rows() =~= or.remove(i as int));
                    lemma_filter_removes_one(or, p, i as int);
                    assert(self.rows() =~= or.filter(p));
                    assert forall|a: int, b: int| 0 <= a < b < self.rows().len() implies (
                    #[trigger] self.rows()[a]).id != (#[trigger] self.rows()[b]).id by {
                        let ra = if a < i as int {
                            a
                        } else {
                            a + 1
                        };
                        let rb = if b < i as int {
                            b
                        } else {
                            b + 1
                        };
                        assert(self.rows()[a] == or[ra]);
                        assert(self.rows()[b] == or[rb]);
                        assert(or[ra].id != or[rb].id);
                    }
                }
                return Ok(());
            }
            i = i + 1;
        }
        Err(StoreError::NotFound)
    }
}

/// Storage statistics.
#[derive(Debug, Clone)]
pub struct StorageStats {
    /// Total rows, as the backend reports it.
    pub total: i64,
    /// Total rows.
    pub total_facts: usize,
    /// Rows with active status.
    pub active_facts: usize,
    /// Rows with deprecated status.
    pub deprecated_facts: usize,
    /// Rows awaiting review.
    pub pending_review_facts: usize,
}

/// A row is active and sits at exactly this path.
pub open spec fn active_at(f: FactModel, path: Seq<char>) -> bool {
    f.status == Status::Active && f.path == path
}

/// An order key for timestamps: shifts `i64` into `u128` monotonically.
pub open spec fn created_key(t: i64) -> u128 {
    (t + 0x8000_0000_0000_0000) as u128
}

fn created_key_exec(t: i64) -> (r: u128)
    ensures
        r == created_key(t),
{
    (t as i128 + 0x8000_0000_0000_0000i128) as u128
}

proof fn lemma_created_key_order(a: i64, b: i64)
    ensures
        (created_key(a) >= created_key(b)) == (a >= b),
{
}

/// Swapping two positions leaves the multiset of a sequence unchanged.
proof fn lemma_swap_multiset<A>(s: Seq<A>, i: int, j: int)
    requires
        0 <= i < s.len(),
        0 <= j < s.len(),
    ensures
        s.update(i, s[j]).update(j, s[i]).to_multiset() == s.to_multiset(),
{
    broadcast use vstd::seq_lib::group_seq_properties;
    broadcast use vstd::seq_lib::to_multiset_update;

    if i == j {
        assert(s.update(i, s[j]).update(j, s[i]) =~= s);
    } else {
        let s1 = s.update(i, s[j]);
        let s2 = s1.update(j, s[i]);
        assert(s1[j] == s[j]);
        assert(s1.to_multiset() == s.to_multiset().insert(s[j]).remove(s[i]));
        assert(s2.to_multiset() == s1.to_multiset().insert(s[i]).remove(s1[j]));
        assert(s2.to_multiset() =~= s.to_multiset()) by {
            broadcast use vstd::multiset::group_multiset_axioms;

            assert(s.to_multiset().contains(s[i])) by {
                broadcast use vstd::seq_lib::group_to_multiset_ensures;

                assert(s.contains(s[i]));
            }
        }
    }
}

/// Rows of one sequence all occur in a multiset-equal other sequence.
proof fn lemma_multiset_members<A>(s1: Seq<A>, s2: Seq<A>)
    requires
        s1.to_multiset() == s2.to_multiset(),
    ensures
        forall|a: int| 0 <= a < s2.len() ==> s1.contains(#[trigger] s2[a]),
{
    broadcast use vstd::seq_lib::group_to_multiset_ensures;

    assert forall|a: int| 0 <= a < s2.len() implies s1.contains(#[trigger] s2[a]) by {
        assert(s2.contains(s2[a]));
        assert(s2.to_multiset().count(s2[a]) > 0);
        assert(s1.to_multiset().count(s2[a]) > 0);
    }
}

/// Sort key-fact pairs by key, descending, preserving both the multiset of
/// pairs and the multiset of facts.
#[verifier::loop_isolation(false)]
#[verifier::rlimit(60)]
fn sort_pairs_desc(v: &mut Vec<(u128, Fact)>)
    ensures
        final(v)@.len() == old(v)@.len(),
        final(v)@.map_values(|p: (u128, Fact)| (p.0, p.1@)).to_multiset() == old(
            v,
        )@.map_values(|p: (u128, Fact)| (p.0, p.1@)).to_multiset(),
        final(v)@.map_values(|p: (u128, Fact)| p.1@).to_multiset() == old(v)@.map_values(
            |p: (u128, Fact)| p.1@,
        ).to_multiset(),
        forall|a: int, b: int|
            0 <= a < b < final(v)@.len() ==> (#[trigger] final(v)@[a]).0 >= (
            #[trigger] final(v)@[b]).0,
{
    let ghost pm = |p: (u128, Fact)| (p.0, p.1@);
    let ghost sm = |p: (u128, Fact)| p.1@;
    let n = v.len();
    if n == 0 {
        return;
    }
    let mut i: usize = 1;
    while i < n
        invariant
            1 <= i <= n,
            n == v@.len(),
            v@.map_values(pm).to_multiset() == old(v)@.map_values(pm).to_multiset(),
            v@.map_values(sm).to_multiset() == old(v)@.map_values(sm).to_multiset(),
            forall|a: int, b: int|
                0 <= a < b < i ==> (#[trigger] v@[a]).0 >= (#[trigger] v@[b]).0,
        decreases n - i,
    {
        let mut j: usize = i;
        while j > 0 && v[j - 1].0 < v[j].0
            invariant
                0 <= j <= i < n,
                n == v@.len(),
                v@.map_values(pm).to_multiset() == old(v)@.map_values(pm).to_multiset(),
                v@.map_values(sm).to_multiset() == old(v)@.map_values(sm).to_multiset(),
                forall|a: int, b: int|
                    0 <= a < b <= i && b != j ==> (#[trigger] v@[a]).0 >= (#[trigger] v@[b]).0,
                forall|b: int| j < b <= i ==> (#[trigger] v@[b]).0 <= v@[j as int].0,
            decreases j,
        {
            let ghost before = v@;
            let xk = v[j - 1].0;
            let xf = v[j - 1].1.clone();
            let yk = v[j].0;
            let yf = v[j].1.clone();
            proof {
                assert(xf@ == before[j - 1].1@);
                assert(yf@ == before[j as int].1@);
            }
            v.set(j - 1, (yk, yf));
            v.set(j, (xk, xf));
            proof {
                assert(v@.map_values(pm) =~= before.map_values(pm).update(
                    j - 1,
                    pm(before[j as int]),
                ).update(j as int, pm(before[j - 1])));
                lemma_swap_multiset(before.map_values(pm), j - 1, j as int);
                assert(v@.map_values(sm) =~= before.map_values(sm).update(
                    j - 1,
                    sm(before[j as int]),
                ).update(j as int, sm(before[j - 1])));
                lemma_swap_multiset(before.map_values(sm), j - 1, j as int);
            }
            j = j - 1;
        }
        i = i + 1;
    }
}

/// Ids are pairwise distinct.
pub open spec fn unique_ids(s: Seq<FactModel>) -> bool {
    forall|i: int, j: int|
        0 <= i < j < s.len() ==> (#[trigger] s[i]).id != (#[trigger] s[j]).id
}

/// First row that supersedes the given id, if any.
pub open spec fn find_successor(s: Seq<FactModel>, id: u128) -> Option<FactModel>
    decreases s.len(),
{
    if s.len() == 0 {
        None
    } else if s[0].supersedes == Some(id) {
        Some(s[0])
    } else {
        find_successor(s.drop_first(), id)
    }
}

proof fn lemma_find_successor_at(s: Seq<FactModel>, id: u128, i: int)
    requires
        0 <= i < s.len(),
        s[i].supersedes == Some(id),
        forall|j: int| 0 <= j < i ==> (#[trigger] s[j]).supersedes != Some(id),
    ensures
        find_successor(s, id) == Some(s[i]),
    decreases s.len(),
{
    if i == 0 {
    } else {
        assert(s[0].supersedes != Some(id));
        assert(s.drop_first() =~= s.skip(1));
        lemma_find_successor_at(s.skip(1), id, i - 1);
    }
}

proof fn lemma_find_successor_none(s: Seq<FactModel>, id: u128)
    requires
        forall|j: int| 0 <= j < s.len() ==> (#[trigger] s[j]).supersedes != Some(id),
    ensures
        find_successor(s, id) is None,
    decreases s.len(),
{
    if s.len() > 0 {
        assert(s.drop_first() =~= s.skip(1));
        lemma_find_successor_none(s.skip(1), id);
    }
}

/// The backward supersession chain from `id`: the fact itself, then what it
/// supersedes, and so on, newest first. Fuel bounds the walk, so a cyclic
/// chain ends after at most `fuel` steps.
pub open spec fn chain_back(s: Seq<FactModel>, id: u128, fuel: nat) -> Seq<FactModel>
    decreases fuel,
{
    if fuel == 0 {
        Seq::empty()
    } else {
        match find_fact(s, id) {
            None => Seq::empty(),
            Some(f) => match f.supersedes {
                Some(p) => seq![f] + chain_back(s, p, (fuel - 1) as nat),
                None => seq![f],
            },
        }
    }
}

/// The forward supersession chain from `id`: who supersedes it, who
/// supersedes that, and so on, oldest first. Fuel bounds the walk.
pub open spec fn chain_fwd(s: Seq<FactModel>, id: u128, fuel: nat) -> Seq<FactModel>
    decreases fuel,
{
    if fuel == 0 {
        Seq::empty()
    } else {
        match find_successor(s, id) {
            None => Seq::empty(),
            Some(g) => seq![g] + chain_fwd(s, g.id, (fuel - 1) as nat),
        }
    }
}

/// The garbage-collection cutoff: anything updated before it is old enough.
pub open spec fn gc_cutoff(now: i64, retention_days: u32) -> int {
    now - retention_days * 86_400_000
}

/// Some row supersedes the given id.
pub open spec fn referenced(s: Seq<FactModel>, id: u128) -> bool {
    exists|j: int| 0 <= j < s.len() && (#[trigger] s[j]).supersedes == Some(id)
}

/// A row may be collected: it is deprecated or already superseded by
/// another row, it is old enough, and it is neither active nor awaiting
/// review.
pub open spec fn gc_candidate(s: Seq<FactModel>, f: FactModel, cutoff: int) -> bool {
    &&& (f.status == Status::Deprecated || referenced(s, f.id))
    &&& f.status != Status::Active
    &&& f.status != Status::PendingReview
    &&& f.updated_at < cutoff
}

/// The rows that a collection pass would remove.
pub open spec fn gc_candidates(s: Seq<FactModel>, cutoff: int) -> Seq<FactModel> {
    s.filter(|f: FactModel| gc_candidate(s, f, cutoff))
}

/// The rows that a collection pass keeps.
pub open spec fn gc_survivors(s: Seq<FactModel>, cutoff: int) -> Seq<FactModel> {
    s.filter(|f: FactModel| !gc_candidate(s, f, cutoff))
}

/// Why a row is being collected.
#[derive(Debug, Clone, Copy, PartialEq, Eq, Structural)]
pub enum GcReason {
    /// The row was marked deprecated.
    Deprecated,
    /// Another row supersedes it.
    Superseded,
}

/// A row a collection pass would remove, with the reason.
#[derive(Debug, Clone)]
pub struct GcCandidate {
    /// Identifier of the row.
    pub id: u128,
    /// Path of the row.
    pub path: String,
    /// Why it is collectable.
    pub reason: GcReason,
    /// When the row was last touched.
    pub updated_at: i64,
}

/// Outcome of a collection pass.
#[derive(Debug, Clone)]
pub struct GcResult {
    /// Rows removed; zero on a dry run.
    pub deleted_count: usize,
    /// The rows that were, or would be, removed.
    pub candidates: Vec<GcCandidate>,
}

/// The candidate entry derived from a row.
pub open spec fn gc_cand_model(f: FactModel) -> (u128, Seq<char>, GcReason, i64) {
    (
        f.id,
        f.path,
        if f.status == Status::Deprecated {
            GcReason::Deprecated
        } else {
            GcReason::Superseded
        },
        f.updated_at,
    )
}

/// The view of a reported candidate.
pub open spec fn gc_cand_view(c: GcCandidate) -> (u128, Seq<char>, GcReason, i64) {
    (c.id, c.path@, c.reason, c.updated_at)
}

/// What a collection pass promises, for one clock reading.
pub open spec fn gc_post(
    before: Seq<FactModel>,
    after: Seq<FactModel>,
    res: GcResult,
    cands: Seq<GcCandidate>,
    retention_days: u32,
    dry_run: bool,
    now: i64,
) -> bool {
    let cutoff = gc_cutoff(now, retention_days);
    &&& cands.map_values(|c: GcCandidate| gc_cand_view(c)).to_multiset() == gc_candidates(
        before,
        cutoff,
    ).map_values(|f: FactModel| gc_cand_model(f)).to_multiset()
    &&& forall|a: int, b: int|
        0 <= a < b < cands.len() ==> (#[trigger] cands[a]).updated_at <= (
        #[trigger] cands[b]).updated_at
    &&& dry_run ==> after == before && res.deleted_count == 0
    &&& !dry_run ==> after == gc_survivors(before, cutoff) && res.deleted_count == cands.len()
}

/// Multiset equality survives mapping.
proof fn lemma_map_multiset<A, B>(s1: Seq<A>, s2: Seq<A>, g: spec_fn(A) -> B)
    requires
        s1.to_multiset() == s2.to_multiset(),
    ensures
        s1.map_values(g).to_multiset() == s2.map_values(g).to_multiset(),
    decreases s1.len(),
{
    broadcast use vstd::seq_lib::group_to_multiset_ensures;

    if s1.len() == 0 {
        assert(s1.to_multiset().len() == 0);
        assert(s2.to_multiset().len() == 0);
        assert(s2.len() == 0);
        assert(s1.map_values(g) =~= s2.map_values(g));
    } else {
        let x = s1.last();
        assert(s1.contains(x));
        assert(s1.to_multiset().count(x) > 0);
        assert(s2.to_multiset().count(x) > 0);
        assert(s2.contains(x));
        let k = choose|k: int| 0 <= k < s2.len() && s2[k] == x;
        let s1d = s1.drop_last();
        let s2d = s2.remove(k);
        assert(s1d.to_multiset() =~= s2d.to_multiset()) by {
            assert(s1 =~= s1d.push(x));
            assert(s1.to_multiset() == s1d.push(x).to_multiset());
            assert(s1d.push(x).to_multiset() == s1d.to_multiset().insert(x));
            assert(s2d.to_multiset() == s2.to_multiset().remove(s2[k]));
        }
        lemma_map_multiset(s1d, s2d, g);
        assert(s1.map_values(g) =~= s1d.map_values(g).push(g(x)));
        assert(s1.map_values(g).to_multiset() == s1d.map_values(g).to_multiset().insert(g(x)));
        assert(s2.map_values(g).remove(k) =~= s2d.map_values(g));
        assert(s2.map_values(g).remove(k).to_multiset() == s2.map_values(g).to_multiset().remove(
            s2.map_values(g)[k],
        ));
        assert(s2.map_values(g)[k] == g(x));
        assert(s2.map_values(g).to_multiset().contains(g(x))) by {
            assert(s2.map_values(g)[k] == g(x));
            assert(s2.map_values(g).contains(g(x)));
        }
        assert(s1.map_values(g).to_multiset() =~= s2.map_values(g).to_multiset()) by {
            broadcast use vstd::multiset::group_multiset_axioms;

        }
    }
}

/// Filtering preserves id uniqueness.
proof fn lemma_filter_unique_ids(s: Seq<FactModel>, p: spec_fn(FactModel) -> bool)
    requires
        unique_ids(s),
    ensures
        unique_ids(s.filter(p)),
    decreases s.len(),
{
    reveal(Seq::filter);
    broadcast use vstd::seq_lib::group_seq_properties;

    if s.len() > 0 {
        let d = s.drop_last();
        assert(unique_ids(d)) by {
            assert(forall|i: int| 0 <= i < d.len() ==> #[trigger] d[i] == s[i]);
        }
        lemma_filter_unique_ids(d, p);
        if p(s.last()) {
            let fd = d.filter(p);
            assert(s.filter(p) == fd.push(s.last()));
            assert forall|i: int, j: int| 0 <= i < j < fd.push(s.last()).len() implies (
            #[trigger] fd.push(s.last())[i]).id != (#[trigger] fd.push(s.last())[j]).id by {
                if j == fd.len() {
                    d.lemma_filter_contains_rev(p, fd[i]);
                    let w = choose|w: int| 0 <= w < d.len() && d[w] == fd[i];
                    assert(s[w] == fd[i]);
                    assert(s[w].id != s[s.len() - 1].id);
                }
            }
        }
    }
}

/// A child-path group and how many facts it holds.
#[derive(Debug, Clone)]
pub struct PathInfo {
    /// The grouped path: the parent prefix plus one further segment, or a
    /// full path with nothing below it.
    pub path: String,
    /// Number of active facts grouped under this path.
    pub fact_count: usize,
}

/// The scan prefix a parent denotes: `@` for the root forms, otherwise the
/// parent without trailing slashes, with one slash appended.
pub open spec fn listing_prefix(parent: Seq<char>) -> Seq<char> {
    if parent.len() == 0 || parent == seq!['/'] || parent == seq!['@'] {
        seq!['@']
    } else {
        crate::text::rtrim(parent, |c: char| c == '/') + seq!['/']
    }
}

/// A row that the listing considers: active, under the prefix.
pub open spec fn listing_matches(f: FactModel, prefix: Seq<char>) -> bool {
    f.status == Status::Active && crate::text::is_str_prefix(prefix, f.path)
}

/// The group a path falls under: the path cut at the first slash past the
/// prefix, or the whole path if none follows.
pub open spec fn group_of(path: Seq<char>, prefix: Seq<char>) -> Seq<char> {
    let rel = crate::text::first_such(path.skip(prefix.len() as int), |c: char| c == '/');
    if prefix.len() + rel < path.len() {
        path.take((prefix.len() + rel) as int)
    } else {
        path
    }
}

/// Whether some considered row falls under this group.
pub open spec fn is_group(s: Seq<FactModel>, prefix: Seq<char>, g: Seq<char>) -> bool {
    exists|i: int|
        0 <= i < s.len() && listing_matches(#[trigger] s[i], prefix) && group_of(
            s[i].path,
            prefix,
        ) == g
}

/// How many considered rows fall under this group.
pub open spec fn group_count(s: Seq<FactModel>, prefix: Seq<char>, g: Seq<char>) -> nat
    decreases s.len(),
{
    if s.len() == 0 {
        0
    } else {
        group_count(s.drop_last(), prefix, g) + (if listing_matches(s.last(), prefix)
            && group_of(s.last().path, prefix) == g {
            1 as nat
        } else {
            0 as nat
        })
    }
}

proof fn lemma_group_count_le(s: Seq<FactModel>, prefix: Seq<char>, g: Seq<char>)
    ensures
        group_count(s, prefix, g) <= s.len(),
    decreases s.len(),
{
    if s.len() > 0 {
        lemma_group_count_le(s.drop_last(), prefix, g);
    }
}

proof fn lemma_group_count_zero(s: Seq<FactModel>, prefix: Seq<char>, g: Seq<char>)
    requires
        !is_group(s, prefix, g),
    ensures
        group_count(s, prefix, g) == 0,
    decreases s.len(),
{
    if s.len() > 0 {
        let d = s.drop_last();
        assert(!is_group(d, prefix, g)) by {
            if is_group(d, prefix, g) {
                let w = choose|w: int|
                    0 <= w < d.len() && listing_matches(#[trigger] d[w], prefix) && group_of(
                        d[w].path,
                        prefix,
                    ) == g;
                assert(s[w] == d[w]);
                assert(is_group(s, prefix, g));
            }
        }
        lemma_group_count_zero(d, prefix, g);
        assert(!(listing_matches(s.last(), prefix) && group_of(s.last().path, prefix) == g)) by {
            if listing_matches(s.last(), prefix) && group_of(s.last().path, prefix) == g {
                assert(s[s.len() - 1] == s.last());
                assert(is_group(s, prefix, g));
            }
        }
    }
}

/// What one page of the listing promises: at most `limit` entries, strictly
/// ordered, all past the cursor, each a real group with its exact count, no
/// group skipped up to the last entry, every group reported when the page is
/// not full, and `has_more` exactly when groups remain past the page.
pub open spec fn is_page(
    s: Seq<FactModel>,
    prefix: Seq<char>,
    cursor: Seq<char>,
    limit: int,
    r: Seq<PathInfo>,
    has_more: bool,
) -> bool {
    &&& r.len() <= limit
    &&& forall|i: int, j: int|
        0 <= i < j < r.len() ==> crate::text::lex_lt(
            (#[trigger] r[i]).path@,
            (#[trigger] r[j]).path@,
        )
    &&& forall|i: int| 0 <= i < r.len() ==> crate::text::lex_lt(cursor, (#[trigger] r[i]).path@)
    &&& forall|i: int| 0 <= i < r.len() ==> is_group(s, prefix, (#[trigger] r[i]).path@)
    &&& forall|i: int|
        0 <= i < r.len() ==> (#[trigger] r[i]).fact_count == group_count(s, prefix, r[i].path@)
    &&& forall|g: Seq<char>|
        #[trigger] is_group(s, prefix, g) && crate::text::lex_lt(cursor, g) && r.len() > 0 && (
        crate::text::lex_lt(g, r[r.len() - 1].path@) || g == r[r.len() - 1].path@) ==> exists|
            i: int,
        | 0 <= i < r.len() && (#[trigger] r[i]).path@ == g
    &&& !has_more ==> forall|g: Seq<char>|
        #[trigger] is_group(s, prefix, g) && crate::text::lex_lt(cursor, g) ==> exists|i: int|
            0 <= i < r.len() && (#[trigger] r[i]).path@ == g
    &&& has_more ==> r.len() == limit && exists|g: Seq<char>|
        #[trigger] is_group(s, prefix, g) && crate::text::lex_lt(cursor, g) && (r.len() == 0
            || crate::text::lex_lt(r[r.len() - 1].path@, g))
}

/// Pagination is exhaustive: when a full page is followed by the page
/// fetched with the first page's last path as the cursor, the two pages
/// concatenate to exactly the page a larger limit would have returned — in
/// order, without gaps or duplicates, and with the same tail marker. Chained
/// from the start until `has_more` is false, the pages therefore reproduce
/// the complete listing.
pub proof fn lemma_pagination_exhaustive(
    s: Seq<FactModel>,
    prefix: Seq<char>,
    cursor: Seq<char>,
    limit1: int,
    p1: Seq<PathInfo>,
    limit2: int,
    p2: Seq<PathInfo>,
    hm2: bool,
)
    requires
        is_page(s, prefix, cursor, limit1, p1, true),
        p1.len() > 0,
        is_page(s, prefix, p1[p1.len() - 1].path@, limit2, p2, hm2),
    ensures
        is_page(s, prefix, cursor, p1.len() + p2.len() as int, p1 + p2, hm2),
{
    let last1 = p1[p1.len() - 1].path@;
    let c = p1 + p2;
    assert(c.len() == p1.len() + p2.len());
    assert(forall|i: int| 0 <= i < p1.len() ==> #[trigger] c[i] == p1[i]);
    assert(forall|i: int| p1.len() <= i < c.len() ==> #[trigger] c[i] == p2[i - p1.len()]);

    // strictly ordered
    assert forall|i: int, j: int| 0 <= i < j < c.len() implies crate::text::lex_lt(
        (#[trigger] c[i]).path@,
        (#[trigger] c[j]).path@,
    ) by {
        if j < p1.len() {
        } else if i >= p1.len() {
        } else {
            // i in p1, j in p2: go through the cursor of the second page
            assert(crate::text::lex_lt(last1, p2[j - p1.len()].path@));
            if i < p1.len() - 1 {
                assert(crate::text::lex_lt(p1[i].path@, last1));
                crate::text::lemma_lex_trans(p1[i].path@, last1, p2[j - p1.len()].path@);
            }
        }
    }

    // all past the original cursor
    assert forall|i: int| 0 <= i < c.len() implies crate::text::lex_lt(
        cursor,
        (#[trigger] c[i]).path@,
    ) by {
        if i >= p1.len() {
            assert(crate::text::lex_lt(cursor, last1));
            assert(crate::text::lex_lt(last1, p2[i - p1.len()].path@));
            crate::text::lemma_lex_trans(cursor, last1, p2[i - p1.len()].path@);
        }
    }

    // no gaps up to the combined last entry
    assert forall|g: Seq<char>|
        #[trigger] is_group(s, prefix, g) && crate::text::lex_lt(cursor, g) && c.len() > 0 && (
        crate::text::lex_lt(g, c[c.len() - 1].path@) || g == c[c.len() - 1].path@) implies exists|
        i: int,
    | 0 <= i < c.len() && (#[trigger] c[i]).path@ == g by {
        crate::text::lemma_lex_trichotomy(g, last1);
        if crate::text::lex_lt(g, last1) || g == last1 {
            assert(exists|i: int| 0 <= i < p1.len() && (#[trigger] p1[i]).path@ == g);
            let i = choose|i: int| 0 <= i < p1.len() && (#[trigger] p1[i]).path@ == g;
            assert(c[i].path@ == g);
        } else {
            assert(crate::text::lex_lt(last1, g));
            if p2.len() == 0 {
                assert(c[c.len() - 1] == p1[p1.len() - 1]);
                if g == c[c.len() - 1].path@ {
                    crate::text::lemma_lex_irrefl(g);
                    assert(false);
                } else {
                    crate::text::lemma_lex_trans(last1, g, last1);
                    crate::text::lemma_lex_irrefl(last1);
                    assert(false);
                }
            } else {
                assert(c[c.len() - 1] == p2[p2.len() - 1]);
                assert(exists|i: int| 0 <= i < p2.len() && (#[trigger] p2[i]).path@ == g);
                let i = choose|i: int| 0 <= i < p2.len() && (#[trigger] p2[i]).path@ == g;
                assert(c[p1.len() + i].path@ == g);
            }
        }
    }

    // complete when the second page was the last
    if !hm2 {
        assert forall|g: Seq<char>|
            #[trigger] is_group(s, prefix, g) && crate::text::lex_lt(cursor, g) implies exists|
            i: int,
        | 0 <= i < c.len() && (#[trigger] c[i]).path@ == g by {
            crate::text::lemma_lex_trichotomy(g, last1);
            if crate::text::lex_lt(g, last1) || g == last1 {
                let i = choose|i: int| 0 <= i < p1.len() && (#[trigger] p1[i]).path@ == g;
                assert(c[i].path@ == g);
            } else {
                assert(crate::text::lex_lt(last1, g));
                let i = choose|i: int| 0 <= i < p2.len() && (#[trigger] p2[i]).path@ == g;
                assert(c[p1.len() + i].path@ == g);
            }
        }
    }

    // a further page remains exactly when the second page said so
    if hm2 {
        assert(p2.len() == limit2);
        let g = choose|g: Seq<char>|
            #[trigger] is_group(s, prefix, g) && crate::text::lex_lt(last1, g) && (p2.len() == 0
                || crate::text::lex_lt(p2[p2.len() - 1].path@, g));
        assert(crate::text::lex_lt(cursor, last1));
        crate::text::lemma_lex_trans(cursor, last1, g);
        if p2.len() == 0 {
            assert(c[c.len() - 1] == p1[p1.len() - 1]);
        } else {
            assert(c[c.len() - 1] == p2[p2.len() - 1]);
        }
        assert(is_group(s, prefix, g) && crate::text::lex_lt(cursor, g) && (c.len() == 0
            || crate::text::lex_lt(c[c.len() - 1].path@, g)));
    }
}

/// An inserted fact reads back unchanged: looking its id up in the extended
/// store yields exactly the model that was appended.
pub proof fn lemma_insert_then_lookup(s: Seq<FactModel>, f: FactModel)
    requires
        !contains_id(s, f.id),
    ensures
        find_fact(s.push(f), f.id) == Some(f),
{
    assert forall|j: int| 0 <= j < s.len() implies (#[trigger] s.push(f)[j]).id != f.id by {
        assert(s.push(f)[j] == s[j]);
    }
    lemma_find_fact_at(s.push(f), f.id, s.len() as int);
}

/// A status transition touches nothing else: every row keeps its identity
/// and every field except `status` and `updated_at`, and rows with another
/// id are untouched entirely.
pub proof fn lemma_status_transition_preserves_fields(
    s: Seq<FactModel>,
    id: u128,
    status: Status,
    now: i64,
)
    ensures
        set_status(s, id, status, now).len() == s.len(),
        forall|i: int|
            0 <= i < s.len() ==> #[trigger] set_status(s, id, status, now)[i] == (FactModel {
                status: set_status(s, id, status, now)[i].status,
                updated_at: set_status(s, id, status, now)[i].updated_at,
                ..s[i]
            }),
        forall|i: int|
            0 <= i < s.len() && (#[trigger] s[i]).id != id ==> set_status(s, id, status, now)[i]
                == s[i],
{
}

/// The words of a search query: split on whitespace.
pub open spec fn query_tokens(q: Seq<char>) -> Seq<Seq<char>> {
    crate::text::split_on(q, |c: char| crate::text::is_ws_char(c))
}

/// The weighted score one token contributes to a fact: heavier on path and
/// title than on content, summary and tags.
pub open spec fn token_weight(f: FactModel, tok: Seq<char>) -> int {
    (if crate::text::has_token(f.path, tok) {
        10int
    } else {
        0
    }) + (if crate::text::has_token(f.title, tok) {
        5int
    } else {
        0
    }) + (if crate::text::has_token(f.content, tok) {
        1int
    } else {
        0
    }) + (if match f.summary {
        Some(s) => crate::text::has_token(s, tok),
        None => false,
    } {
        1int
    } else {
        0
    }) + (if exists|t: int| 0 <= t < f.tags.len() && crate::text::has_token(#[trigger] f.tags[t], tok) {
        1int
    } else {
        0
    })
}

/// A fact's relevance to a query: the sum of its tokens' weights. A fact
/// scores above zero exactly when it matches at least one query word.
pub open spec fn fact_score(f: FactModel, toks: Seq<Seq<char>>) -> int
    decreases toks.len(),
{
    if toks.len() == 0 {
        0
    } else {
        fact_score(f, toks.drop_last()) + token_weight(f, toks.last())
    }
}

proof fn lemma_fact_score_bounds(f: FactModel, toks: Seq<Seq<char>>)
    ensures
        0 <= fact_score(f, toks) <= 18 * toks.len(),
    decreases toks.len(),
{
    if toks.len() > 0 {
        lemma_fact_score_bounds(f, toks.drop_last());
    }
}

/// A row that a search for these tokens returns: active, with a positive
/// score.
pub open spec fn search_hit(f: FactModel, toks: Seq<Seq<char>>) -> bool {
    f.status == Status::Active && fact_score(f, toks) > 0
}

/// Rows ordered by descending score.
pub open spec fn score_sorted(fs: Seq<FactModel>, toks: Seq<Seq<char>>) -> bool {
    forall|a: int, b: int|
        0 <= a < b < fs.len() ==> fact_score(#[trigger] fs[a], toks) >= fact_score(
            #[trigger] fs[b],
            toks,
        )
}

/// The score of a fact against pre-split query words.
#[verifier::loop_isolation(false)]
#[verifier::rlimit(60)]
fn score_exec(f: &Fact, toks: &Vec<String>) -> (r: u128)
    requires
        forall|k: int| 0 <= k < toks@.len() ==> (#[trigger] toks@[k])@.len() >= 1,
    ensures
        r as int == fact_score(f@, toks@.map_values(|t: String| t@)),
        r <= 18 * toks@.len(),
{
    let ghost tv = toks@.map_values(|t: String| t@);
    let n = toks.len();
    proof {
        assert(tv.len() == n);
        assert(tv.take(0) =~= Seq::<Seq<char>>::empty());
    }
    let mut acc: u128 = 0;
    let mut t: usize = 0;
    while t < n
        invariant
            0 <= t <= n,
            n == toks@.len(),
            acc as int == fact_score(f@, tv.take(t as int)),
            acc <= 18 * t,
        decreases n - t,
    {
        let tok: &String = &toks[t];
        proof {
            assert(tok@ == tv[t as int]);
            assert(tok@.len() >= 1);
        }
        let mut w: u128 = 0;
        if crate::text::has_token_exec(f.path.as_str(), tok.as_str()) {
            w = w + 10;
        }
        if crate::text::has_token_exec(f.title.as_str(), tok.as_str()) {
            w = w + 5;
        }
        if crate::text::has_token_exec(f.content.as_str(), tok.as_str()) {
            w = w + 1;
        }
        let in_summary = match &f.summary {
            Some(s) => crate::text::has_token_exec(s.as_str(), tok.as_str()),
            None => false,
        };
        if in_summary {
            w = w + 1;
        }
        let m = f.tags.len();
        proof {
            assert(f@.tags.len() == m);
        }
        let mut any_tag = false;
        let mut q: usize = 0;
        while q < m && !any_tag
            invariant
                0 <= q <= m,
                m == f.tags@.len(),
                f@.tags.len() == m,
                !any_tag ==> forall|z: int|
                    0 <= z < q ==> !crate::text::has_token(#[trigger] f@.tags[z], tok@),
                any_tag ==> exists|z: int|
                    0 <= z < m && crate::text::has_token(#[trigger] f@.tags[z], tok@),
            decreases m - q,
        {
            let tg: &String = &f.tags[q];
            proof {
                assert(tg@ == f@.tags[q as int]);
            }
            if crate::text::has_token_exec(tg.as_str(), tok.as_str()) {
                any_tag = true;
            }
            q = q + 1;
        }
        if any_tag {
            w = w + 1;
        }
        proof {
            assert(w as int == token_weight(f@, tv[t as int]));
            assert(tv.take(t + 1).drop_last() =~= tv.take(t as int));
            assert(tv.take(t + 1).last() == tv[t as int]);
        }
        acc = acc + w;
        t = t + 1;
    }
    proof {
        assert(tv.take(n as int) =~= tv);
    }
    acc
}

/// Listing order for prefix scans: path ascending, then newest first.
pub open spec fn path_order_le(a: FactModel, b: FactModel) -> bool {
    crate::text::lex_lt(a.path, b.path) || (a.path == b.path && a.created_at >= b.created_at)
}

proof fn lemma_path_order_total(a: FactModel, b: FactModel)
    ensures
        path_order_le(a, b) || path_order_le(b, a),
{
    crate::text::lemma_lex_trichotomy(a.path, b.path);
}

proof fn lemma_path_order_trans(a: FactModel, b: FactModel, c: FactModel)
    requires
        path_order_le(a, b),
        path_order_le(b, c),
    ensures
        path_order_le(a, c),
{
    crate::text::lemma_lex_trichotomy(a.path, b.path);
    crate::text::lemma_lex_trichotomy(b.path, c.path);
    if crate::text::lex_lt(a.path, b.path) && crate::text::lex_lt(b.path, c.path) {
        crate::text::lemma_lex_trans(a.path, b.path, c.path);
    }
}

/// Decide the listing order executably.
fn path_order_le_exec(a: &Fact, b: &Fact) -> (r: bool)
    ensures
        r == path_order_le(a@, b@),
{
    if crate::text::str_lex_lt(a.path.as_str(), b.path.as_str()) {
        true
    } else if crate::text::str_eq(a.path.as_str(), b.path.as_str()) {
        a.created_at >= b.created_at
    } else {
        false
    }
}

/// Sort facts by path ascending, then newest first, preserving the multiset
/// of models.
#[verifier::loop_isolation(false)]
#[verifier::rlimit(100)]
fn sort_by_path_order(v: &mut Vec<Fact>)
    ensures
        final(v)@.len() == old(v)@.len(),
        final(v)@.map_values(|f: Fact| f@).to_multiset() == old(v)@.map_values(
            |f: Fact| f@,
        ).to_multiset(),
        forall|a: int, b: int|
            0 <= a < b < final(v)@.len() ==> path_order_le(
                (#[trigger] final(v)@[a])@,
                (#[trigger] final(v)@[b])@,
            ),
{
    let ghost vm = |f: Fact| f@;
    let n = v.len();
    if n == 0 {
        return;
    }
    let mut i: usize = 1;
    while i < n
        invariant
            1 <= i <= n,
            n == v@.len(),
            v@.map_values(vm).to_multiset() == old(v)@.map_values(vm).to_multiset(),
            forall|a: int, b: int|
                0 <= a < b < i ==> path_order_le((#[trigger] v@[a])@, (#[trigger] v@[b])@),
        decreases n - i,
    {
        let mut j: usize = i;
        while j > 0 && !path_order_le_exec(&v[j - 1], &v[j])
            invariant
                0 <= j <= i < n,
                n == v@.len(),
                v@.map_values(vm).to_multiset() == old(v)@.map_values(vm).to_multiset(),
                forall|a: int, b: int|
                    0 <= a < b <= i && b != j ==> path_order_le(
                        (#[trigger] v@[a])@,
                        (#[trigger] v@[b])@,
                    ),
                forall|b: int|
                    j < b <= i ==> path_order_le(v@[j as int]@, (#[trigger] v@[b])@),
            decreases j,
        {
            let ghost before = v@;
            let x = v[j - 1].clone();
            let y = v[j].clone();
            proof {
                assert(x@ == before[j - 1]@);
                assert(y@ == before[j as int]@);
                lemma_path_order_total(before[j - 1]@, before[j as int]@);
            }
            v.set(j - 1, y);
            v.set(j, x);
            proof {
                assert(v@.map_values(vm) =~= before.map_values(vm).update(
                    j - 1,
                    vm(before[j as int]),
                ).update(j as int, vm(before[j - 1])));
                lemma_swap_multiset(before.map_values(vm), j - 1, j as int);
            }
            j = j - 1;
        }
        proof {
            assert forall|a: int, b: int| 0 <= a < b <= i implies path_order_le(
                (#[trigger] v@[a])@,
                (#[trigger] v@[b])@,
            ) by {
                if b == j as int && j > 0 {
                    assert(path_order_le(v@[j - 1]@, v@[j as int]@));
                    if a < j - 1 {
                        assert(path_order_le(v@[a]@, v@[j - 1]@));
                        lemma_path_order_trans(v@[a]@, v@[j - 1]@, v@[j as int]@);
                    }
                }
            }
        }
        i = i + 1;
    }
}

/// The facts in reverse order.
#[verifier::loop_isolation(false)]
fn reverse_facts(v: Vec<Fact>) -> (r: Vec<Fact>)
    ensures
        r@.map_values(|f: Fact| f@) == v@.map_values(|f: Fact| f@).reverse(),
{
    let n = v.len();
    let mut out: Vec<Fact> = Vec::new();
    let mut i: usize = n;
    while i > 0
        invariant
            0 <= i <= n,
            n == v@.len(),
            out@.len() == n - i,
            forall|k: int| 0 <= k < out@.len() ==> (#[trigger] out@[k])@ == v@[n - 1 - k]@,
        decreases i,
    {
        i = i - 1;
        let f = v[i].clone();
        out.push(f);
    }
    proof {
        assert(out@.map_values(|f: Fact| f@) =~= v@.map_values(|f: Fact| f@).reverse());
    }
    out
}

/// Removing the one row that fails `p`, when every other row passes it,
/// yields the filtered sequence.
proof fn lemma_filter_removes_one(s: Seq<FactModel>, p: spec_fn(FactModel) -> bool, i: int)
    requires
        0 <= i < s.len(),
        !p(s[i]),
        forall|j: int| 0 <= j < s.len() && j != i ==> p(#[trigger] s[j]),
    ensures
        s.filter(p) == s.remove(i),
    decreases s.len(),
{
    reveal(Seq::filter);
    if s.len() == 0 {
    } else if i == s.len() - 1 {
        assert(s.drop_last() =~= s.remove(i));
        lemma_filter_all(s.drop_last(), p);
    } else {
        assert(p(s.last()));
        lemma_filter_removes_one(s.drop_last(), p, i);
        assert(s.remove(i) =~= s.drop_last().remove(i).push(s.last()));
        assert(s.filter(p) == s.drop_last().filter(p).push(s.last()));
    }
}

/// A sequence every row of which passes `p` filters to itself.
proof fn lemma_filter_all(s: Seq<FactModel>, p: spec_fn(FactModel) -> bool)
    requires
        forall|j: int| 0 <= j < s.len() ==> p(#[trigger] s[j]),
    ensures
        s.filter(p) == s,
    decreases s.len(),
{
    reveal(Seq::filter);
    if s.len() > 0 {
        lemma_filter_all(s.drop_last(), p);
        assert(s.filter(p) =~= s);
    }
}

} // verus!
