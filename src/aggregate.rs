//! Merging the findings of every source into one set, whatever some sources failed.
use crate::sources::{all_sources, query_url, Source};
use crate::subdomain_set::SubdomainSet;
use vstd::prelude::*;

verus! {

/// Why a source gave nothing.
#[derive(Clone, Copy, Debug, PartialEq, Eq, Structural)]
pub enum FetchError {
    /// The request failed: no connection, a timeout, or an HTTP error status.
    Transport,
    /// The body did not have the shape that the source answers in.
    Decode,
}

/// Why a run could not start.
#[derive(Clone, Copy, Debug, PartialEq, Eq, Structural)]
pub enum RunError {
    /// The host is empty.
    EmptyHost,
}

/// What one source gave: its subdomains, or why it failed.
pub type SourceResult = Result<SubdomainSet, FetchError>;

/// The subdomains that a result adds to the merge: none for a failure.
pub open spec fn contribution(r: SourceResult) -> Set<Seq<char>> {
    match r {
        Ok(s) => s@,
        Err(_) => Set::empty(),
    }
}

/// The union of the contributions of some results.
pub open spec fn merged(rs: Seq<SourceResult>) -> Set<Seq<char>> {
    Set::new(|x: Seq<char>| exists|i: int| 0 <= i < rs.len() && #[trigger] contribution(rs[i]).contains(x))
}

/// The query URLs of every source for `host`, in the order of `Source::all`; an
/// empty host is refused.
pub fn queries(host: &str) -> (r: Result<Vec<String>, RunError>)
    ensures
        host@.len() == 0 <==> r is Err,
        r matches Err(e) ==> e == RunError::EmptyHost,
        r matches Ok(urls) ==> urls.len() == all_sources().len() && forall|i: int|
            0 <= i < urls.len() ==> #[trigger] urls@[i]@ == query_url(all_sources()[i], host@),
{
    if host.is_empty() {
        return Err(RunError::EmptyHost);
    }
    let sources = Source::all();
    let mut urls: Vec<String> = Vec::new();
    let mut i: usize = 0;
    while i < sources.len()
        invariant
            sources@ == all_sources(),
            i <= sources.len(),
            urls.len() == i,
            forall|j: int| 0 <= j < i ==> #[trigger] urls@[j]@ == query_url(all_sources()[j], host@),
        decreases sources.len() - i,
    {
        urls.push(sources[i].build_query(host));
        i = i + 1;
    }
    Ok(urls)
}

/// Merges the subdomains of every result that succeeded; failed results add nothing
/// and never make the merge fail.
pub fn merge_results(results: &Vec<SourceResult>) -> (r: SubdomainSet)
    ensures
        r@ == merged(results@),
{
    let mut all = SubdomainSet::new();
    let mut i: usize = 0;
    while i < results.len()
        invariant
            i <= results.len(),
            all@ == merged(results@.take(i as int)),
        decreases results.len() - i,
    {
        let ghost before = all@;
        match &results[i] {
            Ok(s) => all.merge(s),
            Err(_) => {},
        }
        proof {
            let t = results@.take(i + 1);
            assert(t[i as int] == results@[i as int]);
            assert forall|x: Seq<char>| all@.contains(x) implies merged(t).contains(x) by {
                if !contribution(results@[i as int]).contains(x) {
                    let k = choose|k: int|
                        0 <= k < i && #[trigger] contribution(results@.take(i as int)[k]).contains(x);
                    assert(t[k] == results@.take(i as int)[k]);
                }
            }
            assert forall|x: Seq<char>| merged(t).contains(x) implies all@.contains(x) by {
                let k = choose|k: int| 0 <= k < t.len() && #[trigger] contribution(t[k]).contains(x);
                if k < i {
                    assert(t[k] == results@.take(i as int)[k]);
                }
            }
            assert(all@ =~= merged(t));
        }
        i = i + 1;
    }
    assert(results@.take(i as int) =~= results@);
    all
}

/// Merging two sets gives the same in either order, and merging three gives the
/// same however they are grouped.
pub proof fn lemma_merge_commutative_associative(
    a: Set<Seq<char>>,
    b: Set<Seq<char>>,
    c: Set<Seq<char>>,
)
    ensures
        a.union(b) == b.union(a),
        a.union(b).union(c) == a.union(b.union(c)),
{
    assert(a.union(b) =~= b.union(a));
    assert(a.union(b).union(c) =~= a.union(b.union(c)));
}

/// The merge of the sources' results does not depend on the order in which they
/// come: any reordering of the same results merges to the same set.
pub proof fn lemma_merge_any_order(rs: Seq<SourceResult>, qs: Seq<SourceResult>)
    requires
        rs.to_multiset() == qs.to_multiset(),
    ensures
        merged(rs) == merged(qs),
{
    broadcast use vstd::seq_lib::to_multiset_contains;

    assert forall|x: Seq<char>| merged(rs).contains(x) implies merged(qs).contains(x) by {
        let k = choose|k: int| 0 <= k < rs.len() && #[trigger] contribution(rs[k]).contains(x);
        assert(rs.contains(rs[k]));
        assert(rs.to_multiset().count(rs[k]) > 0);
        assert(qs.to_multiset().count(rs[k]) > 0);
        assert(qs.contains(rs[k]));
        let j = choose|j: int| 0 <= j < qs.len() && qs[j] == rs[k];
        assert(contribution(qs[j]).contains(x));
    }
    assert forall|x: Seq<char>| merged(qs).contains(x) implies merged(rs).contains(x) by {
        let k = choose|k: int| 0 <= k < qs.len() && #[trigger] contribution(qs[k]).contains(x);
        assert(qs.contains(qs[k]));
        assert(qs.to_multiset().count(qs[k]) > 0);
        assert(rs.to_multiset().count(qs[k]) > 0);
        assert(rs.contains(qs[k]));
        let j = choose|j: int| 0 <= j < rs.len() && rs[j] == qs[k];
        assert(contribution(rs[j]).contains(x));
    }
    assert(merged(rs) =~= merged(qs));
}

/// Merging a set with itself, as a second insert of the same names does, leaves it
/// unchanged; so does a second copy of the same result.
pub proof fn lemma_merge_idempotent(a: Set<Seq<char>>, rs: Seq<SourceResult>, r: SourceResult)
    ensures
        a.union(a) == a,
        merged(rs.push(r).push(r)) == merged(rs.push(r)),
{
    assert(a.union(a) =~= a);
    let p = rs.push(r);
    let pp = p.push(r);
    assert forall|x: Seq<char>| merged(pp).contains(x) implies merged(p).contains(x) by {
        let k = choose|k: int| 0 <= k < pp.len() && #[trigger] contribution(pp[k]).contains(x);
        if k == p.len() {
            assert(contribution(p[rs.len() as int]).contains(x));
        } else {
            assert(contribution(p[k]).contains(x));
        }
    }
    assert forall|x: Seq<char>| merged(p).contains(x) implies merged(pp).contains(x) by {
        let k = choose|k: int| 0 <= k < p.len() && #[trigger] contribution(p[k]).contains(x);
        assert(contribution(pp[k]).contains(x));
    }
    assert(merged(pp) =~= merged(p));
}

/// A result that contributes nothing (a source's empty answer, its "no results"
/// body, or a failure) leaves the merge of the others as it is.
pub proof fn lemma_empty_contribution(rs: Seq<SourceResult>, r: SourceResult)
    requires
        contribution(r) == Set::<Seq<char>>::empty(),
    ensures
        merged(rs.push(r)) == merged(rs),
{
    let p = rs.push(r);
    assert forall|x: Seq<char>| merged(p).contains(x) implies merged(rs).contains(x) by {
        let k = choose|k: int| 0 <= k < p.len() && #[trigger] contribution(p[k]).contains(x);
        assert(k < rs.len());
        assert(contribution(rs[k]).contains(x));
    }
    assert forall|x: Seq<char>| merged(rs).contains(x) implies merged(p).contains(x) by {
        let k = choose|k: int| 0 <= k < rs.len() && #[trigger] contribution(rs[k]).contains(x);
        assert(contribution(p[k]).contains(x));
    }
    assert(merged(p) =~= merged(rs));
}

/// A failed source takes nothing away from the others: every successful result is
/// in the merge, and the merge is that of the other results alone.
pub proof fn lemma_failure_isolated(rs: Seq<SourceResult>, i: int)
    requires
        0 <= i < rs.len(),
        rs[i] is Err,
    ensures
        merged(rs) == merged(rs.remove(i)),
        forall|j: int| 0 <= j < rs.len() && rs[j] is Ok ==> (#[trigger] rs[j])->Ok_0@.subset_of(
            merged(rs),
        ),
{
    let q = rs.remove(i);
    assert forall|x: Seq<char>| merged(rs).contains(x) implies merged(q).contains(x) by {
        let k = choose|k: int| 0 <= k < rs.len() && #[trigger] contribution(rs[k]).contains(x);
        if k < i {
            assert(contribution(q[k]).contains(x));
        } else {
            assert(k > i);
            assert(q[k - 1] == rs[k]);
            assert(contribution(q[k - 1]).contains(x));
        }
    }
    assert forall|x: Seq<char>| merged(q).contains(x) implies merged(rs).contains(x) by {
        let k = choose|k: int| 0 <= k < q.len() && #[trigger] contribution(q[k]).contains(x);
        if k < i {
            assert(contribution(rs[k]).contains(x));
        } else {
            assert(q[k] == rs[k + 1]);
            assert(contribution(rs[k + 1]).contains(x));
        }
    }
    assert(merged(rs) =~= merged(q));
    assert forall|j: int| 0 <= j < rs.len() && rs[j] is Ok implies (#[trigger] rs[j])->Ok_0@.subset_of(
        merged(rs),
    ) by {
        assert forall|x: Seq<char>| rs[j]->Ok_0@.contains(x) implies merged(rs).contains(x) by {
            assert(contribution(rs[j]).contains(x));
        }
    }
}

} // verus!
