//! The sources queried for subdomains, one module each.
pub mod hackertarget;
pub mod threatminer;
pub mod urlscan;

use crate::subdomain_set::SubdomainSet;
use vstd::prelude::*;

verus! {

/// A parsed response of one source: the subdomains it names, added to a set.
pub trait ResponseData {
    /// The subdomains that this response names.
    spec fn found(&self) -> Set<Seq<char>>;

    /// Adds every subdomain that this response names to `map`.
    fn subdomains(&self, map: &mut SubdomainSet)
        ensures
            final(map)@ == old(map)@.union(self.found()),
    ;
}

/// The sources that a run queries.
#[derive(Clone, Copy, Debug, PartialEq, Eq, Structural)]
pub enum Source {
    HackerTarget,
    Threatminer,
    UrlScan,
}

/// Every source, in the order a run dispatches them.
pub open spec fn all_sources() -> Seq<Source> {
    seq![Source::HackerTarget, Source::Threatminer, Source::UrlScan]
}

/// The query URL of `source` for `host`.
pub open spec fn query_url(source: Source, host: Seq<char>) -> Seq<char> {
    match source {
        Source::HackerTarget => hackertarget::url_for(host),
        Source::Threatminer => threatminer::url_for(host),
        Source::UrlScan => urlscan::url_for(host),
    }
}

impl Source {
    /// Every source, in the order a run dispatches them.
    pub fn all() -> (r: Vec<Source>)
        ensures
            r@ == all_sources(),
    {
        let r = vec![Source::HackerTarget, Source::Threatminer, Source::UrlScan];
        assert(r@ =~= all_sources());
        r
    }

    /// The query URL of this source for `host`.
    pub fn build_query(&self, host: &str) -> (r: String)
        ensures
            r@ == query_url(*self, host@),
    {
        match self {
            Source::HackerTarget => hackertarget::build_url(host),
            Source::Threatminer => threatminer::build_url(host),
            Source::UrlScan => urlscan::build_url(host),
        }
    }
}

/// Equal texts around a middle part: the whole is equal exactly when the middle is.
proof fn lemma_middle_determines(p: Seq<char>, a: Seq<char>, b: Seq<char>, q: Seq<char>)
    ensures
        (p + a + q == p + b + q) == (a == b),
{
    if p + a + q == p + b + q {
        assert((p + a + q).len() == p.len() + a.len() + q.len());
        assert((p + b + q).len() == p.len() + b.len() + q.len());
        assert(a.len() == b.len());
        assert forall|i: int| 0 <= i < a.len() implies a[i] == b[i] by {
            assert((p + a + q)[p.len() + i] == a[i]);
            assert((p + b + q)[p.len() + i] == b[i]);
        }
        assert(a =~= b);
    }
}

/// A query URL depends on the source and the host alone: the same host always
/// gives the same URL, and two different hosts never share one.
pub proof fn lemma_query_deterministic(source: Source, a: Seq<char>, b: Seq<char>)
    ensures
        (query_url(source, a) == query_url(source, b)) == (a == b),
{
    let e = Seq::<char>::empty();
    match source {
        Source::HackerTarget => {
            let p = "https://api.hackertarget.com/hostsearch/?q="@;
            assert(p + a + e =~= query_url(source, a));
            assert(p + b + e =~= query_url(source, b));
            lemma_middle_determines(p, a, b, e);
        },
        Source::Threatminer => {
            lemma_middle_determines(
                "https://api.threatminer.org/v2/domain.php?q="@,
                a,
                b,
                "&api=True&rt=5"@,
            );
        },
        Source::UrlScan => {
            let p = "https://urlscan.io/api/v1/search/?q=domain:"@;
            assert(p + a + e =~= query_url(source, a));
            assert(p + b + e =~= query_url(source, b));
            lemma_middle_determines(p, a, b, e);
        },
    }
}

} // verus!
