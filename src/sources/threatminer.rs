//! A source that answers with a flat list of subdomain names.
use crate::sources::ResponseData;
use crate::subdomain_set::{lemma_take_one_more, names, SubdomainSet};
use vstd::prelude::*;

verus! {

/// The query URL for `host`.
pub open spec fn url_for(host: Seq<char>) -> Seq<char> {
    "https://api.threatminer.org/v2/domain.php?q="@ + host + "&api=True&rt=5"@
}

/// Builds the query URL for `host`; the host is put in as it is.
pub fn build_url(host: &str) -> (r: String)
    ensures
        r@ == url_for(host@),
{
    let mut r = String::from_str("https://api.threatminer.org/v2/domain.php?q=");
    r.append(host);
    r.append("&api=True&rt=5");
    r
}

/// A decoded response of this source.
pub struct ThreatminerResult {
    pub results: Vec<String>,
}

impl ResponseData for ThreatminerResult {
    open spec fn found(&self) -> Set<Seq<char>> {
        names(self.results@).to_set()
    }

    fn subdomains(&self, map: &mut SubdomainSet) {
        let mut i: usize = 0;
        while i < self.results.len()
            invariant
                i <= self.results.len(),
                map@ == old(map)@.union(names(self.results@).take(i as int).to_set()),
            decreases self.results.len() - i,
        {
            let name = self.results[i].clone();
            map.insert(name);
            proof {
                lemma_take_one_more(names(self.results@), i as int);
            }
            assert(map@ =~= old(map)@.union(names(self.results@).take(i + 1).to_set()));
            i = i + 1;
        }
        assert(names(self.results@).take(i as int) =~= names(self.results@));
    }
}

/// The subdomains in a response of this source: none where it held nothing.
pub fn extract(resp: Option<ThreatminerResult>) -> (r: SubdomainSet)
    ensures
        r@ == (match resp {
            Some(d) => d.found(),
            None => Set::<Seq<char>>::empty(),
        }),
{
    let mut results = SubdomainSet::new();
    match resp {
        Some(d) => {
            d.subdomains(&mut results);
            assert(results@ =~= d.found());
        },
        None => {},
    }
    results
}

} // verus!
