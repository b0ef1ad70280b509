//! A source that answers with scanned pages, each naming the domain it was found on.
use crate::sources::ResponseData;
use crate::subdomain_set::{lemma_take_one_more, SubdomainSet};
use vstd::prelude::*;

verus! {

/// The query URL for `host`.
pub open spec fn url_for(host: Seq<char>) -> Seq<char> {
    "https://urlscan.io/api/v1/search/?q=domain:"@ + host
}

/// Builds the query URL for `host`; the host is put in as it is.
pub fn build_url(host: &str) -> (r: String)
    ensures
        r@ == url_for(host@),
{
    let mut r = String::from_str("https://urlscan.io/api/v1/search/?q=domain:");
    r.append(host);
    r
}

/// The domain part of a scanned page.
pub struct UrlScanDomain {
    pub domain: String,
}

/// One scanned page of a response.
pub struct UrlScanPage {
    pub page: UrlScanDomain,
}

/// A decoded response of this source.
pub struct UrlScanResult {
    pub results: Vec<UrlScanPage>,
}

/// The domains of some scanned pages.
pub open spec fn domains(pages: Seq<UrlScanPage>) -> Seq<Seq<char>> {
    pages.map_values(|p: UrlScanPage| p.page.domain@)
}

impl ResponseData for UrlScanResult {
    open spec fn found(&self) -> Set<Seq<char>> {
        domains(self.results@).to_set()
    }

    fn subdomains(&self, map: &mut SubdomainSet) {
        let mut i: usize = 0;
        while i < self.results.len()
            invariant
                i <= self.results.len(),
                map@ == old(map)@.union(domains(self.results@).take(i as int).to_set()),
            decreases self.results.len() - i,
        {
            let name = self.results[i].page.domain.clone();
            map.insert(name);
            proof {
                lemma_take_one_more(domains(self.results@), i as int);
            }
            assert(map@ =~= old(map)@.union(domains(self.results@).take(i + 1).to_set()));
            i = i + 1;
        }
        assert(domains(self.results@).take(i as int) =~= domains(self.results@));
    }
}

/// The subdomains in a response of this source: none where it held nothing.
pub fn extract(resp: Option<UrlScanResult>) -> (r: SubdomainSet)
    ensures
        r@ == (match resp {
            Some(d) => d.found(),
            None => Set::<Seq<char>>::empty(),
        }),
{
    let mut results = SubdomainSet::new();
    match resp {
        Some(d) => {
            d.subdomains(&mut results);
            assert(results@ =~= d.found());
        },
        None => {},
    }
    results
}

} // verus!
