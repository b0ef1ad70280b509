use subenum::aggregate::{merge_results, queries, FetchError, RunError, SourceResult};
use subenum::sources::hackertarget::{self, HackerTarget};
use subenum::sources::threatminer::{self, ThreatminerResult};
use subenum::sources::urlscan::{self, UrlScanDomain, UrlScanPage, UrlScanResult};
use subenum::sources::{ResponseData, Source};
use subenum::subdomain_set::SubdomainSet;

fn sorted(set: &SubdomainSet) -> Vec<String> {
    let mut v = set.to_vec();
    v.sort();
    v
}

fn set_of(items: &[&str]) -> SubdomainSet {
    let mut s = SubdomainSet::new();
    for i in items {
        s.insert(i.to_string());
    }
    s
}

fn strings(items: &[&str]) -> Vec<String> {
    items.iter().map(|s| s.to_string()).collect()
}

#[test]
fn threatminer_url_builder() {
    let correct_uri = "https://api.threatminer.org/v2/domain.php?q=hackerone.com&api=True&rt=5";
    assert_eq!(correct_uri, threatminer::build_url("hackerone.com"));
}

#[test]
fn urlscan_url_builder() {
    let correct_uri = "https://urlscan.io/api/v1/search/?q=domain:hackerone.com";
    assert_eq!(correct_uri, urlscan::build_url("hackerone.com"));
}

#[test]
fn hackertarget_url_builder() {
    assert_eq!(
        "https://api.hackertarget.com/hostsearch/?q=hackerone.com",
        hackertarget::build_url("hackerone.com")
    );
}

#[test]
fn build_query_is_deterministic() {
    for s in Source::all() {
        assert_eq!(s.build_query("example.com"), s.build_query("example.com"));
        assert_ne!(s.build_query("example.com"), s.build_query("example.org"));
    }
    assert_eq!(
        Source::Threatminer.build_query("hackerone.com"),
        threatminer::build_url("hackerone.com")
    );
}

#[test]
fn queries_for_every_source() {
    let urls = queries("example.com").unwrap();
    assert_eq!(
        urls,
        strings(&[
            "https://api.hackertarget.com/hostsearch/?q=example.com",
            "https://api.threatminer.org/v2/domain.php?q=example.com&api=True&rt=5",
            "https://urlscan.io/api/v1/search/?q=domain:example.com",
        ])
    );
}

#[test]
fn queries_refuse_empty_host() {
    assert!(matches!(queries(""), Err(RunError::EmptyHost)));
}

#[test]
fn text_source_extracts_first_fields() {
    let r = hackertarget::extract("a.example.com,1.2.3.4\nb.example.com,5.6.7.8".to_string());
    assert_eq!(sorted(&r), strings(&["a.example.com", "b.example.com"]));
}

#[test]
fn text_source_sentinel_gives_nothing() {
    let r = hackertarget::extract("error check your search parameter".to_string());
    assert_eq!(r.len(), 0);
}

#[test]
fn text_source_line_endings() {
    let r = hackertarget::extract("a.example.com,1\r\nb.example.com\r\nc.example.com,2\n".to_string());
    assert_eq!(
        sorted(&r),
        strings(&["a.example.com", "b.example.com", "c.example.com"])
    );
}

#[test]
fn text_source_duplicates_and_empty_body() {
    let r = hackertarget::extract("x.example.com,1\nx.example.com,2".to_string());
    assert_eq!(sorted(&r), strings(&["x.example.com"]));
    assert_eq!(hackertarget::extract(String::new()).len(), 0);
}

#[test]
fn text_source_adds_to_existing_set() {
    let mut set = set_of(&["old.example.com"]);
    HackerTarget { items: "new.example.com,1".to_string() }.subdomains(&mut set);
    assert_eq!(sorted(&set), strings(&["new.example.com", "old.example.com"]));
}

#[test]
fn flat_json_source_collapses_duplicates() {
    let d = ThreatminerResult {
        results: strings(&["x.example.com", "y.example.com", "x.example.com"]),
    };
    let r = threatminer::extract(Some(d));
    assert_eq!(sorted(&r), strings(&["x.example.com", "y.example.com"]));
}

#[test]
fn flat_json_source_empty_answers() {
    assert_eq!(threatminer::extract(None).len(), 0);
    assert_eq!(threatminer::extract(Some(ThreatminerResult { results: vec![] })).len(), 0);
}

#[test]
fn nested_json_source_extracts_domains() {
    let d = UrlScanResult {
        results: vec![UrlScanPage {
            page: UrlScanDomain { domain: "z.example.com".to_string() },
        }],
    };
    let r = urlscan::extract(Some(d));
    assert_eq!(sorted(&r), strings(&["z.example.com"]));
}

#[test]
fn nested_json_source_empty_answers() {
    assert_eq!(urlscan::extract(None).len(), 0);
    assert_eq!(urlscan::extract(Some(UrlScanResult { results: vec![] })).len(), 0);
}

#[test]
fn aggregate_survives_transport_failure() {
    let results: Vec<SourceResult> = vec![
        Ok(set_of(&["p.example.com"])),
        Err(FetchError::Transport),
        Ok(set_of(&["q.example.com"])),
    ];
    let r = merge_results(&results);
    assert_eq!(sorted(&r), strings(&["p.example.com", "q.example.com"]));
}

#[test]
fn aggregate_all_failing_is_empty() {
    let results: Vec<SourceResult> = vec![
        Ok(hackertarget::extract("error check your search parameter".to_string())),
        Err(FetchError::Decode),
        Err(FetchError::Transport),
    ];
    assert_eq!(merge_results(&results).len(), 0);
    assert_eq!(merge_results(&vec![]).len(), 0);
}

#[test]
fn merge_in_any_order() {
    let a = || Ok(set_of(&["a.example.com", "b.example.com"]));
    let b = || Ok(set_of(&["b.example.com", "c.example.com"]));
    let one: Vec<SourceResult> = vec![a(), Err(FetchError::Transport), b()];
    let two: Vec<SourceResult> = vec![b(), a(), Err(FetchError::Transport)];
    assert_eq!(sorted(&merge_results(&one)), sorted(&merge_results(&two)));
    assert_eq!(
        sorted(&merge_results(&one)),
        strings(&["a.example.com", "b.example.com", "c.example.com"])
    );
}

#[test]
fn merge_with_itself_is_unchanged() {
    let mut s = set_of(&["a.example.com", "b.example.com"]);
    let copy = set_of(&["a.example.com", "b.example.com"]);
    s.merge(&copy);
    assert_eq!(sorted(&s), strings(&["a.example.com", "b.example.com"]));
    assert!(!s.insert("a.example.com".to_string()));
    assert_eq!(s.len(), 2);
}

#[test]
fn set_membership() {
    let mut s = SubdomainSet::new();
    assert!(s.insert("A.example.com".to_string()));
    assert!(s.contains(&"A.example.com".to_string()));
    assert!(!s.contains(&"a.example.com".to_string()));
    assert!(s.insert("a.example.com".to_string()));
    assert_eq!(s.len(), 2);
}
