//! A source that answers in plain text: one `subdomain,address` record per line.
use crate::sources::ResponseData;
use crate::subdomain_set::SubdomainSet;
use crate::text::{chars_of, index_of, lemma_index_of, lines, string_of, strip_cr};
use vstd::prelude::*;

verus! {

/// The body this source sends back in place of results.
pub const API_ERROR: &'static str = "error check your search parameter";

/// The query URL for `host`.
pub open spec fn url_for(host: Seq<char>) -> Seq<char> {
    "https://api.hackertarget.com/hostsearch/?q="@ + host
}

/// The field of a record before its first comma.
pub open spec fn first_field(line: Seq<char>) -> Seq<char> {
    line.take(index_of(line, ',') as int)
}

/// The first fields of some lines.
pub open spec fn first_fields(ls: Seq<Seq<char>>) -> Set<Seq<char>> {
    ls.map_values(|l: Seq<char>| first_field(l)).to_set()
}

/// The subdomains that a plain-text body names: the first field of each line.
pub open spec fn hostsearch_names(body: Seq<char>) -> Set<Seq<char>> {
    first_fields(lines(body))
}

/// One more line adds its first field.
proof fn lemma_first_fields_push(ls: Seq<Seq<char>>, l: Seq<char>)
    ensures
        first_fields(ls.push(l)) == first_fields(ls).insert(first_field(l)),
{
    broadcast use vstd::seq_lib::lemma_seq_contains_after_push;

    let f = |l: Seq<char>| first_field(l);
    assert(ls.push(l).map_values(f) =~= ls.map_values(f).push(f(l)));
    assert(first_fields(ls.push(l)) =~= first_fields(ls).insert(first_field(l)));
}

/// Builds the query URL for `host`; the host is put in as it is.
pub fn build_url(host: &str) -> (r: String)
    ensures
        r@ == url_for(host@),
{
    let mut r = String::from_str("https://api.hackertarget.com/hostsearch/?q=");
    r.append(host);
    r
}

/// The first field of `line[..m]`.
fn field_of_line(line: &Vec<char>, m: usize) -> (r: String)
    requires
        m <= line.len(),
    ensures
        r@ == first_field(line@.take(m as int)),
{
    let mut k: usize = 0;
    while k < m && line[k] != ','
        invariant
            k <= m <= line.len(),
            forall|i: int| 0 <= i < k ==> line@[i] != ',',
        decreases m - k,
    {
        k = k + 1;
    }
    proof {
        lemma_index_of(line@.take(m as int), ',', k as int);
    }
    assert(line@.subrange(0, k as int) =~= first_field(line@.take(m as int)));
    string_of(line, 0, k)
}

/// The length of `line` without a final carriage return.
fn stripped_len(line: &Vec<char>) -> (m: usize)
    ensures
        m <= line.len(),
        line@.take(m as int) == strip_cr(line@),
{
    let m: usize = line.len();
    if m > 0 && line[m - 1] == '\r' {
        assert(line@.take(m - 1) =~= strip_cr(line@));
        m - 1
    } else {
        assert(line@.take(m as int) =~= strip_cr(line@));
        m
    }
}

/// The lines of `t + rest`, where `t` holds no line break and `rest` starts with one.
proof fn lemma_lines_at_break(t: Seq<char>, rest: Seq<char>)
    requires
        !t.contains('\n'),
        rest.len() > 0,
        rest[0] == '\n',
    ensures
        lines(t + rest) == seq![strip_cr(t)] + lines(rest.drop_first()),
{
    let s = t + rest;
    assert forall|i: int| 0 <= i < t.len() implies s[i] != '\n' by {
        assert(s[i] == t[i]);
    }
    lemma_index_of(s, '\n', t.len() as int);
    assert(s.take(t.len() as int) =~= t);
    assert(s.skip(t.len() as int + 1) =~= rest.drop_first());
}

/// The lines of a text with no line break.
proof fn lemma_lines_last(t: Seq<char>)
    requires
        !t.contains('\n'),
    ensures
        lines(t) == (if t.len() == 0 {
            Seq::<Seq<char>>::empty()
        } else {
            seq![t]
        }),
{
    if t.len() > 0 {
        lemma_index_of(t, '\n', t.len() as int);
    }
}

/// A plain-text response of this source.
pub struct HackerTarget {
    pub items: String,
}

impl ResponseData for HackerTarget {
    open spec fn found(&self) -> Set<Seq<char>> {
        hostsearch_names(self.items@)
    }

    fn subdomains(&self, map: &mut SubdomainSet) {
        let cs = chars_of(self.items.as_str());
        let ghost s = cs@;
        let ghost mut done: Seq<Seq<char>> = Seq::empty();
        let mut line: Vec<char> = Vec::new();
        let mut i: usize = 0;
        assert(line@ + s.skip(0) =~= s);
        assert(done + lines(s) =~= lines(s));
        assert(old(map)@.union(first_fields(done)) =~= old(map)@);
        while i < cs.len()
            invariant
                s == cs@,
                s == self.items@,
                i <= cs.len(),
                !line@.contains('\n'),
                lines(s) == done + lines(line@ + s.skip(i as int)),
                map@ == old(map)@.union(first_fields(done)),
            decreases cs.len() - i,
        {
            let c = cs[i];
            if c == '\n' {
                proof {
                    assert(s.skip(i as int)[0] == '\n');
                    lemma_lines_at_break(line@, s.skip(i as int));
                    assert(s.skip(i as int).drop_first() =~= s.skip(i + 1));
                    assert(done + (seq![strip_cr(line@)] + lines(s.skip(i + 1))) =~= done.push(
                        strip_cr(line@),
                    ) + lines(s.skip(i + 1)));
                    lemma_first_fields_push(done, strip_cr(line@));
                }
                let m = stripped_len(&line);
                let f = field_of_line(&line, m);
                map.insert(f);
                proof {
                    done = done.push(strip_cr(line@));
                    assert(map@ =~= old(map)@.union(first_fields(done)));
                }
                line = Vec::new();
                assert(line@ + s.skip(i + 1) =~= s.skip(i + 1));
            } else {
                let ghost before = line@;
                line.push(c);
                proof {
                    assert(line@ + s.skip(i + 1) =~= before + s.skip(i as int));
                    assert forall|j: int| 0 <= j < line@.len() implies line@[j] != '\n' by {
                        if j < before.len() {
                            assert(line@[j] == before[j]);
                        }
                    }
                }
            }
            i = i + 1;
        }
        proof {
            assert(line@ + s.skip(i as int) =~= line@);
            lemma_lines_last(line@);
        }
        if line.len() > 0 {
            let f = field_of_line(&line, line.len());
            assert(line@.take(line@.len() as int) =~= line@);
            proof {
                assert(lines(s) =~= done.push(line@));
                lemma_first_fields_push(done, line@);
            }
            map.insert(f);
        } else {
            assert(lines(s) =~= done);
        }
        assert(map@ =~= old(map)@.union(self.found()));
    }
}

/// The subdomains in a body of this source: none where the body is the error
/// sentinel, else the first field of each line.
pub fn extract(resp: String) -> (r: SubdomainSet)
    ensures
        r@ == (if resp@ == API_ERROR@ {
            Set::<Seq<char>>::empty()
        } else {
            hostsearch_names(resp@)
        }),
{
    let mut results = SubdomainSet::new();
    let sentinel = String::from_str(API_ERROR);
    if resp != sentinel {
        let d = HackerTarget { items: resp };
        d.subdomains(&mut results);
        assert(results@ =~= hostsearch_names(d.items@));
    }
    results
}

} // verus!
