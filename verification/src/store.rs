//! Where hidden services keep their sites, and what they answer.
//!
//! The paths of a store's files are text, with `/` between components, and start at the
//! store's root, which is wherever the machine keeps the user's files.

use crate::clock;
use crate::errors;
use crate::errors::Error;
use crate::pages;
use crate::pages::not_found_html;
use crate::text;
use crate::text::{chars_of, has_at, hex_digit_value, join2, join3, lower_char, skip_leading, skip_trailing, split_ranges, str_eq, str_starts_with, string_of, trim_range};
use vstd::prelude::*;
use vstd::string::*;
use vstd::utf8::*;

verus! {

/// `path` with `part` behind it: `part` itself when it is absolute, else both with
/// one separator between them.
pub open spec fn joined(path: Seq<char>, part: Seq<char>) -> Seq<char> {
    if part.len() > 0 && part[0] == '/' {
        part
    } else if path.len() == 0 || path.last() == '/' {
        path + part
    } else {
        path.push('/') + part
    }
}

/// Joins a path and a part.
pub fn join_path(path: &str, part: &str) -> (r: String)
    ensures
        r@ == joined(path@, part@),
{
    let p: Vec<char> = chars_of(path);
    let q: Vec<char> = chars_of(part);
    if q.len() > 0 && q[0] == '/' {
        return part.to_owned();
    }
    let mut r: String = path.to_owned();
    if p.len() > 0 && p[p.len() - 1] != '/' {
        r.push('/');
    }
    r.append(part);
    r
}

/// `std::path::PathBuf`, a path as the machine has it, which need not be text.
#[verifier::external_type_specification]
#[verifier::external_body]
pub struct ExPathBuf(std::path::PathBuf);

/// `std::path::PathBuf::clone`: the same path.
pub assume_specification[ <std::path::PathBuf as std::clone::Clone>::clone ](
    path: &std::path::PathBuf,
) -> (r: std::path::PathBuf)
    ensures
        r == *path,
;

/// The path that is written so.
pub uninterp spec fn path_of(text: Seq<char>) -> std::path::PathBuf;

/// The path `base` with the part `part` behind it.
pub uninterp spec fn below(base: std::path::PathBuf, part: Seq<char>) -> std::path::PathBuf;

/// `std::path::PathBuf::from` a text: the path that is written so.
#[verifier::external_body]
fn path_from(text: &str) -> (r: std::path::PathBuf)
    ensures
        r == path_of(text@),
{
    std::path::PathBuf::from(text)
}

/// `std::path::Path::join`: the path with the part behind it.
#[verifier::external_body]
fn join_below(base: &std::path::PathBuf, part: &str) -> (r: std::path::PathBuf)
    ensures
        r == below(*base, part@),
{
    base.join(part)
}

/// `dirs::home_dir`: the user's home, if there is one. It depends on the machine.
#[verifier::external_body]
fn home_dir() -> (r: Option<std::path::PathBuf>) {
    dirs::home_dir()
}

/// `home` is the home that the machine names: what [`home_dir`] gives.
pub closed spec fn is_home(home: Option<std::path::PathBuf>) -> bool {
    call_ensures(home_dir, (), home)
}

/// The directory of the node's files under the home `home`, or under the current
/// directory.
pub open spec fn node_dir(home: Option<std::path::PathBuf>) -> std::path::PathBuf {
    below(
        match home {
            Some(h) => h,
            None => path_of("."@),
        },
        ".phinet"@,
    )
}

/// The directory of the node's files.
pub fn phinet_dir() -> (r: std::path::PathBuf)
    ensures
        exists|home: Option<std::path::PathBuf>| is_home(home) && r == #[trigger] node_dir(home),
{
    let home: Option<std::path::PathBuf> = home_dir();
    phinet_dir_in(home)
}

/// The directory of the node's files under the home `home`.
pub fn phinet_dir_in(home: Option<std::path::PathBuf>) -> (r: std::path::PathBuf)
    ensures
        r == node_dir(home),
{
    match home {
        Some(h) => join_below(&h, ".phinet"),
        None => join_below(&path_from("."), ".phinet"),
    }
}

/// The directory of the sites.
pub fn sites_dir() -> (r: std::path::PathBuf)
    ensures
        exists|home: Option<std::path::PathBuf>| is_home(home) && r == below(#[trigger] node_dir(home), "sites"@),
{
    let d: std::path::PathBuf = phinet_dir();
    join_below(&d, "sites")
}

/// The file of the node's identity.
pub fn identity_path() -> (r: std::path::PathBuf)
    ensures
        exists|home: Option<std::path::PathBuf>|
            is_home(home) && r == below(#[trigger] node_dir(home), "identity.json"@),
{
    let d: std::path::PathBuf = phinet_dir();
    join_below(&d, "identity.json")
}

/// A character that a file name may hold.
pub open spec fn safe_char(c: char) -> bool {
    'A' <= c <= 'Z' || 'a' <= c <= 'z' || '0' <= c <= '9' || c == '.' || c == '_' || c == '-'
}

/// `name` with every other character replaced by `_`.
pub open spec fn sanitized(name: Seq<char>) -> Seq<char> {
    name.map_values(|c: char| if safe_char(c) { c } else { '_' })
}

/// The file name of a service's identity.
pub open spec fn identity_file(name: Seq<char>) -> Seq<char> {
    "hs_identity_"@ + sanitized(name) + ".json"@
}

/// A sanitized name has no separator: it cannot leave the directory.
pub proof fn law_identity_files_stay_in_their_directory(name: Seq<char>, i: int)
    requires
        0 <= i < sanitized(name).len(),
    ensures
        safe_char(sanitized(name)[i]),
        sanitized(name)[i] != '/',
{
}

/// Replaces what a file name may not hold.
fn sanitize(name: &str) -> (r: String)
    ensures
        r@ == sanitized(name@),
{
    let v: Vec<char> = chars_of(name);
    let mut r: String = String::new();
    let mut i: usize = 0;
    while i < v.len()
        invariant
            i <= v@.len(),
            r@ == sanitized(v@.take(i as int)),
        decreases v@.len() - i,
    {
        let c: char = v[i];
        if ('A' <= c && c <= 'Z') || ('a' <= c && c <= 'z') || ('0' <= c && c <= '9') || c == '.'
            || c == '_' || c == '-' {
            r.push(c);
        } else {
            r.push('_');
        }
        i += 1;
        assert(r@ =~= sanitized(v@.take(i as int)));
    }
    assert(v@.take(i as int) =~= v@);
    r
}

/// The file of a service's identity.
pub fn hs_identity_path(service_name: &str) -> (r: std::path::PathBuf)
    ensures
        exists|home: Option<std::path::PathBuf>|
            is_home(home) && r == below(#[trigger] node_dir(home), identity_file(service_name@)),
{
    let d: std::path::PathBuf = phinet_dir();
    let s: String = sanitize(service_name);
    let f: String = join3("hs_identity_", s.as_str(), ".json");
    join_below(&d, f.as_str())
}

/// What is stored of a service.
#[derive(Debug, Clone)]
pub struct SiteMeta {
    pub name: String,
    pub hs_id: String,
    pub nonce_hex: String,
    /// When the service was created, in Unix seconds.
    pub created: u64,
}

impl SiteStore {
    /// The metadata of a service that is created now.
    pub fn create_service(&self, hs_id: &str, name: &str, nonce_hex: &str) -> (r: SiteMeta)
        ensures
            r.hs_id@ == hs_id@,
            r.name@ == name@,
            r.nonce_hex@ == nonce_hex@,
            clock::is_now(r.created),
    {
        SiteMeta {
            name: name.to_owned(),
            hs_id: hs_id.to_owned(),
            nonce_hex: nonce_hex.to_owned(),
            created: clock::now(),
        }
    }
}

/// The newest services come first.
pub open spec fn newest_first(s: Seq<SiteMeta>) -> bool {
    forall|i: int, j: int| 0 <= i < j < s.len() ==> (#[trigger] s[i]).created >= (#[trigger] s[j]).created
}

/// The services of `s` that were created at the time `t`, in order.
pub open spec fn created_at(s: Seq<SiteMeta>, t: u64) -> Seq<SiteMeta> {
    s.filter(|m: SiteMeta| m.created == t)
}

proof fn lemma_none_kept<A>(s: Seq<A>, keep: spec_fn(A) -> bool)
    requires
        forall|i: int| 0 <= i < s.len() ==> !keep(#[trigger] s[i]),
    ensures
        s.filter(keep) == Seq::<A>::empty(),
    decreases s.len(),
{
    reveal(Seq::filter);
    if s.len() > 0 {
        lemma_none_kept(s.drop_last(), keep);
    }
}

/// What is put before the first older one comes behind those of its own time.
proof fn lemma_put_in_order(o: Seq<SiteMeta>, p: int, m: SiteMeta, t: u64)
    requires
        newest_first(o),
        0 <= p <= o.len(),
        p < o.len() ==> o[p].created < m.created,
    ensures
        created_at(o.insert(p, m), t) == if m.created == t {
            created_at(o, t).push(m)
        } else {
            created_at(o, t)
        },
{
    let keep = |x: SiteMeta| x.created == t;
    let (a, b) = (o.take(p), o.skip(p));
    assert(o =~= a + b);
    assert(o.insert(p, m) =~= a.push(m) + b);
    Seq::filter_distributes_over_add(a, b, keep);
    Seq::filter_distributes_over_add(a.push(m), b, keep);
    assert(a.push(m).filter(keep) == if keep(m) {
        a.filter(keep).push(m)
    } else {
        a.filter(keep)
    }) by {
        reveal(Seq::filter);
        assert(a.push(m).drop_last() =~= a);
    }
    if m.created == t {
        assert forall|i: int| 0 <= i < b.len() implies !keep(#[trigger] b[i]) by {
            assert(b[i] == o[p + i]);
            if i > 0 {
                assert(o[p].created >= o[p + i].created);
            }
        }
        lemma_none_kept(b, keep);
        assert(a.filter(keep).push(m) + Seq::<SiteMeta>::empty() =~= (a.filter(keep) + Seq::<SiteMeta>::empty()).push(
            m,
        ));
    }
}

impl SiteStore {
    /// Orders services by age, the newest first; those of one time stay in order.
    pub fn list_services(&self, metas: Vec<SiteMeta>) -> (r: Vec<SiteMeta>)
        ensures
            newest_first(r@),
            r@.to_multiset() == metas@.to_multiset(),
            forall|t: u64| #[trigger] created_at(r@, t) == created_at(metas@, t),
    {
        let ghost start = metas@;
        let mut rest: Vec<SiteMeta> = metas;
        let ghost all = rest@.to_multiset();
        let mut out: Vec<SiteMeta> = Vec::new();
        proof {
            out@.to_multiset_ensures();
            assert(out@.to_multiset() =~= vstd::multiset::Multiset::empty());
            assert(all =~= out@.to_multiset().add(rest@.to_multiset()));
        }
        assert(start.take(0) =~= out@);
        while rest.len() > 0
            invariant
                newest_first(out@),
                rest@.len() <= start.len(),
                rest@ == start.skip(start.len() - rest@.len()),
                forall|t: u64| #[trigger]
                    created_at(out@, t) == created_at(start.take(start.len() - rest@.len()), t),
                all == out@.to_multiset().add(rest@.to_multiset()),
            decreases rest@.len(),
        {
            let ghost r0 = rest@;
            let ghost o0 = out@;
            let m: SiteMeta = rest.remove(0);
            let ghost g = m;
            let mut p: usize = 0;
            while p < out.len() && out[p].created >= m.created
                invariant
                    p <= out@.len(),
                    forall|k: int| 0 <= k < p ==> (#[trigger] out@[k]).created >= m.created,
                decreases out@.len() - p,
            {
                p += 1;
            }
            out.insert(p, m);
            proof {
                assert forall|i: int, j: int| 0 <= i < j < out@.len() implies (#[trigger]
                out@[i]).created >= (#[trigger] out@[j]).created by {
                    let x = if i < p { i } else { i - 1 };
                    let y = if j < p { j } else { j - 1 };
                    assert(i != p ==> out@[i] == o0[x]);
                    assert(j != p ==> out@[j] == o0[y]);
                    if i == p && p < o0.len() {
                        assert(o0[p as int].created >= o0[y].created);
                    }
                }
                r0.to_multiset_ensures();
                o0.to_multiset_ensures();
                assert(r0.remove(0) =~= rest@);
                assert(rest@.to_multiset() =~= r0.to_multiset().remove(g));
                assert(r0.to_multiset().contains(g)) by {
                    assert(r0.contains(r0[0]));
                }
                assert(out@ =~= o0.insert(p as int, g));
                let done = start.take(start.len() - r0.len());
                let more = start.take(start.len() - rest@.len());
                assert(g == start[start.len() - r0.len()]);
                assert(more =~= done.push(g));
                assert forall|t: u64| #[trigger] created_at(out@, t) == created_at(more, t) by {
                    lemma_put_in_order(o0, p as int, g, t);
                    assert(created_at(o0, t) == created_at(done, t));
                    assert(created_at(more, t) == if g.created == t {
                        created_at(done, t).push(g)
                    } else {
                        created_at(done, t)
                    }) by {
                        reveal(Seq::filter);
                        assert(more.drop_last() =~= done);
                    }
                }
                assert(rest@ =~= start.skip(start.len() - rest@.len()));
                out@.to_multiset_ensures();
                assert(out@.remove(p as int) =~= o0);
                assert(out@.to_multiset().contains(g)) by {
                    assert(out@.contains(out@[p as int]));
                }
                assert(out@.to_multiset() =~= o0.to_multiset().insert(g));
                assert(all =~= out@.to_multiset().add(rest@.to_multiset()));
            }
        }
        proof {
            rest@.to_multiset_ensures();
            assert(rest@.to_multiset() =~= vstd::multiset::Multiset::empty());
            assert(all =~= out@.to_multiset());
            assert(start.take(start.len() - rest@.len()) =~= start);
        }
        out
    }
}

/// A component of a path that `resolve` keeps.
pub open spec fn kept_component(p: Seq<char>) -> bool {
    p.len() > 0 && p != ".."@
}

/// `www` followed by the kept components of `parts`.
pub open spec fn descended(www: Seq<char>, parts: Seq<Seq<char>>) -> Seq<char>
    decreases parts.len(),
{
    if parts.len() == 0 {
        www
    } else if kept_component(parts.last()) {
        joined(descended(www, parts.drop_last()), parts.last())
    } else {
        descended(www, parts.drop_last())
    }
}

/// The file under `www` that a URL path names.
pub open spec fn resolved(www: Seq<char>, url: Seq<char>) -> Seq<char> {
    let rel = text::without_leading(url, '/');
    descended(www, text::split_on(if rel.len() == 0 { "index.html"@ } else { rel }, '/'))
}

/// `path` is `www` or lies below it, and no component behind `www` leads upwards.
pub open spec fn lies_below(path: Seq<char>, www: Seq<char>) -> bool
    decreases path.len(),
{
    path == www || exists|parent: Seq<char>, part: Seq<char>|
        parent.len() < path.len() && path == #[trigger] joined(parent, part) && kept_component(part)
            && !part.contains('/') && lies_below(parent, www)
}

proof fn lemma_split_has_no_separator(s: Seq<char>, c: char, i: int)
    requires
        0 <= i < text::split_on(s, c).len(),
    ensures
        !text::split_on(s, c)[i].contains(c),
    decreases s.len(),
{
    text::lemma_index_of(s, c);
    let k = text::index_of(s, c);
    if k < s.len() {
        if i > 0 {
            lemma_split_has_no_separator(s.skip(k + 1), c, i - 1);
        }
    }
}

proof fn lemma_descended_below(www: Seq<char>, parts: Seq<Seq<char>>)
    requires
        forall|i: int| 0 <= i < parts.len() ==> !(#[trigger] parts[i]).contains('/'),
    ensures
        lies_below(descended(www, parts), www),
    decreases parts.len(),
{
    if parts.len() > 0 {
        let t = parts.drop_last();
        assert forall|i: int| 0 <= i < t.len() implies !(#[trigger] t[i]).contains('/') by {
            assert(t[i] == parts[i]);
        }
        lemma_descended_below(www, t);
        let last = parts.last();
        assert(parts[parts.len() - 1] == last);
        if kept_component(last) {
            let parent = descended(www, t);
            assert(last[0] != '/') by {
                if last[0] == '/' {
                    assert(last.contains('/'));
                }
            }
            assert(descended(www, parts) == joined(parent, last));
        }
    }
}

/// Whatever path is asked for, the file it names lies below the site's directory.
pub proof fn law_resolved_paths_stay_below(www: Seq<char>, url: Seq<char>)
    ensures
        lies_below(resolved(www, url), www),
{
    let rel = text::without_leading(url, '/');
    let parts = text::split_on(if rel.len() == 0 { "index.html"@ } else { rel }, '/');
    assert forall|i: int| 0 <= i < parts.len() implies !(#[trigger] parts[i]).contains('/') by {
        lemma_split_has_no_separator(if rel.len() == 0 { "index.html"@ } else { rel }, '/', i);
    }
    lemma_descended_below(www, parts);
}

/// The sites of this node. The paths of its files start at its root.
#[derive(Clone)]
pub struct SiteStore {
    pub root: std::path::PathBuf,
}

impl SiteStore {
    /// The directory of a service.
    pub open spec fn service(self, hs_id: Seq<char>) -> Seq<char> {
        hs_id
    }

    /// The directory of a service's site.
    pub open spec fn www(self, hs_id: Seq<char>) -> Seq<char> {
        joined(self.service(hs_id), "www"@)
    }

    /// The store under the user's home.
    pub fn new() -> (r: Self)
        ensures
            exists|home: Option<std::path::PathBuf>|
                is_home(home) && r.root == below(#[trigger] node_dir(home), "sites"@),
    {
        SiteStore { root: sites_dir() }
    }

    /// The store under `root`.
    pub fn at(root: std::path::PathBuf) -> (r: Self)
        ensures
            r.root == root,
    {
        SiteStore { root }
    }

    /// Where on the machine a path of the store is.
    pub fn place(&self, path: &str) -> (r: std::path::PathBuf)
        ensures
            r == below(self.root, path@),
    {
        join_below(&self.root, path)
    }

    /// The directory of a service.
    pub fn site_dir(&self, hs_id: &str) -> (r: String)
        ensures
            r@ == self.service(hs_id@),
    {
        hs_id.to_owned()
    }

    /// The file of a service's metadata.
    pub fn meta_path(&self, hs_id: &str) -> (r: String)
        ensures
            r@ == joined(self.service(hs_id@), "_meta.json"@),
    {
        let d: String = self.site_dir(hs_id);
        join_path(d.as_str(), "_meta.json")
    }

    /// The directory of a service's site.
    pub fn www_dir(&self, hs_id: &str) -> (r: String)
        ensures
            r@ == self.www(hs_id@),
    {
        let d: String = self.site_dir(hs_id);
        join_path(d.as_str(), "www")
    }

    /// The file of the clients that may resolve a service.
    pub fn clients_path(&self, hs_id: &str) -> (r: String)
        ensures
            r@ == joined(self.service(hs_id@), "authorized_clients.txt"@),
    {
        let d: String = self.site_dir(hs_id);
        join_path(d.as_str(), "authorized_clients.txt")
    }

    /// The file that a URL path names. It lies below the site's directory.
    pub fn resolve(&self, hs_id: &str, url_path: &str) -> (r: String)
        ensures
            r@ == resolved(self.www(hs_id@), url_path@),
            lies_below(r@, self.www(hs_id@)),
    {
        proof {
            law_resolved_paths_stay_below(self.www(hs_id@), url_path@);
        }
        let www: String = self.www_dir(hs_id);
        let url: Vec<char> = chars_of(url_path);
        let n: usize = url.len();
        assert(url@.subrange(0, n as int) =~= url_path@);
        let start: usize = skip_leading(&url, 0, n, '/');
        let rel: String = if start == n {
            "index.html".to_owned()
        } else {
            string_of(&url, start, n)
        };
        let v: Vec<char> = chars_of(rel.as_str());
        let m: usize = v.len();
        assert(v@.subrange(0, m as int) =~= rel@);
        let ghost parts = text::split_on(rel@, '/');
        let ranges: Vec<(usize, usize)> = split_ranges(&v, 0, m, '/');
        let mut path: String = www;
        let ghost w = path@;
        let mut i: usize = 0;
        assert(parts.take(0) =~= Seq::empty());
        while i < ranges.len()
            invariant
                i <= ranges@.len(),
                text::pieces_are(v@, ranges@, parts),
                path@ == descended(w, parts.take(i as int)),
            decreases ranges@.len() - i,
        {
            assert(ranges@[i as int].0 <= ranges@[i as int].1);
            let part: String = string_of(&v, ranges[i].0, ranges[i].1);
            assert(part@ == parts[i as int]);
            assert(parts.take(i + 1).drop_last() =~= parts.take(i as int));
            assert(parts.take(i + 1).last() == parts[i as int]);
            if !part.as_str().is_empty() && !str_eq(part.as_str(), "..") {
                path = join_path(path.as_str(), part.as_str());
            }
            i += 1;
        }
        assert(parts.take(i as int) =~= parts);
        path
    }
}

impl Default for SiteStore {
    fn default() -> (r: Self)
        ensures
            exists|home: Option<std::path::PathBuf>|
                is_home(home) && r.root == below(#[trigger] node_dir(home), "sites"@),
    {
        SiteStore::new()
    }
}

/// The files that may answer a request, in the order in which they are tried.
pub open spec fn candidates(www: Seq<char>, url: Seq<char>) -> Seq<Seq<char>> {
    let trimmed = text::without_trailing(url, '/');
    let base = text::without_leading(if trimmed.len() == 0 { "/"@ } else { trimmed }, '/');
    seq![
        joined(www, base),
        joined(www, base + "/index.html"@),
        joined(www, base + ".html"@),
        joined(www, "index.html"@),
    ]
}

/// The files that may answer a request, in the order in which they are tried.
pub fn file_candidates(www: &str, url_path: &str) -> (r: Vec<String>)
    ensures
        r@.len() == 4,
        forall|i: int| 0 <= i < 4 ==> (#[trigger] r@[i])@ == candidates(www@, url_path@)[i],
{
    let v: Vec<char> = chars_of(url_path);
    let n: usize = v.len();
    assert(v@.subrange(0, n as int) =~= url_path@);
    let end: usize = skip_trailing(&v, 0, n, '/');
    let base: String = if end == 0 {
        String::new()
    } else {
        let start: usize = skip_leading(&v, 0, end, '/');
        string_of(&v, start, end)
    };
    proof {
        let trimmed = text::without_trailing(url_path@, '/');
        if end == 0 {
            reveal_strlit("/");
            assert(text::without_leading("/"@.skip(1), '/') =~= Seq::<char>::empty());
            assert(text::without_leading("/"@, '/') =~= Seq::<char>::empty());
        }
        assert(base@ =~= text::without_leading(if trimmed.len() == 0 { "/"@ } else { trimmed }, '/'));
    }
    let index: String = join2(base.as_str(), "/index.html");
    let html: String = join2(base.as_str(), ".html");
    let mut r: Vec<String> = Vec::new();
    r.push(join_path(www, base.as_str()));
    r.push(join_path(www, index.as_str()));
    r.push(join_path(www, html.as_str()));
    r.push(join_path(www, "index.html"));
    r
}

/// What a request is answered: status, content type and body; nothing for an
/// unknown service. `found` is the first candidate that could be read.
pub open spec fn answer(
    known: bool,
    has_site: bool,
    url: Seq<char>,
    found: Option<(Seq<char>, Seq<u8>)>,
) -> Option<(u16, Seq<char>, Seq<u8>)> {
    if !known {
        None
    } else if !has_site {
        Some((404, "text/html"@, encode_utf8(pages::not_found_text(url))))
    } else {
        match found {
            Some((path, body)) => Some((200, mime_of(path), body)),
            None => Some(
                (404, "text/html; charset=utf-8"@, encode_utf8(pages::not_found_text(url))),
            ),
        }
    }
}

impl SiteStore {
    /// What a request is answered.
    pub fn get_file(
        &self,
        known: bool,
        has_site: bool,
        url_path: &str,
        found: Option<(String, Vec<u8>)>,
    ) -> (r: Option<(u16, String, Vec<u8>)>)
        ensures
            ({
                let a = answer(
                    known,
                    has_site,
                    url_path@,
                    match found {
                        Some((p, b)) => Some((p@, b@)),
                        None => None,
                    },
                );
                match a {
                    None => r is None,
                    Some((status, mime, body)) => r matches Some((s, m, b)) && s == status && m@ == mime
                        && b@ == body,
                }
            }),
    {
        if !known {
            return None;
        }
        if !has_site {
            return Some((404, "text/html".to_owned(), not_found_html(url_path)));
        }
        match found {
            Some((path, body)) => {
                let mime: String = guess_mime(path.as_str());
                Some((200, mime, body))
            },
            None => Some((404, "text/html; charset=utf-8".to_owned(), not_found_html(url_path))),
        }
    }
}

/// The last component of a path that is not empty and not `.`.
pub open spec fn last_component(parts: Seq<Seq<char>>) -> Seq<char>
    decreases parts.len(),
{
    if parts.len() == 0 {
        Seq::empty()
    } else if parts.last().len() == 0 || parts.last() == "."@ {
        last_component(parts.drop_last())
    } else {
        parts.last()
    }
}

/// The index of the last dot, -1 when there is none.
pub open spec fn last_dot(s: Seq<char>) -> int
    decreases s.len(),
{
    if s.len() == 0 {
        -1
    } else if s.last() == '.' {
        s.len() - 1
    } else {
        last_dot(s.drop_last())
    }
}

/// The extension of a path: what follows the last dot of its file name, unless the
/// name begins with that dot.
pub open spec fn extension(path: Seq<char>) -> Seq<char> {
    let name = last_component(text::split_on(path, '/'));
    let dot = last_dot(name);
    if dot <= 0 || name == ".."@ {
        Seq::empty()
    } else {
        name.skip(dot + 1)
    }
}

/// The content type of files with an extension.
pub open spec fn mime_of_extension(e: Seq<char>) -> Seq<char> {
    if e == "html"@ || e == "htm"@ {
        "text/html; charset=utf-8"@
    } else if e == "css"@ {
        "text/css; charset=utf-8"@
    } else if e == "js"@ || e == "mjs"@ {
        "application/javascript"@
    } else if e == "json"@ {
        "application/json"@
    } else if e == "svg"@ {
        "image/svg+xml"@
    } else if e == "png"@ {
        "image/png"@
    } else if e == "jpg"@ || e == "jpeg"@ {
        "image/jpeg"@
    } else if e == "gif"@ {
        "image/gif"@
    } else if e == "webp"@ {
        "image/webp"@
    } else if e == "woff"@ {
        "font/woff"@
    } else if e == "woff2"@ {
        "font/woff2"@
    } else if e == "ico"@ {
        "image/x-icon"@
    } else if e == "txt"@ {
        "text/plain; charset=utf-8"@
    } else if e == "wasm"@ {
        "application/wasm"@
    } else {
        "application/octet-stream"@
    }
}

/// The content type of a file.
pub open spec fn mime_of(path: Seq<char>) -> Seq<char> {
    mime_of_extension(extension(path))
}

/// The range of the last component that is not empty and not `.`, among the first
/// `i` components.
fn name_range(v: &[char], ranges: &Vec<(usize, usize)>, i: usize, Ghost(parts): Ghost<
    Seq<Seq<char>>,
>) -> (r: (usize, usize))
    requires
        i <= ranges@.len(),
        text::pieces_are(v@, ranges@, parts),
    ensures
        r.0 <= r.1 <= v@.len(),
        text::piece(v@, r) == last_component(parts.take(i as int)),
    decreases i,
{
    if i == 0 {
        assert(text::piece(v@, (0, 0)) =~= last_component(parts.take(0)));
        return (0, 0);
    }
    assert(parts.take(i as int).drop_last() =~= parts.take(i - 1));
    assert(ranges@[i - 1].0 <= ranges@[i - 1].1);
    let part: String = string_of(v, ranges[i - 1].0, ranges[i - 1].1);
    assert(part@ == parts.take(i as int).last());
    if part.as_str().is_empty() || str_eq(part.as_str(), ".") {
        name_range(v, ranges, i - 1, Ghost(parts))
    } else {
        ranges[i - 1]
    }
}

/// The extension of a path.
fn extension_of(path: &str) -> (r: String)
    ensures
        r@ == extension(path@),
{
    let v: Vec<char> = chars_of(path);
    let n: usize = v.len();
    assert(v@.subrange(0, n as int) =~= path@);
    let ghost parts = text::split_on(path@, '/');
    let ranges: Vec<(usize, usize)> = split_ranges(&v, 0, n, '/');
    assert(parts.take(ranges@.len() as int) =~= parts);
    let (from, to) = name_range(&v, &ranges, ranges.len(), Ghost(parts));
    let ghost name = v@.subrange(from as int, to as int);
    let text: String = string_of(&v, from, to);
    if str_eq(text.as_str(), "..") {
        let r: String = String::new();
        assert(r@ =~= extension(path@));
        return r;
    }
    let i: usize = after_last_dot(&v, from, to);
    if i - from <= 1 {
        let r: String = String::new();
        assert(r@ =~= extension(path@));
        return r;
    }
    let r: String = string_of(&v, i, to);
    assert(r@ =~= name.skip(i - from));
    r
}

/// Where the text behind the last dot begins, among the characters of `v` from
/// `from` up to `to`; `from` when there is no dot.
fn after_last_dot(v: &[char], from: usize, to: usize) -> (r: usize)
    requires
        from <= to <= v@.len(),
    ensures
        from <= r <= to,
        r - from == last_dot(v@.subrange(from as int, to as int)) + 1,
{
    let ghost name = v@.subrange(from as int, to as int);
    let mut i: usize = to;
    assert(name.take(to - from) =~= name);
    while i > from && v[i - 1] != '.'
        invariant
            from <= i <= to <= v@.len(),
            name == v@.subrange(from as int, to as int),
            last_dot(name) == last_dot(name.take(i - from)),
        decreases i - from,
    {
        assert(name.take(i - from).last() == v@[i - 1]);
        assert(name.take(i - from).drop_last() =~= name.take(i - from - 1));
        i = i - 1;
    }
    if i > from {
        assert(name.take(i - from).last() == v@[i - 1]);
    }
    i
}

/// The content type of a file, by its extension.
pub fn guess_mime(path: &str) -> (r: String)
    ensures
        r@ == mime_of(path@),
{
    let ext: String = extension_of(path);
    let e: &str = ext.as_str();
    let m: &str = if str_eq(e, "html") || str_eq(e, "htm") {
        "text/html; charset=utf-8"
    } else if str_eq(e, "css") {
        "text/css; charset=utf-8"
    } else if str_eq(e, "js") || str_eq(e, "mjs") {
        "application/javascript"
    } else if str_eq(e, "json") {
        "application/json"
    } else if str_eq(e, "svg") {
        "image/svg+xml"
    } else if str_eq(e, "png") {
        "image/png"
    } else if str_eq(e, "jpg") || str_eq(e, "jpeg") {
        "image/jpeg"
    } else if str_eq(e, "gif") {
        "image/gif"
    } else if str_eq(e, "webp") {
        "image/webp"
    } else if str_eq(e, "woff") {
        "font/woff"
    } else if str_eq(e, "woff2") {
        "font/woff2"
    } else if str_eq(e, "ico") {
        "image/x-icon"
    } else if str_eq(e, "txt") {
        "text/plain; charset=utf-8"
    } else if str_eq(e, "wasm") {
        "application/wasm"
    } else {
        "application/octet-stream"
    };
    m.to_owned()
}

/// A file that is not deployed: hidden, or compiled Python.
pub open spec fn not_deployed(name: Seq<char>) -> bool {
    text::starts_with(name, "."@) || text::ends_with(name, ".pyc"@)
}

/// Whether a directory entry is left out of a deployment.
pub fn skips_entry(name: &str) -> (r: bool)
    ensures
        r == not_deployed(name@),
{
    if str_starts_with(name, ".") {
        return true;
    }
    let v: Vec<char> = chars_of(name);
    proof {
        reveal_strlit(".pyc");
        if v@.len() >= 4 {
            assert(v@.subrange(v@.len() - 4, v@.len() as int) =~= v@.skip(v@.len() - 4));
        }
    }
    v.len() >= 4 && has_at(&v, v.len() - 4, ".pyc")
}

/// The URL path of a deployed file: its relative path with `/` for `\`.
pub open spec fn deployed_url(rel: Seq<char>) -> Seq<char> {
    "/"@ + rel.map_values(|c: char| if c == '\\' { '/' } else { c })
}

/// The URL path of a deployed file.
pub fn deploy_url(rel: &str) -> (r: String)
    ensures
        r@ == deployed_url(rel@),
{
    let v: Vec<char> = chars_of(rel);
    let mut r: String = "/".to_owned();
    let ghost f = |c: char| if c == '\\' { '/' } else { c };
    let mut i: usize = 0;
    assert(r@ =~= "/"@ + v@.take(0).map_values(f));
    while i < v.len()
        invariant
            i <= v@.len(),
            f == (|c: char| if c == '\\' { '/' } else { c }),
            r@ == "/"@ + v@.take(i as int).map_values(f),
        decreases v@.len() - i,
    {
        if v[i] == '\\' {
            r.push('/');
        } else {
            r.push(v[i]);
        }
        i += 1;
        assert(r@ =~= "/"@ + v@.take(i as int).map_values(f));
    }
    assert(v@.take(i as int) =~= v@);
    r
}

/// A client key: 64 hexadecimal digits.
pub open spec fn is_client_key(s: Seq<char>) -> bool {
    s.len() == 64 && forall|i: int| 0 <= i < s.len() ==> text::hex_value(#[trigger] s[i]) >= 0
}

/// A client key as it is stored: without surrounding white space, in lower case.
pub open spec fn normalized(s: Seq<char>) -> Seq<char> {
    text::lowered(text::trimmed(s))
}

/// The client key on a line of the list; nothing for a blank line, a comment, or
/// anything that is no key.
pub open spec fn key_on_line(line: Seq<char>) -> Option<Seq<char>> {
    let t = text::trimmed(line);
    if t.len() > 0 && t[0] != '#' && is_client_key(text::lowered(t)) {
        Some(text::lowered(t))
    } else {
        None
    }
}

/// The client keys on some lines, in order.
pub open spec fn keys_on_lines(lines: Seq<Seq<char>>) -> Seq<Seq<char>>
    decreases lines.len(),
{
    if lines.len() == 0 {
        Seq::empty()
    } else {
        match key_on_line(lines.last()) {
            Some(k) => keys_on_lines(lines.drop_last()).push(k),
            None => keys_on_lines(lines.drop_last()),
        }
    }
}

/// The client keys that a list holds.
pub open spec fn client_keys(content: Seq<char>) -> Seq<Seq<char>> {
    keys_on_lines(text::split_on(content, '\n'))
}

/// Whether a text is a client key.
fn is_key(s: &str) -> (r: bool)
    ensures
        r == is_client_key(s@),
{
    let v: Vec<char> = chars_of(s);
    if v.len() != 64 {
        return false;
    }
    let mut i: usize = 0;
    while i < v.len()
        invariant
            v@ == s@,
            i <= v@.len(),
            forall|j: int| 0 <= j < i ==> text::hex_value(#[trigger] v@[j]) >= 0,
        decreases v@.len() - i,
    {
        if hex_digit_value(v[i]).is_none() {
            assert(text::hex_value(s@[i as int]) < 0);
            return false;
        }
        i += 1;
    }
    true
}

/// The characters of `v` from `from` up to `to`, in lower case.
fn lower_range(v: &[char], from: usize, to: usize) -> (r: String)
    requires
        from <= to <= v@.len(),
    ensures
        r@ == text::lowered(v@.subrange(from as int, to as int)),
{
    let ghost s = v@.subrange(from as int, to as int);
    let mut r: String = String::new();
    let mut i: usize = from;
    while i < to
        invariant
            from <= i <= to <= v@.len(),
            s == v@.subrange(from as int, to as int),
            r@ == text::lowered(s.take(i - from)),
        decreases to - i,
    {
        r.push(lower_char(v[i]));
        i += 1;
        assert(r@ =~= text::lowered(s.take(i - from)));
    }
    assert(s.take(i - from) =~= s);
    r
}

/// A client key as it is stored.
pub fn normalize_key(key: &str) -> (r: String)
    ensures
        r@ == normalized(key@),
{
    let v: Vec<char> = chars_of(key);
    let n: usize = v.len();
    assert(v@.subrange(0, n as int) =~= key@);
    let (a, b) = trim_range(&v, 0, n);
    lower_range(&v, a, b)
}

/// The client keys that a list holds. Blank lines, comments and anything that is
/// no key are passed over.
pub fn parse_clients(content: &str) -> (r: Vec<String>)
    ensures
        text::texts(r@) == client_keys(content@),
{
    let v: Vec<char> = chars_of(content);
    let n: usize = v.len();
    assert(v@.subrange(0, n as int) =~= content@);
    let ghost lines = text::split_on(content@, '\n');
    let ranges: Vec<(usize, usize)> = split_ranges(&v, 0, n, '\n');
    let mut r: Vec<String> = Vec::new();
    let mut i: usize = 0;
    assert(text::texts(r@) =~= keys_on_lines(lines.take(0)));
    while i < ranges.len()
        invariant
            i <= ranges@.len(),
            text::pieces_are(v@, ranges@, lines),
            text::texts(r@) == keys_on_lines(lines.take(i as int)),
        decreases ranges@.len() - i,
    {
        let ghost before = r@;
        assert(ranges@[i as int].0 <= ranges@[i as int].1);
        assert(lines.take(i + 1).drop_last() =~= lines.take(i as int));
        assert(lines.take(i + 1).last() == lines[i as int]);
        let (a, b) = trim_range(&v, ranges[i].0, ranges[i].1);
        let ghost t = text::trimmed(lines[i as int]);
        assert(t == v@.subrange(a as int, b as int));
        if a < b && v[a] != '#' {
            let low: String = lower_range(&v, a, b);
            if is_key(low.as_str()) {
                r.push(low);
                assert(text::texts(r@) =~= text::texts(before).push(low@));
            }
        }
        i += 1;
    }
    assert(lines.take(i as int) =~= lines);
    r
}

/// The keys with a line break between them.
pub open spec fn key_lines(keys: Seq<Seq<char>>) -> Seq<char>
    decreases keys.len(),
{
    if keys.len() == 0 {
        Seq::empty()
    } else if keys.len() == 1 {
        keys[0]
    } else {
        key_lines(keys.drop_last()) + "\n"@ + keys.last()
    }
}

/// The first line of a list of client keys, up to the service.
pub const CLIENTS_HEAD: &'static str = "# ΦNET authorized clients for service ";

/// The second line of a list of client keys.
pub const CLIENTS_NOTE: &'static str = "# one X25519 pubkey (hex) per line; lines starting with # are comments";

/// The list of a service's client keys, as it is stored.
pub open spec fn clients_file(hs_id: Seq<char>, keys: Seq<Seq<char>>) -> Seq<char> {
    CLIENTS_HEAD@ + hs_id + "\n"@ + CLIENTS_NOTE@ + "\n"@ + key_lines(keys) + "\n"@
}

/// Writes the list of a service's client keys.
fn render_clients(hs_id: &str, keys: &Vec<String>) -> (r: String)
    ensures
        r@ == clients_file(hs_id@, text::texts(keys@)),
{
    let ghost ks = text::texts(keys@);
    let mut r: String = join3(CLIENTS_HEAD, hs_id, "\n");
    r.append(CLIENTS_NOTE);
    r.append("\n");
    let ghost head = r@;
    let mut i: usize = 0;
    assert(r@ =~= head + key_lines(ks.take(0)));
    while i < keys.len()
        invariant
            i <= keys@.len(),
            ks == text::texts(keys@),
            r@ == head + key_lines(ks.take(i as int)),
        decreases keys@.len() - i,
    {
        if i > 0 {
            r.append("\n");
        }
        r.append(keys[i].as_str());
        assert(ks.take(i + 1).drop_last() =~= ks.take(i as int));
        assert(ks.take(i + 1).last() == keys@[i as int]@);
        i += 1;
        assert(r@ =~= head + key_lines(ks.take(i as int)));
    }
    assert(ks.take(i as int) =~= ks);
    r.append("\n");
    assert(r@ =~= clients_file(hs_id@, ks));
    r
}

/// What to do with the list of a service's client keys.
pub enum ClientsUpdate {
    /// Nothing changes.
    Unchanged,
    /// Store this text.
    Write(String),
    /// Remove the list: without keys the service is open to everyone.
    Delete,
}

/// Whether `keys` holds `key`.
fn holds_key(keys: &Vec<String>, key: &str) -> (r: bool)
    ensures
        r == text::texts(keys@).contains(key@),
{
    let mut i: usize = 0;
    while i < keys.len()
        invariant
            i <= keys@.len(),
            forall|j: int| 0 <= j < i ==> (#[trigger] keys@[j])@ != key@,
        decreases keys@.len() - i,
    {
        if str_eq(keys[i].as_str(), key) {
            assert(text::texts(keys@)[i as int] == key@);
            return true;
        }
        i += 1;
    }
    assert(!text::texts(keys@).contains(key@)) by {
        if text::texts(keys@).contains(key@) {
            let j = choose|j: int| 0 <= j < text::texts(keys@).len() && text::texts(keys@)[j] == key@;
            assert(keys@[j]@ == key@);
        }
    }
    false
}

impl SiteStore {
    /// The client keys of a service. `content` is the list as it is stored, if there is
    /// one.
    pub fn list_authorized_clients(&self, content: Option<&str>) -> (r: Vec<String>)
        ensures
            text::texts(r@) == match content {
                Some(c) => client_keys(c@),
                None => Seq::empty(),
            },
    {
        match content {
            Some(c) => parse_clients(c),
            None => {
                let r: Vec<String> = Vec::new();
                assert(text::texts(r@) =~= Seq::empty());
                r
            },
        }
    }

    /// Where a file of a service goes; an error for a service that is not known.
    pub fn put_file(&self, hs_id: &str, url_path: &str, known: bool) -> (r: Result<String, Error>)
        ensures
            if known {
                r matches Ok(p) && p@ == resolved(self.www(hs_id@), url_path@) && lies_below(
                    p@,
                    self.www(hs_id@),
                )
            } else {
                errors::is_not_found(r, "service "@ + hs_id@)
            },
    {
        if known {
            Ok(self.resolve(hs_id, url_path))
        } else {
            Err(Error::NotFound(join2("service ", hs_id)))
        }
    }
}

impl SiteStore {
    /// Adds a client key to a service's list. `content` is the list as it is stored, if
    /// there is one.
    pub fn add_authorized_client(
        &self,
        hs_id: &str,
        known: bool,
        content: Option<&str>,
        client_pub_hex: &str,
    ) -> (r: Result<ClientsUpdate, Error>)
        ensures
            ({
                let key = normalized(client_pub_hex@);
                let keys = match content {
                    Some(c) => client_keys(c@),
                    None => Seq::empty(),
                };
                if !known {
                    errors::is_not_found(r, "service "@ + hs_id@)
                } else if !is_client_key(key) {
                    errors::is_crypto(r, "client pubkey must be 64 hex chars (32 bytes)"@)
                } else if keys.contains(key) {
                    r matches Ok(ClientsUpdate::Unchanged)
                } else {
                    r matches Ok(ClientsUpdate::Write(text)) && text@ == clients_file(
                        hs_id@,
                        keys.push(key),
                    )
                }
            }),
    {
        if !known {
            return Err(Error::NotFound(join2("service ", hs_id)));
        }
        let key: String = normalize_key(client_pub_hex);
        if !is_key(key.as_str()) {
            return Err(Error::Crypto("client pubkey must be 64 hex chars (32 bytes)".to_owned()));
        }
        let mut current: Vec<String> = match content {
            Some(c) => parse_clients(c),
            None => Vec::new(),
        };
        let ghost keys = text::texts(current@);
        assert(content is None ==> keys =~= Seq::empty());
        if holds_key(&current, key.as_str()) {
            return Ok(ClientsUpdate::Unchanged);
        }
        let ghost k = key@;
        current.push(key);
        assert(text::texts(current@) =~= keys.push(k));
        Ok(ClientsUpdate::Write(render_clients(hs_id, &current)))
    }
}

impl SiteStore {
    /// Removes a client key from a service's list.
    pub fn remove_authorized_client(
        &self,
        hs_id: &str,
        known: bool,
        content: Option<&str>,
        client_pub_hex: &str,
    ) -> (r: Result<ClientsUpdate, Error>)
        ensures
            ({
                let key = normalized(client_pub_hex@);
                let keys = match content {
                    Some(c) => client_keys(c@),
                    None => Seq::empty(),
                };
                let rest = keys.filter(|k: Seq<char>| k != key);
                if !known {
                    errors::is_not_found(r, "service "@ + hs_id@)
                } else if !keys.contains(key) {
                    r matches Ok(ClientsUpdate::Unchanged)
                } else if rest.len() == 0 {
                    r matches Ok(ClientsUpdate::Delete)
                } else {
                    r matches Ok(ClientsUpdate::Write(text)) && text@ == clients_file(hs_id@, rest)
                }
            }),
    {
        if !known {
            return Err(Error::NotFound(join2("service ", hs_id)));
        }
        let key: String = normalize_key(client_pub_hex);
        let current: Vec<String> = match content {
            Some(c) => parse_clients(c),
            None => Vec::new(),
        };
        let ghost keys = text::texts(current@);
        assert(content is None ==> keys =~= Seq::empty());
        if !holds_key(&current, key.as_str()) {
            return Ok(ClientsUpdate::Unchanged);
        }
        let ghost keep = |k: Seq<char>| k != key@;
        let mut rest: Vec<String> = Vec::new();
        let mut i: usize = 0;
        proof {
            reveal(Seq::filter);
            assert(text::texts(rest@) =~= keys.take(0).filter(keep));
        }
        while i < current.len()
            invariant
                i <= current@.len(),
                keys == text::texts(current@),
                keep == (|k: Seq<char>| k != key@),
                text::texts(rest@) == keys.take(i as int).filter(keep),
            decreases current@.len() - i,
        {
            let ghost before = rest@;
            proof {
                reveal(Seq::filter);
                assert(keys.take(i + 1).drop_last() =~= keys.take(i as int));
            }
            if !str_eq(current[i].as_str(), key.as_str()) {
                rest.push(current[i].clone());
                assert(text::texts(rest@) =~= text::texts(before).push(keys[i as int]));
            }
            i += 1;
        }
        assert(keys.take(i as int) =~= keys);
        assert(keep =~= (|k: Seq<char>| k != normalized(client_pub_hex@)));
        if rest.len() == 0 {
            return Ok(ClientsUpdate::Delete);
        }
        Ok(ClientsUpdate::Write(render_clients(hs_id, &rest)))
    }
}

proof fn lemma_split_join(a: Seq<char>, b: Seq<char>)
    requires
        !a.contains('\n'),
    ensures
        text::split_on(a + "\n"@ + b, '\n') == seq![a] + text::split_on(b, '\n'),
{
    reveal_strlit("\n");
    let s = a + "\n"@ + b;
    assert forall|j: int| 0 <= j < a.len() implies s[j] != '\n' by {
        assert(s[j] == a[j]);
        assert(a.contains(a[j]));
    }
    text::lemma_index_of_is(s, '\n', a.len() as int);
    assert(s.take(a.len() as int) =~= a);
    assert(s.skip(a.len() as int + 1) =~= b);
}

proof fn lemma_split_plain(a: Seq<char>)
    requires
        !a.contains('\n'),
    ensures
        text::split_on(a, '\n') == seq![a],
{
    assert forall|j: int| 0 <= j < a.len() implies a[j] != '\n' by {
        assert(a.contains(a[j]));
    }
    text::lemma_index_of_is(a, '\n', a.len() as int);
}

proof fn lemma_key_line(k: Seq<char>)
    requires
        is_client_key(k),
        text::lowered(k) == k,
    ensures
        key_on_line(k) == Some(k),
        !k.contains('\n'),
{
    assert(text::hex_value(k[0]) >= 0);
    assert(text::hex_value(k[63]) >= 0);
    assert(text::trimmed_start(k) == k);
    assert(text::trimmed_end(k) == k);
    if k.contains('\n') {
        let i = choose|i: int| 0 <= i < k.len() && k[i] == '\n';
        assert(text::hex_value(k[i]) >= 0);
    }
}

proof fn lemma_split_rows(keys: Seq<Seq<char>>)
    requires
        keys.len() > 0,
        forall|i: int|
            0 <= i < keys.len() ==> is_client_key(#[trigger] keys[i]) && text::lowered(keys[i]) == keys[i],
    ensures
        text::split_on(key_lines(keys) + "\n"@, '\n') == keys.push(Seq::empty()),
    decreases keys.len(),
{
    lemma_rows_front(keys, Seq::empty());
    reveal_strlit("\n");
    lemma_split_plain(Seq::<char>::empty());
    assert(key_lines(keys) + "\n"@ + Seq::<char>::empty() =~= key_lines(keys) + "\n"@);
    assert(keys + seq![Seq::<char>::empty()] =~= keys.push(Seq::empty()));
}

proof fn lemma_rows_front(keys: Seq<Seq<char>>, rest: Seq<char>)
    requires
        keys.len() > 0,
        forall|i: int|
            0 <= i < keys.len() ==> is_client_key(#[trigger] keys[i]) && text::lowered(keys[i]) == keys[i],
    ensures
        text::split_on(key_lines(keys) + "\n"@ + rest, '\n') == keys + text::split_on(rest, '\n'),
    decreases keys.len(),
{
    lemma_key_line(keys.last());
    assert(keys[keys.len() - 1] == keys.last());
    if keys.len() == 1 {
        lemma_split_join(keys[0], rest);
        assert(seq![keys[0]] + text::split_on(rest, '\n') =~= keys + text::split_on(rest, '\n'));
    } else {
        let t = keys.drop_last();
        assert forall|i: int| 0 <= i < t.len() implies is_client_key(#[trigger] t[i]) && text::lowered(t[i])
            == t[i] by {
            assert(t[i] == keys[i]);
        }
        let rest2 = keys.last() + "\n"@ + rest;
        lemma_rows_front(t, rest2);
        lemma_split_join(keys.last(), rest);
        assert(key_lines(keys) + "\n"@ + rest =~= key_lines(t) + "\n"@ + rest2);
        assert(t + (seq![keys.last()] + text::split_on(rest, '\n')) =~= keys + text::split_on(rest, '\n'));
    }
}

proof fn lemma_keys_of_lines(head: Seq<Seq<char>>, keys: Seq<Seq<char>>)
    requires
        keys_on_lines(head) == Seq::<Seq<char>>::empty(),
        forall|i: int|
            0 <= i < keys.len() ==> is_client_key(#[trigger] keys[i]) && text::lowered(keys[i]) == keys[i],
    ensures
        keys_on_lines(head + keys) == keys,
    decreases keys.len(),
{
    if keys.len() == 0 {
        assert(head + keys =~= head);
        assert(keys =~= Seq::empty());
    } else {
        let t = keys.drop_last();
        assert forall|i: int| 0 <= i < t.len() implies is_client_key(#[trigger] t[i]) && text::lowered(t[i])
            == t[i] by {
            assert(t[i] == keys[i]);
        }
        lemma_keys_of_lines(head, t);
        assert(keys[keys.len() - 1] == keys.last());
        lemma_key_line(keys.last());
        assert((head + keys).drop_last() =~= head + t);
        assert(keys =~= t.push(keys.last()));
    }
}

/// The lines of two texts with a line break between them are those of the one and those of
/// the other.
proof fn lemma_split_concat(a: Seq<char>, b: Seq<char>)
    ensures
        text::split_on(a + "\n"@ + b, '\n') == text::split_on(a, '\n') + text::split_on(b, '\n'),
    decreases a.len(),
{
    reveal_strlit("\n");
    text::lemma_index_of(a, '\n');
    let k = text::index_of(a, '\n');
    if k < a.len() {
        let (first, rest) = (a.take(k), a.skip(k + 1));
        assert(!first.contains('\n'));
        assert(a =~= first + "\n"@ + rest);
        lemma_split_join(first, rest);
        lemma_split_concat(rest, b);
        assert(a + "\n"@ + b =~= first + "\n"@ + (rest + "\n"@ + b));
        lemma_split_join(first, rest + "\n"@ + b);
        assert(seq![first] + (text::split_on(rest, '\n') + text::split_on(b, '\n')) =~= text::split_on(
            a,
            '\n',
        ) + text::split_on(b, '\n'));
    } else {
        assert(!a.contains('\n'));
        lemma_split_plain(a);
        lemma_split_join(a, b);
    }
}

/// What stands before a text belongs to its first line.
proof fn lemma_split_behind(head: Seq<char>, s: Seq<char>)
    requires
        !head.contains('\n'),
    ensures
        text::split_on(s, '\n').len() > 0,
        text::split_on(head + s, '\n') == seq![head + text::split_on(s, '\n')[0]] + text::split_on(
            s,
            '\n',
        ).skip(1),
{
    reveal_strlit("\n");
    text::lemma_index_of(s, '\n');
    let k = text::index_of(s, '\n');
    let lines = text::split_on(s, '\n');
    if k < s.len() {
        let (first, rest) = (s.take(k), s.skip(k + 1));
        assert(!first.contains('\n'));
        assert(!(head + first).contains('\n')) by {
            if (head + first).contains('\n') {
                let i = choose|i: int| 0 <= i < (head + first).len() && (head + first)[i] == '\n';
                if i < head.len() {
                    assert(head[i] == '\n');
                } else {
                    assert(first[i - head.len()] == '\n');
                }
            }
        }
        assert(head + s =~= head + first + "\n"@ + rest);
        lemma_split_join(head + first, rest);
        assert(lines.skip(1) =~= text::split_on(rest, '\n'));
    } else {
        assert(!s.contains('\n'));
        assert(!(head + s).contains('\n')) by {
            if (head + s).contains('\n') {
                let i = choose|i: int| 0 <= i < (head + s).len() && (head + s)[i] == '\n';
                if i < head.len() {
                    assert(head[i] == '\n');
                } else {
                    assert(s[i - head.len()] == '\n');
                }
            }
        }
        lemma_split_plain(s);
        lemma_split_plain(head + s);
        assert(lines.skip(1) =~= Seq::empty());
        assert(seq![head + lines[0]] + lines.skip(1) =~= seq![head + s]);
    }
}

proof fn lemma_no_keys(lines: Seq<Seq<char>>)
    requires
        forall|i: int| 0 <= i < lines.len() ==> key_on_line(#[trigger] lines[i]) is None,
    ensures
        keys_on_lines(lines) == Seq::<Seq<char>>::empty(),
    decreases lines.len(),
{
    if lines.len() > 0 {
        let t = lines.drop_last();
        assert(key_on_line(lines[lines.len() - 1]) is None);
        assert forall|i: int| 0 <= i < t.len() implies key_on_line(#[trigger] t[i]) is None by {
            assert(t[i] == lines[i]);
        }
        lemma_no_keys(t);
    }
}

/// No line of a service's identifier reads as a client key. The first is written behind a
/// comment sign.
pub open spec fn keyless(hs_id: Seq<char>) -> bool {
    forall|i: int|
        0 < i < text::split_on(hs_id, '\n').len() ==> key_on_line(
            #[trigger] text::split_on(hs_id, '\n')[i],
        ) is None
}

/// A list of client keys reads back as the keys it was written from, for a service
/// whose identifier does not itself hold a line that reads as a key.
pub proof fn law_client_lists_read_back(hs_id: Seq<char>, keys: Seq<Seq<char>>)
    requires
        keys.len() > 0,
        keyless(hs_id),
        forall|i: int|
            0 <= i < keys.len() ==> is_client_key(#[trigger] keys[i]) && text::lowered(keys[i]) == keys[i],
    ensures
        client_keys(clients_file(hs_id, keys)) == keys,
{
    reveal_strlit("\n");
    reveal_strlit("# ΦNET authorized clients for service ");
    reveal_strlit("# one X25519 pubkey (hex) per line; lines starting with # are comments");
    let l1 = CLIENTS_HEAD@ + hs_id;
    let l2 = CLIENTS_NOTE@;
    let rows = key_lines(keys) + "\n"@;
    let own = text::split_on(hs_id, '\n');
    let first = text::split_on(l1, '\n');
    assert(!CLIENTS_HEAD@.contains('\n'));
    assert(!l2.contains('\n'));
    lemma_split_behind(CLIENTS_HEAD@, hs_id);
    assert(clients_file(hs_id, keys) =~= l1 + "\n"@ + (l2 + "\n"@ + rows));
    lemma_split_concat(l1, l2 + "\n"@ + rows);
    lemma_split_join(l2, rows);
    lemma_split_rows(keys);
    let empty = Seq::<char>::empty();
    let head = first.push(l2);
    assert(first + (seq![l2] + keys.push(empty)) =~= (head + keys).push(empty));
    assert forall|i: int| 0 <= i < head.len() implies key_on_line(#[trigger] head[i]) is None by {
        if i == 0 {
            assert(head[0] == CLIENTS_HEAD@ + own[0]);
            lemma_comment(head[0]);
        } else if i < first.len() {
            assert(head[i] == own[i]);
        } else {
            lemma_comment(l2);
        }
    }
    lemma_no_keys(head);
    lemma_keys_of_lines(head, keys);
    let all = (head + keys).push(empty);
    assert(all.drop_last() =~= head + keys);
    assert(all.last() == empty);
    assert(key_on_line(empty) is None);
}

proof fn lemma_listed_keys(lines: Seq<Seq<char>>, i: int)
    requires
        0 <= i < keys_on_lines(lines).len(),
    ensures
        is_client_key(keys_on_lines(lines)[i]),
        text::lowered(keys_on_lines(lines)[i]) == keys_on_lines(lines)[i],
    decreases lines.len(),
{
    if lines.len() > 0 {
        let before = keys_on_lines(lines.drop_last());
        if i < before.len() {
            lemma_listed_keys(lines.drop_last(), i);
        } else {
            lemma_lowered_twice(text::trimmed(lines.last()));
        }
    }
}

proof fn lemma_lowered_twice(s: Seq<char>)
    ensures
        text::lowered(text::lowered(s)) == text::lowered(s),
{
    assert(text::lowered(text::lowered(s)) =~= text::lowered(s));
}

/// A client that is let in is listed behind those that were listed before: the list that is
/// written when its key is added reads as the old one with the key at its end.
pub proof fn law_added_clients_are_listed(hs_id: Seq<char>, content: Seq<char>, client: Seq<char>)
    requires
        keyless(hs_id),
        is_client_key(normalized(client)),
    ensures
        client_keys(clients_file(hs_id, client_keys(content).push(normalized(client))))
            == client_keys(content).push(normalized(client)),
{
    let old = client_keys(content);
    let key = normalized(client);
    let keys = old.push(key);
    assert forall|i: int| 0 <= i < keys.len() implies is_client_key(#[trigger] keys[i])
        && text::lowered(keys[i]) == keys[i] by {
        if i < old.len() {
            lemma_listed_keys(text::split_on(content, '\n'), i);
        } else {
            lemma_lowered_twice(text::trimmed(client));
        }
    }
    law_client_lists_read_back(hs_id, keys);
}

proof fn lemma_comment(line: Seq<char>)
    requires
        line.len() > 0,
        line[0] == '#',
    ensures
        key_on_line(line) is None,
{
    assert(text::trimmed_start(line) == line);
    lemma_trimmed_end_first(line);
}

proof fn lemma_trimmed_end_first(s: Seq<char>)
    requires
        s.len() > 0,
        s[0] == '#',
    ensures
        text::trimmed_end(s).len() > 0,
        text::trimmed_end(s)[0] == '#',
    decreases s.len(),
{
    if text::is_space(s.last()) {
        if s.len() > 1 {
            lemma_trimmed_end_first(s.drop_last());
        }
    }
}

/// `p` names a file below a directory: none of its components is empty or leads out.
pub open spec fn is_plain(p: Seq<char>) -> bool {
    forall|i: int|
        0 <= i < text::split_on(p, '/').len() ==> kept_component(#[trigger] text::split_on(p, '/')[i])
}

proof fn lemma_plain_step(p: Seq<char>)
    requires
        is_plain(p),
    ensures
        p.len() > 0,
        p[0] != '/',
        ({
            let i = text::index_of(p, '/');
            if i < p.len() {
                &&& 0 < i
                &&& kept_component(p.take(i))
                &&& is_plain(p.skip(i + 1))
                &&& p.skip(i + 1).len() < p.len()
                &&& p.skip(i + 1).len() > 0 ==> p.last() == p.skip(i + 1).last()
            } else {
                forall|j: int| 0 <= j < p.len() ==> p[j] != '/'
            }
        }),
{
    text::lemma_index_of(p, '/');
    let i = text::index_of(p, '/');
    let parts = text::split_on(p, '/');
    assert(kept_component(parts[0]));
    if i < p.len() {
        let rest = text::split_on(p.skip(i + 1), '/');
        assert forall|k: int| 0 <= k < rest.len() implies kept_component(#[trigger] rest[k]) by {
            assert(rest[k] == parts[k + 1]);
        }
        assert(p.take(i) == parts[0]);
    }
}

proof fn lemma_plain_ends(p: Seq<char>)
    requires
        is_plain(p),
    ensures
        p.len() > 0,
        p[0] != '/',
        p.last() != '/',
    decreases p.len(),
{
    lemma_plain_step(p);
    let i = text::index_of(p, '/');
    text::lemma_index_of(p, '/');
    if i < p.len() {
        lemma_plain_ends(p.skip(i + 1));
    }
}

proof fn lemma_descended_front(www: Seq<char>, a: Seq<char>, rest: Seq<Seq<char>>)
    requires
        kept_component(a),
    ensures
        descended(www, seq![a] + rest) == descended(joined(www, a), rest),
    decreases rest.len(),
{
    let all = seq![a] + rest;
    if rest.len() == 0 {
        assert(all.drop_last() =~= Seq::empty());
        assert(descended(www, all.drop_last()) == www);
    } else {
        assert(all.drop_last() =~= seq![a] + rest.drop_last());
        lemma_descended_front(www, a, rest.drop_last());
    }
}

/// A plain path is resolved by putting it behind the directory.
proof fn lemma_descended_plain(www: Seq<char>, p: Seq<char>)
    requires
        www.len() > 0,
        www.last() != '/',
        is_plain(p),
    ensures
        descended(www, text::split_on(p, '/')) == www.push('/') + p,
    decreases p.len(),
{
    lemma_plain_step(p);
    let i = text::index_of(p, '/');
    if i < p.len() {
        let a = p.take(i);
        let rest = p.skip(i + 1);
        text::lemma_index_of(p, '/');
        lemma_descended_front(www, a, text::split_on(rest, '/'));
        let w = joined(www, a);
        assert(a[0] == p[0]);
        assert(w =~= www.push('/') + a);
        assert(w.last() == p[i - 1]);
        lemma_descended_plain(w, rest);
        assert(w.push('/') + rest =~= www.push('/') + p);
    } else {
        text::lemma_index_of(p, '/');
        let parts = text::split_on(p, '/');
        assert(parts =~= seq![p]);
        assert(kept_component(parts[0]));
        assert(parts.drop_last() =~= Seq::empty());
        assert(descended(www, parts.drop_last()) == www);
    }
}

/// A plain path stays plain with a longer name, or with a component more.
proof fn lemma_plain_longer(p: Seq<char>, x: Seq<char>)
    requires
        is_plain(p),
        x.len() > 2,
        forall|j: int| 0 <= j < x.len() ==> x[j] != '/',
    ensures
        is_plain(p + x),
        is_plain(p.push('/') + x),
    decreases p.len(),
{
    lemma_plain_step(p);
    text::lemma_index_of(p, '/');
    reveal_strlit("..");
    let i = text::index_of(p, '/');
    let q = p + x;
    let s = p.push('/') + x;
    text::lemma_index_of(q, '/');
    text::lemma_index_of(s, '/');
    if i < p.len() {
        assert(q[i] == '/' && s[i] == '/');
        assert forall|j: int| 0 <= j < i implies q[j] != '/' && s[j] != '/' by {
            assert(q[j] == p[j] && s[j] == p[j]);
        }
        if text::index_of(q, '/') < i {
            assert(q[text::index_of(q, '/')] == '/');
        }
        if text::index_of(s, '/') < i {
            assert(s[text::index_of(s, '/')] == '/');
        }
        assert(text::index_of(q, '/') == i);
        assert(text::index_of(s, '/') == i);
        lemma_plain_longer(p.skip(i + 1), x);
        assert(q.take(i) =~= p.take(i));
        assert(s.take(i) =~= p.take(i));
        assert(q.skip(i + 1) =~= p.skip(i + 1) + x);
        assert(s.skip(i + 1) =~= p.skip(i + 1).push('/') + x);
        let rq = text::split_on(q.skip(i + 1), '/');
        let rs = text::split_on(s.skip(i + 1), '/');
        assert forall|k: int| 0 <= k < text::split_on(q, '/').len() implies kept_component(
            #[trigger] text::split_on(q, '/')[k],
        ) by {
            if k > 0 {
                assert(text::split_on(q, '/')[k] == rq[k - 1]);
            }
        }
        assert forall|k: int| 0 <= k < text::split_on(s, '/').len() implies kept_component(
            #[trigger] text::split_on(s, '/')[k],
        ) by {
            if k > 0 {
                assert(text::split_on(s, '/')[k] == rs[k - 1]);
            }
        }
    } else {
        if text::index_of(q, '/') < q.len() {
            let j = text::index_of(q, '/');
            assert(q[j] == if j < p.len() { p[j] } else { x[j - p.len()] });
        }
        assert(text::split_on(q, '/') =~= seq![q]);
        let n = p.len() as int;
        assert(s[n] == '/');
        if text::index_of(s, '/') < n {
            assert(s[text::index_of(s, '/')] == p[text::index_of(s, '/')]);
        }
        assert(text::index_of(s, '/') == n);
        assert(s.take(n) =~= p);
        assert(s.skip(n + 1) =~= x);
        text::lemma_index_of(x, '/');
        assert(text::split_on(x, '/') =~= seq![x]);
        assert(text::split_on(s, '/') =~= seq![p, x]);
        assert(text::split_on(p, '/') =~= seq![p]);
        assert(kept_component(text::split_on(p, '/')[0]));
        assert(q.len() > 2 && x.len() > 2);
    }
}

proof fn lemma_resolved_plain(www: Seq<char>, p: Seq<char>)
    requires
        www.len() > 0,
        www.last() != '/',
        is_plain(p),
    ensures
        resolved(www, "/"@ + p) == www.push('/') + p,
        joined(www, p) == www.push('/') + p,
        text::without_leading("/"@ + p, '/') == p,
        text::without_trailing("/"@ + p, '/') == "/"@ + p,
{
    reveal_strlit("/");
    lemma_plain_ends(p);
    let u = "/"@ + p;
    assert(u.skip(1) =~= p);
    assert(text::without_leading(p, '/') == p);
    assert(u.last() == p.last());
    lemma_descended_plain(www, p);
}

/// A page is found by its name: the request for `/p` is answered by the file that was put
/// at `/p`, else by the one put at `/p/index.html`, else by the one put at `/p.html`, and
/// last by the site's own index. So the file put at `/p.html` answers `/p` where neither of
/// the first two is there.
pub proof fn law_a_page_is_found_by_its_name(
    store: SiteStore,
    hs_id: &str,
    p: Seq<char>,
    dir: String,
    www: &str,
    url: &str,
    found: Vec<String>,
    index_url: &str,
    html_url: &str,
    root_url: &str,
    itself: String,
    index: String,
    html: String,
    root: String,
)
    requires
        is_plain(p),
        url@ == "/"@ + p,
        index_url@ == "/"@ + p + "/index.html"@,
        html_url@ == "/"@ + p + ".html"@,
        root_url@ == "/"@,
        call_ensures(SiteStore::www_dir, (&store, hs_id), dir),
        www@ == dir@,
        call_ensures(file_candidates, (www, url), found),
        call_ensures(SiteStore::put_file, (&store, hs_id, url, true), Ok(itself)),
        call_ensures(SiteStore::put_file, (&store, hs_id, index_url, true), Ok(index)),
        call_ensures(SiteStore::put_file, (&store, hs_id, html_url, true), Ok(html)),
        call_ensures(SiteStore::put_file, (&store, hs_id, root_url, true), Ok(root)),
    ensures
        found@.len() == 4,
        found@[0]@ == itself@,
        found@[1]@ == index@,
        found@[2]@ == html@,
        found@[3]@ == root@,
{
    reveal_strlit("/");
    reveal_strlit("/index.html");
    reveal_strlit("index.html");
    reveal_strlit(".html");
    reveal_strlit("www");
    let w = store.www(hs_id@);
    assert(w.len() > 0 && w.last() == 'w');
    let slash_index = "/index.html"@;
    lemma_plain_ends(p);
    lemma_plain_longer(p, "index.html"@);
    lemma_plain_longer(p, ".html"@);
    assert(p.push('/') + "index.html"@ =~= p + slash_index);
    lemma_resolved_plain(w, p);
    lemma_resolved_plain(w, p + slash_index);
    lemma_resolved_plain(w, p + ".html"@);
    assert("/"@ + (p + slash_index) =~= index_url@);
    assert("/"@ + (p + ".html"@) =~= html_url@);
    let i = "index.html"@;
    text::lemma_index_of(i, '/');
    assert(text::split_on(i, '/') =~= seq![i]);
    reveal_strlit("..");
    assert(is_plain(i));
    lemma_descended_plain(w, i);
    assert(root_url@.skip(1) =~= Seq::empty());
    assert(text::without_leading(Seq::<char>::empty(), '/') =~= Seq::empty());
    assert(text::without_leading(root_url@, '/') =~= Seq::empty());
    assert(joined(w, i) =~= w.push('/') + i);
}

proof fn lemma_filter_from<A>(s: Seq<A>, keep: spec_fn(A) -> bool, i: int)
    requires
        0 <= i < s.filter(keep).len(),
    ensures
        s.contains(s.filter(keep)[i]),
        keep(s.filter(keep)[i]),
    decreases s.len(),
{
    reveal(Seq::filter);
    if s.len() > 0 {
        let t = s.drop_last();
        if i < t.filter(keep).len() {
            lemma_filter_from(t, keep, i);
            let j = choose|j: int| 0 <= j < t.len() && t[j] == t.filter(keep)[i];
            assert(s[j] == s.filter(keep)[i]);
        } else {
            assert(s[s.len() - 1] == s.filter(keep)[i]);
        }
    }
}

proof fn lemma_split_longer(p: Seq<char>, x: Seq<char>)
    requires
        p.len() > 0,
        p.last() != '/',
        forall|j: int| 0 <= j < x.len() ==> x[j] != '/',
    ensures
        text::split_on(p, '/').len() > 0,
        text::split_on(p, '/').last().len() > 0,
        text::split_on(p + x, '/').len() > 0,
        text::split_on(p + x, '/').last() == text::split_on(p, '/').last() + x,
    decreases p.len(),
{
    text::lemma_index_of(p, '/');
    text::lemma_index_of(p + x, '/');
    let i = text::index_of(p, '/');
    let q = p + x;
    let k = text::index_of(q, '/');
    if i < p.len() {
        assert(q[i] == '/');
        if k < i {
            assert(q[k] == p[k]);
        }
        assert(k == i);
        assert(p.skip(i + 1).last() == p.last()) by {
            assert(p[p.len() - 1] != '/');
        }
        lemma_split_longer(p.skip(i + 1), x);
        assert(q.skip(i + 1) =~= p.skip(i + 1) + x);
    } else {
        if k < q.len() {
            assert(q[k] == if k < p.len() { p[k] } else { x[k - p.len()] });
        }
        assert(text::split_on(q, '/') =~= seq![q]);
        assert(text::split_on(p, '/') =~= seq![p]);
    }
}

proof fn lemma_last_dot(t: Seq<char>, e: Seq<char>)
    requires
        forall|j: int| 0 <= j < e.len() ==> e[j] != '.',
    ensures
        last_dot(t.push('.') + e) == t.len(),
    decreases e.len(),
{
    let s = t.push('.') + e;
    if e.len() > 0 {
        assert(s.drop_last() =~= t.push('.') + e.drop_last());
        lemma_last_dot(t, e.drop_last());
    } else {
        assert(s =~= t.push('.'));
    }
}

proof fn lemma_extension(stem: Seq<char>, e: Seq<char>)
    requires
        stem.len() > 0,
        stem.last() != '/',
        e.len() > 0,
        forall|j: int| 0 <= j < e.len() ==> e[j] != '.' && e[j] != '/',
    ensures
        extension(stem.push('.') + e) == e,
{
    reveal_strlit(".");
    reveal_strlit("..");
    let x = seq!['.'] + e;
    let path = stem.push('.') + e;
    assert(path =~= stem + x);
    lemma_split_longer(stem, x);
    let parts = text::split_on(path, '/');
    let t = text::split_on(stem, '/').last();
    let name = t + x;
    assert(parts.last() == name);
    assert(name.len() > 2);
    assert(last_component(parts) == name);
    assert(name =~= t.push('.') + e);
    lemma_last_dot(t, e);
    assert(name.skip(t.len() as int + 1) =~= e);
}

/// The endings that are known differ from each other.
proof fn lemma_endings()
    ensures
        "html"@.len() == 4 && "html"@[0] == 'h' && "html"@[1] == 't' && "html"@[2] == 'm' && "html"@[3] == 'l',
        "htm"@.len() == 3 && "htm"@[0] == 'h' && "htm"@[1] == 't' && "htm"@[2] == 'm',
        "css"@.len() == 3 && "css"@[0] == 'c' && "css"@[1] == 's' && "css"@[2] == 's',
        "js"@.len() == 2 && "js"@[0] == 'j' && "js"@[1] == 's',
        "mjs"@.len() == 3 && "mjs"@[0] == 'm' && "mjs"@[1] == 'j' && "mjs"@[2] == 's',
        "json"@.len() == 4 && "json"@[0] == 'j' && "json"@[1] == 's' && "json"@[2] == 'o' && "json"@[3] == 'n',
        "svg"@.len() == 3 && "svg"@[0] == 's' && "svg"@[1] == 'v' && "svg"@[2] == 'g',
        "png"@.len() == 3 && "png"@[0] == 'p' && "png"@[1] == 'n' && "png"@[2] == 'g',
        "jpg"@.len() == 3 && "jpg"@[0] == 'j' && "jpg"@[1] == 'p' && "jpg"@[2] == 'g',
        "jpeg"@.len() == 4 && "jpeg"@[0] == 'j' && "jpeg"@[1] == 'p' && "jpeg"@[2] == 'e' && "jpeg"@[3] == 'g',
        "gif"@.len() == 3 && "gif"@[0] == 'g' && "gif"@[1] == 'i' && "gif"@[2] == 'f',
        "webp"@.len() == 4 && "webp"@[0] == 'w' && "webp"@[1] == 'e' && "webp"@[2] == 'b' && "webp"@[3] == 'p',
        "woff"@.len() == 4 && "woff"@[0] == 'w' && "woff"@[1] == 'o' && "woff"@[2] == 'f' && "woff"@[3] == 'f',
        "woff2"@.len() == 5 && "woff2"@[0] == 'w' && "woff2"@[1] == 'o' && "woff2"@[2] == 'f' && "woff2"@[3] == 'f' && "woff2"@[4] == '2',
        "ico"@.len() == 3 && "ico"@[0] == 'i' && "ico"@[1] == 'c' && "ico"@[2] == 'o',
        "txt"@.len() == 3 && "txt"@[0] == 't' && "txt"@[1] == 'x' && "txt"@[2] == 't',
        "wasm"@.len() == 4 && "wasm"@[0] == 'w' && "wasm"@[1] == 'a' && "wasm"@[2] == 's' && "wasm"@[3] == 'm',
{
    reveal_strlit("html");
    reveal_strlit("htm");
    reveal_strlit("css");
    reveal_strlit("js");
    reveal_strlit("mjs");
    reveal_strlit("json");
    reveal_strlit("svg");
    reveal_strlit("png");
    reveal_strlit("jpg");
    reveal_strlit("jpeg");
    reveal_strlit("gif");
    reveal_strlit("webp");
    reveal_strlit("woff");
    reveal_strlit("woff2");
    reveal_strlit("ico");
    reveal_strlit("txt");
    reveal_strlit("wasm");
}

/// What a file holds is told by the ending of its name, whatever stands before it.
pub proof fn law_the_type_goes_by_the_ending(stem: Seq<char>, path: &str, r: String)
    requires
        stem.len() > 0,
        stem.last() != '/',
        call_ensures(guess_mime, (path,), r),
    ensures
        path@ == stem + ".html"@ ==> r@ == "text/html; charset=utf-8"@,
        path@ == stem + ".htm"@ ==> r@ == "text/html; charset=utf-8"@,
        path@ == stem + ".css"@ ==> r@ == "text/css; charset=utf-8"@,
        path@ == stem + ".js"@ ==> r@ == "application/javascript"@,
        path@ == stem + ".mjs"@ ==> r@ == "application/javascript"@,
        path@ == stem + ".json"@ ==> r@ == "application/json"@,
        path@ == stem + ".svg"@ ==> r@ == "image/svg+xml"@,
        path@ == stem + ".png"@ ==> r@ == "image/png"@,
        path@ == stem + ".jpg"@ ==> r@ == "image/jpeg"@,
        path@ == stem + ".jpeg"@ ==> r@ == "image/jpeg"@,
        path@ == stem + ".gif"@ ==> r@ == "image/gif"@,
        path@ == stem + ".webp"@ ==> r@ == "image/webp"@,
        path@ == stem + ".woff"@ ==> r@ == "font/woff"@,
        path@ == stem + ".woff2"@ ==> r@ == "font/woff2"@,
        path@ == stem + ".ico"@ ==> r@ == "image/x-icon"@,
        path@ == stem + ".txt"@ ==> r@ == "text/plain; charset=utf-8"@,
        path@ == stem + ".wasm"@ ==> r@ == "application/wasm"@,
{
    lemma_endings();
    reveal_strlit(".html");
    if path@ == stem + ".html"@ {
        assert(stem + ".html"@ =~= stem.push('.') + "html"@);
        lemma_extension(stem, "html"@);
    }
    reveal_strlit(".htm");
    if path@ == stem + ".htm"@ {
        assert(stem + ".htm"@ =~= stem.push('.') + "htm"@);
        lemma_extension(stem, "htm"@);
    }
    reveal_strlit(".css");
    if path@ == stem + ".css"@ {
        assert(stem + ".css"@ =~= stem.push('.') + "css"@);
        lemma_extension(stem, "css"@);
    }
    reveal_strlit(".js");
    if path@ == stem + ".js"@ {
        assert(stem + ".js"@ =~= stem.push('.') + "js"@);
        lemma_extension(stem, "js"@);
    }
    reveal_strlit(".mjs");
    if path@ == stem + ".mjs"@ {
        assert(stem + ".mjs"@ =~= stem.push('.') + "mjs"@);
        lemma_extension(stem, "mjs"@);
    }
    reveal_strlit(".json");
    if path@ == stem + ".json"@ {
        assert(stem + ".json"@ =~= stem.push('.') + "json"@);
        lemma_extension(stem, "json"@);
    }
    reveal_strlit(".svg");
    if path@ == stem + ".svg"@ {
        assert(stem + ".svg"@ =~= stem.push('.') + "svg"@);
        lemma_extension(stem, "svg"@);
    }
    reveal_strlit(".png");
    if path@ == stem + ".png"@ {
        assert(stem + ".png"@ =~= stem.push('.') + "png"@);
        lemma_extension(stem, "png"@);
    }
    reveal_strlit(".jpg");
    if path@ == stem + ".jpg"@ {
        assert(stem + ".jpg"@ =~= stem.push('.') + "jpg"@);
        lemma_extension(stem, "jpg"@);
    }
    reveal_strlit(".jpeg");
    if path@ == stem + ".jpeg"@ {
        assert(stem + ".jpeg"@ =~= stem.push('.') + "jpeg"@);
        lemma_extension(stem, "jpeg"@);
    }
    reveal_strlit(".gif");
    if path@ == stem + ".gif"@ {
        assert(stem + ".gif"@ =~= stem.push('.') + "gif"@);
        lemma_extension(stem, "gif"@);
    }
    reveal_strlit(".webp");
    if path@ == stem + ".webp"@ {
        assert(stem + ".webp"@ =~= stem.push('.') + "webp"@);
        lemma_extension(stem, "webp"@);
    }
    reveal_strlit(".woff");
    if path@ == stem + ".woff"@ {
        assert(stem + ".woff"@ =~= stem.push('.') + "woff"@);
        lemma_extension(stem, "woff"@);
    }
    reveal_strlit(".woff2");
    if path@ == stem + ".woff2"@ {
        assert(stem + ".woff2"@ =~= stem.push('.') + "woff2"@);
        lemma_extension(stem, "woff2"@);
    }
    reveal_strlit(".ico");
    if path@ == stem + ".ico"@ {
        assert(stem + ".ico"@ =~= stem.push('.') + "ico"@);
        lemma_extension(stem, "ico"@);
    }
    reveal_strlit(".txt");
    if path@ == stem + ".txt"@ {
        assert(stem + ".txt"@ =~= stem.push('.') + "txt"@);
        lemma_extension(stem, "txt"@);
    }
    reveal_strlit(".wasm");
    if path@ == stem + ".wasm"@ {
        assert(stem + ".wasm"@ =~= stem.push('.') + "wasm"@);
        lemma_extension(stem, "wasm"@);
    }
}

/// Two files whose names end alike are of one type, and an ending that is not known makes
/// a file plain bytes: every type is one of a page, a style, a script, an image, a font, a
/// text, a program, or bytes.
pub proof fn law_files_that_end_alike_have_one_type(
    stem: Seq<char>,
    other: Seq<char>,
    ending: Seq<char>,
    a: &str,
    b: &str,
    ra: String,
    rb: String,
)
    requires
        stem.len() > 0,
        stem.last() != '/',
        other.len() > 0,
        other.last() != '/',
        ending.len() > 0,
        forall|j: int| 0 <= j < ending.len() ==> ending[j] != '.' && ending[j] != '/',
        a@ == stem.push('.') + ending,
        b@ == other.push('.') + ending,
        call_ensures(guess_mime, (a,), ra),
        call_ensures(guess_mime, (b,), rb),
    ensures
        ra@ == rb@,
        ending.len() > 5 ==> ra@ == "application/octet-stream"@,
{
    lemma_extension(stem, ending);
    lemma_extension(other, ending);
    reveal_strlit("html");
    reveal_strlit("htm");
    reveal_strlit("css");
    reveal_strlit("js");
    reveal_strlit("mjs");
    reveal_strlit("json");
    reveal_strlit("svg");
    reveal_strlit("png");
    reveal_strlit("jpg");
    reveal_strlit("jpeg");
    reveal_strlit("gif");
    reveal_strlit("webp");
    reveal_strlit("woff");
    reveal_strlit("woff2");
    reveal_strlit("ico");
    reveal_strlit("txt");
    reveal_strlit("wasm");
}

/// A request for a service that is not here has no answer. One for a file that was found
/// is answered with the file as it is and its type; any other with the page that says that
/// nothing is there.
pub proof fn law_requests_are_answered_with_the_file(
    store: SiteStore,
    known: bool,
    has_site: bool,
    url: &str,
    found: Option<(String, Vec<u8>)>,
    r: Option<(u16, String, Vec<u8>)>,
    path: &str,
    kind: String,
)
    requires
        call_ensures(SiteStore::get_file, (&store, known, has_site, url, found), r),
        (found matches Some((p, _)) ==> path@ == p@),
        call_ensures(guess_mime, (path,), kind),
    ensures
        r is Some <==> known,
        (found matches Some((_, body)) ==> known && has_site ==> (r matches Some((status, m, b)) && status == 200
            && m@ == kind@ && b@ == body@)),
        known && !(has_site && found is Some) ==> (r matches Some((status, _, b)) && status == 404 && b@
            == encode_utf8(pages::not_found_text(url@))),
{
}

/// Every path of a service lies in the directory of that service, and its files do not
/// meet: the metadata, the list of clients and the site are three different places.
pub proof fn law_a_service_has_places_of_its_own(
    store: SiteStore,
    hs_id: &str,
    site: String,
    meta: String,
    clients: String,
    www: String,
)
    requires
        call_ensures(SiteStore::site_dir, (&store, hs_id), site),
        call_ensures(SiteStore::meta_path, (&store, hs_id), meta),
        call_ensures(SiteStore::clients_path, (&store, hs_id), clients),
        call_ensures(SiteStore::www_dir, (&store, hs_id), www),
        hs_id@.len() > 0,
        hs_id@.last() != '/',
    ensures
        site@ == hs_id@,
        meta@ == hs_id@ + "/_meta.json"@,
        clients@ == hs_id@ + "/authorized_clients.txt"@,
        www@ == hs_id@ + "/www"@,
        meta@ != clients@ && meta@ != www@ && clients@ != www@,
{
    reveal_strlit("/_meta.json");
    reveal_strlit("_meta.json");
    reveal_strlit("/authorized_clients.txt");
    reveal_strlit("authorized_clients.txt");
    reveal_strlit("/www");
    reveal_strlit("www");
    assert(meta@ =~= hs_id@ + "/_meta.json"@);
    assert(clients@ =~= hs_id@ + "/authorized_clients.txt"@);
    assert(www@ =~= hs_id@ + "/www"@);
}

/// A file is put where a request for its address looks first, and never outside the site
/// of its service; into a service that is not here nothing is put.
pub proof fn law_files_are_put_where_they_are_looked_for(
    store: SiteStore,
    hs_id: &str,
    url: &str,
    known: bool,
    put: Result<String, Error>,
    looked: String,
)
    requires
        call_ensures(SiteStore::put_file, (&store, hs_id, url, known), put),
        call_ensures(SiteStore::resolve, (&store, hs_id, url), looked),
    ensures
        put is Ok <==> known,
        put is Ok ==> put->Ok_0@ == looked@,
        put is Err ==> put->Err_0 is NotFound,
        lies_below(looked@, store.www(hs_id@)),
{
}

/// A client that was taken off the list is no longer on it, the others stay, in order; the
/// last one takes the list with it. One that was not listed changes nothing.
pub proof fn law_removed_clients_are_not_listed(
    store: SiteStore,
    hs_id: &str,
    content: &str,
    client: &str,
    before: Vec<String>,
    r: Result<ClientsUpdate, Error>,
    text: String,
    written: &str,
    after: Vec<String>,
)
    requires
        keyless(hs_id@),
        call_ensures(SiteStore::list_authorized_clients, (&store, Some(content)), before),
        call_ensures(SiteStore::remove_authorized_client, (&store, hs_id, true, Some(content), client), r),
        r == Ok::<ClientsUpdate, Error>(ClientsUpdate::Write(text)),
        written@ == text@,
        call_ensures(SiteStore::list_authorized_clients, (&store, Some(written)), after),
    ensures
        forall|k: Seq<char>| #[trigger]
            text::texts(after@).contains(k) <==> text::texts(before@).contains(k) && k != normalized(client@),
        text::texts(before@).contains(normalized(client@)),
{
    let keys = client_keys(content@);
    let key = normalized(client@);
    let keep = |k: Seq<char>| k != key;
    let rest = keys.filter(keep);
    broadcast use vstd::seq_lib::group_filter_ensures;

    assert forall|i: int| 0 <= i < rest.len() implies is_client_key(#[trigger] rest[i]) && text::lowered(rest[i])
        == rest[i] by {
        lemma_filter_from(keys, keep, i);
        let j = choose|j: int| 0 <= j < keys.len() && keys[j] == rest[i];
        lemma_listed_keys(text::split_on(content@, '\n'), j);
    }
    law_client_lists_read_back(hs_id@, rest);
    assert(text::texts(after@) == rest);
    assert forall|k: Seq<char>| #[trigger] rest.contains(k) <==> keys.contains(k) && k != key by {
        if rest.contains(k) {
            lemma_filter_from(keys, keep, choose|i: int| 0 <= i < rest.len() && rest[i] == k);
        }
        if keys.contains(k) && k != key {
            let j = choose|j: int| 0 <= j < keys.len() && keys[j] == k;
            assert(keep(keys[j]));
        }
    }
}

/// A list is changed exactly for what it needs: adding writes it unless the client is on
/// it, removing unless the client is not; what is no key, and what belongs to a service
/// that is not here, is refused.
pub proof fn law_when_a_client_list_changes(
    store: SiteStore,
    hs_id: &str,
    known: bool,
    content: &str,
    client: &str,
    listed: Vec<String>,
    added: Result<ClientsUpdate, Error>,
    removed: Result<ClientsUpdate, Error>,
)
    requires
        call_ensures(SiteStore::list_authorized_clients, (&store, Some(content)), listed),
        call_ensures(SiteStore::add_authorized_client, (&store, hs_id, known, Some(content), client), added),
        call_ensures(
            SiteStore::remove_authorized_client,
            (&store, hs_id, known, Some(content), client),
            removed,
        ),
    ensures
        added is Ok <==> known && is_client_key(normalized(client@)),
        removed is Ok <==> known,
        added is Ok ==> (added->Ok_0 is Unchanged <==> text::texts(listed@).contains(normalized(client@))),
        added is Ok ==> !(added->Ok_0 is Delete),
        removed is Ok ==> (removed->Ok_0 is Unchanged <==> !text::texts(listed@).contains(
            normalized(client@),
        )),
        removed is Ok ==> (removed->Ok_0 is Delete <==> text::texts(listed@).contains(normalized(client@))
            && forall|k: Seq<char>| #[trigger]
            text::texts(listed@).contains(k) ==> k == normalized(client@)),
        !known ==> added->Err_0 is NotFound && removed->Err_0 is NotFound,
        known && added is Err ==> added->Err_0 is Crypto,
{
    let keys = client_keys(content@);
    let key = normalized(client@);
    let keep = |k: Seq<char>| k != key;
    let rest = keys.filter(keep);
    broadcast use vstd::seq_lib::group_filter_ensures;

    if rest.len() > 0 {
        lemma_filter_from(keys, keep, 0);
        assert(keys.contains(rest[0]));
    }
    if exists|k: Seq<char>| #[trigger] keys.contains(k) && k != key {
        let k = choose|k: Seq<char>| #[trigger] keys.contains(k) && k != key;
        let j = choose|j: int| 0 <= j < keys.len() && keys[j] == k;
        assert(keep(keys[j]));
        assert(rest.contains(keys[j]));
    }
}

/// Hidden files and compiled scripts are not deployed, everything else is, under the path
/// it has below the site with its separators turned forward.
pub proof fn law_what_is_deployed_and_where(name: &str, skipped: bool, rel: &str, url: String)
    requires
        call_ensures(skips_entry, (name,), skipped),
        call_ensures(deploy_url, (rel,), url),
    ensures
        name@.len() > 0 && name@[0] == '.' ==> skipped,
        skipped ==> (name@.len() > 0 && name@[0] == '.') || (name@.len() >= 4 && name@.skip(name@.len() - 4)
            == ".pyc"@),
        name@.len() >= 4 && name@.skip(name@.len() - 4) == ".pyc"@ ==> skipped,
        url@.len() == rel@.len() + 1,
        url@[0] == '/',
        forall|i: int|
            0 <= i < rel@.len() ==> #[trigger] url@[i + 1] == if rel@[i] == '\\' {
                '/'
            } else {
                rel@[i]
            },
{
    reveal_strlit(".");
    reveal_strlit(".pyc");
    reveal_strlit("/");
    if name@.len() > 0 && name@[0] == '.' {
        assert(name@.take(1) =~= "."@);
    }
    if text::starts_with(name@, "."@) {
        assert(name@.take(1)[0] == name@[0]);
    }
}

/// The node's files lie in one directory under the home, or under the current directory
/// where there is none.
pub proof fn law_the_nodes_files_lie_under_the_home(
    home: std::path::PathBuf,
    a: std::path::PathBuf,
    b: std::path::PathBuf,
)
    requires
        call_ensures(phinet_dir_in, (Some(home),), a),
        call_ensures(phinet_dir_in, (None,), b),
    ensures
        a == below(home, ".phinet"@),
        b == below(path_of("."@), ".phinet"@),
{
}

/// The identity of a service is kept in a file that carries its name, and every other
/// file of the node in the same directory.
pub proof fn law_every_file_has_its_name(
    name: &str,
    service: std::path::PathBuf,
    node: std::path::PathBuf,
    sites: std::path::PathBuf,
)
    requires
        forall|i: int|
            0 <= i < name@.len() ==> ('a' <= #[trigger] name@[i] <= 'z' || 'A' <= name@[i] <= 'Z' || '0' <= name@[i]
                <= '9' || name@[i] == '.' || name@[i] == '_' || name@[i] == '-'),
        call_ensures(hs_identity_path, (name,), service),
        call_ensures(identity_path, (), node),
        call_ensures(sites_dir, (), sites),
    ensures
        exists|home: Option<std::path::PathBuf>|
            is_home(home) && service == below(
                #[trigger] node_dir(home),
                "hs_identity_"@ + name@ + ".json"@,
            ),
        exists|home: Option<std::path::PathBuf>|
            is_home(home) && node == below(#[trigger] node_dir(home), "identity.json"@),
        exists|home: Option<std::path::PathBuf>|
            is_home(home) && sites == below(#[trigger] node_dir(home), "sites"@),
{
    assert(sanitized(name@) =~= name@);
}

/// A line of a client list that holds a key lists it, in lower case and without the white
/// space round it; a comment lists nothing, whatever it says.
pub proof fn law_what_a_line_lists(line: Seq<char>, content: &str, r: Vec<String>)
    requires
        content@ == line,
        !line.contains('\n'),
        call_ensures(parse_clients, (content,), r),
    ensures
        ({
            let t = text::trimmed(line);
            let key = t.len() == 64 && forall|i: int| 0 <= i < t.len() ==> text::hex_value(#[trigger] t[i]) >= 0;
            &&& key ==> text::texts(r@) == seq![text::lowered(t)]
            &&& !key ==> r@.len() == 0
        }),
{
    text::lemma_index_of(line, '\n');
    if text::index_of(line, '\n') < line.len() {
        assert(line[text::index_of(line, '\n')] == '\n');
    }
    let lines = text::split_on(line, '\n');
    assert(lines =~= seq![line]);
    assert(lines.drop_last() =~= Seq::empty());
    assert(keys_on_lines(lines.drop_last()) =~= Seq::empty());
    let t = text::trimmed(line);
    let l = text::lowered(t);
    assert forall|i: int| 0 <= i < t.len() implies (text::hex_value(#[trigger] t[i]) >= 0) == (text::hex_value(l[i]) >= 0) by {
    }
    assert(text::texts(r@) == keys_on_lines(lines));
    if is_client_key(l) {
        assert forall|i: int| 0 <= i < t.len() implies text::hex_value(#[trigger] t[i]) >= 0 by {
            assert(text::hex_value(l[i]) >= 0);
        }
        assert(text::hex_value(t[0]) >= 0);
        assert(keys_on_lines(lines) =~= seq![l]);
    } else {
        if t.len() == 64 && forall|i: int| 0 <= i < t.len() ==> text::hex_value(#[trigger] t[i]) >= 0 {
            assert forall|i: int| 0 <= i < l.len() implies text::hex_value(#[trigger] l[i]) >= 0 by {
                assert(text::hex_value(t[i]) >= 0);
            }
        }
        assert(keys_on_lines(lines) =~= Seq::empty());
        assert(text::texts(r@).len() == 0);
    }
}

/// The path that leads from `www` down through the components.
pub open spec fn down_through(www: Seq<char>, parts: Seq<Seq<char>>) -> Seq<char>
    decreases parts.len(),
{
    if parts.len() == 0 {
        www
    } else {
        down_through(www, parts.drop_last()).push('/') + parts.last()
    }
}

proof fn lemma_down_through(www: Seq<char>, parts: Seq<Seq<char>>)
    requires
        www.len() > 0,
        www.last() != '/',
        forall|i: int| 0 <= i < parts.len() ==> !(#[trigger] parts[i]).contains('/'),
    ensures
        descended(www, parts) == down_through(
            www,
            parts.filter(|p: Seq<char>| p.len() > 0 && p != seq!['.', '.']),
        ),
        descended(www, parts).len() > 0,
        descended(www, parts).last() != '/',
    decreases parts.len(),
{
    reveal(Seq::filter);
    reveal_strlit("..");
    assert(".."@ =~= seq!['.', '.']);
    let keep = |p: Seq<char>| p.len() > 0 && p != seq!['.', '.'];
    if parts.len() > 0 {
        let rest = parts.drop_last();
        let p = parts.last();
        assert forall|i: int| 0 <= i < rest.len() implies !(#[trigger] rest[i]).contains('/') by {
            assert(rest[i] == parts[i]);
        }
        lemma_down_through(www, rest);
        if keep(p) {
            let f = rest.filter(keep);
            assert(parts.filter(keep) == f.push(p));
            assert(f.push(p).drop_last() =~= f);
            assert(!parts[parts.len() - 1].contains('/'));
            assert(p[0] != '/') by {
                if p[0] == '/' {
                    assert(p.contains(p[0]));
                }
            }
            assert(p.last() != '/') by {
                if p.last() == '/' {
                    assert(p.contains(p[p.len() - 1]));
                }
            }
            let d = descended(www, rest);
            assert(joined(d, p) =~= d.push('/') + p);
        }
    }
}

/// An address never leads out of the site: it is resolved by going down through those of
/// its components that name something, and one that would lead up is passed over. An address
/// without a path is that of the index.
pub proof fn law_addresses_lead_down(store: SiteStore, hs_id: &str, url: &str, www: String, r: String)
    requires
        call_ensures(SiteStore::www_dir, (&store, hs_id), www),
        call_ensures(SiteStore::resolve, (&store, hs_id, url), r),
    ensures
        ({
            let rel = text::without_leading(url@, '/');
            let parts = text::split_on(
                if rel.len() == 0 {
                    "index.html"@
                } else {
                    rel
                },
                '/',
            );
            r@ == down_through(www@, parts.filter(|p: Seq<char>| p.len() > 0 && p != seq!['.', '.']))
        }),
{
    reveal_strlit("www");
    let rel = text::without_leading(url@, '/');
    let s = if rel.len() == 0 {
        "index.html"@
    } else {
        rel
    };
    assert(www@.len() > 0 && www@.last() == 'w');
    text::law_splitting_loses_nothing(s, '/');
    lemma_down_through(www@, text::split_on(s, '/'));
}

/// A part is put behind a path with one slash between, and one that begins with a slash
/// stands for itself.
pub proof fn law_how_paths_are_joined(path: &str, part: &str, r: String)
    requires
        call_ensures(join_path, (path, part), r),
    ensures
        part@.len() > 0 && part@[0] == '/' ==> r@ == part@,
        !(part@.len() > 0 && part@[0] == '/') && path@.len() > 0 && path@.last() != '/' ==> r@ == path@.push('/') + part@,
        !(part@.len() > 0 && part@[0] == '/') && (path@.len() == 0 || path@.last() == '/') ==> r@ == path@ + part@,
{
}

/// A service is created under its name and identifier, at the time that the clock says, and
/// the services are listed from the newest on, all of them.
pub proof fn law_services_are_created_and_listed(
    store: SiteStore,
    hs_id: &str,
    name: &str,
    nonce: &str,
    m: SiteMeta,
    metas: Vec<SiteMeta>,
    r: Vec<SiteMeta>,
    i: int,
    j: int,
)
    requires
        call_ensures(SiteStore::create_service, (&store, hs_id, name, nonce), m),
        call_ensures(SiteStore::list_services, (&store, metas), r),
    ensures
        m.hs_id@ == hs_id@ && m.name@ == name@ && m.nonce_hex@ == nonce@ && clock::is_now(m.created),
        r@.len() == metas@.len(),
        0 <= i < j < r@.len() ==> r@[i].created >= r@[j].created,
        0 <= i < metas@.len() ==> r@.contains(metas@[i]),
{
    r@.to_multiset_ensures();
    metas@.to_multiset_ensures();
    assert(r@.to_multiset().len() == metas@.to_multiset().len());
    if 0 <= i < metas@.len() {
        assert(metas@.contains(metas@[i]));
        assert(metas@.to_multiset().contains(metas@[i]));
        assert(r@.to_multiset().contains(metas@[i]));
    }
}

/// Where there is no site, and where nothing was found, a page says so.
pub proof fn law_what_kind_of_page_says_so(
    store: SiteStore,
    url: &str,
    found: Option<(String, Vec<u8>)>,
    bare: Option<(u16, String, Vec<u8>)>,
    missing: Option<(u16, String, Vec<u8>)>,
)
    requires
        call_ensures(SiteStore::get_file, (&store, true, false, url, found), bare),
        call_ensures(SiteStore::get_file, (&store, true, true, url, None), missing),
    ensures
        bare matches Some((_, m, _)) && m@ == "text/html"@,
        missing matches Some((_, m, _)) && m@ == "text/html; charset=utf-8"@,
{
}

/// A store keeps what it is given under its root.
pub proof fn law_a_store_keeps_to_its_root(root: std::path::PathBuf, store: SiteStore, path: &str, r: std::path::PathBuf)
    requires
        call_ensures(SiteStore::at, (root,), store),
        call_ensures(SiteStore::place, (&store, path), r),
    ensures
        r == below(root, path@),
{
}

/// The file that was put at `/p.html` answers `/p`: where neither a file nor a directory with
/// an index of that name is there, it is the first of the places looked at that is, and the
/// answer is what it holds, as a page.
pub proof fn law_an_html_file_answers_for_its_name(
    store: SiteStore,
    hs_id: &str,
    p: Seq<char>,
    dir: String,
    www: &str,
    url: &str,
    found: Vec<String>,
    index_url: &str,
    html_url: &str,
    root_url: &str,
    itself: String,
    index: String,
    html: String,
    root: String,
    there: spec_fn(Seq<char>) -> bool,
    i: int,
    first: String,
    body: Vec<u8>,
    r: Option<(u16, String, Vec<u8>)>,
)
    requires
        is_plain(p),
        url@ == "/"@ + p,
        index_url@ == "/"@ + p + "/index.html"@,
        html_url@ == "/"@ + p + ".html"@,
        root_url@ == "/"@,
        call_ensures(SiteStore::www_dir, (&store, hs_id), dir),
        www@ == dir@,
        call_ensures(file_candidates, (www, url), found),
        call_ensures(SiteStore::put_file, (&store, hs_id, url, true), Ok(itself)),
        call_ensures(SiteStore::put_file, (&store, hs_id, index_url, true), Ok(index)),
        call_ensures(SiteStore::put_file, (&store, hs_id, html_url, true), Ok(html)),
        call_ensures(SiteStore::put_file, (&store, hs_id, root_url, true), Ok(root)),
        there(html@),
        !there(itself@),
        !there(index@),
        0 <= i < found@.len(),
        there(found@[i]@),
        forall|k: int| 0 <= k < i ==> !there(#[trigger] found@[k]@),
        first@ == found@[i]@,
        call_ensures(SiteStore::get_file, (&store, true, true, url, Some((first, body))), r),
    ensures
        first@ == html@,
        r matches Some((status, kind, b)) && status == 200 && kind@ == "text/html; charset=utf-8"@ && b@ == body@,
{
    law_a_page_is_found_by_its_name(
        store,
        hs_id,
        p,
        dir,
        www,
        url,
        found,
        index_url,
        html_url,
        root_url,
        itself,
        index,
        html,
        root,
    );
    assert(!there(found@[0]@) && !there(found@[1]@));
    if i > 2 {
        assert(!there(found@[2]@));
    }
    assert(i == 2);
    reveal_strlit("/");
    reveal_strlit(".html");
    reveal_strlit("html");
    reveal_strlit("www");
    let w = store.www(hs_id@);
    assert(w.len() > 0 && w.last() == 'w');
    lemma_plain_ends(p);
    assert forall|j: int| 0 <= j < ".html"@.len() implies ".html"@[j] != '/' by {
    }
    lemma_plain_longer(p, ".html"@);
    lemma_resolved_plain(w, p + ".html"@);
    assert("/"@ + (p + ".html"@) =~= html_url@);
    let stem = w.push('/') + p;
    assert(html@ =~= stem.push('.') + "html"@);
    assert(stem.last() == p.last());
    lemma_extension(stem, "html"@);
}

} // verus!
