use phinet_core::errors::Error;
use phinet_core::pages::{default_index_html, not_found_html, site_style, starter_site_files};
use phinet_core::store::{
    deploy_url, file_candidates, guess_mime, hs_identity_path, identity_path, join_path,
    normalize_key, parse_clients, phinet_dir, phinet_dir_in, sites_dir, skips_entry,
    ClientsUpdate, SiteMeta, SiteStore,
};

use std::path::PathBuf;

fn store() -> SiteStore {
    SiteStore::at("/data/sites".into())
}

fn fake_pub_hex(seed: u8) -> String {
    let mut bytes = [0u8; 32];
    bytes[0] = seed;
    bytes[31] = seed.wrapping_add(99);
    hex::encode(bytes)
}

/// A service's list of clients, kept as the file it would be written to.
struct Clients {
    id: &'static str,
    file: Option<String>,
}

impl Clients {
    fn new(id: &'static str) -> Self {
        Clients { id, file: None }
    }

    fn apply(&mut self, u: ClientsUpdate) -> bool {
        match u {
            ClientsUpdate::Unchanged => false,
            ClientsUpdate::Write(s) => {
                self.file = Some(s);
                true
            }
            ClientsUpdate::Delete => {
                self.file = None;
                true
            }
        }
    }

    fn add(&mut self, key: &str) -> Result<bool, Error> {
        let u = store().add_authorized_client(self.id, true, self.file.as_deref(), key)?;
        Ok(self.apply(u))
    }

    fn remove(&mut self, key: &str) -> Result<bool, Error> {
        let u = store().remove_authorized_client(self.id, true, self.file.as_deref(), key)?;
        Ok(self.apply(u))
    }

    fn list(&self) -> Vec<String> {
        store().list_authorized_clients(self.file.as_deref())
    }
}

#[test]
fn create_and_read() {
    let m = store().create_service("aaaa0000bbbb1111cccc", "test", "ff");
    assert_eq!(m.name, "test");
    assert_eq!(m.hs_id, "aaaa0000bbbb1111cccc");
    assert_eq!(m.nonce_hex, "ff");
    assert!(m.created > 1_600_000_000);
    let meta = store().meta_path("aaaa0000bbbb1111cccc");
    assert_eq!(
        store().place(&meta),
        PathBuf::from("/data/sites/aaaa0000bbbb1111cccc/_meta.json")
    );
}

#[test]
fn put_and_get_file() {
    let s = store();
    let id = "1111222233334444aaaa";
    let dest = s.put_file(id, "/hello.txt", true).unwrap();
    assert_eq!(dest, join_path(&s.www_dir(id), "hello.txt"));
    // The file is the first place that a request for it looks at.
    assert_eq!(file_candidates(&s.www_dir(id), "/hello.txt")[0], dest);
    let (status, ct, body) = s
        .get_file(true, true, "/hello.txt", Some((dest, b"world".to_vec())))
        .unwrap();
    assert_eq!(status, 200);
    assert_eq!(body, b"world");
    assert!(ct.contains("plain"));
}

#[test]
fn authorized_clients_empty_by_default() {
    let clients = Clients::new("svc1aaaaaaaaaaaaaaaa").list();
    assert!(clients.is_empty(),
        "newly-created service must have no authorized clients (= public)");
}

#[test]
fn add_authorized_client_succeeds() {
    let mut c = Clients::new("svc2aaaaaaaaaaaaaaaa");
    let pubk = fake_pub_hex(1);
    assert!(c.add(&pubk).unwrap());
    assert_eq!(c.list(), vec![pubk]);
}

#[test]
fn add_duplicate_returns_false() {
    let mut c = Clients::new("svc3aaaaaaaaaaaaaaaa");
    let pubk = fake_pub_hex(2);
    assert!(c.add(&pubk).unwrap());
    assert!(!c.add(&pubk).unwrap());
    assert_eq!(c.list().len(), 1, "duplicate must not be re-added");
}

#[test]
fn malformed_pubkey_rejected() {
    let mut c = Clients::new("svc4aaaaaaaaaaaaaaaa");
    // Wrong length
    assert!(c.add("deadbeef").is_err());
    // Non-hex
    let bad = "g".repeat(64);
    assert!(c.add(&bad).is_err());
}

#[test]
fn remove_authorized_client_works() {
    let mut c = Clients::new("svc5aaaaaaaaaaaaaaaa");
    let p1 = fake_pub_hex(1);
    let p2 = fake_pub_hex(2);
    c.add(&p1).unwrap();
    c.add(&p2).unwrap();
    assert!(c.remove(&p1).unwrap());
    assert_eq!(c.list(), vec![p2]);
}

#[test]
fn remove_nonexistent_returns_false() {
    let mut c = Clients::new("svc6aaaaaaaaaaaaaaaa");
    let p = fake_pub_hex(1);
    assert!(!c.remove(&p).unwrap());
}

#[test]
fn removing_last_client_clears_file() {
    let mut c = Clients::new("svc7aaaaaaaaaaaaaaaa");
    let p = fake_pub_hex(1);
    c.add(&p).unwrap();
    c.remove(&p).unwrap();
    assert!(c.list().is_empty());
    assert!(c.file.is_none());
}

#[test]
fn comments_and_blanks_are_skipped() {
    let p = fake_pub_hex(1);
    let body = format!("# alice's key\n\n{}\n# trailing\n", p);
    let listed = store().list_authorized_clients(Some(&body));
    assert_eq!(listed, vec![p]);
}

#[test]
fn index_fallback() {
    let s = store();
    let id = "bbbb2222cccc3333dddd";
    let index = join_path(&s.www_dir(id), "index.html");
    let places = file_candidates(&s.www_dir(id), "/");
    assert_eq!(places.last(), Some(&index));
    let (status, ct, body) = s
        .get_file(true, true, "/", Some((index, default_index_html("s", id))))
        .unwrap();
    assert_eq!(status, 200);
    assert!(ct.contains("html"));
    assert!(!body.is_empty());
}

#[test]
fn unknown_service_none() {
    assert!(store().get_file(false, false, "/", None).is_none());
}

#[test]
fn path_traversal_blocked() {
    let s = store();
    let p = s.resolve("ffff0000aaaa1111bbbb", "/../../../etc/passwd");
    let www = s.www_dir("ffff0000aaaa1111bbbb");
    assert!(p.starts_with(&www), "resolved path escaped www_dir: {:?}", p);
    assert!(!p.contains(".."));
}

#[test]
fn list_services() {
    let s = store();
    let a = s.create_service("aaaa1111bbbb2222cccc", "a", "00");
    let b = s.create_service("bbbb2222cccc3333dddd", "b", "00");
    assert_eq!(s.list_services(vec![a, b]).len(), 2);
}

#[test]
fn newest_services_come_first() {
    let meta = |name: &str, created: u64| SiteMeta {
        name: name.into(),
        hs_id: String::new(),
        nonce_hex: String::new(),
        created,
    };
    let listed = store().list_services(vec![meta("old", 1), meta("new", 9), meta("mid", 5)]);
    let names: Vec<&str> = listed.iter().map(|m| m.name.as_str()).collect();
    assert_eq!(names, vec!["new", "mid", "old"]);
}

#[test]
fn a_missing_page_is_answered_with_the_path() {
    let s = store();
    let (status, ct, body) = s.get_file(true, true, "/nope<b>", None).unwrap();
    assert_eq!(status, 404);
    assert_eq!(ct, "text/html; charset=utf-8");
    assert_eq!(body, not_found_html("/nope<b>"));
    let (status, ct, _) = s.get_file(true, false, "/x", None).unwrap();
    assert_eq!(status, 404);
    assert_eq!(ct, "text/html");
}

#[test]
fn files_of_unknown_services_are_refused() {
    assert!(matches!(store().put_file("none", "/a", false), Err(Error::NotFound(_))));
    assert!(matches!(
        store().add_authorized_client("none", false, None, &fake_pub_hex(1)),
        Err(Error::NotFound(_))
    ));
}

#[test]
fn kinds_of_files_are_guessed_by_extension() {
    assert!(guess_mime("/a/b.html").contains("html"));
    assert!(guess_mime("x.css").contains("css"));
    assert!(guess_mime("x.js").contains("javascript"));
    assert_eq!(guess_mime("x.png"), "image/png");
    assert_eq!(guess_mime("x.unknown"), "application/octet-stream");
}

#[test]
fn the_home_directory_decides_where_things_live() {
    assert_eq!(phinet_dir_in(Some("/home/u".into())), PathBuf::from("/home/u/.phinet"));
    assert_eq!(phinet_dir_in(None), PathBuf::from("./.phinet"));
    assert_eq!(phinet_dir(), phinet_dir_in(dirs::home_dir()));
    assert_eq!(sites_dir(), phinet_dir().join("sites"));
    assert_eq!(identity_path(), phinet_dir().join("identity.json"));
    assert_eq!(SiteStore::new().root, sites_dir());
    assert_eq!(SiteStore::new().clone().root, sites_dir());
    assert_eq!(SiteStore::default().place("a/b"), sites_dir().join("a").join("b"));
}

#[test]
fn identity_files_stay_in_their_directory() {
    let p = hs_identity_path("../../etc/x");
    assert_eq!(p, phinet_dir().join("hs_identity_.._.._etc_x.json"));
    assert_eq!(p.parent(), Some(phinet_dir().as_path()));
}

#[test]
fn keys_are_compared_in_lower_case() {
    assert_eq!(normalize_key(" ABcd\n"), "abcd");
    let key = fake_pub_hex(0xab);
    assert_eq!(parse_clients(&format!("#x\n {} \n\nabcd\n", key.to_uppercase())), vec![key]);
}

#[test]
fn hidden_entries_are_not_deployed() {
    assert!(skips_entry(".git"));
    assert!(!skips_entry("index.html"));
    assert_eq!(deploy_url("css/a.css"), "/css/a.css");
}

#[test]
fn a_starter_site_is_complete() {
    let files = starter_site_files("Me", "abc");
    assert!(files.iter().any(|(n, _)| *n == "/index.html"));
    assert!(files.iter().any(|(_, body)| body.contains("abc.phinet")));
    assert!(!site_style().is_empty());
    let index = String::from_utf8(default_index_html("Me", "abc")).unwrap();
    assert!(index.contains("<title>Me</title>"));
    assert!(index.contains("abc.phinet"));
}

#[test]
fn identifiers_of_several_lines_keep_their_clients() {
    let key = fake_pub_hex(7);
    let mut c = Clients::new("one\ntwo\n# three\n");
    assert!(c.add(&key).unwrap());
    assert!(c.add(&fake_pub_hex(8)).unwrap());
    assert_eq!(c.list(), vec![key.clone(), fake_pub_hex(8)]);
    assert!(!c.add(&key).unwrap());
}
