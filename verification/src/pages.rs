//! The pages that a hidden service serves out of the box.

use vstd::prelude::*;
use vstd::string::*;
use vstd::utf8::*;

verus! {

/// The style sheet of the built-in pages.
pub const SITE_STYLE: &'static str = "*,*::before,*::after{box-sizing:border-box;margin:0;padding:0}:root{--bg:#0a0a14;--surface:#12121e;--card:#17172a;--border:rgba(90,110,200,.18);--accent:#4a7ef0;--accent2:#7aa8ff;--text:#d8e4f8;--muted:#8898bb;--max-w:860px}body{font-family:Inter,'Segoe UI',system-ui,sans-serif;background:var(--bg);color:var(--text);line-height:1.7;min-height:100vh;display:flex;flex-direction:column}a{color:var(--accent2);text-decoration:none}a:hover{text-decoration:underline}header{background:rgba(10,10,20,.9);border-bottom:1px solid var(--border);position:sticky;top:0;z-index:100}nav{max-width:var(--max-w);margin:0 auto;padding:1rem 2rem;display:flex;align-items:center;justify-content:space-between}.logo{font-weight:700;font-size:1.05rem;color:var(--accent2)}.nav-links{display:flex;gap:1.5rem}.nav-links a{color:var(--muted);font-size:.9rem;transition:color .15s}.nav-links a:hover{color:var(--text);text-decoration:none}main{flex:1;max-width:var(--max-w);width:100%;margin:0 auto;padding:3rem 2rem 4rem}.hero{text-align:center;padding:4rem 2rem 3rem}.badge{display:inline-block;background:rgba(74,126,240,.12);border:1px solid rgba(74,126,240,.3);color:var(--accent2);font-size:.72rem;font-weight:600;letter-spacing:.1em;text-transform:uppercase;padding:.3rem .9rem;border-radius:99px;margin-bottom:1.5rem}h1{font-size:clamp(2rem,6vw,3rem);font-weight:800;letter-spacing:-.02em;color:var(--accent2);margin-bottom:.5rem;line-height:1.15}.tagline{color:var(--muted);font-size:1.05rem;margin-bottom:1.5rem}.addr{display:inline-block;font-family:monospace;font-size:.75rem;background:var(--surface);border:1px solid var(--border);border-radius:8px;padding:.5rem 1.1rem;color:var(--accent2);word-break:break-all;max-width:100%}.card{background:var(--card);border:1px solid var(--border);border-radius:16px;padding:2rem;margin-bottom:2rem}.card h2,.card > h2{font-size:1.2rem;font-weight:700;color:var(--text);margin-bottom:.75rem}.card p{color:var(--muted);margin-bottom:.75rem}.card p:last-child{margin-bottom:0}section{background:var(--card);border:1px solid var(--border);border-radius:16px;padding:2rem;margin-bottom:2rem}section h2{font-size:1.2rem;font-weight:700;color:var(--text);margin-bottom:.75rem}section p{color:var(--muted);margin-bottom:.75rem}section p:last-child{margin-bottom:0}code{font-family:monospace;background:rgba(74,126,240,.1);border:1px solid rgba(74,126,240,.2);border-radius:5px;padding:2px 7px;font-size:.85em;color:var(--accent2)}.features{display:grid;grid-template-columns:repeat(4,1fr);gap:1rem;margin-bottom:2rem}.feature{background:var(--card);border:1px solid var(--border);border-radius:12px;padding:1.25rem 1rem;text-align:center;font-size:.8rem;color:var(--muted);line-height:1.4}.feature .icon{font-size:1.4rem;margin-bottom:.4rem}@media(max-width:600px){.features{grid-template-columns:repeat(2,1fr)}main{padding:2rem 1rem 3rem}nav{padding:.8rem 1rem}}footer{text-align:center;padding:1.5rem;border-top:1px solid var(--border);font-size:.78rem;color:var(--muted);font-family:monospace}";

/// The script of the starter site.
pub const STARTER_SCRIPT: &'static str = "document.addEventListener('DOMContentLoaded',()=>{\n  const els=document.querySelectorAll('.hero,.card,.feature');\n  els.forEach((el,i)=>{\n    el.style.cssText='opacity:0;transform:translateY(16px);transition:opacity .4s ease,transform .4s ease';\n    setTimeout(()=>{el.style.opacity='1';el.style.transform='none';},80*i);\n  });\n});";

pub const INDEX_0: &'static str = "<!DOCTYPE html><html lang=\"en\"><head><meta charset=\"utf-8\"><meta name=\"viewport\" content=\"width=device-width,initial-scale=1\"><title>";

pub const INDEX_1: &'static str = "</title><style>";

pub const INDEX_2: &'static str = "</style></head><body><header><nav><span class=\"logo\">&#x2B21; ";

pub const INDEX_3: &'static str = "</span></nav></header><main><div class=\"hero\"><div class=\"badge\">Hidden Service</div><h1>";

pub const INDEX_4: &'static str = "</h1><p class=\"tagline\">Live on the anonymous network</p><div class=\"addr\">";

pub const INDEX_5: &'static str = ".phinet</div></div><div class=\"card\"><h2>Deploy your content</h2><p>Your hidden service is registered. Deploy a site:</p><p><code>phi init \"";

pub const INDEX_6: &'static str = "\" ./site/</code></p><p><code>phi deploy ";

pub const INDEX_7: &'static str = " ./site/</code></p></div></main><footer><p>PHINET &middot; anonymous &middot; encrypted &middot; no tracking</p></footer></body></html>";

pub const NOT_FOUND_0: &'static str = "<!DOCTYPE html><html><head><meta charset=\"utf-8\"><title>404</title><style>";

pub const NOT_FOUND_1: &'static str = "</style></head><body><main style=\"padding-top:4rem\"><div class=\"card\"><h2 style=\"color:#f87171\">404 &mdash; Not Found</h2><p>The path <code>";

pub const NOT_FOUND_2: &'static str = "</code> was not found on this hidden service.</p><p><a href=\"/\">Back to home &rarr;</a></p></div></main><footer><p>PHINET</p></footer></body></html>";

pub const STARTER_0: &'static str = "<!DOCTYPE html>\n<html lang=\"en\">\n<head>\n<meta charset=\"utf-8\">\n<meta name=\"viewport\" content=\"width=device-width,initial-scale=1\">\n<title>";

pub const STARTER_1: &'static str = "</title>\n<link rel=\"stylesheet\" href=\"/style.css\">\n</head>\n<body>\n<header><nav>\n<a href=\"/\" class=\"logo\">&#x2B21; ";

pub const STARTER_2: &'static str = "</a>\n<div class=\"nav-links\">\n<a href=\"/\">Home</a>\n<a href=\"/about.html\">About</a>\n</div>\n</nav></header>\n<main>\n<div class=\"hero\">\n<div class=\"badge\">PHINET Hidden Service</div>\n<h1>";

pub const STARTER_3: &'static str = "</h1>\n<p class=\"tagline\">Your anonymous home on PHINET</p>\n<div class=\"addr\">";

pub const STARTER_4: &'static str = ".phinet</div>\n</div>\n<div class=\"card\">\n<h2>Welcome</h2>\n<p>Edit this page to make it your own. This site is hosted anonymously\non PHINET — no server knows your IP, no CA signed your certificate,\nno registrar owns your address.</p>\n<p>Re-deploy with: <code>phi deploy ";

pub const STARTER_5: &'static str = " ./site/</code></p>\n</div>\n<div class=\"features\">\n<div class=\"feature\"><div class=\"icon\">&#x1F512;</div>E2E Encrypted</div>\n<div class=\"feature\"><div class=\"icon\">&#x1F9C5;</div>3-Hop Onion</div>\n<div class=\"feature\"><div class=\"icon\">&#x1F6AB;</div>No Tracking</div>\n<div class=\"feature\"><div class=\"icon\">&#x26AB;</div>No IP Exposed</div>\n</div>\n</main>\n<footer><p>Hosted on PHINET &middot; anonymous &middot; encrypted &middot; no tracking</p></footer>\n<script src=\"/app.js\"></script>\n</body>\n</html>";

pub const ABOUT_0: &'static str = "<!DOCTYPE html>\n<html lang=\"en\">\n<head>\n<meta charset=\"utf-8\">\n<meta name=\"viewport\" content=\"width=device-width,initial-scale=1\">\n<title>About &mdash; ";

pub const ABOUT_1: &'static str = "</title>\n<link rel=\"stylesheet\" href=\"/style.css\">\n</head>\n<body>\n<header><nav>\n<a href=\"/\" class=\"logo\">&#x2B21; ";

pub const ABOUT_2: &'static str = "</a>\n<div class=\"nav-links\">\n<a href=\"/\">Home</a>\n<a href=\"/about.html\">About</a>\n</div>\n</nav></header>\n<main>\n<div class=\"card\">\n<h2>About</h2>\n<p>Published anonymously via PHINET. No accounts, no email, no tracking, no central servers.</p>\n<p>Address: <code>";

pub const ABOUT_3: &'static str = ".phinet</code></p>\n</div>\n</main>\n<footer><p>PHINET &middot; anonymous &middot; encrypted</p></footer>\n</body>\n</html>";

/// The page of a new service, as text.
pub open spec fn default_index_text(name: Seq<char>, hs_id: Seq<char>) -> Seq<char> {
    INDEX_0@ + name + INDEX_1@ + SITE_STYLE@ + INDEX_2@ + name + INDEX_3@ + name + INDEX_4@ + hs_id + INDEX_5@ + name + INDEX_6@ + hs_id + INDEX_7@
}

fn default_index_page(name: &str, hs_id: &str) -> (r: String)
    ensures
        r@ == default_index_text(name@, hs_id@),
{
    let mut p: String = String::new();
    p.append(INDEX_0);
    p.append(name);
    p.append(INDEX_1);
    p.append(SITE_STYLE);
    p.append(INDEX_2);
    p.append(name);
    p.append(INDEX_3);
    p.append(name);
    p.append(INDEX_4);
    p.append(hs_id);
    p.append(INDEX_5);
    p.append(name);
    p.append(INDEX_6);
    p.append(hs_id);
    p.append(INDEX_7);
    assert(p@ =~= default_index_text(name@, hs_id@));
    p
}

/// The page for a path that does not exist, as text.
pub open spec fn not_found_text(path: Seq<char>) -> Seq<char> {
    NOT_FOUND_0@ + SITE_STYLE@ + NOT_FOUND_1@ + path + NOT_FOUND_2@
}

fn not_found_page(path: &str) -> (r: String)
    ensures
        r@ == not_found_text(path@),
{
    let mut p: String = String::new();
    p.append(NOT_FOUND_0);
    p.append(SITE_STYLE);
    p.append(NOT_FOUND_1);
    p.append(path);
    p.append(NOT_FOUND_2);
    assert(p@ =~= not_found_text(path@));
    p
}

/// The first page of the starter site, as text.
pub open spec fn starter_index_text(name: Seq<char>, hs_id: Seq<char>) -> Seq<char> {
    STARTER_0@ + name + STARTER_1@ + name + STARTER_2@ + name + STARTER_3@ + hs_id + STARTER_4@ + hs_id + STARTER_5@
}

fn starter_index_page(name: &str, hs_id: &str) -> (r: String)
    ensures
        r@ == starter_index_text(name@, hs_id@),
{
    let mut p: String = String::new();
    p.append(STARTER_0);
    p.append(name);
    p.append(STARTER_1);
    p.append(name);
    p.append(STARTER_2);
    p.append(name);
    p.append(STARTER_3);
    p.append(hs_id);
    p.append(STARTER_4);
    p.append(hs_id);
    p.append(STARTER_5);
    assert(p@ =~= starter_index_text(name@, hs_id@));
    p
}

/// The second page of the starter site, as text.
pub open spec fn starter_about_text(name: Seq<char>, hs_id: Seq<char>) -> Seq<char> {
    ABOUT_0@ + name + ABOUT_1@ + name + ABOUT_2@ + hs_id + ABOUT_3@
}

fn starter_about_page(name: &str, hs_id: &str) -> (r: String)
    ensures
        r@ == starter_about_text(name@, hs_id@),
{
    let mut p: String = String::new();
    p.append(ABOUT_0);
    p.append(name);
    p.append(ABOUT_1);
    p.append(name);
    p.append(ABOUT_2);
    p.append(hs_id);
    p.append(ABOUT_3);
    assert(p@ =~= starter_about_text(name@, hs_id@));
    p
}

/// The page of a new service.
pub fn default_index_html(name: &str, hs_id: &str) -> (r: Vec<u8>)
    ensures
        r@ == encode_utf8(default_index_text(name@, hs_id@)),
{
    let p: String = default_index_page(name, hs_id);
    p.as_str().as_bytes_vec()
}

/// The page for a path that does not exist.
pub fn not_found_html(path: &str) -> (r: Vec<u8>)
    ensures
        r@ == encode_utf8(not_found_text(path@)),
{
    let p: String = not_found_page(path);
    p.as_str().as_bytes_vec()
}

/// The style sheet of the built-in pages.
pub fn site_style() -> (r: &'static str)
    ensures
        r@ == SITE_STYLE@,
{
    SITE_STYLE
}

/// The files of the starter site: paths and contents.
pub open spec fn starter_files(name: Seq<char>, hs_id: Seq<char>) -> Seq<(Seq<char>, Seq<char>)> {
    seq![
        ("/index.html"@, starter_index_text(name, hs_id)),
        ("/about.html"@, starter_about_text(name, hs_id)),
        ("/style.css"@, SITE_STYLE@),
        ("/app.js"@, STARTER_SCRIPT@),
    ]
}

/// The files of the starter site, in the order in which they are deployed.
pub fn starter_site_files(name: &str, hs_id: &str) -> (r: Vec<(&'static str, String)>)
    ensures
        r@.len() == starter_files(name@, hs_id@).len(),
        forall|i: int|
            0 <= i < r@.len() ==> (#[trigger] r@[i]).0@ == starter_files(name@, hs_id@)[i].0
                && r@[i].1@ == starter_files(name@, hs_id@)[i].1,
{
    let mut v: Vec<(&'static str, String)> = Vec::new();
    v.push(("/index.html", starter_index_page(name, hs_id)));
    v.push(("/about.html", starter_about_page(name, hs_id)));
    v.push(("/style.css", SITE_STYLE.to_owned()));
    v.push(("/app.js", STARTER_SCRIPT.to_owned()));
    v
}

/// `part` stands somewhere in `page`.
pub open spec fn stands_in(part: Seq<char>, page: Seq<char>) -> bool {
    exists|a: Seq<char>, b: Seq<char>| page == #[trigger] (a + part + b)
}

/// The page that is shown for a missing path names the path.
pub proof fn law_the_missing_path_is_named(path: &str, r: Vec<u8>)
    requires
        call_ensures(not_found_html, (path,), r),
    ensures
        exists|page: Seq<char>| r@ == #[trigger] encode_utf8(page) && stands_in(path@, page),
{
    let page = not_found_text(path@);
    let a = NOT_FOUND_0@ + SITE_STYLE@ + NOT_FOUND_1@;
    assert(page == a + path@ + NOT_FOUND_2@);
    assert(r@ == encode_utf8(page));
}

/// The first page of a service names the service and its address.
pub proof fn law_the_first_page_names_the_service(name: &str, hs_id: &str, r: Vec<u8>)
    requires
        call_ensures(default_index_html, (name, hs_id), r),
    ensures
        exists|page: Seq<char>| r@ == #[trigger] encode_utf8(page) && stands_in(name@, page) && stands_in(hs_id@, page),
{
    let page = default_index_text(name@, hs_id@);
    let b = INDEX_1@ + SITE_STYLE@ + INDEX_2@ + name@ + INDEX_3@ + name@ + INDEX_4@ + hs_id@ + INDEX_5@ + name@ + INDEX_6@
        + hs_id@ + INDEX_7@;
    assert(page =~= INDEX_0@ + name@ + b);
    let c = INDEX_0@ + name@ + INDEX_1@ + SITE_STYLE@ + INDEX_2@ + name@ + INDEX_3@ + name@ + INDEX_4@ + hs_id@ + INDEX_5@
        + name@ + INDEX_6@;
    assert(page == c + hs_id@ + INDEX_7@);
    assert(r@ == encode_utf8(page));
}

/// A starter site has its pages, its style and its script at the addresses that its pages
/// name, and both pages name the site and its address.
pub proof fn law_a_starter_site_is_whole(name: &str, hs_id: &str, r: Vec<(&'static str, String)>)
    requires
        call_ensures(starter_site_files, (name, hs_id), r),
    ensures
        r@.len() == 4,
        r@[0].0@ == "/index.html"@ && stands_in(name@, r@[0].1@) && stands_in(hs_id@, r@[0].1@),
        r@[1].0@ == "/about.html"@ && stands_in(name@, r@[1].1@) && stands_in(hs_id@, r@[1].1@),
        r@[2].0@ == "/style.css"@ && r@[2].1@ == SITE_STYLE@,
        r@[3].0@ == "/app.js"@ && r@[3].1@ == STARTER_SCRIPT@,
{
    let files = starter_files(name@, hs_id@);
    assert(r@[0].0@ == files[0].0 && r@[0].1@ == files[0].1);
    assert(r@[1].0@ == files[1].0 && r@[1].1@ == files[1].1);
    assert(r@[2].0@ == files[2].0 && r@[2].1@ == files[2].1);
    assert(r@[3].0@ == files[3].0 && r@[3].1@ == files[3].1);
    let i = starter_index_text(name@, hs_id@);
    let tail = STARTER_1@ + name@ + STARTER_2@ + name@ + STARTER_3@ + hs_id@ + STARTER_4@ + hs_id@ + STARTER_5@;
    assert(i =~= STARTER_0@ + name@ + tail);
    let head = STARTER_0@ + name@ + STARTER_1@ + name@ + STARTER_2@ + name@ + STARTER_3@ + hs_id@ + STARTER_4@;
    assert(i == head + hs_id@ + STARTER_5@);
    let a = starter_about_text(name@, hs_id@);
    let rest = ABOUT_1@ + name@ + ABOUT_2@ + hs_id@ + ABOUT_3@;
    assert(a =~= ABOUT_0@ + name@ + rest);
    let front = ABOUT_0@ + name@ + ABOUT_1@ + name@ + ABOUT_2@;
    assert(a == front + hs_id@ + ABOUT_3@);
}

} // verus!
