//! What a hidden service is asked over a rendezvous circuit, and what it answers.
//!
//! A request is a line with a method and a path. The answer is a status, a content
//! type, an empty line and the body, cut into pieces that fit a relay cell.

use crate::bytes::{append, copy_range};
use crate::errors;
use crate::errors::Error;
use crate::text;
use crate::text::{chars_of, decimal_string, find_char, join2, join3, parse_number, string_of, trim_range, utf8_checked, utf8_lossy, word_ranges};
use vstd::prelude::*;
use vstd::string::*;
use vstd::utf8::*;

verus! {

/// The answer of a hidden service.
#[derive(Debug, Clone)]
pub struct HsFetchResponse {
    /// The status, as in HTTP.
    pub status: u16,
    /// The body's content type.
    pub content_type: String,
    /// The body.
    pub body: Vec<u8>,
}

/// Where the first empty line begins, from the `i`-th byte on: at the first of two
/// line feeds. The length of `b` when there is none.
pub open spec fn empty_line(b: Seq<u8>, i: int) -> int
    decreases b.len() - i,
{
    if i < 0 || i + 1 >= b.len() {
        b.len() as int
    } else if b[i] == 10 && b[i + 1] == 10 {
        i
    } else {
        empty_line(b, i + 1)
    }
}

/// The text of the head of an answer.
pub open spec fn head_text(b: Seq<u8>) -> Seq<char> {
    decode_utf8(b.take(empty_line(b, 0)))
}

/// The first line of a head.
pub open spec fn status_text(head: Seq<char>) -> Seq<char> {
    text::trimmed(head.take(text::index_of(head, '\n')))
}

/// What a head says of the content type: all that stands behind its first line.
pub open spec fn type_text(head: Seq<char>) -> Seq<char> {
    text::trimmed(head.skip(text::index_of(head, '\n') + 1))
}

/// `b` is the answer of a hidden service: an empty line, and before it a line with the
/// status and a line with the content type.
pub open spec fn is_response(b: Seq<u8>) -> bool {
    let i = empty_line(b, 0);
    let head = head_text(b);
    &&& i < b.len()
    &&& valid_utf8(b.take(i))
    &&& text::index_of(head, '\n') < head.len()
    &&& text::number_text(status_text(head), 65536)
}

/// `r` is the answer that the bytes `b` hold.
pub open spec fn response_of(r: HsFetchResponse, b: Seq<u8>) -> bool {
    &&& r.status == text::number_value(status_text(head_text(b)))
    &&& r.content_type@ == type_text(head_text(b))
    &&& r.body@ == b.skip(empty_line(b, 0) + 2)
}

fn find_empty_line(b: &[u8]) -> (r: Option<usize>)
    ensures
        r is Some == (empty_line(b@, 0) < b@.len()),
        r matches Some(i) ==> i == empty_line(b@, 0) && i + 2 <= b.len(),
{
    let mut i: usize = 0;
    while i < b.len() && b.len() - i >= 2
        invariant
            i <= b@.len(),
            empty_line(b@, 0) == empty_line(b@, i as int),
        decreases b@.len() - i,
    {
        if b[i] == 10 && b[i + 1] == 10 {
            return Some(i);
        }
        i += 1;
    }
    None
}

/// Reads the answer of a hidden service. Nothing comes of bytes without an empty
/// line, or whose head is no UTF-8, has no status or has no line for the content type.
pub fn parse_hs_response(bytes: &[u8]) -> (r: Option<HsFetchResponse>)
    ensures
        r is Some == is_response(bytes@),
        r matches Some(x) ==> response_of(x, bytes@),
{
    let sep: usize = match find_empty_line(bytes) {
        Some(i) => i,
        None => return None,
    };
    let head_bytes: Vec<u8> = copy_range(bytes, 0, sep);
    assert(head_bytes@ =~= bytes@.take(sep as int));
    let head: String = match utf8_checked(&head_bytes) {
        Some(h) => h,
        None => return None,
    };
    let v: Vec<char> = chars_of(head.as_str());
    let n: usize = v.len();
    assert(v@.subrange(0, n as int) =~= head@);
    let line: usize = find_char(&v, 0, n, '\n');
    if line >= n {
        return None;
    }
    assert(v@.subrange(0, line as int) =~= head@.take(line as int));
    let (a, b): (usize, usize) = trim_range(&v, 0, line);
    let status: u16 = match parse_number(&v, a, b, 65535) {
        Some(s) => s as u16,
        None => return None,
    };
    assert(v@.subrange(line + 1, n as int) =~= head@.skip(line + 1));
    let (c, d): (usize, usize) = trim_range(&v, line + 1, n);
    let content_type: String = string_of(&v, c, d);
    let body: Vec<u8> = copy_range(bytes, sep + 2, bytes.len());
    assert(body@ =~= bytes@.skip(sep + 2));
    Some(HsFetchResponse { status, content_type, body })
}

/// The head of an answer.
pub open spec fn response_head(status: u16, content_type: Seq<char>) -> Seq<char> {
    text::decimal(status as nat) + "\n"@ + content_type + "\n\n"@
}

/// The bytes of an answer.
pub open spec fn response_bytes(status: u16, content_type: Seq<char>, body: Seq<u8>) -> Seq<u8> {
    encode_utf8(response_head(status, content_type)) + body
}

/// The bytes of an answer.
pub fn frame_response(status: u16, content_type: &str, body: &[u8]) -> (r: Vec<u8>)
    ensures
        r@ == response_bytes(status, content_type@, body@),
{
    let s: String = decimal_string(status as u64);
    let head: String = join3(s.as_str(), "\n", content_type);
    let head: String = join2(head.as_str(), "\n\n");
    let mut r: Vec<u8> = Vec::new();
    append(&mut r, head.as_str().as_bytes());
    append(&mut r, body);
    assert(r@ =~= response_bytes(status, content_type@, body@));
    r
}

/// The path that a request asks for: its second word, `/` when it has none.
pub open spec fn requested_path(request: Seq<u8>) -> Seq<char> {
    let w = text::words(text::text_of(request));
    if w.len() >= 2 {
        w[1]
    } else {
        "/"@
    }
}

/// The path that a request asks for.
pub fn request_path(request: &[u8]) -> (r: String)
    ensures
        r@ == requested_path(request@),
{
    let line: String = utf8_lossy(request);
    let v: Vec<char> = chars_of(line.as_str());
    assert(v@.subrange(0, v@.len() as int) =~= line@);
    let w: Vec<(usize, usize)> = word_ranges(&v, 0, v.len());
    if w.len() >= 2 {
        assert(text::piece(v@, w@[1]) == text::words(line@)[1]);
        string_of(&v, w[1].0, w[1].1)
    } else {
        "/".to_owned()
    }
}

/// The request for the path `path`.
pub fn request_for(path: &str) -> (r: Vec<u8>)
    ensures
        r@ == encode_utf8("GET "@ + path@),
{
    let line: String = join2("GET ", path);
    let mut r: Vec<u8> = Vec::new();
    append(&mut r, line.as_str().as_bytes());
    assert(r@ =~= encode_utf8("GET "@ + path@));
    r
}

/// What a node answers: what its site holds at the path, or why there is nothing.
pub fn answer_request(hosts_a_service: bool, file: Option<(u16, String, Vec<u8>)>) -> (r: (
    u16,
    String,
    Vec<u8>,
))
    ensures
        if !hosts_a_service {
            r.0 == 503 && r.1@ == "text/html"@ && r.2@
                == "<h1>No hidden service hosted here</h1>".spec_bytes()
        } else {
            match file {
                Some(f) => r == f,
                None => r.0 == 404 && r.1@ == "text/html"@ && r.2@
                    == "<h1>Not found</h1>".spec_bytes(),
            }
        },
{
    if !hosts_a_service {
        let mut body: Vec<u8> = Vec::new();
        append(&mut body, "<h1>No hidden service hosted here</h1>".as_bytes());
        assert(body@ =~= "<h1>No hidden service hosted here</h1>".spec_bytes());
        return (503, "text/html".to_owned(), body);
    }
    match file {
        Some(f) => f,
        None => {
            let mut body: Vec<u8> = Vec::new();
            append(&mut body, "<h1>Not found</h1>".as_bytes());
            assert(body@ =~= "<h1>Not found</h1>".spec_bytes());
            (404, "text/html".to_owned(), body)
        },
    }
}

/// `s` in pieces of `n` bytes, the last of which may be shorter.
pub open spec fn pieces_of(s: Seq<u8>, n: nat) -> Seq<Seq<u8>>
    decreases s.len(),
{
    if s.len() == 0 || n == 0 {
        Seq::empty()
    } else if s.len() <= n {
        seq![s]
    } else {
        seq![s.take(n as int)] + pieces_of(s.skip(n as int), n)
    }
}

/// The pieces of `v`, one behind the other.
pub open spec fn gathered(v: Seq<Seq<u8>>) -> Seq<u8>
    decreases v.len(),
{
    if v.len() == 0 {
        Seq::empty()
    } else {
        v[0] + gathered(v.skip(1))
    }
}

/// The contents of a list of byte strings.
pub open spec fn contents(v: Seq<Vec<u8>>) -> Seq<Seq<u8>> {
    v.map_values(|b: Vec<u8>| b@)
}

/// Cuts `s` into pieces of `n` bytes.
pub fn cut(s: &[u8], n: usize) -> (r: Vec<Vec<u8>>)
    requires
        n > 0,
    ensures
        contents(r@) == pieces_of(s@, n as nat),
{
    let mut r: Vec<Vec<u8>> = Vec::new();
    let mut at: usize = 0;
    let ghost all = pieces_of(s@, n as nat);
    assert(s@.skip(0) =~= s@);
    assert(contents(r@) + pieces_of(s@.skip(0), n as nat) =~= all);
    while at < s.len()
        invariant
            n > 0,
            at <= s@.len(),
            contents(r@) + pieces_of(s@.skip(at as int), n as nat) == all,
        decreases s@.len() - at,
    {
        let ghost rest = s@.skip(at as int);
        let ghost before = contents(r@);
        let to: usize = if s.len() - at <= n {
            s.len()
        } else {
            at + n
        };
        let piece: Vec<u8> = copy_range(s, at, to);
        let ghost r0 = r@;
        let ghost g = piece@;
        r.push(piece);
        assert(contents(r@) =~= before.push(g));
        proof {
            if s@.len() - at <= n {
                assert(g =~= rest);
                assert(s@.skip(to as int) =~= Seq::empty());
                assert(contents(r@) + pieces_of(s@.skip(to as int), n as nat) =~= all);
            } else {
                assert(g =~= rest.take(n as int));
                assert(rest.skip(n as int) =~= s@.skip(to as int));
                assert(contents(r@) + pieces_of(s@.skip(to as int), n as nat) =~= all);
            }
        }
        at = to;
    }
    assert(s@.skip(at as int) =~= Seq::empty());
    assert(contents(r@) =~= all);
    r
}

/// Puts pieces together.
pub fn gather(v: &[Vec<u8>]) -> (r: Vec<u8>)
    ensures
        r@ == gathered(contents(v@)),
{
    let mut r: Vec<u8> = Vec::new();
    let mut i: usize = 0;
    let ghost all = contents(v@);
    assert(all.skip(0) =~= all);
    while i < v.len()
        invariant
            i <= v@.len(),
            all == contents(v@),
            r@ + gathered(all.skip(i as int)) == gathered(all),
        decreases v@.len() - i,
    {
        let ghost before = r@;
        append(&mut r, &v[i]);
        assert(all.skip(i as int)[0] == v@[i as int]@);
        assert(all.skip(i as int).skip(1) =~= all.skip(i + 1));
        assert(r@ + gathered(all.skip(i + 1)) =~= before + gathered(all.skip(i as int)));
        i += 1;
    }
    assert(all.skip(i as int) =~= Seq::empty());
    assert(r@ =~= gathered(all));
    r
}

/// What became of the wait for an answer.
#[derive(Debug)]
pub enum Reply {
    /// All its pieces arrived.
    Pieces(Vec<Vec<u8>>),
    /// The time ran out first.
    TimedOut,
}

/// What the client makes of what arrived for its request.
pub fn read_reply(reply: &Reply) -> (r: Result<HsFetchResponse, Error>)
    ensures
        match reply {
            Reply::TimedOut => errors::is_handshake(
                r,
                "hs_fetch_request: timed out reading response"@,
            ),
            Reply::Pieces(v) => {
                let b = gathered(contents(v@));
                if is_response(b) {
                    r matches Ok(x) && response_of(x, b)
                } else {
                    errors::is_handshake(r, "hs_fetch_request: malformed HS response framing"@)
                }
            },
        },
{
    match reply {
        Reply::TimedOut => Err(
            Error::Handshake("hs_fetch_request: timed out reading response".to_owned()),
        ),
        Reply::Pieces(v) => {
            let b: Vec<u8> = gather(v);
            match parse_hs_response(&b) {
                Some(x) => Ok(x),
                None => Err(
                    Error::Handshake(
                        "hs_fetch_request: malformed HS response framing".to_owned(),
                    ),
                ),
            }
        },
    }
}

/// Pieces put together are what was cut.
pub proof fn law_pieces_make_up_the_whole(s: Seq<u8>, n: nat)
    requires
        n > 0,
    ensures
        gathered(pieces_of(s, n)) == s,
        forall|i: int| 0 <= i < pieces_of(s, n).len() ==> 0 < (#[trigger] pieces_of(s, n)[i]).len() <= n,
    decreases s.len(),
{
    let p = pieces_of(s, n);
    if s.len() == 0 {
    } else if s.len() <= n {
        assert(p.skip(1) =~= Seq::empty());
        assert(gathered(p.skip(1)) =~= Seq::empty());
        assert(gathered(p) =~= s);
    } else {
        let rest = s.skip(n as int);
        law_pieces_make_up_the_whole(rest, n);
        assert(p.skip(1) =~= pieces_of(rest, n));
        assert(gathered(p) =~= s);
        assert forall|i: int| 0 <= i < p.len() implies 0 < (#[trigger] p[i]).len() <= n by {
            if i > 0 {
                assert(p[i] == pieces_of(rest, n)[i - 1]);
            }
        }
    }
}

proof fn lemma_empty_line_at(b: Seq<u8>, i: int, n: int)
    requires
        0 <= i <= n,
        n + 1 < b.len(),
        b[n] == 10,
        b[n + 1] == 10,
        forall|j: int| i <= j < n ==> !(#[trigger] b[j] == 10 && b[j + 1] == 10),
    ensures
        empty_line(b, i) == n,
    decreases n - i,
{
    if i < n {
        lemma_empty_line_at(b, i + 1, n);
    }
}

/// The client reads what the service answered: an answer that is framed, cut into
/// pieces of any length and put together again is the answer. The content type is
/// a non-empty line without white space at its ends.
pub proof fn law_answers_are_read_back(
    r: HsFetchResponse,
    status: u16,
    content_type: Seq<char>,
    body: Seq<u8>,
    n: nat,
)
    requires
        n > 0,
        content_type.len() > 0,
        text::trimmed(content_type) == content_type,
        forall|i: int| 0 <= i < content_type.len() ==> #[trigger] content_type[i] != '\n',
    ensures
        is_response(gathered(pieces_of(response_bytes(status, content_type, body), n))),
        response_of(r, gathered(pieces_of(response_bytes(status, content_type, body), n))) ==> {
            &&& r.status == status
            &&& r.content_type@ == content_type
            &&& r.body@ == body
        },
{
    let b = response_bytes(status, content_type, body);
    law_pieces_make_up_the_whole(b, n);
    let d = text::decimal(status as nat);
    reveal_strlit("\n");
    reveal_strlit("\n\n");
    let head = d + "\n"@ + content_type;
    assert(response_head(status, content_type) =~= head + "\n\n"@);
    text::lemma_encode_concat(head, "\n\n"@);
    text::lemma_encode_concat(d + "\n"@, content_type);
    text::lemma_encode_concat(d, "\n"@);
    assert(is_ascii_chars("\n\n"@));
    is_ascii_chars_encode_utf8("\n\n"@);
    assert(is_ascii_chars("\n"@));
    is_ascii_chars_encode_utf8("\n"@);
    text::lemma_decimal_value(status as nat);
    assert(is_ascii_chars(d));
    is_ascii_chars_encode_utf8(d);
    let db = encode_utf8(d);
    let cb = encode_utf8(content_type);
    let h = encode_utf8(head);
    assert(h =~= db + seq![10u8] + cb);
    assert(b =~= h + seq![10u8, 10u8] + body);
    encode_utf8_valid_utf8(content_type);
    encode_utf8_decode_utf8(content_type);
    text::lemma_ascii_bytes(cb, 10);
    assert(cb.len() > 0) by {
        if cb.len() == 0 {
            assert(decode_utf8(cb).len() == 0);
        }
    }
    assert forall|j: int| 0 <= j < h.len() implies !(#[trigger] b[j] == 10 && b[j + 1] == 10) by {
        if j < db.len() {
            assert(b[j] == db[j]);
            assert(db[j] == d[j] as u8);
        } else if j == db.len() {
            assert(b[j + 1] == cb[0]);
        } else {
            assert(b[j] == cb[j - db.len() - 1]);
        }
    }
    lemma_empty_line_at(b, 0, h.len() as int);
    assert(b.take(h.len() as int) =~= h);
    encode_utf8_valid_utf8(head);
    encode_utf8_decode_utf8(head);
    assert(head_text(b) == head);
    text::lemma_index_of_is(head, '\n', d.len() as int);
    assert(head.take(d.len() as int) =~= d);
    assert(head.skip(d.len() as int + 1) =~= content_type);
    assert(b.skip(h.len() as int + 2) =~= body);
}

/// A page comes to the client as the service gave it, whatever the size of the pieces it
/// travels in: with its status, its type and every byte of it.
pub proof fn law_a_page_survives_the_circuit(
    status: u16,
    content_type: &str,
    body: &[u8],
    framed: Vec<u8>,
    sent: &[u8],
    n: usize,
    pieces: Vec<Vec<u8>>,
    r: Result<HsFetchResponse, Error>,
)
    requires
        n > 0,
        content_type@.len() > 0,
        text::trimmed(content_type@) == content_type@,
        forall|i: int| 0 <= i < content_type@.len() ==> #[trigger] content_type@[i] != '\n',
        call_ensures(frame_response, (status, content_type, body), framed),
        sent@ == framed@,
        call_ensures(cut, (sent, n), pieces),
        call_ensures(read_reply, (&Reply::Pieces(pieces),), r),
    ensures
        r matches Ok(x) && x.status == status && x.content_type@ == content_type@ && x.body@ == body@,
        forall|i: int| 0 <= i < pieces@.len() ==> 0 < (#[trigger] pieces@[i])@.len() <= n,
{
    let probe: HsFetchResponse = r->Ok_0;
    law_answers_are_read_back(probe, status, content_type@, body@, n as nat);
    law_pieces_make_up_the_whole(framed@, n as nat);
    assert forall|i: int| 0 <= i < pieces@.len() implies 0 < (#[trigger] pieces@[i])@.len() <= n by {
        assert(contents(pieces@)[i] == pieces@[i]@);
        assert(0 < pieces_of(framed@, n as nat)[i].len() <= n);
    }
}

/// What was cut into pieces is gathered as it was.
pub proof fn law_pieces_are_gathered_again(s: &[u8], n: usize, pieces: Vec<Vec<u8>>, v: &[Vec<u8>], r: Vec<u8>)
    requires
        n > 0,
        call_ensures(cut, (s, n), pieces),
        v@ == pieces@,
        call_ensures(gather, (v,), r),
    ensures
        r@ == s@,
{
    law_pieces_make_up_the_whole(s@, n as nat);
}

/// The service is asked for the path that the client asked for.
pub proof fn law_the_service_reads_the_path(path: &str, request: Vec<u8>, b: &[u8], r: String)
    requires
        path@.len() > 0,
        forall|i: int| 0 <= i < path@.len() ==> !text::is_space(#[trigger] path@[i]),
        call_ensures(request_for, (path,), request),
        b@ == request@,
        call_ensures(request_path, (b,), r),
    ensures
        r@ == path@,
{
    reveal_strlit("GET ");
    let s = "GET "@ + path@;
    encode_utf8_valid_utf8(s);
    encode_utf8_decode_utf8(s);
    text::lemma_one_word(path@);
    assert(s.skip(1).skip(1).skip(1)[0] == ' ');
    assert(text::word_len(s.skip(1).skip(1).skip(1)) == 0);
    assert(text::word_len(s.skip(1).skip(1)) == 1);
    assert(text::word_len(s.skip(1)) == 2);
    assert(text::word_len(s) == 3);
    assert(s.skip(3)[0] == ' ');
    assert(s.skip(3).skip(1) =~= path@);
    assert(text::words(s.skip(3)) == seq![path@]);
    assert(text::words(s) =~= seq![s.take(3), path@]);
}

/// A node without a service says so; with one, it answers with the file as it was found,
/// or says that there is none.
pub proof fn law_requests_are_answered(
    hosts: bool,
    file: Option<(u16, String, Vec<u8>)>,
    r: (u16, String, Vec<u8>),
)
    requires
        call_ensures(answer_request, (hosts, file), r),
    ensures
        !hosts ==> r.0 == 503,
        hosts && file is None ==> r.0 == 404,
        hosts && file is Some ==> r == file->0,
{
}

/// A request that names no path is for the site's root.
pub proof fn law_a_request_without_a_path_is_for_the_root(request: &[u8], r: String)
    requires
        text::words(text::text_of(request@)).len() < 2,
        call_ensures(request_path, (request,), r),
    ensures
        r@ == "/"@,
{
}

/// What a node says where it has nothing to show.
pub proof fn law_what_is_said_of_nothing(none: (u16, String, Vec<u8>), missing: (u16, String, Vec<u8>))
    requires
        call_ensures(answer_request, (false, None), none),
        call_ensures(answer_request, (true, None), missing),
    ensures
        none.1@ == "text/html"@ && none.2@ == "<h1>No hidden service hosted here</h1>".spec_bytes(),
        missing.1@ == "text/html"@ && missing.2@ == "<h1>Not found</h1>".spec_bytes(),
{
}

/// A reply that did not come in time, or that is none, is an error.
pub proof fn law_bad_replies_are_errors(pieces: Vec<Vec<u8>>, late: Result<HsFetchResponse, Error>, r: Result<HsFetchResponse, Error>, parsed: Option<HsFetchResponse>, b: &[u8])
    requires
        call_ensures(read_reply, (&Reply::TimedOut,), late),
        call_ensures(read_reply, (&Reply::Pieces(pieces),), r),
        b@ == gathered(contents(pieces@)),
        call_ensures(parse_hs_response, (b,), parsed),
    ensures
        late is Err && late->Err_0 is Handshake,
        r is Ok <==> parsed is Some,
        r is Ok ==> r->Ok_0.status == parsed->0.status && r->Ok_0.content_type@ == parsed->0.content_type@
            && r->Ok_0.body@ == parsed->0.body@,
        r is Err ==> r->Err_0 is Handshake,
{
}

} // verus!
