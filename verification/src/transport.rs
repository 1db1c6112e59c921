//! Pluggable transports: what a managed proxy announces, what the SOCKS5 client
//! says to it, and what a bridge hands to its users.
//!
//! A proxy is a program that carries a connection in disguise. It announces its
//! endpoints line by line on its output; a client then dials through a local
//! SOCKS5 endpoint, and a bridge publishes the endpoint that the proxy listens on.

use crate::addr;
use crate::addr::{SocketAddr, parse_socket_addr};
use crate::bytes;
use crate::bytes::{append, push_be};
use crate::errors;
use crate::errors::Error;
use crate::text;
use crate::text::{chars_of, decimal_string, has_at, hex_digit_char, join2, join3, string_of, trim_range, word_ranges};
use vstd::prelude::*;
use vstd::string::*;
use vstd::utf8::*;

verus! {

/// One line of a proxy's output.
#[derive(Debug, PartialEq)]
pub enum PtLine {
    /// The protocol version was accepted.
    VersionOk,
    /// A client endpoint of the transport asked for.
    Cmethod(SocketAddr),
    /// No more client endpoints.
    CmethodsDone,
    /// No common protocol version.
    VersionError(String),
    /// The environment lacks something.
    EnvError(String),
    /// A client endpoint could not be set up.
    CmethodError(String),
    /// A server endpoint and the arguments that its clients present.
    Smethod { bind: SocketAddr, args: Option<String> },
    /// No more server endpoints.
    SmethodsDone,
    /// A server endpoint could not be set up.
    SmethodError(String),
    /// Any other line.
    Other,
}

/// What `line` holds behind the prefix `p`.
pub open spec fn behind(line: Seq<char>, p: Seq<char>) -> Seq<char> {
    line.skip(p.len() as int)
}

/// The words of a line behind the prefix `p`.
pub open spec fn words_behind(line: Seq<char>, p: Seq<char>) -> Seq<Seq<char>> {
    text::words(behind(line, p))
}

/// `s` is the text of a socket address.
pub open spec fn is_socket_text(s: Seq<char>) -> bool {
    addr::is_v4_socket(s) || addr::is_v6_socket(s)
}

/// The line announces a client endpoint of the transport `name`.
pub open spec fn announces_client(t: Seq<char>, name: Seq<char>) -> bool {
    let w = words_behind(t, "CMETHOD "@);
    text::starts_with(t, "CMETHOD "@) && w.len() >= 3 && w[0] == name && w[1] == "socks5"@
        && is_socket_text(w[2])
}

/// The line announces a server endpoint of the transport `name`.
pub open spec fn announces_server(t: Seq<char>, name: Seq<char>) -> bool {
    let w = words_behind(t, "SMETHOD "@);
    text::starts_with(t, "SMETHOD "@) && w.len() >= 2 && w[0] == name && is_socket_text(w[1])
}

/// The text of the first word from the `i`-th on that carries arguments, without
/// its mark.
pub open spec fn args_from(w: Seq<Seq<char>>, i: int) -> Option<Seq<char>>
    decreases w.len() - i,
{
    if i < 0 || i >= w.len() {
        None
    } else if text::starts_with(w[i], "ARGS:"@) {
        Some(behind(w[i], "ARGS:"@))
    } else if text::starts_with(w[i], "OPT-ARGS:"@) {
        Some(behind(w[i], "OPT-ARGS:"@))
    } else {
        args_from(w, i + 1)
    }
}

/// `r` is the error or version line that the trimmed line `t` is.
pub open spec fn is_common_line(r: PtLine, t: Seq<char>) -> bool {
    if t == "VERSION 1"@ {
        r is VersionOk
    } else if text::starts_with(t, "VERSION-ERROR "@) {
        r matches PtLine::VersionError(m) && m@ == behind(t, "VERSION-ERROR "@)
    } else {
        text::starts_with(t, "ENV-ERROR "@) && (r matches PtLine::EnvError(m) && m@ == behind(
            t,
            "ENV-ERROR "@,
        ))
    }
}

/// The trimmed line `t` is a version line or an error line of either mode.
pub open spec fn common_line(t: Seq<char>) -> bool {
    t == "VERSION 1"@ || text::starts_with(t, "VERSION-ERROR "@) || text::starts_with(
        t,
        "ENV-ERROR "@,
    )
}

/// `r` is what the line `line` says to a client of the transport `name`.
pub open spec fn is_client_line(r: PtLine, line: Seq<char>, name: Seq<char>) -> bool {
    let t = text::trimmed(line);
    if t == "CMETHODS DONE"@ {
        r is CmethodsDone
    } else if common_line(t) {
        is_common_line(r, t)
    } else if text::starts_with(t, "CMETHOD-ERROR "@) {
        r matches PtLine::CmethodError(m) && m@ == behind(t, "CMETHOD-ERROR "@)
    } else if announces_client(t, name) {
        r matches PtLine::Cmethod(a) && addr::is_address_of(a, words_behind(t, "CMETHOD "@)[2])
    } else {
        r is Other
    }
}

/// `r` is what the line `line` says to a bridge of the transport `name`.
pub open spec fn is_server_line(r: PtLine, line: Seq<char>, name: Seq<char>) -> bool {
    let t = text::trimmed(line);
    let w = words_behind(t, "SMETHOD "@);
    if t == "SMETHODS DONE"@ {
        r is SmethodsDone
    } else if common_line(t) {
        is_common_line(r, t)
    } else if text::starts_with(t, "SMETHOD-ERROR "@) {
        r matches PtLine::SmethodError(m) && m@ == behind(t, "SMETHOD-ERROR "@)
    } else if announces_server(t, name) {
        r matches PtLine::Smethod { bind, args } && addr::is_address_of(bind, w[1]) && text_view(args)
            == args_from(w, 2)
    } else {
        r is Other
    }
}

/// The text of an optional string.
pub open spec fn text_view(s: Option<String>) -> Option<Seq<char>> {
    match s {
        Some(x) => Some(x@),
        None => None,
    }
}

/// The characters of `v` from `from` up to `to` are those of `p`.
fn range_is(v: &[char], from: usize, to: usize, p: &str) -> (r: bool)
    requires
        from <= to <= v@.len(),
    ensures
        r == (v@.subrange(from as int, to as int) == p@),
{
    let ghost s = v@.subrange(from as int, to as int);
    if to - from != p.unicode_len() {
        return false;
    }
    let r: bool = has_at(v, from, p);
    assert(v@.subrange(from as int, from + p@.len()) =~= s);
    r
}

/// The characters of `v` from `from` up to `to` start with `p`.
fn range_starts(v: &[char], from: usize, to: usize, p: &str) -> (r: bool)
    requires
        from <= to <= v@.len(),
    ensures
        r == text::starts_with(v@.subrange(from as int, to as int), p@),
{
    let ghost s = v@.subrange(from as int, to as int);
    let n: usize = p.unicode_len();
    if to - from < n {
        return false;
    }
    let r: bool = has_at(v, from, p);
    assert(v@.subrange(from as int, from + p@.len()) =~= s.take(p@.len() as int));
    r
}

/// What stands behind the prefix `p` among the characters from `from` up to `to`.
fn range_behind(v: &[char], from: usize, to: usize, p: &str) -> (r: String)
    requires
        from <= to <= v@.len(),
        text::starts_with(v@.subrange(from as int, to as int), p@),
    ensures
        r@ == behind(v@.subrange(from as int, to as int), p@),
{
    let ghost s = v@.subrange(from as int, to as int);
    let n: usize = p.unicode_len();
    let r: String = string_of(v, from + n, to);
    assert(r@ =~= behind(s, p@));
    r
}

/// Reads the lines that a proxy prints in both modes.
fn parse_common(v: &[char], a: usize, b: usize) -> (r: Option<PtLine>)
    requires
        a <= b <= v@.len(),
    ensures
        r is Some == common_line(v@.subrange(a as int, b as int)),
        r matches Some(l) ==> is_common_line(l, v@.subrange(a as int, b as int)),
{
    if range_is(v, a, b, "VERSION 1") {
        return Some(PtLine::VersionOk);
    }
    if range_starts(v, a, b, "VERSION-ERROR ") {
        return Some(PtLine::VersionError(range_behind(v, a, b, "VERSION-ERROR ")));
    }
    if range_starts(v, a, b, "ENV-ERROR ") {
        return Some(PtLine::EnvError(range_behind(v, a, b, "ENV-ERROR ")));
    }
    None
}

/// The words behind a prefix, as ranges.
fn words_of(v: &[char], a: usize, b: usize, p: &str) -> (w: Vec<(usize, usize)>)
    requires
        a <= b <= v@.len(),
        text::starts_with(v@.subrange(a as int, b as int), p@),
    ensures
        text::pieces_are(v@, w@, words_behind(v@.subrange(a as int, b as int), p@)),
{
    let n: usize = p.unicode_len();
    assert(v@.subrange(a + n, b as int) =~= behind(v@.subrange(a as int, b as int), p@));
    word_ranges(v, a + n, b)
}

/// Reads the client endpoint that a line announces.
fn parse_cmethod(v: &[char], a: usize, b: usize, name: &str) -> (r: Option<SocketAddr>)
    requires
        a <= b <= v@.len(),
    ensures
        ({
            let t = v@.subrange(a as int, b as int);
            &&& r is Some == announces_client(t, name@)
            &&& r matches Some(x) ==> addr::is_address_of(x, words_behind(t, "CMETHOD "@)[2])
        }),
{
    if !range_starts(v, a, b, "CMETHOD ") {
        return None;
    }
    let w: Vec<(usize, usize)> = words_of(v, a, b, "CMETHOD ");
    let ghost texts = words_behind(v@.subrange(a as int, b as int), "CMETHOD "@);
    if w.len() < 3 {
        return None;
    }
    assert(text::piece(v@, w@[0]) == texts[0]);
    assert(text::piece(v@, w@[1]) == texts[1]);
    assert(text::piece(v@, w@[2]) == texts[2]);
    if range_is(v, w[0].0, w[0].1, name) && range_is(v, w[1].0, w[1].1, "socks5") {
        parse_socket_addr(v, w[2].0, w[2].1)
    } else {
        None
    }
}

/// Finds the arguments among the words from the `i`-th on.
fn find_args(v: &[char], w: &[(usize, usize)], i: usize, Ghost(texts): Ghost<Seq<Seq<char>>>) -> (r:
    Option<String>)
    requires
        text::pieces_are(v@, w@, texts),
    ensures
        text_view(r) == args_from(texts, i as int),
    decreases w@.len() - i,
{
    if i >= w.len() {
        return None;
    }
    let (a, b): (usize, usize) = w[i];
    assert(text::piece(v@, w@[i as int]) == texts[i as int]);
    if range_starts(v, a, b, "ARGS:") {
        return Some(range_behind(v, a, b, "ARGS:"));
    }
    if range_starts(v, a, b, "OPT-ARGS:") {
        return Some(range_behind(v, a, b, "OPT-ARGS:"));
    }
    find_args(v, w, i + 1, Ghost(texts))
}

/// Reads the server endpoint that a line announces, and its arguments.
fn parse_smethod(v: &[char], a: usize, b: usize, name: &str) -> (r: Option<
    (SocketAddr, Option<String>),
>)
    requires
        a <= b <= v@.len(),
    ensures
        ({
            let t = v@.subrange(a as int, b as int);
            let w = words_behind(t, "SMETHOD "@);
            &&& r is Some == announces_server(t, name@)
            &&& r matches Some(x) ==> addr::is_address_of(x.0, w[1]) && text_view(x.1) == args_from(
                w,
                2,
            )
        }),
{
    if !range_starts(v, a, b, "SMETHOD ") {
        return None;
    }
    let w: Vec<(usize, usize)> = words_of(v, a, b, "SMETHOD ");
    let ghost texts = words_behind(v@.subrange(a as int, b as int), "SMETHOD "@);
    if w.len() < 2 {
        return None;
    }
    assert(text::piece(v@, w@[0]) == texts[0]);
    assert(text::piece(v@, w@[1]) == texts[1]);
    if !range_is(v, w[0].0, w[0].1, name) {
        return None;
    }
    match parse_socket_addr(v, w[1].0, w[1].1) {
        Some(bind) => Some((bind, find_args(v, &w, 2, Ghost(texts)))),
        None => None,
    }
}

/// Reads one line of a proxy's output in client mode. Endpoints of transports
/// other than `expected_name` are ignored.
pub fn parse_cmethod_line(line: &str, expected_name: &str) -> (r: PtLine)
    ensures
        is_client_line(r, line@, expected_name@),
{
    let v: Vec<char> = chars_of(line);
    let (a, b): (usize, usize) = trim_range(&v, 0, v.len());
    assert(v@.subrange(0, v@.len() as int) =~= line@);
    if range_is(&v, a, b, "CMETHODS DONE") {
        return PtLine::CmethodsDone;
    }
    if let Some(l) = parse_common(&v, a, b) {
        return l;
    }
    if range_starts(&v, a, b, "CMETHOD-ERROR ") {
        return PtLine::CmethodError(range_behind(&v, a, b, "CMETHOD-ERROR "));
    }
    match parse_cmethod(&v, a, b, expected_name) {
        Some(addr) => PtLine::Cmethod(addr),
        None => PtLine::Other,
    }
}

/// Reads one line of a proxy's output in server mode. Endpoints of transports
/// other than `expected_name` are ignored.
pub fn parse_smethod_line(line: &str, expected_name: &str) -> (r: PtLine)
    ensures
        is_server_line(r, line@, expected_name@),
{
    let v: Vec<char> = chars_of(line);
    let (a, b): (usize, usize) = trim_range(&v, 0, v.len());
    assert(v@.subrange(0, v@.len() as int) =~= line@);
    if range_is(&v, a, b, "SMETHODS DONE") {
        return PtLine::SmethodsDone;
    }
    if let Some(l) = parse_common(&v, a, b) {
        return l;
    }
    if range_starts(&v, a, b, "SMETHOD-ERROR ") {
        return PtLine::SmethodError(range_behind(&v, a, b, "SMETHOD-ERROR "));
    }
    match parse_smethod(&v, a, b, expected_name) {
        Some((bind, args)) => PtLine::Smethod { bind, args },
        None => PtLine::Other,
    }
}

/// What comes next from a proxy that is starting.
#[derive(Debug)]
pub enum PtEvent {
    /// It printed a line.
    Line(String),
    /// It closed its output.
    Closed,
    /// It has taken longer than [`PT_START_SECS`].
    TimedOut,
}

/// How many seconds a proxy may take to announce its endpoints.
pub const PT_START_SECS: u64 = 30;

/// What a starting client proxy has announced so far.
#[derive(Debug, Clone, Copy)]
pub struct ClientStart {
    /// It accepted the protocol version.
    pub version_ok: bool,
    /// The endpoint that it announced last.
    pub found: Option<SocketAddr>,
}

/// What to do with a client proxy after an event.
#[derive(Debug)]
pub enum ClientStep {
    /// Wait for the next event.
    Wait(ClientStart),
    /// The proxy is ready at this endpoint.
    Ready(SocketAddr),
    /// Kill the proxy and give up.
    Fail(Error),
}

/// `r` gives up with the error `Crypto` and the text `m`.
pub open spec fn client_fails(r: ClientStep, m: Seq<char>) -> bool {
    r matches ClientStep::Fail(Error::Crypto(x)) && x@ == m
}

/// `r` is the outcome of a client start whose announcements are over.
pub open spec fn client_concludes(r: ClientStep, s: ClientStart, name: Seq<char>) -> bool {
    if !s.version_ok {
        client_fails(r, "pt: subprocess did not announce VERSION 1"@)
    } else {
        match s.found {
            Some(a) => r == ClientStep::Ready(a),
            None => client_fails(
                r,
                "pt: subprocess did not announce a CMETHOD for transport '"@ + name + "'"@,
            ),
        }
    }
}

/// `r` is what a client start in the state `s` does with the line `line`.
pub open spec fn client_reads(r: ClientStep, s: ClientStart, line: Seq<char>, name: Seq<char>) -> bool {
    exists|l: PtLine| #[trigger]
        is_client_line(l, line, name) && match l {
            PtLine::VersionOk => r == ClientStep::Wait(
                ClientStart { version_ok: true, found: s.found },
            ),
            PtLine::Cmethod(a) => r == ClientStep::Wait(
                ClientStart { version_ok: s.version_ok, found: Some(a) },
            ),
            PtLine::CmethodsDone => client_concludes(r, s, name),
            PtLine::VersionError(m) => client_fails(r, "pt: version negotiation failed: "@ + m@),
            PtLine::EnvError(m) => client_fails(r, "pt: env error: "@ + m@),
            PtLine::CmethodError(m) => client_fails(r, "pt: cmethod error: "@ + m@),
            _ => r == ClientStep::Wait(s),
        }
}

/// `r` is what a client start in the state `s` does after the event `e`.
pub open spec fn client_steps(r: ClientStep, s: ClientStart, e: PtEvent, name: Seq<char>) -> bool {
    match e {
        PtEvent::Line(line) => client_reads(r, s, line@, name),
        PtEvent::Closed => client_concludes(r, s, name),
        PtEvent::TimedOut => client_fails(
            r,
            "pt: subprocess did not announce CMETHODS within 30s"@,
        ),
    }
}

fn fail(m: String) -> (e: Error)
    ensures
        e == Error::Crypto(m),
{
    Error::Crypto(m)
}

impl ClientStart {
    /// Nothing announced yet.
    pub fn new() -> (s: Self)
        ensures
            s == (ClientStart { version_ok: false, found: None }),
    {
        ClientStart { version_ok: false, found: None }
    }

    fn conclude(self, pt_name: &str) -> (r: ClientStep)
        ensures
            client_concludes(r, self, pt_name@),
    {
        if !self.version_ok {
            return ClientStep::Fail(fail("pt: subprocess did not announce VERSION 1".to_owned()));
        }
        match self.found {
            Some(a) => ClientStep::Ready(a),
            None => ClientStep::Fail(
                fail(
                    join3(
                        "pt: subprocess did not announce a CMETHOD for transport '",
                        pt_name,
                        "'",
                    ),
                ),
            ),
        }
    }

    /// Takes the next event from a proxy for the transport `pt_name`.
    pub fn on_event(self, event: PtEvent, pt_name: &str) -> (r: ClientStep)
        ensures
            client_steps(r, self, event, pt_name@),
    {
        match event {
            PtEvent::Line(line) => {
                let l: PtLine = parse_cmethod_line(line.as_str(), pt_name);
                let ghost g = l;
                let r: ClientStep = match l {
                    PtLine::VersionOk => ClientStep::Wait(
                        ClientStart { version_ok: true, found: self.found },
                    ),
                    PtLine::Cmethod(a) => ClientStep::Wait(
                        ClientStart { version_ok: self.version_ok, found: Some(a) },
                    ),
                    PtLine::CmethodsDone => self.conclude(pt_name),
                    PtLine::VersionError(m) => ClientStep::Fail(
                        fail(join2("pt: version negotiation failed: ", m.as_str())),
                    ),
                    PtLine::EnvError(m) => ClientStep::Fail(
                        fail(join2("pt: env error: ", m.as_str())),
                    ),
                    PtLine::CmethodError(m) => ClientStep::Fail(
                        fail(join2("pt: cmethod error: ", m.as_str())),
                    ),
                    _ => ClientStep::Wait(self),
                };
                assert(is_client_line(g, line@, pt_name@));
                assert(client_reads(r, self, line@, pt_name@));
                r
            },
            PtEvent::Closed => self.conclude(pt_name),
            PtEvent::TimedOut => ClientStep::Fail(
                fail("pt: subprocess did not announce CMETHODS within 30s".to_owned()),
            ),
        }
    }
}

/// What a bridge operator hands to clients: the transport, the address that its
/// proxy listens on, and the arguments that clients present.
#[derive(Debug, Clone)]
pub struct BridgeLine {
    /// The transport's name.
    pub transport: String,
    /// Where the proxy listens.
    pub bind_addr: SocketAddr,
    /// The arguments that clients present, if any.
    pub args: Option<String>,
}

/// The line that stands for a bridge.
pub open spec fn bridge_text(b: BridgeLine) -> Seq<char> {
    let head = b.transport@ + " "@ + addr::socket_text(b.bind_addr);
    match b.args {
        Some(a) => head + " "@ + a@,
        None => head,
    }
}

impl BridgeLine {
    /// The line to share with clients.
    pub fn client_line(&self) -> (r: String)
        ensures
            r@ == bridge_text(*self),
    {
        let a: String = self.bind_addr.text();
        let head: String = join3(self.transport.as_str(), " ", a.as_str());
        match &self.args {
            Some(args) => join3(head.as_str(), " ", args.as_str()),
            None => head,
        }
    }
}

/// What a starting server proxy has announced so far.
#[derive(Debug)]
pub struct ServerStart {
    /// It accepted the protocol version.
    pub version_ok: bool,
    /// The endpoint that it announced last.
    pub found: Option<BridgeLine>,
}

/// What to do with a server proxy after an event.
#[derive(Debug)]
pub enum ServerStep {
    /// Wait for the next event.
    Wait(ServerStart),
    /// The proxy is ready as this bridge.
    Ready(BridgeLine),
    /// Kill the proxy and give up.
    Fail(Error),
}

/// `r` gives up with the error `Crypto` and the text `m`.
pub open spec fn server_fails(r: ServerStep, m: Seq<char>) -> bool {
    r matches ServerStep::Fail(Error::Crypto(x)) && x@ == m
}

/// `r` is the outcome of a server start whose announcements are over.
pub open spec fn server_concludes(r: ServerStep, s: ServerStart, name: Seq<char>) -> bool {
    if !s.version_ok {
        server_fails(r, "pt: subprocess did not announce VERSION 1"@)
    } else {
        match s.found {
            Some(b) => r == ServerStep::Ready(b),
            None => server_fails(
                r,
                "pt: subprocess did not announce an SMETHOD for transport '"@ + name + "'"@,
            ),
        }
    }
}

/// `s` holds the bridge that a line announced, in place of what `old` held.
pub open spec fn holds_bridge(
    s: ServerStart,
    before: ServerStart,
    bind: SocketAddr,
    args: Option<String>,
    name: Seq<char>,
) -> bool {
    s.version_ok == before.version_ok && (s.found matches Some(b) && b.transport@ == name
        && b.bind_addr == bind && b.args == args)
}

/// `r` is what a server start in the state `s` does with the line `line`.
pub open spec fn server_reads(r: ServerStep, s: ServerStart, line: Seq<char>, name: Seq<char>) -> bool {
    exists|l: PtLine| #[trigger]
        is_server_line(l, line, name) && match l {
            PtLine::VersionOk => r == ServerStep::Wait(
                ServerStart { version_ok: true, found: s.found },
            ),
            PtLine::Smethod { bind, args } => r matches ServerStep::Wait(t) && holds_bridge(
                t,
                s,
                bind,
                args,
                name,
            ),
            PtLine::SmethodsDone => server_concludes(r, s, name),
            PtLine::VersionError(m) => server_fails(r, "pt: version negotiation failed: "@ + m@),
            PtLine::EnvError(m) => server_fails(r, "pt: env error: "@ + m@),
            PtLine::SmethodError(m) => server_fails(r, "pt: smethod error: "@ + m@),
            _ => r == ServerStep::Wait(s),
        }
}

/// `r` is what a server start in the state `s` does after the event `e`.
pub open spec fn server_steps(r: ServerStep, s: ServerStart, e: PtEvent, name: Seq<char>) -> bool {
    match e {
        PtEvent::Line(line) => server_reads(r, s, line@, name),
        PtEvent::Closed => server_concludes(r, s, name),
        PtEvent::TimedOut => server_fails(
            r,
            "pt: subprocess did not announce SMETHODS within 30s"@,
        ),
    }
}

impl ServerStart {
    /// Nothing announced yet.
    pub fn new() -> (s: Self)
        ensures
            s == (ServerStart { version_ok: false, found: None }),
    {
        ServerStart { version_ok: false, found: None }
    }

    fn conclude(self, pt_name: &str) -> (r: ServerStep)
        ensures
            server_concludes(r, self, pt_name@),
    {
        if !self.version_ok {
            return ServerStep::Fail(fail("pt: subprocess did not announce VERSION 1".to_owned()));
        }
        match self.found {
            Some(b) => ServerStep::Ready(b),
            None => ServerStep::Fail(
                fail(
                    join3(
                        "pt: subprocess did not announce an SMETHOD for transport '",
                        pt_name,
                        "'",
                    ),
                ),
            ),
        }
    }

    /// Takes the next event from a proxy for the transport `pt_name`.
    pub fn on_event(self, event: PtEvent, pt_name: &str) -> (r: ServerStep)
        ensures
            server_steps(r, self, event, pt_name@),
    {
        let ghost before = self;
        match event {
            PtEvent::Line(line) => {
                let l: PtLine = parse_smethod_line(line.as_str(), pt_name);
                let ghost g = l;
                let r: ServerStep = match l {
                    PtLine::VersionOk => ServerStep::Wait(
                        ServerStart { version_ok: true, found: self.found },
                    ),
                    PtLine::Smethod { bind, args } => ServerStep::Wait(
                        ServerStart {
                            version_ok: self.version_ok,
                            found: Some(
                                BridgeLine { transport: pt_name.to_owned(), bind_addr: bind, args },
                            ),
                        },
                    ),
                    PtLine::SmethodsDone => self.conclude(pt_name),
                    PtLine::VersionError(m) => ServerStep::Fail(
                        fail(join2("pt: version negotiation failed: ", m.as_str())),
                    ),
                    PtLine::EnvError(m) => ServerStep::Fail(
                        fail(join2("pt: env error: ", m.as_str())),
                    ),
                    PtLine::SmethodError(m) => ServerStep::Fail(
                        fail(join2("pt: smethod error: ", m.as_str())),
                    ),
                    _ => ServerStep::Wait(self),
                };
                assert(is_server_line(g, line@, pt_name@));
                assert(server_reads(r, before, line@, pt_name@));
                r
            },
            PtEvent::Closed => self.conclude(pt_name),
            PtEvent::TimedOut => ServerStep::Fail(
                fail("pt: subprocess did not announce SMETHODS within 30s".to_owned()),
            ),
        }
    }
}

/// One variable of a proxy's environment.
#[derive(Debug)]
pub struct EnvVar {
    /// The variable's name.
    pub key: &'static str,
    /// Its value.
    pub value: String,
}

/// The names and values of `e`.
pub open spec fn env_view(e: Seq<EnvVar>) -> Seq<(Seq<char>, Seq<char>)> {
    e.map_values(|v: EnvVar| (v.key@, v.value@))
}

/// The environment of a client proxy.
pub open spec fn client_env_spec(name: Seq<char>, state_dir: Seq<char>) -> Seq<
    (Seq<char>, Seq<char>),
> {
    seq![
        ("TOR_PT_MANAGED_TRANSPORT_VER"@, "1"@),
        ("TOR_PT_CLIENT_TRANSPORTS"@, name),
        ("TOR_PT_STATE_LOCATION"@, state_dir),
        ("TOR_PT_EXIT_ON_STDIN_CLOSE"@, "1"@),
    ]
}

/// The environment of a server proxy.
pub open spec fn server_env_spec(
    name: Seq<char>,
    state_dir: Seq<char>,
    bind_addr: Seq<char>,
    orport: Seq<char>,
    options: Option<Seq<char>>,
) -> Seq<(Seq<char>, Seq<char>)> {
    let base = seq![
        ("TOR_PT_MANAGED_TRANSPORT_VER"@, "1"@),
        ("TOR_PT_SERVER_TRANSPORTS"@, name),
        ("TOR_PT_SERVER_BINDADDR"@, name + "-"@ + bind_addr),
        ("TOR_PT_ORPORT"@, orport),
        ("TOR_PT_STATE_LOCATION"@, state_dir),
        ("TOR_PT_EXIT_ON_STDIN_CLOSE"@, "1"@),
    ];
    match options {
        Some(o) => base.push(("TOR_PT_SERVER_TRANSPORT_OPTIONS"@, o)),
        None => base,
    }
}

/// The environment that a client proxy is started with. It exits when its input
/// closes, so that it never outlives the process that started it.
pub fn client_environment(pt_name: &str, state_dir: &str) -> (r: Vec<EnvVar>)
    ensures
        env_view(r@) == client_env_spec(pt_name@, state_dir@),
{
    let r: Vec<EnvVar> = vec![
        EnvVar { key: "TOR_PT_MANAGED_TRANSPORT_VER", value: "1".to_owned() },
        EnvVar { key: "TOR_PT_CLIENT_TRANSPORTS", value: pt_name.to_owned() },
        EnvVar { key: "TOR_PT_STATE_LOCATION", value: state_dir.to_owned() },
        EnvVar { key: "TOR_PT_EXIT_ON_STDIN_CLOSE", value: "1".to_owned() },
    ];
    assert(env_view(r@) =~= client_env_spec(pt_name@, state_dir@));
    r
}

/// The environment that a server proxy is started with: it listens on `bind_addr`
/// and forwards to `orport`.
pub fn server_environment(
    pt_name: &str,
    state_dir: &str,
    bind_addr: &str,
    orport: &str,
    server_options: Option<&str>,
) -> (r: Vec<EnvVar>)
    ensures
        env_view(r@) == server_env_spec(
            pt_name@,
            state_dir@,
            bind_addr@,
            orport@,
            match server_options {
                Some(o) => Some(o@),
                None => None,
            },
        ),
{
    let mut r: Vec<EnvVar> = vec![
        EnvVar { key: "TOR_PT_MANAGED_TRANSPORT_VER", value: "1".to_owned() },
        EnvVar { key: "TOR_PT_SERVER_TRANSPORTS", value: pt_name.to_owned() },
        EnvVar { key: "TOR_PT_SERVER_BINDADDR", value: join3(pt_name, "-", bind_addr) },
        EnvVar { key: "TOR_PT_ORPORT", value: orport.to_owned() },
        EnvVar { key: "TOR_PT_STATE_LOCATION", value: state_dir.to_owned() },
        EnvVar { key: "TOR_PT_EXIT_ON_STDIN_CLOSE", value: "1".to_owned() },
    ];
    let ghost base = server_env_spec(pt_name@, state_dir@, bind_addr@, orport@, None);
    assert(env_view(r@) =~= base);
    if let Some(o) = server_options {
        let ghost r0 = r@;
        r.push(EnvVar { key: "TOR_PT_SERVER_TRANSPORT_OPTIONS", value: o.to_owned() });
        assert(env_view(r@) =~= env_view(r0).push(("TOR_PT_SERVER_TRANSPORT_OPTIONS"@, o@)));
    }
    r
}

/// A transport carried by an external proxy.
#[derive(Debug)]
pub struct SubprocessTransport {
    /// The transport's name, such as `obfs4`.
    pub pt_name: &'static str,
    /// The proxy's SOCKS5 endpoint, once it has announced one.
    pub socks_addr: Option<SocketAddr>,
    /// The arguments that a bridge asks for.
    pub bridge_args: String,
}

impl SubprocessTransport {
    /// A transport whose proxy has not been started.
    pub fn new(pt_name: &'static str, bridge_args: &str) -> (r: Self)
        ensures
            r.pt_name == pt_name,
            r.socks_addr is None,
            r.bridge_args@ == bridge_args@,
    {
        SubprocessTransport { pt_name, socks_addr: None, bridge_args: bridge_args.to_owned() }
    }

    /// The proxy's SOCKS5 endpoint, if it is known.
    pub fn socks_addr(&self) -> (r: Option<SocketAddr>)
        ensures
            r == self.socks_addr,
    {
        self.socks_addr
    }

    /// Records the proxy's endpoint. The first one stays.
    pub fn set_socks_addr(&mut self, addr: SocketAddr) -> (r: Result<(), &'static str>)
        ensures
            r is Ok == old(self).socks_addr is None,
            r matches Err(m) ==> m@ == "socks_addr already set"@,
            final(self).socks_addr == match old(self).socks_addr {
                Some(a) => Some(a),
                None => Some(addr),
            },
            final(self).pt_name == old(self).pt_name,
            final(self).bridge_args == old(self).bridge_args,
    {
        match self.socks_addr {
            Some(_) => Err("socks_addr already set"),
            None => {
                self.socks_addr = Some(addr);
                Ok(())
            },
        }
    }

    /// Takes over the endpoint of a proxy that is ready.
    pub fn started_at(&mut self, addr: SocketAddr) -> (r: Result<(), Error>)
        ensures
            r is Ok == old(self).socks_addr is None,
            r is Err ==> errors::is_crypto(r, "pt: socks_addr already set"@),
            final(self).socks_addr == match old(self).socks_addr {
                Some(a) => Some(a),
                None => Some(addr),
            },
            final(self).pt_name == old(self).pt_name,
            final(self).bridge_args == old(self).bridge_args,
    {
        match self.set_socks_addr(addr) {
            Ok(()) => Ok(()),
            Err(m) => {
                let t: String = join2("pt: ", m);
                proof {
                    reveal_strlit("pt: ");
                    reveal_strlit("socks_addr already set");
                    reveal_strlit("pt: socks_addr already set");
                }
                assert(t@ =~= "pt: socks_addr already set"@);
                Err(Error::Crypto(t))
            },
        }
    }

    /// The endpoint to dial through, or the error of a transport without one.
    pub fn dial_through(&self) -> (r: Result<SocketAddr, Error>)
        ensures
            match self.socks_addr {
                Some(a) => r == Ok::<SocketAddr, Error>(a),
                None => errors::is_crypto(
                    r,
                    "subprocess transport: SOCKS5 endpoint not configured (call start_subprocess or set_socks_addr first)"@,
                ),
            },
    {
        match self.socks_addr {
            Some(a) => Ok(a),
            None => Err(
                fail(
                    "subprocess transport: SOCKS5 endpoint not configured (call start_subprocess or set_socks_addr first)".to_owned(),
                ),
            ),
        }
    }

    /// The answer to a request to listen, which a client proxy cannot do.
    pub fn listen_refusal(&self) -> (r: Error)
        ensures
            r matches Error::Crypto(m) && m@
                == "subprocess transport: server-side listen is not supported (use PlainTcp on the bridge side and a forward proxy)"@,
    {
        fail(
            "subprocess transport: server-side listen is not supported (use PlainTcp on the bridge side and a forward proxy)".to_owned(),
        )
    }
}

/// Where a SOCKS5 dialogue stands: which answer is awaited.
#[derive(Debug, Clone, Copy, PartialEq, Eq)]
pub enum SocksState {
    /// The choice of an authentication method.
    Method,
    /// The verdict on the credentials.
    Auth,
    /// The head of the reply to the request.
    Reply,
    /// The length of the bound name.
    BoundLength,
    /// The bound address and port, of so many bytes.
    Bound(usize),
    /// Nothing: the connection stands.
    Open,
}

/// The next move in a SOCKS5 dialogue.
#[derive(Debug)]
pub struct SocksStep {
    /// What to send.
    pub send: Vec<u8>,
    /// Which answer to read after that.
    pub next: SocksState,
}

/// How many bytes the awaited answer has.
pub open spec fn socks_wanted(s: SocksState) -> nat {
    match s {
        SocksState::Method => 2,
        SocksState::Auth => 2,
        SocksState::Reply => 4,
        SocksState::BoundLength => 1,
        SocksState::Bound(n) => n as nat,
        SocksState::Open => 0,
    }
}

impl SocksState {
    /// How many bytes to read before [`SocksState::on_bytes`].
    pub fn wanted(self) -> (r: usize)
        ensures
            r == socks_wanted(self),
    {
        match self {
            SocksState::Method => 2,
            SocksState::Auth => 2,
            SocksState::Reply => 4,
            SocksState::BoundLength => 1,
            SocksState::Bound(n) => n,
            SocksState::Open => 0,
        }
    }
}

/// The message that carries the arguments `args` as a user name, with no password.
pub open spec fn socks_credentials(args: Seq<u8>) -> Seq<u8> {
    seq![1u8, args.len() as u8] + args + seq![0u8]
}

/// The request for a connection to the named host and the port.
pub open spec fn socks_request(host: Seq<u8>, port: u16) -> Seq<u8> {
    seq![5u8, 1u8, 0u8, 3u8, host.len() as u8] + host + bytes::be_bytes(port as nat, 2)
}

/// The meaning of the reply code `rep`.
pub open spec fn socks_reply_text(rep: u8) -> Seq<char> {
    if rep == 0 {
        "succeeded"@
    } else if rep == 1 {
        "general failure"@
    } else if rep == 2 {
        "connection not allowed"@
    } else if rep == 3 {
        "network unreachable"@
    } else if rep == 4 {
        "host unreachable"@
    } else if rep == 5 {
        "connection refused"@
    } else if rep == 6 {
        "TTL expired"@
    } else if rep == 7 {
        "command not supported"@
    } else if rep == 8 {
        "addr type not supported"@
    } else {
        "unknown"@
    }
}

/// The meaning of a SOCKS5 reply code.
pub fn socks5_rep_str(rep: u8) -> (r: &'static str)
    ensures
        r@ == socks_reply_text(rep),
{
    match rep {
        0x00 => "succeeded",
        0x01 => "general failure",
        0x02 => "connection not allowed",
        0x03 => "network unreachable",
        0x04 => "host unreachable",
        0x05 => "connection refused",
        0x06 => "TTL expired",
        0x07 => "command not supported",
        0x08 => "addr type not supported",
        _ => "unknown",
    }
}

/// Two hexadecimal digits.
pub open spec fn hex_byte(b: u8) -> Seq<char> {
    seq![text::hex_digit((b / 16) as nat), text::hex_digit((b % 16) as nat)]
}

fn hex_byte_string(b: u8) -> (r: String)
    ensures
        r@ == hex_byte(b),
{
    let mut r: String = String::new();
    r.push(hex_digit_char(b / 16));
    r.push(hex_digit_char(b % 16));
    assert(r@ =~= hex_byte(b));
    r
}

/// `r` sends `bytes` and waits for `next`.
pub open spec fn socks_moves(r: Result<SocksStep, Error>, bytes: Seq<u8>, next: SocksState) -> bool {
    r matches Ok(s) && s.send@ == bytes && s.next == next
}

/// `r` makes the request, or reports a host name that does not fit it.
pub open spec fn socks_requests(r: Result<SocksStep, Error>, host: Seq<u8>, port: u16) -> bool {
    if host.len() > 255 {
        errors::is_crypto(r, "socks5: dest_host too long"@)
    } else {
        socks_moves(r, socks_request(host, port), SocksState::Reply)
    }
}

/// `r` is the move after the server chose its method.
pub open spec fn socks_after_method(
    r: Result<SocksStep, Error>,
    got: Seq<u8>,
    host: Seq<u8>,
    port: u16,
    args: Seq<u8>,
) -> bool {
    if got[0] != 5 {
        errors::is_crypto(r, "socks5: bad ver "@ + text::decimal(got[0] as nat))
    } else if got[1] == 0 {
        socks_requests(r, host, port)
    } else if got[1] == 2 {
        if args.len() > 255 {
            errors::is_crypto(r, "socks5: pt_args > 255 bytes"@)
        } else {
            socks_moves(r, socks_credentials(args), SocksState::Auth)
        }
    } else {
        errors::is_crypto(
            r,
            "socks5: server picked unsupported method 0x"@ + hex_byte(got[1]),
        )
    }
}

/// `r` is the move after the head of the reply.
pub open spec fn socks_after_reply(r: Result<SocksStep, Error>, got: Seq<u8>) -> bool {
    if got[0] != 5 {
        errors::is_crypto(r, "socks5: bad reply ver "@ + text::decimal(got[0] as nat))
    } else if got[1] != 0 {
        errors::is_crypto(
            r,
            "socks5: connect failed (rep="@ + socks_reply_text(got[1]) + ")"@,
        )
    } else if got[3] == 1 {
        socks_moves(r, Seq::empty(), SocksState::Bound(6))
    } else if got[3] == 4 {
        socks_moves(r, Seq::empty(), SocksState::Bound(18))
    } else if got[3] == 3 {
        socks_moves(r, Seq::empty(), SocksState::BoundLength)
    } else {
        errors::is_crypto(r, "socks5: bad ATYP in reply: 0x"@ + hex_byte(got[3]))
    }
}

/// `r` is the move of a dialogue in the state `s` after the answer `got`.
pub open spec fn socks_follows(
    r: Result<SocksStep, Error>,
    s: SocksState,
    got: Seq<u8>,
    host: Seq<u8>,
    port: u16,
    args: Seq<u8>,
) -> bool {
    match s {
        SocksState::Method => socks_after_method(r, got, host, port, args),
        SocksState::Auth => if got[1] != 0 {
            errors::is_crypto(
                r,
                "socks5: auth failed (status="@ + text::decimal(got[1] as nat) + ")"@,
            )
        } else {
            socks_requests(r, host, port)
        },
        SocksState::Reply => socks_after_reply(r, got),
        SocksState::BoundLength => socks_moves(
            r,
            Seq::empty(),
            SocksState::Bound((got[0] + 2) as usize),
        ),
        SocksState::Bound(_) => socks_moves(r, Seq::empty(), SocksState::Open),
        SocksState::Open => socks_moves(r, Seq::empty(), SocksState::Open),
    }
}

/// The opening of a SOCKS5 dialogue: no authentication and user name with password
/// are offered.
pub fn socks5_open() -> (r: SocksStep)
    ensures
        r.send@ == seq![5u8, 2u8, 0u8, 2u8],
        r.next == SocksState::Method,
{
    let send: Vec<u8> = vec![0x05, 0x02, 0x00, 0x02];
    assert(send@ =~= seq![5u8, 2u8, 0u8, 2u8]);
    SocksStep { send, next: SocksState::Method }
}

fn socks5_request(dest_host: &str, dest_port: u16) -> (r: Result<SocksStep, Error>)
    ensures
        socks_requests(r, encode_utf8(dest_host@), dest_port),
{
    let host: &[u8] = dest_host.as_bytes();
    if host.len() > 255 {
        return Err(fail("socks5: dest_host too long".to_owned()));
    }
    let mut send: Vec<u8> = vec![0x05, 0x01, 0x00, 0x03];
    send.push(host.len() as u8);
    append(&mut send, host);
    push_be(&mut send, dest_port as u64, 2);
    assert(send@ =~= socks_request(host@, dest_port));
    Ok(SocksStep { send, next: SocksState::Reply })
}

fn step_quietly(next: SocksState) -> (r: Result<SocksStep, Error>)
    ensures
        socks_moves(r, Seq::empty(), next),
{
    let send: Vec<u8> = Vec::new();
    assert(send@ =~= Seq::<u8>::empty());
    Ok(SocksStep { send, next })
}

fn socks5_after_method(got: &[u8], dest_host: &str, dest_port: u16, pt_args: &str) -> (r: Result<
    SocksStep,
    Error,
>)
    requires
        got@.len() == 2,
    ensures
        socks_after_method(
            r,
            got@,
            encode_utf8(dest_host@),
            dest_port,
            encode_utf8(pt_args@),
        ),
{
    if got[0] != 0x05 {
        let n: String = decimal_string(got[0] as u64);
        return Err(fail(join2("socks5: bad ver ", n.as_str())));
    }
    if got[1] == 0x00 {
        return socks5_request(dest_host, dest_port);
    }
    if got[1] == 0x02 {
        let user: &[u8] = pt_args.as_bytes();
        if user.len() > 255 {
            return Err(fail("socks5: pt_args > 255 bytes".to_owned()));
        }
        let mut send: Vec<u8> = Vec::new();
        send.push(0x01);
        send.push(user.len() as u8);
        append(&mut send, user);
        send.push(0x00);
        assert(send@ =~= socks_credentials(user@));
        return Ok(SocksStep { send, next: SocksState::Auth });
    }
    let h: String = hex_byte_string(got[1]);
    Err(fail(join2("socks5: server picked unsupported method 0x", h.as_str())))
}

fn socks5_after_reply(got: &[u8]) -> (r: Result<SocksStep, Error>)
    requires
        got@.len() == 4,
    ensures
        socks_after_reply(r, got@),
{
    if got[0] != 0x05 {
        let n: String = decimal_string(got[0] as u64);
        return Err(fail(join2("socks5: bad reply ver ", n.as_str())));
    }
    if got[1] != 0x00 {
        return Err(fail(join3("socks5: connect failed (rep=", socks5_rep_str(got[1]), ")")));
    }
    if got[3] == 0x01 {
        step_quietly(SocksState::Bound(6))
    } else if got[3] == 0x04 {
        step_quietly(SocksState::Bound(18))
    } else if got[3] == 0x03 {
        step_quietly(SocksState::BoundLength)
    } else {
        let h: String = hex_byte_string(got[3]);
        Err(fail(join2("socks5: bad ATYP in reply: 0x", h.as_str())))
    }
}

impl SocksState {
    /// Takes the awaited answer, in a dialogue that asks for a connection to
    /// `dest_host` and `dest_port` and carries `pt_args` as a user name where the
    /// server asks for credentials.
    pub fn on_bytes(self, got: &[u8], dest_host: &str, dest_port: u16, pt_args: &str) -> (r: Result<
        SocksStep,
        Error,
    >)
        requires
            got@.len() == socks_wanted(self),
        ensures
            socks_follows(
                r,
                self,
                got@,
                encode_utf8(dest_host@),
                dest_port,
                encode_utf8(pt_args@),
            ),
    {
        match self {
            SocksState::Method => socks5_after_method(got, dest_host, dest_port, pt_args),
            SocksState::Auth => {
                if got[1] != 0x00 {
                    let n: String = decimal_string(got[1] as u64);
                    return Err(fail(join3("socks5: auth failed (status=", n.as_str(), ")")));
                }
                socks5_request(dest_host, dest_port)
            },
            SocksState::Reply => socks5_after_reply(got),
            SocksState::BoundLength => step_quietly(SocksState::Bound(got[0] as usize + 2)),
            SocksState::Bound(_) => step_quietly(SocksState::Open),
            SocksState::Open => step_quietly(SocksState::Open),
        }
    }
}

/// A request determines the host and the port that it asks for.
pub proof fn law_a_request_names_its_destination(h: Seq<u8>, p: u16, k: Seq<u8>, q: u16)
    requires
        h.len() <= 255,
        k.len() <= 255,
        socks_request(h, p) == socks_request(k, q),
    ensures
        h == k,
        p == q,
{
    let a = socks_request(h, p);
    let b = socks_request(k, q);
    bytes::lemma_be_bytes_len(p as nat, 2);
    bytes::lemma_be_bytes_len(q as nat, 2);
    assert(a.len() == h.len() + 7);
    assert(a.subrange(5, 5 + h.len() as int) =~= h);
    assert(b.subrange(5, 5 + k.len() as int) =~= k);
    assert(a.skip(5 + h.len() as int) =~= bytes::be_bytes(p as nat, 2));
    assert(b.skip(5 + k.len() as int) =~= bytes::be_bytes(q as nat, 2));
    bytes::lemma_pow256();
    bytes::lemma_be_injective(p as nat, q as nat, 2);
}

/// Credentials determine the arguments that they carry.
pub proof fn law_credentials_carry_the_arguments(a: Seq<u8>, b: Seq<u8>)
    requires
        a.len() <= 255,
        b.len() <= 255,
        socks_credentials(a) == socks_credentials(b),
    ensures
        a == b,
{
    let x = socks_credentials(a);
    let y = socks_credentials(b);
    assert(x.len() == a.len() + 3);
    assert(x.subrange(2, 2 + a.len() as int) =~= a);
    assert(y.subrange(2, 2 + b.len() as int) =~= b);
}

/// The number of answers that a SOCKS5 dialogue still awaits, at most.
pub open spec fn socks_rank(s: SocksState) -> nat {
    match s {
        SocksState::Method => 5,
        SocksState::Auth => 4,
        SocksState::Reply => 3,
        SocksState::BoundLength => 2,
        SocksState::Bound(_) => 1,
        SocksState::Open => 0,
    }
}

/// A SOCKS5 dialogue comes to an end: each answer brings it closer, whatever the
/// server says.
pub proof fn law_a_dialogue_ends(
    r: Result<SocksStep, Error>,
    s: SocksState,
    got: Seq<u8>,
    host: Seq<u8>,
    port: u16,
    args: Seq<u8>,
)
    requires
        s != SocksState::Open,
        socks_follows(r, s, got, host, port, args),
    ensures
        r matches Ok(t) ==> socks_rank(t.next) < socks_rank(s),
{
}

/// A proxy is taken as ready only after it accepted the version and announced an
/// endpoint of the transport asked for.
pub proof fn law_ready_means_announced(r: ClientStep, s: ClientStart, e: PtEvent, name: Seq<char>)
    requires
        client_steps(r, s, e, name),
    ensures
        r matches ClientStep::Ready(a) ==> s.version_ok && s.found == Some(a),
{
}

/// A transport is ready exactly where it announced its version and its address before it
/// was done; until then it is waited for, and an error that it reports ends the wait.
pub proof fn law_a_client_transport_starts(
    name: &str,
    fresh: ClientStart,
    s: ClientStart,
    closed: ClientStep,
    late: ClientStep,
)
    requires
        call_ensures(ClientStart::new, (), fresh),
        call_ensures(ClientStart::on_event, (s, PtEvent::Closed, name), closed),
        call_ensures(ClientStart::on_event, (s, PtEvent::TimedOut, name), late),
    ensures
        !fresh.version_ok && fresh.found is None,
        closed is Ready <==> s.version_ok && s.found is Some,
        closed is Ready ==> closed->Ready_0 == s.found->0,
        closed is Fail <==> !s.version_ok || s.found is None,
        late is Fail,
{
}

/// The version line is remembered and leaves the address alone.
pub proof fn law_the_version_is_remembered(
    name: &str,
    s: ClientStart,
    t: ServerStart,
    line: String,
    r: ClientStep,
    q: ServerStep,
)
    requires
        line@ == "VERSION 1"@,
        call_ensures(ClientStart::on_event, (s, PtEvent::Line(line), name), r),
        call_ensures(ServerStart::on_event, (t, PtEvent::Line(line), name), q),
    ensures
        r == ClientStep::Wait(ClientStart { version_ok: true, found: s.found }),
        q == ServerStep::Wait(ServerStart { version_ok: true, found: t.found }),
{
    lemma_version_line();
}

proof fn lemma_version_line()
    ensures
        text::trimmed("VERSION 1"@) == "VERSION 1"@,
        "VERSION 1"@ != "CMETHODS DONE"@,
        "VERSION 1"@ != "SMETHODS DONE"@,
{
    reveal_strlit("VERSION 1");
    reveal_strlit("CMETHODS DONE");
    reveal_strlit("SMETHODS DONE");
    let s = "VERSION 1"@;
    assert(s[0] == 'V' && s.last() == '1');
    assert(text::trimmed_start(s) == s);
    assert(text::trimmed_end(s) == s);
    assert("CMETHODS DONE"@.len() == 13 && "SMETHODS DONE"@.len() == 13);
}

/// A bridge is ready exactly where its transport announced version and address.
pub proof fn law_a_server_transport_starts(name: &str, fresh: ServerStart, s: ServerStart, closed: ServerStep, late: ServerStep)
    requires
        call_ensures(ServerStart::new, (), fresh),
        call_ensures(ServerStart::on_event, (s, PtEvent::Closed, name), closed),
        call_ensures(ServerStart::on_event, (s, PtEvent::TimedOut, name), late),
    ensures
        !fresh.version_ok && fresh.found is None,
        closed is Ready <==> s.version_ok && s.found is Some,
        closed is Ready ==> closed->Ready_0 == s.found->0,
        closed is Fail <==> !s.version_ok || s.found is None,
        late is Fail,
{
}

/// A transport is dialled through at the address it was given, which is given once.
pub proof fn law_a_transport_has_one_address(
    name: &'static str,
    args: &str,
    t: SubprocessTransport,
    none: Option<SocketAddr>,
    early: Result<SocketAddr, Error>,
    one: SubprocessTransport,
    a: SocketAddr,
    first: Result<(), &'static str>,
    two: SubprocessTransport,
    b: SocketAddr,
    second: Result<(), Error>,
    r: Result<SocketAddr, Error>,
)
    requires
        call_ensures(SubprocessTransport::new, (name, args), t),
        call_ensures(SubprocessTransport::socks_addr, (&t,), none),
        call_ensures(SubprocessTransport::dial_through, (&t,), early),
        exists|x: &mut SubprocessTransport|
            *x == t && *final(x) == one && #[trigger] call_ensures(
                SubprocessTransport::set_socks_addr,
                (x, a),
                first,
            ),
        exists|x: &mut SubprocessTransport|
            *x == one && *final(x) == two && #[trigger] call_ensures(SubprocessTransport::started_at, (x, b), second),
        call_ensures(SubprocessTransport::dial_through, (&two,), r),
    ensures
        none is None && early is Err,
        first is Ok,
        second is Err,
        r == Ok::<SocketAddr, Error>(a),
{
}

/// A SOCKS dialogue offers both methods, sends the arguments where the proxy asks for
/// them, and names the destination; it goes on only from version five, and fails where the
/// proxy refuses.
pub proof fn law_a_dialogue_opens(
    opening: SocksStep,
    got: &[u8],
    host: &str,
    port: u16,
    args: &str,
    r: Result<SocksStep, Error>,
)
    requires
        call_ensures(socks5_open, (), opening),
        got@.len() == 2,
        call_ensures(SocksState::on_bytes, (opening.next, got, host, port, args), r),
    ensures
        opening.send@ == seq![5u8, 2, 0, 2],
        got@[0] != 5 ==> r is Err,
        got@[0] == 5 && got@[1] != 0 && got@[1] != 2 ==> r is Err,
        got@[0] == 5 && got@[1] == 0 ==> (r is Ok <==> encode_utf8(host@).len() <= 255),
        got@[0] == 5 && got@[1] == 0 && r is Ok ==> r->Ok_0.next is Reply && r->Ok_0.send@.len() == encode_utf8(
            host@,
        ).len() + 7 && r->Ok_0.send@.subrange(0, 4) == seq![5u8, 1, 0, 3] && r->Ok_0.send@.subrange(
            5,
            5 + encode_utf8(host@).len() as int,
        ) == encode_utf8(host@) && r->Ok_0.send@.skip(5 + encode_utf8(host@).len() as int) == bytes::be_bytes(
            port as nat,
            2,
        ),
        got@[0] == 5 && got@[1] == 2 ==> (r is Ok <==> encode_utf8(args@).len() <= 255),
        got@[0] == 5 && got@[1] == 2 && r is Ok ==> r->Ok_0.next is Auth && r->Ok_0.send@.subrange(
            2,
            2 + encode_utf8(args@).len() as int,
        ) == encode_utf8(args@),
{
    bytes::lemma_be_bytes_len(port as nat, 2);
    let h = encode_utf8(host@);
    let a = encode_utf8(args@);
    if got@[0] == 5 && got@[1] == 0 && r is Ok {
        let s = r->Ok_0.send@;
        assert(s.subrange(0, 4) =~= seq![5u8, 1, 0, 3]);
        assert(s.subrange(5, 5 + h.len() as int) =~= h);
        assert(s.skip(5 + h.len() as int) =~= bytes::be_bytes(port as nat, 2));
    }
    if got@[0] == 5 && got@[1] == 2 && r is Ok {
        assert(r->Ok_0.send@.subrange(2, 2 + a.len() as int) =~= a);
    }
}

/// The answer to a request is read to its end before data flows: the address that the proxy
/// bound is as long as its kind says, and any refusal ends the dialogue.
pub proof fn law_a_dialogue_is_read_to_its_end(
    got: &[u8],
    host: &str,
    port: u16,
    args: &str,
    r: Result<SocksStep, Error>,
    status: &[u8],
    auth: Result<SocksStep, Error>,
    n: &[u8],
    l: Result<SocksStep, Error>,
    rest: usize,
    bound: &[u8],
    o: Result<SocksStep, Error>,
    wanted: usize,
)
    requires
        got@.len() == 4,
        call_ensures(SocksState::on_bytes, (SocksState::Reply, got, host, port, args), r),
        status@.len() == 2,
        call_ensures(SocksState::on_bytes, (SocksState::Auth, status, host, port, args), auth),
        n@.len() == 1,
        call_ensures(SocksState::on_bytes, (SocksState::BoundLength, n, host, port, args), l),
        bound@.len() == rest,
        call_ensures(SocksState::on_bytes, (SocksState::Bound(rest), bound, host, port, args), o),
        call_ensures(SocksState::wanted, (SocksState::Bound(rest),), wanted),
    ensures
        got@[0] != 5 || got@[1] != 0 ==> r is Err,
        r is Ok ==> r->Ok_0.send@.len() == 0,
        got@[0] == 5 && got@[1] == 0 && got@[3] == 1 ==> r is Ok && r->Ok_0.next == SocksState::Bound(6),
        got@[0] == 5 && got@[1] == 0 && got@[3] == 4 ==> r is Ok && r->Ok_0.next == SocksState::Bound(18),
        got@[0] == 5 && got@[1] == 0 && got@[3] == 3 ==> r is Ok && r->Ok_0.next is BoundLength,
        got@[3] != 1 && got@[3] != 3 && got@[3] != 4 ==> r is Err,
        status@[1] != 0 ==> auth is Err,
        status@[1] == 0 && encode_utf8(host@).len() <= 255 ==> auth is Ok && auth->Ok_0.next is Reply,
        l is Ok && l->Ok_0.next == SocksState::Bound((n@[0] + 2) as usize),
        o is Ok && o->Ok_0.next is Open,
        wanted == rest,
{
}

/// A transport is told what it needs: its name and where to keep its state, and as a server
/// where to listen and where to hand connections on.
pub proof fn law_transports_are_told_what_they_need(
    name: &str,
    dir: &str,
    c: Vec<EnvVar>,
    bind: &str,
    orport: &str,
    options: &str,
    s: Vec<EnvVar>,
    o: Vec<EnvVar>,
)
    requires
        call_ensures(client_environment, (name, dir), c),
        call_ensures(server_environment, (name, dir, bind, orport, None), s),
        call_ensures(server_environment, (name, dir, bind, orport, Some(options)), o),
    ensures
        env_view(c@).contains(("TOR_PT_MANAGED_TRANSPORT_VER"@, "1"@)),
        env_view(c@).contains(("TOR_PT_CLIENT_TRANSPORTS"@, name@)),
        env_view(c@).contains(("TOR_PT_STATE_LOCATION"@, dir@)),
        env_view(s@).contains(("TOR_PT_SERVER_TRANSPORTS"@, name@)),
        env_view(s@).contains(("TOR_PT_SERVER_BINDADDR"@, name@ + "-"@ + bind@)),
        env_view(s@).contains(("TOR_PT_ORPORT"@, orport@)),
        env_view(s@).contains(("TOR_PT_STATE_LOCATION"@, dir@)),
        env_view(o@).drop_last() == env_view(s@),
        env_view(o@).last() == ("TOR_PT_SERVER_TRANSPORT_OPTIONS"@, options@),
{
    let a = env_view(c@);
    let b = env_view(s@);
    assert(a[0] == ("TOR_PT_MANAGED_TRANSPORT_VER"@, "1"@));
    assert(a[1] == ("TOR_PT_CLIENT_TRANSPORTS"@, name@));
    assert(a[2] == ("TOR_PT_STATE_LOCATION"@, dir@));
    assert(b[1] == ("TOR_PT_SERVER_TRANSPORTS"@, name@));
    assert(b[2] == ("TOR_PT_SERVER_BINDADDR"@, name@ + "-"@ + bind@));
    assert(b[3] == ("TOR_PT_ORPORT"@, orport@));
    assert(b[4] == ("TOR_PT_STATE_LOCATION"@, dir@));
    assert(env_view(o@).drop_last() =~= b);
}

proof fn lemma_untrimmed(s: Seq<char>)
    requires
        s.len() > 0,
        !text::is_space(s[0]),
        !text::is_space(s.last()),
    ensures
        text::trimmed(s) == s,
{
    assert(text::trimmed_start(s) == s);
}

/// A client transport that announces itself by its name, as a SOCKS proxy at an address, is
/// heard, under that address; one that announces another name is not.
pub proof fn law_announced_proxies_are_heard(name: &str, address: Seq<char>, line: &str, r: PtLine, other: &str, o: PtLine)
    requires
        text::is_word(name@),
        text::is_word(address),
        is_socket_text(address),
        line@ == "CMETHOD "@ + (name@.push(' ') + ("socks5"@.push(' ') + address)),
        call_ensures(parse_cmethod_line, (line, name), r),
        other@ != name@,
        call_ensures(parse_cmethod_line, (line, other), o),
    ensures
        r matches PtLine::Cmethod(a) && addr::is_address_of(a, address),
        o is Other,
{
    reveal_strlit("CMETHOD ");
    reveal_strlit("CMETHODS DONE");
    reveal_strlit("CMETHOD-ERROR ");
    reveal_strlit("VERSION 1");
    reveal_strlit("VERSION-ERROR ");
    reveal_strlit("ENV-ERROR ");
    reveal_strlit("socks5");
    let s = line@;
    let rest = name@.push(' ') + ("socks5"@.push(' ') + address);
    assert(s[0] == 'C' && s[7] == ' ');
    assert(s.last() == address.last());
    lemma_untrimmed(s);
    assert("CMETHODS DONE"@[7] == 'S');
    assert("VERSION 1"@[0] == 'V');
    assert(!text::starts_with(s, "VERSION-ERROR "@)) by {
        assert(s.take("VERSION-ERROR "@.len() as int)[0] == s[0]);
    }
    assert(!text::starts_with(s, "ENV-ERROR "@)) by {
        assert(s.take("ENV-ERROR "@.len() as int)[0] == s[0]);
    }
    assert(!text::starts_with(s, "CMETHOD-ERROR "@)) by {
        assert(s.take("CMETHOD-ERROR "@.len() as int)[7] == s[7]);
    }
    assert(s.take(8) =~= "CMETHOD "@);
    assert(s.skip(8) =~= rest);
    assert(text::is_word("socks5"@)) by {
        assert forall|k: int| 0 <= k < "socks5"@.len() implies !text::is_space(#[trigger] "socks5"@[k]) by {
        }
    }
    text::lemma_words_front(name@, "socks5"@.push(' ') + address);
    text::lemma_words_front("socks5"@, address);
    text::lemma_one_word(address);
    let w = words_behind(s, "CMETHOD "@);
    assert(w =~= seq![name@, "socks5"@, address]);
}

/// A server transport that announces itself by its name at an address is heard, under that
/// address and with the arguments that it gives its clients.
pub proof fn law_announced_bridges_are_heard(
    name: &str,
    address: Seq<char>,
    args: Seq<char>,
    line: &str,
    r: PtLine,
)
    requires
        text::is_word(name@),
        text::is_word(address),
        text::is_word(args),
        is_socket_text(address),
        line@ == "SMETHOD "@ + (name@.push(' ') + (address.push(' ') + ("ARGS:"@ + args))),
        call_ensures(parse_smethod_line, (line, name), r),
    ensures
        r matches PtLine::Smethod { bind, args: a } && addr::is_address_of(bind, address) && (a matches Some(x) && x@
            == args),
{
    reveal_strlit("SMETHOD ");
    reveal_strlit("SMETHODS DONE");
    reveal_strlit("SMETHOD-ERROR ");
    reveal_strlit("VERSION 1");
    reveal_strlit("VERSION-ERROR ");
    reveal_strlit("ENV-ERROR ");
    reveal_strlit("ARGS:");
    let s = line@;
    let last = "ARGS:"@ + args;
    let rest = name@.push(' ') + (address.push(' ') + last);
    assert(s[0] == 'S' && s[7] == ' ');
    assert(s.last() == args.last());
    lemma_untrimmed(s);
    assert("SMETHODS DONE"@[7] == 'S');
    assert("VERSION 1"@[0] == 'V');
    assert(!text::starts_with(s, "VERSION-ERROR "@)) by {
        assert(s.take("VERSION-ERROR "@.len() as int)[0] == s[0]);
    }
    assert(!text::starts_with(s, "ENV-ERROR "@)) by {
        assert(s.take("ENV-ERROR "@.len() as int)[0] == s[0]);
    }
    assert(!text::starts_with(s, "SMETHOD-ERROR "@)) by {
        assert(s.take("SMETHOD-ERROR "@.len() as int)[7] == s[7]);
    }
    assert(s.take(8) =~= "SMETHOD "@);
    assert(s.skip(8) =~= rest);
    assert(text::is_word(last)) by {
        assert forall|k: int| 0 <= k < last.len() implies !text::is_space(#[trigger] last[k]) by {
            if k >= 5 {
                assert(last[k] == args[k - 5]);
            }
        }
    }
    text::lemma_words_front(name@, address.push(' ') + last);
    text::lemma_words_front(address, last);
    text::lemma_one_word(last);
    let w = words_behind(s, "SMETHOD "@);
    assert(w =~= seq![name@, address, last]);
    assert(last.take(5) =~= "ARGS:"@);
    assert(last.skip(5) =~= args);
    assert(args_from(w, 2) == Some(args));
}

/// The end of the announcements is heard, at either end.
pub proof fn law_the_end_of_announcements_is_heard(c: &str, s: &str, name: &str, r: PtLine, q: PtLine)
    requires
        c@ == "CMETHODS DONE"@,
        s@ == "SMETHODS DONE"@,
        call_ensures(parse_cmethod_line, (c, name), r),
        call_ensures(parse_smethod_line, (s, name), q),
    ensures
        r is CmethodsDone,
        q is SmethodsDone,
{
    reveal_strlit("CMETHODS DONE");
    reveal_strlit("SMETHODS DONE");
    lemma_untrimmed(c@);
    lemma_untrimmed(s@);
}

/// A bridge is handed out as its transport, its address and its arguments, with spaces
/// between.
pub proof fn law_how_a_bridge_is_handed_out(b: BridgeLine, r: String, address: String)
    requires
        call_ensures(BridgeLine::client_line, (&b,), r),
        call_ensures(addr::SocketAddr::text, (&b.bind_addr,), address),
    ensures
        b.args is None ==> r@ == b.transport@ + seq![' '] + address@,
        b.args is Some ==> r@ == b.transport@ + seq![' '] + address@ + seq![' '] + b.args->0@,
{
    reveal_strlit(" ");
    assert(" "@ =~= seq![' ']);
}

/// What a proxy's refusal is called.
pub proof fn law_refusals_have_names(rep: u8, r: &'static str)
    requires
        call_ensures(socks5_rep_str, (rep,), r),
    ensures
        rep == 0 ==> r@ == "succeeded"@,
        rep == 1 ==> r@ == "general failure"@,
        rep == 2 ==> r@ == "connection not allowed"@,
        rep == 3 ==> r@ == "network unreachable"@,
        rep == 4 ==> r@ == "host unreachable"@,
        rep == 5 ==> r@ == "connection refused"@,
        rep == 6 ==> r@ == "TTL expired"@,
        rep == 7 ==> r@ == "command not supported"@,
        rep == 8 ==> r@ == "addr type not supported"@,
        rep > 8 ==> r@ == "unknown"@,
{
}

/// What a client transport announces is kept until it is done; what it says besides changes
/// nothing, and a fault that it reports ends the wait.
pub proof fn law_announcements_are_kept(
    name: &str,
    address: Seq<char>,
    announced: String,
    s: ClientStart,
    r: ClientStep,
    done: String,
    d: ClientStep,
    other: String,
    o: ClientStep,
)
    requires
        text::is_word(name@),
        text::is_word(address),
        is_socket_text(address),
        announced@ == "CMETHOD "@ + (name@.push(' ') + ("socks5"@.push(' ') + address)),
        call_ensures(ClientStart::on_event, (s, PtEvent::Line(announced), name), r),
        done@ == "CMETHODS DONE"@,
        call_ensures(ClientStart::on_event, (s, PtEvent::Line(done), name), d),
        other@.len() == 0,
        call_ensures(ClientStart::on_event, (s, PtEvent::Line(other), name), o),
    ensures
        r matches ClientStep::Wait(t) && t.version_ok == s.version_ok && (t.found matches Some(a)
            && addr::is_address_of(a, address)),
        d is Ready <==> s.version_ok && s.found is Some,
        d is Fail <==> !s.version_ok || s.found is None,
        o == ClientStep::Wait(s),
{
    lemma_announced(name@, address, announced@);
    reveal_strlit("CMETHODS DONE");
    reveal_strlit("VERSION 1");
    reveal_strlit("VERSION-ERROR ");
    reveal_strlit("ENV-ERROR ");
    reveal_strlit("CMETHOD-ERROR ");
    reveal_strlit("CMETHOD ");
    lemma_untrimmed(done@);
    assert(text::trimmed(other@) =~= Seq::empty());
}

proof fn lemma_announced(name: Seq<char>, address: Seq<char>, s: Seq<char>)
    requires
        text::is_word(name),
        text::is_word(address),
        is_socket_text(address),
        s == "CMETHOD "@ + (name.push(' ') + ("socks5"@.push(' ') + address)),
    ensures
        forall|l: PtLine| #[trigger]
            is_client_line(l, s, name) ==> (l matches PtLine::Cmethod(a) && addr::is_address_of(a, address)),
{
    reveal_strlit("CMETHOD ");
    reveal_strlit("CMETHODS DONE");
    reveal_strlit("CMETHOD-ERROR ");
    reveal_strlit("VERSION 1");
    reveal_strlit("VERSION-ERROR ");
    reveal_strlit("ENV-ERROR ");
    reveal_strlit("socks5");
    let rest = name.push(' ') + ("socks5"@.push(' ') + address);
    assert(s[0] == 'C' && s[7] == ' ');
    assert(s.last() == address.last());
    lemma_untrimmed(s);
    assert("CMETHODS DONE"@[7] == 'S');
    assert("VERSION 1"@[0] == 'V');
    assert(!text::starts_with(s, "VERSION-ERROR "@)) by {
        assert(s.take("VERSION-ERROR "@.len() as int)[0] == s[0]);
    }
    assert(!text::starts_with(s, "ENV-ERROR "@)) by {
        assert(s.take("ENV-ERROR "@.len() as int)[0] == s[0]);
    }
    assert(!text::starts_with(s, "CMETHOD-ERROR "@)) by {
        assert(s.take("CMETHOD-ERROR "@.len() as int)[7] == s[7]);
    }
    assert(s.take(8) =~= "CMETHOD "@);
    assert(s.skip(8) =~= rest);
    assert(text::is_word("socks5"@)) by {
        assert forall|k: int| 0 <= k < "socks5"@.len() implies !text::is_space(#[trigger] "socks5"@[k]) by {
        }
    }
    text::lemma_words_front(name, "socks5"@.push(' ') + address);
    text::lemma_words_front("socks5"@, address);
    text::lemma_one_word(address);
    let w = words_behind(s, "CMETHOD "@);
    assert(w =~= seq![name, "socks5"@, address]);
}

} // verus!
