//! HTTP/1.1 on bytes: urls, the head of a request, and the reading of a
//! response that arrives piece by piece.

use crate::text::{
    contains_text, cut_first, cut_last, decimal, decimal_of, first_word, has_text, hex_in, joined, lowered, number_in,
    own, parse_hex, parse_u64, same_text, split_first, split_last, split_word, strip_prefix, to_lower, trim, trim_back,
    trim_end, trimmed, after_prefix, before_first,
};
use vstd::prelude::*;
use vstd::string::*;
use vstd::utf8::{decode_utf8, valid_utf8};

verus! {

/// Where a service listens, and a path on it.
#[derive(Debug, Clone)]
pub struct Url {
    pub host: String,
    pub port: u16,
    pub path: String,
}

/// What a [`Url`] holds.
#[verifier::ext_equal]
pub struct UrlModel {
    pub host: Seq<char>,
    pub port: u16,
    pub path: Seq<char>,
}

impl UrlModel {
    /// `host:port`.
    pub open spec fn shown(self) -> Seq<char> {
        self.host + ":"@ + decimal(self.port as nat)
    }
}

impl View for Url {
    type V = UrlModel;

    open spec fn view(&self) -> UrlModel {
        UrlModel { host: self.host@, port: self.port, path: self.path@ }
    }
}

/// The host and port part of a url behind its scheme, and its path.
pub open spec fn authority_and_path(rest: Seq<char>) -> (Seq<char>, Seq<char>) {
    let n = before_first(rest, '/');
    if n < rest.len() {
        (rest.take(n), rest.skip(n))
    } else {
        (rest, "/"@)
    }
}

/// A port number in decimal.
pub open spec fn port_in(p: Seq<char>) -> Option<u16> {
    match number_in(p) {
        Some(n) => if n <= 65535 {
            Some(n as u16)
        } else {
            None
        },
        None => None,
    }
}

/// What a url text says, or why it is refused.
pub open spec fn url_in(s: Seq<char>) -> Result<UrlModel, Seq<char>> {
    match after_prefix(s, "http://"@) {
        None => Err("only http:// urls supported: "@ + s),
        Some(rest) => {
            let (authority, path) = authority_and_path(rest);
            match cut_last(authority, ':') {
                Some((host, p)) => match port_in(p) {
                    None => Err("bad port: "@ + p),
                    Some(port) => if host.len() == 0 {
                        Err("empty host in "@ + s)
                    } else {
                        Ok(UrlModel { host, port, path })
                    },
                },
                None => if authority.len() == 0 {
                    Err("empty host in "@ + s)
                } else {
                    Ok(UrlModel { host: authority, port: 80, path })
                },
            }
        },
    }
}

fn split_path(rest: &str) -> (r: (String, String))
    ensures
        (r.0@, r.1@) == authority_and_path(rest@),
{
    match split_first(rest, '/') {
        Some((a, b)) => {
            let path = joined("/", b.as_str());
            proof {
                let n = before_first(rest@, '/');
                reveal_strlit("/");
                crate::text::lemma_before_first(rest@, '/');
                assert(path@ =~= rest@.skip(n));
            }
            (a, path)
        },
        None => {
            proof {
                crate::text::lemma_before_first(rest@, '/');
            }
            (own(rest), own("/"))
        },
    }
}

fn parse_port(p: &str) -> (r: Option<u16>)
    ensures
        r == port_in(p@),
{
    match parse_u64(p) {
        Some(n) => if n <= 65535 {
            Some(n as u16)
        } else {
            None
        },
        None => None,
    }
}

impl Url {
    /// Reads a url of the form `http://host[:port][/path]`. The port is 80 and
    /// the path `/` where none is given.
    pub fn parse(s: &str) -> (r: Result<Url, String>)
        ensures
            match r {
                Ok(u) => url_in(s@) == Ok::<UrlModel, Seq<char>>(u@),
                Err(e) => url_in(s@) == Err::<UrlModel, Seq<char>>(e@),
            },
    {
        let rest = match strip_prefix(s, "http://") {
            Some(t) => t,
            None => {
                return Err(joined("only http:// urls supported: ", s));
            },
        };
        let (authority, path) = split_path(rest.as_str());
        match split_last(authority.as_str(), ':') {
            Some((host, p)) => match parse_port(p.as_str()) {
                None => Err(joined("bad port: ", p.as_str())),
                Some(port) => if host.as_str().is_empty() {
                    Err(joined("empty host in ", s))
                } else {
                    Ok(Url { host, port, path })
                },
            },
            None => if authority.as_str().is_empty() {
                Err(joined("empty host in ", s))
            } else {
                Ok(Url { host: authority, port: 80, path })
            },
        }
    }

    /// `host:port`.
    pub fn display(&self) -> (r: String)
        ensures
            r@ == self@.shown(),
    {
        let left = joined(self.host.as_str(), ":");
        joined(left.as_str(), decimal_of(self.port as u128).as_str())
    }
}

/// A header: its name and its value.
pub type Header = (String, String);

/// The names and values of headers.
pub open spec fn headers_of(v: Seq<Header>) -> Seq<(Seq<char>, Seq<char>)> {
    v.map_values(|h: Header| (h.0@, h.1@))
}

/// What a server answered.
#[derive(Debug, Clone)]
pub struct Response {
    pub status: u16,
    pub headers: Vec<Header>,
    pub body: Vec<u8>,
}

/// What a [`Response`] holds.
#[verifier::ext_equal]
pub struct ResponseModel {
    pub status: u16,
    pub headers: Seq<(Seq<char>, Seq<char>)>,
    pub body: Seq<u8>,
}

impl View for Response {
    type V = ResponseModel;

    open spec fn view(&self) -> ResponseModel {
        ResponseModel { status: self.status, headers: headers_of(self.headers@), body: self.body@ }
    }
}

/// The value of the first header called `name`, whatever the case of its letters.
pub open spec fn header_in(headers: Seq<(Seq<char>, Seq<char>)>, name: Seq<char>) -> Option<Seq<char>>
    decreases headers.len(),
{
    if headers.len() == 0 {
        None
    } else if lowered(headers[0].0) == lowered(name) {
        Some(headers[0].1)
    } else {
        header_in(headers.drop_first(), name)
    }
}

/// Finds a header.
fn find_header<'a>(headers: &'a Vec<Header>, name: &str) -> (r: Option<&'a str>)
    ensures
        match r {
            Some(v) => header_in(headers_of(headers@), name@) == Some(v@),
            None => header_in(headers_of(headers@), name@) is None,
        },
{
    let low = to_lower(name);
    let ghost m = headers_of(headers@);
    let mut i: usize = 0;
    let n: usize = headers.len();
    assert(m.subrange(0, m.len() as int) =~= m);
    while i < n
        invariant
            i <= n == headers@.len(),
            m == headers_of(headers@),
            low@ == lowered(name@),
            header_in(m, name@) == header_in(m.subrange(i as int, m.len() as int), name@),
        decreases n - i,
    {
        proof {
            let t = m.subrange(i as int, m.len() as int);
            assert(t[0] == m[i as int]);
            assert(t.drop_first() =~= m.subrange(i as int + 1, m.len() as int));
        }
        let key = to_lower(headers[i].0.as_str());
        if same_text(key.as_str(), low.as_str()) {
            return Some(headers[i].1.as_str());
        }
        i += 1;
    }
    None
}

impl Response {
    /// The value of the first header called `name`, whatever the case of its letters.
    pub fn header(&self, name: &str) -> (r: Option<&str>)
        ensures
            match r {
                Some(v) => header_in(self@.headers, name@) == Some(v@),
                None => header_in(self@.headers, name@) is None,
            },
    {
        find_header(&self.headers, name)
    }
}

/// The lines of extra headers.
pub open spec fn header_lines(headers: Seq<(Seq<char>, Seq<char>)>) -> Seq<char>
    decreases headers.len(),
{
    if headers.len() == 0 {
        Seq::empty()
    } else {
        header_lines(headers.drop_last()) + headers.last().0 + ": "@ + headers.last().1 + "\r\n"@
    }
}

/// The head of a request, up to and including the empty line that ends it.
pub open spec fn head_text(
    method: Seq<char>,
    path: Seq<char>,
    host: Seq<char>,
    port: u16,
    extra: Seq<(Seq<char>, Seq<char>)>,
    body_len: Option<usize>,
) -> Seq<char> {
    let start = method + " "@ + path + " HTTP/1.1\r\nHost: "@ + host + ":"@ + decimal(port as nat)
        + "\r\nUser-Agent: hannis/0.1\r\nAccept: */*\r\n"@;
    let length = match body_len {
        Some(n) => "Content-Length: "@ + decimal(n as nat) + "\r\n"@,
        None => if method == "POST"@ {
            "Content-Length: 0\r\n"@
        } else {
            ""@
        },
    };
    start + header_lines(extra) + length + "\r\n"@
}

/// Writes the head of a request. A request with a body says how long it is; a
/// POST without one says that it has none.
pub fn request_head(
    method: &str,
    path: &str,
    host: &str,
    port: u16,
    extra: &Vec<Header>,
    body_len: Option<usize>,
) -> (r: String)
    ensures
        r@ == head_text(method@, path@, host@, port, headers_of(extra@), body_len),
{
    let mut head = own(method);
    head.append(" ");
    head.append(path);
    head.append(" HTTP/1.1\r\nHost: ");
    head.append(host);
    head.append(":");
    head.append(decimal_of(port as u128).as_str());
    head.append("\r\nUser-Agent: hannis/0.1\r\nAccept: */*\r\n");
    let ghost start = head@;
    let ghost m = headers_of(extra@);
    let mut i: usize = 0;
    let n: usize = extra.len();
    assert(m.take(0) =~= Seq::empty());
    assert(start + header_lines(m.take(0)) =~= start);
    while i < n
        invariant
            i <= n == extra@.len(),
            m == headers_of(extra@),
            head@ == start + header_lines(m.take(i as int)),
        decreases n - i,
    {
        let ghost before = head@;
        head.append(extra[i].0.as_str());
        head.append(": ");
        head.append(extra[i].1.as_str());
        head.append("\r\n");
        proof {
            assert(m.take(i as int + 1).drop_last() =~= m.take(i as int));
            assert(m.take(i as int + 1).last() == m[i as int]);
            assert(head@ =~= start + header_lines(m.take(i as int + 1)));
        }
        i += 1;
    }
    assert(m.take(n as int) =~= m);
    let ghost upto = head@;
    match body_len {
        Some(len) => {
            head.append("Content-Length: ");
            head.append(decimal_of(len as u128).as_str());
            head.append("\r\n");
            assert(head@ =~= upto + ("Content-Length: "@ + decimal(len as nat) + "\r\n"@));
        },
        None => {
            if same_text(method, "POST") {
                head.append("Content-Length: 0\r\n");
            } else {
                proof {
                    reveal_strlit("");
                    assert(upto + ""@ =~= upto);
                }
            }
        },
    }
    head.append("\r\n");
    head
}


/// The part of a response in which reading stopped.
#[derive(Debug, Clone, Copy, PartialEq, Eq, Structural)]
pub enum Part {
    Status,
    Header,
    Body,
    ChunkSize,
    ChunkData,
    ChunkEnd,
    Trailer,
}

/// Why a response cannot be read.
#[derive(Debug)]
pub enum Failure {
    /// A line is not valid UTF-8.
    Encoding(Part),
    /// The first line holds no status.
    StatusLine(String),
    /// The announced length is no number.
    ContentLength(String),
    /// The line before a chunk holds no size.
    ChunkSize(String),
    /// The connection ended too early.
    Short(Part),
}

/// What a [`Failure`] holds.
pub enum FailureModel {
    Encoding(Part),
    StatusLine(Seq<char>),
    ContentLength(Seq<char>),
    ChunkSize(Seq<char>),
    Short(Part),
}

impl View for Failure {
    type V = FailureModel;

    open spec fn view(&self) -> FailureModel {
        match *self {
            Failure::Encoding(p) => FailureModel::Encoding(p),
            Failure::StatusLine(s) => FailureModel::StatusLine(s@),
            Failure::ContentLength(s) => FailureModel::ContentLength(s@),
            Failure::ChunkSize(s) => FailureModel::ChunkSize(s@),
            Failure::Short(p) => FailureModel::Short(p),
        }
    }
}

/// How far a reading came: it waits for more bytes, it failed, or it read a
/// value and stands behind it.
pub enum Scan<T> {
    More,
    Failed(Failure),
    Got(T, usize),
}

/// What a [`Scan`] says.
pub enum ScanModel<T> {
    More,
    Failed(FailureModel),
    Got(T, int),
}

/// `String::from_utf8`: bytes are a text where they are valid UTF-8, and then
/// the text is what they encode.
#[verifier::external_body]
fn utf8_text(bytes: &[u8]) -> (r: Option<String>)
    ensures
        match r {
            Some(s) => valid_utf8(bytes@) && s@ == decode_utf8(bytes@),
            None => !valid_utf8(bytes@),
        },
{
    String::from_utf8(bytes.to_vec()).ok()
}

/// The end of the line that starts at `pos`, behind its line feed.
pub open spec fn line_end(b: Seq<u8>, pos: int) -> Option<int>
    decreases b.len() - pos,
{
    if pos < 0 || pos >= b.len() {
        None
    } else if b[pos] == 10 {
        Some(pos + 1)
    } else {
        line_end(b, pos + 1)
    }
}

/// A line ends behind its start, within the bytes.
pub proof fn lemma_line_end(b: Seq<u8>, pos: int)
    ensures
        line_end(b, pos) matches Some(e) ==> 0 <= pos < e <= b.len(),
    decreases b.len() - pos,
{
    if 0 <= pos < b.len() && b[pos] != 10 {
        lemma_line_end(b, pos + 1);
    }
}

/// A line that ends before `to`.
pub open spec fn line_text(b: Seq<u8>, pos: int, to: int, part: Part) -> ScanModel<Seq<char>> {
    if valid_utf8(b.subrange(pos, to)) {
        ScanModel::Got(decode_utf8(b.subrange(pos, to)), to)
    } else {
        ScanModel::Failed(FailureModel::Encoding(part))
    }
}

/// The line that starts at `pos`. The end of the connection ends a line too.
pub open spec fn next_line(b: Seq<u8>, pos: int, eof: bool, part: Part) -> ScanModel<Seq<char>> {
    match line_end(b, pos) {
        Some(to) => line_text(b, pos, to, part),
        None => if eof {
            line_text(b, pos, b.len() as int, part)
        } else {
            ScanModel::More
        },
    }
}

/// The status that a status line gives: its second word.
pub open spec fn status_in(line: Seq<char>) -> Option<u16> {
    port_in(first_word(first_word(line).1).0)
}

/// The header that a line holds, if it holds one.
pub open spec fn header_of_line(line: Seq<char>) -> Seq<(Seq<char>, Seq<char>)> {
    match cut_first(trim_back(line), ':') {
        Some((k, v)) => seq![(trimmed(k), trimmed(v))],
        None => Seq::empty(),
    }
}

/// The headers from `pos` on, behind those already read, up to an empty line.
pub open spec fn headers_from(
    b: Seq<u8>,
    pos: int,
    eof: bool,
    acc: Seq<(Seq<char>, Seq<char>)>,
) -> ScanModel<Seq<(Seq<char>, Seq<char>)>>
    decreases b.len() - pos,
{
    proof {
        lemma_line_end(b, pos);
    }
    match next_line(b, pos, eof, Part::Header) {
        ScanModel::More => ScanModel::More,
        ScanModel::Failed(e) => ScanModel::Failed(e),
        ScanModel::Got(line, to) => if trim_back(line).len() == 0 || to <= pos {
            ScanModel::Got(acc, to)
        } else {
            headers_from(b, to, eof, acc + header_of_line(line))
        },
    }
}

/// The trailer lines from `pos` on, up to an empty line.
pub open spec fn trailer_from(b: Seq<u8>, pos: int, eof: bool) -> ScanModel<()>
    decreases b.len() - pos,
{
    proof {
        lemma_line_end(b, pos);
    }
    match next_line(b, pos, eof, Part::Trailer) {
        ScanModel::More => ScanModel::More,
        ScanModel::Failed(e) => ScanModel::Failed(e),
        ScanModel::Got(line, to) => if trimmed(line).len() == 0 || to <= pos {
            ScanModel::Got((), to)
        } else {
            trailer_from(b, to, eof)
        },
    }
}

/// The size that a chunk's first line gives: what stands before a `;`.
pub open spec fn chunk_size_in(line: Seq<char>) -> Option<u64> {
    let t = trimmed(line);
    hex_in(trimmed(t.take(before_first(t, ';'))))
}

/// The chunks from `pos` on, behind the data already read.
pub open spec fn chunks_from(b: Seq<u8>, pos: int, eof: bool, acc: Seq<u8>) -> ScanModel<Seq<u8>>
    decreases b.len() - pos,
{
    proof {
        lemma_line_end(b, pos);
    }
    match next_line(b, pos, eof, Part::ChunkSize) {
        ScanModel::More => ScanModel::More,
        ScanModel::Failed(e) => ScanModel::Failed(e),
        ScanModel::Got(line, to) => match chunk_size_in(line) {
            None => ScanModel::Failed(FailureModel::ChunkSize(line)),
            Some(size) => if size == 0 {
                match trailer_from(b, to, eof) {
                    ScanModel::More => ScanModel::More,
                    ScanModel::Failed(e) => ScanModel::Failed(e),
                    ScanModel::Got(_, done) => ScanModel::Got(acc, done),
                }
            } else if to + size + 2 <= b.len() {
                chunks_from(b, to + size + 2, eof, acc + b.subrange(to, to + size))
            } else if !eof {
                ScanModel::More
            } else if to + size <= b.len() {
                ScanModel::Failed(FailureModel::Short(Part::ChunkEnd))
            } else {
                ScanModel::Failed(FailureModel::Short(Part::ChunkData))
            },
        },
    }
}

/// Everything from `pos` to the end of the connection.
pub open spec fn rest_from(b: Seq<u8>, pos: int, eof: bool) -> ScanModel<Seq<u8>> {
    if eof {
        ScanModel::Got(b.skip(pos), b.len() as int)
    } else {
        ScanModel::More
    }
}

/// The body that starts at `pos`, by what the headers say of it.
pub open spec fn body_from(
    b: Seq<u8>,
    pos: int,
    eof: bool,
    headers: Seq<(Seq<char>, Seq<char>)>,
) -> ScanModel<Seq<u8>> {
    match header_in(headers, "transfer-encoding"@) {
        Some(enc) => if has_text(lowered(enc), "chunked"@) {
            chunks_from(b, pos, eof, Seq::empty())
        } else {
            rest_from(b, pos, eof)
        },
        None => match header_in(headers, "content-length"@) {
            Some(len) => match number_in(trimmed(len)) {
                None => ScanModel::Failed(FailureModel::ContentLength(len)),
                Some(n) => if pos + n <= b.len() {
                    ScanModel::Got(b.subrange(pos, pos + n), pos + n)
                } else if eof {
                    ScanModel::Failed(FailureModel::Short(Part::Body))
                } else {
                    ScanModel::More
                },
            },
            None => rest_from(b, pos, eof),
        },
    }
}

/// The status and the headers at the start of a response.
pub open spec fn head_in(b: Seq<u8>, eof: bool) -> ScanModel<(u16, Seq<(Seq<char>, Seq<char>)>)> {
    match next_line(b, 0, eof, Part::Status) {
        ScanModel::More => ScanModel::More,
        ScanModel::Failed(e) => ScanModel::Failed(e),
        ScanModel::Got(line, to) => match status_in(line) {
            None => ScanModel::Failed(FailureModel::StatusLine(line)),
            Some(status) => match headers_from(b, to, eof, Seq::empty()) {
                ScanModel::More => ScanModel::More,
                ScanModel::Failed(e) => ScanModel::Failed(e),
                ScanModel::Got(headers, done) => ScanModel::Got((status, headers), done),
            },
        },
    }
}

/// The response that the bytes `b` hold; `eof` says that no more will come.
pub open spec fn response_in(b: Seq<u8>, eof: bool) -> ScanModel<ResponseModel> {
    match head_in(b, eof) {
        ScanModel::More => ScanModel::More,
        ScanModel::Failed(e) => ScanModel::Failed(e),
        ScanModel::Got((status, headers), pos) => match body_from(b, pos, eof, headers) {
            ScanModel::More => ScanModel::More,
            ScanModel::Failed(e) => ScanModel::Failed(e),
            ScanModel::Got(body, done) => ScanModel::Got(ResponseModel { status, headers, body }, done),
        },
    }
}

/// A scan of a text.
pub open spec fn text_scan(s: Scan<String>) -> ScanModel<Seq<char>> {
    match s {
        Scan::More => ScanModel::More,
        Scan::Failed(e) => ScanModel::Failed(e@),
        Scan::Got(t, n) => ScanModel::Got(t@, n as int),
    }
}

/// A scan of headers.
pub open spec fn headers_scan(s: Scan<Vec<Header>>) -> ScanModel<Seq<(Seq<char>, Seq<char>)>> {
    match s {
        Scan::More => ScanModel::More,
        Scan::Failed(e) => ScanModel::Failed(e@),
        Scan::Got(t, n) => ScanModel::Got(headers_of(t@), n as int),
    }
}

/// A scan of bytes.
pub open spec fn bytes_scan(s: Scan<Vec<u8>>) -> ScanModel<Seq<u8>> {
    match s {
        Scan::More => ScanModel::More,
        Scan::Failed(e) => ScanModel::Failed(e@),
        Scan::Got(t, n) => ScanModel::Got(t@, n as int),
    }
}

/// A scan that yields nothing but its end.
pub open spec fn unit_scan(s: Scan<()>) -> ScanModel<()> {
    match s {
        Scan::More => ScanModel::More,
        Scan::Failed(e) => ScanModel::Failed(e@),
        Scan::Got(_, n) => ScanModel::Got((), n as int),
    }
}

/// A scan of a head.
pub open spec fn head_scan(s: Scan<(u16, Vec<Header>)>) -> ScanModel<(u16, Seq<(Seq<char>, Seq<char>)>)> {
    match s {
        Scan::More => ScanModel::More,
        Scan::Failed(e) => ScanModel::Failed(e@),
        Scan::Got(t, n) => ScanModel::Got((t.0, headers_of(t.1@)), n as int),
    }
}

/// A scan of a response.
pub open spec fn response_scan(s: Scan<Response>) -> ScanModel<ResponseModel> {
    match s {
        Scan::More => ScanModel::More,
        Scan::Failed(e) => ScanModel::Failed(e@),
        Scan::Got(t, n) => ScanModel::Got(t@, n as int),
    }
}

/// Copies a range of bytes.
pub fn bytes_between(b: &[u8], from: usize, to: usize) -> (r: Vec<u8>)
    requires
        from <= to <= b@.len(),
    ensures
        r@ == b@.subrange(from as int, to as int),
{
    let mut out: Vec<u8> = Vec::new();
    let mut i: usize = from;
    while i < to
        invariant
            from <= i <= to <= b@.len(),
            out@ == b@.subrange(from as int, i as int),
        decreases to - i,
    {
        out.push(b[i]);
        assert(b@.subrange(from as int, i as int + 1) =~= b@.subrange(from as int, i as int).push(b@[i as int]));
        i += 1;
    }
    out
}

fn find_line_end(b: &[u8], pos: usize) -> (r: Option<usize>)
    requires
        pos <= b@.len(),
    ensures
        match r {
            Some(e) => line_end(b@, pos as int) == Some(e as int) && pos < e <= b@.len(),
            None => line_end(b@, pos as int) is None,
        },
{
    let mut i: usize = pos;
    let n: usize = b.len();
    while i < n
        invariant
            pos <= i <= n == b@.len(),
            line_end(b@, pos as int) == line_end(b@, i as int),
        decreases n - i,
    {
        if b[i] == 10 {
            return Some(i + 1);
        }
        i += 1;
    }
    None
}

fn read_line(b: &[u8], pos: usize, eof: bool, part: Part) -> (r: Scan<String>)
    requires
        pos <= b@.len(),
    ensures
        text_scan(r) == next_line(b@, pos as int, eof, part),
        r matches Scan::Got(_, n) ==> pos <= n <= b@.len(),
{
    let to: usize = match find_line_end(b, pos) {
        Some(e) => e,
        None => {
            if !eof {
                return Scan::More;
            }
            b.len()
        },
    };
    let raw = bytes_between(b, pos, to);
    match utf8_text(raw.as_slice()) {
        Some(s) => Scan::Got(s, to),
        None => Scan::Failed(Failure::Encoding(part)),
    }
}

fn read_status(line: &str) -> (r: Option<u16>)
    ensures
        r == status_in(line@),
{
    let (_, rest) = split_word(line);
    let (word, _) = split_word(rest.as_str());
    parse_port(word.as_str())
}

fn read_headers(b: &[u8], pos: usize, eof: bool) -> (r: Scan<Vec<Header>>)
    requires
        pos <= b@.len(),
    ensures
        headers_scan(r) == headers_from(b@, pos as int, eof, Seq::empty()),
        r matches Scan::Got(_, n) ==> pos <= n <= b@.len(),
{
    let mut out: Vec<Header> = Vec::new();
    let mut at: usize = pos;
    assert(headers_of(out@) =~= Seq::<(Seq<char>, Seq<char>)>::empty());
    loop
        invariant
            pos <= at <= b@.len(),
            headers_from(b@, pos as int, eof, Seq::empty()) == headers_from(b@, at as int, eof, headers_of(out@)),
        decreases b@.len() - at,
    {
        match read_line(b, at, eof, Part::Header) {
            Scan::More => {
                return Scan::More;
            },
            Scan::Failed(e) => {
                return Scan::Failed(e);
            },
            Scan::Got(line, to) => {
                let t = trim_end(line.as_str());
                if t.as_str().is_empty() || to <= at {
                    return Scan::Got(out, to);
                }
                let ghost acc = headers_of(out@);
                match split_first(t.as_str(), ':') {
                    Some((k, v)) => {
                        out.push((trim(k.as_str()), trim(v.as_str())));
                        assert(headers_of(out@) =~= acc + header_of_line(line@));
                    },
                    None => {
                        assert(acc + header_of_line(line@) =~= acc);
                    },
                }
                at = to;
            },
        }
    }
}

fn read_trailer(b: &[u8], pos: usize, eof: bool) -> (r: Scan<()>)
    requires
        pos <= b@.len(),
    ensures
        unit_scan(r) == trailer_from(b@, pos as int, eof),
        r matches Scan::Got(_, n) ==> pos <= n <= b@.len(),
{
    let mut at: usize = pos;
    loop
        invariant
            pos <= at <= b@.len(),
            trailer_from(b@, pos as int, eof) == trailer_from(b@, at as int, eof),
        decreases b@.len() - at,
    {
        match read_line(b, at, eof, Part::Trailer) {
            Scan::More => {
                return Scan::More;
            },
            Scan::Failed(e) => {
                return Scan::Failed(e);
            },
            Scan::Got(line, to) => {
                if trim(line.as_str()).as_str().is_empty() || to <= at {
                    return Scan::Got((), to);
                }
                at = to;
            },
        }
    }
}

fn read_chunk_size(line: &str) -> (r: Option<u64>)
    ensures
        r == chunk_size_in(line@),
{
    let t = trim(line);
    let digits = match split_first(t.as_str(), ';') {
        Some((a, _)) => a,
        None => {
            proof {
                crate::text::lemma_before_first(t@, ';');
                assert(t@.take(before_first(t@, ';')) =~= t@);
            }
            t
        },
    };
    parse_hex(trim(digits.as_str()).as_str())
}

fn append_range(out: &mut Vec<u8>, b: &[u8], from: usize, to: usize)
    requires
        from <= to <= b@.len(),
    ensures
        final(out)@ == old(out)@ + b@.subrange(from as int, to as int),
{
    let ghost base = out@;
    let mut i: usize = from;
    assert(base + b@.subrange(from as int, from as int) =~= base);
    while i < to
        invariant
            from <= i <= to <= b@.len(),
            out@ == base + b@.subrange(from as int, i as int),
        decreases to - i,
    {
        out.push(b[i]);
        assert(base + b@.subrange(from as int, i as int + 1) =~= (base + b@.subrange(from as int, i as int)).push(b@[i as int]));
        i += 1;
    }
}

fn read_chunked(b: &[u8], pos: usize, eof: bool) -> (r: Scan<Vec<u8>>)
    requires
        pos <= b@.len(),
    ensures
        bytes_scan(r) == chunks_from(b@, pos as int, eof, Seq::empty()),
        r matches Scan::Got(_, n) ==> pos <= n <= b@.len(),
{
    let mut out: Vec<u8> = Vec::new();
    let mut at: usize = pos;
    let n: usize = b.len();
    loop
        invariant
            pos <= at <= n == b@.len(),
            chunks_from(b@, pos as int, eof, Seq::empty()) == chunks_from(b@, at as int, eof, out@),
        decreases n - at,
    {
        match read_line(b, at, eof, Part::ChunkSize) {
            Scan::More => {
                return Scan::More;
            },
            Scan::Failed(e) => {
                return Scan::Failed(e);
            },
            Scan::Got(line, to) => {
                let size: u64 = match read_chunk_size(line.as_str()) {
                    Some(s) => s,
                    None => {
                        return Scan::Failed(Failure::ChunkSize(line));
                    },
                };
                if size == 0 {
                    return match read_trailer(b, to, eof) {
                        Scan::More => Scan::More,
                        Scan::Failed(e) => Scan::Failed(e),
                        Scan::Got(_, done) => Scan::Got(out, done),
                    };
                }
                let left: usize = n - to;
                if size <= left as u64 && left as u64 - size >= 2 {
                    let end: usize = to + size as usize;
                    append_range(&mut out, b, to, end);
                    at = end + 2;
                } else if !eof {
                    return Scan::More;
                } else if size <= left as u64 {
                    return Scan::Failed(Failure::Short(Part::ChunkEnd));
                } else {
                    return Scan::Failed(Failure::Short(Part::ChunkData));
                }
            },
        }
    }
}

fn read_rest(b: &[u8], pos: usize, eof: bool) -> (r: Scan<Vec<u8>>)
    requires
        pos <= b@.len(),
    ensures
        bytes_scan(r) == rest_from(b@, pos as int, eof),
        r matches Scan::Got(_, n) ==> pos <= n <= b@.len(),
{
    if eof {
        let out = bytes_between(b, pos, b.len());
        assert(b@.subrange(pos as int, b@.len() as int) =~= b@.skip(pos as int));
        Scan::Got(out, b.len())
    } else {
        Scan::More
    }
}

fn read_body(b: &[u8], pos: usize, eof: bool, headers: &Vec<Header>) -> (r: Scan<Vec<u8>>)
    requires
        pos <= b@.len(),
    ensures
        bytes_scan(r) == body_from(b@, pos as int, eof, headers_of(headers@)),
        r matches Scan::Got(_, n) ==> pos <= n <= b@.len(),
{
    match find_header(headers, "transfer-encoding") {
        Some(enc) => if contains_text(to_lower(enc).as_str(), "chunked") {
            read_chunked(b, pos, eof)
        } else {
            read_rest(b, pos, eof)
        },
        None => match find_header(headers, "content-length") {
            Some(len) => match parse_u64(trim(len).as_str()) {
                None => Scan::Failed(Failure::ContentLength(own(len))),
                Some(n) => {
                    let left: usize = b.len() - pos;
                    if n <= left as u64 {
                        let end: usize = pos + n as usize;
                        Scan::Got(bytes_between(b, pos, end), end)
                    } else if eof {
                        Scan::Failed(Failure::Short(Part::Body))
                    } else {
                        Scan::More
                    }
                },
            },
            None => read_rest(b, pos, eof),
        },
    }
}

/// Reads the status and the headers at the start of a response.
pub fn read_head(b: &[u8], eof: bool) -> (r: Scan<(u16, Vec<Header>)>)
    ensures
        head_scan(r) == head_in(b@, eof),
        r matches Scan::Got(_, n) ==> n <= b@.len(),
{
    match read_line(b, 0, eof, Part::Status) {
        Scan::More => Scan::More,
        Scan::Failed(e) => Scan::Failed(e),
        Scan::Got(line, to) => match read_status(line.as_str()) {
            None => Scan::Failed(Failure::StatusLine(line)),
            Some(status) => match read_headers(b, to, eof) {
                Scan::More => Scan::More,
                Scan::Failed(e) => Scan::Failed(e),
                Scan::Got(headers, done) => Scan::Got((status, headers), done),
            },
        },
    }
}

/// Reads a response out of the bytes that have come so far; `eof` says that no
/// more will come. A chunked body, one of an announced length and one that ends
/// with the connection are read.
pub fn read_response(b: &[u8], eof: bool) -> (r: Scan<Response>)
    ensures
        response_scan(r) == response_in(b@, eof),
        r matches Scan::Got(_, n) ==> n <= b@.len(),
{
    match read_head(b, eof) {
        Scan::More => Scan::More,
        Scan::Failed(e) => Scan::Failed(e),
        Scan::Got((status, headers), pos) => match read_body(b, pos, eof, &headers) {
            Scan::More => Scan::More,
            Scan::Failed(e) => Scan::Failed(e),
            Scan::Got(body, done) => Scan::Got(Response { status, headers, body }, done),
        },
    }
}


pub const WS_OP_TEXT: u8 = 0x1;

pub const WS_OP_BINARY: u8 = 0x2;

pub const WS_OP_CLOSE: u8 = 0x8;

pub const WS_OP_PING: u8 = 0x9;

pub const WS_OP_PONG: u8 = 0xA;

/// A websocket frame.
#[derive(Debug, Clone)]
pub struct WsFrame {
    pub opcode: u8,
    pub payload: Vec<u8>,
}

/// What a [`WsFrame`] holds.
#[verifier::ext_equal]
pub struct FrameModel {
    pub opcode: u8,
    pub payload: Seq<u8>,
}

impl View for WsFrame {
    type V = FrameModel;

    open spec fn view(&self) -> FrameModel {
        FrameModel { opcode: self.opcode, payload: self.payload@ }
    }
}

/// Why no frame came: nothing within the time limit, or a hard failure.
#[derive(Debug)]
pub enum WsError {
    Timeout,
    Io(String),
    Closed,
    Protocol(String),
}

impl WsError {
    /// The text that stands for an error.
    pub open spec fn text(self) -> Seq<char> {
        match self {
            WsError::Timeout => "read timeout"@,
            WsError::Io(s) => "io: "@ + s@,
            WsError::Closed => "connection closed"@,
            WsError::Protocol(s) => "protocol: "@ + s@,
        }
    }

    /// Says what went wrong.
    pub fn message(&self) -> (r: String)
        ensures
            r@ == self.text(),
    {
        match self {
            WsError::Timeout => own("read timeout"),
            WsError::Io(s) => joined("io: ", s.as_str()),
            WsError::Closed => own("connection closed"),
            WsError::Protocol(s) => joined("protocol: ", s.as_str()),
        }
    }
}

/// The number that bytes write, the highest byte first.
pub open spec fn big_endian(b: Seq<u8>) -> nat
    decreases b.len(),
{
    if b.len() == 0 {
        0
    } else {
        big_endian(b.drop_last()) * 256 + b.last() as nat
    }
}

/// A frame at the start of bytes.
pub enum FrameScan {
    /// The frame is not complete yet.
    More,
    /// The frame is masked, which a server may not send.
    Masked,
    /// A frame, and how many bytes it takes.
    Frame(FrameModel, int),
}

/// How long the payload of a frame is and where it starts, once the bytes that
/// say so are there.
pub open spec fn payload_at(b: Seq<u8>) -> Option<(int, nat)> {
    if b.len() < 2 {
        None
    } else if b[1] == 126 {
        if b.len() < 4 {
            None
        } else {
            Some((4, big_endian(b.subrange(2, 4))))
        }
    } else if b[1] == 127 {
        if b.len() < 10 {
            None
        } else {
            Some((10, big_endian(b.subrange(2, 10))))
        }
    } else {
        Some((2, b[1] as nat))
    }
}

/// The frame at the start of `b`.
pub open spec fn frame_in(b: Seq<u8>) -> FrameScan {
    if b.len() >= 2 && b[1] >= 128 {
        FrameScan::Masked
    } else {
        match payload_at(b) {
            None => FrameScan::More,
            Some((at, len)) => if at + len <= b.len() {
                FrameScan::Frame(
                    FrameModel { opcode: (b[0] % 16) as u8, payload: b.subrange(at, at + len) },
                    at + len,
                )
            } else {
                FrameScan::More
            },
        }
    }
}

fn read_big_endian(b: &[u8], from: usize, count: usize) -> (r: u64)
    requires
        from + count <= b@.len(),
        count <= 8,
    ensures
        r == big_endian(b@.subrange(from as int, from + count)),
{
    let mut value: u64 = 0;
    let mut i: usize = 0;
    let ghost m = b@.subrange(from as int, from + count);
    proof {
        assert(m.take(0) =~= Seq::<u8>::empty());
    }
    let ghost mut top: int = 1;
    let n: usize = b.len();
    while i < count
        invariant
            i <= count <= 8,
            from + count <= n == b@.len(),
            m == b@.subrange(from as int, from + count),
            value == big_endian(m.take(i as int)),
            value < top,
            i == 0 ==> top == 0x1,
            i == 1 ==> top == 0x100,
            i == 2 ==> top == 0x1_0000,
            i == 3 ==> top == 0x100_0000,
            i == 4 ==> top == 0x1_0000_0000,
            i == 5 ==> top == 0x100_0000_0000,
            i == 6 ==> top == 0x1_0000_0000_0000,
            i == 7 ==> top == 0x100_0000_0000_0000,
            i == 8 ==> top == 0x1_0000_0000_0000_0000,
        decreases count - i,
    {
        proof {
            assert(m.take(i as int + 1).drop_last() =~= m.take(i as int));
            assert(m.take(i as int + 1).last() == b@[from + i]);
        }
        value = value * 256 + b[from + i] as u64;
        proof {
            top = top * 256;
        }
        i += 1;
    }
    assert(m.take(i as int) =~= m);
    value
}

/// What to do with the bytes that have come over a websocket.
#[derive(Debug)]
pub enum WsStep {
    /// Wait for more bytes.
    More,
    /// Send these bytes back and look again.
    Reply(Vec<u8>),
    /// Hand this frame over.
    Frame(WsFrame),
    /// Give up.
    Failed(WsError),
}

/// What a [`WsStep`] says.
pub enum StepModel {
    More,
    Reply(Seq<u8>),
    Frame(FrameModel),
    Closed,
    Protocol(Seq<char>),
}

/// What a step says. A step fails only because the peer closed the connection
/// or broke the protocol.
pub open spec fn step_model(s: WsStep) -> Option<StepModel> {
    match s {
        WsStep::More => Some(StepModel::More),
        WsStep::Reply(b) => Some(StepModel::Reply(b@)),
        WsStep::Frame(f) => Some(StepModel::Frame(f@)),
        WsStep::Failed(WsError::Closed) => Some(StepModel::Closed),
        WsStep::Failed(WsError::Protocol(t)) => Some(StepModel::Protocol(t@)),
        WsStep::Failed(_) => None,
    }
}

/// `n` as `count` bytes, the highest first.
pub open spec fn bytes_of(n: nat, count: nat) -> Seq<u8>
    decreases count,
{
    if count == 0 {
        Seq::empty()
    } else {
        bytes_of(n / 256, (count - 1) as nat).push((n % 256) as u8)
    }
}

/// The length of a payload as a frame says it.
pub open spec fn length_bytes(n: nat) -> Seq<u8> {
    if n <= 125 {
        seq![n as u8]
    } else if n <= 65535 {
        seq![126u8] + bytes_of(n, 2)
    } else {
        seq![127u8] + bytes_of(n, 8)
    }
}

/// An unmasked frame that stands for itself.
pub open spec fn frame_bytes(opcode: u8, payload: Seq<u8>) -> Seq<u8> {
    seq![(128 + opcode) as u8] + length_bytes(payload.len()) + payload
}

/// What to do with the bytes `b`, and how many of them that takes.
pub open spec fn step_of(b: Seq<u8>) -> (StepModel, int) {
    match frame_in(b) {
        FrameScan::More => (StepModel::More, 0),
        FrameScan::Masked => (StepModel::Protocol("server frames must be unmasked"@), 0),
        FrameScan::Frame(f, used) => if f.opcode == WS_OP_PING {
            (StepModel::Reply(frame_bytes(WS_OP_PONG, f.payload)), used)
        } else if f.opcode == WS_OP_CLOSE {
            (StepModel::Closed, used)
        } else {
            (StepModel::Frame(f), used)
        },
    }
}

fn push_big_endian(out: &mut Vec<u8>, n: u64, count: usize)
    ensures
        final(out)@ == old(out)@ + bytes_of(n as nat, count as nat),
    decreases count,
{
    if count > 0 {
        push_big_endian(out, n / 256, count - 1);
        let ghost before = out@;
        out.push((n % 256) as u8);
        proof {
            assert(out@ =~= old(out)@ + bytes_of(n as nat, count as nat));
        }
    } else {
        assert(out@ =~= old(out)@ + bytes_of(n as nat, 0));
    }
}

/// The answer to a ping: a pong with the same payload.
pub fn pong_frame(payload: &Vec<u8>) -> (r: Vec<u8>)
    ensures
        r@ == frame_bytes(WS_OP_PONG, payload@),
{
    let mut out: Vec<u8> = Vec::new();
    out.push(0x8A);
    let n: usize = payload.len();
    if n <= 125 {
        out.push(n as u8);
    } else if n <= 65535 {
        out.push(126);
        push_big_endian(&mut out, n as u64, 2);
    } else {
        out.push(127);
        push_big_endian(&mut out, n as u64, 8);
    }
    assert(out@ =~= seq![0x8Au8] + length_bytes(n as nat));
    append_range(&mut out, payload.as_slice(), 0, n);
    assert(payload@.subrange(0, n as int) =~= payload@);
    out
}

/// Takes the frame at the start of the buffer out of it, if it is complete.
fn try_parse_frame(buf: &mut Vec<u8>) -> (r: Result<Option<WsFrame>, WsError>)
    ensures
        match r {
            Err(e) => frame_in(old(buf)@) is Masked && e is Protocol
                && e->Protocol_0@ == "server frames must be unmasked"@ && final(buf)@ == old(buf)@,
            Ok(None) => frame_in(old(buf)@) is More && final(buf)@ == old(buf)@,
            Ok(Some(f)) => match frame_in(old(buf)@) {
                FrameScan::Frame(m, used) => m == f@ && final(buf)@ == old(buf)@.skip(used),
                _ => false,
            },
        },
{
    let n: usize = buf.len();
    if n < 2 {
        return Ok(None);
    }
    let b1: u8 = buf[1];
    if b1 >= 128 {
        return Err(WsError::Protocol(own("server frames must be unmasked")));
    }
    let mut len: u64 = b1 as u64;
    let mut pos: usize = 2;
    if b1 == 126 {
        if n < 4 {
            return Ok(None);
        }
        len = read_big_endian(buf.as_slice(), 2, 2);
        pos = 4;
    } else if b1 == 127 {
        if n < 10 {
            return Ok(None);
        }
        len = read_big_endian(buf.as_slice(), 2, 8);
        pos = 10;
    }
    let left: usize = n - pos;
    if len > left as u64 {
        return Ok(None);
    }
    let end: usize = pos + len as usize;
    let frame = WsFrame { opcode: buf[0] % 16, payload: bytes_between(buf.as_slice(), pos, end) };
    let rest = bytes_between(buf.as_slice(), end, n);
    proof {
        assert(rest@ =~= buf@.skip(end as int));
    }
    *buf = rest;
    Ok(Some(frame))
}

/// Looks at the bytes that have come over a websocket and takes the first frame
/// out of them: a ping is answered, a close ends the connection, any other
/// frame is handed over.
pub fn ws_step(buf: &mut Vec<u8>) -> (r: WsStep)
    ensures
        step_model(r) == Some(step_of(old(buf)@).0),
        final(buf)@ == old(buf)@.skip(step_of(old(buf)@).1),
{
    proof {
        assert(buf@.skip(0) =~= buf@);
    }
    match try_parse_frame(buf) {
        Err(e) => WsStep::Failed(e),
        Ok(None) => WsStep::More,
        Ok(Some(f)) => if f.opcode == WS_OP_PING {
            WsStep::Reply(pong_frame(&f.payload))
        } else if f.opcode == WS_OP_CLOSE {
            WsStep::Failed(WsError::Closed)
        } else {
            WsStep::Frame(f)
        },
    }
}

/// The headers that ask for a websocket.
pub fn ws_headers(key: &str) -> (r: Vec<Header>)
    ensures
        headers_of(r@) == seq![
            ("Upgrade"@, "websocket"@),
            ("Connection"@, "Upgrade"@),
            ("Sec-WebSocket-Key"@, key@),
            ("Sec-WebSocket-Version"@, "13"@),
        ],
{
    let mut out: Vec<Header> = Vec::new();
    out.push((own("Upgrade"), own("websocket")));
    out.push((own("Connection"), own("Upgrade")));
    out.push((own("Sec-WebSocket-Key"), own(key)));
    out.push((own("Sec-WebSocket-Version"), own("13")));
    assert(headers_of(out@) =~= seq![
        ("Upgrade"@, "websocket"@),
        ("Connection"@, "Upgrade"@),
        ("Sec-WebSocket-Key"@, key@),
        ("Sec-WebSocket-Version"@, "13"@),
    ]);
    out
}

/// Whether a server agreed to a websocket: it answers with status 101.
pub fn ws_accepted(status: u16) -> (r: Result<(), String>)
    ensures
        r is Ok <==> status == 101,
        r matches Err(e) ==> e@ == "ws handshake: status "@ + decimal(status as nat),
{
    if status != 101 {
        return Err(joined("ws handshake: status ", decimal_of(status as u128).as_str()));
    }
    Ok(())
}

/// The base64 character for a number below 64.
pub open spec fn base64_char(n: int) -> char {
    if n < 26 {
        (n + 65) as char
    } else if n < 52 {
        (n + 71) as char
    } else if n < 62 {
        (n - 4) as char
    } else if n == 62 {
        '+'
    } else {
        '/'
    }
}

/// The four characters for up to three bytes.
pub open spec fn base64_group(b: Seq<u8>) -> Seq<char> {
    let b0 = b[0] as int;
    let b1 = if b.len() > 1 { b[1] as int } else { 0 };
    let b2 = if b.len() > 2 { b[2] as int } else { 0 };
    seq![
        base64_char(b0 / 4),
        base64_char((b0 % 4) * 16 + b1 / 16),
        if b.len() > 1 { base64_char((b1 % 16) * 4 + b2 / 64) } else { '=' },
        if b.len() > 2 { base64_char(b2 % 64) } else { '=' },
    ]
}

/// Bytes in base64.
pub open spec fn base64_of(b: Seq<u8>) -> Seq<char>
    decreases b.len(),
{
    if b.len() == 0 {
        Seq::empty()
    } else if b.len() <= 3 {
        base64_group(b)
    } else {
        base64_group(b.take(3)) + base64_of(b.skip(3))
    }
}

fn base64_digit(n: u8) -> (r: char)
    requires
        n < 64,
    ensures
        r == base64_char(n as int),
{
    if n < 26 {
        (n + 65) as char
    } else if n < 52 {
        (n + 71) as char
    } else if n < 62 {
        (n - 4) as char
    } else if n == 62 {
        '+'
    } else {
        '/'
    }
}

/// Writes bytes in base64: the key of a websocket handshake.
pub fn base64_key(bytes: &[u8]) -> (r: String)
    ensures
        r@ == base64_of(bytes@),
{
    let mut out = String::new();
    let mut i: usize = 0;
    let n: usize = bytes.len();
    assert(bytes@.skip(0) =~= bytes@);
    assert(out@ + base64_of(bytes@) =~= base64_of(bytes@));
    while i < n
        invariant
            i <= n == bytes@.len(),
            out@ + base64_of(bytes@.skip(i as int)) == base64_of(bytes@),
        decreases n - i,
    {
        let ghost rest = bytes@.skip(i as int);
        let left: usize = n - i;
        let b0: u8 = bytes[i];
        let b1: u8 = if left > 1 {
            bytes[i + 1]
        } else {
            0
        };
        let b2: u8 = if left > 2 {
            bytes[i + 2]
        } else {
            0
        };
        let ghost before = out@;
        out.push(base64_digit(b0 / 4));
        out.push(base64_digit((b0 % 4) * 16 + b1 / 16));
        if left > 1 {
            out.push(base64_digit((b1 % 16) * 4 + b2 / 64));
        } else {
            out.push('=');
        }
        if left > 2 {
            out.push(base64_digit(b2 % 64));
        } else {
            out.push('=');
        }
        let step: usize = if left < 3 {
            left
        } else {
            3
        };
        proof {
            let group = rest.take(if rest.len() < 3 { rest.len() as int } else { 3 });
            assert(out@ =~= before + base64_group(group));
            if rest.len() <= 3 {
                assert(group =~= rest);
                assert(bytes@.skip(i + step) =~= Seq::<u8>::empty());
                assert(out@ + Seq::<char>::empty() =~= before + base64_of(rest));
            } else {
                assert(rest.skip(3) =~= bytes@.skip(i + step));
                assert(out@ + base64_of(rest.skip(3)) =~= before + base64_of(rest));
            }
        }
        i += step;
    }
    proof {
        assert(bytes@.skip(i as int) =~= Seq::<u8>::empty());
        assert(out@ + Seq::<char>::empty() =~= out@);
    }
    out
}

/// `t` without its lowest `k` bytes.
pub open spec fn without_bytes(t: nat, k: nat) -> nat
    decreases k,
{
    if k == 0 {
        t
    } else {
        without_bytes(t, (k - 1) as nat) / 256
    }
}

/// The bytes of a key made from a point in time: its eight bytes, lowest first
/// and twice over, each mixed with its place.
pub open spec fn clock_key(t: u64) -> Seq<u8> {
    Seq::new(16, |i: int| ((without_bytes(t as nat, (i % 8) as nat) % 256) as u8) ^ ((i * 31 % 256) as u8))
}

/// Makes a key from a point in time, for where there is no source of randomness.
pub fn clock_key_bytes(t: u64) -> (r: Vec<u8>)
    ensures
        r@ == clock_key(t),
{
    let mut out: Vec<u8> = Vec::new();
    let mut i: usize = 0;
    let mut rest: u64 = t;
    while i < 16
        invariant
            i <= 16,
            rest == without_bytes(t as nat, (i % 8) as nat),
            out@.len() == i,
            forall|j: int| 0 <= j < i ==> out@[j] == clock_key(t)[j],
        decreases 16 - i,
    {
        let place: u64 = i as u64 * 31 % 256;
        out.push((rest % 256) as u8 ^ place as u8);
        rest = if i % 8 == 7 {
            t
        } else {
            rest / 256
        };
        i += 1;
    }
    assert(out@ =~= clock_key(t));
    out
}

} // verus!
