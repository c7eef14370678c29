//! What holds of reading urls, responses and websocket frames as a whole.

use crate::http::{
    authority_and_path, base64_group, base64_of, big_endian, body_from, bytes_of, chunks_from, frame_bytes, frame_in,
    head_in, headers_from, length_bytes, line_end, next_line, payload_at, response_in, step_of, trailer_from, url_in,
    FrameModel, FrameScan, Part, ScanModel, StepModel, UrlModel, WS_OP_PING, WS_OP_PONG,
};
use crate::text::{
    after_prefix, before_first, cut_last, decimal, is_digit, lemma_before_first, lemma_cut_front, lemma_cut_last,
    lemma_decimal, lemma_first_at,
};
use vstd::prelude::*;

verus! {

proof fn lemma_line_end_stays(b: Seq<u8>, more: Seq<u8>, pos: int)
    requires
        line_end(b, pos) is Some,
    ensures
        line_end(b + more, pos) == line_end(b, pos),
    decreases b.len() - pos,
{
    assert((b + more)[pos] == b[pos]);
    if b[pos] != 10 {
        lemma_line_end_stays(b, more, pos + 1);
    }
}

proof fn lemma_line_stays(b: Seq<u8>, more: Seq<u8>, pos: int, eof: bool, part: Part)
    requires
        !(next_line(b, pos, false, part) is More),
    ensures
        next_line(b + more, pos, eof, part) == next_line(b, pos, false, part),
        next_line(b, pos, false, part) matches ScanModel::Got(_, to) ==> 0 <= pos < to <= b.len(),
{
    lemma_line_end_stays(b, more, pos);
    crate::http::lemma_line_end(b, pos);
    let to = line_end(b, pos)->0;
    assert((b + more).subrange(pos, to) =~= b.subrange(pos, to));
}

proof fn lemma_headers_stay(b: Seq<u8>, more: Seq<u8>, pos: int, eof: bool, acc: Seq<(Seq<char>, Seq<char>)>)
    requires
        !(headers_from(b, pos, false, acc) is More),
    ensures
        headers_from(b + more, pos, eof, acc) == headers_from(b, pos, false, acc),
        headers_from(b, pos, false, acc) matches ScanModel::Got(_, to) ==> 0 <= to <= b.len(),
    decreases b.len() - pos,
{
    lemma_line_stays(b, more, pos, eof, Part::Header);
    match next_line(b, pos, false, Part::Header) {
        ScanModel::Got(line, to) => {
            if crate::text::trim_back(line).len() > 0 {
                lemma_headers_stay(b, more, to, eof, acc + crate::http::header_of_line(line));
            }
        },
        _ => {},
    }
}

proof fn lemma_trailer_stays(b: Seq<u8>, more: Seq<u8>, pos: int, eof: bool)
    requires
        !(trailer_from(b, pos, false) is More),
    ensures
        trailer_from(b + more, pos, eof) == trailer_from(b, pos, false),
    decreases b.len() - pos,
{
    lemma_line_stays(b, more, pos, eof, Part::Trailer);
    match next_line(b, pos, false, Part::Trailer) {
        ScanModel::Got(line, to) => {
            if crate::text::trimmed(line).len() > 0 {
                lemma_trailer_stays(b, more, to, eof);
            }
        },
        _ => {},
    }
}

proof fn lemma_chunks_stay(b: Seq<u8>, more: Seq<u8>, pos: int, eof: bool, acc: Seq<u8>)
    requires
        !(chunks_from(b, pos, false, acc) is More),
    ensures
        chunks_from(b + more, pos, eof, acc) == chunks_from(b, pos, false, acc),
    decreases b.len() - pos,
{
    lemma_line_stays(b, more, pos, eof, Part::ChunkSize);
    match next_line(b, pos, false, Part::ChunkSize) {
        ScanModel::Got(line, to) => {
            match crate::http::chunk_size_in(line) {
                Some(size) => {
                    if size == 0 {
                        lemma_trailer_stays(b, more, to, eof);
                    } else if to + size + 2 <= b.len() {
                        assert((b + more).subrange(to, to + size) =~= b.subrange(to, to + size));
                        lemma_chunks_stay(b, more, to + size + 2, eof, acc + b.subrange(to, to + size));
                    }
                },
                None => {},
            }
        },
        _ => {},
    }
}

/// Once the head of a response has been read, or found to be wrong, no bytes
/// that come later change it.
pub proof fn law_head_stays(b: Seq<u8>, more: Seq<u8>, eof: bool)
    requires
        !(head_in(b, false) is More),
    ensures
        head_in(b + more, eof) == head_in(b, false),
        head_in(b, false) matches ScanModel::Got(_, to) ==> 0 <= to <= b.len(),
{
    lemma_line_stays(b, more, 0, eof, Part::Status);
    match next_line(b, 0, false, Part::Status) {
        ScanModel::Got(line, to) => {
            if crate::http::status_in(line) is Some {
                lemma_headers_stay(b, more, to, eof, Seq::empty());
            }
        },
        _ => {},
    }
}

/// A response does not depend on how it is cut into pieces on the way: once it
/// has been read, or found to be wrong, no bytes that come later change it.
pub proof fn law_response_stays(b: Seq<u8>, more: Seq<u8>, eof: bool)
    requires
        !(response_in(b, false) is More),
    ensures
        response_in(b + more, eof) == response_in(b, false),
{
    law_head_stays(b, more, eof);
    match head_in(b, false) {
        ScanModel::Got((status, headers), pos) => {
            match crate::http::header_in(headers, "transfer-encoding"@) {
                Some(enc) => {
                    lemma_chunks_stay(b, more, pos, eof, Seq::empty());
                },
                None => {
                    let len = crate::http::header_in(headers, "content-length"@)->0;
                    match crate::text::number_in(crate::text::trimmed(len)) {
                        Some(n) => {
                            assert((b + more).subrange(pos, pos + n) =~= b.subrange(pos, pos + n));
                        },
                        None => {},
                    }
                },
            }
            assert(body_from(b + more, pos, eof, headers) == body_from(b, pos, false, headers));
        },
        _ => {},
    }
}

/// A frame does not depend on how it is cut into pieces on the way.
pub proof fn law_frame_stays(b: Seq<u8>, more: Seq<u8>)
    requires
        !(frame_in(b) is More),
    ensures
        frame_in(b + more) == frame_in(b),
{
    let c = b + more;
    assert(c[0] == b[0] && c[1] == b[1]);
    if b[1] < 128 {
        if b[1] == 126 {
            assert(c.subrange(2, 4) =~= b.subrange(2, 4));
        } else if b[1] == 127 {
            assert(c.subrange(2, 10) =~= b.subrange(2, 10));
        }
        let (at, len) = payload_at(b)->0;
        assert(c.subrange(at, at + len) =~= b.subrange(at, at + len));
    }
}

proof fn lemma_bytes_read_back(n: nat, count: nat)
    requires
        n < vstd::arithmetic::power::pow(256, count),
    ensures
        big_endian(bytes_of(n, count)) == n,
        bytes_of(n, count).len() == count,
    decreases count,
{
    reveal(vstd::arithmetic::power::pow);
    if count > 0 {
        let k = (count - 1) as nat;
        let p = vstd::arithmetic::power::pow(256, k);
        assert(vstd::arithmetic::power::pow(256, count) == 256 * p);
        assert(n / 256 < p) by (nonlinear_arith)
            requires
                n < 256 * p,
        ;
        lemma_bytes_read_back(n / 256, k);
        let s = bytes_of(n, count);
        assert(s.drop_last() =~= bytes_of(n / 256, k));
        assert(s.last() == (n % 256) as u8);
    } else {
        assert(n == 0) by {
            assert(vstd::arithmetic::power::pow(256, 0) == 1);
        }
    }
}

/// A frame is read back as it was written, whatever follows it.
pub proof fn law_frame_read_back(opcode: u8, payload: Seq<u8>, rest: Seq<u8>)
    requires
        opcode < 16,
        payload.len() <= u64::MAX,
    ensures
        frame_in(frame_bytes(opcode, payload) + rest) == FrameScan::Frame(
            FrameModel { opcode, payload },
            frame_bytes(opcode, payload).len() as int,
        ),
{
    let n = payload.len();
    let f = frame_bytes(opcode, payload);
    let b = f + rest;
    let l = length_bytes(n);
    assert(b[0] == (128 + opcode) as u8);
    assert((128 + opcode) % 16 == opcode);
    if n <= 125 {
        assert(l.len() == 1);
        assert(b[1] == n as u8);
        assert(b.subrange(2, (2 + n) as int) =~= payload);
    } else if n <= 65535 {
        assert(vstd::arithmetic::power::pow(256, 2) == 65536) by {
            reveal_with_fuel(vstd::arithmetic::power::pow, 3);
        }
        lemma_bytes_read_back(n, 2);
        assert(b[1] == 126);
        assert(b.subrange(2, 4) =~= bytes_of(n, 2));
        assert(b.subrange(4, (4 + n) as int) =~= payload);
    } else {
        assert(vstd::arithmetic::power::pow(256, 8) == 0x1_0000_0000_0000_0000) by {
            reveal_with_fuel(vstd::arithmetic::power::pow, 9);
        }
        lemma_bytes_read_back(n, 8);
        assert(b[1] == 127);
        assert(b.subrange(2, 10) =~= bytes_of(n, 8));
        assert(b.subrange(10, (10 + n) as int) =~= payload);
    }
}

/// A ping is answered with a pong that carries the same payload, and leaves the
/// bytes behind it untouched.
pub proof fn law_ping_answered(payload: Seq<u8>, rest: Seq<u8>)
    requires
        payload.len() <= u64::MAX,
    ensures
        step_of(frame_bytes(WS_OP_PING, payload) + rest).0 == StepModel::Reply(frame_bytes(WS_OP_PONG, payload)),
        (frame_bytes(WS_OP_PING, payload) + rest).skip(step_of(frame_bytes(WS_OP_PING, payload) + rest).1) == rest,
{
    law_frame_read_back(WS_OP_PING, payload, rest);
    let f = frame_bytes(WS_OP_PING, payload);
    assert((f + rest).skip(f.len() as int) =~= rest);
}

/// The characters that base64 uses.
pub open spec fn base64_letter(c: char) -> bool {
    'A' <= c <= 'Z' || 'a' <= c <= 'z' || '0' <= c <= '9' || c == '+' || c == '/' || c == '='
}

proof fn lemma_base64_form(b: Seq<u8>)
    ensures
        base64_of(b).len() == (b.len() + 2) / 3 * 4,
        forall|i: int| 0 <= i < base64_of(b).len() ==> base64_letter(#[trigger] base64_of(b)[i]),
        b.len() % 3 == 1 ==> base64_of(b)[base64_of(b).len() - 1] == '=' && base64_of(b)[base64_of(b).len() - 2] == '=',
    decreases b.len(),
{
    if b.len() > 3 {
        lemma_base64_form(b.skip(3));
        let head = base64_group(b.take(3));
        let tail = base64_of(b.skip(3));
        assert(base64_of(b) == head + tail);
        assert forall|i: int| 0 <= i < base64_of(b).len() implies base64_letter(#[trigger] base64_of(b)[i]) by {
            if i < 4 {
                assert(base64_of(b)[i] == head[i]);
            } else {
                assert(base64_of(b)[i] == tail[i - 4]);
            }
        }
    }
}

/// The key of a handshake is made of sixteen bytes: it has twenty-four
/// characters of the base64 alphabet and ends in `==`.
pub proof fn law_key_form(b: Seq<u8>)
    requires
        b.len() == 16,
    ensures
        base64_of(b).len() == 24,
        base64_of(b)[22] == '=',
        base64_of(b)[23] == '=',
        forall|i: int| 0 <= i < 24 ==> base64_letter(#[trigger] base64_of(b)[i]),
{
    lemma_base64_form(b);
}

/// A url that was read has a host and a path that begins with a slash, and no
/// slash stands in its host.
pub proof fn law_url_form(s: Seq<char>)
    requires
        url_in(s) is Ok,
    ensures
        ({
            let u = url_in(s)->Ok_0;
            &&& u.host.len() > 0
            &&& u.path.len() > 0
            &&& u.path[0] == '/'
            &&& !u.host.contains('/')
        }),
{
    reveal_strlit("/");
    let rest = after_prefix(s, "http://"@)->0;
    lemma_before_first(rest, '/');
    let n = before_first(rest, '/');
    let authority = authority_and_path(rest).0;
    assert forall|i: int| 0 <= i < authority.len() implies authority[i] != '/' by {
        assert(authority[i] == rest[i]);
    }
    if n < rest.len() {
        assert(rest.skip(n)[0] == rest[n]);
    }
    if cut_last(authority, ':') is Some {
        lemma_cut_front(authority, ':');
    }
}

/// A url can be read back from what it shows: the host and the port, and its
/// path behind them.
pub proof fn law_url_read_back(s: Seq<char>)
    requires
        url_in(s) is Ok,
    ensures
        ({
            let u = url_in(s)->Ok_0;
            url_in("http://"@ + u.shown() + u.path) == Ok::<UrlModel, Seq<char>>(u)
        }),
{
    law_url_form(s);
    let u = url_in(s)->Ok_0;
    let shown = u.shown();
    let t = "http://"@ + shown + u.path;
    let rest = shown + u.path;
    let d = decimal(u.port as nat);
    let at = u.host.len() as int;
    reveal_strlit(":");
    lemma_decimal(u.port as nat);
    assert(t.take("http://"@.len() as int) =~= "http://"@);
    assert(t.skip("http://"@.len() as int) =~= rest);
    assert(after_prefix(t, "http://"@) == Some(rest));
    assert forall|i: int| 0 <= i < shown.len() implies rest[i] != '/' by {
        if i < at {
            assert(rest[i] == u.host[i]);
        } else if i > at {
            assert(rest[i] == d[i - at - 1]);
            assert(is_digit(d[i - at - 1]));
        }
    }
    assert(rest[shown.len() as int] == u.path[0]);
    lemma_first_at(rest, '/', shown.len() as int);
    assert(rest.take(shown.len() as int) =~= shown);
    assert(rest.skip(shown.len() as int) =~= u.path);
    assert forall|j: int| at + 1 <= j < shown.len() implies shown[j] != ':' by {
        assert(shown[j] == d[j - at - 1]);
        assert(is_digit(d[j - at - 1]));
    }
    lemma_cut_last(shown, ':', at + 1);
    assert(shown.take(at) =~= u.host);
    assert(shown.skip(at + 1) =~= d);
    assert(is_digit(d[0]));
}

/// A url of a host, a port and a path is read as those; without a port it goes to
/// port 80, and without a path to the root. Another scheme is refused.
pub proof fn law_url_parts(host: Seq<char>, port: u16, path: Seq<char>, s: Seq<char>)
    requires
        host.len() > 0,
        !host.contains('/'),
        path.len() > 0,
        path[0] == '/',
    ensures
        url_in("http://"@ + (host + ":"@ + decimal(port as nat) + path)) == Ok::<UrlModel, Seq<char>>(
            UrlModel { host, port, path },
        ),
        !host.contains(':') ==> url_in("http://"@ + (host + path)) == Ok::<UrlModel, Seq<char>>(
            UrlModel { host, port: 80, path },
        ),
        !host.contains(':') ==> url_in("http://"@ + host) == Ok::<UrlModel, Seq<char>>(
            UrlModel { host, port: 80, path: "/"@ },
        ),
        !crate::text::has_prefix(s, "http://"@) ==> url_in(s) is Err,
{
    let d = decimal(port as nat);
    let auth = host + ":"@ + d;
    let at = host.len() as int;
    reveal_strlit(":");
    lemma_decimal(port as nat);
    assert(is_digit(d[0]));
    assert forall|i: int| 0 <= i < auth.len() implies auth[i] != '/' by {
        if i < at {
            assert(auth[i] == host[i]);
            assert(host.contains(host[i]));
        } else if i > at {
            assert(auth[i] == d[i - at - 1]);
            assert(is_digit(d[i - at - 1]));
        }
    }
    assert forall|j: int| at + 1 <= j < auth.len() implies auth[j] != ':' by {
        assert(auth[j] == d[j - at - 1]);
        assert(is_digit(d[j - at - 1]));
    }
    lemma_cut_last(auth, ':', at + 1);
    assert(auth.take(at) =~= host);
    assert(auth.skip(at + 1) =~= d);
    lemma_url_rest(auth, path);
    assert forall|i: int| 0 <= i < host.len() implies host[i] != '/' by {
        assert(host.contains(host[i]));
    }
    if !host.contains(':') {
        assert forall|j: int| 0 <= j < host.len() implies host[j] != ':' by {
            assert(host.contains(host[j]));
        }
        lemma_cut_last(host, ':', 0);
        lemma_url_rest(host, path);
        lemma_before_first(host, '/');
        let t = "http://"@ + host;
        assert(t.take("http://"@.len() as int) =~= "http://"@);
        assert(t.skip("http://"@.len() as int) =~= host);
    }
}

proof fn lemma_url_rest(auth: Seq<char>, path: Seq<char>)
    requires
        path.len() > 0,
        path[0] == '/',
        forall|i: int| 0 <= i < auth.len() ==> auth[i] != '/',
    ensures
        after_prefix("http://"@ + (auth + path), "http://"@) == Some(auth + path),
        authority_and_path(auth + path) == (auth, path),
{
    let rest = auth + path;
    let t = "http://"@ + rest;
    assert(t.take("http://"@.len() as int) =~= "http://"@);
    assert(t.skip("http://"@.len() as int) =~= rest);
    assert forall|i: int| 0 <= i < auth.len() implies rest[i] != '/' by {
        assert(rest[i] == auth[i]);
    }
    lemma_first_at(rest, '/', auth.len() as int);
    assert(rest.take(auth.len() as int) =~= auth);
    assert(rest.skip(auth.len() as int) =~= path);
}

/// A header is found by its name, whatever the case of the letters, and the first
/// of that name counts.
pub proof fn law_first_header_counts(headers: Seq<(Seq<char>, Seq<char>)>, name: Seq<char>, i: int)
    ensures
        0 <= i < headers.len() && crate::text::lowered(headers[i].0) == crate::text::lowered(name) && (forall|j: int|
            0 <= j < i ==> crate::text::lowered((#[trigger] headers[j]).0) != crate::text::lowered(name))
            ==> crate::http::header_in(headers, name) == Some(headers[i].1),
        (forall|j: int|
            0 <= j < headers.len() ==> crate::text::lowered((#[trigger] headers[j]).0) != crate::text::lowered(name))
            ==> crate::http::header_in(headers, name) is None,
    decreases headers.len(),
{
    if headers.len() > 0 {
        let t = headers.drop_first();
        assert forall|j: int| 0 <= j < t.len() implies #[trigger] t[j] == headers[j + 1] by {}
        law_first_header_counts(t, name, i - 1);
        if forall|j: int|
            0 <= j < headers.len() ==> crate::text::lowered((#[trigger] headers[j]).0) != crate::text::lowered(name) {
            assert(crate::text::lowered(headers[0].0) != crate::text::lowered(name));
            assert forall|j: int| 0 <= j < t.len() implies crate::text::lowered((#[trigger] t[j]).0)
                != crate::text::lowered(name) by {
                assert(t[j] == headers[j + 1]);
            }
        }
        if 0 < i < headers.len() && (forall|j: int|
            0 <= j < i ==> crate::text::lowered((#[trigger] headers[j]).0) != crate::text::lowered(name)) {
            assert(crate::text::lowered(headers[0].0) != crate::text::lowered(name));
            assert(t[i - 1] == headers[i]);
            assert forall|j: int| 0 <= j < i - 1 implies crate::text::lowered((#[trigger] t[j]).0)
                != crate::text::lowered(name) by {
                assert(t[j] == headers[j + 1]);
            }
        }
    }
}

/// A body of an announced length is that many bytes behind the head, and the
/// response is complete as soon as they are there.
pub proof fn law_announced_length(
    b: Seq<u8>,
    eof: bool,
    status: u16,
    headers: Seq<(Seq<char>, Seq<char>)>,
    pos: int,
    n: u64,
)
    requires
        head_in(b, eof) == ScanModel::Got((status, headers), pos),
        0 <= pos <= b.len(),
        crate::http::header_in(headers, "transfer-encoding"@) is None,
        crate::http::header_in(headers, "content-length"@) == Some(decimal(n as nat)),
    ensures
        pos + n <= b.len() ==> response_in(b, eof) == ScanModel::Got(
            crate::http::ResponseModel { status, headers, body: b.subrange(pos, pos + n) },
            pos + n,
        ),
        pos + n > b.len() && !eof ==> response_in(b, eof) is More,
        pos + n > b.len() && eof ==> response_in(b, eof) is Failed,
{
    lemma_decimal(n as nat);
    let d = decimal(n as nat);
    assert(is_digit(d[0]));
    assert(is_digit(d[d.len() - 1]));
    crate::text::lemma_trimmed_stays(d);
}

/// A body without an announced length lasts until the connection ends.
pub proof fn law_open_length(
    b: Seq<u8>,
    eof: bool,
    status: u16,
    headers: Seq<(Seq<char>, Seq<char>)>,
    pos: int,
)
    requires
        head_in(b, eof) == ScanModel::Got((status, headers), pos),
        crate::http::header_in(headers, "transfer-encoding"@) is None,
        crate::http::header_in(headers, "content-length"@) is None,
    ensures
        eof ==> response_in(b, eof) == ScanModel::Got(
            crate::http::ResponseModel { status, headers, body: b.skip(pos) },
            b.len() as int,
        ),
        !eof ==> response_in(b, eof) is More,
{
}

/// A chunked body is the data of its chunks, one after the other: a chunk is the
/// bytes behind the line that gives its size, and the next one begins two bytes
/// behind them; a chunk of size zero ends the body behind its trailer.
pub proof fn law_chunks_are_joined(b: Seq<u8>, pos: int, eof: bool, acc: Seq<u8>, line: Seq<char>, to: int, size: u64)
    requires
        next_line(b, pos, eof, Part::ChunkSize) == ScanModel::Got(line, to),
        crate::http::chunk_size_in(line) == Some(size),
    ensures
        size > 0 && to + size + 2 <= b.len() ==> chunks_from(b, pos, eof, acc) == chunks_from(
            b,
            to + size + 2,
            eof,
            acc + b.subrange(to, to + size),
        ),
        size > 0 && to + size + 2 > b.len() && !eof ==> chunks_from(b, pos, eof, acc) is More,
        size > 0 && to + size + 2 > b.len() && eof ==> chunks_from(b, pos, eof, acc) is Failed,
        size == 0 ==> (trailer_from(b, to, eof) matches ScanModel::Got(_, done) ==> chunks_from(b, pos, eof, acc)
            == ScanModel::Got(acc, done)),
{
}

/// A response that says so is read as chunks, whatever length it announces.
pub proof fn law_chunked_wins(
    b: Seq<u8>,
    eof: bool,
    status: u16,
    headers: Seq<(Seq<char>, Seq<char>)>,
    pos: int,
    enc: Seq<char>,
)
    requires
        head_in(b, eof) == ScanModel::Got((status, headers), pos),
        crate::http::header_in(headers, "transfer-encoding"@) == Some(enc),
        crate::text::has_text(crate::text::lowered(enc), "chunked"@),
    ensures
        chunks_from(b, pos, eof, Seq::empty()) matches ScanModel::Got(body, done) ==> response_in(b, eof)
            == ScanModel::Got(crate::http::ResponseModel { status, headers, body }, done),
{
}

/// A line lasts up to its line feed, which belongs to it.
pub proof fn law_lines(b: Seq<u8>, pos: int, to: int)
    requires
        0 <= pos < to <= b.len(),
        b[to - 1] == 10,
        forall|i: int| pos <= i < to - 1 ==> b[i] != 10,
    ensures
        line_end(b, pos) == Some(to),
    decreases to - pos,
{
    if pos + 1 < to {
        assert(b[pos] != 10);
        law_lines(b, pos + 1, to);
    }
}

/// A frame says in its second byte how long its payload is, or that two or eight
/// bytes say so, the highest first; the payload follows, and the low half of the
/// first byte says what it is.
pub proof fn law_frame_format(b: Seq<u8>)
    requires
        b.len() >= 2,
    ensures
        b[1] >= 128 ==> frame_in(b) is Masked,
        b[1] <= 125 ==> {
            &&& b.len() >= 2 + b[1] ==> frame_in(b) == FrameScan::Frame(
                FrameModel { opcode: (b[0] % 16) as u8, payload: b.subrange(2, 2 + b[1]) },
                2 + b[1],
            )
            &&& b.len() < 2 + b[1] ==> frame_in(b) is More
        },
        b[1] == 126 && b.len() >= 4 ==> ({
            let n = b[2] * 256 + b[3];
            &&& b.len() >= 4 + n ==> frame_in(b) == FrameScan::Frame(
                FrameModel { opcode: (b[0] % 16) as u8, payload: b.subrange(4, 4 + n) },
                4 + n,
            )
            &&& b.len() < 4 + n ==> frame_in(b) is More
        }),
        b[1] == 127 && b.len() >= 10 ==> ({
            let n = ((((((b[2] * 256 + b[3]) * 256 + b[4]) * 256 + b[5]) * 256 + b[6]) * 256 + b[7]) * 256 + b[8]) * 256
                + b[9];
            &&& b.len() >= 10 + n ==> frame_in(b) == FrameScan::Frame(
                FrameModel { opcode: (b[0] % 16) as u8, payload: b.subrange(10, 10 + n) },
                10 + n,
            )
            &&& b.len() < 10 + n ==> frame_in(b) is More
        }),
{
    if b[1] == 126 && b.len() >= 4 {
        lemma_two(b.subrange(2, 4));
    }
    if b[1] == 127 && b.len() >= 10 {
        lemma_eight(b.subrange(2, 10));
    }
}

proof fn lemma_two(s: Seq<u8>)
    requires
        s.len() == 2,
    ensures
        big_endian(s) == s[0] * 256 + s[1],
{
    reveal_with_fuel(big_endian, 3);
    assert(s.drop_last().drop_last() =~= Seq::<u8>::empty());
}

proof fn lemma_eight(s: Seq<u8>)
    requires
        s.len() == 8,
    ensures
        big_endian(s) == ((((((s[0] * 256 + s[1]) * 256 + s[2]) * 256 + s[3]) * 256 + s[4]) * 256 + s[5]) * 256 + s[6])
            * 256 + s[7],
{
    let a = s.take(2);
    lemma_two(a);
    lemma_next(s, 2);
    lemma_next(s, 3);
    lemma_next(s, 4);
    lemma_next(s, 5);
    lemma_next(s, 6);
    lemma_next(s, 7);
    assert(s.take(8) =~= s);
}

proof fn lemma_next(s: Seq<u8>, n: int)
    requires
        0 <= n < s.len(),
    ensures
        big_endian(s.take(n + 1)) == big_endian(s.take(n)) * 256 + s[n],
{
    assert(s.take(n + 1).drop_last() =~= s.take(n));
}

/// What comes over a websocket is handed over with its payload, except for pings
/// and for the end of the connection.
pub proof fn law_frames_are_handed_over(opcode: u8, payload: Seq<u8>, rest: Seq<u8>)
    requires
        opcode < 16,
        payload.len() <= u64::MAX,
    ensures
        ({
            let b = frame_bytes(opcode, payload) + rest;
            &&& opcode != 8 && opcode != 9 ==> step_of(b) == (
                StepModel::Frame(FrameModel { opcode, payload }),
                frame_bytes(opcode, payload).len() as int,
            )
            &&& opcode == 8 ==> step_of(b).0 is Closed
            &&& opcode == 9 ==> step_of(b).0 == StepModel::Reply(frame_bytes(10, payload))
        }),
{
    law_frame_read_back(opcode, payload, rest);
}

/// A frame that is written is final and unmasked, says its length in as few bytes
/// as there are for it, and ends with its payload.
pub proof fn law_written_frames(opcode: u8, payload: Seq<u8>)
    requires
        opcode < 16,
    ensures
        ({
            let f = frame_bytes(opcode, payload);
            let n = payload.len();
            &&& f[0] == 128 + opcode
            &&& n <= 125 ==> f.len() == 2 + n && f[1] == n
            &&& 125 < n <= 65535 ==> f.len() == 4 + n && f[1] == 126 && f[2] * 256 + f[3] == n
            &&& n > 65535 ==> f.len() == 10 + n && f[1] == 127
            &&& f.skip(f.len() - n) == payload
        }),
{
    let f = frame_bytes(opcode, payload);
    let n = payload.len();
    assert(f.skip(f.len() - n) =~= payload);
    lemma_bytes_len(n, 2);
    lemma_bytes_len(n, 8);
    if 125 < n <= 65535 {
        let l = bytes_of(n, 2);
        reveal_with_fuel(bytes_of, 3);
        assert(l[1] == (n % 256) as u8);
        assert(l[0] == (n / 256 % 256) as u8);
        assert(f[2] == l[0] && f[3] == l[1]);
    }
}

proof fn lemma_bytes_len(n: nat, count: nat)
    ensures
        bytes_of(n, count).len() == count,
    decreases count,
{
    if count > 0 {
        lemma_bytes_len(n / 256, (count - 1) as nat);
    }
}

/// The lines of headers are those of the parts, one after the other.
pub proof fn law_header_lines(a: Seq<(Seq<char>, Seq<char>)>, k: Seq<char>, v: Seq<char>)
    ensures
        crate::http::header_lines(Seq::empty()) == Seq::<char>::empty(),
        crate::http::header_lines(a.push((k, v))) == crate::http::header_lines(a) + k + ": "@ + v + "\r\n"@,
{
    assert(a.push((k, v)).drop_last() =~= a);
}

/// A request begins with its method, its path and its host, carries the headers
/// that it is given and the length of its body, and ends with an empty line.
pub proof fn law_request_form(
    method: Seq<char>,
    path: Seq<char>,
    host: Seq<char>,
    port: u16,
    extra: Seq<(Seq<char>, Seq<char>)>,
    n: usize,
)
    ensures
        ({
            let start = method + " "@ + path + " HTTP/1.1\r\nHost: "@ + host + ":"@ + decimal(port as nat)
                + "\r\nUser-Agent: hannis/0.1\r\nAccept: */*\r\n"@ + crate::http::header_lines(extra);
            let with_body = crate::http::head_text(method, path, host, port, extra, Some(n));
            let without = crate::http::head_text(method, path, host, port, extra, None);
            &&& with_body == start + "Content-Length: "@ + decimal(n as nat) + "\r\n"@ + "\r\n"@
            &&& method == "POST"@ ==> without == start + "Content-Length: 0\r\n"@ + "\r\n"@
            &&& method != "POST"@ ==> without == start + "\r\n"@
        }),
{
    reveal_strlit("");
    let start = method + " "@ + path + " HTTP/1.1\r\nHost: "@ + host + ":"@ + decimal(port as nat)
        + "\r\nUser-Agent: hannis/0.1\r\nAccept: */*\r\n"@ + crate::http::header_lines(extra);
    assert(crate::http::head_text(method, path, host, port, extra, Some(n)) =~= start + "Content-Length: "@ + decimal(
        n as nat,
    ) + "\r\n"@ + "\r\n"@);
    if method == "POST"@ {
        assert(crate::http::head_text(method, path, host, port, extra, None) =~= start + "Content-Length: 0\r\n"@
            + "\r\n"@);
    } else {
        assert(crate::http::head_text(method, path, host, port, extra, None) =~= start + "\r\n"@);
    }
}

/// A word of characters that are no space.
pub open spec fn is_word(w: Seq<char>) -> bool {
    forall|i: int| 0 <= i < w.len() ==> !crate::text::is_space(#[trigger] w[i])
}

proof fn lemma_word(w: Seq<char>, t: Seq<char>)
    requires
        is_word(w),
        t.len() > 0 ==> crate::text::is_space(t[0]),
    ensures
        crate::text::word_len(w + t) == w.len(),
    decreases w.len(),
{
    let s = w + t;
    if w.len() > 0 {
        assert(s[0] == w[0]);
        assert(s.drop_first() =~= w.drop_first() + t);
        assert forall|i: int| 0 <= i < w.drop_first().len() implies !crate::text::is_space(
            #[trigger] w.drop_first()[i],
        ) by {
            assert(w.drop_first()[i] == w[i + 1]);
        }
        lemma_word(w.drop_first(), t);
    } else {
        assert(s =~= t);
    }
}

/// The status of a response is the second word of its first line.
pub proof fn law_status_line(w: Seq<char>, n: u16, tail: Seq<char>)
    requires
        w.len() > 0,
        is_word(w),
        tail.len() > 0 ==> crate::text::is_space(tail[0]),
    ensures
        crate::http::status_in(w + (seq![' '] + (decimal(n as nat) + tail))) == Some(n),
{
    let d = decimal(n as nat);
    lemma_decimal(n as nat);
    let r = d + tail;
    let t = seq![' '] + r;
    let line = w + t;
    assert(crate::text::is_space(t[0]));
    lemma_word(w, t);
    assert(line[0] == w[0]);
    assert(!crate::text::is_space(w[0]));
    assert(crate::text::trim_front(line) == line);
    assert(line.skip(w.len() as int) =~= t);
    assert forall|i: int| 0 <= i < d.len() implies !crate::text::is_space(#[trigger] d[i]) by {
        assert(is_digit(d[i]));
    }
    lemma_word(d, tail);
    assert(r[0] == d[0]);
    assert(!crate::text::is_space(d[0]));
    assert(t.drop_first() =~= r);
    assert(crate::text::trim_front(r) == r);
    assert(crate::text::trim_front(t) == crate::text::trim_front(t.drop_first()));
    assert(r.take(d.len() as int) =~= d);
    assert(is_digit(d[0]));
}

/// The place of a character in the base64 alphabet.
pub open spec fn base64_worth(c: char) -> int {
    let u = c as u32;
    if 65 <= u <= 90 {
        u - 65
    } else if 97 <= u <= 122 {
        u - 97 + 26
    } else if 48 <= u <= 57 {
        u - 48 + 52
    } else if c == '+' {
        62
    } else {
        63
    }
}

/// Three bytes can be read back from the four characters that stand for them, and
/// signs of equality stand for bytes that are not there.
pub proof fn law_base64_read_back(b: Seq<u8>)
    requires
        1 <= b.len() <= 3,
    ensures
        ({
            let g = base64_of(b);
            let v = |i: int| base64_worth(g[i]);
            &&& g.len() == 4
            &&& v(0) * 4 + v(1) / 16 == b[0]
            &&& b.len() > 1 ==> (v(1) % 16) * 16 + v(2) / 4 == b[1]
            &&& b.len() > 2 ==> (v(2) % 4) * 64 + v(3) == b[2]
            &&& b.len() == 1 ==> g[2] == '=' && v(1) % 16 == 0
            &&& b.len() <= 2 ==> g[3] == '='
        }),
{
    assert forall|n: int| 0 <= n < 64 implies base64_worth(#[trigger] crate::http::base64_char(n)) == n by {}
    let g = base64_of(b);
    let b0 = b[0] as int;
    let b1 = if b.len() > 1 { b[1] as int } else { 0 };
    let b2 = if b.len() > 2 { b[2] as int } else { 0 };
    assert(base64_worth(crate::http::base64_char(b0 / 4)) == b0 / 4);
    assert(base64_worth(crate::http::base64_char((b0 % 4) * 16 + b1 / 16)) == (b0 % 4) * 16 + b1 / 16);
    assert(base64_worth(crate::http::base64_char((b1 % 16) * 4 + b2 / 64)) == (b1 % 16) * 4 + b2 / 64);
    assert(base64_worth(crate::http::base64_char(b2 % 64)) == b2 % 64);
}

/// The characters of bytes are those of groups of three, one after the other.
pub proof fn law_base64_groups(a: Seq<u8>, b: Seq<u8>)
    requires
        a.len() == 3,
        b.len() > 0,
    ensures
        base64_of(a + b) == base64_of(a) + base64_of(b),
{
    assert((a + b).take(3) =~= a);
    assert((a + b).skip(3) =~= b);
}

} // verus!
