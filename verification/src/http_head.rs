//! HTTP request heads: finding, parsing and rewriting them.
use vstd::prelude::*;
use vstd::slice::slice_subrange;
use vstd::utf8::{decode_utf8, valid_utf8};
use crate::error::{ErrorKind, NetError};
use crate::text::{
    chars_of, dec_text, find, find_char, from_utf8, has_prefix, is_text, lower, lowered, owned,
    parse_dec, parse_u16, push_chars, push_decimal, push_text, rfind, rfind_char, same_chars, split,
    split_ranges, starts_with, string_of, strip_all, texts, trim, trimmed,
};

verus! {

/// Largest request head (request line + headers) that is parsed.
pub const MAX_HEAD_BYTES: usize = 16384;

/// Size of the pieces that a head is read in.
pub const CHUNK_BYTES: usize = 4096;

// ── Finding the end of a head ─────────────────────────────────────────────────

/// Whether a blank line starts at a position.
pub open spec fn blank_line_at(b: Seq<u8>, i: int) -> bool {
    0 <= i && i + 4 <= b.len() && b[i] == 13 && b[i + 1] == 10 && b[i + 2] == 13 && b[i + 3] == 10
}

/// Where the first blank line, from a position on, starts.
pub open spec fn blank_line(b: Seq<u8>, from: int) -> Option<int>
    decreases b.len() - from,
{
    if from < 0 || from + 4 > b.len() {
        None
    } else if blank_line_at(b, from) {
        Some(from)
    } else {
        blank_line(b, from + 1)
    }
}

/// Find where the blank line that ends a head starts.
pub fn find_head_end(buf: &[u8]) -> (r: Option<usize>)
    ensures
        match r {
            Some(i) => blank_line(buf@, 0) == Some(i as int) && i + 4 <= buf@.len(),
            None => blank_line(buf@, 0) is None,
        },
{
    let mut i: usize = 0;
    while i < buf.len() && buf.len() - i >= 4
        invariant
            i <= buf@.len(),
            blank_line(buf@, 0) == blank_line(buf@, i as int),
        decreases buf.len() - i,
    {
        if buf[i] == 13 && buf[i + 1] == 10 && buf[i + 2] == 13 && buf[i + 3] == 10 {
            return Some(i);
        }
        i += 1;
    }
    None
}

// ── Lines and words ───────────────────────────────────────────────────────────

/// Where the first line break, from a position on, starts.
pub open spec fn line_break(s: Seq<char>, from: int) -> Option<int>
    decreases s.len() - from,
{
    if from < 0 || from + 2 > s.len() {
        None
    } else if s[from] == '\r' && s[from + 1] == '\n' {
        Some(from)
    } else {
        line_break(s, from + 1)
    }
}

/// A line break is where it is said to be.
pub proof fn lemma_line_break(s: Seq<char>, from: int)
    requires
        0 <= from,
    ensures
        match line_break(s, from) {
            Some(i) => from <= i && i + 2 <= s.len() && s[i] == '\r' && s[i + 1] == '\n' && forall|
                j: int,
            |
                from <= j < i ==> !(#[trigger] s[j] == '\r' && s[j + 1] == '\n'),
            None => forall|j: int|
                from <= j && j + 1 < s.len() ==> !(#[trigger] s[j] == '\r' && s[j + 1] == '\n'),
        },
    decreases s.len() - from,
{
    if from + 2 <= s.len() && !(s[from] == '\r' && s[from + 1] == '\n') {
        lemma_line_break(s, from + 1);
    }
}

/// The lines of a text, between the line breaks.
pub open spec fn lines(s: Seq<char>) -> Seq<Seq<char>>
    decreases s.len(),
{
    match line_break(s, 0) {
        Some(i) => if 0 <= i && i + 2 <= s.len() {
            seq![s.take(i)] + lines(s.skip(i + 2))
        } else {
            seq![s]
        },
        None => seq![s],
    }
}

/// The pieces that are not empty.
pub open spec fn non_empty(p: Seq<Seq<char>>) -> Seq<Seq<char>>
    decreases p.len(),
{
    if p.len() == 0 {
        Seq::empty()
    } else if p.last().len() == 0 {
        non_empty(p.drop_last())
    } else {
        non_empty(p.drop_last()).push(p.last())
    }
}

/// The words of a line, between spaces.
pub open spec fn words(line: Seq<char>) -> Seq<Seq<char>> {
    non_empty(split(line, ' '))
}

/// The lines of a text as strings.
fn split_lines(s: &[char]) -> (r: Vec<String>)
    ensures
        texts(r@) == lines(s@),
{
    let mut r: Vec<String> = Vec::new();
    let mut rest = s;
    assert(texts(r@) + lines(rest@) =~= lines(s@));
    loop
        invariant
            texts(r@) + lines(rest@) == lines(s@),
        decreases rest.len(),
    {
        let mut i: usize = 0;
        while i < rest.len() && rest.len() - i >= 2 && !(rest[i] == '\r' && rest[i + 1] == '\n')
            invariant
                i <= rest@.len(),
                line_break(rest@, 0) == line_break(rest@, i as int),
            decreases rest.len() - i,
        {
            i += 1;
        }
        let ghost before = r@;
        if i < rest.len() && rest.len() - i >= 2 {
            let line = slice_subrange(rest, 0, i);
            let ghost whole = rest@;
            assert(line@ =~= rest@.take(i as int));
            r.push(string_of(line));
            rest = slice_subrange(rest, i + 2, rest.len());
            assert(rest@ =~= whole.skip(i + 2));
            assert(texts(r@) =~= texts(before).push(whole.take(i as int)));
            assert(texts(r@) + lines(rest@) =~= texts(before) + lines(whole));
        } else {
            assert(line_break(rest@, i as int) is None);
            r.push(string_of(rest));
            assert(texts(r@) =~= texts(before) + lines(rest@));
            return r;
        }
    }
}

/// The words of a line as strings.
fn split_words(line: &str) -> (r: Vec<String>)
    ensures
        texts(r@) == words(line@),
{
    let chars = chars_of(line);
    let s = chars.as_slice();
    let p = split_ranges(s, ' ');
    let ghost all = split(s@, ' ');
    let mut r: Vec<String> = Vec::new();
    let mut i: usize = 0;
    assert(all.take(0) =~= Seq::<Seq<char>>::empty());
    assert(texts(r@) =~= Seq::<Seq<char>>::empty());
    while i < p.len()
        invariant
            i <= p@.len(),
            p@.len() == all.len(),
            forall|k: int|
                0 <= k < p@.len() ==> (#[trigger] p@[k]).0 <= p@[k].1 <= s.len() && s@.subrange(
                    p@[k].0 as int,
                    p@[k].1 as int,
                ) == all[k],
            texts(r@) == non_empty(all.take(i as int)),
        decreases p.len() - i,
    {
        let piece = slice_subrange(s, p[i].0, p[i].1);
        let ghost before = r@;
        if piece.len() > 0 {
            r.push(string_of(piece));
            assert(texts(r@) =~= texts(before).push(piece@));
        }
        proof {
            let t = all.take(i + 1);
            assert(t.drop_last() =~= all.take(i as int));
            assert(t.last() == all[i as int]);
        }
        i += 1;
    }
    assert(all.take(i as int) =~= all);
    r
}

// ── Requests ──────────────────────────────────────────────────────────────────

/// A parsed request head.
pub struct Request {
    pub method: String,
    /// Request-target as sent: authority for CONNECT, absolute-URI or origin-form
    /// otherwise.
    pub target: String,
    pub version: String,
    /// Header lines verbatim (name, colon, value), without the line break.
    pub headers: Vec<String>,
}

/// What a request head says.
pub ghost struct Head {
    pub method: Seq<char>,
    pub target: Seq<char>,
    pub version: Seq<char>,
    pub headers: Seq<Seq<char>>,
}

impl View for Request {
    type V = Head;

    open spec fn view(&self) -> Head {
        Head {
            method: self.method@,
            target: self.target@,
            version: self.version@,
            headers: texts(self.headers@),
        }
    }
}

/// What a text says as a request head: a line of three words, and headers.
pub open spec fn head_of_text(text: Seq<char>) -> Result<Head, Seq<char>> {
    let all = lines(strip_all(text, "\r\n"@));
    let w = words(all[0]);
    if w.len() == 0 {
        Err("missing method"@)
    } else if w.len() == 1 {
        Err("missing request target"@)
    } else if w.len() == 2 {
        Err("missing HTTP version"@)
    } else if w.len() > 3 {
        Err("malformed request line"@)
    } else {
        Ok(Head { method: w[0], target: w[1], version: w[2], headers: all.skip(1) })
    }
}

/// What bytes say as a request head.
pub open spec fn head_of_bytes(bytes: Seq<u8>) -> Result<Head, Seq<char>> {
    if valid_utf8(bytes) {
        head_of_text(decode_utf8(bytes))
    } else {
        Err("non-UTF8 request head"@)
    }
}

/// Whether a result is what is said, or the error that is said.
pub open spec fn request_is(r: Result<Request, NetError>, want: Result<Head, Seq<char>>) -> bool {
    match want {
        Ok(h) => r matches Ok(q) && q@ == h,
        Err(m) => r matches Err(e) && e.says(ErrorKind::InvalidData, m),
    }
}

/// The text without line breaks at its end.
fn without_breaks<'a>(s: &'a [char]) -> (r: &'a [char])
    ensures
        r@ == strip_all(s@, "\r\n"@),
{
    proof {
        reveal_strlit("\r\n");
    }
    let mut rest = s;
    while rest.len() >= 2 && rest[rest.len() - 2] == '\r' && rest[rest.len() - 1] == '\n'
        invariant
            "\r\n"@ == seq!['\r', '\n'],
            strip_all(s@, "\r\n"@) == strip_all(rest@, "\r\n"@),
        decreases rest.len(),
    {
        let ghost before = rest@;
        assert(before.skip(before.len() - 2) =~= "\r\n"@);
        rest = slice_subrange(rest, 0, rest.len() - 2);
        assert(rest@ =~= before.take(before.len() - 2));
    }
    proof {
        if crate::text::ends_with(rest@, "\r\n"@) {
            let t = rest@.skip(rest@.len() - 2);
            assert(t[0] == '\r' && t[1] == '\n');
        }
    }
    rest
}

/// Parse a request head.
pub fn parse_request(head: Vec<u8>) -> (r: Result<Request, NetError>)
    ensures
        request_is(r, head_of_bytes(head@)),
{
    let text = match from_utf8(head) {
        Some(t) => t,
        None => {
            return Err(NetError::new(ErrorKind::InvalidData, "non-UTF8 request head"));
        },
    };
    let chars = chars_of(text.as_str());
    let trimmed = without_breaks(chars.as_slice());
    let mut all = split_lines(trimmed);
    proof {
        lemma_lines_some(trimmed@);
        assert(texts(all@).len() == all@.len());
        assert(texts(all@)[0] == all@[0]@);
    }
    let ghost want = lines(trimmed@);
    let first = all.remove(0);
    let mut w = split_words(first.as_str());
    let ghost ws = words(want[0]);
    assert(texts(all@) =~= want.skip(1));
    assert(texts(w@).len() == w@.len());
    if w.len() == 0 {
        return Err(NetError::new(ErrorKind::InvalidData, "missing method"));
    }
    if w.len() == 1 {
        return Err(NetError::new(ErrorKind::InvalidData, "missing request target"));
    }
    if w.len() == 2 {
        return Err(NetError::new(ErrorKind::InvalidData, "missing HTTP version"));
    }
    if w.len() > 3 {
        return Err(NetError::new(ErrorKind::InvalidData, "malformed request line"));
    }
    proof {
        assert(ws[0] == w@[0]@ && ws[1] == w@[1]@ && ws[2] == w@[2]@);
    }
    let version = w.remove(2);
    let target = w.remove(1);
    let method = w.remove(0);
    Ok(Request { method, target, version, headers: all })
}

/// There is always a first line.
pub proof fn lemma_lines_some(s: Seq<char>)
    ensures
        lines(s).len() >= 1,
{
}

// ── Authorities ───────────────────────────────────────────────────────────────

/// The host and port of `host:port`, `[v6]:port` or `host`.
pub open spec fn authority_parts(a: Seq<char>, default_port: nat) -> Option<(Seq<char>, nat)> {
    if a.len() > 0 && a[0] == '[' {
        let rest = a.skip(1);
        match find(rest, ']') {
            None => None,
            Some(end) => {
                let after = rest.skip(end + 1);
                if after.len() > 0 && after[0] == ':' {
                    match parse_dec(after.skip(1), 65535) {
                        Some(p) => Some((rest.take(end), p)),
                        None => None,
                    }
                } else {
                    Some((rest.take(end), default_port))
                }
            },
        }
    } else {
        match rfind(a, ':') {
            Some(i) => match parse_dec(a.skip(i + 1), 65535) {
                Some(p) => Some((a.take(i), p)),
                None => None,
            },
            None => Some((a, default_port)),
        }
    }
}

/// Split an authority into host and port.
pub fn split_authority(authority: &str, default_port: u16) -> (r: Option<(String, u16)>)
    ensures
        match r {
            Some(v) => authority_parts(authority@, default_port as nat) == Some(
                (v.0@, v.1 as nat),
            ),
            None => authority_parts(authority@, default_port as nat) is None,
        },
{
    let chars = chars_of(authority);
    let a = chars.as_slice();
    if a.len() > 0 && a[0] == '[' {
        let rest = slice_subrange(a, 1, a.len());
        assert(rest@ =~= a@.skip(1));
        match find_char(rest, ']') {
            None => None,
            Some(end) => {
                let host = slice_subrange(rest, 0, end);
                assert(host@ =~= rest@.take(end as int));
                let after = slice_subrange(rest, end + 1, rest.len());
                assert(after@ =~= rest@.skip(end + 1));
                if after.len() > 0 && after[0] == ':' {
                    let p = slice_subrange(after, 1, after.len());
                    assert(p@ =~= after@.skip(1));
                    match parse_u16(p) {
                        Some(port) => Some((string_of(host), port)),
                        None => None,
                    }
                } else {
                    Some((string_of(host), default_port))
                }
            },
        }
    } else {
        match rfind_char(a, ':') {
            Some(i) => {
                let host = slice_subrange(a, 0, i);
                assert(host@ =~= a@.take(i as int));
                let p = slice_subrange(a, i + 1, a.len());
                assert(p@ =~= a@.skip(i + 1));
                match parse_u16(p) {
                    Some(port) => Some((string_of(host), port)),
                    None => None,
                }
            },
            None => Some((string_of(a), default_port)),
        }
    }
}

// ── Headers ───────────────────────────────────────────────────────────────────

/// The name and the value of a header line.
pub open spec fn header_parts(h: Seq<char>) -> Option<(Seq<char>, Seq<char>)> {
    match find(h, ':') {
        Some(i) => Some((trim(h.take(i)), trim(h.skip(i + 1)))),
        None => None,
    }
}

/// The value of the first header of a name, of either case, from a position on.
pub open spec fn header_value(headers: Seq<Seq<char>>, name: Seq<char>, from: int) -> Option<
    Seq<char>,
>
    decreases headers.len() - from,
{
    if from < 0 || from >= headers.len() {
        None
    } else {
        match header_parts(headers[from]) {
            Some((k, v)) => if lower(k) == lower(name) {
                Some(v)
            } else {
                header_value(headers, name, from + 1)
            },
            None => header_value(headers, name, from + 1),
        }
    }
}

/// Find the value of a header.
pub fn find_header(headers: &Vec<String>, name: &str) -> (r: Option<String>)
    ensures
        match r {
            Some(v) => header_value(texts(headers@), name@, 0) == Some(v@),
            None => header_value(texts(headers@), name@, 0) is None,
        },
{
    let ghost all = texts(headers@);
    let n = chars_of(name);
    let want = lowered(n.as_slice());
    let mut i: usize = 0;
    while i < headers.len()
        invariant
            i <= headers@.len(),
            all == texts(headers@),
            want@ == lower(name@),
            header_value(all, name@, 0) == header_value(all, name@, i as int),
        decreases headers.len() - i,
    {
        let chars = chars_of(headers[i].as_str());
        let h = chars.as_slice();
        assert(h@ == all[i as int]);
        match find_char(h, ':') {
            Some(c) => {
                let k = slice_subrange(h, 0, c);
                assert(k@ =~= h@.take(c as int));
                let k = lowered(trimmed(k));
                if same_chars(k.as_slice(), want.as_slice()) {
                    let v = slice_subrange(h, c + 1, h.len());
                    assert(v@ =~= h@.skip(c + 1));
                    return Some(string_of(trimmed(v)));
                }
            },
            None => {},
        }
        i += 1;
    }
    None
}

// ── Forwarding ────────────────────────────────────────────────────────────────

/// Where to send a forwarded (non-CONNECT) request.
pub struct ForwardTarget {
    pub host: String,
    pub port: u16,
    /// Path (+query) to use in the rewritten request line.
    pub origin_form: String,
    /// Authority for a synthesized Host header when the client sent none.
    pub authority: String,
}

/// Where a forwarded request goes.
pub ghost struct Target {
    pub host: Seq<char>,
    pub port: nat,
    pub origin_form: Seq<char>,
    pub authority: Seq<char>,
}

impl View for ForwardTarget {
    type V = Target;

    open spec fn view(&self) -> Target {
        Target {
            host: self.host@,
            port: self.port as nat,
            origin_form: self.origin_form@,
            authority: self.authority@,
        }
    }
}

/// The authority and the path of an absolute URI, without its scheme.
pub open spec fn uri_parts(rest: Seq<char>) -> (Seq<char>, Seq<char>) {
    match find(rest, '/') {
        Some(i) => (rest.take(i), rest.skip(i)),
        None => (rest, "/"@),
    }
}

/// Where a request goes: an absolute URI says so itself; with a path, the Host
/// header does.
pub open spec fn target_of(h: Head) -> Result<Target, Seq<char>> {
    if starts_with(h.target, "http://"@) {
        let (authority, path) = uri_parts(h.target.skip(7));
        match authority_parts(authority, 80) {
            None => Err("bad absolute-URI authority"@),
            Some((host, port)) => Ok(Target { host, port, origin_form: path, authority }),
        }
    } else if h.target.len() > 0 && h.target[0] == '/' {
        match header_value(h.headers, "Host"@, 0) {
            None => Err("origin-form request without Host"@),
            Some(authority) => match authority_parts(authority, 80) {
                None => Err("bad Host header"@),
                Some((host, port)) => Ok(
                    Target { host, port, origin_form: h.target, authority },
                ),
            },
        }
    } else {
        Err("unsupported request target '"@ + h.target + "'"@)
    }
}

/// Whether a result is what is said, or the error that is said.
pub open spec fn target_is(
    r: Result<ForwardTarget, NetError>,
    want: Result<Target, Seq<char>>,
) -> bool {
    match want {
        Ok(t) => r matches Ok(f) && f@ == t,
        Err(m) => r matches Err(e) && e.says(ErrorKind::InvalidData, m),
    }
}

/// Work out where a forwarded request goes and what its origin-form request line
/// is. Accepts proxy-style absolute-URI targets and (for leniency) origin-form
/// targets with a Host header.
pub fn forward_target(req: &Request) -> (r: Result<ForwardTarget, NetError>)
    ensures
        target_is(r, target_of(req@)),
{
    proof {
        reveal_strlit("http://");
    }
    let chars = chars_of(req.target.as_str());
    let t = chars.as_slice();
    let scheme = chars_of("http://");
    if has_prefix(t, scheme.as_slice()) {
        let rest = slice_subrange(t, 7, t.len());
        assert(rest@ =~= t@.skip(7));
        let (authority, path) = match find_char(rest, '/') {
            Some(i) => {
                let a = slice_subrange(rest, 0, i);
                assert(a@ =~= rest@.take(i as int));
                let p = slice_subrange(rest, i, rest.len());
                assert(p@ =~= rest@.skip(i as int));
                (string_of(a), string_of(p))
            },
            None => (string_of(rest), owned("/")),
        };
        match split_authority(authority.as_str(), 80) {
            None => Err(NetError::new(ErrorKind::InvalidData, "bad absolute-URI authority")),
            Some((host, port)) => Ok(ForwardTarget { host, port, origin_form: path, authority }),
        }
    } else if t.len() > 0 && t[0] == '/' {
        match find_header(&req.headers, "Host") {
            None => Err(
                NetError::new(ErrorKind::InvalidData, "origin-form request without Host"),
            ),
            Some(authority) => match split_authority(authority.as_str(), 80) {
                None => Err(NetError::new(ErrorKind::InvalidData, "bad Host header")),
                Some((host, port)) => Ok(
                    ForwardTarget { host, port, origin_form: string_of(t), authority },
                ),
            },
        }
    } else {
        let mut m = owned("unsupported request target '");
        push_text(&mut m, req.target.as_str());
        push_text(&mut m, "'");
        Err(NetError { kind: ErrorKind::InvalidData, message: m })
    }
}

/// The name of a header line, in lower case.
pub open spec fn header_name(h: Seq<char>) -> Seq<char> {
    lower(trim(split(h, ':')[0]))
}

/// Whether headers of a name are for the proxy only.
pub open spec fn is_for_proxy(name: Seq<char>) -> bool {
    name == "proxy-connection"@ || name == "proxy-authorization"@ || name
        == "proxy-authentication"@ || name == "keep-alive"@
}

/// Whether one of the headers has a name.
pub open spec fn has_header(headers: Seq<Seq<char>>, name: Seq<char>) -> bool {
    exists|i: int| 0 <= i < headers.len() && header_name(#[trigger] headers[i]) == name
}

/// The header that asks for the connection to be closed.
pub open spec fn connection_close() -> Seq<char> {
    "Connection: close\r\n"@
}

/// What a header becomes: those for the proxy go; the first Connection header asks
/// for the connection to be closed, and the others go; any other stays.
pub open spec fn rewritten_header(h: Seq<char>, have_connection: bool) -> Seq<char> {
    let name = header_name(h);
    if is_for_proxy(name) {
        Seq::empty()
    } else if name == "connection"@ {
        if have_connection {
            Seq::empty()
        } else {
            connection_close()
        }
    } else {
        h + "\r\n"@
    }
}

/// What headers become.
pub open spec fn rewritten_headers(headers: Seq<Seq<char>>) -> Seq<char>
    decreases headers.len(),
{
    if headers.len() == 0 {
        Seq::empty()
    } else {
        let before = headers.drop_last();
        rewritten_headers(before) + rewritten_header(
            headers.last(),
            has_header(before, "connection"@),
        )
    }
}

/// The head of a forwarded request: a request line in origin form, the headers, a
/// request to close the connection and a Host header where there is none, and a
/// blank line.
pub open spec fn rewritten(h: Head, t: Target) -> Seq<char> {
    h.method + " "@ + t.origin_form + " "@ + h.version + "\r\n"@ + rewritten_headers(h.headers) + (
    if has_header(h.headers, "connection"@) {
        Seq::empty()
    } else {
        connection_close()
    }) + (if has_header(h.headers, "host"@) {
        Seq::empty()
    } else {
        "Host: "@ + t.authority + "\r\n"@
    }) + "\r\n"@
}

/// The name of a header line, in lower case.
fn name_of_header(h: &[char]) -> (r: Vec<char>)
    ensures
        r@ == header_name(h@),
{
    let p = split_ranges(h, ':');
    proof {
        crate::text::lemma_split_first(h@, ':');
    }
    let first = slice_subrange(h, p[0].0, p[0].1);
    lowered(trimmed(first))
}

/// Re-serialize a forwarded request head: origin-form request line, hop-by-hop
/// proxy headers dropped, `Connection: close` so the origin closes after the
/// response.
pub fn rewrite_head(req: &Request, target: &ForwardTarget) -> (r: String)
    ensures
        r@ == rewritten(req@, target@),
{
    let ghost all = texts(req.headers@);
    let mut out = owned(req.method.as_str());
    push_text(&mut out, " ");
    push_text(&mut out, target.origin_form.as_str());
    push_text(&mut out, " ");
    push_text(&mut out, req.version.as_str());
    push_text(&mut out, "\r\n");
    let ghost line = out@;
    let mut have_connection = false;
    let mut have_host = false;
    let mut i: usize = 0;
    assert(all.take(0) =~= Seq::<Seq<char>>::empty());
    assert(out@ =~= line + rewritten_headers(all.take(0)));
    while i < req.headers.len()
        invariant
            i <= req.headers@.len(),
            all == texts(req.headers@),
            out@ == line + rewritten_headers(all.take(i as int)),
            have_connection == has_header(all.take(i as int), "connection"@),
            have_host == has_header(all.take(i as int), "host"@),
        decreases req.headers.len() - i,
    {
        let chars = chars_of(req.headers[i].as_str());
        let h = chars.as_slice();
        let lower = name_of_header(h);
        let name = lower.as_slice();
        let ghost before = out@;
        let ghost done = all.take(i as int);
        let ghost t = all.take(i + 1);
        proof {
            assert(t.drop_last() =~= done);
            assert(t.last() == all[i as int]);
            assert(h@ == all[i as int]);
            lemma_has_header_push(done, h@, "connection"@);
            lemma_has_header_push(done, h@, "host"@);
            assert(t =~= done.push(h@));
            reveal_strlit("connection");
            reveal_strlit("host");
            reveal_strlit("proxy-connection");
            reveal_strlit("proxy-authorization");
            reveal_strlit("proxy-authentication");
            reveal_strlit("keep-alive");
        }
        if is_text(name, "proxy-connection") || is_text(name, "proxy-authorization") || is_text(
            name,
            "proxy-authentication",
        ) || is_text(name, "keep-alive") {
            assert(name@.len() != "host"@.len());
            assert(name@ != "connection"@) by {
                if name@ == "keep-alive"@ {
                    assert(name@[0] == 'k');
                    assert("connection"@[0] == 'c');
                }
            }
            assert(out@ =~= before + rewritten_header(h@, have_connection));
        } else if is_text(name, "connection") {
            assert(name@.len() != "host"@.len());
            if !have_connection {
                push_text(&mut out, "Connection: close\r\n");
            }
            assert(out@ =~= before + rewritten_header(h@, have_connection));
            have_connection = true;
        } else {
            if is_text(name, "host") {
                have_host = true;
            }
            push_chars(&mut out, h);
            push_text(&mut out, "\r\n");
            assert(out@ =~= before + rewritten_header(h@, have_connection));
        }
        proof {
            assert(out@ =~= line + rewritten_headers(t));
        }
        i += 1;
    }
    assert(all.take(i as int) =~= all);
    let ghost mid = out@;
    if !have_connection {
        push_text(&mut out, "Connection: close\r\n");
    }
    let ghost with_connection = mid + (if have_connection {
        Seq::empty()
    } else {
        connection_close()
    });
    assert(out@ =~= with_connection);
    if !have_host {
        push_text(&mut out, "Host: ");
        push_text(&mut out, target.authority.as_str());
        push_text(&mut out, "\r\n");
    }
    let ghost host = if have_host {
        Seq::empty()
    } else {
        "Host: "@ + target.authority@ + "\r\n"@
    };
    assert(out@ =~= with_connection + host);
    push_text(&mut out, "\r\n");
    assert(out@ =~= rewritten(req@, target@));
    out
}

/// One more header.
pub proof fn lemma_has_header_push(headers: Seq<Seq<char>>, h: Seq<char>, name: Seq<char>)
    ensures
        has_header(headers.push(h), name) <==> has_header(headers, name) || header_name(h) == name,
{
    let all = headers.push(h);
    if has_header(headers, name) {
        let i = choose|i: int|
            0 <= i < headers.len() && header_name(#[trigger] headers[i]) == name;
        assert(all[i] == headers[i]);
    }
    if header_name(h) == name {
        assert(all[headers.len() as int] == h);
    }
    if has_header(all, name) {
        let i = choose|i: int| 0 <= i < all.len() && header_name(#[trigger] all[i]) == name;
        if i < headers.len() {
            assert(headers[i] == all[i]);
        }
    }
}

/// A response without a body, after which the connection is closed.
pub open spec fn simple_response(code: nat, reason: Seq<char>) -> Seq<char> {
    "HTTP/1.1 "@ + dec_text(code) + " "@ + reason
        + "\r\nContent-Length: 0\r\nConnection: close\r\n\r\n"@
}

/// Minimal error response with no body, after which the caller closes.
pub fn send_simple_response(code: u16, reason: &str) -> (r: String)
    ensures
        r@ == simple_response(code as nat, reason@),
{
    let mut r = owned("HTTP/1.1 ");
    push_decimal(&mut r, code as u64);
    push_text(&mut r, " ");
    push_text(&mut r, reason);
    push_text(&mut r, "\r\nContent-Length: 0\r\nConnection: close\r\n\r\n");
    r
}

} // verus!
