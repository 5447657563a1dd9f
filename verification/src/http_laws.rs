//! What holds of rewritten request heads.
use vstd::prelude::*;
use vstd::utf8::{
    decode_utf8, encode_utf8, encode_utf8_decode_utf8, encode_utf8_valid_utf8, valid_utf8,
};
use crate::error::{ErrorKind, NetError};
use crate::http_head::{
    ForwardTarget, Head, Request, Target, authority_parts, blank_line, blank_line_at,
    connection_close, find_head_end, find_header, forward_target, has_header, head_of_text,
    header_name, header_value, is_for_proxy, lemma_has_header_push, lemma_line_break,
    lemma_lines_some, line_break, lines, non_empty, parse_request, rewrite_head, rewritten,
    rewritten_headers, send_simple_response, split_authority, words,
};
use crate::text::{
    dec_text, ends_with, find, is_digit, join, lemma_dec_round_trip, lemma_dec_text,
    lemma_find_from, lemma_find_from_is, lemma_find_none, lemma_rfind_at, lemma_rfind_to,
    lemma_split_first, lemma_split_join, lower, parse_u16, rfind, split, strip_all, texts, trim,
    trim_end_ws, trim_start_ws,
};

verus! {

/// `Connection: close`.
pub open spec fn close_line() -> Seq<char> {
    "Connection: close"@
}

/// The header lines that a rewritten head keeps, in order.
pub open spec fn kept_lines(headers: Seq<Seq<char>>) -> Seq<Seq<char>>
    decreases headers.len(),
{
    if headers.len() == 0 {
        Seq::empty()
    } else {
        let before = kept_lines(headers.drop_last());
        let h = headers.last();
        let name = header_name(h);
        if is_for_proxy(name) {
            before
        } else if name == "connection"@ {
            if has_header(headers.drop_last(), "connection"@) {
                before
            } else {
                before.push(close_line())
            }
        } else {
            before.push(h)
        }
    }
}

/// The header lines of a rewritten head.
pub open spec fn forwarded_lines(h: Head, t: Target) -> Seq<Seq<char>> {
    let kept = kept_lines(h.headers);
    let closed = if has_header(h.headers, "connection"@) {
        kept
    } else {
        kept.push(close_line())
    };
    if has_header(h.headers, "host"@) {
        closed
    } else {
        closed.push("Host: "@ + t.authority)
    }
}

/// Lines, each with a line break behind it.
pub open spec fn broken(l: Seq<Seq<char>>) -> Seq<char>
    decreases l.len(),
{
    if l.len() == 0 {
        Seq::empty()
    } else {
        broken(l.drop_last()) + l.last() + "\r\n"@
    }
}

/// Whether a text holds no line break.
pub open spec fn is_line(s: Seq<char>) -> bool {
    forall|j: int| 0 <= j && j + 1 < s.len() ==> !(#[trigger] s[j] == '\r' && s[j + 1] == '\n')
}

/// Whether a text is a word: not empty, and without spaces and line breaks.
pub open spec fn is_word(s: Seq<char>) -> bool {
    s.len() > 0 && !s.contains(' ') && is_line(s)
}

proof fn lemma_broken_push(l: Seq<Seq<char>>, s: Seq<char>)
    ensures
        broken(l.push(s)) == broken(l) + s + "\r\n"@,
{
    assert(l.push(s).drop_last() =~= l);
}

proof fn lemma_broken_one(s: Seq<char>)
    ensures
        broken(seq![s]) == s + "\r\n"@,
{
    assert(seq![s].drop_last() =~= Seq::<Seq<char>>::empty());
    assert(broken(Seq::<Seq<char>>::empty()) =~= Seq::<char>::empty());
    assert(broken(seq![s]) =~= s + "\r\n"@);
}

proof fn lemma_kept_broken(headers: Seq<Seq<char>>)
    ensures
        rewritten_headers(headers) == broken(kept_lines(headers)),
    decreases headers.len(),
{
    if headers.len() > 0 {
        let d = headers.drop_last();
        lemma_kept_broken(d);
        let h = headers.last();
        let before = kept_lines(d);
        lemma_broken_push(before, h);
        lemma_broken_push(before, close_line());
        reveal_strlit("Connection: close");
        reveal_strlit("\r\n");
        reveal_strlit("Connection: close\r\n");
        assert(close_line() + "\r\n"@ =~= connection_close());
        assert(rewritten_headers(d) + (h + "\r\n"@) =~= rewritten_headers(d) + h + "\r\n"@);
        assert(rewritten_headers(d) + connection_close() =~= rewritten_headers(d) + close_line()
            + "\r\n"@);
        assert(rewritten_headers(d) + Seq::<char>::empty() =~= rewritten_headers(d));
    }
}

/// A rewritten head is its request line and its header lines, each with a line
/// break behind it, and a blank line.
proof fn lemma_rewritten_broken(h: Head, t: Target)
    ensures
        rewritten(h, t) == broken(
            seq![h.method + " "@ + t.origin_form + " "@ + h.version] + forwarded_lines(h, t),
        ) + "\r\n"@,
{
    reveal_strlit("Connection: close");
    reveal_strlit("\r\n");
    reveal_strlit("Connection: close\r\n");
    assert(close_line() + "\r\n"@ =~= connection_close());
    let first = h.method + " "@ + t.origin_form + " "@ + h.version;
    let kept = kept_lines(h.headers);
    lemma_kept_broken(h.headers);
    lemma_broken_concat(seq![first], kept);
    lemma_broken_one(first);
    let a = seq![first] + kept;
    let c = close_line();
    let hosted = "Host: "@ + t.authority;
    lemma_broken_push(a, c);
    lemma_broken_push(a, hosted);
    lemma_broken_push(a.push(c), hosted);
    assert(seq![first] + kept.push(c) =~= a.push(c));
    assert(seq![first] + kept.push(hosted) =~= a.push(hosted));
    assert(seq![first] + kept.push(c).push(hosted) =~= a.push(c).push(hosted));
    let text = broken(seq![first] + forwarded_lines(h, t)) + "\r\n"@;
    let conn = if has_header(h.headers, "connection"@) {
        Seq::<char>::empty()
    } else {
        connection_close()
    };
    let host = if has_header(h.headers, "host"@) {
        Seq::<char>::empty()
    } else {
        "Host: "@ + t.authority + "\r\n"@
    };
    assert(rewritten(h, t) =~= first + "\r\n"@ + rewritten_headers(h.headers) + conn + host
        + "\r\n"@);
    assert(broken(a) == first + "\r\n"@ + rewritten_headers(h.headers));
    assert(broken(a) + c + "\r\n"@ =~= broken(a) + connection_close());
    assert(text =~= broken(a) + conn + host + "\r\n"@);
}

proof fn lemma_broken_concat(a: Seq<Seq<char>>, b: Seq<Seq<char>>)
    ensures
        broken(a + b) == broken(a) + broken(b),
    decreases b.len(),
{
    if b.len() == 0 {
        assert(a + b =~= a);
        assert(broken(a) + broken(b) =~= broken(a));
    } else {
        lemma_broken_concat(a, b.drop_last());
        assert((a + b).drop_last() =~= a + b.drop_last());
        assert((a + b).last() == b.last());
        assert(broken(a + b) =~= broken(a) + broken(b));
    }
}

/// Lines with line breaks between them.
spec fn joined(l: Seq<Seq<char>>) -> Seq<char>
    decreases l.len(),
{
    if l.len() == 0 {
        Seq::empty()
    } else if l.len() == 1 {
        l[0]
    } else {
        l[0] + "\r\n"@ + joined(l.skip(1))
    }
}

proof fn lemma_broken_joined(l: Seq<Seq<char>>)
    requires
        l.len() > 0,
    ensures
        broken(l) == joined(l) + "\r\n"@,
    decreases l.len(),
{
    if l.len() == 1 {
        lemma_broken_one(l[0]);
        assert(l =~= seq![l[0]]);
    } else {
        let rest = l.skip(1);
        lemma_broken_joined(rest);
        lemma_broken_concat(seq![l[0]], rest);
        assert(seq![l[0]] + rest =~= l);
        lemma_broken_one(l[0]);
        assert(broken(l) =~= joined(l) + "\r\n"@);
    }
}

/// Joined lines are taken apart again.
proof fn lemma_lines_joined(l: Seq<Seq<char>>)
    requires
        l.len() > 0,
        forall|i: int| 0 <= i < l.len() ==> is_line(#[trigger] l[i]),
    ensures
        lines(joined(l)) == l,
    decreases l.len(),
{
    reveal_strlit("\r\n");
    let s = joined(l);
    if l.len() == 1 {
        lemma_line_break(s, 0);
        assert(is_line(l[0]));
        assert(line_break(s, 0) is None);
        assert(seq![s] =~= l);
    } else {
        let n = l[0].len() as int;
        let rest = l.skip(1);
        assert(s[n] == '\r' && s[n + 1] == '\n');
        assert(is_line(l[0]));
        assert forall|j: int| 0 <= j < n implies !(#[trigger] s[j] == '\r' && s[j + 1] == '\n') by {
            assert(s[j] == l[0][j]);
            if j + 1 < n {
                assert(s[j + 1] == l[0][j + 1]);
            }
        }
        lemma_line_break(s, 0);
        let i = line_break(s, 0)->Some_0;
        assert(line_break(s, 0) is Some);
        assert(i == n);
        assert(s.take(n) =~= l[0]);
        assert(s.skip(n + 2) =~= joined(rest));
        assert forall|k: int| 0 <= k < rest.len() implies is_line(#[trigger] rest[k]) by {
            assert(rest[k] == l[k + 1]);
        }
        lemma_lines_joined(rest);
        assert(seq![l[0]] + rest =~= l);
    }
}

proof fn lemma_joined_last(l: Seq<Seq<char>>)
    requires
        l.len() > 0,
        l.last().len() > 0,
        is_line(l.last()),
    ensures
        !ends_with(joined(l), "\r\n"@),
    decreases l.len(),
{
    reveal_strlit("\r\n");
    let s = joined(l);
    if l.len() == 1 {
        if ends_with(s, "\r\n"@) {
            let t = s.skip(s.len() - 2);
            assert(t[0] == '\r' && t[1] == '\n');
            assert(s[s.len() - 2] == '\r' && s[s.len() - 1] == '\n');
        }
    } else {
        let rest = l.skip(1);
        assert(rest.last() == l.last());
        lemma_joined_last(rest);
        lemma_joined_not_empty(rest);
        let r = joined(rest);
        if ends_with(s, "\r\n"@) {
            let t = s.skip(s.len() - 2);
            assert(t[0] == '\r' && t[1] == '\n');
            assert(s.last() == r.last());
            if r.len() >= 2 {
                assert(s[s.len() - 2] == r[r.len() - 2]);
                assert(r.skip(r.len() - 2) =~= "\r\n"@);
            } else {
                assert(s[s.len() - 2] == '\n');
            }
        }
    }
}

proof fn lemma_joined_not_empty(l: Seq<Seq<char>>)
    requires
        l.len() > 0,
        l.last().len() > 0,
    ensures
        joined(l).len() > 0,
    decreases l.len(),
{
    if l.len() > 1 {
        assert(l.skip(1).last() == l.last());
        lemma_joined_not_empty(l.skip(1));
    }
}

proof fn lemma_three_words(a: Seq<char>, b: Seq<char>, c: Seq<char>)
    requires
        is_word(a),
        is_word(b),
        is_word(c),
    ensures
        words(a + " "@ + b + " "@ + c) == seq![a, b, c],
        is_line(a + " "@ + b + " "@ + c),
{
    reveal_strlit(" ");
    let p = seq![a, b, c];
    let s = a + " "@ + b + " "@ + c;
    assert(p.skip(1) =~= seq![b, c]);
    assert(seq![b, c].skip(1) =~= seq![c]);
    assert(join(seq![c], ' ') == c);
    assert(join(seq![b, c], ' ') =~= b + seq![' '] + c);
    assert(join(p, ' ') =~= s) by {
        assert(join(p, ' ') == a + seq![' '] + join(seq![b, c], ' '));
    }
    lemma_split_join(p, ' ');
    assert(non_empty(p) =~= p) by {
        assert(p.drop_last() =~= seq![a, b]);
        assert(seq![a, b].drop_last() =~= seq![a]);
        assert(seq![a].drop_last() =~= Seq::<Seq<char>>::empty());
        reveal_with_fuel(non_empty, 4);
    }
    assert forall|j: int| 0 <= j && j + 1 < s.len() implies !(#[trigger] s[j] == '\r' && s[j + 1]
        == '\n') by {
        let n = a.len() as int;
        let m = n + 1 + b.len();
        if j + 1 < n {
            assert(a[j] == s[j] && a[j + 1] == s[j + 1]);
        } else if j + 1 == n {
            assert(s[j + 1] == ' ');
        } else if j == n {
            assert(s[j] == ' ');
        } else if j + 1 < m {
            assert(b[j - n - 1] == s[j] && b[j - n] == s[j + 1]);
        } else if j + 1 == m {
            assert(s[j + 1] == ' ');
        } else if j == m {
            assert(s[j] == ' ');
        } else {
            assert(c[j - m - 1] == s[j] && c[j - m] == s[j + 1]);
        }
    }
}

/// Whether every line is not empty and holds no line break.
pub open spec fn are_lines(l: Seq<Seq<char>>) -> bool {
    forall|i: int| 0 <= i < l.len() ==> (#[trigger] l[i]).len() > 0 && is_line(l[i])
}

proof fn lemma_close_is_line()
    ensures
        is_line(close_line()),
        close_line().len() > 0,
{
    reveal_strlit("Connection: close");
}

proof fn lemma_kept_are_lines(headers: Seq<Seq<char>>)
    requires
        are_lines(headers),
    ensures
        are_lines(kept_lines(headers)),
    decreases headers.len(),
{
    if headers.len() > 0 {
        let d = headers.drop_last();
        assert forall|i: int| 0 <= i < d.len() implies (#[trigger] d[i]).len() > 0 && is_line(d[i])
            by {
            assert(d[i] == headers[i]);
        }
        lemma_kept_are_lines(d);
        lemma_close_is_line();
        assert(headers.last() == headers[headers.len() - 1]);
    }
}

proof fn lemma_forwarded_are_lines(h: Head, t: Target)
    requires
        are_lines(h.headers),
        is_line(t.authority),
    ensures
        are_lines(forwarded_lines(h, t)),
        forwarded_lines(h, t).len() > 0,
{
    lemma_kept_are_lines(h.headers);
    lemma_close_is_line();
    reveal_strlit("Host: ");
    let s = "Host: "@ + t.authority;
    assert forall|j: int| 0 <= j && j + 1 < s.len() implies !(#[trigger] s[j] == '\r' && s[j + 1]
        == '\n') by {
        if j >= 6 {
            assert(s[j] == t.authority[j - 6] && s[j + 1] == t.authority[j - 5]);
        }
    }
    assert(is_line(s));
    lemma_kept_some(h.headers);
}

/// Where a Connection header came in, one goes out.
proof fn lemma_kept_some(headers: Seq<Seq<char>>)
    ensures
        has_header(headers, "connection"@) ==> kept_lines(headers).len() > 0,
    decreases headers.len(),
{
    reveal_strlit("connection");
    reveal_strlit("proxy-connection");
    reveal_strlit("proxy-authorization");
    reveal_strlit("proxy-authentication");
    reveal_strlit("keep-alive");
    if headers.len() > 0 {
        let d = headers.drop_last();
        lemma_kept_some(d);
        lemma_has_header_push(d, headers.last(), "connection"@);
        assert(d.push(headers.last()) =~= headers);
        assert(!is_for_proxy("connection"@)) by {
            assert("connection"@[0] == 'c');
            assert("keep-alive"@[0] == 'k');
        }
    }
}

/// A rewritten head reads back as the request in origin form with the forwarded
/// header lines.
pub proof fn law_rewritten_head_reads_back(h: Head, t: Target)
    requires
        is_word(h.method),
        is_word(t.origin_form),
        is_word(h.version),
        are_lines(h.headers),
        is_line(t.authority),
    ensures
        head_of_text(rewritten(h, t)) == Ok::<_, Seq<char>>(
            Head {
                method: h.method,
                target: t.origin_form,
                version: h.version,
                headers: forwarded_lines(h, t),
            },
        ),
{
    reveal_strlit("\r\n");
    let first = h.method + " "@ + t.origin_form + " "@ + h.version;
    let f = forwarded_lines(h, t);
    let all = seq![first] + f;
    lemma_three_words(h.method, t.origin_form, h.version);
    lemma_forwarded_are_lines(h, t);
    lemma_rewritten_broken(h, t);
    lemma_broken_joined(all);
    let s = rewritten(h, t);
    let j = joined(all);
    let crlf = "\r\n"@;
    assert(s == j + crlf + crlf);
    assert(all.last() == f.last());
    assert(f.last() == f[f.len() - 1]);
    lemma_joined_last(all);
    assert(s.skip(s.len() - 2) =~= crlf);
    assert(s.take(s.len() - 2) =~= j + crlf);
    assert((j + crlf).skip((j + crlf).len() - 2) =~= crlf);
    assert((j + crlf).take((j + crlf).len() - 2) =~= j);
    assert(strip_all(s, crlf) == j) by {
        reveal_with_fuel(strip_all, 3);
    }
    assert forall|i: int| 0 <= i < all.len() implies is_line(#[trigger] all[i]) by {
        if i > 0 {
            assert(all[i] == f[i - 1]);
        }
    }
    lemma_lines_joined(all);
    assert(all.skip(1) =~= f);
}

/// A rewritten head ends with a blank line.
pub proof fn law_rewritten_head_ends(h: Head, t: Target)
    ensures
        ends_with(rewritten(h, t), "\r\n\r\n"@),
{
    reveal_strlit("\r\n");
    reveal_strlit("\r\n\r\n");
    let first = h.method + " "@ + t.origin_form + " "@ + h.version;
    let all = seq![first] + forwarded_lines(h, t);
    lemma_rewritten_broken(h, t);
    lemma_broken_joined(all);
    let s = rewritten(h, t);
    assert(s.skip(s.len() - 4) =~= "\r\n\r\n"@);
}

/// How many lines have a header name.
pub open spec fn named(l: Seq<Seq<char>>, name: Seq<char>) -> nat
    decreases l.len(),
{
    if l.len() == 0 {
        0
    } else {
        named(l.drop_last(), name) + if header_name(l.last()) == name {
            1nat
        } else {
            0nat
        }
    }
}

proof fn lemma_named_push(l: Seq<Seq<char>>, s: Seq<char>, name: Seq<char>)
    ensures
        named(l.push(s), name) == named(l, name) + if header_name(s) == name {
            1nat
        } else {
            0nat
        },
{
    assert(l.push(s).drop_last() =~= l);
}

proof fn lemma_close_name()
    ensures
        header_name(close_line()) == "connection"@,
{
    reveal_strlit("Connection: close");
    reveal_strlit("connection");
    let s = close_line();
    lemma_find_from_is(s, ':', 0, 10);
    lemma_split_first(s, ':');
    let k = s.take(10);
    assert(trim_start_ws(k) == k);
    assert(trim_end_ws(k) == k);
    assert(lower(k) =~= "connection"@);
}

proof fn lemma_host_name(authority: Seq<char>)
    ensures
        header_name("Host: "@ + authority) == "host"@,
{
    reveal_strlit("Host: ");
    reveal_strlit("host");
    let s = "Host: "@ + authority;
    assert(s[4] == ':');
    lemma_find_from_is(s, ':', 0, 4);
    lemma_split_first(s, ':');
    let k = s.take(4);
    assert(trim_start_ws(k) == k);
    assert(trim_end_ws(k) == k);
    assert(lower(k) =~= "host"@);
}

proof fn lemma_names_differ()
    ensures
        !is_for_proxy("connection"@),
        !is_for_proxy("host"@),
        "connection"@ != "host"@,
{
    reveal_strlit("connection");
    reveal_strlit("host");
    reveal_strlit("proxy-connection");
    reveal_strlit("proxy-authorization");
    reveal_strlit("proxy-authentication");
    reveal_strlit("keep-alive");
    assert("connection"@[0] == 'c');
    assert("keep-alive"@[0] == 'k');
    assert("host"@.len() == 4);
}

proof fn lemma_kept_names(headers: Seq<Seq<char>>)
    ensures
        named(kept_lines(headers), "connection"@) == if has_header(headers, "connection"@) {
            1nat
        } else {
            0nat
        },
        forall|i: int|
            0 <= i < kept_lines(headers).len() ==> !is_for_proxy(
                header_name(#[trigger] kept_lines(headers)[i]),
            ),
        named(kept_lines(headers), "host"@) == named(headers, "host"@),
    decreases headers.len(),
{
    lemma_names_differ();
    lemma_close_name();
    if headers.len() > 0 {
        let d = headers.drop_last();
        let h = headers.last();
        lemma_kept_names(d);
        lemma_has_header_push(d, h, "connection"@);
        assert(d.push(h) =~= headers);
        let before = kept_lines(d);
        lemma_named_push(before, h, "connection"@);
        lemma_named_push(before, close_line(), "connection"@);
        lemma_named_push(before, h, "host"@);
        lemma_named_push(before, close_line(), "host"@);
    }
}

proof fn lemma_named_has(headers: Seq<Seq<char>>, name: Seq<char>)
    ensures
        has_header(headers, name) <==> named(headers, name) > 0,
    decreases headers.len(),
{
    if headers.len() > 0 {
        let d = headers.drop_last();
        lemma_named_has(d, name);
        lemma_has_header_push(d, headers.last(), name);
        assert(d.push(headers.last()) =~= headers);
    }
}

/// A forwarded request has exactly one Connection header, which asks for the
/// connection to be closed, none of the headers for the proxy, and a Host header.
pub proof fn law_forwarded_headers(h: Head, t: Target)
    ensures
        named(forwarded_lines(h, t), "connection"@) == 1,
        forwarded_lines(h, t).contains(close_line()),
        forall|i: int|
            0 <= i < forwarded_lines(h, t).len() ==> !is_for_proxy(
                header_name(#[trigger] forwarded_lines(h, t)[i]),
            ),
        named(forwarded_lines(h, t), "host"@) == if has_header(h.headers, "host"@) {
            named(h.headers, "host"@)
        } else {
            1
        },
        has_header(forwarded_lines(h, t), "host"@),
{
    lemma_names_differ();
    lemma_close_name();
    lemma_host_name(t.authority);
    lemma_kept_names(h.headers);
    lemma_named_has(h.headers, "host"@);
    lemma_kept_close(h.headers);
    let kept = kept_lines(h.headers);
    let hosted = "Host: "@ + t.authority;
    lemma_named_push(kept, close_line(), "connection"@);
    lemma_named_push(kept, close_line(), "host"@);
    lemma_named_push(kept, hosted, "connection"@);
    lemma_named_push(kept, hosted, "host"@);
    lemma_named_push(kept.push(close_line()), hosted, "connection"@);
    lemma_named_push(kept.push(close_line()), hosted, "host"@);
    let f = forwarded_lines(h, t);
    lemma_named_has(f, "host"@);
    if has_header(h.headers, "connection"@) {
        let i = choose|i: int| 0 <= i < kept.len() && kept[i] == close_line();
        assert(f[i] == close_line());
    } else {
        assert(f[kept.len() as int] == close_line());
    }
}

proof fn lemma_kept_close(headers: Seq<Seq<char>>)
    ensures
        has_header(headers, "connection"@) ==> kept_lines(headers).contains(close_line()),
    decreases headers.len(),
{
    lemma_names_differ();
    if headers.len() > 0 {
        let d = headers.drop_last();
        let h = headers.last();
        lemma_kept_close(d);
        lemma_has_header_push(d, h, "connection"@);
        assert(d.push(h) =~= headers);
        let before = kept_lines(d);
        let after = kept_lines(headers);
        if has_header(d, "connection"@) {
            let i = choose|i: int| 0 <= i < before.len() && before[i] == close_line();
            assert(after[i] == close_line());
        } else if header_name(h) == "connection"@ {
            assert(after[before.len() as int] == close_line());
        }
    }
}

proof fn lemma_lines_are_lines(s: Seq<char>)
    ensures
        forall|i: int| 0 <= i < lines(s).len() ==> is_line(#[trigger] lines(s)[i]),
    decreases s.len(),
{
    lemma_line_break(s, 0);
    match line_break(s, 0) {
        Some(n) => {
            let rest = s.skip(n + 2);
            lemma_lines_are_lines(rest);
            let first = s.take(n);
            assert forall|j: int| 0 <= j && j + 1 < first.len() implies !(#[trigger] first[j] == '\r'
                && first[j + 1] == '\n') by {
                assert(first[j] == s[j] && first[j + 1] == s[j + 1]);
            }
            assert forall|i: int| 0 <= i < lines(s).len() implies is_line(#[trigger] lines(s)[i]) by {
                if i > 0 {
                    assert(lines(s)[i] == lines(rest)[i - 1]);
                }
            }
        },
        None => {},
    }
}

proof fn lemma_pieces(s: Seq<char>, c: char)
    requires
        is_line(s),
    ensures
        forall|i: int|
            0 <= i < split(s, c).len() ==> is_line(#[trigger] split(s, c)[i]) && !split(
                s,
                c,
            )[i].contains(c),
    decreases s.len(),
{
    lemma_split_first(s, c);
    lemma_find_from(s, c, 0);
    let p = split(s, c);
    match find(s, c) {
        Some(n) => {
            let first = s.take(n);
            let rest = s.skip(n + 1);
            assert forall|j: int| 0 <= j && j + 1 < first.len() implies !(#[trigger] first[j] == '\r'
                && first[j + 1] == '\n') by {
                assert(first[j] == s[j] && first[j + 1] == s[j + 1]);
            }
            assert forall|j: int| 0 <= j && j + 1 < rest.len() implies !(#[trigger] rest[j] == '\r'
                && rest[j + 1] == '\n') by {
                assert(rest[j] == s[n + 1 + j] && rest[j + 1] == s[n + 2 + j]);
            }
            lemma_pieces(rest, c);
            assert(!first.contains(c));
            assert forall|i: int| 0 <= i < p.len() implies is_line(#[trigger] p[i])
                && !p[i].contains(c) by {
                if i > 0 {
                    assert(p.skip(1)[i - 1] == p[i]);
                    assert(split(rest, c)[i - 1] == p[i]);
                }
            }
        },
        None => {
            assert(p[0] == s);
            assert(!s.contains(c));
        },
    }
}

proof fn lemma_non_empty_words(p: Seq<Seq<char>>)
    requires
        forall|i: int| 0 <= i < p.len() ==> is_line(#[trigger] p[i]) && !p[i].contains(' '),
    ensures
        forall|i: int| 0 <= i < non_empty(p).len() ==> is_word(#[trigger] non_empty(p)[i]),
    decreases p.len(),
{
    if p.len() > 0 {
        let d = p.drop_last();
        assert forall|i: int| 0 <= i < d.len() implies is_line(#[trigger] d[i])
            && !d[i].contains(' ') by {
            assert(d[i] == p[i]);
        }
        lemma_non_empty_words(d);
        assert(p.last() == p[p.len() - 1]);
        let w = non_empty(p);
        assert forall|i: int| 0 <= i < w.len() implies is_word(#[trigger] w[i]) by {
            if i < non_empty(d).len() {
                assert(w[i] == non_empty(d)[i]);
            }
        }
    }
}

/// The method, target and version of a head that was read are words, and its
/// header lines hold no line break.
pub proof fn law_read_heads_are_words(text: Seq<char>)
    requires
        head_of_text(text) is Ok,
    ensures
        head_of_text(text) matches Ok(h) && is_word(h.method) && is_word(h.target) && is_word(
            h.version,
        ) && forall|i: int| 0 <= i < h.headers.len() ==> is_line(#[trigger] h.headers[i]),
{
    let s = strip_all(text, "\r\n"@);
    let all = lines(s);
    lemma_lines_are_lines(s);
    let line = all[0];
    lemma_lines_some(s);
    assert(is_line(line));
    lemma_pieces(line, ' ');
    lemma_non_empty_words(split(line, ' '));
    let w = words(line);
    assert(is_word(w[0]) && is_word(w[1]) && is_word(w[2]));
    let h = all.skip(1);
    assert forall|i: int| 0 <= i < h.len() implies is_line(#[trigger] h[i]) by {
        assert(h[i] == all[i + 1]);
    }
}

proof fn lemma_blank_line(b: Seq<u8>, from: int)
    requires
        0 <= from,
    ensures
        match blank_line(b, from) {
            Some(i) => from <= i && i + 4 <= b.len() && blank_line_at(b, i) && forall|j: int|
                from <= j < i ==> !blank_line_at(b, j),
            None => forall|j: int| from <= j && j + 4 <= b.len() ==> !blank_line_at(b, j),
        },
    decreases b.len() - from,
{
    if from + 4 <= b.len() && !blank_line_at(b, from) {
        lemma_blank_line(b, from + 1);
    }
}

/// Nothing that was read is lost: a head that ends at the first blank line, and
/// what was read behind it, are together everything that was read.
pub proof fn law_heads_split_what_was_read(read: Seq<u8>)
    requires
        blank_line(read, 0) is Some,
    ensures
        blank_line(read, 0) matches Some(i) && read.take(i + 4) + read.skip(i + 4) == read
            && blank_line_at(read.take(i + 4), i) && forall|j: int|
            0 <= j < i ==> !blank_line_at(read, j),
{
    lemma_blank_line(read, 0);
    let i = blank_line(read, 0).unwrap();
    assert(read.take(i + 4) + read.skip(i + 4) =~= read);
}

/// Reading on does not move the end of a head.
pub proof fn law_heads_end_once(read: Seq<u8>, more: Seq<u8>)
    requires
        blank_line(read, 0) is Some,
    ensures
        blank_line(read + more, 0) == blank_line(read, 0),
{
    lemma_blank_line(read, 0);
    lemma_blank_line(read + more, 0);
    let all = read + more;
    let i = blank_line(read, 0).unwrap();
    assert(blank_line_at(all, i));
    assert forall|j: int| 0 <= j < i implies !blank_line_at(all, j) by {
        assert(!blank_line_at(read, j));
        assert(all[j] == read[j] && all[j + 1] == read[j + 1] && all[j + 2] == read[j + 2] && all[j
            + 3] == read[j + 3]);
    }
}

// ── Heads ─────────────────────────────────────────────────────────────────────

/// The first blank line ends a head: what is found is where it starts, and nothing is
/// found where there is none.
pub proof fn law_heads_end_at_the_first_blank_line(buf: &[u8], r: Option<usize>)
    requires
        call_ensures(find_head_end, (buf,), r),
    ensures
        match r {
            Some(i) => {
                &&& i + 4 <= buf@.len()
                &&& buf@.subrange(i as int, i + 4) == seq![13u8, 10u8, 13u8, 10u8]
                &&& forall|j: int|
                    0 <= j < i ==> #[trigger] buf@.subrange(j, j + 4) != seq![13u8, 10u8, 13u8, 10u8]
            },
            None => forall|j: int|
                0 <= j && j + 4 <= buf@.len() ==> #[trigger] buf@.subrange(j, j + 4) != seq![
                    13u8,
                    10u8,
                    13u8,
                    10u8,
                ],
        },
{
    let b = buf@;
    let blank = seq![13u8, 10u8, 13u8, 10u8];
    lemma_blank_line(b, 0);
    assert forall|j: int| 0 <= j && j + 4 <= b.len() && #[trigger] b.subrange(j, j + 4)
        == blank implies blank_line_at(b, j) by {
        let t = b.subrange(j, j + 4);
        assert(t[0] == 13 && t[1] == 10 && t[2] == 13 && t[3] == 10);
    }
    if let Some(i) = r {
        assert(b.subrange(i as int, i + 4) =~= blank);
        assert forall|j: int| 0 <= j < i implies #[trigger] b.subrange(j, j + 4) != blank by {
            assert(!blank_line_at(b, j));
        }
    }
}

/// A request line of three words and header lines, each with a line break behind it,
/// and a blank line, read as just these.
pub proof fn law_requests_are_read(
    head: Vec<u8>,
    method: Seq<char>,
    target: Seq<char>,
    version: Seq<char>,
    headers: Seq<Seq<char>>,
    r: Result<Request, NetError>,
)
    requires
        call_ensures(parse_request, (head,), r),
        is_word(method),
        is_word(target),
        is_word(version),
        are_lines(headers),
        head@ == encode_utf8(
            broken(seq![method + " "@ + target + " "@ + version] + headers) + "\r\n"@,
        ),
    ensures
        r matches Ok(q) && q.method@ == method && q.target@ == target && q.version@ == version
            && texts(q.headers@) == headers,
{
    reveal_strlit("\r\n");
    reveal_strlit(" ");
    let first = method + " "@ + target + " "@ + version;
    let all = seq![first] + headers;
    let crlf = "\r\n"@;
    let s = broken(all) + crlf;
    encode_utf8_valid_utf8(s);
    encode_utf8_decode_utf8(s);
    lemma_three_words(method, target, version);
    lemma_broken_joined(all);
    let j = joined(all);
    assert(s == j + crlf + crlf);
    assert(all.last().len() > 0 && is_line(all.last())) by {
        if headers.len() > 0 {
            assert(all.last() == headers[headers.len() - 1]);
        }
    }
    lemma_joined_last(all);
    assert(s.skip(s.len() - 2) =~= crlf);
    assert(s.take(s.len() - 2) =~= j + crlf);
    assert((j + crlf).skip((j + crlf).len() - 2) =~= crlf);
    assert((j + crlf).take((j + crlf).len() - 2) =~= j);
    assert(strip_all(s, crlf) == j) by {
        reveal_with_fuel(strip_all, 3);
    }
    assert forall|i: int| 0 <= i < all.len() implies is_line(#[trigger] all[i]) by {
        if i > 0 {
            assert(all[i] == headers[i - 1]);
        }
    }
    lemma_lines_joined(all);
    assert(all.skip(1) =~= headers);
}

/// Bytes that are no text are no request.
pub proof fn law_other_heads_are_refused(head: Vec<u8>, r: Result<Request, NetError>)
    requires
        call_ensures(parse_request, (head,), r),
        !valid_utf8(head@),
    ensures
        r matches Err(e) && e.kind == ErrorKind::InvalidData && e.message@
            == "non-UTF8 request head"@,
{
}

proof fn lemma_all_words(p: Seq<Seq<char>>)
    requires
        forall|i: int| 0 <= i < p.len() ==> is_word(#[trigger] p[i]),
    ensures
        non_empty(p) == p,
    decreases p.len(),
{
    if p.len() > 0 {
        let d = p.drop_last();
        assert forall|i: int| 0 <= i < d.len() implies is_word(#[trigger] d[i]) by {
            assert(d[i] == p[i]);
        }
        lemma_all_words(d);
        assert(is_word(p[p.len() - 1]));
        assert(d.push(p.last()) =~= p);
    } else {
        assert(p =~= Seq::<Seq<char>>::empty());
    }
}

/// A request line of other than three words is refused.
pub proof fn law_request_lines_have_three_words(
    head: Vec<u8>,
    line: Seq<Seq<char>>,
    r: Result<Request, NetError>,
)
    requires
        call_ensures(parse_request, (head,), r),
        line.len() > 0,
        line.len() != 3,
        forall|i: int| 0 <= i < line.len() ==> is_word(#[trigger] line[i]),
        is_line(join(line, ' ')),
        head@ == encode_utf8(join(line, ' ') + "\r\n"@ + "\r\n"@),
    ensures
        r matches Err(e) && e.kind == ErrorKind::InvalidData,
{
    reveal_strlit("\r\n");
    let j = join(line, ' ');
    let crlf = "\r\n"@;
    let s = j + crlf + crlf;
    encode_utf8_valid_utf8(s);
    encode_utf8_decode_utf8(s);
    crate::text::lemma_join_no_double(line, ' ');
    assert(seq![j].last() == j);
    lemma_joined_last(seq![j]);
    assert(joined(seq![j]) == j);
    assert(s.skip(s.len() - 2) =~= crlf);
    assert(s.take(s.len() - 2) =~= j + crlf);
    assert((j + crlf).skip((j + crlf).len() - 2) =~= crlf);
    assert((j + crlf).take((j + crlf).len() - 2) =~= j);
    assert(strip_all(s, crlf) == j) by {
        reveal_with_fuel(strip_all, 3);
    }
    lemma_lines_joined(seq![j]);
    lemma_split_join(line, ' ');
    lemma_all_words(line);
}

/// What was read of a head stands in it: its three words are not empty and hold no
/// space, and no header holds a line break.
pub proof fn law_what_is_read_are_words(head: Vec<u8>, r: Result<Request, NetError>)
    requires
        call_ensures(parse_request, (head,), r),
        r is Ok,
    ensures
        valid_utf8(head@),
        is_word(r->Ok_0.method@) && is_word(r->Ok_0.target@) && is_word(r->Ok_0.version@),
        forall|i: int|
            0 <= i < r->Ok_0.headers@.len() ==> is_line((#[trigger] r->Ok_0.headers@[i])@),
{
    let text = decode_utf8(head@);
    law_read_heads_are_words(text);
    let h = head_of_text(text)->Ok_0.headers;
    assert(texts(r->Ok_0.headers@) == h);
    assert forall|i: int| 0 <= i < r->Ok_0.headers@.len() implies is_line(
        (#[trigger] r->Ok_0.headers@[i])@,
    ) by {
        assert(is_line(h[i]));
    }
}

// ── Authorities ───────────────────────────────────────────────────────────────

proof fn lemma_no_last(s: Seq<char>, c: char)
    requires
        !s.contains(c),
    ensures
        rfind(s, c) is None,
{
    lemma_rfind_to(s, c, s.len() as int);
}

/// How an authority in one of its forms is taken apart.
proof fn lemma_authority(host: Seq<char>, port: Option<nat>, bracketed: bool, default_port: nat)
    requires
        port matches Some(p) ==> p <= 65535,
        bracketed ==> !host.contains(']'),
        !bracketed ==> host.len() == 0 || host[0] != '[',
        !bracketed && port is None ==> !host.contains(':'),
    ensures
        authority_parts(authority_of(host, port, bracketed), default_port) == Some(
            (
                host,
                match port {
                    Some(p) => p,
                    None => default_port,
                },
            ),
        ),
{
    reveal_strlit("[");
    reveal_strlit("]");
    reveal_strlit(":");
    let a = authority_of(host, port, bracketed);
    if let Some(p) = port {
        lemma_dec_round_trip(p, 65535);
        lemma_dec_text(p);
    }
    if bracketed {
        let rest = a.skip(1);
        let n = host.len() as int;
        assert(rest[n] == ']');
        assert forall|k: int| 0 <= k < n implies rest[k] != ']' by {
            assert(rest[k] == host[k]);
            assert(host.contains(host[k]));
        }
        lemma_find_from_is(rest, ']', 0, n);
        assert(rest.take(n) =~= host);
        let after = rest.skip(n + 1);
        if let Some(p) = port {
            assert(after[0] == ':');
            assert(after.skip(1) =~= dec_text(p));
        } else {
            assert(after.len() == 0);
        }
    } else if let Some(p) = port {
        let d = dec_text(p);
        let n = host.len() as int;
        assert(a[n] == ':');
        assert forall|k: int| n < k < a.len() implies a[k] != ':' by {
            assert(a[k] == d[k - n - 1]);
            assert(is_digit(d[k - n - 1]));
        }
        lemma_rfind_at(a, ':', n);
        assert(a.take(n) =~= host);
        assert(a.skip(n + 1) =~= d);
    } else {
        assert(a =~= host);
        lemma_no_last(a, ':');
    }
}

/// An authority: a host, in brackets or not, and its port, where it has one.
pub open spec fn authority_of(host: Seq<char>, port: Option<nat>, bracketed: bool) -> Seq<char> {
    (if bracketed {
        "["@ + host + "]"@
    } else {
        host
    }) + (match port {
        Some(p) => ":"@ + dec_text(p),
        None => Seq::empty(),
    })
}

/// Whether a host can stand in an authority so: one in brackets holds no closing one;
/// one without does not start with a bracket, and holds no colon where no port
/// follows.
pub open spec fn host_fits(host: Seq<char>, port: Option<nat>, bracketed: bool) -> bool {
    &&& port matches Some(p) ==> p <= 65535
    &&& bracketed ==> !host.contains(']')
    &&& !bracketed ==> host.len() == 0 || host[0] != '['
    &&& !bracketed && port is None ==> !host.contains(':')
}

/// An authority is taken apart into its host, without brackets, and its port, or the
/// default one where it has none.
pub proof fn law_authorities_are_taken_apart(
    authority: &str,
    default_port: u16,
    host: Seq<char>,
    port: Option<nat>,
    bracketed: bool,
    r: Option<(String, u16)>,
)
    requires
        call_ensures(split_authority, (authority, default_port), r),
        host_fits(host, port, bracketed),
        authority@ == authority_of(host, port, bracketed),
    ensures
        r matches Some(v) && v.0@ == host && v.1 == match port {
            Some(p) => p,
            None => default_port as nat,
        },
{
    lemma_authority(host, port, bracketed, default_port as nat);
}

/// A port of more than sixteen bits is refused.
pub proof fn law_ports_out_of_range_are_refused(
    authority: &str,
    default_port: u16,
    host: Seq<char>,
    port: nat,
    bracketed: bool,
    r: Option<(String, u16)>,
)
    requires
        call_ensures(split_authority, (authority, default_port), r),
        bracketed ==> !host.contains(']'),
        !bracketed ==> host.len() == 0 || host[0] != '[',
        port > 65535,
        authority@ == authority_of(host, Some(port), bracketed),
    ensures
        r is None,
{
    reveal_strlit("[");
    reveal_strlit("]");
    reveal_strlit(":");
    let a = authority@;
    let d = dec_text(port);
    lemma_dec_text(port);
    assert(is_digit(d[0]));
    let n = host.len() as int;
    if bracketed {
        let rest = a.skip(1);
        assert(rest[n] == ']');
        assert forall|k: int| 0 <= k < n implies rest[k] != ']' by {
            assert(rest[k] == host[k]);
            assert(host.contains(host[k]));
        }
        lemma_find_from_is(rest, ']', 0, n);
        let after = rest.skip(n + 1);
        assert(after[0] == ':');
        assert(after.skip(1) =~= d);
    } else {
        assert(a[n] == ':');
        assert forall|k: int| n < k < a.len() implies a[k] != ':' by {
            assert(a[k] == d[k - n - 1]);
            assert(is_digit(d[k - n - 1]));
        }
        lemma_rfind_at(a, ':', n);
        assert(a.skip(n + 1) =~= d);
    }
}

// ── Where a request goes ──────────────────────────────────────────────────────

/// A request for an absolute URI goes to exactly the host and port that the URI names,
/// port 80 where it names none, for exactly the path behind them, whatever that holds,
/// or the root where there is none.
pub proof fn law_absolute_requests_go_to_their_host(
    req: &Request,
    host: Seq<char>,
    port: Option<nat>,
    bracketed: bool,
    path: Seq<char>,
    r: Result<ForwardTarget, NetError>,
)
    requires
        call_ensures(forward_target, (req,), r),
        host_fits(host, port, bracketed),
        !host.contains('/'),
        path.len() == 0 || path[0] == '/',
        req.target@ == "http://"@ + authority_of(host, port, bracketed) + path,
    ensures
        r matches Ok(f) && f.host@ == host && f.port == (match port {
            Some(p) => p,
            None => 80,
        }) && f.origin_form@ == (if path.len() == 0 {
            "/"@
        } else {
            path
        }) && f.authority@ == authority_of(host, port, bracketed),
{
    reveal_strlit("http://");
    reveal_strlit("[");
    reveal_strlit("]");
    reveal_strlit(":");
    let a = authority_of(host, port, bracketed);
    let t = req.target@;
    assert(t.take(7) =~= "http://"@);
    let rest = t.skip(7);
    assert(rest =~= a + path);
    assert forall|k: int| 0 <= k < a.len() implies a[k] != '/' by {
        if a[k] == '/' {
            let m = host.len() + if bracketed {
                2int
            } else {
                0int
            };
            if k < m {
                if bracketed {
                    if 0 < k < m - 1 {
                        assert(a[k] == host[k - 1]);
                        assert(host.contains(a[k]));
                    }
                } else {
                    assert(a[k] == host[k]);
                    assert(host.contains(a[k]));
                }
            } else {
                let p = port.unwrap();
                lemma_dec_text(p);
                if k > m {
                    assert(a[k] == dec_text(p)[k - m - 1]);
                    assert(is_digit(dec_text(p)[k - m - 1]));
                }
            }
        }
    }
    let n = a.len() as int;
    if path.len() > 0 {
        assert(rest[n] == '/');
        assert forall|k: int| 0 <= k < n implies rest[k] != '/' by {
            assert(rest[k] == a[k]);
        }
        lemma_find_from_is(rest, '/', 0, n);
        assert(rest.take(n) =~= a);
        assert(rest.skip(n) =~= path);
    } else {
        assert(rest =~= a);
        lemma_find_from(rest, '/', 0);
    }
    lemma_authority(host, port, bracketed, 80);
}

/// The name that a header line has: what stands in front of its first colon, without
/// white space around it, in lower case.
pub open spec fn line_name(h: Seq<char>) -> Seq<char> {
    match find(h, ':') {
        Some(i) => lower(trim(h.take(i))),
        None => lower(trim(h)),
    }
}

/// The value of a header that is found is that of the first line of its name, in
/// either case: what stands behind its first colon, without white space around it.
pub proof fn law_headers_are_found(
    headers: &Vec<String>,
    name: &str,
    i: int,
    r: Option<String>,
)
    requires
        call_ensures(find_header, (headers, name), r),
        0 <= i < headers@.len(),
        headers@[i]@.contains(':'),
        line_name(headers@[i]@) == lower(name@),
        forall|j: int|
            0 <= j < i ==> !(#[trigger] headers@[j])@.contains(':') || line_name(headers@[j]@)
                != lower(name@),
    ensures
        r matches Some(v) && exists|c: int|
            0 <= c < headers@[i]@.len() && headers@[i]@[c] == ':' && !headers@[i]@.take(
                c,
            ).contains(':') && v@ == trim(#[trigger] headers@[i]@.skip(c + 1)),
{
    let all = texts(headers@);
    lemma_header_value(all, name@, 0, i);
    let h = headers@[i]@;
    lemma_find_from(h, ':', 0);
    let c = find(h, ':').unwrap();
    assert(all[i] == h);
    assert(h.skip(c + 1).len() == h.len() - c - 1);
}

proof fn lemma_header_value(all: Seq<Seq<char>>, name: Seq<char>, from: int, i: int)
    requires
        0 <= from <= i < all.len(),
        all[i].contains(':'),
        line_name(all[i]) == lower(name),
        forall|j: int|
            from <= j < i ==> !(#[trigger] all[j]).contains(':') || line_name(all[j]) != lower(name),
    ensures
        header_value(all, name, from) == Some(trim(all[i].skip(find(all[i], ':').unwrap() + 1))),
    decreases i - from,
{
    lemma_find_from(all[from], ':', 0);
    if from < i {
        lemma_header_value(all, name, from + 1, i);
    }
}

/// A header that no line has is not found.
pub proof fn law_missing_headers_are_not_found(headers: &Vec<String>, name: &str, r: Option<String>)
    requires
        call_ensures(find_header, (headers, name), r),
        forall|j: int|
            0 <= j < headers@.len() ==> !(#[trigger] headers@[j])@.contains(':') || line_name(
                headers@[j]@,
            ) != lower(name@),
    ensures
        r is None,
{
    let all = texts(headers@);
    assert forall|j: int| 0 <= j < all.len() implies !(#[trigger] all[j]).contains(':')
        || line_name(all[j]) != lower(name@) by {
        assert(all[j] == headers@[j]@);
    }
    lemma_no_header_value(all, name@, 0);
}

proof fn lemma_no_header_value(all: Seq<Seq<char>>, name: Seq<char>, from: int)
    requires
        0 <= from,
        forall|j: int|
            from <= j < all.len() ==> !(#[trigger] all[j]).contains(':') || line_name(all[j])
                != lower(name),
    ensures
        header_value(all, name, from) is None,
    decreases all.len() - from,
{
    if from < all.len() {
        lemma_find_from(all[from], ':', 0);
        lemma_no_header_value(all, name, from + 1);
    }
}

/// A request for a path goes to the host and port that its Host header names, port 80
/// where that names none, for exactly that path.
pub proof fn law_requests_for_paths_go_to_their_host(
    req: &Request,
    name: &str,
    value: Option<String>,
    host: Seq<char>,
    port: Option<nat>,
    bracketed: bool,
    r: Result<ForwardTarget, NetError>,
)
    requires
        call_ensures(forward_target, (req,), r),
        name@ == "Host"@,
        call_ensures(find_header, (&req.headers, name), value),
        req.target@.len() > 0,
        req.target@[0] == '/',
        host_fits(host, port, bracketed),
        value matches Some(v) ==> v@ == authority_of(host, port, bracketed),
    ensures
        value is None ==> (r matches Err(e) && e.kind == ErrorKind::InvalidData),
        value is Some ==> (r matches Ok(f) && f.host@ == host && f.port == (match port {
            Some(p) => p,
            None => 80,
        }) && f.origin_form@ == req.target@ && f.authority@ == authority_of(
            host,
            port,
            bracketed,
        )),
{
    reveal_strlit("http://");
    lemma_authority(host, port, bracketed, 80);
    assert(!crate::text::starts_with(req.target@, "http://"@)) by {
        if crate::text::starts_with(req.target@, "http://"@) {
            assert(req.target@.take(7)[0] == 'h');
        }
    }
}

/// A request for anything else is refused.
pub proof fn law_other_targets_are_refused(req: &Request, r: Result<ForwardTarget, NetError>)
    requires
        call_ensures(forward_target, (req,), r),
        req.target@.len() < 7 || req.target@.take(7) != "http://"@,
        req.target@.len() == 0 || req.target@[0] != '/',
    ensures
        r matches Err(e) && e.kind == ErrorKind::InvalidData,
{
    reveal_strlit("http://");
}

// ── Forwarded heads ───────────────────────────────────────────────────────────

proof fn lemma_line_name(h: Seq<char>)
    ensures
        header_name(h) == line_name(h),
{
    lemma_split_first(h, ':');
}

/// Whether a header line is for the proxy only.
pub open spec fn for_proxy(h: Seq<char>) -> bool {
    ||| line_name(h) == "proxy-connection"@
    ||| line_name(h) == "proxy-authorization"@
    ||| line_name(h) == "proxy-authentication"@
    ||| line_name(h) == "keep-alive"@
}

/// Whether a header line is neither for the proxy, nor of the connection, nor names
/// the host.
pub open spec fn is_ordinary(h: Seq<char>) -> bool {
    !for_proxy(h) && line_name(h) != "connection"@ && line_name(h) != "host"@
}

/// The lines that are ordinary, in order.
pub open spec fn ordinary(l: Seq<Seq<char>>) -> Seq<Seq<char>>
    decreases l.len(),
{
    if l.len() == 0 {
        Seq::empty()
    } else if is_ordinary(l.last()) {
        ordinary(l.drop_last()).push(l.last())
    } else {
        ordinary(l.drop_last())
    }
}

/// The lines that have a name, in order.
pub open spec fn of_name(l: Seq<Seq<char>>, name: Seq<char>) -> Seq<Seq<char>>
    decreases l.len(),
{
    if l.len() == 0 {
        Seq::empty()
    } else if line_name(l.last()) == name {
        of_name(l.drop_last(), name).push(l.last())
    } else {
        of_name(l.drop_last(), name)
    }
}

proof fn lemma_push_kinds(l: Seq<Seq<char>>, s: Seq<char>, name: Seq<char>)
    ensures
        ordinary(l.push(s)) == if is_ordinary(s) {
            ordinary(l).push(s)
        } else {
            ordinary(l)
        },
        of_name(l.push(s), name) == if line_name(s) == name {
            of_name(l, name).push(s)
        } else {
            of_name(l, name)
        },
{
    assert(l.push(s).drop_last() =~= l);
}

proof fn lemma_kept_kinds(headers: Seq<Seq<char>>)
    ensures
        ordinary(kept_lines(headers)) == ordinary(headers),
        of_name(kept_lines(headers), "host"@) == of_name(headers, "host"@),
        of_name(kept_lines(headers), "connection"@) == if has_header(headers, "connection"@) {
            seq![close_line()]
        } else {
            Seq::empty()
        },
        has_header(headers, "host"@) <==> of_name(headers, "host"@).len() > 0,
        forall|i: int| 0 <= i < kept_lines(headers).len() ==> !for_proxy(#[trigger] kept_lines(headers)[i]),
    decreases headers.len(),
{
    lemma_names_differ();
    lemma_close_name();
    lemma_line_name(close_line());
    if headers.len() > 0 {
        let d = headers.drop_last();
        let h = headers.last();
        lemma_kept_kinds(d);
        lemma_line_name(h);
        lemma_has_header_push(d, h, "connection"@);
        lemma_has_header_push(d, h, "host"@);
        assert(d.push(h) =~= headers);
        let before = kept_lines(d);
        lemma_push_kinds(before, h, "host"@);
        lemma_push_kinds(before, h, "connection"@);
        lemma_push_kinds(before, close_line(), "host"@);
        lemma_push_kinds(before, close_line(), "connection"@);
        assert(Seq::<Seq<char>>::empty().push(close_line()) =~= seq![close_line()]);
    }
}

/// A forwarded head reads as a request for the path, with the method, the version and,
/// in order, every ordinary header of the client's request; it has no header for the
/// proxy, one Connection header, which asks for the connection to be closed, and the
/// Host headers of the request, or one that names the target where it had none.
pub proof fn law_forwarded_requests(
    req: &Request,
    target: &ForwardTarget,
    text: String,
    head: Vec<u8>,
    r: Result<Request, NetError>,
)
    requires
        call_ensures(rewrite_head, (req, target), text),
        head@ == encode_utf8(text@),
        call_ensures(parse_request, (head,), r),
        is_word(req.method@),
        is_word(target.origin_form@),
        is_word(req.version@),
        are_lines(texts(req.headers@)),
        is_line(target.authority@),
    ensures
        r matches Ok(q) && {
            let (was, is) = (texts(req.headers@), texts(q.headers@));
            &&& q.method@ == req.method@
            &&& q.target@ == target.origin_form@
            &&& q.version@ == req.version@
            &&& ordinary(is) == ordinary(was)
            &&& of_name(is, "connection"@) == seq!["Connection: close"@]
            &&& of_name(is, "host"@) == if of_name(was, "host"@).len() > 0 {
                of_name(was, "host"@)
            } else {
                seq!["Host: "@ + target.authority@]
            }
            &&& forall|i: int| 0 <= i < is.len() ==> !for_proxy(#[trigger] is[i])
        },
{
    let h = req@;
    let t = target@;
    encode_utf8_valid_utf8(text@);
    encode_utf8_decode_utf8(text@);
    law_rewritten_head_reads_back(h, t);
    lemma_names_differ();
    lemma_close_name();
    lemma_host_name(t.authority);
    lemma_line_name(close_line());
    let hosted = "Host: "@ + t.authority;
    lemma_line_name(hosted);
    let kept = kept_lines(h.headers);
    lemma_kept_kinds(h.headers);
    lemma_push_kinds(kept, close_line(), "connection"@);
    lemma_push_kinds(kept, close_line(), "host"@);
    lemma_push_kinds(kept, hosted, "connection"@);
    lemma_push_kinds(kept, hosted, "host"@);
    lemma_push_kinds(kept.push(close_line()), hosted, "connection"@);
    lemma_push_kinds(kept.push(close_line()), hosted, "host"@);
    assert(Seq::<Seq<char>>::empty().push(close_line()) =~= seq![close_line()]);
    assert(Seq::<Seq<char>>::empty().push(hosted) =~= seq![hosted]);
}

/// A response without a body says its code and reason, that nothing follows, and that
/// the connection is closed.
pub proof fn law_simple_responses(code: u16, reason: &str, r: String)
    requires
        call_ensures(send_simple_response, (code, reason), r),
    ensures
        r@ == "HTTP/1.1 "@ + dec_text(code as nat) + " "@ + reason@
            + "\r\nContent-Length: 0\r\nConnection: close\r\n\r\n"@,
{
}

// ── Everything else that is asked for ─────────────────────────────────────────

/// A host in brackets has the port behind a colon, the default port where something else
/// or nothing is behind it, and no meaning where that is no port; without a closing
/// bracket there is no host. Any other host ends at the last colon, and has the port
/// behind it, or the default port where there is no colon.
pub proof fn law_authorities(
    authority: &str,
    default_port: u16,
    host: Seq<char>,
    after: Seq<char>,
    d: &[char],
    p: Option<u16>,
    r: Option<(String, u16)>,
)
    requires
        call_ensures(split_authority, (authority, default_port), r),
        call_ensures(parse_u16, (d,), p),
        !d@.contains(':'),
    ensures
        ({
            let a = authority@;
            &&& a == seq!['['] + host + seq![']'] + after && !host.contains(']') && (after.len()
                == 0 || after[0] != ':') ==> (r matches Some(v) && v.0@ == host && v.1
                == default_port)
            &&& a == seq!['['] + host + seq![']', ':'] + d@ && !host.contains(']') ==> {
                &&& r is Some <==> p is Some
                &&& r matches Some(v) ==> v.0@ == host && v.1 == p->0
            }
            &&& a.len() > 0 && a[0] == '[' && !a.contains(']') ==> r is None
            &&& a == host + seq![':'] + d@ && a[0] != '[' ==> {
                &&& r is Some <==> p is Some
                &&& r matches Some(v) ==> v.0@ == host && v.1 == p->0
            }
            &&& !a.contains(':') && (a.len() == 0 || a[0] != '[') ==> (r matches Some(v) && v.0@
                == a && v.1 == default_port)
        }),
{
    let a = authority@;
    let n = host.len() as int;
    if a == seq!['['] + host + seq![']'] + after && !host.contains(']') {
        lemma_closing_bracket(a, host, after);
    }
    if a == seq!['['] + host + seq![']', ':'] + d@ && !host.contains(']') {
        let more = seq![':'] + d@;
        assert(a =~= seq!['['] + host + seq![']'] + more);
        lemma_closing_bracket(a, host, more);
        assert(more.skip(1) =~= d@);
    }
    if a.len() > 0 && a[0] == '[' && !a.contains(']') {
        let rest = a.skip(1);
        if rest.contains(']') {
            let j = choose|j: int| 0 <= j < rest.len() && rest[j] == ']';
            assert(a[j + 1] == ']');
        }
        lemma_find_none(rest, ']');
    }
    if a == host + seq![':'] + d@ && a[0] != '[' {
        assert(a[n] == ':');
        assert forall|j: int| n < j < a.len() implies a[j] != ':' by {
            assert(a[j] == d@[j - n - 1]);
            assert(d@.contains(d@[j - n - 1]));
        }
        lemma_rfind_at(a, ':', n);
        assert(a.take(n) =~= host);
        assert(a.skip(n + 1) =~= d@);
    }
    if !a.contains(':') {
        lemma_rfind_to(a, ':', a.len() as int);
        if rfind(a, ':') is Some {
            assert(a.contains(a[rfind(a, ':')->0]));
        }
    }
}

proof fn lemma_closing_bracket(a: Seq<char>, host: Seq<char>, after: Seq<char>)
    requires
        a == seq!['['] + host + seq![']'] + after,
        !host.contains(']'),
    ensures
        a[0] == '[',
        find(a.skip(1), ']') == Some(host.len() as int),
        a.skip(1).take(host.len() as int) == host,
        a.skip(1).skip(host.len() as int + 1) == after,
{
    let rest = a.skip(1);
    let n = host.len() as int;
    assert(rest[n] == ']');
    assert forall|j: int| 0 <= j < n implies rest[j] != ']' by {
        assert(rest[j] == host[j]);
        assert(host.contains(host[j]));
    }
    lemma_find_from_is(rest, ']', 0, n);
    assert(rest.take(n) =~= host);
    assert(rest.skip(n + 1) =~= after);
}

/// Where a request goes is what its target or its Host header says, taken apart with the
/// default port 80; what is wrong with it is told.
pub proof fn law_requests_go_where_they_say(
    req: &Request,
    authority: &str,
    path: Seq<char>,
    name: &str,
    value: Option<String>,
    parts: Option<(String, u16)>,
    r: Result<ForwardTarget, NetError>,
)
    requires
        call_ensures(forward_target, (req,), r),
        name@ == seq!['H', 'o', 's', 't'],
        call_ensures(find_header, (&req.headers, name), value),
        call_ensures(split_authority, (authority, 80), parts),
    ensures
        ({
            let t = req.target@;
            let absolute = t == "http://"@ + authority@ + path && !authority@.contains('/') && (
            path.len() == 0 || path[0] == '/');
            let origin = t.len() > 0 && t[0] == '/';
            let named = origin && (value matches Some(v) && v@ == authority@);
            &&& absolute || named ==> {
                &&& r is Ok <==> parts is Some
                &&& r matches Ok(f) ==> (parts matches Some(p) && f.host@ == p.0@ && f.port == p.1
                    && f.authority@ == authority@)
            }
            &&& absolute ==> {
                &&& r matches Ok(f) ==> f.origin_form@ == if path.len() == 0 {
                    seq!['/']
                } else {
                    path
                }
                &&& r matches Err(e) ==> e.kind == ErrorKind::InvalidData && e.message@
                    == "bad absolute-URI authority"@
            }
            &&& named ==> {
                &&& r matches Ok(f) ==> f.origin_form@ == t
                &&& r matches Err(e) ==> e.kind == ErrorKind::InvalidData && e.message@
                    == "bad Host header"@
            }
            &&& origin && value is None ==> (r matches Err(e) && e.kind == ErrorKind::InvalidData
                && e.message@ == "origin-form request without Host"@)
            &&& !origin && (t.len() < 7 || t.take(7) != "http://"@) ==> (r matches Err(e) && e.kind
                == ErrorKind::InvalidData && e.message@ == "unsupported request target '"@ + t
                + "'"@)
        }),
{
    reveal_strlit("http://");
    reveal_strlit("/");
    reveal_strlit("Host");
    assert("Host"@ =~= name@);
    assert("/"@ =~= seq!['/']);
    let t = req.target@;
    if t.len() > 0 && t[0] == '/' {
        if crate::text::starts_with(t, "http://"@) {
            assert(t.take(7)[0] == 'h');
        }
    }
    if t == "http://"@ + authority@ + path && !authority@.contains('/') && (path.len() == 0
        || path[0] == '/') {
        let rest = authority@ + path;
        assert(t.take(7) =~= "http://"@);
        assert(t.skip(7) =~= rest);
        let n = authority@.len() as int;
        assert forall|j: int| 0 <= j < n implies rest[j] != '/' by {
            assert(rest[j] == authority@[j]);
            assert(authority@.contains(authority@[j]));
        }
        if path.len() > 0 {
            assert(rest[n] == '/');
            lemma_find_from_is(rest, '/', 0, n);
            assert(rest.take(n) =~= authority@);
            assert(rest.skip(n) =~= path);
        } else {
            assert(rest =~= authority@);
            lemma_find_none(rest, '/');
        }
    }
}

/// The pieces that are not empty.
pub open spec fn filled(p: Seq<Seq<char>>) -> Seq<Seq<char>> {
    p.filter(|s: Seq<char>| s.len() > 0)
}

proof fn lemma_filled(p: Seq<Seq<char>>)
    ensures
        non_empty(p) == filled(p),
    decreases p.len(),
{
    reveal(Seq::filter);
    if p.len() > 0 {
        lemma_filled(p.drop_last());
    } else {
        assert(non_empty(p) =~= filled(p));
    }
}

/// A request line is taken apart at its spaces, however many of them follow each other;
/// the three words that are left are its method, its target and its version, and the
/// lines behind it are the headers. A line of fewer or more words is refused, and it is
/// told what is missing.
pub proof fn law_request_lines(
    head: Vec<u8>,
    pieces: Seq<Seq<char>>,
    headers: Seq<Seq<char>>,
    r: Result<Request, NetError>,
)
    requires
        call_ensures(parse_request, (head,), r),
        pieces.len() > 0,
        forall|i: int| 0 <= i < pieces.len() ==> !(#[trigger] pieces[i]).contains(' '),
        is_line(join(pieces, ' ')),
        are_lines(headers),
        join(pieces, ' ').len() > 0 || headers.len() > 0,
        head@ == encode_utf8(broken(seq![join(pieces, ' ')] + headers) + "\r\n"@),
    ensures
        ({
            let w = filled(pieces);
            &&& w.len() == 3 ==> (r matches Ok(q) && q.method@ == w[0] && q.target@ == w[1]
                && q.version@ == w[2] && texts(q.headers@) == headers)
            &&& w.len() != 3 ==> (r matches Err(e) && e.kind == ErrorKind::InvalidData && e.message@
                == (if w.len() == 0 {
                "missing method"@
            } else if w.len() == 1 {
                "missing request target"@
            } else if w.len() == 2 {
                "missing HTTP version"@
            } else {
                "malformed request line"@
            }))
        }),
{
    reveal_strlit("\r\n");
    let first = join(pieces, ' ');
    let all = seq![first] + headers;
    let crlf = "\r\n"@;
    let s = broken(all) + crlf;
    encode_utf8_valid_utf8(s);
    encode_utf8_decode_utf8(s);
    lemma_broken_joined(all);
    let j = joined(all);
    assert(s == j + crlf + crlf);
    assert(all.last().len() > 0 && is_line(all.last())) by {
        if headers.len() > 0 {
            assert(all.last() == headers[headers.len() - 1]);
        }
    }
    lemma_joined_last(all);
    assert(s.skip(s.len() - 2) =~= crlf);
    assert(s.take(s.len() - 2) =~= j + crlf);
    assert((j + crlf).skip((j + crlf).len() - 2) =~= crlf);
    assert((j + crlf).take((j + crlf).len() - 2) =~= j);
    assert(strip_all(s, crlf) == j) by {
        reveal_with_fuel(strip_all, 3);
    }
    assert forall|i: int| 0 <= i < all.len() implies is_line(#[trigger] all[i]) by {
        if i > 0 {
            assert(all[i] == headers[i - 1]);
        }
    }
    lemma_lines_joined(all);
    assert(all.skip(1) =~= headers);
    assert(all[0] == first);
    lemma_split_join(pieces, ' ');
    lemma_filled(pieces);
}

/// The header lines that go on: those for the proxy do not, and of those of the
/// connection only the first does, and asks for the connection to be closed.
pub open spec fn sent_lines(l: Seq<Seq<char>>) -> Seq<Seq<char>>
    decreases l.len(),
{
    if l.len() == 0 {
        Seq::empty()
    } else {
        let before = l.drop_last();
        if for_proxy(l.last()) {
            sent_lines(before)
        } else if line_name(l.last()) == "connection"@ {
            if of_name(before, "connection"@).len() > 0 {
                sent_lines(before)
            } else {
                sent_lines(before).push("Connection: close"@)
            }
        } else {
            sent_lines(before).push(l.last())
        }
    }
}

proof fn lemma_has_name(l: Seq<Seq<char>>, name: Seq<char>)
    ensures
        has_header(l, name) <==> of_name(l, name).len() > 0,
    decreases l.len(),
{
    if l.len() > 0 {
        let d = l.drop_last();
        lemma_has_name(d, name);
        lemma_line_name(l.last());
        lemma_has_header_push(d, l.last(), name);
        assert(d.push(l.last()) =~= l);
    }
}

proof fn lemma_sent_lines(l: Seq<Seq<char>>)
    ensures
        rewritten_headers(l) == broken(sent_lines(l)),
    decreases l.len(),
{
    reveal_strlit("Connection: close\r\n");
    reveal_strlit("Connection: close");
    reveal_strlit("\r\n");
    if l.len() > 0 {
        let d = l.drop_last();
        lemma_sent_lines(d);
        lemma_has_name(d, "connection"@);
        lemma_line_name(l.last());
        lemma_broken_push(sent_lines(d), l.last());
        lemma_broken_push(sent_lines(d), "Connection: close"@);
        assert("Connection: close"@ + "\r\n"@ =~= "Connection: close\r\n"@);
        assert(rewritten_headers(l) =~= broken(sent_lines(l)));
    }
}

/// A forwarded head is, line by line: the request line with the path in place of the
/// target; the headers that go on, in order; a request to close the connection, where
/// there is none among them; the Host header, where there is none; and a blank line.
pub proof fn law_forwarded_heads(req: &Request, target: &ForwardTarget, text: String)
    requires
        call_ensures(rewrite_head, (req, target), text),
    ensures
        ({
            let headers = texts(req.headers@);
            let first = req.method@ + seq![' '] + target.origin_form@ + seq![' '] + req.version@;
            let close = if of_name(headers, "connection"@).len() > 0 {
                Seq::<Seq<char>>::empty()
            } else {
                seq!["Connection: close"@]
            };
            let host = if of_name(headers, "host"@).len() > 0 {
                Seq::<Seq<char>>::empty()
            } else {
                seq!["Host: "@ + target.authority@]
            };
            text@ == first + "\r\n"@ + broken(sent_lines(headers)) + broken(close) + broken(host)
                + "\r\n"@
        }),
{
    reveal_strlit(" ");
    reveal_strlit("Connection: close\r\n");
    reveal_strlit("Connection: close");
    reveal_strlit("\r\n");
    reveal_with_fuel(broken, 2);
    let headers = texts(req.headers@);
    lemma_sent_lines(headers);
    lemma_has_name(headers, "connection"@);
    lemma_has_name(headers, "host"@);
    let empty = Seq::<Seq<char>>::empty();
    let c = seq!["Connection: close"@];
    let h = seq!["Host: "@ + target.authority@];
    assert(broken(empty) =~= Seq::<char>::empty());
    assert(c.drop_last() =~= empty);
    assert(h.drop_last() =~= empty);
    assert(broken(c) =~= "Connection: close\r\n"@);
    assert(broken(h) =~= "Host: "@ + target.authority@ + "\r\n"@);
    assert(text@ =~= req.method@ + seq![' '] + target.origin_form@ + seq![' '] + req.version@
        + "\r\n"@ + broken(sent_lines(headers)) + broken(
        if of_name(headers, "connection"@).len() > 0 {
            empty
        } else {
            c
        },
    ) + broken(
        if of_name(headers, "host"@).len() > 0 {
            empty
        } else {
            h
        },
    ) + "\r\n"@);
}

} // verus!
