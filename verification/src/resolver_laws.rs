//! What holds of names and of DNS messages.
use vstd::prelude::*;
use vstd::utf8::encode_utf8;
use crate::addr::{
    Ip, Ipv6Addr, SocketAddr, all_groups, double_colon, endpoint, groups, groups_text, is_group,
    is_octet, is_v4_mapped, longest_zeros, parse_groups, parse_socket, parse_socket_v4, parse_v4,
    parse_v6, socket_text, v6_text, zeros_from,
};
use crate::addr_laws::{
    is_endpoint, law_socket_round_trip, law_v6_round_trip, lemma_v4_chars, lemma_v6_text_plain,
    v4_char,
};
use crate::bytes::{be16, be16_bytes};
use crate::keys::{hex_encoded, law_hex_round_trip};
use crate::resolver::{
    DnsLookup, LookupAction, LookupEvent, LookupStage, NAME_MAPPING_SUFFIX, NameResolver, Plan,
    Route, TYPE_AAAA, aaaa_answer, build_dns_query, dns_query, first_aaaa, frame_query, key_label,
    label_bytes, labels_bytes, labels_of, lookup_failure, name_bytes, parse_dns_aaaa_response,
    resolution, response_length, skip_name,
};
use crate::text::{
    dec_text, ends_with, find, hex_text, is_digit, is_hex_digit, join, lemma_find_from,
    lemma_join_no_double, lemma_rfind_at, lemma_rfind_to, lemma_split_first, lemma_split_join,
    rfind, split, strip_all, trim_end,
};

verus! {

// ── Names ─────────────────────────────────────────────────────────────────────

/// The last piece of a text that does not end with the separator ends as the text
/// does.
proof fn lemma_split_last(s: Seq<char>, c: char)
    requires
        s.len() > 0,
        s.last() != c,
    ensures
        split(s, c).last().len() > 0,
        split(s, c).last().last() == s.last(),
    decreases s.len(),
{
    lemma_split_first(s, c);
    lemma_find_from(s, c, 0);
    match find(s, c) {
        Some(i) => {
            let t = s.skip(i + 1);
            assert(t.len() > 0);
            assert(t.last() == s.last());
            lemma_split_last(t, c);
            lemma_split_first(t, c);
            assert(split(s, c).last() == split(s, c).skip(1).last());
        },
        None => {},
    }
}

proof fn lemma_no_groups(s: Seq<char>, dotted: bool)
    requires
        s.len() > 0,
        !is_hex_digit(s.last()),
        s.last() != ':',
        s.last() != '.',
    ensures
        parse_groups(s, dotted) is None,
{
    let p = split(s, ':');
    lemma_split_last(s, ':');
    lemma_split_first(s, ':');
    let last = p.last();
    assert(!is_group(last)) by {
        if is_group(last) {
            assert(is_hex_digit(last[last.len() - 1]));
        }
    }
    assert(!all_groups(p)) by {
        assert(p[p.len() - 1] == last);
    }
    assert(parse_v4(last) is None) by {
        let q = split(last, '.');
        lemma_split_last(last, '.');
        lemma_split_first(last, '.');
        if q.len() == 4 && is_octet(q[3]) {
            assert(q.last() == q[3]);
            assert(is_digit(q[3][q[3].len() - 1]));
        }
    }
}

/// A text that ends with neither a hexadecimal digit, nor a colon, nor a dot is no
/// address.
proof fn lemma_no_address(s: Seq<char>)
    requires
        s.len() > 0,
        !is_hex_digit(s.last()),
        s.last() != ':',
        s.last() != '.',
    ensures
        parse_v6(s) is None,
{
    match double_colon(s, 0) {
        Some(i) => {
            lemma_double_colon_in(s, 0);
            let tail = s.skip(i + 2);
            assert(s[i + 1] == ':');
            assert(tail.len() > 0);
            assert(tail.last() == s.last());
            lemma_no_groups(tail, true);
        },
        None => {
            lemma_no_groups(s, true);
        },
    }
}

proof fn lemma_double_colon_in(s: Seq<char>, from: int)
    requires
        0 <= from,
    ensures
        double_colon(s, from) matches Some(i) ==> from <= i && i + 1 < s.len() && s[i] == ':' && s[i
            + 1] == ':',
    decreases s.len() - from,
{
    if from + 1 < s.len() && !(s[from] == ':' && s[from + 1] == ':') {
        lemma_double_colon_in(s, from + 1);
    }
}

/// An IPv6 literal is resolved to itself.
pub proof fn law_literals_resolve(o: Seq<u8>, nameserver: Option<Seq<char>>)
    requires
        o.len() == 16,
    ensures
        resolution(v6_text(o), nameserver) == Ok::<_, Seq<char>>(Route::Address(o)),
{
    law_v6_round_trip(o);
}

/// A public key in hexadecimal with the suffix behind it is resolved to that key,
/// with any labels in front of it.
pub proof fn law_key_names_resolve(front: Seq<char>, key: Seq<u8>, nameserver: Option<Seq<char>>)
    requires
        key.len() == 32,
        front.len() == 0 || front.last() == '.',
    ensures
        resolution(front + hex_encoded(key) + NAME_MAPPING_SUFFIX@, nameserver) == Ok::<
            _,
            Seq<char>,
        >(Route::Key(key)),
{
    reveal_strlit(".pk.ygg");
    let hex = hex_encoded(key);
    let suffix = NAME_MAPPING_SUFFIX@;
    let base = front + hex;
    let name = base + suffix;
    assert(name.last() == 'g');
    lemma_no_address(name);
    assert(name.skip(name.len() - suffix.len()) =~= suffix);
    assert(ends_with(name, suffix));
    assert(name.take(name.len() - suffix.len()) =~= base);
    assert(!ends_with(base, suffix)) by {
        if ends_with(base, suffix) {
            assert(base.skip(base.len() - suffix.len()).last() == base.last());
            assert(base.last() == hex.last());
            assert(suffix.last() == 'g');
        }
    }
    reveal_with_fuel(strip_all, 2);
    assert(strip_all(name, suffix) == base);
    let n = front.len() as int;
    assert forall|j: int| n <= j < base.len() implies base[j] != '.' by {
        assert(base[j] == hex[j - n]);
    }
    if n > 0 {
        lemma_rfind_at(base, '.', n - 1);
        assert(base.skip(n) =~= hex);
    } else {
        lemma_rfind_to(base, '.', base.len() as int);
        assert(base =~= hex);
    }
    assert(key_label(name) == hex);
    law_hex_round_trip(key);
}

/// Without a name server, a name that is neither an address nor ends with the
/// suffix cannot be resolved.
pub proof fn law_no_nameserver_no_lookup(name: Seq<char>)
    requires
        parse_v6(name) is None,
        !ends_with(name, NAME_MAPPING_SUFFIX@),
    ensures
        resolution(name, None) is Err,
{
}

// ── Messages ──────────────────────────────────────────────────────────────────

/// Whether every label has between 1 and 63 bytes.
pub open spec fn labels_ok(labels: Seq<Seq<char>>) -> bool {
    forall|i: int| 0 <= i < labels.len() ==> 1 <= encode_utf8(#[trigger] labels[i]).len() <= 63
}

proof fn lemma_labels_front(labels: Seq<Seq<char>>)
    requires
        labels.len() > 0,
    ensures
        labels_bytes(labels) == label_bytes(labels[0]) + labels_bytes(labels.skip(1)),
    decreases labels.len(),
{
    if labels.len() == 1 {
        assert(labels.drop_last() =~= Seq::<Seq<char>>::empty());
        assert(labels.skip(1) =~= Seq::<Seq<char>>::empty());
        assert(labels_bytes(labels) =~= label_bytes(labels[0]) + labels_bytes(labels.skip(1)));
    } else {
        let t = labels.drop_last();
        lemma_labels_front(t);
        assert(t.skip(1) =~= labels.skip(1).drop_last());
        assert(labels.skip(1).last() == labels.last());
        assert(t[0] == labels[0]);
        assert(labels_bytes(labels) =~= label_bytes(labels[0]) + labels_bytes(labels.skip(1)));
    }
}

/// Skipping a name that is written out ends behind its root label.
proof fn lemma_skip_labels(buf: Seq<u8>, pos: int, labels: Seq<Seq<char>>)
    requires
        labels_ok(labels),
        0 <= pos,
        pos + labels_bytes(labels).len() < buf.len(),
        buf.subrange(pos, pos + labels_bytes(labels).len()) == labels_bytes(labels),
        buf[pos + labels_bytes(labels).len()] == 0,
    ensures
        skip_name(buf, pos) == Some(pos + labels_bytes(labels).len() + 1),
    decreases labels.len(),
{
    let all = labels_bytes(labels);
    let part = buf.subrange(pos, pos + all.len());
    if labels.len() > 0 {
        lemma_labels_front(labels);
        let first = label_bytes(labels[0]);
        let rest = labels.skip(1);
        let n = encode_utf8(labels[0]).len();
        assert(1 <= n <= 63);
        assert(part[0] == buf[pos]);
        assert(buf[pos] == n as u8);
        let next = pos + 1 + n;
        assert(first.len() == 1 + n);
        assert(buf.subrange(next, next + labels_bytes(rest).len()) =~= labels_bytes(rest)) by {
            assert forall|k: int| 0 <= k < labels_bytes(rest).len() implies buf[next + k]
                == labels_bytes(rest)[k] by {
                assert(part[1 + n + k] == all[1 + n + k]);
            }
        }
        assert forall|i: int| 0 <= i < rest.len() implies 1 <= encode_utf8(
            #[trigger] rest[i],
        ).len() <= 63 by {
            assert(rest[i] == labels[i + 1]);
        }
        lemma_skip_labels(buf, next, rest);
    }
}

/// In a query for a name whose labels have between 1 and 63 bytes, the name ends
/// where the type and class begin.
pub proof fn law_query_holds_name(name: Seq<char>, qtype: nat)
    requires
        labels_ok(labels_of(name)),
    ensures
        skip_name(dns_query(name, qtype), 12) == Some(name_bytes(name).len() as int + 12),
        dns_query(name, qtype).len() == 12 + name_bytes(name).len() + 4,
{
    let q = dns_query(name, qtype);
    let labels = labels_of(name);
    let l = labels_bytes(labels);
    assert(q.subrange(12, l.len() as int + 12) =~= l);
    assert(q[l.len() as int + 12] == 0);
    lemma_skip_labels(q, 12, labels);
}

/// A response to a query for a name: a header, the question, and a first record
/// that points to the name, of a type, class and lifetime, with data; whatever
/// follows.
pub open spec fn response(
    header: Seq<u8>,
    name: Seq<char>,
    question: Seq<u8>,
    rtype: nat,
    class_ttl: Seq<u8>,
    data: Seq<u8>,
    rest: Seq<u8>,
) -> Seq<u8> {
    header + name_bytes(name) + question + seq![0xC0u8, 0x0Cu8] + be16_bytes(rtype) + class_ttl
        + be16_bytes(data.len()) + data + rest
}

/// The address in the first record of a response is found.
pub proof fn law_answer_is_found(
    header: Seq<u8>,
    name: Seq<char>,
    question: Seq<u8>,
    class_ttl: Seq<u8>,
    octets: Seq<u8>,
    rest: Seq<u8>,
)
    requires
        header.len() == 12,
        be16(header[6], header[7]) > 0,
        labels_ok(labels_of(name)),
        question.len() == 4,
        class_ttl.len() == 6,
        octets.len() == 16,
    ensures
        aaaa_answer(response(header, name, question, TYPE_AAAA as nat, class_ttl, octets, rest))
            == Some(octets),
{
    let r = response(header, name, question, TYPE_AAAA as nat, class_ttl, octets, rest);
    let labels = labels_of(name);
    let l = labels_bytes(labels);
    assert(r.subrange(12, l.len() as int + 12) =~= l);
    assert(r[l.len() as int + 12] == 0);
    lemma_skip_labels(r, 12, labels);
    let p = l.len() as int + 17;
    assert(r[p] == 0xC0);
    assert(skip_name(r, p) == Some(p + 2));
    let t = p + 2;
    assert(r[t] == 0 && r[t + 1] == 28);
    assert(r[t + 8] == 0 && r[t + 9] == 16);
    assert(r.subrange(t + 10, t + 26) =~= octets);
    assert(r[6] == header[6] && r[7] == header[7]);
}

/// A response without answers holds no address.
pub proof fn law_empty_answer(header: Seq<u8>, rest: Seq<u8>)
    requires
        header.len() == 12,
        be16(header[6], header[7]) == 0,
    ensures
        aaaa_answer(header + rest) is None,
{
    let r = header + rest;
    assert(r[6] == header[6] && r[7] == header[7]);
}

// ── Responses ─────────────────────────────────────────────────────────────────

/// Whether bytes write a name: labels of 1 to 191 bytes, and behind them the root
/// label or a pointer.
pub open spec fn is_name(b: Seq<u8>) -> bool
    decreases b.len(),
{
    ||| b.len() == 1 && b[0] == 0
    ||| b.len() == 2 && b[0] >= 0xC0
    ||| b.len() > 0 && 1 <= b[0] < 0xC0 && b.len() > 1 + b[0] && is_name(b.skip(1 + b[0]))
}

/// A record: its name, its type in two bytes, its class and lifetime in six, and
/// its data.
pub ghost struct Record {
    pub name: Seq<u8>,
    pub rtype: (u8, u8),
    pub class_ttl: Seq<u8>,
    pub data: Seq<u8>,
}

/// Whether a record can stand in a message.
pub open spec fn is_record(r: Record) -> bool {
    is_name(r.name) && r.class_ttl.len() == 6 && r.data.len() < 65536
}

/// Whether a record holds an IPv6 address.
pub open spec fn holds_address(r: Record) -> bool {
    r.rtype == (0u8, 28u8) && r.data.len() == 16
}

/// A record as it stands in a message.
pub open spec fn record_bytes(r: Record) -> Seq<u8> {
    r.name + seq![r.rtype.0, r.rtype.1] + r.class_ttl + seq![
        (r.data.len() / 256) as u8,
        (r.data.len() % 256) as u8,
    ] + r.data
}

/// Records as they stand in a message.
pub open spec fn records_bytes(rs: Seq<Record>) -> Seq<u8>
    decreases rs.len(),
{
    if rs.len() == 0 {
        Seq::empty()
    } else {
        record_bytes(rs[0]) + records_bytes(rs.skip(1))
    }
}

/// A name is skipped to its end.
proof fn lemma_skip_is_name(buf: Seq<u8>, pos: int, name: Seq<u8>)
    requires
        0 <= pos,
        is_name(name),
        pos + name.len() <= buf.len(),
        buf.subrange(pos, pos + name.len()) == name,
    ensures
        skip_name(buf, pos) == Some(pos + name.len()),
    decreases name.len(),
{
    let part = buf.subrange(pos, pos + name.len());
    assert(part[0] == buf[pos]);
    if !(name.len() == 1 && name[0] == 0) && !(name.len() == 2 && name[0] >= 0xC0) {
        let n = 1 + name[0];
        let rest = name.skip(n);
        assert(buf.subrange(pos + n, pos + n + rest.len()) =~= rest) by {
            assert forall|k: int| 0 <= k < rest.len() implies buf[pos + n + k] == rest[k] by {
                assert(part[n + k] == name[n + k]);
            }
        }
        lemma_skip_is_name(buf, pos + n, rest);
    }
}

/// What one record in front does to the search.
proof fn lemma_one_record(buf: Seq<u8>, pos: int, r: Record, rest: Seq<u8>, count: nat)
    requires
        0 <= pos <= buf.len(),
        is_record(r),
        buf.skip(pos) == record_bytes(r) + rest,
        count > 0,
    ensures
        holds_address(r) ==> first_aaaa(buf, pos, count) == Some(r.data),
        !holds_address(r) ==> first_aaaa(buf, pos, count) == first_aaaa(
            buf,
            pos + record_bytes(r).len(),
            (count - 1) as nat,
        ),
        pos + record_bytes(r).len() <= buf.len(),
        buf.skip(pos + record_bytes(r).len() as int) == rest,
{
    let all = record_bytes(r) + rest;
    let n = r.name.len() as int;
    let p = pos + n;
    assert forall|k: int| 0 <= k < all.len() implies #[trigger] all[k] == buf[pos + k] by {
        assert(buf.skip(pos)[k] == all[k]);
    }
    assert(buf.len() == pos + all.len());
    assert(buf.subrange(pos, p) =~= r.name) by {
        assert forall|k: int| 0 <= k < n implies buf[pos + k] == r.name[k] by {
            assert(all[k] == r.name[k]);
        }
    }
    lemma_skip_is_name(buf, pos, r.name);
    assert(all[n] == r.rtype.0 && all[n + 1] == r.rtype.1);
    assert(all[n + 8] == (r.data.len() / 256) as u8);
    assert(all[n + 9] == (r.data.len() % 256) as u8);
    assert(buf[p] == r.rtype.0 && buf[p + 1] == r.rtype.1);
    assert(be16(buf[p + 8], buf[p + 9]) == r.data.len());
    let data = p + 10;
    assert(buf.subrange(data, data + r.data.len()) =~= r.data) by {
        assert forall|k: int| 0 <= k < r.data.len() implies buf[data + k] == r.data[k] by {
            assert(all[n + 10 + k] == r.data[k]);
        }
    }
    assert(be16(r.rtype.0, r.rtype.1) == 28 <==> r.rtype == (0u8, 28u8));
    assert(buf.skip(pos + record_bytes(r).len() as int) =~= rest) by {
        assert forall|k: int| 0 <= k < rest.len() implies buf[pos + record_bytes(r).len() + k]
            == rest[k] by {
            assert(all[record_bytes(r).len() + k] == rest[k]);
        }
    }
}

/// Records that hold no address are passed over.
proof fn lemma_other_records(buf: Seq<u8>, pos: int, rs: Seq<Record>, rest: Seq<u8>, count: nat)
    requires
        0 <= pos <= buf.len(),
        forall|i: int| 0 <= i < rs.len() ==> is_record(#[trigger] rs[i]) && !holds_address(rs[i]),
        buf.skip(pos) == records_bytes(rs) + rest,
        count >= rs.len(),
    ensures
        first_aaaa(buf, pos, count) == first_aaaa(
            buf,
            pos + records_bytes(rs).len(),
            (count - rs.len()) as nat,
        ),
        pos + records_bytes(rs).len() <= buf.len(),
        buf.skip(pos + records_bytes(rs).len() as int) == rest,
    decreases rs.len(),
{
    if rs.len() == 0 {
        assert(records_bytes(rs) + rest =~= rest);
    } else {
        let r = rs[0];
        let more = rs.skip(1);
        assert(records_bytes(rs) + rest =~= record_bytes(r) + (records_bytes(more) + rest));
        lemma_one_record(buf, pos, r, records_bytes(more) + rest, count);
        let next = pos + record_bytes(r).len();
        assert forall|i: int| 0 <= i < more.len() implies is_record(#[trigger] more[i])
            && !holds_address(more[i]) by {
            assert(more[i] == rs[i + 1]);
        }
        lemma_other_records(buf, next, more, rest, (count - 1) as nat);
    }
}

/// The header and the question are passed over.
proof fn lemma_question(
    buf: Seq<u8>,
    header: Seq<u8>,
    name: Seq<u8>,
    question: Seq<u8>,
    answers: Seq<u8>,
)
    requires
        header.len() == 12,
        is_name(name),
        question.len() == 4,
        buf == header + name + question + answers,
    ensures
        aaaa_answer(buf) == if header[6] == 0 && header[7] == 0 {
            None
        } else {
            first_aaaa(
                buf,
                (16 + name.len()) as int,
                (header[6] as nat * 256 + header[7] as nat) as nat,
            )
        },
        buf.skip(16 + name.len() as int) == answers,
{
    assert(buf.subrange(12, 12 + name.len() as int) =~= name);
    lemma_skip_is_name(buf, 12, name);
    assert(buf[6] == header[6] && buf[7] == header[7]);
    assert(buf.skip(16 + name.len() as int) =~= answers);
}

/// Of a well-formed response the answer is the address in the first record that holds
/// one, whatever records of other types or lengths stand in front of it, where the
/// number of answers covers it.
pub proof fn law_first_address_is_the_answer(
    buf: &[u8],
    header: Seq<u8>,
    name: Seq<u8>,
    question: Seq<u8>,
    others: Seq<Record>,
    found: Record,
    rest: Seq<u8>,
    r: Option<Ipv6Addr>,
)
    requires
        header.len() == 12,
        is_name(name),
        question.len() == 4,
        forall|i: int|
            0 <= i < others.len() ==> is_record(#[trigger] others[i]) && !holds_address(others[i]),
        is_record(found),
        holds_address(found),
        header[6] * 256 + header[7] > others.len(),
        buf@ == header + name + question + (records_bytes(others) + (record_bytes(found) + rest)),
        call_ensures(parse_dns_aaaa_response, (buf,), r),
    ensures
        r matches Some(a) && a.octets@ == found.data,
{
    let tail = record_bytes(found) + rest;
    let count = (header[6] as nat * 256 + header[7] as nat) as nat;
    let start = (16 + name.len()) as int;
    lemma_question(buf@, header, name, question, records_bytes(others) + tail);
    lemma_other_records(buf@, start, others, tail, count);
    lemma_one_record(
        buf@,
        start + records_bytes(others).len(),
        found,
        rest,
        (count - others.len()) as nat,
    );
}

/// A well-formed response none of whose answers holds an address has no answer, even
/// where an address stands behind the answers.
pub proof fn law_only_answers_are_looked_at(
    buf: &[u8],
    header: Seq<u8>,
    name: Seq<u8>,
    question: Seq<u8>,
    others: Seq<Record>,
    rest: Seq<u8>,
    r: Option<Ipv6Addr>,
)
    requires
        header.len() == 12,
        is_name(name),
        question.len() == 4,
        forall|i: int|
            0 <= i < others.len() ==> is_record(#[trigger] others[i]) && !holds_address(others[i]),
        header[6] * 256 + header[7] == others.len(),
        buf@ == header + name + question + (records_bytes(others) + rest),
        call_ensures(parse_dns_aaaa_response, (buf,), r),
    ensures
        r is None,
{
    let start = (16 + name.len()) as int;
    lemma_question(buf@, header, name, question, records_bytes(others) + rest);
    if others.len() > 0 {
        lemma_other_records(buf@, start, others, rest, others.len());
    }
}

/// An address that is found stands in the response.
pub proof fn law_answers_are_not_made_up(buf: &[u8], r: Option<Ipv6Addr>)
    requires
        call_ensures(parse_dns_aaaa_response, (buf,), r),
    ensures
        r matches Some(a) ==> exists|p: int|
            12 <= p && p + 16 <= buf@.len() && #[trigger] buf@.subrange(p, p + 16) == a.octets@,
{
    if r is Some {
        lemma_skip_forward(buf@, 12);
        let p = skip_name(buf@, 12).unwrap();
        lemma_found_in(buf@, p + 4, be16(buf@[6], buf@[7]));
    }
}

proof fn lemma_skip_forward(buf: Seq<u8>, pos: int)
    requires
        0 <= pos,
    ensures
        skip_name(buf, pos) matches Some(p) ==> p > pos,
    decreases
        if pos < buf.len() {
            buf.len() - pos
        } else {
            0
        },
{
    if pos < buf.len() && buf[pos] != 0 && buf[pos] < 0xC0 {
        lemma_skip_forward(buf, pos + 1 + buf[pos]);
    }
}

proof fn lemma_found_in(buf: Seq<u8>, pos: int, count: nat)
    requires
        12 <= pos,
    ensures
        first_aaaa(buf, pos, count) matches Some(o) ==> exists|p: int|
            12 <= p && p + 16 <= buf.len() && #[trigger] buf.subrange(p, p + 16) == o,
    decreases count,
{
    if count > 0 {
        lemma_skip_forward(buf, pos);
        match skip_name(buf, pos) {
            None => {},
            Some(p) => {
                if p + 10 <= buf.len() {
                    lemma_found_in(
                        buf,
                        p + 10 + be16(buf[p + 8], buf[p + 9]),
                        (count - 1) as nat,
                    );
                }
            },
        }
    }
}

// ── How names are resolved ────────────────────────────────────────────────────

/// A name that is an IPv6 address is resolved to just that address, whatever name
/// server there is.
pub proof fn law_addresses_resolve_to_themselves(
    n: &NameResolver,
    name: &str,
    o: Seq<u8>,
    r: Result<Plan, String>,
)
    requires
        call_ensures(NameResolver::resolve, (n, name), r),
        o.len() == 16,
        name@ == v6_text(o),
    ensures
        r matches Ok(Plan::Address(a)) && a.octets@ == o,
{
    law_v6_round_trip(o);
}

/// A name that ends with `.pk.ygg` stands for the key whose hexadecimal digits are its
/// last label in front of that, whatever labels stand before; no name server is
/// asked.
pub proof fn law_key_names_stand_for_keys(
    n: &NameResolver,
    name: &str,
    front: Seq<char>,
    key: Seq<u8>,
    r: Result<Plan, String>,
)
    requires
        call_ensures(NameResolver::resolve, (n, name), r),
        key.len() == 32,
        front.len() == 0 || front.last() == '.',
        name@ == front + hex_encoded(key) + ".pk.ygg"@,
    ensures
        r matches Ok(Plan::Key(k)) && k@ == key,
{
    law_key_names_resolve(front, key, n.nameserver());
}

/// A key of other than 32 bytes is none.
pub proof fn law_keys_have_32_bytes(
    n: &NameResolver,
    name: &str,
    key: Seq<u8>,
    r: Result<Plan, String>,
)
    requires
        call_ensures(NameResolver::resolve, (n, name), r),
        key.len() != 32,
        name@ == hex_encoded(key) + ".pk.ygg"@,
    ensures
        r is Err,
{
    reveal_strlit(".pk.ygg");
    let hex = hex_encoded(key);
    let suffix = ".pk.ygg"@;
    assert(name@.last() == 'g');
    lemma_no_address(name@);
    assert(name@.skip(name@.len() - suffix.len()) =~= suffix);
    assert(name@.take(name@.len() - suffix.len()) =~= hex);
    assert(!ends_with(hex, suffix)) by {
        if ends_with(hex, suffix) {
            assert(hex.skip(hex.len() - suffix.len()).last() == hex.last());
            assert(suffix.last() == 'g');
        }
    }
    reveal_with_fuel(strip_all, 2);
    lemma_rfind_to(hex, '.', hex.len() as int);
    assert(key_label(name@) == hex);
    law_hex_round_trip(key);
}

/// Any other name is asked of the name server that is configured, at the address that
/// is configured, and of none where none is.
pub proof fn law_other_names_are_looked_up(
    configured: &str,
    n: NameResolver,
    name: &str,
    server: SocketAddr,
    r: Result<Plan, String>,
    query: Vec<u8>,
)
    requires
        call_ensures(NameResolver::new, (configured,), n),
        call_ensures(NameResolver::resolve, (&n, name), r),
        call_ensures(build_dns_query, (name, 28), query),
        name@.len() > 0,
        !is_hex_digit(name@.last()),
        name@.last() != ':',
        name@.last() != '.',
        !exists|front: Seq<char>| name@ == #[trigger] (front + ".pk.ygg"@),
    ensures
        configured@.len() == 0 ==> r is Err,
        configured@.len() > 0 && is_endpoint(server@) && configured@ == socket_text(server@) ==> (
        r matches Ok(Plan::Query(d)) && d@.server == server@ && d@.name == name@ && d@.query
            == query@ && d@.phase is FirstUdp),
{
    lemma_no_address(name@);
    let suffix = ".pk.ygg"@;
    if ends_with(name@, suffix) {
        assert(name@ =~= name@.take(name@.len() - suffix.len()) + suffix);
    }
    if is_endpoint(server@) {
        law_socket_round_trip(server@);
    }
}

/// The text of an IPv6 address holds two colons, so that it is no IPv4 address with a
/// port.
proof fn lemma_v6_is_no_v4_socket(o: Seq<u8>)
    requires
        o.len() == 16,
    ensures
        parse_socket_v4(v6_text(o)) is None,
{
    let s = v6_text(o);
    reveal_strlit("::ffff:");
    reveal_strlit("::");
    let (i, j) = if is_v4_mapped(o) {
        (0, 1)
    } else {
        let g = groups(o);
        let a = longest_zeros(g, 8);
        let n = zeros_from(g, a);
        if n > 1 {
            let m = groups_text(g.take(a)).len() as int;
            (m, m + 1)
        } else {
            let p = Seq::new(g.len(), |k: int| hex_text(g[k]));
            let q = p.skip(1);
            assert(s == p[0] + seq![':'] + join(q, ':'));
            assert(join(q, ':') == q[0] + seq![':'] + join(q.skip(1), ':'));
            let m = p[0].len() as int;
            assert(s[m] == ':');
            assert(join(q, ':')[q[0].len() as int] == ':');
            assert(s[m + 1 + q[0].len()] == ':');
            (m, m + 1 + q[0].len())
        }
    };
    assert(0 <= i < j < s.len() && s[i] == ':' && s[j] == ':');
    lemma_rfind_to(s, ':', s.len() as int);
    let k = rfind(s, ':').unwrap();
    assert(j <= k);
    if parse_v4(s.take(k)) is Some {
        lemma_v4_chars(s.take(k));
        assert(v4_char(s.take(k)[i]));
    }
}

/// A name server that is configured without brackets and a port is asked at port 53.
pub proof fn law_name_servers_have_a_default_port(
    configured: &str,
    n: NameResolver,
    name: &str,
    o: Seq<u8>,
    r: Result<Plan, String>,
)
    requires
        call_ensures(NameResolver::new, (configured,), n),
        call_ensures(NameResolver::resolve, (&n, name), r),
        name@.len() > 0,
        !is_hex_digit(name@.last()),
        name@.last() != ':',
        name@.last() != '.',
        !exists|front: Seq<char>| name@ == #[trigger] (front + ".pk.ygg"@),
        o.len() == 16,
        configured@ == v6_text(o),
    ensures
        r matches Ok(Plan::Query(d)) && d@.server == endpoint(Ip::V6(o), 53),
{
    lemma_no_address(name@);
    let suffix = ".pk.ygg"@;
    if ends_with(name@, suffix) {
        assert(name@ =~= name@.take(name@.len() - suffix.len()) + suffix);
    }
    let t = configured@;
    lemma_v6_is_no_v4_socket(o);
    lemma_v6_text_plain(o);
    lemma_rfind_to(t, ']', t.len() as int);
    assert(parse_socket(t) is None) by {
        if let Some(i) = rfind(t, ']') {
            assert(t.contains(t[i]));
        }
    }
    assert(t.len() > 0);
    reveal_strlit("[");
    reveal_strlit("]:");
    reveal_strlit("]:53");
    let a = endpoint(Ip::V6(o), 53);
    law_socket_round_trip(a);
    assert(dec_text(53) =~= seq!['5', '3']) by {
        reveal_with_fuel(dec_text, 3);
    }
    assert("["@ + t + "]:53"@ =~= socket_text(a));
}

// ── Queries ───────────────────────────────────────────────────────────────────

/// Labels as they stand in a message: each behind its length.
pub open spec fn wire_labels(labels: Seq<Seq<char>>) -> Seq<u8>
    decreases labels.len(),
{
    if labels.len() == 0 {
        Seq::empty()
    } else {
        seq![encode_utf8(labels[0]).len() as u8] + encode_utf8(labels[0]) + wire_labels(
            labels.skip(1),
        )
    }
}

proof fn lemma_wire_labels(labels: Seq<Seq<char>>)
    requires
        labels_ok(labels),
    ensures
        labels_bytes(labels) == wire_labels(labels),
    decreases labels.len(),
{
    if labels.len() > 0 {
        lemma_labels_front(labels);
        let rest = labels.skip(1);
        assert forall|i: int| 0 <= i < rest.len() implies 1 <= encode_utf8(
            #[trigger] rest[i],
        ).len() <= 63 by {
            assert(rest[i] == labels[i + 1]);
        }
        lemma_wire_labels(rest);
        assert(1 <= encode_utf8(labels[0]).len() <= 63);
        assert(labels_bytes(labels) =~= wire_labels(labels));
    }
}

/// A query asks one question, recursively: for the records of the type, in the internet
/// class, of the name whose labels are those between the dots; a dot at the end makes
/// no difference.
pub proof fn law_queries_ask_for_the_name(
    name: &str,
    qtype: u16,
    labels: Seq<Seq<char>>,
    dotted: bool,
    r: Vec<u8>,
)
    requires
        call_ensures(build_dns_query, (name, qtype), r),
        labels.len() > 0,
        labels_ok(labels),
        forall|i: int| 0 <= i < labels.len() ==> !(#[trigger] labels[i]).contains('.'),
        name@ == join(labels, '.') + (if dotted {
            seq!['.']
        } else {
            Seq::empty()
        }),
    ensures
        r@ == seq![0u8, 1, 1, 0, 0, 1, 0, 0, 0, 0, 0, 0] + wire_labels(labels) + seq![
            0u8,
            (qtype / 256) as u8,
            (qtype % 256) as u8,
            0u8,
            1u8,
        ],
{
    let j = join(labels, '.');
    assert forall|i: int| 0 <= i < labels.len() implies (#[trigger] labels[i]).len() > 0
        && !labels[i].contains('.') by {
        if labels[i].len() == 0 {
            assert(labels[i] =~= Seq::<char>::empty());
            assert(encode_utf8(Seq::<char>::empty()).len() == 0);
            assert(1 <= encode_utf8(labels[i]).len());
        }
    }
    lemma_join_no_double(labels, '.');
    assert(trim_end(j, '.') == j);
    if dotted {
        assert(name@.drop_last() =~= j);
        assert(trim_end(name@, '.') == trim_end(j, '.'));
    } else {
        assert(name@ =~= j);
    }
    lemma_split_join(labels, '.');
    lemma_wire_labels(labels);
    assert(r@ =~= seq![0u8, 1, 1, 0, 0, 1, 0, 0, 0, 0, 0, 0] + wire_labels(labels) + seq![
        0u8,
        (qtype / 256) as u8,
        (qtype % 256) as u8,
        0u8,
        1u8,
    ]);
}

/// On a stream a query stands behind its length, and so does its answer.
pub proof fn law_queries_are_framed(query: &[u8], r: Vec<u8>, a: u8, b: u8, n: usize)
    requires
        call_ensures(frame_query, (query,), r),
        call_ensures(response_length, (a, b), n),
        query@.len() < 65536,
    ensures
        r@.len() == query@.len() + 2,
        r@[0] * 256 + r@[1] == query@.len(),
        r@.skip(2) == query@,
        n == a * 256 + b,
{
    assert(r@.skip(2) =~= query@);
}

// ── Lookups ───────────────────────────────────────────────────────────────────

/// A lookup asks over UDP, once more where that fails, then over TCP, and fails as that
/// does; the name, the server and the query stay the same throughout.
pub proof fn law_lookups_try_three_times(
    name: &str,
    server: SocketAddr,
    d: DnsLookup,
    ds: Seq<&mut DnsLookup>,
    es: Seq<LookupEvent>,
    acts: Seq<LookupAction>,
)
    requires
        call_ensures(DnsLookup::new, (name, server), d),
        ds.len() == 4 && es.len() == 4 && acts.len() == 4,
        forall|i: int|
            0 <= i < 4 ==> #[trigger] call_ensures(
                DnsLookup::dns_lookup_ipv6,
                (ds[i], es[i]),
                acts[i],
            ),
        forall|i: int| 0 <= i < 3 ==> *final(#[trigger] ds[i]) == *ds[i + 1],
        *ds[0] == d,
        es[0] is Start,
        es[1] is Failed && es[2] is Failed && es[3] is Failed,
    ensures
        acts[0] is AskUdp,
        acts[1] is AskUdp,
        acts[2] is AskTcp,
        acts[3] matches LookupAction::Done(Err(e)) && e@ == es[3]->Failed_0@,
        forall|i: int| 0 <= i < 4 ==> (#[trigger] final(ds[i]))@.server == server@,
        forall|i: int| 0 <= i < 4 ==> (#[trigger] final(ds[i]))@.query == d@.query,
        forall|i: int| 0 <= i < 4 ==> (#[trigger] final(ds[i]))@.name == name@,
{
    assert(call_ensures(DnsLookup::dns_lookup_ipv6, (ds[0], es[0]), acts[0]));
    assert(*final(ds[0]) == *ds[1]);
    assert(call_ensures(DnsLookup::dns_lookup_ipv6, (ds[1], es[1]), acts[1]));
    assert(*final(ds[1]) == *ds[2]);
    assert(call_ensures(DnsLookup::dns_lookup_ipv6, (ds[2], es[2]), acts[2]));
    assert(*final(ds[2]) == *ds[3]);
    assert(call_ensures(DnsLookup::dns_lookup_ipv6, (ds[3], es[3]), acts[3]));
}

/// An answer that is whole ends a lookup with the address that it holds, or with the
/// complaint that it holds none for the name; one over UDP that was cut short is asked
/// for again over TCP.
pub proof fn law_answers_end_lookups(
    d: &mut DnsLookup,
    answer: Vec<u8>,
    bytes: &[u8],
    found: Option<Ipv6Addr>,
    r: LookupAction,
)
    requires
        call_ensures(DnsLookup::dns_lookup_ipv6, (d, LookupEvent::Answer(answer)), r),
        bytes@ == answer@,
        call_ensures(parse_dns_aaaa_response, (bytes,), found),
        !(old(d)@.phase is Over),
    ensures
        ({
            let cut = answer@.len() >= 3 && (answer@[2] / 2) % 2 == 1;
            if cut && !(old(d)@.phase is Tcp) {
                r is AskTcp && final(d)@.phase is Tcp
            } else {
                &&& final(d)@.phase is Over
                &&& match found {
                    Some(a) => r matches LookupAction::Done(Ok(b)) && b.octets@ == a.octets@,
                    None => r matches LookupAction::Done(Err(e)) && e@
                        == "no AAAA record found for '"@ + old(d)@.name + "'"@,
                }
            }
        }),
        final(d)@.server == old(d)@.server,
        final(d)@.query == old(d)@.query,
{
}

/// A lookup goes to its server with its query, over UDP as it is and over TCP behind
/// its length, and does nothing once it is over.
pub proof fn law_lookups_ask_their_server(
    d: &DnsLookup,
    s: SocketAddr,
    q: Vec<u8>,
    f: Vec<u8>,
    query: &[u8],
    framed_query: Vec<u8>,
    e: &mut DnsLookup,
    event: LookupEvent,
    r: LookupAction,
)
    requires
        call_ensures(DnsLookup::server, (d,), s),
        call_ensures(DnsLookup::query, (d,), q),
        call_ensures(DnsLookup::framed_query, (d,), f),
        query@ == q@,
        call_ensures(frame_query, (query,), framed_query),
        call_ensures(DnsLookup::dns_lookup_ipv6, (e, event), r),
    ensures
        s@ == d@.server,
        q@ == d@.query,
        f@ == framed_query@,
        old(e)@.phase is Over ==> r is Ignore && final(e)@ == old(e)@,
{
}

/// The report of a failed lookup says where it failed, and then why.
pub proof fn law_lookup_failures(
    stage: LookupStage,
    error: &str,
    r: String,
    other: LookupStage,
    q: String,
)
    requires
        call_ensures(lookup_failure, (stage, error), r),
        call_ensures(lookup_failure, (other, error), q),
    ensures
        r@.len() >= error@.len(),
        r@.skip(r@.len() - error@.len()) == error@,
        stage is UdpOpen ==> r@ == "UDP open: "@ + error@,
        stage is UdpSend ==> r@ == "DNS UDP send: "@ + error@,
        stage is UdpReceive ==> r@ == "DNS UDP recv: "@ + error@,
        stage is TcpConnect ==> r@ == "DNS connect: "@ + error@,
        stage is TcpWrite ==> r@ == "DNS write: "@ + error@,
        stage is TcpReadLength ==> r@ == "DNS read len: "@ + error@,
        stage is TcpReadBody ==> r@ == "DNS read body: "@ + error@,
{
    assert(r@.skip(r@.len() - error@.len()) =~= error@);
}

} // verus!
