//! Text helpers over sequences of characters.
//!
//! Every function of this module works on whole characters; the delimiters it
//! looks for are single characters, so a position in a text is always a
//! character position.
use vstd::prelude::*;
use vstd::slice::slice_subrange;
use vstd::utf8::{decode_utf8, valid_utf8};

verus! {

/// `String::push` of the standard library: the string grows by the one
/// character, at its end.
pub assume_specification[ String::push ](s: &mut String, c: char)
    ensures
        final(s)@ == old(s)@.push(c),
;

// ── Conversions ───────────────────────────────────────────────────────────────

/// The characters of a string, in order.
pub fn chars_of(s: &str) -> (v: Vec<char>)
    ensures
        v@ == s@,
{
    let mut v: Vec<char> = Vec::new();
    for c in it: s.chars()
        invariant
            v@ == it.seq().take(it.index() as int),
            it.seq() == s@,
    {
        v.push(c);
    }
    v
}

/// Append characters to a vector of characters.
pub fn extend(out: &mut Vec<char>, v: &[char])
    ensures
        final(out)@ == old(out)@ + v@,
{
    let ghost start = out@;
    let mut i: usize = 0;
    while i < v.len()
        invariant
            i <= v.len(),
            out@ == start + v@.take(i as int),
        decreases v.len() - i,
    {
        out.push(v[i]);
        i += 1;
        assert(v@.take(i as int) == v@.take(i - 1).push(v@[i - 1]));
    }
    assert(v@.take(i as int) == v@);
}

/// Append characters to a string.
pub fn push_chars(out: &mut String, v: &[char])
    ensures
        final(out)@ == old(out)@ + v@,
{
    let ghost start = out@;
    let mut i: usize = 0;
    while i < v.len()
        invariant
            i <= v.len(),
            out@ == start + v@.take(i as int),
        decreases v.len() - i,
    {
        out.push(v[i]);
        i += 1;
        assert(v@.take(i as int) == v@.take(i - 1).push(v@[i - 1]));
    }
    assert(v@.take(i as int) == v@);
}

/// A string that holds the given characters.
pub fn string_of(v: &[char]) -> (s: String)
    ensures
        s@ == v@,
{
    let mut s = String::new();
    push_chars(&mut s, v);
    assert(s@ == v@);
    s
}

/// Append a text to a string.
pub fn push_text(out: &mut String, s: &str)
    ensures
        final(out)@ == old(out)@ + s@,
{
    let v = chars_of(s);
    push_chars(out, v.as_slice());
}

/// A copy of a text.
pub fn owned(s: &str) -> (r: String)
    ensures
        r@ == s@,
{
    let v = chars_of(s);
    string_of(v.as_slice())
}

/// `String::from_utf8`: bytes that are valid UTF-8 become the text that they write;
/// others are refused.
#[verifier::external_body]
pub(crate) fn from_utf8(bytes: Vec<u8>) -> (r: Option<String>)
    ensures
        match r {
            Some(s) => valid_utf8(bytes@) && s@ == decode_utf8(bytes@),
            None => !valid_utf8(bytes@),
        },
{
    String::from_utf8(bytes).ok()
}

/// The texts of a list of strings.
pub open spec fn texts(v: Seq<String>) -> Seq<Seq<char>> {
    Seq::new(v.len(), |i: int| v[i]@)
}

// ── Comparison ────────────────────────────────────────────────────────────────

/// Whether two character sequences are equal.
pub fn same_chars(a: &[char], b: &[char]) -> (r: bool)
    ensures
        r == (a@ == b@),
{
    if a.len() != b.len() {
        return false;
    }
    let mut i: usize = 0;
    while i < a.len()
        invariant
            i <= a.len(),
            a.len() == b.len(),
            forall|j: int| 0 <= j < i ==> a@[j] == b@[j],
        decreases a.len() - i,
    {
        if a[i] != b[i] {
            return false;
        }
        i += 1;
    }
    assert(a@ == b@);
    true
}

/// Whether characters spell out a given text.
pub fn is_text(a: &[char], b: &str) -> (r: bool)
    ensures
        r == (a@ == b@),
{
    let v = chars_of(b);
    same_chars(a, v.as_slice())
}

/// Whether two strings hold the same text.
pub fn same_text(a: &str, b: &str) -> (r: bool)
    ensures
        r == (a@ == b@),
{
    let v = chars_of(a);
    is_text(v.as_slice(), b)
}

/// Lexicographic order of character sequences: `a` comes before `b`.
pub open spec fn text_lt(a: Seq<char>, b: Seq<char>) -> bool
    decreases a.len(),
{
    if b.len() == 0 {
        false
    } else if a.len() == 0 {
        true
    } else if a[0] != b[0] {
        a[0] < b[0]
    } else {
        text_lt(a.skip(1), b.skip(1))
    }
}

/// Whether one text sorts before another.
pub fn text_before(a: &[char], b: &[char]) -> (r: bool)
    ensures
        r == text_lt(a@, b@),
{
    let mut i: usize = 0;
    assert(a@.skip(0) == a@);
    assert(b@.skip(0) == b@);
    while i < a.len() && i < b.len()
        invariant
            i <= a.len(),
            i <= b.len(),
            text_lt(a@, b@) == text_lt(a@.skip(i as int), b@.skip(i as int)),
        decreases a.len() - i,
    {
        if a[i] != b[i] {
            return a[i] < b[i];
        }
        assert(a@.skip(i as int).skip(1) == a@.skip(i + 1));
        assert(b@.skip(i as int).skip(1) == b@.skip(i + 1));
        i += 1;
    }
    i < b.len()
}

/// No text sorts before itself.
pub proof fn lemma_text_lt_irreflexive(a: Seq<char>)
    ensures
        !text_lt(a, a),
    decreases a.len(),
{
    if a.len() > 0 {
        lemma_text_lt_irreflexive(a.skip(1));
    }
}

/// The order of texts is transitive.
pub proof fn lemma_text_lt_transitive(a: Seq<char>, b: Seq<char>, c: Seq<char>)
    requires
        text_lt(a, b),
        text_lt(b, c),
    ensures
        text_lt(a, c),
    decreases a.len(),
{
    if a.len() > 0 && b.len() > 0 && c.len() > 0 && a[0] == b[0] && b[0] == c[0] {
        lemma_text_lt_transitive(a.skip(1), b.skip(1), c.skip(1));
    }
}

/// Any two different texts are ordered one way or the other.
pub proof fn lemma_text_lt_total(a: Seq<char>, b: Seq<char>)
    ensures
        a == b || text_lt(a, b) || text_lt(b, a),
    decreases a.len(),
{
    if a.len() == 0 || b.len() == 0 {
        if a.len() == b.len() {
            assert(a == b);
        }
    } else if a[0] == b[0] {
        lemma_text_lt_total(a.skip(1), b.skip(1));
        if a.skip(1) == b.skip(1) {
            assert(a == seq![a[0]] + a.skip(1));
            assert(b == seq![b[0]] + b.skip(1));
        }
    }
}

// ── Searching ─────────────────────────────────────────────────────────────────

/// Position of the first `c` at or after `from`.
pub open spec fn find_from(s: Seq<char>, c: char, from: int) -> Option<int>
    decreases s.len() - from,
{
    if from < 0 || from >= s.len() {
        None
    } else if s[from] == c {
        Some(from)
    } else {
        find_from(s, c, from + 1)
    }
}

/// Position of the first `c`.
pub open spec fn find(s: Seq<char>, c: char) -> Option<int> {
    find_from(s, c, 0)
}

/// Position of the last `c` before `to`.
pub open spec fn rfind_to(s: Seq<char>, c: char, to: int) -> Option<int>
    decreases to,
{
    if to <= 0 || to > s.len() {
        None
    } else if s[to - 1] == c {
        Some(to - 1)
    } else {
        rfind_to(s, c, to - 1)
    }
}

/// Position of the last `c`.
pub open spec fn rfind(s: Seq<char>, c: char) -> Option<int> {
    rfind_to(s, c, s.len() as int)
}

/// What [`find_from`] finds is the first such position.
pub proof fn lemma_find_from(s: Seq<char>, c: char, from: int)
    requires
        0 <= from <= s.len(),
    ensures
        match find_from(s, c, from) {
            Some(i) => from <= i < s.len() && s[i] == c && forall|j: int|
                from <= j < i ==> s[j] != c,
            None => forall|j: int| from <= j < s.len() ==> s[j] != c,
        },
    decreases s.len() - from,
{
    if from < s.len() && s[from] != c {
        lemma_find_from(s, c, from + 1);
    }
}

/// The first position that holds `c` is what [`find_from`] finds.
pub proof fn lemma_find_from_is(s: Seq<char>, c: char, from: int, i: int)
    requires
        0 <= from <= i < s.len(),
        s[i] == c,
        forall|j: int| from <= j < i ==> s[j] != c,
    ensures
        find_from(s, c, from) == Some(i),
{
    lemma_find_from(s, c, from);
}

/// Nothing is found where `c` does not occur.
pub proof fn lemma_find_none(s: Seq<char>, c: char)
    requires
        !s.contains(c),
    ensures
        find(s, c) is None,
{
    lemma_find_from(s, c, 0);
}

/// What [`rfind_to`] finds is the last such position.
pub proof fn lemma_rfind_to(s: Seq<char>, c: char, to: int)
    requires
        0 <= to <= s.len(),
    ensures
        match rfind_to(s, c, to) {
            Some(i) => 0 <= i < to && s[i] == c && forall|j: int| i < j < to ==> s[j] != c,
            None => forall|j: int| 0 <= j < to ==> s[j] != c,
        },
    decreases to,
{
    if to > 0 && s[to - 1] != c {
        lemma_rfind_to(s, c, to - 1);
    }
}

/// The last position that holds `c` is what [`rfind`] finds.
pub proof fn lemma_rfind_at(s: Seq<char>, c: char, i: int)
    requires
        0 <= i < s.len(),
        s[i] == c,
        forall|j: int| i < j < s.len() ==> s[j] != c,
    ensures
        rfind(s, c) == Some(i),
{
    lemma_rfind_to(s, c, s.len() as int);
}

/// Find the first `c`.
pub fn find_char(s: &[char], c: char) -> (r: Option<usize>)
    ensures
        match r {
            Some(i) => find(s@, c) == Some(i as int) && i < s.len(),
            None => find(s@, c) is None,
        },
{
    let mut i: usize = 0;
    while i < s.len()
        invariant
            i <= s.len(),
            find(s@, c) == find_from(s@, c, i as int),
        decreases s.len() - i,
    {
        if s[i] == c {
            return Some(i);
        }
        i += 1;
    }
    None
}

/// Find the last `c`.
pub fn rfind_char(s: &[char], c: char) -> (r: Option<usize>)
    ensures
        match r {
            Some(i) => rfind(s@, c) == Some(i as int) && i < s.len(),
            None => rfind(s@, c) is None,
        },
{
    let mut i: usize = s.len();
    while i > 0
        invariant
            i <= s.len(),
            rfind(s@, c) == rfind_to(s@, c, i as int),
        decreases i,
    {
        if s[i - 1] == c {
            return Some(i - 1);
        }
        i -= 1;
    }
    None
}

/// Whether `c` occurs.
pub fn contains_char(s: &[char], c: char) -> (r: bool)
    ensures
        r == s@.contains(c),
{
    let found = find_char(s, c);
    proof {
        lemma_find_from(s@, c, 0);
    }
    match found {
        Some(i) => {
            assert(s@[i as int] == c);
            true
        },
        None => false,
    }
}

/// Whether `s` starts with `p`.
pub open spec fn starts_with(s: Seq<char>, p: Seq<char>) -> bool {
    p.len() <= s.len() && s.take(p.len() as int) == p
}

/// Whether `s` ends with `p`.
pub open spec fn ends_with(s: Seq<char>, p: Seq<char>) -> bool {
    p.len() <= s.len() && s.skip(s.len() - p.len()) == p
}

/// Whether characters start with a text.
pub fn has_prefix(s: &[char], p: &[char]) -> (r: bool)
    ensures
        r == starts_with(s@, p@),
{
    if p.len() > s.len() {
        return false;
    }
    same_chars(slice_subrange(s, 0, p.len()), p)
}

/// Whether characters end with a text.
pub fn has_suffix(s: &[char], p: &[char]) -> (r: bool)
    ensures
        r == ends_with(s@, p@),
{
    if p.len() > s.len() {
        return false;
    }
    let tail = slice_subrange(s, s.len() - p.len(), s.len());
    assert(tail@ == s@.skip(s.len() - p.len()));
    same_chars(tail, p)
}

// ── Splitting ─────────────────────────────────────────────────────────────────

/// The pieces of a text between the separators `c`; one more than there are
/// separators.
pub open spec fn split(s: Seq<char>, c: char) -> Seq<Seq<char>>
    decreases s.len(),
{
    match find(s, c) {
        Some(i) => if 0 <= i < s.len() {
            seq![s.take(i)] + split(s.skip(i + 1), c)
        } else {
            seq![s]
        },
        None => seq![s],
    }
}

/// The first piece.
pub proof fn lemma_split_first(s: Seq<char>, c: char)
    ensures
        split(s, c).len() >= 1,
        match find(s, c) {
            Some(i) => 0 <= i < s.len() && split(s, c)[0] == s.take(i) && split(s, c).skip(1)
                == split(s.skip(i + 1), c),
            None => split(s, c) == seq![s],
        },
    decreases s.len(),
{
    lemma_find_from(s, c, 0);
    if let Some(i) = find(s, c) {
        assert(split(s, c).skip(1) == split(s.skip(i + 1), c));
    }
}

/// The pieces of a text, as positions: piece `i` is the characters from
/// `r[i].0` up to `r[i].1`.
pub fn split_ranges(s: &[char], c: char) -> (r: Vec<(usize, usize)>)
    ensures
        r@.len() == split(s@, c).len(),
        forall|i: int|
            0 <= i < r@.len() ==> (#[trigger] r@[i]).0 <= r@[i].1 <= s.len() && s@.subrange(
                r@[i].0 as int,
                r@[i].1 as int,
            ) == split(s@, c)[i],
{
    let mut r: Vec<(usize, usize)> = Vec::new();
    let mut start: usize = 0;
    let mut rest = s;
    assert(s@.skip(0) == s@);
    loop
        invariant
            start <= s.len(),
            rest@ == s@.skip(start as int),
            r@.len() + split(rest@, c).len() == split(s@, c).len(),
            split(s@, c).skip(r@.len() as int) == split(rest@, c),
            forall|i: int|
                0 <= i < r@.len() ==> (#[trigger] r@[i]).0 <= r@[i].1 <= s.len() && s@.subrange(
                    r@[i].0 as int,
                    r@[i].1 as int,
                ) == split(s@, c)[i],
        decreases s.len() - start,
    {
        let ghost all = split(s@, c);
        let ghost tail = split(rest@, c);
        let ghost n = r@.len() as int;
        proof {
            lemma_split_first(rest@, c);
            assert(all.skip(n)[0] == all[n]);
        }
        match find_char(rest, c) {
            Some(i) => {
                r.push((start, start + i));
                assert(s@.subrange(start as int, start + i) == rest@.take(i as int));
                let ghost old_rest = rest@;
                rest = slice_subrange(rest, i + 1, rest.len());
                start = start + i + 1;
                assert(rest@ == old_rest.skip(i + 1));
                assert(rest@ == s@.skip(start as int));
                assert(all.skip(n + 1) == all.skip(n).skip(1));
            },
            None => {
                r.push((start, s.len()));
                assert(s@.subrange(start as int, s.len() as int) == rest@);
                return r;
            },
        }
    }
}

// ── Joining ───────────────────────────────────────────────────────────────────

/// The pieces with one separator `c` between each two.
pub open spec fn join(p: Seq<Seq<char>>, c: char) -> Seq<char>
    decreases p.len(),
{
    if p.len() == 0 {
        Seq::empty()
    } else if p.len() == 1 {
        p[0]
    } else {
        p[0] + seq![c] + join(p.skip(1), c)
    }
}

/// Splitting takes joined pieces apart again.
pub proof fn lemma_split_join(p: Seq<Seq<char>>, c: char)
    requires
        p.len() > 0,
        forall|i: int| 0 <= i < p.len() ==> !(#[trigger] p[i]).contains(c),
    ensures
        split(join(p, c), c) == p,
    decreases p.len(),
{
    let s = join(p, c);
    if p.len() == 1 {
        lemma_find_none(s, c);
        lemma_split_first(s, c);
        assert(seq![s] == p);
    } else {
        let n = p[0].len() as int;
        assert(s[n] == c);
        assert forall|j: int| 0 <= j < n implies s[j] != c by {
            assert(p[0][j] == s[j]);
            assert(!p[0].contains(c));
        }
        lemma_find_from_is(s, c, 0, n);
        assert(s.take(n) == p[0]);
        assert(s.skip(n + 1) == join(p.skip(1), c));
        assert forall|i: int| 0 <= i < p.skip(1).len() implies !(#[trigger] p.skip(1)[i]).contains(
            c,
        ) by {
            assert(p.skip(1)[i] == p[i + 1]);
        }
        lemma_split_join(p.skip(1), c);
        assert(seq![p[0]] + p.skip(1) == p);
    }
}

/// Joined pieces that are not empty neither start nor end with the separator,
/// nor hold it twice in a row.
pub proof fn lemma_join_no_double(p: Seq<Seq<char>>, c: char)
    requires
        forall|i: int|
            0 <= i < p.len() ==> (#[trigger] p[i]).len() > 0 && !p[i].contains(c),
    ensures
        p.len() > 0 ==> join(p, c).len() > 0 && join(p, c)[0] != c && join(p, c).last() != c,
        forall|j: int|
            0 <= j < join(p, c).len() - 1 ==> !(#[trigger] join(p, c)[j] == c && join(p, c)[j + 1]
                == c),
    decreases p.len(),
{
    let s = join(p, c);
    if p.len() == 1 {
        assert forall|j: int| 0 <= j < s.len() implies #[trigger] s[j] != c by {
            assert(p[0].contains(s[j]));
        }
    } else if p.len() > 1 {
        let t = p.skip(1);
        assert forall|i: int| 0 <= i < t.len() implies (#[trigger] t[i]).len() > 0
            && !t[i].contains(c) by {
            assert(t[i] == p[i + 1]);
        }
        lemma_join_no_double(t, c);
        let n = p[0].len() as int;
        let r = join(t, c);
        assert forall|j: int| 0 <= j < n implies #[trigger] s[j] != c by {
            assert(p[0].contains(s[j]));
        }
        assert forall|j: int| 0 <= j < s.len() - 1 implies !(#[trigger] s[j] == c && s[j + 1] == c)
            by {
            if j == n {
                assert(s[j + 1] == r[0]);
            } else if j > n {
                assert(s[j] == r[j - n - 1]);
                assert(s[j + 1] == r[j - n]);
            }
        }
        assert(s.last() == r.last());
    }
}

// ── Trimming ──────────────────────────────────────────────────────────────────

/// The text without the characters `c` at its end.
pub open spec fn trim_end(s: Seq<char>, c: char) -> Seq<char>
    decreases s.len(),
{
    if s.len() > 0 && s.last() == c {
        trim_end(s.drop_last(), c)
    } else {
        s
    }
}

/// Where the text without the characters `c` at its end stops.
pub fn trimmed_end<'a>(s: &'a [char], c: char) -> (r: &'a [char])
    ensures
        r@ == trim_end(s@, c),
{
    let mut n: usize = s.len();
    assert(s@.take(n as int) == s@);
    while n > 0 && s[n - 1] == c
        invariant
            n <= s.len(),
            trim_end(s@, c) == trim_end(s@.take(n as int), c),
        decreases n,
    {
        assert(s@.take(n as int).drop_last() == s@.take(n - 1));
        n -= 1;
    }
    slice_subrange(s, 0, n)
}

/// The text without a suffix, however often it stands at its end.
pub open spec fn strip_all(s: Seq<char>, suffix: Seq<char>) -> Seq<char>
    decreases s.len(),
{
    if suffix.len() > 0 && ends_with(s, suffix) {
        strip_all(s.take(s.len() - suffix.len()), suffix)
    } else {
        s
    }
}

/// The white space characters of Unicode.
pub open spec fn is_white_space(c: char) -> bool {
    ||| 0x09 <= c as u32 <= 0x0D
    ||| c as u32 == 0x20
    ||| c as u32 == 0x85
    ||| c as u32 == 0xA0
    ||| c as u32 == 0x1680
    ||| 0x2000 <= c as u32 <= 0x200A
    ||| c as u32 == 0x2028
    ||| c as u32 == 0x2029
    ||| c as u32 == 0x202F
    ||| c as u32 == 0x205F
    ||| c as u32 == 0x3000
}

/// Whether a character is white space.
pub fn white_space(c: char) -> (r: bool)
    ensures
        r == is_white_space(c),
{
    let v: u32 = c as u32;
    (0x09 <= v && v <= 0x0D) || v == 0x20 || v == 0x85 || v == 0xA0 || v == 0x1680 || (0x2000 <= v
        && v <= 0x200A) || v == 0x2028 || v == 0x2029 || v == 0x202F || v == 0x205F || v == 0x3000
}

/// The text without white space at its start.
pub open spec fn trim_start_ws(s: Seq<char>) -> Seq<char>
    decreases s.len(),
{
    if s.len() > 0 && is_white_space(s[0]) {
        trim_start_ws(s.skip(1))
    } else {
        s
    }
}

/// The text without white space at its end.
pub open spec fn trim_end_ws(s: Seq<char>) -> Seq<char>
    decreases s.len(),
{
    if s.len() > 0 && is_white_space(s.last()) {
        trim_end_ws(s.drop_last())
    } else {
        s
    }
}

/// The text without white space around it.
pub open spec fn trim(s: Seq<char>) -> Seq<char> {
    trim_end_ws(trim_start_ws(s))
}

/// Strip white space from both ends.
pub fn trimmed<'a>(s: &'a [char]) -> (r: &'a [char])
    ensures
        r@ == trim(s@),
{
    let mut a: usize = 0;
    assert(s@.skip(0) == s@);
    while a < s.len() && white_space(s[a])
        invariant
            a <= s.len(),
            trim_start_ws(s@) == trim_start_ws(s@.skip(a as int)),
        decreases s.len() - a,
    {
        assert(s@.skip(a as int).skip(1) == s@.skip(a + 1));
        a += 1;
    }
    let t = slice_subrange(s, a, s.len());
    assert(t@ == s@.skip(a as int));
    let mut n: usize = t.len();
    assert(t@.take(n as int) == t@);
    while n > 0 && white_space(t[n - 1])
        invariant
            n <= t.len(),
            trim_end_ws(t@) == trim_end_ws(t@.take(n as int)),
        decreases n,
    {
        assert(t@.take(n as int).drop_last() == t@.take(n - 1));
        n -= 1;
    }
    slice_subrange(t, 0, n)
}

// ── Case ──────────────────────────────────────────────────────────────────────

/// The ASCII lower case form of a character.
pub open spec fn lower_char(c: char) -> char {
    if 'A' <= c <= 'Z' {
        (c as u32 + 32) as char
    } else {
        c
    }
}

/// The text with its ASCII letters in lower case.
pub open spec fn lower(s: Seq<char>) -> Seq<char> {
    Seq::new(s.len(), |i: int| lower_char(s[i]))
}

/// The lower case form of a character.
pub fn lowered_char(c: char) -> (r: char)
    ensures
        r == lower_char(c),
{
    if 'A' <= c && c <= 'Z' {
        let b: u8 = c as u8;
        (b + 32) as char
    } else {
        c
    }
}

/// The characters in lower case.
pub fn lowered(s: &[char]) -> (r: Vec<char>)
    ensures
        r@ == lower(s@),
{
    let mut r: Vec<char> = Vec::new();
    let mut i: usize = 0;
    while i < s.len()
        invariant
            i <= s.len(),
            r@ == lower(s@).take(i as int),
        decreases s.len() - i,
    {
        r.push(lowered_char(s[i]));
        i += 1;
        assert(lower(s@).take(i as int) == lower(s@).take(i - 1).push(lower(s@)[i - 1]));
    }
    assert(lower(s@).take(i as int) == lower(s@));
    r
}

// ── Numbers ───────────────────────────────────────────────────────────────────

/// Whether a character is a decimal digit.
pub open spec fn is_digit(c: char) -> bool {
    '0' <= c <= '9'
}

/// Whether every character is a decimal digit.
pub open spec fn all_digits(s: Seq<char>) -> bool {
    forall|i: int| 0 <= i < s.len() ==> is_digit(#[trigger] s[i])
}

/// The number that decimal digits write.
pub open spec fn dec_value(s: Seq<char>) -> nat
    decreases s.len(),
{
    if s.len() == 0 {
        0
    } else {
        (dec_value(s.drop_last()) * 10 + (s.last() as u32 - '0' as u32)) as nat
    }
}

/// The text without one leading plus sign.
pub open spec fn unsigned_digits(s: Seq<char>) -> Seq<char> {
    if s.len() > 0 && s[0] == '+' {
        s.skip(1)
    } else {
        s
    }
}

/// The number that a text writes in decimal, where it is at most `max`: one or
/// more digits, after an optional plus sign.
pub open spec fn parse_dec(s: Seq<char>, max: nat) -> Option<nat> {
    plain_dec(unsigned_digits(s), max)
}

/// The value of a prefix is at most that of the whole.
pub proof fn lemma_dec_value_prefix(s: Seq<char>, n: int)
    requires
        0 <= n <= s.len(),
        all_digits(s),
    ensures
        dec_value(s.take(n)) <= dec_value(s),
    decreases s.len() - n,
{
    if n == s.len() {
        assert(s.take(n) == s);
    } else {
        lemma_dec_value_prefix(s, n + 1);
        assert(s.take(n + 1).drop_last() == s.take(n));
        assert(is_digit(s[n]));
    }
}

/// The number that a text of one or more decimal digits writes, where it is at
/// most `max`.
pub open spec fn plain_dec(d: Seq<char>, max: nat) -> Option<nat> {
    if d.len() > 0 && all_digits(d) && dec_value(d) <= max {
        Some(dec_value(d))
    } else {
        None
    }
}

/// Read a number of decimal digits that is at most `max`.
pub fn parse_plain(d: &[char], max: u32) -> (r: Option<u32>)
    ensures
        match r {
            Some(n) => plain_dec(d@, max as nat) == Some(n as nat),
            None => plain_dec(d@, max as nat) is None,
        },
{
    if d.len() == 0 {
        return None;
    }
    let mut v: u64 = 0;
    let mut i: usize = 0;
    while i < d.len()
        invariant
            i <= d.len(),
            v <= max,
            forall|j: int| 0 <= j < i ==> is_digit(#[trigger] d@[j]),
            v == dec_value(d@.take(i as int)),
        decreases d.len() - i,
    {
        let c = d[i];
        if !('0' <= c && c <= '9') {
            assert(!is_digit(d@[i as int]));
            return None;
        }
        assert(d@.take(i + 1).drop_last() == d@.take(i as int));
        v = v * 10 + (c as u64 - '0' as u64);
        i += 1;
        if v > max as u64 {
            proof {
                if all_digits(d@) {
                    lemma_dec_value_prefix(d@, i as int);
                }
            }
            return None;
        }
    }
    assert(d@.take(i as int) == d@);
    Some(v as u32)
}

/// Read a decimal number that is at most `max`, after an optional plus sign.
pub fn parse_number(s: &[char], max: u32) -> (r: Option<u32>)
    ensures
        match r {
            Some(n) => parse_dec(s@, max as nat) == Some(n as nat),
            None => parse_dec(s@, max as nat) is None,
        },
{
    let from: usize = if s.len() > 0 && s[0] == '+' {
        1
    } else {
        0
    };
    let d = slice_subrange(s, from, s.len());
    proof {
        if from == 1 {
            assert(d@ == s@.skip(1));
        } else {
            assert(d@ == s@);
        }
        assert(d@ == unsigned_digits(s@));
    }
    parse_plain(d, max)
}

/// Read a decimal 16-bit number.
pub fn parse_u16(s: &[char]) -> (r: Option<u16>)
    ensures
        match r {
            Some(n) => parse_dec(s@, 65535) == Some(n as nat),
            None => parse_dec(s@, 65535) is None,
        },
{
    match parse_number(s, 65535) {
        Some(n) => Some(n as u16),
        None => None,
    }
}

/// The decimal digits of a number, without leading zeros.
pub open spec fn dec_text(n: nat) -> Seq<char>
    decreases n,
{
    if n < 10 {
        seq![('0' as u32 + n) as char]
    } else {
        dec_text(n / 10).push(('0' as u32 + n % 10) as char)
    }
}

/// The digits of a number write that number.
pub proof fn lemma_dec_text(n: nat)
    ensures
        dec_text(n).len() >= 1,
        all_digits(dec_text(n)),
        dec_value(dec_text(n)) == n,
        n > 0 ==> dec_text(n)[0] != '0',
    decreases n,
{
    if n >= 10 {
        lemma_dec_text(n / 10);
        assert(dec_text(n).drop_last() == dec_text(n / 10));
    } else {
        assert(dec_text(n).drop_last() == Seq::<char>::empty());
        assert(dec_value(Seq::<char>::empty()) == 0);
    }
}

/// A number that has been written in decimal reads back.
pub proof fn lemma_dec_round_trip(n: nat, max: nat)
    requires
        n <= max,
    ensures
        parse_dec(dec_text(n), max) == Some(n),
{
    lemma_dec_text(n);
    assert(is_digit(dec_text(n)[0]));
}

/// The character of a digit.
pub fn digit_char(d: u8) -> (c: char)
    requires
        d < 10,
    ensures
        c == ('0' as u32 + d) as char,
{
    (48u8 + d) as char
}

/// The decimal digits of a number.
pub fn decimal(n: u64) -> (r: Vec<char>)
    ensures
        r@ == dec_text(n as nat),
    decreases n,
{
    if n < 10 {
        let mut r: Vec<char> = Vec::new();
        r.push(digit_char(n as u8));
        assert(r@ == dec_text(n as nat));
        r
    } else {
        let mut r = decimal(n / 10);
        r.push(digit_char((n % 10) as u8));
        r
    }
}

/// Append a number in decimal.
pub fn push_decimal(out: &mut String, n: u64)
    ensures
        final(out)@ == old(out)@ + dec_text(n as nat),
{
    let d = decimal(n);
    push_chars(out, d.as_slice());
}

// ── Hexadecimal numbers ───────────────────────────────────────────────────────

/// Whether a character is a hexadecimal digit of either case.
pub open spec fn is_hex_digit(c: char) -> bool {
    is_digit(c) || 'a' <= c <= 'f' || 'A' <= c <= 'F'
}

/// The value of a hexadecimal digit.
pub open spec fn hex_digit_value(c: char) -> nat {
    if is_digit(c) {
        (c as u32 - '0' as u32) as nat
    } else if 'a' <= c <= 'f' {
        (c as u32 - 'a' as u32 + 10) as nat
    } else {
        (c as u32 - 'A' as u32 + 10) as nat
    }
}

/// Whether every character is a hexadecimal digit.
pub open spec fn all_hex(s: Seq<char>) -> bool {
    forall|i: int| 0 <= i < s.len() ==> is_hex_digit(#[trigger] s[i])
}

/// The number that hexadecimal digits write.
pub open spec fn hex_value(s: Seq<char>) -> nat
    decreases s.len(),
{
    if s.len() == 0 {
        0
    } else {
        hex_value(s.drop_last()) * 16 + hex_digit_value(s.last())
    }
}

/// The lower case hexadecimal digit of a value below sixteen.
pub open spec fn hex_char(d: nat) -> char {
    if d < 10 {
        ('0' as u32 + d) as char
    } else {
        ('a' as u32 + d - 10) as char
    }
}

/// The lower case hexadecimal digits of a number, without leading zeros.
pub open spec fn hex_text(n: nat) -> Seq<char>
    decreases n,
{
    if n < 16 {
        seq![hex_char(n)]
    } else {
        hex_text(n / 16).push(hex_char(n % 16))
    }
}

/// The hexadecimal digits of a number write that number.
pub proof fn lemma_hex_text(n: nat)
    ensures
        hex_text(n).len() >= 1,
        all_hex(hex_text(n)),
        hex_value(hex_text(n)) == n,
    decreases n,
{
    if n >= 16 {
        lemma_hex_text(n / 16);
        assert(hex_text(n).drop_last() == hex_text(n / 16));
    } else {
        assert(hex_text(n).drop_last() == Seq::<char>::empty());
        assert(hex_value(Seq::<char>::empty()) == 0);
    }
}

/// A 16-bit number takes at most four hexadecimal digits.
pub proof fn lemma_hex_text_len(n: nat)
    requires
        n < 65536,
    ensures
        hex_text(n).len() <= 4,
{
    reveal_with_fuel(hex_text, 4);
    assert(n / 16 / 16 / 16 < 16);
}

/// The value of a digit, where the character is one.
pub fn hex_digit(c: char) -> (r: Option<u8>)
    ensures
        match r {
            Some(d) => is_hex_digit(c) && d as nat == hex_digit_value(c) && d < 16,
            None => !is_hex_digit(c),
        },
{
    if '0' <= c && c <= '9' {
        Some(c as u8 - 48u8)
    } else if 'a' <= c && c <= 'f' {
        Some(c as u8 - 97u8 + 10)
    } else if 'A' <= c && c <= 'F' {
        Some(c as u8 - 65u8 + 10)
    } else {
        None
    }
}

/// The lower case hexadecimal digits of a 16-bit number.
pub fn hexadecimal(n: u16) -> (r: Vec<char>)
    ensures
        r@ == hex_text(n as nat),
    decreases n,
{
    let d: u8 = (n % 16) as u8;
    let c: char = if d < 10 {
        (48u8 + d) as char
    } else {
        (97u8 + (d - 10)) as char
    };
    if n < 16 {
        let mut r: Vec<char> = Vec::new();
        r.push(c);
        assert(r@ == hex_text(n as nat));
        r
    } else {
        let mut r = hexadecimal(n / 16);
        r.push(c);
        r
    }
}

} // verus!
