//! What holds of the text helpers.
use vstd::prelude::*;
use crate::text::{
    all_digits, contains_char, dec_value, decimal, find, find_char, has_prefix, has_suffix,
    hex_digit, hexadecimal, is_digit, is_white_space, join, lemma_dec_text, lemma_find_from,
    lemma_hex_text, lemma_rfind_to, lemma_split_first, lower, lowered, parse_number, parse_plain,
    parse_u16, rfind_char, same_text, split, split_ranges, text_before, text_lt, trim, trim_end,
    trim_end_ws, trim_start_ws, trimmed, trimmed_end, white_space,
};

verus! {

// ── Searching ─────────────────────────────────────────────────────────────────

/// What is found is the first such character, or the last, and nothing is found only
/// where there is none.
pub proof fn law_characters_are_found(
    s: &[char],
    c: char,
    first: Option<usize>,
    last: Option<usize>,
    any: bool,
)
    requires
        call_ensures(find_char, (s, c), first),
        call_ensures(rfind_char, (s, c), last),
        call_ensures(contains_char, (s, c), any),
    ensures
        match first {
            Some(i) => i < s@.len() && s@[i as int] == c && forall|j: int|
                0 <= j < i ==> s@[j] != c,
            None => forall|j: int| 0 <= j < s@.len() ==> s@[j] != c,
        },
        match last {
            Some(i) => i < s@.len() && s@[i as int] == c && forall|j: int|
                i < j < s@.len() ==> s@[j] != c,
            None => forall|j: int| 0 <= j < s@.len() ==> s@[j] != c,
        },
        any <==> exists|j: int| 0 <= j < s@.len() && s@[j] == c,
{
    lemma_find_from(s@, c, 0);
    lemma_rfind_to(s@, c, s@.len() as int);
}

/// A text starts with its front and ends with its back, and with nothing else of that
/// length.
pub proof fn law_fronts_and_backs(s: &[char], p: &[char], front: bool, back: bool)
    requires
        call_ensures(has_prefix, (s, p), front),
        call_ensures(has_suffix, (s, p), back),
    ensures
        front <==> exists|rest: Seq<char>| s@ == #[trigger] (p@ + rest),
        back <==> exists|rest: Seq<char>| s@ == #[trigger] (rest + p@),
{
    if front {
        assert(s@ =~= p@ + s@.skip(p@.len() as int));
    }
    if back {
        assert(s@ =~= s@.take(s@.len() - p@.len()) + p@);
    }
    if exists|rest: Seq<char>| s@ == #[trigger] (p@ + rest) {
        let rest = choose|rest: Seq<char>| s@ == #[trigger] (p@ + rest);
        assert(s@.take(p@.len() as int) =~= p@);
    }
    if exists|rest: Seq<char>| s@ == #[trigger] (rest + p@) {
        let rest = choose|rest: Seq<char>| s@ == #[trigger] (rest + p@);
        assert(s@.skip(s@.len() - p@.len()) =~= p@);
    }
}

// ── Splitting ─────────────────────────────────────────────────────────────────

proof fn lemma_join_split(s: Seq<char>, c: char)
    ensures
        join(split(s, c), c) == s,
        forall|i: int| 0 <= i < split(s, c).len() ==> !(#[trigger] split(s, c)[i]).contains(c),
    decreases s.len(),
{
    lemma_split_first(s, c);
    lemma_find_from(s, c, 0);
    let p = split(s, c);
    match find(s, c) {
        Some(i) => {
            let rest = s.skip(i + 1);
            lemma_join_split(rest, c);
            assert(p.skip(1) == split(rest, c));
            lemma_split_first(rest, c);
            assert(s =~= s.take(i) + seq![c] + rest);
            assert forall|k: int| 0 <= k < p.len() implies !(#[trigger] p[k]).contains(c) by {
                if k > 0 {
                    assert(p.skip(1)[k - 1] == p[k]);
                }
            }
        },
        None => {
            assert(p =~= seq![s]);
        },
    }
}

/// The pieces of a text hold no separator, and give the text back with one separator
/// between each two.
pub proof fn law_pieces_make_the_text(s: &[char], c: char, r: Vec<(usize, usize)>)
    requires
        call_ensures(split_ranges, (s, c), r),
    ensures
        ({
            let pieces = Seq::new(
                r@.len(),
                |i: int| s@.subrange(r@[i].0 as int, r@[i].1 as int),
            );
            &&& pieces.len() > 0
            &&& forall|i: int| 0 <= i < pieces.len() ==> !(#[trigger] pieces[i]).contains(c)
            &&& join(pieces, c) == s@
        }),
{
    lemma_join_split(s@, c);
    lemma_split_first(s@, c);
    let pieces = Seq::new(r@.len(), |i: int| s@.subrange(r@[i].0 as int, r@[i].1 as int));
    assert(pieces =~= split(s@, c));
}

// ── Trimming ──────────────────────────────────────────────────────────────────

/// White space is the tabulator, the line and page breaks, the spaces and nothing
/// that is printed.
pub proof fn law_white_space(c: char, r: bool)
    requires
        call_ensures(white_space, (c,), r),
    ensures
        c == ' ' || c == '\t' || c == '\n' || c == '\r' ==> r,
        0x21 <= c as u32 <= 0x7E ==> !r,
        r <==> {
            ||| 9 <= c as u32 <= 13
            ||| c as u32 == 32
            ||| c as u32 == 133
            ||| c as u32 == 160
            ||| c as u32 == 5760
            ||| 8192 <= c as u32 <= 8202
            ||| c as u32 == 8232
            ||| c as u32 == 8233
            ||| c as u32 == 8239
            ||| c as u32 == 8287
            ||| c as u32 == 12288
        },
{
}

/// Whether every character is white space.
pub open spec fn all_white(s: Seq<char>) -> bool {
    forall|i: int| 0 <= i < s.len() ==> is_white_space(#[trigger] s[i])
}

/// What is trimmed at the start is white space, and all that is there.
pub proof fn lemma_trim_start(s: Seq<char>) -> (n: int)
    ensures
        0 <= n <= s.len(),
        all_white(s.take(n)),
        trim_start_ws(s) == s.skip(n),
        trim_start_ws(s).len() > 0 ==> !is_white_space(trim_start_ws(s)[0]),
    decreases s.len(),
{
    if s.len() > 0 && is_white_space(s[0]) {
        let m = lemma_trim_start(s.skip(1));
        assert(s.skip(1).skip(m) =~= s.skip(m + 1));
        assert forall|i: int| 0 <= i < m + 1 implies is_white_space(#[trigger] s.take(m + 1)[i]) by {
            if i > 0 {
                assert(s.skip(1).take(m)[i - 1] == s[i]);
            }
        }
        m + 1
    } else {
        assert(s.skip(0) =~= s);
        0
    }
}

/// What is trimmed at the end is white space, and all that is there.
pub proof fn lemma_trim_end(s: Seq<char>) -> (n: int)
    ensures
        0 <= n <= s.len(),
        all_white(s.skip(n)),
        trim_end_ws(s) == s.take(n),
        trim_end_ws(s).len() > 0 ==> !is_white_space(trim_end_ws(s).last()),
    decreases s.len(),
{
    if s.len() > 0 && is_white_space(s.last()) {
        let m = lemma_trim_end(s.drop_last());
        assert(s.drop_last().take(m) =~= s.take(m));
        assert forall|i: int| 0 <= i < s.len() - m implies is_white_space(#[trigger] s.skip(m)[i]) by {
            if i < s.len() - 1 - m {
                assert(s.drop_last().skip(m)[i] == s[m + i]);
            }
        }
        m
    } else {
        assert(s.take(s.len() as int) =~= s);
        s.len() as int
    }
}

/// A trimmed text is the text without the white space around it, and nothing else is
/// taken away.
pub proof fn law_trimmed_texts(s: &[char], r: &[char])
    requires
        call_ensures(trimmed, (s,), r),
    ensures
        exists|a: Seq<char>, b: Seq<char>|
            s@ == #[trigger] (a + r@ + b) && all_white(a) && all_white(b),
        r@.len() > 0 ==> !is_white_space(r@[0]) && !is_white_space(r@.last()),
{
    let n = lemma_trim_start(s@);
    let t = trim_start_ws(s@);
    let m = lemma_trim_end(t);
    assert(r@ == t.take(m));
    assert(s@ =~= s@.take(n) + r@ + t.skip(m));
}

/// What is trimmed of a character at the end is that character, and all that is there.
pub proof fn lemma_trim_end_char(s: Seq<char>, c: char) -> (n: int)
    ensures
        0 <= n <= s.len(),
        forall|i: int| n <= i < s.len() ==> s[i] == c,
        trim_end(s, c) == s.take(n),
        n > 0 ==> s[n - 1] != c,
    decreases s.len(),
{
    if s.len() > 0 && s.last() == c {
        let m = lemma_trim_end_char(s.drop_last(), c);
        assert(s.drop_last().take(m) =~= s.take(m));
        assert forall|i: int| m <= i < s.len() implies s[i] == c by {
            if i < s.len() - 1 {
                assert(s.drop_last()[i] == s[i]);
            }
        }
        if m > 0 {
            assert(s.drop_last()[m - 1] == s[m - 1]);
        }
        m
    } else {
        assert(s.take(s.len() as int) =~= s);
        s.len() as int
    }
}

/// A text without a character at its end lost only that character, as often as it
/// stood there.
pub proof fn law_trimmed_ends(s: &[char], c: char, r: &[char])
    requires
        call_ensures(trimmed_end, (s, c), r),
    ensures
        r@.len() <= s@.len(),
        r@ == s@.take(r@.len() as int),
        forall|i: int| r@.len() <= i < s@.len() ==> s@[i] == c,
        r@.len() > 0 ==> r@.last() != c,
{
    let n = lemma_trim_end_char(s@, c);
}

// ── Case and order ────────────────────────────────────────────────────────────

/// The letters A to Z become a to z; every other character stays.
pub proof fn law_lower_case(s: &[char], r: Vec<char>)
    requires
        call_ensures(lowered, (s,), r),
    ensures
        r@.len() == s@.len(),
        forall|i: int|
            0 <= i < s@.len() ==> if 65 <= s@[i] as u32 <= 90 {
                #[trigger] r@[i] as u32 == s@[i] as u32 + 32
            } else {
                r@[i] == s@[i]
            },
{
}

/// One text sorts before another where it is a front of it, or has the smaller
/// character where the two first differ.
pub proof fn law_texts_are_ordered(a: &[char], b: &[char], r: bool, n: int)
    requires
        call_ensures(text_before, (a, b), r),
        0 <= n <= a@.len(),
        n <= b@.len(),
        forall|i: int| 0 <= i < n ==> a@[i] == b@[i],
        n == a@.len() || n == b@.len() || a@[n] != b@[n],
    ensures
        r <==> if n == a@.len() {
            n < b@.len()
        } else {
            n < b@.len() && a@[n] < b@[n]
        },
{
    lemma_order(a@, b@, n);
}

proof fn lemma_order(a: Seq<char>, b: Seq<char>, n: int)
    requires
        0 <= n <= a.len(),
        n <= b.len(),
        forall|i: int| 0 <= i < n ==> a[i] == b[i],
        n == a.len() || n == b.len() || a[n] != b[n],
    ensures
        text_lt(a, b) <==> if n == a.len() {
            n < b.len()
        } else {
            n < b.len() && a[n] < b[n]
        },
    decreases n,
{
    if n > 0 {
        assert(a[0] == b[0]);
        let (x, y) = (a.skip(1), b.skip(1));
        assert forall|i: int| 0 <= i < n - 1 implies x[i] == y[i] by {
            assert(a[i + 1] == b[i + 1]);
        }
        lemma_order(x, y, n - 1);
    }
}

/// Two texts are the same where their characters are.
pub proof fn law_same_texts(a: &str, b: &str, r: bool)
    requires
        call_ensures(same_text, (a, b), r),
    ensures
        r <==> a@.len() == b@.len() && forall|i: int| 0 <= i < a@.len() ==> a@[i] == b@[i],
{
    if a@.len() == b@.len() && forall|i: int| 0 <= i < a@.len() ==> a@[i] == b@[i] {
        assert(a@ =~= b@);
    }
}

// ── Numbers ───────────────────────────────────────────────────────────────────

/// What is no digit is no number, and neither is nothing.
pub proof fn law_numbers_are_digits(d: &[char], max: u32, r: Option<u32>)
    requires
        call_ensures(parse_plain, (d, max), r),
    ensures
        r is Some ==> d@.len() > 0 && r.unwrap() <= max && forall|i: int|
            0 <= i < d@.len() ==> 48 <= #[trigger] d@[i] as u32 <= 57,
        d@.len() == 1 && '0' <= d@[0] <= '9' && d@[0] as u32 - 48 <= max ==> (r matches Some(n) && n
            == d@[0] as u32 - 48),
{
    if d@.len() == 1 {
        assert(d@.drop_last() =~= Seq::<char>::empty());
        assert(dec_value(Seq::<char>::empty()) == 0);
        assert(d@.last() == d@[0]);
        if is_digit(d@[0]) {
            assert(all_digits(d@));
            assert(dec_value(d@) == dec_value(d@.drop_last()) * 10 + (d@.last() as u32 - 48));
        }
    }
    if r is Some {
        assert forall|i: int| 0 <= i < d@.len() implies 48 <= #[trigger] d@[i] as u32 <= 57 by {
            assert(is_digit(d@[i]));
        }
    }
}

/// A digit behind a number makes it ten times as much and the digit more, where that
/// is not too large.
pub proof fn law_digits_count_by_ten(
    d: &[char],
    e: &[char],
    c: char,
    max: u32,
    r: Option<u32>,
    q: Option<u32>,
)
    requires
        call_ensures(parse_plain, (d, max), r),
        call_ensures(parse_plain, (e, max), q),
        e@ == d@.push(c),
        48 <= c as u32 <= 57,
        r is Some,
    ensures
        ({
            let n = r.unwrap() * 10 + (c as u32 - 48);
            &&& n <= max ==> q == Some(n as u32)
            &&& n > max ==> q is None
        }),
{
    assert(e@.drop_last() =~= d@);
    assert forall|i: int| 0 <= i < e@.len() implies is_digit(#[trigger] e@[i]) by {
        if i < d@.len() {
            assert(is_digit(d@[i]));
        }
    }
}

/// A plus sign in front of a number changes nothing, and is not read as anything else.
pub proof fn law_signs(
    d: &[char],
    s: &[char],
    max: u32,
    r: Option<u32>,
    q: Option<u32>,
    p: Option<u32>,
)
    requires
        call_ensures(parse_plain, (d, max), r),
        call_ensures(parse_number, (d, max), q),
        call_ensures(parse_number, (s, max), p),
        s@ == seq!['+'] + d@,
    ensures
        p == r,
        d@.len() == 0 || d@[0] != '+' ==> q == r,
{
    assert(s@.skip(1) =~= d@);
}

/// A 16-bit number is a number up to 65535.
pub proof fn law_ports_are_numbers(s: &[char], r: Option<u16>, q: Option<u32>)
    requires
        call_ensures(parse_u16, (s,), r),
        call_ensures(parse_number, (s, 65535), q),
    ensures
        r is Some <==> q is Some,
        r matches Some(p) ==> p == q.unwrap(),
{
}

/// A number that was written in decimal reads back, and is written without needless
/// zeros.
pub proof fn law_decimals_read_back(n: u64, d: Vec<char>, s: &[char], r: Option<u32>)
    requires
        call_ensures(decimal, (n,), d),
        s@ == d@,
        n <= u32::MAX,
        call_ensures(parse_plain, (s, u32::MAX), r),
    ensures
        r == Some(n as u32),
        d@.len() > 1 ==> d@[0] != '0',
        forall|i: int| 0 <= i < d@.len() ==> 48 <= #[trigger] d@[i] as u32 <= 57,
{
    lemma_dec_text(n as nat);
    assert forall|i: int| 0 <= i < d@.len() implies 48 <= #[trigger] d@[i] as u32 <= 57 by {
        assert(is_digit(d@[i]));
    }
    if n == 0 {
        assert(d@.len() == 1);
    }
}

/// Hexadecimal digits have the values 0 to 15, in either case.
pub proof fn law_hexadecimal_digits(c: char, r: Option<u8>)
    requires
        call_ensures(hex_digit, (c,), r),
    ensures
        48 <= c as u32 <= 57 ==> r == Some((c as u32 - 48) as u8),
        97 <= c as u32 <= 102 ==> r == Some((c as u32 - 87) as u8),
        65 <= c as u32 <= 70 ==> r == Some((c as u32 - 55) as u8),
        !(48 <= c as u32 <= 57) && !(97 <= c as u32 <= 102) && !(65 <= c as u32 <= 70) ==> r is None,
{
}

/// A number in hexadecimal: its last digit is the rest by sixteen, in lower case, and
/// what stands in front of that is its sixteenth.
pub proof fn law_hexadecimals(n: u16, r: Vec<char>, m: u16, q: Vec<char>)
    requires
        call_ensures(hexadecimal, (n,), r),
        call_ensures(hexadecimal, (m,), q),
        m == n / 16,
    ensures
        r@.len() > 0,
        r@.last() as u32 == if n % 16 < 10 {
            48 + n % 16
        } else {
            87 + n % 16
        },
        n >= 16 ==> r@.drop_last() == q@,
        n < 16 ==> r@.len() == 1,
{
    if n >= 16 {
        assert(r@.drop_last() =~= q@);
    }
}

} // verus!
