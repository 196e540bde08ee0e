//! Character-level helpers: decimal rendering and parsing of integers.

use vstd::prelude::*;

verus! {

/// The ASCII digit for `d`, a value in `0..10`.
pub open spec fn digit_char(d: int) -> char {
    if d == 0 { '0' }
    else if d == 1 { '1' }
    else if d == 2 { '2' }
    else if d == 3 { '3' }
    else if d == 4 { '4' }
    else if d == 5 { '5' }
    else if d == 6 { '6' }
    else if d == 7 { '7' }
    else if d == 8 { '8' }
    else { '9' }
}

/// Decimal digits of a natural number, most significant first, without leading zeros.
pub open spec fn decimal(n: nat) -> Seq<char>
    decreases n,
{
    if n < 10 {
        seq![digit_char(n as int)]
    } else {
        decimal(n / 10).push(digit_char((n % 10) as int))
    }
}

/// How `i64`'s `Display` writes an integer: a minus sign for negatives, then the digits.
pub open spec fn int_text(x: int) -> Seq<char> {
    if x < 0 {
        seq!['-'] + decimal((-x) as nat)
    } else {
        decimal(x as nat)
    }
}

/// Appends one character to a string (`String::push`).
#[verifier::external_body]
pub(crate) fn push_char(s: &mut String, c: char)
    ensures
        final(s)@ == old(s)@.push(c),
{
    s.push(c);
}

fn digit(d: u64) -> (c: char)
    requires
        d < 10,
    ensures
        c == digit_char(d as int),
{
    if d == 0 { '0' }
    else if d == 1 { '1' }
    else if d == 2 { '2' }
    else if d == 3 { '3' }
    else if d == 4 { '4' }
    else if d == 5 { '5' }
    else if d == 6 { '6' }
    else if d == 7 { '7' }
    else if d == 8 { '8' }
    else { '9' }
}

fn push_decimal(s: &mut String, n: u64)
    ensures
        final(s)@ == old(s)@ + decimal(n as nat),
    decreases n,
{
    if n >= 10 {
        push_decimal(s, n / 10);
    }
    push_char(s, digit(n % 10));
    assert(final(s)@ =~= old(s)@ + decimal(n as nat)) by {
        if n >= 10 {
            assert(decimal(n as nat) == decimal((n / 10) as nat).push(digit_char((n % 10) as int)));
        }
    }
}

/// The decimal text of `x`, as `x.to_string()` writes it.
pub fn int_to_string(x: i64) -> (s: String)
    ensures
        s@ == int_text(x as int),
{
    let mut s = String::new();
    if x < 0 {
        push_char(&mut s, '-');
        let m: u64 = if x == i64::MIN { 9223372036854775808u64 } else { (-x) as u64 };
        push_decimal(&mut s, m);
    } else {
        push_decimal(&mut s, x as u64);
    }
    assert(s@ =~= int_text(x as int));
    s
}


/// Whether two strings hold the same characters.
pub fn str_eq(a: &str, b: &str) -> (r: bool)
    ensures
        r == (a@ == b@),
{
    let n = a.unicode_len();
    if n != b.unicode_len() {
        return false;
    }
    let mut i: usize = 0;
    while i < n
        invariant
            n == a@.len(),
            n == b@.len(),
            i <= n,
            forall|k: int| 0 <= k < i ==> a@[k] == b@[k],
        decreases n - i,
    {
        if a.get_char(i) != b.get_char(i) {
            return false;
        }
        i += 1;
    }
    assert(a@ =~= b@);
    true
}


/// What `str::to_uppercase` makes of a string.
pub uninterp spec fn upper_case(s: Seq<char>) -> Seq<char>;

/// Calls `str::to_uppercase`. Claimed: the result is `upper_case(s)`, a function of the
/// characters of `s` alone.
#[verifier::external_body]
pub(crate) fn to_uppercase(s: &str) -> (r: String)
    ensures
        r@ == upper_case(s@),
{
    s.to_uppercase()
}

/// The characters with the Unicode `White_Space` property, which `char::is_whitespace` tests.
pub open spec fn is_white_space(c: char) -> bool {
    let u = c as u32;
    ||| 0x9 <= u <= 0xD
    ||| u == 0x20
    ||| u == 0x85
    ||| u == 0xA0
    ||| u == 0x1680
    ||| 0x2000 <= u <= 0x200A
    ||| u == 0x2028
    ||| u == 0x2029
    ||| u == 0x202F
    ||| u == 0x205F
    ||| u == 0x3000
}

/// `s` without its leading white space.
pub open spec fn trim_start(s: Seq<char>) -> Seq<char>
    decreases s.len(),
{
    if s.len() > 0 && is_white_space(s[0]) {
        trim_start(s.drop_first())
    } else {
        s
    }
}

/// `s` without its trailing white space.
pub open spec fn trim_end(s: Seq<char>) -> Seq<char>
    decreases s.len(),
{
    if s.len() > 0 && is_white_space(s.last()) {
        trim_end(s.drop_last())
    } else {
        s
    }
}

/// `s` without leading and trailing white space, as `str::trim` gives it.
pub open spec fn trim(s: Seq<char>) -> Seq<char> {
    trim_end(trim_start(s))
}

/// `s` without the prefix `p` where it starts with `p`; otherwise `s`.
pub open spec fn strip_prefix(s: Seq<char>, p: Seq<char>) -> Seq<char> {
    if p.len() <= s.len() && s.take(p.len() as int) == p {
        s.skip(p.len() as int)
    } else {
        s
    }
}

/// `s` without the suffix `p` where it ends with `p`; otherwise `s`.
pub open spec fn strip_suffix(s: Seq<char>, p: Seq<char>) -> Seq<char> {
    if p.len() <= s.len() && s.skip(s.len() - p.len()) == p {
        s.take(s.len() - p.len())
    } else {
        s
    }
}

/// A host as the user typed it, trimmed, without an `https://` and then an `http://` scheme in
/// front, and without one trailing `/`.
pub open spec fn normalized_host(url: Seq<char>) -> Seq<char> {
    strip_suffix(strip_prefix(strip_prefix(trim(url), "https://"@), "http://"@), "/"@)
}

fn white_space(c: char) -> (b: bool)
    ensures
        b == is_white_space(c),
{
    let u = c as u32;
    (0x9 <= u && u <= 0xD) || u == 0x20 || u == 0x85 || u == 0xA0 || u == 0x1680
        || (0x2000 <= u && u <= 0x200A) || u == 0x2028 || u == 0x2029 || u == 0x202F
        || u == 0x205F || u == 0x3000
}

proof fn lemma_trim_start_skip(s: Seq<char>, i: int)
    requires
        0 <= i < s.len(),
        is_white_space(s[i]),
    ensures
        trim_start(s.skip(i)) == trim_start(s.skip(i + 1)),
{
    assert(s.skip(i).drop_first() =~= s.skip(i + 1));
}

proof fn lemma_trim_end_take(s: Seq<char>, j: int)
    requires
        0 < j <= s.len(),
        is_white_space(s[j - 1]),
    ensures
        trim_end(s.take(j)) == trim_end(s.take(j - 1)),
{
    assert(s.take(j).drop_last() =~= s.take(j - 1));
}

/// Whether the characters of `s` from `start` on begin with those of `p`, within `end`.
fn has_at(s: &str, start: usize, end: usize, p: &str) -> (b: bool)
    requires
        start <= end <= s@.len(),
    ensures
        b == (p@.len() <= end - start && s@.subrange(start as int, start + p@.len()) == p@),
{
    let m = p.unicode_len();
    if m > end - start {
        return false;
    }
    let mut k: usize = 0;
    while k < m
        invariant
            m == p@.len(),
            m <= end - start,
            start <= end <= s@.len(),
            k <= m,
            forall|q: int| 0 <= q < k ==> s@[start + q] == p@[q],
        decreases m - k,
    {
        if s.get_char(start + k) != p.get_char(k) {
            assert(s@.subrange(start as int, start + m)[k as int] != p@[k as int]);
            return false;
        }
        k += 1;
    }
    assert(s@.subrange(start as int, start + m) =~= p@);
    true
}

/// Cleans up a host as the user typed it: trims white space, drops an `https://` and then an
/// `http://` in front, and one trailing `/`.
pub fn normalize_host(url: &str) -> (r: String)
    ensures
        r@ == normalized_host(url@),
{
    let ghost s = url@;
    let n = url.unicode_len();
    let mut start: usize = 0;
    assert(s.skip(0) =~= s);
    while start < n && white_space(url.get_char(start))
        invariant
            n == s.len(),
            s == url@,
            start <= n,
            trim_start(s) == trim_start(s.skip(start as int)),
        decreases n - start,
    {
        proof {
            lemma_trim_start_skip(s, start as int);
        }
        start += 1;
    }
    proof {
        assert(trim_start(s) == s.skip(start as int)) by {
            if start < n {
                assert(s.skip(start as int)[0] == s[start as int]);
            }
        }
    }
    let ghost rest = s.skip(start as int);
    let mut end: usize = n;
    assert(rest.take(rest.len() as int) =~= rest);
    while end > start && white_space(url.get_char(end - 1))
        invariant
            n == s.len(),
            s == url@,
            rest == s.skip(start as int),
            start <= end <= n,
            trim_end(rest) == trim_end(rest.take(end - start)),
        decreases end,
    {
        proof {
            assert(rest[end - start - 1] == s[end - 1]);
            lemma_trim_end_take(rest, end - start);
        }
        end -= 1;
    }
    proof {
        assert(rest.take(end - start) =~= s.subrange(start as int, end as int));
        if end > start {
            assert(s.subrange(start as int, end as int).last() == s[end - 1]);
        }
        assert(trim(s) == s.subrange(start as int, end as int));
    }
    let ghost t0 = s.subrange(start as int, end as int);
    proof {
        reveal_strlit("https://");
        reveal_strlit("http://");
        reveal_strlit("/");
    }
    if has_at(url, start, end, "https://") {
        assert(t0.take(8) =~= s.subrange(start as int, start + 8));
        start = start + 8;
        assert(t0.skip(8) =~= s.subrange(start as int, end as int));
    } else {
        assert(!(8 <= t0.len() && t0.take(8) == "https://"@)) by {
            if 8 <= t0.len() {
                assert(t0.take(8) =~= s.subrange(start as int, start + 8));
            }
        }
    }
    let ghost t1 = s.subrange(start as int, end as int);
    assert(t1 == strip_prefix(t0, "https://"@));
    if has_at(url, start, end, "http://") {
        assert(t1.take(7) =~= s.subrange(start as int, start + 7));
        start = start + 7;
        assert(t1.skip(7) =~= s.subrange(start as int, end as int));
    } else {
        assert(!(7 <= t1.len() && t1.take(7) == "http://"@)) by {
            if 7 <= t1.len() {
                assert(t1.take(7) =~= s.subrange(start as int, start + 7));
            }
        }
    }
    let ghost t2 = s.subrange(start as int, end as int);
    assert(t2 == strip_prefix(t1, "http://"@));
    if end > start && url.get_char(end - 1) == '/' {
        assert(t2.skip(t2.len() - 1) =~= "/"@);
        end = end - 1;
        assert(t2.take(t2.len() - 1) =~= s.subrange(start as int, end as int));
    } else {
        assert(!(1 <= t2.len() && t2.skip(t2.len() - 1) == "/"@)) by {
            if 1 <= t2.len() {
                assert(t2.skip(t2.len() - 1)[0] == s[end - 1]);
            }
        }
    }
    assert(s.subrange(start as int, end as int) == normalized_host(url@));
    let host = url.substring_char(start, end);
    host.to_string()
}


/// An ASCII decimal digit.
pub open spec fn is_digit(c: char) -> bool {
    '0' <= c <= '9'
}

/// The value of a string of decimal digits.
pub open spec fn digits_value(s: Seq<char>) -> int
    decreases s.len(),
{
    if s.len() == 0 {
        0
    } else {
        digits_value(s.drop_last()) * 10 + (s.last() as int - '0' as int)
    }
}

/// Every character of `s` is an ASCII digit.
pub open spec fn all_digits(s: Seq<char>) -> bool {
    forall|i: int| 0 <= i < s.len() ==> is_digit(#[trigger] s[i])
}

/// `s` without a leading sign.
pub open spec fn unsigned_part(s: Seq<char>) -> Seq<char> {
    if s.len() > 0 && (s[0] == '-' || s[0] == '+') { s.drop_first() } else { s }
}

/// What `str::parse::<i64>` gives: an optional `+` or `-`, then one or more ASCII digits, and
/// a value that fits in `i64`; otherwise nothing.
pub open spec fn parsed_i64(s: Seq<char>) -> Option<int> {
    let neg = s.len() > 0 && s[0] == '-';
    let body = unsigned_part(s);
    if body.len() == 0 || !all_digits(body) {
        None
    } else {
        let v = if neg { -digits_value(body) } else { digits_value(body) };
        if i64::MIN <= v <= i64::MAX { Some(v) } else { None }
    }
}

proof fn lemma_digits_monotone(s: Seq<char>, i: int)
    requires
        0 <= i <= s.len(),
        forall|k: int| 0 <= k < s.len() ==> is_digit(#[trigger] s[k]),
    ensures
        digits_value(s.take(i)) <= digits_value(s),
        0 <= digits_value(s.take(i)),
    decreases s.len() - i,
{
    if i < s.len() {
        lemma_digits_monotone(s, i + 1);
        assert(s.take(i + 1).drop_last() =~= s.take(i));
        assert(s.take(i + 1).last() == s[i]);
        assert(is_digit(s[i]));
    } else {
        assert(s.take(i) =~= s);
        lemma_digits_nonneg(s);
    }
}

proof fn lemma_digits_nonneg(s: Seq<char>)
    requires
        forall|k: int| 0 <= k < s.len() ==> is_digit(#[trigger] s[k]),
    ensures
        0 <= digits_value(s),
    decreases s.len(),
{
    if s.len() > 0 {
        assert(is_digit(s.last()));
        lemma_digits_nonneg(s.drop_last());
    }
}

/// Parses a decimal integer as `str::parse::<i64>` does.
pub fn parse_i64(s: &str) -> (r: Option<i64>)
    ensures
        match r {
            Some(v) => parsed_i64(s@) == Some(v as int),
            None => parsed_i64(s@) is None,
        },
{
    let n = s.unicode_len();
    let ghost sv = s@;
    if n == 0 {
        return None;
    }
    let first = s.get_char(0);
    let neg = first == '-';
    let start: usize = if first == '-' || first == '+' { 1 } else { 0 };
    let ghost body = if start == 1 { sv.drop_first() } else { sv };
    assert(body =~= sv.skip(start as int));
    if start == n {
        return None;
    }
    let limit: u128 = if neg { 9223372036854775808u128 } else { 9223372036854775807u128 };
    let mut acc: u128 = 0;
    let mut i: usize = start;
    while i < n
        invariant
            n == sv.len(),
            sv == s@,
            start <= i <= n,
            body == sv.skip(start as int),
            body == unsigned_part(sv),
            forall|k: int| 0 <= k < i - start ==> is_digit(#[trigger] body[k]),
            acc == digits_value(body.take(i - start)),
            acc <= limit,
            limit == (if neg { 9223372036854775808u128 } else { 9223372036854775807u128 }),
            n > 0,
            sv[0] == first,
            neg == (first == '-'),
            start == (if first == '-' || first == '+' { 1usize } else { 0usize }),
        decreases n - i,
    {
        let c = s.get_char(i);
        if !('0' <= c && c <= '9') {
            assert(body[i - start] == c);
            assert(!is_digit(body[i - start]));
            assert(!all_digits(body));
            assert(sv[0] == first);
            assert(parsed_i64(sv) is None);
            return None;
        }
        let d = (c as u32 - '0' as u32) as u128;
        proof {
            assert(body[i - start] == c);
            assert(body.take(i - start + 1).drop_last() =~= body.take(i - start));
            assert(body.take(i - start + 1).last() == c);
        }
        acc = acc * 10 + d;
        i += 1;
        assert(acc == digits_value(body.take(i - start)));
        if acc > limit {
            proof {
                assert(is_digit(body[i - start - 1]));
                let b = body.take(i - start);
                assert forall|k: int| 0 <= k < b.len() implies is_digit(#[trigger] b[k]) by {
                    assert(b[k] == body[k]);
                }
                if all_digits(body) {
                    lemma_digits_monotone(body, i - start);
                    assert(digits_value(body) > limit);
                }
                assert(sv[0] == first);
                assert(parsed_i64(sv) is None);
            }
            return None;
        }
    }
    proof {
        assert(body.take(n - start) =~= body);
    }
    if neg {
        if acc == 9223372036854775808u128 {
            Some(i64::MIN)
        } else {
            Some(-(acc as i64))
        }
    } else {
        Some(acc as i64)
    }
}

} // verus!
