//! Character-level helpers on string slices, stated over their views.

use vstd::prelude::*;

verus! {

/// The characters of `s`, in order.
pub fn chars_of(s: &str) -> (v: Vec<char>)
    ensures
        v@ == s@,
{
    let n = s.unicode_len();
    let mut v: Vec<char> = Vec::new();
    let mut k: usize = 0;
    while k < n
        invariant
            n == s@.len(),
            0 <= k <= n,
            v@ == s@.subrange(0, k as int),
        decreases n - k,
    {
        v.push(s.get_char(k));
        k = k + 1;
    }
    assert(v@ =~= s@);
    v
}

/// Whether two string slices hold the same characters.
pub fn str_eq(a: &str, b: &str) -> (r: bool)
    ensures
        r == (a@ == b@),
{
    let x: String = a.to_owned();
    let y: String = b.to_owned();
    x == y
}

/// `s` begins with the characters of `prefix`.
pub open spec fn has_prefix(s: Seq<char>, prefix: Seq<char>) -> bool {
    prefix.len() <= s.len() && s.subrange(0, prefix.len() as int) == prefix
}

/// Whether `s` begins with `prefix`.
pub fn str_starts_with(s: &str, prefix: &str) -> (r: bool)
    ensures
        r == has_prefix(s@, prefix@),
{
    let n = s.unicode_len();
    let m = prefix.unicode_len();
    if m > n {
        return false;
    }
    let mut k: usize = 0;
    while k < m
        invariant
            n == s@.len(),
            m == prefix@.len(),
            m <= n,
            0 <= k <= m,
            forall|j: int| 0 <= j < k ==> s@[j] == prefix@[j],
        decreases m - k,
    {
        if s.get_char(k) != prefix.get_char(k) {
            assert(s@.subrange(0, m as int)[k as int] != prefix@[k as int]);
            return false;
        }
        k = k + 1;
    }
    assert(s@.subrange(0, m as int) =~= prefix@);
    true
}

/// Lexicographic order on character sequences (by code point), the order
/// of `str`'s `Ord`.
pub open spec fn lex_lt(a: Seq<char>, b: Seq<char>) -> bool
    decreases a.len(),
{
    if b.len() == 0 {
        false
    } else if a.len() == 0 {
        true
    } else if a[0] != b[0] {
        a[0] < b[0]
    } else {
        lex_lt(a.drop_first(), b.drop_first())
    }
}

/// `lex_lt` is a strict total order.
pub proof fn lemma_lex_order(a: Seq<char>, b: Seq<char>, c: Seq<char>)
    ensures
        !lex_lt(a, a),
        lex_lt(a, b) && lex_lt(b, c) ==> lex_lt(a, c),
        a != b ==> lex_lt(a, b) || lex_lt(b, a),
    decreases a.len(),
{
    if a.len() > 0 && b.len() > 0 {
        lemma_lex_order(a.drop_first(), b.drop_first(), c.drop_first());
        if a[0] == b[0] && a.drop_first() == b.drop_first() {
            assert forall|i: int| 0 <= i < a.len() implies a[i] == b[i] by {
                if i > 0 {
                    assert(a[i] == a.drop_first()[i - 1]);
                    assert(b[i] == b.drop_first()[i - 1]);
                }
            }
            assert(a =~= b);
        }
    } else if a.len() > 0 {
        lemma_lex_order(a.drop_first(), a.drop_first(), a.drop_first());
    } else if b.len() == 0 {
        assert(a =~= b);
    }
}

/// Whether `a` sorts before `b`.
pub fn str_lt(a: &str, b: &str) -> (r: bool)
    ensures
        r == lex_lt(a@, b@),
{
    let x = chars_of(a);
    let y = chars_of(b);
    let n = x.len();
    let m = y.len();
    let mut k: usize = 0;
    assert(a@.skip(0) =~= a@);
    assert(b@.skip(0) =~= b@);
    while k < n && k < m && x[k] == y[k]
        invariant
            x@ == a@,
            y@ == b@,
            n == x@.len(),
            m == y@.len(),
            0 <= k <= n,
            k <= m,
            lex_lt(a@, b@) == lex_lt(a@.skip(k as int), b@.skip(k as int)),
        decreases n - k,
    {
        assert(a@.skip(k as int).drop_first() =~= a@.skip(k + 1));
        assert(b@.skip(k as int).drop_first() =~= b@.skip(k + 1));
        k = k + 1;
    }
    if k == m {
        false
    } else if k == n {
        true
    } else {
        assert(a@.skip(k as int)[0] == x@[k as int]);
        assert(b@.skip(k as int)[0] == y@[k as int]);
        x[k] < y[k]
    }
}

/// Characters with the Unicode `White_Space` property, the whitespace of
/// `char::is_whitespace` and `str::trim`.
pub open spec fn is_ws(c: char) -> bool {
    ||| ('\u{9}' <= c && c <= '\u{d}')
    ||| c == ' '
    ||| c == '\u{85}'
    ||| c == '\u{a0}'
    ||| c == '\u{1680}'
    ||| ('\u{2000}' <= c && c <= '\u{200a}')
    ||| c == '\u{2028}'
    ||| c == '\u{2029}'
    ||| c == '\u{202f}'
    ||| c == '\u{205f}'
    ||| c == '\u{3000}'
}

/// Whether `c` is whitespace.
pub fn char_is_ws(c: char) -> (r: bool)
    ensures
        r == is_ws(c),
{
    ('\u{9}' <= c && c <= '\u{d}') || c == ' ' || c == '\u{85}' || c == '\u{a0}' || c
        == '\u{1680}' || ('\u{2000}' <= c && c <= '\u{200a}') || c == '\u{2028}' || c
        == '\u{2029}' || c == '\u{202f}' || c == '\u{205f}' || c == '\u{3000}'
}

/// `s` without leading whitespace.
pub open spec fn trim_start(s: Seq<char>) -> Seq<char>
    decreases s.len(),
{
    if s.len() > 0 && is_ws(s[0]) {
        trim_start(s.drop_first())
    } else {
        s
    }
}

/// `s` without trailing whitespace.
pub open spec fn trim_end(s: Seq<char>) -> Seq<char>
    decreases s.len(),
{
    if s.len() > 0 && is_ws(s.last()) {
        trim_end(s.drop_last())
    } else {
        s
    }
}

/// `s` without leading and trailing whitespace.
pub open spec fn trim(s: Seq<char>) -> Seq<char> {
    trim_end(trim_start(s))
}

/// `s` without leading and trailing whitespace.
pub fn str_trim(s: &str) -> (r: &str)
    ensures
        r@ == trim(s@),
{
    let n = s.unicode_len();
    let mut lo: usize = 0;
    assert(s@.subrange(0, n as int) =~= s@);
    while lo < n && char_is_ws(s.get_char(lo))
        invariant
            n == s@.len(),
            0 <= lo <= n,
            trim_start(s@) == trim_start(s@.subrange(lo as int, n as int)),
        decreases n - lo,
    {
        assert(s@.subrange(lo as int, n as int).drop_first() =~= s@.subrange(lo + 1, n as int));
        lo = lo + 1;
    }
    let ghost front = s@.subrange(lo as int, n as int);
    assert(trim_start(s@) == front);
    let mut hi: usize = n;
    assert(front.subrange(0, (hi - lo) as int) =~= front);
    while hi > lo && char_is_ws(s.get_char(hi - 1))
        invariant
            n == s@.len(),
            0 <= lo <= hi <= n,
            front == s@.subrange(lo as int, n as int),
            trim_end(front) == trim_end(s@.subrange(lo as int, hi as int)),
        decreases hi,
    {
        assert(s@.subrange(lo as int, hi as int).drop_last() =~= s@.subrange(lo as int, hi - 1));
        hi = hi - 1;
    }
    s.substring_char(lo, hi)
}

/// The position of the first space in `s`.
pub open spec fn space_index(s: Seq<char>) -> Option<int>
    decreases s.len(),
{
    if s.len() == 0 {
        None
    } else if s[0] == ' ' {
        Some(0)
    } else {
        match space_index(s.drop_first()) {
            Some(i) => Some(i + 1),
            None => None,
        }
    }
}

/// `s` split at its first space, as `splitn(2, ' ')` does: the part before
/// it, and the part after it when there is a space.
pub open spec fn split_at_space(s: Seq<char>) -> (Seq<char>, Option<Seq<char>>) {
    match space_index(s) {
        Some(i) => (s.subrange(0, i), Some(s.subrange(i + 1, s.len() as int))),
        None => (s, None),
    }
}

/// `s` split at its first space.
pub fn str_split_at_space(s: &str) -> (r: (&str, Option<&str>))
    ensures
        (r.0@, match r.1 {
            Some(t) => Some(t@),
            None => None,
        }) == split_at_space(s@),
{
    let n = s.unicode_len();
    let mut k: usize = 0;
    assert(s@.subrange(0, n as int) =~= s@);
    while k < n && s.get_char(k) != ' '
        invariant
            n == s@.len(),
            0 <= k <= n,
            forall|j: int| 0 <= j < k ==> s@[j] != ' ',
            space_index(s@) == match space_index(s@.subrange(k as int, n as int)) {
                Some(i) => Some(i + k),
                None => None,
            },
        decreases n - k,
    {
        assert(s@.subrange(k as int, n as int).drop_first() =~= s@.subrange(k + 1, n as int));
        k = k + 1;
    }
    if k == n {
        assert(s@.subrange(n as int, n as int).len() == 0);
        (s, None)
    } else {
        (s.substring_char(0, k), Some(s.substring_char(k + 1, n)))
    }
}

/// The value of a string of decimal digits.
pub open spec fn decimal_value(d: Seq<char>) -> int
    decreases d.len(),
{
    if d.len() == 0 {
        0
    } else {
        decimal_value(d.drop_last()) * 10 + (d.last() as int - '0' as int)
    }
}

/// Every character is an ASCII digit.
pub open spec fn all_digits(d: Seq<char>) -> bool {
    forall|i: int| 0 <= i < d.len() ==> '0' <= #[trigger] d[i] && d[i] <= '9'
}

/// What `u32::from_str` gives: an optional `+`, then at least one decimal
/// digit and nothing else, with a value that fits in `u32`.
pub open spec fn parse_u32_spec(s: Seq<char>) -> Option<u32> {
    let d = if s.len() > 0 && s[0] == '+' {
        s.drop_first()
    } else {
        s
    };
    if d.len() > 0 && all_digits(d) && decimal_value(d) <= u32::MAX {
        Some(decimal_value(d) as u32)
    } else {
        None
    }
}

proof fn lemma_decimal_value_nonneg(d: Seq<char>)
    requires
        all_digits(d),
    ensures
        decimal_value(d) >= 0,
    decreases d.len(),
{
    if d.len() > 0 {
        lemma_decimal_value_nonneg(d.drop_last());
    }
}

proof fn lemma_leading_zero_value(d: Seq<char>)
    ensures
        decimal_value(seq!['0'].add(d)) == decimal_value(d),
    decreases d.len(),
{
    let z = seq!['0'].add(d);
    if d.len() == 0 {
        assert(z.drop_last() =~= Seq::<char>::empty());
        assert(z.last() == '0');
        assert(decimal_value(z) == decimal_value(z.drop_last()) * 10 + (z.last() as int - '0' as int));
    } else {
        lemma_leading_zero_value(d.drop_last());
        assert(z.drop_last() =~= seq!['0'].add(d.drop_last()));
        assert(z.last() == d.last());
        assert(decimal_value(z) == decimal_value(z.drop_last()) * 10 + (z.last() as int - '0' as int));
        assert(decimal_value(d) == decimal_value(d.drop_last()) * 10 + (d.last() as int - '0' as int));
    }
}

/// A line number reads the same with or without leading zeros and with or
/// without one `+` in front; a sign other than one leading `+`, or any
/// character that is not a decimal digit, makes it no number; and a number
/// read is the decimal value of its digits.
pub proof fn parse_u32_reads_decimal_digits(d: Seq<char>)
    ensures
        d.len() > 0 && d[0] != '+' ==> parse_u32_spec(seq!['0'].add(d)) == parse_u32_spec(d),
        !(d.len() > 0 && d[0] == '+') ==> parse_u32_spec(seq!['+'].add(d)) == parse_u32_spec(d),
        parse_u32_spec(seq!['-'].add(d)) is None,
        parse_u32_spec(Seq::<char>::empty()) is None,
        all_digits(d) && d.len() > 0 ==> parse_u32_spec(d) == (if decimal_value(d) <= u32::MAX {
            Some(decimal_value(d) as u32)
        } else {
            None
        }),
        !(d.len() > 0 && d[0] == '+') && !all_digits(d) ==> parse_u32_spec(d) is None,
{
    let z = seq!['0'].add(d);
    let p = seq!['+'].add(d);
    let m = seq!['-'].add(d);
    assert(p.drop_first() =~= d);
    assert(m[0] == '-');
    assert(!all_digits(m)) by {
        assert(!('0' <= m[0] && m[0] <= '9'));
    }
    if d.len() > 0 {
        lemma_leading_zero_value(d);
        assert(z[0] == '0');
        assert(all_digits(z) <==> all_digits(d)) by {
            if all_digits(d) {
                assert forall|i: int| 0 <= i < z.len() implies '0' <= #[trigger] z[i] && z[i] <= '9' by {
                    if i > 0 {
                        assert(z[i] == d[i - 1]);
                    }
                }
            }
            if all_digits(z) {
                assert forall|i: int| 0 <= i < d.len() implies '0' <= #[trigger] d[i] && d[i] <= '9' by {
                    assert(z[i + 1] == d[i]);
                }
            }
        }
        if d[0] == '+' {
            assert(!all_digits(d)) by {
                assert(!('0' <= d[0] && d[0] <= '9'));
            }
        }
    }
}

/// Parses a line number the way `str::parse::<u32>` does.
pub fn parse_u32(s: &str) -> (r: Option<u32>)
    ensures
        r == parse_u32_spec(s@),
{
    let n = s.unicode_len();
    let start: usize = if n > 0 && s.get_char(0) == '+' {
        1
    } else {
        0
    };
    let ghost d = s@.subrange(start as int, n as int);
    assert(d =~= (if s@.len() > 0 && s@[0] == '+' {
        s@.drop_first()
    } else {
        s@
    }));
    if start == n {
        return None;
    }
    let mut acc: u64 = 0;
    let mut overflow = false;
    let mut k: usize = start;
    while k < n
        invariant
            n == s@.len(),
            start <= k <= n,
            d == s@.subrange(start as int, n as int),
            d == (if s@.len() > 0 && s@[0] == '+' {
                s@.drop_first()
            } else {
                s@
            }),
            all_digits(s@.subrange(start as int, k as int)),
            overflow ==> decimal_value(s@.subrange(start as int, k as int)) > u32::MAX,
            !overflow ==> acc == decimal_value(s@.subrange(start as int, k as int)),
            acc <= u32::MAX,
        decreases n - k,
    {
        let c = s.get_char(k);
        let ghost pre = s@.subrange(start as int, k as int);
        let ghost post = s@.subrange(start as int, k + 1);
        assert(post.drop_last() =~= pre);
        if !('0' <= c && c <= '9') {
            assert(d[k - start] == c);
            assert(!('0' <= d[k - start] && d[k - start] <= '9'));
            assert(!all_digits(d));
            return None;
        }
        proof {
            lemma_decimal_value_nonneg(pre);
        }
        let digit = (c as u32 - '0' as u32) as u64;
        if !overflow {
            let next = acc * 10 + digit;
            if next > 0xFFFF_FFFF {
                overflow = true;
                acc = 0;
            } else {
                acc = next;
            }
        }
        k = k + 1;
    }
    assert(s@.subrange(start as int, n as int) =~= d);
    if overflow {
        None
    } else {
        Some(acc as u32)
    }
}

/// `s` without trailing `'\n'`s, and then without trailing `'\r'`s.
pub open spec fn strip_line_end(s: Seq<char>) -> Seq<char> {
    strip_trailing(strip_trailing(s, '\n'), '\r')
}

/// `s` without any trailing copies of `c`.
pub open spec fn strip_trailing(s: Seq<char>, c: char) -> Seq<char>
    decreases s.len(),
{
    if s.len() > 0 && s.last() == c {
        strip_trailing(s.drop_last(), c)
    } else {
        s
    }
}

fn str_strip_trailing(s: &str, c: char) -> (r: &str)
    ensures
        r@ == strip_trailing(s@, c),
{
    let n = s.unicode_len();
    let mut hi: usize = n;
    assert(s@.subrange(0, n as int) =~= s@);
    while hi > 0 && s.get_char(hi - 1) == c
        invariant
            n == s@.len(),
            0 <= hi <= n,
            strip_trailing(s@, c) == strip_trailing(s@.subrange(0, hi as int), c),
        decreases hi,
    {
        assert(s@.subrange(0, hi as int).drop_last() =~= s@.subrange(0, hi - 1));
        hi = hi - 1;
    }
    s.substring_char(0, hi)
}

/// A line as read from the terminal, without its line ending
/// (`trim_end_matches('\n')` then `trim_end_matches('\r')`).
pub fn strip_line_ending(s: &str) -> (r: &str)
    ensures
        r@ == strip_line_end(s@),
{
    let t = str_strip_trailing(s, '\n');
    str_strip_trailing(t, '\r')
}

} // verus!
