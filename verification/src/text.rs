use vstd::prelude::*;

verus! {

/// Whether `c` has the Unicode `White_Space` property, the set of characters
/// that `str::trim` removes.
pub open spec fn is_unicode_whitespace(c: char) -> bool {
    let u = c as u32;
    ||| 0x09 <= u <= 0x0d
    ||| u == 0x20
    ||| u == 0x85
    ||| u == 0xa0
    ||| u == 0x1680
    ||| 0x2000 <= u <= 0x200a
    ||| u == 0x2028
    ||| u == 0x2029
    ||| u == 0x202f
    ||| u == 0x205f
    ||| u == 0x3000
}

/// Executable test of the `White_Space` property.
pub fn is_whitespace_char(c: char) -> (r: bool)
    ensures
        r == is_unicode_whitespace(c),
{
    let u = c as u32;
    (0x09 <= u && u <= 0x0d) || u == 0x20 || u == 0x85 || u == 0xa0 || u == 0x1680 || (0x2000
        <= u && u <= 0x200a) || u == 0x2028 || u == 0x2029 || u == 0x202f || u == 0x205f || u
        == 0x3000
}

/// The characters of `s`, in order.
pub fn chars_of(s: &str) -> (v: Vec<char>)
    ensures
        v@ == s@,
{
    let mut v: Vec<char> = Vec::new();
    for c in it: s.chars()
        invariant
            v@ == it.seq().take(it.index()),
    {
        v.push(c);
    }
    v
}


/// `s` without its leading `White_Space` characters.
pub open spec fn trim_start(s: Seq<char>) -> Seq<char>
    decreases s.len(),
{
    if s.len() > 0 && is_unicode_whitespace(s[0]) {
        trim_start(s.drop_first())
    } else {
        s
    }
}

/// `s` without its trailing `White_Space` characters.
pub open spec fn trim_end(s: Seq<char>) -> Seq<char>
    decreases s.len(),
{
    if s.len() > 0 && is_unicode_whitespace(s.last()) {
        trim_end(s.drop_last())
    } else {
        s
    }
}

/// `s` without its leading and trailing `White_Space` characters, as
/// `str::trim` computes it.
pub open spec fn trim(s: Seq<char>) -> Seq<char> {
    trim_end(trim_start(s))
}

/// A sequence with no whitespace at either end is its own trim.
pub proof fn lemma_trim_unchanged(s: Seq<char>)
    requires
        s.len() > 0 ==> !is_unicode_whitespace(s[0]) && !is_unicode_whitespace(s.last()),
    ensures
        trim(s) == s,
{
}

/// Whether every character of `s` is `White_Space`.
pub open spec fn all_whitespace(s: Seq<char>) -> bool {
    forall|i: int| 0 <= i < s.len() ==> is_unicode_whitespace(#[trigger] s[i])
}

/// Leading whitespace does not survive `trim_start`.
pub proof fn lemma_trim_start_skips(pre: Seq<char>, s: Seq<char>)
    requires
        all_whitespace(pre),
    ensures
        trim_start(pre + s) == trim_start(s),
    decreases pre.len(),
{
    if pre.len() > 0 {
        assert((pre + s)[0] == pre[0]);
        assert((pre + s).drop_first() =~= pre.drop_first() + s);
        lemma_trim_start_skips(pre.drop_first(), s);
    } else {
        assert(pre + s =~= s);
    }
}

/// Trailing whitespace does not survive `trim_end`.
pub proof fn lemma_trim_end_skips(s: Seq<char>, post: Seq<char>)
    requires
        all_whitespace(post),
    ensures
        trim_end(s + post) == trim_end(s),
    decreases post.len(),
{
    if post.len() > 0 {
        assert((s + post).last() == post.last());
        assert((s + post).drop_last() =~= s + post.drop_last());
        lemma_trim_end_skips(s, post.drop_last());
    } else {
        assert(s + post =~= s);
    }
}

/// Trimming `pre + core + post` leaves `core` when `pre` and `post` are
/// whitespace and `core` neither starts nor ends with whitespace.
pub proof fn lemma_trim_surrounded(pre: Seq<char>, core: Seq<char>, post: Seq<char>)
    requires
        all_whitespace(pre),
        all_whitespace(post),
        core.len() > 0,
        !is_unicode_whitespace(core[0]),
        !is_unicode_whitespace(core.last()),
    ensures
        trim(pre + core + post) == core,
{
    assert(pre + core + post =~= pre + (core + post));
    lemma_trim_start_skips(pre, core + post);
    assert((core + post)[0] == core[0]);
    lemma_trim_end_skips(core, post);
}

/// The bounds `(a, b)` of the trimmed part of `v[start..end]`.
pub fn trim_bounds(v: &Vec<char>, start: usize, end: usize) -> (r: (usize, usize))
    requires
        start <= end <= v.len(),
    ensures
        start <= r.0 <= r.1 <= end,
        v@.subrange(r.0 as int, r.1 as int) == trim(v@.subrange(start as int, end as int)),
{
    let mut a = start;
    while a < end && is_whitespace_char(v[a])
        invariant
            start <= a <= end <= v.len(),
            trim_start(v@.subrange(start as int, end as int)) == trim_start(
                v@.subrange(a as int, end as int),
            ),
        decreases end - a,
    {
        assert(v@.subrange(a as int, end as int).drop_first() =~= v@.subrange(
            a + 1,
            end as int,
        ));
        a = a + 1;
    }
    assert(trim_start(v@.subrange(a as int, end as int)) == v@.subrange(a as int, end as int)) by {
        if a < end {
            assert(v@.subrange(a as int, end as int)[0] == v@[a as int]);
        }
    }
    let mut b = end;
    while b > a && is_whitespace_char(v[b - 1])
        invariant
            start <= a <= b <= end <= v.len(),
            trim_end(v@.subrange(a as int, end as int)) == trim_end(
                v@.subrange(a as int, b as int),
            ),
        decreases b - a,
    {
        assert(v@.subrange(a as int, b as int).drop_last() =~= v@.subrange(a as int, b - 1));
        b = b - 1;
    }
    assert(trim_end(v@.subrange(a as int, b as int)) == v@.subrange(a as int, b as int)) by {
        if b > a {
            assert(v@.subrange(a as int, b as int).last() == v@[b - 1]);
        }
    }
    (a, b)
}

/// Whether `c` is one of the ASCII digits `0` to `9`.
pub open spec fn is_ascii_digit(c: char) -> bool {
    0x30 <= c as u32 <= 0x39
}

/// The value of the ASCII digit `c`.
pub open spec fn digit_value(c: char) -> nat {
    (c as u32 - 0x30) as nat
}

/// Whether every character of `s` is an ASCII digit.
pub open spec fn all_ascii_digits(s: Seq<char>) -> bool {
    forall|i: int| 0 <= i < s.len() ==> is_ascii_digit(#[trigger] s[i])
}

/// The number that the decimal digits `s` denote.
pub open spec fn digits_value(s: Seq<char>) -> nat
    decreases s.len(),
{
    if s.len() == 0 {
        0
    } else {
        digits_value(s.drop_last()) * 10 + digit_value(s.last())
    }
}

/// `s` without one leading `+` sign, if it has one.
pub open spec fn strip_plus(s: Seq<char>) -> Seq<char> {
    if s.len() > 0 && s[0] == '+' {
        s.drop_first()
    } else {
        s
    }
}

/// What `str::parse::<u16>` gives for `s`: an optional `+` followed by at
/// least one ASCII digit, denoting a value that fits in a `u16`.
pub open spec fn parse_u16(s: Seq<char>) -> Option<u16> {
    let d = strip_plus(s);
    if d.len() > 0 && all_ascii_digits(d) && digits_value(d) <= 0xffff {
        Some(digits_value(d) as u16)
    } else {
        None
    }
}

/// `str::parse::<u16>` on ASCII digits, after an optional `+`: a nonempty
/// digit string is read as its value exactly when that value fits in a `u16`,
/// and any other character makes it fail.
pub proof fn lemma_parse_u16_reads_digits(d: Seq<char>, i: int)
    ensures
        d.len() > 0 && all_ascii_digits(d) ==> parse_u16(d) == (if digits_value(d) <= 0xffff {
            Some(digits_value(d) as u16)
        } else {
            None
        }),
        d.len() > 0 && all_ascii_digits(d) ==> parse_u16(seq!['+'] + d) == parse_u16(d),
        0 <= i < d.len() && !is_ascii_digit(d[i]) && (i > 0 || d[0] != '+') ==> parse_u16(d)
            is None,
{
    if d.len() > 0 && all_ascii_digits(d) {
        assert(is_ascii_digit(d[0]));
        assert(strip_plus(d) == d);
        assert((seq!['+'] + d)[0] == '+');
        assert(strip_plus(seq!['+'] + d) =~= d);
    }
    if 0 <= i < d.len() && !is_ascii_digit(d[i]) && (i > 0 || d[0] != '+') {
        let s = strip_plus(d);
        if d[0] == '+' {
            assert(s[i - 1] == d[i]);
        } else {
            assert(s[i] == d[i]);
        }
    }
}

/// Appending digits never makes the value smaller.
pub proof fn lemma_digits_prefix_le(d: Seq<char>, k: int)
    requires
        0 <= k <= d.len(),
    ensures
        digits_value(d.take(k)) <= digits_value(d),
    decreases d.len(),
{
    if k < d.len() {
        lemma_digits_prefix_le(d.drop_last(), k);
        assert(d.drop_last().take(k) =~= d.take(k));
    } else {
        assert(d.take(k) =~= d);
    }
}

/// Parses the characters `v[start..end]` as `str::parse::<u16>` does.
pub fn parse_u16_range(v: &Vec<char>, start: usize, end: usize) -> (r: Option<u16>)
    requires
        start <= end <= v.len(),
    ensures
        r == parse_u16(v@.subrange(start as int, end as int)),
{
    let ghost s = v@.subrange(start as int, end as int);
    let mut i = start;
    if i < end && v[i] == '+' {
        i = i + 1;
    }
    let ghost d = v@.subrange(i as int, end as int);
    assert(d =~= strip_plus(s));
    if i == end {
        return None;
    }
    let mut acc: u32 = 0;
    let mut j = i;
    while j < end
        invariant
            start <= i < end <= v.len(),
            i <= j <= end,
            d == v@.subrange(i as int, end as int),
            d == strip_plus(s),
            s == v@.subrange(start as int, end as int),
            all_ascii_digits(v@.subrange(i as int, j as int)),
            acc == digits_value(v@.subrange(i as int, j as int)),
            acc <= 0xffff,
        decreases end - j,
    {
        let c = v[j];
        let u = c as u32;
        if u < 0x30 || u > 0x39 {
            assert(!is_ascii_digit(d[j - i]));
            return None;
        }
        assert(v@.subrange(i as int, j + 1).drop_last() =~= v@.subrange(i as int, j as int));
        acc = acc * 10 + (u - 0x30);
        if acc > 0xffff {
            proof {
                if all_ascii_digits(d) {
                    lemma_digits_prefix_le(d, j + 1 - i);
                    assert(d.take(j + 1 - i) =~= v@.subrange(i as int, j + 1));
                }
            }
            return None;
        }
        j = j + 1;
    }
    assert(v@.subrange(i as int, j as int) =~= d);
    Some(acc as u16)
}

/// The character of the decimal digit `d`.
pub open spec fn digit_char(d: nat) -> char {
    if d == 0 {
        '0'
    } else if d == 1 {
        '1'
    } else if d == 2 {
        '2'
    } else if d == 3 {
        '3'
    } else if d == 4 {
        '4'
    } else if d == 5 {
        '5'
    } else if d == 6 {
        '6'
    } else if d == 7 {
        '7'
    } else if d == 8 {
        '8'
    } else {
        '9'
    }
}

/// The decimal notation of `n`, without leading zeros, as `format!("{n}")`
/// writes it.
pub open spec fn decimal(n: nat) -> Seq<char>
    decreases n,
{
    if n < 10 {
        seq![digit_char(n)]
    } else {
        decimal(n / 10).push(digit_char(n % 10))
    }
}

/// The digit character of `d` is an ASCII digit of value `d`.
pub proof fn lemma_digit_char(d: nat)
    requires
        d < 10,
    ensures
        is_ascii_digit(digit_char(d)),
        digit_value(digit_char(d)) == d,
{
}

/// Reading back the decimal notation of `n` gives `n`.
pub proof fn lemma_decimal_digits(n: nat)
    ensures
        decimal(n).len() > 0,
        all_ascii_digits(decimal(n)),
        digits_value(decimal(n)) == n,
    decreases n,
{
    if n < 10 {
        lemma_digit_char(n);
        assert(decimal(n).drop_last() =~= Seq::<char>::empty());
        assert(digits_value(Seq::<char>::empty()) == 0);
        assert(decimal(n).last() == digit_char(n));
    } else {
        lemma_digit_char(n % 10);
        lemma_decimal_digits(n / 10);
        assert(decimal(n).drop_last() =~= decimal(n / 10));
        assert(n == (n / 10) * 10 + n % 10) by (nonlinear_arith);
        assert(decimal(n).last() == digit_char(n % 10));
    }
}

} // verus!
