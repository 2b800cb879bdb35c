use vstd::prelude::*;
use vstd::utf8::{decode_utf8, encode_utf8, encode_utf8_decode_utf8, encode_utf8_valid_utf8, valid_utf8};
use crate::text::{
    all_whitespace, chars_of, decimal, digit_char, is_ascii_digit,
    lemma_decimal_digits, lemma_digit_char, lemma_trim_surrounded, lemma_trim_unchanged, parse_u16,
    parse_u16_range, trim, trim_bounds, all_ascii_digits, digits_value, strip_plus,
};

verus! {

/// The start of the line that the backend prints on stdout once it listens,
/// followed by its port.
pub const HANDSHAKE_PREFIX: &'static str = "PORT=";

/// The port that a handshake line announces: the line must start with
/// `HANDSHAKE_PREFIX`, and what follows, trimmed, must parse as a `u16`.
pub open spec fn spec_parse_handshake(line: Seq<char>) -> Option<u16> {
    let p = HANDSHAKE_PREFIX@;
    if line.len() >= p.len() && line.take(p.len() as int) == p {
        parse_u16(trim(line.skip(p.len() as int)))
    } else {
        None
    }
}

/// Whether `v[start..]` begins with `p`.
pub fn chars_start_with(v: &Vec<char>, start: usize, end: usize, p: &Vec<char>) -> (r: bool)
    requires
        start <= end <= v.len(),
    ensures
        r == (end - start >= p.len() && v@.subrange(start as int, end as int).take(
            p.len() as int,
        ) == p@),
{
    if end - start < p.len() {
        return false;
    }
    let mut k: usize = 0;
    while k < p.len()
        invariant
            start <= end <= v.len(),
            end - start >= p.len(),
            k <= p.len(),
            forall|j: int| 0 <= j < k ==> v@[start + j] == p@[j],
        decreases p.len() - k,
    {
        if v[start + k] != p[k] {
            assert(v@.subrange(start as int, end as int).take(p.len() as int)[k as int] != p@[k as int]);
            return false;
        }
        k = k + 1;
    }
    assert(v@.subrange(start as int, end as int).take(p.len() as int) =~= p@);
    true
}

/// The port announced by the handshake line `v[start..end]`.
pub fn parse_handshake_chars(v: &Vec<char>, start: usize, end: usize) -> (r: Option<u16>)
    requires
        start <= end <= v.len(),
    ensures
        r == spec_parse_handshake(v@.subrange(start as int, end as int)),
{
    let p = chars_of(HANDSHAKE_PREFIX);
    if !chars_start_with(v, start, end, &p) {
        return None;
    }
    let rest = start + p.len();
    assert(v@.subrange(start as int, end as int).skip(p.len() as int) =~= v@.subrange(
        rest as int,
        end as int,
    ));
    let (a, b) = trim_bounds(v, rest, end);
    parse_u16_range(v, a, b)
}

/// The port that a handshake line announces, if it is one.
pub fn parse_handshake(line: &str) -> (r: Option<u16>)
    ensures
        r == spec_parse_handshake(line@),
{
    let v = chars_of(line);
    assert(v@.subrange(0, v@.len() as int) =~= line@);
    parse_handshake_chars(&v, 0, v.len())
}

/// The handshake line for `port` announces `port`: reading back what
/// `HANDSHAKE_PREFIX` followed by the port in decimal says gives the port.
pub proof fn lemma_handshake_round_trip(port: u16)
    ensures
        spec_parse_handshake(HANDSHAKE_PREFIX@ + decimal(port as nat)) == Some(port),
{
    let p = HANDSHAKE_PREFIX@;
    let d = decimal(port as nat);
    let line = p + d;
    lemma_decimal_digits(port as nat);
    assert(line.take(p.len() as int) =~= p);
    assert(line.skip(p.len() as int) =~= d);
    assert(is_ascii_digit(d[0]) && is_ascii_digit(d.last()));
    lemma_trim_unchanged(d);
    assert(d[0] != '+');
}

/// A line that does not start with `HANDSHAKE_PREFIX` announces nothing.
pub proof fn lemma_handshake_needs_prefix(line: Seq<char>)
    requires
        !(line.len() >= HANDSHAKE_PREFIX@.len() && line.take(HANDSHAKE_PREFIX@.len() as int)
            == HANDSHAKE_PREFIX@),
    ensures
        spec_parse_handshake(line) is None,
{
}

/// What `String::from_utf8_lossy` makes of `bytes`.
pub uninterp spec fn utf8_lossy(bytes: Seq<u8>) -> Seq<char>;

/// The text of `bytes` decoded as UTF-8, where invalid sequences are replaced
/// as `String::from_utf8_lossy` replaces them.
pub open spec fn lossy_utf8_text(bytes: Seq<u8>) -> Seq<char> {
    if valid_utf8(bytes) {
        decode_utf8(bytes)
    } else {
        utf8_lossy(bytes)
    }
}

/// Calls `String::from_utf8_lossy`. Claimed: for valid UTF-8 the result is
/// the decoded text; otherwise it is some function of the bytes alone. That
/// invalid sequences become U+FFFD is left unsaid.
#[verifier::external_body]
pub(crate) fn decode_utf8_lossy(bytes: &[u8]) -> (s: String)
    ensures
        s@ == (if valid_utf8(bytes@) {
            decode_utf8(bytes@)
        } else {
            utf8_lossy(bytes@)
        }),
{
    String::from_utf8_lossy(bytes).into_owned()
}

/// The port announced by one chunk of the backend's stdout: the chunk is
/// decoded (lossily) as UTF-8 and trimmed before it is read as a handshake.
pub open spec fn spec_stdout_port(bytes: Seq<u8>) -> Option<u16> {
    spec_parse_handshake(trim(lossy_utf8_text(bytes)))
}

/// The port announced by one chunk of the backend's stdout, if any.
pub fn stdout_port(bytes: &[u8]) -> (r: Option<u16>)
    ensures
        r == spec_stdout_port(bytes@),
{
    let text = decode_utf8_lossy(bytes);
    let v = chars_of(text.as_str());
    let (a, b) = trim_bounds(&v, 0, v.len());
    assert(v@.subrange(0, v@.len() as int) =~= v@);
    parse_handshake_chars(&v, a, b)
}

/// The backend's handshake is recognized on its stdout: a chunk that holds
/// the UTF-8 encoding of the handshake line for `port`, with any whitespace
/// (such as the line's newline) around it, announces `port`.
pub proof fn lemma_stdout_handshake(pre: Seq<char>, port: u16, post: Seq<char>)
    requires
        all_whitespace(pre),
        all_whitespace(post),
    ensures
        spec_stdout_port(encode_utf8(pre + (HANDSHAKE_PREFIX@ + decimal(port as nat)) + post))
            == Some(port),
{
    let line = HANDSHAKE_PREFIX@ + decimal(port as nat);
    let chars = pre + line + post;
    encode_utf8_valid_utf8(chars);
    encode_utf8_decode_utf8(chars);
    reveal_strlit("PORT=");
    lemma_decimal_digits(port as nat);
    assert(line[0] == 'P');
    assert(line.last() == decimal(port as nat).last());
    assert(is_ascii_digit(decimal(port as nat).last()));
    lemma_trim_surrounded(pre, line, post);
    lemma_handshake_round_trip(port);
}

/// The backend's handshake is recognized on its stdout however its port is
/// written: a chunk holding the UTF-8 encoding of `HANDSHAKE_PREFIX`, then
/// any nonempty string of ASCII digits whose value fits in a `u16` (leading
/// zeros allowed), with any whitespace around the line, announces that value,
/// whatever the chunk's length.
pub proof fn lemma_stdout_announces_digits(pre: Seq<char>, digits: Seq<char>, post: Seq<char>)
    requires
        all_whitespace(pre),
        all_whitespace(post),
        digits.len() > 0,
        all_ascii_digits(digits),
        digits_value(digits) <= 0xffff,
    ensures
        spec_stdout_port(encode_utf8(pre + (HANDSHAKE_PREFIX@ + digits) + post)) == Some(
            digits_value(digits) as u16,
        ),
{
    let p = HANDSHAKE_PREFIX@;
    let line = p + digits;
    let chars = pre + line + post;
    encode_utf8_valid_utf8(chars);
    encode_utf8_decode_utf8(chars);
    reveal_strlit("PORT=");
    assert(line[0] == 'P');
    assert(line.last() == digits.last());
    assert(is_ascii_digit(digits.last()));
    assert(is_ascii_digit(digits[0]));
    lemma_trim_surrounded(pre, line, post);
    assert(line.take(p.len() as int) =~= p);
    assert(line.skip(p.len() as int) =~= digits);
    lemma_trim_unchanged(digits);
    assert(digits[0] != '+');
    assert(strip_plus(digits) == digits);
}

/// The base URL of the backend listening on loopback at `port`.
pub open spec fn loopback_base_url(port: u16) -> Seq<char> {
    "http://127.0.0.1:"@ + decimal(port as nat)
}

/// The decimal notation of a positive number does not start with `0`.
proof fn lemma_decimal_no_leading_zero(n: nat)
    ensures
        decimal(n).len() > 1 ==> n >= 10,
        n >= 1 ==> decimal(n)[0] != '0',
    decreases n,
{
    if n >= 10 {
        lemma_decimal_no_leading_zero(n / 10);
        lemma_decimal_digits(n / 10);
        assert(decimal(n)[0] == decimal(n / 10)[0]);
    } else {
        lemma_digit_char(n);
    }
}

/// The base URL reads back as the port: it is `http://127.0.0.1:` followed by
/// a nonempty string of ASCII digits whose value is the port, with no leading
/// zero, which `str::parse::<u16>` reads as the port.
pub proof fn lemma_base_url_reads_back(port: u16)
    ensures
        loopback_base_url(port).len() > 17,
        loopback_base_url(port).take(17) == "http://127.0.0.1:"@,
        all_ascii_digits(loopback_base_url(port).skip(17)),
        digits_value(loopback_base_url(port).skip(17)) == port,
        loopback_base_url(port).skip(17).len() > 1 ==> loopback_base_url(port).skip(17)[0]
            != '0',
        parse_u16(loopback_base_url(port).skip(17)) == Some(port),
{
    reveal_strlit("http://127.0.0.1:");
    let url = loopback_base_url(port);
    let d = decimal(port as nat);
    lemma_decimal_digits(port as nat);
    lemma_decimal_no_leading_zero(port as nat);
    assert(url.take(17) =~= "http://127.0.0.1:"@);
    assert(url.skip(17) =~= d);
    assert(is_ascii_digit(d[0]));
    assert(d[0] != '+');
    assert(strip_plus(d) == d);
}

fn digit_str(d: u16) -> (s: &'static str)
    requires
        d < 10,
    ensures
        s@ == seq![digit_char(d as nat)],
{
    if d == 0 {
        proof {
            reveal_strlit("0");
        }
        "0"
    } else if d == 1 {
        proof {
            reveal_strlit("1");
        }
        "1"
    } else if d == 2 {
        proof {
            reveal_strlit("2");
        }
        "2"
    } else if d == 3 {
        proof {
            reveal_strlit("3");
        }
        "3"
    } else if d == 4 {
        proof {
            reveal_strlit("4");
        }
        "4"
    } else if d == 5 {
        proof {
            reveal_strlit("5");
        }
        "5"
    } else if d == 6 {
        proof {
            reveal_strlit("6");
        }
        "6"
    } else if d == 7 {
        proof {
            reveal_strlit("7");
        }
        "7"
    } else if d == 8 {
        proof {
            reveal_strlit("8");
        }
        "8"
    } else {
        proof {
            reveal_strlit("9");
        }
        "9"
    }
}

/// Appends the decimal notation of `n` to `s`.
pub fn push_decimal(s: &mut String, n: u16)
    ensures
        final(s)@ == old(s)@ + decimal(n as nat),
    decreases n,
{
    if n >= 10 {
        push_decimal(s, n / 10);
    }
    s.append(digit_str(n % 10));
    assert(s@ =~= old(s)@ + decimal(n as nat));
}

/// The base URL of the backend listening on loopback at `port`.
pub fn base_url_for_port(port: u16) -> (url: String)
    ensures
        url@ == loopback_base_url(port),
{
    let mut url = "http://127.0.0.1:".to_owned();
    push_decimal(&mut url, port);
    url
}

} // verus!
