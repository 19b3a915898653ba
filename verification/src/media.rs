//! The local HTTP media server: which files it may serve, the URLs it hands
//! out, and the answer it gives to each request.

use vstd::prelude::*;
use vstd::utf8::{decode_utf8, encode_utf8, is_ascii_chars, valid_utf8};
use crate::text::{
    append_str, ascii_lower_seq, chars_of, char_from_ascii, decimal, decimal_string,
    is_white_space, is_whitespace, lemma_occurs_between, lower_chars, occurs_in, parse_u64, parse_unsigned, push_char, str_equal,
    string_from_chars, strip_prefix, strip_prefix_spec, trim, trim_chars,
};
use crate::paths::{extension, extension_spec};
use crate::ids::{is_simple_v4, new_v4_simple};

verus! {

broadcast use {vstd::utf8::encode_utf8_valid_utf8, vstd::utf8::encode_utf8_decode_utf8};

// ---------------------------------------------------------------------------
// Percent encoding
// ---------------------------------------------------------------------------

/// Bytes that travel unescaped in a media URL.
pub open spec fn is_unreserved(b: u8) -> bool {
    ||| 65 <= b <= 90
    ||| 97 <= b <= 122
    ||| 48 <= b <= 57
    ||| b == 45
    ||| b == 46
    ||| b == 95
    ||| b == 126
    ||| b == 47
}

/// The upper-case hexadecimal digit (as a byte) for `d` in `0..16`.
pub open spec fn hex_upper(d: nat) -> u8 {
    if d < 10 {
        (48 + d) as u8
    } else {
        (55 + d) as u8
    }
}

/// The bytes that stand for `b` in a media URL: itself, or `%XY`.
pub open spec fn encode_byte(b: u8) -> Seq<u8> {
    if is_unreserved(b) {
        seq![b]
    } else {
        seq![37u8, hex_upper(b as nat / 16), hex_upper(b as nat % 16)]
    }
}

/// The percent encoding of a byte sequence.
pub open spec fn encode_bytes(bs: Seq<u8>) -> Seq<u8>
    decreases bs.len(),
{
    if bs.len() == 0 {
        Seq::empty()
    } else {
        encode_byte(bs[0]) + encode_bytes(bs.drop_first())
    }
}

/// The characters of a sequence of ASCII bytes.
pub open spec fn ascii_text(bs: Seq<u8>) -> Seq<char> {
    Seq::new(bs.len(), |i: int| (bs[i] as u32) as char)
}

/// The percent encoding of the UTF-8 bytes of `s`.
pub open spec fn percent_encode_spec(s: Seq<char>) -> Seq<char> {
    ascii_text(encode_bytes(encode_utf8(s)))
}

/// Whether `b` is a hexadecimal digit in either case.
pub open spec fn is_hex(b: u8) -> bool {
    (48 <= b <= 57) || (65 <= b <= 70) || (97 <= b <= 102)
}

/// The value of a hexadecimal digit.
pub open spec fn hex_value(b: u8) -> nat {
    if 48 <= b <= 57 {
        (b - 48) as nat
    } else if 65 <= b <= 70 {
        (b - 55) as nat
    } else {
        (b - 87) as nat
    }
}

/// The byte that two characters after a `%` stand for, read as
/// `u8::from_str_radix(.., 16)` reads them: two hex digits, or `+` and one.
pub open spec fn hex_pair(a: u8, b: u8) -> Option<u8> {
    if is_hex(a) && is_hex(b) {
        Some((hex_value(a) * 16 + hex_value(b)) as u8)
    } else if a == 43 && is_hex(b) {
        Some(hex_value(b) as u8)
    } else {
        None
    }
}

/// Undoing the percent encoding on bytes; `None` when a `%` is not followed by a
/// readable byte.
pub open spec fn decode_bytes(bs: Seq<u8>) -> Option<Seq<u8>>
    decreases bs.len(),
{
    if bs.len() == 0 {
        Some(Seq::empty())
    } else if bs[0] == 37 {
        if bs.len() < 3 {
            None
        } else {
            match hex_pair(bs[1], bs[2]) {
                None => None,
                Some(v) => match decode_bytes(bs.subrange(3, bs.len() as int)) {
                    None => None,
                    Some(r) => Some(seq![v] + r),
                },
            }
        }
    } else {
        match decode_bytes(bs.drop_first()) {
            None => None,
            Some(r) => Some(seq![bs[0]] + r),
        }
    }
}

/// Undoing the percent encoding of `s`: `None` when an escape is unreadable or
/// the bytes are not UTF-8.
pub open spec fn percent_decode_spec(s: Seq<char>) -> Option<Seq<char>> {
    match decode_bytes(encode_utf8(s)) {
        Some(b) => if valid_utf8(b) {
            Some(decode_utf8(b))
        } else {
            None
        },
        None => None,
    }
}

proof fn lemma_encode_bytes_push(bs: Seq<u8>, b: u8)
    ensures
        encode_bytes(bs.push(b)) == encode_bytes(bs) + encode_byte(b),
    decreases bs.len(),
{
    if bs.len() == 0 {
        let p = bs.push(b);
        assert(p[0] == b);
        assert(p.drop_first() =~= Seq::<u8>::empty());
        assert(encode_bytes(p.drop_first()) =~= Seq::<u8>::empty());
        assert(encode_bytes(p) == encode_byte(b) + encode_bytes(p.drop_first()));
        assert(encode_bytes(bs) =~= Seq::<u8>::empty());
        assert(encode_byte(b) + Seq::<u8>::empty() =~= encode_byte(b));
        assert(Seq::<u8>::empty() + encode_byte(b) =~= encode_byte(b));
    } else {
        assert(bs.push(b)[0] == bs[0]);
        assert(bs.push(b).drop_first() =~= bs.drop_first().push(b));
        lemma_encode_bytes_push(bs.drop_first(), b);
        assert(encode_byte(bs[0]) + (encode_bytes(bs.drop_first()) + encode_byte(b))
            =~= encode_byte(bs[0]) + encode_bytes(bs.drop_first()) + encode_byte(b));
    }
}

proof fn lemma_encoded_ascii(bs: Seq<u8>)
    ensures
        forall|i: int| 0 <= i < encode_bytes(bs).len() ==> #[trigger] encode_bytes(bs)[i] < 128,
    decreases bs.len(),
{
    if bs.len() > 0 {
        lemma_encoded_ascii(bs.drop_first());
        let e = encode_byte(bs[0]);
        let r = encode_bytes(bs.drop_first());
        assert forall|i: int| 0 <= i < encode_bytes(bs).len() implies #[trigger] encode_bytes(
            bs,
        )[i] < 128 by {
            if i >= e.len() {
                assert(encode_bytes(bs)[i] == r[i - e.len()]);
            }
        }
    }
}

/// Whether a byte may stand in a media URL: an unreserved byte, `%`, or an
/// upper-case hexadecimal digit.
pub open spec fn is_url_safe(b: u8) -> bool {
    is_unreserved(b) || b == 37 || (48 <= b <= 57) || (65 <= b <= 70)
}

/// Every byte of a percent encoding may stand in a URL.
pub proof fn lemma_encoding_is_url_safe(bs: Seq<u8>)
    ensures
        forall|i: int| 0 <= i < encode_bytes(bs).len() ==> is_url_safe(#[trigger] encode_bytes(bs)[i]),
    decreases bs.len(),
{
    if bs.len() > 0 {
        lemma_encoding_is_url_safe(bs.drop_first());
        let e = encode_byte(bs[0]);
        let r = encode_bytes(bs.drop_first());
        assert forall|i: int| 0 <= i < encode_bytes(bs).len() implies is_url_safe(#[trigger] encode_bytes(bs)[i]) by {
            if i >= e.len() {
                assert(encode_bytes(bs)[i] == r[i - e.len()]);
            } else if !is_unreserved(bs[0]) {
                let hi = bs[0] as nat / 16;
                let lo = bs[0] as nat % 16;
                assert(hi < 16 && lo < 16);
            }
        }
    }
}

/// Decoding what `encode_bytes` produced gives the bytes back.
pub proof fn lemma_decode_encode_bytes(bs: Seq<u8>)
    ensures
        decode_bytes(encode_bytes(bs)) == Some(bs),
    decreases bs.len(),
{
    if bs.len() == 0 {
        assert(encode_bytes(bs) =~= Seq::<u8>::empty());
    } else {
        let b = bs[0];
        let rest = bs.drop_first();
        lemma_decode_encode_bytes(rest);
        let e = encode_bytes(bs);
        assert(e == encode_byte(b) + encode_bytes(rest));
        if is_unreserved(b) {
            assert(e.drop_first() =~= encode_bytes(rest));
            assert(seq![b] + rest =~= bs);
        } else {
            assert(e.subrange(3, e.len() as int) =~= encode_bytes(rest));
            let hi = b as nat / 16;
            let lo = b as nat % 16;
            assert(hex_pair(e[1], e[2]) == Some(b));
            assert(seq![b] + rest =~= bs);
        }
    }
}

proof fn lemma_ascii_text_encode(bs: Seq<u8>)
    requires
        forall|i: int| 0 <= i < bs.len() ==> #[trigger] bs[i] < 128,
    ensures
        encode_utf8(ascii_text(bs)) == bs,
        is_ascii_chars(ascii_text(bs)),
{
    let t = ascii_text(bs);
    assert(is_ascii_chars(t));
    vstd::utf8::is_ascii_chars_encode_utf8(t);
    assert(encode_utf8(t) =~= bs);
}

/// Decoding the percent encoding of any text gives the text back.
pub proof fn lemma_percent_round_trip(s: Seq<char>)
    ensures
        percent_decode_spec(percent_encode_spec(s)) == Some(s),
{
    let bs = encode_utf8(s);
    lemma_encoded_ascii(bs);
    lemma_ascii_text_encode(encode_bytes(bs));
    lemma_decode_encode_bytes(bs);
}

fn hex_upper_byte(d: u8) -> (r: u8)
    requires
        d < 16,
    ensures
        r == hex_upper(d as nat),
{
    if d < 10 {
        48 + d
    } else {
        55 + d
    }
}

/// Percent-encodes `input` for a media URL: bytes outside `A-Z a-z 0-9 - . _ ~ /`
/// become `%XY` with upper-case hex digits.
pub fn percent_encode(input: &str) -> (out: String)
    ensures
        out@ == percent_encode_spec(input@),
{
    let bytes = input.as_bytes();
    let mut enc: Vec<u8> = Vec::new();
    let mut i: usize = 0;
    while i < bytes.len()
        invariant
            i <= bytes.len(),
            bytes@ == encode_utf8(input@),
            enc@ == encode_bytes(bytes@.subrange(0, i as int)),
        decreases bytes.len() - i,
    {
        let b = bytes[i];
        proof {
            assert(bytes@.subrange(0, i + 1) =~= bytes@.subrange(0, i as int).push(b));
            lemma_encode_bytes_push(bytes@.subrange(0, i as int), b);
        }
        if (65 <= b && b <= 90) || (97 <= b && b <= 122) || (48 <= b && b <= 57) || b == 45 || b
            == 46 || b == 95 || b == 126 || b == 47 {
            enc.push(b);
            assert(enc@ =~= encode_bytes(bytes@.subrange(0, i as int)) + encode_byte(b));
        } else {
            enc.push(37);
            enc.push(hex_upper_byte(b / 16));
            enc.push(hex_upper_byte(b % 16));
            assert(enc@ =~= encode_bytes(bytes@.subrange(0, i as int)) + encode_byte(b));
        }
        i += 1;
    }
    assert(bytes@.subrange(0, bytes@.len() as int) =~= bytes@);
    proof {
        lemma_encoded_ascii(bytes@);
    }
    let mut out = String::new();
    let mut j: usize = 0;
    while j < enc.len()
        invariant
            j <= enc.len(),
            enc@ == encode_bytes(encode_utf8(input@)),
            forall|k: int| 0 <= k < enc@.len() ==> #[trigger] enc@[k] < 128,
            out@ == ascii_text(enc@.subrange(0, j as int)),
        decreases enc.len() - j,
    {
        push_char(&mut out, char_from_ascii(enc[j]));
        j += 1;
        assert(out@ =~= ascii_text(enc@.subrange(0, j as int)));
    }
    assert(enc@.subrange(0, enc@.len() as int) =~= enc@);
    out
}

/// Builds a `String` from UTF-8 bytes (`String::from_utf8`), `None` when the
/// bytes are not UTF-8.
#[verifier::external_body]
fn string_from_utf8(bytes: Vec<u8>) -> (r: Option<String>)
    ensures
        r is Some <==> valid_utf8(bytes@),
        r matches Some(s) ==> s@ == decode_utf8(bytes@),
{
    String::from_utf8(bytes).ok()
}

fn is_hex_byte(b: u8) -> (r: bool)
    ensures
        r == is_hex(b),
{
    (48 <= b && b <= 57) || (65 <= b && b <= 70) || (97 <= b && b <= 102)
}

fn hex_value_byte(b: u8) -> (r: u8)
    requires
        is_hex(b),
    ensures
        r as nat == hex_value(b),
        r < 16,
{
    if 48 <= b && b <= 57 {
        b - 48
    } else if 65 <= b && b <= 70 {
        b - 55
    } else {
        b - 87
    }
}

fn read_hex_pair(a: u8, b: u8) -> (r: Option<u8>)
    ensures
        r == hex_pair(a, b),
{
    if is_hex_byte(a) && is_hex_byte(b) {
        Some(hex_value_byte(a) * 16 + hex_value_byte(b))
    } else if a == 43 && is_hex_byte(b) {
        Some(hex_value_byte(b))
    } else {
        None
    }
}

/// Undoes `percent_encode`; `None` when an escape is unreadable or the result is
/// not UTF-8.
pub fn percent_decode(input: &str) -> (out: Option<String>)
    ensures
        match percent_decode_spec(input@) {
            None => out is None,
            Some(s) => out matches Some(o) && o@ == s,
        },
{
    let bytes = input.as_bytes();
    let ghost all = bytes@;
    let mut out: Vec<u8> = Vec::new();
    let mut i: usize = 0;
    proof {
        assert(all.subrange(0, all.len() as int) =~= all);
        match decode_bytes(all) {
            None => {},
            Some(r) => {
                assert(out@ + r =~= r);
            },
        }
    }
    while i < bytes.len()
        invariant
            i <= bytes.len(),
            bytes@ == all,
            all == encode_utf8(input@),
            decode_bytes(all) == (match decode_bytes(all.subrange(i as int, all.len() as int)) {
                None => None,
                Some(r) => Some(out@ + r),
            }),
        decreases bytes.len() - i,
    {
        let ghost rest = all.subrange(i as int, all.len() as int);
        if bytes[i] == 37 {
            if bytes.len() - i < 3 {
                assert(decode_bytes(rest) is None);
                return None;
            }
            match read_hex_pair(bytes[i + 1], bytes[i + 2]) {
                None => {
                    assert(rest[1] == bytes@[i + 1] && rest[2] == bytes@[i + 2]);
                    assert(decode_bytes(rest) is None);
                    return None;
                },
                Some(v) => {
                    assert(rest[1] == bytes@[i + 1] && rest[2] == bytes@[i + 2]);
                    assert(rest.subrange(3, rest.len() as int) =~= all.subrange(
                        i + 3,
                        all.len() as int,
                    ));
                    let ghost old_out = out@;
                    out.push(v);
                    i += 3;
                    proof {
                        match decode_bytes(all.subrange(i as int, all.len() as int)) {
                            None => {},
                            Some(r) => {
                                assert(old_out + (seq![v] + r) =~= out@ + r);
                            },
                        }
                    }
                },
            }
        } else {
            let b = bytes[i];
            assert(rest.drop_first() =~= all.subrange(i + 1, all.len() as int));
            let ghost old_out = out@;
            out.push(b);
            i += 1;
            proof {
                match decode_bytes(all.subrange(i as int, all.len() as int)) {
                    None => {},
                    Some(r) => {
                        assert(old_out + (seq![b] + r) =~= out@ + r);
                    },
                }
            }
        }
    }
    assert(all.subrange(all.len() as int, all.len() as int) =~= Seq::<u8>::empty());
    assert(out@ + Seq::<u8>::empty() =~= out@);
    string_from_utf8(out)
}

// ---------------------------------------------------------------------------
// Requests
// ---------------------------------------------------------------------------

/// The first run of non-white characters of `s`, after leading white space.
pub open spec fn leading_word(s: Seq<char>) -> Seq<char>
    decreases s.len(),
{
    if s.len() == 0 || is_white_space(s[0]) {
        Seq::empty()
    } else {
        seq![s[0]] + leading_word(s.drop_first())
    }
}

/// `s` with leading white space removed.
pub open spec fn skip_white(s: Seq<char>) -> Seq<char>
    decreases s.len(),
{
    if s.len() > 0 && is_white_space(s[0]) {
        skip_white(s.drop_first())
    } else {
        s
    }
}

/// The first word of `s` (`s.split_whitespace().next().unwrap_or_default()`).
pub open spec fn first_word(s: Seq<char>) -> Seq<char> {
    leading_word(skip_white(s))
}

/// What follows the first word of `s`.
pub open spec fn after_first_word(s: Seq<char>) -> Seq<char> {
    skip_white(s).subrange(first_word(s).len() as int, skip_white(s).len() as int)
}

proof fn lemma_leading_word(s: Seq<char>)
    ensures
        leading_word(s).len() <= s.len(),
        leading_word(s) == s.subrange(0, leading_word(s).len() as int),
        forall|i: int| 0 <= i < leading_word(s).len() ==> !is_white_space(#[trigger] s[i]),
        leading_word(s).len() < s.len() ==> is_white_space(s[leading_word(s).len() as int]),
    decreases s.len(),
{
    if s.len() > 0 && !is_white_space(s[0]) {
        lemma_leading_word(s.drop_first());
        let w = leading_word(s);
        assert(w =~= s.subrange(0, w.len() as int));
        assert forall|i: int| 0 <= i < w.len() implies !is_white_space(#[trigger] s[i]) by {
            if i > 0 {
                assert(s[i] == s.drop_first()[i - 1]);
            }
        }
        if w.len() < s.len() {
            assert(s[w.len() as int] == s.drop_first()[w.len() - 1]);
        }
    } else {
        assert(s.subrange(0, 0) =~= Seq::<char>::empty());
    }
}

proof fn lemma_skip_white_index(s: Seq<char>, k: int)
    requires
        0 <= k <= s.len(),
        forall|i: int| 0 <= i < k ==> is_white_space(#[trigger] s[i]),
        k < s.len() ==> !is_white_space(s[k]),
    ensures
        skip_white(s) == s.subrange(k, s.len() as int),
    decreases k,
{
    if k == 0 {
        assert(s.subrange(0, s.len() as int) =~= s);
    } else {
        let d = s.drop_first();
        assert forall|i: int| 0 <= i < k - 1 implies is_white_space(#[trigger] d[i]) by {
            assert(d[i] == s[i + 1]);
        }
        lemma_skip_white_index(d, k - 1);
        assert(d.subrange(k - 1, d.len() as int) =~= s.subrange(k, s.len() as int));
    }
}

proof fn lemma_leading_word_index(s: Seq<char>, k: int)
    requires
        0 <= k <= s.len(),
        forall|i: int| 0 <= i < k ==> !is_white_space(#[trigger] s[i]),
        k < s.len() ==> is_white_space(s[k]),
    ensures
        leading_word(s) == s.subrange(0, k),
    decreases k,
{
    if k == 0 {
        assert(s.subrange(0, 0) =~= Seq::<char>::empty());
    } else {
        let d = s.drop_first();
        assert forall|i: int| 0 <= i < k - 1 implies !is_white_space(#[trigger] d[i]) by {
            assert(d[i] == s[i + 1]);
        }
        if k < s.len() {
            assert(d[k - 1] == s[k]);
        }
        lemma_leading_word_index(d, k - 1);
        assert(seq![s[0]] + d.subrange(0, k - 1) =~= s.subrange(0, k));
    }
}

/// Splits a request line into its method and target (the first two words).
pub fn request_method_and_target(line: &str) -> (r: (String, String))
    ensures
        r.0@ == first_word(line@),
        r.1@ == first_word(after_first_word(line@)),
{
    let cs = chars_of(line);
    let mut a: usize = 0;
    while a < cs.len() && is_whitespace(cs[a])
        invariant
            a <= cs.len(),
            forall|i: int| 0 <= i < a ==> is_white_space(#[trigger] cs@[i]),
        decreases cs.len() - a,
    {
        a += 1;
    }
    proof {
        lemma_skip_white_index(cs@, a as int);
    }
    let mut b = a;
    while b < cs.len() && !is_whitespace(cs[b])
        invariant
            a <= b <= cs.len(),
            forall|i: int| a <= i < b ==> !is_white_space(#[trigger] cs@[i]),
        decreases cs.len() - b,
    {
        b += 1;
    }
    let ghost sw = cs@.subrange(a as int, cs@.len() as int);
    proof {
        assert forall|i: int| 0 <= i < b - a implies !is_white_space(#[trigger] sw[i]) by {
            assert(sw[i] == cs@[i + a]);
        }
        if b < cs.len() {
            assert(sw[b - a] == cs@[b as int]);
        }
        lemma_leading_word_index(sw, b - a);
    }
    let mut c = b;
    while c < cs.len() && is_whitespace(cs[c])
        invariant
            b <= c <= cs.len(),
            forall|i: int| b <= i < c ==> is_white_space(#[trigger] cs@[i]),
        decreases cs.len() - c,
    {
        c += 1;
    }
    let mut d = c;
    while d < cs.len() && !is_whitespace(cs[d])
        invariant
            c <= d <= cs.len(),
            forall|i: int| c <= i < d ==> !is_white_space(#[trigger] cs@[i]),
        decreases cs.len() - d,
    {
        d += 1;
    }
    let ghost rest = sw.subrange(b - a, sw.len() as int);
    proof {
        assert(rest =~= cs@.subrange(b as int, cs@.len() as int));
        assert forall|i: int| 0 <= i < c - b implies is_white_space(#[trigger] rest[i]) by {
            assert(rest[i] == cs@[i + b]);
        }
        if c < cs.len() {
            assert(rest[c - b] == cs@[c as int]);
        }
        lemma_skip_white_index(rest, c - b);
        let sr = rest.subrange(c - b, rest.len() as int);
        assert(sr =~= cs@.subrange(c as int, cs@.len() as int));
        assert forall|i: int| 0 <= i < d - c implies !is_white_space(#[trigger] sr[i]) by {
            assert(sr[i] == cs@[i + c]);
        }
        if d < cs.len() {
            assert(sr[d - c] == cs@[d as int]);
        }
        lemma_leading_word_index(sr, d - c);
    }
    let method = string_from_chars(slice_of(&cs, a, b).as_slice());
    let target = string_from_chars(slice_of(&cs, c, d).as_slice());
    assert(method@ =~= sw.subrange(0, b - a));
    assert(target@ =~= rest.subrange(c - b, rest.len() as int).subrange(0, d - c));
    (method, target)
}

/// The elements of `v` in `from..to`.
pub fn slice_of<T: Copy>(v: &Vec<T>, from: usize, to: usize) -> (out: Vec<T>)
    requires
        from <= to <= v.len(),
    ensures
        out@ == v@.subrange(from as int, to as int),
{
    let mut out: Vec<T> = Vec::new();
    let mut i = from;
    while i < to
        invariant
            from <= i <= to,
            to <= v.len(),
            out@ == v@.subrange(from as int, i as int),
        decreases to - i,
    {
        out.push(v[i]);
        i += 1;
    }
    out
}

/// The value of a `Range` header line, if the line is one: the text after
/// `range:` (compared case-insensitively), trimmed.
pub open spec fn range_header_value_spec(line: Seq<char>) -> Option<Seq<char>> {
    let l = ascii_lower_seq(line);
    if l.len() >= 6 && l.subrange(0, 6) == seq!['r', 'a', 'n', 'g', 'e', ':'] {
        Some(trim(l.subrange(6, l.len() as int)))
    } else {
        None
    }
}

/// Reads the value of a `Range:` header line; `None` for any other header.
pub fn range_header_value(line: &str) -> (r: Option<String>)
    ensures
        match range_header_value_spec(line@) {
            None => r is None,
            Some(v) => r matches Some(s) && s@ == v,
        },
{
    let cs = chars_of(line);
    let l = lower_chars(&cs);
    if l.len() >= 6 && l[0] == 'r' && l[1] == 'a' && l[2] == 'n' && l[3] == 'g' && l[4] == 'e'
        && l[5] == ':' {
        assert(l@.subrange(0, 6) =~= seq!['r', 'a', 'n', 'g', 'e', ':']);
        let rest = slice_of(&l, 6, l.len());
        let t = trim_chars(rest.as_slice());
        Some(string_from_chars(t.as_slice()))
    } else {
        proof {
            if l@.len() >= 6 && l@.subrange(0, 6) == seq!['r', 'a', 'n', 'g', 'e', ':'] {
                assert(l@[0] == l@.subrange(0, 6)[0]);
                assert(l@[1] == l@.subrange(0, 6)[1]);
                assert(l@[2] == l@.subrange(0, 6)[2]);
                assert(l@[3] == l@.subrange(0, 6)[3]);
                assert(l@[4] == l@.subrange(0, 6)[4]);
                assert(l@[5] == l@.subrange(0, 6)[5]);
            }
        }
        None
    }
}

/// The index of the first `c` in `s`, if any.
pub open spec fn first_index_of(s: Seq<char>, c: char) -> Option<int>
    decreases s.len(),
{
    if s.len() == 0 {
        None
    } else if s[0] == c {
        Some(0)
    } else {
        match first_index_of(s.drop_first(), c) {
            None => None,
            Some(k) => Some(k + 1),
        }
    }
}

proof fn lemma_first_index_of(s: Seq<char>, c: char, k: int)
    requires
        0 <= k <= s.len(),
        forall|i: int| 0 <= i < k ==> #[trigger] s[i] != c,
        k < s.len() ==> s[k] == c,
    ensures
        first_index_of(s, c) == (if k < s.len() {
            Some(k)
        } else {
            None::<int>
        }),
    decreases k,
{
    if k > 0 {
        let d = s.drop_first();
        assert forall|i: int| 0 <= i < k - 1 implies #[trigger] d[i] != c by {
            assert(d[i] == s[i + 1]);
        }
        if k < s.len() {
            assert(d[k - 1] == s[k]);
        }
        lemma_first_index_of(d, c, k - 1);
    }
}

/// `header` read as `bytes=a-b` or `bytes=a-` against a file of `length` bytes:
/// the inclusive range, or `None` when it is malformed or not satisfiable.
pub open spec fn parse_range_spec(header: Seq<char>, length: u64) -> Option<(u64, u64)> {
    if header.len() < 6 || header.subrange(0, 6) != seq!['b', 'y', 't', 'e', 's', '='] {
        None
    } else {
        let spec = header.subrange(6, header.len() as int);
        match first_index_of(spec, '-') {
            None => None,
            Some(k) => {
                let start_text = trim(spec.subrange(0, k));
                let end_text = trim(spec.subrange(k + 1, spec.len() as int));
                match parse_unsigned(start_text, u64::MAX as nat) {
                    Err(_) => None,
                    Ok(start) => {
                        let end: Option<nat> = if end_text.len() == 0 {
                            if length == 0 {
                                None
                            } else {
                                Some((length - 1) as nat)
                            }
                        } else {
                            match parse_unsigned(end_text, u64::MAX as nat) {
                                Ok(e) => Some(e),
                                Err(_) => None,
                            }
                        };
                        match end {
                            None => None,
                            Some(e) => if start > e || e >= length {
                                None
                            } else {
                                Some((start as u64, e as u64))
                            },
                        }
                    },
                }
            },
        }
    }
}

/// Reads a `Range` header value: `bytes=a-b` or `bytes=a-`; `None` if the range
/// is malformed or not satisfiable for a file of `length` bytes.
pub fn parse_range(header: &str, length: u64) -> (r: Option<(u64, u64)>)
    ensures
        r == parse_range_spec(header@, length),
        r matches Some((s, e)) ==> s <= e < length,
{
    let h = chars_of(header);
    if h.len() < 6 || !(h[0] == 'b' && h[1] == 'y' && h[2] == 't' && h[3] == 'e' && h[4] == 's'
        && h[5] == '=') {
        proof {
            if h@.len() >= 6 && h@.subrange(0, 6) == seq!['b', 'y', 't', 'e', 's', '='] {
                assert(h@[0] == h@.subrange(0, 6)[0]);
                assert(h@[1] == h@.subrange(0, 6)[1]);
                assert(h@[2] == h@.subrange(0, 6)[2]);
                assert(h@[3] == h@.subrange(0, 6)[3]);
                assert(h@[4] == h@.subrange(0, 6)[4]);
                assert(h@[5] == h@.subrange(0, 6)[5]);
            }
        }
        return None;
    }
    assert(h@.subrange(0, 6) =~= seq!['b', 'y', 't', 'e', 's', '=']);
    let spec = slice_of(&h, 6, h.len());
    let mut k: usize = 0;
    while k < spec.len() && spec[k] != '-'
        invariant
            k <= spec.len(),
            forall|i: int| 0 <= i < k ==> #[trigger] spec@[i] != '-',
        decreases spec.len() - k,
    {
        k += 1;
    }
    proof {
        lemma_first_index_of(spec@, '-', k as int);
    }
    if k == spec.len() {
        return None;
    }
    let start_text = trim_chars(slice_of(&spec, 0, k).as_slice());
    let end_text = trim_chars(slice_of(&spec, k + 1, spec.len()).as_slice());
    let start = match parse_u64(start_text.as_slice()) {
        Ok(v) => v,
        Err(_) => {
            return None;
        },
    };
    let end = if end_text.len() == 0 {
        if length == 0 {
            return None;
        }
        length - 1
    } else {
        match parse_u64(end_text.as_slice()) {
            Ok(v) => v,
            Err(_) => {
                return None;
            },
        }
    };
    if start > end || end >= length {
        return None;
    }
    Some((start, end))
}

/// The `Content-Type` that goes with a file extension.
pub open spec fn content_type_spec(path: Seq<char>) -> Seq<char> {
    match extension_spec(path) {
        None => "application/octet-stream"@,
        Some(e) => {
            let l = ascii_lower_seq(e);
            if l == seq!['m', 'p', '4'] {
                "video/mp4"@
            } else if l == seq!['m', 'k', 'v'] {
                "video/x-matroska"@
            } else if l == seq!['w', 'e', 'b', 'm'] {
                "video/webm"@
            } else if l == seq!['m', 'o', 'v'] {
                "video/quicktime"@
            } else if l == seq!['a', 'v', 'i'] {
                "video/x-msvideo"@
            } else if l == seq!['w', 'a', 'v'] {
                "audio/wav"@
            } else if l == seq!['p', 'n', 'g'] {
                "image/png"@
            } else {
                "application/octet-stream"@
            }
        },
    }
}

/// The `Content-Type` of a file, from its extension (case-insensitive).
pub fn content_type(path: &str) -> (r: &'static str)
    ensures
        r@ == content_type_spec(path@),
{
    match extension(path) {
        None => "application/octet-stream",
        Some(e) => {
            let ec = chars_of(e.as_str());
            let l = lower_chars(&ec);
            if l.len() == 3 && l[0] == 'm' && l[1] == 'p' && l[2] == '4' {
                assert(l@ =~= seq!['m', 'p', '4']);
                "video/mp4"
            } else if l.len() == 3 && l[0] == 'm' && l[1] == 'k' && l[2] == 'v' {
                assert(l@ =~= seq!['m', 'k', 'v']);
                assert(l@ != seq!['m', 'p', '4']);
                "video/x-matroska"
            } else if l.len() == 4 && l[0] == 'w' && l[1] == 'e' && l[2] == 'b' && l[3] == 'm' {
                assert(l@ =~= seq!['w', 'e', 'b', 'm']);
                "video/webm"
            } else if l.len() == 3 && l[0] == 'm' && l[1] == 'o' && l[2] == 'v' {
                assert(l@ =~= seq!['m', 'o', 'v']);
                assert(l@ != seq!['m', 'p', '4']);
                assert(l@ != seq!['m', 'k', 'v']);
                "video/quicktime"
            } else if l.len() == 3 && l[0] == 'a' && l[1] == 'v' && l[2] == 'i' {
                assert(l@ =~= seq!['a', 'v', 'i']);
                assert(l@ != seq!['m', 'p', '4']);
                assert(l@ != seq!['m', 'k', 'v']);
                assert(l@ != seq!['m', 'o', 'v']);
                "video/x-msvideo"
            } else if l.len() == 3 && l[0] == 'w' && l[1] == 'a' && l[2] == 'v' {
                assert(l@ =~= seq!['w', 'a', 'v']);
                assert(l@ != seq!['m', 'p', '4']);
                assert(l@ != seq!['m', 'k', 'v']);
                assert(l@ != seq!['m', 'o', 'v']);
                assert(l@ != seq!['a', 'v', 'i']);
                "audio/wav"
            } else if l.len() == 3 && l[0] == 'p' && l[1] == 'n' && l[2] == 'g' {
                assert(l@ =~= seq!['p', 'n', 'g']);
                assert(l@ != seq!['m', 'p', '4']);
                assert(l@ != seq!['m', 'k', 'v']);
                assert(l@ != seq!['m', 'o', 'v']);
                assert(l@ != seq!['a', 'v', 'i']);
                assert(l@ != seq!['w', 'a', 'v']);
                "image/png"
            } else {
                proof {
                    assert(l@ != seq!['m', 'p', '4']) by {
                        if l@ == seq!['m', 'p', '4'] {
                            assert(l@[0] == 'm' && l@[1] == 'p' && l@[2] == '4');
                        }
                    }
                    assert(l@ != seq!['m', 'k', 'v']) by {
                        if l@ == seq!['m', 'k', 'v'] {
                            assert(l@[0] == 'm' && l@[1] == 'k' && l@[2] == 'v');
                        }
                    }
                    assert(l@ != seq!['w', 'e', 'b', 'm']) by {
                        if l@ == seq!['w', 'e', 'b', 'm'] {
                            assert(l@[0] == 'w' && l@[1] == 'e' && l@[2] == 'b' && l@[3] == 'm');
                        }
                    }
                    assert(l@ != seq!['m', 'o', 'v']) by {
                        if l@ == seq!['m', 'o', 'v'] {
                            assert(l@[0] == 'm' && l@[1] == 'o' && l@[2] == 'v');
                        }
                    }
                    assert(l@ != seq!['a', 'v', 'i']) by {
                        if l@ == seq!['a', 'v', 'i'] {
                            assert(l@[0] == 'a' && l@[1] == 'v' && l@[2] == 'i');
                        }
                    }
                    assert(l@ != seq!['w', 'a', 'v']) by {
                        if l@ == seq!['w', 'a', 'v'] {
                            assert(l@[0] == 'w' && l@[1] == 'a' && l@[2] == 'v');
                        }
                    }
                    assert(l@ != seq!['p', 'n', 'g']) by {
                        if l@ == seq!['p', 'n', 'g'] {
                            assert(l@[0] == 'p' && l@[1] == 'n' && l@[2] == 'g');
                        }
                    }
                }
                "application/octet-stream"
            }
        },
    }
}

// ---------------------------------------------------------------------------
// Answers
// ---------------------------------------------------------------------------

/// Why a request is refused; each reason has its HTTP status.
#[derive(PartialEq, Eq, Structural, Clone, Copy, Debug)]
pub enum Refusal {
    BadRequest,
    Forbidden,
    NotFound,
    MethodNotAllowed,
}

impl Refusal {
    /// The status line text of the refusal.
    pub open spec fn status_spec(self) -> Seq<char> {
        match self {
            Refusal::BadRequest => "400 Bad Request"@,
            Refusal::Forbidden => "403 Forbidden"@,
            Refusal::NotFound => "404 Not Found"@,
            Refusal::MethodNotAllowed => "405 Method Not Allowed"@,
        }
    }

    /// The status line text of the refusal.
    pub fn status(&self) -> (r: &'static str)
        ensures
            r@ == self.status_spec(),
    {
        match self {
            Refusal::BadRequest => "400 Bad Request",
            Refusal::Forbidden => "403 Forbidden",
            Refusal::NotFound => "404 Not Found",
            Refusal::MethodNotAllowed => "405 Method Not Allowed",
        }
    }
}

/// The head of an answer with no body.
pub open spec fn respond_error_spec(status: Seq<char>) -> Seq<char> {
    "HTTP/1.1 "@ + status + "\r\nContent-Length: 0\r\nConnection: close\r\n\r\n"@
}

/// The head of an answer with `status` and no body.
pub fn respond_error(status: &str) -> (r: String)
    ensures
        r@ == respond_error_spec(status@),
{
    let mut r = String::new();
    append_str(&mut r, "HTTP/1.1 ");
    append_str(&mut r, status);
    append_str(&mut r, "\r\nContent-Length: 0\r\nConnection: close\r\n\r\n");
    assert(r@ =~= respond_error_spec(status@));
    r
}

/// The path part of the URL under which `path` is served.
pub open spec fn url_target(token: Seq<char>, path: Seq<char>) -> Seq<char> {
    token_prefix(token) + percent_encode_spec(path)
}

/// What every served path starts with: `/<token>/`.
pub open spec fn token_prefix(token: Seq<char>) -> Seq<char> {
    "/"@ + token + "/"@
}

/// The URL under which `path` is served.
pub open spec fn media_url(port: u16, token: Seq<char>, path: Seq<char>) -> Seq<char> {
    "http://127.0.0.1:"@ + decimal(port as nat) + url_target(token, path)
}

/// How a request line is answered before the file system is asked: the path
/// it names, or why it is refused.
pub open spec fn route_spec(token: Seq<char>, method: Seq<char>, target: Seq<char>) -> Result<
    Seq<char>,
    Refusal,
> {
    if method != "GET"@ && method != "HEAD"@ {
        Err(Refusal::MethodNotAllowed)
    } else {
        match strip_prefix_spec(target, token_prefix(token)) {
            None => Err(Refusal::Forbidden),
            Some(encoded) => match percent_decode_spec(encoded) {
                None => Err(Refusal::BadRequest),
                Some(p) => Ok(p),
            },
        }
    }
}

/// The value of the last `Range` header among `lines`.
pub open spec fn last_range(lines: Seq<Seq<char>>) -> Option<Seq<char>>
    decreases lines.len(),
{
    if lines.len() == 0 {
        None
    } else {
        match range_header_value_spec(lines.last()) {
            Some(v) => Some(v),
            None => last_range(lines.drop_last()),
        }
    }
}

/// The value of the last `Range:` header among the header lines of a request.
pub fn range_from_headers(lines: &Vec<String>) -> (r: Option<String>)
    ensures
        match last_range(lines@.map_values(|l: String| l@)) {
            None => r is None,
            Some(v) => r matches Some(s) && s@ == v,
        },
{
    let ghost views = lines@.map_values(|l: String| l@);
    let mut found: Option<String> = None;
    let mut i: usize = 0;
    while i < lines.len()
        invariant
            i <= lines.len(),
            views == lines@.map_values(|l: String| l@),
            match last_range(views.subrange(0, i as int)) {
                None => found is None,
                Some(v) => found matches Some(s) && s@ == v,
            },
        decreases lines.len() - i,
    {
        let v = range_header_value(lines[i].as_str());
        proof {
            let pre = views.subrange(0, i + 1);
            assert(pre.drop_last() =~= views.subrange(0, i as int));
            assert(pre.last() == lines@[i as int]@);
        }
        if v.is_some() {
            found = v;
        }
        i += 1;
    }
    assert(views.subrange(0, lines@.len() as int) =~= views);
    found
}

/// What follows a request the server has admitted: an answer with no body, or
/// a head followed by `body_length` bytes of the file from `start`.
#[derive(Debug)]
pub enum Reply {
    Unsatisfiable { head: String },
    Content { head: String, start: u64, body_length: u64, send_body: bool },
}

/// The head of the answer when the range cannot be served.
pub open spec fn unsatisfiable_head(length: u64) -> Seq<char> {
    "HTTP/1.1 416 Range Not Satisfiable\r\nContent-Range: bytes */"@ + decimal(length as nat)
        + "\r\nConnection: close\r\n\r\n"@
}

/// The bytes `(start, end)` that an answer covers, and whether it is partial,
/// for a file of `length` bytes and an optional `Range` value; `None` when the
/// range cannot be served.
pub open spec fn served_range(range: Option<Seq<char>>, length: u64) -> Option<(u64, u64, bool)> {
    match range {
        None => Some((0, if length == 0 { 0 } else { (length - 1) as u64 }, false)),
        Some(r) => match parse_range_spec(r, length) {
            None => None,
            Some((s, e)) => Some((s, e, true)),
        },
    }
}

/// The head of an answer that carries the bytes `start..=end` of a file.
pub open spec fn content_head(
    partial: bool,
    start: u64,
    end: u64,
    length: u64,
    path: Seq<char>,
) -> Seq<char> {
    let status = if partial { "206 Partial Content"@ } else { "200 OK"@ };
    let body_length: nat = if length == 0 { 0 } else { (end - start + 1) as nat };
    let head = "HTTP/1.1 "@ + status + "\r\nAccept-Ranges: bytes\r\nContent-Type: "@
        + content_type_spec(path) + "\r\nContent-Length: "@ + decimal(body_length)
        + "\r\nConnection: close\r\n"@;
    let head = if partial {
        head + "Content-Range: bytes "@ + decimal(start as nat) + "-"@ + decimal(end as nat) + "/"@
            + decimal(length as nat) + "\r\n"@
    } else {
        head
    };
    head + "\r\n"@
}

/// An answer with content announces exactly the bytes that follow its head:
/// the range served lies in the file, its `Content-Length` line states the
/// range's size (`end - start + 1`, none for an empty file), not the file's
/// length, and a partial answer's `Content-Range` line names the range and the
/// file's length.
pub proof fn lemma_content_length_is_body_length(range: Option<Seq<char>>, length: u64, path: Seq<char>)
    ensures
        served_range(range, length) matches Some((s, e, partial)) ==> {
            let body: nat = if length == 0 { 0nat } else { (e - s + 1) as nat };
            &&& s <= e
            &&& s + body <= length
            &&& occurs_in(
                "\r\nContent-Length: "@ + decimal(body) + "\r\n"@,
                content_head(partial, s, e, length, path),
            )
            &&& partial ==> occurs_in(
                "\r\nContent-Range: bytes "@ + decimal(s as nat) + "-"@ + decimal(e as nat) + "/"@
                    + decimal(length as nat) + "\r\n"@,
                content_head(partial, s, e, length, path),
            )
        },
{
    if let Some((s, e, partial)) = served_range(range, length) {
        let body: nat = if length == 0 { 0nat } else { (e - s + 1) as nat };
        let status = if partial { "206 Partial Content"@ } else { "200 OK"@ };
        let before = "HTTP/1.1 "@ + status + "\r\nAccept-Ranges: bytes\r\nContent-Type: "@
            + content_type_spec(path);
        let line = "\r\nContent-Length: "@ + decimal(body) + "\r\n"@;
        let range_line = "\r\nContent-Range: bytes "@ + decimal(s as nat) + "-"@ + decimal(e as nat)
            + "/"@ + decimal(length as nat) + "\r\n"@;
        let head = content_head(partial, s, e, length, path);
        reveal_strlit("\r\nContent-Length: ");
        reveal_strlit("\r\n");
        reveal_strlit("\r\nConnection: close\r\n");
        reveal_strlit("Connection: close\r\n");
        reveal_strlit("\r\nConnection: close");
        reveal_strlit("Content-Range: bytes ");
        reveal_strlit("\r\nContent-Range: bytes ");
        let after = "Connection: close\r\n"@ + (if partial {
            "Content-Range: bytes "@ + decimal(s as nat) + "-"@ + decimal(e as nat) + "/"@ + decimal(
                length as nat,
            ) + "\r\n"@
        } else {
            Seq::empty()
        }) + "\r\n"@;
        assert(head =~= before + line + after);
        lemma_occurs_between(before, line, after);
        if partial {
            let before2 = before + "\r\nContent-Length: "@ + decimal(body) + "\r\nConnection: close"@;
            assert(head =~= before2 + range_line + "\r\n"@);
            lemma_occurs_between(before2, range_line, "\r\n"@);
        }
    }
}

/// Answers an admitted request for the file `path` of `length` bytes: the
/// whole file, the range asked for, or a refusal of the range.
pub fn reply_for(method: &str, range: Option<String>, length: u64, path: &str) -> (r: Reply)
    ensures
        match served_range(
            match range {
                None => None,
                Some(v) => Some(v@),
            },
            length,
        ) {
            None => r matches Reply::Unsatisfiable { head } && head@ == unsatisfiable_head(length),
            Some((s, e, partial)) => r matches Reply::Content { head, start, body_length, send_body }
                && head@ == content_head(partial, s, e, length, path@) && start == s
                && body_length == (if length == 0 { 0 } else { e - s + 1 })
                && send_body == (method@ == "GET"@ && body_length > 0)
                && start + body_length <= length,
        },
{
    let (partial, start, end) = match range {
        None => (false, 0u64, if length == 0 { 0u64 } else { length - 1 }),
        Some(v) => match parse_range(v.as_str(), length) {
            None => {
                let mut head = String::new();
                append_str(&mut head, "HTTP/1.1 416 Range Not Satisfiable\r\nContent-Range: bytes */");
                append_str(&mut head, decimal_string(length).as_str());
                append_str(&mut head, "\r\nConnection: close\r\n\r\n");
                assert(head@ =~= unsatisfiable_head(length));
                return Reply::Unsatisfiable { head };
            },
            Some((s, e)) => (true, s, e),
        },
    };
    let body_length: u64 = if length == 0 { 0 } else { end - start + 1 };
    let mut head = String::new();
    append_str(&mut head, "HTTP/1.1 ");
    append_str(&mut head, if partial { "206 Partial Content" } else { "200 OK" });
    append_str(&mut head, "\r\nAccept-Ranges: bytes\r\nContent-Type: ");
    append_str(&mut head, content_type(path));
    append_str(&mut head, "\r\nContent-Length: ");
    append_str(&mut head, decimal_string(body_length).as_str());
    append_str(&mut head, "\r\nConnection: close\r\n");
    let ghost base = head@;
    if partial {
        append_str(&mut head, "Content-Range: bytes ");
        append_str(&mut head, decimal_string(start).as_str());
        append_str(&mut head, "-");
        append_str(&mut head, decimal_string(end).as_str());
        append_str(&mut head, "/");
        append_str(&mut head, decimal_string(length).as_str());
        append_str(&mut head, "\r\n");
    }
    append_str(&mut head, "\r\n");
    let ghost status = if partial { "206 Partial Content"@ } else { "200 OK"@ };
    assert(base =~= "HTTP/1.1 "@ + status + "\r\nAccept-Ranges: bytes\r\nContent-Type: "@
        + content_type_spec(path@) + "\r\nContent-Length: "@ + decimal(body_length as nat)
        + "\r\nConnection: close\r\n"@);
    assert(head@ =~= content_head(partial, start, end, length, path@));
    let send_body = str_equal(method, "GET") && body_length > 0;
    Reply::Content { head, start, body_length, send_body }
}

// ---------------------------------------------------------------------------
// The server
// ---------------------------------------------------------------------------

/// The state of the media server: the port it listens on, the secret token that
/// every URL carries, and the canonical paths it has been allowed to serve.
#[derive(Debug)]
pub struct MediaServer {
    port: u16,
    token: String,
    allowed: Vec<String>,
}

impl MediaServer {
    /// The port the server listens on.
    pub closed spec fn port_spec(&self) -> u16 {
        self.port
    }

    /// The token that every URL of this server carries.
    pub closed spec fn token_spec(&self) -> Seq<char> {
        self.token@
    }

    /// Whether the canonical path `p` may be served.
    pub closed spec fn allows(&self, p: Seq<char>) -> bool {
        exists|i: int| 0 <= i < self.allowed@.len() && #[trigger] self.allowed@[i]@ == p
    }

    #[verifier::type_invariant]
    spec fn inv(&self) -> bool {
        &&& is_simple_v4(self.token@)
        &&& forall|i: int, j: int|
            0 <= i < j < self.allowed@.len() ==> #[trigger] self.allowed@[i]@
                != #[trigger] self.allowed@[j]@
    }

    /// A server on `port` with a fresh random token that allows nothing yet.
    pub fn new(port: u16) -> (s: Self)
        ensures
            s.port_spec() == port,
            is_simple_v4(s.token_spec()),
            forall|p: Seq<char>| !s.allows(p),
    {
        MediaServer { port, token: new_v4_simple(), allowed: Vec::new() }
    }

    /// The port the server listens on.
    pub fn port(&self) -> (r: u16)
        ensures
            r == self.port_spec(),
    {
        self.port
    }

    /// The token that every URL of this server carries.
    pub fn token(&self) -> (r: String)
        ensures
            r@ == self.token_spec(),
    {
        self.token.clone()
    }

    /// Whether the canonical path `canonical` may be served.
    pub fn is_allowed(&self, canonical: &str) -> (r: bool)
        ensures
            r == self.allows(canonical@),
    {
        let mut i: usize = 0;
        while i < self.allowed.len()
            invariant
                i <= self.allowed.len(),
                forall|j: int| 0 <= j < i ==> #[trigger] self.allowed@[j]@ != canonical@,
            decreases self.allowed.len() - i,
        {
            if str_equal(self.allowed[i].as_str(), canonical) {
                return true;
            }
            i += 1;
        }
        false
    }

    /// Allows the file at the canonical path `canonical` and gives its URL;
    /// an error when that path is not a file.
    pub fn url_for(&mut self, canonical: &str, is_file: bool) -> (r: Result<String, String>)
        ensures
            final(self).port_spec() == old(self).port_spec(),
            final(self).token_spec() == old(self).token_spec(),
            match r {
                Ok(u) => is_file && u@ == media_url(
                    old(self).port_spec(),
                    old(self).token_spec(),
                    canonical@,
                ),
                Err(e) => !is_file && e@ == "El media no existe: "@ + canonical@,
            },
            forall|p: Seq<char>|
                #[trigger] final(self).allows(p) <==> (old(self).allows(p) || (is_file && p
                    == canonical@)),
    {
        if !is_file {
            let mut e = String::new();
            append_str(&mut e, "El media no existe: ");
            append_str(&mut e, canonical);
            assert(e@ =~= "El media no existe: "@ + canonical@);
            return Err(e);
        }
        let mut url = String::new();
        append_str(&mut url, "http://127.0.0.1:");
        append_str(&mut url, decimal_string(self.port as u64).as_str());
        append_str(&mut url, "/");
        append_str(&mut url, self.token.as_str());
        append_str(&mut url, "/");
        append_str(&mut url, percent_encode(canonical).as_str());
        assert(url@ =~= media_url(self.port, self.token@, canonical@));
        if !self.is_allowed(canonical) {
            let ghost before = self.allowed@;
            proof {
                use_type_invariant(&*self);
            }
            let mut allowed: Vec<String> = Vec::new();
            std::mem::swap(&mut allowed, &mut self.allowed);
            allowed.push(canonical.to_owned());
            self.allowed = allowed;
            proof {
                let n = before.len() as int;
                assert(self.allowed@[n]@ == canonical@);
                assert forall|p: Seq<char>| #[trigger] self.allows(p) <==> (old(self).allows(p) || p
                    == canonical@) by {
                    if old(self).allows(p) {
                        let i = choose|i: int| 0 <= i < before.len() && #[trigger] before[i]@ == p;
                        assert(self.allowed@[i] == before[i]);
                    }
                    if self.allows(p) {
                        let i = choose|i: int|
                            0 <= i < self.allowed@.len() && #[trigger] self.allowed@[i]@ == p;
                        if i < n {
                            assert(before[i] == self.allowed@[i]);
                        }
                    }
                }
            }
        }
        Ok(url)
    }

    /// How a request line is answered before the file system is asked.
    pub fn route(&self, method: &str, target: &str) -> (r: Result<String, Refusal>)
        ensures
            match route_spec(self.token_spec(), method@, target@) {
                Ok(p) => r matches Ok(s) && s@ == p,
                Err(e) => r == Err::<String, Refusal>(e),
            },
    {
        if !str_equal(method, "GET") && !str_equal(method, "HEAD") {
            return Err(Refusal::MethodNotAllowed);
        }
        let mut prefix = String::new();
        append_str(&mut prefix, "/");
        append_str(&mut prefix, self.token.as_str());
        append_str(&mut prefix, "/");
        assert(prefix@ =~= token_prefix(self.token@));
        let encoded = match strip_prefix(target, prefix.as_str()) {
            None => {
                return Err(Refusal::Forbidden);
            },
            Some(e) => e,
        };
        match percent_decode(encoded.as_str()) {
            None => Err(Refusal::BadRequest),
            Some(p) => Ok(p),
        }
    }

    /// Whether a request for the path whose canonical form is `canonical` is
    /// served: `NotFound` when the path did not resolve, `Forbidden` when it was
    /// never allowed.
    pub fn authorize(&self, canonical: Option<&str>) -> (r: Result<(), Refusal>)
        ensures
            match canonical {
                None => r == Err::<(), Refusal>(Refusal::NotFound),
                Some(c) => if self.allows(c@) {
                    r is Ok
                } else {
                    r == Err::<(), Refusal>(Refusal::Forbidden)
                },
            },
    {
        match canonical {
            None => Err(Refusal::NotFound),
            Some(c) => if self.is_allowed(c) {
                Ok(())
            } else {
                Err(Refusal::Forbidden)
            },
        }
    }
}

/// A URL handed out by the server leads back, through the request it makes, to
/// the very path it was made for.
pub proof fn lemma_url_routes_back(token: Seq<char>, path: Seq<char>)
    ensures
        route_spec(token, "GET"@, url_target(token, path)) == Ok::<Seq<char>, Refusal>(path),
        route_spec(token, "HEAD"@, url_target(token, path)) == Ok::<Seq<char>, Refusal>(path),
{
    let pre = token_prefix(token);
    let t = url_target(token, path);
    assert(t.subrange(0, pre.len() as int) =~= pre);
    assert(t.subrange(pre.len() as int, t.len() as int) =~= percent_encode_spec(path));
    lemma_percent_round_trip(path);
}

/// A server that allows a path serves it under the URL it hands out for it:
/// the request for that URL routes to the path, and the path is admitted.
pub proof fn lemma_allowed_path_is_served(server: MediaServer, path: Seq<char>)
    requires
        server.allows(path),
    ensures
        route_spec(server.token_spec(), "GET"@, url_target(server.token_spec(), path)) == Ok::<
            Seq<char>,
            Refusal,
        >(path),
        server.allows(route_spec(server.token_spec(), "GET"@, url_target(server.token_spec(), path))->Ok_0),
{
    lemma_url_routes_back(server.token_spec(), path);
}

/// A URL made with one token is refused by a server with another token of the
/// same length.
pub proof fn lemma_foreign_token_refused(
    token: Seq<char>,
    other: Seq<char>,
    path: Seq<char>,
    method: Seq<char>,
)
    requires
        other.len() == token.len(),
        other != token,
        method == "GET"@ || method == "HEAD"@,
    ensures
        route_spec(token, method, url_target(other, path)) == Err::<Seq<char>, Refusal>(
            Refusal::Forbidden,
        ),
{
    let pre = token_prefix(token);
    let opre = token_prefix(other);
    let t = url_target(other, path);
    let slash = "/"@;
    if pre.len() <= t.len() && t.subrange(0, pre.len() as int) == pre {
        assert(t.subrange(0, pre.len() as int) =~= opre);
        assert(pre.subrange(slash.len() as int, (slash.len() + token.len()) as int) =~= token);
        assert(opre.subrange(slash.len() as int, (slash.len() + token.len()) as int) =~= other);
    }
}

} // verus!
