//! Byte encodings that appear in request text.
use encoding::Encoding;
use vstd::prelude::*;
use vstd::utf8::*;

verus! {

#[verifier::external_type_specification]
#[verifier::external_body]
pub struct ExUtf8Error(std::str::Utf8Error);

/// The value of a hexadecimal digit of either case.
pub open spec fn hex_value(b: u8) -> Option<int> {
    if 48 <= b <= 57 {
        Some(b - 48)
    } else if 65 <= b <= 70 {
        Some(b - 55)
    } else if 97 <= b <= 102 {
        Some(b - 87)
    } else {
        None
    }
}

/// `%` and two hexadecimal digits stand for one byte; every other byte, and a `%`
/// that no two digits follow, stands for itself.
pub open spec fn percent_decoded(s: Seq<u8>) -> Seq<u8>
    decreases s.len(),
{
    if s.len() == 0 {
        Seq::empty()
    } else if s[0] == 37 && s.len() >= 3 && hex_value(s[1]) is Some && hex_value(s[2]) is Some {
        seq![(hex_value(s[1])->0 * 16 + hex_value(s[2])->0) as u8] + percent_decoded(s.skip(3))
    } else {
        seq![s[0]] + percent_decoded(s.skip(1))
    }
}

/// Each byte as the character with that code point.
pub open spec fn latin1(s: Seq<u8>) -> Seq<char> {
    s.map_values(|b: u8| b as char)
}

/// The path of a request as WSGI hands it on: percent-decoded, each byte as one
/// character.
pub open spec fn wsgi_path(path: Seq<char>) -> Seq<char> {
    latin1(percent_decoded(encode_utf8(path)))
}

/// `urlencoding::decode_binary` decodes percent-encoding.
#[verifier::external_body]
pub(crate) fn percent_decode(data: &[u8]) -> (decoded: Vec<u8>)
    ensures
        decoded@ == percent_decoded(data@),
{
    urlencoding::decode_binary(data).into_owned()
}

/// `ISO_8859_1.decode` of the `encoding` crate takes every byte for the character
/// with its code point, and never fails.
#[verifier::external_body]
pub(crate) fn latin1_decode(data: &[u8]) -> (decoded: Option<String>)
    ensures
        decoded is Some,
        decoded->Some_0@ == latin1(data@),
{
    encoding::all::ISO_8859_1.decode(data, encoding::DecoderTrap::Replace).ok()
}

/// `std::str::from_utf8` gives the text that the bytes encode, and an error if
/// they encode none.
pub assume_specification[ std::str::from_utf8 ](v: &[u8]) -> (r: Result<
    &str,
    std::str::Utf8Error,
>)
    ensures
        r is Ok <==> valid_utf8(v@),
        r matches Ok(s) ==> s@ == decode_utf8(v@),
;

/// Decodes the path of a request for WSGI.
pub fn decode_path(path: &str) -> (decoded: String)
    ensures
        decoded@ == wsgi_path(path@),
{
    let bytes = percent_decode(path.as_bytes());
    match latin1_decode(bytes.as_slice()) {
        Some(text) => text,
        None => String::new(),
    }
}

/// Bytes in percent-encoding: each as `%` and two digits, which `upper` or lower case
/// letters may be.
pub open spec fn percent_encoded(bytes: Seq<u8>, upper: bool) -> Seq<char>
    decreases bytes.len(),
{
    if bytes.len() == 0 {
        Seq::empty()
    } else {
        let b = bytes[0] as int;
        seq!['%', hex_char(b / 16, upper), hex_char(b % 16, upper)] + percent_encoded(
            bytes.skip(1),
            upper,
        )
    }
}

/// A hexadecimal digit.
pub open spec fn hex_char(d: int, upper: bool) -> char {
    if d < 10 {
        (48 + d) as char
    } else if upper {
        (55 + d) as char
    } else {
        (87 + d) as char
    }
}

/// Latin-1 text has one character for each byte, with the byte as its code point.
pub proof fn latin1_keeps_code_points(bytes: Seq<u8>)
    ensures
        latin1(bytes).len() == bytes.len(),
        forall|i: int|
            0 <= i < bytes.len() ==> #[trigger] latin1(bytes)[i] as u32 == bytes[i] as u32,
{
}

proof fn decoding_skips_plain(plain: Seq<u8>, rest: Seq<u8>)
    requires
        !plain.contains(37u8),
    ensures
        percent_decoded(plain + rest) == plain + percent_decoded(rest),
    decreases plain.len(),
{
    if plain.len() == 0 {
        assert(plain + rest =~= rest);
        assert(plain + percent_decoded(rest) =~= percent_decoded(rest));
    } else {
        let tail = plain.skip(1);
        assert(plain.contains(plain[0]));
        assert forall|b: u8| tail.contains(b) implies plain.contains(b) by {
            let i = choose|i: int| 0 <= i < tail.len() && tail[i] == b;
            assert(plain[i + 1] == b);
        }
        decoding_skips_plain(tail, rest);
        assert((plain + rest).skip(1) =~= tail + rest);
        assert((plain + rest)[0] == plain[0]);
        assert(plain =~= seq![plain[0]] + tail);
        assert(percent_decoded(plain + rest) =~= seq![plain[0]] + (tail + percent_decoded(rest)));
    }
}

/// The encoding of a text is that of its parts, one after the other.
pub(crate) proof fn encoding_concatenates(a: Seq<char>, b: Seq<char>)
    ensures
        encode_utf8(a + b) == encode_utf8(a) + encode_utf8(b),
    decreases a.len(),
{
    if a.len() == 0 {
        assert(a + b =~= b);
        assert(encode_utf8(a) + encode_utf8(b) =~= encode_utf8(b));
    } else {
        encoding_concatenates(a.drop_first(), b);
        assert((a + b).drop_first() =~= a.drop_first() + b);
        assert((a + b)[0] == a[0]);
        assert(encode_utf8(a + b) =~= encode_utf8(a) + encode_utf8(b));
    }
}

proof fn scalar_has_percent(v: u32)
    requires
        is_scalar(v),
    ensures
        encode_scalar(v).contains(37u8) ==> v == 37,
{
    assert(has_width_1_encoding(v) ==> leading_byte_width_1(v) == v) by {
        assert(v <= 0x7f ==> (v & 0x7f) as u8 == v) by (bit_vector);
    }
    assert forall|w: u32| #[trigger] leading_byte_width_2(w) >= 128 by {
        assert((0xC0u8 | ((w >> 6) & 0x1F) as u8) >= 128) by (bit_vector);
    }
    assert forall|w: u32| #[trigger] leading_byte_width_3(w) >= 128 by {
        assert((0xE0u8 | ((w >> 12) & 0x0F) as u8) >= 128) by (bit_vector);
    }
    assert forall|w: u32| #[trigger] leading_byte_width_4(w) >= 128 by {
        assert((0xF0u8 | ((w >> 18) & 0x07) as u8) >= 128) by (bit_vector);
    }
    assert forall|w: u32| #[trigger] last_continuation_byte(w) >= 128 by {
        assert((0x80u8 | (w & 0x3F) as u8) >= 128) by (bit_vector);
    }
    assert forall|w: u32| #[trigger] second_last_continuation_byte(w) >= 128 by {
        assert((0x80u8 | ((w >> 6) & 0x3F) as u8) >= 128) by (bit_vector);
    }
    assert forall|w: u32| #[trigger] third_last_continuation_byte(w) >= 128 by {
        assert((0x80u8 | ((w >> 12) & 0x3F) as u8) >= 128) by (bit_vector);
    }
}

proof fn char_has_percent(c: char)
    ensures
        encode_scalar(c as u32).contains(37u8) ==> c == '%',
{
    char_is_scalar(c);
    scalar_has_percent(c as u32);
}

proof fn plain_text_has_no_percent(path: Seq<char>)
    requires
        !path.contains('%'),
    ensures
        !encode_utf8(path).contains(37u8),
    decreases path.len(),
{
    if path.len() > 0 {
        let tail = path.drop_first();
        assert(path.contains(path[0]));
        assert forall|c: char| tail.contains(c) implies path.contains(c) by {
            let i = choose|i: int| 0 <= i < tail.len() && tail[i] == c;
            assert(path[i + 1] == c);
        }
        plain_text_has_no_percent(tail);
        char_has_percent(path[0]);
        let first = encode_scalar(path[0] as u32);
        let bytes = encode_utf8(path);
        assert(bytes == first + encode_utf8(tail));
        if bytes.contains(37u8) {
            let i = choose|i: int| 0 <= i < bytes.len() && bytes[i] == 37u8;
            if i < first.len() {
                assert(first[i] == 37u8);
                assert(first.contains(37u8));
            } else {
                assert(encode_utf8(tail)[i - first.len()] == 37u8);
                assert(encode_utf8(tail).contains(37u8));
            }
            assert(false);
        }
    }
}

/// A stretch of a path without `%` is handed on byte by byte as it is, whatever follows.
pub proof fn plain_path_is_handed_on(plain: Seq<char>, rest: Seq<char>)
    requires
        !plain.contains('%'),
    ensures
        wsgi_path(plain + rest) == latin1(encode_utf8(plain)) + wsgi_path(rest),
{
    plain_text_has_no_percent(plain);
    encoding_concatenates(plain, rest);
    decoding_skips_plain(encode_utf8(plain), encode_utf8(rest));
    let tail = percent_decoded(encode_utf8(rest));
    assert(latin1(encode_utf8(plain) + tail) =~= latin1(encode_utf8(plain)) + latin1(tail));
}

/// A path of ASCII characters without `%` is handed on unchanged.
pub proof fn ascii_path_is_unchanged(path: Seq<char>)
    requires
        is_ascii_chars(path),
        !path.contains('%'),
    ensures
        wsgi_path(path) == path,
{
    plain_path_is_handed_on(path, Seq::empty());
    assert(path + Seq::<char>::empty() =~= path);
    is_ascii_chars_encode_utf8(path);
    assert(wsgi_path(Seq::empty()) =~= Seq::<char>::empty());
    assert(latin1(encode_utf8(path)) =~= path) by {
        assert forall|i: int| 0 <= i < path.len() implies latin1(encode_utf8(path))[i] == path[i] by {
            assert(path[i] as u8 == encode_utf8(path)[i]);
        }
    }
    assert(wsgi_path(path) =~= path);
}

proof fn hex_char_is_read(d: int, upper: bool)
    requires
        0 <= d < 16,
    ensures
        '\0' <= hex_char(d, upper) <= '\u{7f}',
        hex_value(hex_char(d, upper) as u8) == Some(d),
{
}

/// Percent-encoding, in either case of its digits, is undone: the path has one character
/// for each byte that was encoded, and what follows is decoded on its own.
pub proof fn percent_encoding_is_undone(bytes: Seq<u8>, upper: bool, rest: Seq<char>)
    ensures
        wsgi_path(percent_encoded(bytes, upper) + rest) == latin1(bytes) + wsgi_path(rest),
    decreases bytes.len(),
{
    if bytes.len() == 0 {
        assert(percent_encoded(bytes, upper) + rest =~= rest);
        assert(latin1(bytes) + wsgi_path(rest) =~= wsgi_path(rest));
    } else {
        let b = bytes[0] as int;
        let first = seq!['%', hex_char(b / 16, upper), hex_char(b % 16, upper)];
        let tail = percent_encoded(bytes.skip(1), upper) + rest;
        percent_encoding_is_undone(bytes.skip(1), upper, rest);
        hex_char_is_read(b / 16, upper);
        hex_char_is_read(b % 16, upper);
        assert(is_ascii_chars(first));
        is_ascii_chars_encode_utf8(first);
        encoding_concatenates(first, tail);
        assert(percent_encoded(bytes, upper) + rest =~= first + tail);
        let code = encode_utf8(first) + encode_utf8(tail);
        assert(first[0] as u8 == encode_utf8(first)[0]);
        assert(first[1] as u8 == encode_utf8(first)[1]);
        assert(first[2] as u8 == encode_utf8(first)[2]);
        assert(code[0] == 37u8 && code[1] == hex_char(b / 16, upper) as u8 && code[2] == hex_char(
            b % 16,
            upper,
        ) as u8);
        assert(code.skip(3) =~= encode_utf8(tail));
        assert((b / 16 * 16 + b % 16) as u8 == bytes[0]);
        assert(percent_decoded(code) == seq![bytes[0]] + percent_decoded(encode_utf8(tail)));
        assert(latin1(percent_decoded(code)) =~= seq![bytes[0] as char] + wsgi_path(tail));
        assert(latin1(bytes) =~= seq![bytes[0] as char] + latin1(bytes.skip(1)));
        assert(wsgi_path(first + tail) =~= latin1(bytes) + wsgi_path(rest));
    }
}

/// A `%` that no two hexadecimal digits follow stands for itself.
pub proof fn lone_percent_stands_for_itself(rest: Seq<char>)
    requires
        is_ascii_chars(rest),
        rest.len() < 2 || !(hex_digit(rest[0]) && hex_digit(rest[1])),
    ensures
        wsgi_path(seq!['%'] + rest) == seq!['%'] + wsgi_path(rest),
{
    let first = seq!['%'];
    assert(is_ascii_chars(first));
    is_ascii_chars_encode_utf8(first);
    is_ascii_chars_encode_utf8(rest);
    encoding_concatenates(first, rest);
    let code = encode_utf8(first) + encode_utf8(rest);
    assert(first[0] as u8 == encode_utf8(first)[0]);
    assert(code.skip(1) =~= encode_utf8(rest));
    if rest.len() >= 2 {
        assert(rest[0] as u8 == encode_utf8(rest)[0]);
        assert(rest[1] as u8 == encode_utf8(rest)[1]);
        assert(code[1] == rest[0] as u8 && code[2] == rest[1] as u8);
    }
    assert(percent_decoded(code) == seq![37u8] + percent_decoded(encode_utf8(rest)));
    assert(latin1(percent_decoded(code)) =~= first + wsgi_path(rest));
}

/// Whether a character is a hexadecimal digit of either case.
pub open spec fn hex_digit(c: char) -> bool {
    ||| '0' <= c && c <= '9'
    ||| 'a' <= c && c <= 'f'
    ||| 'A' <= c && c <= 'F'
}

/// `%` and two hexadecimal digits, each in a case of its own, are one character, and what
/// follows is decoded on its own.
pub proof fn digits_may_differ_in_case(b: u8, first_upper: bool, second_upper: bool, rest: Seq<char>)
    ensures
        wsgi_path(
            seq![
                '%',
                hex_char(b as int / 16, first_upper),
                hex_char(b as int % 16, second_upper),
            ] + rest,
        ) == seq![b as char] + wsgi_path(rest),
{
    let high = b as int / 16;
    let low = b as int % 16;
    let first = seq!['%', hex_char(high, first_upper), hex_char(low, second_upper)];
    hex_char_is_read(high, first_upper);
    hex_char_is_read(low, second_upper);
    assert(is_ascii_chars(first));
    is_ascii_chars_encode_utf8(first);
    encoding_concatenates(first, rest);
    let code = encode_utf8(first) + encode_utf8(rest);
    assert(first[0] as u8 == encode_utf8(first)[0]);
    assert(first[1] as u8 == encode_utf8(first)[1]);
    assert(first[2] as u8 == encode_utf8(first)[2]);
    assert(code[0] == 37u8 && code[1] == first[1] as u8 && code[2] == first[2] as u8);
    assert(code.skip(3) =~= encode_utf8(rest));
    assert((high * 16 + low) as u8 == b);
    assert(percent_decoded(code) == seq![b] + percent_decoded(encode_utf8(rest)));
    assert(latin1(percent_decoded(code)) =~= seq![b as char] + wsgi_path(rest));
}

}
