//! Header fields and response heads of the `http` crate.
use crate::codec::latin1;
use crate::text::{
    digit_char, is_digit, lower_char, number_text, numbers_are_written_digit_by_digit,
};
use vstd::prelude::*;
use vstd::utf8::*;

verus! {

#[verifier::external_type_specification]
#[verifier::external_body]
#[verifier::reject_recursive_types(T)]
pub struct ExHeaderMap<T>(http::HeaderMap<T>);

#[verifier::external_type_specification]
#[verifier::external_body]
pub struct ExHeaderValue(http::HeaderValue);

#[verifier::external_type_specification]
#[verifier::external_body]
pub struct ExToStrError(http::header::ToStrError);

#[verifier::external_type_specification]
#[verifier::external_body]
pub struct ExBuilder(http::response::Builder);

/// The fields of a header map, name and value, in the order in which it is walked.
pub uninterp spec fn header_entries(map: http::HeaderMap<http::HeaderValue>) -> Seq<
    (Seq<char>, Seq<u8>),
>;

/// The bytes of a header value.
pub uninterp spec fn value_bytes(value: http::HeaderValue) -> Seq<u8>;

/// What a response builder has recorded: the status and the values of each field
/// name, or what it says of the first part that it refused.
pub uninterp spec fn builder_head(builder: http::response::Builder) -> Result<
    (u16, Map<Seq<char>, Seq<Seq<u8>>>),
    Seq<char>,
>;

/// Field values by field name, the values of one name in the order of their arrival.
pub type Fields = Map<Seq<char>, Seq<Seq<u8>>>;

/// The first value that a list of fields has for a name.
pub open spec fn first_value(entries: Seq<(Seq<char>, Seq<u8>)>, name: Seq<char>) -> Option<
    Seq<u8>,
>
    decreases entries.len(),
{
    if entries.len() == 0 {
        None
    } else if entries[0].0 == name {
        Some(entries[0].1)
    } else {
        first_value(entries.skip(1), name)
    }
}

/// A list of fields, gathered by name.
pub open spec fn fields_of(entries: Seq<(Seq<char>, Seq<u8>)>) -> Fields {
    Map::new(
        |name: Seq<char>| first_value(entries, name) is Some,
        |name: Seq<char>|
            entries.filter(|e: (Seq<char>, Seq<u8>)| e.0 == name).map_values(
                |e: (Seq<char>, Seq<u8>)| e.1,
            ),
    )
}

/// Whether a header value can be read as text: visible ASCII, space and tab only.
pub open spec fn is_visible(value: Seq<u8>) -> bool {
    forall|i: int| 0 <= i < value.len() ==> (32 <= #[trigger] value[i] < 127 || value[i] == 9)
}

/// The status code that three digits denote, if the first is not zero.
pub open spec fn status_value(s: Seq<char>) -> Option<u16> {
    if s.len() == 3 && is_digit(s[0]) && is_digit(s[1]) && is_digit(s[2]) && s[0] != '0' {
        Some(
            ((s[0] as u32 - 48) * 100 + (s[1] as u32 - 48) * 10 + (s[2] as u32 - 48)) as u16,
        )
    } else {
        None
    }
}

/// The characters of a header field name.
pub open spec fn is_token_char(c: char) -> bool {
    ||| 'a' <= c && c <= 'z'
    ||| 'A' <= c && c <= 'Z'
    ||| is_digit(c)
    ||| seq!['!', '#', '$', '%', '&', '\'', '*', '+', '-', '.', '^', '_', '`', '|', '~'].contains(c)
}

/// Whether a text is a header field name.
pub open spec fn is_field_name(name: Seq<char>) -> bool {
    &&& 1 <= name.len() <= 65535
    &&& forall|i: int| 0 <= i < name.len() ==> is_token_char(#[trigger] name[i])
}

/// Whether a text is a header field value: no control character but the tab.
pub open spec fn is_field_value(value: Seq<char>) -> bool {
    forall|i: int|
        0 <= i < value.len() ==> (32 <= #[trigger] value[i] as u32 && value[i] as u32 != 127
            || value[i] as u32 == 9)
}

pub open spec fn lower_name(name: Seq<char>) -> Seq<char> {
    name.map_values(|c: char| lower_char(c))
}

/// A response head that was built without complaint.
pub open spec fn good_head(status: u16, fields: Fields) -> Result<(u16, Fields), Seq<char>> {
    Ok((status, fields))
}

/// What is left of a response head of which a part was refused.
pub open spec fn refused_head(complaint: Seq<char>) -> Result<(u16, Fields), Seq<char>> {
    Err(complaint)
}

/// A response head with another status; `None` stands for a text that is no code.
pub open spec fn with_status(head: Result<(u16, Fields), Seq<char>>, status: Option<u16>) -> Result<
    (u16, Fields),
    Seq<char>,
> {
    match (head, status) {
        (Ok((_, fields)), Some(code)) => Ok((code, fields)),
        (Ok(_), None) => Err("invalid status code"@),
        (Err(text), _) => Err(text),
    }
}

/// Fields with one more value for a name.
pub open spec fn with_value(fields: Fields, name: Seq<char>, value: Seq<u8>) -> Fields {
    fields.insert(
        name,
        if fields.contains_key(name) {
            fields[name].push(value)
        } else {
            seq![value]
        },
    )
}

/// A response head with one more field.
pub open spec fn with_header(
    head: Result<(u16, Fields), Seq<char>>,
    name: Seq<char>,
    value: Seq<char>,
) -> Result<(u16, Fields), Seq<char>> {
    match head {
        Ok((status, fields)) => if !is_field_name(name) {
            Err("invalid HTTP header name"@)
        } else if !is_field_value(value) {
            Err("failed to parse header value"@)
        } else {
            Ok((status, with_value(fields, lower_name(name), encode_utf8(value))))
        },
        Err(text) => Err(text),
    }
}

/// Whether a response head has room for one more field name for certain.
pub open spec fn has_room(head: Result<(u16, Fields), Seq<char>>) -> bool {
    match head {
        Ok((_, fields)) => 5 * fields.dom().len() < 32768,
        Err(_) => true,
    }
}

/// `HeaderMap::iter` walks all fields; names come in lower case.
#[verifier::external_body]
pub(crate) fn header_list(map: &http::HeaderMap<http::HeaderValue>) -> (list: Vec<
    (String, http::HeaderValue),
>)
    ensures
        list@.len() == header_entries(*map).len(),
        forall|i: int|
            0 <= i < list@.len() ==> (#[trigger] list@[i]).0@ == header_entries(*map)[i].0
                && value_bytes(list@[i].1) == header_entries(*map)[i].1,
{
    map.iter().map(|(name, value)| (name.as_str().to_owned(), value.clone())).collect()
}

/// `HeaderMap::get` for `content-length` gives the first value of that field.
#[verifier::external_body]
pub(crate) fn content_length_value(map: &http::HeaderMap<http::HeaderValue>) -> (value: Option<
    &http::HeaderValue,
>)
    ensures
        value is Some <==> first_value(header_entries(*map), "content-length"@) is Some,
        value is Some ==> value_bytes(*value->Some_0) == first_value(
            header_entries(*map),
            "content-length"@,
        )->Some_0,
{
    map.get(http::header::CONTENT_LENGTH)
}

/// `HeaderValue::to_str` gives the value as text, and an error unless all of it is
/// visible ASCII, space or tab.
pub assume_specification[ http::HeaderValue::to_str ](value: &http::HeaderValue) -> (r: Result<
    &str,
    http::header::ToStrError,
>)
    ensures
        r is Ok <==> is_visible(value_bytes(*value)),
        r matches Ok(s) ==> s@ == latin1(value_bytes(*value)),
;

/// `StatusCode::from_str` reads a three-digit code from 100 on.
#[verifier::external_body]
pub(crate) fn parse_status(s: &str) -> (code: Option<u16>)
    ensures
        code == status_value(s@),
{
    s.parse::<http::StatusCode>().ok().map(|c| c.as_u16())
}

/// `Response::builder` starts with status 200 and no field.
#[verifier::external_body]
pub(crate) fn new_builder() -> (builder: http::response::Builder)
    ensures
        builder_head(builder) == good_head(200, Map::empty()),
{
    http::Response::builder()
}

/// `Builder::status` with the code as text: the builder fails on what is no code.
#[verifier::external_body]
pub(crate) fn builder_status(builder: http::response::Builder, code: &str) -> (next:
    http::response::Builder)
    ensures
        builder_head(next) == with_status(builder_head(builder), status_value(code@)),
{
    builder.status(code)
}

/// `Builder::header` appends a field: the builder fails on a text that is no field
/// name or no field value. It may also fail where the head holds very many names
/// already; how many it takes in the end is left open here.
#[verifier::external_body]
pub(crate) fn builder_header(builder: http::response::Builder, name: &str, value: &str) -> (next:
    http::response::Builder)
    ensures
        builder_head(next) == with_header(builder_head(builder), name@, value@) || builder_head(
            next,
        ) == refused_head("max size reached"@),
        has_room(builder_head(builder)) ==> builder_head(next) == with_header(
            builder_head(builder),
            name@,
            value@,
        ),
{
    builder.header(name, value)
}

/// `Builder::body` hands the recorded head out, and the builder's complaint where it
/// has failed.
#[verifier::external_body]
pub(crate) fn builder_finish(builder: http::response::Builder) -> (head: Result<
    (u16, http::HeaderMap<http::HeaderValue>),
    String,
>)
    ensures
        head matches Ok(h) ==> builder_head(builder) == good_head(
            h.0,
            fields_of(header_entries(h.1)),
        ),
        head matches Err(text) ==> builder_head(builder) == refused_head(text@),
{
    let response = builder.body(()).map_err(|e| e.to_string())?;
    let (parts, _) = response.into_parts();
    Ok((parts.status.as_u16(), parts.headers))
}

/// The first value for a name is that of the first field with the name.
pub proof fn first_value_is_of_first_field(
    entries: Seq<(Seq<char>, Seq<u8>)>,
    name: Seq<char>,
    i: int,
)
    requires
        0 <= i <= entries.len(),
        forall|j: int| 0 <= j < i ==> (#[trigger] entries[j]).0 != name,
        i < entries.len() ==> entries[i].0 == name,
    ensures
        first_value(entries, name) == (if i < entries.len() {
            Some(entries[i].1)
        } else {
            None
        }),
    decreases entries.len(),
{
    if i > 0 {
        let tail = entries.skip(1);
        assert forall|j: int| 0 <= j < i - 1 implies (#[trigger] tail[j]).0 != name by {
            assert(tail[j] == entries[j + 1]);
        }
        assert(entries[0].0 != name);
        first_value_is_of_first_field(tail, name, i - 1);
    }
}

proof fn three_digit_text(n: int)
    requires
        100 <= n <= 999,
    ensures
        number_text(n, 10) == seq![
            digit_char(n / 100),
            digit_char(n / 10 % 10),
            digit_char(n % 10),
        ],
{
    reveal_with_fuel(number_text, 3);
    assert(number_text(n, 10) =~= seq![
        digit_char(n / 100),
        digit_char(n / 10 % 10),
        digit_char(n % 10),
    ]);
}

/// A number from 100 to 999 is a status code, written in decimal; no other number is.
pub proof fn status_is_a_number_of_three_digits(n: int)
    requires
        0 <= n,
    ensures
        status_value(number_text(n, 10)) == (if 100 <= n <= 999 {
            Some(n as u16)
        } else {
            None
        }),
{
    if 100 <= n <= 999 {
        three_digit_text(n);
    } else {
        numbers_are_written_digit_by_digit(n);
        numbers_are_written_digit_by_digit(n / 10);
        numbers_are_written_digit_by_digit(n / 100);
        numbers_are_written_digit_by_digit(n / 1000);
        assert(n / 10 / 10 == n / 100);
        assert(n / 100 / 10 == n / 1000);
        assert(number_text(n, 10).len() != 3);
    }
}

/// A text that is a status code is the decimal text of a number from 100 to 999.
pub proof fn status_is_decimal(s: Seq<char>)
    requires
        status_value(s) is Some,
    ensures
        100 <= status_value(s)->Some_0 <= 999,
        s == number_text(status_value(s)->Some_0 as int, 10),
{
    let x = s[0];
    let y = s[1];
    let z = s[2];
    let a = x as u32 - 48;
    let b = y as u32 - 48;
    let c = z as u32 - 48;
    let n = a * 100 + b * 10 + c;
    digit_of_char(x);
    digit_of_char(y);
    digit_of_char(z);
    first_digit_is_not_zero(x);
    assert(status_value(s) == Some(n as u16));
    three_digit_text(n);
    assert(n / 100 == a && n / 10 % 10 == b && n % 10 == c);
    assert(s =~= seq![x, y, z]);
}

proof fn digit_of_char(c: char)
    requires
        '0' <= c && c <= '9',
    ensures
        digit_char(c as u32 - 48) == c,
        0 <= c as u32 - 48 <= 9,
{
}

proof fn first_digit_is_not_zero(c: char)
    requires
        '0' <= c && c <= '9',
        c != '0',
    ensures
        c as u32 - 48 >= 1,
{
}

}
