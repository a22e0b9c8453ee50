//! Character, number and name handling for request and response text.
use vstd::arithmetic::power::pow;
use vstd::prelude::*;
use vstd::utf8::*;

verus! {

/// `char::to_ascii_uppercase`.
pub open spec fn upper_char(c: char) -> char {
    if 'a' <= c && c <= 'z' {
        (c as u32 - 32) as char
    } else {
        c
    }
}

/// `char::to_ascii_lowercase`.
pub open spec fn lower_char(c: char) -> char {
    if 'A' <= c && c <= 'Z' {
        (c as u32 + 32) as char
    } else {
        c
    }
}

/// How one character of a header field name appears in a CGI variable name.
pub open spec fn variable_char(c: char) -> char {
    if c == '-' {
        '_'
    } else {
        upper_char(c)
    }
}

/// The CGI variable that carries the header field `name`: `HTTP_` and the name
/// in upper case with `_` for `-`.
pub open spec fn variable_name(name: Seq<char>) -> Seq<char> {
    "HTTP_"@ + name.map_values(|c: char| variable_char(c))
}

/// Equality that does not tell ASCII letters of different case apart.
pub open spec fn same_ignoring_case(a: Seq<char>, b: Seq<char>) -> bool {
    a.map_values(|c: char| lower_char(c)) == b.map_values(|c: char| lower_char(c))
}

/// The text before the first space, if there is a space.
pub open spec fn before_space(s: Seq<char>) -> Option<Seq<char>> {
    match s.index_of_first(' ') {
        Some(i) => Some(s.take(i)),
        None => None,
    }
}

pub open spec fn is_digit(c: char) -> bool {
    '0' <= c && c <= '9'
}

/// The number that a run of decimal digits denotes.
pub open spec fn decimal_value(digits: Seq<char>) -> int
    decreases digits.len(),
{
    if digits.len() == 0 {
        0
    } else {
        decimal_value(digits.drop_last()) * 10 + (digits.last() as u32 - '0' as u32)
    }
}

pub open spec fn all_digits(s: Seq<char>) -> bool {
    forall|i: int| 0 <= i < s.len() ==> is_digit(#[trigger] s[i])
}

/// A number's text without its plus sign.
pub open spec fn without_sign(s: Seq<char>) -> Seq<char> {
    if s.len() > 0 && s[0] == '+' {
        s.skip(1)
    } else {
        s
    }
}

/// A decimal number as `str::parse` takes it for an unsigned type whose largest
/// value is `max`: an optional `+`, then digits only and at least one of them.
pub open spec fn parsed_number(s: Seq<char>, max: int) -> Option<int> {
    let digits = without_sign(s);
    if digits.len() > 0 && all_digits(digits) && decimal_value(digits) <= max {
        Some(decimal_value(digits))
    } else {
        None
    }
}

/// The digit `d` of base ten or sixteen, letters in upper case.
pub open spec fn digit_char(d: int) -> char {
    if d < 10 {
        ('0' as u32 + d) as char
    } else {
        ('A' as u32 + d - 10) as char
    }
}

/// `n` written in base `base`, most significant digit first, without leading zeros.
pub open spec fn number_text(n: int, base: int) -> Seq<char>
    decreases n,
{
    if base < 2 || n < base {
        seq![digit_char(n)]
    } else {
        proof {
            assert(0 <= n / base < n) by (nonlinear_arith)
                requires
                    2 <= base <= n,
            ;
        }
        number_text(n / base, base).push(digit_char(n % base))
    }
}

/// `String::push` appends one character.
pub assume_specification[ String::push ](s: &mut String, c: char)
    ensures
        final(s)@ == old(s)@.push(c),
;

/// Whether two texts are the same.
pub fn text_eq(a: &str, b: &str) -> (same: bool)
    ensures
        same == (a@ == b@),
{
    let x = a.as_bytes();
    let y = b.as_bytes();
    proof {
        encode_utf8_decode_utf8(a@);
        encode_utf8_decode_utf8(b@);
    }
    if x.len() != y.len() {
        return false;
    }
    let mut i: usize = 0;
    while i < x.len()
        invariant
            i <= x@.len() == y@.len(),
            x@ == encode_utf8(a@),
            y@ == encode_utf8(b@),
            forall|j: int| 0 <= j < i ==> x@[j] == y@[j],
        decreases x@.len() - i,
    {
        if x[i] != y[i] {
            return false;
        }
        i += 1;
    }
    assert(x@ =~= y@);
    true
}

/// Upper case for ASCII letters, every other character as it is.
pub fn to_upper(c: char) -> (r: char)
    ensures
        r == upper_char(c),
{
    if 'a' <= c && c <= 'z' {
        ((c as u8) - 32) as char
    } else {
        c
    }
}

/// Lower case for ASCII letters, every other character as it is.
pub fn to_lower(c: char) -> (r: char)
    ensures
        r == lower_char(c),
{
    if 'A' <= c && c <= 'Z' {
        ((c as u8) + 32) as char
    } else {
        c
    }
}

/// The CGI variable name for a header field name.
pub fn to_variable_name(name: &str) -> (variable: String)
    ensures
        variable@ == variable_name(name@),
{
    let mut variable = "HTTP_".to_owned();
    for c in it: name.chars()
        invariant
            it.seq() == name@,
            variable@ == "HTTP_"@ + name@.take(it.index()).map_values(|c: char| variable_char(c)),
    {
        let next = if c == '-' {
            '_'
        } else {
            to_upper(c)
        };
        variable.push(next);
        proof {
            let i = it.index();
            assert(name@.take(i + 1).map_values(|c: char| variable_char(c)) =~= name@.take(
                i,
            ).map_values(|c: char| variable_char(c)).push(variable_char(name@[i])));
        }
    }
    assert(name@.take(name@.len() as int) =~= name@);
    variable
}

/// Whether two texts differ at most in the case of ASCII letters.
pub fn eq_ignore_case(a: &str, b: &str) -> (same: bool)
    ensures
        same == same_ignoring_case(a@, b@),
{
    let x = lower_text(a);
    let y = lower_text(b);
    text_eq(x.as_str(), y.as_str())
}

fn lower_text(s: &str) -> (lower: String)
    ensures
        lower@ == s@.map_values(|c: char| lower_char(c)),
{
    let mut lower = String::new();
    for c in it: s.chars()
        invariant
            it.seq() == s@,
            lower@ == s@.take(it.index()).map_values(|c: char| lower_char(c)),
    {
        lower.push(to_lower(c));
        proof {
            let i = it.index();
            assert(s@.take(i + 1).map_values(|c: char| lower_char(c)) =~= s@.take(i).map_values(
                |c: char| lower_char(c),
            ).push(lower_char(s@[i])));
        }
    }
    assert(s@.take(s@.len() as int) =~= s@);
    lower
}

/// The text before the first space.
pub fn split_at_space(s: &str) -> (word: Option<String>)
    ensures
        word matches Some(w) ==> before_space(s@) == Some(w@),
        word is None ==> before_space(s@) is None,
{
    let mut word = String::new();
    proof {
        s@.index_of_first_ensures(' ');
    }
    for c in it: s.chars()
        invariant
            it.seq() == s@,
            word@ == s@.take(it.index()),
            forall|j: int| 0 <= j < it.index() ==> s@[j] != ' ',
    {
        if c == ' ' {
            proof {
                s@.index_of_first_ensures(' ');
                assert(s@[it.index()] == ' ');
            }
            return Some(word);
        }
        word.push(c);
        assert(s@.take(it.index() + 1) =~= s@.take(it.index()).push(c));
    }
    None
}

proof fn decimal_value_nonnegative(digits: Seq<char>)
    requires
        all_digits(digits),
    ensures
        0 <= decimal_value(digits),
    decreases digits.len(),
{
    if digits.len() > 0 {
        decimal_value_nonnegative(digits.drop_last());
    }
}

proof fn decimal_value_grows(digits: Seq<char>, n: int)
    requires
        all_digits(digits),
        0 <= n <= digits.len(),
    ensures
        0 <= decimal_value(digits.take(n)) <= decimal_value(digits),
    decreases digits.len(),
{
    decimal_value_nonnegative(digits);
    decimal_value_nonnegative(digits.take(n));
    if n == digits.len() {
        assert(digits.take(n) =~= digits);
    } else {
        assert(digits.drop_last().take(n) =~= digits.take(n));
        decimal_value_grows(digits.drop_last(), n);
    }
}

/// Reads a decimal number that is at most `max`.
pub fn parse_number(s: &str, max: u64) -> (number: Option<u64>)
    ensures
        number matches Some(n) ==> parsed_number(s@, max as int) == Some(n as int),
        number is None ==> parsed_number(s@, max as int) is None,
{
    let ghost digits = without_sign(s@);
    let ghost sign: int = if s@.len() > 0 && s@[0] == '+' {
        1
    } else {
        0
    };
    let mut value: u64 = 0;
    let mut seen: bool = false;
    let mut first: bool = true;
    for c in it: s.chars()
        invariant
            it.seq() == s@,
            sign == (if s@.len() > 0 && s@[0] == '+' { 1int } else { 0int }),
            digits == without_sign(s@),
            first == (it.index() == 0),
            seen == (it.index() > sign),
            it.index() <= sign ==> value == 0,
            it.index() > sign ==> value == decimal_value(digits.take(it.index() - sign)),
            forall|j: int| 0 <= j < it.index() - sign ==> is_digit(#[trigger] digits[j]),
            value <= max,
    {
        let ghost i = it.index();
        if first && c == '+' {
            first = false;
        } else {
            first = false;
            assert(0 <= i - sign < digits.len() && c == digits[i - sign]);
            if !('0' <= c && c <= '9') {
                assert(!is_digit(digits[i - sign]));
                return None;
            }
            let digit: u64 = ((c as u8) - 48) as u64;
            proof {
                assert(digits.take(i - sign + 1).drop_last() =~= digits.take(i - sign));
                assert(digits.take(0) =~= Seq::<char>::empty());
                assert(digits.take(i - sign + 1).last() == c);
                assert(digit == c as u32 - '0' as u32);
                assert(value == decimal_value(digits.take(i - sign)));
                assert(decimal_value(digits.take(i - sign + 1)) == value * 10 + digit);
            }
            if value > max / 10 || digit > max - value * 10 {
                proof {
                    if all_digits(digits) {
                        decimal_value_grows(digits, i - sign + 1);
                    }
                }
                return None;
            }
            value = value * 10 + digit;
            seen = true;
        }
    }
    proof {
        assert(digits.take(digits.len() as int) =~= digits);
    }
    if seen {
        Some(value)
    } else {
        None
    }
}

fn digit_of(d: u64) -> (c: char)
    requires
        d < 16,
    ensures
        c == digit_char(d as int),
{
    if d < 10 {
        (48u8 + d as u8) as char
    } else {
        (65u8 + (d as u8 - 10)) as char
    }
}

/// Writes a number in base ten or sixteen.
pub fn write_number(n: u64, base: u64) -> (text: String)
    requires
        2 <= base <= 16,
    ensures
        text@ == number_text(n as int, base as int),
    decreases n,
{
    if n < base {
        let mut text = String::new();
        text.push(digit_of(n));
        assert(text@ =~= seq![digit_char(n as int)]);
        text
    } else {
        assert(n / base < n) by (nonlinear_arith)
            requires
                2 <= base <= n,
        ;
        let mut text = write_number(n / base, base);
        text.push(digit_of(n % base));
        text
    }
}

/// The number that a run of hexadecimal digits in upper case denotes.
pub open spec fn hex_number(digits: Seq<char>) -> int
    decreases digits.len(),
{
    if digits.len() == 0 {
        0
    } else {
        hex_number(digits.drop_last()) * 16 + (if is_digit(digits.last()) {
            digits.last() as u32 - '0' as u32
        } else {
            digits.last() as u32 - 'A' as u32 + 10
        })
    }
}

/// A number that is written in base ten is read back as the same number.
pub proof fn written_number_is_read_back(n: int, max: int)
    requires
        0 <= n <= max,
    ensures
        parsed_number(number_text(n, 10), max) == Some(n),
{
    decimal_text(n);
    let text = number_text(n, 10);
    assert(is_digit(text[0]));
    assert(without_sign(text) == text);
}

/// The decimal text of a number is digits that denote it.
pub(crate) proof fn decimal_text(n: int)
    requires
        0 <= n,
    ensures
        number_text(n, 10).len() > 0,
        all_digits(number_text(n, 10)),
        decimal_value(number_text(n, 10)) == n,
    decreases n,
{
    reveal_with_fuel(decimal_value, 2);
    if n < 10 {
        assert(number_text(n, 10).drop_last() =~= Seq::<char>::empty());
    } else {
        decimal_text(n / 10);
        let front = number_text(n / 10, 10);
        assert(number_text(n, 10) == front.push(digit_char(n % 10)));
        assert(number_text(n, 10).drop_last() =~= front);
    }
}

/// A number that is written in base sixteen denotes the same number.
pub proof fn written_hex_denotes_the_number(n: int)
    requires
        0 <= n,
    ensures
        hex_number(number_text(n, 16)) == n,
    decreases n,
{
    reveal_with_fuel(hex_number, 2);
    if n < 16 {
        assert(number_text(n, 16).drop_last() =~= Seq::<char>::empty());
    } else {
        written_hex_denotes_the_number(n / 16);
        assert(number_text(n, 16).drop_last() =~= number_text(n / 16, 16));
    }
}

/// A number of at most `k` decimal digits is written with at most `k` characters.
pub(crate) proof fn decimal_text_len(n: int, k: nat)
    requires
        0 <= n < pow(10, k),
        k > 0,
    ensures
        number_text(n, 10).len() <= k,
    decreases k,
{
    if n >= 10 {
        reveal_with_fuel(pow, 2);
        assert(n / 10 < pow(10, (k - 1) as nat));
        assert(k > 1);
        decimal_text_len(n / 10, (k - 1) as nat);
    }
}

/// The decimal text of a `u64` is ASCII, and not longer than twenty characters.
pub(crate) proof fn decimal_text_of_u64(n: u64)
    ensures
        number_text(n as int, 10).len() <= 20,
        is_ascii_chars(number_text(n as int, 10)),
{
    decimal_text(n as int);
    assert forall|i: int| 0 <= i < number_text(n as int, 10).len() implies '\0' <= #[trigger] number_text(n as int, 10)[i] <= '\u{7f}' by {
        assert(is_digit(number_text(n as int, 10)[i]));
    }
    assert(pow(10, 20) == 100000000000000000000) by {
        reveal_with_fuel(pow, 21);
    }
    decimal_text_len(n as int, 20);
}

/// A number in base sixteen is made of digits and the letters `A` to `F`.
pub(crate) proof fn hex_text(n: int)
    requires
        0 <= n,
    ensures
        number_text(n, 16).len() > 0,
        forall|i: int|
            0 <= i < number_text(n, 16).len() ==> is_digit(#[trigger] number_text(n, 16)[i]) || (
            'A' <= number_text(n, 16)[i] && number_text(n, 16)[i] <= 'F'),
    decreases n,
{
    if n >= 16 {
        hex_text(n / 16);
        assert(number_text(n, 16) == number_text(n / 16, 16).push(digit_char(n % 16)));
        assert forall|i: int| 0 <= i < number_text(n, 16).len() implies is_digit(
            #[trigger] number_text(n, 16)[i],
        ) || ('A' <= number_text(n, 16)[i] && number_text(n, 16)[i] <= 'F') by {
            if i < number_text(n / 16, 16).len() {
                assert(number_text(n, 16)[i] == number_text(n / 16, 16)[i]);
            }
        }
    }
}

/// Changing the case of an ASCII letter moves its code point by thirty-two; every other
/// character stays. Upper case has no lower-case ASCII letter, and the other way round.
pub proof fn case_changes_letters_only(c: char)
    ensures
        'a' <= c && c <= 'z' ==> upper_char(c) as u32 == c as u32 - 32,
        !('a' <= c && c <= 'z') ==> upper_char(c) == c,
        'A' <= c && c <= 'Z' ==> lower_char(c) as u32 == c as u32 + 32,
        !('A' <= c && c <= 'Z') ==> lower_char(c) == c,
        lower_char(upper_char(c)) == lower_char(c),
        upper_char(lower_char(c)) == upper_char(c),
{
}

/// Two texts that are the same but for case have equal lengths, and at each place the
/// same character or the two cases of one ASCII letter.
pub proof fn same_but_for_case(a: Seq<char>, b: Seq<char>)
    ensures
        same_ignoring_case(a, b) <==> (a.len() == b.len() && forall|i: int|
            0 <= i < a.len() ==> (#[trigger] a[i] == b[i] || ('a' <= a[i] && a[i] <= 'z'
                && a[i] as u32 == b[i] as u32 + 32) || ('A' <= a[i] && a[i] <= 'Z' && a[i] as u32
                + 32 == b[i] as u32))),
{
    let x = a.map_values(|c: char| lower_char(c));
    let y = b.map_values(|c: char| lower_char(c));
    if same_ignoring_case(a, b) {
        assert(x.len() == y.len());
        assert forall|i: int| 0 <= i < a.len() implies (#[trigger] a[i] == b[i] || ('a' <= a[i]
            && a[i] <= 'z' && a[i] as u32 == b[i] as u32 + 32) || ('A' <= a[i] && a[i] <= 'Z'
            && a[i] as u32 + 32 == b[i] as u32)) by {
            assert(x[i] == y[i]);
            assert(lower_char(a[i]) == lower_char(b[i]));
        }
    } else if a.len() == b.len() && forall|i: int|
        0 <= i < a.len() ==> (#[trigger] a[i] == b[i] || ('a' <= a[i] && a[i] <= 'z' && a[i] as u32
            == b[i] as u32 + 32) || ('A' <= a[i] && a[i] <= 'Z' && a[i] as u32 + 32
            == b[i] as u32)) {
        assert forall|i: int| 0 <= i < a.len() implies x[i] == y[i] by {
            assert(a[i] == b[i] || ('a' <= a[i] && a[i] <= 'z' && a[i] as u32 == b[i] as u32 + 32)
                || ('A' <= a[i] && a[i] <= 'Z' && a[i] as u32 + 32 == b[i] as u32));
        }
        assert(x =~= y);
    }
}

/// The variable of a header field is `HTTP_` and the name, letter by letter in upper
/// case, with underscores for hyphens and every other character as it is.
pub proof fn variable_name_spells_the_name(name: Seq<char>)
    ensures
        variable_name(name).len() == name.len() + 5,
        variable_name(name).take(5) == "HTTP_"@,
        forall|i: int|
            0 <= i < name.len() ==> {
                let c = #[trigger] name[i];
                let v = variable_name(name)[i + 5];
                &&& c == '-' ==> v == '_'
                &&& 'a' <= c && c <= 'z' ==> v as u32 == c as u32 - 32
                &&& c != '-' && !('a' <= c && c <= 'z') ==> v == c
            },
{
    reveal_strlit("HTTP_");
    assert(variable_name(name).take(5) =~= "HTTP_"@);
}

/// Names that are the same but for case set the same variable.
pub proof fn variable_name_ignores_case(a: Seq<char>, b: Seq<char>)
    requires
        same_ignoring_case(a, b),
    ensures
        variable_name(a) == variable_name(b),
{
    same_but_for_case(a, b);
    reveal_strlit("HTTP_");
    assert forall|i: int| 0 <= i < variable_name(a).len() implies variable_name(a)[i]
        == variable_name(b)[i] by {
        if i >= 5 {
            assert(a[i - 5] == b[i - 5] || a[i - 5] as u32 == b[i - 5] as u32 + 32 || a[i
                - 5] as u32 + 32 == b[i - 5] as u32);
        }
    }
    assert(variable_name(a) =~= variable_name(b));
}

/// The text before the first space is what stands before it, whatever follows; a text
/// without a space has none.
pub proof fn text_before_first_space(word: Seq<char>, rest: Seq<char>)
    requires
        !word.contains(' '),
    ensures
        before_space(word + seq![' '] + rest) == Some(word),
        before_space(word) is None,
{
    let s = word + seq![' '] + rest;
    s.index_of_first_ensures(' ');
    word.index_of_first_ensures(' ');
    assert(s[word.len() as int] == ' ');
    assert forall|i: int| 0 <= i < word.len() implies s[i] != ' ' by {
        assert(s[i] == word[i]);
        assert(word.contains(word[i]));
    }
    assert(s.take(word.len() as int) =~= word);
}

/// A digit denotes its distance from zero, and a digit behind a number multiplies it by
/// ten and is added. A plus sign before a number changes nothing.
pub proof fn digits_make_a_number(s: Seq<char>, v: int, c: char, max: int)
    requires
        '0' <= c && c <= '9',
        0 <= max,
        parsed_number(s, max) == Some(v),
    ensures
        parsed_number(seq![c], 9) == Some(c as u32 - 48),
        parsed_number(s.push(c), max) == (if v * 10 + (c as u32 - 48) <= max {
            Some(v * 10 + (c as u32 - 48))
        } else {
            None
        }),
        s[0] != '+' ==> parsed_number(seq!['+'] + s, max) == Some(v),
{
    reveal_with_fuel(decimal_value, 2);
    assert(seq![c].drop_last() =~= Seq::<char>::empty());
    assert(is_digit(seq![c][0]));
    let digits = without_sign(s);
    let more = without_sign(s.push(c));
    assert(more =~= digits.push(c));
    assert(digits.push(c).drop_last() =~= digits);
    assert forall|i: int| 0 <= i < more.len() implies is_digit(#[trigger] more[i]) by {
        if i < digits.len() {
            assert(more[i] == digits[i]);
        }
    }
    assert(all_digits(more));
    if s[0] != '+' {
        assert((seq!['+'] + s).skip(1) =~= s);
    }
}

/// A text is a number only if it has a digit and, but for a leading plus sign, nothing
/// else; and no number is larger than the largest or negative.
pub proof fn only_digits_make_a_number(s: Seq<char>, max: int)
    ensures
        parsed_number(s, max) matches Some(n) ==> 0 <= n <= max && s.len() > 0 && (s.last() >= '0'
            && s.last() <= '9'),
        s.len() == 0 ==> parsed_number(s, max) is None,
        (exists|i: int|
            0 <= i < s.len() && !('0' <= #[trigger] s[i] && s[i] <= '9') && (i > 0 || s[i] != '+'))
            ==> parsed_number(s, max) is None,
{
    let digits = without_sign(s);
    if parsed_number(s, max) is Some {
        decimal_value_nonnegative(digits);
        assert(is_digit(digits[digits.len() - 1]));
        if exists|i: int|
            0 <= i < s.len() && !('0' <= #[trigger] s[i] && s[i] <= '9') && (i > 0 || s[i] != '+') {
            let i = choose|i: int|
                0 <= i < s.len() && !('0' <= #[trigger] s[i] && s[i] <= '9') && (i > 0 || s[i]
                    != '+');
            if s[0] == '+' {
                assert(digits[i - 1] == s[i]);
            } else {
                assert(digits[i] == s[i]);
            }
        }
    }
}

/// A number in base ten is written with the digits that make it up, the last one the
/// remainder by ten, and without zeros before it.
pub proof fn numbers_are_written_digit_by_digit(n: int)
    requires
        0 <= n,
    ensures
        number_text(n, 10).len() > 0,
        number_text(n, 10).last() as u32 == 48 + n % 10,
        n < 10 ==> number_text(n, 10).len() == 1,
        n >= 10 ==> number_text(n, 10).drop_last() == number_text(n / 10, 10),
        n > 0 ==> number_text(n, 10)[0] != '0',
    decreases n,
{
    if n >= 10 {
        numbers_are_written_digit_by_digit(n / 10);
        assert(number_text(n, 10).drop_last() =~= number_text(n / 10, 10));
        assert(number_text(n, 10)[0] == number_text(n / 10, 10)[0]);
    }
}

/// A number in base sixteen is written in the same way, with the letters from `A` on for
/// the digits from ten on.
pub proof fn numbers_are_written_in_hexadecimal(n: int)
    requires
        0 <= n,
    ensures
        number_text(n, 16).len() > 0,
        n % 16 < 10 ==> number_text(n, 16).last() as u32 == 48 + n % 16,
        n % 16 >= 10 ==> number_text(n, 16).last() as u32 == 65 + n % 16 - 10,
        n < 16 ==> number_text(n, 16).len() == 1,
        n >= 16 ==> number_text(n, 16).drop_last() == number_text(n / 16, 16),
{
    if n >= 16 {
        assert(number_text(n, 16).drop_last() =~= number_text(n / 16, 16));
    }
}

/// A number that is larger than the largest is not read.
pub proof fn large_numbers_are_not_read(n: int, max: int)
    requires
        0 <= max < n,
    ensures
        parsed_number(number_text(n, 10), max) is None,
{
    decimal_text(n);
    let text = number_text(n, 10);
    assert(is_digit(text[0]));
    assert(without_sign(text) == text);
}

}
