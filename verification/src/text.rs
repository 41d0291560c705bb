//! Strings as sequences of characters.

use vstd::prelude::*;
use vstd::string::*;
use vstd::utf8::*;

verus! {

/// `String::push`: the character is appended.
pub assume_specification[ String::push ](text: &mut String, c: char)
    ensures
        final(text)@ == old(text)@.push(c),
;

/// The characters of `text`, in order.
pub fn chars_of(text: &str) -> (chars: Vec<char>)
    ensures
        chars@ == text@,
{
    let mut chars: Vec<char> = Vec::new();
    for c in it: text.chars()
        invariant
            it.seq() == text@,
            chars@ == text@.take(it.index()),
    {
        chars.push(c);
    }
    chars
}

/// The string made of `chars`, in order.
pub fn string_of(chars: &Vec<char>) -> (text: String)
    ensures
        text@ == chars@,
{
    let mut text = String::new();
    let mut i: usize = 0;
    while i < chars.len()
        invariant
            i <= chars.len(),
            text@ == chars@.take(i as int),
        decreases chars.len() - i,
    {
        text.push(chars[i]);
        i += 1;
    }
    text
}

/// Whether two strings hold the same characters.
pub fn same_text(a: &str, b: &str) -> (same: bool)
    ensures
        same == (a@ == b@),
{
    let left = a.as_bytes();
    let right = b.as_bytes();
    proof {
        encode_utf8_decode_utf8(a@);
        encode_utf8_decode_utf8(b@);
    }
    if left.len() != right.len() {
        return false;
    }
    let mut i: usize = 0;
    while i < left.len()
        invariant
            left@ == encode_utf8(a@),
            right@ == encode_utf8(b@),
            left@.len() == right@.len(),
            i <= left.len(),
            forall|j: int| 0 <= j < i ==> left@[j] == right@[j],
        decreases left.len() - i,
    {
        if left[i] != right[i] {
            return false;
        }
        i += 1;
    }
    assert(left@ =~= right@);
    true
}

/// The decimal notation of a natural number.
pub open spec fn decimal_digits(n: nat) -> Seq<char>
    decreases n,
{
    let last = (('0' as u32) + (n % 10) as u32) as char;
    if n < 10 {
        seq![last]
    } else {
        decimal_digits(n / 10).push(last)
    }
}

/// The decimal notation of `n`.
pub fn decimal(n: u64) -> (text: String)
    ensures
        text@ == decimal_digits(n as nat),
    decreases n,
{
    let digit: u8 = (n % 10) as u8;
    let last: char = (48u8 + digit) as char;
    if n < 10 {
        let mut text = String::new();
        text.push(last);
        text
    } else {
        let mut text = decimal(n / 10);
        text.push(last);
        text
    }
}

/// Characters with the Unicode property White_Space.
pub open spec fn is_white_space(c: char) -> bool {
    let code = c as u32;
    ||| 0x09 <= code <= 0x0d
    ||| code == 0x20
    ||| code == 0x85
    ||| code == 0xa0
    ||| code == 0x1680
    ||| 0x2000 <= code <= 0x200a
    ||| code == 0x2028
    ||| code == 0x2029
    ||| code == 0x202f
    ||| code == 0x205f
    ||| code == 0x3000
}

/// Whether `c` is white space.
pub fn white_space(c: char) -> (yes: bool)
    ensures
        yes == is_white_space(c),
{
    let code: u32 = c as u32;
    (0x09 <= code && code <= 0x0d) || code == 0x20 || code == 0x85 || code == 0xa0 || code == 0x1680
        || (0x2000 <= code && code <= 0x200a) || code == 0x2028 || code == 0x2029 || code == 0x202f
        || code == 0x205f || code == 0x3000
}

/// `text` without its leading white space.
pub open spec fn trim_front(text: Seq<char>) -> Seq<char>
    decreases text.len(),
{
    if text.len() > 0 && is_white_space(text[0]) {
        trim_front(text.drop_first())
    } else {
        text
    }
}

/// `text` without its trailing white space.
pub open spec fn trim_back(text: Seq<char>) -> Seq<char>
    decreases text.len(),
{
    if text.len() > 0 && is_white_space(text.last()) {
        trim_back(text.drop_last())
    } else {
        text
    }
}

/// `text` without the white space around it.
pub open spec fn trimmed(text: Seq<char>) -> Seq<char> {
    trim_back(trim_front(text))
}

/// Whether `text` holds nothing but white space.
pub open spec fn is_blank(text: Seq<char>) -> bool {
    forall|i: int| 0 <= i < text.len() ==> is_white_space(#[trigger] text[i])
}

/// A text is blank exactly when nothing is left of it after trimming.
pub proof fn blank_iff_trimmed_empty(text: Seq<char>)
    ensures
        is_blank(text) <==> trimmed(text).len() == 0,
    decreases text.len(),
{
    if text.len() > 0 && is_white_space(text[0]) {
        blank_iff_trimmed_empty(text.drop_first());
        if is_blank(text.drop_first()) {
            assert forall|i: int| 0 <= i < text.len() implies is_white_space(
                #[trigger] text[i],
            ) by {
                if i > 0 {
                    assert(text.drop_first()[i - 1] == text[i]);
                }
            }
        }
        if is_blank(text) {
            assert forall|i: int| 0 <= i < text.drop_first().len() implies is_white_space(
                #[trigger] text.drop_first()[i],
            ) by {
                assert(text.drop_first()[i] == text[i + 1]);
            }
        }
    } else if text.len() > 0 {
        lemma_trim_back_keeps_first(text);
    }
}

proof fn lemma_trim_back_keeps_first(text: Seq<char>)
    requires
        text.len() > 0,
        !is_white_space(text[0]),
    ensures
        trim_back(text).len() > 0,
    decreases text.len(),
{
    if is_white_space(text.last()) {
        lemma_trim_back_keeps_first(text.drop_last());
    }
}

/// `str::trim`.
pub fn trim(text: &str) -> (result: String)
    ensures
        result@ == trimmed(text@),
{
    let chars = chars_of(text);
    let mut start: usize = 0;
    proof {
        assert(chars@.skip(0) =~= chars@);
    }
    while start < chars.len() && white_space(chars[start])
        invariant
            start <= chars.len(),
            trim_front(chars@) == trim_front(chars@.skip(start as int)),
        decreases chars.len() - start,
    {
        proof {
            assert(chars@.skip(start as int).drop_first() =~= chars@.skip(start + 1));
        }
        start += 1;
    }
    let mut end: usize = chars.len();
    proof {
        assert(trim_front(chars@) == chars@.skip(start as int));
        assert(chars@.subrange(start as int, end as int) =~= chars@.skip(start as int));
    }
    while start < end && white_space(chars[end - 1])
        invariant
            start <= end <= chars.len(),
            trim_back(chars@.skip(start as int)) == trim_back(
                chars@.subrange(start as int, end as int),
            ),
        decreases end,
    {
        proof {
            assert(chars@.subrange(start as int, end as int).drop_last() =~= chars@.subrange(
                start as int,
                end - 1,
            ));
        }
        end -= 1;
    }
    let mut result = String::new();
    let mut i: usize = start;
    while i < end
        invariant
            start <= i <= end <= chars.len(),
            result@ == chars@.subrange(start as int, i as int),
        decreases end - i,
    {
        result.push(chars[i]);
        i += 1;
    }
    result
}

/// Whether `text` holds nothing but white space.
pub fn blank(text: &str) -> (yes: bool)
    ensures
        yes == is_blank(text@),
{
    let chars = chars_of(text);
    let mut i: usize = 0;
    while i < chars.len()
        invariant
            i <= chars.len(),
            chars@ == text@,
            forall|j: int| 0 <= j < i ==> is_white_space(#[trigger] chars@[j]),
        decreases chars.len() - i,
    {
        if !white_space(chars[i]) {
            return false;
        }
        i += 1;
    }
    true
}

/// What follows `prefix` in `text`, if `text` begins with it.
pub open spec fn without_prefix(text: Seq<char>, prefix: Seq<char>) -> Option<Seq<char>> {
    if prefix.is_prefix_of(text) {
        Some(text.skip(prefix.len() as int))
    } else {
        None
    }
}

/// `str::strip_prefix`.
pub fn strip_prefix(text: &str, prefix: &str) -> (rest: Option<String>)
    ensures
        rest.deep_view() == without_prefix(text@, prefix@),
{
    let chars = chars_of(text);
    let start = chars_of(prefix);
    if start.len() > chars.len() {
        return None;
    }
    let mut i: usize = 0;
    while i < start.len()
        invariant
            i <= start.len() <= chars.len(),
            chars@ == text@,
            start@ == prefix@,
            forall|j: int| 0 <= j < i ==> chars@[j] == start@[j],
        decreases start.len() - i,
    {
        if chars[i] != start[i] {
            return None;
        }
        i += 1;
    }
    let mut rest = String::new();
    while i < chars.len()
        invariant
            start.len() <= i <= chars.len(),
            rest@ == chars@.subrange(start@.len() as int, i as int),
        decreases chars.len() - i,
    {
        rest.push(chars[i]);
        i += 1;
    }
    proof {
        assert(chars@.subrange(start@.len() as int, i as int) =~= text@.skip(
            prefix@.len() as int,
        ));
        assert(prefix@.is_prefix_of(text@));
    }
    Some(rest)
}

/// `str::starts_with`.
pub fn starts_with(text: &str, prefix: &str) -> (yes: bool)
    ensures
        yes == prefix@.is_prefix_of(text@),
{
    strip_prefix(text, prefix).is_some()
}

/// The number of bytes of `text` in UTF-8.
pub fn byte_len(text: &str) -> (n: usize)
    ensures
        n == encode_utf8(text@).len(),
        n == bytes_in(text@),
{
    proof {
        lemma_bytes_in(text@);
    }
    text.as_bytes().len()
}

/// Two strings put together.
pub fn joined(a: &str, b: &str) -> (text: String)
    ensures
        text@ == a@ + b@,
{
    let mut text = a.to_owned();
    text.append(b);
    text
}

/// The texts in order, with `separator` between neighbours.
pub open spec fn join_texts(texts: Seq<Seq<char>>, separator: Seq<char>) -> Seq<char>
    decreases texts.len(),
{
    if texts.len() == 0 {
        Seq::empty()
    } else if texts.len() == 1 {
        texts[0]
    } else {
        join_texts(texts.drop_last(), separator) + separator + texts.last()
    }
}

/// `join` on a slice of strings.
pub fn join(texts: &Vec<String>, separator: &str) -> (text: String)
    ensures
        text@ == join_texts(texts.deep_view(), separator@),
{
    broadcast use crate::deep::group_models;

    let mut text = String::new();
    let mut i: usize = 0;
    while i < texts.len()
        invariant
            i <= texts.len(),
            text@ == join_texts(texts.deep_view().take(i as int), separator@),
        decreases texts.len() - i,
    {
        if i > 0 {
            text.append(separator);
        }
        text.append(texts[i].as_str());
        proof {
            let next = texts.deep_view().take(i + 1);
            assert(next.drop_last() =~= texts.deep_view().take(i as int));
            assert(next.last() == texts@[i as int]@);
            if i == 0 {
                assert(text@ =~= next[0]);
            }
        }
        i += 1;
    }
    proof {
        assert(texts.deep_view().take(i as int) =~= texts.deep_view());
    }
    text
}

/// Whether two optional strings are the same.
pub fn same_option(a: &Option<String>, b: &Option<String>) -> (same: bool)
    ensures
        same == (a.deep_view() == b.deep_view()),
{
    match (a, b) {
        (None, None) => true,
        (Some(left), Some(right)) => same_text(left.as_str(), right.as_str()),
        _ => false,
    }
}

/// The text without the characters `c` at its end.
pub open spec fn without_trailing(text: Seq<char>, c: char) -> Seq<char>
    decreases text.len(),
{
    if text.len() > 0 && text.last() == c {
        without_trailing(text.drop_last(), c)
    } else {
        text
    }
}

pub proof fn lemma_without_trailing(text: Seq<char>, c: char)
    ensures
        without_trailing(text, c).is_prefix_of(text),
        without_trailing(text, c).len() > 0 ==> without_trailing(text, c).last() != c,
    decreases text.len(),
{
    if text.len() > 0 && text.last() == c {
        lemma_without_trailing(text.drop_last(), c);
    }
}

/// `str::trim_end_matches` with a character.
pub fn trim_trailing(text: &str, c: char) -> (result: String)
    ensures
        result@ == without_trailing(text@, c),
{
    let mut chars = chars_of(text);
    while chars.len() > 0 && chars[chars.len() - 1] == c
        invariant
            without_trailing(text@, c) == without_trailing(chars@, c),
        decreases chars.len(),
    {
        proof {
            assert(chars@.take(chars@.len() - 1) =~= chars@.drop_last());
        }
        let _ = chars.pop();
    }
    string_of(&chars)
}

/// `str::ends_with`.
pub fn ends_with(text: &str, suffix: &str) -> (yes: bool)
    ensures
        yes == suffix@.is_suffix_of(text@),
{
    let chars = chars_of(text);
    let end = chars_of(suffix);
    if end.len() > chars.len() {
        return false;
    }
    let start = chars.len() - end.len();
    let mut i: usize = 0;
    while i < end.len()
        invariant
            chars@ == text@,
            end@ == suffix@,
            start == chars.len() - end.len(),
            i <= end.len(),
            forall|j: int| 0 <= j < i ==> chars@[start + j] == end@[j],
        decreases end.len() - i,
    {
        if chars[start + i] != end[i] {
            proof {
                assert(text@.subrange(start as int, text@.len() as int)[i as int] != suffix@[i as int]);
            }
            return false;
        }
        i += 1;
    }
    proof {
        assert(suffix@ =~= text@.subrange(start as int, text@.len() as int));
    }
    true
}

/// The lines of `text` from `start` on, the first of which begins with `current`.
pub open spec fn lines_from(text: Seq<char>, start: int, current: Seq<char>) -> Seq<Seq<char>>
    decreases text.len() - start,
{
    if start < 0 || start >= text.len() {
        seq![current]
    } else if text[start] == '\n' {
        seq![current] + lines_from(text, start + 1, Seq::empty())
    } else {
        lines_from(text, start + 1, current.push(text[start]))
    }
}

/// The pieces of `text` between line feeds.
pub open spec fn lines_of(text: Seq<char>) -> Seq<Seq<char>> {
    lines_from(text, 0, Seq::empty())
}

/// `str::split` at line feeds.
pub fn split_lines(text: &str) -> (lines: Vec<String>)
    ensures
        lines.deep_view() == lines_of(text@),
{
    broadcast use crate::deep::group_models;

    let chars = chars_of(text);
    let ghost all = lines_of(text@);
    let mut lines: Vec<String> = Vec::new();
    let mut current = String::new();
    let mut i: usize = 0;
    proof {
        assert(Seq::<Seq<char>>::empty() + all =~= all);
    }
    while i < chars.len()
        invariant
            chars@ == text@,
            i <= chars.len(),
            lines.deep_view() + lines_from(text@, i as int, current@) == all,
        decreases chars.len() - i,
    {
        let ghost before = lines.deep_view();
        if chars[i] == '\n' {
            let ghost line = current@;
            lines.push(current);
            current = String::new();
            proof {
                let rest = lines_from(text@, i + 1, Seq::empty());
                assert(before + (seq![line] + rest) =~= before.push(line) + rest);
            }
        } else {
            current.push(chars[i]);
        }
        i += 1;
    }
    let ghost before = lines.deep_view();
    let ghost line = current@;
    lines.push(current);
    proof {
        assert(before + seq![line] =~= before.push(line));
    }
    lines
}

/// The value of a decimal digit.
pub open spec fn digit_value(c: char) -> nat {
    (c as nat - '0' as nat) as nat
}

pub open spec fn is_digit(c: char) -> bool {
    '0' <= c <= '9'
}

/// Whether `text` is made of decimal digits, one at least.
pub open spec fn all_digits(text: Seq<char>) -> bool {
    text.len() > 0 && forall|i: int| 0 <= i < text.len() ==> is_digit(#[trigger] text[i])
}

/// The number that decimal digits stand for.
pub open spec fn number_of(digits: Seq<char>) -> nat
    decreases digits.len(),
{
    if digits.len() == 0 {
        0
    } else {
        number_of(digits.drop_last()) * 10 + digit_value(digits.last())
    }
}

/// The decimal notation of a number is made of digits, and stands for that number.
pub proof fn decimal_notation_reads_back(n: nat)
    ensures
        all_digits(decimal_digits(n)),
        number_of(decimal_digits(n)) == n,
    decreases n,
{
    let digits = decimal_digits(n);
    let last = (('0' as u32) + (n % 10) as u32) as char;
    assert(is_digit(last) && digit_value(last) == n % 10);
    if n < 10 {
        assert(digits.drop_last() =~= Seq::<char>::empty());
        assert(number_of(digits.drop_last()) == 0);
    } else {
        decimal_notation_reads_back(n / 10);
        let before = decimal_digits(n / 10);
        assert(digits.drop_last() =~= before);
        assert forall|i: int| 0 <= i < digits.len() implies is_digit(#[trigger] digits[i]) by {
            if i < before.len() {
                assert(digits[i] == before[i]);
            }
        }
        assert(n == (n / 10) * 10 + n % 10);
    }
}

/// The number in `text`: decimal digits, a plus sign before them or not, that fit 64 bits.
pub open spec fn parsed_number(text: Seq<char>) -> Option<u64> {
    let digits = if text.len() > 0 && text[0] == '+' {
        text.drop_first()
    } else {
        text
    };
    if all_digits(digits) && number_of(digits) <= u64::MAX {
        Some(number_of(digits) as u64)
    } else {
        None
    }
}

/// `str::parse` as a `u64`.
pub fn parse_number(text: &str) -> (number: Option<u64>)
    ensures
        number == parsed_number(text@),
{
    let chars = chars_of(text);
    let start: usize = if chars.len() > 0 && chars[0] == '+' {
        1
    } else {
        0
    };
    let ghost digits = if text@.len() > 0 && text@[0] == '+' {
        text@.drop_first()
    } else {
        text@
    };
    proof {
        assert(digits =~= chars@.skip(start as int));
    }
    if start >= chars.len() {
        return None;
    }
    let mut number: u64 = 0;
    let mut fits = true;
    let mut i: usize = start;
    while i < chars.len()
        invariant
            chars@ == text@,
            digits == chars@.skip(start as int),
            digits == (if text@.len() > 0 && text@[0] == '+' {
                text@.drop_first()
            } else {
                text@
            }),
            start <= i <= chars.len(),
            forall|j: int| 0 <= j < i - start ==> is_digit(#[trigger] digits[j]),
            fits ==> number == number_of(digits.take(i - start)),
            !fits ==> number_of(digits.take(i - start)) > u64::MAX,
        decreases chars.len() - i,
    {
        let c = chars[i];
        proof {
            assert(digits[i - start] == c);
            assert(digits.take(i - start + 1).drop_last() =~= digits.take(i - start));
            assert(digits.take(i - start + 1).last() == c);
        }
        if c < '0' || c > '9' {
            proof {
                assert(!is_digit(digits[i - start]));
            }
            return None;
        }
        let digit: u64 = (c as u32 - 48) as u64;
        if fits {
            match number.checked_mul(10) {
                Some(shifted) => match shifted.checked_add(digit) {
                    Some(next) => {
                        number = next;
                    },
                    None => {
                        fits = false;
                    },
                },
                None => {
                    fits = false;
                },
            }
        }
        i += 1;
    }
    proof {
        assert(digits.take(i - start) =~= digits);
    }
    if fits {
        Some(number)
    } else {
        None
    }
}

/// `std::str::from_utf8`, as an owned string: nothing where the bytes are no UTF-8.
#[verifier::external_body]
pub(crate) fn text_of_bytes(bytes: &[u8]) -> (text: Option<String>)
    ensures
        match text {
            Some(text) => valid_utf8(bytes@) && text@ == decode_utf8(bytes@),
            None => !valid_utf8(bytes@),
        },
{
    std::str::from_utf8(bytes).ok().map(str::to_string)
}

/// What `String::from_utf8_lossy` makes of bytes.
pub uninterp spec fn lossy_utf8(bytes: Seq<u8>) -> Seq<char>;

/// `String::from_utf8_lossy`: the text of valid UTF-8 as it is, and otherwise a text in which
/// replacement characters stand for what is invalid. The result depends on the bytes alone.
#[verifier::external_body]
pub(crate) fn lossy_text(bytes: &[u8]) -> (text: String)
    ensures
        text@ == lossy_utf8(bytes@),
        valid_utf8(bytes@) ==> text@ == decode_utf8(bytes@),
{
    String::from_utf8_lossy(bytes).into_owned()
}

/// The number of bytes of a character in UTF-8.
pub open spec fn char_width(c: char) -> nat {
    let code = c as u32;
    if code <= 0x7f {
        1
    } else if code <= 0x7ff {
        2
    } else if code <= 0xffff {
        3
    } else {
        4
    }
}

/// `char::len_utf8`.
pub fn width_of(c: char) -> (width: usize)
    ensures
        width == char_width(c),
        1 <= width <= 4,
{
    let code: u32 = c as u32;
    if code <= 0x7f {
        1
    } else if code <= 0x7ff {
        2
    } else if code <= 0xffff {
        3
    } else {
        4
    }
}

/// The number of bytes of a text in UTF-8.
pub open spec fn bytes_in(text: Seq<char>) -> nat
    decreases text.len(),
{
    if text.len() == 0 {
        0
    } else {
        bytes_in(text.drop_last()) + char_width(text.last())
    }
}

pub proof fn lemma_bytes_push(text: Seq<char>, c: char)
    ensures
        bytes_in(text.push(c)) == bytes_in(text) + char_width(c),
{
    assert(text.push(c).drop_last() =~= text);
}

pub proof fn lemma_bytes_concat(a: Seq<char>, b: Seq<char>)
    ensures
        bytes_in(a + b) == bytes_in(a) + bytes_in(b),
    decreases b.len(),
{
    if b.len() == 0 {
        assert(a + b =~= a);
    } else {
        lemma_bytes_concat(a, b.drop_last());
        assert((a + b).drop_last() =~= a + b.drop_last());
    }
}

/// The bytes of a text are those of its characters.
pub proof fn lemma_bytes_in(text: Seq<char>)
    ensures
        bytes_in(text) == encode_utf8(text).len(),
    decreases text.len(),
{
    if text.len() > 0 {
        let first = text[0];
        let rest = text.drop_first();
        lemma_bytes_in(rest);
        lemma_bytes_concat(seq![first], rest);
        assert(seq![first] + rest =~= text);
        assert(seq![first].drop_last() =~= Seq::<char>::empty());
        assert(bytes_in(seq![first]) == char_width(first)) by {
            reveal_with_fuel(bytes_in, 2);
        }
        char_is_scalar(first);
        assert(encode_scalar(first as u32).len() == char_width(first));
    }
}

/// The end of the longest piece of a text, from position `start` on, that takes at most `left`
/// bytes.
pub open spec fn fitting(text: Seq<char>, start: int, left: nat) -> int
    decreases text.len() - start,
{
    if start < 0 || start >= text.len() || char_width(text[start]) > left {
        start
    } else {
        fitting(text, start + 1, (left - char_width(text[start])) as nat)
    }
}

/// The longest beginning of a text that takes at most `limit` bytes.
pub open spec fn fitting_prefix(text: Seq<char>, limit: nat) -> Seq<char> {
    text.take(fitting(text, 0, limit))
}

proof fn lemma_fitting(text: Seq<char>, start: int, left: nat)
    requires
        0 <= start <= text.len(),
    ensures
        ({
            let end = fitting(text, start, left);
            &&& start <= end <= text.len()
            &&& bytes_in(text.take(end)) <= bytes_in(text.take(start)) + left
            &&& end < text.len() ==> bytes_in(text.take(end + 1)) > bytes_in(text.take(start))
                + left
        }),
    decreases text.len() - start,
{
    if start < text.len() {
        assert(text.take(start + 1) =~= text.take(start).push(text[start]));
        lemma_bytes_push(text.take(start), text[start]);
        if char_width(text[start]) <= left {
            lemma_fitting(text, start + 1, (left - char_width(text[start])) as nat);
        }
    }
}

/// The longest beginning that fits does fit; one character more does not; and a text that fits is
/// its own.
pub proof fn the_fitting_prefix_is_the_longest(text: Seq<char>, limit: nat)
    ensures
        ({
            let end = fitting(text, 0, limit);
            &&& 0 <= end <= text.len()
            &&& bytes_in(fitting_prefix(text, limit)) <= limit
            &&& end < text.len() ==> bytes_in(text.take(end + 1)) > limit
            &&& bytes_in(text) <= limit ==> fitting_prefix(text, limit) == text
        }),
{
    lemma_fitting(text, 0, limit);
    assert(text.take(0) =~= Seq::<char>::empty());
    let end = fitting(text, 0, limit);
    if end < text.len() {
        lemma_bytes_concat(text.take(end + 1), text.skip(end + 1));
        assert(text.take(end + 1) + text.skip(end + 1) =~= text);
    } else {
        assert(text.take(end) =~= text);
    }
}

/// The longest beginning of a text that takes at most `limit` bytes.
pub fn prefix_within(text: &str, limit: usize) -> (prefix: String)
    ensures
        prefix@ == fitting_prefix(text@, limit as nat),
{
    let chars = chars_of(text);
    let mut prefix = String::new();
    let mut left: usize = limit;
    let mut i: usize = 0;
    proof {
        lemma_fitting(text@, 0, limit as nat);
        assert(text@.take(0) =~= Seq::<char>::empty());
    }
    while i < chars.len()
        invariant
            chars@ == text@,
            i <= chars@.len(),
            prefix@ == text@.take(i as int),
            fitting(text@, 0, limit as nat) == fitting(text@, i as int, left as nat),
        decreases chars@.len() - i,
    {
        let width = width_of(chars[i]);
        if width > left {
            return prefix;
        }
        left -= width;
        prefix.push(chars[i]);
        proof {
            assert(text@.take(i + 1) =~= text@.take(i as int).push(text@[i as int]));
        }
        i += 1;
    }
    prefix
}

/// The number of lines of a text. A line feed at its end begins no line.
pub open spec fn line_count(text: Seq<char>) -> nat {
    line_feeds(text) + if text.len() > 0 && text.last() != '\n' {
        1nat
    } else {
        0
    }
}

pub open spec fn line_feeds(text: Seq<char>) -> nat
    decreases text.len(),
{
    if text.len() == 0 {
        0
    } else {
        line_feeds(text.drop_last()) + if text.last() == '\n' {
            1nat
        } else {
            0
        }
    }
}

/// The number of lines that `str::lines` gives.
pub fn count_lines(text: &str) -> (count: usize)
    ensures
        count == line_count(text@),
{
    let chars = chars_of(text);
    let mut feeds: usize = 0;
    let mut i: usize = 0;
    proof {
        assert(text@.take(0) =~= Seq::<char>::empty());
    }
    while i < chars.len()
        invariant
            chars@ == text@,
            i <= chars@.len(),
            feeds <= i,
            feeds == line_feeds(text@.take(i as int)),
            i > 0 && text@[i - 1] != '\n' ==> feeds < i,
        decreases chars@.len() - i,
    {
        proof {
            assert(text@.take(i + 1).drop_last() =~= text@.take(i as int));
        }
        if chars[i] == '\n' {
            feeds += 1;
        }
        i += 1;
    }
    proof {
        assert(text@.take(i as int) =~= text@);
    }
    if chars.len() > 0 && chars[chars.len() - 1] != '\n' {
        feeds + 1
    } else {
        feeds
    }
}

/// Of the first hundred and twenty-eight characters, the tabulators, the line breaks, the form
/// feed and the space are white space, and no others.
pub proof fn plain_white_space(c: char)
    requires
        c as u32 <= 0x7f,
    ensures
        is_white_space(c) <==> (c == ' ' || c == '\n' || c == '\r' || c == '\t' || c as u32 == 0x0b
            || c as u32 == 0x0c),
{
}

/// Trimming cuts white space off at both ends, all of it, and nothing else.
pub proof fn trimming_cuts_white_space_off(text: Seq<char>)
    ensures
        exists|before: Seq<char>, after: Seq<char>|
            is_blank(before) && is_blank(after) && text == #[trigger] (before + trimmed(text)
                + after),
        trimmed(text).len() > 0 ==> !is_white_space(trimmed(text)[0]) && !is_white_space(
            trimmed(text).last(),
        ),
{
    let front = trim_front(text);
    let before = lemma_front_cut(text);
    let after = lemma_back_cut(front);
    assert(text =~= before + trimmed(text) + after);
    if trimmed(text).len() > 0 {
        assert(front[0] == trimmed(text)[0]);
    }
}

proof fn lemma_front_cut(text: Seq<char>) -> (before: Seq<char>)
    ensures
        is_blank(before),
        text == before + trim_front(text),
        trim_front(text).len() > 0 ==> !is_white_space(trim_front(text)[0]),
    decreases text.len(),
{
    if text.len() > 0 && is_white_space(text[0]) {
        let rest = lemma_front_cut(text.drop_first());
        assert(text =~= seq![text[0]] + text.drop_first());
        assert(text =~= (seq![text[0]] + rest) + trim_front(text));
        seq![text[0]] + rest
    } else {
        assert(text =~= Seq::<char>::empty() + trim_front(text));
        Seq::empty()
    }
}

proof fn lemma_back_cut(text: Seq<char>) -> (after: Seq<char>)
    ensures
        is_blank(after),
        text == trim_back(text) + after,
        trim_back(text).len() > 0 ==> !is_white_space(trim_back(text).last()),
    decreases text.len(),
{
    if text.len() > 0 && is_white_space(text.last()) {
        let rest = lemma_back_cut(text.drop_last());
        assert(text =~= text.drop_last().push(text.last()));
        assert(text =~= trim_back(text) + rest.push(text.last()));
        rest.push(text.last())
    } else {
        assert(text =~= trim_back(text) + Seq::<char>::empty());
        Seq::empty()
    }
}

/// Joining nothing gives nothing, joining one text gives that text, and what two lists are joined
/// into stands, with the separator between, in what the two lists together are joined into.
pub proof fn joining_keeps_every_text(
    first: Seq<Seq<char>>,
    text: Seq<char>,
    second: Seq<Seq<char>>,
    separator: Seq<char>,
)
    ensures
        join_texts(Seq::empty(), separator) == Seq::<char>::empty(),
        join_texts(seq![text], separator) == text,
        first.len() > 0 && second.len() > 0 ==> join_texts(first + second, separator)
            == join_texts(first, separator) + separator + join_texts(second, separator),
    decreases second.len(),
{
    if first.len() > 0 && second.len() > 0 {
        let all = first + second;
        assert(all.drop_last() =~= first + second.drop_last());
        if second.len() == 1 {
            assert(first + second.drop_last() =~= first);
        } else {
            joining_keeps_every_text(first, text, second.drop_last(), separator);
            assert(join_texts(all, separator) =~= join_texts(first, separator) + separator
                + join_texts(second, separator));
        }
    }
}

/// The lines of a text hold no line feed, and joined by line feeds they are the text again.
pub proof fn lines_join_back(text: Seq<char>)
    ensures
        lines_of(text).len() > 0,
        forall|i: int, j: int|
            0 <= i < lines_of(text).len() && 0 <= j < lines_of(text)[i].len()
                ==> #[trigger] lines_of(text)[i][j] != '\n',
        join_texts(lines_of(text), seq!['\n']) == text,
{
    lemma_lines_join(text, 0, Seq::empty());
    assert(text.skip(0) =~= text);
    assert(Seq::<char>::empty() + text =~= text);
}

proof fn lemma_lines_join(text: Seq<char>, start: int, current: Seq<char>)
    requires
        0 <= start <= text.len(),
        forall|j: int| 0 <= j < current.len() ==> #[trigger] current[j] != '\n',
    ensures
        lines_from(text, start, current).len() > 0,
        forall|i: int, j: int|
            0 <= i < lines_from(text, start, current).len() && 0 <= j < lines_from(
                text,
                start,
                current,
            )[i].len() ==> #[trigger] lines_from(text, start, current)[i][j] != '\n',
        join_texts(lines_from(text, start, current), seq!['\n']) == current + text.skip(start),
    decreases text.len() - start,
{
    let lines = lines_from(text, start, current);
    if start >= text.len() {
        assert(current + text.skip(start) =~= current);
    } else if text[start] == '\n' {
        let rest = lines_from(text, start + 1, Seq::empty());
        lemma_lines_join(text, start + 1, Seq::empty());
        joining_keeps_every_text(seq![current], current, rest, seq!['\n']);
        assert(current + seq!['\n'] + (Seq::<char>::empty() + text.skip(start + 1)) =~= current
            + text.skip(start));
        assert forall|i: int, j: int| 0 <= i < lines.len() && 0 <= j < lines[i].len() implies
            #[trigger] lines[i][j] != '\n' by {
            if i == 0 {
                assert(lines[0] == current);
            } else {
                assert(lines[i] == rest[i - 1]);
            }
        }
    } else {
        lemma_lines_join(text, start + 1, current.push(text[start]));
        assert(current.push(text[start]) + text.skip(start + 1) =~= current + text.skip(start));
    }
}

/// A number is read from its decimal notation, with or without a plus sign before it.
pub proof fn numbers_are_read_back(n: u64)
    ensures
        parsed_number(decimal_digits(n as nat)) == Some(n),
        parsed_number(seq!['+'] + decimal_digits(n as nat)) == Some(n),
{
    decimal_notation_reads_back(n as nat);
    let digits = decimal_digits(n as nat);
    assert(is_digit(digits[0]));
    assert((seq!['+'] + digits).drop_first() =~= digits);
}

/// A text has as many lines as it has line feeds, and one more where something follows the last
/// of them.
pub proof fn lines_are_counted(first: Seq<char>, second: Seq<char>, c: char)
    ensures
        line_count(Seq::empty()) == 0,
        c != '\n' ==> line_count(seq![c]) == 1,
        line_count(first.push('\n') + second) == line_count(first.push('\n')) + line_count(second),
        line_count(first.push('\n')) == if first.len() == 0 || first.last() == '\n' {
            line_count(first) + 1
        } else {
            line_count(first)
        },
        c != '\n' && first.len() > 0 && first.last() != '\n' ==> line_count(first.push(c))
            == line_count(first),
{
    lemma_line_feeds(first.push('\n'), second);
    assert(first.push('\n').drop_last() =~= first);
    assert(first.push(c).drop_last() =~= first);
    assert(seq![c].drop_last() =~= Seq::<char>::empty());
    reveal_with_fuel(line_feeds, 3);
    if second.len() > 0 {
        assert((first.push('\n') + second).last() == second.last());
    } else {
        assert(first.push('\n') + second =~= first.push('\n'));
    }
}

proof fn lemma_line_feeds(first: Seq<char>, second: Seq<char>)
    ensures
        line_feeds(first + second) == line_feeds(first) + line_feeds(second),
    decreases second.len(),
{
    if second.len() == 0 {
        assert(first + second =~= first);
    } else {
        assert((first + second).drop_last() =~= first + second.drop_last());
        lemma_line_feeds(first, second.drop_last());
    }
}

/// Whether a text gives a value under a name.
pub open spec fn gives(text: Seq<char>, name: Seq<char>, value: Seq<char>) -> bool {
    exists|before: Seq<char>, after: Seq<char>|
        text == #[trigger] (before + name + value + after)
}

/// What a text gives, it gives with more behind it.
pub broadcast proof fn longer_texts_give_the_same(
    text: Seq<char>,
    more: Seq<char>,
    name: Seq<char>,
    value: Seq<char>,
)
    requires
        gives(text, name, value),
    ensures
        #[trigger] gives(text + more, name, value),
{
    let (before, after) = choose|before: Seq<char>, after: Seq<char>|
        text == #[trigger] (before + name + value + after);
    assert(text + more =~= before + name + value + (after + more));
}

/// A text that ends with a name and a value gives the value under the name.
pub proof fn ends_give_their_value(before: Seq<char>, name: Seq<char>, value: Seq<char>)
    ensures
        gives(before + name + value, name, value),
{
    assert(before + name + value =~= before + name + value + Seq::<char>::empty());
}

} // verus!
