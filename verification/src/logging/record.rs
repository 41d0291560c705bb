//! The records of the diagnostic log: how they are written and read.

use vstd::prelude::*;
use vstd::string::*;

use crate::text::{
    all_digits, byte_len, bytes_in, char_width, chars_of, digit_value, fitting, fitting_prefix,
    is_digit, joined, lemma_bytes_concat, lemma_bytes_push, prefix_within, same_text, string_of,
    the_fitting_prefix_is_the_longest,
};

verus! {

/// No record takes more bytes.
pub const LOG_RECORD_MAX_BYTES: usize = 8192;

/// How severe an event is.
#[derive(Clone, Copy, Debug, PartialEq, Eq, PartialOrd, Ord, Structural)]
pub enum LogLevel {
    Error,
    Warn,
    Info,
}

/// How much there is at a level: more severe levels rank lower.
pub open spec fn rank(level: LogLevel) -> nat {
    match level {
        LogLevel::Error => 0,
        LogLevel::Warn => 1,
        LogLevel::Info => 2,
    }
}

/// The name of a level in a record.
pub open spec fn level_name(level: LogLevel) -> Seq<char> {
    match level {
        LogLevel::Error => "ERROR"@,
        LogLevel::Warn => "WARN"@,
        LogLevel::Info => "INFO"@,
    }
}

impl LogLevel {
    pub fn as_str(self) -> (name: &'static str)
        ensures
            name@ == level_name(self),
    {
        match self {
            LogLevel::Error => "ERROR",
            LogLevel::Warn => "WARN",
            LogLevel::Info => "INFO",
        }
    }
}

/// The most that is recorded. Detailed diagnostics add what is sparse, never contents.
pub fn configured_level(detailed: bool) -> (level: LogLevel)
    ensures
        level == if detailed {
            LogLevel::Info
        } else {
            LogLevel::Warn
        },
{
    if detailed {
        LogLevel::Info
    } else {
        LogLevel::Warn
    }
}

/// Whether an event is recorded.
pub fn is_recorded(level: LogLevel, most: LogLevel) -> (yes: bool)
    ensures
        yes == (rank(level) <= rank(most)),
{
    match (level, most) {
        (LogLevel::Error, _) => true,
        (LogLevel::Warn, LogLevel::Error) => false,
        (LogLevel::Warn, _) => true,
        (LogLevel::Info, LogLevel::Info) => true,
        (LogLevel::Info, _) => false,
    }
}

/// The text of an event.
pub open spec fn line_of(level: LogLevel, component: Seq<char>, message: Seq<char>) -> Seq<char> {
    level_name(level) + " "@ + component + ": "@ + message
}

/// The text of an event, before it is bounded and dated.
pub fn record_line(level: LogLevel, component: &str, message: &str) -> (line: String)
    ensures
        line@ == line_of(level, component@, message@),
{
    let mut line = joined(level.as_str(), " ");
    line.append(component);
    line.append(": ");
    line.append(message);
    line
}

/// A character as it stands in a record: line breaks and backslashes are escaped.
pub open spec fn escaped(c: char) -> Seq<char> {
    if c == '\\' {
        seq!['\\', '\\']
    } else if c == '\r' {
        seq!['\\', 'r']
    } else if c == '\n' {
        seq!['\\', 'n']
    } else {
        seq![c]
    }
}

/// A text in one line.
pub open spec fn flattened(text: Seq<char>) -> Seq<char>
    decreases text.len(),
{
    if text.len() == 0 {
        Seq::empty()
    } else {
        flattened(text.drop_last()) + escaped(text.last())
    }
}

/// A text without its escapes, from position `start` on.
pub open spec fn unescaped(text: Seq<char>, start: int) -> Seq<char>
    decreases text.len() - start,
{
    if start < 0 || start >= text.len() {
        Seq::empty()
    } else if text[start] == '\\' && start + 1 < text.len() {
        let c = if text[start + 1] == 'r' {
            '\r'
        } else if text[start + 1] == 'n' {
            '\n'
        } else {
            text[start + 1]
        };
        seq![c] + unescaped(text, start + 2)
    } else {
        seq![text[start]] + unescaped(text, start + 1)
    }
}

proof fn lemma_unescaped_skip(text: Seq<char>, start: int, skip: int)
    requires
        0 <= skip <= start,
        skip <= text.len(),
    ensures
        unescaped(text, start) == unescaped(text.skip(skip), start - skip),
    decreases text.len() - start,
{
    if start < text.len() {
        let rest = text.skip(skip);
        assert(rest[start - skip] == text[start]);
        if text[start] == '\\' && start + 1 < text.len() {
            assert(rest[start - skip + 1] == text[start + 1]);
            lemma_unescaped_skip(text, start + 2, skip);
        } else {
            lemma_unescaped_skip(text, start + 1, skip);
        }
    }
}

proof fn lemma_flattened_front(c: char, text: Seq<char>)
    ensures
        flattened(seq![c] + text) == escaped(c) + flattened(text),
    decreases text.len(),
{
    let all = seq![c] + text;
    if text.len() == 0 {
        assert(all.drop_last() =~= Seq::<char>::empty());
        assert(all.last() == c);
        assert(flattened(all.drop_last()) =~= Seq::<char>::empty());
        assert(flattened(all) =~= escaped(c));
        assert(flattened(text) =~= Seq::<char>::empty());
        assert(escaped(c) + flattened(text) =~= escaped(c));
    } else {
        lemma_flattened_front(c, text.drop_last());
        assert(all.drop_last() =~= seq![c] + text.drop_last());
        assert(all.last() == text.last());
        assert(flattened(all) =~= escaped(c) + flattened(text));
    }
}

/// Flattening loses nothing: the text can be read back out of it.
pub proof fn flattening_can_be_undone(text: Seq<char>)
    ensures
        unescaped(flattened(text), 0) == text,
    decreases text.len(),
{
    if text.len() > 0 {
        let c = text[0];
        let rest = text.drop_first();
        flattening_can_be_undone(rest);
        lemma_flattened_front(c, rest);
        assert(seq![c] + rest =~= text);
        let all = flattened(text);
        let n = escaped(c).len() as int;
        lemma_unescaped_skip(all, n, n);
        assert(all.skip(n) =~= flattened(rest));
        assert(all[0] == escaped(c)[0]);
        if n == 2 {
            assert(all[1] == escaped(c)[1]);
        }
        assert(unescaped(all, 0) =~= seq![c] + unescaped(all, n));
        assert(unescaped(all, 0) =~= text);
    } else {
        assert(flattened(text) =~= Seq::<char>::empty());
        assert(unescaped(flattened(text), 0) =~= text);
    }
}

/// Writes a text in one line.
pub fn sanitize(line: &str) -> (text: String)
    ensures
        text@ == flattened(line@),
{
    let chars = chars_of(line);
    let mut text = String::new();
    let mut i: usize = 0;
    proof {
        assert(line@.take(0) =~= Seq::<char>::empty());
        assert(flattened(line@.take(0)) =~= Seq::<char>::empty());
    }
    while i < chars.len()
        invariant
            chars@ == line@,
            i <= chars@.len(),
            text@ == flattened(line@.take(i as int)),
        decreases chars@.len() - i,
    {
        let ghost before = text@;
        let c = chars[i];
        if c == '\\' {
            text.push('\\');
            text.push('\\');
        } else if c == '\r' {
            text.push('\\');
            text.push('r');
        } else if c == '\n' {
            text.push('\\');
            text.push('n');
        } else {
            text.push(c);
        }
        proof {
            assert(line@.take(i + 1).drop_last() =~= line@.take(i as int));
            assert(text@ =~= before + escaped(c));
        }
        i += 1;
    }
    proof {
        assert(line@.take(i as int) =~= line@);
    }
    text
}

/// What ends a text that was cut.
pub open spec fn truncation_mark() -> Seq<char> {
    "\u{2026} [truncated]"@
}

/// A text within a number of bytes. A longer one is cut, and marked.
pub open spec fn bounded(text: Seq<char>, max_bytes: nat) -> Seq<char> {
    if bytes_in(text) <= max_bytes {
        text
    } else {
        fitting_prefix(
            text,
            if max_bytes > bytes_in(truncation_mark()) {
                (max_bytes - bytes_in(truncation_mark())) as nat
            } else {
                0
            },
        ) + truncation_mark()
    }
}

/// Cuts a text to a number of bytes.
pub fn bounded_text(text: &str, max_bytes: usize) -> (cut: String)
    ensures
        cut@ == bounded(text@, max_bytes as nat),
{
    if byte_len(text) <= max_bytes {
        return text.to_owned();
    }
    let mark = "\u{2026} [truncated]";
    let mut cut = prefix_within(text, max_bytes.saturating_sub(byte_len(mark)));
    cut.append(mark);
    cut
}

/// A record: the time, the text in one line, and a line feed.
pub open spec fn encoded(timestamp: Seq<char>, line: Seq<char>) -> Seq<char> {
    let prefix = timestamp.push(' ');
    let used = bytes_in(prefix) + 1;
    let budget = if LOG_RECORD_MAX_BYTES > used {
        (LOG_RECORD_MAX_BYTES - used) as nat
    } else {
        0
    };
    prefix + bounded(flattened(line), budget) + seq!['\n']
}

/// Writes a record of a given time.
pub fn encode_record_at(timestamp: &str, line: &str) -> (record: String)
    ensures
        record@ == encoded(timestamp@, line@),
{
    let mut record = timestamp.to_owned();
    record.push(' ');
    let used = byte_len(record.as_str());
    let budget: usize = if used < LOG_RECORD_MAX_BYTES {
        LOG_RECORD_MAX_BYTES - used - 1
    } else {
        0
    };
    let text = sanitize(line);
    let body = bounded_text(text.as_str(), budget);
    let ghost prefix = record@;
    record.append(body.as_str());
    record.push('\n');
    proof {
        assert(record@ =~= prefix + body@ + seq!['\n']);
    }
    record
}

pub open spec fn is_stamp_char(c: char) -> bool {
    is_digit(c) || c == '+' || c == '-' || c == ':' || c == '.' || c == 'T' || c == 'Z'
}

/// What a time has to be like for its record to be bounded and to be read back.
pub open spec fn is_stamp(text: Seq<char>) -> bool {
    &&& text.len() <= 32
    &&& text.contains('T')
    &&& forall|i: int| 0 <= i < text.len() ==> is_stamp_char(#[trigger] text[i])
}

/// Whether two digits stand at `at`, for a number between `low` and `high`.
pub open spec fn two_digits(text: Seq<char>, at: int, low: nat, high: nat) -> bool {
    &&& is_digit(text[at])
    &&& is_digit(text[at + 1])
    &&& low <= digit_value(text[at]) * 10 + digit_value(text[at + 1]) <= high
}

/// A year: four digits, or a sign and at least as many.
pub open spec fn is_year(text: Seq<char>) -> bool {
    if text.len() == 4 {
        all_digits(text)
    } else {
        &&& 5 <= text.len() <= 11
        &&& text[0] == '+' || text[0] == '-'
        &&& all_digits(text.drop_first())
    }
}

/// What follows the year of a time in UTC: `-MM-DDTHH:MM:SS.mmmZ`.
pub open spec fn is_rest_of_time(text: Seq<char>) -> bool {
    &&& text.len() == 20
    &&& text[0] == '-' && two_digits(text, 1, 1, 12)
    &&& text[3] == '-' && two_digits(text, 4, 1, 31)
    &&& text[6] == 'T' && two_digits(text, 7, 0, 23)
    &&& text[9] == ':' && two_digits(text, 10, 0, 59)
    &&& text[12] == ':' && two_digits(text, 13, 0, 59)
    &&& text[15] == '.' && is_digit(text[16]) && is_digit(text[17]) && is_digit(text[18])
    &&& text[19] == 'Z'
}

/// A time in UTC with milliseconds, in the notation of RFC 3339.
pub open spec fn is_timestamp(text: Seq<char>) -> bool {
    &&& text.len() >= 20
    &&& is_year(text.take(text.len() - 20))
    &&& is_rest_of_time(text.skip(text.len() - 20))
}

/// Every timestamp can stand before a record.
pub proof fn timestamps_are_stamps(text: Seq<char>)
    requires
        is_timestamp(text),
    ensures
        is_stamp(text),
{
    let n = text.len() - 20;
    let year = text.take(n);
    let rest = text.skip(n);
    assert(text[n + 6] == rest[6]);
    assert forall|i: int| 0 <= i < text.len() implies is_stamp_char(#[trigger] text[i]) by {
        if i < n {
            assert(text[i] == year[i]);
            if year.len() != 4 && i > 0 {
                assert(year.drop_first()[i - 1] == year[i]);
            }
        } else {
            assert(text[i] == rest[i - n]);
        }
    }
}

/// `chrono::Utc::now` in the notation of `chrono::DateTime::to_rfc3339_opts`, with milliseconds and
/// a `Z`: a year of four digits, or of more with a sign, then `-MM-DDTHH:MM:SS.mmmZ`. Which time it
/// is depends on the clock. A clock that stands before 1970, or beyond the years that `chrono` can
/// hold, makes it panic.
#[verifier::external_body]
fn timestamp_now() -> (timestamp: String)
    ensures
        is_timestamp(timestamp@),
{
    chrono::Utc::now().to_rfc3339_opts(chrono::SecondsFormat::Millis, true)
}

/// Writes a record of this moment.
pub fn encode_record(line: &str) -> (record: String)
    ensures
        exists|timestamp: Seq<char>|
            is_timestamp(timestamp) && record@ == #[trigger] encoded(timestamp, line@),
{
    let timestamp = timestamp_now();
    encode_record_at(timestamp.as_str(), line)
}

/// A line of a log, taken apart.
#[derive(Debug, PartialEq, Eq)]
pub struct ParsedLogLine {
    pub timestamp: Option<String>,
    pub level: Option<LogLevel>,
    pub rest: String,
}

/// What a [`ParsedLogLine`] stands for.
pub struct ParsedLogLineModel {
    pub timestamp: Option<Seq<char>>,
    pub level: Option<LogLevel>,
    pub rest: Seq<char>,
}

impl DeepView for ParsedLogLine {
    type V = ParsedLogLineModel;

    open spec fn deep_view(&self) -> ParsedLogLineModel {
        ParsedLogLineModel {
            timestamp: self.timestamp.deep_view(),
            level: self.level,
            rest: self.rest@,
        }
    }
}

impl Clone for ParsedLogLine {
    fn clone(&self) -> (copy: Self)
        ensures
            copy.deep_view() == self.deep_view(),
    {
        ParsedLogLine {
            timestamp: self.timestamp.clone(),
            level: self.level,
            rest: self.rest.clone(),
        }
    }
}

/// The text without the line breaks at its end.
pub open spec fn without_breaks(text: Seq<char>) -> Seq<char>
    decreases text.len(),
{
    if text.len() > 0 && (text.last() == '\n' || text.last() == '\r') {
        without_breaks(text.drop_last())
    } else {
        text
    }
}

/// The first space, from position `start` on, or the end.
pub open spec fn space_in(text: Seq<char>, start: int) -> int
    decreases text.len() - start,
{
    if start >= text.len() || text[start] == ' ' {
        start
    } else {
        space_in(text, start + 1)
    }
}

/// The text before and after the first space.
pub open spec fn split_at_space(text: Seq<char>) -> Option<(Seq<char>, Seq<char>)> {
    let at = space_in(text, 0);
    if 0 <= at < text.len() {
        Some((text.take(at), text.skip(at + 1)))
    } else {
        None
    }
}

/// The level with the name.
pub open spec fn level_named(name: Seq<char>) -> Option<LogLevel> {
    if name == "ERROR"@ {
        Some(LogLevel::Error)
    } else if name == "WARN"@ {
        Some(LogLevel::Warn)
    } else if name == "INFO"@ {
        Some(LogLevel::Info)
    } else {
        None
    }
}

/// A line of a log, taken apart. What is not in the form of a record stays whole.
pub open spec fn parsed_line(line: Seq<char>) -> ParsedLogLineModel {
    let text = without_breaks(line);
    match split_at_space(text) {
        None => ParsedLogLineModel { timestamp: None, level: None, rest: text },
        Some((timestamp, after)) => if !timestamp.contains('T') {
            ParsedLogLineModel { timestamp: None, level: None, rest: text }
        } else {
            match split_at_space(after) {
                None => ParsedLogLineModel {
                    timestamp: Some(timestamp),
                    level: None,
                    rest: after,
                },
                Some((name, rest)) => match level_named(name) {
                    None => ParsedLogLineModel {
                        timestamp: Some(timestamp),
                        level: None,
                        rest: after,
                    },
                    Some(level) => ParsedLogLineModel {
                        timestamp: Some(timestamp),
                        level: Some(level),
                        rest,
                    },
                },
            }
        },
    }
}

fn split_once_at_space(chars: &Vec<char>) -> (parts: Option<(Vec<char>, Vec<char>)>)
    ensures
        match (split_at_space(chars@), parts) {
            (None, None) => true,
            (Some((before, after)), Some((left, right))) => left@ == before && right@ == after,
            _ => false,
        },
{
    let mut at: usize = 0;
    let mut before: Vec<char> = Vec::new();
    proof {
        assert(before@ =~= chars@.take(0));
    }
    while at < chars.len() && chars[at] != ' '
        invariant
            at <= chars@.len(),
            before@ == chars@.take(at as int),
            space_in(chars@, 0) == space_in(chars@, at as int),
        decreases chars@.len() - at,
    {
        before.push(chars[at]);
        proof {
            assert(chars@.take(at + 1) =~= chars@.take(at as int).push(chars@[at as int]));
        }
        at += 1;
    }
    if at >= chars.len() {
        return None;
    }
    let mut after: Vec<char> = Vec::new();
    let mut i: usize = at + 1;
    let ghost rest = chars@.skip(at + 1);
    proof {
        assert(after@ =~= rest.take(0));
    }
    while i < chars.len()
        invariant
            at + 1 <= i <= chars@.len(),
            rest == chars@.skip(at + 1),
            after@ == rest.take(i - at - 1),
        decreases chars@.len() - i,
    {
        after.push(chars[i]);
        proof {
            assert(rest.take(i + 1 - at - 1) =~= rest.take(i - at - 1).push(chars@[i as int]));
        }
        i += 1;
    }
    proof {
        assert(rest.take(i - at - 1) =~= rest);
    }
    Some((before, after))
}

fn has_t(chars: &Vec<char>) -> (yes: bool)
    ensures
        yes == chars@.contains('T'),
{
    let mut i: usize = 0;
    while i < chars.len()
        invariant
            i <= chars@.len(),
            forall|k: int| 0 <= k < i ==> #[trigger] chars@[k] != 'T',
        decreases chars@.len() - i,
    {
        if chars[i] == 'T' {
            proof {
                assert(chars@.contains(chars@[i as int]));
            }
            return true;
        }
        i += 1;
    }
    false
}

/// Takes a line of a log apart.
pub fn parse_log_line(line: &str) -> (parsed: ParsedLogLine)
    ensures
        parsed.deep_view() == parsed_line(line@),
{
    let mut chars = chars_of(line);
    while chars.len() > 0 && (chars[chars.len() - 1] == '\n' || chars[chars.len() - 1] == '\r')
        invariant
            without_breaks(line@) == without_breaks(chars@),
        decreases chars@.len(),
    {
        let ghost before = chars@;
        let _ = chars.pop();
        proof {
            assert(chars@ =~= before.drop_last());
        }
    }
    let (timestamp, after) = match split_once_at_space(&chars) {
        Some(parts) => parts,
        None => {
            return ParsedLogLine { timestamp: None, level: None, rest: string_of(&chars) };
        },
    };
    if !has_t(&timestamp) {
        return ParsedLogLine { timestamp: None, level: None, rest: string_of(&chars) };
    }
    let (name, rest) = match split_once_at_space(&after) {
        Some(parts) => parts,
        None => {
            return ParsedLogLine {
                timestamp: Some(string_of(&timestamp)),
                level: None,
                rest: string_of(&after),
            };
        },
    };
    let name = string_of(&name);
    let level = if same_text(name.as_str(), "ERROR") {
        Some(LogLevel::Error)
    } else if same_text(name.as_str(), "WARN") {
        Some(LogLevel::Warn)
    } else if same_text(name.as_str(), "INFO") {
        Some(LogLevel::Info)
    } else {
        None
    };
    let rest = if level.is_some() {
        string_of(&rest)
    } else {
        string_of(&after)
    };
    ParsedLogLine { timestamp: Some(string_of(&timestamp)), level, rest }
}

proof fn lemma_mark_bytes()
    ensures
        bytes_in(truncation_mark()) == 15,
        forall|i: int|
            0 <= i < truncation_mark().len() ==> #[trigger] truncation_mark()[i] != '\n'
                && truncation_mark()[i] != '\r',
{
    reveal_strlit("\u{2026} [truncated]");
    assert(truncation_mark() =~= seq![
        '\u{2026}',
        ' ',
        '[',
        't',
        'r',
        'u',
        'n',
        'c',
        'a',
        't',
        'e',
        'd',
        ']',
    ]);
    let mark = truncation_mark();
    lemma_prefix_bytes(mark, 13);
}

proof fn lemma_prefix_bytes(text: Seq<char>, n: int)
    requires
        0 <= n <= text.len(),
        n > 0 ==> char_width(text[0]) == 3,
        forall|i: int| 1 <= i < n ==> char_width(#[trigger] text[i]) == 1,
    ensures
        n > 0 ==> bytes_in(text.take(n)) == n + 2,
        n == text.len() && n > 0 ==> bytes_in(text) == n + 2,
    decreases n,
{
    if n > 0 {
        lemma_prefix_bytes(text, n - 1);
        assert(text.take(n).drop_last() =~= text.take(n - 1));
        assert(text.take(n).last() == text[n - 1]);
        assert(text.take(0) =~= Seq::<char>::empty());
        assert(bytes_in(text.take(0)) == 0);
        if n == text.len() {
            assert(text.take(n) =~= text);
        }
    }
}

proof fn lemma_stamp_bytes(text: Seq<char>)
    requires
        forall|i: int| 0 <= i < text.len() ==> is_stamp_char(#[trigger] text[i]),
    ensures
        bytes_in(text) == text.len(),
    decreases text.len(),
{
    if text.len() > 0 {
        let rest = text.drop_last();
        assert forall|i: int| 0 <= i < rest.len() implies is_stamp_char(#[trigger] rest[i]) by {
            assert(rest[i] == text[i]);
        }
        lemma_stamp_bytes(rest);
        assert(is_stamp_char(text[text.len() - 1]));
    }
}

/// A record takes no more bytes than it may, whatever is recorded.
pub proof fn records_are_bounded(timestamp: Seq<char>, line: Seq<char>)
    requires
        is_stamp(timestamp),
    ensures
        bytes_in(encoded(timestamp, line)) <= LOG_RECORD_MAX_BYTES,
{
    lemma_stamp_bytes(timestamp);
    lemma_bytes_push(timestamp, ' ');
    lemma_mark_bytes();
    let prefix = timestamp.push(' ');
    let budget = (LOG_RECORD_MAX_BYTES - bytes_in(prefix) - 1) as nat;
    let text = flattened(line);
    let body = bounded(text, budget);
    let room = (budget - bytes_in(truncation_mark())) as nat;
    the_fitting_prefix_is_the_longest(text, room);
    lemma_bytes_concat(fitting_prefix(text, room), truncation_mark());
    lemma_bytes_concat(prefix, body);
    lemma_bytes_push(prefix + body, '\n');
    assert(encoded(timestamp, line) =~= (prefix + body).push('\n'));
}

pub open spec fn one_line(text: Seq<char>) -> bool {
    forall|i: int| 0 <= i < text.len() ==> #[trigger] text[i] != '\n' && text[i] != '\r'
}

proof fn lemma_flattened_is_one_line(text: Seq<char>)
    ensures
        one_line(flattened(text)),
    decreases text.len(),
{
    if text.len() > 0 {
        lemma_flattened_is_one_line(text.drop_last());
        let all = flattened(text);
        let before = flattened(text.drop_last());
        assert forall|i: int| 0 <= i < all.len() implies #[trigger] all[i] != '\n' && all[i]
            != '\r' by {
            if i < before.len() {
                assert(all[i] == before[i]);
            } else {
                assert(all[i] == escaped(text.last())[i - before.len()]);
            }
        }
    }
}

proof fn lemma_bounded_is_one_line(text: Seq<char>, budget: nat)
    requires
        one_line(text),
    ensures
        one_line(bounded(text, budget)),
{
    lemma_mark_bytes();
    let mark = truncation_mark();
    let room = if budget > bytes_in(mark) {
        (budget - bytes_in(mark)) as nat
    } else {
        0
    };
    the_fitting_prefix_is_the_longest(text, room);
    let cut = fitting_prefix(text, room);
    let all = cut + mark;
    assert forall|i: int| 0 <= i < all.len() implies #[trigger] all[i] != '\n' && all[i]
        != '\r' by {
        if i < cut.len() {
            assert(all[i] == text[i]);
        } else {
            assert(all[i] == mark[i - cut.len()]);
        }
    }
}

/// A record is one line: its only line break is its end.
pub proof fn records_are_single_lines(timestamp: Seq<char>, line: Seq<char>)
    requires
        is_stamp(timestamp),
    ensures
        encoded(timestamp, line).len() > 0,
        encoded(timestamp, line).last() == '\n',
        one_line(encoded(timestamp, line).drop_last()),
{
    let prefix = timestamp.push(' ');
    let used = bytes_in(prefix) + 1;
    let budget = if LOG_RECORD_MAX_BYTES > used {
        (LOG_RECORD_MAX_BYTES - used) as nat
    } else {
        0
    };
    let body = bounded(flattened(line), budget);
    lemma_flattened_is_one_line(line);
    lemma_bounded_is_one_line(flattened(line), budget);
    let all = prefix + body;
    assert(encoded(timestamp, line).drop_last() =~= all);
    assert forall|i: int| 0 <= i < all.len() implies #[trigger] all[i] != '\n' && all[i]
        != '\r' by {
        if i < timestamp.len() {
            assert(is_stamp_char(timestamp[i]));
            assert(all[i] == timestamp[i]);
        } else if i > timestamp.len() {
            assert(all[i] == body[i - prefix.len()]);
        }
    }
}

proof fn lemma_space_in(text: Seq<char>, at: int, start: int)
    requires
        0 <= start <= at < text.len(),
        text[at] == ' ',
        forall|i: int| start <= i < at ==> #[trigger] text[i] != ' ',
    ensures
        space_in(text, start) == at,
    decreases at - start,
{
    if start < at {
        lemma_space_in(text, at, start + 1);
    }
}

proof fn lemma_flattened_concat(a: Seq<char>, b: Seq<char>)
    ensures
        flattened(a + b) == flattened(a) + flattened(b),
    decreases b.len(),
{
    if b.len() == 0 {
        assert(a + b =~= a);
        assert(flattened(b) =~= Seq::<char>::empty());
        assert(flattened(a) + flattened(b) =~= flattened(a));
    } else {
        lemma_flattened_concat(a, b.drop_last());
        assert((a + b).drop_last() =~= a + b.drop_last());
        assert(flattened(a + b) =~= flattened(a) + flattened(b));
    }
}

proof fn lemma_plain_is_flat(text: Seq<char>)
    requires
        forall|i: int| 0 <= i < text.len() ==> #[trigger] text[i] != '\\' && text[i] != '\n'
            && text[i] != '\r',
    ensures
        flattened(text) == text,
    decreases text.len(),
{
    if text.len() > 0 {
        let rest = text.drop_last();
        assert forall|i: int| 0 <= i < rest.len() implies #[trigger] rest[i] != '\\' && rest[i]
            != '\n' && rest[i] != '\r' by {
            assert(rest[i] == text[i]);
        }
        lemma_plain_is_flat(rest);
        assert(text[text.len() - 1] == text.last());
        assert(flattened(text) =~= text);
    } else {
        assert(flattened(text) =~= text);
    }
}

/// The name of a level: short, and without a space.
proof fn lemma_level_name(level: LogLevel)
    ensures
        0 < level_name(level).len() <= 5,
        level_named(level_name(level)) == Some(level),
        forall|i: int|
            0 <= i < level_name(level).len() ==> 'A' <= #[trigger] level_name(level)[i] <= 'Z',
{
    reveal_strlit("ERROR");
    reveal_strlit("WARN");
    reveal_strlit("INFO");
    assert("ERROR"@[0] == 'E');
    assert("WARN"@[0] == 'W');
    assert("INFO"@[0] == 'I');
}

proof fn lemma_ascii_bytes(text: Seq<char>, n: int)
    requires
        0 <= n <= text.len(),
        forall|i: int| 0 <= i < n ==> char_width(#[trigger] text[i]) == 1,
    ensures
        bytes_in(text.take(n)) == n,
    decreases n,
{
    if n > 0 {
        lemma_ascii_bytes(text, n - 1);
        assert(text.take(n).drop_last() =~= text.take(n - 1));
    } else {
        assert(text.take(n) =~= Seq::<char>::empty());
    }
}

proof fn lemma_fitting_keeps(text: Seq<char>, n: int, limit: nat)
    requires
        0 <= n <= text.len(),
        bytes_in(text.take(n)) <= limit,
    ensures
        fitting(text, 0, limit) >= n,
{
    the_fitting_prefix_is_the_longest(text, limit);
    let end = fitting(text, 0, limit);
    if end < n {
        let longer = text.take(end + 1);
        let rest = text.take(n).skip(end + 1);
        assert(longer + rest =~= text.take(n));
        lemma_bytes_concat(longer, rest);
    }
}

/// What the log tells of an event: its text in one line, cut where it is too long, without the
/// level that stands before it.
pub open spec fn told(timestamp: Seq<char>, level: LogLevel, line: Seq<char>) -> Seq<char> {
    let used = bytes_in(timestamp.push(' ')) + 1;
    bounded(flattened(line), (LOG_RECORD_MAX_BYTES - used) as nat).skip(
        level_name(level).len() as int + 1,
    )
}

/// A record that was written is read back: its time, its level, and what it tells.
pub proof fn records_read_back(
    timestamp: Seq<char>,
    level: LogLevel,
    component: Seq<char>,
    message: Seq<char>,
)
    requires
        is_stamp(timestamp),
    ensures
        parsed_line(encoded(timestamp, line_of(level, component, message))) == (
        ParsedLogLineModel {
            timestamp: Some(timestamp),
            level: Some(level),
            rest: told(timestamp, level, line_of(level, component, message)),
        }),
{
    let name = level_name(level);
    let line = line_of(level, component, message);
    let prefix = timestamp.push(' ');
    lemma_stamp_bytes(timestamp);
    lemma_bytes_push(timestamp, ' ');
    let budget = (LOG_RECORD_MAX_BYTES - bytes_in(prefix) - 1) as nat;
    let flat = flattened(line);
    let body = bounded(flat, budget);
    lemma_level_name(level);
    lemma_mark_bytes();
    // The line begins with the level and a space.
    let head = name.push(' ');
    let tail = component + ": "@ + message;
    reveal_strlit(" ");
    assert(" "@ =~= seq![' ']);
    assert(line =~= head + tail);
    lemma_flattened_concat(head, tail);
    assert forall|i: int| 0 <= i < head.len() implies #[trigger] head[i] != '\\' && head[i] != '\n'
        && head[i] != '\r' && char_width(head[i]) == 1 by {
        if i < name.len() {
            assert('A' <= name[i] <= 'Z');
            assert(head[i] == name[i]);
        }
    }
    lemma_plain_is_flat(head);
    assert(flat =~= head + flattened(tail));
    // It stays at the beginning when the text is cut.
    assert forall|i: int| 0 <= i < head.len() implies char_width(#[trigger] flat[i]) == 1 by {
        assert(flat[i] == head[i]);
    }
    lemma_ascii_bytes(flat, head.len() as int);
    let room = (budget - bytes_in(truncation_mark())) as nat;
    lemma_fitting_keeps(flat, head.len() as int, room);
    the_fitting_prefix_is_the_longest(flat, room);
    assert forall|i: int| 0 <= i < head.len() implies #[trigger] body[i] == head[i] by {
        assert(flat[i] == head[i]);
    }
    // The line break goes.
    records_are_single_lines(timestamp, line);
    let record = encoded(timestamp, line);
    let text = prefix + body;
    assert(record.drop_last() =~= text);
    assert(body.len() >= head.len());
    assert(text[text.len() - 1] != '\n' && text[text.len() - 1] != '\r');
    assert(without_breaks(record) == text) by {
        reveal_with_fuel(without_breaks, 3);
    }
    // The time comes before the first space.
    assert forall|i: int| 0 <= i < timestamp.len() implies #[trigger] text[i] != ' ' by {
        assert(is_stamp_char(timestamp[i]));
        assert(text[i] == timestamp[i]);
    }
    lemma_space_in(text, timestamp.len() as int, 0);
    assert(text.take(timestamp.len() as int) =~= timestamp);
    assert(text.skip(timestamp.len() as int + 1) =~= body);
    // The level comes before the next.
    assert forall|i: int| 0 <= i < name.len() implies #[trigger] body[i] != ' ' by {
        assert(body[i] == head[i]);
        assert('A' <= name[i] <= 'Z');
    }
    assert(body[name.len() as int] == head[name.len() as int]);
    lemma_space_in(body, name.len() as int, 0);
    assert(body.take(name.len() as int) =~= name);
}

/// A record that fits says its line in full: what stands behind the time and the level, with its
/// escapes undone, is the component and the message.
pub proof fn short_records_say_their_line(
    timestamp: Seq<char>,
    level: LogLevel,
    component: Seq<char>,
    message: Seq<char>,
)
    requires
        is_stamp(timestamp),
        bytes_in(flattened(line_of(level, component, message))) + bytes_in(timestamp) + 2 <= 8192,
    ensures
        ({
            let record = encoded(timestamp, line_of(level, component, message));
            let parsed = parsed_line(record);
            &&& parsed.timestamp == Some(timestamp)
            &&& parsed.level == Some(level)
            &&& unescaped(parsed.rest, 0) == component + ": "@ + message
        }),
{
    let name = level_name(level);
    let line = line_of(level, component, message);
    records_read_back(timestamp, level, component, message);
    lemma_bytes_push(timestamp, ' ');
    lemma_level_name(level);
    let head = name.push(' ');
    let tail = component + ": "@ + message;
    reveal_strlit(" ");
    assert(" "@ =~= seq![' ']);
    assert(line =~= head + tail);
    lemma_flattened_concat(head, tail);
    assert forall|i: int| 0 <= i < head.len() implies #[trigger] head[i] != '\\' && head[i] != '\n'
        && head[i] != '\r' by {
        if i < name.len() {
            assert('A' <= name[i] <= 'Z');
            assert(head[i] == name[i]);
        }
    }
    lemma_plain_is_flat(head);
    assert(flattened(line) =~= head + flattened(tail));
    assert(flattened(line).skip(head.len() as int) =~= flattened(tail));
    flattening_can_be_undone(tail);
}

/// A record that does not fit is cut as late as there is room for the mark that says so.
pub proof fn long_records_are_cut_late(timestamp: Seq<char>, line: Seq<char>)
    requires
        is_stamp(timestamp),
        bytes_in(flattened(line)) + bytes_in(timestamp) + 2 > 8192,
    ensures
        ({
            let record = encoded(timestamp, line);
            let mark = "\u{2026} [truncated]"@;
            exists|kept: Seq<char>|
                {
                    &&& record == #[trigger] (timestamp + seq![' '] + kept + mark + seq!['\n'])
                    &&& kept.is_prefix_of(flattened(line))
                    &&& bytes_in(kept) + bytes_in(mark) + bytes_in(timestamp) + 2 > 8192 - 4
                }
        }),
{
    lemma_stamp_bytes(timestamp);
    lemma_mark_bytes();
    lemma_bytes_push(timestamp, ' ');
    let flat = flattened(line);
    let mark = truncation_mark();
    let budget = (LOG_RECORD_MAX_BYTES - bytes_in(timestamp.push(' ')) - 1) as nat;
    let room = (budget - bytes_in(mark)) as nat;
    let kept = fitting_prefix(flat, room);
    the_fitting_prefix_is_the_longest(flat, room);
    let end = fitting(flat, 0, room);
    assert(encoded(timestamp, line) =~= timestamp + seq![' '] + kept + mark + seq!['\n']);
    assert(kept =~= flat.subrange(0, kept.len() as int));
    if end < flat.len() {
        assert(flat.take(end + 1) =~= kept.push(flat[end]));
        lemma_bytes_push(kept, flat[end]);
    } else {
        assert(kept =~= flat);
    }
}

/// Errors and warnings are always recorded, and information where details are wanted.
pub proof fn levels_are_ranked(level: LogLevel)
    ensures
        rank(level) <= rank(LogLevel::Info),
        rank(level) <= rank(LogLevel::Warn) <==> level != LogLevel::Info,
        rank(level) <= rank(LogLevel::Error) <==> level == LogLevel::Error,
{
}

/// A line without a time is kept whole, but for the line break at its end, and one without a level
/// loses its time alone.
pub proof fn odd_lines_are_kept_whole(line: Seq<char>, timestamp: Seq<char>)
    requires
        line.len() > 0 ==> line.last() != '\n' && line.last() != '\r',
        forall|i: int| 0 <= i < timestamp.len() ==> #[trigger] timestamp[i] != ' ',
    ensures
        !line.contains('T') ==> parsed_line(line) == (ParsedLogLineModel {
            timestamp: None,
            level: None,
            rest: line,
        }),
        !line.contains(' ') ==> parsed_line(line) == (ParsedLogLineModel {
            timestamp: None,
            level: None,
            rest: line,
        }),
        !line.contains(' ') && line.len() > 0 && timestamp.contains('T') ==> parsed_line(
            timestamp.push(' ') + line,
        ) == (ParsedLogLineModel { timestamp: Some(timestamp), level: None, rest: line }),
        parsed_line(line.push('\n')) == parsed_line(line),
{
    assert(without_breaks(line) == line);
    assert(line.push('\n').drop_last() =~= line);
    assert(without_breaks(line.push('\n')) == line);
    if !line.contains('T') {
        if let Some((first, _)) = split_at_space(line) {
            assert forall|i: int| 0 <= i < first.len() implies #[trigger] first[i] != 'T' by {
                assert(line.contains(line[i]));
            }
        }
    }
    if !line.contains(' ') {
        assert forall|i: int| 0 <= i < line.len() implies #[trigger] line[i] != ' ' by {
            assert(line.contains(line[i]));
        }
        lemma_no_space_in(line, 0);
        if line.len() > 0 && timestamp.contains('T') {
            let text = timestamp.push(' ') + line;
            assert(text.last() == line.last());
            assert(without_breaks(text) == text);
            assert forall|i: int| 0 <= i < timestamp.len() implies #[trigger] text[i] != ' ' by {
                assert(text[i] == timestamp[i]);
            }
            lemma_space_in(text, timestamp.len() as int, 0);
            assert(text.take(timestamp.len() as int) =~= timestamp);
            assert(text.skip(timestamp.len() as int + 1) =~= line);
        }
    }
}

proof fn lemma_no_space_in(text: Seq<char>, start: int)
    requires
        0 <= start <= text.len(),
        forall|i: int| 0 <= i < text.len() ==> #[trigger] text[i] != ' ',
    ensures
        space_in(text, start) == text.len(),
    decreases text.len() - start,
{
    if start < text.len() {
        lemma_no_space_in(text, start + 1);
    }
}

} // verus!
