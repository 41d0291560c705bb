//! The card that shows what a provider answered when a turn failed.

use vstd::prelude::*;
use vstd::string::*;

use crate::json::{parse_json, parsed_json};
use crate::llm::error::{ErrorKind, GatewayError, GatewayErrorModel};
use crate::text::{
    byte_len, bytes_in, char_width, chars_of, count_lines, fitting_prefix, lemma_bytes_concat,
    lemma_bytes_push, line_count, prefix_within, the_fitting_prefix_is_the_longest, width_of,
};

verus! {

/// A preview of more lines is collapsed at first.
pub const COLLAPSE_LINE_THRESHOLD: usize = 16;

/// A preview of more bytes is collapsed at first, since one long line wraps into many.
pub const COLLAPSE_BYTE_THRESHOLD: usize = 4096;

/// How much of a captured text is formatted for display.
pub const MAX_DISPLAY_SOURCE_BYTES: usize = 32768;

/// How long a formatted preview gets.
pub const MAX_FORMATTED_BODY_BYTES: usize = 131072;

/// The sentence above a card.
#[derive(Clone, Copy, Debug, PartialEq, Eq, Structural)]
pub enum Headline {
    Configuration,
    Connection,
    Http(u16),
    Interrupted,
    Provider,
}

/// The headline of a failure. A response with a status is known by it.
pub open spec fn headline_of(kind: ErrorKind, status: Option<u16>) -> Headline {
    match (kind, status) {
        (ErrorKind::Configuration, _) => Headline::Configuration,
        (ErrorKind::Transport, _) => Headline::Connection,
        (ErrorKind::Http, Some(status)) => Headline::Http(status),
        (ErrorKind::Http, None) => Headline::Provider,
        (ErrorKind::Protocol, _) => Headline::Interrupted,
        (ErrorKind::Provider, _) => Headline::Provider,
    }
}

pub fn headline(kind: ErrorKind, status: Option<u16>) -> (headline: Headline)
    ensures
        headline == headline_of(kind, status),
{
    match kind {
        ErrorKind::Configuration => Headline::Configuration,
        ErrorKind::Transport => Headline::Connection,
        ErrorKind::Http => match status {
            Some(status) => Headline::Http(status),
            None => Headline::Provider,
        },
        ErrorKind::Protocol => Headline::Interrupted,
        ErrorKind::Provider => Headline::Provider,
    }
}

impl Headline {
    /// The key of the sentence in the catalogue of translations.
    pub fn key(&self) -> (key: &'static str)
        ensures
            key@ == match *self {
                Headline::Configuration => "chat.error.configuration"@,
                Headline::Connection => "chat.error.connection"@,
                Headline::Http(_) => "chat.error.http"@,
                Headline::Interrupted => "chat.error.interrupted"@,
                Headline::Provider => "chat.error.provider"@,
            },
    {
        match self {
            Headline::Configuration => "chat.error.configuration",
            Headline::Connection => "chat.error.connection",
            Headline::Http(_) => "chat.error.http",
            Headline::Interrupted => "chat.error.interrupted",
            Headline::Provider => "chat.error.provider",
        }
    }
}

/// The language of a body for the highlighter: JSON where it is JSON.
pub open spec fn tag_of(body: Seq<char>) -> Option<Seq<char>> {
    if parsed_json(body) is Some {
        Some("json"@)
    } else {
        None
    }
}

pub fn language_tag(body: &str) -> (tag: Option<&'static str>)
    ensures
        tag.deep_view() == tag_of(body@),
{
    if parse_json(body).is_some() {
        Some("json")
    } else {
        None
    }
}

/// The length of the longest run of backticks in a text, given that one of `run` backticks ends at
/// position `start` and that the longest before has `best`.
pub open spec fn longest_run(text: Seq<char>, start: int, run: nat, best: nat) -> nat
    decreases text.len() - start,
{
    let longest = if run > best {
        run
    } else {
        best
    };
    if start < 0 || start >= text.len() {
        longest
    } else if text[start] == '`' {
        longest_run(text, start + 1, run + 1, longest)
    } else {
        longest_run(text, start + 1, 0, longest)
    }
}

/// The length of the fence around a body: longer than any run of backticks in it, and three at
/// least.
pub open spec fn fence_length(body: Seq<char>) -> nat {
    let longest = longest_run(body, 0, 0, 0);
    if longest > 2 {
        longest + 1
    } else {
        3
    }
}

pub open spec fn fence_of(body: Seq<char>) -> Seq<char> {
    Seq::new(fence_length(body), |i: int| '`')
}

/// A body in a fenced code block.
pub open spec fn block_of(body: Seq<char>, lang: Option<Seq<char>>) -> Seq<char> {
    let tag = match lang {
        Some(lang) => lang,
        None => Seq::empty(),
    };
    (fence_of(body) + tag).push('\n') + body + fence_of(body).insert(0, '\n')
}

proof fn lemma_longest_run(text: Seq<char>, start: int, run: nat, best: nat, at: int, n: int)
    requires
        0 <= run <= start <= text.len(),
        forall|i: int| start - run <= i < start ==> #[trigger] text[i] == '`',
        0 <= at,
        0 <= n,
        at + n <= text.len(),
        forall|i: int| at <= i < at + n ==> #[trigger] text[i] == '`',
        start < at + n ==> at >= start - run,
        start >= at + n ==> (n <= run || n <= best),
    ensures
        n <= longest_run(text, start, run, best),
        run <= longest_run(text, start, run, best),
        best <= longest_run(text, start, run, best),
    decreases text.len() - start,
{
    let longest = if run > best {
        run
    } else {
        best
    };
    if start < text.len() {
        if text[start] == '`' {
            lemma_longest_run(text, start + 1, run + 1, longest, at, n);
        } else {
            lemma_longest_run(text, start + 1, 0, longest, at, n);
        }
    }
}

/// No run of backticks in a body is as long as its fence, so a body cannot end its own block.
pub proof fn fences_outgrow_the_body(body: Seq<char>, at: int, n: int)
    requires
        0 <= at,
        0 <= n,
        at + n <= body.len(),
        forall|i: int| at <= i < at + n ==> #[trigger] body[i] == '`',
    ensures
        n < fence_of(body).len(),
{
    lemma_longest_run(body, 0, 0, 0, at, n);
}

/// Wraps a body in a fenced code block.
pub fn fenced_block(body: &str, lang: Option<&str>) -> (block: String)
    ensures
        block@ == block_of(body@, lang.deep_view()),
{
    let chars = chars_of(body);
    let mut run: usize = 0;
    let mut best: usize = 0;
    let mut i: usize = 0;
    while i < chars.len()
        invariant
            chars@ == body@,
            i <= chars@.len(),
            run <= i,
            best <= i,
            longest_run(body@, 0, 0, 0) == longest_run(body@, i as int, run as nat, best as nat),
        decreases chars@.len() - i,
    {
        if run > best {
            best = run;
        }
        if chars[i] == '`' {
            run += 1;
        } else {
            run = 0;
        }
        i += 1;
    }
    if run > best {
        best = run;
    }
    let longest: usize = if best > 2 {
        best
    } else {
        2
    };
    let mut fence = String::new();
    fence.push('`');
    let mut k: usize = 0;
    proof {
        assert(fence@ =~= Seq::new(1, |j: int| '`'));
    }
    while k < longest
        invariant
            k <= longest,
            fence@ == Seq::new((k + 1) as nat, |j: int| '`'),
        decreases longest - k,
    {
        fence.push('`');
        k += 1;
        proof {
            assert(fence@ =~= Seq::new((k + 1) as nat, |j: int| '`'));
        }
    }
    let mut block = fence.clone();
    match lang {
        Some(lang) => block.append(lang),
        None => {},
    }
    block.push('\n');
    block.append(body);
    block.push('\n');
    block.append(fence.as_str());
    proof {
        let tag = match lang {
            Some(lang) => lang@,
            None => Seq::empty(),
        };
        assert(fence@ == fence_of(body@));
        assert(block@ =~= (fence@ + tag).push('\n') + body@ + fence@.insert(0, '\n'));
    }
    block
}

/// Where the printer of JSON stands.
pub struct Printer {
    pub out: Seq<char>,
    pub depth: nat,
    pub in_string: bool,
    pub escaped: bool,
}

pub open spec fn is_ascii_space(c: char) -> bool {
    c == ' ' || c == '\t' || c == '\n' || c == '\r' || c == '\x0c'
}

pub open spec fn suffix_of(suffix: Option<char>) -> Seq<char> {
    match suffix {
        Some(c) => seq![c],
        None => Seq::empty(),
    }
}

/// A new line, indented, with a character at its end.
pub open spec fn new_line(depth: nat, suffix: Option<char>) -> Seq<char> {
    seq!['\n'] + Seq::new(2 * depth, |i: int| ' ') + suffix_of(suffix)
}

/// Text with more, where that is within the budget.
pub open spec fn within(out: Seq<char>, more: Seq<char>, budget: nat) -> Option<Seq<char>> {
    if bytes_in(out) + bytes_in(more) > budget {
        None
    } else {
        Some(out + more)
    }
}

/// What the printer does with a character outside of strings: the state after it, whether the
/// budget is used up, and whether the next character is done with too.
pub open spec fn printed_outside(p: Printer, c: char, next: Option<char>, budget: nat) -> (
    Printer,
    bool,
    bool,
) {
    if c == '"' {
        (Printer { out: p.out.push(c), in_string: true, ..p }, false, false)
    } else if c == '{' || c == '[' {
        let closer = if c == '{' {
            '}'
        } else {
            ']'
        };
        let opened = Printer { out: p.out.push(c), ..p };
        if next == Some(closer) {
            match within(opened.out, seq![closer], budget) {
                Some(out) => (Printer { out, ..opened }, false, true),
                None => (opened, true, true),
            }
        } else {
            let deeper = Printer { depth: p.depth + 1, ..opened };
            match within(deeper.out, new_line(deeper.depth, None), budget) {
                Some(out) => (Printer { out, ..deeper }, false, false),
                None => (deeper, true, false),
            }
        }
    } else if c == '}' || c == ']' {
        let closed = Printer {
            depth: if p.depth > 0 {
                (p.depth - 1) as nat
            } else {
                0
            },
            ..p
        };
        match within(closed.out, new_line(closed.depth, Some(c)), budget) {
            Some(out) => (Printer { out, ..closed }, false, false),
            None => (closed, true, false),
        }
    } else if c == ',' {
        let parted = Printer { out: p.out.push(c), ..p };
        match within(parted.out, new_line(parted.depth, None), budget) {
            Some(out) => (Printer { out, ..parted }, false, false),
            None => (parted, true, false),
        }
    } else if c == ':' {
        match within(p.out, seq![':', ' '], budget) {
            Some(out) => (Printer { out, ..p }, false, false),
            None => (p, true, false),
        }
    } else if is_ascii_space(c) {
        (p, false, false)
    } else {
        (Printer { out: p.out.push(c), ..p }, false, false)
    }
}

/// What the printer does with a character.
pub open spec fn printed_char(p: Printer, c: char, next: Option<char>, budget: nat) -> (
    Printer,
    bool,
    bool,
) {
    if bytes_in(p.out) + char_width(c) > budget {
        (p, true, false)
    } else if p.in_string {
        (
            Printer {
                out: p.out.push(c),
                escaped: !p.escaped && c == '\\',
                in_string: p.escaped || c != '"',
                ..p
            },
            false,
            false,
        )
    } else {
        printed_outside(p, c, next, budget)
    }
}

pub open spec fn char_at(text: Seq<char>, i: int) -> Option<char> {
    if 0 <= i < text.len() {
        Some(text[i])
    } else {
        None
    }
}

/// What the printer makes of a text from position `start` on, and whether the budget ended it.
pub open spec fn printed_from(p: Printer, text: Seq<char>, start: int, budget: nat) -> (
    Seq<char>,
    bool,
)
    decreases text.len() - start,
{
    if start < 0 || start >= text.len() {
        (p.out, false)
    } else {
        let (after, full, skip) = printed_char(p, text[start], char_at(text, start + 1), budget);
        if full {
            (after.out, true)
        } else {
            printed_from(
                after,
                text,
                start + if skip {
                    2int
                } else {
                    1
                },
                budget,
            )
        }
    }
}

pub open spec fn fresh_printer() -> Printer {
    Printer { out: Seq::empty(), depth: 0, in_string: false, escaped: false }
}

/// A body for display: JSON on one line is indented, as far as the budget goes, and anything else
/// stays as it is.
pub open spec fn pretty(body: Seq<char>, budget: nat) -> (Seq<char>, bool) {
    if parsed_json(body) is None || body.contains('\n') {
        (body, false)
    } else {
        printed_from(fresh_printer(), body, 0, budget)
    }
}

/// What a text says apart from its layout, so far: the characters that are no white space between
/// the strings of JSON, whether it stands inside a string, and whether a backslash came last.
pub open spec fn said(text: Seq<char>) -> (Seq<char>, bool, bool)
    decreases text.len(),
{
    if text.len() == 0 {
        (Seq::empty(), false, false)
    } else {
        let (before, in_string, escaped) = said(text.drop_last());
        let c = text.last();
        if in_string {
            (before.push(c), escaped || c != '"', !escaped && c == '\\')
        } else if c == '"' {
            (before.push(c), true, escaped)
        } else if is_ascii_space(c) {
            (before, in_string, escaped)
        } else {
            (before.push(c), in_string, escaped)
        }
    }
}

proof fn lemma_said_push(text: Seq<char>, c: char)
    ensures
        said(text.push(c)) == ({
            let (before, in_string, escaped) = said(text);
            if in_string {
                (before.push(c), escaped || c != '"', !escaped && c == '\\')
            } else if c == '"' {
                (before.push(c), true, escaped)
            } else if is_ascii_space(c) {
                (before, in_string, escaped)
            } else {
                (before.push(c), in_string, escaped)
            }
        }),
{
    assert(text.push(c).drop_last() =~= text);
}

proof fn lemma_spaces_say_nothing(text: Seq<char>, n: nat)
    requires
        !said(text).1,
    ensures
        said(text + Seq::new(n, |i: int| ' ')) == said(text),
    decreases n,
{
    let spaces = Seq::new(n, |i: int| ' ');
    if n == 0 {
        assert(text + spaces =~= text);
    } else {
        let fewer = Seq::new((n - 1) as nat, |i: int| ' ');
        lemma_spaces_say_nothing(text, (n - 1) as nat);
        lemma_said_push(text + fewer, ' ');
        assert(text + spaces =~= (text + fewer).push(' '));
    }
}

proof fn lemma_new_line_says_its_suffix(text: Seq<char>, depth: nat, suffix: Option<char>)
    requires
        !said(text).1,
    ensures
        said(text + new_line(depth, suffix)) == said(text + suffix_of(suffix)),
{
    let spaces = Seq::new(2 * depth, |i: int| ' ');
    lemma_said_push(text, '\n');
    lemma_spaces_say_nothing(text.push('\n'), 2 * depth);
    match suffix {
        Some(c) => {
            assert(text + new_line(depth, suffix) =~= (text.push('\n') + spaces).push(c));
            lemma_said_push(text.push('\n') + spaces, c);
            lemma_said_push(text, c);
            assert(text + suffix_of(suffix) =~= text.push(c));
        },
        None => {
            assert(text + new_line(depth, suffix) =~= text.push('\n') + spaces);
            assert(text + suffix_of(suffix) =~= text);
        },
    }
}

/// The printer says what it has read.
pub open spec fn says(p: Printer, read: Seq<char>) -> bool {
    &&& said(p.out) == said(read)
    &&& p.in_string == said(read).1
    &&& p.escaped == said(read).2
}

proof fn lemma_char_is_said(p: Printer, text: Seq<char>, i: int, budget: nat)
    requires
        0 <= i < text.len(),
        says(p, text.take(i)),
    ensures
        ({
            let (after, full, skip) = printed_char(p, text[i], char_at(text, i + 1), budget);
            let next = i + if skip {
                2int
            } else {
                1
            };
            &&& !full ==> next <= text.len() && says(after, text.take(next))
            &&& full ==> said(after.out) == said(text.take(i)) || said(after.out) == said(
                text.take(i + 1),
            )
        }),
{
    let c = text[i];
    let (after, full, skip) = printed_char(p, c, char_at(text, i + 1), budget);
    assert(text.take(i + 1) =~= text.take(i).push(c));
    lemma_said_push(text.take(i), c);
    lemma_said_push(p.out, c);
    if bytes_in(p.out) + char_width(c) > budget || p.in_string || c == '"' {
    } else if c == '{' || c == '[' {
        let opened = p.out.push(c);
        if skip {
            assert(text.take(i + 2) =~= text.take(i + 1).push(text[i + 1]));
            lemma_said_push(text.take(i + 1), text[i + 1]);
            lemma_said_push(opened, text[i + 1]);
            assert(opened + seq![text[i + 1]] =~= opened.push(text[i + 1]));
        } else {
            lemma_new_line_says_its_suffix(opened, p.depth + 1, None);
            assert(opened + suffix_of(None) =~= opened);
        }
    } else if c == '}' || c == ']' {
        let depth = if p.depth > 0 {
            (p.depth - 1) as nat
        } else {
            0
        };
        lemma_new_line_says_its_suffix(p.out, depth, Some(c));
        assert(p.out + suffix_of(Some(c)) =~= p.out.push(c));
    } else if c == ',' {
        let parted = p.out.push(c);
        lemma_new_line_says_its_suffix(parted, p.depth, None);
        assert(parted + suffix_of(None) =~= parted);
    } else if c == ':' {
        assert(p.out + seq![':', ' '] =~= p.out.push(':').push(' '));
        lemma_said_push(p.out.push(':'), ' ');
    }
}

proof fn lemma_said_grows(text: Seq<char>, i: int)
    requires
        0 <= i <= text.len(),
    ensures
        said(text.take(i)).0.is_prefix_of(said(text).0),
    decreases text.len() - i,
{
    if i < text.len() {
        lemma_said_grows(text, i + 1);
        assert(text.take(i + 1) =~= text.take(i).push(text[i]));
        lemma_said_push(text.take(i), text[i]);
        let less = said(text.take(i)).0;
        let more = said(text.take(i + 1)).0;
        assert(less.is_prefix_of(more));
    } else {
        assert(text.take(i) =~= text);
    }
}

proof fn lemma_printed_is_said(p: Printer, text: Seq<char>, start: int, budget: nat)
    requires
        0 <= start <= text.len(),
        says(p, text.take(start)),
    ensures
        ({
            let (out, full) = printed_from(p, text, start, budget);
            &&& said(out).0.is_prefix_of(said(text).0)
            &&& !full ==> said(out) == said(text)
        }),
    decreases text.len() - start,
{
    if start < text.len() {
        let (after, full, skip) = printed_char(p, text[start], char_at(text, start + 1), budget);
        lemma_char_is_said(p, text, start, budget);
        if full {
            lemma_said_grows(text, start);
            lemma_said_grows(text, start + 1);
        } else {
            lemma_printed_is_said(
                after,
                text,
                start + if skip {
                    2int
                } else {
                    1
                },
                budget,
            );
        }
    } else {
        assert(text.take(start) =~= text);
    }
}

/// Formatting keeps everything but the layout, in order: what is shown says what the body says, or
/// the beginning of it where the budget ran out.
pub proof fn formatting_keeps_the_content(body: Seq<char>, budget: nat)
    ensures
        said(pretty(body, budget).0).0.is_prefix_of(said(body).0),
        !pretty(body, budget).1 ==> said(pretty(body, budget).0).0 == said(body).0,
{
    assert(body.take(0) =~= Seq::<char>::empty());
    lemma_printed_is_said(fresh_printer(), body, 0, budget);
}

proof fn lemma_printed_fits(p: Printer, text: Seq<char>, start: int, budget: nat)
    requires
        0 <= start,
        bytes_in(p.out) <= budget,
    ensures
        bytes_in(printed_from(p, text, start, budget).0) <= budget,
    decreases text.len() - start,
{
    if start < text.len() {
        let c = text[start];
        let (after, full, skip) = printed_char(p, c, char_at(text, start + 1), budget);
        lemma_bytes_push(p.out, c);
        assert(bytes_in(after.out) <= budget) by {
            lemma_bytes_concat(p.out.push(c), new_line(p.depth + 1, None));
            lemma_bytes_concat(p.out.push(c), seq!['}']);
            lemma_bytes_concat(p.out.push(c), seq![']']);
            lemma_bytes_concat(p.out.push(c), new_line(p.depth, None));
            lemma_bytes_concat(p.out, seq![':', ' ']);
            let depth = if p.depth > 0 {
                (p.depth - 1) as nat
            } else {
                0
            };
            lemma_bytes_concat(p.out, new_line(depth, Some(c)));
        }
        if !full {
            lemma_printed_fits(
                after,
                text,
                start + if skip {
                    2int
                } else {
                    1
                },
                budget,
            );
        }
    }
}

/// What is indented stays within the budget.
pub proof fn formatting_stays_within_the_budget(body: Seq<char>, budget: nat)
    requires
        parsed_json(body) is Some,
        !body.contains('\n'),
    ensures
        bytes_in(pretty(body, budget).0) <= budget,
{
    lemma_printed_fits(fresh_printer(), body, 0, budget);
}

proof fn lemma_space_bytes(n: nat)
    ensures
        bytes_in(Seq::new(n, |i: int| ' ')) == n,
    decreases n,
{
    let spaces = Seq::new(n, |i: int| ' ');
    if n > 0 {
        let fewer = Seq::new((n - 1) as nat, |i: int| ' ');
        lemma_space_bytes((n - 1) as nat);
        assert(spaces =~= fewer.push(' '));
        lemma_bytes_push(fewer, ' ');
    }
}

proof fn lemma_new_line_bytes(depth: nat, suffix: Option<char>)
    ensures
        bytes_in(new_line(depth, suffix)) == 1 + 2 * depth + (match suffix {
            Some(c) => char_width(c),
            None => 0,
        }),
{
    let spaces = Seq::new(2 * depth, |i: int| ' ');
    lemma_space_bytes(2 * depth);
    lemma_bytes_concat(seq!['\n'] + spaces, suffix_of(suffix));
    lemma_bytes_concat(seq!['\n'], spaces);
    lemma_one_byte('\n');
    match suffix {
        Some(c) => {
            lemma_one_byte(c);
        },
        None => {},
    }
}

proof fn lemma_one_byte(c: char)
    ensures
        bytes_in(seq![c]) == char_width(c),
{
    assert(seq![c] =~= Seq::<char>::empty().push(c));
    lemma_bytes_push(Seq::empty(), c);
}

/// The printer at work: what it has written, and how many bytes that takes.
struct Writer {
    out: String,
    used: usize,
    budget: usize,
}

impl Writer {
    spec fn wf(self) -> bool {
        self.used == bytes_in(self.out@) && self.used <= self.budget
    }

    /// Whether so many bytes more are within the budget.
    fn has_room(&self, bytes: usize) -> (yes: bool)
        requires
            self.wf(),
        ensures
            yes == (bytes_in(self.out@) + bytes <= self.budget),
    {
        bytes <= self.budget - self.used
    }

    fn push(&mut self, c: char)
        requires
            old(self).wf(),
            bytes_in(old(self).out@) + char_width(c) <= old(self).budget,
        ensures
            final(self).wf(),
            final(self).out@ == old(self).out@.push(c),
            final(self).budget == old(self).budget,
    {
        proof {
            lemma_bytes_push(self.out@, c);
        }
        self.out.push(c);
        self.used += width_of(c);
    }

    fn push_char_within_budget(&mut self, c: char) -> (fits: bool)
        requires
            old(self).wf(),
        ensures
            final(self).wf(),
            final(self).budget == old(self).budget,
            match within(old(self).out@, seq![c], old(self).budget as nat) {
                Some(out) => fits && final(self).out@ == out,
                None => !fits && final(self).out@ == old(self).out@,
            },
    {
        proof {
            lemma_one_byte(c);
        }
        if !self.has_room(width_of(c)) {
            return false;
        }
        self.push(c);
        proof {
            assert(old(self).out@.push(c) =~= old(self).out@ + seq![c]);
        }
        true
    }

    fn newline_indent(&mut self, depth: usize, suffix: Option<char>) -> (fits: bool)
        requires
            old(self).wf(),
        ensures
            final(self).wf(),
            final(self).budget == old(self).budget,
            match within(
                old(self).out@,
                new_line(depth as nat, suffix),
                old(self).budget as nat,
            ) {
                Some(out) => fits && final(self).out@ == out,
                None => !fits && final(self).out@ == old(self).out@,
            },
    {
        let ghost before = self.out@;
        let ghost line = new_line(depth as nat, suffix);
        proof {
            lemma_new_line_bytes(depth as nat, suffix);
        }
        let width: usize = match suffix {
            Some(c) => width_of(c),
            None => 0,
        };
        let left: usize = self.budget - self.used;
        if depth > left / 2 || 2 * depth >= left || width > left - 2 * depth - 1 {
            return false;
        }
        self.push('\n');
        let mut i: usize = 0;
        proof {
            assert(self.out@ =~= before + line.take(1));
        }
        while i < 2 * depth
            invariant
                self.wf(),
                self.budget == old(self).budget,
                2 * depth < usize::MAX,
                i <= 2 * depth,
                line == new_line(depth as nat, suffix),
                line.len() >= 1 + 2 * depth,
                self.out@ == before + line.take(1 + i),
                bytes_in(before) + bytes_in(line) <= self.budget,
            decreases 2 * depth - i,
        {
            proof {
                assert(line[1 + i] == ' ');
                assert(line.take(1 + i + 1) =~= line.take(1 + i).push(' '));
                lemma_piece_fits(before, line, 1 + i + 1);
                assert(before + line.take(1 + i + 1) =~= self.out@.push(' '));
                lemma_bytes_push(self.out@, ' ');
            }
            self.push(' ');
            i += 1;
        }
        match suffix {
            Some(c) => {
                proof {
                    assert(line =~= line.take(1 + 2 * depth).push(c));
                    assert(before + line =~= self.out@.push(c));
                    lemma_bytes_concat(before, line);
                    lemma_bytes_push(self.out@, c);
                }
                self.push(c);
            },
            None => {
                proof {
                    assert(line =~= line.take(1 + 2 * depth));
                }
            },
        }
        true
    }
}

proof fn lemma_piece_fits(before: Seq<char>, line: Seq<char>, n: int)
    requires
        0 <= n <= line.len(),
    ensures
        bytes_in(before + line.take(n)) <= bytes_in(before) + bytes_in(line),
{
    lemma_bytes_concat(before, line.take(n));
    lemma_bytes_concat(line.take(n), line.skip(n));
    assert(line.take(n) + line.skip(n) =~= line);
}

/// Indents JSON for reading. The order of the members and every scalar stay as they came. The
/// second result says whether the budget cut the text short.
pub fn pretty_json(body: &str, max_output_bytes: usize) -> (printed: (String, bool))
    ensures
        (printed.0@, printed.1) == pretty(body@, max_output_bytes as nat),
{
    if parse_json(body).is_none() {
        return (body.to_owned(), false);
    }
    let chars = chars_of(body);
    let mut i: usize = 0;
    while i < chars.len()
        invariant
            chars@ == body@,
            i <= chars@.len(),
            parsed_json(body@) is Some,
            forall|k: int| 0 <= k < i ==> #[trigger] body@[k] != '\n',
        decreases chars@.len() - i,
    {
        if chars[i] == '\n' {
            proof {
                assert(body@.contains(body@[i as int]));
            }
            return (body.to_owned(), false);
        }
        i += 1;
    }
    proof {
        assert(!body@.contains('\n'));
    }
    indented(&chars, max_output_bytes)
}

fn indented(chars: &Vec<char>, budget: usize) -> (printed: (String, bool))
    ensures
        (printed.0@, printed.1) == printed_from(fresh_printer(), chars@, 0, budget as nat),
{
    let ghost all = printed_from(fresh_printer(), chars@, 0, budget as nat);
    let mut writer = Writer { out: String::new(), used: 0, budget };
    let mut depth: usize = 0;
    let mut in_string = false;
    let mut escaped = false;
    let mut i: usize = 0;
    while i < chars.len()
        invariant
            i <= chars@.len(),
            depth <= i,
            writer.wf(),
            writer.budget == budget,
            all == printed_from(fresh_printer(), chars@, 0, budget as nat),
            all == printed_from(
                Printer { out: writer.out@, depth: depth as nat, in_string, escaped },
                chars@,
                i as int,
                budget as nat,
            ),
        decreases chars@.len() - i,
    {
        let ghost p = Printer { out: writer.out@, depth: depth as nat, in_string, escaped };
        let c = chars[i];
        if !writer.has_room(width_of(c)) {
            return (writer.out, true);
        }
        if in_string {
            writer.push(c);
            if escaped {
                escaped = false;
            } else if c == '\\' {
                escaped = true;
            } else if c == '"' {
                in_string = false;
            }
            i += 1;
        } else if c == '"' {
            in_string = true;
            writer.push(c);
            i += 1;
        } else if c == '{' || c == '[' {
            writer.push(c);
            let closer = if c == '{' {
                '}'
            } else {
                ']'
            };
            if i + 1 < chars.len() && chars[i + 1] == closer {
                if !writer.push_char_within_budget(closer) {
                    return (writer.out, true);
                }
                i += 2;
            } else {
                depth += 1;
                if !writer.newline_indent(depth, None) {
                    return (writer.out, true);
                }
                i += 1;
            }
        } else if c == '}' || c == ']' {
            depth = depth.saturating_sub(1);
            if !writer.newline_indent(depth, Some(c)) {
                return (writer.out, true);
            }
            i += 1;
        } else if c == ',' {
            writer.push(c);
            if !writer.newline_indent(depth, None) {
                return (writer.out, true);
            }
            i += 1;
        } else if c == ':' {
            proof {
                lemma_colon_bytes();
            }
            if !writer.has_room(2) {
                return (writer.out, true);
            }
            writer.push(':');
            proof {
                assert(p.out.push(':').push(' ') =~= p.out + seq![':', ' ']);
                lemma_bytes_push(p.out, ':');
            }
            writer.push(' ');
            i += 1;
        } else if c == ' ' || c == '\t' || c == '\n' || c == '\r' || c == '\x0c' {
            i += 1;
        } else {
            writer.push(c);
            i += 1;
        }
    }
    (writer.out, false)
}

proof fn lemma_colon_bytes()
    ensures
        bytes_in(seq![':', ' ']) == 2,
{
    assert(seq![':', ' '] =~= seq![':'].push(' '));
    lemma_one_byte(':');
    lemma_bytes_push(seq![':'], ' ');
}

/// The beginning of a text within a number of bytes, and whether that is less than all of it.
pub fn truncate_utf8(value: &str, max_bytes: usize) -> (cut: (String, bool))
    ensures
        cut.0@ == fitting_prefix(value@, max_bytes as nat),
        cut.1 == (bytes_in(value@) > max_bytes),
{
    proof {
        the_fitting_prefix_is_the_longest(value@, max_bytes as nat);
    }
    if byte_len(value) <= max_bytes {
        return (value.to_owned(), false);
    }
    (prefix_within(value, max_bytes), true)
}

/// The preview of a captured text, and whether it shows less than all of it.
pub open spec fn preview_of(raw: Seq<char>) -> (Seq<char>, bool) {
    let (display, cut) = pretty(
        fitting_prefix(raw, MAX_DISPLAY_SOURCE_BYTES as nat),
        MAX_FORMATTED_BODY_BYTES as nat,
    );
    (display, cut || bytes_in(raw) > MAX_DISPLAY_SOURCE_BYTES)
}

/// The failure of a turn, prepared for display.
#[derive(PartialEq)]
pub struct TurnError {
    pub kind: ErrorKind,
    pub status: Option<u16>,
    /// The code that the provider gave.
    pub code: Option<String>,
    pub request_id: Option<String>,
    /// The captured text as it came, for the clipboard.
    pub raw_body: Option<String>,
    /// The preview of the captured text, a fenced code block.
    pub markdown: Option<String>,
    /// Whether the preview is long enough to be collapsed.
    pub collapsible: bool,
    /// Whether the preview shows less than was captured.
    pub preview_truncated: bool,
}

/// What a [`TurnError`] stands for.
pub struct TurnErrorModel {
    pub kind: ErrorKind,
    pub status: Option<u16>,
    pub code: Option<Seq<char>>,
    pub request_id: Option<Seq<char>>,
    pub raw_body: Option<Seq<char>>,
    pub markdown: Option<Seq<char>>,
    pub collapsible: bool,
    pub preview_truncated: bool,
}

impl DeepView for TurnError {
    type V = TurnErrorModel;

    open spec fn deep_view(&self) -> TurnErrorModel {
        TurnErrorModel {
            kind: self.kind,
            status: self.status,
            code: self.code.deep_view(),
            request_id: self.request_id.deep_view(),
            raw_body: self.raw_body.deep_view(),
            markdown: self.markdown.deep_view(),
            collapsible: self.collapsible,
            preview_truncated: self.preview_truncated,
        }
    }
}

/// The card of a failure.
pub open spec fn card_of(error: GatewayErrorModel) -> TurnErrorModel {
    let bare = TurnErrorModel {
        kind: error.kind,
        status: error.status,
        code: error.provider_code,
        request_id: error.request_id,
        raw_body: None,
        markdown: None,
        collapsible: false,
        preview_truncated: false,
    };
    match error.upstream_body {
        None => bare,
        Some(raw) => {
            let (display, cut) = preview_of(raw);
            TurnErrorModel {
                raw_body: Some(raw),
                markdown: Some(
                    block_of(display, tag_of(fitting_prefix(raw, MAX_DISPLAY_SOURCE_BYTES as nat))),
                ),
                collapsible: line_count(display) > COLLAPSE_LINE_THRESHOLD || bytes_in(display)
                    > COLLAPSE_BYTE_THRESHOLD,
                preview_truncated: cut,
                ..bare
            }
        },
    }
}

/// The clipboard gets what the provider sent, whatever the preview shows of it.
pub proof fn cards_keep_the_captured_text(error: GatewayErrorModel)
    ensures
        card_of(error).raw_body == error.upstream_body,
        card_of(error).markdown is Some <==> error.upstream_body is Some,
{
}

/// A preview is never longer than what is formatted, or than the budget of formatting.
pub proof fn previews_are_bounded(raw: Seq<char>)
    ensures
        bytes_in(preview_of(raw).0) <= MAX_FORMATTED_BODY_BYTES,
{
    let source = fitting_prefix(raw, MAX_DISPLAY_SOURCE_BYTES as nat);
    the_fitting_prefix_is_the_longest(raw, MAX_DISPLAY_SOURCE_BYTES as nat);
    if parsed_json(source) is Some && !source.contains('\n') {
        formatting_stays_within_the_budget(source, MAX_FORMATTED_BODY_BYTES as nat);
    }
}

impl TurnError {
    pub fn new(error: GatewayError) -> (card: Self)
        ensures
            card.deep_view() == card_of(error.deep_view()),
    {
        let mut error = error;
        let (kind, status) = error.kind_and_status();
        let (code, request_id) = error.code_and_request();
        match error.take_upstream_body() {
            None => TurnError {
                kind,
                status,
                code,
                request_id,
                raw_body: None,
                markdown: None,
                collapsible: false,
                preview_truncated: false,
            },
            Some(raw) => {
                let (source, source_truncated) = truncate_utf8(
                    raw.as_str(),
                    MAX_DISPLAY_SOURCE_BYTES,
                );
                let (display, format_truncated) = pretty_json(
                    source.as_str(),
                    MAX_FORMATTED_BODY_BYTES,
                );
                let collapsible = count_lines(display.as_str()) > COLLAPSE_LINE_THRESHOLD
                    || byte_len(display.as_str()) > COLLAPSE_BYTE_THRESHOLD;
                let markdown = fenced_block(display.as_str(), language_tag(source.as_str()));
                TurnError {
                    kind,
                    status,
                    code,
                    request_id,
                    raw_body: Some(raw),
                    markdown: Some(markdown),
                    collapsible,
                    preview_truncated: source_truncated || format_truncated,
                }
            },
        }
    }

    /// Whether a card has a preview to draw again, when the theme changes.
    pub fn refresh_highlight(&self) -> (yes: bool)
        ensures
            yes == self.deep_view().markdown.is_some(),
    {
        self.markdown.is_some()
    }

    pub fn request_id(&self) -> (id: Option<String>)
        ensures
            id.deep_view() == self.deep_view().request_id,
    {
        self.request_id.clone()
    }
}

/// The sentence above a card follows from what failed: a request that was refused is told by its
/// status, where there is one.
pub proof fn headlines_say_what_failed(kind: ErrorKind, status: u16, any: Option<u16>)
    ensures
        headline_of(ErrorKind::Http, Some(status)) == Headline::Http(status),
        headline_of(ErrorKind::Http, None) == Headline::Provider,
        kind == ErrorKind::Configuration <==> headline_of(kind, any) == Headline::Configuration,
        kind == ErrorKind::Transport <==> headline_of(kind, any) == Headline::Connection,
        kind == ErrorKind::Protocol <==> headline_of(kind, any) == Headline::Interrupted,
        kind == ErrorKind::Provider ==> headline_of(kind, any) == Headline::Provider,
{
}

/// Whether a text is made of backticks.
pub open spec fn only_ticks(text: Seq<char>) -> bool {
    forall|i: int| 0 <= i < text.len() ==> #[trigger] text[i] == '`'
}

/// A block is its body, as it is, on lines of its own between two fences of three or more
/// backticks, the first with the language behind it.
pub proof fn blocks_hold_their_body(body: Seq<char>, lang: Option<Seq<char>>)
    ensures
        ({
            let fence = fence_of(body);
            let tag = if lang is Some {
                lang->0
            } else {
                Seq::empty()
            };
            &&& fence.len() >= 3
            &&& only_ticks(fence)
            &&& block_of(body, lang) == fence + tag + seq!['\n'] + body + seq!['\n'] + fence
        }),
{
    let fence = fence_of(body);
    let tag = if lang is Some {
        lang->0
    } else {
        Seq::empty()
    };
    assert(block_of(body, lang) =~= fence + tag + seq!['\n'] + body + seq!['\n'] + fence);
}

/// Whether a run of backticks of a length stands at a place before `end`.
pub open spec fn runs_at(text: Seq<char>, end: int, at: int, n: nat) -> bool {
    &&& 0 <= at
    &&& at + n <= end
    &&& forall|i: int| at <= i < at + n ==> #[trigger] text[i] == '`'
}

/// A fence of more than three backticks is one longer than a run of them in the body.
pub proof fn fences_are_no_longer_than_needed(body: Seq<char>)
    ensures
        fence_of(body).len() > 3 ==> exists|at: int| #[trigger]
            runs_at(body, body.len() as int, at, (fence_of(body).len() - 1) as nat),
{
    assert(runs_at(body, 0, 0, 0));
    let at = lemma_run_exists(body, 0, 0, 0, 0);
    if fence_of(body).len() > 3 {
        assert(runs_at(body, body.len() as int, at, (fence_of(body).len() - 1) as nat));
    }
}

proof fn lemma_run_exists(text: Seq<char>, start: int, run: nat, best: nat, at: int) -> (found: int)
    requires
        start <= text.len(),
        runs_at(text, start, start - run, run),
        runs_at(text, start, at, best),
    ensures
        runs_at(text, text.len() as int, found, longest_run(text, start, run, best)),
    decreases text.len() - start,
{
    let longest = if run > best {
        run
    } else {
        best
    };
    let place = if run > best {
        start - run
    } else {
        at
    };
    if start < text.len() {
        if text[start] == '`' {
            lemma_run_exists(text, start + 1, run + 1, longest, place)
        } else {
            lemma_run_exists(text, start + 1, 0, longest, place)
        }
    } else {
        place
    }
}

/// A line break and two spaces for every value that is open.
pub open spec fn indentation(depth: nat) -> Seq<char> {
    Seq::new(2 * depth + 1, |i: int| if i == 0 { '\n' } else { ' ' })
}

/// Where there is room, text is laid out value by value: an opened value goes on a deeper line, a
/// closed one back on an outer line, a comma ends a line, a colon is followed by a space, empty
/// values stay together, and the white space between tokens goes. Strings stay as they are.
pub proof fn values_are_laid_out_in_lines(p: Printer, c: char, next: Option<char>)
    requires
        !p.in_string,
        c as u32 <= 0x7f,
    ensures
        ({
            let room = bytes_in(p.out) + 2 * p.depth + 5;
            let (after, full, skip) = printed_char(p, c, next, room);
            let closer = if c == '{' {
                '}'
            } else {
                ']'
            };
            let opens = c == '{' || c == '[';
            let closes = c == '}' || c == ']';
            &&& !full
            &&& skip <==> opens && next == Some(closer)
            &&& opens && skip ==> after.out == p.out + seq![c, closer] && after.depth == p.depth
            &&& opens && !skip ==> after.out == p.out + seq![c] + indentation(p.depth + 1)
                && after.depth == p.depth + 1
            &&& closes && p.depth > 0 ==> after.out == p.out + indentation((p.depth - 1) as nat)
                + seq![c] && after.depth == p.depth - 1
            &&& c == ',' ==> after.out == p.out + seq![c] + indentation(p.depth) && after.depth
                == p.depth
            &&& c == ':' ==> after.out == p.out + seq![':', ' '] && after.depth == p.depth
            &&& c == ' ' || c == '\t' || c == '\n' || c == '\r' ==> after == p
            &&& c == '"' ==> after.in_string && after.out == p.out.push(c) && after.depth
                == p.depth
            &&& c != '"' ==> !after.in_string
            &&& '0' <= c <= '9' || 'a' <= c <= 'z' || c == '-' || c == '.' ==> after.out
                == p.out.push(c) && after.depth == p.depth
        }),
{
    let room = bytes_in(p.out) + 2 * p.depth + 5;
    lemma_bytes_push(p.out, c);
    lemma_new_line_bytes(p.depth, None);
    lemma_new_line_bytes(p.depth + 1, None);
    lemma_colon_bytes();
    lemma_one_byte(c);
    lemma_one_byte(']');
    lemma_one_byte('}');
    assert(new_line(p.depth, None) =~= indentation(p.depth));
    assert(new_line(p.depth + 1, None) =~= indentation(p.depth + 1));
    if p.depth > 0 {
        let outer = (p.depth - 1) as nat;
        lemma_new_line_bytes(outer, Some(c));
        assert(new_line(outer, Some(c)) =~= indentation(outer) + seq![c]);
        assert(p.out + new_line(outer, Some(c)) =~= p.out + indentation(outer) + seq![c]);
    } else {
        lemma_new_line_bytes(0, Some(c));
    }
    assert(p.out.push(c) =~= p.out + seq![c]);
    let closer = if c == '{' {
        '}'
    } else {
        ']'
    };
    assert(p.out.push(c) + seq![closer] =~= p.out + seq![c, closer]);
}

/// Text that is no JSON, and JSON that has lines already, is shown as it is.
pub proof fn other_texts_stay_as_they_are(body: Seq<char>, budget: nat, i: int)
    ensures
        parsed_json(body) is None ==> pretty(body, budget) == (body, false),
        0 <= i < body.len() && body[i] == '\n' ==> pretty(body, budget) == (body, false),
        parsed_json(body) is Some ==> tag_of(body) == Some("json"@),
        parsed_json(body) is None ==> tag_of(body) is None,
{
}

/// A card shows what failed, with the code and the request. Its preview says what the captured
/// text says, from its beginning, and is collapsed where it has more than sixteen lines or more
/// than four thousand and ninety-six bytes. Where the preview is not cut, it says all of it.
pub proof fn cards_show_the_error(error: GatewayErrorModel)
    ensures
        ({
            let card = card_of(error);
            &&& card.kind == error.kind
            &&& card.status == error.status
            &&& card.code == error.provider_code
            &&& card.request_id == error.request_id
            &&& card.raw_body == error.upstream_body
            &&& error.upstream_body is None ==> !card.collapsible && !card.preview_truncated
                && card.markdown is None
            &&& error.upstream_body is Some ==> {
                let raw = error.upstream_body->0;
                exists|display: Seq<char>, lang: Option<Seq<char>>|
                    {
                        &&& card.markdown == Some(#[trigger] block_of(display, lang))
                        &&& card.collapsible <==> line_count(display) > 16 || bytes_in(display)
                            > 4096
                        &&& !card.preview_truncated ==> said(display).0 == said(raw).0
                        &&& bytes_in(raw) > 32768 ==> card.preview_truncated
                        &&& bytes_in(raw) <= 32768 ==> said(display).0.is_prefix_of(said(raw).0)
                        &&& lang is Some ==> lang == Some("json"@)
                    }
            }
        }),
{
    if error.upstream_body is Some {
        let raw = error.upstream_body->0;
        let source = fitting_prefix(raw, MAX_DISPLAY_SOURCE_BYTES as nat);
        let (display, cut) = preview_of(raw);
        the_fitting_prefix_is_the_longest(raw, MAX_DISPLAY_SOURCE_BYTES as nat);
        formatting_keeps_the_content(source, MAX_FORMATTED_BODY_BYTES as nat);
        let lang = tag_of(source);
        assert(card_of(error).markdown == Some(block_of(display, lang)));
    }
}

} // verus!
