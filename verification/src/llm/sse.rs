//! Server-sent events: frames out of a stream of bytes.

use vstd::prelude::*;
use vstd::utf8::{decode_utf8, valid_utf8};

use crate::llm::error::{protocol_error, GatewayError, GatewayErrorModel};
use crate::llm::protocol::result_model;
use crate::text::{
    join, join_texts, lemma_without_trailing, lines_of, split_lines, strip_prefix, text_of_bytes,
    trim_trailing, without_prefix, without_trailing,
};

verus! {

broadcast use crate::deep::group_models;

/// The size of an event that a stream may not exceed.
pub const DEFAULT_MAX_SSE_EVENT_BYTES: usize = 1048576;

/// Whether two empty-line endings `\r\n` stand at `i`.
pub open spec fn crlf_boundary(bytes: Seq<u8>, i: int) -> bool {
    &&& i + 4 <= bytes.len()
    &&& bytes[i] == 13
    &&& bytes[i + 1] == 10
    &&& bytes[i + 2] == 13
    &&& bytes[i + 3] == 10
}

/// Whether two line feeds stand at `i`.
pub open spec fn lf_boundary(bytes: Seq<u8>, i: int) -> bool {
    &&& i + 2 <= bytes.len()
    &&& bytes[i] == 10
    &&& bytes[i + 1] == 10
}

/// Where the first event ends, from `start` on, and how long its end mark is.
pub open spec fn boundary_from(bytes: Seq<u8>, start: int) -> Option<(int, int)>
    decreases bytes.len() - start,
{
    if start < 0 || start + 1 >= bytes.len() {
        None
    } else if crlf_boundary(bytes, start) {
        Some((start, 4))
    } else if lf_boundary(bytes, start) {
        Some((start, 2))
    } else {
        boundary_from(bytes, start + 1)
    }
}

/// Where the first event ends, and how long its end mark is.
pub open spec fn boundary(bytes: Seq<u8>) -> Option<(int, int)> {
    boundary_from(bytes, 0)
}

/// An end mark stands where it is found, within the bytes.
pub proof fn lemma_boundary_bounds(bytes: Seq<u8>, start: int)
    requires
        0 <= start,
    ensures
        match boundary_from(bytes, start) {
            Some((end, mark)) => start <= end && 2 <= mark <= 4 && end + mark <= bytes.len(),
            None => true,
        },
    decreases bytes.len() - start,
{
    if start + 1 < bytes.len() && !crlf_boundary(bytes, start) && !lf_boundary(bytes, start) {
        lemma_boundary_bounds(bytes, start + 1);
    }
}

/// A boundary that is there stays the first one when more bytes come in.
proof fn lemma_boundary_stays(bytes: Seq<u8>, more: Seq<u8>, start: int)
    requires
        0 <= start,
        boundary_from(bytes, start) is Some,
    ensures
        boundary_from(bytes + more, start) == boundary_from(bytes, start),
    decreases bytes.len() - start,
{
    let all = bytes + more;
    if crlf_boundary(bytes, start) {
        assert(crlf_boundary(all, start));
    } else if lf_boundary(bytes, start) {
        assert(lf_boundary(all, start));
        assert(!crlf_boundary(all, start));
    } else {
        lemma_boundary_bounds(bytes, start + 1);
        lemma_boundary_stays(bytes, more, start + 1);
        assert(!lf_boundary(all, start)) by {
            assert(all[start] == bytes[start]);
            assert(all[start + 1] == bytes[start + 1]);
        }
        if crlf_boundary(all, start) {
            // The end mark would reach beyond `bytes`, and so leave no room for another one.
            lemma_no_boundary_inside(bytes, more, start);
        }
    }
}

proof fn lemma_no_boundary_inside(bytes: Seq<u8>, more: Seq<u8>, start: int)
    requires
        0 <= start,
        crlf_boundary(bytes + more, start),
        !crlf_boundary(bytes, start),
    ensures
        boundary_from(bytes, start + 1) is None,
{
    let all = bytes + more;
    if start + 4 <= bytes.len() {
        assert(bytes[start] == all[start]);
        assert(bytes[start + 1] == all[start + 1]);
        assert(bytes[start + 2] == all[start + 2]);
        assert(bytes[start + 3] == all[start + 3]);
    }
    assert(bytes.len() < start + 4);
    if start + 2 < bytes.len() {
        assert(bytes[start + 1] == all[start + 1]);
        assert(bytes[start + 2] == all[start + 2]);
        assert(!lf_boundary(bytes, start + 1));
        assert(boundary_from(bytes, start + 2) is None);
    }
}

pub fn find_event_boundary(bytes: &[u8]) -> (found: Option<(usize, usize)>)
    ensures
        match found {
            Some((end, mark)) => boundary(bytes@) == Some((end as int, mark as int)),
            None => boundary(bytes@) is None,
        },
{
    let count = bytes.len();
    let mut i: usize = 0;
    while count >= 2 && i < count - 1
        invariant
            count == bytes@.len(),
            i <= count,
            boundary(bytes@) == boundary_from(bytes@, i as int),
        decreases count - i,
    {
        if count - i >= 4 && bytes[i] == 13 && bytes[i + 1] == 10 && bytes[i + 2] == 13 && bytes[i
            + 3] == 10 {
            return Some((i, 4));
        }
        if bytes[i] == 10 && bytes[i + 1] == 10 {
            return Some((i, 2));
        }
        i += 1;
    }
    None
}

/// The value of a line of data, without the one space that may stand before it. Other lines,
/// comments among them, have none.
pub open spec fn data_of_line(line: Seq<char>) -> Option<Seq<char>> {
    match without_prefix(without_trailing(line, '\r'), "data:"@) {
        Some(value) => match without_prefix(value, " "@) {
            Some(rest) => Some(rest),
            None => Some(value),
        },
        None => None,
    }
}

/// The data of the lines from position `start` on.
pub open spec fn data_lines(lines: Seq<Seq<char>>, start: int) -> Seq<Seq<char>>
    decreases lines.len() - start,
{
    if start < 0 || start >= lines.len() {
        Seq::empty()
    } else {
        match data_of_line(lines[start]) {
            Some(value) => seq![value] + data_lines(lines, start + 1),
            None => data_lines(lines, start + 1),
        }
    }
}

/// The data of an event, if it has any: its lines of data joined by line feeds.
#[verifier::opaque]
pub open spec fn decoded_frame(frame: Seq<u8>) -> Result<Option<Seq<char>>, GatewayErrorModel> {
    if !valid_utf8(frame) {
        Err(protocol_error("SSE event contains invalid UTF-8"@))
    } else {
        let data = data_lines(lines_of(decode_utf8(frame)), 0);
        if data.len() == 0 {
            Ok(None)
        } else {
            Ok(Some(join_texts(data, "\n"@)))
        }
    }
}

fn line_data(line: &str) -> (value: Option<String>)
    ensures
        value.deep_view() == data_of_line(line@),
{
    match strip_prefix(trim_trailing(line, '\r').as_str(), "data:") {
        Some(value) => match strip_prefix(value.as_str(), " ") {
            Some(rest) => Some(rest),
            None => Some(value),
        },
        None => None,
    }
}

pub fn decode_frame(frame: &[u8]) -> (result: Result<Option<String>, GatewayError>)
    ensures
        result_model(result) == decoded_frame(frame@),
{
    reveal(decoded_frame);
    let text = match text_of_bytes(frame) {
        Some(text) => text,
        None => {
            return Err(GatewayError::protocol("SSE event contains invalid UTF-8"));
        },
    };
    let lines = split_lines(text.as_str());
    let ghost all = data_lines(lines.deep_view(), 0);
    let mut data: Vec<String> = Vec::new();
    let mut i: usize = 0;
    proof {
        assert(Seq::<Seq<char>>::empty() + all =~= all);
    }
    while i < lines.len()
        invariant
            i <= lines.len(),
            data.deep_view() + data_lines(lines.deep_view(), i as int) == all,
        decreases lines.len() - i,
    {
        let ghost before = data.deep_view();
        proof {
            assert(lines.deep_view()[i as int] == lines@[i as int]@);
        }
        match line_data(lines[i].as_str()) {
            Some(value) => {
                let ghost model = value@;
                data.push(value);
                proof {
                    let rest = data_lines(lines.deep_view(), i + 1);
                    assert(before + (seq![model] + rest) =~= before.push(model) + rest);
                }
            },
            None => {},
        }
        i += 1;
    }
    proof {
        assert(data.deep_view() =~= all);
    }
    if data.len() == 0 {
        Ok(None)
    } else {
        Ok(Some(join(&data, "\n")))
    }
}

/// What is left of a buffer once its complete events are taken out, and their data after that of
/// `events`. An event must not exceed `limit` bytes, complete or not.
pub open spec fn drained(buffer: Seq<u8>, limit: nat, events: Seq<Seq<char>>) -> (
    Seq<u8>,
    Result<Seq<Seq<char>>, GatewayErrorModel>,
)
    decreases buffer.len(),
{
    match boundary(buffer) {
        Some((end, mark)) => if end > limit {
            (buffer, Err(protocol_error("SSE event exceeds configured size limit"@)))
        } else {
            proof {
                lemma_boundary_bounds(buffer, 0);
            }
            let rest = buffer.skip(end + mark);
            match decoded_frame(buffer.take(end)) {
                Err(error) => (rest, Err(error)),
                Ok(None) => drained(rest, limit, events),
                Ok(Some(data)) => drained(rest, limit, events.push(data)),
            }
        },
        None => if buffer.len() > limit {
            (buffer, Err(protocol_error("SSE event exceeds configured size limit"@)))
        } else {
            (buffer, Ok(events))
        },
    }
}

/// It does not matter how a stream is cut into pieces: what a piece leaves behind, and the events
/// that it brought, go on with the next piece as if both had come at once.
pub proof fn cutting_a_stream_changes_nothing(
    buffer: Seq<u8>,
    more: Seq<u8>,
    limit: nat,
    events: Seq<Seq<char>>,
)
    requires
        drained(buffer, limit, events).1 is Ok,
    ensures
        drained(buffer + more, limit, events) == drained(
            drained(buffer, limit, events).0 + more,
            limit,
            drained(buffer, limit, events).1->Ok_0,
        ),
    decreases buffer.len(),
{
    match boundary(buffer) {
        Some((end, mark)) => {
            lemma_boundary_bounds(buffer, 0);
            lemma_boundary_stays(buffer, more, 0);
            let rest = buffer.skip(end + mark);
            assert((buffer + more).skip(end + mark) =~= rest + more);
            assert((buffer + more).take(end) =~= buffer.take(end));
            match decoded_frame(buffer.take(end)) {
                Err(_) => {},
                Ok(None) => {
                    cutting_a_stream_changes_nothing(rest, more, limit, events);
                },
                Ok(Some(data)) => {
                    cutting_a_stream_changes_nothing(rest, more, limit, events.push(data));
                },
            }
        },
        None => {},
    }
}

/// What stays in the buffer between two pieces of a stream never exceeds the limit.
pub proof fn the_buffer_stays_within_the_limit(
    buffer: Seq<u8>,
    limit: nat,
    events: Seq<Seq<char>>,
)
    requires
        drained(buffer, limit, events).1 is Ok,
    ensures
        drained(buffer, limit, events).0.len() <= limit,
    decreases buffer.len(),
{
    match boundary(buffer) {
        Some((end, mark)) => {
            lemma_boundary_bounds(buffer, 0);
            let rest = buffer.skip(end + mark);
            match decoded_frame(buffer.take(end)) {
                Err(_) => {},
                Ok(None) => {
                    the_buffer_stays_within_the_limit(rest, limit, events);
                },
                Ok(Some(data)) => {
                    the_buffer_stays_within_the_limit(rest, limit, events.push(data));
                },
            }
        },
        None => {},
    }
}

/// The bytes of a stream that make no complete event yet.
#[derive(Debug)]
pub struct SseDecoder {
    pub buffer: Vec<u8>,
    pub max_event_bytes: usize,
}

impl SseDecoder {
    pub fn new(max_event_bytes: usize) -> (decoder: Self)
        ensures
            decoder.buffer@ == Seq::<u8>::empty(),
            decoder.max_event_bytes == max_event_bytes,
    {
        SseDecoder { buffer: Vec::new(), max_event_bytes }
    }

    /// Takes in more bytes and gives the data of the events that they complete.
    pub fn push(&mut self, bytes: &[u8]) -> (result: Result<Vec<String>, GatewayError>)
        ensures
            (final(self).buffer@, result_model(result)) == drained(
                old(self).buffer@ + bytes@,
                old(self).max_event_bytes as nat,
                Seq::empty(),
            ),
            final(self).max_event_bytes == old(self).max_event_bytes,
    {
        let ghost whole = drained(
            self.buffer@ + bytes@,
            self.max_event_bytes as nat,
            Seq::empty(),
        );
        let mut k: usize = 0;
        proof {
            assert(self.buffer@ + bytes@.take(0) =~= self.buffer@);
        }
        while k < bytes.len()
            invariant
                k <= bytes@.len(),
                self.buffer@ == old(self).buffer@ + bytes@.take(k as int),
                self.max_event_bytes == old(self).max_event_bytes,
            decreases bytes@.len() - k,
        {
            self.buffer.push(bytes[k]);
            k += 1;
            proof {
                assert(old(self).buffer@ + bytes@.take(k as int) =~= (old(self).buffer@
                    + bytes@.take(k - 1)).push(bytes@[k - 1]));
            }
        }
        proof {
            assert(bytes@.take(k as int) =~= bytes@);
        }
        let limit = self.max_event_bytes;
        let mut events: Vec<String> = Vec::new();
        loop
            invariant
                whole == drained(
                    old(self).buffer@ + bytes@,
                    old(self).max_event_bytes as nat,
                    Seq::empty(),
                ),
                whole == drained(self.buffer@, limit as nat, events.deep_view()),
                limit == self.max_event_bytes,
                limit == old(self).max_event_bytes,
            decreases self.buffer@.len(),
        {
            let (end, mark) = match find_event_boundary(self.buffer.as_slice()) {
                Some(found) => found,
                None => {
                    if self.buffer.len() > limit {
                        return Err(
                            GatewayError::protocol("SSE event exceeds configured size limit"),
                        );
                    }
                    return Ok(events);
                },
            };
            proof {
                lemma_boundary_bounds(self.buffer@, 0);
            }
            if end > limit {
                return Err(GatewayError::protocol("SSE event exceeds configured size limit"));
            }
            let ghost before = self.buffer@;
            let total = self.buffer.len();
            proof {
                assert(end + mark <= total);
            }
            let rest = self.buffer.split_off(end + mark);
            self.buffer.truncate(end);
            proof {
                assert(self.buffer@ =~= before.take(end as int));
                assert(rest@ =~= before.skip(end + mark));
            }
            let decoded = decode_frame(self.buffer.as_slice());
            self.buffer = rest;
            match decoded {
                Ok(Some(data)) => {
                    events.push(data);
                },
                Ok(None) => {},
                Err(error) => {
                    return Err(error);
                },
            }
        }
    }

    /// The stream is over: what is left counts as one more event.
    pub fn finish(&mut self) -> (result: Result<Vec<String>, GatewayError>)
        ensures
            final(self).buffer@ == Seq::<u8>::empty(),
            final(self).max_event_bytes == old(self).max_event_bytes,
            result_model(result) == last_event(old(self).buffer@),
    {
        if self.buffer.len() == 0 {
            return Ok(Vec::new());
        }
        let mut frame: Vec<u8> = Vec::new();
        std::mem::swap(&mut frame, &mut self.buffer);
        let mut events: Vec<String> = Vec::new();
        match decode_frame(frame.as_slice()) {
            Ok(Some(data)) => {
                let ghost model = data@;
                events.push(data);
                proof {
                    assert(events.deep_view() =~= seq![model]);
                }
                Ok(events)
            },
            Ok(None) => Ok(events),
            Err(error) => Err(error),
        }
    }
}

/// The event that the bytes left at the end of a stream amount to, if they do.
pub open spec fn last_event(buffer: Seq<u8>) -> Result<Seq<Seq<char>>, GatewayErrorModel> {
    if buffer.len() == 0 {
        Ok(Seq::empty())
    } else {
        match decoded_frame(buffer) {
            Ok(Some(data)) => Ok(seq![data]),
            Ok(None) => Ok(Seq::empty()),
            Err(error) => Err(error),
        }
    }
}

/// A line of data gives what stands behind its colon, without one space there and without the
/// carriage returns at its end. Another line gives nothing.
pub proof fn data_lines_give_their_data(value: Seq<char>, line: Seq<char>)
    requires
        value.len() > 0 ==> value.last() != '\r',
    ensures
        data_of_line("data: "@ + value) == Some(value),
        data_of_line(("data: "@ + value).push('\r')) == Some(value),
        value.len() > 0 && value[0] != ' ' ==> data_of_line("data:"@ + value) == Some(value),
        line.len() > 0 && line[0] != 'd' ==> data_of_line(line) is None,
        line.len() > 4 && line[4] != ':' ==> data_of_line(line) is None,
        line.len() == 0 ==> data_of_line(line) is None,
{
    reveal_strlit("data: ");
    reveal_strlit("data:");
    reveal_strlit(" ");
    let spaced = "data: "@ + value;
    assert(spaced.push('\r').drop_last() =~= spaced);
    assert(without_trailing(spaced, '\r') == spaced);
    assert(without_trailing(spaced.push('\r'), '\r') == spaced);
    assert("data:"@.is_prefix_of(spaced));
    assert(spaced.skip(5) =~= " "@ + value);
    assert(" "@.is_prefix_of(spaced.skip(5)));
    assert(spaced.skip(5).skip(1) =~= value);
    let plain = "data:"@ + value;
    assert("data:"@.is_prefix_of(plain));
    assert(plain.skip(5) =~= value);
    if value.len() > 0 {
        assert(plain.last() == value.last());
        assert(" "@[0] == ' ');
        assert(value[0] != ' ' ==> !" "@.is_prefix_of(value));
    }
    lemma_without_trailing(line, '\r');
    let cut = without_trailing(line, '\r');
    if "data:"@.is_prefix_of(cut) {
        let name = cut.subrange(0, 5);
        assert("data:"@ == name);
        assert(name[0] == 'd' && name[4] == ':');
        assert(cut[0] == name[0] && cut[4] == name[4]);
        assert(line[0] == cut[0] && line[4] == cut[4]);
    }
}

/// The data of lines cut in two are those of the two, one after the other.
pub proof fn data_come_in_order(first: Seq<Seq<char>>, second: Seq<Seq<char>>, line: Seq<char>)
    ensures
        data_lines(first + second, 0) == data_lines(first, 0) + data_lines(second, 0),
        data_lines(seq![line], 0) == match data_of_line(line) {
            Some(value) => seq![value],
            None => Seq::empty(),
        },
{
    lemma_data_cut(first, second, 0);
    lemma_data_of_rest(first, second, 0);
    reveal_with_fuel(data_lines, 2);
}

proof fn lemma_data_cut(first: Seq<Seq<char>>, second: Seq<Seq<char>>, start: int)
    requires
        0 <= start <= first.len(),
    ensures
        data_lines(first + second, start) == data_lines(first, start) + data_lines(
            first + second,
            first.len() as int,
        ),
    decreases first.len() - start,
{
    let rest = data_lines(first + second, first.len() as int);
    if start < first.len() {
        lemma_data_cut(first, second, start + 1);
        assert((first + second)[start] == first[start]);
        assert(data_lines(first + second, start) =~= data_lines(first, start) + rest);
    } else {
        assert(data_lines(first + second, start) =~= Seq::<Seq<char>>::empty() + rest);
    }
}

proof fn lemma_data_of_rest(first: Seq<Seq<char>>, second: Seq<Seq<char>>, start: int)
    requires
        0 <= start <= second.len(),
    ensures
        data_lines(first + second, first.len() + start) == data_lines(second, start),
    decreases second.len() - start,
{
    if start < second.len() {
        lemma_data_of_rest(first, second, start + 1);
        assert((first + second)[first.len() + start] == second[start]);
    }
}

/// An event is what its lines of data say, one to a line; an event without data is none.
pub proof fn events_say_their_data(frame: Seq<u8>)
    requires
        valid_utf8(frame),
    ensures
        ({
            let data = data_lines(lines_of(decode_utf8(frame)), 0);
            decoded_frame(frame) == if data.len() == 0 {
                Ok::<Option<Seq<char>>, GatewayErrorModel>(None)
            } else {
                Ok::<Option<Seq<char>>, GatewayErrorModel>(Some(join_texts(data, seq!['\n'])))
            }
        }),
{
    reveal(decoded_frame);
    reveal_strlit("\n");
    assert("\n"@ =~= seq!['\n']);
}

/// Whether an empty line starts at a place.
pub open spec fn breaks_at(bytes: Seq<u8>, i: int) -> bool {
    ||| 0 <= i && i + 1 < bytes.len() && bytes[i] == 10 && bytes[i + 1] == 10
    ||| 0 <= i && i + 3 < bytes.len() && bytes[i] == 13 && bytes[i + 1] == 10 && bytes[i + 2] == 13
        && bytes[i + 3] == 10
}

/// Whether an event ends before a place at the earliest.
pub open spec fn unbroken(bytes: Seq<u8>, end: int) -> bool {
    forall|i: int| 0 <= i < end ==> !#[trigger] breaks_at(bytes, i)
}

/// The bytes up to the first empty line are an event, and what follows is read on its own. An
/// event that is too long, and one that is no text, is an error.
pub proof fn empty_lines_end_events(
    frame: Seq<u8>,
    mark: Seq<u8>,
    rest: Seq<u8>,
    limit: nat,
    events: Seq<Seq<char>>,
)
    requires
        mark == seq![10u8, 10u8] || mark == seq![13u8, 10u8, 13u8, 10u8],
        unbroken(frame + mark + rest, frame.len() as int),
    ensures
        frame.len() <= limit ==> match decoded_frame(frame) {
            Ok(Some(data)) => drained(frame + mark + rest, limit, events) == drained(
                rest,
                limit,
                events.push(data),
            ),
            Ok(None) => drained(frame + mark + rest, limit, events) == drained(
                rest,
                limit,
                events,
            ),
            Err(error) => drained(frame + mark + rest, limit, events) == (
                rest,
                Err::<Seq<Seq<char>>, GatewayErrorModel>(error),
            ),
        },
        frame.len() > limit ==> drained(frame + mark + rest, limit, events).1 is Err,
{
    let all = frame + mark + rest;
    let end = frame.len() as int;
    assert(breaks_at(all, end)) by {
        if mark == seq![10u8, 10u8] {
            assert(all[end] == 10 && all[end + 1] == 10);
        } else {
            assert(all[end] == 13 && all[end + 1] == 10 && all[end + 2] == 13 && all[end + 3]
                == 10);
        }
    }
    lemma_boundary_at(all, 0, end);
    assert(all[end] == mark[0]);
    assert(boundary(all) == Some((end, mark.len() as int)));
    assert(all.take(end) =~= frame);
    assert(all.skip(end + mark.len()) =~= rest);
}

proof fn lemma_boundary_at(bytes: Seq<u8>, start: int, end: int)
    requires
        0 <= start <= end,
        breaks_at(bytes, end),
        forall|i: int| start <= i < end ==> !#[trigger] breaks_at(bytes, i),
    ensures
        boundary_from(bytes, start) == Some((end, if bytes[end] == 13 { 4int } else { 2int })),
    decreases end - start,
{
    if start < end {
        assert(!breaks_at(bytes, start));
        lemma_boundary_at(bytes, start + 1, end);
    }
}

/// Bytes without an empty line wait for more, as long as they are not too many.
pub proof fn open_events_wait(buffer: Seq<u8>, limit: nat, events: Seq<Seq<char>>)
    requires
        unbroken(buffer, buffer.len() as int),
    ensures
        drained(buffer, limit, events) == (
            buffer,
            if buffer.len() <= limit {
                Ok::<Seq<Seq<char>>, GatewayErrorModel>(events)
            } else {
                Err::<Seq<Seq<char>>, GatewayErrorModel>(
                    protocol_error("SSE event exceeds configured size limit"@),
                )
            },
        ),
{
    lemma_no_boundary(buffer, 0);
}

proof fn lemma_no_boundary(bytes: Seq<u8>, start: int)
    requires
        0 <= start,
        forall|i: int| start <= i < bytes.len() ==> !#[trigger] breaks_at(bytes, i),
    ensures
        boundary_from(bytes, start) is None,
    decreases bytes.len() - start,
{
    if start + 1 < bytes.len() {
        assert(!breaks_at(bytes, start));
        lemma_no_boundary(bytes, start + 1);
    }
}

} // verus!
