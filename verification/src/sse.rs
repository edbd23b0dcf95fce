//! Server-sent events: the decoder for streams and the frames that are sent.

use crate::json::{print_json, printed, Json, JsonView};
use crate::text::{
    chars_of, find_char, first_pos, join, joined, lemma_first_pos, lemma_first_pos_is, pieces,
    split_pair, text_between, text_eq, texts, trim, trim_end, trimmed, whitespace,
};
use vstd::prelude::*;
use vstd::slice::{slice_subrange, slice_to_vec};
use vstd::string::*;
use vstd::utf8::*;

verus! {

/// One event of a stream.
#[derive(Debug)]
pub struct SseEvent {
    pub event: String,
    pub data: String,
}

/// The contents of an event.
pub struct EventView {
    pub event: Seq<char>,
    pub data: Seq<char>,
}

impl View for SseEvent {
    type V = EventView;

    open spec fn view(&self) -> EventView {
        EventView { event: self.event@, data: self.data@ }
    }
}

impl Clone for SseEvent {
    fn clone(&self) -> (copy: Self)
        ensures
            copy@ == self@,
    {
        SseEvent { event: self.event.clone(), data: self.data.clone() }
    }
}

/// The contents of a list of events.
pub open spec fn event_views(events: Seq<SseEvent>) -> Seq<EventView> {
    events.map_values(|event: SseEvent| event@)
}

/// Whether an empty line with `\n` line ends follows at `at`.
pub open spec fn lf_at(bytes: Seq<u8>, at: int) -> bool {
    0 <= at && at + 1 < bytes.len() && bytes[at] == 10 && bytes[at + 1] == 10
}

/// Whether an empty line with `\r\n` line ends follows at `at`.
pub open spec fn crlf_at(bytes: Seq<u8>, at: int) -> bool {
    0 <= at && at + 3 < bytes.len() && bytes[at] == 13 && bytes[at + 1] == 10 && bytes[at + 2] == 13
        && bytes[at + 3] == 10
}

/// The first position from `from` on where a block ends; the length of `bytes` if there is none.
pub open spec fn block_end(bytes: Seq<u8>, from: int) -> int
    decreases bytes.len() - from,
{
    if from >= bytes.len() {
        bytes.len() as int
    } else if lf_at(bytes, from) || crlf_at(bytes, from) {
        from
    } else {
        block_end(bytes, from + 1)
    }
}

/// The length of the separator that ends a block at `at`.
pub open spec fn separator_len(bytes: Seq<u8>, at: int) -> int {
    if lf_at(bytes, at) {
        2
    } else {
        4
    }
}

/// The complete blocks at the start of `bytes`, without their separators.
pub open spec fn blocks(bytes: Seq<u8>) -> Seq<Seq<u8>>
    decreases bytes.len(),
{
    let at = block_end(bytes, 0);
    if at < bytes.len() {
        proof {
            lemma_block_end(bytes, 0);
        }
        seq![bytes.take(at)] + blocks(bytes.skip(at + separator_len(bytes, at)))
    } else {
        Seq::empty()
    }
}

/// What follows the complete blocks of `bytes`.
pub open spec fn leftover(bytes: Seq<u8>) -> Seq<u8>
    decreases bytes.len(),
{
    let at = block_end(bytes, 0);
    if at < bytes.len() {
        proof {
            lemma_block_end(bytes, 0);
        }
        leftover(bytes.skip(at + separator_len(bytes, at)))
    } else {
        bytes
    }
}

/// What `String::from_utf8_lossy` makes of bytes that are not UTF-8.
pub uninterp spec fn lossy(bytes: Seq<u8>) -> Seq<char>;

/// Calls `String::from_utf8_lossy`. The contract says that bytes that are UTF-8 are decoded as such,
/// and that the text for any others depends on the bytes alone.
#[verifier::external_body]
fn lossy_text(bytes: &[u8]) -> (text: String)
    ensures
        valid_utf8(bytes@) ==> text@ == decode_utf8(bytes@),
        !valid_utf8(bytes@) ==> text@ == lossy(bytes@),
{
    String::from_utf8_lossy(bytes).into_owned()
}

/// The text that bytes are read as.
pub open spec fn text_of(bytes: Seq<u8>) -> Seq<char> {
    if valid_utf8(bytes) {
        decode_utf8(bytes)
    } else {
        lossy(bytes)
    }
}

/// What the lines of a block have said so far: the name of the event and the lines of its data.
pub struct BlockView {
    pub event: Seq<char>,
    pub data: Seq<Seq<char>>,
}

/// `line` without the carriage returns at its end.
pub open spec fn strip_cr(line: Seq<char>) -> Seq<char>
    decreases line.len(),
{
    if line.len() > 0 && line.last() == '\r' {
        strip_cr(line.drop_last())
    } else {
        line
    }
}

/// `value` without one space at its start.
pub open spec fn strip_space(value: Seq<char>) -> Seq<char> {
    if value.len() > 0 && value[0] == ' ' {
        value.skip(1)
    } else {
        value
    }
}

/// The field and the value of a line; without a colon the whole line is the field.
pub open spec fn line_field(line: Seq<char>) -> (Seq<char>, Seq<char>) {
    match split_pair(line, ':') {
        Some((field, value)) => (field, strip_space(value)),
        None => (line, Seq::empty()),
    }
}

/// What a block has said after one more line. Empty lines and comments say nothing.
pub open spec fn line_step(block: BlockView, raw: Seq<char>) -> BlockView {
    let line = strip_cr(raw);
    if line.len() == 0 || line[0] == ':' {
        block
    } else {
        let (name, value) = line_field(line);
        if name == "event"@ {
            BlockView { event: value, ..block }
        } else if name == "data"@ {
            BlockView { data: block.data.push(value), ..block }
        } else {
            block
        }
    }
}

/// What a block says after its lines.
pub open spec fn block_after(lines: Seq<Seq<char>>) -> BlockView
    decreases lines.len(),
{
    if lines.len() == 0 {
        BlockView { event: "message"@, data: Seq::empty() }
    } else {
        line_step(block_after(lines.drop_last()), lines.last())
    }
}

/// The event that a block of text holds: none if it has no data.
pub open spec fn block_event(text: Seq<char>) -> Option<EventView> {
    let block = block_after(pieces(text, '\n'));
    if block.data.len() > 0 {
        Some(EventView { event: block.event, data: joined(block.data, "\n"@) })
    } else {
        None
    }
}

/// The events that blocks hold.
pub open spec fn block_events(list: Seq<Seq<u8>>) -> Seq<EventView>
    decreases list.len(),
{
    if list.len() == 0 {
        Seq::empty()
    } else {
        let before = block_events(list.drop_last());
        match block_event(text_of(list.last())) {
            Some(event) => before.push(event),
            None => before,
        }
    }
}

/// The events of the complete blocks of `bytes`.
pub open spec fn events_of(bytes: Seq<u8>) -> Seq<EventView> {
    block_events(blocks(bytes))
}

/// Whether bytes end with a line end that an empty line would share: `\n`, or `\r\n\r`, which one
/// `\n` more makes an empty line.
pub open spec fn ends_line(bytes: Seq<u8>) -> bool {
    let n = bytes.len();
    ||| n >= 1 && bytes[n - 1] == 10
    ||| n >= 3 && bytes[n - 3] == 13 && bytes[n - 2] == 10 && bytes[n - 1] == 13
}

/// A block that no empty line ends, without a line end that an empty line would share.
pub open spec fn open_block(bytes: Seq<u8>) -> Seq<u8> {
    let n = bytes.len();
    if !ends_line(bytes) {
        bytes
    } else if bytes[n - 1] == 10 {
        bytes.take(n - 1)
    } else {
        bytes.take(n - 3)
    }
}

/// The event of a last block that no empty line ends. A line end stands for itself in any bytes and
/// says nothing at the end of a block, so that it is left out before the bytes are read.
pub open spec fn last_event(bytes: Seq<u8>) -> Option<EventView> {
    let text = text_of(open_block(bytes));
    if trimmed(text).len() == 0 {
        None
    } else {
        block_event(text)
    }
}

/// Where a block ends, as `block_end` finds it.
pub proof fn lemma_block_end(bytes: Seq<u8>, from: int)
    requires
        0 <= from <= bytes.len(),
    ensures
        from <= block_end(bytes, from) <= bytes.len(),
        block_end(bytes, from) < bytes.len() ==> lf_at(bytes, block_end(bytes, from)) || crlf_at(
            bytes,
            block_end(bytes, from),
        ),
        forall|i: int|
            from <= i < block_end(bytes, from) ==> !lf_at(bytes, i) && !crlf_at(bytes, i),
    decreases bytes.len() - from,
{
    if from < bytes.len() && !(lf_at(bytes, from) || crlf_at(bytes, from)) {
        lemma_block_end(bytes, from + 1);
    }
}

proof fn lemma_block_end_is(bytes: Seq<u8>, from: int, at: int)
    requires
        0 <= from <= at <= bytes.len(),
        at < bytes.len() ==> lf_at(bytes, at) || crlf_at(bytes, at),
        forall|i: int| from <= i < at ==> !lf_at(bytes, i) && !crlf_at(bytes, i),
    ensures
        block_end(bytes, from) == at,
{
    lemma_block_end(bytes, from);
    let end = block_end(bytes, from);
    if end < at {
        assert(!lf_at(bytes, end) && !crlf_at(bytes, end));
    }
    if at < end {
        assert(!lf_at(bytes, at) && !crlf_at(bytes, at));
    }
}

proof fn lemma_block_end_skip(bytes: Seq<u8>, skip: int)
    requires
        0 <= skip <= bytes.len(),
    ensures
        block_end(bytes.skip(skip), 0) + skip == block_end(bytes, skip),
        block_end(bytes, skip) < bytes.len() ==> separator_len(
            bytes.skip(skip),
            block_end(bytes, skip) - skip,
        ) == separator_len(bytes, block_end(bytes, skip)),
{
    lemma_block_end(bytes, skip);
    let rest = bytes.skip(skip);
    let at = block_end(bytes, skip) - skip;
    assert forall|i: int| 0 <= i < rest.len() implies lf_at(rest, i) == lf_at(bytes, i + skip)
        && crlf_at(rest, i) == crlf_at(bytes, i + skip) by {}
    assert forall|i: int| 0 <= i < at implies !lf_at(rest, i) && !crlf_at(rest, i) by {
        assert(!lf_at(bytes, i + skip) && !crlf_at(bytes, i + skip));
    }
    lemma_block_end_is(rest, 0, at);
}

proof fn lemma_block_events_push(list: Seq<Seq<u8>>, block: Seq<u8>)
    ensures
        block_events(list.push(block)) == (match block_event(text_of(block)) {
            Some(event) => block_events(list).push(event),
            None => block_events(list),
        }),
{
    assert(list.push(block).drop_last() =~= list);
}

/// The first block that is complete at or after `from`: where it ends and how long its separator is.
fn event_boundary(bytes: &Vec<u8>, from: usize) -> (found: Option<(usize, usize)>)
    requires
        from <= bytes@.len(),
    ensures
        found is None ==> block_end(bytes@, from as int) == bytes@.len(),
        found matches Some((at, len)) ==> {
            &&& at == block_end(bytes@, from as int)
            &&& from <= at
            &&& at + len <= bytes@.len()
            &&& at < bytes@.len()
            &&& len == separator_len(bytes@, at as int)
        },
{
    let n = bytes.len();
    let mut i = from;
    while i < n
        invariant
            from <= i <= n,
            n == bytes@.len(),
            forall|j: int| from <= j < i ==> !lf_at(bytes@, j) && !crlf_at(bytes@, j),
        decreases n - i,
    {
        if n - i >= 2 && bytes[i] == 10 && bytes[i + 1] == 10 {
            proof {
                lemma_block_end_is(bytes@, from as int, i as int);
            }
            return Some((i, 2));
        }
        if n - i >= 4 && bytes[i] == 13 && bytes[i + 1] == 10 && bytes[i + 2] == 13 && bytes[i + 3]
            == 10 {
            proof {
                lemma_block_end_is(bytes@, from as int, i as int);
            }
            return Some((i, 4));
        }
        i = i + 1;
    }
    proof {
        lemma_block_end_is(bytes@, from as int, n as int);
    }
    None
}

/// The decoder of a stream of events that comes in chunks.
pub struct SseDecoder {
    buffer: Vec<u8>,
}

impl Default for SseDecoder {
    fn default() -> (decoder: Self)
        ensures
            decoder@ == Seq::<u8>::empty(),
    {
        SseDecoder { buffer: Vec::new() }
    }
}

impl View for SseDecoder {
    type V = Seq<u8>;

    /// The bytes that no complete block accounts for yet.
    closed spec fn view(&self) -> Seq<u8> {
        self.buffer@
    }
}

impl SseDecoder {
    /// Takes in the next chunk and gives the events that it completes.
    pub fn push(&mut self, bytes: &[u8]) -> (events: Vec<SseEvent>)
        ensures
            event_views(events@) == events_of(old(self)@ + bytes@),
            final(self)@ == leftover(old(self)@ + bytes@),
    {
        let n = bytes.len();
        let mut i: usize = 0;
        while i < n
            invariant
                i <= n,
                n == bytes@.len(),
                self.buffer@ == old(self)@ + bytes@.take(i as int),
            decreases n - i,
        {
            self.buffer.push(bytes[i]);
            assert(bytes@.take(i + 1) =~= bytes@.take(i as int).push(bytes@[i as int]));
            i = i + 1;
            assert(self.buffer@ =~= old(self)@ + bytes@.take(i as int));
        }
        let ghost whole = old(self)@ + bytes@;
        assert(bytes@.take(n as int) =~= bytes@);
        let mut events: Vec<SseEvent> = Vec::new();
        let mut from: usize = 0;
        let ghost mut done: Seq<Seq<u8>> = Seq::empty();
        proof {
            assert(whole.skip(0) =~= whole);
            assert(done + blocks(whole) =~= blocks(whole));
            assert(event_views(events@) =~= block_events(done));
        }
        let total = self.buffer.len();
        let mut searching = true;
        while searching
            invariant
                self.buffer@ == whole,
                total == whole.len(),
                from <= whole.len(),
                blocks(whole) == done + blocks(whole.skip(from as int)),
                leftover(whole) == leftover(whole.skip(from as int)),
                event_views(events@) == block_events(done),
                !searching ==> blocks(whole) == done && leftover(whole) == whole.skip(from as int),
            decreases whole.len() - from + (if searching { 1int } else { 0 }),
        {
            match event_boundary(&self.buffer, from) {
                Some((at, len)) => {
                    let raw = lossy_text(slice_subrange(self.buffer.as_slice(), from, at));
                    let ghost block = whole.subrange(from as int, at as int);
                    proof {
                        lemma_block_end_skip(whole, from as int);
                        let rest = whole.skip(from as int);
                        assert(rest.take(at - from) =~= block);
                        assert(rest.skip(at - from + len) =~= whole.skip(at + len));
                        assert(done + (seq![block] + blocks(whole.skip(at + len))) =~= done.push(block)
                            + blocks(whole.skip(at + len)));
                        lemma_block_events_push(done, block);
                    }
                    let ghost before = events@;
                    if let Some(event) = parse_sse_event(raw.as_str()) {
                        events.push(event);
                        assert(event_views(events@) =~= event_views(before).push(event@));
                    }
                    from = at + len;
                    proof {
                        done = done.push(block);
                    }
                },
                None => {
                    proof {
                        lemma_block_end_skip(whole, from as int);
                        assert(done + Seq::<Seq<u8>>::empty() =~= done);
                    }
                    searching = false;
                },
            }
        }
        let rest = slice_to_vec(slice_subrange(self.buffer.as_slice(), from, total));
        assert(rest@ =~= whole.skip(from as int));
        self.buffer = rest;
        events
    }

    /// Ends the stream and gives the event of a last block that no empty line ended.
    pub fn finish(&mut self) -> (event: Option<SseEvent>)
        ensures
            final(self)@ == Seq::<u8>::empty(),
            event is Some == last_event(old(self)@) is Some,
            event matches Some(event) ==> Some(event@) == last_event(old(self)@),
    {
        let n = self.buffer.len();
        let end = if n >= 1 && self.buffer[n - 1] == 10 {
            n - 1
        } else if n >= 3 && self.buffer[n - 3] == 13 && self.buffer[n - 2] == 10 && self.buffer[n
            - 1] == 13 {
            n - 3
        } else {
            n
        };
        let raw = lossy_text(slice_subrange(self.buffer.as_slice(), 0, end));
        assert(self.buffer@.subrange(0, end as int) =~= open_block(self.buffer@));
        self.buffer = Vec::new();
        let trimmed_raw = trim(raw.as_str());
        if trimmed_raw.as_str().is_empty() {
            return None;
        }
        parse_sse_event(raw.as_str())
    }
}

/// The event that a block of text holds: none if it has no data.
fn parse_sse_event(raw: &str) -> (event: Option<SseEvent>)
    ensures
        event is Some == block_event(raw@) is Some,
        event matches Some(event) ==> Some(event@) == block_event(raw@),
{
    let chars = chars_of(raw);
    let n = chars.len();
    let mut event = "message".to_owned();
    let mut data: Vec<String> = Vec::new();
    let mut from: usize = 0;
    let mut more = true;
    let ghost mut done: Seq<Seq<char>> = Seq::empty();
    proof {
        assert(raw@.skip(0) =~= raw@);
        assert(done + pieces(raw@, '\n') =~= pieces(raw@, '\n'));
        assert(texts(data@) =~= Seq::<Seq<char>>::empty());
    }
    while more
        invariant
            chars@ == raw@,
            n == chars@.len(),
            from <= n,
            more ==> pieces(raw@, '\n') == done + pieces(raw@.skip(from as int), '\n'),
            !more ==> pieces(raw@, '\n') == done,
            block_after(done) == (BlockView { event: event@, data: texts(data@) }),
        decreases n - from + (if more { 1int } else { 0 }),
    {
        let end = find_char(&chars, '\n', from);
        let ghost raw_line = raw@.subrange(from as int, end as int);
        let ghost rest = raw@.skip(from as int);
        assert(rest.take(end - from) =~= raw_line);
        let mut to = end;
        while from < to && chars[to - 1] == '\r'
            invariant
                chars@ == raw@,
                from <= to <= end <= chars@.len(),
                raw_line == raw@.subrange(from as int, end as int),
                strip_cr(raw_line) == strip_cr(raw@.subrange(from as int, to as int)),
            decreases to,
        {
            assert(raw@.subrange(from as int, to as int).drop_last() =~= raw@.subrange(
                from as int,
                to - 1,
            ));
            to = to - 1;
        }
        let ghost line = strip_cr(raw_line);
        assert(line == raw@.subrange(from as int, to as int));
        if from < to && chars[from] != ':' {
            let colon = find_line_char(&chars, ':', from, to);
            let field = text_between(&chars, from, colon);
            let value = if colon < to {
                let start = if colon + 1 < to && chars[colon + 1] == ' ' {
                    colon + 2
                } else {
                    colon + 1
                };
                proof {
                    let after = line.skip(colon - from + 1);
                    assert(after =~= raw@.subrange(colon + 1, to as int));
                    assert(strip_space(after) =~= raw@.subrange(start as int, to as int));
                    assert(line.take(colon - from) =~= raw@.subrange(from as int, colon as int));
                }
                text_between(&chars, start, to)
            } else {
                assert(line =~= raw@.subrange(from as int, colon as int));
                String::new()
            };
            assert(line_field(line) == (field@, value@));
            if text_eq(field.as_str(), "event") {
                event = value;
            } else if text_eq(field.as_str(), "data") {
                let ghost before = data@;
                data.push(value);
                assert(texts(data@) =~= texts(before).push(value@));
            }
        }
        proof {
            assert(done.push(raw_line).drop_last() =~= done);
            assert(block_after(done.push(raw_line)) == line_step(block_after(done), raw_line));
            assert(done + (seq![raw_line] + pieces(raw@.skip(end + 1), '\n')) =~= done.push(raw_line)
                + pieces(raw@.skip(end + 1), '\n'));
            assert(done + seq![raw_line] =~= done.push(raw_line));
            if end < n {
                assert(rest.skip(end - from + 1) =~= raw@.skip(end + 1));
            } else {
                assert(rest =~= raw_line);
            }
            done = done.push(raw_line);
        }
        if end < n {
            from = end + 1;
        } else {
            more = false;
        }
    }
    assert(texts(data@).len() == data@.len());
    if data.len() > 0 {
        let text = join(&data, "\n");
        Some(SseEvent { event, data: text })
    } else {
        None
    }
}

/// The position of the first `c` between `from` and `to`; `to` if there is none.
fn find_line_char(chars: &Vec<char>, c: char, from: usize, to: usize) -> (at: usize)
    requires
        from <= to <= chars@.len(),
    ensures
        from <= at <= to,
        at == from + first_pos(chars@.subrange(from as int, to as int), c),
{
    let mut i = from;
    while i < to && chars[i] != c
        invariant
            from <= i <= to <= chars@.len(),
            forall|j: int| from <= j < i ==> chars@[j] != c,
        decreases to - i,
    {
        i = i + 1;
    }
    proof {
        lemma_first_pos_is(chars@.subrange(from as int, to as int), c, i - from);
    }
    i
}

/// Feeding a decoder that still holds `held` one chunk after the other.
pub open spec fn fed(held: Seq<u8>, chunks: Seq<Seq<u8>>) -> (Seq<EventView>, Seq<u8>)
    decreases chunks.len(),
{
    if chunks.len() == 0 {
        (Seq::empty(), held)
    } else {
        let (events, rest) = fed(held, chunks.drop_last());
        (events + events_of(rest + chunks.last()), leftover(rest + chunks.last()))
    }
}

/// All the bytes of a list of chunks.
pub open spec fn all_bytes(chunks: Seq<Seq<u8>>) -> Seq<u8>
    decreases chunks.len(),
{
    if chunks.len() == 0 {
        Seq::empty()
    } else {
        all_bytes(chunks.drop_last()) + chunks.last()
    }
}

proof fn lemma_block_end_extends(bytes: Seq<u8>, more: Seq<u8>)
    requires
        block_end(bytes, 0) < bytes.len(),
    ensures
        block_end(bytes + more, 0) == block_end(bytes, 0),
        separator_len(bytes + more, block_end(bytes, 0)) == separator_len(bytes, block_end(bytes, 0)),
{
    let at = block_end(bytes, 0);
    let all = bytes + more;
    lemma_block_end(bytes, 0);
    assert forall|i: int| 0 <= i < at implies !lf_at(all, i) && !crlf_at(all, i) by {
        assert(!lf_at(bytes, i) && !crlf_at(bytes, i));
        assert(all[i] == bytes[i] && all[i + 1] == bytes[i + 1]);
        if crlf_at(all, i) {
            assert(all[i + 2] == 13u8);
            if lf_at(bytes, at) {
                if i + 2 < bytes.len() {
                    assert(bytes[i + 2] == 13u8);
                }
            }
        }
    }
    lemma_block_end_is(all, 0, at);
}

proof fn lemma_blocks_concat(bytes: Seq<u8>, more: Seq<u8>)
    ensures
        blocks(bytes + more) == blocks(bytes) + blocks(leftover(bytes) + more),
        leftover(bytes + more) == leftover(leftover(bytes) + more),
    decreases bytes.len(),
{
    let at = block_end(bytes, 0);
    lemma_block_end(bytes, 0);
    if at < bytes.len() {
        lemma_block_end_extends(bytes, more);
        let n = at + separator_len(bytes, at);
        let rest = bytes.skip(n);
        lemma_blocks_concat(rest, more);
        assert((bytes + more).skip(n) =~= rest + more);
        assert((bytes + more).take(at) =~= bytes.take(at));
        assert(blocks(bytes + more) =~= blocks(bytes) + blocks(leftover(bytes) + more));
    } else {
        assert(blocks(bytes) + blocks(bytes + more) =~= blocks(bytes + more));
    }
}

proof fn lemma_block_events_concat(left: Seq<Seq<u8>>, right: Seq<Seq<u8>>)
    ensures
        block_events(left + right) == block_events(left) + block_events(right),
    decreases right.len(),
{
    if right.len() == 0 {
        assert(left + right =~= left);
        assert(block_events(left) + block_events(right) =~= block_events(left));
    } else {
        lemma_block_events_concat(left, right.drop_last());
        assert((left + right).drop_last() =~= left + right.drop_last());
        assert(block_events(left + right) =~= block_events(left) + block_events(right));
    }
}

/// Where a stream is cut makes no difference: two chunks give the events that their bytes give
/// together, and leave the same bytes behind. A character or a line end may be cut in two.
pub proof fn law_cut_is_invisible(held: Seq<u8>, first: Seq<u8>, second: Seq<u8>)
    ensures
        events_of(held + first) + events_of(leftover(held + first) + second) == events_of(
            held + (first + second),
        ),
        leftover(leftover(held + first) + second) == leftover(held + (first + second)),
{
    lemma_blocks_concat(held + first, second);
    lemma_block_events_concat(blocks(held + first), blocks(leftover(held + first) + second));
    assert(held + first + second =~= held + (first + second));
}

/// A stream gives the same events however it is cut into chunks.
pub proof fn law_chunking_is_invisible(chunks: Seq<Seq<u8>>)
    ensures
        fed(Seq::empty(), chunks) == (events_of(all_bytes(chunks)), leftover(all_bytes(chunks))),
    decreases chunks.len(),
{
    let none: Seq<u8> = Seq::empty();
    if chunks.len() == 0 {
        assert(block_end(none, 0) == 0);
        assert(events_of(none) =~= Seq::<EventView>::empty());
    } else {
        law_chunking_is_invisible(chunks.drop_last());
        law_cut_is_invisible(none, all_bytes(chunks.drop_last()), chunks.last());
        assert(none + all_bytes(chunks.drop_last()) =~= all_bytes(chunks.drop_last()));
        assert(none + all_bytes(chunks) =~= all_bytes(chunks));
    }
}

/// What a decoder holds back has no complete block in it.
pub proof fn law_nothing_complete_is_held(bytes: Seq<u8>)
    ensures
        blocks(leftover(bytes)) == Seq::<Seq<u8>>::empty(),
        leftover(leftover(bytes)) == leftover(bytes),
    decreases bytes.len(),
{
    let at = block_end(bytes, 0);
    lemma_block_end(bytes, 0);
    if at < bytes.len() {
        law_nothing_complete_is_held(bytes.skip(at + separator_len(bytes, at)));
    }
}

proof fn lemma_pieces_last(text: Seq<char>)
    ensures
        pieces(text, '\n').len() > 0,
    decreases text.len(),
{
    lemma_first_pos(text, '\n');
    let at = first_pos(text, '\n');
    if at < text.len() {
        lemma_pieces_last(text.skip(at + 1));
    }
}

proof fn lemma_pieces_push(text: Seq<char>, c: char)
    ensures
        c == '\n' ==> pieces(text.push(c), '\n') == pieces(text, '\n').push(Seq::empty()),
        c != '\n' ==> pieces(text.push(c), '\n') == pieces(text, '\n').drop_last().push(
            pieces(text, '\n').last().push(c),
        ),
    decreases text.len(),
{
    let more = text.push(c);
    let at = first_pos(text, '\n');
    lemma_first_pos(text, '\n');
    if at < text.len() {
        assert forall|i: int| 0 <= i < at implies more[i] != '\n' by {
            assert(more[i] == text[i]);
        }
        lemma_first_pos_is(more, '\n', at);
        let rest = text.skip(at + 1);
        lemma_pieces_push(rest, c);
        lemma_pieces_last(rest);
        assert(more.take(at) =~= text.take(at));
        assert(more.skip(at + 1) =~= rest.push(c));
        let head = seq![text.take(at)];
        if c == '\n' {
            assert(head + pieces(rest, '\n').push(Seq::empty()) =~= (head + pieces(
                rest,
                '\n',
            )).push(Seq::empty()));
        } else {
            let own = pieces(rest, '\n');
            assert((head + own).drop_last() =~= head + own.drop_last());
            assert(head + own.drop_last().push(own.last().push(c)) =~= (head + own).drop_last().push(
                own.last().push(c),
            ));
        }
    } else {
        assert forall|i: int| 0 <= i < text.len() implies more[i] != '\n' by {
            assert(more[i] == text[i]);
        }
        if c == '\n' {
            lemma_first_pos_is(more, '\n', text.len() as int);
            assert(more.take(text.len() as int) =~= text);
            assert(more.skip(text.len() as int + 1) =~= Seq::<char>::empty());
            assert(pieces(Seq::<char>::empty(), '\n') == seq![Seq::<char>::empty()]);
            assert(pieces(more, '\n') =~= seq![text].push(Seq::empty()));
        } else {
            lemma_first_pos_is(more, '\n', more.len() as int);
            assert(seq![text].drop_last().push(text.push(c)) =~= seq![more]);
        }
    }
}

/// A line end that follows a block adds nothing to it.
proof fn lemma_line_end_says_nothing(text: Seq<char>, c: char)
    requires
        c == '\n' || c == '\r',
    ensures
        block_event(text.push(c)) == block_event(text),
{
    lemma_pieces_push(text, c);
    lemma_pieces_last(text);
    let lines = pieces(text, '\n');
    let more = pieces(text.push(c), '\n');
    if c == '\n' {
        assert(more.drop_last() =~= lines);
        assert(strip_cr(Seq::<char>::empty()) == Seq::<char>::empty());
    } else {
        assert(more.drop_last() =~= lines.drop_last());
        assert(lines.last().push(c).drop_last() =~= lines.last());
        assert(strip_cr(more.last()) == strip_cr(lines.last()));
    }
    assert(block_after(more) == block_after(lines));
}

/// Whether a text is white space alone.
spec fn is_blank(text: Seq<char>) -> bool {
    forall|i: int| 0 <= i < text.len() ==> whitespace(#[trigger] text[i])
}

proof fn lemma_trimmed_blank(text: Seq<char>)
    ensures
        trim_end(text).len() == 0 ==> is_blank(text),
    decreases text.len(),
{
    if text.len() > 0 && whitespace(text.last()) {
        lemma_trimmed_blank(text.drop_last());
        if trim_end(text).len() == 0 {
            assert forall|i: int| 0 <= i < text.len() implies whitespace(#[trigger] text[i]) by {
                if i < text.len() - 1 {
                    assert(text.drop_last()[i] == text[i]);
                }
            }
        }
    }
}

proof fn lemma_nothing_left_is_blank(text: Seq<char>)
    ensures
        trimmed(text).len() == 0 ==> is_blank(text),
    decreases text.len(),
{
    if text.len() > 0 && whitespace(text[0]) {
        lemma_nothing_left_is_blank(text.skip(1));
        if trimmed(text).len() == 0 {
            assert forall|i: int| 0 <= i < text.len() implies whitespace(#[trigger] text[i]) by {
                if i > 0 {
                    assert(text.skip(1)[i - 1] == text[i]);
                }
            }
        }
    } else {
        lemma_trimmed_blank(text);
    }
}

proof fn lemma_strip_blank(line: Seq<char>)
    requires
        is_blank(line),
    ensures
        is_blank(strip_cr(line)),
    decreases line.len(),
{
    if line.len() > 0 && line.last() == '\r' {
        assert forall|i: int| 0 <= i < line.drop_last().len() implies whitespace(
            #[trigger] line.drop_last()[i],
        ) by {
            assert(whitespace(line[i]));
        }
        lemma_strip_blank(line.drop_last());
    }
}

proof fn lemma_blank_line(block: BlockView, line: Seq<char>)
    requires
        is_blank(line),
    ensures
        line_step(block, line) == block,
{
    lemma_strip_blank(line);
    let bare = strip_cr(line);
    if bare.len() > 0 {
        assert(whitespace(bare[0]));
        assert forall|i: int| 0 <= i < bare.len() implies bare[i] != ':' by {
            assert(whitespace(bare[i]));
        }
        lemma_first_pos_is(bare, ':', bare.len() as int);
        reveal_strlit("event");
        reveal_strlit("data");
        assert("event"@[0] == 'e' && "data"@[0] == 'd');
    }
}

proof fn lemma_blank_pieces(text: Seq<char>)
    requires
        is_blank(text),
    ensures
        forall|i: int|
            0 <= i < pieces(text, '\n').len() ==> is_blank(#[trigger] pieces(text, '\n')[i]),
    decreases text.len(),
{
    lemma_first_pos(text, '\n');
    let at = first_pos(text, '\n');
    if at < text.len() {
        let head = text.take(at);
        let rest = text.skip(at + 1);
        assert forall|i: int| 0 <= i < head.len() implies whitespace(#[trigger] head[i]) by {
            assert(whitespace(text[i]));
        }
        assert forall|i: int| 0 <= i < rest.len() implies whitespace(#[trigger] rest[i]) by {
            assert(whitespace(text[i + at + 1]));
        }
        lemma_blank_pieces(rest);
        assert forall|i: int| 0 <= i < pieces(text, '\n').len() implies is_blank(
            #[trigger] pieces(text, '\n')[i],
        ) by {
            if i > 0 {
                assert(pieces(text, '\n')[i] == pieces(rest, '\n')[i - 1]);
            }
        }
    }
}

proof fn lemma_blank_lines(lines: Seq<Seq<char>>)
    requires
        forall|i: int| 0 <= i < lines.len() ==> is_blank(#[trigger] lines[i]),
    ensures
        block_after(lines).data.len() == 0,
    decreases lines.len(),
{
    if lines.len() > 0 {
        assert forall|i: int| 0 <= i < lines.drop_last().len() implies is_blank(
            #[trigger] lines.drop_last()[i],
        ) by {
            assert(is_blank(lines[i]));
        }
        lemma_blank_lines(lines.drop_last());
        assert(is_blank(lines[lines.len() - 1]));
        lemma_blank_line(block_after(lines.drop_last()), lines.last());
    }
}

proof fn lemma_last_event(bytes: Seq<u8>)
    ensures
        last_event(bytes) == block_event(text_of(open_block(bytes))),
{
    let text = text_of(open_block(bytes));
    if trimmed(text).len() == 0 {
        lemma_nothing_left_is_blank(text);
        lemma_blank_pieces(text);
        lemma_blank_lines(pieces(text, '\n'));
    }
}

proof fn lemma_ascii_char(c: char)
    requires
        (c as u32) < 128,
    ensures
        (c as u8) as char == c,
{
}

proof fn lemma_ascii_end(bytes: Seq<u8>)
    requires
        valid_utf8(bytes),
        bytes.len() > 0,
        bytes.last() < 128,
    ensures
        valid_utf8(bytes.drop_last()),
        text_of(bytes) == text_of(bytes.drop_last()).push(bytes.last() as char),
{
    let text = decode_utf8(bytes);
    decode_utf8_encode_utf8(bytes);
    assert(text.len() > 0) by {
        if text.len() == 0 {
            assert(encode_utf8(text) =~= Seq::<u8>::empty());
        }
    }
    let c = text.last();
    let front = text.drop_last();
    assert(text =~= front + seq![c]);
    lemma_encode_concat(front, seq![c]);
    assert(seq![c].drop_first() =~= Seq::<char>::empty());
    assert(encode_utf8(Seq::<char>::empty()) =~= Seq::<u8>::empty());
    assert(encode_utf8(seq![c]) =~= encode_scalar(c as u32));
    lemma_scalar_bytes(c);
    let end = encode_scalar(c as u32);
    assert(bytes == encode_utf8(front) + end);
    assert(bytes.last() == end[end.len() - 1]);
    assert((c as u32) < 128);
    assert(bytes.drop_last() =~= encode_utf8(front));
    encode_utf8_valid_utf8(front);
    encode_utf8_decode_utf8(front);
    assert(end == seq![c as u8]);
    lemma_ascii_char(c);
    assert(text =~= front.push(c));
}

proof fn lemma_short_rest(rest: Seq<u8>)
    requires
        rest.len() <= 1,
    ensures
        blocks(rest) == Seq::<Seq<u8>>::empty(),
{
    lemma_block_end(rest, 0);
}

proof fn lemma_ended_block(held: Seq<u8>)
    requires
        leftover(held) == held,
    ensures
        blocks(held + seq![10u8, 10u8]) == seq![open_block(held)],
{
    let all = held + seq![10u8, 10u8];
    let n = held.len() as int;
    lemma_block_end(held, 0);
    lemma_no_block(held);
    assert(all[n] == 10 && all[n + 1] == 10);
    let at = open_block(held).len() as int;
    assert forall|i: int| 0 <= i < at implies !lf_at(all, i) && !crlf_at(all, i) by {
        assert(!lf_at(held, i) && !crlf_at(held, i));
        assert(all[i] == held[i]);
        if i + 1 < n {
            assert(all[i + 1] == held[i + 1]);
        }
        if i + 2 < n {
            assert(all[i + 2] == held[i + 2]);
        }
        if i + 3 < n {
            assert(all[i + 3] == held[i + 3]);
        }
    }
    assert(lf_at(all, at) || crlf_at(all, at));
    lemma_block_end_is(all, 0, at);
    lemma_short_rest(all.skip(at + separator_len(all, at)));
    assert(all.take(at) =~= open_block(held));
    assert(blocks(all) =~= seq![open_block(held)]);
}

proof fn lemma_no_block(held: Seq<u8>)
    requires
        leftover(held) == held,
    ensures
        block_end(held, 0) == held.len(),
{
    lemma_block_end(held, 0);
    let at = block_end(held, 0);
    if at < held.len() {
        let rest = held.skip(at + separator_len(held, at));
        lemma_leftover_len(rest);
    }
}

proof fn lemma_leftover_len(bytes: Seq<u8>)
    ensures
        leftover(bytes).len() <= bytes.len(),
    decreases bytes.len(),
{
    lemma_block_end(bytes, 0);
    let at = block_end(bytes, 0);
    if at < bytes.len() {
        lemma_leftover_len(bytes.skip(at + separator_len(bytes, at)));
    }
}

/// To end a stream is to send an empty line: the last block gives the event that it would give if an
/// empty line ended it.
pub proof fn law_ending_is_an_empty_line(held: Seq<u8>)
    requires
        leftover(held) == held,
    ensures
        events_of(held + seq![10u8, 10u8]) == (match last_event(held) {
            Some(event) => seq![event],
            None => Seq::empty(),
        }),
{
    lemma_ended_block(held);
    lemma_last_event(held);
    let list = seq![open_block(held)];
    assert(list.drop_last() =~= Seq::<Seq<u8>>::empty());
    assert(block_events(list.drop_last()) =~= Seq::<EventView>::empty());
    if let Some(event) = last_event(held) {
        assert(block_events(list) =~= seq![event]);
    }
}

/// A line end at the end of a last block says nothing: the event is that of all bytes that are left.
pub proof fn law_last_block_is_read_whole(held: Seq<u8>)
    requires
        valid_utf8(held) || !ends_line(held),
    ensures
        last_event(held) == block_event(text_of(held)),
{
    lemma_last_event(held);
    let n = held.len() as int;
    let block = open_block(held);
    if ends_line(held) {
        lemma_ascii_end(held);
        let one = held.drop_last();
        if held[n - 1] == 10 {
            assert(one =~= block);
            lemma_line_end_says_nothing(text_of(one), '\n');
        } else {
            lemma_line_end_says_nothing(text_of(one), '\r');
            lemma_ascii_end(one);
            let two = one.drop_last();
            lemma_line_end_says_nothing(text_of(two), '\n');
            lemma_ascii_end(two);
            lemma_line_end_says_nothing(text_of(two.drop_last()), '\r');
            assert(two.drop_last() =~= block);
        }
    }
}

/// The frame that sends a document as an event without a name.
pub open spec fn data_frame(contents: JsonView) -> Seq<char> {
    "data: "@ + printed(contents) + "\n\n"@
}

/// The frame that sends a document as an event with a name.
pub open spec fn named_frame(event: Seq<char>, contents: JsonView) -> Seq<char> {
    "event: "@ + event + "\ndata: "@ + printed(contents) + "\n\n"@
}

/// The frame that sends a document as an event without a name. A decoder gives that event back.
pub fn sse_bytes(json: &Json) -> (frame: String)
    ensures
        frame@ == data_frame(json@),
        events_of(encode_utf8(frame@)) == seq![
            EventView { event: "message"@, data: printed(json@) },
        ],
{
    let mut frame = "data: ".to_owned();
    let text = print_json(json);
    frame.append(text.as_str());
    frame.append("\n\n");
    proof {
        lemma_empty_line();
        law_frame_is_one_event(Seq::empty(), text@);
    }
    frame
}

/// The frame that sends a document as an event with a name. Where the name is one line, a decoder
/// gives that event back.
pub fn named_sse(event: &str, json: &Json) -> (frame: String)
    ensures
        frame@ == named_frame(event@, json@),
        is_one_line(event@) ==> events_of(encode_utf8(frame@)) == seq![
            EventView { event: event@, data: printed(json@) },
        ],
{
    let mut frame = "event: ".to_owned();
    frame.append(event);
    frame.append("\ndata: ");
    let text = print_json(json);
    frame.append(text.as_str());
    frame.append("\n\n");
    proof {
        if is_one_line(event@) {
            law_frame_is_one_event(event@, text@);
        }
    }
    frame
}

proof fn lemma_empty_line()
    ensures
        is_one_line(Seq::<char>::empty()),
{
}

/// Whether a text is one line.
pub open spec fn is_one_line(text: Seq<char>) -> bool {
    !text.contains('\n') && !text.contains('\r')
}

proof fn lemma_one_piece(text: Seq<char>)
    requires
        is_one_line(text),
    ensures
        pieces(text, '\n') == seq![text],
        strip_cr(text) == text,
{
    assert forall|i: int| 0 <= i < text.len() implies text[i] != '\n' by {
        assert(text.contains(text[i]));
    }
    lemma_first_pos_is(text, '\n', text.len() as int);
    if text.len() > 0 {
        assert(text.contains(text.last()));
    }
}

proof fn lemma_field_line(name: Seq<char>, value: Seq<char>)
    requires
        is_one_line(name),
        is_one_line(value),
        !name.contains(':'),
        name.len() > 0,
    ensures
        is_one_line(name + ": "@ + value),
        line_field(name + ": "@ + value) == (name, value),
        (name + ": "@ + value)[0] != ':',
{
    reveal_strlit(": ");
    let line = name + ": "@ + value;
    let n = name.len() as int;
    assert(line[n] == ':' && line[n + 1] == ' ');
    assert forall|i: int| 0 <= i < n implies line[i] != ':' by {
        assert(name.contains(name[i]));
    }
    lemma_first_pos_is(line, ':', n);
    assert(line.take(n) =~= name);
    assert(line.skip(n + 1)[0] == ' ');
    assert(line.skip(n + 1).skip(1) =~= value);
    assert forall|c: char| (c == '\n' || c == '\r') implies !line.contains(c) by {
        if line.contains(c) {
            let i = choose|i: int| 0 <= i < line.len() && line[i] == c;
            if i < n {
                assert(name.contains(name[i]));
            } else if i >= n + 2 {
                assert(value[i - n - 2] == c);
                assert(value.contains(value[i - n - 2]));
            }
        }
    }
}

/// What is sent is read back: the text of a frame, without the empty line that ends it, holds the
/// event that was sent. A document is sent on one line.
pub proof fn law_frame_is_read_back(event: Seq<char>, data: Seq<char>)
    requires
        is_one_line(event),
        is_one_line(data),
    ensures
        block_event("event: "@ + event + "\ndata: "@ + data) == Some(EventView { event, data }),
        block_event("data: "@ + data) == Some(EventView { event: "message"@, data }),
{
    reveal_strlit("event: ");
    reveal_strlit("\ndata: ");
    reveal_strlit("data: ");
    reveal_strlit("event");
    reveal_strlit("data");
    reveal_strlit(": ");
    assert(!"event"@.contains(':') && is_one_line("event"@));
    assert(!"data"@.contains(':') && is_one_line("data"@));
    assert("event"@.len() != "data"@.len());
    lemma_field_line("event"@, event);
    lemma_field_line("data"@, data);
    let first = "event"@ + ": "@ + event;
    let second = "data"@ + ": "@ + data;
    assert("event: "@ =~= "event"@ + ": "@);
    assert("data: "@ =~= "data"@ + ": "@);
    assert("\ndata: "@ =~= seq!['\n'] + "data: "@);
    let text = "event: "@ + event + "\ndata: "@ + data;
    assert(text =~= first + seq!['\n'] + second);
    assert("data: "@ + data =~= second);
    lemma_one_piece(first);
    lemma_one_piece(second);
    let n = first.len() as int;
    assert forall|i: int| 0 <= i < n implies text[i] != '\n' by {
        assert(first.contains(first[i]));
        assert(text[i] == first[i]);
    }
    assert(text[n] == '\n');
    lemma_first_pos_is(text, '\n', n);
    assert(text.take(n) =~= first);
    assert(text.skip(n + 1) =~= second);
    assert(pieces(text, '\n') =~= seq![first, second]);
    let none = BlockView { event: "message"@, data: Seq::empty() };
    let lines = seq![first, second];
    assert(lines.drop_last() =~= seq![first]);
    assert(lines.drop_last().drop_last() =~= Seq::<Seq<char>>::empty());
    assert(block_after(Seq::<Seq<char>>::empty()) == none);
    assert(seq![first].drop_last() =~= Seq::<Seq<char>>::empty());
    assert(block_after(seq![first]) == line_step(none, first));
    let named = BlockView { event, data: Seq::empty() };
    assert(line_step(none, first) == named);
    assert(block_after(lines) == line_step(named, second));
    let all = Seq::<Seq<char>>::empty().push(data);
    assert(all =~= seq![data]);
    assert(joined(all, "\n"@) == data);
    assert(seq![second].drop_last() =~= Seq::<Seq<char>>::empty());
    assert(block_after(seq![second]) == line_step(none, second));
}

proof fn lemma_scalar_bytes(c: char)
    ensures
        encode_scalar(c as u32).len() > 0,
        (c as u32) < 128 ==> encode_scalar(c as u32) == seq![c as u8],
        (c as u32) >= 128 ==> forall|i: int|
            0 <= i < encode_scalar(c as u32).len() ==> #[trigger] encode_scalar(c as u32)[i] >= 128,
        c != '\n' && c != '\r' ==> forall|i: int|
            0 <= i < encode_scalar(c as u32).len() ==> #[trigger] encode_scalar(c as u32)[i] != 10
                && encode_scalar(c as u32)[i] != 13,
{
    let s = c as u32;
    if s < 128 {
        assert((s & 0x7F) as u8 == s as u8) by (bit_vector)
            requires
                s < 128,
        ;
        assert(s as u8 == c as u8);
        assert(encode_scalar(s) =~= seq![c as u8]);
    } else {
        assert(0xC0 | ((s >> 6) & 0x1F) as u8 >= 128u8) by (bit_vector);
        assert(0xE0 | ((s >> 12) & 0x0F) as u8 >= 128u8) by (bit_vector);
        assert(0xF0 | ((s >> 18) & 0x7) as u8 >= 128u8) by (bit_vector);
        assert(0x80 | (s & 0x3F) as u8 >= 128u8) by (bit_vector);
        assert(0x80 | ((s >> 6) & 0x3F) as u8 >= 128u8) by (bit_vector);
        assert(0x80 | ((s >> 12) & 0x3F) as u8 >= 128u8) by (bit_vector);
    }
}

proof fn lemma_encode_concat(a: Seq<char>, b: Seq<char>)
    ensures
        encode_utf8(a + b) == encode_utf8(a) + encode_utf8(b),
    decreases a.len(),
{
    if a.len() == 0 {
        assert(a + b =~= b);
        assert(encode_utf8(a) + encode_utf8(b) =~= encode_utf8(b));
    } else {
        lemma_encode_concat(a.drop_first(), b);
        assert((a + b).drop_first() =~= a.drop_first() + b);
        assert(encode_utf8(a + b) =~= encode_utf8(a) + encode_utf8(b));
    }
}

proof fn lemma_line_bytes(text: Seq<char>)
    requires
        is_one_line(text),
    ensures
        forall|i: int|
            0 <= i < encode_utf8(text).len() ==> #[trigger] encode_utf8(text)[i] != 10
                && encode_utf8(text)[i] != 13,
    decreases text.len(),
{
    if text.len() > 0 {
        let rest = text.drop_first();
        let c = text[0];
        assert(text.contains(c));
        assert forall|x: char| rest.contains(x) implies text.contains(x) by {
            let i = choose|i: int| 0 <= i < rest.len() && rest[i] == x;
            assert(text[i + 1] == x);
        }
        lemma_line_bytes(rest);
        lemma_scalar_bytes(c);
        let head = encode_scalar(c as u32);
        assert forall|i: int| 0 <= i < encode_utf8(text).len() implies #[trigger] encode_utf8(
            text,
        )[i] != 10 && encode_utf8(text)[i] != 13 by {
            if i < head.len() {
                assert(encode_utf8(text)[i] == head[i]);
            } else {
                assert(encode_utf8(text)[i] == encode_utf8(rest)[i - head.len()]);
            }
        }
    }
}

proof fn lemma_one_block(bytes: Seq<u8>)
    requires
        bytes.len() > 0,
        bytes.last() != 10,
        forall|i: int| 0 <= i < bytes.len() ==> #[trigger] bytes[i] != 13,
        forall|i: int| 0 <= i < bytes.len() - 1 && #[trigger] bytes[i] == 10 ==> bytes[i + 1] != 10,
    ensures
        blocks(bytes + seq![10u8, 10u8]) == seq![bytes],
        leftover(bytes + seq![10u8, 10u8]) == Seq::<u8>::empty(),
{
    let all = bytes + seq![10u8, 10u8];
    let n = bytes.len() as int;
    assert forall|i: int| 0 <= i < n implies !lf_at(all, i) && !crlf_at(all, i) by {
        assert(all[i] == bytes[i]);
        if i < n - 1 {
            assert(all[i + 1] == bytes[i + 1]);
        } else {
            assert(bytes[n - 1] == bytes.last());
        }
    }
    assert(all[n] == 10 && all[n + 1] == 10);
    assert(lf_at(all, n));
    lemma_block_end_is(all, 0, n);
    assert(all.take(n) =~= bytes);
    assert(all.skip(n + 2) =~= Seq::<u8>::empty());
    let none = Seq::<u8>::empty();
    assert(block_end(none, 0) == 0);
    assert(blocks(none) =~= Seq::<Seq<u8>>::empty());
    assert(leftover(none) =~= none);
    assert(blocks(all) =~= seq![bytes] + blocks(none));
}

/// A decoder that is fed a frame gives the event that was sent, and holds nothing back. The name of
/// the event and the document are one line each.
pub proof fn law_frame_is_one_event(event: Seq<char>, data: Seq<char>)
    requires
        is_one_line(event),
        is_one_line(data),
    ensures
        ({
            let bytes = encode_utf8("event: "@ + event + "\ndata: "@ + data + "\n\n"@);
            &&& events_of(bytes) == seq![EventView { event, data }]
            &&& leftover(bytes) == Seq::<u8>::empty()
        }),
        ({
            let bytes = encode_utf8("data: "@ + data + "\n\n"@);
            &&& events_of(bytes) == seq![EventView { event: "message"@, data }]
            &&& leftover(bytes) == Seq::<u8>::empty()
        }),
{
    reveal_strlit("event: ");
    reveal_strlit("\ndata: ");
    reveal_strlit("data: ");
    reveal_strlit("\n\n");
    law_frame_is_read_back(event, data);
    let first = "event: "@ + event;
    let second = "data: "@ + data;
    lemma_text_line("event: "@, event);
    lemma_text_line("data: "@, data);
    lemma_line_bytes(first);
    lemma_line_bytes(second);
    lemma_newlines();
    let head = encode_utf8(first);
    let tail = encode_utf8(second);
    lemma_encode_concat("data: "@, data);
    lemma_ascii_first("data: "@);
    assert(tail.len() > 0);
    assert(tail[0] == 100);

    let text = "event: "@ + event + "\ndata: "@ + data;
    assert(text =~= first + seq!['\n'] + second);
    lemma_encode_concat(first + seq!['\n'], second);
    lemma_encode_concat(first, seq!['\n']);
    let bytes = encode_utf8(text);
    assert(bytes =~= head + seq![10u8] + tail);
    let n = head.len() as int;
    assert forall|i: int| 0 <= i < bytes.len() implies #[trigger] bytes[i] != 13 && (bytes[i] == 10
        ==> i == n) by {
        if i < n {
            assert(bytes[i] == head[i]);
        } else if i > n {
            assert(bytes[i] == tail[i - n - 1]);
        }
    }
    assert(bytes[n + 1] == tail[0]);
    assert(bytes.last() == tail.last());
    lemma_one_block(bytes);
    lemma_encode_concat(text, "\n\n"@);
    lemma_single_event(text);

    assert(tail.last() != 10) by {
        assert(tail[tail.len() - 1] != 10);
    }
    lemma_one_block(tail);
    lemma_encode_concat(second, "\n\n"@);
    lemma_single_event(second);
}

proof fn lemma_text_line(prefix: Seq<char>, text: Seq<char>)
    requires
        is_one_line(prefix),
        is_one_line(text),
    ensures
        is_one_line(prefix + text),
{
    let all = prefix + text;
    assert forall|c: char| (c == '\n' || c == '\r') implies !all.contains(c) by {
        if all.contains(c) {
            let i = choose|i: int| 0 <= i < all.len() && all[i] == c;
            if i < prefix.len() {
                assert(prefix.contains(prefix[i]));
            } else {
                assert(text.contains(text[i - prefix.len()]));
            }
        }
    }
}

proof fn lemma_newlines()
    ensures
        encode_utf8(seq!['\n']) == seq![10u8],
        encode_utf8("\n\n"@) == seq![10u8, 10u8],
{
    reveal_strlit("\n\n");
    reveal_with_fuel(encode_utf8, 3);
    lemma_scalar_bytes('\n');
    let one = seq!['\n'];
    assert(one.drop_first() =~= Seq::<char>::empty());
    assert(encode_utf8(one) =~= seq![10u8]);
    assert("\n\n"@.drop_first() =~= one);
    assert(encode_utf8("\n\n"@) =~= seq![10u8, 10u8]);
}

proof fn lemma_ascii_first(text: Seq<char>)
    requires
        text.len() > 0,
        (text[0] as u32) < 128,
    ensures
        encode_utf8(text).len() > 0,
        encode_utf8(text)[0] == text[0] as u8,
{
    lemma_scalar_bytes(text[0]);
}

proof fn lemma_single_event(text: Seq<char>)
    requires
        block_event(text) is Some,
        blocks(encode_utf8(text) + seq![10u8, 10u8]) == seq![encode_utf8(text)],
    ensures
        events_of(encode_utf8(text) + seq![10u8, 10u8]) == seq![block_event(text)->0],
{
    encode_utf8_valid_utf8(text);
    encode_utf8_decode_utf8(text);
    let list = seq![encode_utf8(text)];
    assert(list.drop_last() =~= Seq::<Seq<u8>>::empty());
    assert(block_events(list.drop_last()) =~= Seq::<EventView>::empty());
    assert(block_events(list) =~= seq![block_event(text)->0]);
}

/// A line adds to a block by its field: `data` adds a line of data, `event` names the event, and any
/// other field, a comment and an empty line add nothing. One space behind the colon, and a carriage
/// return at the end, do not count.
pub proof fn law_lines_add_to_a_block(lines: Seq<Seq<char>>, name: Seq<char>, value: Seq<char>)
    requires
        is_one_line(name),
        is_one_line(value),
        !name.contains(':'),
        name.len() > 0,
    ensures
        block_after(Seq::empty()).event == "message"@,
        block_after(Seq::empty()).data.len() == 0,
        ({
            let before = block_after(lines);
            let after = block_after(lines.push(name + ": "@ + value));
            &&& name == "data"@ ==> after.data == before.data.push(value) && after.event
                == before.event
            &&& name == "event"@ ==> after.event == value && after.data == before.data
            &&& name != "data"@ && name != "event"@ ==> after == before
            &&& block_after(lines.push((name + ": "@ + value).push('\r'))) == after
            &&& (value.len() == 0 || value[0] != ' ') ==> block_after(
                lines.push(name + ":"@ + value),
            ) == after
            &&& block_after(lines.push(seq![':'] + value)) == before
            &&& block_after(lines.push(Seq::empty())) == before
        }),
{
    lemma_field_line(name, value);
    let line = name + ": "@ + value;
    lemma_one_piece(line);
    assert(lines.push(line).drop_last() =~= lines);
    assert(lines.push(line.push('\r')).drop_last() =~= lines);
    assert(line.push('\r').drop_last() =~= line);
    reveal_strlit("data");
    reveal_strlit("event");
    assert("data"@.len() == 4 && "event"@.len() == 5);
    let plain = name + ":"@ + value;
    reveal_strlit(":");
    assert(":"@.len() == 1);
    assert(lines.push(plain).drop_last() =~= lines);
    let n = name.len() as int;
    assert(plain[n] == ':');
    assert forall|i: int| 0 <= i < n implies plain[i] != ':' by {
        assert(name.contains(name[i]));
    }
    lemma_first_pos_is(plain, ':', n);
    assert(plain.take(n) =~= name);
    assert(plain.skip(n + 1) =~= value);
    assert(strip_cr(plain) == plain) by {
        if plain.last() == '\r' {
            if value.len() > 0 {
                assert(plain.last() == value.last());
                assert(value.contains(value.last()));
            } else {
                assert(plain.last() == ':');
            }
        }
    }
    let comment = seq![':'] + value;
    assert(lines.push(comment).drop_last() =~= lines);
    assert(strip_cr(comment) == comment) by {
        if value.len() > 0 {
            assert(comment.last() == value.last());
            assert(value.contains(value.last()));
        }
    }
    assert(lines.push(Seq::<char>::empty()).drop_last() =~= lines);
}

/// The data of an event are its lines of data with a line end between each two; a block without any
/// is no event.
pub proof fn law_data_lines_are_joined(text: Seq<char>)
    ensures
        ({
            let block = block_after(pieces(text, '\n'));
            let n = block.data.len();
            &&& block_event(text) is Some <==> n > 0
            &&& n > 0 ==> block_event(text)->0.event == block.event
            &&& n == 1 ==> block_event(text)->0.data == block.data[0]
            &&& n > 1 ==> block_event(text)->0.data == joined(block.data.drop_last(), "\n"@) + "\n"@
                + block.data.last()
        }),
{
}

/// The bytes of an empty line, with its own line end and that of the line before.
pub open spec fn empty_line(carriage: bool) -> Seq<u8> {
    if carriage {
        seq![13u8, 10, 13, 10]
    } else {
        seq![10u8, 10]
    }
}

/// Whether an empty line follows at `at`, with either kind of line ends.
pub open spec fn empty_line_at(bytes: Seq<u8>, at: int) -> bool {
    ||| at + 1 < bytes.len() && bytes[at] == 10 && bytes[at + 1] == 10
    ||| at + 3 < bytes.len() && bytes[at] == 13 && bytes[at + 1] == 10 && bytes[at + 2] == 13
        && bytes[at + 3] == 10
}

/// Events are ended by empty lines: bytes whose first empty line ends `first` hold the event of
/// `first`, if it is one, and then those of what follows.
pub proof fn law_empty_lines_end_events(first: Seq<u8>, rest: Seq<u8>, carriage: bool)
    requires
        forall|i: int|
            0 <= i < first.len() ==> !#[trigger] empty_line_at(
                first + empty_line(carriage) + rest,
                i,
            ),
    ensures
        ({
            let bytes = first + empty_line(carriage) + rest;
            &&& events_of(bytes) == (match block_event(text_of(first)) {
                Some(event) => seq![event] + events_of(rest),
                None => events_of(rest),
            })
            &&& leftover(bytes) == leftover(rest)
            &&& valid_utf8(first) ==> text_of(first) == decode_utf8(first)
        }),
{
    let bytes = first + empty_line(carriage) + rest;
    let n = first.len() as int;
    lemma_block_end(bytes, 0);
    let at = block_end(bytes, 0);
    if carriage {
        assert(bytes[n] == 13 && bytes[n + 1] == 10 && bytes[n + 2] == 13 && bytes[n + 3] == 10);
        assert(crlf_at(bytes, n));
        assert(!lf_at(bytes, n));
    } else {
        assert(bytes[n] == 10 && bytes[n + 1] == 10);
        assert(lf_at(bytes, n));
    }
    assert(at <= n);
    if at < n {
        assert(!empty_line_at(bytes, at));
    }
    assert(bytes.take(n) =~= first);
    assert(bytes.skip(n + separator_len(bytes, n)) =~= rest);
    lemma_events_first(first, blocks(rest));
}

proof fn lemma_events_first(first: Seq<u8>, list: Seq<Seq<u8>>)
    ensures
        block_events(seq![first] + list) == (match block_event(text_of(first)) {
            Some(event) => seq![event] + block_events(list),
            None => block_events(list),
        }),
    decreases list.len(),
{
    let all = seq![first] + list;
    if list.len() == 0 {
        assert(all.drop_last() =~= Seq::<Seq<u8>>::empty());
        assert(all.last() == first);
        assert(block_events(all.drop_last()) =~= Seq::<EventView>::empty());
        assert(block_events(list) =~= Seq::<EventView>::empty());
        if let Some(event) = block_event(text_of(first)) {
            assert(block_events(all) =~= seq![event]);
            assert(seq![event] + block_events(list) =~= seq![event]);
        }
    } else {
        let short = list.drop_last();
        lemma_events_first(first, short);
        assert(all.drop_last() =~= seq![first] + short);
        assert(all.last() == list.last());
        if let Some(event) = block_event(text_of(first)) {
            assert(block_events(all) =~= seq![event] + block_events(list));
        }
    }
}

}
