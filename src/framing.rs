//! Framing codecs: raw pass-through, newline-delimited lines, and
//! length-prefixed messages (a header block that ends in a blank line and
//! states the body's length in bytes, followed by exactly that many bytes).
use vstd::prelude::*;

verus! {

/// The byte `\n`.
pub const NEWLINE: u8 = 10;

/// The byte `\r`.
pub const CARRIAGE_RETURN: u8 = 13;

/// Bytes that are trimmed from both ends of a header line: space, tab,
/// newline, vertical tab, form feed and carriage return.
pub open spec fn is_header_space(b: u8) -> bool {
    b == 32 || b == 9 || b == 10 || b == 11 || b == 12 || b == 13
}

pub open spec fn trim_start(s: Seq<u8>) -> Seq<u8>
    decreases s.len(),
{
    if s.len() > 0 && is_header_space(s[0]) {
        trim_start(s.drop_first())
    } else {
        s
    }
}

pub open spec fn trim_end(s: Seq<u8>) -> Seq<u8>
    decreases s.len(),
{
    if s.len() > 0 && is_header_space(s.last()) {
        trim_end(s.drop_last())
    } else {
        s
    }
}

/// A header line without its leading and trailing white space.
pub open spec fn trim(s: Seq<u8>) -> Seq<u8> {
    trim_end(trim_start(s))
}

/// The header key that carries the body length: `Content-Length: ` in ASCII.
pub open spec fn length_key() -> Seq<u8> {
    seq![67u8, 111, 110, 116, 101, 110, 116, 45, 76, 101, 110, 103, 116, 104, 58, 32]
}

pub open spec fn is_digit(b: u8) -> bool {
    48 <= b <= 57
}

pub open spec fn all_digits(s: Seq<u8>) -> bool {
    forall|i: int| 0 <= i < s.len() ==> is_digit(#[trigger] s[i])
}

/// The number that a sequence of decimal digits denotes.
pub open spec fn digits_value(s: Seq<u8>) -> nat
    decreases s.len(),
{
    if s.len() == 0 {
        0
    } else {
        digits_value(s.drop_last()) * 10 + (s.last() - 48) as nat
    }
}

/// A header value read as an unsigned machine-size integer: an optional `+`,
/// then one or more decimal digits, whose value fits in `usize`.
pub open spec fn parse_length(t: Seq<u8>) -> Option<nat> {
    let d = if t.len() > 0 && t[0] == 43 { t.drop_first() } else { t };
    if d.len() > 0 && all_digits(d) && digits_value(d) <= usize::MAX {
        Some(digits_value(d))
    } else {
        None
    }
}

/// The body length after reading one non-blank header line: a line that
/// starts with the length key sets it to its value, or to zero where the value
/// is not a valid length; any other line leaves it as it was.
pub open spec fn header_update(length: nat, line: Seq<u8>) -> nat {
    let t = trim(line);
    if t.len() >= length_key().len() && t.subrange(0, length_key().len() as int) == length_key() {
        match parse_length(t.skip(length_key().len() as int)) {
            Some(v) => v,
            None => 0,
        }
    } else {
        length
    }
}

proof fn lemma_digits_value_prefix_monotone(s: Seq<u8>, j: int, k: int)
    requires
        0 <= j <= k <= s.len(),
        all_digits(s),
    ensures
        digits_value(s.subrange(0, j)) <= digits_value(s.subrange(0, k)),
    decreases k - j,
{
    if j < k {
        lemma_digits_value_prefix_monotone(s, j, k - 1);
        assert(s.subrange(0, k).drop_last() =~= s.subrange(0, k - 1));
    }
}

/// Bounds `(start, end)` such that `line[start..end]` is the trimmed line.
fn trim_bounds(line: &[u8]) -> (r: (usize, usize))
    ensures
        r.0 <= r.1 <= line@.len(),
        line@.subrange(r.0 as int, r.1 as int) == trim(line@),
{
    let n = line.len();
    let mut start: usize = 0;
    assert(line@.subrange(0, n as int) =~= line@);
    while start < n && (line[start] == 32 || line[start] == 9 || line[start] == 10
        || line[start] == 11 || line[start] == 12 || line[start] == 13)
        invariant
            start <= n == line@.len(),
            trim_start(line@) == trim_start(line@.subrange(start as int, n as int)),
        decreases n - start,
    {
        assert(line@.subrange(start as int, n as int).drop_first() =~= line@.subrange(
            start + 1,
            n as int,
        ));
        start = start + 1;
    }
    assert(trim_start(line@) == line@.subrange(start as int, n as int));
    let mut end: usize = n;
    while end > start && (line[end - 1] == 32 || line[end - 1] == 9 || line[end - 1] == 10
        || line[end - 1] == 11 || line[end - 1] == 12 || line[end - 1] == 13)
        invariant
            start <= end <= n == line@.len(),
            trim(line@) == trim_end(line@.subrange(start as int, end as int)),
        decreases end - start,
    {
        assert(line@.subrange(start as int, end as int).drop_last() =~= line@.subrange(
            start as int,
            end - 1,
        ));
        end = end - 1;
    }
    (start, end)
}

/// Whether `t[from..to]` starts with the length key.
fn has_length_key(t: &[u8], from: usize, to: usize) -> (r: bool)
    requires
        from <= to <= t@.len(),
    ensures
        r == (to - from >= length_key().len() && t@.subrange(from as int, to as int).subrange(
            0,
            length_key().len() as int,
        ) == length_key()),
{
    let key: [u8; 16] = [67, 111, 110, 116, 101, 110, 116, 45, 76, 101, 110, 103, 116, 104, 58, 32];
    assert(key@ =~= length_key());
    if to - from < 16 {
        return false;
    }
    let mut i: usize = 0;
    while i < 16
        invariant
            from + 16 <= to <= t@.len(),
            key@ == length_key(),
            i <= 16,
            forall|k: int| 0 <= k < i ==> t@[from + k] == key@[k],
        decreases 16 - i,
    {
        if t[from + i] != key[i] {
            assert(t@.subrange(from as int, to as int).subrange(0, 16)[i as int] != length_key()[i as int]);
            return false;
        }
        i = i + 1;
    }
    assert(t@.subrange(from as int, to as int).subrange(0, 16) =~= length_key());
    true
}

/// Reads `t[from..to]` as a length, as `parse_length` states.
fn parse_length_at(t: &[u8], from: usize, to: usize) -> (r: Option<usize>)
    requires
        from <= to <= t@.len(),
    ensures
        r matches Some(v) ==> parse_length(t@.subrange(from as int, to as int)) == Some(v as nat),
        r is None ==> parse_length(t@.subrange(from as int, to as int)) is None,
{
    let ghost s = t@.subrange(from as int, to as int);
    let mut i: usize = from;
    if i < to && t[i] == 43 {
        i = i + 1;
    }
    let ghost d = if s.len() > 0 && s[0] == 43 { s.drop_first() } else { s };
    assert(d =~= t@.subrange(i as int, to as int));
    if i == to {
        return None;
    }
    let start = i;
    let mut acc: usize = 0;
    let mut overflow = false;
    let ghost mut over_at: int = 0;
    while i < to
        invariant
            start <= i <= to <= t@.len(),
            d == t@.subrange(start as int, to as int),
            s == t@.subrange(from as int, to as int),
            d == (if s.len() > 0 && s[0] == 43 { s.drop_first() } else { s }),
            forall|k: int| start <= k < i ==> is_digit(#[trigger] t@[k]),
            !overflow ==> acc as nat == digits_value(t@.subrange(start as int, i as int)),
            overflow ==> start <= over_at <= i && digits_value(t@.subrange(start as int, over_at))
                > usize::MAX,
        decreases to - i,
    {
        let b = t[i];
        if b < 48 || b > 57 {
            assert(!is_digit(d[i - start]));
            assert(!all_digits(d));
            assert(parse_length(s) is None);
            return None;
        }
        if !overflow {
            let digit = (b - 48) as usize;
            assert(t@.subrange(start as int, i + 1).drop_last() =~= t@.subrange(
                start as int,
                i as int,
            ));
            if acc > (usize::MAX - digit) / 10 {
                assert(acc * 10 + digit > usize::MAX) by (nonlinear_arith)
                    requires
                        acc > (usize::MAX - digit) / 10,
                        digit <= 9,
                ;
                overflow = true;
                proof {
                    over_at = i + 1;
                }
            } else {
                acc = acc * 10 + digit;
            }
        }
        i = i + 1;
    }
    assert(t@.subrange(start as int, i as int) =~= d);
    if overflow {
        proof {
            assert(all_digits(d));
            lemma_digits_value_prefix_monotone(d, over_at - start, d.len() as int);
            assert(d.subrange(0, over_at - start) =~= t@.subrange(start as int, over_at));
            assert(d.subrange(0, d.len() as int) =~= d);
        }
        return None;
    }
    Some(acc)
}


/// The frames that one step of a decoder may emit: none or one.
pub open spec fn opt_frames(f: Option<Seq<u8>>) -> Seq<Seq<u8>> {
    match f {
        Some(frame) => seq![frame],
        None => Seq::empty(),
    }
}

/// Runs a byte-at-a-time decoder over `s` from state `st`: the state it ends
/// in and the frames it emitted, in order.
pub open spec fn run_bytes<S>(step: spec_fn(S, u8) -> (S, Option<Seq<u8>>), st: S, s: Seq<u8>) -> (
    S,
    Seq<Seq<u8>>,
)
    decreases s.len(),
{
    if s.len() == 0 {
        (st, Seq::empty())
    } else {
        let (st1, out1) = run_bytes(step, st, s.drop_last());
        let (st2, f) = step(st1, s.last());
        (st2, out1 + opt_frames(f))
    }
}

/// Feeds the chunks one after the other: the final state and all frames
/// emitted over the chunks, in order.
pub open spec fn run_chunks<S>(
    step: spec_fn(S, u8) -> (S, Option<Seq<u8>>),
    st: S,
    chunks: Seq<Seq<u8>>,
) -> (S, Seq<Seq<u8>>)
    decreases chunks.len(),
{
    if chunks.len() == 0 {
        (st, Seq::empty())
    } else {
        let (st1, out1) = run_bytes(step, st, chunks[0]);
        let (st2, out2) = run_chunks(step, st1, chunks.drop_first());
        (st2, out1 + out2)
    }
}

/// Running over `a + b` is running over `a`, then over `b` from where `a` left off.
pub proof fn lemma_run_bytes_concat<S>(
    step: spec_fn(S, u8) -> (S, Option<Seq<u8>>),
    st: S,
    a: Seq<u8>,
    b: Seq<u8>,
)
    ensures
        run_bytes(step, st, a + b) == (
            run_bytes(step, run_bytes(step, st, a).0, b).0,
            run_bytes(step, st, a).1 + run_bytes(step, run_bytes(step, st, a).0, b).1,
        ),
    decreases b.len(),
{
    let mid = run_bytes(step, st, a).0;
    if b.len() == 0 {
        assert(a + b =~= a);
        assert(run_bytes(step, st, a).1 + Seq::<Seq<u8>>::empty() =~= run_bytes(step, st, a).1);
    } else {
        assert((a + b).drop_last() =~= a + b.drop_last());
        assert((a + b).last() == b.last());
        lemma_run_bytes_concat(step, st, a, b.drop_last());
        let (st1, out1) = run_bytes(step, mid, b.drop_last());
        let (st2, f) = step(st1, b.last());
        assert(run_bytes(step, st, a).1 + out1 + opt_frames(f) =~= run_bytes(step, st, a).1 + (out1
            + opt_frames(f)));
    }
}

/// Feeding a stream in chunks, one after the other, emits the same frames and
/// ends in the same state as feeding it in one piece.
pub proof fn lemma_run_chunks_flatten<S>(
    step: spec_fn(S, u8) -> (S, Option<Seq<u8>>),
    st: S,
    chunks: Seq<Seq<u8>>,
)
    ensures
        run_chunks(step, st, chunks) == run_bytes(step, st, chunks.flatten()),
    decreases chunks.len(),
{
    if chunks.len() == 0 {
        assert(chunks.flatten() =~= Seq::<u8>::empty());
    } else {
        let (st1, out1) = run_bytes(step, st, chunks[0]);
        lemma_run_chunks_flatten(step, st1, chunks.drop_first());
        lemma_run_bytes_concat(step, st, chunks[0], chunks.drop_first().flatten());
        assert(chunks.flatten() == chunks[0] + chunks.drop_first().flatten());
    }
}

/// The state of a length-prefixed decoder between two bytes: the header line
/// read so far, the body length that the header block has stated so far,
/// whether the body is being read, and the body bytes read so far.
pub struct LengthState {
    pub line: Seq<u8>,
    pub length: nat,
    pub in_body: bool,
    pub body: Seq<u8>,
}

/// At the start of a header block.
pub open spec fn length_initial() -> LengthState {
    LengthState { line: Seq::empty(), length: 0, in_body: false, body: Seq::empty() }
}

/// One byte of length-prefixed decoding. A header line ends at `\n`; a blank
/// line ends the header block. A block that stated no length, or a length of
/// zero, is skipped; otherwise exactly that many body bytes form one frame.
pub open spec fn length_step(st: LengthState, b: u8) -> (LengthState, Option<Seq<u8>>) {
    if st.in_body {
        let body = st.body.push(b);
        if body.len() >= st.length {
            (length_initial(), Some(body))
        } else {
            (LengthState { body, ..st }, None)
        }
    } else if b == NEWLINE {
        let line = st.line.push(b);
        if trim(line).len() == 0 {
            if st.length == 0 {
                (length_initial(), None)
            } else {
                (
                    LengthState {
                        line: Seq::empty(),
                        length: st.length,
                        in_body: true,
                        body: Seq::empty(),
                    },
                    None,
                )
            }
        } else {
            (
                LengthState {
                    line: Seq::empty(),
                    length: header_update(st.length, line),
                    in_body: false,
                    body: Seq::empty(),
                },
                None,
            )
        }
    } else {
        (LengthState { line: st.line.push(b), ..st }, None)
    }
}

/// Length-prefixed decoding as a step function for `run_bytes`.
pub open spec fn length_machine() -> spec_fn(LengthState, u8) -> (LengthState, Option<Seq<u8>>) {
    |st: LengthState, b: u8| length_step(st, b)
}

/// The frames that length-prefixed decoding takes from a whole stream.
pub open spec fn length_frames(s: Seq<u8>) -> Seq<Seq<u8>> {
    run_bytes(length_machine(), length_initial(), s).1
}

/// Decodes length-prefixed frames from a stream that arrives in chunks.
pub struct LengthPrefixedDecoder {
    line: Vec<u8>,
    length: usize,
    in_body: bool,
    body: Vec<u8>,
}

impl View for LengthPrefixedDecoder {
    type V = LengthState;

    closed spec fn view(&self) -> LengthState {
        LengthState {
            line: self.line@,
            length: self.length as nat,
            in_body: self.in_body,
            body: self.body@,
        }
    }
}

impl LengthPrefixedDecoder {
    pub fn new() -> (r: Self)
        ensures
            r@ == length_initial(),
    {
        LengthPrefixedDecoder { line: Vec::new(), length: 0, in_body: false, body: Vec::new() }
    }

    fn push_byte(&mut self, b: u8) -> (r: Option<Vec<u8>>)
        ensures
            length_step(old(self)@, b) == (final(self)@, r.deep_view()),
    {
        if self.in_body {
            self.body.push(b);
            if self.body.len() >= self.length {
                let mut frame = Vec::new();
                std::mem::swap(&mut frame, &mut self.body);
                self.length = 0;
                self.in_body = false;
                self.line = Vec::new();
                return Some(frame);
            }
            return None;
        }
        self.line.push(b);
        if b != NEWLINE {
            return None;
        }
        let (start, end) = trim_bounds(self.line.as_slice());
        self.body = Vec::new();
        if start == end {
            self.line = Vec::new();
            if self.length > 0 {
                self.in_body = true;
            }
            return None;
        }
        if has_length_key(self.line.as_slice(), start, end) {
            proof {
                let t = self.line@.subrange(start as int, end as int);
                assert(t.skip(16) =~= self.line@.subrange(start + 16, end as int));
            }
            self.length = match parse_length_at(self.line.as_slice(), start + 16, end) {
                Some(v) => v,
                None => 0,
            };
        }
        self.line = Vec::new();
        None
    }

    /// Decodes the next chunk of the stream: the frames that it completes,
    /// in order. Bytes of an unfinished frame are kept for the next chunk.
    pub fn feed(&mut self, chunk: &[u8]) -> (r: Vec<Vec<u8>>)
        ensures
            (final(self)@, r.deep_view()) == run_bytes(length_machine(), old(self)@, chunk@),
    {
        let ghost step = length_machine();
        let mut frames: Vec<Vec<u8>> = Vec::new();
        let mut i: usize = 0;
        assert(chunk@.subrange(0, 0) =~= Seq::<u8>::empty());
        assert(frames.deep_view() =~= Seq::<Seq<u8>>::empty());
        while i < chunk.len()
            invariant
                i <= chunk@.len(),
                step == length_machine(),
                (self@, frames.deep_view()) == run_bytes(step, old(self)@, chunk@.subrange(0, i as int)),
            decreases chunk@.len() - i,
        {
            assert(chunk@.subrange(0, i + 1).drop_last() =~= chunk@.subrange(0, i as int));
            let ghost prev = self@;
            let out = self.push_byte(chunk[i]);
            let ghost before = frames.deep_view();
            let ghost g = out.deep_view();
            match out {
                Some(f) => {
                    frames.push(f);
                },
                None => {},
            }
            assert(frames.deep_view() =~= before + opt_frames(g));
            proof {
                let next = chunk@.subrange(0, i + 1);
                assert(next.last() == chunk@[i as int]);
                assert(step(prev, chunk@[i as int]) == length_step(prev, chunk@[i as int]));
                assert(run_bytes(step, old(self)@, next) == (self@, frames.deep_view()));
            }
            i = i + 1;
        }
        assert(chunk@.subrange(0, i as int) =~= chunk@);
        frames
    }
}

/// A line without the `\r` that ends it, if any.
pub open spec fn strip_carriage_return(line: Seq<u8>) -> Seq<u8> {
    if line.len() > 0 && line.last() == CARRIAGE_RETURN {
        line.drop_last()
    } else {
        line
    }
}

/// One byte of line-delimited decoding; the state is the line read so far.
/// `\n` ends a line, which is emitted without its `\n` (or `\r\n`).
pub open spec fn line_step(line: Seq<u8>, b: u8) -> (Seq<u8>, Option<Seq<u8>>) {
    if b == NEWLINE {
        (Seq::empty(), Some(strip_carriage_return(line)))
    } else {
        (line.push(b), None)
    }
}

/// Line-delimited decoding as a step function for `run_bytes`.
pub open spec fn line_machine() -> spec_fn(Seq<u8>, u8) -> (Seq<u8>, Option<Seq<u8>>) {
    |line: Seq<u8>, b: u8| line_step(line, b)
}

/// The frames that line-delimited decoding takes from a whole stream.
pub open spec fn line_frames(s: Seq<u8>) -> Seq<Seq<u8>> {
    run_bytes(line_machine(), Seq::empty(), s).1
}

/// Decodes newline-delimited lines from a stream that arrives in chunks.
pub struct LineDecoder {
    line: Vec<u8>,
}

impl View for LineDecoder {
    type V = Seq<u8>;

    closed spec fn view(&self) -> Seq<u8> {
        self.line@
    }
}

impl LineDecoder {
    pub fn new() -> (r: Self)
        ensures
            r@ == Seq::<u8>::empty(),
    {
        LineDecoder { line: Vec::new() }
    }

    /// Decodes the next chunk of the stream: the lines that it completes, in
    /// order. The bytes of an unfinished line are kept for the next chunk.
    pub fn feed(&mut self, chunk: &[u8]) -> (r: Vec<Vec<u8>>)
        ensures
            (final(self)@, r.deep_view()) == run_bytes(line_machine(), old(self)@, chunk@),
    {
        let ghost step = line_machine();
        let mut frames: Vec<Vec<u8>> = Vec::new();
        let mut i: usize = 0;
        assert(chunk@.subrange(0, 0) =~= Seq::<u8>::empty());
        assert(frames.deep_view() =~= Seq::<Seq<u8>>::empty());
        while i < chunk.len()
            invariant
                i <= chunk@.len(),
                step == line_machine(),
                (self@, frames.deep_view()) == run_bytes(step, old(self)@, chunk@.subrange(0, i as int)),
            decreases chunk@.len() - i,
        {
            assert(chunk@.subrange(0, i + 1).drop_last() =~= chunk@.subrange(0, i as int));
            let ghost prev = self@;
            let ghost before = frames.deep_view();
            let b = chunk[i];
            if b == NEWLINE {
                let mut done = Vec::new();
                std::mem::swap(&mut done, &mut self.line);
                let n = done.len();
                if n > 0 && done[n - 1] == CARRIAGE_RETURN {
                    done.pop();
                }
                assert(done@ == strip_carriage_return(prev));
                assert(done.deep_view() =~= done@);
                frames.push(done);
                assert(frames.deep_view() =~= before + opt_frames(Some(strip_carriage_return(prev))));
            } else {
                self.line.push(b);
                assert(frames.deep_view() =~= before + opt_frames(None));
            }
            proof {
                let next = chunk@.subrange(0, i + 1);
                assert(next.last() == b);
                assert(step(prev, b) == line_step(prev, b));
            }
            i = i + 1;
        }
        assert(chunk@.subrange(0, i as int) =~= chunk@);
        frames
    }
}

/// A vector that holds the bytes of `s`.
pub fn copy_bytes(s: &[u8]) -> (r: Vec<u8>)
    ensures
        r@ == s@,
{
    let mut out: Vec<u8> = Vec::with_capacity(s.len());
    let mut i: usize = 0;
    while i < s.len()
        invariant
            i <= s@.len(),
            out@ == s@.subrange(0, i as int),
        decreases s@.len() - i,
    {
        out.push(s[i]);
        assert(out@ =~= s@.subrange(0, i + 1));
        i = i + 1;
    }
    assert(s@.subrange(0, i as int) =~= s@);
    out
}

/// The framing protocols that a session is created with.
#[derive(Clone, Copy, PartialEq, Eq, Debug)]
pub enum FramingMode {
    /// Each read is one frame, as it came.
    Raw,
    /// Each line is one frame, without its line ending.
    LineDelimited,
    /// A header block that states the body length, then the body.
    LengthPrefixed,
}

/// What a decoder holds between two chunks, for each framing mode.
pub enum DecoderState {
    Raw,
    Line(Seq<u8>),
    Length(LengthState),
}

pub open spec fn initial_state(mode: FramingMode) -> DecoderState {
    match mode {
        FramingMode::Raw => DecoderState::Raw,
        FramingMode::LineDelimited => DecoderState::Line(Seq::empty()),
        FramingMode::LengthPrefixed => DecoderState::Length(length_initial()),
    }
}

/// Decoding one chunk: the next state and the frames the chunk completes. In
/// raw mode a non-empty chunk is a frame; an empty read emits nothing.
pub open spec fn decode_chunk(st: DecoderState, chunk: Seq<u8>) -> (DecoderState, Seq<Seq<u8>>) {
    match st {
        DecoderState::Raw => (
            DecoderState::Raw,
            if chunk.len() > 0 { seq![chunk] } else { Seq::empty() },
        ),
        DecoderState::Line(line) => {
            let (next, frames) = run_bytes(line_machine(), line, chunk);
            (DecoderState::Line(next), frames)
        },
        DecoderState::Length(ls) => {
            let (next, frames) = run_bytes(length_machine(), ls, chunk);
            (DecoderState::Length(next), frames)
        },
    }
}

/// Decoding the chunks one after the other: the final state and all frames.
pub open spec fn decode_chunks(st: DecoderState, chunks: Seq<Seq<u8>>) -> (
    DecoderState,
    Seq<Seq<u8>>,
)
    decreases chunks.len(),
{
    if chunks.len() == 0 {
        (st, Seq::empty())
    } else {
        let (st1, out1) = decode_chunk(st, chunks[0]);
        let (st2, out2) = decode_chunks(st1, chunks.drop_first());
        (st2, out1 + out2)
    }
}

/// A decoder for one framing mode, fixed when it is made.
pub enum FrameDecoder {
    Raw,
    LineDelimited(LineDecoder),
    LengthPrefixed(LengthPrefixedDecoder),
}

impl View for FrameDecoder {
    type V = DecoderState;

    closed spec fn view(&self) -> DecoderState {
        match self {
            FrameDecoder::Raw => DecoderState::Raw,
            FrameDecoder::LineDelimited(d) => DecoderState::Line(d@),
            FrameDecoder::LengthPrefixed(d) => DecoderState::Length(d@),
        }
    }
}

impl FrameDecoder {
    pub fn new(mode: FramingMode) -> (r: Self)
        ensures
            r@ == initial_state(mode),
    {
        match mode {
            FramingMode::Raw => FrameDecoder::Raw,
            FramingMode::LineDelimited => FrameDecoder::LineDelimited(LineDecoder::new()),
            FramingMode::LengthPrefixed => FrameDecoder::LengthPrefixed(LengthPrefixedDecoder::new()),
        }
    }

    /// Decodes the next chunk read from the stream: the frames it completes,
    /// in the order in which they were read.
    pub fn feed(&mut self, chunk: &[u8]) -> (r: Vec<Vec<u8>>)
        ensures
            (final(self)@, r.deep_view()) == decode_chunk(old(self)@, chunk@),
    {
        match self {
            FrameDecoder::Raw => {
                let mut frames: Vec<Vec<u8>> = Vec::new();
                if chunk.len() > 0 {
                    let c = copy_bytes(chunk);
                    assert(c.deep_view() =~= c@);
                    frames.push(c);
                }
                assert(frames.deep_view() =~= (if chunk@.len() > 0 {
                    seq![chunk@]
                } else {
                    Seq::empty()
                }));
                frames
            },
            FrameDecoder::LineDelimited(d) => d.feed(chunk),
            FrameDecoder::LengthPrefixed(d) => d.feed(chunk),
        }
    }
}

proof fn lemma_decode_chunks_length(ls: LengthState, chunks: Seq<Seq<u8>>)
    ensures
        decode_chunks(DecoderState::Length(ls), chunks) == (
            DecoderState::Length(run_chunks(length_machine(), ls, chunks).0),
            run_chunks(length_machine(), ls, chunks).1,
        ),
    decreases chunks.len(),
{
    if chunks.len() > 0 {
        let (st1, out1) = run_bytes(length_machine(), ls, chunks[0]);
        lemma_decode_chunks_length(st1, chunks.drop_first());
    }
}

/// Length-prefixed decoding does not depend on how the stream was split into
/// reads: feeding the chunks one after the other emits exactly the frames
/// that decoding the whole stream at once emits.
pub proof fn lemma_length_prefixed_chunking(chunks: Seq<Seq<u8>>)
    ensures
        decode_chunks(initial_state(FramingMode::LengthPrefixed), chunks).1 == length_frames(
            chunks.flatten(),
        ),
{
    lemma_decode_chunks_length(length_initial(), chunks);
    lemma_run_chunks_flatten(length_machine(), length_initial(), chunks);
}

proof fn lemma_decode_chunks_line(line: Seq<u8>, chunks: Seq<Seq<u8>>)
    ensures
        decode_chunks(DecoderState::Line(line), chunks) == (
            DecoderState::Line(run_chunks(line_machine(), line, chunks).0),
            run_chunks(line_machine(), line, chunks).1,
        ),
    decreases chunks.len(),
{
    if chunks.len() > 0 {
        let (st1, out1) = run_bytes(line_machine(), line, chunks[0]);
        lemma_decode_chunks_line(st1, chunks.drop_first());
    }
}

/// Line-delimited decoding does not depend on how the stream was split into
/// reads either: the chunks fed one after the other give the lines of the
/// whole stream.
pub proof fn lemma_line_delimited_chunking(chunks: Seq<Seq<u8>>)
    ensures
        decode_chunks(initial_state(FramingMode::LineDelimited), chunks).1 == line_frames(
            chunks.flatten(),
        ),
{
    lemma_decode_chunks_line(Seq::empty(), chunks);
    lemma_run_chunks_flatten(line_machine(), Seq::empty(), chunks);
}

proof fn lemma_line_without_newline(line: Seq<u8>, p: Seq<u8>)
    requires
        forall|i: int| 0 <= i < p.len() ==> p[i] != NEWLINE,
    ensures
        run_bytes(line_machine(), line, p) == (line + p, Seq::<Seq<u8>>::empty()),
    decreases p.len(),
{
    if p.len() == 0 {
        assert(line + p =~= line);
    } else {
        lemma_line_without_newline(line, p.drop_last());
        assert(line + p.drop_last() + seq![p.last()] =~= line + p);
        assert((line + p.drop_last()).push(p.last()) =~= line + p);
        assert(Seq::<Seq<u8>>::empty() + opt_frames(None) =~= Seq::<Seq<u8>>::empty());
    }
}

/// Line-delimited decoding emits no frame for a final line that has no
/// newline: bytes after the last newline add nothing to the frames.
pub proof fn lemma_partial_line_emits_nothing(t: Seq<u8>, p: Seq<u8>)
    requires
        forall|i: int| 0 <= i < p.len() ==> p[i] != NEWLINE,
    ensures
        line_frames(t + p) == line_frames(t),
{
    lemma_run_bytes_concat(line_machine(), Seq::empty(), t, p);
    let mid = run_bytes(line_machine(), Seq::empty(), t).0;
    lemma_line_without_newline(mid, p);
    assert(line_frames(t) + Seq::<Seq<u8>>::empty() =~= line_frames(t));
}

/// The decimal digits of `n`, most significant first, in ASCII.
pub open spec fn decimal(n: nat) -> Seq<u8>
    decreases n,
{
    if n < 10 {
        seq![(48 + n) as u8]
    } else {
        decimal(n / 10).push((48 + n % 10) as u8)
    }
}

/// The bytes `\r\n\r\n` that end a length header and its block.
pub open spec fn header_end() -> Seq<u8> {
    seq![13u8, 10, 13, 10]
}

/// The bytes that carry `payload` to the endpoint under each framing mode.
pub open spec fn encoded(mode: FramingMode, payload: Seq<u8>) -> Seq<u8> {
    match mode {
        FramingMode::LengthPrefixed => length_key() + decimal(payload.len()) + header_end() + payload,
        _ => payload,
    }
}

fn push_decimal(out: &mut Vec<u8>, n: usize)
    ensures
        final(out)@ == old(out)@ + decimal(n as nat),
    decreases n,
{
    if n >= 10 {
        push_decimal(out, n / 10);
    }
    out.push(48 + (n % 10) as u8);
    assert(final(out)@ =~= old(out)@ + decimal(n as nat)) by {
        if n >= 10 {
            assert(decimal(n as nat) == decimal((n / 10) as nat).push((48 + n % 10) as u8));
        }
    };
}

/// The whole outbound message for `payload`, built before it is written so
/// that it goes out in one piece: a length header, a blank line and the
/// payload for length-prefixed framing; the payload as it is otherwise.
pub fn encode_frame(mode: FramingMode, payload: &[u8]) -> (r: Vec<u8>)
    ensures
        r@ == encoded(mode, payload@),
{
    match mode {
        FramingMode::LengthPrefixed => {
            let mut out: Vec<u8> = vec![67u8, 111, 110, 116, 101, 110, 116, 45, 76, 101, 110, 103, 116, 104, 58, 32];
            assert(out@ =~= length_key());
            push_decimal(&mut out, payload.len());
            out.push(13);
            out.push(10);
            out.push(13);
            out.push(10);
            let mut i: usize = 0;
            let ghost head = out@;
            assert(head =~= length_key() + decimal(payload@.len()) + header_end());
            while i < payload.len()
                invariant
                    i <= payload@.len(),
                    out@ == head + payload@.subrange(0, i as int),
                decreases payload@.len() - i,
            {
                out.push(payload[i]);
                assert(out@ =~= head + payload@.subrange(0, i + 1));
                i = i + 1;
            }
            assert(payload@.subrange(0, i as int) =~= payload@);
            out
        },
        _ => copy_bytes(payload),
    }
}

proof fn lemma_decimal_digits(n: nat)
    ensures
        decimal(n).len() > 0,
        all_digits(decimal(n)),
        digits_value(decimal(n)) == n,
    decreases n,
{
    if n >= 10 {
        lemma_decimal_digits(n / 10);
        let d = decimal(n / 10);
        assert(decimal(n).drop_last() =~= d);
        assert((n / 10) * 10 + n % 10 == n) by (nonlinear_arith);
        let last = (48 + n % 10) as u8;
        assert(decimal(n).last() == last);
        assert(last - 48 == n % 10);
        assert(digits_value(decimal(n)) == digits_value(d) * 10 + (last - 48) as nat);
        assert forall|i: int| 0 <= i < decimal(n).len() implies is_digit(#[trigger] decimal(n)[i]) by {
            if i < d.len() {
                assert(decimal(n)[i] == d[i]);
            }
        };
    } else {
        assert(decimal(n).drop_last() =~= Seq::<u8>::empty());
        let last = (48 + n) as u8;
        assert(decimal(n).last() == last);
        assert(digits_value(decimal(n)) == digits_value(Seq::<u8>::empty()) * 10 + (last
            - 48) as nat);
    }
}

proof fn lemma_trim_of_digits_line(d: Seq<u8>)
    requires
        d.len() > 0,
        all_digits(d),
    ensures
        trim(length_key() + d + seq![13u8, 10u8]) == length_key() + d,
{
    let line = length_key() + d + seq![13u8, 10u8];
    assert(!is_header_space(line[0]));
    assert(trim_start(line) == line);
    let once = line.drop_last();
    assert(once =~= length_key() + d + seq![13u8]);
    assert(once.drop_last() =~= length_key() + d);
    let kd = length_key() + d;
    assert(kd.last() == d.last());
    assert(is_digit(d[d.len() - 1]));
    assert(trim_end(kd) == kd);
    assert(line.last() == 10u8);
    assert(trim_end(line) == trim_end(once));
    assert(once.last() == 13u8);
    assert(trim_end(once) == trim_end(kd));
}

proof fn lemma_header_bytes(st: LengthState, x: Seq<u8>)
    requires
        !st.in_body,
        forall|i: int| 0 <= i < x.len() ==> x[i] != NEWLINE,
    ensures
        run_bytes(length_machine(), st, x) == (
            LengthState { line: st.line + x, ..st },
            Seq::<Seq<u8>>::empty(),
        ),
    decreases x.len(),
{
    if x.len() == 0 {
        assert(st.line + x =~= st.line);
    } else {
        lemma_header_bytes(st, x.drop_last());
        assert((st.line + x.drop_last()).push(x.last()) =~= st.line + x);
        assert(Seq::<Seq<u8>>::empty() + opt_frames(None) =~= Seq::<Seq<u8>>::empty());
    }
}

proof fn lemma_body_bytes(length: nat, body: Seq<u8>, x: Seq<u8>)
    requires
        body.len() + x.len() < length,
    ensures
        run_bytes(
            length_machine(),
            LengthState { line: Seq::empty(), length, in_body: true, body },
            x,
        ) == (
            LengthState { line: Seq::empty(), length, in_body: true, body: body + x },
            Seq::<Seq<u8>>::empty(),
        ),
    decreases x.len(),
{
    if x.len() == 0 {
        assert(body + x =~= body);
    } else {
        lemma_body_bytes(length, body, x.drop_last());
        assert((body + x.drop_last()).push(x.last()) =~= body + x);
        assert(Seq::<Seq<u8>>::empty() + opt_frames(None) =~= Seq::<Seq<u8>>::empty());
    }
}

/// Decoding what the length-prefixed encoder emits gives back the payload as
/// one frame; an empty payload states a length of zero and gives no frame.
pub proof fn lemma_length_prefixed_round_trip(payload: Seq<u8>)
    requires
        payload.len() <= usize::MAX,
    ensures
        length_frames(encoded(FramingMode::LengthPrefixed, payload)) == (if payload.len() == 0 {
            Seq::<Seq<u8>>::empty()
        } else {
            seq![payload]
        }),
{
    let m = length_machine();
    let n = payload.len();
    let d = decimal(n);
    lemma_decimal_digits(n);
    let head = length_key() + d + seq![13u8];
    let blank = seq![10u8, 13u8, 10u8];
    let all = encoded(FramingMode::LengthPrefixed, payload);
    assert(all =~= head + blank + payload);
    // The header line, up to its newline.
    assert forall|i: int| 0 <= i < head.len() implies head[i] != NEWLINE by {
        if i < 16 {
            assert(head[i] == length_key()[i]);
        } else if i < 16 + d.len() {
            assert(head[i] == d[i - 16]);
            assert(is_digit(d[i - 16]));
        }
    };
    lemma_header_bytes(length_initial(), head);
    let s1 = LengthState { line: head, ..length_initial() };
    assert(length_initial().line + head =~= head);
    // The newline ends the header line, which states the length.
    lemma_trim_of_digits_line(d);
    assert(head.push(10u8) =~= length_key() + d + seq![13u8, 10u8]);
    let t = length_key() + d;
    assert(t.subrange(0, 16) =~= length_key());
    assert(t.skip(16) =~= d);
    assert(!(d.len() > 0 && d[0] == 43)) by {
        assert(is_digit(d[0]));
    };
    assert(parse_length(d) == Some(n));
    assert(header_update(0, head.push(10u8)) == n);
    let s2 = LengthState { line: Seq::empty(), length: n, in_body: false, body: Seq::empty() };
    assert(m(s1, 10u8) == (s2, None::<Seq<u8>>));
    // Then `\r` and the newline of the blank line.
    let s3 = LengthState { line: seq![13u8], ..s2 };
    assert(s2.line.push(13u8) =~= seq![13u8]);
    assert(m(s2, 13u8) == (s3, None::<Seq<u8>>));
    assert(seq![13u8].push(10u8) =~= seq![13u8, 10u8]);
    assert(trim_start(seq![13u8, 10u8]) == Seq::<u8>::empty()) by {
        assert(seq![13u8, 10u8].drop_first() =~= seq![10u8]);
        assert(seq![10u8].drop_first() =~= Seq::<u8>::empty());
        assert(seq![13u8, 10u8][0] == 13u8);
        assert(seq![10u8][0] == 10u8);
        assert(trim_start(seq![13u8, 10u8]) == trim_start(seq![10u8]));
        assert(trim_start(seq![10u8]) == trim_start(Seq::<u8>::empty()));
    };
    assert(trim_end(Seq::<u8>::empty()) == Seq::<u8>::empty());
    let s4 = if n == 0 {
        length_initial()
    } else {
        LengthState { line: Seq::empty(), length: n, in_body: true, body: Seq::empty() }
    };
    assert(m(s3, 10u8) == (s4, None::<Seq<u8>>));
    // The three steps over the blank line, one by one.
    assert(blank.drop_last() =~= seq![10u8, 13u8]);
    assert(seq![10u8, 13u8].drop_last() =~= seq![10u8]);
    assert(seq![10u8].drop_last() =~= Seq::<u8>::empty());
    let e = Seq::<Seq<u8>>::empty();
    assert(run_bytes(m, s1, Seq::<u8>::empty()) == (s1, e));
    assert(e + opt_frames(None) =~= e);
    assert(run_bytes(m, s1, seq![10u8]) == (s2, e));
    assert(run_bytes(m, s1, seq![10u8, 13u8]) == (s3, e));
    assert(run_bytes(m, s1, blank) == (s4, e));
    lemma_run_bytes_concat(m, length_initial(), head, blank);
    assert(run_bytes(m, length_initial(), head + blank) == (s4, e + e));
    assert(e + e =~= e);
    lemma_run_bytes_concat(m, length_initial(), head + blank, payload);
    if n == 0 {
        assert(payload =~= Seq::<u8>::empty());
        assert(run_bytes(m, s4, payload) == (s4, e));
    } else {
        let front = payload.drop_last();
        lemma_body_bytes(n, Seq::empty(), front);
        assert(Seq::<u8>::empty() + front =~= front);
        assert(front.push(payload.last()) =~= payload);
        assert(run_bytes(m, s4, payload).1 =~= e + seq![payload]);
        assert(e + seq![payload] =~= seq![payload]);
    }
    assert(e + run_bytes(m, s4, payload).1 =~= run_bytes(m, s4, payload).1);
}

} // verus!
