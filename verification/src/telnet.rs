//! The frame codec: a resumable state machine that turns an incoming byte
//! stream into discrete events (text lines and control sequences) and turns
//! outgoing text back into wire bytes.
//!
//! The decoder is specified by a byte-at-a-time transition function `step`;
//! `run` folds it over a byte sequence.  Because the executable decoder is
//! proved to follow `run` exactly, decoding is invariant under how the stream
//! is split into chunks (`lemma_run_chunks`).

use vstd::prelude::*;
use vstd::string::StringSliceAdditionalSpecFns;

verus! {

/// Command introducer: the next byte classifies the control action.
pub const BYTE_IAC: u8 = 255;

pub const BYTE_NOP: u8 = 241;

pub const BYTE_SB: u8 = 250;

pub const BYTE_SE: u8 = 240;

pub const BYTE_WILL: u8 = 251;

pub const BYTE_WONT: u8 = 252;

pub const BYTE_DO: u8 = 253;

pub const BYTE_DONT: u8 = 254;

/// The newline byte that terminates a decoded line.
pub const BYTE_LF: u8 = 10;

/// A carriage return just before the terminator is stripped from the line.
pub const BYTE_CR: u8 = 13;

/// One decoded unit of the incoming stream.
#[derive(Debug)]
pub enum TelnetEvent {
    /// A complete text line, without its terminator.
    Data(Vec<u8>),
    /// An unknown control action, surfaced opaquely and otherwise ignored.
    IAC,
    NOP,
    SB,
    SE,
    WILL(u8),
    WONT(u8),
    DO(u8),
    DONT(u8),
}

/// The mathematical value of one decoded event.
#[verifier::ext_equal]
pub enum EventModel {
    Data(Seq<u8>),
    Iac,
    Nop,
    Sb,
    Se,
    Will(u8),
    Wont(u8),
    Do(u8),
    Dont(u8),
}

impl View for TelnetEvent {
    type V = EventModel;

    open spec fn view(&self) -> EventModel {
        match self {
            TelnetEvent::Data(v) => EventModel::Data(v@),
            TelnetEvent::IAC => EventModel::Iac,
            TelnetEvent::NOP => EventModel::Nop,
            TelnetEvent::SB => EventModel::Sb,
            TelnetEvent::SE => EventModel::Se,
            TelnetEvent::WILL(o) => EventModel::Will(*o),
            TelnetEvent::WONT(o) => EventModel::Wont(*o),
            TelnetEvent::DO(o) => EventModel::Do(*o),
            TelnetEvent::DONT(o) => EventModel::Dont(*o),
        }
    }
}

/// Where the decoder stands between two bytes.
#[derive(Clone, Copy, Debug)]
pub enum CodecMode {
    /// Accumulating printable bytes of the current line.
    Normal,
    /// The last byte was the command introducer.
    Escape,
    /// A control action (the stored verb byte) expects one option byte.
    Pending(u8),
}

/// The abstract decoder state: the mode plus the line collected so far.
#[verifier::ext_equal]
pub struct DecoderState {
    pub mode: CodecMode,
    pub line: Seq<u8>,
}

/// The state a fresh decoder starts in.
pub open spec fn initial_state() -> DecoderState {
    DecoderState { mode: CodecMode::Normal, line: Seq::empty() }
}

/// True of the bytes that introduce a control action after the command
/// introducer; on their own they are malformed and get discarded.
pub open spec fn is_command_byte(b: u8) -> bool {
    b == BYTE_NOP || b == BYTE_SB || b == BYTE_SE || b == BYTE_WILL || b == BYTE_WONT || b
        == BYTE_DO || b == BYTE_DONT
}

/// Strips one carriage return just before the line terminator.
pub open spec fn strip_trailing_cr(line: Seq<u8>) -> Seq<u8> {
    if line.len() > 0 && line.last() == BYTE_CR {
        line.drop_last()
    } else {
        line
    }
}

/// Feeds one byte to the decoder: the next state and at most one event.
pub open spec fn step(st: DecoderState, b: u8) -> (DecoderState, Option<EventModel>) {
    match st.mode {
        CodecMode::Normal => {
            if b == BYTE_IAC {
                (DecoderState { mode: CodecMode::Escape, line: st.line }, None)
            } else if b == BYTE_LF {
                (
                    DecoderState { mode: CodecMode::Normal, line: Seq::empty() },
                    Some(EventModel::Data(strip_trailing_cr(st.line))),
                )
            } else if is_command_byte(b) {
                // A command byte with no introducer: malformed, discarded.
                (st, None)
            } else {
                (DecoderState { mode: CodecMode::Normal, line: st.line.push(b) }, None)
            }
        },
        CodecMode::Escape => {
            if b == BYTE_NOP {
                (DecoderState { mode: CodecMode::Normal, line: st.line }, Some(EventModel::Nop))
            } else if b == BYTE_SB {
                (DecoderState { mode: CodecMode::Normal, line: st.line }, Some(EventModel::Sb))
            } else if b == BYTE_SE {
                (DecoderState { mode: CodecMode::Normal, line: st.line }, Some(EventModel::Se))
            } else if b == BYTE_WILL || b == BYTE_WONT || b == BYTE_DO || b == BYTE_DONT {
                (DecoderState { mode: CodecMode::Pending(b), line: st.line }, None)
            } else {
                // Unknown control action: surfaced opaquely, then dropped.
                (DecoderState { mode: CodecMode::Normal, line: st.line }, Some(EventModel::Iac))
            }
        },
        CodecMode::Pending(verb) => {
            let ev = if verb == BYTE_WILL {
                EventModel::Will(b)
            } else if verb == BYTE_WONT {
                EventModel::Wont(b)
            } else if verb == BYTE_DO {
                EventModel::Do(b)
            } else {
                EventModel::Dont(b)
            };
            (DecoderState { mode: CodecMode::Normal, line: st.line }, Some(ev))
        },
    }
}

/// Folds `step` over a whole byte sequence, collecting every event.
pub open spec fn run(st: DecoderState, input: Seq<u8>) -> (DecoderState, Seq<EventModel>)
    decreases input.len(),
{
    if input.len() == 0 {
        (st, Seq::empty())
    } else {
        let (st1, ev) = step(st, input.first());
        let (st2, evs) = run(st1, input.drop_first());
        match ev {
            Some(e) => (st2, seq![e] + evs),
            None => (st2, evs),
        }
    }
}

/// Running two pieces of a stream one after the other is the same as running
/// their concatenation: the decoder cannot tell where a chunk boundary fell.
pub proof fn lemma_run_append(st: DecoderState, a: Seq<u8>, b: Seq<u8>)
    ensures
        run(st, a + b).0 == run(run(st, a).0, b).0,
        run(st, a + b).1 == run(st, a).1 + run(run(st, a).0, b).1,
    decreases a.len(),
{
    if a.len() == 0 {
        assert(a + b =~= b);
        assert(run(st, a).1 + run(run(st, a).0, b).1 =~= run(st, b).1);
    } else {
        let (st1, ev) = step(st, a.first());
        assert((a + b).first() == a.first());
        assert((a + b).drop_first() =~= a.drop_first() + b);
        lemma_run_append(st1, a.drop_first(), b);
        match ev {
            Some(e) => {
                assert(seq![e] + (run(st1, a.drop_first()).1 + run(
                    run(st1, a.drop_first()).0,
                    b,
                ).1) =~= (seq![e] + run(st1, a.drop_first()).1) + run(
                    run(st1, a.drop_first()).0,
                    b,
                ).1);
            },
            None => {},
        }
    }
}

/// Feeds a sequence of chunks to the decoder, one after the other.
pub open spec fn run_chunks(st: DecoderState, chunks: Seq<Seq<u8>>) -> (
    DecoderState,
    Seq<EventModel>,
)
    decreases chunks.len(),
{
    if chunks.len() == 0 {
        (st, Seq::empty())
    } else {
        let (st1, evs1) = run(st, chunks.first());
        let (st2, evs2) = run_chunks(st1, chunks.drop_first());
        (st2, evs1 + evs2)
    }
}

/// Split invariance: however a byte stream is cut into chunks -- even inside
/// a control sequence -- feeding the chunks in order yields exactly the state
/// and events of feeding the unsplit stream.
pub proof fn lemma_run_chunks(st: DecoderState, chunks: Seq<Seq<u8>>)
    ensures
        run_chunks(st, chunks).0 == run(st, chunks.flatten()).0,
        run_chunks(st, chunks).1 == run(st, chunks.flatten()).1,
    decreases chunks.len(),
{
    if chunks.len() == 0 {
        assert(chunks.flatten() =~= Seq::<u8>::empty());
    } else {
        let st1 = run(st, chunks.first()).0;
        lemma_run_chunks(st1, chunks.drop_first());
        lemma_run_append(st, chunks.first(), chunks.drop_first().flatten());
        assert(chunks.flatten() =~= chunks.first() + chunks.drop_first().flatten());
    }
}

/// The resumable frame decoder/encoder.  It keeps the partial line and the
/// escape mode across calls, so input may arrive in arbitrary chunks.
pub struct TelnetCodec {
    mode: CodecMode,
    pending: Vec<u8>,
}

impl View for TelnetCodec {
    type V = DecoderState;

    closed spec fn view(&self) -> DecoderState {
        DecoderState { mode: self.mode, line: self.pending@ }
    }
}

impl TelnetCodec {
    pub fn new() -> (c: TelnetCodec)
        ensures
            c@ == initial_state(),
    {
        let c = TelnetCodec { mode: CodecMode::Normal, pending: Vec::new() };
        proof {
            assert(c@ =~= initial_state());
        }
        c
    }

    /// Decodes at most one event from `buffer`, consuming what it scanned.
    ///
    /// The scanned prefix moves into the decoder's own state, so a partial
    /// line or control sequence is never lost: the call returns `None` and a
    /// later call picks up where this one stopped.  The contract says that
    /// the events of the old state plus the old buffer are exactly the
    /// returned event followed by the events still to come from the new
    /// state plus the unread rest of the buffer.
    pub fn decode(&mut self, buffer: &mut Vec<u8>) -> (r: Option<TelnetEvent>)
        ensures
            ({
                let whole = run(old(self)@, old(buffer)@);
                match r {
                    None => {
                        &&& whole.1.len() == 0
                        &&& final(self)@ == whole.0
                        &&& final(buffer)@.len() == 0
                    },
                    Some(ev) => {
                        &&& whole.1.len() > 0
                        &&& ev@ == whole.1.first()
                        &&& run(final(self)@, final(buffer)@).0 == whole.0
                        &&& run(final(self)@, final(buffer)@).1 == whole.1.drop_first()
                    },
                }
            }),
    {
        let ghost st0 = self@;
        let ghost buf0 = buffer@;
        let n = buffer.len();
        let mut i: usize = 0;
        let mut result: Option<TelnetEvent> = None;
        while i < n
            invariant_except_break
                result is None,
            invariant
                i <= n,
                n == buf0.len(),
                buffer@ == buf0,
                match result {
                    None => run(st0, buf0.take(i as int)) == (self@, Seq::<EventModel>::empty()),
                    Some(ev) => run(st0, buf0.take(i as int)) == (self@, seq![ev@]),
                },
            ensures
                i <= n,
                buffer@ == buf0,
                match result {
                    None => i == n && run(st0, buf0.take(i as int)) == (
                        self@,
                        Seq::<EventModel>::empty(),
                    ),
                    Some(ev) => run(st0, buf0.take(i as int)) == (self@, seq![ev@]),
                },
            decreases n - i,
        {
            let b = buffer[i];
            let ghost st_before = self@;
            proof {
                lemma_run_append(st0, buf0.take(i as int), seq![b]);
                assert(buf0.take(i as int) + seq![b] =~= buf0.take(i as int + 1));
            }
            let mut emitted: Option<TelnetEvent> = None;
            match self.mode {
                CodecMode::Normal => {
                    if b == BYTE_IAC {
                        self.mode = CodecMode::Escape;
                    } else if b == BYTE_LF {
                        let mut line = self.pending.clone();
                        self.pending.clear();
                        if line.len() > 0 && line[line.len() - 1] == BYTE_CR {
                            line.pop();
                            proof {
                                assert(line@ =~= strip_trailing_cr(st_before.line));
                            }
                        }
                        emitted = Some(TelnetEvent::Data(line));
                    } else if b == BYTE_NOP || b == BYTE_SB || b == BYTE_SE || b == BYTE_WILL || b
                        == BYTE_WONT || b == BYTE_DO || b == BYTE_DONT {
                        // Malformed: a command byte with no introducer is dropped.
                    } else {
                        self.pending.push(b);
                    }
                },
                CodecMode::Escape => {
                    if b == BYTE_NOP {
                        self.mode = CodecMode::Normal;
                        emitted = Some(TelnetEvent::NOP);
                    } else if b == BYTE_SB {
                        self.mode = CodecMode::Normal;
                        emitted = Some(TelnetEvent::SB);
                    } else if b == BYTE_SE {
                        self.mode = CodecMode::Normal;
                        emitted = Some(TelnetEvent::SE);
                    } else if b == BYTE_WILL || b == BYTE_WONT || b == BYTE_DO || b == BYTE_DONT {
                        self.mode = CodecMode::Pending(b);
                    } else {
                        self.mode = CodecMode::Normal;
                        emitted = Some(TelnetEvent::IAC);
                    }
                },
                CodecMode::Pending(verb) => {
                    self.mode = CodecMode::Normal;
                    if verb == BYTE_WILL {
                        emitted = Some(TelnetEvent::WILL(b));
                    } else if verb == BYTE_WONT {
                        emitted = Some(TelnetEvent::WONT(b));
                    } else if verb == BYTE_DO {
                        emitted = Some(TelnetEvent::DO(b));
                    } else {
                        emitted = Some(TelnetEvent::DONT(b));
                    }
                },
            }
            proof {
                assert(seq![b].len() == 1);
                assert(seq![b].first() == b);
                assert(seq![b].drop_first() =~= Seq::<u8>::empty());
                assert(run(step(st_before, b).0, Seq::<u8>::empty()).1
                    == Seq::<EventModel>::empty());
                assert(run(st_before, seq![b]).0 == step(st_before, b).0);
                assert(self@ =~= step(st_before, b).0);
                assert(match emitted {
                    Some(ev) => step(st_before, b).1 == Some(ev@),
                    None => step(st_before, b).1 is None,
                });
                assert(match emitted {
                    Some(ev) => run(st_before, seq![b]).1 =~= seq![ev@],
                    None => run(st_before, seq![b]).1 =~= Seq::<EventModel>::empty(),
                });
                assert(match emitted {
                    Some(ev) => run(st0, buf0.take(i as int + 1)).1 =~= seq![ev@],
                    None => run(st0, buf0.take(i as int + 1)).1 =~= Seq::<EventModel>::empty(),
                });
            }
            i = i + 1;
            match emitted {
                Some(ev) => {
                    result = Some(ev);
                    break ;
                },
                None => {},
            }
        }
        match result {
            None => {
                proof {
                    assert(buf0.take(n as int) =~= buf0);
                }
                buffer.clear();
                None
            },
            Some(ev) => {
                let rest = buffer.split_off(i);
                *buffer = rest;
                proof {
                    lemma_run_append(st0, buf0.take(i as int), buf0.skip(i as int));
                    assert(buf0.take(i as int) + buf0.skip(i as int) =~= buf0);
                    assert(run(st0, buf0).1 =~= seq![ev@] + run(self@, buf0.skip(i as int)).1);
                    assert(run(st0, buf0).1.drop_first() =~= run(self@, buf0.skip(i as int)).1);
                }
                Some(ev)
            },
        }
    }
}

/// Length of the data run at the head of `s`: bytes up to the first command
/// introducer.
pub open spec fn data_len(s: Seq<u8>) -> int
    decreases s.len(),
{
    if s.len() == 0 || s.first() == BYTE_IAC {
        0
    } else {
        1 + data_len(s.drop_first())
    }
}

proof fn lemma_data_len_at(s: Seq<u8>, k: int)
    requires
        0 <= k <= s.len(),
        forall|j: int| 0 <= j < k ==> s[j] != BYTE_IAC,
        k == s.len() || s[k] == BYTE_IAC,
    ensures
        data_len(s) == k,
    decreases k,
{
    if k == 0 {
    } else {
        assert(s.first() != BYTE_IAC);
        let t = s.drop_first();
        assert(forall|j: int| 0 <= j < k - 1 ==> t[j] == s[j + 1] && t[j] != BYTE_IAC);
        lemma_data_len_at(t, k - 1);
    }
}

/// What one call of the buffer parser does: at most one event, and the bytes
/// that stay behind.  Leading bare command bytes are malformed and get
/// discarded; an incomplete control sequence consumes nothing further and
/// waits for more input; a data run ends just before the next introducer.
pub open spec fn parse_unit(s: Seq<u8>) -> (Option<EventModel>, Seq<u8>)
    decreases s.len(),
{
    if s.len() == 0 {
        (None, s)
    } else if is_command_byte(s.first()) {
        parse_unit(s.drop_first())
    } else if s.first() == BYTE_IAC {
        if s.len() < 2 {
            (None, s)
        } else if s[1] == BYTE_NOP {
            (Some(EventModel::Nop), s.skip(2))
        } else if s[1] == BYTE_SB {
            (Some(EventModel::Sb), s.skip(2))
        } else if s[1] == BYTE_SE {
            (Some(EventModel::Se), s.skip(2))
        } else if s[1] == BYTE_WILL || s[1] == BYTE_WONT || s[1] == BYTE_DO || s[1] == BYTE_DONT {
            if s.len() < 3 {
                (None, s)
            } else if s[1] == BYTE_WILL {
                (Some(EventModel::Will(s[2])), s.skip(3))
            } else if s[1] == BYTE_WONT {
                (Some(EventModel::Wont(s[2])), s.skip(3))
            } else if s[1] == BYTE_DO {
                (Some(EventModel::Do(s[2])), s.skip(3))
            } else {
                (Some(EventModel::Dont(s[2])), s.skip(3))
            }
        } else {
            (Some(EventModel::Iac), s.skip(2))
        }
    } else {
        (Some(EventModel::Data(s.take(data_len(s)))), s.skip(data_len(s)))
    }
}

/// Decides whether a byte is one of the known command bytes.
pub fn command_byte(b: u8) -> (r: bool)
    ensures
        r == is_command_byte(b),
{
    b == BYTE_NOP || b == BYTE_SB || b == BYTE_SE || b == BYTE_WILL || b == BYTE_WONT || b
        == BYTE_DO || b == BYTE_DONT
}

/// Takes one unit from the front of `buffer`, without any state across
/// calls: the stateless lower layer of the codec, which does not assemble
/// lines.  Returns `None` when the remaining bytes are an incomplete control
/// sequence (they stay in the buffer) or the buffer is empty.
pub fn parse_telnet_event(buffer: &mut Vec<u8>) -> (r: Option<TelnetEvent>)
    ensures
        final(buffer)@ == parse_unit(old(buffer)@).1,
        match r {
            None => parse_unit(old(buffer)@).0 is None,
            Some(ev) => parse_unit(old(buffer)@).0 == Some(ev@),
        },
{
    let ghost buf0 = buffer@;
    while buffer.len() > 0 && command_byte(buffer[0])
        invariant
            parse_unit(buffer@) == parse_unit(buf0),
        decreases buffer@.len(),
    {
        let ghost before = buffer@;
        buffer.remove(0);
        proof {
            assert(buffer@ =~= before.drop_first());
        }
    }
    if buffer.len() == 0 {
        return None;
    }
    let b0 = buffer[0];
    if b0 == BYTE_IAC {
        if buffer.len() < 2 {
            return None;
        }
        let cmd = buffer[1];
        if cmd == BYTE_WILL || cmd == BYTE_WONT || cmd == BYTE_DO || cmd == BYTE_DONT {
            if buffer.len() < 3 {
                return None;
            }
            let opt = buffer[2];
            let ghost before = buffer@;
            let tail = buffer.split_off(3);
            *buffer = tail;
            proof {
                assert(buffer@ =~= before.skip(3));
            }
            if cmd == BYTE_WILL {
                Some(TelnetEvent::WILL(opt))
            } else if cmd == BYTE_WONT {
                Some(TelnetEvent::WONT(opt))
            } else if cmd == BYTE_DO {
                Some(TelnetEvent::DO(opt))
            } else {
                Some(TelnetEvent::DONT(opt))
            }
        } else {
            let ghost before = buffer@;
            let tail = buffer.split_off(2);
            *buffer = tail;
            proof {
                assert(buffer@ =~= before.skip(2));
            }
            if cmd == BYTE_NOP {
                Some(TelnetEvent::NOP)
            } else if cmd == BYTE_SB {
                Some(TelnetEvent::SB)
            } else if cmd == BYTE_SE {
                Some(TelnetEvent::SE)
            } else {
                Some(TelnetEvent::IAC)
            }
        }
    } else {
        let ghost s = buffer@;
        let mut data: Vec<u8> = Vec::new();
        let mut k: usize = 0;
        while k < buffer.len() && buffer[k] != BYTE_IAC
            invariant
                buffer@ == s,
                k <= s.len(),
                data@ == s.take(k as int),
                forall|j: int| 0 <= j < k ==> s[j] != BYTE_IAC,
            decreases s.len() - k,
        {
            data.push(buffer[k]);
            k = k + 1;
            proof {
                assert(data@ =~= s.take(k as int));
            }
        }
        proof {
            lemma_data_len_at(s, k as int);
        }
        let tail = buffer.split_off(k);
        *buffer = tail;
        proof {
            assert(buffer@ =~= s.skip(k as int));
        }
        Some(TelnetEvent::Data(data))
    }
}

/// The outgoing text of a prompt, sent without a line terminator so the
/// client can type on the same line.
pub struct Prompt {
    line: String,
}

impl View for Prompt {
    type V = Seq<char>;

    closed spec fn view(&self) -> Seq<char> {
        self.line@
    }
}

impl Prompt {
    pub fn new(line: String) -> (p: Prompt)
        ensures
            p@ == line@,
    {
        Prompt { line }
    }
}

impl TelnetCodec {
    /// Encodes a message line: the text verbatim, then the line terminator.
    pub fn encode(&self, item: &str, buf: &mut Vec<u8>)
        ensures
            final(buf)@ == old(buf)@ + item.spec_bytes() + seq![BYTE_LF],
    {
        let bytes = item.as_bytes();
        buf.extend_from_slice(bytes);
        buf.push(BYTE_LF);
        proof {
            assert(final(buf)@ =~= old(buf)@ + item.spec_bytes() + seq![BYTE_LF]);
        }
    }

    /// Encodes a prompt: the text verbatim, with no terminator.
    pub fn encode_prompt(&self, item: &Prompt, buf: &mut Vec<u8>)
        ensures
            final(buf)@ == old(buf)@ + vstd::utf8::encode_utf8(item@),
    {
        let bytes = item.line.as_str().as_bytes();
        buf.extend_from_slice(bytes);
    }
}

} // verus!
