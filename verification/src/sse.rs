//! Server-Sent Events: the framing of event data.
use vstd::prelude::*;
use vstd::string::StringSliceAdditionalSpecFns;

use crate::status::StatusCode;

verus! {

/// The bytes of `data:`.
pub open spec fn data_prefix() -> Seq<u8> {
    seq![0x64u8, 0x61u8, 0x74u8, 0x61u8, 0x3Au8]
}

/// The event data framing of `buf`: every line starts with `data:`. `at_start` says whether
/// the writer is at the start of a line before `buf`.
pub open spec fn sse_data(at_start: bool, buf: Seq<u8>) -> Seq<u8>
    decreases buf.len(),
{
    if buf.len() == 0 {
        Seq::empty()
    } else {
        (if at_start {
            data_prefix()
        } else {
            Seq::empty()
        }) + seq![buf[0]] + sse_data(buf[0] == 0x0A, buf.drop_first())
    }
}

/// Whether the writer is at the start of a line after `buf`.
pub open spec fn sse_at_start_after(at_start: bool, buf: Seq<u8>) -> bool {
    if buf.len() == 0 {
        at_start
    } else {
        buf.last() == 0x0A
    }
}

/// The bytes that end the data of an event.
pub open spec fn sse_finish(at_start: bool) -> Seq<u8> {
    if at_start {
        seq![0x0Au8]
    } else {
        seq![0x0Au8, 0x0Au8]
    }
}

/// Frames event data, inserting `data:` at the start of every line.
pub struct EventDataWriter {
    is_at_start_of_line: bool,
}

impl EventDataWriter {
    /// Whether the writer is at the start of a line.
    pub closed spec fn at_start(&self) -> bool {
        self.is_at_start_of_line
    }

    /// A writer for the data of an event whose `data:` prefix has already been sent.
    pub fn new() -> (r: Self)
        ensures
            !r.at_start(),
    {
        EventDataWriter { is_at_start_of_line: false }
    }

    /// The bytes to send for the data `buf`.
    pub fn write(&mut self, buf: &[u8]) -> (r: Vec<u8>)
        ensures
            r@ == sse_data(old(self).at_start(), buf@),
            final(self).at_start() == sse_at_start_after(old(self).at_start(), buf@),
    {
        let mut out: Vec<u8> = Vec::new();
        let mut i: usize = 0;
        let ghost start = self.is_at_start_of_line;
        assert(buf@.skip(0) =~= buf@);
        while i < buf.len()
            invariant
                i <= buf@.len(),
                out@ + sse_data(self.is_at_start_of_line, buf@.skip(i as int)) == sse_data(start, buf@),
                i > 0 ==> self.is_at_start_of_line == (buf@[i - 1] == 0x0A),
                i == 0 ==> self.is_at_start_of_line == start,
            decreases buf.len() - i,
        {
            let ghost rest = buf@.skip(i as int);
            assert(rest.drop_first() =~= buf@.skip(i + 1));
            let ghost before = out@;
            if self.is_at_start_of_line {
                out.push(0x64);
                out.push(0x61);
                out.push(0x74);
                out.push(0x61);
                out.push(0x3A);
            }
            out.push(buf[i]);
            proof {
                let prefix = if self.is_at_start_of_line { data_prefix() } else { Seq::<u8>::empty() };
                assert(out@ =~= before + prefix + seq![buf@[i as int]]);
                assert(before + (prefix + seq![buf@[i as int]] + sse_data(buf@[i as int] == 0x0A, buf@.skip(i + 1))) =~= out@ + sse_data(buf@[i as int] == 0x0A, buf@.skip(i + 1)));
            }
            self.is_at_start_of_line = buf[i] == 0x0A;
            i = i + 1;
        }
        assert(buf@.skip(i as int) =~= Seq::<u8>::empty());
        assert(out@ + Seq::<u8>::empty() =~= out@);
        out
    }

    /// The bytes that end the event data.
    pub fn finalize(self) -> (r: Vec<u8>)
        ensures
            r@ == sse_finish(self.at_start()),
    {
        let mut out: Vec<u8> = Vec::new();
        out.push(0x0A);
        if !self.is_at_start_of_line {
            out.push(0x0A);
        }
        assert(out@ =~= sse_finish(self.at_start()));
        out
    }
}

/// Writing data in two pieces sends the same bytes as writing it at once, and ends in the
/// same state.
pub proof fn lemma_sse_data_concat(at_start: bool, a: Seq<u8>, b: Seq<u8>)
    ensures
        sse_data(at_start, a + b) == sse_data(at_start, a) + sse_data(sse_at_start_after(at_start, a), b),
        sse_at_start_after(sse_at_start_after(at_start, a), b) == sse_at_start_after(at_start, a + b),
    decreases a.len(),
{
    if a.len() == 0 {
        assert(a + b =~= b);
        assert(sse_data(at_start, a) =~= Seq::<u8>::empty());
        assert(Seq::<u8>::empty() + sse_data(at_start, b) =~= sse_data(at_start, b));
    } else {
        assert((a + b).drop_first() =~= a.drop_first() + b);
        assert((a + b)[0] == a[0]);
        lemma_sse_data_concat(a[0] == 0x0A, a.drop_first(), b);
        if a.len() == 1 {
            assert(a.drop_first() =~= Seq::<u8>::empty());
        } else {
            assert(a.drop_first().last() == a.last());
        }
        let p = if at_start { data_prefix() } else { Seq::<u8>::empty() };
        assert(p + seq![a[0]] + (sse_data(a[0] == 0x0A, a.drop_first()) + sse_data(sse_at_start_after(a[0] == 0x0A, a.drop_first()), b))
            =~= (p + seq![a[0]] + sse_data(a[0] == 0x0A, a.drop_first())) + sse_data(sse_at_start_after(a[0] == 0x0A, a.drop_first()), b));
        if b.len() > 0 {
            assert((a + b).last() == b.last());
        } else {
            assert(a + b =~= a);
        }
    }
}

/// The lines announcing an event named `event`, up to where its data starts.
pub open spec fn event_start(event: Seq<u8>) -> Seq<u8> {
    seq![0x65u8, 0x76u8, 0x65u8, 0x6Eu8, 0x74u8, 0x3Au8] + event + seq![0x0Au8] + data_prefix()
}

/// The bytes of an event named `event` whose data is `data`.
pub open spec fn event_bytes(event: Seq<u8>, data: Seq<u8>) -> Seq<u8> {
    event_start(event) + sse_data(false, data) + sse_finish(sse_at_start_after(false, data))
}

fn append(out: &mut Vec<u8>, data: &[u8])
    ensures
        final(out)@ == old(out)@ + data@,
{
    let mut k: usize = 0;
    while k < data.len()
        invariant
            k <= data@.len(),
            out@ == old(out)@ + data@.take(k as int),
        decreases data.len() - k,
    {
        out.push(data[k]);
        k = k + 1;
        assert(old(out)@ + data@.take(k as int) =~= out@);
    }
    assert(data@.take(k as int) =~= data@);
}

/// The bytes of an event with a given name and data.
pub fn write_event(event: &str, data: &str) -> (r: Vec<u8>)
    ensures
        r@ == event_bytes(event.spec_bytes(), data.spec_bytes()),
{
    let mut out: Vec<u8> = Vec::new();
    out.push(0x65);
    out.push(0x76);
    out.push(0x65);
    out.push(0x6E);
    out.push(0x74);
    out.push(0x3A);
    append(&mut out, event.as_bytes());
    out.push(0x0A);
    out.push(0x64);
    out.push(0x61);
    out.push(0x74);
    out.push(0x61);
    out.push(0x3A);
    assert(out@ =~= event_start(event.spec_bytes()));
    let mut writer = EventDataWriter::new();
    let body = writer.write(data.as_bytes());
    append(&mut out, body.as_slice());
    let end = writer.finalize();
    append(&mut out, end.as_slice());
    out
}

/// The bytes of an event with an empty name, which keeps the connection alive.
pub fn write_keepalive() -> (r: Vec<u8>)
    ensures
        r@ == seq![0x3Au8, 0x0Au8, 0x0Au8],
{
    let mut out: Vec<u8> = Vec::new();
    out.push(0x3A);
    out.push(0x0A);
    out.push(0x0A);
    assert(out@ =~= seq![0x3Au8, 0x0Au8, 0x0Au8]);
    out
}

/// A stream of Events sent by the server.
pub struct EventStream;

impl EventStream {
    /// The status code of the response: 200 OK.
    pub fn status_code(&self) -> (r: StatusCode)
        ensures
            r.0 == 200,
    {
        StatusCode(200)
    }

    /// The headers of the response, in order.
    pub fn headers(&self) -> (r: [(&'static str, &'static str); 2])
        ensures
            r@[0].0@ == "Cache-Control"@ && r@[0].1@ == "no-cache"@,
            r@[1].0@ == "Content-Type"@ && r@[1].1@ == "text/event-stream"@,
    {
        [("Cache-Control", "no-cache"), ("Content-Type", "text/event-stream")]
    }
}

/// Whether an event is being written, and whether the connection is still running.
#[derive(Debug, Clone, Copy, PartialEq, Eq, Structural)]
pub struct EventWriterState {
    /// An event is being written.
    pub is_currently_writing_event: bool,
    /// The connection has not been told to shut down.
    pub is_running: bool,
}

impl EventWriterState {
    /// No event is being written, and the connection runs.
    pub fn new() -> (r: Self)
        ensures
            !r.is_currently_writing_event,
            r.is_running,
    {
        EventWriterState { is_currently_writing_event: false, is_running: true }
    }
}

/// What to do when the task writing events is polled.
#[derive(Debug, Clone, Copy, PartialEq, Eq, Structural)]
pub enum WriteEventsPoll {
    /// Poll the event source, and answer as it does.
    PollEvents,
    /// Writing is done: answer that it succeeded.
    Finish,
    /// Poll the event source to let the event being written finish; if it is not done, finish
    /// once no event is being written any more.
    PollEventsUntilEventWritten,
}

/// What to do when the task writing events is polled: while the connection runs, events are
/// written; once it shuts down, an event being written is allowed to finish, and then writing
/// stops.
pub fn write_events_poll(state: &EventWriterState) -> (r: WriteEventsPoll)
    ensures
        r == if state.is_running {
            WriteEventsPoll::PollEvents
        } else if !state.is_currently_writing_event {
            WriteEventsPoll::Finish
        } else {
            WriteEventsPoll::PollEventsUntilEventWritten
        },
{
    if state.is_running {
        WriteEventsPoll::PollEvents
    } else if !state.is_currently_writing_event {
        WriteEventsPoll::Finish
    } else {
        WriteEventsPoll::PollEventsUntilEventWritten
    }
}

/// Whether the result of writing an event is handed back: once the connection is shutting
/// down, the writer is suspended instead so that shutting down can finish.
pub fn event_result_is_returned(state: &EventWriterState) -> (r: bool)
    ensures
        r == state.is_running,
{
    state.is_running
}

} // verus!
