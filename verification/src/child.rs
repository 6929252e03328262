//! The transport to the child process, as its readers and writers see it.

use crate::json::text_under;
use crate::logging::{law_logged_line_reads_back, LogAction, LogStreamType, Logger};
use crate::process::{log_line, target_of};
use crate::text::{
    blank, law_trimmed, lemma_trimmed_blank, shown_text, text_of, trim, trimmed, white_space,
};
use std::collections::VecDeque;
use vstd::prelude::*;

verus! {

/// The child process as a transport: the bytes of its standard output that were received but not
/// read yet, whether its standard input is open, and the logger of what is written to it.
pub struct LoggingChildProcess {
    stdin_open: bool,
    stdout_buffer: VecDeque<u8>,
    logger: Option<Logger>,
}

/// What asking for more output of the child brought.
pub enum ReceiverPoll {
    Chunk(Vec<u8>),
    Closed,
    Pending,
}

/// How a read ends: with these bytes, where none stand for the end of the output, or not yet.
pub enum ReadEnd {
    Ready(Vec<u8>),
    Pending,
}

/// How a read starts: it is done with these bytes, or it has to ask for more output.
pub enum ReadStart {
    Done(Vec<u8>),
    Ask,
}

/// What becomes of bytes that are written: they pass on to the standard input of the child, or
/// the write fails with a broken pipe and this message.
pub enum WriteTarget {
    Stdin,
    BrokenPipe(String),
}

/// What a write does: it logs the text of the bytes, if there is any, and passes the bytes on.
pub struct WriteStep {
    pub log: Option<LogAction>,
    pub target: WriteTarget,
}

impl WriteStep {
    /// Whether this is what writing a text to a child does: the trimmed text is logged unless
    /// nothing is left of it, and the bytes pass on if the input is open.
    pub open spec fn writes(self, child: LoggingChildProcess, text: Seq<char>) -> bool {
        &&& match self.log {
            Some(action) => trimmed(text).len() > 0 && action.logs(
                target_of(child.logged_by()),
                LogStreamType::Stdin,
                trimmed(text),
            ),
            None => trimmed(text).len() == 0,
        }
        &&& match self.target {
            WriteTarget::Stdin => child.is_stdin_open(),
            WriteTarget::BrokenPipe(message) => !child.is_stdin_open() && message@
                == "stdin not available"@,
        }
    }
}

/// What flushing and shutting down do: the same to the standard input of the child, or nothing.
pub enum FlushTarget {
    Stdin,
    Done,
}

/// How many bytes of a buffer fit into a read.
pub open spec fn fitting(buffer: Seq<u8>, available: nat) -> int {
    if available < buffer.len() {
        available as int
    } else {
        buffer.len() as int
    }
}

/// The bytes that a read takes from the front of a buffer.
pub open spec fn front(buffer: Seq<u8>, available: nat) -> Seq<u8> {
    buffer.take(fitting(buffer, available))
}

/// What a read leaves of a buffer.
pub open spec fn rest(buffer: Seq<u8>, available: nat) -> Seq<u8> {
    buffer.skip(fitting(buffer, available))
}

impl LoggingChildProcess {
    /// The bytes that were received and not read yet.
    pub closed spec fn buffered(&self) -> Seq<u8> {
        self.stdout_buffer@
    }

    /// Whether the standard input of the child is open.
    pub closed spec fn is_stdin_open(&self) -> bool {
        self.stdin_open
    }

    /// The logger of what is written.
    pub closed spec fn logged_by(&self) -> Option<Logger> {
        self.logger
    }

    /// A transport to a child from which nothing was received yet.
    pub fn new(stdin_open: bool, logger: Option<Logger>) -> (r: Self)
        ensures
            r.buffered() == Seq::<u8>::empty(),
            r.is_stdin_open() == stdin_open,
            r.logged_by() == logger,
    {
        LoggingChildProcess { stdin_open, stdout_buffer: VecDeque::new(), logger }
    }

    /// Takes as many bytes as fit from those received before.
    pub fn read_buffered(&mut self, available: usize) -> (r: Vec<u8>)
        ensures
            r@ == front(old(self).buffered(), available as nat),
            final(self).buffered() == rest(old(self).buffered(), available as nat),
            final(self).is_stdin_open() == old(self).is_stdin_open(),
            final(self).logged_by() == old(self).logged_by(),
    {
        let ghost before = self.stdout_buffer@;
        let mut out: Vec<u8> = Vec::new();
        while out.len() < available && self.stdout_buffer.len() > 0
            invariant
                out@.len() <= available,
                out@ + self.stdout_buffer@ == before,
                self.stdin_open == old(self).stdin_open,
                self.logger == old(self).logger,
            decreases self.stdout_buffer@.len(),
        {
            let ghost taken = out@;
            let ghost left = self.stdout_buffer@;
            if let Some(byte) = self.stdout_buffer.pop_front() {
                out.push(byte);
                assert(taken + left == taken.push(left[0]) + left.subrange(1, left.len() as int));
            }
        }
        assert(before.take(out@.len() as int) == out@);
        assert(before.skip(out@.len() as int) == self.stdout_buffer@);
        out
    }

    /// Starts a read: it is done with what fits of the bytes received before. Where that is
    /// nothing, it asks for more output and goes on with `read_received`.
    pub fn read_start(&mut self, available: usize) -> (r: ReadStart)
        ensures
            r is Ask <==> front(old(self).buffered(), available as nat).len() == 0,
            r matches ReadStart::Done(bytes) ==> bytes@ == front(
                old(self).buffered(),
                available as nat,
            ),
            final(self).buffered() == rest(old(self).buffered(), available as nat),
            r is Ask ==> final(self).buffered() == old(self).buffered(),
            final(self).is_stdin_open() == old(self).is_stdin_open(),
            final(self).logged_by() == old(self).logged_by(),
    {
        let bytes = self.read_buffered(available);
        if bytes.len() > 0 {
            ReadStart::Done(bytes)
        } else {
            assert(rest(old(self).buffered(), available as nat) == old(self).buffered());
            ReadStart::Ask
        }
    }

    /// Goes on with a read that found nothing received before: takes as many bytes as fit from
    /// the next chunk of output, and keeps the others for the reads to come.
    pub fn read_received(&mut self, available: usize, poll: ReceiverPoll) -> (r: ReadEnd)
        ensures
            match (poll, r) {
                (ReceiverPoll::Chunk(chunk), ReadEnd::Ready(bytes)) => {
                    &&& bytes@ == front(old(self).buffered() + chunk@, available as nat)
                    &&& final(self).buffered() == rest(
                        old(self).buffered() + chunk@,
                        available as nat,
                    )
                },
                (ReceiverPoll::Closed, ReadEnd::Ready(bytes)) => {
                    &&& bytes@ == Seq::<u8>::empty()
                    &&& final(self).buffered() == old(self).buffered()
                },
                (ReceiverPoll::Pending, ReadEnd::Pending) => final(self).buffered() == old(
                    self,
                ).buffered(),
                _ => false,
            },
            final(self).is_stdin_open() == old(self).is_stdin_open(),
            final(self).logged_by() == old(self).logged_by(),
    {
        match poll {
            ReceiverPoll::Chunk(chunk) => {
                let ghost before = self.stdout_buffer@;
                let mut i: usize = 0;
                while i < chunk.len()
                    invariant
                        i <= chunk@.len(),
                        self.stdout_buffer@ == before + chunk@.take(i as int),
                        self.stdin_open == old(self).stdin_open,
                        self.logger == old(self).logger,
                    decreases chunk@.len() - i,
                {
                    self.stdout_buffer.push_back(chunk[i]);
                    i = i + 1;
                }
                assert(chunk@.take(i as int) == chunk@);
                ReadEnd::Ready(self.read_buffered(available))
            },
            ReceiverPoll::Closed => ReadEnd::Ready(Vec::new()),
            ReceiverPoll::Pending => ReadEnd::Pending,
        }
    }

    /// Takes a text that is written to the child.
    pub fn write_text(&self, content: &str) -> (r: WriteStep)
        ensures
            r.writes(*self, content@),
    {
        let content_trimmed = trim(content);
        let log = if !content_trimmed.as_str().is_empty() {
            Some(log_line(&self.logger, content_trimmed.as_str(), LogStreamType::Stdin))
        } else {
            None
        };
        let target = if self.stdin_open {
            WriteTarget::Stdin
        } else {
            WriteTarget::BrokenPipe("stdin not available".to_owned())
        };
        WriteStep { log, target }
    }

    /// Takes bytes that are written to the child.
    pub fn write(&self, bytes: &[u8]) -> (r: WriteStep)
        ensures
            r.writes(*self, shown_text(bytes@)),
    {
        let content = text_of(bytes);
        self.write_text(content.as_str())
    }

    /// What flushing does.
    pub fn flush(&self) -> (r: FlushTarget)
        ensures
            (r is Stdin) == self.is_stdin_open(),
    {
        if self.stdin_open {
            FlushTarget::Stdin
        } else {
            FlushTarget::Done
        }
    }

    /// What shutting down does.
    pub fn shutdown(&self) -> (r: FlushTarget)
        ensures
            (r is Stdin) == self.is_stdin_open(),
    {
        if self.stdin_open {
            FlushTarget::Stdin
        } else {
            FlushTarget::Done
        }
    }
}

/// One read: how many bytes the reader takes, and what asking for more output brings, if the read
/// gets to ask.
pub struct ReadCall {
    pub available: nat,
    pub arrival: Option<Seq<u8>>,
}

/// Whether a read asks for more output: only when nothing that was received before fits.
pub open spec fn asks(buffer: Seq<u8>, call: ReadCall) -> bool {
    front(buffer, call.available).len() == 0
}

/// The buffer that a read takes its bytes from: where it asks, with the chunk that arrives.
pub open spec fn filled(buffer: Seq<u8>, call: ReadCall) -> Seq<u8> {
    match call.arrival {
        Some(chunk) => if asks(buffer, call) {
            buffer + chunk
        } else {
            buffer
        },
        None => buffer,
    }
}

/// All that arrives over a series of reads, in its order.
pub open spec fn arrived(buffer: Seq<u8>, calls: Seq<ReadCall>) -> Seq<u8>
    decreases calls.len(),
{
    if calls.len() == 0 {
        seq![]
    } else {
        let full = filled(buffer, calls[0]);
        full.skip(buffer.len() as int) + arrived(
            rest(full, calls[0].available),
            calls.skip(1),
        )
    }
}

/// All that a series of reads delivers, in its order.
pub open spec fn delivered(buffer: Seq<u8>, calls: Seq<ReadCall>) -> Seq<u8>
    decreases calls.len(),
{
    if calls.len() == 0 {
        seq![]
    } else {
        let full = filled(buffer, calls[0]);
        front(full, calls[0].available) + delivered(
            rest(full, calls[0].available),
            calls.skip(1),
        )
    }
}

/// What each of a series of reads delivers.
pub open spec fn deliveries(buffer: Seq<u8>, calls: Seq<ReadCall>) -> Seq<Seq<u8>>
    decreases calls.len(),
{
    if calls.len() == 0 {
        seq![]
    } else {
        let full = filled(buffer, calls[0]);
        seq![front(full, calls[0].available)] + deliveries(
            rest(full, calls[0].available),
            calls.skip(1),
        )
    }
}

/// What a series of reads leaves in the buffer.
pub open spec fn remaining(buffer: Seq<u8>, calls: Seq<ReadCall>) -> Seq<u8>
    decreases calls.len(),
{
    if calls.len() == 0 {
        buffer
    } else {
        let full = filled(buffer, calls[0]);
        remaining(rest(full, calls[0].available), calls.skip(1))
    }
}

/// However the output of the child arrives and however much each reader takes, the readers get
/// it complete, in its order and unchanged: what they got, and what is still buffered, is what
/// was buffered at first and what arrived.
pub proof fn law_output_is_delivered_in_order(buffer: Seq<u8>, calls: Seq<ReadCall>)
    ensures
        delivered(buffer, calls) + remaining(buffer, calls) == buffer + arrived(buffer, calls),
    decreases calls.len(),
{
    if calls.len() == 0 {
        assert(buffer + Seq::<u8>::empty() == buffer);
        assert(Seq::<u8>::empty() + buffer == buffer);
    } else {
        let call = calls[0];
        let full = filled(buffer, call);
        let taken = front(full, call.available);
        let left = rest(full, call.available);
        law_output_is_delivered_in_order(left, calls.skip(1));
        let later = delivered(left, calls.skip(1));
        let end = remaining(left, calls.skip(1));
        let next = arrived(left, calls.skip(1));
        let chunk = full.skip(buffer.len() as int);
        assert(taken + left == full);
        assert(buffer + chunk == full);
        assert((taken + later) + end == taken + (later + end));
        assert(taken + (left + next) == (taken + left) + next);
        assert(buffer + (chunk + next) == (buffer + chunk) + next);
    }
}

/// One read through the transport is one step of such a series: first what was received before,
/// and only where that gives nothing, the next chunk.
pub proof fn law_reads_follow_the_series(buffer: Seq<u8>, available: nat, chunk: Seq<u8>)
    ensures
        ({
            let call = ReadCall { available, arrival: Some(chunk) };
            let calls = seq![call];
            if front(buffer, available).len() > 0 {
                &&& delivered(buffer, calls) == front(buffer, available)
                &&& remaining(buffer, calls) == rest(buffer, available)
                &&& arrived(buffer, calls) == Seq::<u8>::empty()
            } else {
                &&& delivered(buffer, calls) == front(buffer + chunk, available)
                &&& remaining(buffer, calls) == rest(buffer + chunk, available)
                &&& arrived(buffer, calls) == chunk
            }
        }),
{
    let call = ReadCall { available, arrival: Some(chunk) };
    let calls = seq![call];
    let full = filled(buffer, call);
    assert(calls.skip(1).len() == 0);
    reveal_with_fuel(delivered, 2);
    reveal_with_fuel(remaining, 2);
    reveal_with_fuel(arrived, 2);
    assert(front(full, available) + Seq::<u8>::empty() == front(full, available));
    assert(full.skip(buffer.len() as int) + Seq::<u8>::empty() == full.skip(buffer.len() as int));
    assert((buffer + chunk).skip(buffer.len() as int) == chunk);
}

/// A reader with room for bytes gets some whenever a chunk with bytes is there for it: getting
/// none means that the output has ended.
pub proof fn law_read_with_room_is_not_empty(buffer: Seq<u8>, available: nat, chunk: Seq<u8>)
    requires
        available > 0,
        chunk.len() > 0,
    ensures
        delivered(buffer, seq![ReadCall { available, arrival: Some(chunk) }]).len() > 0,
{
    law_reads_follow_the_series(buffer, available, chunk);
}

/// A read gives as many bytes as there are, but never more than its reader has room for, and the
/// others stay, in their order.
pub proof fn law_read_fits(buffer: Seq<u8>, available: nat)
    ensures
        front(buffer, available).len() <= available,
        front(buffer, available).len() == available || front(buffer, available).len()
            == buffer.len(),
        front(buffer, available) + rest(buffer, available) == buffer,
{
}

/// None of a series of reads gives more bytes than its reader has room for.
pub proof fn law_deliveries_fit(buffer: Seq<u8>, calls: Seq<ReadCall>, i: int)
    requires
        0 <= i < calls.len(),
    ensures
        deliveries(buffer, calls).len() == calls.len(),
        deliveries(buffer, calls)[i].len() <= calls[i].available,
    decreases calls.len(),
{
    let full = filled(buffer, calls[0]);
    let left = rest(full, calls[0].available);
    if calls.len() > 1 {
        law_deliveries_fit(left, calls.skip(1), if i > 0 { i - 1 } else { 0 });
        if i > 0 {
            assert(deliveries(buffer, calls)[i] == deliveries(left, calls.skip(1))[i - 1]);
        }
    } else {
        assert(deliveries(left, calls.skip(1)).len() == 0);
    }
}

/// Text that is written to the child is logged exactly where some of it is no white space, without
/// the white space at its ends, and the bytes pass on exactly where the input is open.
pub proof fn law_write_logs_what_is_written(
    step: WriteStep,
    child: LoggingChildProcess,
    text: Seq<char>,
) -> (r: (int, int))
    requires
        step.writes(child, text),
    ensures
        step.log is Some <==> exists|i: int| 0 <= i < text.len() && !white_space(#[trigger] text[i]),
        0 <= r.0 <= r.1 <= text.len(),
        forall|i: int| 0 <= i < r.0 || r.1 <= i < text.len() ==> white_space(#[trigger] text[i]),
        step.log matches Some(action) ==> {
            &&& r.0 < r.1
            &&& !white_space(text[r.0])
            &&& !white_space(text[r.1 - 1])
            &&& action.logs(
                match child.logged_by() {
                    Some(logger) => logger@,
                    None => None,
                },
                LogStreamType::Stdin,
                text.subrange(r.0, r.1),
            )
            &&& action.console@ == "[STDIN] - "@ + text.subrange(r.0, r.1)
            &&& action.remote is Some <==> (child.logged_by() matches Some(logger) && logger@
                is Some)
            &&& action.remote matches Some(request) ==> text_under(request.body@, "message"@)
                == Some(text.subrange(r.0, r.1)) && text_under(request.body@, "logType"@) == Some(
                "mcp_stdin"@,
            )
        },
        step.target is Stdin <==> child.is_stdin_open(),
        step.target matches WriteTarget::BrokenPipe(message) ==> message@
            == "stdin not available"@,
{
    let r = law_trimmed(text);
    lemma_trimmed_blank(text);
    if step.log is Some {
        assert(text.subrange(r.0, r.1).len() > 0);
        assert(!white_space(text[r.0]));
        law_logged_line_reads_back(
            step.log->Some_0,
            target_of(child.logged_by()),
            LogStreamType::Stdin,
            text.subrange(r.0, r.1),
        );
    } else {
        assert(blank(text));
    }
    r
}

} // verus!
