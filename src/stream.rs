use vstd::prelude::*;

use crate::event::{Event, EventFilter, InternalEvent, ParseOptions};
use crate::source::{decode_all, is_first_match, push_model, read_model, EventReader, ReaderModel};

verus! {

/// Bytes that form no known sequence reached the stream.
#[derive(Clone, Copy, Debug, PartialEq, Eq, Structural)]
pub struct DecodeError;

/// What polling the incoming channel gave.
#[derive(Clone, Debug)]
pub enum ChunkPoll {
    /// Nothing yet; the current task is registered for a wake-up.
    Pending,
    /// The producer is gone for good.
    Closed,
    /// A chunk of raw input.
    Chunk(Vec<u8>),
}

/// What the stream answers to one poll.
#[derive(Clone, Copy, Debug)]
pub enum StreamPoll {
    /// No event is ready; suspend until woken.
    Pending,
    /// A chunk was taken in without completing an event: poll the channel again.
    NeedInput,
    /// An event, a decode error, or the end of the stream.
    Ready(Option<Result<Event, DecodeError>>),
}

/// The abstract state of an event stream.
pub struct StreamModel {
    pub reader: ReaderModel,
    pub closed: bool,
}

/// The options a stream decodes with: no cursor reply is expected.
pub open spec fn stream_options() -> ParseOptions {
    ParseOptions { reading_cursor_position: false }
}

/// One poll of the stream, given what the channel gave: a chunk is decoded
/// in full (an incomplete tail waits for the next); a decode error is
/// reported at once; else the oldest user event is handed out; else the
/// stream ends where the channel has closed, asks for more input where a
/// chunk came, and is pending otherwise.
pub open spec fn poll_model(m: StreamModel, incoming: ChunkPoll) -> (StreamModel, StreamPoll) {
    let (r1, clean) = match incoming {
        ChunkPoll::Chunk(b) => push_model(m.reader, b@, false, stream_options()),
        _ => (m.reader, true),
    };
    let closed = m.closed || incoming is Closed;
    if !clean {
        (StreamModel { reader: r1, closed }, StreamPoll::Ready(Some(Err(DecodeError))))
    } else {
        let (r2, e) = read_model(r1, EventFilter::Public);
        (
            StreamModel { reader: r2, closed },
            match e {
                Some(InternalEvent::Event(ev)) => StreamPoll::Ready(Some(Ok(ev))),
                _ => if closed {
                    StreamPoll::Ready(None)
                } else if incoming is Chunk {
                    StreamPoll::NeedInput
                } else {
                    StreamPoll::Pending
                },
            },
        )
    }
}

/// A stream of user events over chunks of raw input pushed from outside,
/// for a cooperative, single-threaded consumer.
pub struct EventStream {
    reader: EventReader,
    closed: bool,
}

impl View for EventStream {
    type V = StreamModel;

    closed spec fn view(&self) -> StreamModel {
        StreamModel { reader: self.reader@, closed: self.closed }
    }
}

impl EventStream {
    /// The stream never wakes its own source.
    pub open spec fn wf(&self) -> bool {
        !self@.reader.wake_pending
    }

    pub fn new() -> (r: Self)
        ensures
            r.wf(),
            !r@.reader.wake_pending,
            r@.reader.events.len() == 0,
            r@.reader.buffer.len() == 0,
            !r@.closed,
    {
        EventStream { reader: EventReader::new(), closed: false }
    }

    /// One poll: `incoming` is what polling the channel gave just before.
    pub fn poll_next(&mut self, incoming: ChunkPoll) -> (r: StreamPoll)
        requires
            old(self).wf(),
        ensures
            final(self).wf(),
            (final(self)@, r) == poll_model(old(self)@, incoming),
    {
        let opts = ParseOptions { reading_cursor_position: false };
        let is_chunk = matches!(incoming, ChunkPoll::Chunk(_));
        let clean = match &incoming {
            ChunkPoll::Chunk(b) => self.reader.push_bytes(b.as_slice(), false, &opts),
            ChunkPoll::Closed => {
                self.closed = true;
                true
            },
            ChunkPoll::Pending => true,
        };
        if !clean {
            return StreamPoll::Ready(Some(Err(DecodeError)));
        }
        match self.reader.try_read(EventFilter::Public) {
            Some(InternalEvent::Event(ev)) => StreamPoll::Ready(Some(Ok(ev))),
            _ => {
                if self.closed {
                    StreamPoll::Ready(None)
                } else if is_chunk {
                    StreamPoll::NeedInput
                } else {
                    StreamPoll::Pending
                }
            },
        }
    }
}

/// A stream with nothing buffered and an open channel.
pub open spec fn is_idle(m: StreamModel) -> bool {
    m.reader.events.len() == 0 && m.reader.buffer.len() == 0 && !m.reader.wake_pending && !m.closed
}

/// An idle stream polled while the channel has nothing is pending and
/// unchanged; given a chunk that decodes to exactly one user event, it
/// yields that event and is idle again, so the next empty poll is pending.
pub proof fn lemma_pending_then_event_then_pending(m: StreamModel, chunk: ChunkPoll, e: Event)
    requires
        is_idle(m),
        chunk is Chunk,
        decode_all(chunk->Chunk_0@, false, stream_options()) == (
            seq![InternalEvent::Event(e)],
            Seq::<u8>::empty(),
            false,
        ),
    ensures
        poll_model(m, ChunkPoll::Pending).0 == m,
        poll_model(m, ChunkPoll::Pending).1 is Pending,
        ({
            let (m2, r) = poll_model(m, chunk);
            &&& r == StreamPoll::Ready(Some(Ok::<Event, DecodeError>(e)))
            &&& is_idle(m2)
            &&& poll_model(m2, ChunkPoll::Pending).1 is Pending
        }),
{
    assert(m.reader.buffer + chunk->Chunk_0@ =~= chunk->Chunk_0@);
    let r1 = push_model(m.reader, chunk->Chunk_0@, false, stream_options()).0;
    assert(r1.events =~= seq![InternalEvent::Event(e)]);
    assert(is_first_match(r1.events, EventFilter::Public, 0));
    assert forall|i: int| is_first_match(r1.events, EventFilter::Public, i) implies i == 0 by {}
    assert(r1.events.remove(0) =~= Seq::<InternalEvent>::empty());
}

} // verus!
