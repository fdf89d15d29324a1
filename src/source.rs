use vstd::prelude::*;

use crate::event::{filter_accepts, EventFilter, InternalEvent, ParseOptions};
use crate::parse::{
    cursor_reply, decode, decode_at, is_params_end, lemma_cursor_reply_prefix_incomplete, Decoded,
};
use std::sync::atomic::{AtomicBool, Ordering};
use std::sync::Arc;

verus! {

/// What the decoder makes of a whole buffer: the events in order, the
/// bytes left over as an incomplete sequence, and whether any malformed
/// sequence was dropped on the way.
pub open spec fn decode_all(buf: Seq<u8>, more: bool, opts: ParseOptions) -> (Seq<
    InternalEvent,
>, Seq<u8>, bool)
    decreases buf.len(),
{
    match decode(buf, more, opts) {
        Decoded::Incomplete => (Seq::empty(), buf, false),
        Decoded::Complete(e, n) => if 0 < n <= buf.len() {
            let r = decode_all(buf.subrange(n as int, buf.len() as int), more, opts);
            (seq![e] + r.0, r.1, r.2)
        } else {
            (Seq::empty(), Seq::empty(), true)
        },
        Decoded::Malformed(n) => if 0 < n <= buf.len() {
            let r = decode_all(buf.subrange(n as int, buf.len() as int), more, opts);
            (r.0, r.1, true)
        } else {
            (Seq::empty(), Seq::empty(), true)
        },
    }
}

/// The decoder always takes at least one byte, and no more than it was given.
pub proof fn lemma_decode_takes_bytes(s: Seq<u8>, more: bool, opts: ParseOptions)
    requires
        s.len() <= usize::MAX,
    ensures
        match decode(s, more, opts) {
            Decoded::Incomplete => true,
            Decoded::Complete(_, n) => 0 < n <= s.len(),
            Decoded::Malformed(n) => 0 < n <= s.len(),
        },
{
    if s.len() > 1 && s[0] == crate::parse::ESC && s[1] == 0x5b {
        if exists|k: int| is_params_end(s, k) {
            let k = choose|k: int| is_params_end(s, k);
            assert(k < s.len());
        }
    }
}

/// The abstract state of an event source.
pub struct ReaderModel {
    /// Bytes received that do not yet form a complete sequence.
    pub buffer: Seq<u8>,
    /// Decoded events not yet handed out, oldest first.
    pub events: Seq<InternalEvent>,
    /// Set by a wake; cleared by the read that observes it.
    pub wake_pending: bool,
}

/// Where `i` is the first event of `s` that `f` accepts.
pub open spec fn is_first_match(s: Seq<InternalEvent>, f: EventFilter, i: int) -> bool {
    0 <= i < s.len() && filter_accepts(f, s[i]) && forall|j: int|
        0 <= j < i ==> !filter_accepts(f, #[trigger] s[j])
}

/// A read through filter `f`: a pending wake is consumed and yields nothing;
/// otherwise the first accepted event is taken out, and the others stay.
pub open spec fn read_model(m: ReaderModel, f: EventFilter) -> (ReaderModel, Option<
    InternalEvent,
>) {
    if m.wake_pending {
        (ReaderModel { wake_pending: false, ..m }, None)
    } else if exists|i: int| is_first_match(m.events, f, i) {
        let i = choose|i: int| is_first_match(m.events, f, i);
        (ReaderModel { events: m.events.remove(i), ..m }, Some(m.events[i]))
    } else {
        (m, None)
    }
}

/// A wake: the next read returns nothing.
pub open spec fn wake_model(m: ReaderModel) -> ReaderModel {
    ReaderModel { wake_pending: true, ..m }
}

/// Bytes arriving: they join the buffer, which is decoded as far as it goes.
pub open spec fn push_model(m: ReaderModel, bytes: Seq<u8>, more: bool, opts: ParseOptions) -> (
    ReaderModel,
    bool,
) {
    let d = decode_all(m.buffer + bytes, more, opts);
    (ReaderModel { buffer: d.1, events: m.events + d.0, wake_pending: m.wake_pending }, !d.2)
}

/// A handle that another thread can hold to cut a read short. Its flag
/// stays set until a reader observes it, however long that takes.
#[derive(Clone)]
pub struct Waker {
    pending: Arc<AtomicBool>,
}

impl Waker {
    pub fn new() -> Self {
        Waker { pending: Arc::new(AtomicBool::new(false)) }
    }

    /// Sets the flag; safe to call from any thread, with or without a read
    /// under way.
    pub fn wake(&self) {
        self.pending.store(true, Ordering::SeqCst);
    }

    /// Clears the flag, and says whether it was set.
    pub fn take(&self) -> bool {
        self.pending.swap(false, Ordering::SeqCst)
    }
}

/// An event source fed with raw bytes: it decodes them, holds the events
/// until read, and can be woken so that the next read returns at once.
pub struct EventReader {
    buffer: Vec<u8>,
    events: Vec<InternalEvent>,
    wake_pending: bool,
}

impl View for EventReader {
    type V = ReaderModel;

    closed spec fn view(&self) -> ReaderModel {
        ReaderModel { buffer: self.buffer@, events: self.events@, wake_pending: self.wake_pending }
    }
}

impl EventReader {
    pub fn new() -> (r: Self)
        ensures
            r@ == (ReaderModel {
                buffer: Seq::empty(),
                events: Seq::empty(),
                wake_pending: false,
            }),
    {
        EventReader { buffer: Vec::new(), events: Vec::new(), wake_pending: false }
    }

    /// Makes the next read return no event, whether or not one is under way.
    pub fn wake(&mut self)
        ensures
            final(self)@ == wake_model(old(self)@),
    {
        self.wake_pending = true;
    }

    /// Takes in a wake from `waker`, if one is pending there: the next read
    /// then returns no event. What other threads did is not known here, so
    /// either may have happened.
    pub fn observe(&mut self, waker: &Waker)
        ensures
            final(self)@ == old(self)@ || final(self)@ == wake_model(old(self)@),
    {
        self.note_wake(waker.take());
    }

    /// Records what was taken from a waker: where a wake was pending there,
    /// the next read returns no event; else nothing changes.
    pub fn note_wake(&mut self, taken: bool)
        ensures
            final(self)@ == (if taken {
                wake_model(old(self)@)
            } else {
                old(self)@
            }),
    {
        if taken {
            self.wake_pending = true;
        }
    }

    /// Whether a decoded event waits that `filter` accepts.
    pub fn has_event(&self, filter: EventFilter) -> (r: bool)
        ensures
            r == exists|i: int|
                0 <= i < self@.events.len() && filter_accepts(filter, #[trigger] self@.events[i]),
    {
        let mut i: usize = 0;
        while i < self.events.len()
            invariant
                0 <= i <= self.events@.len(),
                forall|j: int| 0 <= j < i ==> !filter_accepts(filter, #[trigger] self.events@[j]),
            decreases self.events@.len() - i,
        {
            if filter.accepts(&self.events[i]) {
                assert(filter_accepts(filter, self@.events[i as int]));
                return true;
            }
            i = i + 1;
        }
        false
    }

    /// Takes in bytes, and decodes all complete sequences among what is
    /// buffered. Returns false where a malformed sequence was dropped.
    pub fn push_bytes(&mut self, bytes: &[u8], more: bool, opts: &ParseOptions) -> (clean: bool)
        ensures
            (final(self)@, clean) == push_model(old(self)@, bytes@, more, *opts),
    {
        self.buffer.extend_from_slice(bytes);
        let ghost full = self.buffer@;
        assert(full =~= old(self)@.buffer + bytes@);
        let total = self.buffer.len();
        let mut pos: usize = 0;
        let mut malformed = false;
        let mut done = false;
        let ghost added: Seq<InternalEvent> = Seq::empty();
        assert(full.subrange(0, full.len() as int) =~= full);
        while !done
            invariant
                self.buffer@ == full,
                total == full.len(),
                pos <= full.len(),
                self.wake_pending == old(self).wake_pending,
                self.events@ == old(self)@.events + added,
                done ==> decode(full.subrange(pos as int, full.len() as int), more, *opts)
                    is Incomplete,
                decode_all(full, more, *opts).0 == added + decode_all(
                    full.subrange(pos as int, full.len() as int),
                    more,
                    *opts,
                ).0,
                decode_all(full, more, *opts).1 == decode_all(
                    full.subrange(pos as int, full.len() as int),
                    more,
                    *opts,
                ).1,
                decode_all(full, more, *opts).2 == (malformed || decode_all(
                    full.subrange(pos as int, full.len() as int),
                    more,
                    *opts,
                ).2),
            decreases full.len() - pos, (if done { 0int } else { 1int }),
        {
            let ghost rest = full.subrange(pos as int, full.len() as int);
            let d = decode_at(&self.buffer, pos, more, opts);
            proof {
                lemma_decode_takes_bytes(rest, more, *opts);
            }
            match d {
                Decoded::Incomplete => {
                    done = true;
                },
                Decoded::Complete(e, n) => {
                    assert(rest.subrange(n as int, rest.len() as int) =~= full.subrange(
                        pos + n,
                        full.len() as int,
                    ));
                    self.events.push(e);
                    proof {
                        added = added + seq![e];
                        assert(seq![e] + decode_all(rest.subrange(n as int, rest.len() as int), more, *opts).0
                            == decode_all(rest, more, *opts).0);
                    }
                    pos = pos + n;
                },
                Decoded::Malformed(n) => {
                    assert(rest.subrange(n as int, rest.len() as int) =~= full.subrange(
                        pos + n,
                        full.len() as int,
                    ));
                    malformed = true;
                    pos = pos + n;
                },
            }
        }
        self.buffer = self.buffer.split_off(pos);
        assert(self.events@ =~= old(self)@.events + decode_all(full, more, *opts).0);
        !malformed
    }

    /// Reads through `filter`: no event where a wake was pending (which is
    /// then consumed), else the first accepted event, which leaves the queue.
    pub fn try_read(&mut self, filter: EventFilter) -> (r: Option<InternalEvent>)
        ensures
            (final(self)@, r) == read_model(old(self)@, filter),
    {
        if self.wake_pending {
            self.wake_pending = false;
            return None;
        }
        let mut i: usize = 0;
        while i < self.events.len()
            invariant
                0 <= i <= self.events@.len(),
                self@ == old(self)@,
                !self.wake_pending,
                forall|j: int| 0 <= j < i ==> !filter_accepts(filter, #[trigger] self.events@[j]),
            decreases self.events@.len() - i,
        {
            if filter.accepts(&self.events[i]) {
                assert(is_first_match(self.events@, filter, i as int));
                assert forall|x: int| is_first_match(self.events@, filter, x) implies x == i by {
                    if x < i {
                    } else if x > i {
                        assert(!filter_accepts(filter, self.events@[i as int]));
                    }
                }
                let ghost m = old(self)@;
                assert(m.events == self.events@);
                let e = self.events.remove(i);
                assert(read_model(m, filter).1 == Some(m.events[i as int]));
                assert(self@ == read_model(m, filter).0);
                return Some(e);
            }
            i = i + 1;
        }
        assert forall|x: int| !is_first_match(self.events@, filter, x) by {
            if is_first_match(self.events@, filter, x) {
                assert(!filter_accepts(filter, self.events@[x]));
            }
        }
        None
    }
}

/// A wake issued while no read is under way makes the next read, through
/// any filter, return no event, and leaves the source exactly as it was
/// before the wake: the flag is consumed once, and later reads behave as
/// if no wake had come.
pub proof fn lemma_wake_consumed_once(m: ReaderModel, f: EventFilter)
    requires
        !m.wake_pending,
    ensures
        read_model(wake_model(m), f) == (m, Option::<InternalEvent>::None),
{
}

/// The events of `s` that `f` does not accept, in their order.
pub open spec fn others(s: Seq<InternalEvent>, f: EventFilter) -> Seq<InternalEvent>
    decreases s.len(),
{
    if s.len() == 0 {
        Seq::empty()
    } else if filter_accepts(f, s[0]) {
        others(s.drop_first(), f)
    } else {
        seq![s[0]] + others(s.drop_first(), f)
    }
}

proof fn lemma_others_remove(s: Seq<InternalEvent>, f: EventFilter, i: int)
    requires
        0 <= i < s.len(),
        filter_accepts(f, s[i]),
    ensures
        others(s.remove(i), f) == others(s, f),
    decreases i,
{
    if i == 0 {
        assert(s.remove(0) =~= s.drop_first());
    } else {
        let t = s.remove(i);
        assert(t[0] == s[0]);
        assert(t.drop_first() =~= s.drop_first().remove(i - 1));
        lemma_others_remove(s.drop_first(), f, i - 1);
    }
}

proof fn lemma_others_append(a: Seq<InternalEvent>, b: Seq<InternalEvent>, f: EventFilter)
    ensures
        others(a + b, f) == others(a, f) + others(b, f),
    decreases a.len(),
{
    if a.len() == 0 {
        assert(a + b =~= b);
        assert(others(a, f) + others(b, f) =~= others(b, f));
    } else {
        assert((a + b).drop_first() =~= a.drop_first() + b);
        lemma_others_append(a.drop_first(), b, f);
        assert((a + b)[0] == a[0]);
        if !filter_accepts(f, a[0]) {
            assert(seq![a[0]] + (others(a.drop_first(), f) + others(b, f)) =~= (seq![a[0]]
                + others(a.drop_first(), f)) + others(b, f));
        }
    }
}

/// A read through a filter never loses the events that the filter refuses:
/// they stay queued, in their order, for a later read, and bytes that
/// arrive meanwhile only add events after them.
pub proof fn lemma_filtered_read_keeps_others(
    m: ReaderModel,
    f: EventFilter,
    bytes: Seq<u8>,
    more: bool,
    opts: ParseOptions,
)
    ensures
        others(read_model(m, f).0.events, f) == others(m.events, f),
        others(push_model(m, bytes, more, opts).0.events, f) == others(m.events, f) + others(
            decode_all(m.buffer + bytes, more, opts).0,
            f,
        ),
{
    if !m.wake_pending && exists|i: int| is_first_match(m.events, f, i) {
        let i = choose|i: int| is_first_match(m.events, f, i);
        lemma_others_remove(m.events, f, i);
    }
    lemma_others_append(m.events, decode_all(m.buffer + bytes, more, opts).0, f);
}

/// A proper prefix of a reply `ESC [ row ; col R`, arriving while more
/// input may follow, is kept whole in the buffer: no event comes of it and
/// nothing is reported malformed.
pub proof fn lemma_reply_prefix_is_buffered(
    m: ReaderModel,
    row: nat,
    col: nat,
    n: int,
    opts: ParseOptions,
)
    requires
        m.buffer.len() == 0,
        1 <= row <= 9999,
        1 <= col <= 9999,
        0 <= n < cursor_reply(row, col).len(),
    ensures
        push_model(m, cursor_reply(row, col).subrange(0, n), true, opts) == (
            ReaderModel { buffer: cursor_reply(row, col).subrange(0, n), ..m },
            true,
        ),
{
    let p = cursor_reply(row, col).subrange(0, n);
    lemma_cursor_reply_prefix_incomplete(row, col, n, opts);
    assert(m.buffer + p =~= p);
    assert(m.events + Seq::<InternalEvent>::empty() =~= m.events);
}

} // verus!
