use std::collections::VecDeque;
use vstd::prelude::*;

verus! {

/// Why a transport stopped for good.
#[derive(Clone, Copy, Debug, PartialEq, Eq, Structural)]
pub enum Terminal {
    /// The application closed the queue, or the peer closed the stream.
    Closed,
    /// Writing to the stream failed.
    WriteFailed,
    /// The stream held bytes that do not decode to a message.
    Corrupt,
}

/// The bytes of a sequence of frames, one after the other.
pub open spec fn flatten(frames: Seq<Seq<u8>>) -> Seq<u8>
    decreases frames.len(),
{
    if frames.len() == 0 {
        Seq::empty()
    } else {
        flatten(frames.drop_last()) + frames.last()
    }
}

/// Where frame `i` starts in `flatten(frames)`.
pub open spec fn offset(frames: Seq<Seq<u8>>, i: int) -> int {
    flatten(frames.take(i)).len() as int
}

/// The bytes of each frame of a queue.
pub open spec fn frames_of(v: Seq<Vec<u8>>) -> Seq<Seq<u8>> {
    v.map_values(|f: Vec<u8>| f@)
}

/// What the outbound worker does next.
#[derive(Debug)]
pub enum WorkerAction {
    /// Write these bytes to the stream, whole, before asking again.
    Write(Vec<u8>),
    /// Nothing is queued yet: block until a frame is submitted or the queue closes.
    Wait,
    /// Stop: the queue is closed and drained, or a write failed.
    Exit,
}

pub struct OutboundView {
    /// Encoded messages not yet handed to the worker, oldest first.
    pub pending: Seq<Seq<u8>>,
    pub closed: bool,
    pub failed: bool,
}

/// The queue between an application that submits encoded messages and the
/// worker that writes them to a byte stream, in submission order.
///
/// Once the application closes the queue, the worker still writes every frame
/// submitted before, then exits. A failed write stops the worker and drops what
/// is still queued; later submissions are refused.
pub struct Outbound {
    pending: VecDeque<Vec<u8>>,
    closed: bool,
    failed: bool,
}

impl View for Outbound {
    type V = OutboundView;

    closed spec fn view(&self) -> OutboundView {
        OutboundView { pending: frames_of(self.pending@), closed: self.closed, failed: self.failed }
    }
}

impl Outbound {
    pub fn new() -> (r: Outbound)
        ensures
            r@.pending.len() == 0,
            !r@.closed,
            !r@.failed,
    {
        Outbound { pending: VecDeque::new(), closed: false, failed: false }
    }

    /// Queues `frame` behind every frame submitted before. Hands it back when the
    /// queue is closed or the worker has stopped on a failed write.
    pub fn submit(&mut self, frame: Vec<u8>) -> (r: Result<(), Vec<u8>>)
        ensures
            (old(self)@.closed || old(self)@.failed) ==> r == Err::<(), Vec<u8>>(frame)
                && final(self)@ == old(self)@,
            !(old(self)@.closed || old(self)@.failed) ==> r is Ok && final(self)@ == (OutboundView {
                pending: old(self)@.pending.push(frame@),
                ..old(self)@
            }),
    {
        if self.closed || self.failed {
            return Err(frame);
        }
        let ghost avant = self.pending@;
        self.pending.push_back(frame);
        proof {
            assert(frames_of(self.pending@) == frames_of(avant).push(frame@));
        }
        Ok(())
    }

    /// The application will submit nothing more.
    pub fn close(&mut self)
        ensures
            final(self)@ == (OutboundView { closed: true, ..old(self)@ }),
    {
        self.closed = true;
    }

    /// The worker's next step: the oldest pending frame, taken off the queue,
    /// or a wait while the queue is open and empty, or an exit.
    pub fn next_action(&mut self) -> (r: WorkerAction)
        ensures
            old(self)@.failed ==> r is Exit && final(self)@ == old(self)@,
            !old(self)@.failed && old(self)@.pending.len() > 0 ==> (r matches WorkerAction::Write(f)
                && f@ == old(self)@.pending[0]) && final(self)@ == (OutboundView {
                pending: old(self)@.pending.drop_first(),
                ..old(self)@
            }),
            !old(self)@.failed && old(self)@.pending.len() == 0 ==> final(self)@ == old(self)@ && (
            if old(self)@.closed {
                r is Exit
            } else {
                r is Wait
            }),
    {
        if self.failed {
            return WorkerAction::Exit;
        }
        let ghost avant = self.pending@;
        match self.pending.pop_front() {
            Some(frame) => {
                proof {
                    assert(frames_of(self.pending@) == frames_of(avant).drop_first());
                }
                WorkerAction::Write(frame)
            },
            None => {
                if self.closed {
                    WorkerAction::Exit
                } else {
                    WorkerAction::Wait
                }
            },
        }
    }

    /// The worker could not write a frame: it stops, and what is still queued is dropped.
    pub fn write_failed(&mut self)
        ensures
            final(self)@ == (OutboundView { pending: Seq::empty(), failed: true, ..old(self)@ }),
    {
        self.failed = true;
        self.pending.clear();
        proof {
            assert(frames_of(self.pending@) == Seq::<Seq<u8>>::empty());
        }
    }

    /// Whether the worker has nothing more to do, ever.
    pub fn is_finished(&self) -> (r: bool)
        ensures
            r == (self@.failed || (self@.closed && self@.pending.len() == 0)),
    {
        self.failed || (self.closed && self.pending.len() == 0)
    }

    /// Runs the worker against an in-memory sink until it would wait or exit:
    /// every pending frame is appended to `sink`, in order.
    pub fn flush_into(&mut self, sink: &mut Vec<u8>)
        ensures
            !old(self)@.failed ==> final(sink)@ == old(sink)@ + flatten(old(self)@.pending),
            old(self)@.failed ==> final(sink)@ == old(sink)@,
            final(self)@.pending.len() == 0 || old(self)@.failed,
            final(self)@.closed == old(self)@.closed,
            final(self)@.failed == old(self)@.failed,
    {
        let ghost debut = self@.pending;
        let ghost base = sink@;
        let ghost mut ecrits: int = 0;
        loop
            invariant
                0 <= ecrits <= debut.len(),
                self@.closed == old(self)@.closed,
                self@.failed == old(self)@.failed,
                !self@.failed ==> self@.pending == debut.skip(ecrits),
                !self@.failed ==> sink@ == base + flatten(debut.take(ecrits)),
                self@.failed ==> sink@ == base,
                debut == old(self)@.pending,
                base == old(sink)@,
            ensures
                self@.closed == old(self)@.closed,
                self@.failed == old(self)@.failed,
                !self@.failed ==> self@.pending.len() == 0 && sink@ == base + flatten(debut),
                self@.failed ==> sink@ == base,
            decreases debut.len() - ecrits,
        {
            let ghost avant = self@;
            match self.next_action() {
                WorkerAction::Write(frame) => {
                    proof {
                        assert(debut.take(ecrits + 1).drop_last() == debut.take(ecrits));
                        assert(debut.skip(ecrits).drop_first() == debut.skip(ecrits + 1));
                    }
                    let mut f = frame;
                    sink.append(&mut f);
                    proof {
                        ecrits = ecrits + 1;
                    }
                },
                _ => {
                    proof {
                        if !avant.failed {
                            assert(debut.skip(ecrits).len() == 0);
                            assert(debut.take(ecrits) == debut);
                        }
                    }
                    break;
                },
            }
        }
    }
}

/// What one attempt of the inbound worker to decode a message gave.
#[derive(Debug)]
pub enum Decoded<T> {
    Message(T),
    /// The bytes read do not form a message.
    Malformed,
    /// The stream was closed, or reading from it failed.
    Closed,
}

/// What the application gets from one `poll`.
#[derive(Debug)]
pub enum Poll<T> {
    Message(T),
    /// Nothing has arrived yet; more may come.
    Empty,
    /// Nothing more will ever come.
    Terminated(Terminal),
}

pub struct InboundView<T> {
    /// Decoded messages not yet polled, oldest first.
    pub queue: Seq<T>,
    /// Set once the stream has ended or turned out corrupt.
    pub end: Option<Terminal>,
}

/// The state after the worker reports `event`. Nothing changes once the stream has ended.
pub open spec fn after_event<T>(v: InboundView<T>, event: Decoded<T>) -> InboundView<T> {
    if v.end is Some {
        v
    } else {
        match event {
            Decoded::Message(m) => InboundView { queue: v.queue.push(m), end: None },
            Decoded::Malformed => InboundView { queue: v.queue, end: Some(Terminal::Corrupt) },
            Decoded::Closed => InboundView { queue: v.queue, end: Some(Terminal::Closed) },
        }
    }
}

/// What `poll` returns in state `v`.
pub open spec fn poll_result<T>(v: InboundView<T>) -> Poll<T> {
    if v.queue.len() > 0 {
        Poll::Message(v.queue[0])
    } else {
        match v.end {
            Some(t) => Poll::Terminated(t),
            None => Poll::Empty,
        }
    }
}

/// The state after a `poll` in state `v`.
pub open spec fn after_poll<T>(v: InboundView<T>) -> InboundView<T> {
    if v.queue.len() > 0 {
        InboundView { queue: v.queue.drop_first(), end: v.end }
    } else {
        v
    }
}

/// The state after the worker reports each of `events` in turn.
pub open spec fn feed<T>(v: InboundView<T>, events: Seq<Decoded<T>>) -> InboundView<T>
    decreases events.len(),
{
    if events.len() == 0 {
        v
    } else {
        after_event(feed(v, events.drop_last()), events.last())
    }
}

/// What `n` successive polls from state `v` return.
pub open spec fn polls<T>(v: InboundView<T>, n: nat) -> Seq<Poll<T>>
    decreases n,
{
    if n == 0 {
        Seq::empty()
    } else {
        seq![poll_result(v)] + polls(after_poll(v), (n - 1) as nat)
    }
}

pub open spec fn as_polled<T>(ms: Seq<T>) -> Seq<Poll<T>> {
    ms.map_values(|m: T| Poll::Message(m))
}

pub open spec fn as_events<T>(ms: Seq<T>) -> Seq<Decoded<T>> {
    ms.map_values(|m: T| Decoded::Message(m))
}

/// The queue between the inbound worker, which decodes messages from a byte
/// stream, and the application, which polls them without ever blocking.
pub struct Inbound<T> {
    queue: VecDeque<T>,
    end: Option<Terminal>,
}

impl<T> View for Inbound<T> {
    type V = InboundView<T>;

    closed spec fn view(&self) -> InboundView<T> {
        InboundView { queue: self.queue@, end: self.end }
    }
}

impl<T> Inbound<T> {
    pub fn new() -> (r: Inbound<T>)
        ensures
            r@.queue.len() == 0,
            r@.end is None,
    {
        Inbound { queue: VecDeque::new(), end: None }
    }

    /// Takes what the worker decoded. A malformed message or a closed stream
    /// ends the stream for good; the result says whether the worker should read on.
    pub fn receive(&mut self, event: Decoded<T>) -> (read_on: bool)
        ensures
            final(self)@ == after_event(old(self)@, event),
            read_on == (final(self)@.end is None),
    {
        if self.end.is_some() {
            return false;
        }
        match event {
            Decoded::Message(m) => {
                self.queue.push_back(m);
                true
            },
            Decoded::Malformed => {
                self.end = Some(Terminal::Corrupt);
                false
            },
            Decoded::Closed => {
                self.end = Some(Terminal::Closed);
                false
            },
        }
    }

    /// The oldest message not yet polled; or, when none is queued, `Empty` while
    /// the stream is open and the reason it ended once it has. Never blocks.
    pub fn poll(&mut self) -> (r: Poll<T>)
        ensures
            r == poll_result(old(self)@),
            final(self)@ == after_poll(old(self)@),
            old(self)@.queue.len() == 0 && old(self)@.end is None ==> r is Empty && final(self)@
                == old(self)@,
    {
        match self.queue.pop_front() {
            Some(m) => Poll::Message(m),
            None => match self.end {
                Some(t) => Poll::Terminated(t),
                None => Poll::Empty,
            },
        }
    }
}

proof fn lemma_flatten_append(a: Seq<Seq<u8>>, b: Seq<Seq<u8>>)
    ensures
        flatten(a + b) == flatten(a) + flatten(b),
    decreases b.len(),
{
    if b.len() == 0 {
        assert(a + b == a);
    } else {
        lemma_flatten_append(a, b.drop_last());
        assert((a + b).drop_last() == a + b.drop_last());
        assert((a + b).last() == b.last());
    }
}

proof fn lemma_flatten_one(f: Seq<u8>)
    ensures
        flatten(seq![f]) == f,
{
    assert(seq![f].drop_last() == Seq::<Seq<u8>>::empty());
    assert(flatten(Seq::<Seq<u8>>::empty()) == Seq::<u8>::empty());
    assert(Seq::<u8>::empty() + f == f);
}

/// Frames are written whole and in order: for frames `i` before `j`, the bytes
/// of frame `i` sit at their offset in the output and end before frame `j`'s begin.
pub proof fn order_preserved(frames: Seq<Seq<u8>>, i: int, j: int)
    requires
        0 <= i < j < frames.len(),
    ensures
        offset(frames, i) + frames[i].len() <= offset(frames, j),
        offset(frames, j) + frames[j].len() <= flatten(frames).len(),
        flatten(frames).subrange(offset(frames, i), offset(frames, i) + frames[i].len()) == frames[i],
        flatten(frames).subrange(offset(frames, j), offset(frames, j) + frames[j].len()) == frames[j],
{
    lemma_frame_at(frames, i);
    lemma_frame_at(frames, j);
    assert(frames.take(j) == frames.take(i + 1) + frames.subrange(i + 1, j));
    lemma_flatten_append(frames.take(i + 1), frames.subrange(i + 1, j));
    assert(frames.take(i + 1) == frames.take(i) + seq![frames[i]]);
    lemma_flatten_append(frames.take(i), seq![frames[i]]);
    lemma_flatten_one(frames[i]);
}

proof fn lemma_frame_at(frames: Seq<Seq<u8>>, i: int)
    requires
        0 <= i < frames.len(),
    ensures
        flatten(frames) == flatten(frames.take(i)) + frames[i] + flatten(frames.skip(i + 1)),
        flatten(frames).subrange(offset(frames, i), offset(frames, i) + frames[i].len()) == frames[i],
{
    assert(frames == frames.take(i) + seq![frames[i]] + frames.skip(i + 1));
    lemma_flatten_append(frames.take(i) + seq![frames[i]], frames.skip(i + 1));
    lemma_flatten_append(frames.take(i), seq![frames[i]]);
    lemma_flatten_one(frames[i]);
    let pre = flatten(frames.take(i));
    let all = flatten(frames);
    assert(all.subrange(pre.len() as int, (pre.len() + frames[i].len()) as int) == frames[i]);
}

/// `dec` reads back what `enc` wrote, and no more: on the encoding of `m`
/// followed by any bytes, it gives `m` and the length of that encoding.
pub open spec fn self_delimiting<T>(
    enc: spec_fn(T) -> Seq<u8>,
    dec: spec_fn(Seq<u8>) -> Option<(T, nat)>,
) -> bool {
    forall|m: T, rest: Seq<u8>| #[trigger] dec(enc(m) + rest) == Some((m, enc(m).len()))
}

/// Up to `n` messages decoded one after the other from `bytes`, stopping at
/// the first failure.
pub open spec fn decode_n<T>(dec: spec_fn(Seq<u8>) -> Option<(T, nat)>, bytes: Seq<u8>, n: nat) -> Seq<T>
    decreases n,
{
    if n == 0 {
        Seq::empty()
    } else {
        match dec(bytes) {
            Some((m, k)) => seq![m] + decode_n(dec, bytes.skip(k as int), (n - 1) as nat),
            None => Seq::empty(),
        }
    }
}

proof fn lemma_flatten_front(frames: Seq<Seq<u8>>)
    requires
        frames.len() > 0,
    ensures
        flatten(frames) == frames[0] + flatten(frames.drop_first()),
{
    assert(frames == seq![frames[0]] + frames.drop_first());
    lemma_flatten_append(seq![frames[0]], frames.drop_first());
    lemma_flatten_one(frames[0]);
}

proof fn lemma_decode_all<T>(
    enc: spec_fn(T) -> Seq<u8>,
    dec: spec_fn(Seq<u8>) -> Option<(T, nat)>,
    msgs: Seq<T>,
)
    requires
        self_delimiting(enc, dec),
    ensures
        decode_n(dec, flatten(msgs.map_values(enc)), msgs.len()) == msgs,
    decreases msgs.len(),
{
    if msgs.len() > 0 {
        let frames = msgs.map_values(enc);
        lemma_flatten_front(frames);
        let rest = flatten(frames.drop_first());
        assert(frames.drop_first() == msgs.drop_first().map_values(enc));
        assert(dec(enc(msgs[0]) + rest) == Some((msgs[0], enc(msgs[0]).len())));
        assert((enc(msgs[0]) + rest).skip(enc(msgs[0]).len() as int) == rest);
        lemma_decode_all(enc, dec, msgs.drop_first());
        assert(msgs == seq![msgs[0]] + msgs.drop_first());
    }
}

proof fn lemma_feed_messages<T>(v: InboundView<T>, ms: Seq<T>)
    requires
        v.end is None,
    ensures
        feed(v, as_events(ms)) == (InboundView { queue: v.queue + ms, end: None }),
    decreases ms.len(),
{
    if ms.len() == 0 {
        assert(v.queue + ms == v.queue);
    } else {
        assert(as_events(ms).drop_last() == as_events(ms.drop_last()));
        lemma_feed_messages(v, ms.drop_last());
        assert(as_events(ms).last() == Decoded::Message(ms.last()));
        assert((v.queue + ms.drop_last()).push(ms.last()) == v.queue + ms);
    }
}

proof fn lemma_polls_drain<T>(v: InboundView<T>, n: nat)
    ensures
        polls(v, v.queue.len() + n) == as_polled(v.queue) + polls(
            InboundView { queue: Seq::empty(), end: v.end },
            n,
        ),
    decreases v.queue.len(),
{
    if v.queue.len() == 0 {
        assert(v.queue == Seq::<T>::empty());
        assert(as_polled(v.queue) + polls(v, n) == polls(v, n));
    } else {
        let w = after_poll(v);
        lemma_polls_drain(w, n);
        assert(as_polled(v.queue) == seq![Poll::Message(v.queue[0])] + as_polled(w.queue));
        assert((v.queue.len() + n - 1) as nat == w.queue.len() + n);
    }
}

proof fn lemma_polls_ended<T>(t: Terminal, n: nat)
    ensures
        polls(InboundView::<T> { queue: Seq::empty(), end: Some(t) }, n) == Seq::new(
            n,
            |i: int| Poll::<T>::Terminated(t),
        ),
    decreases n,
{
    if n > 0 {
        lemma_polls_ended::<T>(t, (n - 1) as nat);
        let v = InboundView::<T> { queue: Seq::empty(), end: Some(t) };
        assert(after_poll(v) == v);
    }
}

/// Messages encoded with a self-delimiting codec, written frame after frame
/// and decoded from the bytes that came out, are the messages submitted; fed
/// to an inbound queue, they are polled back in that order.
pub proof fn round_trip<T>(
    enc: spec_fn(T) -> Seq<u8>,
    dec: spec_fn(Seq<u8>) -> Option<(T, nat)>,
    msgs: Seq<T>,
)
    requires
        self_delimiting(enc, dec),
    ensures
        decode_n(dec, flatten(msgs.map_values(enc)), msgs.len()) == msgs,
        polls(
            feed(InboundView { queue: Seq::empty(), end: None }, as_events(msgs)),
            msgs.len(),
        ) == as_polled(msgs),
{
    lemma_decode_all(enc, dec, msgs);
    let v0 = InboundView::<T> { queue: Seq::empty(), end: None };
    lemma_feed_messages(v0, msgs);
    assert(v0.queue + msgs == msgs);
    let v = InboundView::<T> { queue: msgs, end: None };
    lemma_polls_drain(v, 0);
    assert(msgs.len() + 0 == msgs.len());
    assert(as_polled(msgs) + polls(InboundView { queue: Seq::<T>::empty(), end: None }, 0) == as_polled(msgs));
}

/// Once the stream has ended, whatever the worker reports changes nothing, and
/// after the messages still queued every poll reports the end.
pub proof fn terminal_is_final<T>(v: InboundView<T>, events: Seq<Decoded<T>>, n: nat)
    requires
        v.end is Some,
    ensures
        feed(v, events) == v,
        polls(v, v.queue.len() + n) == as_polled(v.queue) + Seq::new(
            n,
            |i: int| Poll::<T>::Terminated(v.end->Some_0),
        ),
    decreases events.len(),
{
    if events.len() > 0 {
        terminal_is_final(v, events.drop_last(), n);
    }
    lemma_polls_drain(v, n);
    lemma_polls_ended::<T>(v.end->Some_0, n);
}

} // verus!
