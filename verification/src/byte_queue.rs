//! A bounded pipe of bytes with an explicit close.
//!
//! A network thread pushes bytes in, the decoder thread reads them out as a plain byte stream, and
//! the bound holds the producer back, so that a live stream does not buffer without limit. Closing
//! is what makes stopping responsive: a waiting reader sees the end of the stream instead of
//! waiting for a socket.
//!
//! The queue itself never blocks. An operation that has to wait says so and changes nothing; it is
//! tried again once the queue has changed.

use std::collections::VecDeque;
use vstd::prelude::*;

use crate::text;

verus! {

/// About 2 MB of undecoded audio: several seconds even of a stream of 320 kbps.
pub const DEFAULT_CAPACITY: usize = 2_097_152;

/// What became of a push.
#[derive(Clone, Copy, Debug, PartialEq, Eq, Structural)]
pub enum PushOutcome {
    /// The bytes are in the queue.
    Pushed,
    /// The queue is closed: the producer is to stop.
    Closed,
    /// The queue is full: the producer is to wait.
    Full,
}

/// What a read gave.
#[derive(Debug)]
pub enum ReadOutcome {
    /// Bytes off the front of the queue.
    Data(Vec<u8>),
    /// The stream has ended.
    Eof,
    /// The stream has ended with an error.
    Failed(String),
    /// Nothing is there yet.
    Wait,
}

/// What a read gave, as a value.
pub enum ReadView {
    Data(Seq<u8>),
    Eof,
    Failed(Seq<char>),
    Wait,
}

impl View for ReadOutcome {
    type V = ReadView;

    open spec fn view(&self) -> ReadView {
        match *self {
            ReadOutcome::Data(bytes) => ReadView::Data(bytes@),
            ReadOutcome::Eof => ReadView::Eof,
            ReadOutcome::Failed(error) => ReadView::Failed(error@),
            ReadOutcome::Wait => ReadView::Wait,
        }
    }
}

/// The state of a queue.
pub struct QueueView {
    /// What was pushed and not yet read, in order.
    pub bytes: Seq<u8>,
    pub closed: bool,
    /// The error that is still to be told to the reader.
    pub error: Option<Seq<char>>,
    pub capacity: nat,
}

/// An empty, open queue.
pub open spec fn empty_queue(capacity: nat) -> QueueView {
    QueueView { bytes: Seq::empty(), closed: false, error: None, capacity }
}

/// Only a closed queue has an error.
pub open spec fn valid_queue(queue: QueueView) -> bool {
    queue.error is Some ==> queue.closed
}

/// A push goes in whole while the queue holds less than its capacity.
pub open spec fn push_outcome(queue: QueueView) -> PushOutcome {
    if queue.closed {
        PushOutcome::Closed
    } else if queue.bytes.len() >= queue.capacity {
        PushOutcome::Full
    } else {
        PushOutcome::Pushed
    }
}

/// The queue after a push.
pub open spec fn after_push(queue: QueueView, data: Seq<u8>) -> QueueView {
    if push_outcome(queue) == PushOutcome::Pushed {
        QueueView { bytes: queue.bytes + data, ..queue }
    } else {
        queue
    }
}

/// The queue after a close. The first close counts.
pub open spec fn after_close(queue: QueueView, error: Option<Seq<char>>) -> QueueView {
    if queue.closed {
        queue
    } else {
        QueueView { closed: true, error, ..queue }
    }
}

/// How many bytes a read takes.
pub open spec fn read_count(queue: QueueView, limit: nat) -> nat {
    if limit <= queue.bytes.len() {
        limit
    } else {
        queue.bytes.len()
    }
}

/// What a read of at most `limit` bytes gives.
pub open spec fn read_outcome(queue: QueueView, limit: nat) -> ReadView {
    if limit == 0 || queue.bytes.len() > 0 {
        ReadView::Data(queue.bytes.take(read_count(queue, limit) as int))
    } else if !queue.closed {
        ReadView::Wait
    } else {
        match queue.error {
            Some(error) => ReadView::Failed(error),
            None => ReadView::Eof,
        }
    }
}

/// The queue after a read. The error is told once.
pub open spec fn after_read(queue: QueueView, limit: nat) -> QueueView {
    if limit == 0 || queue.bytes.len() > 0 {
        QueueView { bytes: queue.bytes.skip(read_count(queue, limit) as int), ..queue }
    } else if queue.closed {
        QueueView { error: None, ..queue }
    } else {
        queue
    }
}

/// What a peek at `count` bytes shows, or nothing where it is worth waiting.
pub open spec fn peeked(queue: QueueView, count: nat, timed_out: bool) -> Option<Seq<u8>> {
    if queue.bytes.len() < count && !queue.closed && !timed_out {
        None
    } else {
        Some(queue.bytes.take(read_count(queue, count) as int))
    }
}

/// Whether there is data, or nothing where it is worth waiting.
pub open spec fn data_ready(queue: QueueView, timed_out: bool) -> Option<bool> {
    if queue.bytes.len() > 0 {
        Some(true)
    } else if queue.closed || timed_out {
        Some(false)
    } else {
        None
    }
}

/// The bounded pipe.
pub struct ByteQueue {
    buf: VecDeque<u8>,
    closed: bool,
    error: Option<String>,
    capacity: usize,
}

impl View for ByteQueue {
    type V = QueueView;

    closed spec fn view(&self) -> QueueView {
        QueueView {
            bytes: self.buf@,
            closed: self.closed,
            error: text::optional_text(self.error),
            capacity: self.capacity as nat,
        }
    }
}

impl ByteQueue {
    /// An empty, open queue.
    pub fn new() -> (queue: Self)
        ensures
            queue@ == empty_queue(DEFAULT_CAPACITY as nat),
    {
        ByteQueue {
            buf: VecDeque::new(),
            closed: false,
            error: None,
            capacity: DEFAULT_CAPACITY,
        }
    }

    /// Appends `data`, unless the queue is closed or full.
    pub fn push(&mut self, data: &[u8]) -> (outcome: PushOutcome)
        ensures
            outcome == push_outcome(old(self)@),
            final(self)@ == after_push(old(self)@, data@),
    {
        if self.closed {
            return PushOutcome::Closed;
        }
        if self.buf.len() >= self.capacity {
            return PushOutcome::Full;
        }
        let ghost before = self.buf@;
        for position in 0..data.len()
            invariant
                self.buf@ =~= before + data@.take(position as int),
                self.closed == old(self).closed,
                self.error == old(self).error,
                self.capacity == old(self).capacity,
        {
            self.buf.push_back(data[position]);
            assert(data@.take(position + 1) =~= data@.take(position as int).push(
                data@[position as int],
            ));
        }
        assert(data@.take(data@.len() as int) =~= data@);
        PushOutcome::Pushed
    }

    /// Marks the stream finished. `error` is told to the reader in place of a clean end.
    pub fn close(&mut self, error: Option<String>)
        ensures
            final(self)@ == after_close(old(self)@, text::optional_text(error)),
    {
        if !self.closed {
            self.closed = true;
            self.error = error;
        }
    }

    /// The queue has been closed.
    pub fn is_closed(&self) -> (closed: bool)
        ensures
            closed == self@.closed,
    {
        self.closed
    }

    /// A copy of the first `count` bytes.
    fn front(&self, count: usize) -> (bytes: Vec<u8>)
        requires
            count <= self@.bytes.len(),
        ensures
            bytes@ == self@.bytes.take(count as int),
    {
        let mut bytes: Vec<u8> = Vec::with_capacity(count);
        for position in 0..count
            invariant
                count <= self.buf@.len(),
                bytes@ =~= self.buf@.take(position as int),
        {
            bytes.push(self.buf[position]);
        }
        bytes
    }

    /// Up to `count` leading bytes, which stay in the queue, or nothing as long as fewer are there
    /// and more may come in time.
    pub fn peek(&self, count: usize, timed_out: bool) -> (head: Option<Vec<u8>>)
        ensures
            match head {
                Some(bytes) => peeked(self@, count as nat, timed_out) == Some(bytes@),
                None => peeked(self@, count as nat, timed_out) is None,
            },
    {
        if self.buf.len() < count && !self.closed && !timed_out {
            return None;
        }
        let len: usize = self.buf.len();
        Some(self.front(if count <= len { count } else { len }))
    }

    /// Whether there is data, or nothing as long as some may come in time.
    pub fn wait_for_data(&self, timed_out: bool) -> (ready: Option<bool>)
        ensures
            ready == data_ready(self@, timed_out),
    {
        if self.buf.len() > 0 {
            Some(true)
        } else if self.closed || timed_out {
            Some(false)
        } else {
            None
        }
    }

    /// Takes up to `limit` bytes off the front.
    pub fn read(&mut self, limit: usize) -> (outcome: ReadOutcome)
        ensures
            outcome@ == read_outcome(old(self)@, limit as nat),
            final(self)@ == after_read(old(self)@, limit as nat),
    {
        let len: usize = self.buf.len();
        if limit == 0 || len > 0 {
            let count: usize = if limit <= len { limit } else { len };
            let bytes: Vec<u8> = self.front(count);
            for taken in 0..count
                invariant
                    count <= old(self).buf@.len(),
                    self.buf@ =~= old(self).buf@.skip(taken as int),
                    self.closed == old(self).closed,
                    self.error == old(self).error,
                    self.capacity == old(self).capacity,
            {
                let _ = self.buf.pop_front();
            }
            return ReadOutcome::Data(bytes);
        }
        assert(self.buf@ =~= Seq::empty());
        if !self.closed {
            return ReadOutcome::Wait;
        }
        match self.error.take() {
            Some(error) => ReadOutcome::Failed(error),
            None => ReadOutcome::Eof,
        }
    }
}

/// The reading end of a queue: a stream that cannot be sought in and has no known length.
pub struct QueueReader {
    pub queue: ByteQueue,
}

impl QueueReader {
    /// A reader of a queue.
    pub fn new(queue: ByteQueue) -> (reader: Self)
        ensures
            reader.queue@ == queue@,
    {
        QueueReader { queue }
    }

    /// Takes up to `limit` bytes off the front of the queue.
    pub fn read(&mut self, limit: usize) -> (outcome: ReadOutcome)
        ensures
            outcome@ == read_outcome(old(self).queue@, limit as nat),
            final(self).queue@ == after_read(old(self).queue@, limit as nat),
    {
        self.queue.read(limit)
    }

    /// Why the stream cannot be sought in.
    pub fn seek(&self) -> (refused: &'static str)
        ensures
            refused@ == "radio streams are not seekable"@,
    {
        "radio streams are not seekable"
    }

    /// The stream cannot be sought in.
    pub fn is_seekable(&self) -> (seekable: bool)
        ensures
            !seekable,
    {
        false
    }

    /// The length of the stream is not known.
    pub fn byte_len(&self) -> (len: Option<u64>)
        ensures
            len is None,
    {
        None
    }
}

/// What can be done to a queue.
pub enum QueueOperation {
    Push(Seq<u8>),
    Close(Option<Seq<char>>),
    Read(nat),
}

/// The queue after an operation.
pub open spec fn after_operation(queue: QueueView, operation: QueueOperation) -> QueueView {
    match operation {
        QueueOperation::Push(data) => after_push(queue, data),
        QueueOperation::Close(error) => after_close(queue, error),
        QueueOperation::Read(limit) => after_read(queue, limit),
    }
}

/// The queue after some operations, in order.
pub open spec fn after_operations(queue: QueueView, operations: Seq<QueueOperation>) -> QueueView
    decreases operations.len(),
{
    if operations.len() == 0 {
        queue
    } else {
        after_operation(
            after_operations(queue, operations.drop_last()),
            operations.last(),
        )
    }
}

/// The bytes that the pushes among the operations put into the queue, in order.
pub open spec fn accepted(queue: QueueView, operations: Seq<QueueOperation>) -> Seq<u8>
    decreases operations.len(),
{
    if operations.len() == 0 {
        Seq::empty()
    } else {
        let before = after_operations(queue, operations.drop_last());
        let earlier = accepted(queue, operations.drop_last());
        match operations.last() {
            QueueOperation::Push(data) => if push_outcome(before) == PushOutcome::Pushed {
                earlier + data
            } else {
                earlier
            },
            _ => earlier,
        }
    }
}

/// The bytes that the reads among the operations gave, in order.
pub open spec fn delivered(queue: QueueView, operations: Seq<QueueOperation>) -> Seq<u8>
    decreases operations.len(),
{
    if operations.len() == 0 {
        Seq::empty()
    } else {
        let before = after_operations(queue, operations.drop_last());
        let earlier = delivered(queue, operations.drop_last());
        match operations.last() {
            QueueOperation::Read(limit) => match read_outcome(before, limit) {
                ReadView::Data(bytes) => earlier + bytes,
                _ => earlier,
            },
            _ => earlier,
        }
    }
}

/// Whatever is done to a queue, in whatever order, the bytes that come out are those that went in,
/// in order, and what has not come out is still there: nothing is lost, doubled or reordered.
pub proof fn law_bytes_come_out_as_they_went_in(
    queue: QueueView,
    operations: Seq<QueueOperation>,
)
    ensures
        queue.bytes + accepted(queue, operations) == delivered(queue, operations)
            + after_operations(queue, operations).bytes,
    decreases operations.len(),
{
    if operations.len() > 0 {
        let earlier = operations.drop_last();
        law_bytes_come_out_as_they_went_in(queue, earlier);
        let before = after_operations(queue, earlier);
        match operations.last() {
            QueueOperation::Push(data) => {
                assert(queue.bytes + (accepted(queue, earlier) + data) =~= (queue.bytes + accepted(
                    queue,
                    earlier,
                )) + data);
                assert(delivered(queue, earlier) + (before.bytes + data) =~= (delivered(
                    queue,
                    earlier,
                ) + before.bytes) + data);
            },
            QueueOperation::Close(error) => {},
            QueueOperation::Read(limit) => {
                let count = read_count(before, limit) as int;
                assert(before.bytes =~= before.bytes.take(count) + before.bytes.skip(count));
                assert(delivered(queue, earlier) + before.bytes =~= (delivered(queue, earlier)
                    + before.bytes.take(count)) + before.bytes.skip(count));
            },
        }
    }
}

/// However the producer and the reader behave, an open queue that starts empty holds less than its
/// capacity and one more push.
pub proof fn law_buffering_is_bounded(
    capacity: nat,
    operations: Seq<QueueOperation>,
    largest_push: nat,
)
    requires
        forall|i: int|
            0 <= i < operations.len() ==> (#[trigger] operations[i] matches QueueOperation::Push(
                data,
            ) ==> data.len() <= largest_push),
    ensures
        after_operations(empty_queue(capacity), operations).bytes.len() <= capacity + largest_push,
        after_operations(empty_queue(capacity), operations).capacity == capacity,
    decreases operations.len(),
{
    if operations.len() > 0 {
        let earlier = operations.drop_last();
        assert forall|i: int| 0 <= i < earlier.len() implies (
        #[trigger] earlier[i] matches QueueOperation::Push(data) ==> data.len() <= largest_push) by {
            assert(earlier[i] == operations[i]);
        }
        law_buffering_is_bounded(capacity, earlier, largest_push);
        assert(operations.last() == operations[operations.len() - 1]);
    }
}

/// No operation makes an invalid queue of a valid one, and none opens a closed queue again.
pub proof fn law_operations_keep_a_queue_valid(queue: QueueView, operation: QueueOperation)
    requires
        valid_queue(queue),
    ensures
        valid_queue(after_operation(queue, operation)),
        queue.closed ==> after_operation(queue, operation).closed,
        after_operation(queue, operation).capacity == queue.capacity,
{
}

/// A closed queue takes no more bytes.
pub proof fn law_push_after_close_is_rejected(
    queue: QueueView,
    error: Option<Seq<char>>,
    data: Seq<u8>,
)
    ensures
        push_outcome(after_close(queue, error)) == PushOutcome::Closed,
        after_push(after_close(queue, error), data) == after_close(queue, error),
{
}

/// A reader of a closed queue never waits. It gets what is left, then the error, if there is one,
/// and once, and then the end of the stream.
pub proof fn law_error_is_told_after_draining(queue: QueueView, limit: nat)
    requires
        queue.closed,
        limit > 0,
    ensures
        !(read_outcome(queue, limit) is Wait),
        queue.bytes.len() > 0 ==> read_outcome(queue, limit) is Data && read_outcome(
            queue,
            limit,
        )->Data_0.len() > 0 && after_read(queue, limit).error == queue.error,
        queue.bytes.len() == 0 && queue.error is Some ==> read_outcome(queue, limit)
            == ReadView::Failed(queue.error.unwrap()) && read_outcome(
            after_read(queue, limit),
            limit,
        ) is Eof,
        queue.bytes.len() == 0 && queue.error is None ==> read_outcome(queue, limit) is Eof
            && after_read(queue, limit) == queue,
{
}

/// A read gives first what a peek showed.
pub proof fn law_peek_shows_what_is_read(queue: QueueView, count: nat, timed_out: bool)
    requires
        peeked(queue, count, timed_out) is Some,
        queue.bytes.len() > 0,
    ensures
        read_outcome(queue, count) == ReadView::Data(peeked(queue, count, timed_out).unwrap()),
{
}

/// A push goes in whole as long as the queue is open and holds less than its capacity, which is 2 MiB
/// unless it is said otherwise; else it changes nothing.
pub proof fn law_a_push_goes_in_whole_or_not_at_all(queue: QueueView, data: Seq<u8>)
    ensures
        DEFAULT_CAPACITY == 2 * 1024 * 1024,
        !queue.closed && queue.bytes.len() < queue.capacity ==> push_outcome(queue)
            == PushOutcome::Pushed && after_push(queue, data).bytes == queue.bytes + data && after_push(
            queue,
            data,
        ).capacity == queue.capacity && !after_push(queue, data).closed && after_push(
            queue,
            data,
        ).error == queue.error,
        !queue.closed && queue.bytes.len() >= queue.capacity ==> push_outcome(queue)
            == PushOutcome::Full && after_push(queue, data) == queue,
        queue.closed ==> push_outcome(queue) == PushOutcome::Closed && after_push(queue, data)
            == queue,
{
}

/// A read gives the front of the queue, as much as is asked for and as there is, and takes it off.
/// Of an empty queue it waits while that is open; once it is closed it tells the error, if there is
/// one, and else the end.
pub proof fn law_a_read_takes_the_front_off(queue: QueueView, limit: nat)
    requires
        limit > 0,
    ensures
        queue.bytes.len() > 0 ==> {
            let count = if limit < queue.bytes.len() {
                limit as int
            } else {
                queue.bytes.len() as int
            };
            &&& read_outcome(queue, limit) == ReadView::Data(queue.bytes.take(count))
            &&& after_read(queue, limit) == (QueueView { bytes: queue.bytes.skip(count), ..queue })
        },
        queue.bytes.len() == 0 && !queue.closed ==> read_outcome(queue, limit) == ReadView::Wait
            && after_read(queue, limit) == queue,
        queue.bytes.len() == 0 && queue.closed ==> read_outcome(queue, limit) == (match queue.error {
            Some(error) => ReadView::Failed(error),
            None => ReadView::Eof,
        }),
        read_outcome(queue, 0) == ReadView::Data(Seq::empty()),
{
    assert(queue.bytes.take(0) =~= Seq::<u8>::empty());
}

/// A peek shows the front of the queue, as many bytes as are asked for; fewer only once no more can
/// come or the time is up.
pub proof fn law_a_peek_shows_the_front(queue: QueueView, count: nat, timed_out: bool)
    ensures
        queue.bytes.len() >= count ==> peeked(queue, count, timed_out) == Some(
            queue.bytes.take(count as int),
        ),
        queue.bytes.len() < count && (queue.closed || timed_out) ==> peeked(queue, count, timed_out)
            == Some(queue.bytes),
        queue.bytes.len() < count && !queue.closed && !timed_out ==> peeked(
            queue,
            count,
            timed_out,
        ) is None,
{
    assert(queue.bytes.take(queue.bytes.len() as int) =~= queue.bytes);
}

/// There is data as soon as there is a byte, and there is none once no more can come or the time is
/// up.
pub proof fn law_data_is_there_with_the_first_byte(queue: QueueView, timed_out: bool)
    ensures
        queue.bytes.len() > 0 ==> data_ready(queue, timed_out) == Some(true),
        queue.bytes.len() == 0 && (queue.closed || timed_out) ==> data_ready(queue, timed_out)
            == Some(false),
        queue.bytes.len() == 0 && !queue.closed && !timed_out ==> data_ready(queue, timed_out) is None,
{
}

/// A close keeps what is in the queue and notes its error; a second close changes nothing.
pub proof fn law_the_first_close_counts(
    queue: QueueView,
    error: Option<Seq<char>>,
    later: Option<Seq<char>>,
)
    ensures
        !queue.closed ==> after_close(queue, error) == (QueueView { closed: true, error, ..queue }),
        after_close(after_close(queue, error), later) == after_close(queue, error),
        after_close(queue, error).closed,
        after_close(queue, error).bytes == queue.bytes,
{
}

/// A queue begins empty and open.
pub proof fn law_a_queue_begins_empty_and_open(capacity: nat)
    ensures
        empty_queue(capacity).bytes.len() == 0,
        !empty_queue(capacity).closed,
        empty_queue(capacity).error is None,
        empty_queue(capacity).capacity == capacity,
{
}

} // verus!
