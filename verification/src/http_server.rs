//! The life of one inbound connection: bytes arrive in pieces, and after each
//! piece the node decides whether to answer, to read on or to hang up.

use crate::http::{
    parse_request, HttpParseError, HttpParseErrorView, HttpRequest, HttpRequestView,
};
use crate::text::{decimal_text, push_decimal};
use vstd::prelude::*;
use vstd::string::*;

verus! {

/// The number of connections that are handled at the same time.
pub const WORKER_POOL_SIZE: usize = 20;

/// The port on which a node listens when it is given none.
pub const DEFAULT_PORT: u16 = 5000;

/// The address to bind for a port: every interface of the machine.
pub fn bind_address(port: u16) -> (addr: String)
    ensures
        addr@ == "0.0.0.0:"@ + decimal_text(port as nat),
{
    let mut addr = "0.0.0.0:".to_owned();
    push_decimal(&mut addr, port as u64);
    addr
}

/// What to do with a connection after a read.
pub enum Step {
    /// A whole request has arrived: answer it, then close.
    Respond(HttpRequest),
    /// The head of the request is not complete: read on.
    ReadMore,
    /// What has arrived is no request: close without an answer.
    Reject(HttpParseError),
    /// The peer has closed the connection.
    Closed,
}

/// What a `Step` stands for.
pub enum StepView {
    Respond(HttpRequestView),
    ReadMore,
    Reject(HttpParseErrorView),
    Closed,
}

impl View for Step {
    type V = StepView;

    open spec fn view(&self) -> StepView {
        match self {
            Step::Respond(request) => StepView::Respond(request@),
            Step::ReadMore => StepView::ReadMore,
            Step::Reject(e) => StepView::Reject(e@),
            Step::Closed => StepView::Closed,
        }
    }
}

/// The step that follows from the bytes that have arrived so far.
pub open spec fn step_of(bytes: Seq<u8>) -> StepView {
    match parse_request(bytes) {
        Ok(request) => StepView::Respond(request),
        Err(HttpParseErrorView::Incomplete) => StepView::ReadMore,
        Err(e) => StepView::Reject(e),
    }
}

/// The step after a read that brought `chunk` to a connection that held
/// `buffer`. A read that brings nothing says that the peer has closed.
pub open spec fn next_step(buffer: Seq<u8>, chunk: Seq<u8>) -> StepView {
    if chunk.len() == 0 {
        StepView::Closed
    } else {
        step_of(buffer + chunk)
    }
}

/// One inbound connection: the bytes that have arrived on it.
pub struct Connection {
    buffer: Vec<u8>,
}

impl Connection {
    /// The bytes that have arrived.
    pub closed spec fn view(&self) -> Seq<u8> {
        self.buffer@
    }

    /// A connection on which nothing has arrived.
    pub fn new() -> (connection: Connection)
        ensures
            connection@ == Seq::<u8>::empty(),
    {
        Connection { buffer: Vec::new() }
    }

    /// Takes what a read brought, and decides on the next step: the bytes are
    /// added to those that arrived before, and the whole is read as a request.
    pub fn receive(&mut self, chunk: &[u8]) -> (step: Step)
        ensures
            final(self)@ == old(self)@ + chunk@,
            step@ == next_step(old(self)@, chunk@),
    {
        if chunk.len() == 0 {
            proof {
                assert(self@ + chunk@ =~= self@);
            }
            return Step::Closed;
        }
        self.buffer.extend_from_slice(chunk);
        proof {
            assert(self.buffer@ =~= old(self)@ + chunk@);
        }
        match HttpRequest::try_from(self.buffer.as_slice()) {
            Ok(request) => Step::Respond(request),
            Err(HttpParseError::Incomplete) => Step::ReadMore,
            Err(e) => Step::Reject(e),
        }
    }
}

/// All the chunks, one after the other.
pub open spec fn concat(chunks: Seq<Seq<u8>>) -> Seq<u8>
    decreases chunks.len(),
{
    if chunks.len() == 0 {
        Seq::empty()
    } else {
        concat(chunks.drop_last()) + chunks.last()
    }
}

/// The step at which the delivery of `chunks`, read by read, to a connection
/// that holds `buffer` ends: the first step that is not to read on, or to read
/// on when the chunks are used up.
pub open spec fn deliver(buffer: Seq<u8>, chunks: Seq<Seq<u8>>) -> StepView
    decreases chunks.len(),
{
    if chunks.len() == 0 {
        StepView::ReadMore
    } else {
        match next_step(buffer, chunks[0]) {
            StepView::ReadMore => deliver(buffer + chunks[0], chunks.drop_first()),
            step => step,
        }
    }
}

/// `concat` unfolds at the front as it does at the back.
proof fn lemma_concat_first(chunks: Seq<Seq<u8>>)
    requires
        chunks.len() > 0,
    ensures
        concat(chunks) == chunks[0] + concat(chunks.drop_first()),
    decreases chunks.len(),
{
    if chunks.len() == 1 {
        assert(chunks.drop_last() =~= Seq::<Seq<u8>>::empty());
        assert(chunks.drop_first() =~= Seq::<Seq<u8>>::empty());
        assert(concat(chunks) =~= chunks[0] + concat(chunks.drop_first()));
    } else {
        let front = chunks.drop_last();
        lemma_concat_first(front);
        assert(front.drop_first() =~= chunks.drop_first().drop_last());
        assert(concat(chunks) =~= chunks[0] + concat(chunks.drop_first()));
    }
}

/// `law_partial_reads`, for a connection that already holds bytes.
proof fn lemma_deliver(buffer: Seq<u8>, chunks: Seq<Seq<u8>>)
    requires
        chunks.len() > 0,
        forall|k: int| 0 <= k < chunks.len() ==> (#[trigger] chunks[k]).len() > 0,
        forall|k: int|
            0 < k < chunks.len() ==> step_of(buffer + concat(#[trigger] chunks.take(k)))
                == StepView::ReadMore,
    ensures
        deliver(buffer, chunks) == step_of(buffer + concat(chunks)),
    decreases chunks.len(),
{
    let rest = chunks.drop_first();
    lemma_concat_first(chunks);
    if chunks.len() == 1 {
        assert(rest =~= Seq::<Seq<u8>>::empty());
        assert(buffer + concat(chunks) =~= buffer + chunks[0]);
        if step_of(buffer + chunks[0]) == StepView::ReadMore {
            assert(deliver(buffer + chunks[0], rest) == StepView::ReadMore);
        }
    } else {
        assert(chunks.take(1).drop_last() =~= Seq::<Seq<u8>>::empty());
        assert(concat(chunks.take(1).drop_last()) =~= Seq::<u8>::empty());
        assert(chunks.take(1).last() == chunks[0]);
        assert(concat(chunks.take(1)) =~= chunks[0]);
        assert(step_of(buffer + concat(chunks.take(1))) == StepView::ReadMore);
        assert forall|k: int| 0 < k < rest.len() implies step_of(
            buffer + chunks[0] + concat(#[trigger] rest.take(k)),
        ) == StepView::ReadMore by {
            assert(chunks.take(k + 1).drop_first() =~= rest.take(k));
            lemma_concat_first(chunks.take(k + 1));
            assert(buffer + chunks[0] + concat(rest.take(k)) =~= buffer + concat(
                chunks.take(k + 1),
            ));
        }
        lemma_deliver(buffer + chunks[0], rest);
        assert(buffer + chunks[0] + concat(rest) =~= buffer + concat(chunks));
    }
}

/// A request that arrives in several reads is handled as if it had arrived in
/// one: where every read brings something, and what has arrived is not
/// complete before the last read, the delivery ends at the step that the whole
/// request gives.
pub proof fn law_partial_reads(chunks: Seq<Seq<u8>>)
    requires
        chunks.len() > 0,
        forall|k: int| 0 <= k < chunks.len() ==> (#[trigger] chunks[k]).len() > 0,
        forall|k: int|
            0 < k < chunks.len() ==> step_of(concat(#[trigger] chunks.take(k)))
                == StepView::ReadMore,
    ensures
        deliver(Seq::empty(), chunks) == step_of(concat(chunks)),
{
    assert forall|k: int| 0 < k < chunks.len() implies step_of(
        Seq::<u8>::empty() + concat(#[trigger] chunks.take(k)),
    ) == StepView::ReadMore by {
        assert(Seq::<u8>::empty() + concat(chunks.take(k)) =~= concat(chunks.take(k)));
    }
    lemma_deliver(Seq::empty(), chunks);
    assert(Seq::<u8>::empty() + concat(chunks) =~= concat(chunks));
}

} // verus!
