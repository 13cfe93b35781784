//! The endpoint: reads packets until one is a message, answers those that
//! are none, and hands each request a handle for its one reply.
use crate::error::{outcome_view, TransportError, TransportErrorView};
use crate::json::{json_text, JsonValue};
use crate::message::{
    message_of, parse_message, Envelope, EnvelopeView, Id, IdView, ParseFailure,
};
use crate::reply::{
    failure_packet, failure_reply, standard_error, success_packet, success_reply, RpcError,
};
use crate::transport::Transport;
use vstd::prelude::*;

verus! {

/// The one reply that a request is owed. Both methods take the handle by
/// value: after a reply the handle is gone.
pub trait ResponseHandle: Sized {
    /// Answers the request with its result.
    fn success(self, result: JsonValue) -> Result<(), TransportError>;

    /// Answers the request with an error.
    fn failure(self, error: RpcError) -> Result<(), TransportError>;
}

/// A kind of request: its method, and the types of its parameters and of
/// its result.
pub trait Request {
    type Params;

    type Result;

    /// The name of the method.
    const METHOD: &'static str;
}

/// A request as it came: method, parameters, and the handle for the reply.
#[derive(Debug)]
pub struct RawRequest<R: ResponseHandle> {
    pub method: String,
    pub params: JsonValue,
    pub response: R,
}

/// A notification as it came: method and parameters. No reply is owed.
#[derive(Debug)]
pub struct RawNotification {
    pub method: String,
    pub params: JsonValue,
}

/// An incoming message.
#[derive(Debug)]
pub enum Message<R: ResponseHandle> {
    Request(RawRequest<R>),
    Notification(RawNotification),
}

/// What the read loop does with what it received.
#[derive(Debug)]
pub enum Step {
    /// The packet is a message: hand it out.
    Deliver(Envelope),
    /// The packet is no message: go on reading, after sending the reply
    /// that is held here, if one is.
    Discard(Option<String>),
    /// The stream is over: give up with this error.
    Stop(TransportError),
}

/// The mathematical value of a [`Step`].
pub enum StepView {
    Deliver(EnvelopeView),
    Discard(Option<Seq<char>>),
    Stop(TransportErrorView),
}

impl View for Step {
    type V = StepView;

    open spec fn view(&self) -> StepView {
        match self {
            Step::Deliver(envelope) => StepView::Deliver(envelope@),
            Step::Discard(Some(reply)) => StepView::Discard(Some(reply@)),
            Step::Discard(None) => StepView::Discard(None),
            Step::Stop(e) => StepView::Stop(e@),
        }
    }
}

/// What is done with what was received. An error that ends the stream stops
/// the loop; any other error, and a packet that is no message, is skipped;
/// where the id of such a packet could be made out, the sender is told.
pub open spec fn step_of(received: Result<Seq<char>, TransportErrorView>) -> StepView {
    match received {
        Err(e) => if e.ends_stream() {
            StepView::Stop(e)
        } else {
            StepView::Discard(None)
        },
        Ok(packet) => match message_of(packet) {
            Ok(envelope) => StepView::Deliver(envelope),
            Err(failure) => if failure.id is Null {
                StepView::Discard(None)
            } else {
                StepView::Discard(
                    Some(json_text(failure_reply(failure.id, standard_error(failure.kind)))),
                )
            },
        },
    }
}

/// Decides what to do with what `receive_packet` gave.
pub fn next_step(received: Result<String, TransportError>) -> (r: Step)
    ensures
        r@ == step_of(outcome_view(received)),
{
    match received {
        Err(e) => if e.ends_stream() {
            Step::Stop(e)
        } else {
            Step::Discard(None)
        },
        Ok(packet) => match parse_message(packet.as_str()) {
            Ok(envelope) => Step::Deliver(envelope),
            Err(failure) => {
                let ParseFailure { id, kind } = failure;
                match id {
                    Id::Null => Step::Discard(None),
                    _ => Step::Discard(Some(failure_packet(id, RpcError::standard(kind)))),
                }
            },
        },
    }
}

/// How reading a message ends.
pub enum Ending {
    /// With this message.
    Delivered(EnvelopeView),
    /// With this error, which ended the stream.
    Stopped(TransportErrorView),
    /// With the end of all that the transport had.
    Closed,
}

/// What reading a message comes to.
pub struct Reading {
    /// How it ends.
    pub ending: Ending,
    /// What the transport still has to give after it.
    pub rest: Seq<Result<Seq<char>, TransportErrorView>>,
    /// The replies that are sent on the way, in order.
    pub replies: Seq<Seq<char>>,
    /// For each of these replies, what the transport still has to give at
    /// the time it is sent.
    pub resumes: Seq<Seq<Result<Seq<char>, TransportErrorView>>>,
}

/// What reading a message comes to on a transport that has `incoming` to
/// give, if every reply can be sent: what is no message is skipped, up to
/// the first message or the end of the stream.
pub open spec fn reading(incoming: Seq<Result<Seq<char>, TransportErrorView>>) -> Reading
    decreases incoming.len(),
{
    if incoming.len() == 0 {
        Reading {
            ending: Ending::Closed,
            rest: incoming,
            replies: Seq::empty(),
            resumes: Seq::empty(),
        }
    } else {
        match step_of(incoming[0]) {
            StepView::Deliver(envelope) => Reading {
                ending: Ending::Delivered(envelope),
                rest: incoming.drop_first(),
                replies: Seq::empty(),
                resumes: Seq::empty(),
            },
            StepView::Stop(e) => Reading {
                ending: Ending::Stopped(e),
                rest: incoming.drop_first(),
                replies: Seq::empty(),
                resumes: Seq::empty(),
            },
            StepView::Discard(None) => reading(incoming.drop_first()),
            StepView::Discard(Some(reply)) => {
                let later = reading(incoming.drop_first());
                Reading {
                    ending: later.ending,
                    rest: later.rest,
                    replies: seq![reply] + later.replies,
                    resumes: seq![incoming.drop_first()] + later.resumes,
                }
            },
        }
    }
}

/// Each reply has its place.
pub proof fn lemma_reading_resumes(incoming: Seq<Result<Seq<char>, TransportErrorView>>)
    ensures
        reading(incoming).resumes.len() == reading(incoming).replies.len(),
    decreases incoming.len(),
{
    if incoming.len() > 0 {
        lemma_reading_resumes(incoming.drop_first());
    }
}

/// A JSON-RPC endpoint on a transport.
pub struct JsonRpcServer<T: Transport> {
    transport: T,
}

/// The handle for the reply to one request. It holds the transport until
/// the reply is sent.
pub struct JsonResponseHandle<'a, T: Transport> {
    id: Id,
    transport: &'a mut T,
}

impl<'a, T: Transport> JsonResponseHandle<'a, T> {
    /// The id of the request.
    pub closed spec fn id(&self) -> IdView {
        self.id@
    }

    /// The transport that the reply goes to.
    pub closed spec fn transport(&self) -> &'a mut T {
        self.transport
    }
}

impl<'a, T: Transport> ResponseHandle for JsonResponseHandle<'a, T> {
    /// Sends the reply with `result` as one packet. The reply goes out
    /// unless the transport fails to send it; the error is then that of the
    /// transport, and nothing was sent.
    fn success(self, result: JsonValue) -> (r: Result<(), TransportError>)
        ensures
            final(self.transport()).incoming() == self.transport().incoming(),
            ({
                let packet = json_text(success_reply(self.id(), result@));
                match r {
                    Ok(()) => {
                        &&& self.transport().send_failure(packet) is None
                        &&& final(self.transport()).sent() == self.transport().sent().push(
                            packet,
                        )
                        &&& final(self.transport()).refused() == self.transport().refused()
                    },
                    Err(e) => {
                        &&& self.transport().send_failure(packet) == Some(e@)
                        &&& e@.ends_stream()
                        &&& final(self.transport()).sent() == self.transport().sent()
                        &&& final(self.transport()).refused() == self.transport().refused().push(
                            (packet, e@),
                        )
                    },
                }
            }),
    {
        self.transport.send_packet(success_packet(self.id, result))
    }

    /// Sends the reply with `error` as one packet. The reply goes out
    /// unless the transport fails to send it; the error returned is then
    /// that of the transport, and nothing was sent.
    fn failure(self, error: RpcError) -> (r: Result<(), TransportError>)
        ensures
            final(self.transport()).incoming() == self.transport().incoming(),
            ({
                let packet = json_text(failure_reply(self.id(), error@));
                match r {
                    Ok(()) => {
                        &&& self.transport().send_failure(packet) is None
                        &&& final(self.transport()).sent() == self.transport().sent().push(
                            packet,
                        )
                        &&& final(self.transport()).refused() == self.transport().refused()
                    },
                    Err(e) => {
                        &&& self.transport().send_failure(packet) == Some(e@)
                        &&& e@.ends_stream()
                        &&& final(self.transport()).sent() == self.transport().sent()
                        &&& final(self.transport()).refused() == self.transport().refused().push(
                            (packet, e@),
                        )
                    },
                }
            }),
    {
        self.transport.send_packet(failure_packet(self.id, error))
    }
}

/// The mathematical value of a message, with the id of its handle.
pub open spec fn message_view<'a, T: Transport>(
    message: Message<JsonResponseHandle<'a, T>>,
) -> EnvelopeView {
    match message {
        Message::Request(request) => EnvelopeView::Request {
            id: request.response.id(),
            method: request.method@,
            params: request.params@,
        },
        Message::Notification(notification) => EnvelopeView::Notification {
            method: notification.method@,
            params: notification.params@,
        },
    }
}

impl<T: Transport> JsonRpcServer<T> {
    /// The transport of this endpoint.
    pub closed spec fn transport(&self) -> T {
        self.transport
    }

    /// An endpoint on `transport`.
    pub fn new(transport: T) -> (r: JsonRpcServer<T>)
        ensures
            r.transport() == transport,
    {
        JsonRpcServer { transport }
    }

    /// Reads packets until one is a message, and returns it; a request
    /// comes with the handle for its reply. What is no message is skipped:
    /// a packet that could not be framed, and one that is no JSON-RPC
    /// message, whose sender is told where its id could be made out.
    ///
    /// Fails in two cases only. When the stream is over: every reply owed
    /// on the way has then been sent. When the transport refuses such a
    /// reply: the replies before it have been sent, and the error is the
    /// one that the transport gave for this reply.
    pub fn read_message<'a>(&'a mut self) -> (r: Result<
        Message<JsonResponseHandle<'a, T>>,
        TransportError,
    >)
        ensures
            ({
                let expected = reading(old(self).transport().incoming());
                let sent = old(self).transport().sent();
                let refused = old(self).transport().refused();
                match r {
                    Ok(message) => {
                        &&& expected.ending == Ending::Delivered(message_view(message))
                        &&& match message {
                            Message::Request(request) => {
                                &&& request.response.transport().incoming() == expected.rest
                                &&& request.response.transport().sent() == sent
                                    + expected.replies
                                &&& request.response.transport().refused() == refused
                                &&& final(self).transport() == *final(request.response.transport())
                            },
                            Message::Notification(_) => {
                                &&& final(self).transport().incoming() == expected.rest
                                &&& final(self).transport().sent() == sent + expected.replies
                                &&& final(self).transport().refused() == refused
                            },
                        }
                    },
                    Err(e) => {
                        let done = final(self).transport().sent().len() - sent.len();
                        &&& e@.ends_stream()
                        &&& {
                            ||| {
                                &&& expected.ending == Ending::Stopped(e@) || expected.ending
                                    is Closed
                                &&& final(self).transport().incoming() == expected.rest
                                &&& final(self).transport().sent() == sent + expected.replies
                                &&& final(self).transport().refused() == refused
                            }
                            ||| {
                                &&& 0 <= done < expected.replies.len()
                                &&& final(self).transport().incoming() == expected.resumes[done]
                                &&& final(self).transport().sent() == sent
                                    + expected.replies.take(done)
                                &&& final(self).transport().refused() == refused.push(
                                    (expected.replies[done], e@),
                                )
                            }
                        }
                    },
                }
            }),
    {
        let ghost expected = reading(self.transport.incoming());
        let ghost sent = self.transport.sent();
        let ghost refused = self.transport.refused();
        let ghost mut done: int = 0;
        let mut delivered: Option<Envelope> = None;
        proof {
            lemma_reading_resumes(self.transport.incoming());
            assert(sent + expected.replies.take(0) =~= sent);
            assert(expected.replies.skip(0) =~= expected.replies);
            assert(expected.resumes.skip(0) =~= expected.resumes);
        }
        loop
            invariant_except_break
                delivered is None,
                0 <= done <= expected.replies.len(),
                reading(self.transport.incoming()).ending == expected.ending,
                reading(self.transport.incoming()).rest == expected.rest,
                reading(self.transport.incoming()).replies == expected.replies.skip(done),
                reading(self.transport.incoming()).resumes == expected.resumes.skip(done),
                self.transport.sent() == sent + expected.replies.take(done),
            invariant
                expected == reading(old(self).transport().incoming()),
                expected.resumes.len() == expected.replies.len(),
                sent == old(self).transport().sent(),
                refused == old(self).transport().refused(),
                self.transport.refused() == refused,
            ensures
                delivered is Some,
                expected.ending == Ending::Delivered(delivered->Some_0@),
                self.transport.incoming() == expected.rest,
                self.transport.sent() == sent + expected.replies,
            decreases self.transport.incoming().len(),
        {
            let ghost incoming = self.transport.incoming();
            let received = self.transport.receive_packet();
            match next_step(received) {
                Step::Stop(e) => {
                    proof {
                        assert(expected.replies.skip(done).len() == 0);
                        assert(expected.replies.take(done) =~= expected.replies);
                        assert(self.transport.incoming() =~= expected.rest);
                    }
                    return Err(e);
                },
                Step::Discard(None) => {},
                Step::Discard(Some(reply)) => {
                    let ghost later = reading(incoming.drop_first());
                    proof {
                        lemma_reading_resumes(incoming);
                        assert(expected.replies.skip(done)[0] == reply@);
                        assert(expected.resumes.skip(done)[0] == incoming.drop_first());
                        assert(later.replies =~= (seq![reply@] + later.replies).skip(1));
                        assert(expected.replies.skip(done).skip(1) =~= expected.replies.skip(
                            done + 1,
                        ));
                        assert(later.resumes =~= (seq![incoming.drop_first()]
                            + later.resumes).skip(1));
                        assert(expected.resumes.skip(done).skip(1) =~= expected.resumes.skip(
                            done + 1,
                        ));
                    }
                    match self.transport.send_packet(reply) {
                        Ok(()) => {
                            proof {
                                assert(self.transport.sent() =~= sent + expected.replies.take(
                                    done + 1,
                                ));
                                done = done + 1;
                            }
                        },
                        Err(e) => {
                            proof {
                                assert((sent + expected.replies.take(done)).len() - sent.len()
                                    == done);
                            }
                            return Err(e);
                        },
                    }
                },
                Step::Deliver(envelope) => {
                    proof {
                        assert(expected.replies.skip(done).len() == 0);
                        assert(expected.replies.take(done) =~= expected.replies);
                    }
                    delivered = Some(envelope);
                    break ;
                },
            }
        }
        match delivered.unwrap() {
            Envelope::Notification { method, params } => Ok(
                Message::Notification(RawNotification { method, params }),
            ),
            Envelope::Request { id, method, params } => Ok(
                Message::Request(
                    RawRequest {
                        method,
                        params,
                        response: JsonResponseHandle { id, transport: &mut self.transport },
                    },
                ),
            ),
        }
    }

    /// Gives the transport back.
    pub fn into_transport(self) -> (r: T)
        ensures
            r == self.transport(),
    {
        self.transport
    }
}

} // verus!
