//! The values that the protocols exchange with the rest of the socket: the
//! identifiers of pipes and timers, messages, replies and events.
use vstd::prelude::*;

verus! {

/// Identifies a pipe (an endpoint of a connection) inside a socket.
pub type EndpointId = usize;

/// Identifies a timer scheduled through the context.
pub type Scheduled = usize;

/// The timer that bounds a pending operation, if any.
pub type Timeout = Option<Scheduled>;

/// A message: the protocol header and the application body.
pub struct Message {
    pub header: Vec<u8>,
    pub body: Vec<u8>,
}

/// A message seen as its header and its body.
pub type MessageView = (Seq<u8>, Seq<u8>);

impl View for Message {
    type V = MessageView;

    open spec fn view(&self) -> MessageView {
        (self.header@, self.body@)
    }
}

impl Message {
    pub fn new() -> (msg: Message)
        ensures
            msg.header@ == Seq::<u8>::empty(),
            msg.body@ == Seq::<u8>::empty(),
    {
        Message { header: Vec::new(), body: Vec::new() }
    }

    pub fn from_body(body: Vec<u8>) -> (msg: Message)
        ensures
            msg.header@ == Seq::<u8>::empty(),
            msg.body@ == body@,
    {
        Message { header: Vec::new(), body }
    }

    pub fn from_header_and_body(header: Vec<u8>, body: Vec<u8>) -> (msg: Message)
        ensures
            msg.header@ == header@,
            msg.body@ == body@,
    {
        Message { header, body }
    }

    pub fn get_header(&self) -> (h: &Vec<u8>)
        ensures
            h@ == self.header@,
    {
        &self.header
    }

    pub fn get_body(&self) -> (b: &Vec<u8>)
        ensures
            b@ == self.body@,
    {
        &self.body
    }

    pub fn len(&self) -> (n: usize)
        requires
            self.header@.len() + self.body@.len() <= usize::MAX,
        ensures
            n == self.header@.len() + self.body@.len(),
    {
        self.header.len() + self.body.len()
    }

    /// The header and the body, taken apart.
    pub fn split(self) -> (parts: (Vec<u8>, Vec<u8>))
        ensures
            parts.0@ == self.header@,
            parts.1@ == self.body@,
    {
        (self.header, self.body)
    }

    /// The same body with an empty header.
    pub fn without_header(self) -> (msg: Message)
        ensures
            msg.header@ == Seq::<u8>::empty(),
            msg.body@ == self.body@,
    {
        Message::from_body(self.body)
    }

}

impl Clone for Message {
    fn clone(&self) -> (msg: Self)
        ensures
            msg.header@ == self.header@,
            msg.body@ == self.body@,
    {
        let header = self.header.clone();
        let body = self.body.clone();
        proof {
            assert(header@ =~= self.header@);
            assert(body@ =~= self.body@);
        }
        Message { header, body }
    }
}

/// The kind of a failure reported to the socket's user.
#[derive(Clone, Copy, Debug, PartialEq, Eq, Structural)]
pub enum ErrorKind {
    TimedOut,
    Other,
    InvalidData,
    InvalidInput,
}

/// Why an operation failed.
#[derive(Clone, Copy, Debug, PartialEq, Eq, Structural)]
pub enum Failure {
    SendTimedOut,
    RecvTimedOut,
    SendNotSupported,
    RecvNotSupported,
    /// A request (REQ) or a survey (SURVEYOR) is needed before receiving.
    RecvWithoutPending,
    /// A request needs to have been received (REP, RESPONDENT) before
    /// sending.
    SendWithoutPending,
    /// The reply to send does not say where it goes.
    SendWithoutRoute,
    /// A reply or a response came without its identifier.
    RecvMalformed,
    OptionNotSupported,
    /// A pipe was already added under that token.
    PipeAlreadyAdded,
}

impl Failure {
    pub open spec fn spec_kind(self) -> ErrorKind {
        match self {
            Failure::SendTimedOut | Failure::RecvTimedOut => ErrorKind::TimedOut,
            Failure::SendWithoutRoute | Failure::RecvMalformed | Failure::PipeAlreadyAdded => ErrorKind::InvalidData,
            Failure::OptionNotSupported => ErrorKind::InvalidInput,
            _ => ErrorKind::Other,
        }
    }

    pub fn kind(&self) -> (k: ErrorKind)
        ensures
            k == self.spec_kind(),
    {
        match self {
            Failure::SendTimedOut | Failure::RecvTimedOut => ErrorKind::TimedOut,
            Failure::SendWithoutRoute | Failure::RecvMalformed | Failure::PipeAlreadyAdded => ErrorKind::InvalidData,
            Failure::OptionNotSupported => ErrorKind::InvalidInput,
            _ => ErrorKind::Other,
        }
    }
}

/// What a protocol answers to the socket's user about an operation.
pub enum Reply {
    Send,
    Recv(Message),
    Error(Failure),
}

pub enum ReplyView {
    Send,
    Recv(MessageView),
    Error(Failure),
}

impl View for Reply {
    type V = ReplyView;

    open spec fn view(&self) -> ReplyView {
        match self {
            Reply::Send => ReplyView::Send,
            Reply::Recv(m) => ReplyView::Recv(m@),
            Reply::Error(f) => ReplyView::Error(*f),
        }
    }
}

/// A change of the socket's readiness.
#[derive(Clone, Copy, Debug, PartialEq, Eq, Structural)]
pub enum Event {
    CanSend(bool),
    CanRecv(bool),
}

/// What a poll reported of an endpoint.
#[derive(Clone, Copy, Debug, PartialEq, Eq, Structural)]
pub struct Readiness {
    pub readable: bool,
    pub writable: bool,
    pub error: bool,
    pub hup: bool,
}

/// The tasks that a protocol schedules on a timer.
#[derive(Clone, Copy, Debug, PartialEq, Eq, Structural)]
pub enum Schedulable {
    ReqResend,
    SurveyCancel,
}

/// The options that a protocol may take, intervals in milliseconds.
#[derive(Clone, Copy, Debug, PartialEq, Eq, Structural)]
pub enum ConfigOption {
    SendTimeout(u64),
    RecvTimeout(u64),
    SendPriority(u8),
    RecvPriority(u8),
    ReqResendIvl(u64),
    SurveyDeadline(u64),
}

/// What a protocol asks of the socket and of its pipes.
pub enum Action {
    /// Write a message on the pipe.
    Send(EndpointId, Message),
    /// Read a message from the pipe.
    Recv(EndpointId),
    /// Close the pipe.
    Close(EndpointId),
    /// Start the handshake on the pipe.
    Open(EndpointId),
    /// Complete the handshake that the peer answered on the pipe.
    AckOpen(EndpointId),
    /// Let the pipe poll its connection again.
    Resync(EndpointId),
    /// Hand the pipe what a poll reported of it.
    Ready(EndpointId, Readiness),
    /// Give up the message the pipe is sending.
    CancelSend(EndpointId),
    /// Give up the message the pipe is receiving.
    CancelRecv(EndpointId),
    /// Answer the socket's user.
    Reply(Reply),
    /// Cancel a timer.
    Cancel(Scheduled),
    /// Start a timer, with its delay in milliseconds.
    Schedule(Scheduled, Schedulable, u64),
    /// Tell the socket that its readiness changed.
    Raise(Event),
}

pub enum ActionView {
    Send(EndpointId, MessageView),
    Recv(EndpointId),
    Close(EndpointId),
    Open(EndpointId),
    AckOpen(EndpointId),
    Resync(EndpointId),
    Ready(EndpointId, Readiness),
    CancelSend(EndpointId),
    CancelRecv(EndpointId),
    Reply(ReplyView),
    Cancel(Scheduled),
    Schedule(Scheduled, Schedulable, u64),
    Raise(Event),
}

impl View for Action {
    type V = ActionView;

    open spec fn view(&self) -> ActionView {
        match self {
            Action::Send(e, m) => ActionView::Send(*e, m@),
            Action::Recv(e) => ActionView::Recv(*e),
            Action::Close(e) => ActionView::Close(*e),
            Action::Open(e) => ActionView::Open(*e),
            Action::AckOpen(e) => ActionView::AckOpen(*e),
            Action::Resync(e) => ActionView::Resync(*e),
            Action::Ready(e, r) => ActionView::Ready(*e, *r),
            Action::CancelSend(e) => ActionView::CancelSend(*e),
            Action::CancelRecv(e) => ActionView::CancelRecv(*e),
            Action::Reply(r) => ActionView::Reply(r@),
            Action::Cancel(t) => ActionView::Cancel(*t),
            Action::Schedule(t, task, ms) => ActionView::Schedule(*t, *task, *ms),
            Action::Raise(e) => ActionView::Raise(*e),
        }
    }
}

} // verus!
