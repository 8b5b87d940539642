//! Receiving a message from a connection, piece by piece: first its length
//! as eight big-endian bytes, then that many bytes, which become the body
//! of the message.
use vstd::prelude::*;

use crate::common::Message;
use crate::proto::codec::{be_bytes64, be_u64, lemma_be64_round_trip, read_u64_be};
use crate::send::framed;
use crate::transport::{moved_count, other_io_error, Connection};

verus! {

/// What the bytes of a whole frame carry: what follows the eight bytes of
/// the length, when there are exactly that many.
pub open spec fn unframed(bytes: Seq<u8>) -> Option<Seq<u8>> {
    if bytes.len() >= 8 && bytes.len() - 8 == be_u64(bytes) {
        Some(bytes.skip(8))
    } else {
        None
    }
}

/// The frame of a message carries its header and its body, one after the
/// other: a receiver gets them as one body.
pub proof fn lemma_frame_round_trip(header: Seq<u8>, body: Seq<u8>)
    requires
        header.len() + body.len() <= u64::MAX,
    ensures
        unframed(framed((header, body))) == Some(header + body),
{
    let n = (header.len() + body.len()) as u64;
    let f = framed((header, body));
    lemma_be64_round_trip(n);
    assert(f.take(8) =~= be_bytes64(n));
    assert(be_u64(f) == be_u64(f.take(8)));
    assert(f.skip(8) =~= header + body);
}

#[derive(Clone, Copy, Debug, PartialEq, Eq, Structural)]
pub enum RecvStep {
    Prefix,
    Payload,
    Done,
}

/// A receive seen as its step and the bytes it got so far.
pub struct RecvView {
    pub step: RecvStep,
    pub received: Seq<u8>,
}

impl RecvView {
    /// How much of the frame the current step waits for in all: the eight
    /// bytes of the length, then the whole frame as long as its length
    /// says (as a machine index); for a finished receive, what it got.
    pub open spec fn need(self) -> int {
        match self.step {
            RecvStep::Prefix => 8,
            RecvStep::Payload => 8 + (be_u64(self.received) as usize) as int,
            RecvStep::Done => self.received.len() as int,
        }
    }

    /// The room left for the current step once `got` bytes of the frame are
    /// in.
    pub open spec fn room_after(self, got: int) -> int {
        self.need() - got
    }
}

pub struct RecvOperation {
    step: RecvStep,
    read: usize,
    prefix: Vec<u8>,
    msg_len: u64,
    buffer: Option<Vec<u8>>,
    received: Ghost<Seq<u8>>,
}

impl View for RecvOperation {
    type V = RecvView;

    closed spec fn view(&self) -> RecvView {
        RecvView { step: self.step, received: self.received@ }
    }
}

impl RecvOperation {
    pub closed spec fn inv(&self) -> bool {
        &&& self.prefix@.len() == 8
        &&& match self.step {
            RecvStep::Prefix => self.read < 8 && self.received@ == self.prefix@.take(self.read as int),
            RecvStep::Payload => {
                &&& self.buffer matches Some(b) && b@.len() == self.msg_len as usize && self.read <= b@.len()
                    && self.received@ == self.prefix@ + b@.take(self.read as int)
                &&& self.msg_len == be_u64(self.prefix@)
            },
            RecvStep::Done => unframed(self.received@) is Some,
        }
    }

    pub fn new() -> (op: RecvOperation)
        ensures
            op.inv(),
            op@ == (RecvView { step: RecvStep::Prefix, received: Seq::empty() }),
    {
        let prefix = vec![0u8; 8];
        let op = RecvOperation {
            step: RecvStep::Prefix,
            read: 0,
            prefix,
            msg_len: 0,
            buffer: None,
            received: Ghost(Seq::empty()),
        };
        proof {
            assert(op.prefix@.take(0) =~= Seq::<u8>::empty());
        }
        op
    }

    /// Reads what has arrived of the message. Gives the message once all its
    /// bytes are there, nothing before that; fails once the message was
    /// given.
    pub fn recv<C: Connection>(&mut self, connection: &mut C) -> (r: std::io::Result<Option<Message>>)
        requires
            old(self).inv(),
        ensures
            final(self).inv(),
            old(self)@.step == RecvStep::Done ==> r is Err && final(self)@ == old(self)@,
            r is Ok ==> old(self)@.received.is_prefix_of(final(self)@.received) && final(connection).delivered()
                == old(connection).delivered() + final(self)@.received.skip(old(self)@.received.len() as int),
            r matches Ok(Some(m)) ==> final(self)@.step == RecvStep::Done && m.header@ == Seq::<u8>::empty()
                && unframed(final(self)@.received) == Some(m.body@),
            r matches Ok(None) ==> final(self)@.step != RecvStep::Done,
            r matches Ok(None) ==> unframed(final(self)@.received) is None,
            r matches Ok(None) && final(self)@.received.len() < final(self)@.need() ==> {
                &&& final(connection).rooms().len() > old(connection).rooms().len()
                &&& exists|s: int|
                    old(self)@.received.len() <= s <= final(self)@.received.len() && final(connection).rooms().last()
                        == #[trigger] final(self)@.room_after(s)
            },
            old(self)@.step != RecvStep::Done && old(self)@.received.len() < old(self)@.need() ==> {
                &&& final(connection).rooms().len() > old(connection).rooms().len()
                &&& final(connection).rooms()[old(connection).rooms().len() as int] == old(self)@.room_after(
                    old(self)@.received.len() as int,
                )
            },
    {
        let ghost r0 = connection.rooms();
        let ghost first = old(self)@.room_after(old(self)@.received.len() as int);
        let ghost mut asked = false;
        proof {
            if self.step == RecvStep::Payload {
                let r = self@.received;
                assert(r[0] == self.prefix@[0] && r[1] == self.prefix@[1] && r[2] == self.prefix@[2] && r[3]
                    == self.prefix@[3] && r[4] == self.prefix@[4] && r[5] == self.prefix@[5] && r[6]
                    == self.prefix@[6] && r[7] == self.prefix@[7]);
                assert(be_u64(r) == self.msg_len);
            }
        }
        if self.step == RecvStep::Prefix {
            let ghost before = connection.delivered();
            let ghost rooms_before = connection.rooms();
            let ghost read_before = self.read;
            let got = {
                let (_, rest) = self.prefix.as_mut_slice().split_at_mut(self.read);
                Self::recv_buffer(connection, rest)
            };
            proof {
                assert(connection.rooms() == rooms_before.push((8 - read_before) as nat));
                assert(connection.rooms()[r0.len() as int] == first);
                asked = true;
            }
            let n = match got {
                Ok(n) => n,
                Err(e) => {
                    self.received = Ghost(self.prefix@.take(self.read as int));
                    return Err(e);
                },
            };
            proof {
                assert(self.prefix@.take(self.read + n) =~= self.received@ + (connection.delivered().skip(
                    before.len() as int,
                )));
            }
            self.read = self.read + n;
            self.received = Ghost(self.prefix@.take(self.read as int));
            if self.read == self.prefix.len() {
                self.step = RecvStep::Payload;
                self.read = 0;
                self.msg_len = read_u64_be(self.prefix.as_slice());
                self.buffer = Some(vec![0u8; #[verifier::truncate] (self.msg_len as usize)]);
                proof {
                    assert(self.prefix@.take(8) =~= self.prefix@);
                }
            } else {
                proof {
                    assert(connection.rooms() == rooms_before.push((8 - read_before) as nat));
                    assert(self@.room_after(read_before as int) == 8 - read_before);
                }
                return Ok(None);
            }
        }
        if self.step == RecvStep::Payload {
            let mut buffer = match self.buffer.take() {
                Some(b) => b,
                None => return Err(other_io_error("recv operation lost its buffer")),
            };
            let ghost before = connection.delivered();
            let ghost rooms_before = connection.rooms();
            let ghost read_before = self.read;
            let got = {
                let (_, rest) = buffer.as_mut_slice().split_at_mut(self.read);
                Self::recv_buffer(connection, rest)
            };
            proof {
                if asked {
                    assert(connection.rooms()[r0.len() as int] == rooms_before[r0.len() as int]);
                } else if read_before < buffer@.len() {
                    assert(rooms_before == r0);
                    assert(connection.rooms() == rooms_before.push((buffer@.len() - read_before) as nat));
                    assert(connection.rooms()[r0.len() as int] == first);
                    asked = true;
                }
            }
            let n = match got {
                Ok(n) => n,
                Err(e) => {
                    self.received = Ghost(self.prefix@ + buffer@.take(self.read as int));
                    self.buffer = Some(buffer);
                    return Err(e);
                },
            };
            self.read = self.read + n;
            self.received = Ghost(self.prefix@ + buffer@.take(self.read as int));
            if self.read as u64 == self.msg_len {
                self.step = RecvStep::Done;
                self.read = 0;
                return Ok(Some(Message::from_body(buffer)));
            } else {
                self.buffer = Some(buffer);
                proof {
                    let r = self@.received;
                    assert(r.take(8) =~= self.prefix@);
                    assert(r[0] == self.prefix@[0] && r[1] == self.prefix@[1] && r[2] == self.prefix@[2] && r[3]
                        == self.prefix@[3] && r[4] == self.prefix@[4] && r[5] == self.prefix@[5] && r[6]
                        == self.prefix@[6] && r[7] == self.prefix@[7]);
                    assert(be_u64(r) == self.msg_len);
                    if r.len() < self@.need() {
                        assert(connection.rooms() == rooms_before.push((buffer@.len() - read_before) as nat));
                        assert(self@.room_after(8 + read_before) == buffer@.len() - read_before);
                    }
                }
                return Ok(None);
            }
        }
        Err(other_io_error("recv operation already completed"))
    }

    /// Reads what has arrived into `buffer`, when it has room.
    fn recv_buffer<C: Connection>(connection: &mut C, buffer: &mut [u8]) -> (r: std::io::Result<usize>)
        ensures
            final(buffer)@.len() == old(buffer)@.len(),
            old(buffer)@.len() == 0 ==> (r matches Ok(n) && n == 0 && *final(connection) == *old(connection)),
            old(buffer)@.len() > 0 ==> final(connection).rooms() == old(connection).rooms().push(old(buffer)@.len()),
            r matches Ok(n) ==> n <= old(buffer)@.len() && final(connection).delivered() == old(
                connection,
            ).delivered() + final(buffer)@.take(n as int),
    {
        if buffer.len() > 0 {
            let answer = connection.try_read(buffer);
            let read = moved_count(answer)?;
            proof {
                if read == 0 {
                    assert(old(connection).delivered() + Seq::<u8>::empty() =~= old(connection).delivered());
                }
            }
            Ok(read)
        } else {
            proof {
                assert(old(connection).delivered() + Seq::<u8>::empty() =~= old(connection).delivered());
            }
            Ok(0)
        }
    }
}

} // verus!
