//! Sending a message over a connection, piece by piece: its length as eight
//! big-endian bytes, then its header, then its body, each resumed where the
//! connection stopped taking bytes.
use std::rc::Rc;

use vstd::prelude::*;

use crate::common::{Message, MessageView};
use crate::proto::codec::{be_bytes64, u64_to_be_vec};
use crate::transport::{moved_count, Connection};

verus! {

/// A message as it goes over the wire: its length as eight big-endian
/// bytes, then its header, then its body.
pub open spec fn framed(msg: MessageView) -> Seq<u8> {
    be_bytes64((msg.0.len() + msg.1.len()) as u64) + msg.0 + msg.1
}

#[derive(Clone, Copy, Debug, PartialEq, Eq, Structural)]
pub enum Step {
    Prefix,
    Header,
    Body,
    Done,
}

impl Step {
    pub open spec fn spec_next(self) -> Step {
        match self {
            Step::Prefix => Step::Header,
            Step::Header => Step::Body,
            Step::Body | Step::Done => Step::Done,
        }
    }

    pub fn next(&self) -> (s: Step)
        ensures
            s == self.spec_next(),
    {
        match *self {
            Step::Prefix => Step::Header,
            Step::Header => Step::Body,
            Step::Body | Step::Done => Step::Done,
        }
    }
}

/// A send seen as the bytes to put on the wire and how many of them went.
pub struct SendView {
    pub frame: Seq<u8>,
    pub sent: nat,
}

pub struct SendOperation {
    prefix: Vec<u8>,
    msg: Rc<Message>,
    step: Step,
    written: usize,
}

impl SendOperation {
    /// The bytes of the current step.
    pub closed spec fn part(&self) -> Seq<u8> {
        match self.step {
            Step::Prefix => self.prefix@,
            Step::Header => self.msg.header@,
            Step::Body => self.msg.body@,
            Step::Done => Seq::empty(),
        }
    }

    /// Where, in the frame, the current part ends.
    pub closed spec fn part_end(&self) -> nat {
        match self.step {
            Step::Prefix => 8,
            Step::Header => 8 + self.msg.header@.len(),
            Step::Body | Step::Done => 8 + self.msg.header@.len() + self.msg.body@.len(),
        }
    }

    /// Where, in the frame, the part that holds the next byte to send ends:
    /// the length, the header or the body, whichever still has bytes to go.
    pub closed spec fn offer_end(&self) -> nat {
        let sent = self@.sent;
        let h = self.msg.header@.len();
        if sent < 8 {
            8
        } else if sent < 8 + h {
            8 + h
        } else {
            8 + h + self.msg.body@.len()
        }
    }

    pub closed spec fn inv(&self) -> bool {
        &&& self.prefix@.len() == 8
        &&& self.written <= self.part().len()
        &&& self.step == Step::Done ==> self.written == 0
    }
}

impl View for SendOperation {
    type V = SendView;

    closed spec fn view(&self) -> SendView {
        let frame = self.prefix@ + self.msg.header@ + self.msg.body@;
        let sent = match self.step {
            Step::Prefix => self.written as nat,
            Step::Header => (8 + self.written) as nat,
            Step::Body => (8 + self.msg.header@.len() + self.written) as nat,
            Step::Done => frame.len(),
        };
        SendView { frame, sent }
    }
}

impl SendOperation {
    /// The rest of the current part is the frame from what went to the end
    /// of the part.
    proof fn lemma_rest_of_part(&self)
        requires
            self.inv(),
            self.step != Step::Done,
        ensures
            self.part().subrange(self.written as int, self.part().len() as int) == self@.frame.subrange(
                self@.sent as int,
                self.part_end() as int,
            ),
            self@.sent <= self.part_end() <= self@.frame.len(),
            self.part_end() - self@.sent == self.part().len() - self.written,
    {
        let p = self.prefix@;
        let h = self.msg.header@;
        let b = self.msg.body@;
        let f = p + h + b;
        match self.step {
            Step::Prefix => {
                assert(p.subrange(self.written as int, 8) =~= f.subrange(self.written as int, 8));
            },
            Step::Header => {
                assert(h.subrange(self.written as int, h.len() as int) =~= f.subrange(
                    8 + self.written,
                    8 + h.len() as int,
                ));
            },
            _ => {
                assert(b.subrange(self.written as int, b.len() as int) =~= f.subrange(
                    8 + h.len() + self.written as int,
                    f.len() as int,
                ));
            },
        }
    }

    pub fn new(msg: Rc<Message>) -> (op: SendOperation)
        requires
            msg.header@.len() + msg.body@.len() <= usize::MAX,
        ensures
            op.inv(),
            op@.frame == framed(msg@),
            op@.sent == 0,
    {
        let msg_len = msg.len() as u64;
        let prefix = u64_to_be_vec(msg_len);
        SendOperation { prefix, msg, step: Step::Prefix, written: 0 }
    }

    fn step_forward(&mut self)
        requires
            old(self).inv(),
            old(self).written == old(self).part().len(),
        ensures
            final(self).inv(),
            final(self)@ == old(self)@,
            final(self).step == old(self).step.spec_next(),
            final(self).prefix == old(self).prefix,
            final(self).msg == old(self).msg,
    {
        self.step = self.step.next();
        self.written = 0;
    }

    /// Writes what the connection takes of the rest of the message; says
    /// whether the whole message went. While bytes remain, the connection is
    /// offered first the rest of the part that holds the next byte; each
    /// part is tried once, and the send stops at the first part that does
    /// not go whole. Once the message went, the connection is left alone and
    /// the answer is that it went.
    pub fn send<C: Connection>(&mut self, connection: &mut C) -> (r: std::io::Result<bool>)
        requires
            old(self).inv(),
        ensures
            final(self).inv(),
            old(self)@.sent == old(self)@.frame.len() ==> (r matches Ok(true) && final(self)@
                == old(self)@ && *final(connection) == *old(connection)),
            old(self)@.sent < old(self)@.frame.len() ==> {
                &&& final(connection).offers().len() > old(connection).offers().len()
                &&& final(connection).offers()[old(connection).offers().len() as int] == old(self)@.frame.subrange(
                    old(self)@.sent as int,
                    old(self).offer_end() as int,
                )
            },
            r matches Ok(false) ==> {
                &&& final(self)@.sent < final(self).part_end()
                &&& exists|s: int|
                    old(self)@.sent <= s <= final(self)@.sent && final(connection).offers().last()
                        == final(self)@.frame.subrange(s, final(self).part_end() as int)
            },
            final(self)@.frame == old(self)@.frame,
            old(self)@.sent <= final(self)@.sent <= final(self)@.frame.len(),
            r matches Ok(done) ==> done == (final(self)@.sent == final(self)@.frame.len()),
            r is Ok ==> final(connection).written() == old(connection).written() + old(self)@.frame.subrange(
                old(self)@.sent as int,
                final(self)@.sent as int,
            ),
    {
        let ghost o0 = connection.offers();
        let ghost first = old(self)@.frame.subrange(old(self)@.sent as int, old(self).offer_end() as int);
        let ghost mut offered = false;
        if self.step == Step::Prefix {
            let ghost before = *self;
            let ghost offers_before = connection.offers();
            proof {
                before.lemma_rest_of_part();
            }
            let answer = self.send_buffer_and_check(connection);
            proof {
                if before.written < before.part().len() {
                    assert(offers_before == o0);
                    assert(connection.offers()[o0.len() as int] == first);
                    offered = true;
                }
            }
            match answer {
                Ok(true) => {
                    self.step_forward();
                },
                Ok(false) => {
                    proof {
                        let s = before@.sent as int;
                        assert(self.part_end() == before.part_end());
                        assert(connection.offers().last() == self@.frame.subrange(s, self.part_end() as int));
                    }
                    return Ok(false);
                },
                Err(e) => return Err(e),
            }
        }
        if self.step == Step::Header {
            let ghost before = *self;
            let ghost offers_before = connection.offers();
            proof {
                before.lemma_rest_of_part();
            }
            let answer = self.send_buffer_and_check(connection);
            proof {
                if before.written < before.part().len() {
                    if offered {
                        assert(connection.offers()[o0.len() as int] == offers_before[o0.len() as int]);
                    } else {
                        assert(offers_before == o0);
                        assert(before@.sent == old(self)@.sent);
                        assert(connection.offers()[o0.len() as int] == first);
                    }
                    offered = true;
                }
            }
            match answer {
                Ok(true) => {
                    self.step_forward();
                },
                Ok(false) => {
                    proof {
                        let s = before@.sent as int;
                        assert(self.part_end() == before.part_end());
                        assert(connection.offers().last() == self@.frame.subrange(s, self.part_end() as int));
                    }
                    return Ok(false);
                },
                Err(e) => return Err(e),
            }
        }
        if self.step == Step::Body {
            let ghost before = *self;
            let ghost offers_before = connection.offers();
            proof {
                before.lemma_rest_of_part();
            }
            let answer = self.send_buffer_and_check(connection);
            proof {
                if before.written < before.part().len() {
                    if offered {
                        assert(connection.offers()[o0.len() as int] == offers_before[o0.len() as int]);
                    } else {
                        assert(offers_before == o0);
                        assert(before@.sent == old(self)@.sent);
                        assert(connection.offers()[o0.len() as int] == first);
                    }
                    offered = true;
                }
            }
            match answer {
                Ok(true) => {
                    self.step_forward();
                },
                Ok(false) => {
                    proof {
                        let s = before@.sent as int;
                        assert(self.part_end() == before.part_end());
                        assert(connection.offers().last() == self@.frame.subrange(s, self.part_end() as int));
                    }
                    return Ok(false);
                },
                Err(e) => return Err(e),
            }
        }
        proof {
            assert(self.step == Step::Done);
        }
        Ok(true)
    }

    fn send_buffer_and_check<C: Connection>(&mut self, connection: &mut C) -> (r: std::io::Result<bool>)
        requires
            old(self).inv(),
            old(self).step != Step::Done,
        ensures
            final(self).inv(),
            final(self).step == old(self).step,
            final(self).prefix == old(self).prefix,
            final(self).msg == old(self).msg,
            final(self)@.frame == old(self)@.frame,
            old(self)@.sent <= final(self)@.sent,
            r matches Ok(complete) ==> complete == (final(self).written == final(self).part().len()),
            old(self).written == old(self).part().len() ==> (r matches Ok(true) && *final(self)
                == *old(self) && *final(connection) == *old(connection)),
            old(self).written < old(self).part().len() ==> final(connection).offers() == old(
                connection,
            ).offers().push(old(self).part().subrange(old(self).written as int, old(self).part().len() as int)),
            r is Ok ==> final(connection).written() == old(connection).written() + old(self)@.frame.subrange(
                old(self)@.sent as int,
                final(self)@.sent as int,
            ),
    {
        let buffer: &[u8] = match self.step {
            Step::Prefix => self.prefix.as_slice(),
            Step::Header => self.msg.get_header().as_slice(),
            Step::Body => self.msg.get_body().as_slice(),
            Step::Done => return Ok(true),
        };
        let len = buffer.len();
        let n = match Self::send_buffer(connection, buffer, self.written) {
            Ok(n) => n,
            Err(e) => return Err(e),
        };
        proof {
            assert(self.written + n <= len);
        }
        self.written = self.written + n;
        Ok(self.written == len)
    }

    /// Writes what the connection takes of `buffer` from `written` on.
    fn send_buffer<C: Connection>(connection: &mut C, buffer: &[u8], written: usize) -> (r: std::io::Result<usize>)
        requires
            written <= buffer@.len(),
        ensures
            written == buffer@.len() ==> (r matches Ok(n) && n == 0 && *final(connection) == *old(connection)),
            written < buffer@.len() ==> final(connection).offers() == old(connection).offers().push(
                buffer@.subrange(written as int, buffer@.len() as int),
            ),
            r matches Ok(n) ==> written + n <= buffer@.len() && final(connection).written() == old(
                connection,
            ).written() + buffer@.subrange(written as int, written + n),
    {
        let remaining = buffer.len() - written;
        if remaining > 0 {
            let (_, fragment) = buffer.split_at(written);
            proof {
                assert(fragment@ =~= buffer@.subrange(written as int, buffer@.len() as int));
            }
            let answer = connection.try_write(fragment);
            let taken = moved_count(answer)?;
            proof {
                assert(fragment@.take(taken as int) =~= buffer@.subrange(written as int, written + taken));
                if taken == 0 {
                    assert(old(connection).written() + Seq::<u8>::empty() =~= old(connection).written());
                }
            }
            Ok(taken)
        } else {
            proof {
                assert(buffer@.subrange(written as int, written as int) =~= Seq::<u8>::empty());
                assert(old(connection).written() + Seq::<u8>::empty() =~= old(connection).written());
            }
            Ok(0)
        }
    }
}

} // verus!
