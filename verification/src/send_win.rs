//! Sending a message over a connection from one buffer that holds it framed:
//! its length as eight big-endian bytes, its header and its body.
use std::rc::Rc;

use vstd::prelude::*;

use crate::common::Message;
use crate::proto::codec::u64_to_be_vec;
use crate::send::{framed, SendView};
use crate::transport::{moved_count, Connection};

verus! {

pub struct SendOperation {
    buffer: Vec<u8>,
    written: usize,
}

impl View for SendOperation {
    type V = SendView;

    closed spec fn view(&self) -> SendView {
        SendView { frame: self.buffer@, sent: self.written as nat }
    }
}

impl SendOperation {
    pub closed spec fn inv(&self) -> bool {
        self.written <= self.buffer@.len()
    }

    pub fn new(msg: Rc<Message>) -> (op: SendOperation)
        requires
            msg.header@.len() + msg.body@.len() + 8 <= usize::MAX,
        ensures
            op.inv(),
            op@.frame == framed(msg@),
            op@.sent == 0,
    {
        let msg_len = msg.len();
        let buf_len = 8 + msg_len;
        let mut buffer: Vec<u8> = Vec::with_capacity(buf_len);
        let prefix = u64_to_be_vec(msg_len as u64);
        buffer.extend_from_slice(prefix.as_slice());
        buffer.extend_from_slice(msg.get_header().as_slice());
        buffer.extend_from_slice(msg.get_body().as_slice());
        SendOperation { buffer, written: 0 }
    }

    /// Writes what the connection takes of the rest of the buffer; says
    /// whether the whole of it went. Once it went, the connection is left
    /// alone and the answer is that it went.
    pub fn send<C: Connection>(&mut self, connection: &mut C) -> (r: std::io::Result<bool>)
        requires
            old(self).inv(),
        ensures
            final(self).inv(),
            old(self)@.sent == old(self)@.frame.len() ==> (r matches Ok(true) && *final(self)
                == *old(self) && *final(connection) == *old(connection)),
            old(self)@.sent < old(self)@.frame.len() ==> final(connection).offers() == old(connection).offers().push(
                old(self)@.frame.subrange(old(self)@.sent as int, old(self)@.frame.len() as int),
            ),
            final(self)@.frame == old(self)@.frame,
            old(self)@.sent <= final(self)@.sent <= final(self)@.frame.len(),
            r matches Ok(done) ==> done == (final(self)@.sent == final(self)@.frame.len()),
            r is Ok ==> final(connection).written() == old(connection).written() + old(self)@.frame.subrange(
                old(self)@.sent as int,
                final(self)@.sent as int,
            ),
    {
        if self.done() {
            proof {
                assert(old(connection).written() + Seq::<u8>::empty() =~= old(connection).written());
            }
            return Ok(true);
        }
        let (_, fragment) = self.buffer.as_slice().split_at(self.written);
        proof {
            assert(fragment@ =~= self.buffer@.subrange(self.written as int, self.buffer@.len() as int));
        }
        let answer = connection.try_write(fragment);
        let taken = moved_count(answer)?;
        proof {
            assert(fragment@.take(taken as int) =~= self.buffer@.subrange(self.written as int, self.written + taken));
            if taken == 0 {
                assert(old(connection).written() + Seq::<u8>::empty() =~= old(connection).written());
            }
            assert(self.buffer.len() == self.buffer@.len());
        }
        self.written = self.written + taken;
        Ok(self.done())
    }

    fn done(&self) -> (b: bool)
        ensures
            b == (self@.sent == self@.frame.len()),
    {
        self.written == self.buffer.len()
    }
}

} // verus!
