//! What a transport gives the operations that move messages over it: a
//! connection that reads and writes without blocking.
use vstd::prelude::*;

verus! {

#[verifier::external_type_specification]
#[verifier::external_body]
pub struct ExIoError(std::io::Error);

/// Calls `std::io::Error::new` with the kind `Other` and `msg`.
#[verifier::external_body]
pub(crate) fn other_io_error(msg: &str) -> std::io::Error {
    std::io::Error::new(std::io::ErrorKind::Other, msg)
}

/// How many bytes a `try_write` or a `try_read` moved, from what it
/// answered: its count, none when it answered that none could move, and its
/// error when it failed.
pub fn moved_count(answer: std::io::Result<Option<usize>>) -> (r: std::io::Result<usize>)
    ensures
        answer matches Ok(Some(n)) ==> (r matches Ok(m) && m == n),
        answer matches Ok(None) ==> (r matches Ok(m) && m == 0),
        answer is Err <==> r is Err,
{
    match answer {
        Ok(Some(n)) => Ok(n),
        Ok(None) => Ok(0),
        Err(e) => Err(e),
    }
}

/// A connection of a transport, which the transport implements: two
/// streams of bytes, one going out and one coming in, and the record of
/// what each call was handed. The spec functions name these for the
/// contracts; their bodies here stand only for implementations that do not
/// name them, and nothing proved of a connection taken as a parameter reads
/// them.
pub trait Connection {
    /// The bytes that the connection took so far.
    closed spec fn written(&self) -> Seq<u8> {
        Seq::empty()
    }

    /// The bytes that the connection handed over so far.
    closed spec fn delivered(&self) -> Seq<u8> {
        Seq::empty()
    }

    /// Every buffer offered to `try_write` so far, in order.
    closed spec fn offers(&self) -> Seq<Seq<u8>> {
        Seq::empty()
    }

    /// The room of every buffer handed to `try_read` so far, in order.
    closed spec fn rooms(&self) -> Seq<nat> {
        Seq::empty()
    }

    /// Writes the first bytes of `buf` that can go without blocking and
    /// says how many; `None` when none can go now.
    fn try_write(&mut self, buf: &[u8]) -> (r: std::io::Result<Option<usize>>)
        ensures
            final(self).offers() == old(self).offers().push(buf@),
            r matches Ok(Some(n)) ==> n <= buf@.len() && final(self).written() == old(self).written() + buf@.take(
                n as int,
            ),
            r matches Ok(None) ==> final(self).written() == old(self).written(),
    ;

    /// Reads into the first bytes of `buf` what has arrived and says how
    /// many; `None` when nothing has.
    fn try_read(&mut self, buf: &mut [u8]) -> (r: std::io::Result<Option<usize>>)
        ensures
            final(self).rooms() == old(self).rooms().push(old(buf)@.len()),
            final(buf)@.len() == old(buf)@.len(),
            r matches Ok(Some(n)) ==> n <= old(buf)@.len() && final(self).delivered() == old(self).delivered()
                + final(buf)@.take(n as int),
            r matches Ok(None) ==> final(self).delivered() == old(self).delivered(),
    ;
}

} // verus!
