use std::io;
use std::rc::Rc;

use scaproust::common::Message;
use scaproust::recv::RecvOperation;
use scaproust::send::SendOperation;
use scaproust::send_win::SendOperation as BufferedSendOperation;
use scaproust::transport::{moved_count, Connection};

/// A connection that takes or hands over at most `chunk` bytes per call.
struct FakeConnection {
    out: Vec<u8>,
    incoming: Vec<u8>,
    chunk: usize,
    fail: bool,
}

impl FakeConnection {
    fn new(chunk: usize) -> FakeConnection {
        FakeConnection { out: Vec::new(), incoming: Vec::new(), chunk, fail: false }
    }
}

impl Connection for FakeConnection {
    fn try_write(&mut self, buf: &[u8]) -> io::Result<Option<usize>> {
        if self.fail {
            return Err(io::Error::new(io::ErrorKind::Other, "broken"));
        }
        let n = buf.len().min(self.chunk);
        if n == 0 {
            return Ok(None);
        }
        self.out.extend_from_slice(&buf[..n]);
        Ok(Some(n))
    }

    fn try_read(&mut self, buf: &mut [u8]) -> io::Result<Option<usize>> {
        if self.fail {
            return Err(io::Error::new(io::ErrorKind::Other, "broken"));
        }
        let n = buf.len().min(self.chunk).min(self.incoming.len());
        if n == 0 {
            return Ok(None);
        }
        buf[..n].copy_from_slice(&self.incoming[..n]);
        self.incoming.drain(..n);
        Ok(Some(n))
    }
}

fn framed(header: &[u8], body: &[u8]) -> Vec<u8> {
    let mut v = ((header.len() + body.len()) as u64).to_be_bytes().to_vec();
    v.extend_from_slice(header);
    v.extend_from_slice(body);
    v
}

#[test]
fn send_operation_writes_the_framed_message_at_once() {
    let msg = Rc::new(Message::from_header_and_body(vec![1, 2], vec![3, 4, 5]));
    let mut op = SendOperation::new(msg);
    let mut conn = FakeConnection::new(100);

    assert!(op.send(&mut conn).unwrap());
    assert_eq!(framed(&[1, 2], &[3, 4, 5]), conn.out);
    assert!(op.send(&mut conn).unwrap());
    assert_eq!(13, conn.out.len());
}

#[test]
fn send_operation_resumes_where_the_connection_stopped() {
    let msg = Rc::new(Message::from_header_and_body(vec![1, 2, 3], vec![4, 5, 6, 7]));
    let mut op = SendOperation::new(msg);
    let mut conn = FakeConnection::new(3);
    let mut calls = 0;

    while !op.send(&mut conn).unwrap() {
        calls += 1;
        assert!(calls < 20);
    }
    assert_eq!(framed(&[1, 2, 3], &[4, 5, 6, 7]), conn.out);
}

#[test]
fn send_operation_with_empty_header_goes_straight_to_the_body() {
    let msg = Rc::new(Message::from_body(vec![9, 8]));
    let mut op = SendOperation::new(msg);
    let mut conn = FakeConnection::new(8);

    assert!(op.send(&mut conn).unwrap());
    assert_eq!(vec![0, 0, 0, 0, 0, 0, 0, 2, 9, 8], conn.out);
}

#[test]
fn send_operation_reports_the_connection_failure() {
    let msg = Rc::new(Message::from_body(vec![1]));
    let mut op = SendOperation::new(msg);
    let mut conn = FakeConnection::new(8);

    conn.fail = true;
    assert!(op.send(&mut conn).is_err());
    conn.fail = false;
    assert!(op.send(&mut conn).unwrap());
    assert_eq!(vec![0, 0, 0, 0, 0, 0, 0, 1, 1], conn.out);
}

#[test]
fn buffered_send_operation_writes_the_framed_message() {
    let msg = Rc::new(Message::from_header_and_body(vec![7], vec![6, 5]));
    let mut op = BufferedSendOperation::new(msg);
    let mut conn = FakeConnection::new(4);

    assert!(!op.send(&mut conn).unwrap());
    assert!(!op.send(&mut conn).unwrap());
    assert!(op.send(&mut conn).unwrap());
    assert!(op.send(&mut conn).unwrap());
    assert_eq!(framed(&[7], &[6, 5]), conn.out);
}

#[test]
fn recv_operation_reads_the_frame_back_as_a_body() {
    let mut conn = FakeConnection::new(100);
    conn.incoming = framed(&[1, 2], &[3, 4, 5]);
    let mut op = RecvOperation::new();

    let msg = op.recv(&mut conn).unwrap().expect("the whole frame arrived");
    assert_eq!(0, msg.get_header().len());
    assert_eq!(&vec![1, 2, 3, 4, 5], msg.get_body());
    assert!(op.recv(&mut conn).is_err());
}

#[test]
fn recv_operation_waits_for_the_missing_bytes() {
    let mut conn = FakeConnection::new(3);
    conn.incoming = framed(&[], &[10, 20, 30, 40]);
    let mut op = RecvOperation::new();
    let mut calls = 0;

    let msg = loop {
        if let Some(msg) = op.recv(&mut conn).unwrap() {
            break msg;
        }
        calls += 1;
        assert!(calls < 20);
    };
    assert_eq!(&vec![10, 20, 30, 40], msg.get_body());
}

#[test]
fn recv_operation_takes_an_empty_message() {
    let mut conn = FakeConnection::new(8);
    conn.incoming = framed(&[], &[]);
    let mut op = RecvOperation::new();

    let msg = op.recv(&mut conn).unwrap().expect("an empty message is whole");
    assert_eq!(0, msg.get_body().len());
}

#[test]
fn recv_operation_survives_a_read_failure() {
    let mut conn = FakeConnection::new(100);
    conn.incoming = framed(&[], &[1, 2]);
    let mut op = RecvOperation::new();

    conn.fail = true;
    assert!(op.recv(&mut conn).is_err());
    conn.fail = false;
    let msg = op.recv(&mut conn).unwrap().expect("the whole frame arrived");
    assert_eq!(&vec![1, 2], msg.get_body());
}

#[test]
fn what_is_sent_is_received() {
    let msg = Rc::new(Message::from_header_and_body(vec![0, 0, 0, 1, 0x80, 0, 0, 2], vec![42, 43]));
    let mut send = SendOperation::new(msg);
    let mut wire = FakeConnection::new(5);
    while !send.send(&mut wire).unwrap() {}

    let mut peer = FakeConnection::new(5);
    peer.incoming = wire.out.clone();
    let mut recv = RecvOperation::new();
    let received = loop {
        if let Some(m) = recv.recv(&mut peer).unwrap() {
            break m;
        }
    };
    assert_eq!(&vec![0, 0, 0, 1, 0x80, 0, 0, 2, 42, 43], received.get_body());
}

#[test]
fn moved_count_reads_the_answer_of_the_connection() {
    assert_eq!(3, moved_count(Ok(Some(3))).unwrap());
    assert_eq!(0, moved_count(Ok(None)).unwrap());
    assert!(moved_count(Err(io::Error::new(io::ErrorKind::Other, "broken"))).is_err());
}

#[test]
fn finished_send_leaves_the_connection_alone() {
    let msg = Rc::new(Message::from_header_and_body(vec![1], vec![2]));
    let mut op = SendOperation::new(msg.clone());
    let mut buffered = BufferedSendOperation::new(msg);
    let mut conn = FakeConnection::new(64);
    assert!(op.send(&mut conn).unwrap());
    assert!(buffered.send(&mut conn).unwrap());
    let written = conn.out.len();
    conn.fail = true;
    assert!(op.send(&mut conn).unwrap());
    assert!(buffered.send(&mut conn).unwrap());
    assert_eq!(written, conn.out.len());
}
