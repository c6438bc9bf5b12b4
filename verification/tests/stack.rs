use handshake::codec::{decode, encode, Header};
use handshake::err::Error;
use handshake::manager::Manager;
use handshake::stack::{NetStack, TcpListener, TcpStream};
use handshake::table::Signal;
use handshake::types::{Dual, Quad, State};

const LOCAL: u32 = 0x0a0a_0a0a;

fn peer() -> Dual {
    Dual { ipv4: 0x0a0a_0a01, port: 40000 }
}

/// A frame from `from` to the local port `port`.
fn frame(from: Dual, port: u16, seq: u32, ack: Option<u32>, flags: &str, wnd: u16, data: &[u8]) -> Vec<u8> {
    let h = Header {
        source: from,
        destination: Dual { ipv4: LOCAL, port },
        sequence_number: seq,
        acknowledgment_number: ack.unwrap_or(0),
        window_size: wnd,
        fin: flags.contains('F'),
        syn: flags.contains('S'),
        rst: flags.contains('R'),
        psh: false,
        ack: ack.is_some(),
        urg: false,
        mss: None,
    };
    encode(&h, data)
}

fn sent(frame: &[u8]) -> (Header, Vec<u8>) {
    let (h, offset) = decode(frame).unwrap();
    (h, frame[offset..].to_vec())
}

fn quad(port: u16) -> Quad {
    Quad { src: Dual { ipv4: LOCAL, port }, dst: peer() }
}

/// A stack with a listener on 9090 and one connection from `peer()`
/// established on it and accepted.
fn accepted(iss: u32) -> (NetStack, TcpListener, TcpStream) {
    let mut out = Vec::new();
    let mut stack = NetStack::new(LOCAL);
    let listener = stack.bind(9090).unwrap();
    stack.manager.set_iss(iss);
    let n = stack.manager.on_frame(&frame(peer(), 9090, 1000, None, "S", 1024, &[]), 0, &mut out);
    assert_eq!(n, Some((quad(9090), Signal::Noop)));
    assert!(stack.manager.on_tick(0, &mut out).is_empty());
    let n = stack.manager.on_frame(
        &frame(peer(), 9090, 1001, Some(iss.wrapping_add(1)), "", 1024, &[]),
        1,
        &mut out,
    );
    assert_eq!(n, Some((quad(9090), Signal::Established)));
    let stream = listener.accept(&mut stack).unwrap().unwrap();
    (stack, listener, stream)
}

#[test]
fn passive_open_through_the_table() {
    let mut out = Vec::new();
    let mut stack = NetStack::new(LOCAL);
    let listener = stack.bind(9090).unwrap();
    assert_eq!(listener.port(), 9090);
    stack.manager.set_iss(5000);
    assert_eq!(stack.manager.iss(), 5000);
    assert_eq!(listener.accept(&mut stack), Ok(None));

    let n = stack.manager.on_frame(&frame(peer(), 9090, 1000, None, "S", 1024, &[]), 0, &mut out);
    assert_eq!(n, Some((quad(9090), Signal::Noop)));
    assert_eq!(stack.manager.counts(), (1, 0));
    assert!(out.is_empty());
    assert!(stack.manager.on_tick(1, &mut out).is_empty());
    let (h, _) = sent(&out[0]);
    assert!(h.syn && h.ack);
    assert_eq!((h.sequence_number, h.acknowledgment_number), (5000, 1001));
    assert_eq!((h.source, h.destination), (quad(9090).src, peer()));
    assert_eq!(listener.accept(&mut stack), Ok(None));

    let n = stack.manager.on_frame(&frame(peer(), 9090, 1001, Some(5001), "", 1024, &[]), 2, &mut out);
    assert_eq!(n, Some((quad(9090), Signal::Established)));
    assert_eq!(stack.manager.counts(), (0, 1));
    let stream = listener.accept(&mut stack).unwrap().unwrap();
    assert_eq!(stream.quad(), quad(9090));
    assert_eq!(listener.accept(&mut stack), Ok(None));
    assert_eq!(stream.read(&mut stack, 1500), Ok(None));

    let n = stack.manager.on_frame(&frame(peer(), 9090, 1001, Some(5001), "", 1024, b"A"), 3, &mut out);
    assert_eq!(
        n,
        Some((
            quad(9090),
            Signal::Wakeup { wake_up_reader: true, wake_up_writer: false, wake_up_closer: false }
        ))
    );
    let (h, _) = sent(&out[1]);
    assert_eq!((h.acknowledgment_number, h.window_size), (1002, 64239));
    assert_eq!(stream.read(&mut stack, 1500), Ok(Some(vec![0x41])));

    let n = stack.manager.on_frame(&frame(peer(), 9090, 1002, Some(5001), "F", 1024, &[]), 4, &mut out);
    assert_eq!(
        n,
        Some((
            quad(9090),
            Signal::Wakeup { wake_up_reader: true, wake_up_writer: false, wake_up_closer: false }
        ))
    );
    assert_eq!(stack.manager.connection(quad(9090)).unwrap().state(), State::CloseWait);
    assert_eq!(stream.read(&mut stack, 1500), Ok(Some(vec![])));

    let mut stream = stream;
    assert!(!stream.close(&mut stack));
    assert_eq!(stack.manager.connection(quad(9090)).unwrap().state(), State::LastAck);
    assert_eq!(stream.write(&mut stack, b"late"), Err(Error::NotConnected));
    assert!(stack.manager.on_tick(5, &mut out).is_empty());
    let (h, _) = sent(out.last().unwrap());
    assert!(h.fin);
    assert_eq!(h.sequence_number, 5001);

    let n = stack.manager.on_frame(&frame(peer(), 9090, 1003, Some(5002), "", 1024, &[]), 6, &mut out);
    assert_eq!(n, Some((quad(9090), Signal::Deleted)));
    assert_eq!(stack.manager.counts(), (0, 0));
    assert!(stack.manager.connection(quad(9090)).is_none());
    assert!(stack.manager.is_closed(quad(9090)));
    assert_eq!(stream.read(&mut stack, 1), Err(Error::StreamClosed(quad(9090).src)));
    assert_eq!(stream.flush(&stack), Err(Error::StreamClosed(quad(9090).src)));
}

#[test]
fn active_open_through_the_table() {
    let mut out = Vec::new();
    let mut stack = NetStack::new(LOCAL);
    stack.manager.set_iss(7000);
    let remote = Dual { ipv4: 0x7f00_0001, port: 34343 };
    let port = stack.connect(remote.ipv4, remote.port).unwrap();
    assert_eq!(port.port(), 4001);
    assert!(stack.manager.is_bound(4001));
    assert_eq!(stack.manager.counts(), (1, 0));
    let q = Quad { src: Dual { ipv4: LOCAL, port: 4001 }, dst: remote };
    assert_eq!(stack.manager.connection(q).unwrap().state(), State::SynSent);
    assert_eq!(port.opened(&mut stack), Ok(None));

    assert!(stack.manager.on_tick(0, &mut out).is_empty());
    let (h, _) = sent(&out[0]);
    assert!(h.syn && !h.ack);
    assert_eq!((h.sequence_number, h.source, h.destination), (7000, q.src, remote));

    let n = stack.manager.on_frame(&frame(remote, 4001, 9000, Some(7001), "S", 2000, &[]), 1, &mut out);
    assert_eq!(n, Some((q, Signal::Established)));
    let (h, _) = sent(&out[1]);
    assert_eq!((h.sequence_number, h.acknowledgment_number), (7001, 9001));
    assert!(h.ack && !h.syn);
    let stream = port.opened(&mut stack).unwrap().unwrap();
    assert_eq!(stream.quad(), q);
    assert_eq!(port.opened(&mut stack), Ok(None));

    assert_eq!(stream.write(&mut stack, b"X"), Ok(Some(1)));
    assert_eq!(stream.flush(&stack), Ok(false));
    assert!(stack.manager.on_tick(2, &mut out).is_empty());
    let (h, data) = sent(&out[2]);
    assert_eq!((h.sequence_number, data), (7001, b"X".to_vec()));
    let tcb = stack.manager.connection(q).unwrap();
    assert_eq!(tcb.snd().nxt, 7002);
    let cwnd = tcb.cwnd();
    let n = stack.manager.on_frame(&frame(remote, 4001, 9001, Some(7002), "", 2000, &[]), 3, &mut out);
    assert_eq!(
        n,
        Some((q, Signal::Wakeup { wake_up_reader: false, wake_up_writer: true, wake_up_closer: false }))
    );
    let tcb = stack.manager.connection(q).unwrap();
    assert_eq!(tcb.snd().una, 7002);
    assert_eq!(tcb.cwnd(), cwnd + 536);
    assert_eq!(stream.flush(&stack), Ok(true));
}

#[test]
fn ports_are_bound_once() {
    let mut stack = NetStack::new(LOCAL);
    let listener = stack.bind(80).unwrap();
    assert_eq!(stack.bind(80), Err(Error::PortInUse(80)));
    assert!(stack.manager.is_bound(80));
    let other = stack.bind(81).unwrap();
    assert_eq!(other.port(), 81);
    listener.release(&mut stack);
    assert!(!stack.manager.is_bound(80));
    assert_eq!(TcpListener { port: 80 }.accept(&mut stack), Ok(None));
    assert_eq!(stack.bind(80), Ok(TcpListener { port: 80 }));
    assert!(stack.manager.is_bound(80));
    assert_eq!(stack.bind(80), Err(Error::PortInUse(80)));
    assert_eq!(TcpListener { port: 80 }.accept(&mut stack), Ok(None));
    assert_eq!(TcpListener { port: 82 }.accept(&mut stack), Err(Error::PortClosed(82)));
}

#[test]
fn active_opens_take_the_port_above_the_greatest() {
    let mut stack = NetStack::new(LOCAL);
    assert_eq!(stack.connect(1, 1).unwrap().port(), 4001);
    assert_eq!(stack.connect(1, 1).unwrap().port(), 4002);
    let _ = stack.bind(9090).unwrap();
    let _ = stack.bind(100).unwrap();
    assert_eq!(stack.connect(1, 1).unwrap().port(), 9091);
    let _ = stack.bind(65535).unwrap();
    assert_eq!(stack.connect(1, 1), Err(Error::PortInUse(65535)));
    assert_eq!(stack.manager.counts(), (3, 0));
}

#[test]
fn an_active_open_does_not_reuse_a_name() {
    let (mut stack, listener, stream) = accepted(5000);
    let _ = stack.bind(9089).unwrap();
    listener.release(&mut stack);
    assert_eq!(stack.connect(peer().ipv4, peer().port), Err(Error::PortInUse(9090)));
    assert_eq!(stack.manager.counts(), (0, 1));
    assert!(!stack.manager.is_bound(9090));
    assert_eq!(stack.connect(peer().ipv4, peer().port + 1).unwrap().port(), 9090);
    assert_eq!(stack.manager.counts(), (1, 1));
    assert_eq!(stream.quad(), quad(9090));
}

#[test]
fn a_closed_port_answers_with_a_reset() {
    let mut out = Vec::new();
    let mut stack = NetStack::new(LOCAL);
    let n = stack.manager.on_frame(&frame(peer(), 9090, 1000, None, "S", 1024, b"ab"), 0, &mut out);
    assert_eq!(n, Some((quad(9090), Signal::Noop)));
    let (r, _) = sent(&out[0]);
    assert!(r.rst && r.ack);
    assert_eq!((r.sequence_number, r.acknowledgment_number), (0, 1003));
    assert_eq!((r.source, r.destination), (quad(9090).src, peer()));
    let n = stack.manager.on_frame(&frame(peer(), 9090, 1000, Some(77), "", 1024, &[]), 0, &mut out);
    assert_eq!(n, Some((quad(9090), Signal::Noop)));
    let (r, _) = sent(&out[1]);
    assert!(r.rst && !r.ack);
    assert_eq!(r.sequence_number, 77);
    let n = stack.manager.on_frame(&frame(peer(), 9090, 1000, None, "R", 1024, &[]), 0, &mut out);
    assert_eq!(n, Some((quad(9090), Signal::Noop)));
    assert_eq!(out.len(), 2);
    assert_eq!(stack.manager.counts(), (0, 0));
}

#[test]
fn malformed_frames_are_dropped() {
    let mut out = Vec::new();
    let mut stack = NetStack::new(LOCAL);
    let _ = stack.bind(9090).unwrap();
    let good = frame(peer(), 9090, 1000, None, "S", 1024, &[]);
    assert_eq!(stack.manager.on_frame(&good[..30], 0, &mut out), None);
    assert_eq!(stack.manager.on_frame(&[], 0, &mut out), None);
    assert_eq!(stack.manager.on_frame(&vec![0x45u8; 70_000], 0, &mut out), None);
    assert!(out.is_empty());
    assert_eq!(stack.manager.counts(), (0, 0));
}

#[test]
fn one_name_is_one_connection() {
    let mut out = Vec::new();
    let mut stack = NetStack::new(LOCAL);
    let listener = stack.bind(9090).unwrap();
    for _ in 0..3 {
        let _ = stack.manager.on_frame(&frame(peer(), 9090, 1000, None, "S", 1024, &[]), 0, &mut out);
        assert_eq!(stack.manager.counts(), (1, 0));
    }
    let _ = stack.manager.on_frame(&frame(peer(), 9090, 1001, Some(1), "", 1024, &[]), 0, &mut out);
    assert_eq!(stack.manager.counts(), (0, 1));
    let _ = stack.manager.on_frame(&frame(peer(), 9090, 1001, Some(1), "", 1024, &[]), 0, &mut out);
    assert_eq!(stack.manager.counts(), (0, 1));
    let other = Dual { port: 40001, ..peer() };
    let _ = stack.manager.on_frame(&frame(other, 9090, 50, None, "S", 1024, &[]), 0, &mut out);
    assert_eq!(stack.manager.counts(), (1, 1));
    assert!(listener.accept(&mut stack).unwrap().is_some());
    assert_eq!(listener.accept(&mut stack), Ok(None));
}

#[test]
fn a_second_syn_returns_a_passive_handshake_to_listen() {
    let mut out = Vec::new();
    let mut stack = NetStack::new(LOCAL);
    let _ = stack.bind(9090).unwrap();
    let _ = stack.manager.on_frame(&frame(peer(), 9090, 1000, None, "S", 1024, &[]), 0, &mut out);
    assert_eq!(stack.manager.counts(), (1, 0));
    let n = stack.manager.on_frame(&frame(peer(), 9090, 1001, None, "S", 1024, &[]), 0, &mut out);
    assert_eq!(n, Some((quad(9090), Signal::Noop)));
    assert_eq!(stack.manager.counts(), (0, 0));
}

#[test]
fn a_reset_removes_the_stream_and_is_signalled() {
    let mut out = Vec::new();
    let (mut stack, _listener, mut stream) = accepted(5000);
    let n = stack.manager.on_frame(&frame(peer(), 9090, 1001, None, "R", 0, &[]), 5, &mut out);
    assert_eq!(n, Some((quad(9090), Signal::Reset)));
    assert_eq!(stack.manager.counts(), (0, 0));
    assert_eq!(stream.read(&mut stack, 10), Err(Error::StreamClosed(quad(9090).src)));
    stream.mark_reset();
    assert_eq!(stream.read(&mut stack, 10), Err(Error::ConnectionReset));
    assert_eq!(stream.write(&mut stack, b"x"), Err(Error::ConnectionReset));
    assert_eq!(stream.flush(&stack), Err(Error::ConnectionReset));
    assert!(stream.close(&mut stack));
    assert_eq!(stream.write(&mut stack, b"x"), Err(Error::NotConnected));
}

#[test]
fn a_refused_active_open_is_removed() {
    let mut out = Vec::new();
    let mut stack = NetStack::new(LOCAL);
    stack.manager.set_iss(7000);
    let remote = peer();
    let port = stack.connect(remote.ipv4, remote.port).unwrap();
    assert!(stack.manager.on_tick(0, &mut out).is_empty());
    let n = stack.manager.on_frame(&frame(remote, 4001, 0, Some(7001), "R", 0, &[]), 1, &mut out);
    assert_eq!(n, Some((quad(4001), Signal::Reset)));
    assert_eq!(stack.manager.counts(), (0, 0));
    assert_eq!(port.accept(&mut stack), Ok(None));
    assert_eq!(port.opened(&mut stack), Err(Error::ConnectionRefused));

    let port = stack.connect(remote.ipv4, remote.port).unwrap();
    assert_eq!(port.port(), 4002);
    let _ = stack.manager.on_frame(&frame(remote, 4002, 9000, None, "S", 100, &[]), 1, &mut out);
    assert_eq!(stack.manager.connection(quad(4002)).unwrap().state(), State::SynRcvd);
    assert_eq!(port.opened(&mut stack), Ok(None));
    let n = stack.manager.on_frame(&frame(remote, 4002, 9001, None, "R", 0, &[]), 2, &mut out);
    assert_eq!(n, Some((quad(4002), Signal::Reset)));
    assert_eq!(stack.manager.counts(), (0, 0));
    assert_eq!(port.opened(&mut stack), Err(Error::ConnectionRefused));
    assert_eq!(TcpListener { port: 4003 }.opened(&mut stack), Err(Error::PortClosed(4003)));
}

#[test]
fn a_connection_given_up_is_removed_at_the_tick() {
    let mut out = Vec::new();
    let (mut stack, _listener, stream) = accepted(5000);
    stream.set_r2(&mut stack, 1500);
    stream.set_r2_syn(&mut stack, 9);
    assert_eq!(stream.write(&mut stack, b"hello"), Ok(Some(5)));
    assert!(stack.manager.on_tick(10, &mut out).is_empty());
    assert!(stack.manager.on_tick(1010, &mut out).is_empty());
    let ended = stack.manager.on_tick(3010, &mut out);
    assert_eq!(ended.len(), 1);
    assert_eq!((ended[0].quad, ended[0].reset, ended[0].active), (quad(9090), true, false));
    assert_eq!(stack.manager.counts(), (0, 0));
    assert_eq!(sent(out.last().unwrap()).1, b"hello");
}

#[test]
fn a_pending_connection_given_up_is_removed_at_the_tick() {
    let mut out = Vec::new();
    let mut stack = NetStack::new(LOCAL);
    let first = stack.connect(1, 1).unwrap();
    let second = stack.connect(1, 2).unwrap();
    assert_eq!(first.opened(&mut stack), Ok(None));
    let mut now = 0;
    let mut ended = Vec::new();
    while ended.is_empty() {
        ended = stack.manager.on_tick(now, &mut out);
        now += 500;
    }
    assert_eq!(ended.len(), 2);
    assert_eq!((ended[0].quad.src.port, ended[1].quad.src.port), (4001, 4002));
    assert!(ended[0].reset && ended[1].reset);
    assert!(ended[0].active && ended[1].active);
    assert_eq!(stack.manager.counts(), (0, 0));
    assert_eq!(out.len(), 18);
    assert_eq!(first.opened(&mut stack), Err(Error::ConnectionReset));
    assert_eq!(second.opened(&mut stack), Err(Error::ConnectionReset));
    assert_eq!(second.accept(&mut stack), Ok(None));
}

#[test]
fn time_wait_ends_at_the_tick() {
    let mut out = Vec::new();
    let (mut stack, _listener, mut stream) = accepted(5000);
    assert!(!stream.close(&mut stack));
    assert!(stack.manager.on_tick(10, &mut out).is_empty());
    let n = stack.manager.on_frame(&frame(peer(), 9090, 1001, Some(5002), "", 1024, &[]), 20, &mut out);
    assert_eq!(
        n,
        Some((
            quad(9090),
            Signal::Wakeup { wake_up_reader: false, wake_up_writer: true, wake_up_closer: true }
        ))
    );
    assert!(stack.manager.is_closed(quad(9090)));
    let _ = stack.manager.on_frame(&frame(peer(), 9090, 1001, Some(5002), "F", 1024, &[]), 30, &mut out);
    assert_eq!(stack.manager.connection(quad(9090)).unwrap().state(), State::TimeWait);
    assert!(stack.manager.on_tick(240_029, &mut out).is_empty());
    let ended = stack.manager.on_tick(240_030, &mut out);
    assert_eq!(ended.len(), 1);
    assert!(!ended[0].reset);
    assert_eq!(stack.manager.counts(), (0, 0));
}

#[test]
fn streams_block_where_they_have_to_wait() {
    let mut out = Vec::new();
    let mut stack = NetStack::new(LOCAL);
    let listener = stack.bind(9090).unwrap();
    let _ = stack.manager.on_frame(&frame(peer(), 9090, 1000, None, "S", 4, &[]), 0, &mut out);
    let _ = stack.manager.on_tick(0, &mut out);
    let _ = stack.manager.on_frame(&frame(peer(), 9090, 1001, Some(1), "", 4, &[]), 0, &mut out);
    let stream = listener.accept(&mut stack).unwrap().unwrap();
    assert_eq!(stream.read(&mut stack, 10), Ok(None));
    assert_eq!(stream.flush(&stack), Ok(true));
    assert_eq!(stream.write(&mut stack, b"abcdef"), Ok(Some(4)));
    assert_eq!(stream.write(&mut stack, b"ef"), Ok(None));
    assert_eq!(stream.write(&mut stack, b""), Ok(None));
    assert_eq!(stream.flush(&stack), Ok(false));
    let ghost = TcpStream { quad: quad(1), closed: false, reset: false };
    assert_eq!(ghost.read(&mut stack, 1), Err(Error::StreamClosed(quad(1).src)));
    assert_eq!(ghost.write(&mut stack, b"x"), Err(Error::StreamClosed(quad(1).src)));
    assert_eq!(stack.manager.close(quad(1)), Err(Error::StreamClosed(quad(1).src)));
}

#[test]
fn an_empty_table_is_new() {
    let m = Manager::new();
    assert_eq!(m.counts(), (0, 0));
    assert_eq!(m.iss(), 0);
    assert!(!m.is_bound(0));
    assert!(m.is_closed(quad(1)));
}

#[test]
fn a_passive_handshake_given_up_fails_no_open() {
    let mut out = Vec::new();
    let mut stack = NetStack::new(LOCAL);
    let listener = stack.bind(9090).unwrap();
    let _ = stack.manager.on_frame(&frame(peer(), 9090, 1000, None, "S", 1024, &[]), 0, &mut out);
    let mut now = 0;
    let mut ended = Vec::new();
    while ended.is_empty() {
        ended = stack.manager.on_tick(now, &mut out);
        now += 500;
    }
    assert_eq!((ended[0].quad, ended[0].reset, ended[0].active), (quad(9090), true, false));
    assert_eq!(listener.opened(&mut stack), Ok(None));
    assert_eq!(listener.accept(&mut stack), Ok(None));
}

#[test]
fn a_bind_after_a_release_starts_with_an_empty_backlog() {
    let mut out = Vec::new();
    let mut stack = NetStack::new(LOCAL);
    let listener = stack.bind(9090).unwrap();
    let _ = stack.manager.on_frame(&frame(peer(), 9090, 1000, None, "S", 1024, &[]), 0, &mut out);
    let _ = stack.manager.on_frame(&frame(peer(), 9090, 1001, Some(1), "", 1024, &[]), 0, &mut out);
    assert_eq!(stack.manager.counts(), (0, 1));
    listener.release(&mut stack);
    let again = stack.bind(9090).unwrap();
    assert_eq!(again.accept(&mut stack), Ok(None));
    assert_eq!(stack.manager.counts(), (0, 1));

    let port = stack.connect(1, 1).unwrap();
    assert_eq!(port.port(), 9091);
    assert_eq!(stack.bind(9091), Err(Error::PortInUse(9091)));
    port.release(&mut stack);
    assert_eq!(stack.bind(9091), Ok(TcpListener { port: 9091 }));
}

#[test]
fn a_write_after_a_close_through_a_copy_is_refused() {
    let (mut stack, _listener, stream) = accepted(5000);
    let mut copy = stream;
    assert_eq!(stream.write(&mut stack, b"ab"), Ok(Some(2)));
    assert!(!copy.close(&mut stack));
    assert_eq!(copy.write(&mut stack, b"x"), Err(Error::NotConnected));
    assert_eq!(stream.write(&mut stack, b"x"), Err(Error::NotConnected));
    assert_eq!(stack.manager.write(quad(9090), b"x"), Err(Error::NotConnected));
    assert_eq!(stack.manager.connection(quad(9090)).unwrap().outgoing_len(), 2);
}
