use handshake::codec::{decode, Header};
use handshake::seq::wrapping_lt;
use handshake::tcb::{Action, TCB};
use handshake::types::{Dual, Kind, Quad, State};

fn local() -> Dual {
    Dual { ipv4: 0x0a0a_0a0a, port: 9090 }
}

fn peer() -> Dual {
    Dual { ipv4: 0x0a0a_0a01, port: 40000 }
}

fn quad() -> Quad {
    Quad { src: local(), dst: peer() }
}

/// A segment from the peer with no flag set.
fn seg(seq: u32, ack: u32, wnd: u16) -> Header {
    Header {
        source: peer(),
        destination: local(),
        sequence_number: seq,
        acknowledgment_number: ack,
        window_size: wnd,
        fin: false,
        syn: false,
        rst: false,
        psh: false,
        ack: false,
        urg: false,
        mss: None,
    }
}

fn syn(seq: u32, wnd: u16) -> Header {
    Header { syn: true, ..seg(seq, 0, wnd) }
}

fn ack(seq: u32, ack: u32, wnd: u16) -> Header {
    Header { ack: true, ..seg(seq, ack, wnd) }
}

fn fin(seq: u32, ack: u32, wnd: u16) -> Header {
    Header { ack: true, fin: true, ..seg(seq, ack, wnd) }
}

/// What a frame that was sent holds: its header and its payload.
fn sent(frame: &[u8]) -> (Header, Vec<u8>) {
    let (h, offset) = decode(frame).unwrap();
    (h, frame[offset..].to_vec())
}

/// A connection that was opened passively and is established: the peer
/// started at `irs` and offers `wnd`, this end started at `iss`.
fn established(iss: u32, irs: u32, wnd: u16) -> TCB {
    let mut out = Vec::new();
    let mut tcb = TCB::listen(quad(), iss);
    assert!(matches!(tcb.on_segment(&syn(irs, wnd), &[], 0, &mut out), Action::AddToPending(_)));
    assert!(!tcb.on_tick(0, &mut out));
    let action = tcb.on_segment(&ack(irs.wrapping_add(1), iss.wrapping_add(1), wnd), &[], 0, &mut out);
    assert!(matches!(action, Action::IsEstablished));
    assert_eq!(out.len(), 1);
    tcb
}

fn wakeup(action: &Action) -> (bool, bool, bool) {
    match action {
        Action::Wakeup { wake_up_reader, wake_up_writer, wake_up_closer } => {
            (*wake_up_reader, *wake_up_writer, *wake_up_closer)
        }
        other => panic!("not a wakeup: {:?}", other),
    }
}

#[test]
fn listen_starts_with_the_documented_values() {
    let tcb = TCB::listen(quad(), 5000);
    assert_eq!(tcb.state(), State::Listen);
    assert_eq!(tcb.kind(), Kind::Passive);
    assert_eq!(tcb.quad(), quad());
    assert_eq!((tcb.snd().una, tcb.snd().nxt, tcb.snd().iss), (5000, 5000, 5000));
    assert_eq!((tcb.snd().mss, tcb.snd().wnd, tcb.snd().max_wnd), (536, 0, 0));
    assert_eq!((tcb.rcv().wnd, tcb.rcv().mss), (64240, 536));
    assert_eq!(tcb.rto(), 1000);
    assert_eq!(tcb.cwnd(), 4 * 536);
    assert_eq!(tcb.ssthresh(), u32::MAX);
    assert_eq!(tcb.segments_len(), 0);
    assert!(tcb.is_slow_start());
    assert!(!tcb.is_reset() && !tcb.is_read_closed() && !tcb.is_write_closed());
    assert_eq!((tcb.timeout(), tcb.time_wait(), tcb.probe_timeout()), (None, None, None));
}

#[test]
fn syn_sent_queues_a_syn() {
    let tcb = TCB::syn_sent(quad(), u32::MAX);
    assert_eq!(tcb.state(), State::SynSent);
    assert_eq!(tcb.kind(), Kind::Active);
    assert_eq!((tcb.snd().una, tcb.snd().nxt), (u32::MAX, 0));
    assert_eq!(tcb.segments_len(), 1);
    let s = tcb.segment(0).unwrap();
    assert_eq!((s.sno, s.una, s.len), (u32::MAX, u32::MAX, 1));
    assert!(s.syn && !s.fin && !s.ack && !s.retry);
    assert_eq!(s.sent, None);
    assert_eq!(s.mss, Some(536));
    assert_eq!(s.end(), u32::MAX);
    assert_eq!(s.unacked_len(), 1);
    assert_eq!(s.unacked_data_len(), 0);
    assert!(tcb.segment(1).is_none());
}

#[test]
fn listen_ignores_a_reset_and_resets_an_ack() {
    let mut out = Vec::new();
    let mut tcb = TCB::listen(quad(), 1);
    let rst = Header { rst: true, ack: true, ..seg(10, 20, 30) };
    assert!(matches!(tcb.on_segment(&rst, &[], 0, &mut out), Action::Noop));
    assert!(out.is_empty());
    assert!(matches!(tcb.on_segment(&ack(10, 20, 30), b"abc", 0, &mut out), Action::Noop));
    assert_eq!(out.len(), 1);
    let (r, _) = sent(&out[0]);
    assert!(r.rst && !r.ack);
    assert_eq!(r.sequence_number, 20);
    assert_eq!((r.source, r.destination), (local(), peer()));
    assert_eq!(tcb.state(), State::Listen);
    assert!(matches!(tcb.on_segment(&seg(10, 20, 30), &[], 0, &mut out), Action::Noop));
    assert_eq!(out.len(), 1);
}

#[test]
fn listen_takes_a_syn() {
    let mut out = Vec::new();
    let mut tcb = TCB::listen(quad(), 5000);
    let h = Header { mss: Some(1460), ..syn(1000, 1024) };
    let action = tcb.on_segment(&h, &[], 0, &mut out);
    match action {
        Action::AddToPending(copy) => {
            assert_eq!(copy.state(), State::SynRcvd);
            assert_eq!(copy.snd(), tcb.snd());
            assert_eq!(copy.rcv(), tcb.rcv());
            assert_eq!(copy.segments_len(), 1);
        }
        other => panic!("{:?}", other),
    }
    assert!(out.is_empty());
    assert_eq!(tcb.state(), State::SynRcvd);
    assert_eq!((tcb.rcv().nxt, tcb.rcv().irs), (1001, 1000));
    assert_eq!((tcb.snd().wnd, tcb.snd().max_wnd, tcb.snd().mss), (1024, 1024, 1460));
    assert_eq!((tcb.snd().una, tcb.snd().nxt), (5000, 5001));
    let s = tcb.segment(0).unwrap();
    assert!(s.syn && s.ack && !s.fin);
    assert_eq!((s.sno, s.len, s.mss), (5000, 1, Some(536)));
    assert!(!tcb.on_tick(7, &mut out));
    let (h, data) = sent(&out[0]);
    assert!(h.syn && h.ack);
    assert_eq!((h.sequence_number, h.acknowledgment_number, h.mss), (5000, 1001, Some(536)));
    assert_eq!(h.window_size, 64240);
    assert!(data.is_empty());
    assert_eq!(tcb.timeout(), Some(1007));
    assert_eq!(tcb.segment(0).unwrap().sent, Some(7));
}

#[test]
fn listen_defaults_the_mss() {
    let mut out = Vec::new();
    let mut tcb = TCB::listen(quad(), 5000);
    let _ = tcb.on_segment(&syn(1000, 1024), &[], 0, &mut out);
    assert_eq!(tcb.snd().mss, 536);
}

#[test]
fn passive_open_one_byte_passive_close() {
    let mut out = Vec::new();
    let mut tcb = TCB::listen(quad(), 5000);
    let _ = tcb.on_segment(&syn(1000, 1024), &[], 0, &mut out);
    assert!(!tcb.on_tick(1, &mut out));
    let (h, _) = sent(&out[0]);
    assert!(h.syn && h.ack);
    assert_eq!((h.sequence_number, h.acknowledgment_number), (5000, 1001));
    let action = tcb.on_segment(&ack(1001, 5001, 1024), &[], 2, &mut out);
    assert!(matches!(action, Action::IsEstablished));
    assert_eq!(tcb.state(), State::Estab);
    assert_eq!((tcb.snd().una, tcb.snd().nxt), (5001, 5001));
    assert_eq!((tcb.snd().wl1, tcb.snd().wl2), (1001, 5001));
    assert_eq!(tcb.segments_len(), 0);
    assert_eq!(tcb.timeout(), None);
    assert_eq!(out.len(), 1);

    let action = tcb.on_segment(&ack(1001, 5001, 1024), b"A", 3, &mut out);
    assert_eq!(wakeup(&action), (true, false, false));
    assert_eq!(tcb.incoming_len(), 1);
    let (h, _) = sent(&out[1]);
    assert!(h.ack && !h.syn && !h.fin);
    assert_eq!((h.sequence_number, h.acknowledgment_number, h.window_size), (5001, 1002, 64239));
    assert_eq!(tcb.recv(1500), vec![0x41]);
    assert_eq!(tcb.incoming_len(), 0);

    let action = tcb.on_segment(&fin(1002, 5001, 1024), &[], 4, &mut out);
    assert_eq!(wakeup(&action), (true, false, false));
    assert_eq!(tcb.state(), State::CloseWait);
    assert!(tcb.is_read_closed());
    assert_eq!(tcb.rcv().nxt, 1003);
    let (h, _) = sent(&out[2]);
    assert_eq!(h.acknowledgment_number, 1003);
    assert_eq!(tcb.recv(1500), Vec::<u8>::new());

    tcb.close();
    assert_eq!(tcb.state(), State::LastAck);
    assert!(tcb.is_write_closed());
    assert_eq!(tcb.snd().nxt, 5002);
    assert!(!tcb.on_tick(5, &mut out));
    let (h, data) = sent(&out[3]);
    assert!(h.fin && h.ack);
    assert_eq!((h.sequence_number, h.acknowledgment_number), (5001, 1003));
    assert!(data.is_empty());
    assert!(!tcb.is_fin_acked());

    let action = tcb.on_segment(&ack(1003, 5002, 1024), &[], 6, &mut out);
    assert!(matches!(action, Action::DeleteTCB));
    assert!(tcb.is_fin_acked());
    assert_eq!(out.len(), 4);
}

#[test]
fn active_open_and_first_write() {
    let mut out = Vec::new();
    let q = Quad { src: local(), dst: Dual { ipv4: 0x7f00_0001, port: 34343 } };
    let mut tcb = TCB::syn_sent(q, 7000);
    assert!(!tcb.on_tick(0, &mut out));
    let (h, _) = sent(&out[0]);
    assert!(h.syn && !h.ack);
    assert_eq!((h.sequence_number, h.mss), (7000, Some(536)));
    assert_eq!(h.destination, q.dst);

    let synack = Header { syn: true, ack: true, source: q.dst, ..seg(9000, 7001, 2000) };
    let action = tcb.on_segment(&synack, &[], 10, &mut out);
    assert!(matches!(action, Action::IsEstablished));
    assert_eq!(tcb.state(), State::Estab);
    let (h, _) = sent(&out[1]);
    assert!(h.ack && !h.syn);
    assert_eq!((h.sequence_number, h.acknowledgment_number), (7001, 9001));
    assert_eq!(h.window_size, 64240);
    assert_eq!((tcb.snd().una, tcb.snd().nxt, tcb.snd().wnd), (7001, 7001, 2000));
    assert_eq!((tcb.rcv().irs, tcb.rcv().nxt), (9000, 9001));

    assert_eq!(tcb.write(b"X"), 1);
    assert!(!tcb.on_tick(20, &mut out));
    let (h, data) = sent(&out[2]);
    assert!(h.ack && !h.fin && !h.syn);
    assert_eq!((h.sequence_number, h.acknowledgment_number), (7001, 9001));
    assert_eq!(data, b"X");
    assert_eq!(tcb.snd().nxt, 7002);
    let s = tcb.segment(0).unwrap();
    assert_eq!((s.sno, s.len, s.ack), (7001, 1, true));

    let before = tcb.cwnd();
    let peer_ack = Header { ack: true, source: q.dst, ..seg(9001, 7002, 2000) };
    let action = tcb.on_segment(&peer_ack, &[], 50, &mut out);
    assert_eq!(wakeup(&action), (false, true, false));
    assert_eq!(tcb.snd().una, 7002);
    assert_eq!(tcb.cwnd(), before + 536);
    assert_eq!(tcb.outgoing_len(), 0);
    assert_eq!(tcb.segments_len(), 0);
    assert_eq!(tcb.timeout(), None);
    assert_eq!((tcb.srtt(), tcb.rttvar(), tcb.rto()), (30, 15, 1000));
}

#[test]
fn syn_sent_resets_a_wrong_ack_and_aborts_on_reset() {
    let mut out = Vec::new();
    let mut tcb = TCB::syn_sent(quad(), 7000);
    let wrong = Header { syn: true, ..ack(9000, 7005, 100) };
    assert!(matches!(tcb.on_segment(&wrong, &[], 0, &mut out), Action::Noop));
    let (r, _) = sent(&out[0]);
    assert!(r.rst);
    assert_eq!(r.sequence_number, 7005);
    assert_eq!(tcb.state(), State::SynSent);
    let rst = Header { rst: true, ..ack(9000, 7001, 100) };
    assert!(matches!(tcb.on_segment(&rst, &[], 0, &mut out), Action::Reset));
    assert!(tcb.is_reset());
    assert_eq!(out.len(), 1);
}

#[test]
fn simultaneous_open_goes_through_syn_rcvd() {
    let mut out = Vec::new();
    let mut tcb = TCB::syn_sent(quad(), 7000);
    assert!(matches!(tcb.on_segment(&syn(9000, 100), &[], 0, &mut out), Action::Noop));
    assert_eq!(tcb.state(), State::SynRcvd);
    assert_eq!(tcb.rcv().nxt, 9001);
    let (h, _) = sent(&out[0]);
    assert!(h.syn && h.ack);
    assert_eq!(h.acknowledgment_number, 9001);
    assert_eq!(h.window_size, 64240);
    assert_eq!(tcb.snd().una, 7000);
    let action = tcb.on_segment(&ack(9001, 7001, 300), &[], 1, &mut out);
    assert!(matches!(action, Action::IsEstablished));
    assert_eq!(tcb.state(), State::Estab);
    assert_eq!(tcb.snd().wnd, 300);
}

#[test]
fn syn_rcvd_handles_reset_syn_and_bad_ack() {
    let mut out = Vec::new();
    let mut passive = TCB::listen(quad(), 5000);
    let _ = passive.on_segment(&syn(1000, 1024), &[], 0, &mut out);
    let rst = Header { rst: true, ..seg(1001, 0, 0) };
    assert!(matches!(passive.on_segment(&rst, &[], 0, &mut out), Action::RemoveFromPending));
    assert!(matches!(
        passive.on_segment(&syn(1001, 1024), &[], 0, &mut out),
        Action::RemoveFromPending
    ));
    assert!(matches!(passive.on_segment(&ack(1001, 4000, 1024), &[], 0, &mut out), Action::Noop));
    let (r, _) = sent(&out[0]);
    assert!(r.rst);
    assert_eq!(r.sequence_number, 4000);
    assert_eq!(passive.state(), State::SynRcvd);

    let mut active = TCB::syn_sent(quad(), 7000);
    let _ = active.on_segment(&syn(9000, 100), &[], 0, &mut out);
    let rst = Header { rst: true, ..seg(9001, 0, 0) };
    assert!(matches!(active.on_segment(&rst, &[], 0, &mut out), Action::ConnectionRefused));
}

#[test]
fn retransmission_backs_off_and_gives_up() {
    let mut out = Vec::new();
    let mut tcb = established(99, 1000, 4096);
    assert_eq!(tcb.write(b"0123456789"), 10);
    assert!(!tcb.on_tick(0, &mut out));
    let (first, data) = sent(&out[0]);
    assert_eq!((first.sequence_number, data.len()), (100, 10));
    assert_eq!(tcb.timeout(), Some(1000));
    assert!(!tcb.on_tick(999, &mut out));
    assert_eq!(out.len(), 1);

    assert!(!tcb.on_tick(1000, &mut out));
    assert_eq!(out.len(), 2);
    assert_eq!(sent(&out[1]), (first, b"0123456789".to_vec()));
    assert_eq!(tcb.rto(), 2000);
    let s = tcb.segment(0).unwrap();
    assert!(s.retry);
    assert_eq!((s.total_ret_time, s.sent), (1000, Some(1000)));
    assert_eq!(tcb.timeout(), Some(3000));

    let mut now = 3000;
    let mut total = 1000;
    let mut rto = 2000;
    loop {
        let deleted = tcb.on_tick(now, &mut out);
        total += rto;
        rto *= 2;
        assert_eq!(tcb.segment(0).unwrap().total_ret_time, total);
        assert_eq!(tcb.rto(), rto);
        assert_eq!(sent(out.last().unwrap()).1, b"0123456789");
        if total > 100_000 {
            assert!(deleted);
            assert!(tcb.is_reset());
            break;
        }
        assert!(!deleted);
        assert!(!tcb.is_reset());
        now += rto;
    }
    assert_eq!(total, 127_000);
}

#[test]
fn r2_can_be_raised() {
    let mut out = Vec::new();
    let mut tcb = established(99, 1000, 4096);
    tcb.set_r2(500);
    tcb.set_r2_syn(1);
    let _ = tcb.write(b"x");
    assert!(!tcb.on_tick(0, &mut out));
    assert!(tcb.on_tick(1000, &mut out));
    let mut tcb = established(99, 1000, 4096);
    tcb.set_r2(u64::MAX);
    let _ = tcb.write(b"x");
    let mut now = 0;
    for _ in 0..80 {
        assert!(!tcb.on_tick(now, &mut out));
        now = tcb.timeout().unwrap();
    }
    assert_eq!(tcb.rto(), u64::MAX);
    assert_eq!(tcb.timeout(), Some(u64::MAX));
}

#[test]
fn a_syn_gives_up_after_its_own_threshold() {
    let mut out = Vec::new();
    let mut tcb = TCB::syn_sent(quad(), 1);
    assert!(!tcb.on_tick(0, &mut out));
    let mut now = 1000;
    let mut rounds = 0;
    while !tcb.on_tick(now, &mut out) {
        now = tcb.timeout().unwrap();
        rounds += 1;
    }
    assert_eq!(rounds, 7);
    assert_eq!(tcb.segment(0).unwrap().total_ret_time, 255_000);
    assert!(sent(out.last().unwrap()).0.syn);
}

#[test]
fn zero_window_is_probed_with_backoff() {
    let mut out = Vec::new();
    let mut tcb = established(99, 1000, 4096);
    let n = out.len();
    let action = tcb.on_segment(&ack(1001, 100, 0), &[], 500, &mut out);
    assert_eq!(wakeup(&action), (false, false, false));
    assert_eq!(tcb.snd().wnd, 0);
    assert_eq!(tcb.probe_timeout(), Some(1500));
    assert!(!tcb.on_tick(1499, &mut out));
    assert_eq!(out.len(), n);
    assert!(!tcb.on_tick(1500, &mut out));
    assert_eq!(out.len(), n + 1);
    let (h, data) = sent(&out[n]);
    assert_eq!(h.sequence_number, 99);
    assert_eq!(data.len(), 1);
    assert!(h.ack && !h.fin && !h.syn);
    assert_eq!(tcb.rto(), 2000);
    assert_eq!(tcb.probe_timeout(), Some(3500));
    let _ = tcb.on_segment(&ack(1001, 100, 0), &[], 1600, &mut out);
    assert_eq!(tcb.probe_timeout(), Some(3600));
    assert!(!tcb.on_tick(3600, &mut out));
    assert_eq!(out.len(), n + 2);
    assert_eq!(tcb.probe_timeout(), Some(7600));
    let _ = tcb.on_segment(&ack(1001, 100, 10), &[], 3700, &mut out);
    assert_eq!(tcb.snd().wnd, 10);
    assert_eq!(tcb.probe_timeout(), None);
    assert!(!tcb.on_tick(100_000, &mut out));
    assert_eq!(out.len(), n + 2);
}

#[test]
fn sender_avoids_silly_windows() {
    let mut out = Vec::new();
    let mut tcb = established(99, 1000, 4096);
    assert_eq!(tcb.snd().max_wnd, 4096);
    let _ = tcb.on_segment(&ack(1001, 100, 200), &[], 0, &mut out);
    assert_eq!(tcb.snd().wnd, 200);
    let n = out.len();

    assert_eq!(tcb.write(&[7u8; 300]), 300);
    assert_eq!(tcb.available_data_len(), 300);
    assert!(!tcb.sws_allows_send());
    assert!(!tcb.on_tick(0, &mut out));
    assert_eq!(out.len(), n);
    assert_eq!(tcb.snd().nxt, 100);

    let mut small = established(99, 1000, 4096);
    let _ = small.on_segment(&ack(1001, 100, 200), &[], 0, &mut out);
    let n = out.len();
    assert_eq!(small.write(&[7u8; 100]), 100);
    assert!(small.sws_allows_send());
    assert!(!small.on_tick(0, &mut out));
    assert_eq!(out.len(), n + 1);
    assert_eq!(sent(&out[n]).1.len(), 100);

    let mut full = established(99, 1000, 4096);
    assert_eq!(full.write(&[7u8; 1000]), 1000);
    assert!(full.sws_allows_send());
    let n = out.len();
    assert!(!full.on_tick(0, &mut out));
    assert_eq!(sent(&out[n]).1.len(), 536);
    assert!(!full.on_tick(0, &mut out));
    assert_eq!(sent(&out[n + 1]).1.len(), 464);
    assert_eq!(sent(&out[n + 1]).0.sequence_number, 636);
    assert_eq!(full.segments_len(), 2);
    assert_eq!(full.sent_data_len(), 1000);
    assert_eq!(full.available_data_len(), 0);

    let mut half = established(99, 1000, 100);
    let _ = half.on_segment(&ack(1001, 100, 60), &[], 0, &mut out);
    assert_eq!((half.snd().wnd, half.snd().max_wnd), (60, 100));
    assert_eq!(half.write(&[7u8; 80]), 80);
    assert!(half.sws_allows_send());
    let n = out.len();
    assert!(!half.on_tick(0, &mut out));
    assert_eq!(sent(&out[n]).1.len(), 60);
}

#[test]
fn simultaneous_close() {
    let mut out = Vec::new();
    let mut tcb = established(99, 1000, 4096);
    tcb.close();
    assert_eq!(tcb.state(), State::FinWait1);
    assert!(!tcb.on_tick(10, &mut out));
    let (h, _) = sent(out.last().unwrap());
    assert!(h.fin);
    assert_eq!(h.sequence_number, 100);
    let action = tcb.on_segment(&fin(1001, 100, 4096), &[], 20, &mut out);
    assert_eq!(wakeup(&action), (false, false, false));
    assert_eq!(tcb.state(), State::Closing);
    assert_eq!(tcb.rcv().nxt, 1002);
    assert_eq!(sent(out.last().unwrap()).0.acknowledgment_number, 1002);
    assert_eq!(tcb.time_wait(), None);
    let _ = tcb.on_segment(&ack(1002, 101, 4096), &[], 30, &mut out);
    assert_eq!(tcb.state(), State::TimeWait);
    assert_eq!(tcb.time_wait(), Some(240_030));
    assert_eq!(tcb.timeout(), None);
    assert!(!tcb.on_tick(240_029, &mut out));
    assert!(tcb.on_tick(240_030, &mut out));
}

#[test]
fn active_close_through_fin_wait_2() {
    let mut out = Vec::new();
    let mut tcb = established(99, 1000, 4096);
    tcb.close();
    assert!(!tcb.on_tick(10, &mut out));
    let action = tcb.on_segment(&ack(1001, 101, 4096), &[], 20, &mut out);
    assert_eq!(wakeup(&action), (false, true, true));
    assert_eq!(tcb.state(), State::FinWait2);
    assert!(tcb.is_fin_acked());
    let action = tcb.on_segment(&ack(1001, 101, 4096), b"late", 25, &mut out);
    assert_eq!(wakeup(&action), (true, false, true));
    assert_eq!(tcb.recv(10), b"late");
    let n = out.len();
    let _ = tcb.on_segment(&fin(1005, 101, 4096), &[], 30, &mut out);
    assert_eq!(tcb.state(), State::TimeWait);
    assert_eq!(tcb.time_wait(), Some(240_030));
    assert_eq!(sent(&out[n]).0.acknowledgment_number, 1006);
    let n = out.len();
    let action = tcb.on_segment(&fin(1005, 101, 4096), &[], 100, &mut out);
    assert!(matches!(action, Action::Noop));
    assert_eq!(tcb.time_wait(), Some(240_030));
    assert_eq!(out.len(), n + 1);
    assert_eq!(sent(&out[n]).0.acknowledgment_number, 1006);
    let action = tcb.on_segment(&fin(1006, 101, 4096), &[], 200, &mut out);
    assert_eq!(wakeup(&action), (false, false, false));
    assert_eq!(tcb.state(), State::TimeWait);
    assert_eq!(tcb.time_wait(), Some(240_200));
    assert_eq!(out.len(), n + 2);
    assert_eq!(sent(&out[n + 1]).0.acknowledgment_number, 1006);
}

#[test]
fn fin_rides_on_the_last_data_segment() {
    let mut out = Vec::new();
    let mut tcb = established(99, 1000, 4096);
    assert_eq!(tcb.write(&[1u8; 600]), 600);
    tcb.close();
    assert_eq!(tcb.segments_len(), 0);
    assert_eq!(tcb.write(b"more"), 0);
    let n = out.len();
    assert!(!tcb.on_tick(0, &mut out));
    assert!(!tcb.on_tick(0, &mut out));
    assert!(!tcb.on_tick(0, &mut out));
    assert_eq!(out.len(), n + 2);
    let (a, da) = sent(&out[n]);
    let (b, db) = sent(&out[n + 1]);
    assert!(!a.fin && b.fin);
    assert_eq!((da.len(), db.len()), (536, 64));
    assert_eq!(tcb.snd().nxt, 100 + 600 + 1);
    assert_eq!(tcb.segment(1).unwrap().len, 65);
    assert_eq!(tcb.segment(1).unwrap().unacked_data_len(), 64);
    let _ = tcb.on_segment(&ack(1001, 701, 4096), &[], 5, &mut out);
    assert_eq!(tcb.state(), State::FinWait2);
}

#[test]
fn a_closed_window_takes_only_empty_segments() {
    let mut out = Vec::new();
    let mut tcb = established(99, 1000, 4096);
    let big = vec![9u8; 64240];
    let mut at = 1001u32;
    for chunk in big.chunks(1000) {
        let _ = tcb.on_segment(&ack(at, 100, 4096), chunk, 0, &mut out);
        at += chunk.len() as u32;
    }
    assert_eq!(tcb.rcv().wnd, 0);
    assert_eq!(tcb.incoming_len(), 64240);
    assert!(tcb.is_segment_valid(&ack(at, 100, 4096), 0));
    assert!(!tcb.is_segment_valid(&ack(at, 100, 4096), 1));
    assert!(!tcb.is_segment_valid(&ack(at + 1, 100, 4096), 0));
    let n = out.len();
    let action = tcb.on_segment(&ack(at, 100, 4096), b"x", 0, &mut out);
    assert!(matches!(action, Action::Noop));
    assert_eq!(out.len(), n + 1);
    let (h, data) = sent(&out[n]);
    assert!(h.ack && data.is_empty());
    assert_eq!((h.acknowledgment_number, h.window_size), (at, 0));
    assert_eq!(tcb.incoming_len(), 64240);
    let rst = Header { rst: true, ..ack(at, 100, 0) };
    assert!(matches!(tcb.on_segment(&rst, b"x", 0, &mut out), Action::Noop));
    assert_eq!(out.len(), n + 1);
    let action = tcb.on_segment(&ack(at, 100, 4096), &[], 0, &mut out);
    assert_eq!(wakeup(&action), (false, false, false));
    assert_eq!(out.len(), n + 2);
}

#[test]
fn an_ack_at_next_is_taken_and_one_beyond_is_answered() {
    let mut out = Vec::new();
    let mut tcb = established(99, 1000, 4096);
    let _ = tcb.write(b"abc");
    assert!(!tcb.on_tick(0, &mut out));
    let n = out.len();
    let action = tcb.on_segment(&ack(1001, 104, 4096), &[], 1, &mut out);
    assert!(matches!(action, Action::Noop));
    assert_eq!(out.len(), n + 1);
    let (h, _) = sent(&out[n]);
    assert_eq!((h.sequence_number, h.acknowledgment_number), (103, 1001));
    assert_eq!(tcb.snd().una, 100);
    assert_eq!(tcb.outgoing_len(), 3);
    let action = tcb.on_segment(&ack(1001, 103, 4096), &[], 2, &mut out);
    assert_eq!(wakeup(&action), (false, true, false));
    assert_eq!(tcb.snd().una, 103);
    assert_eq!(out.len(), n + 1);
    let action = tcb.on_segment(&ack(1001, 103, 4096), &[], 3, &mut out);
    assert_eq!(wakeup(&action), (false, false, false));
    let action = tcb.on_segment(&ack(1001, 100, 4096), &[], 3, &mut out);
    assert_eq!(wakeup(&action), (false, false, false));
    assert_eq!(tcb.snd().una, 103);
}

#[test]
fn a_fin_beyond_the_window_is_not_taken() {
    let mut out = Vec::new();
    let mut tcb = established(99, 1000, 4096);
    let fill = vec![1u8; 64000];
    let mut at = 1001u32;
    for chunk in fill.chunks(1000) {
        let _ = tcb.on_segment(&ack(at, 100, 4096), chunk, 0, &mut out);
        at += 1000;
    }
    assert_eq!(tcb.rcv().wnd, 240);
    let action = tcb.on_segment(&fin(at, 100, 4096), &[2u8; 300], 0, &mut out);
    assert_eq!(wakeup(&action), (true, false, false));
    assert_eq!(tcb.state(), State::Estab);
    assert!(!tcb.is_read_closed());
    assert_eq!(tcb.rcv().nxt, at + 240);
    assert_eq!(tcb.rcv().wnd, 0);
    assert_eq!(tcb.incoming_len(), 64240);
    let _ = tcb.recv(64240);
    assert_eq!(tcb.rcv().wnd, 64240);
    let action = tcb.on_segment(&fin(at, 100, 4096), &[2u8; 300], 0, &mut out);
    assert_eq!(wakeup(&action), (true, false, false));
    assert_eq!(tcb.state(), State::CloseWait);
    assert_eq!(tcb.rcv().nxt, at + 301);
    assert_eq!(tcb.recv(100), vec![2u8; 60]);
}

#[test]
fn a_fin_that_fills_the_window_exactly_is_taken() {
    let mut out = Vec::new();
    let mut tcb = established(99, 1000, 4096);
    let mut at = 1001u32;
    for chunk in vec![1u8; 64000].chunks(1000) {
        let _ = tcb.on_segment(&ack(at, 100, 4096), chunk, 0, &mut out);
        at += 1000;
    }
    let _ = tcb.on_segment(&fin(at, 100, 4096), &[2u8; 240], 0, &mut out);
    assert_eq!(tcb.state(), State::CloseWait);
    assert_eq!(tcb.rcv().nxt, at + 241);
}

#[test]
fn text_is_taken_in_order_only() {
    let mut out = Vec::new();
    let mut tcb = established(99, 1000, 4096);
    let _ = tcb.on_segment(&ack(1001, 100, 4096), b"abcdef", 0, &mut out);
    let n = out.len();
    let action = tcb.on_segment(&ack(1004, 100, 4096), b"defghi", 0, &mut out);
    assert_eq!(wakeup(&action), (true, false, false));
    assert_eq!(tcb.rcv().nxt, 1010);
    assert_eq!(out.len(), n + 1);
    let action = tcb.on_segment(&ack(1012, 100, 4096), b"lmn", 0, &mut out);
    assert_eq!(wakeup(&action), (false, false, false));
    assert_eq!(tcb.rcv().nxt, 1010);
    assert_eq!(out.len(), n + 1);
    let action = tcb.on_segment(&fin(1012, 100, 4096), b"lmn", 0, &mut out);
    assert_eq!(wakeup(&action), (false, false, false));
    assert_eq!(tcb.state(), State::Estab);
    let action = tcb.on_segment(&ack(1001, 100, 4096), b"abc", 0, &mut out);
    assert!(matches!(action, Action::Noop));
    assert_eq!(out.len(), n + 2);
    assert_eq!(tcb.recv(4), b"abcd");
    assert_eq!(tcb.recv(100), b"efghi");
    assert_eq!(tcb.recv(100), b"");
}

#[test]
fn text_is_taken_across_the_wrap() {
    let mut out = Vec::new();
    let mut tcb = established(u32::MAX - 1, u32::MAX - 3, 4096);
    assert_eq!(tcb.rcv().nxt, u32::MAX - 2);
    assert_eq!((tcb.snd().una, tcb.snd().nxt), (u32::MAX, u32::MAX));
    let _ = tcb.on_segment(&ack(u32::MAX - 2, u32::MAX, 4096), b"wrap me", 0, &mut out);
    assert_eq!(tcb.rcv().nxt, 4);
    assert_eq!(tcb.recv(100), b"wrap me");
    let _ = tcb.write(b"12345");
    assert!(!tcb.on_tick(0, &mut out));
    assert_eq!(tcb.snd().nxt, 4);
    assert!(wrapping_lt(tcb.snd().una, tcb.snd().nxt));
    let s = tcb.segment(0).unwrap();
    assert_eq!((s.sno, s.end(), s.unacked_len()), (u32::MAX, 3, 5));
    let _ = tcb.on_segment(&ack(4, 1, 4096), &[], 1, &mut out);
    assert_eq!(tcb.snd().una, 1);
    let s = tcb.segment(0).unwrap();
    assert_eq!((s.sno, s.una, s.unacked_len(), s.unacked_data_len()), (u32::MAX, 1, 3, 3));
    assert_eq!(tcb.outgoing_len(), 3);
    let _ = tcb.on_segment(&ack(4, 4, 4096), &[], 2, &mut out);
    assert_eq!((tcb.snd().una, tcb.segments_len(), tcb.outgoing_len()), (4, 0, 0));
}

#[test]
fn a_partial_ack_trims_the_head_and_retransmits_from_there() {
    let mut out = Vec::new();
    let mut tcb = established(99, 1000, 4096);
    let _ = tcb.write(b"0123456789");
    assert!(!tcb.on_tick(0, &mut out));
    let _ = tcb.on_segment(&ack(1001, 104, 4096), &[], 100, &mut out);
    let s = tcb.segment(0).unwrap();
    assert_eq!((s.sno, s.una, s.len), (100, 104, 10));
    assert_eq!(tcb.outgoing_len(), 6);
    assert_eq!(tcb.sent_data_len(), 6);
    assert_eq!((tcb.srtt(), tcb.rto()), (100, 1000));
    assert_eq!(tcb.timeout(), Some(1000));
    let n = out.len();
    assert!(!tcb.on_tick(1000, &mut out));
    let (h, data) = sent(&out[n]);
    assert_eq!(h.sequence_number, 104);
    assert_eq!(data, b"456789");
    let _ = tcb.on_segment(&ack(1001, 110, 4096), &[], 1100, &mut out);
    assert_eq!(tcb.segments_len(), 0);
    assert_eq!((tcb.srtt(), tcb.rto()), (100, 2000));
}

#[test]
fn one_ack_covers_several_segments() {
    let mut out = Vec::new();
    let mut tcb = established(99, 1000, 4096);
    let _ = tcb.write(&[5u8; 1500]);
    assert!(!tcb.on_tick(0, &mut out));
    assert!(!tcb.on_tick(10, &mut out));
    assert!(!tcb.on_tick(20, &mut out));
    assert_eq!(tcb.segments_len(), 3);
    assert_eq!(tcb.snd().nxt, 1600);
    let before = tcb.cwnd();
    let action = tcb.on_segment(&ack(1001, 1300, 4096), &[], 50, &mut out);
    assert_eq!(wakeup(&action), (false, true, false));
    assert_eq!(tcb.segments_len(), 1);
    let s = tcb.segment(0).unwrap();
    assert_eq!((s.sno, s.una, s.len), (1172, 1300, 428));
    assert_eq!(tcb.outgoing_len(), 300);
    assert_eq!(tcb.cwnd(), before + 536);
    assert_eq!(tcb.srtt(), 30);
    assert_eq!(tcb.timeout(), Some(1020));
}

#[test]
fn rto_follows_the_estimator() {
    let mut tcb = TCB::listen(quad(), 0);
    tcb.compute_rto(300);
    assert_eq!((tcb.srtt(), tcb.rttvar(), tcb.rto()), (300, 150, 1000));
    let mut tcb = TCB::listen(quad(), 0);
    tcb.compute_rto(2000);
    assert_eq!((tcb.srtt(), tcb.rttvar(), tcb.rto()), (2000, 1000, 6000));
    tcb.compute_rto(1000);
    assert_eq!((tcb.srtt(), tcb.rttvar(), tcb.rto()), (1875, 1000, 5875));
    tcb.compute_rto(1875);
    assert_eq!((tcb.srtt(), tcb.rttvar(), tcb.rto()), (1875, 750, 4875));
    let mut tcb = TCB::listen(quad(), 0);
    tcb.compute_rto(990);
    assert_eq!((tcb.srtt(), tcb.rttvar(), tcb.rto()), (990, 495, 2970));
    let mut tcb = TCB::listen(quad(), 0);
    tcb.compute_rto(0);
    assert_eq!((tcb.srtt(), tcb.rttvar(), tcb.rto()), (0, 0, 1000));
    tcb.compute_rto(u64::MAX);
    assert_eq!(tcb.rto(), u64::MAX);
}

#[test]
fn congestion_window_grows_and_never_shrinks() {
    let mut out = Vec::new();
    let mut tcb = established(99, 1000, 4096);
    let mut last = tcb.cwnd();
    assert_eq!(last, 2144);
    let mut una = 100u32;
    for round in 0..20u64 {
        let _ = tcb.write(b"x");
        assert!(!tcb.on_tick(round * 10, &mut out));
        una += 1;
        let _ = tcb.on_segment(&ack(1001, una, 4096), &[], round * 10 + 1, &mut out);
        assert_eq!(tcb.cwnd(), last + 536);
        last = tcb.cwnd();
        let _ = tcb.on_segment(&ack(1001, una, 4096), &[], round * 10 + 2, &mut out);
        assert_eq!(tcb.cwnd(), last);
    }
    let mut tcb = TCB::listen(quad(), 0);
    tcb.congestion_control();
    assert_eq!(tcb.cwnd(), 2144 + 536);
}

#[test]
fn the_receive_window_reopens_in_large_steps() {
    let mut out = Vec::new();
    let mut tcb = established(99, 1000, 4096);
    let _ = tcb.on_segment(&ack(1001, 100, 4096), &[3u8; 1000], 0, &mut out);
    assert_eq!(tcb.rcv().wnd, 63240);
    assert_eq!(tcb.recv(100).len(), 100);
    assert_eq!(tcb.rcv().wnd, 63240);
    assert_eq!(tcb.recv(435).len(), 435);
    assert_eq!(tcb.rcv().wnd, 63240);
    assert_eq!(tcb.recv(1).len(), 1);
    assert_eq!(tcb.rcv().wnd, 63776);
    assert_eq!(tcb.recv(10_000).len(), 464);
    assert_eq!(tcb.rcv().wnd, 63776);
    assert_eq!(tcb.incoming_len(), 0);
}

#[test]
fn writes_stop_at_the_capacity() {
    let mut tcb = established(99, 1000, 10);
    assert!(!tcb.is_outgoing_full());
    assert_eq!(tcb.write(b"0123456"), 7);
    assert_eq!(tcb.write(b"789abc"), 3);
    assert!(tcb.is_outgoing_full());
    assert_eq!(tcb.write(b"d"), 0);
    assert_eq!(tcb.outgoing_len(), 10);
    let mut fresh = TCB::syn_sent(quad(), 1);
    assert!(fresh.is_outgoing_full());
    assert_eq!(fresh.write(b"early"), 0);
}

#[test]
fn a_reset_aborts_an_established_connection() {
    let mut out = Vec::new();
    let mut tcb = established(99, 1000, 4096);
    let n = out.len();
    let rst = Header { rst: true, ..seg(1001, 0, 0) };
    assert!(matches!(tcb.on_segment(&rst, &[], 0, &mut out), Action::Reset));
    assert!(tcb.is_reset());
    assert_eq!(out.len(), n);
    let mut tcb = established(99, 1000, 4096);
    let far = Header { rst: true, ..seg(1001 + 70_000, 0, 0) };
    assert!(matches!(tcb.on_segment(&far, &[], 0, &mut out), Action::Noop));
    assert!(!tcb.is_reset());
    assert_eq!(out.len(), n);
}

#[test]
fn a_syn_on_an_established_connection_is_reset() {
    let mut out = Vec::new();
    let mut tcb = established(99, 1000, 4096);
    let n = out.len();
    let action = tcb.on_segment(&syn(1001, 100), &[], 0, &mut out);
    assert!(matches!(action, Action::Reset));
    assert!(tcb.is_reset());
    let (r, _) = sent(&out[n]);
    assert!(r.rst && r.ack);
    assert_eq!((r.sequence_number, r.acknowledgment_number), (0, 1002));
}

#[test]
fn a_segment_without_ack_is_dropped() {
    let mut out = Vec::new();
    let mut tcb = established(99, 1000, 4096);
    let n = out.len();
    assert!(matches!(tcb.on_segment(&seg(1001, 0, 0), b"data", 0, &mut out), Action::Noop));
    assert_eq!(tcb.incoming_len(), 0);
    assert_eq!(out.len(), n);
}

#[test]
fn an_unacceptable_segment_is_answered_with_an_ack() {
    let mut out = Vec::new();
    let mut tcb = established(99, 1000, 4096);
    let n = out.len();
    let action = tcb.on_segment(&ack(500, 100, 4096), b"old", 0, &mut out);
    assert!(matches!(action, Action::Noop));
    let (h, _) = sent(&out[n]);
    assert_eq!((h.sequence_number, h.acknowledgment_number, h.window_size), (100, 1001, 64240));
    assert!(h.ack && !h.rst);
}

#[test]
fn the_window_follows_newer_segments_only() {
    let mut out = Vec::new();
    let mut tcb = established(99, 1000, 4096);
    let _ = tcb.on_segment(&ack(1001, 100, 3000), b"ab", 0, &mut out);
    assert_eq!((tcb.snd().wnd, tcb.snd().wl1, tcb.snd().wl2), (3000, 1001, 100));
    let _ = tcb.on_segment(&ack(1003, 100, 2000), &[], 0, &mut out);
    assert_eq!((tcb.snd().wnd, tcb.snd().wl1), (2000, 1003));
    let _ = tcb.on_segment(&ack(1002, 100, 1000), b"b", 0, &mut out);
    assert_eq!((tcb.snd().wnd, tcb.snd().wl1), (2000, 1003));
    let _ = tcb.on_segment(&ack(1003, 100, 9000), &[], 0, &mut out);
    assert_eq!((tcb.snd().wnd, tcb.snd().max_wnd), (4096, 4096));
}

#[test]
fn last_ack_ignores_an_old_acknowledgment() {
    let mut out = Vec::new();
    let mut tcb = established(99, 1000, 4096);
    let _ = tcb.on_segment(&fin(1001, 100, 4096), &[], 0, &mut out);
    tcb.close();
    assert!(!tcb.on_tick(0, &mut out));
    let action = tcb.on_segment(&ack(1002, 100, 4096), &[], 1, &mut out);
    assert_eq!(wakeup(&action), (false, false, false));
    assert_eq!(tcb.state(), State::LastAck);
    assert_eq!(tcb.segments_len(), 1);
    let action = tcb.on_segment(&fin(1002, 100, 4096), &[], 1, &mut out);
    assert_eq!(wakeup(&action), (false, false, false));
    assert_eq!(tcb.state(), State::LastAck);
    assert_eq!(tcb.rcv().nxt, 1002);
}

#[test]
fn what_is_in_flight_matches_the_queue() {
    let mut out = Vec::new();
    let mut tcb = established(99, 1000, 4096);
    let _ = tcb.write(&[1u8; 700]);
    assert!(!tcb.on_tick(0, &mut out));
    let _ = tcb.write(&[1u8; 50]);
    assert!(!tcb.on_tick(0, &mut out));
    tcb.close();
    let mut data = 0;
    let mut all = 0;
    for i in 0..tcb.segments_len() {
        let s = tcb.segment(i).unwrap();
        data += s.unacked_data_len();
        all += s.unacked_len();
    }
    assert_eq!(data, tcb.sent_data_len());
    assert!(data <= tcb.outgoing_len());
    assert_eq!(tcb.snd().nxt.wrapping_sub(tcb.snd().una) as usize, all);
    assert!(!wrapping_lt(tcb.snd().nxt, tcb.snd().una));
    assert!(tcb.rto() >= 1000);
}

#[test]
fn a_clone_is_equal_in_every_field_read() {
    let mut out = Vec::new();
    let mut tcb = established(99, 1000, 4096);
    let _ = tcb.write(b"abc");
    assert!(!tcb.on_tick(3, &mut out));
    let _ = tcb.on_segment(&ack(1001, 100, 4096), b"in", 4, &mut out);
    let mut copy = tcb.clone();
    assert_eq!(copy.state(), tcb.state());
    assert_eq!(copy.snd(), tcb.snd());
    assert_eq!(copy.rcv(), tcb.rcv());
    assert_eq!(copy.timeout(), tcb.timeout());
    assert_eq!(copy.segments_len(), 1);
    assert_eq!(copy.outgoing_len(), 3);
    assert_eq!(copy.recv(10), tcb.recv(10));
}

#[test]
fn new_data_stays_within_the_offered_window() {
    let mut out = Vec::new();
    let mut tcb = established(99, 1000, 1000);
    assert_eq!(tcb.write(&[4u8; 2000]), 1000);
    for now in 0..5 {
        assert!(!tcb.on_tick(now, &mut out));
        let flight = tcb.snd().nxt.wrapping_sub(tcb.snd().una);
        assert!(flight <= u32::from(tcb.snd().wnd));
        assert!(!wrapping_lt(tcb.snd().nxt, tcb.snd().una));
    }
    assert_eq!(tcb.snd().nxt, 1100);
    assert_eq!(out.len(), 2);
    let fresh = TCB::syn_sent(quad(), 7);
    assert_eq!(fresh.snd().wnd, 0);
    assert_eq!(fresh.snd().nxt.wrapping_sub(fresh.snd().una), 1);
}

#[test]
fn a_syn_that_names_the_own_syn_establishes_without_the_ack_flag() {
    let mut out = Vec::new();
    let mut tcb = TCB::syn_sent(quad(), 7000);
    let h = Header { syn: true, ..seg(9000, 7001, 500) };
    assert!(matches!(tcb.on_segment(&h, &[], 0, &mut out), Action::IsEstablished));
    assert_eq!(tcb.state(), State::Estab);
    assert_eq!((tcb.snd().una, tcb.snd().nxt, tcb.snd().wnd), (7001, 7001, 500));
    assert_eq!(tcb.segments_len(), 0);
    let (a, _) = sent(&out[0]);
    assert!(a.ack && !a.syn);
    assert_eq!((a.sequence_number, a.acknowledgment_number, a.window_size), (7001, 9001, 64240));

    let mut other = TCB::syn_sent(quad(), 7000);
    let h = Header { syn: true, ..seg(9000, 7000, 500) };
    assert!(matches!(other.on_segment(&h, &[], 0, &mut out), Action::Noop));
    assert_eq!(other.state(), State::SynRcvd);
    assert_eq!(other.snd().una, 7000);
    let mut far = TCB::syn_sent(quad(), 7000);
    let h = Header { syn: true, ..seg(9000, 9000, 500) };
    assert!(matches!(far.on_segment(&h, &[], 0, &mut out), Action::Noop));
    assert_eq!(far.state(), State::SynRcvd);
    assert_eq!((far.snd().una, far.snd().nxt), (7000, 7001));
}
