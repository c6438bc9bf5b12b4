use handshake::codec::{
    decode, encode, find_mss, write_ack, write_data, write_reset, write_synack, Header, TcpOption,
};
use handshake::types::{Dual, Quad};

fn local() -> Dual {
    Dual { ipv4: 0x0a0a_0a0a, port: 9090 }
}

fn peer() -> Dual {
    Dual { ipv4: 0x0a0a_0a01, port: 40000 }
}

fn quad() -> Quad {
    Quad { src: local(), dst: peer() }
}

fn header() -> Header {
    Header {
        source: peer(),
        destination: local(),
        sequence_number: 0x0102_0304,
        acknowledgment_number: 0xa1a2_a3a4,
        window_size: 0x1234,
        fin: false,
        syn: false,
        rst: false,
        psh: false,
        ack: true,
        urg: false,
        mss: None,
    }
}

/// The ones' complement sum of 16-bit words that the checksums are made of.
fn ones_sum(bytes: &[u8]) -> u16 {
    let mut sum: u32 = 0;
    let mut i = 0;
    while i + 1 < bytes.len() {
        sum += u32::from(u16::from_be_bytes([bytes[i], bytes[i + 1]]));
        i += 2;
    }
    if i < bytes.len() {
        sum += u32::from(bytes[i]) << 8;
    }
    while sum > 0xffff {
        sum = (sum & 0xffff) + (sum >> 16);
    }
    sum as u16
}

#[test]
fn encode_lays_out_both_headers() {
    let frame = encode(&header(), b"hi");
    assert_eq!(frame.len(), 42);
    assert_eq!(frame[0], 0x45);
    assert_eq!(frame[1], 0);
    assert_eq!(&frame[2..4], &[0, 42]);
    assert_eq!(&frame[4..8], &[0, 0, 64, 0]);
    assert_eq!(frame[8], 32);
    assert_eq!(frame[9], 6);
    assert_eq!(&frame[12..16], &[10, 10, 10, 1]);
    assert_eq!(&frame[16..20], &[10, 10, 10, 10]);
    assert_eq!(&frame[20..22], &40000u16.to_be_bytes());
    assert_eq!(&frame[22..24], &9090u16.to_be_bytes());
    assert_eq!(&frame[24..28], &[1, 2, 3, 4]);
    assert_eq!(&frame[28..32], &[0xa1, 0xa2, 0xa3, 0xa4]);
    assert_eq!(frame[32], 0x50);
    assert_eq!(frame[33], 0x10);
    assert_eq!(&frame[34..36], &[0x12, 0x34]);
    assert_eq!(&frame[38..40], &[0, 0]);
    assert_eq!(&frame[40..], b"hi");
}

#[test]
fn encode_fills_in_valid_checksums() {
    let frame = encode(&header(), b"odd");
    assert_eq!(ones_sum(&frame[..20]), 0xffff);
    let mut pseudo = Vec::new();
    pseudo.extend_from_slice(&frame[12..20]);
    pseudo.extend_from_slice(&[0, 6]);
    pseudo.extend_from_slice(&((frame.len() - 20) as u16).to_be_bytes());
    pseudo.extend_from_slice(&frame[20..]);
    assert_eq!(ones_sum(&pseudo), 0xffff);
    assert_ne!(&frame[36..38], &[0, 0]);
}

#[test]
fn encode_agrees_with_the_outside_parser() {
    let mut h = header();
    h.syn = true;
    h.mss = Some(1460);
    let frame = encode(&h, b"");
    let ip = etherparse::Ipv4HeaderSlice::from_slice(&frame).unwrap();
    assert_eq!(ip.ttl(), 32);
    assert_eq!(ip.protocol(), 6);
    assert_eq!(ip.total_len(), 44);
    assert!(ip.dont_fragment());
    let tcp = etherparse::TcpHeaderSlice::from_slice(&frame[20..]).unwrap();
    assert!(tcp.syn() && tcp.ack() && !tcp.fin() && !tcp.rst());
    assert_eq!(tcp.data_offset(), 6);
    assert_eq!(tcp.options(), &[2, 4, 0x05, 0xb4]);
    assert_eq!(tcp.checksum(), tcp.calc_checksum_ipv4(&ip, &[]).unwrap());
}

#[test]
fn decode_inverts_encode() {
    for mss in [None, Some(0u16), Some(536), Some(65535)] {
        for flags in 0u8..64 {
            let h = Header {
                fin: flags & 1 != 0,
                syn: flags & 2 != 0,
                rst: flags & 4 != 0,
                psh: flags & 8 != 0,
                ack: flags & 16 != 0,
                urg: flags & 32 != 0,
                mss,
                ..header()
            };
            let payload = b"some payload";
            let frame = encode(&h, payload);
            let (g, offset) = decode(&frame).unwrap();
            assert_eq!(g, h);
            assert_eq!(offset, if mss.is_some() { 44 } else { 40 });
            assert_eq!(&frame[offset..], payload);
        }
    }
}

#[test]
fn encode_inverts_decode_on_its_own_frames() {
    let mut h = header();
    h.fin = true;
    let frame = encode(&h, b"tail");
    let (g, offset) = decode(&frame).unwrap();
    assert_eq!(encode(&g, &frame[offset..]), frame);
}

#[test]
fn decode_keeps_extreme_field_values() {
    let h = Header {
        source: Dual { ipv4: u32::MAX, port: u16::MAX },
        destination: Dual { ipv4: 0, port: 0 },
        sequence_number: u32::MAX,
        acknowledgment_number: 0,
        window_size: u16::MAX,
        ..header()
    };
    let (g, _) = decode(&encode(&h, &[])).unwrap();
    assert_eq!(g, h);
}

#[test]
fn decode_drops_malformed_frames() {
    let good = encode(&header(), b"x");
    assert!(decode(&good).is_some());
    assert!(decode(&[]).is_none());
    assert!(decode(&good[..19]).is_none());
    assert!(decode(&good[..39]).is_none());
    let mut v6 = good.clone();
    v6[0] = 0x65;
    assert!(decode(&v6).is_none());
    let mut short_ihl = good.clone();
    short_ihl[0] = 0x44;
    assert!(decode(&short_ihl).is_none());
    let mut small_total = good.clone();
    small_total[2] = 0;
    small_total[3] = 19;
    assert!(decode(&small_total).is_none());
    let mut short_offset = good.clone();
    short_offset[32] = 0x40;
    assert!(decode(&short_offset).is_none());
    let mut long_offset = good.clone();
    long_offset[32] = 0xf0;
    assert!(decode(&long_offset).is_none());
}

#[test]
fn decode_skips_ip_options() {
    let plain = encode(&header(), b"zz");
    let mut frame = Vec::new();
    frame.push(0x46);
    frame.extend_from_slice(&plain[1..2]);
    frame.extend_from_slice(&46u16.to_be_bytes());
    frame.extend_from_slice(&plain[4..20]);
    frame.extend_from_slice(&[1, 1, 1, 1]);
    frame.extend_from_slice(&plain[20..]);
    let (h, offset) = decode(&frame).unwrap();
    assert_eq!(h, header());
    assert_eq!(offset, 44);
    assert_eq!(&frame[offset..], b"zz");
}

#[test]
fn decode_finds_the_mss_among_other_options() {
    let plain = encode(&header(), b"");
    let mut frame = plain[..40].to_vec();
    frame[3] = 48;
    frame[32] = 0x70;
    frame.extend_from_slice(&[1, 1, 2, 4, 0x05, 0xb4, 0, 0]);
    let (h, offset) = decode(&frame).unwrap();
    assert_eq!(h.mss, Some(1460));
    assert_eq!(offset, 48);
    let mut none = plain[..40].to_vec();
    none[3] = 44;
    none[32] = 0x60;
    none.extend_from_slice(&[1, 1, 1, 0]);
    assert_eq!(decode(&none).unwrap().0.mss, None);
    let mut unknown = plain[..40].to_vec();
    unknown[3] = 48;
    unknown[32] = 0x70;
    unknown.extend_from_slice(&[99, 4, 0, 0, 2, 4, 0x05, 0xb4]);
    assert_eq!(decode(&unknown).unwrap().0.mss, None);
}

#[test]
fn write_reset_answers_an_ack_with_its_number() {
    let mut h = header();
    h.ack = true;
    let (r, offset) = decode(&write_reset(&h, b"abc")).unwrap();
    assert_eq!(r.source, local());
    assert_eq!(r.destination, peer());
    assert_eq!(r.sequence_number, 0xa1a2_a3a4);
    assert_eq!(r.acknowledgment_number, 0);
    assert!(r.rst && !r.ack && !r.syn && !r.fin);
    assert_eq!(r.window_size, 1024);
    assert_eq!(offset, 40);
}

#[test]
fn write_reset_acknowledges_a_segment_without_ack() {
    let mut h = header();
    h.ack = false;
    h.syn = true;
    h.fin = true;
    h.sequence_number = u32::MAX - 1;
    let (r, _) = decode(&write_reset(&h, b"abc")).unwrap();
    assert_eq!(r.sequence_number, 0);
    assert_eq!(r.acknowledgment_number, 3);
    assert!(r.rst && r.ack);
}

#[test]
fn write_synack_and_ack_set_their_flags() {
    let (s, _) = decode(&write_synack(&quad(), 5000, 1001, 777)).unwrap();
    assert_eq!(s.source, local());
    assert_eq!(s.destination, peer());
    assert_eq!((s.sequence_number, s.acknowledgment_number, s.window_size), (5000, 1001, 777));
    assert!(s.syn && s.ack && !s.fin && !s.rst && !s.psh && !s.urg);
    assert_eq!(s.mss, None);
    let (a, _) = decode(&write_ack(&quad(), 5001, 1002, 64239)).unwrap();
    assert_eq!((a.sequence_number, a.acknowledgment_number, a.window_size), (5001, 1002, 64239));
    assert!(a.ack && !a.syn && !a.fin && !a.rst);
}

#[test]
fn write_data_carries_data_flags_and_mss() {
    let frame = write_data(quad(), 7, 9, 11, b"payload", true, false, true, None);
    let (h, offset) = decode(&frame).unwrap();
    assert!(h.fin && h.ack && !h.syn);
    assert_eq!(&frame[offset..], b"payload");
    let syn = write_data(quad(), 7000, 0, 64240, b"", false, true, false, Some(536));
    let (h, offset) = decode(&syn).unwrap();
    assert!(h.syn && !h.ack && !h.fin);
    assert_eq!(h.mss, Some(536));
    assert_eq!(offset, 44);
    assert_eq!(syn.len(), 44);
}

#[test]
fn write_data_takes_the_largest_payload() {
    let data = vec![0xabu8; 65491];
    let frame = write_data(quad(), 1, 2, 3, &data, false, false, true, Some(1));
    assert_eq!(frame.len(), 65535);
    let (_, offset) = decode(&frame).unwrap();
    assert_eq!(&frame[offset..], &data[..]);
}

#[test]
fn header_quad_puts_the_local_end_first() {
    assert_eq!(header().quad(), quad());
}

#[test]
fn find_mss_takes_the_first_size() {
    assert_eq!(find_mss(&vec![]), None);
    assert_eq!(find_mss(&vec![TcpOption::Noop, TcpOption::WindowScale(7)]), None);
    assert_eq!(
        find_mss(&vec![
            TcpOption::Noop,
            TcpOption::Timestamp(1, 2),
            TcpOption::MaximumSegmentSize(1460),
            TcpOption::MaximumSegmentSize(9),
        ]),
        Some(1460)
    );
    assert_eq!(find_mss(&vec![TcpOption::Malformed]), None);
    assert_eq!(
        find_mss(&vec![TcpOption::SelectiveAcknowledgementPermitted, TcpOption::MaximumSegmentSize(0)]),
        Some(0)
    );
}

#[test]
fn decode_walks_every_kind_of_option() {
    let plain = encode(&header(), b"");
    let mut frame = plain[..40].to_vec();
    frame[3] = 80;
    frame[32] = 0xf0;
    let mut options = vec![4u8, 2, 3, 3, 9, 8, 10, 0, 0, 0, 1, 0, 0, 0, 2];
    options.extend_from_slice(&[5, 10, 0, 0, 0, 1, 0, 0, 0, 2]);
    options.extend_from_slice(&[2, 4, 0x02, 0x18]);
    options.extend_from_slice(&[1; 11]);
    assert_eq!(options.len(), 40);
    frame.extend_from_slice(&options);
    let (h, offset) = decode(&frame).unwrap();
    assert_eq!(h.mss, Some(536));
    assert_eq!(offset, 80);
}
