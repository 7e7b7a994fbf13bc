use udp_prepend::relay::{Dispatch, ReaderAction, UdpPrepend, UpstreamEvent};
use udp_prepend::session::{PeerAddr, Resolved, SessionTable, UpstreamInfo};
use udp_prepend::transform::{fill_header, new_buffer, InvalidMode, Mode, BUFFER_SIZE};

fn addr(port: u16) -> PeerAddr {
    PeerAddr::v4(127, 0, 0, 1, port)
}

fn receive(buf: &mut Vec<u8>, offset: usize, data: &[u8]) -> usize {
    buf[offset..offset + data.len()].copy_from_slice(data);
    data.len()
}

fn forwarded(d: Dispatch) -> (UpstreamInfo, bool, usize, usize) {
    match d {
        Dispatch::Forward { info, created, start, end } => (info, created, start, end),
        other => panic!("expected a forward, got {:?}", other),
    }
}

fn sent(a: ReaderAction) -> (PeerAddr, usize, usize) {
    match a {
        ReaderAction::Send { to, start, end } => (to, start, end),
        other => panic!("expected a send, got {:?}", other),
    }
}

#[test]
fn work_correctly() {
    let mut encode = UdpPrepend::new(16, Mode::Encode, addr(54321), addr(54322), 60);
    let mut decode = UdpPrepend::new(16, Mode::Decode, addr(54322), addr(54323), 60);
    let sender = addr(54320);
    // the ephemeral upstream-facing socket of the encode relay's session
    let encode_session_socket = addr(40001);

    let mut buf = new_buffer();
    let off = encode.receive_offset();
    let n = receive(&mut buf, off, "hello".as_bytes());
    let (enc_info, created, start, end) = forwarded(encode.dispatch(sender, &mut buf, n));
    assert!(created);
    assert_eq!(enc_info.downstream_addr, sender);
    let wire = buf[start..end].to_vec();
    assert_eq!(wire.len(), 21);

    let mut buf = new_buffer();
    let off = decode.receive_offset();
    let n = receive(&mut buf, off, &wire);
    let (dec_info, created, start, end) = forwarded(decode.dispatch(encode_session_socket, &mut buf, n));
    assert!(created);
    assert_eq!("hello", String::from_utf8_lossy(&buf[start..end]));

    let reply = "hello world response, a very long string for testing";
    let reader = decode.session_reader(dec_info);
    let mut buf = new_buffer();
    let n = receive(&mut buf, reader.receive_offset(), reply.as_bytes());
    let (to, start, end) = sent(reader.on_event(UpstreamEvent::Received(n), &mut buf));
    assert_eq!(to, encode_session_socket);
    let wire = buf[start..end].to_vec();

    let reader = encode.session_reader(enc_info);
    let mut buf = new_buffer();
    let n = receive(&mut buf, reader.receive_offset(), &wire);
    let (to, start, end) = sent(reader.on_event(UpstreamEvent::Received(n), &mut buf));
    assert_eq!(to, sender);
    assert_eq!(
        "hello world response, a very long string for testing",
        String::from_utf8_lossy(&buf[start..end])
    );
}

#[test]
fn offsets_of_each_mode() {
    assert_eq!(Mode::Encode.build_begin_position(4), (4, 0));
    assert_eq!(Mode::Decode.build_begin_position(4), (0, 4));
    assert_eq!(Mode::Encode.reverse(), Mode::Decode);
    assert_eq!(Mode::Decode.reverse(), Mode::Encode);
}

#[test]
fn mode_names_in_any_case() {
    assert_eq!(Mode::parse("encode"), Ok(Mode::Encode));
    assert_eq!(Mode::parse("EnCoDe"), Ok(Mode::Encode));
    assert_eq!(Mode::parse("decode"), Ok(Mode::Decode));
    assert_eq!(Mode::parse("DECODE"), Ok(Mode::Decode));
    assert_eq!("Decode".parse::<Mode>(), Ok(Mode::Decode));
    assert_eq!(Mode::parse("encoder"), Err(InvalidMode));
    assert_eq!(Mode::parse(""), Err(InvalidMode));
    assert_eq!(Mode::parse("décode"), Err(InvalidMode));
}

#[test]
fn header_is_trailing_bytes_reversed() {
    let mut buf = vec![0u8, 0, 0, 1, 2, 3, 4, 5, 9];
    fill_header(&mut buf, 3, 5);
    assert_eq!(buf, vec![5u8, 4, 3, 1, 2, 3, 4, 5, 9]);
}

#[test]
fn short_payload_header_keeps_own_bytes() {
    // prefix 4, one byte received: the later header positions read from the
    // header region itself, position 3 after position 1 was filled from it
    let mut buf = vec![10u8, 11, 12, 13, 7];
    fill_header(&mut buf, 4, 1);
    assert_eq!(buf, vec![7u8, 13, 12, 13, 7]);
}

#[test]
fn encode_then_decode_round_trip() {
    let payload: Vec<u8> = (0u8..40).collect();
    let mut enc = UdpPrepend::new(8, Mode::Encode, addr(1), addr(2), 5);
    let mut dec = UdpPrepend::new(8, Mode::Decode, addr(2), addr(3), 5);
    let mut buf = new_buffer();
    let n = receive(&mut buf, enc.receive_offset(), &payload);
    let (_, _, s, e) = forwarded(enc.dispatch(addr(9), &mut buf, n));
    let wire = buf[s..e].to_vec();
    assert_eq!(wire.len(), 48);
    assert_eq!(&wire[..8], &[39u8, 38, 37, 36, 35, 34, 33, 32]);
    let mut buf2 = new_buffer();
    let n = receive(&mut buf2, dec.receive_offset(), &wire);
    let (_, _, s, e) = forwarded(dec.dispatch(addr(10), &mut buf2, n));
    assert_eq!(&buf2[s..e], &payload[..]);
}

#[test]
fn decode_then_encode_round_trip() {
    let datagram: Vec<u8> = (100u8..130).collect();
    let mut dec = UdpPrepend::new(6, Mode::Decode, addr(1), addr(2), 5);
    let mut enc = UdpPrepend::new(6, Mode::Encode, addr(2), addr(3), 5);
    let mut buf = new_buffer();
    let n = receive(&mut buf, dec.receive_offset(), &datagram);
    let (_, _, s, e) = forwarded(dec.dispatch(addr(9), &mut buf, n));
    let stripped = buf[s..e].to_vec();
    let mut buf2 = new_buffer();
    let n = receive(&mut buf2, enc.receive_offset(), &stripped);
    let (_, _, s, e) = forwarded(enc.dispatch(addr(10), &mut buf2, n));
    assert_eq!(e - s, datagram.len());
    assert_eq!(&buf2[s + 6..e], &datagram[6..]);
}

#[test]
fn repeated_first_contact_one_session() {
    let mut relay = UdpPrepend::new(4, Mode::Encode, addr(1), addr(2), 5);
    let peer = addr(5000);
    let mut ids = Vec::new();
    let mut forwards = 0;
    for _ in 0..10 {
        let mut buf = new_buffer();
        let n = receive(&mut buf, relay.receive_offset(), b"data");
        let (info, created, _, _) = forwarded(relay.dispatch(peer, &mut buf, n));
        assert_eq!(created, ids.is_empty());
        ids.push(info.id);
        forwards += 1;
    }
    assert_eq!(forwards, 10);
    assert!(ids.iter().all(|&i| i == ids[0]));
    assert_eq!(relay.session_count(), 1);
}

#[test]
fn ended_session_is_recreated_fresh() {
    let mut relay = UdpPrepend::new(4, Mode::Encode, addr(1), addr(2), 5);
    let peer = addr(5000);
    let mut buf = new_buffer();
    let (first, _, _, _) = forwarded(relay.dispatch(peer, &mut buf, 3));
    let reader = relay.session_reader(first);
    let action = reader.on_event(UpstreamEvent::TimedOut, &mut buf);
    assert_eq!(action, ReaderAction::End { id: first.id });
    assert!(relay.end_session(first.id));
    assert!(relay.find(peer).is_none());
    assert!(!relay.end_session(first.id));
    assert_eq!(relay.session_count(), 0);
    let (second, created, _, _) = forwarded(relay.dispatch(peer, &mut buf, 3));
    assert!(created);
    assert_ne!(second.id, first.id);
    assert_eq!(relay.session_count(), 1);
}

#[test]
fn send_failure_ends_session() {
    let reader = UdpPrepend::new(4, Mode::Decode, addr(1), addr(2), 5)
        .session_reader(UpstreamInfo { id: 7, downstream_addr: addr(3) });
    let mut buf = new_buffer();
    assert_eq!(reader.on_event(UpstreamEvent::SendFailed, &mut buf), ReaderAction::End { id: 7 });
}

#[test]
fn peers_are_isolated() {
    let mut relay = UdpPrepend::new(4, Mode::Encode, addr(1), addr(2), 5);
    let a = addr(6000);
    let b = addr(6001);
    let mut buf = new_buffer();
    let (ia, _, _, _) = forwarded(relay.dispatch(a, &mut buf, 2));
    let (ib, _, _, _) = forwarded(relay.dispatch(b, &mut buf, 2));
    assert_ne!(ia.id, ib.id);
    assert_eq!(relay.find(a), Some(ia));
    assert_eq!(relay.find(b), Some(ib));
    let (to, _, _) = sent(relay.session_reader(ia).on_event(UpstreamEvent::Received(6), &mut buf));
    assert_eq!(to, a);
    let (to, _, _) = sent(relay.session_reader(ib).on_event(UpstreamEvent::Received(6), &mut buf));
    assert_eq!(to, b);
}

#[test]
fn datagram_of_exactly_prefix_size_forwards_nothing() {
    let mut relay = UdpPrepend::new(16, Mode::Decode, addr(1), addr(2), 5);
    let mut buf = new_buffer();
    let n = receive(&mut buf, relay.receive_offset(), &[1u8; 16]);
    let (_, created, start, end) = forwarded(relay.dispatch(addr(3), &mut buf, n));
    assert!(created);
    assert_eq!((start, end), (16, 16));
}

#[test]
fn short_datagram_is_dropped() {
    let mut relay = UdpPrepend::new(16, Mode::Decode, addr(1), addr(2), 5);
    let mut buf = new_buffer();
    let before = buf.clone();
    assert_eq!(relay.dispatch(addr(3), &mut buf, 15), Dispatch::Drop);
    assert_eq!(buf, before);
    assert_eq!(relay.session_count(), 0);
    assert!(relay.find(addr(3)).is_none());
    let reader = relay.session_reader(UpstreamInfo { id: 0, downstream_addr: addr(3) });
    // the reader of a decode relay encodes, so nothing is too short for it
    assert!(matches!(reader.on_event(UpstreamEvent::Received(0), &mut buf), ReaderAction::Send { .. }));
    let enc_reader = UdpPrepend::new(16, Mode::Encode, addr(1), addr(2), 5)
        .session_reader(UpstreamInfo { id: 0, downstream_addr: addr(3) });
    assert_eq!(enc_reader.on_event(UpstreamEvent::Received(4), &mut buf), ReaderAction::Skip);
}

#[test]
fn session_table_operations() {
    let mut t = SessionTable::new();
    assert_eq!(t.insert_if_absent(addr(1)), Resolved::Created(0));
    assert_eq!(t.insert_if_absent(addr(2)), Resolved::Created(1));
    assert_eq!(t.insert_if_absent(addr(1)), Resolved::Existing(0));
    assert_eq!(t.len(), 2);
    assert_eq!(t.find(addr(2)), Some(UpstreamInfo { id: 1, downstream_addr: addr(2) }));
    assert!(t.remove(0));
    assert!(!t.remove(0));
    assert_eq!(t.find(addr(1)), None);
    assert_eq!(t.insert_if_absent(addr(1)), Resolved::Created(2));
    assert_eq!(t.len(), 2);
}

#[test]
fn addresses_and_buffer() {
    let a = PeerAddr::v4(127, 0, 0, 1, 80);
    assert_eq!(a.ip, 0x7f00_0001);
    assert_eq!(a.port, 80);
    assert!(!a.v6);
    let buf = new_buffer();
    assert_eq!(buf.len(), BUFFER_SIZE);
    assert_eq!(BUFFER_SIZE, 66560);
    let relay = UdpPrepend::new(4, Mode::Decode, addr(1), addr(2), 30);
    assert_eq!(relay.prepend_size(), 4);
    assert_eq!(relay.mode(), Mode::Decode);
    assert_eq!(relay.bind(), addr(1));
    assert_eq!(relay.upstream(), addr(2));
    assert_eq!(relay.upstream_timeout_secs(), 30);
    assert_eq!(relay.receive_offset(), 0);
}

#[test]
fn mode_from_str_any_case() {
    assert_eq!("ENCODE".parse::<Mode>(), Ok(Mode::Encode));
    assert_eq!("encode".parse::<Mode>(), Ok(Mode::Encode));
    assert_eq!("decode".parse::<Mode>(), Ok(Mode::Decode));
    assert_eq!("encoder".parse::<Mode>(), Err(InvalidMode));
    assert_eq!("".parse::<Mode>(), Err(InvalidMode));
}
