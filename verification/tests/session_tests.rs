use anytls::frame::{
    decode, Decoded, Frame, CMD_ALERT, CMD_FIN, CMD_HEART_REQUEST, CMD_HEART_RESPONSE, CMD_PSH,
    CMD_SERVER_SETTINGS, CMD_SETTINGS, CMD_SYN, CMD_SYNACK, CMD_UPDATE_PADDING_SCHEME, CMD_WASTE,
};
use anytls::padding::{DefaultPaddingFactory, PaddingFactory};
use anytls::session::{Action, ProxyError, ReadOutcome, Session};

fn concat(chunks: &[Vec<u8>]) -> Vec<u8> {
    let mut all = Vec::new();
    for c in chunks {
        all.extend_from_slice(c);
    }
    all
}

/// Parse a byte stream into whole frames, discarding WASTE frames.
fn frames_of(mut bytes: &[u8]) -> Vec<Frame> {
    let mut out = Vec::new();
    loop {
        match decode(bytes) {
            Decoded::Done(f, used) => {
                if f.cmd != CMD_WASTE {
                    out.push(f);
                }
                bytes = &bytes[used..];
            }
            Decoded::NeedMore => {
                assert!(bytes.is_empty(), "trailing partial frame");
                return out;
            }
        }
    }
}

fn deliver(peer: &mut Session, frames: &[Frame]) -> Vec<Action> {
    let mut acts = Vec::new();
    for f in frames {
        acts.extend(peer.handle_frame(f.cmd, f.sid, f.data.clone()));
    }
    acts
}

#[test]
fn scenario_open_push_close() {
    let scheme = DefaultPaddingFactory::load().unwrap();
    let mut client = Session::new_client(scheme);
    let scheme_s = DefaultPaddingFactory::load().unwrap();
    let mut server = Session::new_server(scheme_s);

    client.send_client_settings();
    let (sid, chunks) = client.open_stream().unwrap();
    assert_eq!(sid, 1);

    // The server sees SETTINGS then SYN, opens stream 1 and answers with
    // an empty SYNACK.
    let frames = frames_of(&concat(&chunks));
    assert_eq!(frames[0].cmd, CMD_SETTINGS);
    assert_eq!(frames[1].cmd, CMD_SYN);
    assert_eq!(frames[1].sid, 1);
    assert!(frames[1].data.is_empty());
    let acts = deliver(&mut server, &frames);
    let mut saw_accept = false;
    let mut synack = None;
    for a in &acts {
        match a {
            Action::AcceptStream(s) => {
                saw_accept = true;
                assert_eq!(*s, 1);
            }
            Action::Send(f) => {
                if f.cmd == CMD_SYNACK {
                    synack = Some(f.clone());
                }
            }
            Action::Terminate => panic!("unexpected terminate"),
        }
    }
    assert!(saw_accept);
    let synack = synack.unwrap();
    assert_eq!(synack.sid, 1);
    assert!(synack.data.is_empty());

    // The client pushes "ABC"; the server's stream receives it.
    let push = Frame::with_data(CMD_PSH, 1, b"ABC".to_vec());
    let push_chunks = client.submit_frame(&push).unwrap();
    let push_frames = frames_of(&concat(&push_chunks));
    deliver(&mut server, &push_frames);
    match server.pop_stream_data(1) {
        ReadOutcome::Data(d) => assert_eq!(d, b"ABC".to_vec()),
        other => panic!("expected data, got {:?}", other),
    }

    // FIN ends the stream: the server's read reports EOF.
    let fin = client.close_stream(1).unwrap();
    assert_eq!(fin.cmd, CMD_FIN);
    let fin_chunks = client.submit_frame(&fin).unwrap();
    deliver(&mut server, &frames_of(&concat(&fin_chunks)));
    assert!(matches!(server.pop_stream_data(1), ReadOutcome::Eof));
}

#[test]
fn scenario_handshake_first_write_is_30_bytes() {
    let scheme = DefaultPaddingFactory::load().unwrap();
    let mut client = Session::new_client(scheme);
    client.send_client_settings();
    let (_sid, chunks) = client.open_stream().unwrap();
    // Packet 0 of the default scheme plans a single 30-byte record.
    assert_eq!(chunks[0].len(), 30);
}

#[test]
fn scenario_auth_request_shape() {
    let scheme = DefaultPaddingFactory::load().unwrap();
    let auth = anytls::auth::build_auth_request(b"pw", &scheme);
    // 32 digest bytes, 2 length bytes, then the 30 padding bytes packet 0
    // plans.
    assert_eq!(auth.len(), 64);
    let expected: Vec<u8> = <sha2::Sha256 as sha2::Digest>::digest(b"pw").to_vec();
    assert_eq!(&auth[..32], &expected[..]);
    assert_eq!(&auth[32..34], &[0, 30]);
}

#[test]
fn scenario_scheme_mismatch_sends_update() {
    let server_scheme = PaddingFactory::new(b"stop=4\n0=50-50").unwrap();
    let server_digest = server_scheme.md5().clone();
    let server_body = server_scheme.raw_scheme().to_vec();
    let mut server = Session::new_server(server_scheme);

    let client_scheme = DefaultPaddingFactory::load().unwrap();
    let mut client = Session::new_client(client_scheme);
    client.send_client_settings();
    let (_sid, chunks) = client.open_stream().unwrap();
    let frames = frames_of(&concat(&chunks));
    let acts = deliver(&mut server, &frames);

    // The server pushes its scheme body, then its settings.
    let sent: Vec<&Frame> = acts
        .iter()
        .filter_map(|a| match a {
            Action::Send(f) => Some(f),
            _ => None,
        })
        .collect();
    let update = sent.iter().find(|f| f.cmd == CMD_UPDATE_PADDING_SCHEME).unwrap();
    assert_eq!(update.data, server_body);
    let ss = sent.iter().find(|f| f.cmd == CMD_SERVER_SETTINGS).unwrap();
    assert_eq!(ss.data, b"v=2".to_vec());

    // The client installs the scheme; its digest now matches the server's.
    client.handle_frame(CMD_UPDATE_PADDING_SCHEME, 0, update.data.clone());
    assert_eq!(client.padding.md5().clone(), server_digest);
}

#[test]
fn scenario_digest_match_sends_no_update() {
    let scheme = DefaultPaddingFactory::load().unwrap();
    let mut server = Session::new_server(scheme);
    let client_scheme = DefaultPaddingFactory::load().unwrap();
    let mut client = Session::new_client(client_scheme);
    client.send_client_settings();
    let (_sid, chunks) = client.open_stream().unwrap();
    let acts = deliver(&mut server, &frames_of(&concat(&chunks)));
    for a in &acts {
        if let Action::Send(f) = a {
            assert_ne!(f.cmd, CMD_UPDATE_PADDING_SCHEME);
        }
    }
}

#[test]
fn scenario_bad_password_rejected() {
    let expected: Vec<u8> = <sha2::Sha256 as sha2::Digest>::digest(b"pw").to_vec();
    let mut auth: Vec<u8> = <sha2::Sha256 as sha2::Digest>::digest(b"wrong").to_vec();
    auth.extend_from_slice(&[0, 0]);
    assert_eq!(
        anytls::auth::check_auth(&auth, &expected),
        Err(ProxyError::AuthFailed)
    );
    // The right digest passes and reports the padding length to consume.
    let mut good: Vec<u8> = expected.clone();
    good.extend_from_slice(&[0, 30]);
    assert_eq!(anytls::auth::check_auth(&good, &expected), Ok(30));
}

#[test]
fn scenario_heartbeat_echo() {
    let header = [0x08, 0x00, 0x00, 0x00, 0x2A, 0x00, 0x00];
    let req = match decode(&header) {
        Decoded::Done(f, 7) => f,
        _ => panic!("heartbeat header did not decode"),
    };
    assert_eq!(req.cmd, CMD_HEART_REQUEST);
    assert_eq!(req.sid, 42);

    let scheme = DefaultPaddingFactory::load().unwrap();
    let mut server = Session::new_server(scheme);
    server.handle_frame(CMD_SETTINGS, 0, b"v=2\npadding-md5=x".to_vec());
    let acts = server.handle_frame(req.cmd, req.sid, req.data);
    let resp = acts
        .iter()
        .find_map(|a| match a {
            Action::Send(f) if f.cmd == CMD_HEART_RESPONSE => Some(f.clone()),
            _ => None,
        })
        .unwrap();
    assert_eq!(resp.sid, 42);
    assert_eq!(resp.to_bytes(), vec![0x09, 0x00, 0x00, 0x00, 0x2A, 0x00, 0x00]);
}

#[test]
fn scenario_oversize_push_rejected() {
    let scheme = DefaultPaddingFactory::load().unwrap();
    let mut client = Session::new_client(scheme);
    let before = client.pkt_counter;
    let frame = Frame::with_data(CMD_PSH, 1, vec![0u8; 70000]);
    assert_eq!(client.submit_frame(&frame), Err(ProxyError::ProtocolError));
    // Nothing was emitted or counted.
    assert_eq!(client.pkt_counter, before);
}

#[test]
fn empty_push_delivers_nothing() {
    let scheme = DefaultPaddingFactory::load().unwrap();
    let mut server = Session::new_server(scheme);
    server.handle_frame(CMD_SETTINGS, 0, b"v=2".to_vec());
    server.handle_frame(CMD_SYN, 7, Vec::new());
    server.handle_frame(CMD_PSH, 7, Vec::new());
    assert!(matches!(server.pop_stream_data(7), ReadOutcome::Empty));
}

#[test]
fn syn_for_existing_stream_is_refused() {
    let scheme = DefaultPaddingFactory::load().unwrap();
    let mut server = Session::new_server(scheme);
    server.handle_frame(CMD_SETTINGS, 0, b"v=2".to_vec());
    server.handle_frame(CMD_SYN, 7, Vec::new());
    let acts = server.handle_frame(CMD_SYN, 7, Vec::new());
    assert_eq!(acts.len(), 1);
    match &acts[0] {
        Action::Send(f) => {
            assert_eq!(f.cmd, CMD_SYNACK);
            assert_eq!(f.sid, 7);
            assert!(!f.data.is_empty());
        }
        _ => panic!("expected a SYNACK"),
    }
}

#[test]
fn server_requires_settings_first() {
    let scheme = DefaultPaddingFactory::load().unwrap();
    let mut server = Session::new_server(scheme);
    let acts = server.handle_frame(CMD_SYN, 1, Vec::new());
    assert_eq!(acts.len(), 2);
    match &acts[0] {
        Action::Send(f) => {
            assert_eq!(f.cmd, CMD_ALERT);
            assert!(!f.data.is_empty());
        }
        _ => panic!("expected an ALERT"),
    }
    assert!(matches!(acts[1], Action::Terminate));
    assert!(server.is_closed());
}

#[test]
fn close_stream_is_idempotent() {
    let scheme = DefaultPaddingFactory::load().unwrap();
    let mut server = Session::new_server(scheme);
    server.handle_frame(CMD_SETTINGS, 0, b"v=2".to_vec());
    server.handle_frame(CMD_SYN, 3, Vec::new());
    assert!(server.close_stream(3).is_some());
    assert!(server.close_stream(3).is_none());
    assert!(server.close_stream(3).is_none());
    assert!(server.close_stream(99).is_none());
}

#[test]
fn closing_one_stream_leaves_siblings_alone() {
    let scheme = DefaultPaddingFactory::load().unwrap();
    let mut server = Session::new_server(scheme);
    server.handle_frame(CMD_SETTINGS, 0, b"v=2".to_vec());
    server.handle_frame(CMD_SYN, 3, Vec::new());
    server.handle_frame(CMD_SYN, 4, Vec::new());
    server.handle_frame(CMD_PSH, 4, b"keep".to_vec());
    server.close_stream(3);
    match server.pop_stream_data(4) {
        ReadOutcome::Data(d) => assert_eq!(d, b"keep".to_vec()),
        other => panic!("stream 4 was disturbed: {:?}", other),
    }
    assert!(matches!(server.pop_stream_data(3), ReadOutcome::Eof));
}

#[test]
fn alert_terminates_session() {
    let scheme = DefaultPaddingFactory::load().unwrap();
    let mut client = Session::new_client(scheme);
    let acts = client.handle_frame(CMD_ALERT, 0, b"boom".to_vec());
    assert!(matches!(acts[0], Action::Terminate));
    assert!(client.is_closed());
    assert!(matches!(
        client.pop_stream_data(1),
        ReadOutcome::Failed(ProxyError::BrokenPipe)
    ));
}

#[test]
fn padding_stops_after_stop_packets() {
    let scheme = PaddingFactory::new(b"stop=2\n0=100-100\n1=100-100").unwrap();
    let mut client = Session::new_client(scheme);
    assert!(client.send_padding);
    let f = Frame::with_data(CMD_PSH, 1, vec![1u8; 10]);
    let c0 = client.submit_frame(&f).unwrap();
    assert_eq!(concat(&c0).len(), 100);
    assert_eq!(client.pkt_counter, 1);
    let c1 = client.submit_frame(&f).unwrap();
    assert_eq!(concat(&c1).len(), 100);
    assert_eq!(client.pkt_counter, 2);
    // The submission observing the counter at stop bypasses the plan and
    // switches padding off for good.
    let c2 = client.submit_frame(&f).unwrap();
    assert_eq!(concat(&c2).len(), f.to_bytes().len());
    assert!(!client.send_padding);
    let c3 = client.submit_frame(&f).unwrap();
    assert_eq!(concat(&c3).len(), f.to_bytes().len());
    assert_eq!(client.pkt_counter, 2);
}

#[test]
fn update_padding_scheme_is_full_replacement() {
    let scheme = DefaultPaddingFactory::load().unwrap();
    let mut client = Session::new_client(scheme);
    let old_digest = client.padding.md5().clone();
    assert_eq!(
        client.update_padding_scheme(b"not a scheme"),
        Err(ProxyError::InvalidPaddingScheme)
    );
    assert_eq!(client.padding.md5().clone(), old_digest);
    assert_eq!(client.update_padding_scheme(b"stop=1\n0=40-40"), Ok(()));
    assert_eq!(client.padding.raw_scheme(), b"stop=1\n0=40-40");
    assert_eq!(client.padding.stop(), 1);
}

#[test]
fn full_receive_queue_drops_payload() {
    // The library's stated policy for a slow stream: when its queue holds
    // RECV_QUEUE_CAP payloads, further inbound payloads are dropped rather
    // than blocking the pump.
    let scheme = DefaultPaddingFactory::load().unwrap();
    let mut server = Session::new_server(scheme);
    server.handle_frame(CMD_SETTINGS, 0, b"v=2".to_vec());
    server.handle_frame(CMD_SYN, 1, Vec::new());
    for i in 0..(anytls::session::RECV_QUEUE_CAP + 5) {
        server.handle_frame(CMD_PSH, 1, vec![i as u8]);
    }
    let mut got = 0;
    while let ReadOutcome::Data(d) = server.pop_stream_data(1) {
        assert_eq!(d, vec![got as u8]);
        got += 1;
    }
    assert_eq!(got, anytls::session::RECV_QUEUE_CAP);
}

#[test]
fn write_data_frame_matches_push_frame() {
    let scheme = DefaultPaddingFactory::load().unwrap();
    let mut a = Session::new_server(scheme);
    let scheme_b = DefaultPaddingFactory::load().unwrap();
    let mut b = Session::new_server(scheme_b);
    let via_helper = a.write_data_frame(5, b"payload".to_vec()).unwrap();
    let frame = Frame::with_data(CMD_PSH, 5, b"payload".to_vec());
    let via_frame = b.submit_frame(&frame).unwrap();
    assert_eq!(concat(&via_helper), concat(&via_frame));
}

#[test]
fn synack_error_closes_client_stream() {
    let scheme = DefaultPaddingFactory::load().unwrap();
    let mut client = Session::new_client(scheme);
    client.send_client_settings();
    let (sid, _chunks) = client.open_stream().unwrap();
    client.handle_frame(CMD_SYNACK, sid, b"no such host".to_vec());
    assert!(matches!(
        client.pop_stream_data(sid),
        ReadOutcome::Failed(ProxyError::BrokenPipe)
    ));
}
