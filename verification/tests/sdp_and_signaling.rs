use rtsp2webrtc::error::AppError;
use rtsp2webrtc::sdp::{
    lacks_credentials, mentions_pwd, mentions_ufrag, normalize_remote_answer_sdp,
};
use rtsp2webrtc::text::contains_text;
use rtsp2webrtc::signaling::{
    apply_answer, handle_client, handle_signaling, ClientAction, ClientEvent, ClientMessage, Next,
    PeerCommand, PeerEvent, ServerMessage, SignalingEvent,
};
use webrtc::peer_connection::sdp::session_description::RTCSessionDescription;

#[test]
fn promotes_media_level_ice_credentials_to_session_level() {
    let sdp = [
        "v=0\r\n",
        "o=mozilla...THIS_IS_SDPARTA-99.0 0 0 IN IP4 0.0.0.0\r\n",
        "s=-\r\n",
        "t=0 0\r\n",
        "a=group:BUNDLE 0\r\n",
        "a=msid-semantic: WMS *\r\n",
        "m=video 9 UDP/TLS/RTP/SAVPF 126\r\n",
        "c=IN IP4 0.0.0.0\r\n",
        "a=mid:0\r\n",
        "a=recvonly\r\n",
        "a=rtcp-mux\r\n",
        "a=ice-ufrag:firefoxUfrag\r\n",
        "a=ice-pwd:firefoxPwd\r\n",
        "a=fingerprint:sha-256 11:22:33\r\n",
        "a=setup:active\r\n",
    ]
    .concat();

    let normalized = normalize_remote_answer_sdp(&sdp);
    let first_media = normalized.find("m=video").unwrap();
    let session_part = &normalized[..first_media];

    assert!(session_part.contains("a=ice-ufrag:firefoxUfrag\r\n"));
    assert!(session_part.contains("a=ice-pwd:firefoxPwd\r\n"));
    assert_eq!(normalized.matches("a=ice-ufrag:firefoxUfrag").count(), 2);
    assert_eq!(normalized.matches("a=ice-pwd:firefoxPwd").count(), 2);
}

#[test]
fn keeps_existing_session_level_ice_credentials() {
    let sdp = [
        "v=0\n",
        "o=- 1 1 IN IP4 127.0.0.1\n",
        "s=-\n",
        "t=0 0\n",
        "a=ice-ufrag:sessionUfrag\n",
        "a=ice-pwd:sessionPwd\n",
        "m=video 9 UDP/TLS/RTP/SAVPF 96\n",
        "a=mid:0\n",
    ]
    .concat();

    let normalized = normalize_remote_answer_sdp(&sdp);

    assert_eq!(normalized.matches("a=ice-ufrag:sessionUfrag").count(), 1);
    assert_eq!(normalized.matches("a=ice-pwd:sessionPwd").count(), 1);
    assert!(normalized.contains("\r\n"));
}

#[test]
fn only_backfills_missing_session_level_credential() {
    let sdp = [
        "v=0\n",
        "o=- 1 1 IN IP4 127.0.0.1\n",
        "s=-\n",
        "t=0 0\n",
        "a=ice-ufrag:sessionUfrag\n",
        "m=video 9 UDP/TLS/RTP/SAVPF 96\n",
        "a=mid:0\n",
        "a=ice-ufrag:mediaUfrag\n",
        "a=ice-pwd:mediaPwd\n",
    ]
    .concat();

    let normalized = normalize_remote_answer_sdp(&sdp);
    let first_media = normalized.find("m=video").unwrap();
    let session_part = &normalized[..first_media];

    assert_eq!(normalized.matches("a=ice-ufrag:sessionUfrag").count(), 1);
    assert!(session_part.contains("a=ice-pwd:mediaPwd\r\n"));
    assert_eq!(normalized.matches("a=ice-pwd:mediaPwd").count(), 2);
}

#[test]
fn normalizes_to_an_exact_text() {
    assert_eq!(
        normalize_remote_answer_sdp("v=0\rs=-\n\n\r\nm=audio\r\na=ice-pwd:p\na=ice-ufrag:u"),
        "v=0\r\ns=-\r\na=ice-ufrag:u\r\na=ice-pwd:p\r\nm=audio\r\na=ice-pwd:p\r\na=ice-ufrag:u\r\n"
    );
    assert_eq!(normalize_remote_answer_sdp(""), "\r\n");
    assert_eq!(normalize_remote_answer_sdp("\n\r\n\r"), "\r\n");
    assert_eq!(normalize_remote_answer_sdp("v=0"), "v=0\r\n");
}

#[test]
fn takes_credentials_from_the_first_media_section_only() {
    let sdp = "v=0\nm=audio\na=ice-ufrag:u1\nm=video\na=ice-ufrag:u2\na=ice-pwd:p2\n";
    assert_eq!(
        normalize_remote_answer_sdp(sdp),
        "v=0\r\na=ice-ufrag:u1\r\nm=audio\r\na=ice-ufrag:u1\r\nm=video\r\na=ice-ufrag:u2\r\na=ice-pwd:p2\r\n"
    );
}

#[test]
fn empty_lines_are_gone() {
    let normal = normalize_remote_answer_sdp("\n\r\r\nv=0\r\n\r\n\ns=-\r\r");
    assert_eq!(normal, "v=0\r\ns=-\r\n");
    assert!(!contains_text(&normal, "\n\r"));
}

#[test]
fn normalizing_twice_changes_nothing_more() {
    let once = normalize_remote_answer_sdp("v=0\nm=video\na=ice-pwd:p\na=ice-ufrag:u\n");
    assert_eq!(normalize_remote_answer_sdp(&once), once);
}

#[test]
fn keeps_non_ascii_text() {
    assert_eq!(
        normalize_remote_answer_sdp("s=caméra 门\nm=video\n"),
        "s=caméra 门\r\nm=video\r\n"
    );
}

#[test]
fn missing_credentials_are_noticed() {
    let both = "v=0\nm=video\na=ice-ufrag:u\na=ice-pwd:p\n";
    assert!(mentions_ufrag(both) && mentions_pwd(both));
    assert!(!lacks_credentials(&normalize_remote_answer_sdp(both)));
    let one = "v=0\nm=video\na=ice-ufrag:u\n";
    assert!(mentions_ufrag(one) && !mentions_pwd(one));
    assert!(lacks_credentials(&normalize_remote_answer_sdp(one)));
    assert!(lacks_credentials("a=ice-pwd:p\r\n"));
    assert!(lacks_credentials(""));
    assert!(!lacks_credentials("x a=ice-pwd: a=ice-ufrag:"));
}

#[test]
fn texts_are_searched() {
    assert!(contains_text("abcabd", "abd"));
    assert!(contains_text("abc", "abc"));
    assert!(contains_text("abc", ""));
    assert!(contains_text("", ""));
    assert!(contains_text("aé门", "门"));
    assert!(!contains_text("abcab", "abd"));
    assert!(!contains_text("ab", "abc"));
}

fn sent_error(event: SignalingEvent) -> (String, Next) {
    let step = handle_signaling(event);
    match step.send {
        Some(ServerMessage::Error { message }) => (message, step.next),
        other => panic!("not an error message: {other:?}"),
    }
}

#[test]
fn first_message_must_ask_for_the_stream() {
    let step = handle_signaling(SignalingEvent::Request(ClientMessage::RequestStream));
    assert!(step.send.is_none());
    assert!(matches!(step.next, Next::CreatePeer));

    let (message, next) = sent_error(SignalingEvent::Request(ClientMessage::SdpAnswer {
        sdp: "v=0".to_string(),
    }));
    assert_eq!(message, "expected request_stream");
    assert!(matches!(next, Next::Return(Ok(()))));

    let (message, next) = sent_error(SignalingEvent::NotText);
    assert_eq!(message, "expected text message");
    assert!(matches!(next, Next::Return(Ok(()))));

    let (message, next) = sent_error(SignalingEvent::BadJson {
        reason: "EOF".to_string(),
    });
    assert_eq!(message, "invalid JSON: EOF");
    assert!(matches!(next, Next::Return(Ok(()))));
}

#[test]
fn exchange_ends_without_a_first_message() {
    let step = handle_signaling(SignalingEvent::RequestTimedOut);
    assert!(step.send.is_none());
    match step.next {
        Next::Return(Err(AppError::Signaling(text))) => assert_eq!(text, "timeout"),
        _ => panic!("no error"),
    }
    match handle_signaling(SignalingEvent::SocketFailed).next {
        Next::Return(Err(AppError::Signaling(text))) => assert_eq!(text, "WebSocket error"),
        _ => panic!("no error"),
    }
    let step = handle_signaling(SignalingEvent::SocketClosed);
    assert!(step.send.is_none());
    assert!(matches!(step.next, Next::Return(Ok(()))));
}

#[test]
fn peer_creation_is_answered() {
    let step = handle_signaling(SignalingEvent::PeerReady);
    assert!(matches!(step.send, Some(ServerMessage::Connected)));
    assert!(matches!(step.next, Next::Serve));

    let (message, next) = sent_error(SignalingEvent::PeerFailed {
        error: AppError::Other("no codec".to_string()),
        text: "other: no codec".to_string(),
    });
    assert_eq!(message, "failed to create peer: other: no codec");
    match next {
        Next::Return(Err(AppError::Other(text))) => assert_eq!(text, "no codec"),
        _ => panic!("no error"),
    }
}

#[test]
fn peer_reports_are_forwarded() {
    let step = handle_signaling(SignalingEvent::Peer(PeerEvent::LocalDescription {
        sdp: "offer".to_string(),
    }));
    match step.send {
        Some(ServerMessage::SdpOffer { sdp }) => assert_eq!(sdp, "offer"),
        _ => panic!("no offer"),
    }
    assert!(matches!(step.next, Next::Serve));

    let step = handle_signaling(SignalingEvent::Peer(PeerEvent::ConnectionEstablished));
    assert!(step.send.is_none());
    assert!(matches!(step.next, Next::Serve));

    let (message, next) = sent_error(SignalingEvent::Peer(PeerEvent::ConnectionFailed));
    assert_eq!(message, "connection failed");
    assert!(matches!(next, Next::Close));

    let step = handle_signaling(SignalingEvent::PeerGone);
    assert!(step.send.is_none());
    assert!(matches!(step.next, Next::Close));
}

fn forwarded_mid(json: &str) -> String {
    let candidate: serde_json::Value = serde_json::from_str(json).unwrap();
    let step = handle_signaling(SignalingEvent::Peer(PeerEvent::IceCandidate(
        candidate.clone(),
    )));
    assert!(matches!(step.next, Next::Serve));
    match step.send {
        Some(ServerMessage::IceCandidate {
            candidate: sent,
            sdp_mid,
        }) => {
            assert_eq!(sent, candidate);
            sdp_mid
        }
        _ => panic!("no candidate"),
    }
}

#[test]
fn candidate_mid_is_read_or_defaults_to_zero() {
    assert_eq!(forwarded_mid("{\"sdpMid\":\"video\"}"), "video");
    assert_eq!(forwarded_mid("{\"sdpMid\":7}"), "0");
    assert_eq!(forwarded_mid("{\"candidate\":\"c\"}"), "0");
    assert_eq!(forwarded_mid("[\"sdpMid\"]"), "0");
    assert_eq!(forwarded_mid("null"), "0");
}

fn told_candidate(candidate: &str, mid: Option<&str>, index: Option<u16>) -> String {
    match handle_client(ClientEvent::Message(ClientMessage::IceCandidate {
        candidate: candidate.to_string(),
        sdp_mid: mid.map(|m| m.to_string()),
        sdp_mline_index: index,
    })) {
        ClientAction::Tell(PeerCommand::AddIceCandidate(text)) => text,
        _ => panic!("no candidate"),
    }
}

#[test]
fn browser_candidate_becomes_json() {
    assert_eq!(
        told_candidate("candidate:1 1 UDP", Some("0"), Some(65535)),
        "{\"candidate\":\"candidate:1 1 UDP\",\"sdpMLineIndex\":65535,\"sdpMid\":\"0\"}"
    );
    assert_eq!(
        told_candidate("", None, None),
        "{\"candidate\":\"\",\"sdpMLineIndex\":0,\"sdpMid\":\"\"}"
    );
}

#[test]
fn browser_candidate_is_escaped() {
    assert_eq!(
        told_candidate("q\" b\\ \u{8}\t\n\u{c}\r \u{1} \u{1f} \u{7f} é/", Some("m"), Some(10)),
        "{\"candidate\":\"q\\\" b\\\\ \\b\\t\\n\\f\\r \\u0001 \\u001f \u{7f} é/\",\"sdpMLineIndex\":10,\"sdpMid\":\"m\"}"
    );
}

#[test]
fn valid_answer_becomes_the_remote_description() {
    let sdp = "v=0\no=- 1 1 IN IP4 127.0.0.1\ns=-\nt=0 0\nm=video 9 UDP/TLS/RTP/SAVPF 96\na=ice-ufrag:u\na=ice-pwd:p\n";
    match handle_client(ClientEvent::Message(ClientMessage::SdpAnswer {
        sdp: sdp.to_string(),
    })) {
        ClientAction::Tell(PeerCommand::SetRemoteDescription(description)) => {
            assert_eq!(description.sdp, normalize_remote_answer_sdp(sdp));
            assert_eq!(description.sdp_type.to_string(), "answer");
        }
        _ => panic!("no description"),
    }
}

#[test]
fn invalid_answer_ends_the_listening() {
    assert!(matches!(
        handle_client(ClientEvent::Message(ClientMessage::SdpAnswer {
            sdp: "nonsense".to_string()
        })),
        ClientAction::Reject(_)
    ));
    match handle_client(ClientEvent::Message(ClientMessage::SdpAnswer {
        sdp: "v=0\nt=x\n".to_string(),
    })) {
        ClientAction::Reject(error) => assert_eq!(
            error,
            RTCSessionDescription::answer("v=0\r\nt=x\r\n".to_string()).unwrap_err()
        ),
        _ => panic!("not rejected"),
    }
    assert!(matches!(
        apply_answer(RTCSessionDescription::answer("x=1\r\n".to_string())),
        ClientAction::Reject(_)
    ));
}

#[test]
fn other_browser_input_is_skipped_or_ends_the_listening() {
    assert!(matches!(
        handle_client(ClientEvent::Message(ClientMessage::RequestStream)),
        ClientAction::Skip
    ));
    assert!(matches!(handle_client(ClientEvent::Unreadable), ClientAction::Skip));
    assert!(matches!(handle_client(ClientEvent::NotText), ClientAction::Skip));
    assert!(matches!(handle_client(ClientEvent::Closed), ClientAction::Stop));
    assert!(matches!(handle_client(ClientEvent::Failed), ClientAction::Stop));
}
