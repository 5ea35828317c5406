//! The signaling exchange with a browser over a WebSocket.
//!
//! 1. The browser connects and sends `request_stream`.
//! 2. A WebRTC peer is created, and its offer sent.
//! 3. Answer and ICE candidates are exchanged.
//! 4. When the peer ends, the browser is unsubscribed.

use crate::error::{AppError, AppErrorView, AppResult};
use crate::json::{
    before_at, json_escape, json_from_str, json_from_u16, json_member_str, json_object,
    json_object_text, json_quoted, json_strings, json_to_string, keys_ascend,
    law_json_string_reads_back, law_object_text_grows, member_texts, unescaped,
};
use crate::sdp::{normalize_remote_answer_sdp, normalized};
use crate::text::{decimal, law_decimal_reads_back, numeral_value};
use vstd::prelude::*;
use vstd::string::*;
use webrtc::peer_connection::sdp::session_description::RTCSessionDescription;

verus! {

/// Seconds within which the first message must come.
pub const REQUEST_SECS: u64 = 10;

/// `RTCSessionDescription` of the `webrtc` crate, carried through as it is.
/// Nothing is claimed of its fields.
#[verifier::external_type_specification]
#[verifier::external_body]
pub struct ExRTCSessionDescription(RTCSessionDescription);

/// `Error` of the `webrtc` crate, carried through as it is. Nothing is claimed of
/// its variants.
#[verifier::external_type_specification]
#[verifier::external_body]
pub struct ExWebrtcError(webrtc::Error);

/// What `RTCSessionDescription::answer` of the `webrtc` crate makes of an SDP
/// text: the description of an answer with that text, or the error if the text
/// cannot be parsed.
pub uninterp spec fn parsed_answer(sdp: Seq<char>) -> Result<RTCSessionDescription, webrtc::Error>;

/// `RTCSessionDescription::answer` parses an SDP text. Whether that succeeds,
/// and the description or the error that comes of it, depend on the text
/// alone.
pub assume_specification[ RTCSessionDescription::answer ](sdp: String) -> (result: Result<
    RTCSessionDescription,
    webrtc::Error,
>)
    ensures
        result == parsed_answer(sdp@),
;

/// What a browser sends.
#[derive(Debug)]
pub enum ClientMessage {
    RequestStream,
    SdpAnswer { sdp: String },
    IceCandidate {
        candidate: String,
        sdp_mid: Option<String>,
        /// Firefox requires it; Chrome and Edge send it too.
        sdp_mline_index: Option<u16>,
    },
}

/// What a browser is sent.
#[derive(Debug)]
pub enum ServerMessage {
    SdpOffer { sdp: String },
    IceCandidate { candidate: serde_json::Value, sdp_mid: String },
    Error { message: String },
    Connected,
}

/// A `ServerMessage` with its texts as sequences of characters.
pub enum ServerMessageView {
    SdpOffer { sdp: Seq<char> },
    IceCandidate { candidate: serde_json::Value, sdp_mid: Seq<char> },
    Error { message: Seq<char> },
    Connected,
}

impl View for ServerMessage {
    type V = ServerMessageView;

    open spec fn view(&self) -> ServerMessageView {
        match self {
            ServerMessage::SdpOffer { sdp } => ServerMessageView::SdpOffer { sdp: sdp@ },
            ServerMessage::IceCandidate { candidate, sdp_mid } => ServerMessageView::IceCandidate {
                candidate: *candidate,
                sdp_mid: sdp_mid@,
            },
            ServerMessage::Error { message } => ServerMessageView::Error { message: message@ },
            ServerMessage::Connected => ServerMessageView::Connected,
        }
    }
}

/// What a WebRTC peer reports.
pub enum PeerEvent {
    /// Its offer is ready.
    LocalDescription { sdp: String },
    /// It has found an ICE candidate, described by this JSON object.
    IceCandidate(serde_json::Value),
    /// Media is flowing.
    ConnectionEstablished,
    /// The connection has failed.
    ConnectionFailed,
}

/// What a WebRTC peer is told.
pub enum PeerCommand {
    SetRemoteDescription(RTCSessionDescription),
    /// An ICE candidate as the text of a JSON object.
    AddIceCandidate(String),
}

/// What has happened in a signaling exchange.
pub enum SignalingEvent {
    /// The first message did not come in time.
    RequestTimedOut,
    /// The WebSocket failed before the first message.
    SocketFailed,
    /// The WebSocket was closed before the first message.
    SocketClosed,
    /// The first message was no text.
    NotText,
    /// The first message could not be parsed, for this reason.
    BadJson { reason: String },
    /// The first message has come.
    Request(ClientMessage),
    /// No peer could be created; `text` tells the error.
    PeerFailed { error: AppError, text: String },
    /// The peer is created.
    PeerReady,
    /// The peer has reported something.
    Peer(PeerEvent),
    /// The peer is gone.
    PeerGone,
}

/// How a signaling exchange goes on.
pub enum Next {
    /// Create the peer.
    CreatePeer,
    /// Wait for what the peer reports next, and meanwhile hand what the
    /// browser sends to `handle_client`.
    Serve,
    /// End at once with this result.
    Return(AppResult<()>),
    /// Stop listening to the browser, unsubscribe it, and end without error.
    Close,
}

/// What is to be done next in a signaling exchange.
pub struct SignalingStep {
    /// First send the browser this.
    pub send: Option<ServerMessage>,
    pub next: Next,
}

/// How a signaling exchange goes on, with errors as views.
pub enum NextView {
    CreatePeer,
    Serve,
    Return(Result<(), AppErrorView>),
    Close,
}

/// A `SignalingStep` with texts as sequences of characters.
pub struct StepView {
    pub send: Option<ServerMessageView>,
    pub next: NextView,
}

impl View for Next {
    type V = NextView;

    open spec fn view(&self) -> NextView {
        match self {
            Next::CreatePeer => NextView::CreatePeer,
            Next::Serve => NextView::Serve,
            Next::Return(Ok(())) => NextView::Return(Ok(())),
            Next::Return(Err(error)) => NextView::Return(Err(error@)),
            Next::Close => NextView::Close,
        }
    }
}

impl View for SignalingStep {
    type V = StepView;

    open spec fn view(&self) -> StepView {
        StepView {
            send: match self.send {
                Some(message) => Some(message@),
                None => None,
            },
            next: self.next@,
        }
    }
}

/// The media id of an ICE candidate: its `sdpMid` if that is a string, else 0.
pub open spec fn candidate_mid(candidate: serde_json::Value) -> Seq<char> {
    if json_strings(candidate).contains_key("sdpMid"@) {
        json_strings(candidate)["sdpMid"@]
    } else {
        "0"@
    }
}

/// A step that sends an error message.
pub open spec fn complaint(message: Seq<char>, next: NextView) -> StepView {
    StepView { send: Some(ServerMessageView::Error { message }), next }
}

/// What is to be done on `event`.
pub open spec fn signaling_step(event: SignalingEvent) -> StepView {
    let done = NextView::Return(Ok(()));
    match event {
        SignalingEvent::RequestTimedOut => StepView {
            send: None,
            next: NextView::Return(Err(AppErrorView::Signaling("timeout"@))),
        },
        SignalingEvent::SocketFailed => StepView {
            send: None,
            next: NextView::Return(Err(AppErrorView::Signaling("WebSocket error"@))),
        },
        SignalingEvent::SocketClosed => StepView { send: None, next: done },
        SignalingEvent::NotText => complaint("expected text message"@, done),
        SignalingEvent::BadJson { reason } => complaint("invalid JSON: "@ + reason@, done),
        SignalingEvent::Request(message) => match message {
            ClientMessage::RequestStream => StepView { send: None, next: NextView::CreatePeer },
            _ => complaint("expected request_stream"@, done),
        },
        SignalingEvent::PeerFailed { error, text } => complaint(
            "failed to create peer: "@ + text@,
            NextView::Return(Err(error@)),
        ),
        SignalingEvent::PeerReady => StepView {
            send: Some(ServerMessageView::Connected),
            next: NextView::Serve,
        },
        SignalingEvent::Peer(PeerEvent::LocalDescription { sdp }) => StepView {
            send: Some(ServerMessageView::SdpOffer { sdp: sdp@ }),
            next: NextView::Serve,
        },
        SignalingEvent::Peer(PeerEvent::IceCandidate(candidate)) => StepView {
            send: Some(
                ServerMessageView::IceCandidate { candidate, sdp_mid: candidate_mid(candidate) },
            ),
            next: NextView::Serve,
        },
        SignalingEvent::Peer(PeerEvent::ConnectionEstablished) => StepView {
            send: None,
            next: NextView::Serve,
        },
        SignalingEvent::Peer(PeerEvent::ConnectionFailed) => complaint(
            "connection failed"@,
            NextView::Close,
        ),
        SignalingEvent::PeerGone => StepView { send: None, next: NextView::Close },
    }
}

fn error_message(head: &str, tail: &str) -> (message: Option<ServerMessage>)
    ensures
        message matches Some(m) && m@ == (ServerMessageView::Error { message: head@ + tail@ }),
{
    let mut text = head.to_owned();
    text.append(tail);
    Some(ServerMessage::Error { message: text })
}

fn plain_error(text: &str) -> (message: Option<ServerMessage>)
    ensures
        message matches Some(m) && m@ == (ServerMessageView::Error { message: text@ }),
{
    Some(ServerMessage::Error { message: text.to_owned() })
}

/// Takes one step in a signaling exchange: from what has happened to what is
/// to be done next.
pub fn handle_signaling(event: SignalingEvent) -> (step: SignalingStep)
    ensures
        step@ == signaling_step(event),
{
    match event {
        SignalingEvent::RequestTimedOut => SignalingStep {
            send: None,
            next: Next::Return(Err(AppError::Signaling("timeout".to_owned()))),
        },
        SignalingEvent::SocketFailed => SignalingStep {
            send: None,
            next: Next::Return(Err(AppError::Signaling("WebSocket error".to_owned()))),
        },
        SignalingEvent::SocketClosed => SignalingStep { send: None, next: Next::Return(Ok(())) },
        SignalingEvent::NotText => SignalingStep {
            send: plain_error("expected text message"),
            next: Next::Return(Ok(())),
        },
        SignalingEvent::BadJson { reason } => SignalingStep {
            send: error_message("invalid JSON: ", reason.as_str()),
            next: Next::Return(Ok(())),
        },
        SignalingEvent::Request(message) => match message {
            ClientMessage::RequestStream => SignalingStep { send: None, next: Next::CreatePeer },
            _ => SignalingStep {
                send: plain_error("expected request_stream"),
                next: Next::Return(Ok(())),
            },
        },
        SignalingEvent::PeerFailed { error, text } => SignalingStep {
            send: error_message("failed to create peer: ", text.as_str()),
            next: Next::Return(Err(error)),
        },
        SignalingEvent::PeerReady => SignalingStep {
            send: Some(ServerMessage::Connected),
            next: Next::Serve,
        },
        SignalingEvent::Peer(PeerEvent::LocalDescription { sdp }) => SignalingStep {
            send: Some(ServerMessage::SdpOffer { sdp }),
            next: Next::Serve,
        },
        SignalingEvent::Peer(PeerEvent::IceCandidate(candidate)) => {
            let sdp_mid = match json_member_str(&candidate, "sdpMid") {
                Some(mid) => mid,
                None => "0".to_owned(),
            };
            SignalingStep {
                send: Some(ServerMessage::IceCandidate { candidate, sdp_mid }),
                next: Next::Serve,
            }
        },
        SignalingEvent::Peer(PeerEvent::ConnectionEstablished) => SignalingStep {
            send: None,
            next: Next::Serve,
        },
        SignalingEvent::Peer(PeerEvent::ConnectionFailed) => SignalingStep {
            send: plain_error("connection failed"),
            next: Next::Close,
        },
        SignalingEvent::PeerGone => SignalingStep { send: None, next: Next::Close },
    }
}

/// What has come from the browser while its peer is served.
pub enum ClientEvent {
    /// A message.
    Message(ClientMessage),
    /// A text that is no message.
    Unreadable,
    /// Something that is no text.
    NotText,
    /// The end of the connection.
    Closed,
    /// An error on the connection.
    Failed,
}

/// What is to be done with what has come from the browser.
pub enum ClientAction {
    /// Tell the peer this, and go on listening.
    Tell(PeerCommand),
    /// Go on listening.
    Skip,
    /// Listen no longer.
    Stop,
    /// Listen no longer: the answer was not valid.
    Reject(webrtc::Error),
}

/// The JSON text by which a peer is told a browser's ICE candidate.
pub open spec fn candidate_text(
    candidate: Seq<char>,
    sdp_mid: Seq<char>,
    sdp_mline_index: u16,
) -> Seq<char> {
    json_object_text(
        seq![
            ("candidate"@, json_quoted(candidate)),
            ("sdpMLineIndex"@, decimal(sdp_mline_index as nat)),
            ("sdpMid"@, json_quoted(sdp_mid)),
        ],
    )
}

proof fn lemma_candidate_keys_ascend(members: Seq<(Seq<char>, Seq<char>)>)
    requires
        members.len() == 3,
        members[0].0 == "candidate"@,
        members[1].0 == "sdpMLineIndex"@,
        members[2].0 == "sdpMid"@,
    ensures
        keys_ascend(members),
{
    reveal_strlit("candidate");
    reveal_strlit("sdpMLineIndex");
    reveal_strlit("sdpMid");
    let candidate = "candidate"@;
    let index = "sdpMLineIndex"@;
    let mid = "sdpMid"@;
    assert(candidate.take(0) =~= index.take(0));
    assert(before_at(candidate, index, 0));
    assert(candidate.take(0) =~= mid.take(0));
    assert(before_at(candidate, mid, 0));
    assert(index.take(4) =~= mid.take(4));
    assert(before_at(index, mid, 4));
}

/// Writes an ICE candidate for the peer.
fn candidate_json(candidate: &str, sdp_mid: &str, sdp_mline_index: u16) -> (text: String)
    ensures
        text@ == candidate_text(candidate@, sdp_mid@, sdp_mline_index),
{
    let mut members: Vec<(String, serde_json::Value)> = Vec::new();
    members.push(("candidate".to_owned(), json_from_str(candidate)));
    members.push(("sdpMLineIndex".to_owned(), json_from_u16(sdp_mline_index)));
    members.push(("sdpMid".to_owned(), json_from_str(sdp_mid)));
    proof {
        lemma_candidate_keys_ascend(member_texts(members@));
        assert(member_texts(members@) =~= seq![
            ("candidate"@, json_quoted(candidate@)),
            ("sdpMLineIndex"@, decimal(sdp_mline_index as nat)),
            ("sdpMid"@, json_quoted(sdp_mid@)),
        ]);
    }
    let object = json_object(members);
    json_to_string(&object)
}

/// What is to be done with a parsed answer.
pub open spec fn answer_action(
    parsed: Result<RTCSessionDescription, webrtc::Error>,
) -> ClientAction {
    match parsed {
        Ok(description) => ClientAction::Tell(PeerCommand::SetRemoteDescription(description)),
        Err(error) => ClientAction::Reject(error),
    }
}

/// Decides what to do with a parsed answer: a valid one is the peer's remote
/// description, an invalid one ends the listening.
pub fn apply_answer(parsed: Result<RTCSessionDescription, webrtc::Error>) -> (action: ClientAction)
    ensures
        action == answer_action(parsed),
{
    match parsed {
        Ok(description) => ClientAction::Tell(PeerCommand::SetRemoteDescription(description)),
        Err(error) => ClientAction::Reject(error),
    }
}

/// Decides what to do with what has come from the browser while its peer is
/// served. An answer is normalised before it is parsed; a second request for
/// the stream is ignored.
pub fn handle_client(event: ClientEvent) -> (action: ClientAction)
    ensures
        match event {
            ClientEvent::Message(ClientMessage::SdpAnswer { sdp }) => action == answer_action(
                parsed_answer(normalized(sdp@)),
            ),
            ClientEvent::Message(
                ClientMessage::IceCandidate { candidate, sdp_mid, sdp_mline_index },
            ) => {
                &&& action matches ClientAction::Tell(PeerCommand::AddIceCandidate(text))
                &&& text@ == candidate_text(
                    candidate@,
                    match sdp_mid {
                        Some(mid) => mid@,
                        None => seq![],
                    },
                    match sdp_mline_index {
                        Some(index) => index,
                        None => 0,
                    },
                )
            },
            ClientEvent::Message(ClientMessage::RequestStream) => action == ClientAction::Skip,
            ClientEvent::Unreadable => action == ClientAction::Skip,
            ClientEvent::NotText => action == ClientAction::Skip,
            ClientEvent::Closed => action == ClientAction::Stop,
            ClientEvent::Failed => action == ClientAction::Stop,
        },
{
    match event {
        ClientEvent::Message(message) => match message {
            ClientMessage::SdpAnswer { sdp } => {
                let normal = normalize_remote_answer_sdp(sdp.as_str());
                apply_answer(RTCSessionDescription::answer(normal))
            },
            ClientMessage::IceCandidate { candidate, sdp_mid, sdp_mline_index } => {
                let mid = match sdp_mid {
                    Some(mid) => mid,
                    None => String::new(),
                };
                let index: u16 = match sdp_mline_index {
                    Some(index) => index,
                    None => 0,
                };
                let text = candidate_json(candidate.as_str(), mid.as_str(), index);
                ClientAction::Tell(PeerCommand::AddIceCandidate(text))
            },
            ClientMessage::RequestStream => ClientAction::Skip,
        },
        ClientEvent::Unreadable => ClientAction::Skip,
        ClientEvent::NotText => ClientAction::Skip,
        ClientEvent::Closed => ClientAction::Stop,
        ClientEvent::Failed => ClientAction::Stop,
    }
}

/// Whether `event` can be what comes of `next`.
pub open spec fn can_follow(next: NextView, event: SignalingEvent) -> bool {
    match next {
        NextView::CreatePeer => event is PeerFailed || event is PeerReady,
        NextView::Serve => event is Peer || event is PeerGone,
        NextView::Return(_) => false,
        NextView::Close => false,
    }
}

/// Whether `event` can be the first of a signaling exchange.
pub open spec fn can_begin(event: SignalingEvent) -> bool {
    event is RequestTimedOut || event is SocketFailed || event is SocketClosed || event is NotText
        || event is BadJson || event is Request
}

/// Whether `events` can be what happens in one signaling exchange when each
/// step is carried out.
pub open spec fn is_exchange(events: Seq<SignalingEvent>) -> bool {
    &&& events.len() > 0
    &&& can_begin(events[0])
    &&& forall|i: int, j: int|
        0 <= i < j < events.len() && j == i + 1 ==> can_follow(
            signaling_step(#[trigger] events[i]).next,
            #[trigger] events[j],
        )
}

/// Nothing comes of an exchange but for a browser whose first message asks for
/// the stream: only then a peer is created, and only for a created peer
/// anything is reported.
pub proof fn law_exchange_begins_with_request(events: Seq<SignalingEvent>, i: int)
    requires
        is_exchange(events),
        0 < i < events.len(),
    ensures
        events[0] == SignalingEvent::Request(ClientMessage::RequestStream),
        i == 1 ==> events[1] is PeerFailed || events[1] is PeerReady,
        i > 1 ==> events[1] is PeerReady && (events[i] is Peer || events[i] is PeerGone),
    decreases i,
{
    let before = events[i - 1];
    assert(can_follow(signaling_step(before).next, events[i]));
    if i > 1 {
        law_exchange_begins_with_request(events, i - 1);
    }
}

/// A browser whose peer was created is unsubscribed once, as the last thing
/// that is done in the exchange, and no other browser is.
pub proof fn law_served_browsers_are_unsubscribed_once(events: Seq<SignalingEvent>, i: int)
    requires
        is_exchange(events),
        0 <= i < events.len(),
    ensures
        signaling_step(events[i]).next is Close ==> i == events.len() - 1 && i > 1
            && events[1] is PeerReady,
        signaling_step(events[i]).next is Return ==> i == events.len() - 1 && i <= 1 && (i == 1
            ==> events[1] is PeerFailed),
{
    if i > 0 {
        law_exchange_begins_with_request(events, i);
    }
    if i + 1 < events.len() {
        let next = events[i + 1];
        assert(can_follow(signaling_step(events[i]).next, next));
    }
}

/// `connected` is sent once, before any offer or candidate.
pub proof fn law_connected_comes_first(events: Seq<SignalingEvent>, i: int)
    requires
        is_exchange(events),
        0 <= i < events.len(),
        signaling_step(events[i]).send is Some,
    ensures
        signaling_step(events[i]).send->0 is Connected ==> i == 1,
        signaling_step(events[i]).send->0 is SdpOffer || signaling_step(
            events[i],
        ).send->0 is IceCandidate ==> i > 1 && signaling_step(events[1]).send == Some(
            ServerMessageView::Connected,
        ),
{
    if i > 0 {
        law_exchange_begins_with_request(events, i);
    }
}

/// The view of a message tells its kind and its texts.
pub proof fn law_message_view_tells_all(message: ServerMessage)
    ensures
        message is Connected <==> message@ is Connected,
        message is SdpOffer <==> message@ is SdpOffer,
        message is IceCandidate <==> message@ is IceCandidate,
        message is Error <==> message@ is Error,
        message matches ServerMessage::SdpOffer { sdp } ==> message@ == (
        ServerMessageView::SdpOffer { sdp: sdp@ }),
        message matches ServerMessage::IceCandidate { candidate, sdp_mid } ==> message@ == (
        ServerMessageView::IceCandidate { candidate, sdp_mid: sdp_mid@ }),
        message matches ServerMessage::Error { message: text } ==> message@ == (
        ServerMessageView::Error { message: text@ }),
{
}

/// The view of a step tells what is sent and how the exchange goes on.
pub proof fn law_step_view_tells_all(step: SignalingStep)
    ensures
        step.send is None <==> step@.send is None,
        step.send matches Some(message) ==> step@.send == Some(message@),
        step.next is CreatePeer <==> step@.next is CreatePeer,
        step.next is Serve <==> step@.next is Serve,
        step.next is Close <==> step@.next is Close,
        step.next is Return <==> step@.next is Return,
        step.next matches Next::Return(Ok(_)) ==> step@.next == NextView::Return(Ok(())),
        step.next matches Next::Return(Err(error)) ==> step@.next == NextView::Return(Err(error@)),
{
}

/// The offers that a peer reports among `events`.
pub open spec fn offers_reported(events: Seq<SignalingEvent>) -> Seq<Seq<char>>
    decreases events.len(),
{
    if events.len() == 0 {
        seq![]
    } else {
        let before = offers_reported(events.drop_last());
        match events.last() {
            SignalingEvent::Peer(PeerEvent::LocalDescription { sdp }) => before.push(sdp@),
            _ => before,
        }
    }
}

/// The offers that are sent on `events`.
pub open spec fn offers_sent(events: Seq<SignalingEvent>) -> Seq<Seq<char>>
    decreases events.len(),
{
    if events.len() == 0 {
        seq![]
    } else {
        let before = offers_sent(events.drop_last());
        match signaling_step(events.last()).send {
            Some(ServerMessageView::SdpOffer { sdp }) => before.push(sdp),
            _ => before,
        }
    }
}

/// The candidates that a peer reports among `events`.
pub open spec fn candidates_reported(events: Seq<SignalingEvent>) -> Seq<serde_json::Value>
    decreases events.len(),
{
    if events.len() == 0 {
        seq![]
    } else {
        let before = candidates_reported(events.drop_last());
        match events.last() {
            SignalingEvent::Peer(PeerEvent::IceCandidate(candidate)) => before.push(candidate),
            _ => before,
        }
    }
}

/// The candidates that are sent on `events`.
pub open spec fn candidates_sent(events: Seq<SignalingEvent>) -> Seq<serde_json::Value>
    decreases events.len(),
{
    if events.len() == 0 {
        seq![]
    } else {
        let before = candidates_sent(events.drop_last());
        match signaling_step(events.last()).send {
            Some(ServerMessageView::IceCandidate { candidate, .. }) => before.push(candidate),
            _ => before,
        }
    }
}

/// A browser is sent the offers and the candidates that its peer reports, each
/// as it is and in order, and no others.
pub proof fn law_reports_are_passed_on(events: Seq<SignalingEvent>)
    ensures
        offers_sent(events) == offers_reported(events),
        candidates_sent(events) == candidates_reported(events),
    decreases events.len(),
{
    if events.len() > 0 {
        law_reports_are_passed_on(events.drop_last());
    }
}

/// A candidate goes out under its own media id where it has one that is a
/// string, and under 0 otherwise.
pub proof fn law_candidate_goes_out_under_its_media_id(candidate: serde_json::Value)
    ensures
        ({
            let step = signaling_step(SignalingEvent::Peer(PeerEvent::IceCandidate(candidate)));
            let members = json_strings(candidate);
            let name = seq!['s', 'd', 'p', 'M', 'i', 'd'];
            &&& step.next is Serve
            &&& step.send is Some
            &&& step.send->0 is IceCandidate
            &&& members.contains_key(name) ==> step.send->0->sdp_mid == members[name]
            &&& !members.contains_key(name) ==> step.send->0->sdp_mid == seq!['0']
        }),
{
    reveal_strlit("sdpMid");
    reveal_strlit("0");
    assert("sdpMid"@ =~= seq!['s', 'd', 'p', 'M', 'i', 'd']);
    assert("0"@ =~= seq!['0']);
}

/// A complaint about unreadable JSON or about a peer that could not be created
/// ends with the reason that was given, and the error of the peer is what the
/// exchange ends with.
pub proof fn law_complaints_give_the_reason(reason: String, error: AppError, text: String)
    ensures
        ({
            let step = signaling_step(SignalingEvent::BadJson { reason });
            let head = "invalid JSON: "@;
            &&& step.next == NextView::Return(Ok(()))
            &&& step.send matches Some(ServerMessageView::Error { message })
            &&& head.is_prefix_of(message)
            &&& message.skip(head.len() as int) == reason@
        }),
        ({
            let step = signaling_step(SignalingEvent::PeerFailed { error, text });
            let head = "failed to create peer: "@;
            &&& step.next == NextView::Return(Err(error@))
            &&& step.send matches Some(ServerMessageView::Error { message })
            &&& head.is_prefix_of(message)
            &&& message.skip(head.len() as int) == text@
        }),
{
    let json = "invalid JSON: "@;
    let peer = "failed to create peer: "@;
    assert((json + reason@).subrange(0, json.len() as int) =~= json);
    assert((json + reason@).skip(json.len() as int) =~= reason@);
    assert((peer + text@).subrange(0, peer.len() as int) =~= peer);
    assert((peer + text@).skip(peer.len() as int) =~= text@);
}

/// A peer is created for the request of a stream alone; any other first message
/// is refused whatever it holds. While a peer is served, only its failure or
/// its end closes the exchange.
pub proof fn law_what_opens_and_closes_an_exchange(event: SignalingEvent)
    ensures
        signaling_step(event).next is CreatePeer <==> event == SignalingEvent::Request(
            ClientMessage::RequestStream,
        ),
        signaling_step(event).next is Serve <==> event is PeerReady || (event matches
            SignalingEvent::Peer(report) && !(report is ConnectionFailed)),
        signaling_step(event).next is Close <==> event is PeerGone || event
            == SignalingEvent::Peer(PeerEvent::ConnectionFailed),
        event matches SignalingEvent::Request(message) ==> !(message is RequestStream)
            ==> signaling_step(event).next == NextView::Return(Ok(()))
            && signaling_step(event).send == Some(
            ServerMessageView::Error { message: "expected request_stream"@ },
        ),
{
}

/// A parsed answer reaches the peer as it is; an error ends the listening and is
/// handed on as it is.
pub proof fn law_answer_reaches_the_peer(description: RTCSessionDescription, error: webrtc::Error)
    ensures
        answer_action(Ok(description)) == ClientAction::Tell(
            PeerCommand::SetRemoteDescription(description),
        ),
        answer_action(Err(error)) == ClientAction::Reject(error),
{
}

/// The JSON text of a browser's candidate has three members: the candidate and
/// the media id as strings that are read back as they came, and between them
/// the index as a numeral of its value.
pub proof fn law_candidate_text_tells_all(
    candidate: Seq<char>,
    sdp_mid: Seq<char>,
    sdp_mline_index: u16,
)
    ensures
        ({
            let text = candidate_text(candidate, sdp_mid, sdp_mline_index);
            let a = "{\"candidate\":"@;
            let b = ",\"sdpMLineIndex\":"@;
            let c = ",\"sdpMid\":"@;
            let number = decimal(sdp_mline_index as nat);
            &&& text == a + json_quoted(candidate) + b + number + c + json_quoted(sdp_mid) + "}"@
            &&& is_json_string_of(json_quoted(candidate), candidate)
            &&& numeral_value(number) == sdp_mline_index
            &&& is_json_string_of(json_quoted(sdp_mid), sdp_mid)
        }),
{
    let text = candidate_text(candidate, sdp_mid, sdp_mline_index);
    let first = json_quoted(candidate);
    let number = decimal(sdp_mline_index as nat);
    let second = json_quoted(sdp_mid);
    law_decimal_reads_back(sdp_mline_index as nat);
    law_json_string_reads_back(candidate);
    law_json_string_reads_back(sdp_mid);
    let none = Seq::<(Seq<char>, Seq<char>)>::empty();
    let one = none.push(("candidate"@, first));
    let two = one.push(("sdpMLineIndex"@, number));
    let three = two.push(("sdpMid"@, second));
    law_object_text_grows(none, "candidate"@, first);
    law_object_text_grows(one, "sdpMLineIndex"@, number);
    law_object_text_grows(two, "sdpMid"@, second);
    assert(three =~= seq![
        ("candidate"@, first),
        ("sdpMLineIndex"@, number),
        ("sdpMid"@, second),
    ]);
    lemma_quoted_keys();
    let a = "{\"candidate\":"@;
    let b = ",\"sdpMLineIndex\":"@;
    let c = ",\"sdpMid\":"@;
    reveal_strlit("}");
    let t1 = json_object_text(one);
    let t2 = json_object_text(two);
    assert(t1 =~= a + first + "}"@);
    assert(t1.subrange(1, t1.len() - 1) =~= a.skip(1) + first);
    assert(t2 =~= a + first + b + number + "}"@);
    assert(t2.subrange(1, t2.len() - 1) =~= a.skip(1) + first + b + number);
    assert(text =~= a + first + b + number + c + second + "}"@);
}

/// Whether `string` is a JSON string that is read back as `text`.
pub open spec fn is_json_string_of(string: Seq<char>, text: Seq<char>) -> bool {
    &&& string.len() >= 2
    &&& string.first() == '"'
    &&& string.last() == '"'
    &&& unescaped(string.subrange(1, string.len() - 1)) == text
}

proof fn lemma_plain_is_quoted(text: Seq<char>)
    requires
        forall|i: int| 0 <= i < text.len() ==> 'A' <= #[trigger] text[i] <= 'z' && text[i] != '\\',
    ensures
        json_quoted(text) == seq!['"'] + text + seq!['"'],
{
    lemma_plain_is_kept(text);
}

proof fn lemma_plain_is_kept(text: Seq<char>)
    requires
        forall|i: int| 0 <= i < text.len() ==> 'A' <= #[trigger] text[i] <= 'z' && text[i] != '\\',
    ensures
        text.map_values(|c: char| json_escape(c)).flatten() == text,
    decreases text.len(),
{
    let escaped = text.map_values(|c: char| json_escape(c));
    if text.len() == 0 {
        assert(escaped.flatten() =~= text);
    } else {
        let rest = text.drop_first();
        assert forall|i: int| 0 <= i < rest.len() implies 'A' <= #[trigger] rest[i] <= 'z'
            && rest[i] != '\\' by {
            assert(rest[i] == text[i + 1]);
        }
        lemma_plain_is_kept(rest);
        assert(escaped.drop_first() =~= rest.map_values(|c: char| json_escape(c)));
        assert(json_escape(text[0]) =~= seq![text[0]]);
        assert(escaped.flatten() =~= text);
    }
}

proof fn lemma_quoted_keys()
    ensures
        seq!['{'] + (json_quoted("candidate"@) + seq![':']) == "{\"candidate\":"@,
        seq![','] + (json_quoted("sdpMLineIndex"@) + seq![':']) == ",\"sdpMLineIndex\":"@,
        seq![','] + (json_quoted("sdpMid"@) + seq![':']) == ",\"sdpMid\":"@,
{
    reveal_strlit("candidate");
    reveal_strlit("sdpMLineIndex");
    reveal_strlit("sdpMid");
    reveal_strlit("{\"candidate\":");
    reveal_strlit(",\"sdpMLineIndex\":");
    reveal_strlit(",\"sdpMid\":");
    lemma_plain_is_quoted("candidate"@);
    lemma_plain_is_quoted("sdpMLineIndex"@);
    lemma_plain_is_quoted("sdpMid"@);
    assert(seq!['{'] + (json_quoted("candidate"@) + seq![':']) =~= "{\"candidate\":"@);
    assert(seq![','] + (json_quoted("sdpMLineIndex"@) + seq![':']) =~= ",\"sdpMLineIndex\":"@);
    assert(seq![','] + (json_quoted("sdpMid"@) + seq![':']) =~= ",\"sdpMid\":"@);
}

} // verus!
