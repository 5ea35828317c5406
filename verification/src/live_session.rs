//! The course of a live stream: starting FFmpeg, relaying what it writes, and
//! serving one WebSocket client.

use crate::flv::{InitCache, InitCacheView};
use crate::live::BROADCAST_CAP;
use crate::payload::{bytes_content, bytes_from_vec};
use crate::text::{concat3, push_arg, texts};
use vstd::prelude::*;

verus! {

/// What has happened in starting FFmpeg.
pub enum SpawnEvent {
    /// FFmpeg is wanted.
    Requested,
    /// The camera was asked for its codec.
    Probed { h265: bool },
    /// FFmpeg is running.
    Launched,
    /// FFmpeg could not be run.
    LaunchFailed { error: String },
}

/// What is to be done next in starting FFmpeg.
pub enum SpawnAction {
    /// Ask the camera whether it sends H.265.
    Probe,
    /// Run FFmpeg with these arguments, its output piped.
    Launch { args: Vec<String> },
    /// Relay the output to a channel of this capacity, with this cache.
    Relay { cache: InitCache, capacity: usize },
    /// Report the error.
    Fail { message: String },
}

/// The arguments with which FFmpeg turns `url` into MPEG-TS or FLV on its
/// standard output: MPEG-TS carries the video as it is; for FLV it is
/// transcoded to H.264 if `h265`.
pub open spec fn live_args(url: Seq<char>, mpegts: bool, h265: bool) -> Seq<Seq<char>> {
    let input = seq![
        "-loglevel"@,
        "error"@,
        "-rtsp_transport"@,
        "tcp"@,
        "-i"@,
        url,
        "-an"@,
    ];
    let codec = if h265 && !mpegts {
        seq![
            "-c:v"@,
            "libx264"@,
            "-preset"@,
            "ultrafast"@,
            "-tune"@,
            "zerolatency"@,
        ]
    } else {
        seq!["-c:v"@, "copy"@]
    };
    let format = if mpegts {
        "mpegts"@
    } else {
        "flv"@
    };
    input + codec + seq!["-f"@, format, "pipe:1"@]
}

fn live_arguments(rtsp_url: &str, mpegts: bool, h265: bool) -> (args: Vec<String>)
    ensures
        texts(args@) == live_args(rtsp_url@, mpegts, h265),
{
    let mut args: Vec<String> = Vec::new();
    push_arg(&mut args, "-loglevel");
    push_arg(&mut args, "error");
    push_arg(&mut args, "-rtsp_transport");
    push_arg(&mut args, "tcp");
    push_arg(&mut args, "-i");
    push_arg(&mut args, rtsp_url);
    push_arg(&mut args, "-an");
    push_arg(&mut args, "-c:v");
    if h265 && !mpegts {
        push_arg(&mut args, "libx264");
        push_arg(&mut args, "-preset");
        push_arg(&mut args, "ultrafast");
        push_arg(&mut args, "-tune");
        push_arg(&mut args, "zerolatency");
    } else {
        push_arg(&mut args, "copy");
    }
    push_arg(&mut args, "-f");
    if mpegts {
        push_arg(&mut args, "mpegts");
    } else {
        push_arg(&mut args, "flv");
    }
    push_arg(&mut args, "pipe:1");
    assert(texts(args@) =~= live_args(rtsp_url@, mpegts, h265));
    args
}

/// Takes one step in starting FFmpeg for a camera: from what has happened to
/// what is to be done next. Only for FLV the camera's codec matters.
pub fn spawn_ffmpeg(rtsp_url: &str, mpegts: bool, event: SpawnEvent) -> (action: SpawnAction)
    ensures
        match event {
            SpawnEvent::Requested => if mpegts {
                &&& action matches SpawnAction::Launch { args }
                &&& texts(args@) == live_args(rtsp_url@, true, false)
            } else {
                action == SpawnAction::Probe
            },
            SpawnEvent::Probed { h265 } => {
                &&& action matches SpawnAction::Launch { args }
                &&& texts(args@) == live_args(rtsp_url@, mpegts, h265)
            },
            SpawnEvent::Launched => {
                &&& action matches SpawnAction::Relay { cache, capacity }
                &&& cache@ == InitCacheView::start(mpegts)
                &&& capacity == BROADCAST_CAP
            },
            SpawnEvent::LaunchFailed { error } => {
                &&& action matches SpawnAction::Fail { message }
                &&& message@ == "failed to start FFmpeg: "@ + error@ + " (is ffmpeg installed?)"@
            },
        },
{
    match event {
        SpawnEvent::Requested => {
            if mpegts {
                SpawnAction::Launch { args: live_arguments(rtsp_url, true, false) }
            } else {
                SpawnAction::Probe
            }
        },
        SpawnEvent::Probed { h265 } => SpawnAction::Launch {
            args: live_arguments(rtsp_url, mpegts, h265),
        },
        SpawnEvent::Launched => SpawnAction::Relay {
            cache: InitCache::new(mpegts),
            capacity: BROADCAST_CAP,
        },
        SpawnEvent::LaunchFailed { error } => SpawnAction::Fail {
            message: concat3(
                "failed to start FFmpeg: ",
                error.as_str(),
                " (is ffmpeg installed?)",
            ),
        },
    }
}

/// Takes in the outcome of reading FFmpeg's output into `buf`: the number of
/// bytes, zero at the end, or `None` for an error. Returns the chunk to send
/// to the clients, or `None` to stop.
pub fn relay_chunk(cache: &mut InitCache, buf: &[u8], read: Option<usize>) -> (chunk: Option<
    bytes::Bytes,
>)
    requires
        read matches Some(n) ==> n <= buf@.len(),
    ensures
        match read {
            Some(n) if n > 0 => {
                &&& final(cache)@ == old(cache)@.absorbed(buf@.take(n as int))
                &&& chunk matches Some(data)
                &&& bytes_content(data) == buf@.take(n as int)
            },
            _ => final(cache)@ == old(cache)@ && chunk is None,
        },
{
    match read {
        Some(n) => {
            if n == 0 {
                return None;
            }
            let data = vstd::slice::slice_subrange(buf, 0, n);
            cache.absorb(data);
            Some(bytes::Bytes::copy_from_slice(data))
        },
        None => None,
    }
}

/// What has happened to a WebSocket client.
pub enum RunEvent {
    /// It is subscribed; a late subscriber needs this data first.
    Subscribed { init: Vec<u8> },
    /// It could not be subscribed.
    Refused,
    /// A message was sent to it, or not.
    Sent { ok: bool },
    /// A chunk of the stream has come.
    Chunk(bytes::Bytes),
    /// It was too slow and has missed chunks.
    Lagged,
    /// The stream has ended.
    Ended,
    /// It has closed the connection.
    ClientClosed,
    /// It has sent something else.
    ClientSpoke,
}

/// What is to be done next for a WebSocket client.
pub enum RunAction {
    /// Send it this.
    Send(bytes::Bytes),
    /// Wait for the next chunk or for a message from it.
    Listen,
    /// Unsubscribe it and end.
    Leave,
    /// End.
    Finish,
}

/// A `RunAction` with its data as a sequence.
pub enum RunActionView {
    Send(Seq<u8>),
    Listen,
    Leave,
    Finish,
}

impl View for RunAction {
    type V = RunActionView;

    open spec fn view(&self) -> RunActionView {
        match self {
            RunAction::Send(data) => RunActionView::Send(bytes_content(*data)),
            RunAction::Listen => RunActionView::Listen,
            RunAction::Leave => RunActionView::Leave,
            RunAction::Finish => RunActionView::Finish,
        }
    }
}

/// What is to be done on `event`.
pub open spec fn reaction(event: RunEvent) -> RunActionView {
    match event {
        RunEvent::Subscribed { init } => if init@.len() > 0 {
            RunActionView::Send(init@)
        } else {
            RunActionView::Listen
        },
        RunEvent::Refused => RunActionView::Finish,
        RunEvent::Sent { ok } => if ok {
            RunActionView::Listen
        } else {
            RunActionView::Leave
        },
        RunEvent::Chunk(data) => RunActionView::Send(bytes_content(data)),
        RunEvent::Lagged => RunActionView::Listen,
        RunEvent::Ended => RunActionView::Leave,
        RunEvent::ClientClosed => RunActionView::Leave,
        RunEvent::ClientSpoke => RunActionView::Listen,
    }
}

/// Takes one step in serving a WebSocket client: from what has happened to
/// what is to be done next.
pub fn run(event: RunEvent) -> (action: RunAction)
    ensures
        action@ == reaction(event),
{
    match event {
        RunEvent::Subscribed { init } => {
            if init.len() > 0 {
                RunAction::Send(bytes_from_vec(init))
            } else {
                RunAction::Listen
            }
        },
        RunEvent::Refused => RunAction::Finish,
        RunEvent::Sent { ok } => {
            if ok {
                RunAction::Listen
            } else {
                RunAction::Leave
            }
        },
        RunEvent::Chunk(data) => RunAction::Send(data),
        RunEvent::Lagged => RunAction::Listen,
        RunEvent::Ended => RunAction::Leave,
        RunEvent::ClientClosed => RunAction::Leave,
        RunEvent::ClientSpoke => RunAction::Listen,
    }
}

/// Whether `event` can be what comes of `action`.
pub open spec fn can_follow(action: RunActionView, event: RunEvent) -> bool {
    match action {
        RunActionView::Send(_) => event is Sent,
        RunActionView::Listen => event is Chunk || event is Lagged || event is Ended
            || event is ClientClosed || event is ClientSpoke,
        RunActionView::Leave => false,
        RunActionView::Finish => false,
    }
}

/// Whether `events` can be what happens to one client, from its request on,
/// when each action is carried out.
pub open spec fn is_course(events: Seq<RunEvent>) -> bool {
    &&& events.len() > 0
    &&& events[0] is Subscribed || events[0] is Refused
    &&& forall|i: int, j: int|
        0 <= i < j < events.len() && j == i + 1 ==> can_follow(
            reaction(#[trigger] events[i]),
            #[trigger] events[j],
        )
}

/// A client that was subscribed is unsubscribed once, as the last thing that
/// is done for it, however its course ends; a client that was not subscribed
/// is never unsubscribed.
pub proof fn law_subscribed_clients_leave_once(events: Seq<RunEvent>, i: int)
    requires
        is_course(events),
        0 <= i < events.len(),
    ensures
        reaction(events[i]) is Leave ==> i == events.len() - 1 && events[0] is Subscribed,
        reaction(events[i]) is Finish ==> i == events.len() - 1 && events[0] is Refused,
{
    if reaction(events[i]) is Leave || reaction(events[i]) is Finish {
        if i + 1 < events.len() {
            let next = events[i + 1];
            assert(can_follow(reaction(events[i]), next));
        }
        if i > 0 {
            lemma_later_events(events, i);
        }
    }
}

proof fn lemma_later_events(events: Seq<RunEvent>, i: int)
    requires
        is_course(events),
        0 < i < events.len(),
    ensures
        !(events[i] is Subscribed),
        !(events[i] is Refused),
        events[0] is Subscribed,
{
    let before = events[i - 1];
    assert(can_follow(reaction(before), events[i]));
    let first = events[0];
    let second = events[1];
    assert(can_follow(reaction(first), second));
}

/// The messages that are sent on `events`, in order.
pub open spec fn sent_messages(events: Seq<RunEvent>) -> Seq<Seq<u8>>
    decreases events.len(),
{
    if events.len() == 0 {
        seq![]
    } else {
        let before = sent_messages(events.drop_last());
        match reaction(events.last()) {
            RunActionView::Send(data) => before.push(data),
            _ => before,
        }
    }
}

/// The chunks among `events`, in order.
pub open spec fn chunks_of(events: Seq<RunEvent>) -> Seq<Seq<u8>>
    decreases events.len(),
{
    if events.len() == 0 {
        seq![]
    } else {
        let before = chunks_of(events.drop_last());
        match events.last() {
            RunEvent::Chunk(data) => before.push(bytes_content(data)),
            _ => before,
        }
    }
}

/// A subscribed client is sent the start of the stream that was cached for it
/// as one message, unless that is empty, then every chunk that came as a
/// message of its own, in order, and nothing else.
pub proof fn law_client_gets_head_then_chunks(events: Seq<RunEvent>)
    requires
        is_course(events),
        events[0] is Subscribed,
    ensures
        ({
            let init = events[0]->init@;
            let head = if init.len() > 0 {
                seq![init]
            } else {
                seq![]
            };
            sent_messages(events) == head + chunks_of(events)
        }),
    decreases events.len(),
{
    let init = events[0]->init@;
    let head = if init.len() > 0 {
        seq![init]
    } else {
        seq![]
    };
    let before = events.drop_last();
    if events.len() == 1 {
        assert(sent_messages(before) =~= seq![]);
        assert(chunks_of(before) =~= seq![]);
    } else {
        assert(is_course(before));
        law_client_gets_head_then_chunks(before);
        lemma_later_events(events, events.len() - 1);
    }
    assert(sent_messages(events) =~= head + chunks_of(events));
}

/// FFmpeg reads the URL that was asked for and writes the wanted format to its
/// standard output, without audio. The video is transcoded to H.264 exactly
/// where H.265 is wanted as FLV, and copied everywhere else.
pub proof fn law_live_arguments(url: Seq<char>, mpegts: bool, h265: bool)
    ensures
        ({
            let args = live_args(url, mpegts, h265);
            let n = args.len() as int;
            &&& args[0] == "-loglevel"@ && args[1] == "error"@
            &&& args[2] == "-rtsp_transport"@ && args[3] == "tcp"@
            &&& args[4] == "-i"@ && args[5] == url
            &&& args[6] == "-an"@
            &&& args[7] == "-c:v"@
            &&& h265 && !mpegts ==> n == 16 && args[8] == "libx264"@ && args[9] == "-preset"@
                && args[10] == "ultrafast"@ && args[11] == "-tune"@ && args[12] == "zerolatency"@
            &&& !h265 || mpegts ==> n == 12 && args[8] == "copy"@
            &&& args[n - 3] == "-f"@
            &&& mpegts ==> args[n - 2] == "mpegts"@
            &&& !mpegts ==> args[n - 2] == "flv"@
            &&& args[n - 1] == "pipe:1"@
        }),
{
}

/// The arguments for two cameras differ in the URL only, and the codec of the
/// camera makes no difference for MPEG-TS.
pub proof fn law_live_arguments_differ_in_url(
    url1: Seq<char>,
    url2: Seq<char>,
    mpegts: bool,
    h265: bool,
)
    ensures
        live_args(url1, mpegts, h265).update(5, url2) == live_args(url2, mpegts, h265),
        live_args(url1, true, h265) == live_args(url1, true, false),
{
    assert(live_args(url1, mpegts, h265).update(5, url2) =~= live_args(url2, mpegts, h265));
    assert(live_args(url1, true, h265) =~= live_args(url1, true, false));
}

/// The view of an action tells the kind of the action and the very bytes that
/// are sent.
pub proof fn law_action_view_tells_all(action: RunAction)
    ensures
        action is Send <==> action@ is Send,
        action is Listen <==> action@ is Listen,
        action is Leave <==> action@ is Leave,
        action is Finish <==> action@ is Finish,
        action matches RunAction::Send(data) ==> action@ == RunActionView::Send(
            bytes_content(data),
        ),
{
}

/// Sending goes on whatever the data; only failure, the end of the stream and
/// the client's leaving end it, and only a refused client has nothing to leave.
pub proof fn law_what_ends_a_client(event: RunEvent)
    ensures
        reaction(event) is Leave <==> event == (RunEvent::Sent { ok: false }) || event is Ended
            || event is ClientClosed,
        reaction(event) is Finish <==> event is Refused,
        reaction(event) is Send <==> event is Chunk || (event is Subscribed && event->init@.len()
            > 0),
{
}

} // verus!
