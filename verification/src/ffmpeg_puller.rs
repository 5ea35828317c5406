//! Transcoding pull of an H.265 source: FFmpeg turns it into H.264 and sends
//! RTP packets to a local UDP port, from where they are relayed.

use crate::codec::H264CodecInfo;
use crate::error::{AppError, AppErrorView};
use crate::payload::{bytes_content, RtpPacket};
use crate::text::{concat3, decimal, push_arg, push_decimal, texts};
use vstd::prelude::*;
use vstd::string::*;

verus! {

/// Milliseconds that FFmpeg gets to connect before it is looked at.
pub const SETTLE_MILLIS: u64 = 1500;

/// The RTP payload type that FFmpeg uses for the video.
pub const RTP_PAYLOAD_TYPE: u8 = 96;

/// A running transcoding pull, with the FFmpeg process (`C`) and the task that
/// relays its packets (`H`).
pub struct FfmpegPuller<C, H> {
    pub child: C,
    pub handle: H,
    pub codec_info: H264CodecInfo,
}

/// What has happened in starting a transcoding pull.
pub enum StartEvent<C, H> {
    /// The pull is asked for.
    Requested,
    /// A local UDP socket is bound to this port.
    Bound { port: u16 },
    /// No socket could be bound.
    BindFailed { error: String },
    /// The socket's port could not be read.
    AddrFailed { error: String },
    /// FFmpeg has been started.
    Spawned { child: C },
    /// FFmpeg could not be started.
    SpawnFailed { error: String },
    /// FFmpeg had its time to connect; `exit` is its status if it has ended.
    Settled { child: C, exit: Option<String> },
    /// The relay task is running.
    Relaying { child: C, handle: H },
}

/// What is to be done next in starting a transcoding pull.
pub enum StartAction<C, H> {
    /// Bind a UDP socket to any port of the loopback address, so that the port
    /// is ready before FFmpeg sends.
    BindSocket,
    /// Run FFmpeg with these arguments.
    Spawn { args: Vec<String> },
    /// Wait this long, then look whether FFmpeg has ended.
    Settle { child: C, millis: u64 },
    /// Start the relay task on the socket.
    StartRelay { child: C },
    /// Report the running pull.
    Started(FfmpegPuller<C, H>),
    /// Report the error.
    Failed(AppError),
}

/// What is to be done with the outcome of reading a packet.
pub enum RelayStep {
    /// Hand the packet to the relay.
    Relay(RtpPacket),
    /// Nothing: the datagram was empty.
    Skip,
    /// Stop relaying.
    Stop,
}

/// The arguments with which FFmpeg transcodes `url` to H.264 RTP on `port`.
pub open spec fn transcode_args(url: Seq<char>, port: u16) -> Seq<Seq<char>> {
    seq![
        "-loglevel"@,
        "error"@,
        "-rtsp_transport"@,
        "tcp"@,
        "-i"@,
        url,
        "-an"@,
        "-vcodec"@,
        "libx264"@,
        "-profile:v"@,
        "baseline"@,
        "-level"@,
        "3.1"@,
        "-preset"@,
        "ultrafast"@,
        "-tune"@,
        "zerolatency"@,
        "-g"@,
        "60"@,
        "-f"@,
        "rtp"@,
        "rtp://127.0.0.1:"@ + decimal(port as nat),
    ]
}

fn transcode_arguments(rtsp_url: &str, port: u16) -> (args: Vec<String>)
    ensures
        texts(args@) == transcode_args(rtsp_url@, port),
{
    let mut target = "rtp://127.0.0.1:".to_owned();
    push_decimal(&mut target, port as u64);
    let mut args: Vec<String> = Vec::new();
    push_arg(&mut args, "-loglevel");
    push_arg(&mut args, "error");
    push_arg(&mut args, "-rtsp_transport");
    push_arg(&mut args, "tcp");
    push_arg(&mut args, "-i");
    push_arg(&mut args, rtsp_url);
    push_arg(&mut args, "-an");
    push_arg(&mut args, "-vcodec");
    push_arg(&mut args, "libx264");
    push_arg(&mut args, "-profile:v");
    push_arg(&mut args, "baseline");
    push_arg(&mut args, "-level");
    push_arg(&mut args, "3.1");
    push_arg(&mut args, "-preset");
    push_arg(&mut args, "ultrafast");
    push_arg(&mut args, "-tune");
    push_arg(&mut args, "zerolatency");
    push_arg(&mut args, "-g");
    push_arg(&mut args, "60");
    push_arg(&mut args, "-f");
    push_arg(&mut args, "rtp");
    push_arg(&mut args, target.as_str());
    assert(texts(args@) =~= transcode_args(rtsp_url@, port));
    args
}

impl<C, H> FfmpegPuller<C, H> {
    /// Takes one step in starting a transcoding pull of `rtsp_url`: from what
    /// has happened to what is to be done next. On failure the FFmpeg process
    /// handed in is dropped.
    pub fn start(rtsp_url: &str, event: StartEvent<C, H>) -> (action: StartAction<C, H>)
        ensures
            match event {
                StartEvent::Requested => action == StartAction::<C, H>::BindSocket,
                StartEvent::Bound { port } => {
                    &&& action matches StartAction::Spawn { args }
                    &&& texts(args@) == transcode_args(rtsp_url@, port)
                },
                StartEvent::BindFailed { error } => {
                    &&& action matches StartAction::Failed(e)
                    &&& e@ == AppErrorView::Other("UDP bind failed: "@ + error@)
                },
                StartEvent::AddrFailed { error } => {
                    &&& action matches StartAction::Failed(e)
                    &&& e@ == AppErrorView::Other("UDP local_addr: "@ + error@)
                },
                StartEvent::Spawned { child } => action == (StartAction::<C, H>::Settle {
                    child,
                    millis: SETTLE_MILLIS,
                }),
                StartEvent::SpawnFailed { error } => {
                    &&& action matches StartAction::Failed(e)
                    &&& e@ == AppErrorView::Other(
                        "failed to start ffmpeg: "@ + error@ + " (is ffmpeg installed?)"@,
                    )
                },
                StartEvent::Settled { child, exit } => match exit {
                    Some(status) => {
                        &&& action matches StartAction::Failed(e)
                        &&& e@ == AppErrorView::Other(
                            "FFmpeg exited early (status "@ + status@
                                + ") — check RTSP URL and credentials"@,
                        )
                    },
                    None => action == (StartAction::<C, H>::StartRelay { child }),
                },
                StartEvent::Relaying { child, handle } => {
                    &&& action matches StartAction::Started(puller)
                    &&& puller.child == child
                    &&& puller.handle == handle
                    &&& puller.codec_info.payload_type == RTP_PAYLOAD_TYPE
                    &&& puller.codec_info.sps@ == Seq::<u8>::empty()
                    &&& puller.codec_info.pps@ == Seq::<u8>::empty()
                },
            },
    {
        match event {
            StartEvent::Requested => StartAction::BindSocket,
            StartEvent::Bound { port } => StartAction::Spawn {
                args: transcode_arguments(rtsp_url, port),
            },
            StartEvent::BindFailed { error } => {
                let mut text = "UDP bind failed: ".to_owned();
                text.append(error.as_str());
                StartAction::Failed(AppError::Other(text))
            },
            StartEvent::AddrFailed { error } => {
                let mut text = "UDP local_addr: ".to_owned();
                text.append(error.as_str());
                StartAction::Failed(AppError::Other(text))
            },
            StartEvent::Spawned { child } => StartAction::Settle { child, millis: SETTLE_MILLIS },
            StartEvent::SpawnFailed { error } => StartAction::Failed(
                AppError::Other(
                    concat3("failed to start ffmpeg: ", error.as_str(), " (is ffmpeg installed?)"),
                ),
            ),
            StartEvent::Settled { child, exit } => match exit {
                Some(status) => StartAction::Failed(
                    AppError::Other(
                        concat3(
                            "FFmpeg exited early (status ",
                            status.as_str(),
                            ") — check RTSP URL and credentials",
                        ),
                    ),
                ),
                None => StartAction::StartRelay { child },
            },
            // FFmpeg sends its parameter sets in band with every key frame, so
            // none are announced.
            StartEvent::Relaying { child, handle } => StartAction::Started(
                FfmpegPuller {
                    child,
                    handle,
                    codec_info: H264CodecInfo {
                        payload_type: RTP_PAYLOAD_TYPE,
                        sps: Vec::new(),
                        pps: Vec::new(),
                    },
                },
            ),
        }
    }
}

/// Decides what to do with the outcome of receiving into `buf`: the length of
/// a datagram, or `None` for an error.
pub fn relay_datagram(buf: &[u8], received: Option<usize>) -> (step: RelayStep)
    requires
        received matches Some(n) ==> n <= buf@.len(),
    ensures
        match received {
            Some(n) => if n > 0 {
                step matches RelayStep::Relay(packet) && bytes_content(packet.data) == buf@.take(
                    n as int,
                )
            } else {
                step == RelayStep::Skip
            },
            None => step == RelayStep::Stop,
        },
{
    match received {
        Some(n) => {
            if n > 0 {
                let data = vstd::slice::slice_subrange(buf, 0, n);
                RelayStep::Relay(RtpPacket { data: bytes::Bytes::copy_from_slice(data) })
            } else {
                RelayStep::Skip
            }
        },
        None => RelayStep::Stop,
    }
}

/// Whatever the URL and the port, FFmpeg reads the URL that was asked for and
/// sends to a numeral of the bound port on the loopback address.
pub proof fn law_transcoder_reads_url_and_sends_to_port(url: Seq<char>, port: u16)
    ensures
        ({
            let args = transcode_args(url, port);
            let target = args.last();
            let scheme = "rtp://127.0.0.1:"@;
            &&& args.len() == 22
            &&& args[4] == "-i"@
            &&& args[5] == url
            &&& args[19] == "-f"@
            &&& args[20] == "rtp"@
            &&& scheme.is_prefix_of(target)
            &&& crate::text::numeral_value(target.skip(scheme.len() as int)) == port
            &&& forall|i: int|
                scheme.len() <= i < target.len() ==> '0' <= #[trigger] target[i] <= '9'
        }),
{
    let scheme = "rtp://127.0.0.1:"@;
    let target = transcode_args(url, port).last();
    let number = decimal(port as nat);
    crate::text::law_decimal_reads_back(port as nat);
    assert(target =~= scheme + number);
    assert(target.take(scheme.len() as int) =~= scheme);
    assert(target.skip(scheme.len() as int) =~= number);
    assert forall|i: int| scheme.len() <= i < target.len() implies '0' <= #[trigger] target[i]
        <= '9' by {
        assert(target[i] == number[i - scheme.len()]);
    }
}

/// The arguments for two pulls differ in the URL and in the target only, and
/// different ports have different targets.
pub proof fn law_transcoders_differ_in_url_and_port(
    url1: Seq<char>,
    port1: u16,
    url2: Seq<char>,
    port2: u16,
)
    ensures
        ({
            let args1 = transcode_args(url1, port1);
            let args2 = transcode_args(url2, port2);
            &&& args1.update(5, url2).update(21, args2[21]) == args2
            &&& args1[21] == args2[21] <==> port1 == port2
        }),
{
    let args1 = transcode_args(url1, port1);
    let args2 = transcode_args(url2, port2);
    law_transcoder_reads_url_and_sends_to_port(url1, port1);
    law_transcoder_reads_url_and_sends_to_port(url2, port2);
    assert(args1.update(5, url2).update(21, args2[21]) =~= args2);
}

} // verus!
