//! The registry of active RTSP streams: one pull per source, shared by any
//! number of WebRTC peers within limits, and stopped some time after the last
//! peer has left.
//!
//! The registry holds the runtime objects of a stream without looking into
//! them: its relay (`R`), its puller (`N` for a native one, `F` for one that
//! transcodes) and the handle of its idle timer (`T`).

use crate::codec::{CodecView, H264CodecInfo};
use crate::error::{AppError, AppErrorView, AppResult};
use crate::registry::Registry;
use crate::text::{concat3, decimal, push_decimal, same_text};
use std::sync::Arc;
use vstd::prelude::*;
use vstd::string::*;

verus! {

pub type StreamId = String;

/// Seconds that a stream without subscribers is kept.
pub const IDLE_SECS: u64 = 30;

/// Seconds within which a new pull must deliver its first packet.
pub const PROBE_SECS: u64 = 5;

/// Packets that a stream's relay buffers for each of its peers.
pub const RELAY_CAPACITY: usize = 256;

/// What pulls a source: a native H.264 puller, or one that transcodes.
pub enum ActivePuller<N, F> {
    Retina(N),
    Ffmpeg(F),
}

struct ActiveStream<R, N, F, T> {
    url: String,
    relay: Arc<R>,
    codec_info: H264CodecInfo,
    subscriber_count: usize,
    puller: ActivePuller<N, F>,
    idle_timer: Option<T>,
}

/// Central registry of the active RTSP streams.
pub struct StreamManager<R, N, F, T> {
    streams: Registry<ActiveStream<R, N, F, T>>,
    total_peers: usize,
}

/// Lightweight summary of a stream.
pub struct StreamSummary {
    pub id: String,
    pub subscribers: usize,
    pub connected: bool,
    pub url: String,
}

/// Detailed information on a single stream.
pub struct StreamDetail {
    pub id: String,
    pub subscribers: usize,
    pub connected: bool,
    pub codec: String,
    pub payload_type: u8,
    pub url: String,
}

impl Clone for StreamSummary {
    fn clone(&self) -> (copy: StreamSummary)
        ensures
            copy.id@ == self.id@,
            copy.subscribers == self.subscribers,
            copy.connected == self.connected,
            copy.url@ == self.url@,
    {
        StreamSummary {
            id: self.id.clone(),
            subscribers: self.subscribers,
            connected: self.connected,
            url: self.url.clone(),
        }
    }
}

impl Clone for StreamDetail {
    fn clone(&self) -> (copy: StreamDetail)
        ensures
            copy.id@ == self.id@,
            copy.subscribers == self.subscribers,
            copy.connected == self.connected,
            copy.codec@ == self.codec@,
            copy.payload_type == self.payload_type,
            copy.url@ == self.url@,
    {
        StreamDetail {
            id: self.id.clone(),
            subscribers: self.subscribers,
            connected: self.connected,
            codec: self.codec.clone(),
            payload_type: self.payload_type,
            url: self.url.clone(),
        }
    }
}

/// An active stream.
pub struct StreamView<R, N, F, T> {
    pub url: Seq<char>,
    pub relay: Arc<R>,
    pub codec: CodecView,
    pub subscribers: nat,
    pub puller: ActivePuller<N, F>,
    pub idle_timer: Option<T>,
}

/// The streams by their ids, and the count of peers.
pub struct ManagerView<R, N, F, T> {
    pub streams: Map<Seq<char>, StreamView<R, N, F, T>>,
    pub total_peers: nat,
}

impl<R, N, F, T> View for ActiveStream<R, N, F, T> {
    type V = StreamView<R, N, F, T>;

    closed spec fn view(&self) -> StreamView<R, N, F, T> {
        StreamView {
            url: self.url@,
            relay: self.relay,
            codec: self.codec_info@,
            subscribers: self.subscriber_count as nat,
            puller: self.puller,
            idle_timer: self.idle_timer,
        }
    }
}

impl<R, N, F, T> View for StreamManager<R, N, F, T> {
    type V = ManagerView<R, N, F, T>;

    closed spec fn view(&self) -> ManagerView<R, N, F, T> {
        ManagerView {
            streams: self.streams@.map_values(|s: ActiveStream<R, N, F, T>| s@),
            total_peers: self.total_peers as nat,
        }
    }
}

/// Whether `id` is the id of a stream that pulls `url`.
pub open spec fn pulls<R, N, F, T>(
    streams: Map<Seq<char>, StreamView<R, N, F, T>>,
    id: Seq<char>,
    url: Seq<char>,
) -> bool {
    streams.contains_key(id) && streams[id].url == url
}

/// Whether some stream pulls `url`.
pub open spec fn has_url<R, N, F, T>(
    streams: Map<Seq<char>, StreamView<R, N, F, T>>,
    url: Seq<char>,
) -> bool {
    exists|id: Seq<char>| pulls(streams, id, url)
}

/// No source is pulled twice.
pub open spec fn one_pull_per_url<R, N, F, T>(
    streams: Map<Seq<char>, StreamView<R, N, F, T>>,
) -> bool {
    forall|a: Seq<char>, b: Seq<char>, url: Seq<char>|
        #[trigger] pulls(streams, a, url) && #[trigger] pulls(streams, b, url) ==> a == b
}

/// The subscribers of all streams together.
pub open spec fn subscribers_of<R, N, F, T>(
    streams: Map<Seq<char>, StreamView<R, N, F, T>>,
) -> nat
    decreases streams.dom().len(),
{
    if streams.dom().finite() && streams.dom().len() > 0 {
        let id = streams.dom().choose();
        streams[id].subscribers + subscribers_of(streams.remove(id))
    } else {
        0
    }
}

impl<R, N, F, T> ManagerView<R, N, F, T> {
    /// There are finitely many streams, no source is pulled twice, and the
    /// count of peers is that of the subscribers of all streams.
    pub open spec fn wf(self) -> bool {
        &&& self.streams.dom().finite()
        &&& one_pull_per_url(self.streams)
        &&& self.total_peers == subscribers_of(self.streams)
    }

    /// The subscribers of stream `id`, none if there is no such stream.
    pub open spec fn subscribers_at(self, id: Seq<char>) -> nat {
        if self.streams.contains_key(id) {
            self.streams[id].subscribers
        } else {
            0
        }
    }

    /// A stream without subscribers is added under `id`. One that it replaces
    /// takes its peers with it.
    pub open spec fn created(self, id: Seq<char>, stream: StreamView<R, N, F, T>) -> Self {
        ManagerView {
            streams: self.streams.insert(id, stream),
            total_peers: (self.total_peers - self.subscribers_at(id)) as nat,
        }
    }

    /// A peer joins stream `id`, whose idle timer is called off.
    pub open spec fn joined(self, id: Seq<char>) -> Self {
        let stream = self.streams[id];
        ManagerView {
            streams: self.streams.insert(
                id,
                StreamView {
                    subscribers: stream.subscribers + 1,
                    idle_timer: None,
                    ..stream
                },
            ),
            total_peers: self.total_peers + 1,
        }
    }

    /// A peer leaves stream `id`. Nothing changes if the stream has none.
    pub open spec fn left(self, id: Seq<char>) -> Self {
        let stream = self.streams[id];
        ManagerView {
            streams: self.streams.insert(
                id,
                StreamView {
                    subscribers: if stream.subscribers == 0 {
                        0
                    } else {
                        (stream.subscribers - 1) as nat
                    },
                    ..stream
                },
            ),
            total_peers: if stream.subscribers == 0 {
                self.total_peers
            } else {
                (self.total_peers - 1) as nat
            },
        }
    }

    /// Stream `id` gets an idle timer.
    pub open spec fn armed(self, id: Seq<char>, timer: T) -> Self {
        ManagerView {
            streams: self.streams.insert(
                id,
                StreamView { idle_timer: Some(timer), ..self.streams[id] },
            ),
            ..self
        }
    }

    /// Stream `id` is dropped, and its peers are counted no longer.
    pub open spec fn removed(self, id: Seq<char>) -> Self {
        ManagerView {
            streams: self.streams.remove(id),
            total_peers: (self.total_peers - self.subscribers_at(id)) as nat,
        }
    }

    /// The idle time of stream `id` is over: it is dropped if nobody watches.
    pub open spec fn expired(self, id: Seq<char>) -> Self {
        if self.streams.contains_key(id) && self.streams[id].subscribers == 0 {
            self.removed(id)
        } else {
            self
        }
    }
}

/// Whether `s` is a random UUID in hyphenated lower-case form.
pub open spec fn is_uuid_v4(s: Seq<char>) -> bool {
    &&& s.len() == 36
    &&& forall|i: int|
        0 <= i < 36 ==> if i == 8 || i == 13 || i == 18 || i == 23 {
            #[trigger] s[i] == '-'
        } else {
            '0' <= s[i] <= '9' || 'a' <= s[i] <= 'f'
        }
    &&& s[14] == '4'
    &&& s[19] == '8' || s[19] == '9' || s[19] == 'a' || s[19] == 'b'
}

/// `Uuid::new_v4` of the `uuid` crate makes a random UUID; its `to_string`
/// writes it in lower-case hyphenated form, whose version digit is 4 and whose
/// variant digit is 8, 9, a or b. Nothing else is claimed of the value.
#[verifier::external_body]
fn random_uuid() -> (id: String)
    ensures
        is_uuid_v4(id@),
{
    uuid::Uuid::new_v4().to_string()
}

/// What came of waiting for the first packet of a new pull.
pub enum ProbeOutcome {
    /// A packet arrived: the source is alive.
    Packet,
    /// The relay failed, with this error.
    RelayError(String),
    /// No packet came in time.
    TimedOut,
}

/// What has happened in creating a stream.
pub enum CreateEvent<R, N, F> {
    /// A stream is asked for.
    Requested,
    /// The native puller has started, or failed to.
    RtspStarted { sid: StreamId, native: AppResult<(N, H264CodecInfo)> },
    /// The transcoding puller has started, or failed to.
    FfmpegStarted { sid: StreamId, transcoder: AppResult<(F, H264CodecInfo)> },
    /// The wait for the first packet is over.
    Probed {
        sid: StreamId,
        relay: Arc<R>,
        puller: ActivePuller<N, F>,
        codec_info: H264CodecInfo,
        outcome: ProbeOutcome,
    },
}

/// What is to be done next in creating a stream.
pub enum CreateAction<N, F> {
    /// Report the id of the stream that pulls the source already.
    Reuse(StreamId),
    /// Make a relay of this capacity and start the native puller into it.
    StartRtsp { sid: StreamId, relay_capacity: usize },
    /// Start the transcoding puller into the same relay.
    StartFfmpeg { sid: StreamId },
    /// Wait this long for a packet to come through the relay.
    Probe {
        sid: StreamId,
        puller: ActivePuller<N, F>,
        codec_info: H264CodecInfo,
        timeout_secs: u64,
    },
    /// Report the id of the new stream.
    Created(StreamId),
    /// Report the error.
    Failed(AppError),
}

/// What a new subscriber gets, and the idle timer that is called off.
pub struct Subscription<R, T> {
    pub relay: Arc<R>,
    pub codec_info: H264CodecInfo,
    pub cancelled_timer: Option<T>,
}

/// What is to be done after a peer has left.
pub enum Unsubscribed {
    /// There is no such stream.
    Unknown,
    /// Nothing: this many subscribers remain.
    Remaining(usize),
    /// Start an idle timer of this length for the stream.
    Idle { secs: u64 },
}

pub open spec fn relay_error_text(error: Seq<char>) -> Seq<char> {
    "RTP relay error: "@ + error
}

pub open spec fn no_data_text() -> Seq<char> {
    "no RTP data received within 5s — check credentials or stream URL"@
}

pub open spec fn not_found_text(id: Seq<char>) -> Seq<char> {
    "stream '"@ + id + "' not found"@
}

pub open spec fn peer_limit_text(max: nat) -> Seq<char> {
    "global peer limit reached ("@ + decimal(max) + ")"@
}

pub open spec fn stream_limit_text(max: nat) -> Seq<char> {
    "stream limit reached ("@ + decimal(max) + ")"@
}

fn not_found_message(id: &str) -> (text: String)
    ensures
        text@ == not_found_text(id@),
{
    concat3("stream '", id, "' not found")
}

fn limit_message(head: &str, max: usize) -> (text: String)
    ensures
        text@ == head@ + decimal(max as nat) + ")"@,
{
    let mut text = head.to_owned();
    push_decimal(&mut text, max as u64);
    text.append(")");
    text
}

impl StreamSummary {
    /// Whether this is the summary of `stream` under `id`.
    pub open spec fn describes<R, N, F, T>(
        &self,
        id: Seq<char>,
        stream: StreamView<R, N, F, T>,
    ) -> bool {
        &&& self.id@ == id
        &&& self.subscribers == stream.subscribers
        &&& self.connected == (stream.subscribers > 0)
        &&& self.url@ == stream.url
    }
}

impl StreamDetail {
    /// Whether this is the detailed information on `stream` under `id`.
    pub open spec fn describes<R, N, F, T>(
        &self,
        id: Seq<char>,
        stream: StreamView<R, N, F, T>,
    ) -> bool {
        &&& self.id@ == id
        &&& self.subscribers == stream.subscribers
        &&& self.connected == (stream.subscribers > 0)
        &&& self.codec@ == "h264"@
        &&& self.payload_type == stream.codec.payload_type
        &&& self.url@ == stream.url
    }
}

impl<R, N, F, T> StreamManager<R, N, F, T> {
    /// No id occurs twice.
    pub closed spec fn ids_unique(&self) -> bool {
        self.streams.wf()
    }

    /// The registry is in order: ids are unique, no source is pulled twice, and
    /// every subscriber is counted.
    pub open spec fn wf(&self) -> bool {
        self.ids_unique() && self@.wf()
    }

    /// An empty registry.
    pub fn new() -> (manager: Self)
        ensures
            manager.wf(),
            manager@.streams == Map::<Seq<char>, StreamView<R, N, F, T>>::empty(),
            manager@.total_peers == 0,
    {
        let manager = StreamManager { streams: Registry::new(), total_peers: 0 };
        assert(manager@.streams =~= Map::empty());
        assert(manager@.streams.dom() =~= Set::empty());
        manager
    }

    /// Total WebRTC peers across all streams.
    pub fn total_peers(&self) -> (total: usize)
        requires
            self.wf(),
        ensures
            total == self@.total_peers,
            total == subscribers_of(self@.streams),
    {
        self.total_peers
    }

    /// The id of the stream that pulls `url`.
    fn find_url(&self, url: &str) -> (found: Option<StreamId>)
        requires
            self.wf(),
        ensures
            match found {
                Some(id) => pulls(self@.streams, id@, url@),
                None => !has_url(self@.streams, url@),
            },
    {
        let n = self.streams.len();
        for i in 0..n
            invariant
                self.wf(),
                n == self.streams.keys().len(),
                forall|j: int|
                    0 <= j < i ==> !pulls(self@.streams, #[trigger] self.streams.keys()[j], url@),
        {
            let stream = self.streams.value_at(i);
            if same_text(stream.url.as_str(), url) {
                let id = self.streams.key_at(i).clone();
                assert(pulls(self@.streams, id@, url@));
                return Some(id);
            }
        }
        proof {
            self.streams.lemma_keys();
            assert forall|id: Seq<char>| !pulls(self@.streams, id, url@) by {
                if pulls(self@.streams, id, url@) {
                    assert(self.streams@.contains_key(id));
                    assert(self.streams.keys().to_set().contains(id));
                    let j = self.streams.keys().index_of(id);
                    assert(self.streams.keys()[j] == id);
                }
            }
        }
        None
    }

    /// Takes one step in creating a stream for an RTSP URL: from what has
    /// happened to what is to be done next.
    ///
    /// A source that is pulled already is reused. Otherwise a native pull is
    /// started, and a transcoding one where the source turns out to be H.265.
    /// Only a pull that has delivered a packet becomes a stream, and only if
    /// no other request was faster; a puller that is not needed is dropped.
    pub fn create_dynamic(&mut self, rtsp_url: &str, event: CreateEvent<R, N, F>) -> (action:
        CreateAction<N, F>)
        requires
            old(self).wf(),
        ensures
            final(self).wf(),
            match event {
                CreateEvent::Requested => {
                    &&& final(self)@ == old(self)@
                    &&& match action {
                        CreateAction::Reuse(id) => pulls(old(self)@.streams, id@, rtsp_url@),
                        CreateAction::StartRtsp { sid, relay_capacity } => {
                            &&& !has_url(old(self)@.streams, rtsp_url@)
                            &&& is_uuid_v4(sid@)
                            &&& relay_capacity == RELAY_CAPACITY
                        },
                        _ => false,
                    }
                },
                CreateEvent::RtspStarted { sid, native } => {
                    &&& final(self)@ == old(self)@
                    &&& match native {
                        Ok((puller, info)) => action == (CreateAction::<N, F>::Probe {
                            sid,
                            puller: ActivePuller::Retina(puller),
                            codec_info: info,
                            timeout_secs: PROBE_SECS,
                        }),
                        Err(AppError::H265Required) => action == (CreateAction::<
                            N,
                            F,
                        >::StartFfmpeg { sid }),
                        Err(error) => action == CreateAction::<N, F>::Failed(error),
                    }
                },
                CreateEvent::FfmpegStarted { sid, transcoder } => {
                    &&& final(self)@ == old(self)@
                    &&& match transcoder {
                        Ok((puller, info)) => action == (CreateAction::<N, F>::Probe {
                            sid,
                            puller: ActivePuller::Ffmpeg(puller),
                            codec_info: info,
                            timeout_secs: PROBE_SECS,
                        }),
                        Err(error) => action == CreateAction::<N, F>::Failed(error),
                    }
                },
                CreateEvent::Probed { sid, relay, puller, codec_info, outcome } => match outcome {
                    ProbeOutcome::Packet => if has_url(old(self)@.streams, rtsp_url@) {
                        &&& final(self)@ == old(self)@
                        &&& action matches CreateAction::Reuse(id)
                        &&& pulls(old(self)@.streams, id@, rtsp_url@)
                    } else {
                        &&& final(self)@ == old(self)@.created(
                            sid@,
                            StreamView {
                                url: rtsp_url@,
                                relay,
                                codec: codec_info@,
                                subscribers: 0,
                                puller,
                                idle_timer: None,
                            },
                        )
                        &&& action matches CreateAction::Created(id)
                        &&& id@ == sid@
                    },
                    ProbeOutcome::RelayError(error) => {
                        &&& final(self)@ == old(self)@
                        &&& action matches CreateAction::Failed(e)
                        &&& e@ == AppErrorView::Rtsp(relay_error_text(error@))
                    },
                    ProbeOutcome::TimedOut => {
                        &&& final(self)@ == old(self)@
                        &&& action matches CreateAction::Failed(e)
                        &&& e@ == AppErrorView::Rtsp(no_data_text())
                    },
                },
            },
    {
        match event {
            CreateEvent::Requested => match self.find_url(rtsp_url) {
                Some(id) => CreateAction::Reuse(id),
                None => CreateAction::StartRtsp {
                    sid: random_uuid(),
                    relay_capacity: RELAY_CAPACITY,
                },
            },
            CreateEvent::RtspStarted { sid, native } => match native {
                Ok((puller, info)) => CreateAction::Probe {
                    sid,
                    puller: ActivePuller::Retina(puller),
                    codec_info: info,
                    timeout_secs: PROBE_SECS,
                },
                Err(AppError::H265Required) => CreateAction::StartFfmpeg { sid },
                Err(error) => CreateAction::Failed(error),
            },
            CreateEvent::FfmpegStarted { sid, transcoder } => match transcoder {
                Ok((puller, info)) => CreateAction::Probe {
                    sid,
                    puller: ActivePuller::Ffmpeg(puller),
                    codec_info: info,
                    timeout_secs: PROBE_SECS,
                },
                Err(error) => CreateAction::Failed(error),
            },
            CreateEvent::Probed { sid, relay, puller, codec_info, outcome } => match outcome {
                ProbeOutcome::Packet => self.enter(rtsp_url, sid, relay, puller, codec_info),
                ProbeOutcome::RelayError(error) => {
                    let mut text = "RTP relay error: ".to_owned();
                    text.append(error.as_str());
                    CreateAction::Failed(AppError::Rtsp(text))
                },
                ProbeOutcome::TimedOut => CreateAction::Failed(
                    AppError::Rtsp(
                        "no RTP data received within 5s — check credentials or stream URL".to_owned(),
                    ),
                ),
            },
        }
    }

    /// Enters a live pull, unless its source has a stream by now.
    fn enter(
        &mut self,
        rtsp_url: &str,
        sid: StreamId,
        relay: Arc<R>,
        puller: ActivePuller<N, F>,
        codec_info: H264CodecInfo,
    ) -> (action: CreateAction<N, F>)
        requires
            old(self).wf(),
        ensures
            final(self).wf(),
            if has_url(old(self)@.streams, rtsp_url@) {
                &&& final(self)@ == old(self)@
                &&& action matches CreateAction::Reuse(id)
                &&& pulls(old(self)@.streams, id@, rtsp_url@)
            } else {
                &&& final(self)@ == old(self)@.created(
                    sid@,
                    StreamView {
                        url: rtsp_url@,
                        relay,
                        codec: codec_info@,
                        subscribers: 0,
                        puller,
                        idle_timer: None,
                    },
                )
                &&& action matches CreateAction::Created(id)
                &&& id@ == sid@
            },
    {
        if let Some(id) = self.find_url(rtsp_url) {
            return CreateAction::Reuse(id);
        }
        let stream = ActiveStream {
            url: rtsp_url.to_owned(),
            relay,
            codec_info,
            subscriber_count: 0,
            puller,
            idle_timer: None,
        };
        let ghost had = self@.streams;
        proof {
            lemma_sum_with(had, sid@, stream@);
        }
        if let Some(replaced) = self.streams.insert(sid.clone(), stream) {
            self.total_peers = self.total_peers - replaced.subscriber_count;
        }
        proof {
            let now = self@.streams;
            assert(now =~= had.insert(sid@, stream@));
            assert forall|a: Seq<char>, b: Seq<char>, url: Seq<char>| #[trigger]
                pulls(now, a, url) && #[trigger] pulls(now, b, url) implies a == b by {
                if a != sid@ {
                    assert(pulls(had, a, url));
                }
                if b != sid@ {
                    assert(pulls(had, b, url));
                }
            }
        }
        CreateAction::Created(sid)
    }

    /// Subscribes a peer to an existing stream, within the limits on all peers
    /// and on the peers of one stream, and calls off its idle timer.
    pub fn subscribe_existing(
        &mut self,
        stream_id: &str,
        max_peers: usize,
        max_per_stream: usize,
    ) -> (result: AppResult<Subscription<R, T>>)
        requires
            old(self).wf(),
        ensures
            final(self).wf(),
            ({
                let now = old(self)@;
                let id = stream_id@;
                if now.total_peers >= max_peers {
                    &&& final(self)@ == now
                    &&& result matches Err(e)
                    &&& e@ == AppErrorView::Other(peer_limit_text(max_peers as nat))
                } else if !now.streams.contains_key(id) {
                    &&& final(self)@ == now
                    &&& result matches Err(e)
                    &&& e@ == AppErrorView::Other(not_found_text(id))
                } else if now.streams[id].subscribers >= max_per_stream {
                    &&& final(self)@ == now
                    &&& result matches Err(e)
                    &&& e@ == AppErrorView::Other(stream_limit_text(max_per_stream as nat))
                } else {
                    &&& final(self)@ == now.joined(id)
                    &&& result matches Ok(subscription)
                    &&& subscription.relay == now.streams[id].relay
                    &&& subscription.codec_info@ == now.streams[id].codec
                    &&& subscription.cancelled_timer == now.streams[id].idle_timer
                }
            }),
    {
        if self.total_peers >= max_peers {
            return Err(
                AppError::Other(limit_message("global peer limit reached (", max_peers)),
            );
        }
        let ghost had = self@.streams;
        match self.streams.get_mut(stream_id) {
            None => Err(AppError::Other(not_found_message(stream_id))),
            Some(active) => {
                if active.subscriber_count >= max_per_stream {
                    assert(self@.streams =~= had);
                    Err(AppError::Other(limit_message("stream limit reached (", max_per_stream)))
                } else {
                    let cancelled_timer = active.idle_timer.take();
                    active.subscriber_count = active.subscriber_count + 1;
                    let subscription = Subscription {
                        relay: Arc::clone(&active.relay),
                        codec_info: active.codec_info.clone(),
                        cancelled_timer,
                    };
                    self.total_peers = self.total_peers + 1;
                    proof {
                        assert(self@.streams =~= old(self)@.joined(stream_id@).streams);
                        lemma_urls_kept(had, self@.streams);
                        lemma_sum_with(had, stream_id@, self@.streams[stream_id@]);
                    }
                    Ok(subscription)
                }
            },
        }
    }

    /// Removes a stream at once, dropping its puller and taking its peers off
    /// the count. Returns the idle timer to call off.
    pub fn remove_stream(&mut self, stream_id: &str) -> (result: Result<Option<T>, String>)
        requires
            old(self).wf(),
        ensures
            final(self).wf(),
            match result {
                Ok(timer) => {
                    &&& old(self)@.streams.contains_key(stream_id@)
                    &&& timer == old(self)@.streams[stream_id@].idle_timer
                    &&& final(self)@ == old(self)@.removed(stream_id@)
                },
                Err(text) => {
                    &&& !old(self)@.streams.contains_key(stream_id@)
                    &&& text@ == not_found_text(stream_id@)
                    &&& final(self)@ == old(self)@
                },
            },
    {
        let ghost had = self@.streams;
        let removed = self.streams.remove(stream_id);
        proof {
            assert(self@.streams =~= had.remove(stream_id@));
            lemma_urls_kept(had, self@.streams);
        }
        match removed {
            Some(active) => {
                proof {
                    lemma_sum_without(had, stream_id@);
                }
                self.total_peers = self.total_peers - active.subscriber_count;
                Ok(active.idle_timer)
            },
            None => {
                assert(had.remove(stream_id@) =~= had);
                Err(not_found_message(stream_id))
            },
        }
    }

    /// Unsubscribes a peer that has disconnected. When the last one is gone,
    /// an idle timer is to be started and handed to `arm_idle_timer`.
    pub fn unsubscribe(&mut self, stream_id: &str) -> (outcome: Unsubscribed)
        requires
            old(self).wf(),
        ensures
            final(self).wf(),
            if !old(self)@.streams.contains_key(stream_id@) {
                final(self)@ == old(self)@ && outcome == Unsubscribed::Unknown
            } else {
                &&& final(self)@ == old(self)@.left(stream_id@)
                &&& if final(self)@.streams[stream_id@].subscribers == 0 {
                    outcome == (Unsubscribed::Idle { secs: IDLE_SECS })
                } else {
                    outcome == Unsubscribed::Remaining(
                        final(self)@.streams[stream_id@].subscribers as usize,
                    )
                }
            },
    {
        let ghost had = self@.streams;
        let before: usize = match self.streams.get_mut(stream_id) {
            None => {
                return Unsubscribed::Unknown;
            },
            Some(active) => {
                let before: usize = active.subscriber_count;
                active.subscriber_count = before.saturating_sub(1);
                before
            },
        };
        let count: usize = before.saturating_sub(1);
        proof {
            assert(self@.streams =~= old(self)@.left(stream_id@).streams);
            lemma_urls_kept(had, self@.streams);
            lemma_sum_with(had, stream_id@, self@.streams[stream_id@]);
        }
        if before > 0 {
            self.total_peers = self.total_peers - 1;
        }
        if count == 0 {
            Unsubscribed::Idle { secs: IDLE_SECS }
        } else {
            Unsubscribed::Remaining(count)
        }
    }

    /// Keeps the handle of a stream's idle timer. Returns the handle that is
    /// kept no longer: an earlier one, or this one if the stream is gone.
    pub fn arm_idle_timer(&mut self, stream_id: &str, timer: T) -> (released: Option<T>)
        requires
            old(self).wf(),
        ensures
            final(self).wf(),
            if old(self)@.streams.contains_key(stream_id@) {
                &&& final(self)@ == old(self)@.armed(stream_id@, timer)
                &&& released == old(self)@.streams[stream_id@].idle_timer
            } else {
                final(self)@ == old(self)@ && released == Some(timer)
            },
    {
        let ghost had = self@.streams;
        match self.streams.get_mut(stream_id) {
            None => Some(timer),
            Some(active) => {
                let released = active.idle_timer.take();
                active.idle_timer = Some(timer);
                proof {
                    assert(self@.streams =~= old(self)@.armed(stream_id@, timer).streams);
                    lemma_urls_kept(had, self@.streams);
                    lemma_sum_with(had, stream_id@, self@.streams[stream_id@]);
                }
                released
            },
        }
    }

    /// Acts on the end of an idle timer: a stream that still has no subscriber
    /// is removed and its puller dropped. Says whether that happened.
    pub fn idle_timeout(&mut self, stream_id: &str) -> (stopped: bool)
        requires
            old(self).wf(),
        ensures
            final(self).wf(),
            final(self)@ == old(self)@.expired(stream_id@),
            stopped == (old(self)@.streams.contains_key(stream_id@)
                && old(self)@.streams[stream_id@].subscribers == 0),
    {
        let ghost had = self@.streams;
        let idle = match self.streams.get(stream_id) {
            Some(active) => active.subscriber_count == 0,
            None => false,
        };
        if idle {
            let _ = self.streams.remove(stream_id);
            proof {
                assert(self@.streams =~= had.remove(stream_id@));
                lemma_urls_kept(had, self@.streams);
                lemma_sum_without(had, stream_id@);
            }
        }
        idle
    }

    /// The active streams, each once.
    pub fn list_streams(&self) -> (list: Vec<StreamSummary>)
        requires
            self.wf(),
        ensures
            summaries_cover(list@, self@.streams),
    {
        let n = self.streams.len();
        let mut list: Vec<StreamSummary> = Vec::new();
        for i in 0..n
            invariant
                self.wf(),
                n == self.streams.keys().len(),
                list@.len() == i,
                forall|j: int|
                    0 <= j < i ==> (#[trigger] list@[j]).describes(
                        self.streams.keys()[j],
                        self@.streams[self.streams.keys()[j]],
                    ),
        {
            let stream = self.streams.value_at(i);
            list.push(
                StreamSummary {
                    id: self.streams.key_at(i).clone(),
                    subscribers: stream.subscriber_count,
                    connected: stream.subscriber_count > 0,
                    url: stream.url.clone(),
                },
            );
        }
        proof {
            self.streams.lemma_keys();
            let ids = summary_ids(list@);
            assert(ids =~= self.streams.keys());
            assert(self@.streams.dom() =~= self.streams@.dom());
        }
        list
    }

    /// Detailed information on a stream.
    pub fn stream_info(&self, id: &str) -> (info: Option<StreamDetail>)
        requires
            self.wf(),
        ensures
            match info {
                Some(detail) => self@.streams.contains_key(id@) && detail.describes(
                    id@,
                    self@.streams[id@],
                ),
                None => !self@.streams.contains_key(id@),
            },
    {
        match self.streams.get(id) {
            Some(stream) => Some(
                StreamDetail {
                    id: id.to_owned(),
                    subscribers: stream.subscriber_count,
                    connected: stream.subscriber_count > 0,
                    codec: "h264".to_owned(),
                    payload_type: stream.codec_info.payload_type,
                    url: stream.url.clone(),
                },
            ),
            None => None,
        }
    }
}

/// The ids in a list of summaries.
pub open spec fn summary_ids(list: Seq<StreamSummary>) -> Seq<Seq<char>> {
    list.map_values(|summary: StreamSummary| summary.id@)
}

/// Whether `list` summarises each of `streams` once, and nothing else. The
/// order is left open.
pub open spec fn summaries_cover<R, N, F, T>(
    list: Seq<StreamSummary>,
    streams: Map<Seq<char>, StreamView<R, N, F, T>>,
) -> bool {
    &&& summary_ids(list).no_duplicates()
    &&& summary_ids(list).to_set() == streams.dom()
    &&& forall|i: int|
        0 <= i < list.len() ==> (#[trigger] list[i]).describes(list[i].id@, streams[list[i].id@])
}

/// Where no stream is added and none changes its source, no source comes to be
/// pulled twice.
pub proof fn lemma_urls_kept<R, N, F, T>(
    before: Map<Seq<char>, StreamView<R, N, F, T>>,
    after: Map<Seq<char>, StreamView<R, N, F, T>>,
)
    requires
        one_pull_per_url(before),
        forall|id: Seq<char>| #[trigger]
            after.contains_key(id) ==> before.contains_key(id) && after[id].url == before[id].url,
    ensures
        one_pull_per_url(after),
{
    assert forall|a: Seq<char>, b: Seq<char>, url: Seq<char>| #[trigger]
        pulls(after, a, url) && #[trigger] pulls(after, b, url) implies a == b by {
        assert(pulls(before, a, url));
        assert(pulls(before, b, url));
    }
}

/// The subscribers of all streams are those of one stream and those of the
/// others.
pub proof fn lemma_sum_without<R, N, F, T>(
    streams: Map<Seq<char>, StreamView<R, N, F, T>>,
    id: Seq<char>,
)
    requires
        streams.dom().finite(),
        streams.contains_key(id),
    ensures
        subscribers_of(streams) == streams[id].subscribers + subscribers_of(streams.remove(id)),
    decreases streams.dom().len(),
{
    let first = streams.dom().choose();
    assert(streams.dom().contains(first));
    if first != id {
        lemma_sum_without(streams.remove(first), id);
        lemma_sum_without(streams.remove(id), first);
        assert(streams.remove(first).remove(id) =~= streams.remove(id).remove(first));
    }
}

/// Putting a stream under `id` puts its subscribers in the place of those that
/// were there.
pub proof fn lemma_sum_with<R, N, F, T>(
    streams: Map<Seq<char>, StreamView<R, N, F, T>>,
    id: Seq<char>,
    stream: StreamView<R, N, F, T>,
)
    requires
        streams.dom().finite(),
    ensures
        subscribers_of(streams.insert(id, stream)) == stream.subscribers + subscribers_of(
            streams.remove(id),
        ),
        streams.contains_key(id) ==> subscribers_of(streams) == streams[id].subscribers
            + subscribers_of(streams.remove(id)),
        !streams.contains_key(id) ==> streams.remove(id) == streams,
{
    let now = streams.insert(id, stream);
    lemma_sum_without(now, id);
    assert(now.remove(id) =~= streams.remove(id));
    if streams.contains_key(id) {
        lemma_sum_without(streams, id);
    } else {
        assert(streams.remove(id) =~= streams);
    }
}

} // verus!
