//! Live streams over WebSocket: FFmpeg turns a camera's RTSP stream into FLV
//! or MPEG-TS, and any number of clients share one FFmpeg for each camera and
//! format.

use crate::registry::Registry;
use crate::stream::Unsubscribed;
use vstd::prelude::*;
use vstd::string::*;

verus! {

/// Chunks that are buffered for each client.
pub const BROADCAST_CAP: usize = 128;

/// Seconds that an FFmpeg without clients is kept.
pub const IDLE_SECS: u64 = 30;

/// What a client asks for.
pub struct LiveParams {
    pub url: String,
    /// H.265 in MPEG-TS, passed through. Otherwise H.264 in FLV, transcoded
    /// where needed.
    pub mpegts: bool,
}

/// The name under which the stream of a camera in a format is kept.
pub open spec fn key_of(url: Seq<char>, mpegts: bool) -> Seq<char> {
    if mpegts {
        url + "\x00mpegts"@
    } else {
        url
    }
}

/// Gives the FLV and the MPEG-TS stream of one camera names of their own, so
/// that both can run at the same time.
pub fn stream_key(rtsp_url: &str, mpegts: bool) -> (key: String)
    ensures
        key@ == key_of(rtsp_url@, mpegts),
{
    let mut key = rtsp_url.to_owned();
    if mpegts {
        key.append("\x00mpegts");
    }
    key
}

/// Names are the same only for the same camera and format, for URLs that do
/// not themselves end like the name of an MPEG-TS stream.
pub proof fn law_keys_are_distinct(url1: Seq<char>, mpegts1: bool, url2: Seq<char>, mpegts2: bool)
    requires
        !"\x00mpegts"@.is_suffix_of(url1),
        !"\x00mpegts"@.is_suffix_of(url2),
    ensures
        key_of(url1, mpegts1) == key_of(url2, mpegts2) <==> url1 == url2 && mpegts1 == mpegts2,
{
    let suffix = "\x00mpegts"@;
    let k1 = key_of(url1, mpegts1);
    let k2 = key_of(url2, mpegts2);
    if k1 == k2 {
        if mpegts1 {
            assert(k1.subrange(k1.len() - suffix.len(), k1.len() as int) =~= suffix);
            assert(k1.take(k1.len() - suffix.len()) =~= url1);
        }
        if mpegts2 {
            assert(k2.subrange(k2.len() - suffix.len(), k2.len() as int) =~= suffix);
            assert(k2.take(k2.len() - suffix.len()) =~= url2);
        }
    }
}

/// The two formats of one camera never share a name.
pub proof fn law_formats_are_apart(url: Seq<char>)
    ensures
        key_of(url, true) != key_of(url, false),
{
    reveal_strlit("\x00mpegts");
    assert(key_of(url, true).len() == url.len() + 7);
}

struct LiveEntry<S, T> {
    session: S,
    subscriber_count: usize,
    idle_timer: Option<T>,
}

/// The running FFmpeg sessions (`S`), with the handles of their idle timers
/// (`T`).
pub struct LiveManager<S, T> {
    streams: Registry<LiveEntry<S, T>>,
}

/// A running FFmpeg session and its clients.
pub struct LiveView<S, T> {
    pub session: S,
    pub subscribers: nat,
    pub idle_timer: Option<T>,
}

impl<S, T> View for LiveEntry<S, T> {
    type V = LiveView<S, T>;

    closed spec fn view(&self) -> LiveView<S, T> {
        LiveView {
            session: self.session,
            subscribers: self.subscriber_count as nat,
            idle_timer: self.idle_timer,
        }
    }
}

impl<S, T> View for LiveManager<S, T> {
    type V = Map<Seq<char>, LiveView<S, T>>;

    closed spec fn view(&self) -> Map<Seq<char>, LiveView<S, T>> {
        self.streams@.map_values(|entry: LiveEntry<S, T>| entry@)
    }
}

/// A client joins the session under `key`, whose idle timer is called off.
pub open spec fn joined<S, T>(
    streams: Map<Seq<char>, LiveView<S, T>>,
    key: Seq<char>,
) -> Map<Seq<char>, LiveView<S, T>> {
    let entry = streams[key];
    streams.insert(
        key,
        LiveView { subscribers: entry.subscribers + 1, idle_timer: None, ..entry },
    )
}

/// A new session starts under `key` with its first client.
pub open spec fn started<S, T>(
    streams: Map<Seq<char>, LiveView<S, T>>,
    key: Seq<char>,
    session: S,
) -> Map<Seq<char>, LiveView<S, T>> {
    streams.insert(key, LiveView { session, subscribers: 1, idle_timer: None })
}

/// A client leaves the session under `key`.
pub open spec fn left<S, T>(
    streams: Map<Seq<char>, LiveView<S, T>>,
    key: Seq<char>,
) -> Map<Seq<char>, LiveView<S, T>> {
    let entry = streams[key];
    streams.insert(
        key,
        LiveView {
            subscribers: if entry.subscribers == 0 {
                0
            } else {
                (entry.subscribers - 1) as nat
            },
            ..entry
        },
    )
}

/// The session under `key` gets an idle timer.
pub open spec fn armed<S, T>(
    streams: Map<Seq<char>, LiveView<S, T>>,
    key: Seq<char>,
    timer: T,
) -> Map<Seq<char>, LiveView<S, T>> {
    streams.insert(key, LiveView { idle_timer: Some(timer), ..streams[key] })
}

/// The idle time of the session under `key` is over: it ends if it has no
/// client.
pub open spec fn expired<S, T>(
    streams: Map<Seq<char>, LiveView<S, T>>,
    key: Seq<char>,
) -> Map<Seq<char>, LiveView<S, T>> {
    if streams.contains_key(key) && streams[key].subscribers == 0 {
        streams.remove(key)
    } else {
        streams
    }
}

/// What has happened in subscribing a client.
pub enum SubscribeEvent<S> {
    /// The client asks for a stream.
    Requested,
    /// A new FFmpeg session has started, or failed to.
    Spawned(Result<S, String>),
}

/// What is to be done next in subscribing a client.
pub enum SubscribeAction<T> {
    /// Call off this idle timer and serve the client from the session there.
    Join { cancelled_timer: Option<T> },
    /// Start a new FFmpeg session.
    Spawn,
    /// Serve the client from the session that it brought about.
    Start,
    /// Report the error.
    Fail(String),
}

impl<S, T> LiveManager<S, T> {
    /// No name occurs twice.
    pub closed spec fn wf(&self) -> bool {
        self.streams.wf()
    }

    /// Whether one more client can be counted.
    pub open spec fn room(&self, key: Seq<char>) -> bool {
        self@.contains_key(key) ==> self@[key].subscribers < usize::MAX
    }

    /// No sessions.
    pub fn new() -> (manager: Self)
        ensures
            manager.wf(),
            manager@ == Map::<Seq<char>, LiveView<S, T>>::empty(),
    {
        let manager = LiveManager { streams: Registry::new() };
        assert(manager@ =~= Map::empty());
        manager
    }

    /// Whether one more client of a camera's stream can be counted.
    pub fn has_room(&self, rtsp_url: &str, mpegts: bool) -> (room: bool)
        requires
            self.wf(),
        ensures
            room == self.room(key_of(rtsp_url@, mpegts)),
    {
        let key = stream_key(rtsp_url, mpegts);
        match self.streams.get(key.as_str()) {
            Some(entry) => entry.subscriber_count < usize::MAX,
            None => true,
        }
    }

    /// The session of a camera in a format.
    pub fn session(&self, rtsp_url: &str, mpegts: bool) -> (session: Option<&S>)
        requires
            self.wf(),
        ensures
            match session {
                Some(session) => self@.contains_key(key_of(rtsp_url@, mpegts)) && *session
                    == self@[key_of(rtsp_url@, mpegts)].session,
                None => !self@.contains_key(key_of(rtsp_url@, mpegts)),
            },
    {
        let key = stream_key(rtsp_url, mpegts);
        match self.streams.get(key.as_str()) {
            Some(entry) => Some(&entry.session),
            None => None,
        }
    }

    /// Counts a client in if there is a session, calling off its idle timer.
    fn join(&mut self, key: &String) -> (cancelled: Option<Option<T>>)
        requires
            old(self).wf(),
            old(self).room(key@),
        ensures
            final(self).wf(),
            if old(self)@.contains_key(key@) {
                &&& final(self)@ == joined(old(self)@, key@)
                &&& cancelled == Some(old(self)@[key@].idle_timer)
            } else {
                final(self)@ == old(self)@ && cancelled is None
            },
    {
        match self.streams.get_mut(key.as_str()) {
            Some(entry) => {
                let cancelled_timer = entry.idle_timer.take();
                entry.subscriber_count = entry.subscriber_count + 1;
                assert(self@ =~= joined(old(self)@, key@));
                Some(cancelled_timer)
            },
            None => None,
        }
    }

    /// Takes one step in subscribing a client to a camera: from what has
    /// happened to what is to be done next.
    ///
    /// A running session is shared. Otherwise a new one is started; if another
    /// client was faster, the new session is dropped and that client's shared.
    pub fn subscribe(&mut self, rtsp_url: &str, mpegts: bool, event: SubscribeEvent<S>) -> (action:
        SubscribeAction<T>)
        requires
            old(self).wf(),
            event matches SubscribeEvent::Spawned(Err(_)) || old(self).room(
                key_of(rtsp_url@, mpegts),
            ),
        ensures
            final(self).wf(),
            ({
                let key = key_of(rtsp_url@, mpegts);
                match event {
                    SubscribeEvent::Spawned(Err(error)) => {
                        &&& final(self)@ == old(self)@
                        &&& action matches SubscribeAction::Fail(e)
                        &&& e@ == error@
                    },
                    _ => if old(self)@.contains_key(key) {
                        &&& final(self)@ == joined(old(self)@, key)
                        &&& action == (SubscribeAction::Join {
                            cancelled_timer: old(self)@[key].idle_timer,
                        })
                    } else {
                        match event {
                            SubscribeEvent::Spawned(Ok(session)) => {
                                &&& final(self)@ == started(old(self)@, key, session)
                                &&& action == SubscribeAction::<T>::Start
                            },
                            _ => {
                                &&& final(self)@ == old(self)@
                                &&& action == SubscribeAction::<T>::Spawn
                            },
                        }
                    },
                }
            }),
    {
        let key = stream_key(rtsp_url, mpegts);
        match event {
            SubscribeEvent::Requested => match self.join(&key) {
                Some(cancelled_timer) => SubscribeAction::Join { cancelled_timer },
                None => SubscribeAction::Spawn,
            },
            SubscribeEvent::Spawned(Err(error)) => SubscribeAction::Fail(error),
            SubscribeEvent::Spawned(Ok(session)) => match self.join(&key) {
                Some(cancelled_timer) => SubscribeAction::Join { cancelled_timer },
                None => {
                    let ghost had = self@;
                    let _ = self.streams.insert(
                        key,
                        LiveEntry { session, subscriber_count: 1, idle_timer: None },
                    );
                    assert(self@ =~= started(had, key@, session));
                    SubscribeAction::Start
                },
            },
        }
    }

    /// Unsubscribes a client. When the last one is gone, an idle timer is to
    /// be started and handed to `arm_idle_timer`.
    pub fn unsubscribe(&mut self, rtsp_url: &str, mpegts: bool) -> (outcome: Unsubscribed)
        requires
            old(self).wf(),
        ensures
            final(self).wf(),
            ({
                let key = key_of(rtsp_url@, mpegts);
                if !old(self)@.contains_key(key) {
                    final(self)@ == old(self)@ && outcome == Unsubscribed::Unknown
                } else {
                    &&& final(self)@ == left(old(self)@, key)
                    &&& if final(self)@[key].subscribers == 0 {
                        outcome == (Unsubscribed::Idle { secs: IDLE_SECS })
                    } else {
                        outcome == Unsubscribed::Remaining(final(self)@[key].subscribers as usize)
                    }
                }
            }),
    {
        let key = stream_key(rtsp_url, mpegts);
        let count: usize = match self.streams.get_mut(key.as_str()) {
            None => {
                return Unsubscribed::Unknown;
            },
            Some(entry) => {
                entry.subscriber_count = entry.subscriber_count.saturating_sub(1);
                entry.subscriber_count
            },
        };
        assert(self@ =~= left(old(self)@, key@));
        if count == 0 {
            Unsubscribed::Idle { secs: IDLE_SECS }
        } else {
            Unsubscribed::Remaining(count)
        }
    }

    /// Keeps the handle of a session's idle timer. Returns the handle that is
    /// kept no longer: an earlier one, or this one if the session is gone.
    pub fn arm_idle_timer(&mut self, rtsp_url: &str, mpegts: bool, timer: T) -> (released: Option<
        T,
    >)
        requires
            old(self).wf(),
        ensures
            final(self).wf(),
            ({
                let key = key_of(rtsp_url@, mpegts);
                if old(self)@.contains_key(key) {
                    &&& final(self)@ == armed(old(self)@, key, timer)
                    &&& released == old(self)@[key].idle_timer
                } else {
                    final(self)@ == old(self)@ && released == Some(timer)
                }
            }),
    {
        let key = stream_key(rtsp_url, mpegts);
        match self.streams.get_mut(key.as_str()) {
            None => Some(timer),
            Some(entry) => {
                let released = entry.idle_timer.take();
                entry.idle_timer = Some(timer);
                assert(self@ =~= armed(old(self)@, key@, timer));
                released
            },
        }
    }

    /// Acts on the end of an idle timer: a session that still has no client is
    /// dropped. Says whether that happened.
    pub fn idle_timeout(&mut self, rtsp_url: &str, mpegts: bool) -> (stopped: bool)
        requires
            old(self).wf(),
        ensures
            final(self).wf(),
            final(self)@ == expired(old(self)@, key_of(rtsp_url@, mpegts)),
            stopped == (old(self)@.contains_key(key_of(rtsp_url@, mpegts)) && old(self)@[key_of(
                rtsp_url@,
                mpegts,
            )].subscribers == 0),
    {
        let key = stream_key(rtsp_url, mpegts);
        let idle = match self.streams.get(key.as_str()) {
            Some(entry) => entry.subscriber_count == 0,
            None => false,
        };
        if idle {
            let _ = self.streams.remove(key.as_str());
            assert(self@ =~= old(self)@.remove(key@));
        }
        idle
    }
}

/// Leaving undoes joining, but for the idle timer that joining calls off, and
/// touches no other session.
pub proof fn law_leave_undoes_join<S, T>(streams: Map<Seq<char>, LiveView<S, T>>, key: Seq<char>)
    requires
        streams.contains_key(key),
    ensures
        left(joined(streams, key), key) == streams.insert(
            key,
            LiveView { idle_timer: None, ..streams[key] },
        ),
{
    assert(left(joined(streams, key), key) =~= streams.insert(
        key,
        LiveView { idle_timer: None, ..streams[key] },
    ));
}

/// A session that has a client survives the end of an idle timer; one whose
/// last client has left does not.
pub proof fn law_idle_sessions_end<S, T>(
    streams: Map<Seq<char>, LiveView<S, T>>,
    key: Seq<char>,
    timer: T,
)
    requires
        streams.contains_key(key),
    ensures
        streams[key].subscribers > 0 ==> expired(streams, key) == streams,
        expired(joined(streams, key), key) == joined(streams, key),
        streams[key].subscribers <= 1 ==> expired(armed(left(streams, key), key, timer), key)
            == streams.remove(key),
{
    if streams[key].subscribers <= 1 {
        assert(expired(armed(left(streams, key), key, timer), key) =~= streams.remove(key));
    }
}

/// What happens to one stream of a camera leaves its stream in the other
/// format as it is.
pub proof fn law_formats_are_independent<S, T>(
    streams: Map<Seq<char>, LiveView<S, T>>,
    url: Seq<char>,
    mpegts: bool,
    session: S,
    timer: T,
)
    ensures
        ({
            let key = key_of(url, mpegts);
            let other = key_of(url, !mpegts);
            forall|after: Map<Seq<char>, LiveView<S, T>>|
                after == joined(streams, key) || after == started(streams, key, session) || after
                    == left(streams, key) || after == armed(streams, key, timer) || after
                    == expired(streams, key) ==> {
                    &&& #[trigger] after.contains_key(other) == streams.contains_key(other)
                    &&& streams.contains_key(other) ==> after[other] == streams[other]
                }
        }),
{
    law_formats_are_apart(url);
}

/// The name of an FLV stream is the URL itself. That of an MPEG-TS stream is the
/// URL, a zero character and the word for the format.
pub proof fn law_name_begins_with_url(url: Seq<char>)
    ensures
        key_of(url, false) == url,
        key_of(url, true) == url + seq!['\0', 'm', 'p', 'e', 'g', 't', 's'],
{
    reveal_strlit("\x00mpegts");
    assert(key_of(url, true) =~= url + seq!['\0', 'm', 'p', 'e', 'g', 't', 's']);
}

/// Whether `key` has the same entry, or none, in both maps.
pub open spec fn same_entry<S, T>(
    before: Map<Seq<char>, LiveView<S, T>>,
    after: Map<Seq<char>, LiveView<S, T>>,
    key: Seq<char>,
) -> bool {
    &&& before.contains_key(key) <==> after.contains_key(key)
    &&& before.contains_key(key) ==> before[key] == after[key]
}

/// Who joins counts one more and calls off the timer; the session stays the
/// same, and no other is touched.
pub proof fn law_join_counts_one_in<S, T>(
    streams: Map<Seq<char>, LiveView<S, T>>,
    key: Seq<char>,
    other: Seq<char>,
)
    requires
        streams.contains_key(key),
        other != key,
    ensures
        ({
            let after = joined(streams, key);
            &&& after.contains_key(key)
            &&& after[key].session == streams[key].session
            &&& after[key].subscribers == streams[key].subscribers + 1
            &&& after[key].idle_timer is None
            &&& same_entry(streams, after, other)
        }),
{
}

/// A new session is kept as it is given, with one client and no timer, and no
/// other is touched.
pub proof fn law_start_counts_the_first_client<S, T>(
    streams: Map<Seq<char>, LiveView<S, T>>,
    key: Seq<char>,
    session: S,
    other: Seq<char>,
)
    requires
        other != key,
    ensures
        ({
            let after = started(streams, key, session);
            &&& after.contains_key(key)
            &&& after[key].session == session
            &&& after[key].subscribers == 1
            &&& after[key].idle_timer is None
            &&& same_entry(streams, after, other)
        }),
{
}

/// Who leaves counts one less, unless there is no client; session and timer
/// stay the same, and no other session is touched.
pub proof fn law_leave_counts_one_out<S, T>(
    streams: Map<Seq<char>, LiveView<S, T>>,
    key: Seq<char>,
    other: Seq<char>,
)
    requires
        streams.contains_key(key),
        other != key,
    ensures
        ({
            let after = left(streams, key);
            let had = streams[key].subscribers;
            &&& after.contains_key(key)
            &&& after[key].session == streams[key].session
            &&& had > 0 ==> after[key].subscribers + 1 == had
            &&& had == 0 ==> after[key].subscribers == 0
            &&& after[key].idle_timer == streams[key].idle_timer
            &&& same_entry(streams, after, other)
        }),
{
}

/// Arming a timer changes nothing but the timer of that session.
pub proof fn law_arming_keeps_all_but_the_timer<S, T>(
    streams: Map<Seq<char>, LiveView<S, T>>,
    key: Seq<char>,
    timer: T,
    other: Seq<char>,
)
    requires
        streams.contains_key(key),
        other != key,
    ensures
        ({
            let after = armed(streams, key, timer);
            &&& after.contains_key(key)
            &&& after[key].session == streams[key].session
            &&& after[key].subscribers == streams[key].subscribers
            &&& after[key].idle_timer == Some(timer)
            &&& same_entry(streams, after, other)
        }),
{
}

/// The end of an idle timer ends the session if and only if it has no client,
/// and touches no other.
pub proof fn law_expiry_ends_unwatched_sessions_only<S, T>(
    streams: Map<Seq<char>, LiveView<S, T>>,
    key: Seq<char>,
    other: Seq<char>,
)
    requires
        other != key,
    ensures
        ({
            let after = expired(streams, key);
            &&& after.contains_key(key) <==> streams.contains_key(key) && streams[key].subscribers
                > 0
            &&& after.contains_key(key) ==> after[key] == streams[key]
            &&& same_entry(streams, after, other)
        }),
{
}

/// Only the largest count there is leaves no room for one more client.
pub proof fn law_room_ends_with_the_counter<S, T>(manager: LiveManager<S, T>, key: Seq<char>)
    ensures
        !manager.room(key) <==> manager@.contains_key(key) && manager@[key].subscribers
            >= usize::MAX,
{
}

} // verus!
