//! The answers of the REST API.

use crate::stream::{
    lemma_sum_without, subscribers_of, summaries_cover, ManagerView, StreamDetail, StreamManager,
    StreamSummary, StreamView,
};
use crate::stream_laws::lemma_rest_covers;
use vstd::prelude::*;

verus! {

/// Answer to a health request.
pub struct HealthResponse {
    pub status: &'static str,
    pub uptime_secs: u64,
    pub active_streams: usize,
    pub total_peers: usize,
}

/// Answer to a request for the list of streams.
pub struct StreamsResponse {
    pub streams: Vec<StreamSummary>,
}

/// The ids of the streams that somebody watches.
pub open spec fn watched<R, N, F, T>(
    streams: Map<Seq<char>, StreamView<R, N, F, T>>,
) -> Set<Seq<char>> {
    streams.dom().filter(|id: Seq<char>| streams[id].subscribers > 0)
}

/// Reports that the gateway is up, how many streams are being watched, and how
/// many peers there are.
pub fn health<R, N, F, T>(
    stream_manager: &StreamManager<R, N, F, T>,
    uptime_secs: u64,
) -> (response: HealthResponse)
    requires
        stream_manager.wf(),
    ensures
        response.status@ == "ok"@,
        response.uptime_secs == uptime_secs,
        response.active_streams == watched(stream_manager@.streams).len(),
        response.total_peers == stream_manager@.total_peers,
{
    let streams = stream_manager.list_streams();
    let ghost all = stream_manager@.streams;
    let mut active: usize = 0;
    let ghost mut seen: Set<Seq<char>> = Set::empty();
    for i in 0..streams.len()
        invariant
            summaries_cover(streams@, all),
            active <= i,
            seen.finite(),
            active == seen.len(),
            forall|id: Seq<char>| #[trigger]
                seen.contains(id) <==> exists|j: int|
                    0 <= j < i && (#[trigger] streams@[j]).id@ == id && streams@[j].connected,
    {
        let ghost id = streams@[i as int].id@;
        let ghost ids = crate::stream::summary_ids(streams@);
        assert(ids[i as int] == id);
        assert forall|j: int| 0 <= j < i implies (#[trigger] streams@[j]).id@ != id by {
            assert(ids[j] == streams@[j].id@);
        }
        if streams[i].connected {
            assert(!seen.contains(id));
            active = active + 1;
            proof {
                seen = seen.insert(id);
            }
        }
    }
    proof {
        let ids = crate::stream::summary_ids(streams@);
        assert forall|id: Seq<char>| seen.contains(id) <==> watched(all).contains(id) by {
            if seen.contains(id) {
                let j = choose|j: int|
                    0 <= j < streams@.len() && (#[trigger] streams@[j]).id@ == id
                        && streams@[j].connected;
                assert(ids[j] == id);
                assert(ids.to_set().contains(id));
            }
            if watched(all).contains(id) {
                assert(ids.to_set().contains(id));
                let j = ids.index_of(id);
                assert(streams@[j].id@ == id);
            }
        }
        assert(seen =~= watched(all));
    }
    HealthResponse {
        status: "ok",
        uptime_secs,
        active_streams: active,
        total_peers: stream_manager.total_peers(),
    }
}

/// Lists the active streams.
pub fn list_streams<R, N, F, T>(stream_manager: &StreamManager<R, N, F, T>) -> (response:
    StreamsResponse)
    requires
        stream_manager.wf(),
    ensures
        summaries_cover(response.streams@, stream_manager@.streams),
{
    StreamsResponse { streams: stream_manager.list_streams() }
}

/// Describes one stream, or says that there is none of that id.
pub fn stream_detail<R, N, F, T>(
    stream_manager: &StreamManager<R, N, F, T>,
    id: &str,
) -> (response: Result<StreamDetail, String>)
    requires
        stream_manager.wf(),
    ensures
        match response {
            Ok(detail) => stream_manager@.streams.contains_key(id@) && detail.describes(
                id@,
                stream_manager@.streams[id@],
            ),
            Err(text) => !stream_manager@.streams.contains_key(id@) && text@
                == "stream not found"@,
        },
{
    match stream_manager.stream_info(id) {
        Some(detail) => Ok(detail),
        None => Err("stream not found".to_owned()),
    }
}

/// The number of entries in a list of streams that say they are connected.
pub open spec fn connected_count(list: Seq<StreamSummary>) -> nat
    decreases list.len(),
{
    if list.len() == 0 {
        0
    } else {
        connected_count(list.drop_last()) + if list.last().connected {
            1nat
        } else {
            0
        }
    }
}

/// The number of entries in a list of streams that have a subscriber.
pub open spec fn subscribed_count(list: Seq<StreamSummary>) -> nat
    decreases list.len(),
{
    if list.len() == 0 {
        0
    } else {
        subscribed_count(list.drop_last()) + if list.last().subscribers > 0 {
            1nat
        } else {
            0
        }
    }
}

/// As many streams are being watched as entries in the list of streams say that
/// they are connected, which are those with a subscriber.
pub proof fn law_active_streams_are_the_connected_ones<R, N, F, T>(
    streams: Map<Seq<char>, StreamView<R, N, F, T>>,
    list: Seq<StreamSummary>,
)
    requires
        streams.dom().finite(),
        summaries_cover(list, streams),
    ensures
        watched(streams).finite(),
        watched(streams).len() == connected_count(list),
        watched(streams).len() == subscribed_count(list),
    decreases list.len(),
{
    if list.len() == 0 {
        assert(crate::stream::summary_ids(list).to_set() =~= Set::empty());
        assert(watched(streams) =~= Set::empty());
    } else {
        let id = list.last().id@;
        let others = streams.remove(id);
        lemma_rest_covers(streams, list);
        law_active_streams_are_the_connected_ones(others, list.drop_last());
        assert(!watched(others).contains(id));
        if streams[id].subscribers > 0 {
            assert(watched(streams) =~= watched(others).insert(id));
        } else {
            assert(watched(streams) =~= watched(others));
        }
    }
}

proof fn lemma_sum_of_unwatched<R, N, F, T>(streams: Map<Seq<char>, StreamView<R, N, F, T>>)
    requires
        streams.dom().finite(),
        forall|id: Seq<char>| #[trigger]
            streams.contains_key(id) ==> streams[id].subscribers == 0,
    ensures
        subscribers_of(streams) == 0,
    decreases streams.dom().len(),
{
    if streams.dom().len() > 0 {
        let id = streams.dom().choose();
        assert(streams.contains_key(id));
        let others = streams.remove(id);
        assert forall|other: Seq<char>| #[trigger] others.contains_key(
            other,
        ) implies others[other].subscribers == 0 by {
            assert(streams.contains_key(other));
        }
        lemma_sum_of_unwatched(others);
    }
}

/// No stream is being watched if and only if there are no peers.
pub proof fn law_nothing_is_active_without_peers<R, N, F, T>(manager: ManagerView<R, N, F, T>)
    requires
        manager.wf(),
    ensures
        watched(manager.streams).len() == 0 <==> manager.total_peers == 0,
{
    let streams = manager.streams;
    let active = watched(streams);
    assert(active.finite());
    if active.len() == 0 {
        assert forall|id: Seq<char>| #[trigger] streams.contains_key(
            id,
        ) implies streams[id].subscribers == 0 by {
            if streams[id].subscribers > 0 {
                assert(active.contains(id));
            }
        }
        lemma_sum_of_unwatched(streams);
    } else {
        let id = active.choose();
        assert(active.contains(id));
        lemma_sum_without(streams, id);
    }
}

/// Joining a stream without subscribers raises the number of streams that are
/// being watched by one, and joining one that has some leaves it as it is.
/// Leaving as the only subscriber lowers it by one.
pub proof fn law_joining_activates<R, N, F, T>(manager: ManagerView<R, N, F, T>, id: Seq<char>)
    requires
        manager.wf(),
        manager.streams.contains_key(id),
    ensures
        ({
            let active = watched(manager.streams).len();
            let had = manager.streams[id].subscribers;
            &&& had == 0 ==> watched(manager.joined(id).streams).len() == active + 1
            &&& had > 0 ==> watched(manager.joined(id).streams).len() == active
            &&& had == 1 ==> watched(manager.left(id).streams).len() + 1 == active
            &&& had != 1 ==> watched(manager.left(id).streams).len() == active
        }),
{
    let active = watched(manager.streams);
    let had = manager.streams[id].subscribers;
    assert(active.finite());
    if had == 0 {
        assert(!active.contains(id));
        assert(watched(manager.joined(id).streams) =~= active.insert(id));
    } else {
        assert(watched(manager.joined(id).streams) =~= active);
    }
    if had == 1 {
        assert(active.contains(id));
        assert(watched(manager.left(id).streams) =~= active.remove(id));
    } else {
        assert(watched(manager.left(id).streams) =~= active);
    }
}

} // verus!
