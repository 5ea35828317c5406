//! What holds of the stream registry over several calls.

use crate::stream::{
    has_url, lemma_sum_with, lemma_sum_without, lemma_urls_kept, not_found_text, peer_limit_text,
    pulls, relay_error_text, stream_limit_text, subscribers_of, summaries_cover, summary_ids,
    ManagerView, StreamDetail, StreamSummary, StreamView,
};
use crate::text::{decimal, law_decimal_reads_back, numeral_value};
use vstd::prelude::*;

verus! {

/// No stream has more subscribers than there are peers.
pub proof fn law_stream_within_total<R, N, F, T>(
    manager: ManagerView<R, N, F, T>,
    id: Seq<char>,
)
    requires
        manager.wf(),
        manager.streams.contains_key(id),
    ensures
        manager.streams[id].subscribers <= manager.total_peers,
{
    lemma_sum_without(manager.streams, id);
}

/// A subscriber that is let in exceeds neither limit, and limits that hold of
/// every stream go on holding.
pub proof fn law_limits_are_kept<R, N, F, T>(
    manager: ManagerView<R, N, F, T>,
    id: Seq<char>,
    max_peers: nat,
    max_per_stream: nat,
)
    requires
        manager.streams.contains_key(id),
        manager.total_peers < max_peers,
        manager.streams[id].subscribers < max_per_stream,
        forall|other: Seq<char>| #[trigger]
            manager.streams.contains_key(other) ==> manager.streams[other].subscribers
                <= max_per_stream,
    ensures
        manager.joined(id).total_peers <= max_peers,
        forall|other: Seq<char>| #[trigger]
            manager.joined(id).streams.contains_key(other) ==> manager.joined(
                id,
            ).streams[other].subscribers <= max_per_stream,
{
    assert forall|other: Seq<char>| #[trigger]
        manager.joined(id).streams.contains_key(other) implies manager.joined(
        id,
    ).streams[other].subscribers <= max_per_stream by {
        assert(manager.streams.contains_key(other));
    }
}

/// Leaving undoes joining, but for the idle timer that joining calls off.
pub proof fn law_leave_undoes_join<R, N, F, T>(manager: ManagerView<R, N, F, T>, id: Seq<char>)
    requires
        manager.streams.contains_key(id),
    ensures
        manager.joined(id).left(id) == (ManagerView {
            streams: manager.streams.insert(
                id,
                StreamView { idle_timer: None, ..manager.streams[id] },
            ),
            total_peers: manager.total_peers,
        }),
{
    assert(manager.joined(id).left(id).streams =~= manager.streams.insert(
        id,
        StreamView { idle_timer: None, ..manager.streams[id] },
    ));
}

/// A stream that somebody watches survives the end of an idle timer, and has
/// no timer right after somebody joined.
pub proof fn law_watched_stream_survives<R, N, F, T>(
    manager: ManagerView<R, N, F, T>,
    id: Seq<char>,
)
    requires
        manager.streams.contains_key(id),
    ensures
        manager.joined(id).expired(id) == manager.joined(id),
        manager.joined(id).streams[id].idle_timer is None,
        manager.streams[id].subscribers > 0 ==> manager.expired(id) == manager,
{
}

/// A stream whose last subscriber has left is gone after the idle time, and
/// its source may be pulled anew.
pub proof fn law_idle_stream_is_dropped<R, N, F, T>(
    manager: ManagerView<R, N, F, T>,
    id: Seq<char>,
    timer: T,
)
    requires
        manager.wf(),
        manager.streams.contains_key(id),
        manager.streams[id].subscribers <= 1,
    ensures
        ({
            let after = manager.left(id).armed(id, timer).expired(id);
            &&& !after.streams.contains_key(id)
            &&& after.streams == manager.streams.remove(id)
            &&& !has_url(after.streams, manager.streams[id].url)
        }),
{
    let after = manager.left(id).armed(id, timer).expired(id);
    let url = manager.streams[id].url;
    assert(after.streams =~= manager.streams.remove(id));
    assert(pulls(manager.streams, id, url));
    assert forall|other: Seq<char>| !pulls(after.streams, other, url) by {
        if pulls(after.streams, other, url) {
            assert(pulls(manager.streams, other, url));
        }
    }
}

/// Once a stream is created for a source, that stream, and no other, is found
/// for the source, and the registry stays in order.
pub proof fn law_created_stream_is_reused<R, N, F, T>(
    manager: ManagerView<R, N, F, T>,
    id: Seq<char>,
    stream: StreamView<R, N, F, T>,
)
    requires
        manager.wf(),
        !has_url(manager.streams, stream.url),
        stream.subscribers == 0,
    ensures
        manager.created(id, stream).wf(),
        has_url(manager.created(id, stream).streams, stream.url),
        forall|other: Seq<char>| #[trigger]
            pulls(manager.created(id, stream).streams, other, stream.url) ==> other == id,
{
    let now = manager.created(id, stream).streams;
    lemma_sum_with(manager.streams, id, stream);
    assert(pulls(now, id, stream.url));
    assert forall|a: Seq<char>, b: Seq<char>, url: Seq<char>| #[trigger]
        pulls(now, a, url) && #[trigger] pulls(now, b, url) implies a == b by {
        if a != id {
            assert(pulls(manager.streams, a, url));
        }
        if b != id {
            assert(pulls(manager.streams, b, url));
        }
    }
}

/// Removing a stream takes that stream and its peers away and nothing else,
/// and its source may be pulled anew.
pub proof fn law_removed_stream_is_gone<R, N, F, T>(
    manager: ManagerView<R, N, F, T>,
    id: Seq<char>,
    other: Seq<char>,
)
    requires
        manager.wf(),
        manager.streams.contains_key(id),
        other != id,
    ensures
        manager.removed(id).total_peers + manager.streams[id].subscribers == manager.total_peers,
        !manager.removed(id).streams.contains_key(id),
        !has_url(manager.removed(id).streams, manager.streams[id].url),
        manager.removed(id).streams.contains_key(other) == manager.streams.contains_key(other),
        manager.streams.contains_key(other) ==> manager.removed(id).streams[other]
            == manager.streams[other],
{
    let url = manager.streams[id].url;
    let after = manager.removed(id).streams;
    law_stream_within_total(manager, id);
    assert(pulls(manager.streams, id, url));
    assert forall|found: Seq<char>| !pulls(after, found, url) by {
        if pulls(after, found, url) {
            assert(pulls(manager.streams, found, url));
        }
    }
}

/// A change of the registry.
pub enum Change<R, N, F, T> {
    Create { id: Seq<char>, stream: StreamView<R, N, F, T> },
    Join { id: Seq<char> },
    Leave { id: Seq<char> },
    Arm { id: Seq<char>, timer: T },
    Expire { id: Seq<char> },
    Remove { id: Seq<char> },
}

impl<R, N, F, T> Change<R, N, F, T> {
    /// The registry after the change: a source that is pulled already gets no
    /// second stream, a new stream has no subscriber and no timer, and what is
    /// asked of a stream that is not there changes nothing.
    pub open spec fn apply(self, manager: ManagerView<R, N, F, T>) -> ManagerView<R, N, F, T> {
        match self {
            Change::Create { id, stream } => if has_url(manager.streams, stream.url) {
                manager
            } else {
                manager.created(id, StreamView { subscribers: 0, idle_timer: None, ..stream })
            },
            Change::Join { id } => if manager.streams.contains_key(id) {
                manager.joined(id)
            } else {
                manager
            },
            Change::Leave { id } => if manager.streams.contains_key(id) {
                manager.left(id)
            } else {
                manager
            },
            Change::Arm { id, timer } => if manager.streams.contains_key(id) {
                manager.armed(id, timer)
            } else {
                manager
            },
            Change::Expire { id } => manager.expired(id),
            Change::Remove { id } => if manager.streams.contains_key(id) {
                manager.removed(id)
            } else {
                manager
            },
        }
    }
}

/// The registry after `changes`, from an empty one on.
pub open spec fn after_changes<R, N, F, T>(changes: Seq<Change<R, N, F, T>>) -> ManagerView<
    R,
    N,
    F,
    T,
>
    decreases changes.len(),
{
    if changes.len() == 0 {
        ManagerView { streams: Map::empty(), total_peers: 0 }
    } else {
        changes.last().apply(after_changes(changes.drop_last()))
    }
}

proof fn lemma_change_keeps_order<R, N, F, T>(
    before: ManagerView<R, N, F, T>,
    change: Change<R, N, F, T>,
)
    requires
        before.wf(),
    ensures
        change.apply(before).wf(),
{
    let now = change.apply(before);
    match change {
        Change::Create { id, stream } => {
            if !has_url(before.streams, stream.url) {
                law_created_stream_is_reused(
                    before,
                    id,
                    StreamView { subscribers: 0, idle_timer: None, ..stream },
                );
            }
        },
        Change::Join { id } => {
            lemma_sum_with(before.streams, id, now.streams[id]);
            lemma_urls_kept(before.streams, now.streams);
        },
        Change::Leave { id } => {
            lemma_sum_with(before.streams, id, now.streams[id]);
            lemma_urls_kept(before.streams, now.streams);
        },
        Change::Arm { id, timer } => {
            lemma_sum_with(before.streams, id, now.streams[id]);
            lemma_urls_kept(before.streams, now.streams);
        },
        Change::Expire { id } => {
            if before.streams.contains_key(id) {
                lemma_sum_without(before.streams, id);
            }
            lemma_urls_kept(before.streams, now.streams);
        },
        Change::Remove { id } => {
            if before.streams.contains_key(id) {
                lemma_sum_without(before.streams, id);
            }
            lemma_urls_kept(before.streams, now.streams);
        },
    }
}

/// After any changes, in any order, the count of peers is the number of
/// subscribers of all streams together, and the registry is in order.
pub proof fn law_peer_count_is_total<R, N, F, T>(changes: Seq<Change<R, N, F, T>>)
    ensures
        after_changes(changes).wf(),
        after_changes(changes).total_peers == subscribers_of(after_changes(changes).streams),
    decreases changes.len(),
{
    if changes.len() > 0 {
        law_peer_count_is_total(changes.drop_last());
        lemma_change_keeps_order(after_changes(changes.drop_last()), changes.last());
    } else {
        assert(after_changes(changes).streams.dom() =~= Set::empty());
    }
}

/// The subscribers in a list of summaries together.
pub open spec fn listed_subscribers(list: Seq<StreamSummary>) -> nat
    decreases list.len(),
{
    if list.len() == 0 {
        0
    } else {
        listed_subscribers(list.drop_last()) + list.last().subscribers as nat
    }
}

/// The subscribers in the list of streams add up to the count of peers.
pub proof fn law_list_adds_up_to_total<R, N, F, T>(
    manager: ManagerView<R, N, F, T>,
    list: Seq<StreamSummary>,
)
    requires
        manager.wf(),
        summaries_cover(list, manager.streams),
    ensures
        listed_subscribers(list) == manager.total_peers,
{
    lemma_list_adds_up(manager.streams, list);
}

proof fn lemma_list_adds_up<R, N, F, T>(
    streams: Map<Seq<char>, StreamView<R, N, F, T>>,
    list: Seq<StreamSummary>,
)
    requires
        streams.dom().finite(),
        summaries_cover(list, streams),
    ensures
        listed_subscribers(list) == subscribers_of(streams),
    decreases list.len(),
{
    if list.len() == 0 {
        assert(summary_ids(list).to_set() =~= Set::empty());
        assert(streams.dom() =~= Set::empty());
    } else {
        let id = list.last().id@;
        lemma_rest_covers(streams, list);
        lemma_list_adds_up(streams.remove(id), list.drop_last());
        lemma_sum_without(streams, id);
    }
}

/// After a stream is created, the entry under its id is the very stream that
/// was given, field by field, every other id has the entry that it had, and
/// the count of peers falls by the subscribers of a stream that was replaced.
pub proof fn law_created_stream_is_the_given_one<R, N, F, T>(
    manager: ManagerView<R, N, F, T>,
    id: Seq<char>,
    stream: StreamView<R, N, F, T>,
    other: Seq<char>,
)
    requires
        manager.wf(),
    ensures
        ({
            let after = manager.created(id, stream);
            let entry = after.streams[id];
            &&& after.streams.contains_key(id)
            &&& entry.url == stream.url
            &&& entry.relay == stream.relay
            &&& entry.codec.payload_type == stream.codec.payload_type
            &&& entry.codec.sps == stream.codec.sps
            &&& entry.codec.pps == stream.codec.pps
            &&& entry.subscribers == stream.subscribers
            &&& entry.puller == stream.puller
            &&& entry.idle_timer == stream.idle_timer
            &&& other != id ==> same_entry(manager.streams, after.streams, other)
            &&& !manager.streams.contains_key(id) ==> after.total_peers == manager.total_peers
            &&& manager.streams.contains_key(id) ==> after.total_peers
                + manager.streams[id].subscribers == manager.total_peers
        }),
{
    if manager.streams.contains_key(id) {
        lemma_sum_without(manager.streams, id);
    }
}

/// Whether `id` has the same entry, or none, in both maps.
pub open spec fn same_entry<R, N, F, T>(
    before: Map<Seq<char>, StreamView<R, N, F, T>>,
    after: Map<Seq<char>, StreamView<R, N, F, T>>,
    id: Seq<char>,
) -> bool {
    &&& before.contains_key(id) <==> after.contains_key(id)
    &&& before.contains_key(id) ==> before[id] == after[id]
}

/// Whether two entries are of the same stream: its source, relay, codec
/// parameters and puller.
pub open spec fn same_stream<R, N, F, T>(
    a: StreamView<R, N, F, T>,
    b: StreamView<R, N, F, T>,
) -> bool {
    &&& a.url == b.url
    &&& a.relay == b.relay
    &&& a.codec.payload_type == b.codec.payload_type
    &&& a.codec.sps == b.codec.sps
    &&& a.codec.pps == b.codec.pps
    &&& a.puller == b.puller
}

/// Who joins counts one more on the stream and on the total and calls off the
/// timer; the stream stays the same, and no other is touched.
pub proof fn law_join_counts_one_in<R, N, F, T>(
    manager: ManagerView<R, N, F, T>,
    id: Seq<char>,
    other: Seq<char>,
)
    requires
        manager.streams.contains_key(id),
        other != id,
    ensures
        ({
            let after = manager.joined(id);
            &&& after.streams.contains_key(id)
            &&& same_stream(manager.streams[id], after.streams[id])
            &&& after.streams[id].subscribers == manager.streams[id].subscribers + 1
            &&& after.streams[id].idle_timer is None
            &&& after.total_peers == manager.total_peers + 1
            &&& same_entry(manager.streams, after.streams, other)
        }),
{
}

/// Who leaves counts one less on the stream and on the total, if the stream has
/// a subscriber; otherwise both counts stay. The stream and its timer stay the
/// same, and no other is touched.
pub proof fn law_leave_counts_one_out<R, N, F, T>(
    manager: ManagerView<R, N, F, T>,
    id: Seq<char>,
    other: Seq<char>,
)
    requires
        manager.wf(),
        manager.streams.contains_key(id),
        other != id,
    ensures
        ({
            let after = manager.left(id);
            let had = manager.streams[id].subscribers;
            &&& after.streams.contains_key(id)
            &&& same_stream(manager.streams[id], after.streams[id])
            &&& after.streams[id].idle_timer == manager.streams[id].idle_timer
            &&& had > 0 ==> after.streams[id].subscribers + 1 == had && after.total_peers + 1
                == manager.total_peers
            &&& had == 0 ==> after.streams[id].subscribers == 0 && after.total_peers
                == manager.total_peers
            &&& same_entry(manager.streams, after.streams, other)
        }),
{
    lemma_sum_without(manager.streams, id);
}

/// Arming a timer changes nothing but the timer of that stream.
pub proof fn law_arming_keeps_all_but_the_timer<R, N, F, T>(
    manager: ManagerView<R, N, F, T>,
    id: Seq<char>,
    timer: T,
    other: Seq<char>,
)
    requires
        manager.streams.contains_key(id),
        other != id,
    ensures
        ({
            let after = manager.armed(id, timer);
            &&& after.streams.contains_key(id)
            &&& same_stream(manager.streams[id], after.streams[id])
            &&& after.streams[id].subscribers == manager.streams[id].subscribers
            &&& after.streams[id].idle_timer == Some(timer)
            &&& after.total_peers == manager.total_peers
            &&& same_entry(manager.streams, after.streams, other)
        }),
{
}

/// The end of an idle timer drops the stream if and only if nobody watches it,
/// touches no other stream, and counts nobody out.
pub proof fn law_expiry_drops_unwatched_streams_only<R, N, F, T>(
    manager: ManagerView<R, N, F, T>,
    id: Seq<char>,
    other: Seq<char>,
)
    requires
        other != id,
    ensures
        ({
            let after = manager.expired(id);
            &&& after.streams.contains_key(id) <==> manager.streams.contains_key(id)
                && manager.streams[id].subscribers > 0
            &&& after.streams.contains_key(id) ==> after.streams[id] == manager.streams[id]
            &&& same_entry(manager.streams, after.streams, other)
            &&& after.total_peers == manager.total_peers
        }),
{
}

/// A source counts as pulled if and only if some stream has its URL, and a
/// registry in order has no two such streams.
pub proof fn law_pulled_sources<R, N, F, T>(
    manager: ManagerView<R, N, F, T>,
    url: Seq<char>,
    a: Seq<char>,
    b: Seq<char>,
)
    ensures
        pulls(manager.streams, a, url) <==> manager.streams.contains_key(a)
            && manager.streams[a].url == url,
        manager.streams.contains_key(a) && manager.streams[a].url == url ==> has_url(
            manager.streams,
            url,
        ),
        has_url(manager.streams, url) ==> exists|id: Seq<char>| #[trigger]
            manager.streams.contains_key(id) && manager.streams[id].url == url,
        manager.wf() && manager.streams.contains_key(a) && manager.streams.contains_key(b)
            && manager.streams[a].url == manager.streams[b].url ==> a == b,
{
    if manager.streams.contains_key(a) {
        assert(pulls(manager.streams, a, manager.streams[a].url));
    }
    if manager.streams.contains_key(b) {
        assert(pulls(manager.streams, b, manager.streams[b].url));
    }
    if has_url(manager.streams, url) {
        let id = choose|id: Seq<char>| pulls(manager.streams, id, url);
        assert(manager.streams.contains_key(id));
    }
}

/// A list of streams has an entry for every stream and for nothing else, no id
/// twice, and each entry tells the subscribers and the URL of its stream and
/// says that it is connected exactly if it has a subscriber.
pub proof fn law_list_tells_of_every_stream<R, N, F, T>(
    list: Seq<StreamSummary>,
    streams: Map<Seq<char>, StreamView<R, N, F, T>>,
)
    requires
        summaries_cover(list, streams),
    ensures
        forall|i: int|
            0 <= i < list.len() ==> {
                let entry = #[trigger] list[i];
                &&& streams.contains_key(entry.id@)
                &&& entry.subscribers == streams[entry.id@].subscribers
                &&& entry.connected <==> entry.subscribers != 0
                &&& entry.url@ == streams[entry.id@].url
            },
        forall|i: int, j: int|
            0 <= i < j < list.len() ==> (#[trigger] list[i]).id@ != (#[trigger] list[j]).id@,
        forall|id: Seq<char>| #[trigger]
            streams.contains_key(id) ==> exists|i: int|
                0 <= i < list.len() && (#[trigger] list[i]).id@ == id,
{
    let ids = summary_ids(list);
    assert forall|i: int| 0 <= i < list.len() implies {
        let entry = #[trigger] list[i];
        &&& streams.contains_key(entry.id@)
        &&& entry.subscribers == streams[entry.id@].subscribers
        &&& entry.connected <==> entry.subscribers != 0
        &&& entry.url@ == streams[entry.id@].url
    } by {
        assert(ids[i] == list[i].id@);
        assert(ids.to_set().contains(list[i].id@));
    }
    assert forall|i: int, j: int| 0 <= i < j < list.len() implies (#[trigger] list[i]).id@ != (
    #[trigger] list[j]).id@ by {
        assert(ids[i] != ids[j]);
    }
    assert forall|id: Seq<char>| #[trigger] streams.contains_key(id) implies exists|i: int|
        0 <= i < list.len() && (#[trigger] list[i]).id@ == id by {
        assert(ids.to_set().contains(id));
        let i = ids.index_of(id);
        assert(list[i].id@ == id);
    }
}

/// The detailed information on a stream tells its id, its URL, its payload type
/// and its subscribers, and says that it is connected exactly if it has one.
pub proof fn law_detail_tells_of_its_stream<R, N, F, T>(
    detail: StreamDetail,
    id: Seq<char>,
    stream: StreamView<R, N, F, T>,
)
    requires
        detail.describes(id, stream),
    ensures
        detail.id@ == id,
        detail.url@ == stream.url,
        detail.payload_type == stream.codec.payload_type,
        detail.subscribers == stream.subscribers,
        detail.connected <==> detail.subscribers != 0,
        detail.codec@ == "h264"@,
{
}

/// The complaint about an unknown stream names the stream between quotes.
pub proof fn law_not_found_names_the_stream(id: Seq<char>)
    ensures
        ({
            let text = not_found_text(id);
            let head = "stream '"@;
            let tail = "' not found"@;
            &&& text.len() == head.len() + id.len() + tail.len()
            &&& head.is_prefix_of(text)
            &&& text.subrange(head.len() as int, (head.len() + id.len()) as int) == id
            &&& tail.is_suffix_of(text)
        }),
{
    let text = not_found_text(id);
    let head = "stream '"@;
    let tail = "' not found"@;
    assert(text.subrange(0, head.len() as int) =~= head);
    assert(text.subrange(head.len() as int, (head.len() + id.len()) as int) =~= id);
    assert(text.subrange(text.len() - tail.len(), text.len() as int) =~= tail);
}

/// The complaints about limits give the limit as a numeral in brackets.
pub proof fn law_limit_texts_give_the_limit(max: nat)
    ensures
        ({
            let text = peer_limit_text(max);
            let head = "global peer limit reached ("@;
            &&& head.is_prefix_of(text)
            &&& numeral_value(text.subrange(head.len() as int, text.len() - 1)) == max
            &&& ")"@.is_suffix_of(text)
        }),
        ({
            let text = stream_limit_text(max);
            let head = "stream limit reached ("@;
            &&& head.is_prefix_of(text)
            &&& numeral_value(text.subrange(head.len() as int, text.len() - 1)) == max
            &&& ")"@.is_suffix_of(text)
        }),
{
    reveal_strlit(")");
    law_decimal_reads_back(max);
    lemma_bracketed("global peer limit reached ("@, decimal(max));
    lemma_bracketed("stream limit reached ("@, decimal(max));
}

proof fn lemma_bracketed(head: Seq<char>, middle: Seq<char>)
    ensures
        ({
            let text = head + middle + ")"@;
            &&& head.is_prefix_of(text)
            &&& text.subrange(head.len() as int, text.len() - 1) == middle
            &&& ")"@.is_suffix_of(text)
        }),
{
    reveal_strlit(")");
    let text = head + middle + ")"@;
    assert(text.subrange(0, head.len() as int) =~= head);
    assert(text.subrange(head.len() as int, text.len() - 1) =~= middle);
    assert(text.subrange(text.len() - 1, text.len() as int) =~= ")"@);
}

/// The report of a relay error ends with the error.
pub proof fn law_relay_error_is_told(error: Seq<char>)
    ensures
        ({
            let text = relay_error_text(error);
            let head = "RTP relay error: "@;
            &&& head.is_prefix_of(text)
            &&& text.skip(head.len() as int) == error
        }),
{
    let text = relay_error_text(error);
    let head = "RTP relay error: "@;
    assert(text.subrange(0, head.len() as int) =~= head);
    assert(text.skip(head.len() as int) =~= error);
}

/// Dropping the last entry of a list of streams and its stream leaves a list of
/// the other streams.
pub proof fn lemma_rest_covers<R, N, F, T>(
    streams: Map<Seq<char>, StreamView<R, N, F, T>>,
    list: Seq<StreamSummary>,
)
    requires
        list.len() > 0,
        summaries_cover(list, streams),
    ensures
        streams.contains_key(list.last().id@),
        list.last().describes(list.last().id@, streams[list.last().id@]),
        summaries_cover(list.drop_last(), streams.remove(list.last().id@)),
{
    let ids = summary_ids(list);
    let id = list.last().id@;
    let rest = list.drop_last();
    let others = streams.remove(id);
    let rest_ids = summary_ids(rest);
    assert(ids[list.len() - 1] == id);
    assert(ids.to_set().contains(id));
    assert(rest_ids =~= ids.drop_last());
    assert forall|other: Seq<char>|
        rest_ids.to_set().contains(other) <==> others.dom().contains(other) by {
        if rest_ids.to_set().contains(other) {
            let i = rest_ids.index_of(other);
            assert(ids[i] == other);
            assert(ids.to_set().contains(other));
        }
        if others.dom().contains(other) {
            assert(ids.to_set().contains(other));
            let i = ids.index_of(other);
            assert(rest_ids[i] == other);
        }
    }
    assert(rest_ids.to_set() =~= others.dom());
    assert forall|i: int| 0 <= i < rest.len() implies (#[trigger] rest[i]).describes(
        rest[i].id@,
        others[rest[i].id@],
    ) by {
        assert(list[i] == rest[i]);
        assert(ids[i] == rest[i].id@);
    }
}

} // verus!
