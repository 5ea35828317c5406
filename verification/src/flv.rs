//! The head of an FLV stream: where its video sequence header ends, and the
//! cache of everything up to there that late subscribers are sent first.
//!
//! An FLV stream is a file header of nine bytes and a four-byte size field,
//! then tags. A tag is a header of eleven bytes, a payload, and a four-byte
//! size field. Bytes 1 to 3 of the tag header are the payload's length, most
//! significant byte first.

use vstd::prelude::*;

verus! {

/// The length of the payload of the tag at `pos`.
pub open spec fn payload_size(data: Seq<u8>, pos: int) -> int {
    data[pos + 1] * 65536 + data[pos + 2] * 256 + data[pos + 3]
}

/// The offset just past the tag at `pos`, its trailing size field included.
pub open spec fn tag_end(data: Seq<u8>, pos: int) -> int {
    pos + 11 + payload_size(data, pos) + 4
}

/// Whether `data` holds the whole tag at `pos`.
pub open spec fn tag_arrived(data: Seq<u8>, pos: int) -> bool {
    pos + 11 <= data.len() && tag_end(data, pos) <= data.len()
}

/// Whether the tag at `pos` is a video sequence header: a video tag (type 9)
/// of at least two payload bytes that begins with 0x17 0x00 (an AVC key frame
/// tag with packet type 0) or, where the top bit marks the extended header,
/// has packet type 0 in the low four bits of its first byte.
pub open spec fn is_sequence_header(data: Seq<u8>, pos: int) -> bool {
    let first = data[pos + 11];
    &&& data[pos] == 9
    &&& payload_size(data, pos) >= 2
    &&& if first < 0x80 {
        first == 0x17 && data[pos + 12] == 0
    } else {
        first % 16 == 0
    }
}

/// The end of the first video sequence header among the tags from `pos` on, if
/// that tag and all before it have arrived.
pub open spec fn header_end_from(data: Seq<u8>, pos: int) -> Option<int>
    decreases data.len() - pos,
{
    if pos < 0 || !tag_arrived(data, pos) {
        None
    } else if is_sequence_header(data, pos) {
        Some(tag_end(data, pos))
    } else {
        header_end_from(data, tag_end(data, pos))
    }
}

/// The end of the first video sequence header of the stream, if it has arrived.
pub open spec fn header_end(data: Seq<u8>) -> Option<int> {
    header_end_from(data, 13)
}

/// Returns the offset just past the video sequence header tag, its trailing
/// size field included, or `None` if the tag has not arrived yet.
pub fn flv_seq_hdr_end(data: &[u8]) -> (end: Option<usize>)
    ensures
        match end {
            Some(at) => header_end(data@) == Some(at as int) && 13 < at <= data@.len(),
            None => header_end(data@) is None,
        },
{
    if data.len() < 13 {
        return None;
    }
    let mut pos: usize = 13;
    loop
        invariant
            13 <= pos <= data@.len(),
            header_end(data@) == header_end_from(data@, pos as int),
        decreases data@.len() - pos,
    {
        if data.len() - pos < 11 {
            return None;
        }
        let tag_type: u8 = data[pos];
        let size: usize = data[pos + 1] as usize * 65536 + data[pos + 2] as usize * 256 + data[pos
            + 3] as usize;
        if data.len() - pos - 11 < size + 4 {
            return None;
        }
        let end: usize = pos + 11 + size + 4;
        if tag_type == 0x09 && size >= 2 {
            let first: u8 = data[pos + 11];
            if first < 0x80 {
                if first == 0x17 && data[pos + 12] == 0x00 {
                    return Some(end);
                }
            } else if first % 16 == 0x00 {
                return Some(end);
            }
        }
        pos = end;
    }
}

proof fn lemma_header_end_from(data: Seq<u8>, pos: int)
    requires
        0 <= pos,
    ensures
        header_end_from(data, pos) matches Some(end) ==> pos + 15 <= end <= data.len(),
    decreases data.len() - pos,
{
    if tag_arrived(data, pos) && !is_sequence_header(data, pos) {
        lemma_header_end_from(data, tag_end(data, pos));
    }
}

proof fn lemma_header_end_grows(data: Seq<u8>, n: int, pos: int)
    requires
        0 <= pos,
        0 <= n <= data.len(),
    ensures
        header_end_from(data.take(n), pos) is Some ==> header_end_from(data.take(n), pos)
            == header_end_from(data, pos),
        header_end_from(data, pos) matches Some(end) ==> end <= n ==> header_end_from(
            data.take(n),
            pos,
        ) == Some(end),
    decreases data.len() - pos,
{
    let part = data.take(n);
    lemma_header_end_from(data, pos);
    lemma_header_end_from(part, pos);
    if tag_arrived(data, pos) && pos + 11 <= n {
        assert(payload_size(part, pos) == payload_size(data, pos));
        let next = tag_end(data, pos);
        if next <= n {
            assert(is_sequence_header(part, pos) == is_sequence_header(data, pos));
            if !is_sequence_header(data, pos) {
                lemma_header_end_grows(data, n, next);
            }
        } else if !is_sequence_header(data, pos) {
            lemma_header_end_from(data, next);
        }
    }
}

/// The end of the sequence header, once known, stays what it is as more of the
/// stream arrives, and it is known exactly from the moment that the stream
/// reaches it.
pub proof fn law_header_end_is_stable(data: Seq<u8>, n: int)
    requires
        0 <= n <= data.len(),
    ensures
        header_end(data.take(n)) is Some ==> header_end(data.take(n)) == header_end(data),
        header_end(data) matches Some(end) ==> 13 < end <= data.len() && (header_end(
            data.take(n),
        ) is Some <==> end <= n),
{
    lemma_header_end_grows(data, n, 13);
    lemma_header_end_from(data, 13);
    lemma_header_end_from(data.take(n), 13);
}

/// What an FLV cache holds of a stream: everything up to the end of the video
/// sequence header, or all of it while the header is incomplete.
pub open spec fn stream_head(data: Seq<u8>) -> Seq<u8> {
    match header_end(data) {
        Some(end) => data.take(end),
        None => data,
    }
}

/// The start of a stream that late subscribers need to initialise a decoder.
pub struct InitCache {
    data: Vec<u8>,
    complete: bool,
}

/// What an `InitCache` holds, and whether it takes no more.
pub struct InitCacheView {
    pub data: Seq<u8>,
    pub complete: bool,
}

impl View for InitCache {
    type V = InitCacheView;

    closed spec fn view(&self) -> InitCacheView {
        InitCacheView { data: self.data@, complete: self.complete }
    }
}

impl InitCacheView {
    /// The cache before any data: an MPEG-TS stream repeats its tables in band
    /// and needs none, so its cache is complete from the start.
    pub open spec fn start(mpegts: bool) -> InitCacheView {
        InitCacheView { data: seq![], complete: mpegts }
    }

    /// The cache after one more chunk of the stream.
    pub open spec fn absorbed(self, chunk: Seq<u8>) -> InitCacheView {
        if self.complete {
            self
        } else {
            InitCacheView {
                data: stream_head(self.data + chunk),
                complete: header_end(self.data + chunk) is Some,
            }
        }
    }

    /// The cache after all of `chunks`, in order.
    pub open spec fn absorbed_all(self, chunks: Seq<Seq<u8>>) -> InitCacheView
        decreases chunks.len(),
    {
        if chunks.len() == 0 {
            self
        } else {
            self.absorbed_all(chunks.drop_last()).absorbed(chunks.last())
        }
    }
}

impl InitCache {
    /// An empty cache.
    pub fn new(mpegts: bool) -> (cache: InitCache)
        ensures
            cache@ == InitCacheView::start(mpegts),
    {
        let cache = InitCache { data: Vec::new(), complete: mpegts };
        assert(cache@.data =~= seq![]);
        cache
    }

    /// Takes in the next chunk of the stream. Once the sequence header is
    /// there, the cache is cut after it and never changes again.
    pub fn absorb(&mut self, chunk: &[u8])
        ensures
            final(self)@ == old(self)@.absorbed(chunk@),
    {
        if self.complete {
            return ;
        }
        self.data.extend_from_slice(chunk);
        assert(self.data@ =~= old(self)@.data + chunk@);
        if let Some(end) = flv_seq_hdr_end(self.data.as_slice()) {
            self.data.truncate(end);
            self.complete = true;
        }
    }

    /// A copy of what the cache holds.
    pub fn snapshot(&self) -> (data: Vec<u8>)
        ensures
            data@ == self@.data,
    {
        self.data.clone()
    }

    /// Whether the cache takes no more.
    pub fn is_complete(&self) -> (complete: bool)
        ensures
            complete == self@.complete,
    {
        self.complete
    }
}

/// The cache of an FLV stream depends only on the bytes received, not on how
/// they were cut into chunks.
pub proof fn law_cache_ignores_chunking(chunks: Seq<Seq<u8>>)
    ensures
        InitCacheView::start(false).absorbed_all(chunks) == (InitCacheView {
            data: stream_head(chunks.flatten()),
            complete: header_end(chunks.flatten()) is Some,
        }),
    decreases chunks.len(),
{
    let all = chunks.flatten();
    if chunks.len() == 0 {
        lemma_header_end_from(all, 13);
        assert(all =~= seq![]);
    } else {
        let before = chunks.drop_last();
        let chunk = chunks.last();
        law_cache_ignores_chunking(before);
        let had = before.flatten();
        chunks.lemma_flatten_and_flatten_alt_are_equivalent();
        before.lemma_flatten_and_flatten_alt_are_equivalent();
        assert(all == had + chunk);
        assert(all.take(had.len() as int) =~= had);
        law_header_end_is_stable(all, had.len() as int);
        if header_end(had) is Some {
            assert(all.take(header_end(all)->0) =~= had.take(header_end(had)->0));
        }
    }
}

/// The cache of an MPEG-TS stream stays empty.
pub proof fn law_mpegts_cache_stays_empty(chunks: Seq<Seq<u8>>)
    ensures
        InitCacheView::start(true).absorbed_all(chunks) == InitCacheView::start(true),
    decreases chunks.len(),
{
    if chunks.len() > 0 {
        law_mpegts_cache_stays_empty(chunks.drop_last());
    }
}

/// Whether a video tag that is no sequence header precedes the first sequence
/// header among the tags from `pos` on.
pub open spec fn frame_before_header(data: Seq<u8>, pos: int) -> bool
    decreases data.len() - pos,
{
    if pos < 0 || !tag_arrived(data, pos) || is_sequence_header(data, pos) {
        false
    } else {
        data[pos] == 9 || frame_before_header(data, tag_end(data, pos))
    }
}

/// Whether some whole tag from `pos` on is a video tag but no sequence header.
pub open spec fn holds_frame(data: Seq<u8>, pos: int) -> bool
    decreases data.len() - pos,
{
    if pos < 0 || !tag_arrived(data, pos) {
        false
    } else {
        (data[pos] == 9 && !is_sequence_header(data, pos)) || holds_frame(data, tag_end(data, pos))
    }
}

/// What `stream_head` keeps, for the tags from `pos` on.
spec fn head_from(data: Seq<u8>, pos: int) -> Seq<u8> {
    match header_end_from(data, pos) {
        Some(end) => data.take(end),
        None => data,
    }
}

proof fn lemma_head_holds_no_frame(data: Seq<u8>, pos: int)
    requires
        0 <= pos,
        !frame_before_header(data, pos),
    ensures
        !holds_frame(head_from(data, pos), pos),
    decreases data.len() - pos,
{
    reveal_with_fuel(holds_frame, 2);
    lemma_header_end_from(data, pos);
    if tag_arrived(data, pos) {
        let head = head_from(data, pos);
        let next = tag_end(data, pos);
        if !is_sequence_header(data, pos) {
            lemma_header_end_from(data, next);
            lemma_head_holds_no_frame(data, next);
        }
        assert(payload_size(head, pos) == payload_size(data, pos));
        assert(is_sequence_header(head, pos) == is_sequence_header(data, pos));
    }
}

/// The cache, which is what a late client is sent first, holds no whole video
/// frame at any time, provided that no frame comes before the sequence header of an
/// FLV stream.
pub proof fn law_cache_holds_no_frame(mpegts: bool, chunks: Seq<Seq<u8>>)
    requires
        !mpegts ==> !frame_before_header(chunks.flatten(), 13),
    ensures
        !holds_frame(InitCacheView::start(mpegts).absorbed_all(chunks).data, 13),
{
    if mpegts {
        law_mpegts_cache_stays_empty(chunks);
    } else {
        law_cache_ignores_chunking(chunks);
        lemma_head_holds_no_frame(chunks.flatten(), 13);
    }
}

/// A tag as it is written: its type, the seven bytes of its header that tell
/// timestamp and stream, its payload, and the four bytes that follow it.
pub struct WrittenTag {
    pub kind: u8,
    pub rest: Seq<u8>,
    pub payload: Seq<u8>,
    pub trailer: Seq<u8>,
}

impl WrittenTag {
    /// Whether the tag can be written: a payload's length has three bytes.
    pub open spec fn can_be_written(self) -> bool {
        self.rest.len() == 7 && self.payload.len() < 0x100_0000 && self.trailer.len() == 4
    }

    /// The bytes of the tag.
    pub open spec fn encoding(self) -> Seq<u8> {
        let n = self.payload.len();
        seq![self.kind, (n / 65536) as u8, (n / 256 % 256) as u8, (n % 256) as u8] + self.rest
            + self.payload + self.trailer
    }

    /// Whether the tag is a video sequence header: of an AVC stream (0x17 and
    /// 0x00 come first), or, where the top bit of the first byte marks the
    /// extended header, of packet type 0.
    pub open spec fn starts_sequence(self) -> bool {
        &&& self.kind == 0x09
        &&& self.payload.len() >= 2
        &&& if self.payload[0] & 0x80 == 0 {
            self.payload[0] == 0x17 && self.payload[1] == 0x00
        } else {
            self.payload[0] & 0x0f == 0
        }
    }
}

/// The bytes of `tags`, one after the other.
pub open spec fn bytes_of_tags(tags: Seq<WrittenTag>) -> Seq<u8>
    decreases tags.len(),
{
    if tags.len() == 0 {
        seq![]
    } else {
        tags[0].encoding() + bytes_of_tags(tags.drop_first())
    }
}

/// Whether `tags` can be written and no video sequence header is among them.
pub open spec fn precede_header(tags: Seq<WrittenTag>) -> bool {
    forall|i: int|
        0 <= i < tags.len() ==> (#[trigger] tags[i]).can_be_written() && !tags[i].starts_sequence()
}

/// A tag that is written with a payload of `n` bytes is read as `n + 15` bytes
/// long wherever it stands, and its type and first bytes tell whether it is a
/// video sequence header.
pub proof fn law_written_tag_is_read(before: Seq<u8>, tag: WrittenTag, after: Seq<u8>)
    requires
        tag.can_be_written(),
    ensures
        ({
            let data = before + tag.encoding() + after;
            let pos = before.len() as int;
            &&& tag.encoding().len() == tag.payload.len() + 15
            &&& payload_size(data, pos) == tag.payload.len()
            &&& tag_end(data, pos) == pos + tag.payload.len() + 15
            &&& tag_arrived(data, pos)
            &&& is_sequence_header(data, pos) <==> tag.starts_sequence()
        }),
{
    let data = before + tag.encoding() + after;
    let pos = before.len() as int;
    let n = tag.payload.len();
    let written = tag.encoding();
    assert(forall|i: int| 0 <= i < written.len() ==> data[pos + i] == #[trigger] written[i]);
    assert(data[pos] == written[0]);
    assert(data[pos + 1] == written[1]);
    assert(data[pos + 2] == written[2]);
    assert(data[pos + 3] == written[3]);
    if n >= 2 {
        let first = tag.payload[0];
        assert(written[11] == first);
        assert(written[12] == tag.payload[1]);
        assert(data[pos + 11] == written[11]);
        assert(data[pos + 12] == written[12]);
        assert(first & 0x80 == 0 <==> first < 0x80) by (bit_vector);
        assert(first & 0x0f == first % 16) by (bit_vector);
    }
}

proof fn lemma_tags_are_passed(before: Seq<u8>, tags: Seq<WrittenTag>, after: Seq<u8>)
    requires
        precede_header(tags),
    ensures
        header_end_from(before + bytes_of_tags(tags) + after, before.len() as int)
            == header_end_from(
            before + bytes_of_tags(tags) + after,
            (before + bytes_of_tags(tags)).len() as int,
        ),
    decreases tags.len(),
{
    let data = before + bytes_of_tags(tags) + after;
    if tags.len() == 0 {
        assert(before + bytes_of_tags(tags) =~= before);
    } else {
        let tag = tags[0];
        let later = tags.drop_first();
        let rest = bytes_of_tags(later) + after;
        assert(data =~= before + tag.encoding() + rest);
        law_written_tag_is_read(before, tag, rest);
        assert forall|i: int| 0 <= i < later.len() implies (#[trigger] later[i]).can_be_written()
            && !later[i].starts_sequence() by {
            assert(later[i] == tags[i + 1]);
        }
        lemma_tags_are_passed(before + tag.encoding(), later, after);
        assert(data =~= (before + tag.encoding()) + bytes_of_tags(later) + after);
        assert(before + bytes_of_tags(tags) =~= before + tag.encoding() + bytes_of_tags(later));
    }
}

/// In a stream that is written as file header, tags that are no video sequence
/// header, and a tag that is one, the end that is found is the length of what
/// was written up to there, whatever comes after.
pub proof fn law_written_header_is_found(
    file: Seq<u8>,
    tags: Seq<WrittenTag>,
    header: WrittenTag,
    after: Seq<u8>,
)
    requires
        file.len() == 13,
        precede_header(tags),
        header.can_be_written(),
        header.starts_sequence(),
    ensures
        ({
            let head = file + bytes_of_tags(tags) + header.encoding();
            header_end(head + after) == Some(head.len() as int)
        }),
{
    let before = file + bytes_of_tags(tags);
    let data = before + header.encoding() + after;
    assert(data =~= file + bytes_of_tags(tags) + (header.encoding() + after));
    lemma_tags_are_passed(file, tags, header.encoding() + after);
    law_written_tag_is_read(before, header, after);
}

/// While the stream holds whole tags that are no video sequence header and only
/// a part of the next tag, whichever that is, no end is found.
pub proof fn law_no_end_before_the_header(
    file: Seq<u8>,
    tags: Seq<WrittenTag>,
    next: WrittenTag,
    n: int,
)
    requires
        file.len() == 13,
        precede_header(tags),
        next.can_be_written(),
        0 <= n < next.encoding().len(),
    ensures
        header_end(file + bytes_of_tags(tags) + next.encoding().take(n)) is None,
{
    let before = file + bytes_of_tags(tags);
    let part = next.encoding().take(n);
    let data = before + part;
    let whole = before + next.encoding() + seq![];
    let pos = before.len() as int;
    lemma_tags_are_passed(file, tags, part);
    law_written_tag_is_read(before, next, seq![]);
    if n >= 11 {
        assert(data[pos + 1] == whole[pos + 1]);
        assert(data[pos + 2] == whole[pos + 2]);
        assert(data[pos + 3] == whole[pos + 3]);
    }
}

/// A stream whose file header is incomplete has no end of a sequence header.
pub proof fn law_no_end_in_the_file_header(data: Seq<u8>)
    requires
        data.len() < 13,
    ensures
        header_end(data) is None,
{
}

/// However a written stream is cut into chunks, its cache holds what was written
/// up to the end of the video sequence header, and is complete, once the header
/// is there.
pub proof fn law_cache_of_written_stream(
    file: Seq<u8>,
    tags: Seq<WrittenTag>,
    header: WrittenTag,
    after: Seq<u8>,
    chunks: Seq<Seq<u8>>,
)
    requires
        file.len() == 13,
        precede_header(tags),
        header.can_be_written(),
        header.starts_sequence(),
        chunks.flatten() == file + bytes_of_tags(tags) + header.encoding() + after,
    ensures
        ({
            let cache = InitCacheView::start(false).absorbed_all(chunks);
            &&& cache.data == file + bytes_of_tags(tags) + header.encoding()
            &&& cache.complete
        }),
{
    let head = file + bytes_of_tags(tags) + header.encoding();
    law_cache_ignores_chunking(chunks);
    law_written_header_is_found(file, tags, header, after);
    assert((head + after).take(head.len() as int) =~= head);
}

/// Before the video sequence header is there, the cache holds all that came,
/// and is not complete.
pub proof fn law_cache_of_headless_stream(
    file: Seq<u8>,
    tags: Seq<WrittenTag>,
    next: WrittenTag,
    n: int,
    chunks: Seq<Seq<u8>>,
)
    requires
        file.len() == 13,
        precede_header(tags),
        next.can_be_written(),
        0 <= n < next.encoding().len(),
        chunks.flatten() == file + bytes_of_tags(tags) + next.encoding().take(n),
    ensures
        ({
            let cache = InitCacheView::start(false).absorbed_all(chunks);
            &&& cache.data == chunks.flatten()
            &&& !cache.complete
        }),
{
    law_cache_ignores_chunking(chunks);
    law_no_end_before_the_header(file, tags, next, n);
}

/// The cache of an MPEG-TS stream holds nothing at any time, and takes nothing.
pub proof fn law_mpegts_cache_holds_nothing(chunks: Seq<Seq<u8>>)
    ensures
        InitCacheView::start(true).absorbed_all(chunks).data.len() == 0,
        InitCacheView::start(true).absorbed_all(chunks).complete,
{
    law_mpegts_cache_stays_empty(chunks);
}

} // verus!
