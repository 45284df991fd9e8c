//! Framing of raw audio into an Ogg Opus stream: the stream headers, the
//! cutting of samples into 20 ms frames, granule positions, and the pages
//! that carry the encoded packets.
use vstd::prelude::*;

verus! {

/// Samples in one 20 ms frame at 16 kHz.
pub const FRAME_SAMPLES: usize = 320;

/// Bytes in one frame of 32-bit float samples.
pub const FRAME_BYTES: usize = 1280;

/// The most bytes one encoded Opus packet may take.
pub const MAX_PACKET_BYTES: usize = 1275;

/// The Opus identification header: magic `OpusHead`, version 1, one channel,
/// no pre-skip, an input rate of 16000 Hz, no gain, mapping family 0.
pub open spec fn opus_head_bytes() -> Seq<u8> {
    seq![
        0x4f, 0x70, 0x75, 0x73, 0x48, 0x65, 0x61, 0x64,
        1, 1,
        0, 0,
        0x80, 0x3e, 0, 0,
        0, 0,
        0,
    ]
}

/// The identification header describes the stream the encoder produces: it
/// is the 19-byte RFC 7845 `OpusHead` of version 1 with no pre-skip, no gain
/// and mapping family 0, its channel count is the one channel whose 32-bit
/// float samples make up a frame (`FRAME_BYTES` bytes hold `FRAME_SAMPLES`
/// samples of each channel), and its input rate is the one at which a frame
/// of `FRAME_SAMPLES` samples lasts 20 ms.
pub proof fn lemma_head_describes_stream()
    ensures
        opus_head_bytes().len() == 19,
        opus_head_bytes().take(8) == seq![0x4fu8, 0x70, 0x75, 0x73, 0x48, 0x65, 0x61, 0x64],
        opus_head_bytes()[8] == 1,
        FRAME_BYTES == FRAME_SAMPLES * 4 * opus_head_bytes()[9],
        opus_head_bytes()[10] as int + 256 * opus_head_bytes()[11] == 0,
        ({
            let h = opus_head_bytes();
            let rate = h[12] as int + 256 * h[13] + 65536 * h[14] + 16777216 * h[15];
            &&& rate == 16000
            &&& rate * 20 == FRAME_SAMPLES * 1000
        }),
        opus_head_bytes()[16] as int + 256 * opus_head_bytes()[17] == 0,
        opus_head_bytes()[18] == 0,
{
    assert(opus_head_bytes().take(8) =~= seq![0x4fu8, 0x70, 0x75, 0x73, 0x48, 0x65, 0x61, 0x64]);
}

/// The Opus comment header: magic `OpusTags`, a vendor length of 8, the
/// vendor text `dictation`, and no user comments.
pub open spec fn opus_tags_bytes() -> Seq<u8> {
    seq![
        0x4f, 0x70, 0x75, 0x73, 0x54, 0x61, 0x67, 0x73,
        8, 0, 0, 0,
        0x64, 0x69, 0x63, 0x74, 0x61, 0x74, 0x69, 0x6f, 0x6e,
        0, 0, 0, 0,
    ]
}

/// The identification header packet.
pub fn opus_head_packet() -> (p: Vec<u8>)
    ensures
        p@ == opus_head_bytes(),
{
    let p = vec![0x4fu8, 0x70, 0x75, 0x73, 0x48, 0x65, 0x61, 0x64, 1, 1, 0, 0, 0x80, 0x3e, 0, 0, 0, 0, 0];
    assert(p@ =~= opus_head_bytes());
    p
}

/// The comment header packet.
pub fn opus_tags_packet() -> (p: Vec<u8>)
    ensures
        p@ == opus_tags_bytes(),
{
    let p = vec![
        0x4fu8, 0x70, 0x75, 0x73, 0x54, 0x61, 0x67, 0x73, 8, 0, 0, 0, 0x64, 0x69, 0x63, 0x74, 0x61,
        0x74, 0x69, 0x6f, 0x6e, 0, 0, 0, 0,
    ];
    assert(p@ =~= opus_tags_bytes());
    p
}

/// A packet to be put on its own Ogg page, with the granule position of its
/// last sample.
pub struct OggPacket {
    pub data: Vec<u8>,
    pub granule: u64,
}

pub open spec fn packet_views(ps: Seq<OggPacket>) -> Seq<(Seq<u8>, u64)> {
    ps.map_values(|p: OggPacket| (p.data@, p.granule))
}

/// The bytes `ogg::PacketWriter` writes for these packets of one logical
/// stream, each ending its page, written in order through one writer.
pub uninterp spec fn ogg_pages_of(packets: Seq<(Seq<u8>, u64)>, serial: u32) -> Seq<u8>;

/// `ogg::PacketWriter::write_packet` with `EndPage` for each packet in order,
/// through one writer into a byte vector. Page headers, lacing and checksums
/// are not written out: the bytes are named `ogg_pages_of`, a function of the
/// packets and the serial number. Writing into a vector does not fail, and
/// each packet ends a page, whose header alone takes 27 bytes, so some bytes
/// are written whenever there is a packet.
#[verifier::external_body]
fn ogg_pages(packets: &Vec<OggPacket>, serial: u32) -> (out: Vec<u8>)
    ensures
        out@ == ogg_pages_of(packet_views(packets@), serial),
        packets@.len() > 0 ==> out@.len() > 0,
{
    let mut out = Vec::new();
    {
        let mut w = ogg::PacketWriter::new(&mut out);
        for p in packets.iter() {
            w.write_packet(p.data.clone(), serial, ogg::PacketWriteEndInfo::EndPage, p.granule).unwrap();
        }
    }
    out
}

/// `rand::random::<u32>()`: a serial number for a new logical stream. Any
/// value can come back.
#[verifier::external_body]
fn random_serial() -> (s: u32) {
    rand::random::<u32>()
}

/// The number of bytes in all the chunks.
pub open spec fn total_len(cs: Seq<Vec<u8>>) -> nat
    decreases cs.len(),
{
    if cs.len() == 0 {
        0
    } else {
        total_len(cs.drop_last()) + cs.last()@.len()
    }
}

/// The bytes of all the chunks, in order.
pub open spec fn flat(cs: Seq<Vec<u8>>) -> Seq<u8>
    decreases cs.len(),
{
    if cs.len() == 0 {
        Seq::empty()
    } else {
        flat(cs.drop_last()) + cs.last()@
    }
}

proof fn lemma_total_len_flat(cs: Seq<Vec<u8>>)
    ensures
        total_len(cs) == flat(cs).len(),
    decreases cs.len(),
{
    if cs.len() > 0 {
        lemma_total_len_flat(cs.drop_last());
    }
}

/// How the samples are cut into chunks does not change how many items the
/// stream yields: two chunkings of the same bytes give the same count.
pub proof fn lemma_item_count_ignores_chunking(a: Seq<Vec<u8>>, b: Seq<Vec<u8>>)
    requires
        flat(a) == flat(b),
    ensures
        stream_item_count(total_len(a)) == stream_item_count(total_len(b)),
{
    lemma_total_len_flat(a);
    lemma_total_len_flat(b);
}

proof fn lemma_total_len_take(cs: Seq<Vec<u8>>, i: int)
    requires
        0 <= i < cs.len(),
    ensures
        total_len(cs.take(i + 1)) == total_len(cs.take(i)) + cs[i]@.len(),
        total_len(cs.take(i + 1)) <= total_len(cs),
{
    assert(cs.take(i + 1).drop_last() =~= cs.take(i));
    lemma_total_len_prefix(cs, i + 1);
}

proof fn lemma_total_len_prefix(cs: Seq<Vec<u8>>, i: int)
    requires
        0 <= i <= cs.len(),
    ensures
        total_len(cs.take(i)) <= total_len(cs),
    decreases cs.len() - i,
{
    if i < cs.len() {
        lemma_total_len_prefix(cs, i + 1);
        assert(cs.take(i + 1).drop_last() =~= cs.take(i));
    } else {
        assert(cs.take(i) =~= cs);
    }
}

/// How many items the stream of `total` bytes of samples yields when every
/// frame encodes: one per 20 ms frame, the last padded, and one for an empty
/// input.
pub open spec fn stream_item_count(total: nat) -> nat {
    if total == 0 {
        1
    } else {
        ((total + FRAME_BYTES - 1) / FRAME_BYTES as int) as nat
    }
}

/// How many 20 ms frames the samples fill, the last one possibly in part.
pub open spec fn frame_count(len: nat) -> nat {
    ((len + FRAME_BYTES - 1) / FRAME_BYTES as int) as nat
}

/// The samples padded with silence (zero bytes) to whole frames.
pub open spec fn padded_samples(data: Seq<u8>) -> Seq<u8> {
    data + Seq::new((frame_count(data.len()) * FRAME_BYTES - data.len()) as nat, |i: int| 0u8)
}

/// The `k`-th frame of the samples, padded with silence at the end.
pub open spec fn frame_at(data: Seq<u8>, k: int) -> Seq<u8> {
    padded_samples(data).subrange(FRAME_BYTES * k, FRAME_BYTES * (k + 1))
}

/// The codec, handed these frame bytes, can return `r`.
pub open spec fn codec_gave<F: Fn(&[u8]) -> Result<Vec<u8>, String>>(codec: F, frame: Seq<u8>, r: Result<Vec<u8>, String>) -> bool {
    exists|f: &[u8]| f@ == frame && #[trigger] call_ensures(codec, (f,), r)
}

/// The two header packets, at granule position 0.
pub open spec fn header_step() -> Seq<(Seq<u8>, u64)> {
    seq![(opus_head_bytes(), 0u64), (opus_tags_bytes(), 0u64)]
}

/// The packets of the `k`-th step when the codec gave packet `p` for the
/// `k`-th frame: the headers first in step 0, and the packet ending at
/// granule position `FRAME_SAMPLES * (k + 1)`.
pub open spec fn audio_step(k: int, p: Seq<u8>) -> Seq<(Seq<u8>, u64)> {
    if k == 0 {
        header_step().push((p, FRAME_SAMPLES as u64))
    } else {
        seq![(p, (FRAME_SAMPLES * (k + 1)) as u64)]
    }
}

/// The `k`-th item for the codec's `k`-th result: the pages of the step's
/// packets, or the codec's error as it is.
pub open spec fn step_item(item: Result<Vec<u8>, String>, r: Result<Vec<u8>, String>, k: int, serial: u32) -> bool {
    match r {
        Ok(p) => item matches Ok(b) && b@ == ogg_pages_of(audio_step(k, p@), serial) && b@.len() > 0,
        Err(e) => item == Err::<Vec<u8>, String>(e),
    }
}

/// The stream of `items` encodes the samples `data` with the codec's results
/// `results` for the frames in order: the codec was handed each frame, the
/// stream stops after the first error or after the last frame, and each item
/// is the pages of its step (the headers alone when there are no samples).
pub open spec fn encoded_as<F: Fn(&[u8]) -> Result<Vec<u8>, String>>(
    codec: F,
    data: Seq<u8>,
    serial: u32,
    results: Seq<Result<Vec<u8>, String>>,
    items: Seq<Result<Vec<u8>, String>>,
) -> bool {
    &&& results.len() <= frame_count(data.len())
    &&& forall|k: int| 0 <= k < results.len() ==> codec_gave(codec, frame_at(data, k), #[trigger] results[k])
    &&& forall|k: int| 0 <= k < results.len() - 1 ==> #[trigger] results[k] is Ok
    &&& results.len() < frame_count(data.len()) ==> results.len() > 0 && results.last() is Err
    &&& if results.len() == 0 {
        &&& data.len() == 0
        &&& items.len() == 1
        &&& items[0] matches Ok(b) && b@ == ogg_pages_of(header_step(), serial) && b@.len() > 0
    } else {
        &&& items.len() == results.len()
        &&& forall|k: int| 0 <= k < results.len() ==> step_item(#[trigger] items[k], results[k], k, serial)
    }
}

proof fn lemma_flat_take(cs: Seq<Vec<u8>>, i: int)
    requires
        0 <= i < cs.len(),
    ensures
        flat(cs.take(i + 1)) == flat(cs.take(i)) + cs[i]@,
{
    assert(cs.take(i + 1).drop_last() =~= cs.take(i));
}

proof fn lemma_flat_prefix(cs: Seq<Vec<u8>>, i: int)
    requires
        0 <= i <= cs.len(),
    ensures
        flat(cs.take(i)).is_prefix_of(flat(cs)),
    decreases cs.len() - i,
{
    if i == cs.len() {
        assert(cs.take(i) =~= cs);
    } else {
        lemma_flat_prefix(cs, i + 1);
        lemma_flat_take(cs, i);
    }
}

/// A whole frame inside the samples is the samples' bytes there.
proof fn lemma_frame_inside(data: Seq<u8>, read: Seq<u8>, n: nat)
    requires
        read.is_prefix_of(data),
        FRAME_BYTES * (n + 1) <= read.len(),
    ensures
        read.skip(FRAME_BYTES * n).take(FRAME_BYTES as int) == frame_at(data, n as int),
{
    let a = FRAME_BYTES * n;
    assert(frame_count(data.len()) * FRAME_BYTES >= data.len()) by (nonlinear_arith);
    assert forall|i: int| 0 <= i < FRAME_BYTES implies read.skip(a as int).take(FRAME_BYTES as int)[i] == frame_at(data, n as int)[i] by {
        assert(read[a + i] == data[a + i]);
    }
    assert(read.skip(a as int).take(FRAME_BYTES as int) =~= frame_at(data, n as int));
}

/// The last part of the samples, padded with silence to a whole frame, is
/// their last frame.
proof fn lemma_frame_padded(data: Seq<u8>, n: nat, r: nat)
    requires
        data.len() == FRAME_BYTES * n + r,
        0 < r < FRAME_BYTES,
    ensures
        frame_count(data.len()) == n + 1,
        data.skip(FRAME_BYTES * n) + Seq::new((FRAME_BYTES - r) as nat, |k: int| 0u8) == frame_at(data, n as int),
{
    assert((FRAME_BYTES * n + r + FRAME_BYTES - 1) / FRAME_BYTES as int == n + 1) by (nonlinear_arith)
        requires 0 < r < FRAME_BYTES;
    assert(FRAME_BYTES * (n + 1) == FRAME_BYTES * n + FRAME_BYTES) by (nonlinear_arith);
    assert((n + 1) * FRAME_BYTES == FRAME_BYTES * n + FRAME_BYTES) by (nonlinear_arith);
    let lhs = data.skip(FRAME_BYTES * n) + Seq::new((FRAME_BYTES - r) as nat, |k: int| 0u8);
    assert(lhs =~= frame_at(data, n as int));
}

/// The frame count of samples that end on a frame boundary, or in the
/// middle of the last frame.
proof fn lemma_frame_count(len: nat, n: nat, r: nat)
    requires
        (r == 0 && len == FRAME_BYTES * n) || (0 < r < FRAME_BYTES && n > 0 && len == FRAME_BYTES * (n - 1) + r),
    ensures
        frame_count(len) == n,
{
    if r == 0 {
        assert((FRAME_BYTES * n + FRAME_BYTES - 1) / FRAME_BYTES as int == n) by (nonlinear_arith);
    } else {
        assert((FRAME_BYTES * (n - 1) + r + FRAME_BYTES - 1) / FRAME_BYTES as int == n) by (nonlinear_arith)
            requires n > 0, 0 < r < FRAME_BYTES;
    }
}

proof fn lemma_frames_bound(len: nat, n: nat)
    requires
        FRAME_BYTES * n <= len + FRAME_BYTES - 1,
    ensures
        n <= frame_count(len),
{
    assert(n <= (len + FRAME_BYTES - 1) / FRAME_BYTES as int) by (nonlinear_arith)
        requires FRAME_BYTES * n <= len + FRAME_BYTES - 1;
}

/// Whether the codec returns an encoded packet for every frame.
pub open spec fn codec_never_fails<F: Fn(&[u8]) -> Result<Vec<u8>, String>>(codec: F) -> bool {
    forall|f: &[u8], r: Result<Vec<u8>, String>| #[trigger] call_ensures(codec, (f,), r) ==> r is Ok
}

proof fn lemma_item_count(total: nat, nf: nat, r: nat, hdr_only: bool)
    requires
        r < FRAME_BYTES,
        hdr_only ==> nf == 0 && total == 0,
        !hdr_only ==> (r == 0 && total == FRAME_BYTES * nf && nf > 0) || (0 < r && nf > 0 && total == FRAME_BYTES * (nf - 1) + r),
    ensures
        nf + (if hdr_only { 1int } else { 0int }) == stream_item_count(total),
{
    if !hdr_only {
        if r == 0 {
            assert((FRAME_BYTES * nf + FRAME_BYTES - 1) / FRAME_BYTES as int == nf) by (nonlinear_arith)
                requires nf > 0;
        } else {
            assert((FRAME_BYTES * (nf - 1) + r + FRAME_BYTES - 1) / FRAME_BYTES as int == nf) by (nonlinear_arith)
                requires nf > 0, 0 < r < FRAME_BYTES;
        }
    }
}

/// The state of an Ogg Opus stream being produced: the samples not yet
/// encoded (as bytes of 32-bit floats), the stream's serial number, how many
/// packets were written, the granule position, and whether it is finished.
pub struct OpusOggEncoder {
    pcm: Vec<u8>,
    serial: u32,
    packet_count: u64,
    granule: u64,
    finished: bool,
}

impl OpusOggEncoder {
    pub closed spec fn pcm_view(&self) -> Seq<u8> {
        self.pcm@
    }

    pub closed spec fn serial_view(&self) -> u32 {
        self.serial
    }

    pub closed spec fn packet_count_view(&self) -> u64 {
        self.packet_count
    }

    pub closed spec fn granule_view(&self) -> u64 {
        self.granule
    }

    pub closed spec fn finished_view(&self) -> bool {
        self.finished
    }

    /// A stream with the given serial number and nothing written yet.
    pub fn with_serial(serial: u32) -> (e: Self)
        ensures
            e.pcm_view() == Seq::<u8>::empty(),
            e.serial_view() == serial,
            e.packet_count_view() == 0,
            e.granule_view() == 0,
            !e.finished_view(),
    {
        OpusOggEncoder { pcm: Vec::new(), serial, packet_count: 0, granule: 0, finished: false }
    }

    /// A stream with a random serial number and nothing written yet.
    pub fn new() -> (e: Self)
        ensures
            e.pcm_view() == Seq::<u8>::empty(),
            e.packet_count_view() == 0,
            e.granule_view() == 0,
            !e.finished_view(),
    {
        Self::with_serial(random_serial())
    }

    /// Whether the stream is over.
    pub fn is_finished(&self) -> (r: bool)
        ensures
            r == self.finished_view(),
    {
        self.finished
    }

    /// Starts the output of one step: the two header packets when nothing was
    /// written yet (the count then stands at two), else no packet.
    pub fn start_step(&mut self) -> (pending: Vec<OggPacket>)
        ensures
            old(self).packet_count_view() == 0 ==> pending@.len() == 2 && pending@[0].data@
                == opus_head_bytes() && pending@[0].granule == 0 && pending@[1].data@
                == opus_tags_bytes() && pending@[1].granule == 0 && final(self).packet_count_view() == 2,
            old(self).packet_count_view() != 0 ==> pending@.len() == 0
                && final(self).packet_count_view() == old(self).packet_count_view(),
            final(self).pcm_view() == old(self).pcm_view(),
            final(self).serial_view() == old(self).serial_view(),
            final(self).granule_view() == old(self).granule_view(),
            final(self).finished_view() == old(self).finished_view(),
    {
        let mut pending: Vec<OggPacket> = Vec::new();
        if self.packet_count == 0 {
            pending.push(OggPacket { data: opus_head_packet(), granule: 0 });
            pending.push(OggPacket { data: opus_tags_packet(), granule: 0 });
            self.packet_count = 2;
        }
        pending
    }

    /// Buffers a chunk of samples (bytes of 32-bit floats).
    pub fn push_pcm(&mut self, chunk: &[u8])
        requires
            chunk@.len() % 4 == 0,
        ensures
            final(self).pcm_view() == old(self).pcm_view() + chunk@,
            final(self).serial_view() == old(self).serial_view(),
            final(self).packet_count_view() == old(self).packet_count_view(),
            final(self).granule_view() == old(self).granule_view(),
            final(self).finished_view() == old(self).finished_view(),
    {
        let ghost start = self.pcm@;
        let mut i: usize = 0;
        while i < chunk.len()
            invariant
                0 <= i <= chunk@.len(),
                self.pcm@ == start + chunk@.take(i as int),
                self.serial == old(self).serial,
                self.packet_count == old(self).packet_count,
                self.granule == old(self).granule,
                self.finished == old(self).finished,
            decreases chunk@.len() - i,
        {
            self.pcm.push(chunk[i]);
            i = i + 1;
            assert(self.pcm@ =~= start + chunk@.take(i as int));
        }
        assert(chunk@.take(chunk@.len() as int) =~= chunk@);
    }

    /// The next whole frame of buffered samples, taken off the buffer; none
    /// while less than a frame is buffered.
    pub fn take_frame(&mut self) -> (frame: Option<Vec<u8>>)
        ensures
            old(self).pcm_view().len() >= FRAME_BYTES ==> (frame matches Some(f) && f@
                == old(self).pcm_view().take(FRAME_BYTES as int) && final(self).pcm_view()
                == old(self).pcm_view().skip(FRAME_BYTES as int)),
            old(self).pcm_view().len() < FRAME_BYTES ==> frame is None && final(self).pcm_view()
                == old(self).pcm_view(),
            final(self).serial_view() == old(self).serial_view(),
            final(self).packet_count_view() == old(self).packet_count_view(),
            final(self).granule_view() == old(self).granule_view(),
            final(self).finished_view() == old(self).finished_view(),
    {
        if self.pcm.len() < FRAME_BYTES {
            return None;
        }
        let mut frame: Vec<u8> = Vec::new();
        let mut rest: Vec<u8> = Vec::new();
        let mut i: usize = 0;
        while i < self.pcm.len()
            invariant
                0 <= i <= self.pcm@.len(),
                FRAME_BYTES <= self.pcm@.len(),
                self.pcm@ == old(self).pcm_view(),
                i <= FRAME_BYTES ==> frame@ == self.pcm@.take(i as int) && rest@.len() == 0,
                i > FRAME_BYTES ==> frame@ == self.pcm@.take(FRAME_BYTES as int) && rest@
                    == self.pcm@.subrange(FRAME_BYTES as int, i as int),
            decreases self.pcm@.len() - i,
        {
            if i < FRAME_BYTES {
                frame.push(self.pcm[i]);
            } else {
                rest.push(self.pcm[i]);
            }
            i = i + 1;
            if i <= FRAME_BYTES {
                assert(frame@ =~= self.pcm@.take(i as int));
            } else {
                assert(rest@ =~= self.pcm@.subrange(FRAME_BYTES as int, i as int));
            }
        }
        assert(self.pcm@.skip(FRAME_BYTES as int) =~= rest@);
        self.pcm = rest;
        Some(frame)
    }

    /// Whether one more encoded frame fits the granule position and the packet
    /// count.
    pub fn can_add_frame(&self) -> (r: bool)
        ensures
            r == (self.granule_view() + FRAME_SAMPLES <= u64::MAX && self.packet_count_view() < u64::MAX),
    {
        self.granule <= u64::MAX - FRAME_SAMPLES as u64 && self.packet_count < u64::MAX
    }

    /// Records an encoded frame: it goes on its own page with the granule
    /// position advanced by one frame, and the stream is open again.
    pub fn add_encoded(&mut self, packet: Vec<u8>, pending: &mut Vec<OggPacket>)
        requires
            old(self).granule_view() + FRAME_SAMPLES <= u64::MAX,
            old(self).packet_count_view() < u64::MAX,
        ensures
            final(self).granule_view() == old(self).granule_view() + FRAME_SAMPLES,
            final(self).packet_count_view() == old(self).packet_count_view() + 1,
            !final(self).finished_view(),
            final(self).pcm_view() == old(self).pcm_view(),
            final(self).serial_view() == old(self).serial_view(),
            final(pending)@.len() == old(pending)@.len() + 1,
            final(pending)@.take(old(pending)@.len() as int) == old(pending)@,
            final(pending)@.last().data == packet,
            final(pending)@.last().granule == final(self).granule_view(),
    {
        self.granule = self.granule + FRAME_SAMPLES as u64;
        self.packet_count = self.packet_count + 1;
        self.finished = false;
        let ghost before = pending@;
        pending.push(OggPacket { data: packet, granule: self.granule });
        assert(pending@.take(before.len() as int) =~= before);
    }

    /// Records that encoding failed: the stream ends after the error.
    pub fn encoding_failed(&mut self)
        ensures
            final(self).finished_view(),
            final(self).pcm_view() == old(self).pcm_view(),
            final(self).serial_view() == old(self).serial_view(),
            final(self).packet_count_view() == old(self).packet_count_view(),
            final(self).granule_view() == old(self).granule_view(),
    {
        self.finished = true;
    }

    /// Records the end of the samples. With samples left over they are padded
    /// with silence to a whole frame and `true` says to encode it; with none
    /// left `false` says the step ends, and the stream is over.
    pub fn input_ended(&mut self) -> (encode_more: bool)
        requires
            old(self).pcm_view().len() <= FRAME_BYTES,
        ensures
            encode_more == (old(self).pcm_view().len() > 0),
            encode_more ==> final(self).pcm_view() == old(self).pcm_view() + Seq::new(
                (FRAME_BYTES - old(self).pcm_view().len()) as nat,
                |k: int| 0u8,
            ),
            !encode_more ==> final(self).pcm_view() == old(self).pcm_view(),
            final(self).finished_view(),
            final(self).serial_view() == old(self).serial_view(),
            final(self).packet_count_view() == old(self).packet_count_view(),
            final(self).granule_view() == old(self).granule_view(),
    {
        self.finished = true;
        if self.pcm.len() == 0 {
            return false;
        }
        let ghost start = self.pcm@;
        let fill = FRAME_BYTES - self.pcm.len();
        let mut k: usize = 0;
        while k < fill
            invariant
                0 <= k <= fill,
                fill == FRAME_BYTES - start.len(),
                self.pcm@ == start + Seq::new(k as nat, |j: int| 0u8),
                self.serial == old(self).serial,
                self.packet_count == old(self).packet_count,
                self.granule == old(self).granule,
                self.finished,
            decreases fill - k,
        {
            self.pcm.push(0u8);
            k = k + 1;
            assert(self.pcm@ =~= start + Seq::new(k as nat, |j: int| 0u8));
        }
        true
    }

    /// The Ogg pages of the packets of one step.
    pub fn pages(&self, pending: &Vec<OggPacket>) -> (out: Vec<u8>)
        ensures
            out@ == ogg_pages_of(packet_views(pending@), self.serial_view()),
            pending@.len() > 0 ==> out@.len() > 0,
    {
        ogg_pages(pending, self.serial)
    }

    /// Encodes the given chunks of samples (bytes of 32-bit floats) as a
    /// whole stream, one step after another, as the stream is read: each step
    /// cuts the next frame, hands it to `codec`, and yields the Ogg pages of
    /// the step's packets (the two headers first), or the codec's error, after
    /// which the stream ends. At the end of the samples the rest is padded with
    /// silence to a whole frame; with no samples at all the one step yields the
    /// headers alone.
    pub fn encode_stream<F: Fn(&[u8]) -> Result<Vec<u8>, String>>(self, chunks: &Vec<Vec<u8>>, codec: F) -> (items: Vec<Result<Vec<u8>, String>>)
        requires
            self.pcm_view().len() == 0,
            self.packet_count_view() == 0,
            self.granule_view() == 0,
            !self.finished_view(),
            forall|k: int| 0 <= k < chunks@.len() ==> #[trigger] chunks@[k]@.len() % 4 == 0,
            total_len(chunks@) <= usize::MAX,
            forall|f: &[u8]| call_requires(codec, (f,)),
        ensures
            exists|results: Seq<Result<Vec<u8>, String>>| encoded_as(codec, flat(chunks@), self.serial_view(), results, items@),
            codec_never_fails(codec) ==> items@.len() == stream_item_count(total_len(chunks@)),
            codec_never_fails(codec) ==> forall|k: int| 0 <= k < items@.len() ==> #[trigger] items@[k] is Ok,
    {
        let ghost serial = self.serial_view();
        let ghost data = flat(chunks@);
        let mut state = self;
        let mut items: Vec<Result<Vec<u8>, String>> = Vec::new();
        let mut pending: Vec<OggPacket> = Vec::new();
        let mut ci: usize = 0;
        let mut in_step = false;
        let mut input_done = false;
        let ghost total = total_len(chunks@);
        let ghost ok = codec_never_fails(codec);
        let ghost mut nt: nat = 0;
        let ghost mut nf: nat = 0;
        let ghost mut r_end: nat = 0;
        let ghost mut started = false;
        let ghost mut hdr_only = false;
        let ghost mut at_top = false;
        let ghost mut done_b = false;
        let ghost mut errored = false;
        let ghost mut results: Seq<Result<Vec<u8>, String>> = Seq::empty();
        proof {
            assert(chunks@.take(0) =~= Seq::<Vec<u8>>::empty());
            lemma_total_len_prefix(chunks@, 0);
            lemma_total_len_flat(chunks@);
            lemma_flat_prefix(chunks@, 0);
        }
        loop
            invariant_except_break
                state.finished_view() && !in_step ==> hdr_only || errored,
                !at_top,
                !done_b,
                in_step ==> !state.finished_view() || (input_done && state.pcm_view().len() == FRAME_BYTES),
            invariant
                0 <= ci <= chunks@.len(),
                total == total_len(chunks@),
                data == flat(chunks@),
                total == data.len(),
                ok == codec_never_fails(codec),
                total_len(chunks@.take(ci as int)) <= total,
                flat(chunks@.take(ci as int)).is_prefix_of(data),
                total_len(chunks@.take(ci as int)) == flat(chunks@.take(ci as int)).len(),
                forall|k: int| 0 <= k < chunks@.len() ==> #[trigger] chunks@[k]@.len() % 4 == 0,
                total <= usize::MAX,
                forall|f: &[u8]| call_requires(codec, (f,)),
                !input_done ==> total_len(chunks@.take(ci as int)) == FRAME_BYTES * nt + state.pcm_view().len(),
                !input_done ==> state.pcm_view() == flat(chunks@.take(ci as int)).skip(FRAME_BYTES * nt),
                input_done ==> ci == chunks@.len(),
                input_done ==> 0 <= r_end < FRAME_BYTES,
                input_done && state.pcm_view().len() == FRAME_BYTES ==> state.finished_view() && 0 < r_end
                    && total == FRAME_BYTES * nt + r_end && state.pcm_view() == frame_at(data, nt as int),
                input_done && state.pcm_view().len() != FRAME_BYTES ==> state.pcm_view().len() == 0 && (
                    (r_end == 0 && total == FRAME_BYTES * nt) || (0 < r_end && nt > 0 && total == FRAME_BYTES * (nt - 1) + r_end)),
                !input_done ==> r_end == 0,
                FRAME_BYTES * nt <= total + FRAME_BYTES - 1,
                nt == nf + (if errored { 1int } else { 0int }),
                state.granule_view() == FRAME_SAMPLES * nf,
                state.packet_count_view() == if started { 2 + nf } else { 0 },
                !started ==> nf == 0 && !in_step && !state.finished_view() && items@.len() == 0,
                in_step ==> pending@.len() == if nf == 0 { 2int } else { 0int },
                started && !in_step && nf == 0 ==> state.finished_view(),
                at_top ==> hdr_only || errored,
                done_b ==> nf > 0 && !errored && !hdr_only && input_done && state.pcm_view().len() == 0,
                hdr_only ==> nt == 0 && total == 0 && state.finished_view() && !in_step,
                state.serial_view() == serial,
                items@.len() == nf + (if hdr_only { 1int } else { 0int }) + (if errored { 1int } else { 0int }),
                hdr_only || errored ==> state.finished_view() && !in_step,
                !(hdr_only && errored),
                in_step ==> packet_views(pending@) == if nf == 0 {
                    header_step()
                } else {
                    Seq::<(Seq<u8>, u64)>::empty()
                },
                results.len() == nt,
                forall|k: int| 0 <= k < results.len() ==> codec_gave(codec, frame_at(data, k), #[trigger] results[k]),
                forall|k: int| 0 <= k < results.len() ==> (#[trigger] results[k] is Err ==> errored && k == nt - 1),
                errored ==> results.len() > 0 && results.last() is Err,
                !hdr_only ==> forall|k: int| 0 <= k < results.len() ==> step_item(#[trigger] items@[k], results[k], k, serial),
                hdr_only ==> (items@[0] matches Ok(b) && b@ == ogg_pages_of(header_step(), serial) && b@.len() > 0),
                ok ==> !errored,
            ensures
                at_top || done_b,
            decreases
                (if input_done { 0int } else { 1int }),
                total - total_len(chunks@.take(ci as int)) + state.pcm_view().len() + (if state.finished_view() { 0int } else { 1int }),
                chunks@.len() - ci,
                (if in_step { 0int } else { 1int }),
        {
            if !in_step {
                if state.is_finished() {
                    proof { at_top = true; }
                    break;
                }
                pending = state.start_step();
                in_step = true;
                proof { started = true; }
            }
            let ghost pcm0 = state.pcm_view();
            match state.take_frame() {
                Some(frame) => {
                    proof {
                        if !input_done {
                            lemma_frame_inside(data, flat(chunks@.take(ci as int)), nt);
                        }
                        assert(frame@ == frame_at(data, nt as int));
                        lemma_frames_bound(total, nt + 1);
                    }
                    let fs = frame.as_slice();
                    let res = codec(fs);
                    let ghost rr = res;
                    let ghost k = nt as int;
                    proof {
                        assert(fs@ == frame_at(data, k));
                        assert(codec_gave(codec, frame_at(data, k), rr));
                        let old_results = results;
                        results = results.push(rr);
                        nt = nt + 1;
                        assert forall|j: int| 0 <= j < results.len() implies codec_gave(codec, frame_at(data, j), #[trigger] results[j]) by {
                            if j < old_results.len() {
                                assert(results[j] == old_results[j]);
                            }
                        }
                    }
                    match res {
                        Ok(packet) => {
                            let ghost before = packet_views(pending@);
                            let ghost pdata = packet@;
                            state.add_encoded(packet, &mut pending);
                            proof {
                                nf = nf + 1;
                                assert(pending@.drop_last() =~= pending@.take(pending@.len() - 1));
                                assert(packet_views(pending@) =~= before + seq![(pdata, state.granule_view())]);
                                assert(packet_views(pending@) =~= audio_step(k, pdata));
                            }
                            let bytes = state.pages(&pending);
                            let ghost old_items = items@;
                            items.push(Ok(bytes));
                            proof {
                                assert(items@.len() == k + 1);
                                assert(step_item(items@[k], results[k], k, serial));
                                assert forall|j: int| 0 <= j < results.len() implies step_item(#[trigger] items@[j], results[j], j, serial) by {
                                    if j < k {
                                        assert(items@[j] == old_items[j]);
                                    }
                                }
                            }
                        },
                        Err(e) => {
                            state.encoding_failed();
                            let ghost old_items = items@;
                            let ghost eg = e;
                            items.push(Err(e));
                            proof {
                                errored = true;
                                assert(rr == Err::<Vec<u8>, String>(eg));
                                assert(items@[k] == Err::<Vec<u8>, String>(eg));
                                assert forall|j: int| 0 <= j < results.len() implies step_item(#[trigger] items@[j], results[j], j, serial) by {
                                    if j < k {
                                        assert(items@[j] == old_items[j]);
                                    }
                                }
                            }
                        },
                    }
                    in_step = false;
                },
                None => {
                    if ci < chunks.len() {
                        proof {
                            lemma_total_len_take(chunks@, ci as int);
                            lemma_flat_take(chunks@, ci as int);
                            lemma_flat_prefix(chunks@, ci as int + 1);
                            lemma_total_len_flat(chunks@.take(ci as int + 1));
                        }
                        state.push_pcm(chunks[ci].as_slice());
                        ci = ci + 1;
                        proof {
                            let rd = flat(chunks@.take(ci as int));
                            assert(state.pcm_view() =~= rd.skip(FRAME_BYTES * nt));
                        }
                    } else {
                        proof {
                            assert(chunks@.take(ci as int) =~= chunks@);
                            if !input_done {
                                r_end = state.pcm_view().len();
                                if r_end > 0 {
                                    lemma_frame_padded(data, nt, r_end);
                                }
                            }
                        }
                        let more = state.input_ended();
                        input_done = true;
                        if !more {
                            if pending.len() == 0 {
                                in_step = false;
                                proof { done_b = true; }
                                break;
                            }
                            let bytes = state.pages(&pending);
                            proof {
                                assert(nf == 0);
                                assert(packet_views(pending@) == header_step());
                                assert(items@.len() == 0);
                            }
                            items.push(Ok(bytes));
                            in_step = false;
                            proof {
                                hdr_only = true;
                                assert(items@[0] == Ok::<Vec<u8>, String>(bytes));
                            }
                        }
                    }
                },
            }
        }
        proof {
            if done_b {
                lemma_frame_count(total, nt, r_end);
            }
            lemma_frames_bound(total, nt);
            assert(encoded_as(codec, data, serial, results, items@));
            if ok {
                lemma_item_count(total, nf, r_end, hdr_only);
            }
        }
        items
    }
}

} // verus!
