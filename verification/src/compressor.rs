use vstd::prelude::*;

use std::io::Read;
use std::io::Write;

use crate::columns::BlockInfo;
use crate::meta::Codecs;

verus! {

/// The gzip stream an outside encoder produces for a byte string.
pub uninterp spec fn gzip_of(s: Seq<u8>) -> Seq<u8>;

/// The plain bytes a gzip stream decodes to, if it is a valid stream.
pub uninterp spec fn gzip_plain_of(s: Seq<u8>) -> Option<Seq<u8>>;

/// The LZ4 block (with prepended size) an outside encoder produces.
pub uninterp spec fn lz4_of(s: Seq<u8>) -> Seq<u8>;

/// The plain bytes an LZ4 block decodes to, if it is a valid block.
pub uninterp spec fn lz4_plain_of(s: Seq<u8>) -> Option<Seq<u8>>;

/// Relies on flate2::write::GzEncoder with the default level and header:
/// the stream is a function of the input bytes alone (the header carries no
/// time stamp), and decoding it yields the input back (gzip is lossless).
/// Writing into a Vec sink cannot fail.
#[verifier::external_body]
fn gzip_encode(data: &[u8]) -> (r: Vec<u8>)
    ensures
        r@ == gzip_of(data@),
        gzip_plain_of(r@) == Some(data@),
{
    let mut enc = flate2::write::GzEncoder::new(Vec::new(), flate2::Compression::default());
    match enc.write_all(data) {
        Ok(()) => {},
        Err(_) => return Vec::new(),
    }
    match enc.finish() {
        Ok(v) => v,
        Err(_) => Vec::new(),
    }
}

/// Relies on flate2::read::GzDecoder: decoding a valid gzip stream yields
/// its plain bytes; a malformed stream reports an error.
#[verifier::external_body]
fn gzip_decode(data: &[u8]) -> (r: Option<Vec<u8>>)
    ensures
        match gzip_plain_of(data@) {
            Some(v) => match r {
                Some(rv) => rv@ == v,
                None => false,
            },
            None => true,
        },
{
    let mut out: Vec<u8> = Vec::new();
    let mut dec = flate2::read::GzDecoder::new(data);
    match dec.read_to_end(&mut out) {
        Ok(_) => Some(out),
        Err(_) => None,
    }
}

/// Relies on lz4_flex::compress_prepend_size: the block is a function of the
/// input bytes alone, and decompress_size_prepended inverts it. The prepended
/// uncompressed size is stored as a u32, so the round trip is promised only
/// for inputs below 2^32 bytes.
#[verifier::external_body]
fn lz4_encode(data: &[u8]) -> (r: Vec<u8>)
    ensures
        r@ == lz4_of(data@),
        data@.len() < 0x1_0000_0000 ==> lz4_plain_of(r@) == Some(data@),
{
    lz4_flex::compress_prepend_size(data)
}

/// Relies on lz4_flex::decompress_size_prepended: decoding a valid block
/// yields its plain bytes; a malformed block reports an error.
#[verifier::external_body]
fn lz4_decode(data: &[u8]) -> (r: Option<Vec<u8>>)
    ensures
        match lz4_plain_of(data@) {
            Some(v) => match r {
                Some(rv) => rv@ == v,
                None => false,
            },
            None => true,
        },
{
    match lz4_flex::decompress_size_prepended(data) {
        Ok(v) => Some(v),
        Err(_) => None,
    }
}

/// The stored form of a block under a codec.
pub open spec fn codec_encode(c: Codecs, d: Seq<u8>) -> Seq<u8> {
    match c {
        Codecs::Gzip => gzip_of(d),
        Codecs::Lz4 => lz4_of(d),
        Codecs::NoCompression => d,
    }
}

/// The plain bytes a stored block decodes to under a codec.
pub open spec fn codec_decode(c: Codecs, s: Seq<u8>) -> Option<Seq<u8>> {
    match c {
        Codecs::Gzip => gzip_plain_of(s),
        Codecs::Lz4 => lz4_plain_of(s),
        Codecs::NoCompression => Some(s),
    }
}

/// Compress one block; the result decodes back to the input (for LZ4 only
/// below 2^32 bytes, the reach of its prepended size field).
pub fn compress_bytes(codec: Codecs, data: &[u8]) -> (r: Vec<u8>)
    ensures
        r@ == codec_encode(codec, data@),
        (codec is Lz4 ==> data@.len() < 0x1_0000_0000) ==> codec_decode(codec, r@) == Some(
            data@,
        ),
{
    match codec {
        Codecs::Gzip => gzip_encode(data),
        Codecs::Lz4 => lz4_encode(data),
        Codecs::NoCompression => vstd::slice::slice_to_vec(data),
    }
}

/// Decompress one stored block: yields the plain bytes of every block that
/// is valid under the codec.
pub fn decompress_bytes(codec: Codecs, data: &[u8]) -> (r: Option<Vec<u8>>)
    ensures
        codec_decode(codec, data@) matches Some(v) ==> (r matches Some(rv) && rv@ == v),
{
    match codec {
        Codecs::Gzip => gzip_decode(data),
        Codecs::Lz4 => lz4_decode(data),
        Codecs::NoCompression => Some(vstd::slice::slice_to_vec(data)),
    }
}

/// The re-sequencing key of a compressed block: the per-field block number,
/// or the sentinel used to hand recycled buffers out before any real work
/// has flowed through the pipeline.
#[derive(Clone, Copy, PartialEq, Eq, Structural, Debug)]
pub enum OrderingKey {
    Key(u32),
    Empty,
}

/// One completed compression job: the key, the compressed bytes, and the
/// block snapshot taken at submission. `raw` remembers the uncompressed
/// payload.
pub struct CompressTask {
    pub ordering_key: OrderingKey,
    pub buf: Vec<u8>,
    pub block_info: BlockInfo,
    pub raw: Ghost<Seq<u8>>,
}

/// The compression stage: jobs go in tagged with a key, completed tasks come
/// out in submission order, so ordering within each field is preserved. The
/// queue is pre-seeded with sentinel tasks whose buffers are recycled into
/// the columns, which keeps one buffer in flight per seeded slot.
pub struct Compressor {
    pub queue: Vec<CompressTask>,
}

impl Compressor {
    pub open spec fn tasks(self) -> Seq<CompressTask> {
        self.queue@
    }

    pub fn new(thread_num: usize) -> (r: Self)
        requires
            1 <= thread_num,
        ensures
            r.tasks().len() == thread_num,
            forall|i: int|
                0 <= i < thread_num ==> (#[trigger] r.tasks()[i].ordering_key) is Empty
                    && r.tasks()[i].buf@.len() == 0,
    {
        let mut queue: Vec<CompressTask> = Vec::new();
        let mut i: usize = 0;
        while i < thread_num
            invariant
                i == queue@.len() <= thread_num,
                forall|j: int|
                    0 <= j < i ==> (#[trigger] queue@[j].ordering_key) is Empty
                        && queue@[j].buf@.len() == 0,
            decreases thread_num - i,
        {
            queue.push(
                CompressTask {
                    ordering_key: OrderingKey::Empty,
                    buf: Vec::new(),
                    block_info: BlockInfo::default(),
                    raw: Ghost(Seq::empty()),
                },
            );
            i += 1;
        }
        Compressor { queue }
    }

    /// Submit one block for compression. The compressed task joins the queue
    /// at the back, so per-field keys leave in submission order. Returns
    /// false, leaving the pipeline untouched, exactly when the compressed
    /// form would not fit the catalog's 32-bit size field.
    pub fn compress_block(
        &mut self,
        ordering_key: OrderingKey,
        block_info: BlockInfo,
        data: Vec<u8>,
        codec: Codecs,
    ) -> (r: bool)
        requires
            data@.len() <= u32::MAX,
        ensures
            r == (codec_encode(codec, data@).len() <= u32::MAX),
            !r ==> *final(self) == *old(self),
            r ==> final(self).tasks().len() == old(self).tasks().len() + 1,
            r ==> final(self).tasks().drop_last() == old(self).tasks(),
            r ==> ({
                let t = final(self).tasks().last();
                &&& t.ordering_key == ordering_key
                &&& t.block_info == block_info
                &&& t.raw@ == data@
                &&& t.buf@ == codec_encode(codec, data@)
                &&& t.buf@.len() <= u32::MAX
                &&& codec_decode(codec, t.buf@) == Some(data@)
            }),
    {
        let buf = compress_bytes(codec, data.as_slice());
        if buf.len() > 0xFFFF_FFFFusize {
            return false;
        }
        let ghost raw = data@;
        self.queue.push(CompressTask { ordering_key, buf, block_info, raw: Ghost(raw) });
        proof {
            assert(self.queue@.drop_last() =~= old(self).queue@);
        }
        true
    }

    /// Take the oldest completed task out of the pipeline.
    pub fn get_compr_block(&mut self) -> (r: CompressTask)
        requires
            old(self).tasks().len() > 0,
        ensures
            r == old(self).tasks()[0],
            final(self).tasks() == old(self).tasks().drop_first(),
    {
        let r = self.queue.remove(0);
        proof {
            assert(self.queue@ =~= old(self).queue@.drop_first());
        }
        r
    }

    /// Drain every remaining task, oldest first.
    pub fn finish(&mut self) -> (r: Vec<CompressTask>)
        ensures
            r@ == old(self).tasks(),
            final(self).tasks().len() == 0,
    {
        let mut drained: Vec<CompressTask> = Vec::new();
        core::mem::swap(&mut drained, &mut self.queue);
        drained
    }
}

} // verus!
