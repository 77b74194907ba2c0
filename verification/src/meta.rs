use vstd::prelude::*;

use crate::fields::{spec_field_index, field_index, Fields, FIELDS_NUM};
use crate::le_bytes::{le4, le8, read_u32_le, read_u64_le, u32_of_le, u64_of_le};
use crate::FILE_INFO_SIZE;

verus! {

/// The compression codecs a block can be stored under.
#[derive(Clone, Copy, PartialEq, Eq, Structural, Debug)]
pub enum Codecs {
    Gzip,
    Lz4,
    NoCompression,
}

/// One catalog entry: where a compressed block sits in the file, how many
/// records it holds, its compressed size, and optional per-block statistics.
#[derive(Clone)]
pub struct BlockMeta {
    pub seekpos: u64,
    pub numitems: u32,
    pub block_size: u32,
    pub min_value: Option<Vec<u8>>,
    pub max_value: Option<Vec<u8>>,
    /// The per-record byte slices the block holds, oldest first.
    pub recs: Ghost<Seq<Seq<u8>>>,
}

/// The default catalog entry used to pad a block list while earlier keys of
/// the same field are still in flight.
pub open spec fn block_meta_default() -> BlockMeta {
    BlockMeta {
        seekpos: 0,
        numitems: 0,
        block_size: 0,
        min_value: None,
        max_value: None,
        recs: Ghost(Seq::empty()),
    }
}

impl Default for BlockMeta {
    fn default() -> (r: Self)
        ensures
            r == block_meta_default(),
    {
        BlockMeta {
            seekpos: 0,
            numitems: 0,
            block_size: 0,
            min_value: None,
            max_value: None,
            recs: Ghost(Seq::empty()),
        }
    }
}

/// One reference sequence of the SAM header: a name and a length. The name
/// is serialized into the catalog with JSON escaping, so any byte string is
/// accepted.
pub struct RefSeq {
    pub name: Vec<u8>,
    pub length: i32,
}

/// The catalog: the honored codec, the ordered block list of every field, and
/// the reference sequences, serialized as the trailing JSON of the file.
pub struct FileMeta {
    pub codec: Codecs,
    pub field_blocks: Vec<Vec<BlockMeta>>,
    pub ref_seqs: Vec<RefSeq>,
}

impl FileMeta {
    /// One block list per field.
    pub open spec fn wf(self) -> bool {
        self.field_blocks@.len() == FIELDS_NUM
    }

    pub open spec fn spec_blocks_of(self, f: Fields) -> Seq<BlockMeta> {
        self.field_blocks@[spec_field_index(f)]@
    }

    pub fn new(codec: Codecs, ref_seqs: Vec<RefSeq>) -> (r: Self)
        ensures
            r.wf(),
            r.codec == codec,
            r.ref_seqs == ref_seqs,
            forall|f: Fields| #[trigger] r.spec_blocks_of(f) =~= Seq::<BlockMeta>::empty(),
    {
        let mut field_blocks: Vec<Vec<BlockMeta>> = Vec::new();
        let mut i: usize = 0;
        while i < FIELDS_NUM
            invariant
                i == field_blocks@.len(),
                i <= FIELDS_NUM,
                forall|j: int| 0 <= j < i ==> #[trigger] field_blocks@[j]@.len() == 0,
            decreases FIELDS_NUM - i,
        {
            field_blocks.push(Vec::new());
            i += 1;
        }
        FileMeta { codec, field_blocks, ref_seqs }
    }

    /// The codec every block of the field is stored under; one codec is
    /// honored for the whole file.
    pub fn get_field_codec(&self, _field: &Fields) -> (r: Codecs)
        ensures
            r == self.codec,
    {
        self.codec
    }

    pub fn get_blocks(&self, field: &Fields) -> (r: &Vec<BlockMeta>)
        requires
            self.wf(),
        ensures
            r@ == self.spec_blocks_of(*field),
    {
        let fi = field_index(field);
        &self.field_blocks[fi]
    }

    /// The block list of `field` after padding it with defaults up to `key`
    /// and storing `m` at position `key`.
    pub open spec fn spec_placed(self, f: Fields, key: int, m: BlockMeta) -> Seq<BlockMeta> {
        let bl = self.spec_blocks_of(f);
        let padded = if bl.len() >= key + 1 {
            bl
        } else {
            bl + Seq::new((key + 1 - bl.len()) as nat, |_i: int| block_meta_default())
        };
        padded.update(key, m)
    }

    /// Store `m` as block `key` of `field`, padding the list with default
    /// entries if earlier keys of this field are still in flight.
    pub fn place_block(&mut self, field: &Fields, key: u32, m: BlockMeta)
        requires
            old(self).wf(),
            key < u32::MAX,
        ensures
            final(self).wf(),
            final(self).codec == old(self).codec,
            final(self).ref_seqs == old(self).ref_seqs,
            final(self).spec_blocks_of(*field) == old(self).spec_placed(*field, key as int, m),
            forall|g: Fields|
                spec_field_index(g) != spec_field_index(*field)
                    ==> #[trigger] final(self).spec_blocks_of(g) == old(self).spec_blocks_of(g),
    {
        let fi = field_index(field);
        let ghost orig = self.field_blocks@[fi as int]@;
        let blocks = &mut self.field_blocks[fi];
        while blocks.len() < key as usize + 1
            invariant
                key < u32::MAX,
                blocks@.len() >= orig.len(),
                blocks@.len() <= orig.len() || blocks@.len() <= key + 1,
                blocks@ == if blocks@.len() <= orig.len() {
                    orig
                } else {
                    orig + Seq::new((blocks@.len() - orig.len()) as nat, |_i: int| block_meta_default())
                },
            decreases key + 1 - blocks@.len(),
        {
            blocks.push(BlockMeta::default());
            assert(blocks@ =~= orig + Seq::new(
                (blocks@.len() - orig.len()) as nat,
                |_i: int| block_meta_default(),
            ));
        }
        blocks[key as usize] = m;
        assert(self.field_blocks@[fi as int]@ =~= old(self).spec_placed(*field, key as int, m));
    }
}

/// The fixed header: 8 magic bytes, a 2-byte version, the catalog offset and
/// the CRC-32 of the catalog bytes.
pub struct FileInfo {
    pub version: [u8; 2],
    pub seekpos: u64,
    pub crc32: u32,
}

/// The magic bytes "geeBAM10".
pub open spec fn magic_seq() -> Seq<u8> {
    seq![103u8, 101u8, 101u8, 66u8, 65u8, 77u8, 49u8, 48u8]
}

/// The byte image of the fixed header.
pub open spec fn file_info_seq(version: Seq<u8>, seekpos: int, crc32: int) -> Seq<u8> {
    magic_seq() + version + le8(seekpos) + le4(crc32)
}

impl FileInfo {
    pub fn new(version: [u8; 2], seekpos: u64, crc32: u32) -> (r: Self)
        ensures
            r.version@ == version@ && r.seekpos == seekpos && r.crc32 == crc32,
    {
        FileInfo { version, seekpos, crc32 }
    }

    pub fn to_bytes(&self) -> (r: Vec<u8>)
        ensures
            r@ == file_info_seq(self.version@, self.seekpos as int, self.crc32 as int),
            r@.len() == FILE_INFO_SIZE,
    {
        let mut out: Vec<u8> = Vec::new();
        let magic: [u8; 8] = [103, 101, 101, 66, 65, 77, 49, 48];
        out.extend_from_slice(magic.as_slice());
        assert(out@ =~= magic_seq());
        out.push(self.version[0]);
        out.push(self.version[1]);
        assert(out@ =~= magic_seq() + self.version@);
        crate::le_bytes::push_u64_le(&mut out, self.seekpos);
        crate::le_bytes::push_u32_le(&mut out, self.crc32);
        assert(out@ =~= file_info_seq(self.version@, self.seekpos as int, self.crc32 as int));
        out
    }

    /// Parse the fixed header from the start of a file image. Returns the
    /// header exactly when the image is long enough and carries the magic.
    pub fn parse(b: &[u8]) -> (r: Option<FileInfo>)
        ensures
            match r {
                Some(fi) => {
                    &&& b@.len() >= FILE_INFO_SIZE
                    &&& b@.subrange(0, 8) == magic_seq()
                    &&& fi.version@ =~= b@.subrange(8, 10)
                    &&& fi.seekpos as int == u64_of_le(b@.subrange(10, 18))
                    &&& fi.crc32 as int == u32_of_le(b@.subrange(18, 22))
                },
                None => b@.len() < FILE_INFO_SIZE || b@.subrange(0, 8) != magic_seq(),
            },
    {
        let n: usize = b.len();
        if n < FILE_INFO_SIZE {
            return None;
        }
        let magic: [u8; 8] = [103, 101, 101, 66, 65, 77, 49, 48];
        let mut i: usize = 0;
        while i < 8
            invariant
                i <= 8,
                n == b@.len() >= FILE_INFO_SIZE,
                magic@ =~= magic_seq(),
                forall|j: int| 0 <= j < i ==> b@[j] == magic_seq()[j],
            decreases 8 - i,
        {
            if b[i] != magic[i] {
                assert(b@.subrange(0, 8)[i as int] != magic_seq()[i as int]);
                return None;
            }
            i += 1;
        }
        assert(b@.subrange(0, 8) =~= magic_seq());
        let version: [u8; 2] = [b[8], b[9]];
        let seekpos = read_u64_le(b, 10);
        let crc32 = read_u32_le(b, 18);
        assert(version@ =~= b@.subrange(8, 10));
        Some(FileInfo { version, seekpos, crc32 })
    }
}

/// The CRC-32 checksum of a byte string; computed by an outside routine and
/// a function of the bytes alone.
pub uninterp spec fn crc32_of(bytes: Seq<u8>) -> u32;

/// Relies on crc32fast::hash: the CRC-32 (IEEE) checksum of the input, a
/// function of the input bytes alone.
#[verifier::external_body]
pub fn calc_crc_for_meta_bytes(bytes: &[u8]) -> (r: u32)
    ensures
        r == crc32_of(bytes@),
{
    crc32fast::hash(bytes)
}

} // verus!
