use vstd::prelude::*;

use crate::fields::{
    spec_fixed_width, spec_is_data_field, spec_is_variable, Fields,
};
use crate::le_bytes::u32_of_le;
use crate::le_bytes::{read_u16_le, read_u32_le};

verus! {

// A raw alignment record is one byte blob. Its fixed 32-byte prefix holds, in
// order: reference id (4), position (4), read-name length (1), mapping quality
// (1), bin (2), cigar operation count (2), flags (2), sequence length (4),
// next reference id (4), next position (4), template length (4). The variable
// regions follow: read name, cigar (4 bytes per operation), packed sequence
// (two bases per byte), quality (one byte per base), then the tags to the end.

pub open spec fn spec_l_read_name(rec: Seq<u8>) -> int {
    rec[8] as int
}

pub open spec fn spec_n_cigar(rec: Seq<u8>) -> int {
    rec[12] + 256 * rec[13]
}

pub open spec fn spec_l_seq(rec: Seq<u8>) -> int {
    u32_of_le(rec.subrange(16, 20))
}

/// Bytes of the packed sequence region: two bases to a byte, rounded up.
pub open spec fn spec_seq_bytes(rec: Seq<u8>) -> int {
    (spec_l_seq(rec) + 1) / 2
}

pub open spec fn spec_cigar_start(rec: Seq<u8>) -> int {
    32 + spec_l_read_name(rec)
}

pub open spec fn spec_seq_start(rec: Seq<u8>) -> int {
    spec_cigar_start(rec) + 4 * spec_n_cigar(rec)
}

pub open spec fn spec_qual_start(rec: Seq<u8>) -> int {
    spec_seq_start(rec) + spec_seq_bytes(rec)
}

pub open spec fn spec_tags_start(rec: Seq<u8>) -> int {
    spec_qual_start(rec) + spec_l_seq(rec)
}

/// A well-formed raw record: the fixed prefix is present and every region
/// that the prefix announces lies inside the blob.
pub open spec fn rec_ok(rec: Seq<u8>) -> bool {
    &&& rec.len() >= 32
    &&& spec_tags_start(rec) <= rec.len()
}

pub open spec fn field_lo(rec: Seq<u8>, f: Fields) -> int {
    match f {
        Fields::RefID => 0,
        Fields::Pos => 4,
        Fields::Mapq => 9,
        Fields::Bin => 10,
        Fields::Flags => 14,
        Fields::NextRefID => 20,
        Fields::NextPos => 24,
        Fields::TemplateLength => 28,
        Fields::ReadName => 32,
        Fields::RawCigar => spec_cigar_start(rec),
        Fields::RawSequence => spec_seq_start(rec),
        Fields::RawQual => spec_qual_start(rec),
        Fields::RawTags => spec_tags_start(rec),
        _ => 0,
    }
}

pub open spec fn field_hi(rec: Seq<u8>, f: Fields) -> int {
    match f {
        Fields::RawTags => rec.len() as int,
        Fields::ReadName => spec_cigar_start(rec),
        Fields::RawCigar => spec_seq_start(rec),
        Fields::RawSequence => spec_qual_start(rec),
        Fields::RawQual => spec_tags_start(rec),
        _ => field_lo(rec, f) + spec_fixed_width(f),
    }
}

/// The byte slice a record contributes to the column of field `f`.
pub open spec fn field_slice(rec: Seq<u8>, f: Fields) -> Seq<u8> {
    rec.subrange(field_lo(rec, f), field_hi(rec, f))
}

/// A zero blob of the fixed prefix size is a well-formed record whose
/// variable fields are all empty.
pub proof fn lemma_zero_record_ok(rec: Seq<u8>)
    requires
        rec.len() == 32,
        forall|i: int| 0 <= i < 32 ==> rec[i] == 0u8,
    ensures
        rec_ok(rec),
{
    assert(u32_of_le(rec.subrange(16, 20)) == 0);
}

/// Check well-formedness of a raw record blob.
pub fn check_rec(rec: &[u8]) -> (r: bool)
    ensures
        r == rec_ok(rec@),
{
    let n: usize = rec.len();
    if n < 32 {
        return false;
    }
    let ln = rec[8] as usize;
    let nc = read_u16_le(rec, 12) as usize;
    let ls_u32 = read_u32_le(rec, 16);
    let ls = ls_u32 as usize;
    let sb = ls / 2 + ls % 2;
    assert(sb == spec_seq_bytes(rec@));
    // Each region size is below 2^32 and there are five of them, so the sum
    // fits in u64 arithmetic.
    let total: u64 = 32u64 + ln as u64 + 4 * (nc as u64) + sb as u64 + ls as u64;
    assert(total as int == spec_tags_start(rec@));
    total <= n as u64
}

/// Extract the bytes a record contributes to the column of a data field.
pub fn get_bytes(rec: &[u8], f: &Fields) -> (r: Vec<u8>)
    requires
        rec_ok(rec@),
        spec_is_data_field(*f),
    ensures
        r@ == field_slice(rec@, *f),
        !spec_is_variable(*f) ==> r@.len() == spec_fixed_width(*f),
{
    let n: usize = rec.len();
    let ln = rec[8] as usize;
    let nc = read_u16_le(rec, 12) as usize;
    let ls = read_u32_le(rec, 16) as usize;
    let sb = ls / 2 + ls % 2;
    assert(sb == spec_seq_bytes(rec@));
    let cigar_start = 32 + ln;
    assert(cigar_start <= n);
    let seq_start = cigar_start + 4 * nc;
    assert(seq_start <= n);
    let qual_start = seq_start + sb;
    assert(qual_start <= n);
    let tags_start = qual_start + ls;
    assert(tags_start <= n);
    let (lo, hi): (usize, usize) = match f {
        Fields::RefID => (0, 4),
        Fields::Pos => (4, 8),
        Fields::Mapq => (9, 10),
        Fields::Bin => (10, 12),
        Fields::Flags => (14, 16),
        Fields::NextRefID => (20, 24),
        Fields::NextPos => (24, 28),
        Fields::TemplateLength => (28, 32),
        Fields::ReadName => (32, cigar_start),
        Fields::RawCigar => (cigar_start, seq_start),
        Fields::RawSequence => (seq_start, qual_start),
        Fields::RawQual => (qual_start, tags_start),
        Fields::RawTags => (tags_start, n),
        _ => (0, 0),
    };
    assert(lo as int == field_lo(rec@, *f) && hi as int == field_hi(rec@, *f));
    let s = vstd::slice::slice_subrange(rec, lo, hi);
    vstd::slice::slice_to_vec(s)
}

} // verus!
