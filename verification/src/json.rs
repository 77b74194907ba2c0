use vstd::prelude::*;

use crate::columns::opt_bytes_view;
use crate::fields::{all_fields_seq, all_fields, field_name_seq, push_field_name, Fields, FIELDS_NUM};
use crate::meta::{BlockMeta, Codecs, FileMeta, RefSeq};

verus! {

// The catalog is serialized as one JSON object with three keys:
// "field_to_codec" maps every field name to the codec name, "field_to_blocks"
// maps every field name to its ordered block list, and "sam_header" carries
// the reference sequences. Numbers are decimal, statistics byte strings are
// arrays of numbers or null, and no whitespace is emitted.

pub open spec fn tok_obj_open_codec() -> Seq<u8> {
    seq![123u8, 34u8, 102u8, 105u8, 101u8, 108u8, 100u8, 95u8, 116u8, 111u8, 95u8, 99u8, 111u8, 100u8, 101u8, 99u8, 34u8, 58u8, 123u8]
}

pub fn push_obj_open_codec(out: &mut Vec<u8>)
    ensures
        final(out)@ == old(out)@ + tok_obj_open_codec(),
{
    let a: [u8; 19] = [123, 34, 102, 105, 101, 108, 100, 95, 116, 111, 95, 99, 111, 100, 101, 99, 34, 58, 123];
    out.extend_from_slice(a.as_slice());
    assert(a@ =~= tok_obj_open_codec());
}

pub open spec fn tok_obj_blocks() -> Seq<u8> {
    seq![125u8, 44u8, 34u8, 102u8, 105u8, 101u8, 108u8, 100u8, 95u8, 116u8, 111u8, 95u8, 98u8, 108u8, 111u8, 99u8, 107u8, 115u8, 34u8, 58u8, 123u8]
}

pub fn push_obj_blocks(out: &mut Vec<u8>)
    ensures
        final(out)@ == old(out)@ + tok_obj_blocks(),
{
    let a: [u8; 21] = [125, 44, 34, 102, 105, 101, 108, 100, 95, 116, 111, 95, 98, 108, 111, 99, 107, 115, 34, 58, 123];
    out.extend_from_slice(a.as_slice());
    assert(a@ =~= tok_obj_blocks());
}

pub open spec fn tok_obj_sam() -> Seq<u8> {
    seq![125u8, 44u8, 34u8, 115u8, 97u8, 109u8, 95u8, 104u8, 101u8, 97u8, 100u8, 101u8, 114u8, 34u8, 58u8, 123u8, 34u8, 114u8, 101u8, 102u8, 101u8, 114u8, 101u8, 110u8, 99u8, 101u8, 95u8, 115u8, 101u8, 113u8, 117u8, 101u8, 110u8, 99u8, 101u8, 115u8, 34u8, 58u8, 91u8]
}

pub fn push_obj_sam(out: &mut Vec<u8>)
    ensures
        final(out)@ == old(out)@ + tok_obj_sam(),
{
    let a: [u8; 39] = [125, 44, 34, 115, 97, 109, 95, 104, 101, 97, 100, 101, 114, 34, 58, 123, 34, 114, 101, 102, 101, 114, 101, 110, 99, 101, 95, 115, 101, 113, 117, 101, 110, 99, 101, 115, 34, 58, 91];
    out.extend_from_slice(a.as_slice());
    assert(a@ =~= tok_obj_sam());
}

pub open spec fn tok_obj_end() -> Seq<u8> {
    seq![93u8, 125u8, 125u8]
}

pub fn push_obj_end(out: &mut Vec<u8>)
    ensures
        final(out)@ == old(out)@ + tok_obj_end(),
{
    let a: [u8; 3] = [93, 125, 125];
    out.extend_from_slice(a.as_slice());
    assert(a@ =~= tok_obj_end());
}

pub open spec fn tok_quote() -> Seq<u8> {
    seq![34u8]
}

pub fn push_quote(out: &mut Vec<u8>)
    ensures
        final(out)@ == old(out)@ + tok_quote(),
{
    let a: [u8; 1] = [34];
    out.extend_from_slice(a.as_slice());
    assert(a@ =~= tok_quote());
}

pub open spec fn tok_qcolq() -> Seq<u8> {
    seq![34u8, 58u8, 34u8]
}

pub fn push_qcolq(out: &mut Vec<u8>)
    ensures
        final(out)@ == old(out)@ + tok_qcolq(),
{
    let a: [u8; 3] = [34, 58, 34];
    out.extend_from_slice(a.as_slice());
    assert(a@ =~= tok_qcolq());
}

pub open spec fn tok_qcol() -> Seq<u8> {
    seq![34u8, 58u8]
}

pub fn push_qcol(out: &mut Vec<u8>)
    ensures
        final(out)@ == old(out)@ + tok_qcol(),
{
    let a: [u8; 2] = [34, 58];
    out.extend_from_slice(a.as_slice());
    assert(a@ =~= tok_qcol());
}

pub open spec fn tok_comma() -> Seq<u8> {
    seq![44u8]
}

pub fn push_comma(out: &mut Vec<u8>)
    ensures
        final(out)@ == old(out)@ + tok_comma(),
{
    let a: [u8; 1] = [44];
    out.extend_from_slice(a.as_slice());
    assert(a@ =~= tok_comma());
}

pub open spec fn tok_lbracket() -> Seq<u8> {
    seq![91u8]
}

pub fn push_lbracket(out: &mut Vec<u8>)
    ensures
        final(out)@ == old(out)@ + tok_lbracket(),
{
    let a: [u8; 1] = [91];
    out.extend_from_slice(a.as_slice());
    assert(a@ =~= tok_lbracket());
}

pub open spec fn tok_rbracket() -> Seq<u8> {
    seq![93u8]
}

pub fn push_rbracket(out: &mut Vec<u8>)
    ensures
        final(out)@ == old(out)@ + tok_rbracket(),
{
    let a: [u8; 1] = [93];
    out.extend_from_slice(a.as_slice());
    assert(a@ =~= tok_rbracket());
}

pub open spec fn tok_bm_seek() -> Seq<u8> {
    seq![123u8, 34u8, 115u8, 101u8, 101u8, 107u8, 112u8, 111u8, 115u8, 34u8, 58u8]
}

pub fn push_bm_seek(out: &mut Vec<u8>)
    ensures
        final(out)@ == old(out)@ + tok_bm_seek(),
{
    let a: [u8; 11] = [123, 34, 115, 101, 101, 107, 112, 111, 115, 34, 58];
    out.extend_from_slice(a.as_slice());
    assert(a@ =~= tok_bm_seek());
}

pub open spec fn tok_bm_num() -> Seq<u8> {
    seq![44u8, 34u8, 110u8, 117u8, 109u8, 105u8, 116u8, 101u8, 109u8, 115u8, 34u8, 58u8]
}

pub fn push_bm_num(out: &mut Vec<u8>)
    ensures
        final(out)@ == old(out)@ + tok_bm_num(),
{
    let a: [u8; 12] = [44, 34, 110, 117, 109, 105, 116, 101, 109, 115, 34, 58];
    out.extend_from_slice(a.as_slice());
    assert(a@ =~= tok_bm_num());
}

pub open spec fn tok_bm_bs() -> Seq<u8> {
    seq![44u8, 34u8, 98u8, 108u8, 111u8, 99u8, 107u8, 95u8, 115u8, 105u8, 122u8, 101u8, 34u8, 58u8]
}

pub fn push_bm_bs(out: &mut Vec<u8>)
    ensures
        final(out)@ == old(out)@ + tok_bm_bs(),
{
    let a: [u8; 14] = [44, 34, 98, 108, 111, 99, 107, 95, 115, 105, 122, 101, 34, 58];
    out.extend_from_slice(a.as_slice());
    assert(a@ =~= tok_bm_bs());
}

pub open spec fn tok_bm_min() -> Seq<u8> {
    seq![44u8, 34u8, 109u8, 105u8, 110u8, 95u8, 118u8, 97u8, 108u8, 117u8, 101u8, 34u8, 58u8]
}

pub fn push_bm_min(out: &mut Vec<u8>)
    ensures
        final(out)@ == old(out)@ + tok_bm_min(),
{
    let a: [u8; 13] = [44, 34, 109, 105, 110, 95, 118, 97, 108, 117, 101, 34, 58];
    out.extend_from_slice(a.as_slice());
    assert(a@ =~= tok_bm_min());
}

pub open spec fn tok_bm_max() -> Seq<u8> {
    seq![44u8, 34u8, 109u8, 97u8, 120u8, 95u8, 118u8, 97u8, 108u8, 117u8, 101u8, 34u8, 58u8]
}

pub fn push_bm_max(out: &mut Vec<u8>)
    ensures
        final(out)@ == old(out)@ + tok_bm_max(),
{
    let a: [u8; 13] = [44, 34, 109, 97, 120, 95, 118, 97, 108, 117, 101, 34, 58];
    out.extend_from_slice(a.as_slice());
    assert(a@ =~= tok_bm_max());
}

pub open spec fn tok_rbrace() -> Seq<u8> {
    seq![125u8]
}

pub fn push_rbrace(out: &mut Vec<u8>)
    ensures
        final(out)@ == old(out)@ + tok_rbrace(),
{
    let a: [u8; 1] = [125];
    out.extend_from_slice(a.as_slice());
    assert(a@ =~= tok_rbrace());
}

pub open spec fn tok_null() -> Seq<u8> {
    seq![110u8, 117u8, 108u8, 108u8]
}

pub fn push_null(out: &mut Vec<u8>)
    ensures
        final(out)@ == old(out)@ + tok_null(),
{
    let a: [u8; 4] = [110, 117, 108, 108];
    out.extend_from_slice(a.as_slice());
    assert(a@ =~= tok_null());
}

pub open spec fn tok_ref_name() -> Seq<u8> {
    seq![123u8, 34u8, 110u8, 97u8, 109u8, 101u8, 34u8, 58u8, 34u8]
}

pub fn push_ref_name_tok(out: &mut Vec<u8>)
    ensures
        final(out)@ == old(out)@ + tok_ref_name(),
{
    let a: [u8; 9] = [123, 34, 110, 97, 109, 101, 34, 58, 34];
    out.extend_from_slice(a.as_slice());
    assert(a@ =~= tok_ref_name());
}

pub open spec fn tok_ref_len() -> Seq<u8> {
    seq![34u8, 44u8, 34u8, 108u8, 101u8, 110u8, 103u8, 116u8, 104u8, 34u8, 58u8]
}

pub fn push_ref_len(out: &mut Vec<u8>)
    ensures
        final(out)@ == old(out)@ + tok_ref_len(),
{
    let a: [u8; 11] = [34, 44, 34, 108, 101, 110, 103, 116, 104, 34, 58];
    out.extend_from_slice(a.as_slice());
    assert(a@ =~= tok_ref_len());
}

pub open spec fn tok_codec_gzip() -> Seq<u8> {
    seq![71u8, 122u8, 105u8, 112u8]
}

pub fn push_codec_gzip(out: &mut Vec<u8>)
    ensures
        final(out)@ == old(out)@ + tok_codec_gzip(),
{
    let a: [u8; 4] = [71, 122, 105, 112];
    out.extend_from_slice(a.as_slice());
    assert(a@ =~= tok_codec_gzip());
}

pub open spec fn tok_codec_lz4() -> Seq<u8> {
    seq![76u8, 122u8, 52u8]
}

pub fn push_codec_lz4(out: &mut Vec<u8>)
    ensures
        final(out)@ == old(out)@ + tok_codec_lz4(),
{
    let a: [u8; 3] = [76, 122, 52];
    out.extend_from_slice(a.as_slice());
    assert(a@ =~= tok_codec_lz4());
}

pub open spec fn tok_codec_nocompr() -> Seq<u8> {
    seq![78u8, 111u8, 67u8, 111u8, 109u8, 112u8, 114u8, 101u8, 115u8, 115u8, 105u8, 111u8, 110u8]
}

pub fn push_codec_nocompr(out: &mut Vec<u8>)
    ensures
        final(out)@ == old(out)@ + tok_codec_nocompr(),
{
    let a: [u8; 13] = [78, 111, 67, 111, 109, 112, 114, 101, 115, 115, 105, 111, 110];
    out.extend_from_slice(a.as_slice());
    assert(a@ =~= tok_codec_nocompr());
}
/// Decimal digits of a non-negative integer.
pub open spec fn dec_of(n: int) -> Seq<u8>
    recommends
        n >= 0,
    decreases n,
{
    if n <= 9 {
        seq![(48 + if 0 <= n { n } else { 0 }) as u8]
    } else {
        dec_of(n / 10).push((48 + n % 10) as u8)
    }
}

/// Decimal form of a signed integer.
pub open spec fn sdec_of(n: int) -> Seq<u8> {
    if n < 0 {
        seq![45u8] + dec_of(-n)
    } else {
        dec_of(n)
    }
}

pub fn push_dec_u64(out: &mut Vec<u8>, x: u64)
    ensures
        final(out)@ == old(out)@ + dec_of(x as int),
    decreases x,
{
    if x <= 9 {
        out.push(48 + x as u8);
        assert(out@ =~= old(out)@ + dec_of(x as int));
    } else {
        push_dec_u64(out, x / 10);
        out.push(48 + (x % 10) as u8);
        assert(out@ =~= old(out)@ + dec_of(x as int));
    }
}

pub fn push_dec_i32(out: &mut Vec<u8>, x: i32)
    ensures
        final(out)@ == old(out)@ + sdec_of(x as int),
{
    if x < 0 {
        out.push(45);
        let m: u64 = (-(x as i64)) as u64;
        push_dec_u64(out, m);
        assert(out@ =~= old(out)@ + sdec_of(x as int));
    } else {
        push_dec_u64(out, x as u64);
    }
}

/// Comma-separated decimal list of the bytes of a statistics value.
pub open spec fn byte_list(b: Seq<u8>) -> Seq<u8>
    decreases b.len(),
{
    if b.len() == 0 {
        Seq::empty()
    } else if b.len() == 1 {
        dec_of(b[0] as int)
    } else {
        byte_list(b.drop_last()) + tok_comma() + dec_of(b.last() as int)
    }
}

/// A statistics value: an array of byte values, or null when absent.
pub open spec fn json_opt_bytes(o: Option<Seq<u8>>) -> Seq<u8> {
    match o {
        None => tok_null(),
        Some(b) => tok_lbracket() + byte_list(b) + tok_rbracket(),
    }
}

fn push_byte_list(out: &mut Vec<u8>, b: &Vec<u8>)
    ensures
        final(out)@ == old(out)@ + byte_list(b@),
{
    let n = b.len();
    let mut i: usize = 0;
    while i < n
        invariant
            i <= n == b@.len(),
            out@ == old(out)@ + byte_list(b@.subrange(0, i as int)),
        decreases n - i,
    {
        if i > 0 {
            push_comma(out);
        }
        push_dec_u64(out, b[i] as u64);
        proof {
            let pre = b@.subrange(0, i as int);
            let cur = b@.subrange(0, i + 1 as int);
            assert(cur.drop_last() =~= pre);
            assert(cur.last() == b@[i as int]);
            if i == 0 {
                assert(cur.len() == 1);
            }
            assert(out@ =~= old(out)@ + byte_list(cur));
        }
        i += 1;
    }
    assert(b@.subrange(0, n as int) =~= b@);
}

fn push_opt_bytes(out: &mut Vec<u8>, o: &Option<Vec<u8>>)
    ensures
        final(out)@ == old(out)@ + json_opt_bytes(opt_bytes_view(*o)),
{
    match o {
        None => push_null(out),
        Some(b) => {
            push_lbracket(out);
            push_byte_list(out, b);
            push_rbracket(out);
            assert(out@ =~= old(out)@ + json_opt_bytes(opt_bytes_view(*o)));
        },
    }
}

/// The JSON object of one catalog block entry.
pub open spec fn json_block_meta(m: BlockMeta) -> Seq<u8> {
    tok_bm_seek() + dec_of(m.seekpos as int) + tok_bm_num() + dec_of(m.numitems as int)
        + tok_bm_bs() + dec_of(m.block_size as int) + tok_bm_min() + json_opt_bytes(
        opt_bytes_view(m.min_value),
    ) + tok_bm_max() + json_opt_bytes(opt_bytes_view(m.max_value)) + tok_rbrace()
}

fn push_block_meta(out: &mut Vec<u8>, m: &BlockMeta)
    ensures
        final(out)@ == old(out)@ + json_block_meta(*m),
{
    push_bm_seek(out);
    push_dec_u64(out, m.seekpos);
    push_bm_num(out);
    push_dec_u64(out, m.numitems as u64);
    push_bm_bs(out);
    push_dec_u64(out, m.block_size as u64);
    push_bm_min(out);
    push_opt_bytes(out, &m.min_value);
    push_bm_max(out);
    push_opt_bytes(out, &m.max_value);
    push_rbrace(out);
    assert(out@ =~= old(out)@ + json_block_meta(*m));
}

/// The entries of one block list, comma separated, from index `i` on.
pub open spec fn block_entries(bl: Seq<BlockMeta>, i: int) -> Seq<u8>
    decreases bl.len() - i,
{
    if i < 0 || i >= bl.len() {
        Seq::empty()
    } else {
        (if i > 0 {
            tok_comma()
        } else {
            Seq::empty()
        }) + json_block_meta(bl[i]) + block_entries(bl, i + 1)
    }
}

/// The JSON array of one field's ordered block list.
pub open spec fn json_block_list(bl: Seq<BlockMeta>) -> Seq<u8> {
    tok_lbracket() + block_entries(bl, 0) + tok_rbracket()
}

fn push_block_list(out: &mut Vec<u8>, bl: &Vec<BlockMeta>)
    ensures
        final(out)@ == old(out)@ + json_block_list(bl@),
{
    push_lbracket(out);
    let n = bl.len();
    let mut i: usize = 0;
    while i < n
        invariant
            i <= n == bl@.len(),
            out@ + block_entries(bl@, i as int) == old(out)@ + tok_lbracket() + block_entries(
                bl@,
                0,
            ),
        decreases n - i,
    {
        let ghost pre = out@;
        if i > 0 {
            push_comma(out);
        }
        push_block_meta(out, &bl[i]);
        proof {
            let sep: Seq<u8> = if i > 0 {
                tok_comma()
            } else {
                Seq::empty()
            };
            assert(block_entries(bl@, i as int) == sep + json_block_meta(bl@[i as int])
                + block_entries(bl@, i + 1));
            assert(out@ =~= pre + sep + json_block_meta(bl@[i as int]));
            assert(out@ + block_entries(bl@, i + 1) =~= pre + block_entries(bl@, i as int));
        }
        i += 1;
    }
    push_rbracket(out);
    assert(out@ =~= old(out)@ + json_block_list(bl@));
}

/// The name of a codec as it stands in the catalog.
pub open spec fn codec_name_seq(c: Codecs) -> Seq<u8> {
    match c {
        Codecs::Gzip => tok_codec_gzip(),
        Codecs::Lz4 => tok_codec_lz4(),
        Codecs::NoCompression => tok_codec_nocompr(),
    }
}

fn push_codec_name(out: &mut Vec<u8>, c: Codecs)
    ensures
        final(out)@ == old(out)@ + codec_name_seq(c),
{
    match c {
        Codecs::Gzip => push_codec_gzip(out),
        Codecs::Lz4 => push_codec_lz4(out),
        Codecs::NoCompression => push_codec_nocompr(out),
    }
}

/// The entries of the field-to-codec object, from field `i` on.
pub open spec fn codec_entries(c: Codecs, i: int) -> Seq<u8>
    decreases FIELDS_NUM - i,
{
    if i < 0 || i >= FIELDS_NUM {
        Seq::empty()
    } else {
        (if i > 0 {
            tok_comma()
        } else {
            Seq::empty()
        }) + tok_quote() + field_name_seq(all_fields_seq()[i]) + tok_qcolq() + codec_name_seq(c)
            + tok_quote() + codec_entries(c, i + 1)
    }
}

/// The entries of the field-to-blocks object, from field `i` on.
pub open spec fn blocks_entries(m: FileMeta, i: int) -> Seq<u8>
    decreases FIELDS_NUM - i,
{
    if i < 0 || i >= FIELDS_NUM {
        Seq::empty()
    } else {
        (if i > 0 {
            tok_comma()
        } else {
            Seq::empty()
        }) + tok_quote() + field_name_seq(all_fields_seq()[i]) + tok_qcol() + json_block_list(
            m.spec_blocks_of(all_fields_seq()[i]),
        ) + blocks_entries(m, i + 1)
    }
}

/// The JSON escaping of one byte inside a string literal: quote and
/// backslash get a backslash, control bytes become \u00XX with lowercase
/// hex, everything else stands for itself.
pub open spec fn esc_byte(b: u8) -> Seq<u8> {
    if b == 34 {
        seq![92u8, 34u8]
    } else if b == 92 {
        seq![92u8, 92u8]
    } else if b < 32 {
        seq![
            92u8,
            117u8,
            48u8,
            48u8,
            (48 + b / 16) as u8,
            if b % 16 < 10 {
                (48 + b % 16) as u8
            } else {
                (87 + b % 16) as u8
            },
        ]
    } else {
        seq![b]
    }
}

/// A byte string escaped for a JSON string literal.
pub open spec fn esc(s: Seq<u8>) -> Seq<u8>
    decreases s.len(),
{
    if s.len() == 0 {
        Seq::empty()
    } else {
        esc(s.drop_last()) + esc_byte(s.last())
    }
}

fn push_escaped(out: &mut Vec<u8>, name: &Vec<u8>)
    ensures
        final(out)@ == old(out)@ + esc(name@),
{
    let n = name.len();
    let mut i: usize = 0;
    while i < n
        invariant
            i <= n == name@.len(),
            out@ == old(out)@ + esc(name@.subrange(0, i as int)),
        decreases n - i,
    {
        let ghost pre = out@;
        let b = name[i];
        if b == 34 {
            out.push(92);
            out.push(34);
        } else if b == 92 {
            out.push(92);
            out.push(92);
        } else if b < 32 {
            out.push(92);
            out.push(117);
            out.push(48);
            out.push(48);
            out.push(48 + b / 16);
            let x = b % 16;
            if x < 10 {
                out.push(48 + x);
            } else {
                out.push(87 + x);
            }
        } else {
            out.push(b);
        }
        proof {
            let cur = name@.subrange(0, i + 1 as int);
            assert(cur.drop_last() =~= name@.subrange(0, i as int));
            assert(cur.last() == name@[i as int]);
            assert(out@ =~= pre + esc_byte(name@[i as int]));
            assert(out@ =~= old(out)@ + esc(cur));
        }
        i += 1;
    }
    assert(name@.subrange(0, n as int) =~= name@);
}

/// The JSON object of one reference sequence.
pub open spec fn json_ref_seq(r: RefSeq) -> Seq<u8> {
    tok_ref_name() + esc(r.name@) + tok_ref_len() + sdec_of(r.length as int) + tok_rbrace()
}

/// The reference sequence list, comma separated.
pub open spec fn refs_entries(rs: Seq<RefSeq>, i: int) -> Seq<u8>
    decreases rs.len() - i,
{
    if i < 0 || i >= rs.len() {
        Seq::empty()
    } else {
        (if i > 0 {
            tok_comma()
        } else {
            Seq::empty()
        }) + json_ref_seq(rs[i]) + refs_entries(rs, i + 1)
    }
}

/// The full catalog JSON.
pub open spec fn catalog_json(m: FileMeta) -> Seq<u8> {
    tok_obj_open_codec() + codec_entries(m.codec, 0) + tok_obj_blocks() + blocks_entries(m, 0)
        + tok_obj_sam() + refs_entries(m.ref_seqs@, 0) + tok_obj_end()
}

/// Serialize the catalog. The emitted bytes are exactly `catalog_json`.
#[verifier::rlimit(60)]
pub fn catalog_json_bytes(m: &FileMeta) -> (r: Vec<u8>)
    requires
        m.wf(),
    ensures
        r@ == catalog_json(*m),
{
    let mut out: Vec<u8> = Vec::new();
    push_obj_open_codec(&mut out);
    let fields = all_fields();
    let mut i: usize = 0;
    while i < FIELDS_NUM
        invariant
            i <= FIELDS_NUM,
            fields@ == all_fields_seq(),
            fields@.len() == FIELDS_NUM,
            out@ + codec_entries(m.codec, i as int) == tok_obj_open_codec() + codec_entries(
                m.codec,
                0,
            ),
        decreases FIELDS_NUM - i,
    {
        let ghost pre = out@;
        if i > 0 {
            push_comma(&mut out);
        }
        push_quote(&mut out);
        push_field_name(&mut out, &fields[i]);
        push_qcolq(&mut out);
        push_codec_name(&mut out, m.codec);
        push_quote(&mut out);
        proof {
            let sep: Seq<u8> = if i > 0 {
                tok_comma()
            } else {
                Seq::empty()
            };
            assert(codec_entries(m.codec, i as int) == sep + tok_quote() + field_name_seq(
                all_fields_seq()[i as int],
            ) + tok_qcolq() + codec_name_seq(m.codec) + tok_quote() + codec_entries(
                m.codec,
                i + 1,
            ));
            assert(out@ =~= pre + sep + tok_quote() + field_name_seq(all_fields_seq()[i as int])
                + tok_qcolq() + codec_name_seq(m.codec) + tok_quote());
            assert(out@ + codec_entries(m.codec, i + 1) =~= pre + codec_entries(
                m.codec,
                i as int,
            ));
        }
        i += 1;
    }
    push_obj_blocks(&mut out);
    let ghost mid1 = out@;
    let mut i: usize = 0;
    while i < FIELDS_NUM
        invariant
            i <= FIELDS_NUM,
            fields@ == all_fields_seq(),
            fields@.len() == FIELDS_NUM,
            m.wf(),
            out@ + blocks_entries(*m, i as int) == mid1 + blocks_entries(*m, 0),
        decreases FIELDS_NUM - i,
    {
        let ghost pre = out@;
        if i > 0 {
            push_comma(&mut out);
        }
        push_quote(&mut out);
        push_field_name(&mut out, &fields[i]);
        push_qcol(&mut out);
        let bl = m.get_blocks(&fields[i]);
        push_block_list(&mut out, bl);
        proof {
            let sep: Seq<u8> = if i > 0 {
                tok_comma()
            } else {
                Seq::empty()
            };
            assert(blocks_entries(*m, i as int) == sep + tok_quote() + field_name_seq(
                all_fields_seq()[i as int],
            ) + tok_qcol() + json_block_list(m.spec_blocks_of(all_fields_seq()[i as int]))
                + blocks_entries(*m, i + 1));
            assert(out@ =~= pre + sep + tok_quote() + field_name_seq(all_fields_seq()[i as int])
                + tok_qcol() + json_block_list(m.spec_blocks_of(all_fields_seq()[i as int])));
            assert(out@ + blocks_entries(*m, i + 1) =~= pre + blocks_entries(*m, i as int));
        }
        i += 1;
    }
    push_obj_sam(&mut out);
    let ghost mid2 = out@;
    let nrefs = m.ref_seqs.len();
    let mut i: usize = 0;
    while i < nrefs
        invariant
            i <= nrefs == m.ref_seqs@.len(),
            out@ + refs_entries(m.ref_seqs@, i as int) == mid2 + refs_entries(m.ref_seqs@, 0),
        decreases nrefs - i,
    {
        let ghost pre = out@;
        if i > 0 {
            push_comma(&mut out);
        }
        push_ref_name(&mut out, &m.ref_seqs[i].name);
        push_dec_i32(&mut out, m.ref_seqs[i].length);
        push_rbrace(&mut out);
        proof {
            let sep: Seq<u8> = if i > 0 {
                tok_comma()
            } else {
                Seq::empty()
            };
            assert(refs_entries(m.ref_seqs@, i as int) == sep + json_ref_seq(
                m.ref_seqs@[i as int],
            ) + refs_entries(m.ref_seqs@, i + 1));
            assert(out@ =~= pre + sep + json_ref_seq(m.ref_seqs@[i as int]));
            assert(out@ + refs_entries(m.ref_seqs@, i + 1) =~= pre + refs_entries(
                m.ref_seqs@,
                i as int,
            ));
        }
        i += 1;
    }
    push_obj_end(&mut out);
    assert(out@ =~= catalog_json(*m));
    out
}

fn push_ref_name(out: &mut Vec<u8>, name: &Vec<u8>)
    ensures
        final(out)@ == old(out)@ + tok_ref_name() + esc(name@) + tok_ref_len(),
{
    push_ref_name_tok(out);
    push_escaped(out, name);
    push_ref_len(out);
    assert(out@ =~= old(out)@ + tok_ref_name() + esc(name@) + tok_ref_len());
}

} // verus!
