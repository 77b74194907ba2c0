use vstd::prelude::*;

use crate::columns::{opt_bytes_view, BlockInfo, Column, FixedColumn, Inner, VariableColumn, WriteStatus};
use crate::compressor::{codec_encode, CompressTask, Compressor, OrderingKey};
use crate::fields::{
    data_fields_seq, data_fields, field_type, spec_companion_index, spec_field_index,
    spec_field_type, spec_is_data_field, spec_is_variable, FieldType, Fields,
};
use crate::json::{catalog_json, catalog_json_bytes};
use crate::meta::{
    calc_crc_for_meta_bytes, crc32_of, file_info_seq, BlockMeta, Codecs, FileInfo, FileMeta,
    RefSeq,
};
use crate::record::rec_ok;
use crate::{FILE_INFO_SIZE, SIZE_LIMIT};

verus! {

/// The one fatal error of the write path: a compressed block too large for
/// the catalog's 32-bit size field. The file must be discarded.
#[derive(Clone, Copy, PartialEq, Eq, Structural, Debug)]
pub enum WriteError {
    OversizedBlock,
}

/// Total record count over a block list.
pub open spec fn sum_items(bl: Seq<BlockMeta>) -> int
    decreases bl.len(),
{
    if bl.len() == 0 {
        0
    } else {
        sum_items(bl.drop_last()) + bl.last().numitems
    }
}

/// What one in-flight task contributes to the record count of field `f`.
pub open spec fn task_items(t: CompressTask, f: Fields) -> int {
    if t.ordering_key is Key && t.block_info.field == f {
        t.block_info.numitems as int
    } else {
        0
    }
}

/// Record count of field `f` still inside the pipeline.
pub open spec fn inflight_items(q: Seq<CompressTask>, f: Fields) -> int
    decreases q.len(),
{
    if q.len() == 0 {
        0
    } else {
        task_items(q[0], f) + inflight_items(q.drop_first(), f)
    }
}

/// Number of keyed blocks of field `f` still inside the pipeline.
pub open spec fn inflight_count(q: Seq<CompressTask>, f: Fields) -> int
    decreases q.len(),
{
    if q.len() == 0 {
        0
    } else {
        (if q[0].ordering_key is Key && q[0].block_info.field == f {
            1int
        } else {
            0
        }) + inflight_count(q.drop_first(), f)
    }
}

/// The keyed blocks of field `f` sit in the pipeline in submission order:
/// their keys are `next`, `next + 1`, ... front to back.
pub open spec fn keys_ok(q: Seq<CompressTask>, f: Fields, next: int) -> bool
    decreases q.len(),
{
    if q.len() == 0 {
        true
    } else {
        if q[0].ordering_key is Key && q[0].block_info.field == f {
            &&& 0 <= next < u32::MAX
            &&& q[0].ordering_key == OrderingKey::Key(next as u32)
            &&& keys_ok(q.drop_first(), f, next + 1)
        } else {
            keys_ok(q.drop_first(), f, next)
        }
    }
}

/// Every keyed task in the pipeline holds at least one record.
pub open spec fn tasks_positive(q: Seq<CompressTask>) -> bool {
    forall|j: int|
        0 <= j < q.len() && (#[trigger] q[j].ordering_key) is Key ==> q[j].block_info.numitems
            >= 1
}

/// Every cataloged block holds at least one record.
pub open spec fn blocks_positive(bl: Seq<BlockMeta>) -> bool {
    forall|i: int| 0 <= i < bl.len() ==> (#[trigger] bl[i]).numitems >= 1
}

/// Blocks of one field lie in the body in catalog order without overlap, all
/// after the reserved header and before `end`.
pub open spec fn catalog_ordered(bl: Seq<BlockMeta>, end: int) -> bool {
    forall|i: int|
        0 <= i < bl.len() ==> (#[trigger] bl[i]).seekpos >= FILE_INFO_SIZE && bl[i].seekpos
            + bl[i].block_size <= (if i + 1 < bl.len() {
            bl[i + 1].seekpos as int
        } else {
            end
        })
}

/// Every in-flight task fits the catalog's 32-bit size field, and a keyed
/// task carries exactly the codec encoding of its remembered records.
pub open spec fn tasks_wf(q: Seq<CompressTask>, codec: Codecs) -> bool {
    forall|j: int|
        0 <= j < q.len() ==> {
            let t = #[trigger] q[j];
            &&& t.buf@.len() <= u32::MAX
            &&& (t.ordering_key is Key ==> t.buf@ == codec_encode(codec, t.raw@) && t.raw@
                == t.block_info.recs@.flatten() && t.block_info.numitems
                == t.block_info.recs@.len())
        }
}

/// Every cataloged block's bytes in the body are the codec encoding of the
/// records the block holds.
pub open spec fn catalog_content(meta: FileMeta, out: Seq<u8>) -> bool {
    forall|f: Fields, i: int|
        0 <= i < meta.spec_blocks_of(f).len() ==> {
            let m = #[trigger] meta.spec_blocks_of(f)[i];
            &&& out.subrange(m.seekpos as int, m.seekpos + m.block_size) == codec_encode(
                meta.codec,
                m.recs@.flatten(),
            )
            &&& m.numitems == m.recs@.len()
        }
}

/// The joint well-formedness of catalog, pipeline and file body.
pub open spec fn pipeline_ok(meta: FileMeta, q: Seq<CompressTask>, out: Seq<u8>) -> bool {
    &&& meta.wf()
    &&& tasks_positive(q)
    &&& tasks_wf(q, meta.codec)
    &&& out.len() >= FILE_INFO_SIZE
    &&& catalog_content(meta, out)
    &&& forall|f: Fields| keys_ok(q, f, meta.spec_blocks_of(f).len() as int)
    &&& forall|f: Fields| catalog_ordered(#[trigger] meta.spec_blocks_of(f), out.len() as int)
    &&& forall|f: Fields| blocks_positive(#[trigger] meta.spec_blocks_of(f))
}

/// Every block of an ordered list ends at or before `end`.
pub proof fn lemma_block_within(bl: Seq<BlockMeta>, end: int, i: int)
    requires
        catalog_ordered(bl, end),
        0 <= i < bl.len(),
    ensures
        bl[i].seekpos + bl[i].block_size <= end,
    decreases bl.len() - i,
{
    if i + 1 < bl.len() {
        lemma_block_within(bl, end, i + 1);
    }
}

/// Every field's records, cataloged or in flight, stay below `bound`.
pub open spec fn pipeline_bounded(meta: FileMeta, q: Seq<CompressTask>, bound: int) -> bool {
    forall|f: Fields|
        sum_items(#[trigger] meta.spec_blocks_of(f)) + inflight_items(q, f) <= bound
}

/// One buffer's books balance: catalog, pipeline and buffer together hold
/// every record pushed so far, and the next block number follows on.
pub open spec fn inner_acct(meta: FileMeta, q: Seq<CompressTask>, i: Inner, pushed: int) -> bool {
    &&& sum_items(meta.spec_blocks_of(i.field)) + inflight_items(q, i.field) + i.rec_count
        == pushed
    &&& i.block_num == meta.spec_blocks_of(i.field).len() + inflight_count(q, i.field)
}

pub open spec fn col_acct(meta: FileMeta, q: Seq<CompressTask>, c: Column, pushed: int) -> bool {
    match c {
        Column::Fixed(fc) => inner_acct(meta, q, fc.0, pushed),
        Column::Variable(vc) => inner_acct(meta, q, vc.inner, pushed) && inner_acct(
            meta,
            q,
            vc.index.0,
            pushed,
        ),
    }
}

pub proof fn lemma_sum_push(bl: Seq<BlockMeta>, m: BlockMeta)
    ensures
        sum_items(bl.push(m)) == sum_items(bl) + m.numitems,
{
    assert(bl.push(m).drop_last() =~= bl);
}

pub proof fn lemma_sum_nonneg(bl: Seq<BlockMeta>)
    ensures
        sum_items(bl) >= 0,
    decreases bl.len(),
{
    if bl.len() > 0 {
        lemma_sum_nonneg(bl.drop_last());
    }
}

pub proof fn lemma_sum_ge_len(bl: Seq<BlockMeta>)
    requires
        blocks_positive(bl),
    ensures
        sum_items(bl) >= bl.len(),
    decreases bl.len(),
{
    if bl.len() > 0 {
        assert(blocks_positive(bl.drop_last()));
        lemma_sum_ge_len(bl.drop_last());
    }
}

pub proof fn lemma_inflight_nonneg(q: Seq<CompressTask>, f: Fields)
    ensures
        inflight_items(q, f) >= 0,
        inflight_count(q, f) >= 0,
    decreases q.len(),
{
    if q.len() > 0 {
        lemma_inflight_nonneg(q.drop_first(), f);
    }
}

pub proof fn lemma_inflight_ge_count(q: Seq<CompressTask>, f: Fields)
    requires
        tasks_positive(q),
    ensures
        inflight_items(q, f) >= inflight_count(q, f),
        inflight_items(q, f) >= 0,
        inflight_count(q, f) >= 0,
    decreases q.len(),
{
    if q.len() > 0 {
        assert(tasks_positive(q.drop_first())) by {
            assert(forall|j: int|
                0 <= j < q.drop_first().len() ==> q.drop_first()[j] == q[j + 1]);
        }
        lemma_inflight_ge_count(q.drop_first(), f);
    }
}

pub proof fn lemma_inflight_push(q: Seq<CompressTask>, t: CompressTask, f: Fields)
    ensures
        inflight_items(q.push(t), f) == inflight_items(q, f) + task_items(t, f),
        inflight_count(q.push(t), f) == inflight_count(q, f) + (if t.ordering_key is Key
            && t.block_info.field == f {
            1int
        } else {
            0
        }),
    decreases q.len(),
{
    reveal_with_fuel(inflight_items, 3);
    reveal_with_fuel(inflight_count, 3);
    if q.len() == 0 {
        assert(q.push(t)[0] == t);
        assert(q.push(t).drop_first() =~= q);
    } else {
        assert(q.push(t)[0] == q[0]);
        assert(q.push(t).drop_first() =~= q.drop_first().push(t));
        lemma_inflight_push(q.drop_first(), t, f);
    }
}

pub proof fn lemma_keys_push(q: Seq<CompressTask>, t: CompressTask, f: Fields, next: int)
    requires
        keys_ok(q, f, next),
        next >= 0,
        (t.ordering_key is Key && t.block_info.field == f) ==> ({
            &&& 0 <= next + inflight_count(q, f) < u32::MAX
            &&& t.ordering_key == OrderingKey::Key((next + inflight_count(q, f)) as u32)
        }),
    ensures
        keys_ok(q.push(t), f, next),
    decreases q.len(),
{
    reveal_with_fuel(keys_ok, 3);
    reveal_with_fuel(inflight_count, 3);
    lemma_inflight_nonneg(q, f);
    if q.len() == 0 {
        assert(q.push(t)[0] == t);
        assert(q.push(t).drop_first() =~= q);
    } else {
        assert(q.push(t)[0] == q[0]);
        assert(q.push(t).drop_first() =~= q.drop_first().push(t));
        lemma_inflight_nonneg(q.drop_first(), f);
        if q[0].ordering_key is Key && q[0].block_info.field == f {
            lemma_keys_push(q.drop_first(), t, f, next + 1);
        } else {
            lemma_keys_push(q.drop_first(), t, f, next);
        }
    }
}

/// A pipeline carrying no records of any field holds no keyed tasks.
pub proof fn lemma_no_keys(q: Seq<CompressTask>)
    requires
        tasks_positive(q),
        forall|f: Fields| inflight_items(q, f) == 0,
    ensures
        forall|j: int| 0 <= j < q.len() ==> !((#[trigger] q[j].ordering_key) is Key),
    decreases q.len(),
{
    if q.len() > 0 {
        let t = q[0];
        if t.ordering_key is Key {
            let g = t.block_info.field;
            lemma_inflight_nonneg(q.drop_first(), g);
            assert(inflight_items(q, g) == task_items(t, g) + inflight_items(q.drop_first(), g));
            assert(false);
        }
        assert(forall|k: int| 0 <= k < q.drop_first().len() ==> q.drop_first()[k] == q[k + 1]);
        assert(tasks_positive(q.drop_first()));
        assert forall|f: Fields| inflight_items(q.drop_first(), f) == 0 by {
            assert(inflight_items(q, f) == task_items(q[0], f) + inflight_items(
                q.drop_first(),
                f,
            ));
            lemma_inflight_nonneg(q.drop_first(), f);
        }
        lemma_no_keys(q.drop_first());
        assert forall|j: int| 0 <= j < q.len() implies !((#[trigger] q[j].ordering_key) is Key) by {
            if j > 0 {
                assert(q.drop_first()[j - 1] == q[j]);
            }
        }
    }
}

/// All fields map to distinct column indices.
pub proof fn lemma_field_index_injective()
    ensures
        forall|a: Fields, b: Fields| spec_field_index(a) == spec_field_index(b) ==> a == b,
{
}

/// Build the catalog entry of a completed block at the current end of the
/// body, before the block's bytes are appended.
pub fn generate_meta(out: &Vec<u8>, numitems: u32, block_size: u32) -> (r: BlockMeta)
    ensures
        r.seekpos == out@.len(),
        r.numitems == numitems,
        r.block_size == block_size,
        r.min_value is None && r.max_value is None,
{
    BlockMeta {
        seekpos: out.len() as u64,
        numitems,
        block_size,
        min_value: None,
        max_value: None,
        recs: Ghost(Seq::empty()),
    }
}

fn clone_opt_bytes(o: &Option<Vec<u8>>) -> (r: Option<Vec<u8>>)
    ensures
        opt_bytes_view(r) == opt_bytes_view(*o),
{
    match o {
        Some(v) => Some(vstd::slice::slice_to_vec(v.as_slice())),
        None => None,
    }
}

/// Sink one completed block: append its bytes to the body and store its
/// catalog entry at position `key` of its field's block list.
pub fn write_data_and_update_meta(
    out: &mut Vec<u8>,
    file_meta: &mut FileMeta,
    key: u32,
    task: &CompressTask,
) -> (r: Result<(), WriteError>)
    requires
        old(file_meta).wf(),
        key as int == old(file_meta).spec_blocks_of(task.block_info.field).len(),
        key < u32::MAX,
    ensures
        r is Err <==> task.buf@.len() > u32::MAX,
        match r {
            Ok(_) => ({
                let f = task.block_info.field;
                let bl = final(file_meta).spec_blocks_of(f);
                &&& final(file_meta).wf()
                &&& final(out)@ == old(out)@ + task.buf@
                &&& bl.len() == key + 1
                &&& bl == old(file_meta).spec_blocks_of(f).push(bl.last())
                &&& bl.last().seekpos == old(out)@.len()
                &&& bl.last().block_size == task.buf@.len()
                &&& bl.last().numitems == task.block_info.numitems
                &&& bl.last().recs@ == task.block_info.recs@
                &&& opt_bytes_view(bl.last().min_value) == opt_bytes_view(
                    task.block_info.min_value,
                )
                &&& opt_bytes_view(bl.last().max_value) == opt_bytes_view(
                    task.block_info.max_value,
                )
                &&& forall|g: Fields|
                    g != task.block_info.field ==> #[trigger] final(file_meta).spec_blocks_of(g)
                        == old(file_meta).spec_blocks_of(g)
                &&& final(file_meta).codec == old(file_meta).codec
                &&& final(file_meta).ref_seqs == old(file_meta).ref_seqs
            }),
            Err(_) => *final(out) == *old(out) && *final(file_meta) == *old(file_meta),
        },
{
    let compressed_size = task.buf.len();
    if compressed_size > 0xFFFF_FFFFusize {
        return Err(WriteError::OversizedBlock);
    }
    let mut meta = generate_meta(out, task.block_info.numitems, compressed_size as u32);
    meta.min_value = clone_opt_bytes(&task.block_info.min_value);
    meta.max_value = clone_opt_bytes(&task.block_info.max_value);
    proof {
        meta.recs@ = task.block_info.recs@;
    }
    out.extend_from_slice(task.buf.as_slice());
    let ghost m = meta;
    file_meta.place_block(&task.block_info.field, key, meta);
    proof {
        let f = task.block_info.field;
        lemma_field_index_injective();
        assert(file_meta.spec_blocks_of(f) =~= old(file_meta).spec_blocks_of(f).push(m));
    }
    Ok(())
}

/// Flush one column buffer: recover a recycled buffer from the pipeline
/// (sinking the completed block it carries, if any), hand the filled buffer
/// to the pipeline under the next ordering key, and start a new block.
#[verifier::rlimit(100)]
pub fn flush_field_buffer(
    out: &mut Vec<u8>,
    file_meta: &mut FileMeta,
    compressor: &mut Compressor,
    inner: &mut Inner,
    bound: Ghost<int>,
) -> (r: Result<(), WriteError>)
    requires
        pipeline_ok(*old(file_meta), old(compressor).tasks(), old(out)@),
        pipeline_bounded(*old(file_meta), old(compressor).tasks(), bound@),
        0 <= bound@ < u32::MAX,
        old(compressor).tasks().len() >= 1,
        old(inner).wf(),
        old(inner).rec_count >= 1,
        old(inner).block_num == old(file_meta).spec_blocks_of(old(inner).field).len()
            + inflight_count(old(compressor).tasks(), old(inner).field),
    ensures
        r is Ok ==> pipeline_ok(*final(file_meta), final(compressor).tasks(), final(out)@),
        r is Ok ==> pipeline_bounded(
            *final(file_meta),
            final(compressor).tasks(),
            bound@ + old(inner).rec_count,
        ),
        r is Ok ==> final(compressor).tasks().len() == old(compressor).tasks().len(),
        r is Ok ==> final(inner).wf(),
        r is Ok ==> final(inner).field == old(inner).field,
        r is Ok ==> final(inner).rec_count == 0 && final(inner).offset() == 0,
        r is Ok ==> final(inner).recs@ =~= Seq::<Seq<u8>>::empty(),
        r is Ok ==> (final(inner).stats_collector is Some
            <==> old(inner).stats_collector is Some),
        r is Ok ==> final(inner).block_num == final(file_meta).spec_blocks_of(
            final(inner).field,
        ).len() + inflight_count(final(compressor).tasks(), final(inner).field),
        r is Ok ==> forall|f: Fields|
            sum_items(#[trigger] final(file_meta).spec_blocks_of(f)) + inflight_items(
                final(compressor).tasks(),
                f,
            ) == sum_items(old(file_meta).spec_blocks_of(f)) + inflight_items(
                old(compressor).tasks(),
                f,
            ) + (if f == old(inner).field {
                old(inner).rec_count as int
            } else {
                0
            }),
        r is Ok ==> forall|f: Fields|
            (#[trigger] final(file_meta).spec_blocks_of(f)).len() + inflight_count(
                final(compressor).tasks(),
                f,
            ) == old(file_meta).spec_blocks_of(f).len() + inflight_count(
                old(compressor).tasks(),
                f,
            ) + (if f == old(inner).field {
                1int
            } else {
                0
            }),
        r is Ok ==> final(file_meta).codec == old(file_meta).codec
            && final(file_meta).ref_seqs == old(file_meta).ref_seqs,
        r is Err <==> codec_encode(old(file_meta).codec, old(inner).buffer@).len() > u32::MAX,
{
    let ghost q0 = compressor.tasks();
    let completed = compressor.get_compr_block();
    let ghost q1 = compressor.tasks();
    proof {
        // Popping the head removes exactly its contribution from every field.
        assert(forall|f: Fields| inflight_items(q0, f) == task_items(q0[0], f) + inflight_items(q1, f));
        assert(forall|f: Fields|
            inflight_count(q0, f) == (if q0[0].ordering_key is Key && q0[0].block_info.field == f {
                1int
            } else {
                0
            }) + inflight_count(q1, f));
        assert(forall|j: int| 0 <= j < q1.len() ==> q1[j] == q0[j + 1]);
    }
    match completed.ordering_key {
        OrderingKey::Key(key) => {
            let ghost g = completed.block_info.field;
            proof {
                // keys_ok at the head pins this key to the next catalog slot.
                assert(keys_ok(q0, g, file_meta.spec_blocks_of(g).len() as int));
                lemma_sum_nonneg(file_meta.spec_blocks_of(g));
                lemma_inflight_ge_count(q0, g);
            }
            let res = write_data_and_update_meta(out, file_meta, key, &completed);
            match res {
                Ok(_) => {},
                Err(e) => {
                    proof {
                        // every in-flight buffer fits the size field
                        assert(false);
                    }
                    return Err(e);
                },
            }
            proof {
                // The new block keeps every per-field key sequence intact.
                assert forall|f: Fields|
                    keys_ok(q1, f, #[trigger] file_meta.spec_blocks_of(f).len() as int) by {
                    if f == g {
                    } else {
                        assert(keys_ok(q0, f, old(file_meta).spec_blocks_of(f).len() as int));
                    }
                }
                lemma_sum_push(
                    old(file_meta).spec_blocks_of(g),
                    file_meta.spec_blocks_of(g).last(),
                );
                // The body still carries every cataloged block's encoding.
                assert forall|f: Fields, i: int|
                    0 <= i < file_meta.spec_blocks_of(f).len() implies {
                    let m = #[trigger] file_meta.spec_blocks_of(f)[i];
                    &&& out@.subrange(m.seekpos as int, m.seekpos + m.block_size)
                        == codec_encode(file_meta.codec, m.recs@.flatten())
                    &&& m.numitems == m.recs@.len()
                } by {
                    let m = file_meta.spec_blocks_of(f)[i];
                    if f == g && i == file_meta.spec_blocks_of(g).len() - 1 {
                        assert(out@.subrange(m.seekpos as int, m.seekpos + m.block_size)
                            =~= completed.buf@);
                    } else {
                        assert(m == old(file_meta).spec_blocks_of(f)[i]);
                        lemma_block_within(
                            old(file_meta).spec_blocks_of(f),
                            old(out)@.len() as int,
                            i,
                        );
                        assert(out@.subrange(m.seekpos as int, m.seekpos + m.block_size)
                            =~= old(out)@.subrange(m.seekpos as int, m.seekpos + m.block_size));
                    }
                }
            }
        },
        OrderingKey::Empty => {},
    }
    let info = inner.generate_block_info();
    let data = inner.swap_buffer(completed.buf);
    let codec = file_meta.get_field_codec(&inner.field);
    let ghost q2 = compressor.tasks();
    let ghost meta2 = *file_meta;
    proof {
        let fld = inner.field;
        // The next block number stays below the record bound.
        lemma_sum_ge_len(old(file_meta).spec_blocks_of(fld));
        lemma_inflight_ge_count(q0, fld);
        assert(old(inner).block_num <= sum_items(old(file_meta).spec_blocks_of(fld))
            + inflight_items(q0, fld));
        assert(inner.block_num < u32::MAX);
        // The books balance: sinking moved the head block, if any, from the
        // pipeline into the catalog of its own field.
        assert forall|f: Fields|
            (#[trigger] meta2.spec_blocks_of(f)).len() + inflight_count(q2, f) == old(
                file_meta,
            ).spec_blocks_of(f).len() + inflight_count(q0, f) by {
            assert(inflight_count(q0, f) == (if q0[0].ordering_key is Key
                && q0[0].block_info.field == f {
                1int
            } else {
                0
            }) + inflight_count(q2, f));
        }
        assert forall|f: Fields|
            sum_items(#[trigger] meta2.spec_blocks_of(f)) + inflight_items(q2, f) == sum_items(
                old(file_meta).spec_blocks_of(f),
            ) + inflight_items(q0, f) by {
            assert(inflight_items(q0, f) == task_items(q0[0], f) + inflight_items(q2, f));
        }
        assert(inner.block_num == meta2.spec_blocks_of(fld).len() + inflight_count(q2, fld));
        lemma_sum_nonneg(meta2.spec_blocks_of(fld));
        lemma_inflight_ge_count(q2, fld);
    }
    let accepted = compressor.compress_block(OrderingKey::Key(inner.block_num), info, data, codec);
    if !accepted {
        return Err(WriteError::OversizedBlock);
    }
    proof {
        let t = compressor.tasks().last();
        assert(compressor.tasks() =~= q2.push(t));
        assert forall|f: Fields|
            #[trigger] inflight_items(compressor.tasks(), f) == inflight_items(q2, f)
                + task_items(t, f) by {
            lemma_inflight_push(q2, t, f);
        }
        assert forall|f: Fields|
            #[trigger] inflight_count(compressor.tasks(), f) == inflight_count(q2, f) + (
            if t.ordering_key is Key && t.block_info.field == f {
                1int
            } else {
                0
            }) by {
            lemma_inflight_push(q2, t, f);
        }
        assert forall|f: Fields|
            keys_ok(compressor.tasks(), f, #[trigger] meta2.spec_blocks_of(f).len() as int) by {
            lemma_sum_nonneg(meta2.spec_blocks_of(f));
            lemma_inflight_ge_count(q2, f);
            lemma_keys_push(q2, t, f, meta2.spec_blocks_of(f).len() as int);
        }
        assert(tasks_wf(compressor.tasks(), meta2.codec)) by {
            assert(forall|j: int| 0 <= j < q2.len() ==> compressor.tasks()[j] == q2[j]);
            assert(t.raw@ == old(inner).recs@.flatten());
        }
    }
    inner.reset_for_new_block();
    Ok(())
}

/// Which column is responsible for a field: the field is either the primary
/// of column `j` or the companion index of a variable column `j`.
pub open spec fn covered_by(f: Fields, j: int) -> bool {
    &&& 0 <= j < data_fields_seq().len()
    &&& (data_fields_seq()[j] == f || (spec_is_variable(data_fields_seq()[j])
        && spec_companion_index(data_fields_seq()[j]) == f))
}

/// Every field is carried by exactly one column buffer.
pub proof fn lemma_field_covered(f: Fields)
    ensures
        exists|j: int| #[trigger] covered_by(f, j),
{
    match f {
            Fields::RefID => {
                assert(data_fields_seq()[0] == Fields::RefID);
                assert(covered_by(f, 0));
            },
            Fields::Pos => {
                assert(data_fields_seq()[1] == Fields::Pos);
                assert(covered_by(f, 1));
            },
            Fields::Mapq => {
                assert(data_fields_seq()[2] == Fields::Mapq);
                assert(covered_by(f, 2));
            },
            Fields::Bin => {
                assert(data_fields_seq()[3] == Fields::Bin);
                assert(covered_by(f, 3));
            },
            Fields::Flags => {
                assert(data_fields_seq()[4] == Fields::Flags);
                assert(covered_by(f, 4));
            },
            Fields::NextRefID => {
                assert(data_fields_seq()[5] == Fields::NextRefID);
                assert(covered_by(f, 5));
            },
            Fields::NextPos => {
                assert(data_fields_seq()[6] == Fields::NextPos);
                assert(covered_by(f, 6));
            },
            Fields::TemplateLength => {
                assert(data_fields_seq()[7] == Fields::TemplateLength);
                assert(covered_by(f, 7));
            },
            Fields::ReadName => {
                assert(data_fields_seq()[8] == Fields::ReadName);
                assert(covered_by(f, 8));
            },
            Fields::RawCigar => {
                assert(data_fields_seq()[9] == Fields::RawCigar);
                assert(covered_by(f, 9));
            },
            Fields::RawSequence => {
                assert(data_fields_seq()[10] == Fields::RawSequence);
                assert(covered_by(f, 10));
            },
            Fields::RawQual => {
                assert(data_fields_seq()[11] == Fields::RawQual);
                assert(covered_by(f, 11));
            },
            Fields::RawTags => {
                assert(data_fields_seq()[12] == Fields::RawTags);
                assert(covered_by(f, 12));
            },
            Fields::LName => {
                assert(data_fields_seq()[8] == Fields::ReadName);
                assert(covered_by(f, 8));
            },
            Fields::NCigar => {
                assert(data_fields_seq()[9] == Fields::RawCigar);
                assert(covered_by(f, 9));
            },
            Fields::SequenceLength => {
                assert(data_fields_seq()[11] == Fields::RawQual);
                assert(covered_by(f, 11));
            },
            Fields::RawTagsLen => {
                assert(data_fields_seq()[12] == Fields::RawTags);
                assert(covered_by(f, 12));
            },
            Fields::RawSeqLen => {
                assert(data_fields_seq()[10] == Fields::RawSequence);
                assert(covered_by(f, 10));
            },
    }
}

/// Distinctness of the column fields: primaries and companions never collide.
pub proof fn lemma_fields_distinct()
    ensures
        data_fields_seq().len() == 13,
        forall|a: int, b: int|
            0 <= a < 13 && 0 <= b < 13 && a != b ==> data_fields_seq()[a] != data_fields_seq()[b]
                && #[trigger] data_fields_seq()[a] != spec_companion_index(
                #[trigger] data_fields_seq()[b],
            ),
        forall|a: int, b: int|
            0 <= a < 13 && 0 <= b < 13 && a != b && spec_is_variable(data_fields_seq()[a])
                && spec_is_variable(data_fields_seq()[b]) ==> spec_companion_index(
                #[trigger] data_fields_seq()[a],
            ) != spec_companion_index(#[trigger] data_fields_seq()[b]),
        forall|a: int|
            0 <= a < 13 ==> #[trigger] data_fields_seq()[a] != spec_companion_index(
                data_fields_seq()[a],
            ),
        forall|j: int| 0 <= j < 13 ==> spec_is_data_field(#[trigger] data_fields_seq()[j]),
{
}

/// The companion index field of a column, or its own field if it has none.
pub open spec fn col_index_field(c: Column) -> Fields {
    match c {
        Column::Fixed(fc) => fc.0.field,
        Column::Variable(vc) => vc.index.0.field,
    }
}

/// Whether a column's statistics collectors are installed as asked: on the
/// primary buffer exactly when requested, never on a companion index.
pub open spec fn col_stats_is(c: Column, requested: bool) -> bool {
    match c {
        Column::Fixed(fc) => fc.0.stats_collector is Some <==> requested,
        Column::Variable(vc) => (vc.inner.stats_collector is Some <==> requested)
            && vc.index.0.stats_collector is None,
    }
}

/// A column whose counters have never moved.
pub open spec fn col_zeroed(c: Column) -> bool {
    match c {
        Column::Fixed(fc) => fc.0.rec_count == 0 && fc.0.block_num == 0,
        Column::Variable(vc) => vc.inner.rec_count == 0 && vc.inner.block_num == 0
            && vc.index.0.rec_count == 0 && vc.index.0.block_num == 0,
    }
}

/// A pipeline of nothing but sentinel tasks carries no records and no keys.
pub proof fn lemma_all_empty_tasks(q: Seq<CompressTask>, f: Fields, n: int)
    requires
        forall|j: int| 0 <= j < q.len() ==> (#[trigger] q[j].ordering_key) is Empty,
    ensures
        inflight_items(q, f) == 0,
        inflight_count(q, f) == 0,
        keys_ok(q, f, n),
    decreases q.len(),
{
    if q.len() > 0 {
        assert(forall|j: int| 0 <= j < q.drop_first().len() ==> q.drop_first()[j] == q[j + 1]);
        lemma_all_empty_tasks(q.drop_first(), f, n);
    }
}

fn contains_field(v: &Vec<Fields>, f: Fields) -> (r: bool)
    ensures
        r == v@.contains(f),
{
    let n = v.len();
    let mut i: usize = 0;
    while i < n
        invariant
            i <= n == v@.len(),
            forall|j: int| 0 <= j < i ==> v@[j] != f,
        decreases n - i,
    {
        if v[i] == f {
            assert(v@.contains(f));
            return true;
        }
        i += 1;
    }
    assert(!v@.contains(f));
    false
}


/// One push into this column would have to flush a buffer whose compressed
/// form cannot fit the catalog's 32-bit size field: the one failure of the
/// write path.
pub open spec fn col_flush_err(c: Column, codec: Codecs, rec: Seq<u8>) -> bool {
    match c {
        Column::Fixed(fc) => fc.0.spec_flush_required(
            crate::record::field_slice(rec, fc.0.field).len() as int,
        ) && codec_encode(codec, fc.0.buffer@).len() > u32::MAX,
        Column::Variable(vc) => (vc.index.0.spec_flush_required(4) && codec_encode(
            codec,
            vc.index.0.buffer@,
        ).len() > u32::MAX) || (vc.inner.spec_flush_required(
            crate::record::field_slice(rec, vc.inner.field).len() as int,
        ) && codec_encode(codec, vc.inner.buffer@).len() > u32::MAX),
    }
}

/// Draining this column at close time would have to submit a buffer whose
/// compressed form cannot fit the catalog's 32-bit size field.
pub open spec fn col_drain_err(c: Column, codec: Codecs) -> bool {
    match c {
        Column::Fixed(fc) => fc.0.rec_count > 0 && codec_encode(codec, fc.0.buffer@).len()
            > u32::MAX,
        Column::Variable(vc) => (vc.inner.rec_count > 0 && codec_encode(
            codec,
            vc.inner.buffer@,
        ).len() > u32::MAX) || (vc.index.0.rec_count > 0 && codec_encode(
            codec,
            vc.index.0.buffer@,
        ).len() > u32::MAX),
    }
}

/// One buffer after accepting one value `d`: if the buffer was at capacity
/// it was flushed first, so `d` starts a fresh block, else `d` joins the
/// block in progress.
pub open spec fn inner_stepped(pre: Inner, post: Inner, d: Seq<u8>) -> bool {
    post.recs@ == (if pre.spec_flush_required(d.len() as int) {
        Seq::<Seq<u8>>::empty()
    } else {
        pre.recs@
    }).push(d)
}

/// One column after accepting one record: the record's field slice joined
/// the primary stream, and for a variable column one little-endian index
/// entry holding the payload's end offset within its block joined the
/// companion stream.
pub open spec fn col_stepped(pre: Column, post: Column, rec: Seq<u8>) -> bool {
    match (pre, post) {
        (Column::Fixed(a), Column::Fixed(b)) => inner_stepped(
            a.0,
            b.0,
            crate::record::field_slice(rec, a.0.field),
        ),
        (Column::Variable(a), Column::Variable(b)) => {
            let d = crate::record::field_slice(rec, a.inner.field);
            let end = (if a.inner.spec_flush_required(d.len() as int) {
                0int
            } else {
                a.inner.buffer@.len() as int
            }) + d.len();
            &&& inner_stepped(a.inner, b.inner, d)
            &&& inner_stepped(a.index.0, b.index.0, crate::le_bytes::le4(end))
        },
        _ => false,
    }
}

/// Common promises of one column step: the pipeline stays well formed and
/// every other field's books are untouched.
pub open spec fn step_frame(
    meta0: FileMeta,
    q0: Seq<CompressTask>,
    out0: Seq<u8>,
    meta1: FileMeta,
    q1: Seq<CompressTask>,
    out1: Seq<u8>,
    touched_a: Fields,
    touched_b: Fields,
) -> bool {
    &&& pipeline_ok(meta1, q1, out1)
    &&& q1.len() == q0.len()
    &&& meta1.codec == meta0.codec
    &&& meta1.ref_seqs == meta0.ref_seqs
    &&& forall|f: Fields|
        f != touched_a && f != touched_b ==> sum_items(#[trigger] meta1.spec_blocks_of(f))
            + inflight_items(q1, f) == sum_items(meta0.spec_blocks_of(f)) + inflight_items(q0, f)
    &&& forall|f: Fields|
        f != touched_a && f != touched_b ==> (#[trigger] meta1.spec_blocks_of(f)).len()
            + inflight_count(q1, f) == meta0.spec_blocks_of(f).len() + inflight_count(q0, f)
}

/// Append one record to a fixed column, flushing first if it is full.
#[verifier::rlimit(100)]
fn write_fixed_column(
    out: &mut Vec<u8>,
    file_meta: &mut FileMeta,
    compressor: &mut Compressor,
    fc: &mut FixedColumn,
    rec: &[u8],
    pushed: Ghost<int>,
) -> (r: Result<(), WriteError>)
    requires
        pipeline_ok(*old(file_meta), old(compressor).tasks(), old(out)@),
        pipeline_bounded(*old(file_meta), old(compressor).tasks(), pushed@ + 1),
        0 <= pushed@ && pushed@ + 1 < u32::MAX,
        old(compressor).tasks().len() >= 1,
        rec_ok(rec@),
        old(fc).0.wf(),
        spec_is_data_field(old(fc).0.field),
        !spec_is_variable(old(fc).0.field),
        inner_acct(*old(file_meta), old(compressor).tasks(), old(fc).0, pushed@),
    ensures
        r is Ok ==> step_frame(
            *old(file_meta),
            old(compressor).tasks(),
            old(out)@,
            *final(file_meta),
            final(compressor).tasks(),
            final(out)@,
            old(fc).0.field,
            old(fc).0.field,
        ),
        r is Ok ==> pipeline_bounded(
            *final(file_meta),
            final(compressor).tasks(),
            pushed@ + 1,
        ),
        r is Ok ==> final(fc).0.wf() && final(fc).0.field == old(fc).0.field,
        r is Ok ==> inner_acct(
            *final(file_meta),
            final(compressor).tasks(),
            final(fc).0,
            pushed@ + 1,
        ),
        r is Err <==> col_flush_err(
            Column::Fixed(*old(fc)),
            old(file_meta).codec,
            rec@,
        ),
        r is Ok ==> col_stepped(Column::Fixed(*old(fc)), Column::Fixed(*final(fc)), rec@),
{
    let ghost fld = fc.0.field;
    proof {
        lemma_sum_nonneg(file_meta.spec_blocks_of(fld));
        lemma_inflight_ge_count(compressor.tasks(), fld);
    }
    let s = fc.write_record_field(rec);
    match s {
        WriteStatus::Written => {
            return Ok(());
        },
        WriteStatus::FullPrimary => {},
        WriteStatus::FullIndex => {
            proof {
                assert(false);
            }
        },
    }
    proof {
        assert(fc.0.recs@.len() > 0);
    }
    let res = flush_field_buffer(out, file_meta, compressor, &mut fc.0, Ghost(pushed@ + 1));
    match res {
        Ok(_) => {},
        Err(e) => {
            return Err(e);
        },
    }
    proof {
        assert(inner_acct(*file_meta, compressor.tasks(), fc.0, pushed@));
        assert forall|f: Fields|
            sum_items(#[trigger] file_meta.spec_blocks_of(f)) + inflight_items(
                compressor.tasks(),
                f,
            ) <= pushed@ + 1 by {
            if f == fld {
            } else {
                assert(sum_items(old(file_meta).spec_blocks_of(f)) + inflight_items(
                    old(compressor).tasks(),
                    f,
                ) <= pushed@ + 1);
            }
        }
    }
    let s2 = fc.write_record_field(rec);
    match s2 {
        WriteStatus::Written => {},
        _ => {
            proof {
                assert(false);
            }
        },
    }
    Ok(())
}

/// Append one record and its index entry to a variable column, flushing
/// whichever of its two buffers is full first.
#[verifier::rlimit(100)]
fn write_variable_column(
    out: &mut Vec<u8>,
    file_meta: &mut FileMeta,
    compressor: &mut Compressor,
    vc: &mut VariableColumn,
    rec: &[u8],
    pushed: Ghost<int>,
) -> (r: Result<(), WriteError>)
    requires
        pipeline_ok(*old(file_meta), old(compressor).tasks(), old(out)@),
        pipeline_bounded(*old(file_meta), old(compressor).tasks(), pushed@ + 1),
        0 <= pushed@ && pushed@ + 1 < u32::MAX,
        old(compressor).tasks().len() >= 1,
        rec_ok(rec@),
        rec@.len() + SIZE_LIMIT <= u32::MAX,
        old(vc).wf(),
        inner_acct(*old(file_meta), old(compressor).tasks(), old(vc).inner, pushed@),
        inner_acct(*old(file_meta), old(compressor).tasks(), old(vc).index.0, pushed@),
    ensures
        r is Ok ==> step_frame(
            *old(file_meta),
            old(compressor).tasks(),
            old(out)@,
            *final(file_meta),
            final(compressor).tasks(),
            final(out)@,
            old(vc).inner.field,
            old(vc).index.0.field,
        ),
        r is Ok ==> pipeline_bounded(
            *final(file_meta),
            final(compressor).tasks(),
            pushed@ + 1,
        ),
        r is Ok ==> final(vc).wf() && final(vc).inner.field == old(vc).inner.field
            && final(vc).index.0.field == old(vc).index.0.field,
        r is Ok ==> inner_acct(
            *final(file_meta),
            final(compressor).tasks(),
            final(vc).inner,
            pushed@ + 1,
        ),
        r is Ok ==> inner_acct(
            *final(file_meta),
            final(compressor).tasks(),
            final(vc).index.0,
            pushed@ + 1,
        ),
        r is Err <==> col_flush_err(
            Column::Variable(*old(vc)),
            old(file_meta).codec,
            rec@,
        ),
        r is Ok ==> col_stepped(Column::Variable(*old(vc)), Column::Variable(*final(vc)), rec@),
{
    let ghost pf = vc.inner.field;
    let ghost xf = vc.index.0.field;
    proof {
        lemma_sum_nonneg(file_meta.spec_blocks_of(pf));
        lemma_inflight_ge_count(compressor.tasks(), pf);
        lemma_sum_nonneg(file_meta.spec_blocks_of(xf));
        lemma_inflight_ge_count(compressor.tasks(), xf);
    }
    let data = crate::record::get_bytes(rec, &vc.inner.field);
    let probe: [u8; 4] = [0, 0, 0, 0];
    if vc.index.0.flush_required(probe.as_slice()) {
        proof {
            assert(vc.index.0.recs@.len() > 0);
        }
        let res = flush_field_buffer(
            out,
            file_meta,
            compressor,
            &mut vc.index.0,
            Ghost(pushed@ + 1),
        );
        match res {
            Ok(_) => {},
            Err(e) => {
                return Err(e);
            },
        }
    }
    if vc.inner.flush_required(data.as_slice()) {
        proof {
            assert(vc.inner.recs@.len() > 0);
            lemma_sum_nonneg(file_meta.spec_blocks_of(pf));
            lemma_inflight_ge_count(compressor.tasks(), pf);
        }
        let res = flush_field_buffer(out, file_meta, compressor, &mut vc.inner, Ghost(pushed@ + 1));
        match res {
            Ok(_) => {},
            Err(e) => {
                return Err(e);
            },
        }
    }
    let s = vc.write_record_field(rec);
    match s {
        WriteStatus::Written => {},
        _ => {
            proof {
                assert(false);
            }
        },
    }
    proof {
        assert forall|f: Fields|
            sum_items(#[trigger] file_meta.spec_blocks_of(f)) + inflight_items(
                compressor.tasks(),
                f,
            ) <= pushed@ + 1 by {
            if f == pf || f == xf {
            } else {
                assert(sum_items(old(file_meta).spec_blocks_of(f)) + inflight_items(
                    old(compressor).tasks(),
                    f,
                ) <= pushed@ + 1);
            }
        }
    }
    Ok(())
}

/// Flush whatever records still sit in one buffer at close time.
#[verifier::rlimit(100)]
fn drain_inner(
    out: &mut Vec<u8>,
    file_meta: &mut FileMeta,
    compressor: &mut Compressor,
    inner: &mut Inner,
    pushed: Ghost<int>,
) -> (r: Result<(), WriteError>)
    requires
        pipeline_ok(*old(file_meta), old(compressor).tasks(), old(out)@),
        pipeline_bounded(*old(file_meta), old(compressor).tasks(), pushed@),
        0 <= pushed@ < u32::MAX,
        old(compressor).tasks().len() >= 1,
        old(inner).wf(),
        inner_acct(*old(file_meta), old(compressor).tasks(), *old(inner), pushed@),
    ensures
        r is Ok ==> step_frame(
            *old(file_meta),
            old(compressor).tasks(),
            old(out)@,
            *final(file_meta),
            final(compressor).tasks(),
            final(out)@,
            old(inner).field,
            old(inner).field,
        ),
        r is Ok ==> pipeline_bounded(*final(file_meta), final(compressor).tasks(), pushed@),
        r is Ok ==> final(inner).wf() && final(inner).field == old(inner).field,
        r is Ok ==> final(inner).rec_count == 0,
        r is Ok ==> inner_acct(
            *final(file_meta),
            final(compressor).tasks(),
            *final(inner),
            pushed@,
        ),
        r is Err <==> (old(inner).rec_count > 0 && codec_encode(
            old(file_meta).codec,
            old(inner).buffer@,
        ).len() > u32::MAX),
        old(inner).rec_count == 0 ==> final(out)@ == old(out)@ && *final(file_meta) == *old(
            file_meta,
        ) && final(compressor).tasks() == old(compressor).tasks() && *final(inner) == *old(inner),
{
    if inner.rec_count == 0 {
        return Ok(());
    }
    let ghost fld = inner.field;
    let res = flush_field_buffer(out, file_meta, compressor, inner, Ghost(pushed@));
    match res {
        Ok(_) => {},
        Err(e) => {
            return Err(e);
        },
    }
    proof {
        assert(inner_acct(*file_meta, compressor.tasks(), *inner, pushed@));
        assert forall|f: Fields|
            sum_items(#[trigger] file_meta.spec_blocks_of(f)) + inflight_items(
                compressor.tasks(),
                f,
            ) <= pushed@ by {
            if f == fld {
            } else {
                assert(sum_items(old(file_meta).spec_blocks_of(f)) + inflight_items(
                    old(compressor).tasks(),
                    f,
                ) <= pushed@);
            }
        }
    }
    Ok(())
}

/// The columnar writer: splits raw records into per-field column buffers,
/// drives full buffers through the compression stage, sinks completed blocks
/// into an in-memory file image, and closes the file with the JSON catalog
/// and the patched fixed header. `finish` must be called exactly once; the
/// writer must not be used after an error.
pub struct Writer {
    pub file_meta: FileMeta,
    pub columns: Vec<Column>,
    pub compressor: Compressor,
    pub out: Vec<u8>,
    pub records_pushed: u64,
    pub thread_num: usize,
}

impl Writer {
    pub open spec fn wf(self) -> bool {
        &&& pipeline_ok(self.file_meta, self.compressor.tasks(), self.out@)
        &&& pipeline_bounded(self.file_meta, self.compressor.tasks(), self.records_pushed as int)
        &&& self.columns@.len() == data_fields_seq().len()
        &&& forall|i: int|
            0 <= i < self.columns@.len() ==> (#[trigger] self.columns@[i]).wf()
                && self.columns@[i].spec_field() == data_fields_seq()[i]
        &&& forall|i: int|
            0 <= i < self.columns@.len() ==> col_acct(
                self.file_meta,
                self.compressor.tasks(),
                #[trigger] self.columns@[i],
                self.records_pushed as int,
            )
        &&& self.compressor.tasks().len() == self.thread_num
        &&& self.thread_num >= 1
    }

    /// Build a writer. The first codec is honored for the whole file; the
    /// fields named in `stats_fields` collect per-block minimum and maximum
    /// under the lexicographic byte order.
    #[verifier::rlimit(100)]
    pub fn new(
        codecs: Vec<Codecs>,
        thread_num: usize,
        stats_fields: Vec<Fields>,
        ref_seqs: Vec<RefSeq>,
    ) -> (r: Self)
        requires
            codecs@.len() >= 1,
            thread_num >= 1,
        ensures
            r.wf(),
            r.records_pushed == 0,
            r.file_meta.codec == codecs@[0],
            r.file_meta.ref_seqs == ref_seqs,
            r.thread_num == thread_num,
            r.out@.len() == FILE_INFO_SIZE,
            forall|f: Fields| (#[trigger] r.file_meta.spec_blocks_of(f)).len() == 0,
            forall|j: int|
                0 <= j < data_fields_seq().len() ==> col_stats_is(
                    #[trigger] r.columns@[j],
                    stats_fields@.contains(data_fields_seq()[j]),
                ),
    {
        let file_meta = FileMeta::new(codecs[0], ref_seqs);
        let compressor = Compressor::new(thread_num);
        let mut out: Vec<u8> = Vec::new();
        let mut k: usize = 0;
        while k < FILE_INFO_SIZE
            invariant
                k == out@.len() <= FILE_INFO_SIZE,
            decreases FILE_INFO_SIZE - k,
        {
            out.push(0);
            k += 1;
        }
        let dfs = data_fields();
        let mut columns: Vec<Column> = Vec::new();
        let mut i: usize = 0;
        proof {
            lemma_fields_distinct();
        }
        while i < 13
            invariant
                dfs@ == data_fields_seq(),
                data_fields_seq().len() == 13,
                i == columns@.len() <= 13,
                forall|j: int|
                    0 <= j < i ==> (#[trigger] columns@[j]).wf() && columns@[j].spec_field()
                        == data_fields_seq()[j] && col_zeroed(columns@[j]) && col_stats_is(
                        columns@[j],
                        stats_fields@.contains(data_fields_seq()[j]),
                    ),
            decreases 13 - i,
        {
            proof {
                lemma_fields_distinct();
            }
            let f = dfs[i];
            let with_stats = contains_field(&stats_fields, f);
            let col = match field_type(&f) {
                FieldType::FixedSized => Column::Fixed(FixedColumn::new(f, with_stats)),
                FieldType::VariableSized => Column::Variable(VariableColumn::new(f, with_stats)),
            };
            columns.push(col);
            i += 1;
        }
        let r = Writer { file_meta, columns, compressor, out, records_pushed: 0, thread_num };
        proof {
            assert forall|f: Fields|
                inflight_items(r.compressor.tasks(), f) == 0 && inflight_count(
                    r.compressor.tasks(),
                    f,
                ) == 0 && keys_ok(
                r.compressor.tasks(),
                f,
                r.file_meta.spec_blocks_of(f).len() as int,
            ) by {
                lemma_all_empty_tasks(
                    r.compressor.tasks(),
                    f,
                    r.file_meta.spec_blocks_of(f).len() as int,
                );
            }
            assert forall|f: Fields| sum_items(#[trigger] r.file_meta.spec_blocks_of(f)) == 0 by {
                assert(r.file_meta.spec_blocks_of(f).len() == 0);
            }
            assert(tasks_positive(r.compressor.tasks()));
            assert forall|f: Fields|
                catalog_ordered(
                    #[trigger] r.file_meta.spec_blocks_of(f),
                    r.out@.len() as int,
                ) && blocks_positive(r.file_meta.spec_blocks_of(f)) by {
                assert(r.file_meta.spec_blocks_of(f).len() == 0);
            }
            assert forall|ii: int|
                0 <= ii < 13 implies col_acct(
                r.file_meta,
                r.compressor.tasks(),
                #[trigger] r.columns@[ii],
                0,
            ) by {
                assert(r.columns@[ii].wf() && col_zeroed(r.columns@[ii]));
            }
            assert(tasks_wf(r.compressor.tasks(), r.file_meta.codec));
            assert forall|f: Fields|
                keys_ok(
                    r.compressor.tasks(),
                    f,
                    #[trigger] r.file_meta.spec_blocks_of(f).len() as int,
                ) by {
                lemma_all_empty_tasks(
                    r.compressor.tasks(),
                    f,
                    r.file_meta.spec_blocks_of(f).len() as int,
                );
            }
            assert(catalog_content(r.file_meta, r.out@)) by {
                assert forall|f: Fields, i: int|
                    0 <= i < r.file_meta.spec_blocks_of(f).len() implies {
                    let m = #[trigger] r.file_meta.spec_blocks_of(f)[i];
                    &&& r.out@.subrange(m.seekpos as int, m.seekpos + m.block_size)
                        == codec_encode(r.file_meta.codec, m.recs@.flatten())
                    &&& m.numitems == m.recs@.len()
                } by {
                    assert(r.file_meta.spec_blocks_of(f).len() == 0);
                }
            }
            assert(pipeline_ok(r.file_meta, r.compressor.tasks(), r.out@));
            assert(r.wf());
        }
        r
    }

    /// Build a writer that collects no statistics.
    pub fn new_no_stats(codecs: Vec<Codecs>, thread_num: usize, ref_seqs: Vec<RefSeq>) -> (r: Self)
        requires
            codecs@.len() >= 1,
            thread_num >= 1,
        ensures
            r.wf(),
            r.records_pushed == 0,
            r.file_meta.codec == codecs@[0],
            r.file_meta.ref_seqs == ref_seqs,
            r.thread_num == thread_num,
            r.out@.len() == FILE_INFO_SIZE,
            forall|f: Fields| (#[trigger] r.file_meta.spec_blocks_of(f)).len() == 0,
            forall|j: int|
                0 <= j < data_fields_seq().len() ==> col_stats_is(#[trigger] r.columns@[j], false),
    {
        Writer::new(codecs, thread_num, Vec::new(), ref_seqs)
    }

    /// Split one raw record across every column, flushing any buffer that is
    /// at capacity first. On success exactly one record has been appended to
    /// every data column and every companion index.
    #[verifier::rlimit(100)]
    pub fn push_record(&mut self, rec: &[u8]) -> (r: Result<(), WriteError>)
        requires
            old(self).wf(),
            rec_ok(rec@),
            old(self).records_pushed + 1 < u32::MAX,
            rec@.len() + SIZE_LIMIT <= u32::MAX,
        ensures
            r is Ok ==> final(self).wf(),
            r is Ok ==> final(self).records_pushed == old(self).records_pushed + 1,
            r is Ok ==> final(self).file_meta.codec == old(self).file_meta.codec
                && final(self).file_meta.ref_seqs == old(self).file_meta.ref_seqs
                && final(self).thread_num == old(self).thread_num,
            r is Err <==> exists|j: int|
                0 <= j < data_fields_seq().len() && col_flush_err(
                    #[trigger] old(self).columns@[j],
                    old(self).file_meta.codec,
                    rec@,
                ),
            r is Ok ==> forall|j: int|
                0 <= j < data_fields_seq().len() ==> col_stepped(
                    old(self).columns@[j],
                    #[trigger] final(self).columns@[j],
                    rec@,
                ),
    {
        let ghost pushed = self.records_pushed as int;
        let ghost cols0 = self.columns@;
        proof {
            lemma_fields_distinct();
        }
        let mut i: usize = 0;
        while i < 13
            invariant
                rec_ok(rec@),
                rec@.len() + SIZE_LIMIT <= u32::MAX,
                0 <= pushed == self.records_pushed,
                pushed + 1 < u32::MAX,
                i <= 13,
                self.columns@.len() == 13,
                data_fields_seq().len() == 13,
                pipeline_ok(self.file_meta, self.compressor.tasks(), self.out@),
                pipeline_bounded(self.file_meta, self.compressor.tasks(), pushed + 1),
                self.compressor.tasks().len() == self.thread_num,
                self.thread_num >= 1,
                self.records_pushed == old(self).records_pushed,
                self.thread_num == old(self).thread_num,
                self.file_meta.codec == old(self).file_meta.codec,
                self.file_meta.ref_seqs == old(self).file_meta.ref_seqs,
                forall|j: int|
                    0 <= j < 13 ==> (#[trigger] self.columns@[j]).wf()
                        && self.columns@[j].spec_field() == data_fields_seq()[j],
                forall|j: int|
                    0 <= j < i ==> col_acct(
                        self.file_meta,
                        self.compressor.tasks(),
                        #[trigger] self.columns@[j],
                        pushed + 1,
                    ),
                forall|j: int|
                    i <= j < 13 ==> col_acct(
                        self.file_meta,
                        self.compressor.tasks(),
                        #[trigger] self.columns@[j],
                        pushed,
                    ),
                cols0 == old(self).columns@,
                forall|j: int| i <= j < 13 ==> #[trigger] self.columns@[j] == cols0[j],
                forall|j: int|
                    0 <= j < i ==> !col_flush_err(
                        #[trigger] cols0[j],
                        old(self).file_meta.codec,
                        rec@,
                    ),
                forall|j: int|
                    0 <= j < i ==> col_stepped(cols0[j], #[trigger] self.columns@[j], rec@),
            decreases 13 - i,
        {
            proof {
                lemma_fields_distinct();
            }
            let ghost meta0 = self.file_meta;
            let ghost q0 = self.compressor.tasks();
            let col = self.columns.remove(i);
            let ghost ta = col.spec_field();
            let ghost tb = col_index_field(col);
            let col = match col {
                Column::Fixed(mut fc) => {
                    let res = write_fixed_column(
                        &mut self.out,
                        &mut self.file_meta,
                        &mut self.compressor,
                        &mut fc,
                        rec,
                        Ghost(pushed),
                    );
                    match res {
                        Ok(_) => {},
                        Err(e) => {
                            proof {
                                assert(col_flush_err(
                                    cols0[i as int],
                                    old(self).file_meta.codec,
                                    rec@,
                                ));
                            }
                            return Err(e);
                        },
                    }
                    Column::Fixed(fc)
                },
                Column::Variable(mut vc) => {
                    let res = write_variable_column(
                        &mut self.out,
                        &mut self.file_meta,
                        &mut self.compressor,
                        &mut vc,
                        rec,
                        Ghost(pushed),
                    );
                    match res {
                        Ok(_) => {},
                        Err(e) => {
                            proof {
                                assert(col_flush_err(
                                    cols0[i as int],
                                    old(self).file_meta.codec,
                                    rec@,
                                ));
                            }
                            return Err(e);
                        },
                    }
                    Column::Variable(vc)
                },
            };
            self.columns.insert(i, col);
            proof {
                assert(step_frame(
                    meta0,
                    q0,
                    old(self).out@,
                    self.file_meta,
                    self.compressor.tasks(),
                    self.out@,
                    ta,
                    tb,
                ));
            }
            i += 1;
        }
        self.records_pushed = self.records_pushed + 1;
        proof {
            assert(forall|j: int|
                0 <= j < data_fields_seq().len() ==> !col_flush_err(
                    #[trigger] old(self).columns@[j],
                    old(self).file_meta.codec,
                    rec@,
                ));
        }
        Ok(())
    }

    /// Close the writer: flush every non-empty buffer, drain the pipeline,
    /// write the JSON catalog, and patch the fixed header. Returns the file
    /// image and the total byte count. On success the catalog accounts for
    /// every pushed record in every field, its blocks lie in order inside
    /// the body, and the header carries the catalog offset and its CRC-32.
    #[verifier::rlimit(100)]
    pub fn finish(&mut self) -> (r: Result<(Vec<u8>, u64), WriteError>)
        requires
            old(self).wf(),
            old(self).records_pushed < u32::MAX,
        ensures
            r matches Ok(p) ==> ({
                let m = final(self).file_meta;
                let json = catalog_json(m);
                let cat_off = p.0@.len() - json.len();
                &&& p.1 == p.0@.len()
                &&& m.wf()
                &&& FILE_INFO_SIZE <= cat_off < p.0@.len()
                &&& p.0@.subrange(cat_off as int, p.0@.len() as int) == json
                &&& p.0@.subrange(0, FILE_INFO_SIZE as int) == file_info_seq(
                    seq![1u8, 0u8],
                    cat_off as int,
                    crc32_of(json) as int,
                )
                &&& forall|f: Fields|
                    sum_items(#[trigger] m.spec_blocks_of(f)) == old(self).records_pushed
                &&& forall|f: Fields| catalog_ordered(#[trigger] m.spec_blocks_of(f), cat_off as int)
                &&& forall|f: Fields| blocks_positive(#[trigger] m.spec_blocks_of(f))
                &&& forall|f: Fields, i: int|
                    0 <= i < m.spec_blocks_of(f).len() ==> {
                        let b = #[trigger] m.spec_blocks_of(f)[i];
                        &&& p.0@.subrange(b.seekpos as int, b.seekpos + b.block_size)
                            == codec_encode(m.codec, b.recs@.flatten())
                        &&& b.numitems == b.recs@.len()
                    }
                &&& m.codec == old(self).file_meta.codec
                &&& m.ref_seqs == old(self).file_meta.ref_seqs
                &&& (old(self).records_pushed == 0 && old(self).out@.len() == FILE_INFO_SIZE
                    ==> cat_off == FILE_INFO_SIZE)
            }),
            r is Err <==> exists|j: int|
                0 <= j < data_fields_seq().len() && col_drain_err(
                    #[trigger] old(self).columns@[j],
                    old(self).file_meta.codec,
                ),
    {
        let ghost pushed = self.records_pushed as int;
        let ghost cols0 = self.columns@;
        proof {
            lemma_fields_distinct();
        }
        let mut i: usize = 0;
        while i < 13
            invariant
                0 <= pushed == self.records_pushed < u32::MAX,
                i <= 13,
                self.columns@.len() == 13,
                data_fields_seq().len() == 13,
                pipeline_ok(self.file_meta, self.compressor.tasks(), self.out@),
                pipeline_bounded(self.file_meta, self.compressor.tasks(), pushed),
                self.compressor.tasks().len() == self.thread_num,
                self.thread_num >= 1,
                self.records_pushed == old(self).records_pushed,
                self.file_meta.codec == old(self).file_meta.codec,
                self.file_meta.ref_seqs == old(self).file_meta.ref_seqs,
                forall|j: int|
                    0 <= j < 13 ==> (#[trigger] self.columns@[j]).wf()
                        && self.columns@[j].spec_field() == data_fields_seq()[j],
                forall|j: int|
                    0 <= j < 13 ==> col_acct(
                        self.file_meta,
                        self.compressor.tasks(),
                        #[trigger] self.columns@[j],
                        pushed,
                    ),
                forall|j: int| 0 <= j < i ==> col_drained(#[trigger] self.columns@[j]),
                cols0 == old(self).columns@,
                forall|j: int| i <= j < 13 ==> #[trigger] self.columns@[j] == cols0[j],
                forall|j: int|
                    0 <= j < i ==> !col_drain_err(#[trigger] cols0[j], old(self).file_meta.codec),
                pushed == 0 ==> self.out@ == old(self).out@ && self.compressor.tasks() == old(
                    self,
                ).compressor.tasks(),
            decreases 13 - i,
        {
            proof {
                lemma_fields_distinct();
            }
            let col = self.columns.remove(i);
            proof {
                if pushed == 0 {
                    // an empty stream leaves every counter at zero
                    lemma_sum_nonneg(self.file_meta.spec_blocks_of(col.spec_field()));
                    lemma_inflight_ge_count(self.compressor.tasks(), col.spec_field());
                    lemma_sum_nonneg(self.file_meta.spec_blocks_of(col_index_field(col)));
                    lemma_inflight_ge_count(self.compressor.tasks(), col_index_field(col));
                }
            }
            let col = match col {
                Column::Fixed(mut fc) => {
                    let res = drain_inner(
                        &mut self.out,
                        &mut self.file_meta,
                        &mut self.compressor,
                        &mut fc.0,
                        Ghost(pushed),
                    );
                    match res {
                        Ok(_) => {},
                        Err(e) => {
                            proof {
                                assert(col_drain_err(cols0[i as int], old(self).file_meta.codec));
                            }
                            return Err(e);
                        },
                    }
                    Column::Fixed(fc)
                },
                Column::Variable(mut vc) => {
                    let res = drain_inner(
                        &mut self.out,
                        &mut self.file_meta,
                        &mut self.compressor,
                        &mut vc.inner,
                        Ghost(pushed),
                    );
                    match res {
                        Ok(_) => {},
                        Err(e) => {
                            proof {
                                assert(col_drain_err(cols0[i as int], old(self).file_meta.codec));
                            }
                            return Err(e);
                        },
                    }
                    let res2 = drain_inner(
                        &mut self.out,
                        &mut self.file_meta,
                        &mut self.compressor,
                        &mut vc.index.0,
                        Ghost(pushed),
                    );
                    match res2 {
                        Ok(_) => {},
                        Err(e) => {
                            proof {
                                assert(col_drain_err(cols0[i as int], old(self).file_meta.codec));
                            }
                            return Err(e);
                        },
                    }
                    Column::Variable(vc)
                },
            };
            self.columns.insert(i, col);
            i += 1;
        }
        proof {
            // Every field's records now sit in the catalog or the pipeline.
            assert forall|f: Fields|
                sum_items(#[trigger] self.file_meta.spec_blocks_of(f)) + inflight_items(
                    self.compressor.tasks(),
                    f,
                ) == pushed by {
                lemma_field_covered(f);
                let j = choose|j: int| covered_by(f, j);
                assert(col_drained(self.columns@[j]));
                assert(col_acct(self.file_meta, self.compressor.tasks(), self.columns@[j], pushed));
            }
        }
        let drained = self.compressor.finish();
        let dn = drained.len();
        let ghost dq = drained@;
        proof {
            assert(dq.subrange(0, dn as int) =~= dq);
            if pushed == 0 {
                assert forall|f: Fields| inflight_items(dq, f) == 0 by {
                    lemma_sum_nonneg(self.file_meta.spec_blocks_of(f));
                    lemma_inflight_ge_count(dq, f);
                }
                lemma_no_keys(dq);
            }
        }
        let mut j: usize = 0;
        while j < dn
            invariant
                0 <= pushed,
                j <= dn == dq.len(),
                drained@ == dq,
                self.file_meta.wf(),
                self.out@.len() >= FILE_INFO_SIZE,
                tasks_positive(dq.subrange(j as int, dn as int)),
                self.records_pushed == old(self).records_pushed == pushed,
                self.file_meta.codec == old(self).file_meta.codec,
                self.file_meta.ref_seqs == old(self).file_meta.ref_seqs,
                forall|f: Fields|
                    keys_ok(
                        dq.subrange(j as int, dn as int),
                        f,
                        #[trigger] self.file_meta.spec_blocks_of(f).len() as int,
                    ),
                forall|f: Fields|
                    catalog_ordered(
                        #[trigger] self.file_meta.spec_blocks_of(f),
                        self.out@.len() as int,
                    ),
                forall|f: Fields| blocks_positive(#[trigger] self.file_meta.spec_blocks_of(f)),
                forall|f: Fields|
                    sum_items(#[trigger] self.file_meta.spec_blocks_of(f)) + inflight_items(
                        dq.subrange(j as int, dn as int),
                        f,
                    ) == pushed,
                tasks_wf(dq.subrange(j as int, dn as int), self.file_meta.codec),
                catalog_content(self.file_meta, self.out@),
                pushed == 0 ==> self.out@ == old(self).out@ && forall|k: int|
                    0 <= k < dq.len() ==> !((#[trigger] dq[k].ordering_key) is Key),
            decreases dn - j,
        {
            let ghost rem = dq.subrange(j as int, dn as int);
            let ghost rem2 = dq.subrange(j + 1 as int, dn as int);
            proof {
                assert(rem.len() > 0);
                assert(rem[0] == dq[j as int]);
                assert(rem.drop_first() =~= rem2);
                assert(forall|k: int| 0 <= k < rem2.len() ==> rem2[k] == rem[k + 1]);
                assert(tasks_wf(rem2, self.file_meta.codec));
            }
            let task = &drained[j];
            match task.ordering_key {
                OrderingKey::Key(key) => {
                    let ghost g = task.block_info.field;
                    let ghost meta0 = self.file_meta;
                    proof {
                        if pushed == 0 {
                            assert(false);
                        }
                        assert(keys_ok(rem, g, self.file_meta.spec_blocks_of(g).len() as int));
                    }
                    let ghost out0 = self.out@;
                    let res = write_data_and_update_meta(
                        &mut self.out,
                        &mut self.file_meta,
                        key,
                        task,
                    );
                    match res {
                        Ok(_) => {},
                        Err(e) => {
                            proof {
                                assert(false);
                            }
                            return Err(e);
                        },
                    }
                    proof {
                        lemma_sum_push(
                            meta0.spec_blocks_of(g),
                            self.file_meta.spec_blocks_of(g).last(),
                        );
                        assert forall|f: Fields, bi: int|
                            0 <= bi < self.file_meta.spec_blocks_of(f).len() implies {
                            let m = #[trigger] self.file_meta.spec_blocks_of(f)[bi];
                            &&& self.out@.subrange(m.seekpos as int, m.seekpos + m.block_size)
                                == codec_encode(self.file_meta.codec, m.recs@.flatten())
                            &&& m.numitems == m.recs@.len()
                        } by {
                            let m = self.file_meta.spec_blocks_of(f)[bi];
                            if f == g && bi == self.file_meta.spec_blocks_of(g).len() - 1 {
                                assert(self.out@.subrange(
                                    m.seekpos as int,
                                    m.seekpos + m.block_size,
                                ) =~= task.buf@);
                            } else {
                                assert(m == meta0.spec_blocks_of(f)[bi]);
                                lemma_block_within(meta0.spec_blocks_of(f), out0.len() as int, bi);
                                assert(self.out@.subrange(
                                    m.seekpos as int,
                                    m.seekpos + m.block_size,
                                ) =~= out0.subrange(m.seekpos as int, m.seekpos + m.block_size));
                            }
                        }
                        assert forall|f: Fields|
                            keys_ok(
                                rem2,
                                f,
                                #[trigger] self.file_meta.spec_blocks_of(f).len() as int,
                            ) by {
                            if f == g {
                            } else {
                                assert(keys_ok(rem, f, meta0.spec_blocks_of(f).len() as int));
                            }
                        }
                        assert forall|f: Fields|
                            sum_items(#[trigger] self.file_meta.spec_blocks_of(f))
                                + inflight_items(rem2, f) == pushed by {
                            assert(inflight_items(rem, f) == task_items(rem[0], f)
                                + inflight_items(rem2, f));
                        }
                    }
                },
                OrderingKey::Empty => {
                    proof {
                        assert forall|f: Fields|
                            keys_ok(
                                rem2,
                                f,
                                #[trigger] self.file_meta.spec_blocks_of(f).len() as int,
                            ) by {
                            assert(keys_ok(rem, f, self.file_meta.spec_blocks_of(f).len() as int));
                        }
                        assert forall|f: Fields|
                            sum_items(#[trigger] self.file_meta.spec_blocks_of(f))
                                + inflight_items(rem2, f) == pushed by {
                            assert(inflight_items(rem, f) == task_items(rem[0], f)
                                + inflight_items(rem2, f));
                        }
                    }
                },
            }
            j += 1;
        }
        proof {
            assert(dq.subrange(dn as int, dn as int) =~= Seq::<CompressTask>::empty());
            assert forall|f: Fields|
                sum_items(#[trigger] self.file_meta.spec_blocks_of(f)) == pushed by {
                assert(inflight_items(dq.subrange(dn as int, dn as int), f) == 0);
            }
        }
        let sealed = seal_file(&mut self.out, &self.file_meta);
        Ok(sealed)
    }
}

/// Close the body: append the JSON catalog, then patch the reserved header
/// with the catalog offset and its CRC-32, and hand the finished image out.
#[verifier::rlimit(100)]
fn seal_file(out: &mut Vec<u8>, file_meta: &FileMeta) -> (r: (Vec<u8>, u64))
    requires
        file_meta.wf(),
        old(out)@.len() >= FILE_INFO_SIZE,
        catalog_content(*file_meta, old(out)@),
        forall|f: Fields|
            catalog_ordered(#[trigger] file_meta.spec_blocks_of(f), old(out)@.len() as int),
    ensures
        ({
            let m = *file_meta;
            let json = catalog_json(m);
            let cat_off = old(out)@.len();
            &&& r.1 == r.0@.len()
            &&& r.0@.len() == cat_off + json.len()
            &&& r.0@.subrange(cat_off as int, r.0@.len() as int) == json
            &&& r.0@.subrange(0, FILE_INFO_SIZE as int) == file_info_seq(
                seq![1u8, 0u8],
                cat_off as int,
                crc32_of(json) as int,
            )
            &&& forall|f: Fields, i: int|
                0 <= i < m.spec_blocks_of(f).len() ==> {
                    let b = #[trigger] m.spec_blocks_of(f)[i];
                    &&& r.0@.subrange(b.seekpos as int, b.seekpos + b.block_size)
                        == codec_encode(m.codec, b.recs@.flatten())
                    &&& b.numitems == b.recs@.len()
                }
        }),
{
    let ghost out0 = out@;
    let cat_off_usize = out.len();
    let json = catalog_json_bytes(file_meta);
    let crc = calc_crc_for_meta_bytes(json.as_slice());
    out.extend_from_slice(json.as_slice());
    let total = out.len() as u64;
    let fi = FileInfo::new([1, 0], cat_off_usize as u64, crc);
    let header = fi.to_bytes();
    let ghost body_all = out@;
    let mut tail = out.split_off(FILE_INFO_SIZE);
    *out = header;
    out.append(&mut tail);
    let mut bytes: Vec<u8> = Vec::new();
    core::mem::swap(&mut bytes, out);
    proof {
        let m = *file_meta;
        let jn = catalog_json(m);
        assert(bytes@.len() == body_all.len());
        assert(bytes@.subrange(cat_off_usize as int, bytes@.len() as int) =~= jn);
        assert(bytes@.subrange(0, FILE_INFO_SIZE as int) =~= file_info_seq(
            seq![1u8, 0u8],
            cat_off_usize as int,
            crc32_of(jn) as int,
        ));
        // Every cataloged block's bytes survive the catalog append and the
        // header patch: their ranges lie inside the untouched middle.
        assert forall|f: Fields, i: int|
            0 <= i < m.spec_blocks_of(f).len() implies {
            let b = #[trigger] m.spec_blocks_of(f)[i];
            &&& bytes@.subrange(b.seekpos as int, b.seekpos + b.block_size) == codec_encode(
                m.codec,
                b.recs@.flatten(),
            )
            &&& b.numitems == b.recs@.len()
        } by {
            let b = m.spec_blocks_of(f)[i];
            lemma_block_within(m.spec_blocks_of(f), out0.len() as int, i);
            assert(bytes@.subrange(b.seekpos as int, b.seekpos + b.block_size) =~= out0.subrange(
                b.seekpos as int,
                b.seekpos + b.block_size,
            ));
        }
    }
    (bytes, total)
}

/// Every buffer of the column is empty: its records are all in the catalog
/// or the pipeline.
pub open spec fn col_drained(c: Column) -> bool {
    match c {
        Column::Fixed(fc) => fc.0.rec_count == 0,
        Column::Variable(vc) => vc.inner.rec_count == 0 && vc.index.0.rec_count == 0,
    }
}


} // verus!
