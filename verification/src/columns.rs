use vstd::prelude::*;

use crate::fields::{
    spec_companion_index, spec_field_type, spec_is_data_field, spec_is_variable, FieldType, Fields,
};
use crate::le_bytes::le4;
use crate::record::{field_slice, rec_ok};
use crate::stats::{max_after, min_after, StatsCollector};
use crate::SIZE_LIMIT;

verus! {

/// What a column knows about its filled buffer at flush time; the catalog
/// entry is built from this after compression.
pub struct BlockInfo {
    pub numitems: u32,
    pub uncompr_size: usize,
    pub field: Fields,
    pub max_value: Option<Vec<u8>>,
    pub min_value: Option<Vec<u8>>,
    /// The per-record byte slices the block was built from, oldest first.
    pub recs: Ghost<Seq<Seq<u8>>>,
}

impl Default for BlockInfo {
    fn default() -> (r: Self)
        ensures
            r.numitems == 0 && r.uncompr_size == 0 && r.field == Fields::RefID,
            r.max_value is None && r.min_value is None,
    {
        BlockInfo {
            numitems: 0,
            uncompr_size: 0,
            field: Fields::RefID,
            max_value: None,
            min_value: None,
            recs: Ghost(Seq::empty()),
        }
    }
}

/// One growable column buffer: the bytes of the records of the current block,
/// a record counter, and the block sequence number used as ordering key.
pub struct Inner {
    pub stats_collector: Option<StatsCollector>,
    pub buffer: Vec<u8>,
    pub field: Fields,
    pub rec_count: u32,
    pub block_num: u32,
    /// The per-record byte slices of the current block, oldest first.
    pub recs: Ghost<Seq<Seq<u8>>>,
}

impl Inner {
    /// Count of valid bytes in the buffer.
    pub open spec fn offset(self) -> int {
        self.buffer@.len() as int
    }

    /// The buffer holds exactly the concatenation of the records of the
    /// current block, one count per record.
    pub open spec fn wf(self) -> bool {
        &&& self.buffer@ == self.recs@.flatten()
        &&& self.recs@.len() == self.rec_count
        &&& self.buffer@.len() + SIZE_LIMIT <= u32::MAX
        &&& match self.stats_collector {
            Some(st) => st.field == self.field,
            None => true,
        }
    }

    pub open spec fn spec_flush_required(self, len: int) -> bool {
        self.offset() > 0 && self.offset() + len > SIZE_LIMIT
    }

    pub fn new(field: Fields, with_stats: bool) -> (r: Self)
        ensures
            r.wf(),
            r.field == field,
            r.rec_count == 0 && r.block_num == 0,
            r.offset() == 0,
            r.recs@ =~= Seq::<Seq<u8>>::empty(),
            r.stats_collector is Some <==> with_stats,
    {
        let stats_collector = if with_stats {
            Some(StatsCollector::new(field))
        } else {
            None
        };
        let r = Inner {
            stats_collector,
            buffer: Vec::new(),
            field,
            rec_count: 0,
            block_num: 0,
            recs: Ghost(Seq::empty()),
        };
        proof {
            assert(r.recs@.flatten() =~= Seq::<u8>::empty());
        }
        r
    }

    /// True iff appending `data` now must be preceded by a flush: the buffer
    /// is non-empty and would overrun the size cap. A single record larger
    /// than the cap is still accepted into an empty buffer.
    pub fn flush_required(&self, data: &[u8]) -> (r: bool)
        ensures
            r == self.spec_flush_required(data@.len() as int),
    {
        let off = self.buffer.len();
        off > 0 && (off > SIZE_LIMIT || data.len() > SIZE_LIMIT - off)
    }

    /// Append one record's bytes and count it.
    pub fn write_data(&mut self, data: &[u8])
        requires
            !old(self).spec_flush_required(data@.len() as int),
            old(self).rec_count < u32::MAX,
            data@.len() + SIZE_LIMIT <= u32::MAX,
            old(self).wf(),
        ensures
            final(self).wf(),
            final(self).buffer@ == old(self).buffer@ + data@,
            final(self).recs@ == old(self).recs@.push(data@),
            final(self).rec_count == old(self).rec_count + 1,
            final(self).field == old(self).field,
            final(self).block_num == old(self).block_num,
            final(self).stats_collector == old(self).stats_collector,
    {
        self.buffer.extend_from_slice(data);
        self.rec_count = self.rec_count + 1;
        proof {
            self.recs@ = self.recs@.push(data@);
            old(self).recs@.lemma_flatten_push(data@);
            assert(self.buffer@ =~= self.recs@.flatten());
        }
    }

    /// Start a new block: drop the statistics, forget the records, and move
    /// to the next ordering key. The buffer itself is expected to have been
    /// swapped out by the orchestrator before this call.
    pub fn reset_for_new_block(&mut self)
        requires
            old(self).block_num < u32::MAX,
        ensures
            reset_rel(*old(self), *final(self)),
            final(self).wf(),
            final(self).offset() == 0,
            final(self).rec_count == 0,
            final(self).block_num == old(self).block_num + 1,
            final(self).field == old(self).field,
            final(self).recs@ =~= Seq::<Seq<u8>>::empty(),
            final(self).stats_collector is Some <==> old(self).stats_collector is Some,
            match final(self).stats_collector {
                Some(st) => st.min_view() is None && st.max_view() is None && st.field == old(
                    self,
                ).field,
                None => true,
            },
    {
        if self.stats_collector.is_some() {
            self.stats_collector = Some(StatsCollector::new(self.field));
        }
        self.buffer.clear();
        self.rec_count = 0;
        self.block_num = self.block_num + 1;
        proof {
            self.recs@ = Seq::empty();
            assert(self.recs@.flatten() =~= Seq::<u8>::empty());
        }
    }

    /// Snapshot of the current block for the catalog.
    pub fn generate_block_info(&self) -> (r: BlockInfo)
        ensures
            r.numitems == self.rec_count,
            r.uncompr_size as int == self.offset(),
            r.field == self.field,
            r.recs@ == self.recs@,
            opt_bytes_view(r.min_value) == match self.stats_collector {
                Some(st) => st.min_view(),
                None => None::<Seq<u8>>,
            },
            opt_bytes_view(r.max_value) == match self.stats_collector {
                Some(st) => st.max_view(),
                None => None::<Seq<u8>>,
            },
    {
        BlockInfo {
            numitems: self.rec_count,
            uncompr_size: self.buffer.len(),
            field: self.field,
            recs: Ghost(self.recs@),
            max_value: match &self.stats_collector {
                Some(st) => match &st.max_value {
                    Some(v) => Some(vstd::slice::slice_to_vec(v.as_slice())),
                    None => None,
                },
                None => None,
            },
            min_value: match &self.stats_collector {
                Some(st) => match &st.min_value {
                    Some(v) => Some(vstd::slice::slice_to_vec(v.as_slice())),
                    None => None,
                },
                None => None,
            },
        }
    }

    /// Fold one record's bytes into the running statistics, if collected.
    pub fn update_stats(&mut self, data: &[u8])
        requires
            old(self).wf(),
        ensures
            final(self).wf(),
            final(self).buffer == old(self).buffer,
            final(self).recs == old(self).recs,
            final(self).rec_count == old(self).rec_count,
            final(self).block_num == old(self).block_num,
            final(self).field == old(self).field,
            final(self).stats_collector is Some <==> old(self).stats_collector is Some,
            match (final(self).stats_collector, old(self).stats_collector) {
                (Some(st), Some(ost)) => st.min_view() == min_after(ost.min_view(), data@)
                    && st.max_view() == max_after(ost.max_view(), data@),
                _ => true,
            },
    {
        let st_opt = self.stats_collector.take();
        match st_opt {
            Some(mut st) => {
                st.update(data);
                self.stats_collector = Some(st);
            },
            None => {},
        }
    }

    /// Hand the filled buffer out and adopt `replacement` (cleared) in its
    /// place, leaving every counter untouched.
    pub fn swap_buffer(&mut self, replacement: Vec<u8>) -> (r: Vec<u8>)
        ensures
            r == old(self).buffer,
            final(self).buffer@ =~= Seq::<u8>::empty(),
            final(self).rec_count == old(self).rec_count,
            final(self).block_num == old(self).block_num,
            final(self).field == old(self).field,
            final(self).recs == old(self).recs,
            final(self).stats_collector == old(self).stats_collector,
    {
        let mut replacement = replacement;
        replacement.clear();
        core::mem::swap(&mut self.buffer, &mut replacement);
        replacement
    }
}

/// The views of optional statistics bytes.
pub open spec fn opt_bytes_view(o: Option<Vec<u8>>) -> Option<Seq<u8>> {
    match o {
        Some(v) => Some(v@),
        None => None,
    }
}

/// The statistics after absorbing one value, across an optional collector.
pub open spec fn stats_step(pre: Option<StatsCollector>, post: Option<StatsCollector>, d: Seq<u8>) -> bool {
    match (post, pre) {
        (Some(st), Some(ost)) => st.min_view() == min_after(ost.min_view(), d) && st.max_view()
            == max_after(ost.max_view(), d) && st.field == ost.field,
        (None, None) => true,
        _ => false,
    }
}

/// How a buffer before a block boundary relates to the one after it.
pub open spec fn reset_rel(pre: Inner, post: Inner) -> bool {
    &&& post.buffer@ =~= Seq::<u8>::empty()
    &&& post.recs@ =~= Seq::<Seq<u8>>::empty()
    &&& post.rec_count == 0
    &&& post.block_num == pre.block_num + 1
    &&& post.field == pre.field
    &&& (post.stats_collector is Some <==> pre.stats_collector is Some)
    &&& match post.stats_collector {
        Some(st) => st.min_view() is None && st.max_view() is None && st.field == pre.field,
        None => true,
    }
}

/// Starting a new block twice with nothing written in between leaves the
/// buffer exactly as one reset does, in every part but the block sequence
/// number, which advances once more.
pub proof fn lemma_reset_idempotent(a: Inner, b: Inner, c: Inner)
    requires
        reset_rel(a, b),
        reset_rel(b, c),
    ensures
        c.buffer@ == b.buffer@,
        c.recs@ == b.recs@,
        c.rec_count == b.rec_count,
        c.field == b.field,
        (c.stats_collector is Some <==> b.stats_collector is Some),
        c.block_num == b.block_num + 1,
{
}

/// Outcome of offering one record to a column.
pub enum WriteStatus {
    Written,
    /// The payload buffer is at capacity; flush it and try again.
    FullPrimary,
    /// The companion index buffer is at capacity; flush it and try again.
    FullIndex,
}

/// Column of a fixed-width field: one buffer.
pub struct FixedColumn(pub Inner);

impl FixedColumn {
    pub fn new(field: Fields, with_stats: bool) -> (r: Self)
        ensures
            r.0.wf(),
            r.0.field == field,
            r.0.rec_count == 0 && r.0.block_num == 0 && r.0.offset() == 0,
            r.0.recs@ =~= Seq::<Seq<u8>>::empty(),
            r.0.stats_collector is Some <==> with_stats,
    {
        FixedColumn(Inner::new(field, with_stats))
    }

    pub fn write_record_field(&mut self, rec: &[u8]) -> (r: WriteStatus)
        requires
            rec_ok(rec@),
            spec_is_data_field(old(self).0.field),
            !spec_is_variable(old(self).0.field),
            old(self).0.rec_count < u32::MAX,
            old(self).0.wf(),
        ensures
            final(self).0.wf(),
            final(self).0.field == old(self).0.field,
            final(self).0.block_num == old(self).0.block_num,
            match r {
                WriteStatus::Written => {
                    &&& !old(self).0.spec_flush_required(
                        field_slice(rec@, old(self).0.field).len() as int,
                    )
                    &&& final(self).0.buffer@ == old(self).0.buffer@ + field_slice(
                        rec@,
                        old(self).0.field,
                    )
                    &&& final(self).0.recs@ == old(self).0.recs@.push(
                        field_slice(rec@, old(self).0.field),
                    )
                    &&& final(self).0.rec_count == old(self).0.rec_count + 1
                    &&& stats_step(
                        old(self).0.stats_collector,
                        final(self).0.stats_collector,
                        field_slice(rec@, old(self).0.field),
                    )
                },
                WriteStatus::FullPrimary => {
                    &&& old(self).0.spec_flush_required(
                        field_slice(rec@, old(self).0.field).len() as int,
                    )
                    &&& *final(self) == *old(self)
                },
                WriteStatus::FullIndex => false,
            },
    {
        let data = crate::record::get_bytes(rec, &self.0.field);
        if self.0.flush_required(data.as_slice()) {
            return WriteStatus::FullPrimary;
        }
        self.0.update_stats(data.as_slice());
        self.0.write_data(data.as_slice());
        WriteStatus::Written
    }
}

/// Column of a variable-width field: a payload buffer and a companion index
/// buffer of 4-byte little-endian end offsets into the payload block.
pub struct VariableColumn {
    pub inner: Inner,
    pub index: FixedColumn,
}

impl VariableColumn {
    pub open spec fn wf(self) -> bool {
        &&& self.inner.wf()
        &&& self.index.0.wf()
        &&& spec_is_variable(self.inner.field)
        &&& self.index.0.field == spec_companion_index(self.inner.field)
    }

    pub fn new(field: Fields, with_stats: bool) -> (r: Self)
        requires
            spec_is_variable(field),
        ensures
            r.wf(),
            r.inner.field == field,
            r.inner.rec_count == 0 && r.inner.block_num == 0 && r.inner.offset() == 0,
            r.index.0.rec_count == 0 && r.index.0.block_num == 0 && r.index.0.offset() == 0,
            r.inner.recs@ =~= Seq::<Seq<u8>>::empty(),
            r.index.0.recs@ =~= Seq::<Seq<u8>>::empty(),
            r.inner.stats_collector is Some <==> with_stats,
            r.index.0.stats_collector is None,
    {
        let index_field = crate::fields::var_size_field_to_index(&field);
        VariableColumn {
            inner: Inner::new(field, with_stats),
            index: FixedColumn::new(index_field, false),
        }
    }

    pub fn write_record_field(&mut self, rec: &[u8]) -> (r: WriteStatus)
        requires
            rec_ok(rec@),
            old(self).wf(),
            old(self).inner.rec_count < u32::MAX,
            old(self).index.0.rec_count < u32::MAX,
            rec@.len() + SIZE_LIMIT <= u32::MAX,
        ensures
            final(self).wf(),
            final(self).inner.field == old(self).inner.field,
            final(self).inner.block_num == old(self).inner.block_num,
            final(self).index.0.block_num == old(self).index.0.block_num,
            match r {
                WriteStatus::Written => {
                    let data = field_slice(rec@, old(self).inner.field);
                    &&& !old(self).index.0.spec_flush_required(4)
                    &&& !old(self).inner.spec_flush_required(data.len() as int)
                    &&& stats_step(
                        old(self).inner.stats_collector,
                        final(self).inner.stats_collector,
                        data,
                    )
                    &&& final(self).inner.buffer@ == old(self).inner.buffer@ + data
                    &&& final(self).inner.recs@ == old(self).inner.recs@.push(data)
                    &&& final(self).inner.rec_count == old(self).inner.rec_count + 1
                    &&& final(self).index.0.buffer@ == old(self).index.0.buffer@ + le4(
                        old(self).inner.offset() + data.len(),
                    )
                    &&& final(self).index.0.recs@ == old(self).index.0.recs@.push(
                        le4(old(self).inner.offset() + data.len()),
                    )
                    &&& final(self).index.0.rec_count == old(self).index.0.rec_count + 1
                },
                WriteStatus::FullPrimary => {
                    &&& !old(self).index.0.spec_flush_required(4)
                    &&& old(self).inner.spec_flush_required(
                        field_slice(rec@, old(self).inner.field).len() as int,
                    )
                    &&& *final(self) == *old(self)
                },
                WriteStatus::FullIndex => {
                    &&& old(self).index.0.spec_flush_required(4)
                    &&& *final(self) == *old(self)
                },
            },
    {
        let data = crate::record::get_bytes(rec, &self.inner.field);
        let probe: [u8; 4] = [0, 0, 0, 0];
        if self.index.0.flush_required(probe.as_slice()) {
            return WriteStatus::FullIndex;
        }
        if self.inner.flush_required(data.as_slice()) {
            return WriteStatus::FullPrimary;
        }
        self.inner.update_stats(data.as_slice());
        self.inner.write_data(data.as_slice());
        let end_offset = self.inner.buffer.len() as u32;
        let mut idx_buf: Vec<u8> = Vec::new();
        crate::le_bytes::push_u32_le(&mut idx_buf, end_offset);
        self.index.0.write_data(idx_buf.as_slice());
        assert(idx_buf@ =~= le4(old(self).inner.offset() + field_slice(
            rec@,
            old(self).inner.field,
        ).len()));
        WriteStatus::Written
    }
}

/// A column strategy: fixed-width or variable-width with companion index.
pub enum Column {
    Fixed(FixedColumn),
    Variable(VariableColumn),
}

impl Column {
    pub open spec fn wf(self) -> bool {
        match self {
            Column::Fixed(c) => {
                &&& c.0.wf()
                &&& spec_is_data_field(c.0.field)
                &&& spec_field_type(c.0.field) == FieldType::FixedSized
            },
            Column::Variable(c) => c.wf(),
        }
    }

    /// The field this column is responsible for.
    pub open spec fn spec_field(self) -> Fields {
        match self {
            Column::Fixed(c) => c.0.field,
            Column::Variable(c) => c.inner.field,
        }
    }
}

} // verus!
