use vstd::prelude::*;

verus! {

/// The closed enumeration of GBAM columns. Every variable-sized field has a
/// fixed-width companion index field that records per-record end offsets.
#[derive(Clone, Copy, PartialEq, Eq, Structural, Debug, Hash)]
pub enum Fields {
    RefID,
    Pos,
    LName,
    Mapq,
    Bin,
    NCigar,
    Flags,
    SequenceLength,
    NextRefID,
    NextPos,
    TemplateLength,
    ReadName,
    RawCigar,
    RawSequence,
    RawQual,
    RawTags,
    RawTagsLen,
    RawSeqLen,
}

pub const FIELDS_NUM: usize = 18;

#[derive(Clone, Copy, PartialEq, Eq, Structural, Debug)]
pub enum FieldType {
    FixedSized,
    VariableSized,
}

pub open spec fn spec_field_index(f: Fields) -> int {
    match f {
        Fields::RefID => 0,
        Fields::Pos => 1,
        Fields::LName => 2,
        Fields::Mapq => 3,
        Fields::Bin => 4,
        Fields::NCigar => 5,
        Fields::Flags => 6,
        Fields::SequenceLength => 7,
        Fields::NextRefID => 8,
        Fields::NextPos => 9,
        Fields::TemplateLength => 10,
        Fields::ReadName => 11,
        Fields::RawCigar => 12,
        Fields::RawSequence => 13,
        Fields::RawQual => 14,
        Fields::RawTags => 15,
        Fields::RawTagsLen => 16,
        Fields::RawSeqLen => 17,
    }
}

pub fn field_index(f: &Fields) -> (r: usize)
    ensures
        r as int == spec_field_index(*f),
        r < FIELDS_NUM,
{
    match f {
        Fields::RefID => 0,
        Fields::Pos => 1,
        Fields::LName => 2,
        Fields::Mapq => 3,
        Fields::Bin => 4,
        Fields::NCigar => 5,
        Fields::Flags => 6,
        Fields::SequenceLength => 7,
        Fields::NextRefID => 8,
        Fields::NextPos => 9,
        Fields::TemplateLength => 10,
        Fields::ReadName => 11,
        Fields::RawCigar => 12,
        Fields::RawSequence => 13,
        Fields::RawQual => 14,
        Fields::RawTags => 15,
        Fields::RawTagsLen => 16,
        Fields::RawSeqLen => 17,
    }
}

/// Variable-sized fields carry a different byte count for every record.
pub open spec fn spec_is_variable(f: Fields) -> bool {
    f == Fields::ReadName || f == Fields::RawCigar || f == Fields::RawSequence || f == Fields::RawQual || f == Fields::RawTags
}

/// Index fields are owned by their variable companion and never written on their own.
pub open spec fn spec_is_index_field(f: Fields) -> bool {
    f == Fields::LName || f == Fields::NCigar || f == Fields::SequenceLength || f == Fields::RawTagsLen || f == Fields::RawSeqLen
}

pub open spec fn spec_is_data_field(f: Fields) -> bool {
    !spec_is_index_field(f)
}

pub fn is_data_field(f: &Fields) -> (r: bool)
    ensures
        r == spec_is_data_field(*f),
{
    !(matches!(f, Fields::LName) || matches!(f, Fields::NCigar) || matches!(f, Fields::SequenceLength) || matches!(f, Fields::RawTagsLen) || matches!(f, Fields::RawSeqLen))
}

pub open spec fn spec_field_type(f: Fields) -> FieldType {
    if spec_is_variable(f) {
        FieldType::VariableSized
    } else {
        FieldType::FixedSized
    }
}

pub fn field_type(f: &Fields) -> (r: FieldType)
    ensures
        r == spec_field_type(*f),
{
    if matches!(f, Fields::ReadName) || matches!(f, Fields::RawCigar) || matches!(f, Fields::RawSequence) || matches!(f, Fields::RawQual) || matches!(f, Fields::RawTags) {
        FieldType::VariableSized
    } else {
        FieldType::FixedSized
    }
}

/// The fixed-width companion index field of a variable-sized field.
pub open spec fn spec_companion_index(f: Fields) -> Fields {
    match f {
        Fields::ReadName => Fields::LName,
        Fields::RawCigar => Fields::NCigar,
        Fields::RawSequence => Fields::RawSeqLen,
        Fields::RawQual => Fields::SequenceLength,
        Fields::RawTags => Fields::RawTagsLen,
        _ => Fields::LName,
    }
}

pub fn var_size_field_to_index(f: &Fields) -> (r: Fields)
    requires
        spec_is_variable(*f),
    ensures
        r == spec_companion_index(*f),
{
    match f {
        Fields::ReadName => Fields::LName,
        Fields::RawCigar => Fields::NCigar,
        Fields::RawSequence => Fields::RawSeqLen,
        Fields::RawQual => Fields::SequenceLength,
        Fields::RawTags => Fields::RawTagsLen,
        _ => Fields::LName,
    }
}

/// Byte width of one record's entry in a fixed-sized column.
pub open spec fn spec_fixed_width(f: Fields) -> int {
    match f {
        Fields::RefID => 4,
        Fields::Pos => 4,
        Fields::LName => 4,
        Fields::Mapq => 1,
        Fields::Bin => 2,
        Fields::NCigar => 4,
        Fields::Flags => 2,
        Fields::SequenceLength => 4,
        Fields::NextRefID => 4,
        Fields::NextPos => 4,
        Fields::TemplateLength => 4,
        Fields::ReadName => 0,
        Fields::RawCigar => 0,
        Fields::RawSequence => 0,
        Fields::RawQual => 0,
        Fields::RawTags => 0,
        Fields::RawTagsLen => 4,
        Fields::RawSeqLen => 4,
    }
}

pub fn fixed_field_width(f: &Fields) -> (r: usize)
    requires
        !spec_is_variable(*f),
    ensures
        r as int == spec_fixed_width(*f),
        1 <= r <= 4,
{
    match f {
        Fields::RefID => 4,
        Fields::Pos => 4,
        Fields::LName => 4,
        Fields::Mapq => 1,
        Fields::Bin => 2,
        Fields::NCigar => 4,
        Fields::Flags => 2,
        Fields::SequenceLength => 4,
        Fields::NextRefID => 4,
        Fields::NextPos => 4,
        Fields::TemplateLength => 4,
        Fields::RawTagsLen => 4,
        Fields::RawSeqLen => 4,
        _ => 4,
    }
}

pub open spec fn all_fields_seq() -> Seq<Fields> {
    seq![Fields::RefID, Fields::Pos, Fields::LName, Fields::Mapq, Fields::Bin, Fields::NCigar, Fields::Flags, Fields::SequenceLength, Fields::NextRefID, Fields::NextPos, Fields::TemplateLength, Fields::ReadName, Fields::RawCigar, Fields::RawSequence, Fields::RawQual, Fields::RawTags, Fields::RawTagsLen, Fields::RawSeqLen]
}

pub fn all_fields() -> (r: Vec<Fields>)
    ensures
        r@ == all_fields_seq(),
        r@.len() == FIELDS_NUM,
{
    let v = vec![Fields::RefID, Fields::Pos, Fields::LName, Fields::Mapq, Fields::Bin, Fields::NCigar, Fields::Flags, Fields::SequenceLength, Fields::NextRefID, Fields::NextPos, Fields::TemplateLength, Fields::ReadName, Fields::RawCigar, Fields::RawSequence, Fields::RawQual, Fields::RawTags, Fields::RawTagsLen, Fields::RawSeqLen];
    assert(v@ =~= all_fields_seq());
    v
}

/// The data fields, in catalog order: the fields a record is split into.
pub open spec fn data_fields_seq() -> Seq<Fields> {
    seq![Fields::RefID, Fields::Pos, Fields::Mapq, Fields::Bin, Fields::Flags, Fields::NextRefID, Fields::NextPos, Fields::TemplateLength, Fields::ReadName, Fields::RawCigar, Fields::RawSequence, Fields::RawQual, Fields::RawTags]
}

pub fn data_fields() -> (r: Vec<Fields>)
    ensures
        r@ == data_fields_seq(),
{
    let v = vec![Fields::RefID, Fields::Pos, Fields::Mapq, Fields::Bin, Fields::Flags, Fields::NextRefID, Fields::NextPos, Fields::TemplateLength, Fields::ReadName, Fields::RawCigar, Fields::RawSequence, Fields::RawQual, Fields::RawTags];
    assert(v@ =~= data_fields_seq());
    v
}

/// The JSON key under which a field appears in the catalog.
pub open spec fn field_name_seq(f: Fields) -> Seq<u8> {
    match f {
        Fields::RefID => seq![82u8, 101u8, 102u8, 73u8, 68u8],
        Fields::Pos => seq![80u8, 111u8, 115u8],
        Fields::LName => seq![76u8, 78u8, 97u8, 109u8, 101u8],
        Fields::Mapq => seq![77u8, 97u8, 112u8, 113u8],
        Fields::Bin => seq![66u8, 105u8, 110u8],
        Fields::NCigar => seq![78u8, 67u8, 105u8, 103u8, 97u8, 114u8],
        Fields::Flags => seq![70u8, 108u8, 97u8, 103u8, 115u8],
        Fields::SequenceLength => seq![83u8, 101u8, 113u8, 117u8, 101u8, 110u8, 99u8, 101u8, 76u8, 101u8, 110u8, 103u8, 116u8, 104u8],
        Fields::NextRefID => seq![78u8, 101u8, 120u8, 116u8, 82u8, 101u8, 102u8, 73u8, 68u8],
        Fields::NextPos => seq![78u8, 101u8, 120u8, 116u8, 80u8, 111u8, 115u8],
        Fields::TemplateLength => seq![84u8, 101u8, 109u8, 112u8, 108u8, 97u8, 116u8, 101u8, 76u8, 101u8, 110u8, 103u8, 116u8, 104u8],
        Fields::ReadName => seq![82u8, 101u8, 97u8, 100u8, 78u8, 97u8, 109u8, 101u8],
        Fields::RawCigar => seq![82u8, 97u8, 119u8, 67u8, 105u8, 103u8, 97u8, 114u8],
        Fields::RawSequence => seq![82u8, 97u8, 119u8, 83u8, 101u8, 113u8, 117u8, 101u8, 110u8, 99u8, 101u8],
        Fields::RawQual => seq![82u8, 97u8, 119u8, 81u8, 117u8, 97u8, 108u8],
        Fields::RawTags => seq![82u8, 97u8, 119u8, 84u8, 97u8, 103u8, 115u8],
        Fields::RawTagsLen => seq![82u8, 97u8, 119u8, 84u8, 97u8, 103u8, 115u8, 76u8, 101u8, 110u8],
        Fields::RawSeqLen => seq![82u8, 97u8, 119u8, 83u8, 101u8, 113u8, 76u8, 101u8, 110u8],
    }
}

pub fn push_field_name(out: &mut Vec<u8>, f: &Fields)
    ensures
        final(out)@ == old(out)@ + field_name_seq(*f),
{
    match f {
        Fields::RefID => {
            let a: [u8; 5] = [82, 101, 102, 73, 68];
            out.extend_from_slice(a.as_slice());
            assert(out@ =~= old(out)@ + field_name_seq(*f));
        },
        Fields::Pos => {
            let a: [u8; 3] = [80, 111, 115];
            out.extend_from_slice(a.as_slice());
            assert(out@ =~= old(out)@ + field_name_seq(*f));
        },
        Fields::LName => {
            let a: [u8; 5] = [76, 78, 97, 109, 101];
            out.extend_from_slice(a.as_slice());
            assert(out@ =~= old(out)@ + field_name_seq(*f));
        },
        Fields::Mapq => {
            let a: [u8; 4] = [77, 97, 112, 113];
            out.extend_from_slice(a.as_slice());
            assert(out@ =~= old(out)@ + field_name_seq(*f));
        },
        Fields::Bin => {
            let a: [u8; 3] = [66, 105, 110];
            out.extend_from_slice(a.as_slice());
            assert(out@ =~= old(out)@ + field_name_seq(*f));
        },
        Fields::NCigar => {
            let a: [u8; 6] = [78, 67, 105, 103, 97, 114];
            out.extend_from_slice(a.as_slice());
            assert(out@ =~= old(out)@ + field_name_seq(*f));
        },
        Fields::Flags => {
            let a: [u8; 5] = [70, 108, 97, 103, 115];
            out.extend_from_slice(a.as_slice());
            assert(out@ =~= old(out)@ + field_name_seq(*f));
        },
        Fields::SequenceLength => {
            let a: [u8; 14] = [83, 101, 113, 117, 101, 110, 99, 101, 76, 101, 110, 103, 116, 104];
            out.extend_from_slice(a.as_slice());
            assert(out@ =~= old(out)@ + field_name_seq(*f));
        },
        Fields::NextRefID => {
            let a: [u8; 9] = [78, 101, 120, 116, 82, 101, 102, 73, 68];
            out.extend_from_slice(a.as_slice());
            assert(out@ =~= old(out)@ + field_name_seq(*f));
        },
        Fields::NextPos => {
            let a: [u8; 7] = [78, 101, 120, 116, 80, 111, 115];
            out.extend_from_slice(a.as_slice());
            assert(out@ =~= old(out)@ + field_name_seq(*f));
        },
        Fields::TemplateLength => {
            let a: [u8; 14] = [84, 101, 109, 112, 108, 97, 116, 101, 76, 101, 110, 103, 116, 104];
            out.extend_from_slice(a.as_slice());
            assert(out@ =~= old(out)@ + field_name_seq(*f));
        },
        Fields::ReadName => {
            let a: [u8; 8] = [82, 101, 97, 100, 78, 97, 109, 101];
            out.extend_from_slice(a.as_slice());
            assert(out@ =~= old(out)@ + field_name_seq(*f));
        },
        Fields::RawCigar => {
            let a: [u8; 8] = [82, 97, 119, 67, 105, 103, 97, 114];
            out.extend_from_slice(a.as_slice());
            assert(out@ =~= old(out)@ + field_name_seq(*f));
        },
        Fields::RawSequence => {
            let a: [u8; 11] = [82, 97, 119, 83, 101, 113, 117, 101, 110, 99, 101];
            out.extend_from_slice(a.as_slice());
            assert(out@ =~= old(out)@ + field_name_seq(*f));
        },
        Fields::RawQual => {
            let a: [u8; 7] = [82, 97, 119, 81, 117, 97, 108];
            out.extend_from_slice(a.as_slice());
            assert(out@ =~= old(out)@ + field_name_seq(*f));
        },
        Fields::RawTags => {
            let a: [u8; 7] = [82, 97, 119, 84, 97, 103, 115];
            out.extend_from_slice(a.as_slice());
            assert(out@ =~= old(out)@ + field_name_seq(*f));
        },
        Fields::RawTagsLen => {
            let a: [u8; 10] = [82, 97, 119, 84, 97, 103, 115, 76, 101, 110];
            out.extend_from_slice(a.as_slice());
            assert(out@ =~= old(out)@ + field_name_seq(*f));
        },
        Fields::RawSeqLen => {
            let a: [u8; 9] = [82, 97, 119, 83, 101, 113, 76, 101, 110];
            out.extend_from_slice(a.as_slice());
            assert(out@ =~= old(out)@ + field_name_seq(*f));
        },
    }
}

} // verus!
