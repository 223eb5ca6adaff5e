//! Assembling whole data records and scanning a telegram's payload.

use vstd::prelude::*;

verus! {

use crate::data_information::{
    DataFieldCoding,
    DataInformation,
    DataInformationBlock,
    DataInformationError,
    FunctionField,
    MAXIMUM_DATA_INFORMATION_SIZE,
    spec_count_leading_ext,
    spec_function_field,
    spec_has_extension,
    spec_le_bytes,
    spec_storage_number,
    le_value,
};
use crate::value_information::{
    spec_classify_vif,
    spec_vife_run,
    Unit,
    ValueInformation,
    ValueInformationBlock,
};

/// Terminal failures of decoding one data record.
#[derive(Debug, PartialEq, Eq, Structural, Clone, Copy)]
pub enum DataRecordError {
    /// A failure from the data- or value-information layers.
    DataInformationError(DataInformationError),
    /// The payload needs more bytes than remain in the buffer.
    InsufficientData,
    /// A decoded field's value lies outside its defined domain.
    InvalidData,
    /// The payload uses an encoding this decoder deliberately does not
    /// implement; it fails loudly rather than guessing a value.
    UnsupportedEncoding,
}

/// Terminal failures of scanning a whole telegram.
#[derive(Debug, PartialEq, Eq, Structural, Clone, Copy)]
pub enum VariableUserDataError {
    /// The record decode that aborted the scan.
    DataInformationError(DataRecordError),
}

/// The numeric quantity classification of a record; not yet derived from
/// the value-information side.
#[derive(Debug, PartialEq, Eq, Structural, Clone, Copy)]
pub enum Quantity {
    Unspecified,
}

/// One fully assembled data record. It owns no borrowed data and may
/// outlive the input buffer.
#[derive(Debug, PartialEq, Eq, Structural, Clone, Copy)]
pub struct DataRecord {
    pub function: FunctionField,
    pub storage_number: u64,
    pub unit: Unit,
    pub quantity: Quantity,
    pub value: u64,
    pub size: usize,
}

/// Whether the buffer's leading data-information byte announces an
/// extension chain.
pub open spec fn spec_dif_has_ext(data: Seq<u8>) -> bool {
    spec_has_extension(data[0])
}

/// The span a data-information chain would claim: the leading
/// continuation run after the base byte plus the byte that ends it.
pub open spec fn spec_dif_offset(data: Seq<u8>) -> int {
    spec_count_leading_ext(data.drop_first()) as int + 1
}

/// Whether a data-information block parses off the front of the buffer.
pub open spec fn spec_dif_parse_ok(data: Seq<u8>) -> bool {
    &&& data.len() > 0
    &&& spec_dif_has_ext(data) ==> spec_dif_offset(data) <= MAXIMUM_DATA_INFORMATION_SIZE
        && spec_dif_offset(data) <= data.len() - 1
}

/// The extension bytes of the buffer's data-information block.
pub open spec fn spec_dif_chain(data: Seq<u8>) -> Seq<u8> {
    if spec_dif_has_ext(data) {
        data.drop_first().subrange(0, spec_dif_offset(data))
    } else {
        Seq::empty()
    }
}

/// The byte size of the buffer's data-information block.
pub open spec fn spec_dif_size(data: Seq<u8>) -> int {
    1 + spec_dif_chain(data).len() as int
}

/// The buffer region where the value-information block starts.
pub open spec fn spec_vif_region(data: Seq<u8>) -> Seq<u8> {
    data.skip(spec_dif_size(data))
}

/// Whether a value-information block parses off the front of its region.
pub open spec fn spec_vif_ok(v: Seq<u8>) -> bool {
    v.len() > 0 && v[0] != 0x7D
}

/// The combined byte size of the record's data- and value-information
/// blocks, which is also the size the record reports.
pub open spec fn spec_record_size(data: Seq<u8>) -> int {
    spec_dif_size(data) + 1 + spec_vife_run(spec_vif_region(data))
}

/// The payload width the record assembler's fixed-width subset reads for
/// a coding; every other coding reads nothing yet.
pub open spec fn spec_subset_width(coding: DataFieldCoding) -> int {
    match coding {
        DataFieldCoding::Integer8Bit => 1,
        DataFieldCoding::Integer16Bit => 2,
        DataFieldCoding::Integer24Bit => 3,
        _ => 0,
    }
}

/// The coding of the buffer's record: bits 3-0 of the base byte, where
/// the special-functions selector consults the first extension byte.
pub open spec fn spec_record_coding(data: Seq<u8>) -> DataFieldCoding {
    let chain = spec_dif_chain(data);
    crate::data_information::spec_data_field_coding(
        data[0],
        if chain.len() > 0 {
            chain[0]
        } else {
            0
        },
    )
}

/// Whether one whole record decodes off the front of the buffer.
pub open spec fn spec_record_ok(data: Seq<u8>) -> bool {
    &&& spec_dif_parse_ok(data)
    &&& !(data[0] % 16 == 15 && spec_dif_chain(data).len() == 0)
    &&& spec_vif_ok(spec_vif_region(data))
    &&& spec_classify_vif(spec_vif_region(data)[0]) is Primary
    &&& data.len() >= spec_record_size(data) + spec_subset_width(spec_record_coding(data))
}

/// The error a failing record decode reports, by the first check that
/// fails.
pub open spec fn spec_record_err(data: Seq<u8>) -> DataRecordError {
    if data.len() == 0 {
        DataRecordError::DataInformationError(DataInformationError::NoData)
    } else if spec_dif_has_ext(data) && spec_dif_offset(data) > MAXIMUM_DATA_INFORMATION_SIZE {
        DataRecordError::DataInformationError(DataInformationError::DataTooLong)
    } else if spec_dif_has_ext(data) && spec_dif_offset(data) > data.len() - 1 {
        DataRecordError::DataInformationError(DataInformationError::DataTooShort)
    } else if (data[0] % 16 == 15 && spec_dif_chain(data).len() == 0) || !spec_vif_ok(
        spec_vif_region(data),
    ) || !(spec_classify_vif(spec_vif_region(data)[0]) is Primary) {
        DataRecordError::DataInformationError(DataInformationError::InvalidValueInformation)
    } else {
        DataRecordError::InsufficientData
    }
}

/// The record the buffer decodes to, when one does.
pub open spec fn spec_record(data: Seq<u8>) -> DataRecord {
    let size = spec_record_size(data);
    let width = spec_subset_width(spec_record_coding(data));
    DataRecord {
        function: spec_function_field(data[0]),
        storage_number: spec_storage_number(data[0], spec_dif_chain(data)) as u64,
        unit: Unit::WithoutUnits,
        quantity: Quantity::Unspecified,
        value: if width > 0 {
            spec_le_bytes(data.subrange(size, size + width)) as u64
        } else {
            0
        },
        size: size as usize,
    }
}

/// The total bytes a record decode consumes: both information blocks plus
/// the payload bytes its fixed-width subset read.
pub open spec fn spec_record_consumed(data: Seq<u8>) -> int {
    spec_record_size(data) + spec_subset_width(spec_record_coding(data))
}

impl DataRecord {
    /// Decodes one record off the front of `data`, returning the record
    /// and the total number of bytes consumed.
    ///
    /// A data-information block, then a value-information block are parsed
    /// and decoded; the value-information classification must be a primary
    /// code. The value itself comes from a fixed-width subset of the
    /// payload codings (8-, 16- and 24-bit unsigned little-endian); other
    /// codings report zero and consume no payload yet, and the unit is
    /// fixed pending full value-information integration. The record's own
    /// size covers the two information blocks.
    pub fn decode(data: &[u8]) -> (r: Result<(DataRecord, usize), DataRecordError>)
        ensures
            !spec_record_ok(data@) ==> r == Err::<(DataRecord, usize), _>(spec_record_err(data@)),
            spec_record_ok(data@) ==> r == Ok::<_, DataRecordError>(
                (spec_record(data@), spec_record_consumed(data@) as usize),
            ),
            r matches Ok(p) ==> 2 <= p.1 <= data@.len(),
    {
        let dif_block = match DataInformationBlock::parse_block(data) {
            Ok(b) => b,
            Err(e) => {
                return Err(DataRecordError::DataInformationError(e));
            },
        };
        let data_information = match DataInformation::derive(&dif_block) {
            Ok(i) => i,
            Err(e) => {
                return Err(DataRecordError::DataInformationError(e));
            },
        };
        let dif_size = dif_block.get_size();
        proof {
            assert(dif_size == spec_dif_size(data@));
            assert(dif_size <= data@.len());
        }
        let vdata = &data[dif_size..data.len()];
        proof {
            assert(vdata@ =~= spec_vif_region(data@));
        }
        let vif_block = match ValueInformationBlock::parse(vdata) {
            Ok(b) => b,
            Err(_) => {
                return Err(
                    DataRecordError::DataInformationError(
                        DataInformationError::InvalidValueInformation,
                    ),
                );
            },
        };
        match vif_block.value_information {
            ValueInformation::Primary(_) => {},
            _ => {
                return Err(
                    DataRecordError::DataInformationError(
                        DataInformationError::InvalidValueInformation,
                    ),
                );
            },
        }
        let vif_size = vif_block.get_size();
        let size = dif_size + vif_size;
        proof {
            assert(size == spec_record_size(data@));
            assert(size <= data@.len());
        }
        let (value, width): (u64, usize) = match data_information.data_field_coding {
            DataFieldCoding::Integer8Bit => {
                if data.len() < size + 1 {
                    return Err(DataRecordError::InsufficientData);
                }
                (data[size] as u64, 1)
            },
            DataFieldCoding::Integer16Bit => {
                if data.len() < size + 2 {
                    return Err(DataRecordError::InsufficientData);
                }
                (le_value(&data[size..size + 2]), 2)
            },
            DataFieldCoding::Integer24Bit => {
                if data.len() < size + 3 {
                    return Err(DataRecordError::InsufficientData);
                }
                (le_value(&data[size..size + 3]), 3)
            },
            _ => (0u64, 0usize),
        };
        proof {
            if spec_subset_width(spec_record_coding(data@)) == 1 {
                assert(data@.subrange(size as int, size + 1) =~= seq![data@[size as int]]);
                assert(spec_le_bytes(seq![data@[size as int]].drop_first()) == 0);
            }
        }
        Ok(
            (
                DataRecord {
                    function: data_information.function_field,
                    storage_number: data_information.storage_number,
                    unit: Unit::WithoutUnits,
                    quantity: Quantity::Unspecified,
                    value,
                    size,
                },
                size + width,
            ),
        )
    }
}

/// What scanning a telegram from `offset` yields: the records decoded in
/// order and whether a more-records-follow marker ended the scan, or the
/// error of the first record that failed to decode.
///
/// A 0x0F byte (manufacturer-specific block) ends the scan; 0x1F ends it
/// and raises the continuation flag; 0x2F (idle filler) is skipped; any
/// other byte must start a well-formed record.
pub open spec fn spec_scan(data: Seq<u8>, offset: int) -> Result<
    (Seq<DataRecord>, bool),
    DataRecordError,
>
    decreases data.len() - offset,
{
    if offset < 0 || offset >= data.len() {
        Ok((Seq::empty(), false))
    } else if data[offset] == 0x0F {
        Ok((Seq::empty(), false))
    } else if data[offset] == 0x1F {
        Ok((Seq::empty(), true))
    } else if data[offset] == 0x2F {
        spec_scan(data, offset + 1)
    } else {
        let rest = data.skip(offset);
        if spec_record_ok(rest) && 1 <= spec_record_consumed(rest) && offset
            + spec_record_consumed(rest) <= data.len() {
            match spec_scan(data, offset + spec_record_consumed(rest)) {
                Ok((recs, flag)) => Ok((seq![spec_record(rest)] + recs, flag)),
                Err(e) => Err(e),
            }
        } else if spec_record_ok(rest) {
            Err(DataRecordError::InsufficientData)
        } else {
            Err(spec_record_err(rest))
        }
    }
}

/// Everything `decode_all` promises of its result on a given buffer.
pub open spec fn spec_decode_all_post(data: Seq<u8>, r: Result<
    DataRecords,
    VariableUserDataError,
>) -> bool {
    match spec_scan(data, 0) {
        Ok((recs, flag)) => r matches Ok(rs) && rs.records@ == recs && rs.more_records_follow
            == flag,
        Err(e) => r == Err::<DataRecords, _>(VariableUserDataError::DataInformationError(e)),
    }
}

/// Law: the scan has no hidden mutable state. Two results that
/// `decode_all`'s contract allows for the same buffer succeed or fail
/// together, hold identical record sequences, and agree on the
/// continuation flag.
pub proof fn lemma_decode_all_deterministic(
    data: Seq<u8>,
    r1: Result<DataRecords, VariableUserDataError>,
    r2: Result<DataRecords, VariableUserDataError>,
)
    requires
        spec_decode_all_post(data, r1),
        spec_decode_all_post(data, r2),
    ensures
        r1 is Ok <==> r2 is Ok,
        r1 matches Ok(a) ==> (r2 matches Ok(b) && a.records@ == b.records@
            && a.more_records_follow == b.more_records_follow),
        r1 matches Err(e1) ==> (r2 matches Err(e2) && e1 == e2),
{
}

/// The ordered, insertion-order collection of one telegram's records,
/// with the flag of a more-records-follow marker if one ended the scan.
#[derive(Debug, PartialEq, Eq, Clone)]
pub struct DataRecords {
    pub records: Vec<DataRecord>,
    pub more_records_follow: bool,
}

impl DataRecords {
    /// An empty collection.
    pub fn new() -> (r: Self)
        ensures
            r.records@ == Seq::<DataRecord>::empty(),
            !r.more_records_follow,
    {
        DataRecords { records: Vec::new(), more_records_follow: false }
    }

    /// Appends one record.
    pub fn add_record(&mut self, record: DataRecord)
        ensures
            final(self).records@ == old(self).records@.push(record),
            final(self).more_records_follow == old(self).more_records_follow,
    {
        self.records.push(record);
    }

    /// The number of records held.
    pub fn len(&self) -> (r: usize)
        ensures
            r == self.records@.len(),
    {
        self.records.len()
    }

    /// True when no records are held.
    pub fn is_empty(&self) -> (r: bool)
        ensures
            r == (self.records@.len() == 0),
    {
        self.records.len() == 0
    }

    /// The record at position `i`, if any.
    pub fn get(&self, i: usize) -> (r: Option<&DataRecord>)
        ensures
            i < self.records@.len() ==> (r matches Some(rec) && *rec == self.records@[i as int]),
            i >= self.records@.len() ==> r is None,
    {
        if i < self.records.len() {
            Some(&self.records[i])
        } else {
            None
        }
    }

    /// The most recently appended record, if any.
    pub fn last(&self) -> (r: Option<&DataRecord>)
        ensures
            self.records@.len() > 0 ==> (r matches Some(rec) && *rec == self.records@.last()),
            self.records@.len() == 0 ==> r is None,
    {
        if self.records.len() > 0 {
            Some(&self.records[self.records.len() - 1])
        } else {
            None
        }
    }

    /// Scans a whole telegram payload, decoding records in order.
    ///
    /// The scan ends at the end of the buffer or at an inline control
    /// marker, skips idle filler bytes, and aborts on the first record
    /// that fails to decode: a single malformed record invalidates the
    /// whole telegram.
    pub fn decode_all(data: &[u8]) -> (r: Result<Self, VariableUserDataError>)
        ensures
            spec_decode_all_post(data@, r),
    {
        let mut records: Vec<DataRecord> = Vec::new();
        let mut offset: usize = 0;
        proof {
            assert(forall|recs: Seq<DataRecord>| Seq::<DataRecord>::empty() + recs =~= recs);
        }
        while offset < data.len()
            invariant
                offset <= data@.len(),
                ({
                    match spec_scan(data@, offset as int) {
                        Ok((recs, flag)) => spec_scan(data@, 0) == Ok::<_, DataRecordError>(
                            (records@ + recs, flag),
                        ),
                        Err(e) => spec_scan(data@, 0) == Err::<(Seq<DataRecord>, bool), _>(e),
                    }
                }),
            decreases data@.len() - offset,
        {
            let b = data[offset];
            if b == 0x0F {
                proof {
                    assert(records@ + Seq::<DataRecord>::empty() =~= records@);
                }
                return Ok(DataRecords { records, more_records_follow: false });
            } else if b == 0x1F {
                proof {
                    assert(records@ + Seq::<DataRecord>::empty() =~= records@);
                }
                return Ok(DataRecords { records, more_records_follow: true });
            } else if b == 0x2F {
                offset += 1;
            } else {
                let rest = &data[offset..data.len()];
                proof {
                    assert(rest@ =~= data@.skip(offset as int));
                }
                match DataRecord::decode(rest) {
                    Ok(pair) => {
                        let ghost prev = records@;
                        records.push(pair.0);
                        proof {
                            assert(records@ =~= prev + seq![spec_record(data@.skip(
                                offset as int,
                            ))]);
                            match spec_scan(data@, offset + pair.1) {
                                Ok(p) => {
                                    assert(prev + (seq![spec_record(data@.skip(offset as int))]
                                        + p.0) =~= (prev + seq![spec_record(data@.skip(
                                        offset as int,
                                    ))]) + p.0);
                                },
                                Err(_) => {},
                            }
                        }
                        offset += pair.1;
                    },
                    Err(e) => {
                        return Err(VariableUserDataError::DataInformationError(e));
                    },
                }
            }
        }
        proof {
            assert(records@ + Seq::<DataRecord>::empty() =~= records@);
        }
        Ok(DataRecords { records, more_records_follow: false })
    }
}

} // verus!
