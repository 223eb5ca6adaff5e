//! The data-information side of a record: the base byte, its extension
//! chain, and the decoded meaning (storage number, function field, coding).

use vstd::prelude::*;

verus! {

use vstd::arithmetic::power2::{
    pow2,
    lemma_pow2_adds,
    lemma_pow2_pos,
    lemma_pow2_strictly_increases,
    lemma2_to64,
    lemma2_to64_rest,
};
use vstd::arithmetic::mul::lemma_mul_inequality;
use vstd::slice::slice_subrange;
use vstd::utf8::{valid_utf8, decode_utf8};

/// Structural bound on a data-information extension chain: a block may span
/// at most this many extension bytes, per the wire format.
pub const MAXIMUM_DATA_INFORMATION_SIZE: usize = 11;

/// Terminal failures of data-information parsing and decoding.
#[derive(Debug, PartialEq, Eq, Structural, Clone, Copy)]
pub enum DataInformationError {
    /// The input was empty where at least one byte is required.
    NoData,
    /// The extension chain exceeds the structural bound.
    DataTooLong,
    /// The declared chain length exceeds the remaining buffer.
    DataTooShort,
    /// A field combination that the decoder cannot interpret, such as the
    /// special-functions coding selector with no extension byte to qualify it.
    InvalidValueInformation,
}

/// Whether a data-information byte announces a following extension byte
/// (its high bit is set).
pub open spec fn spec_has_extension(b: u8) -> bool {
    b >= 0x80
}

/// The length of the leading run of bytes that carry the continuation bit.
pub open spec fn spec_count_leading_ext(s: Seq<u8>) -> nat
    decreases s.len(),
{
    if s.len() == 0 || s[0] < 0x80 {
        0
    } else {
        1 + spec_count_leading_ext(s.drop_first())
    }
}

/// A run of `k` continuation-bearing bytes stopped by the end of the buffer
/// or by a byte without the continuation bit is exactly the leading run.
pub proof fn lemma_count_leading_ext(s: Seq<u8>, k: int)
    requires
        0 <= k <= s.len(),
        forall|j: int| 0 <= j < k ==> s[j] >= 0x80,
        k == s.len() || s[k] < 0x80,
    ensures
        spec_count_leading_ext(s) == k,
    decreases k,
{
    if k == 0 {
    } else {
        let t = s.drop_first();
        assert(forall|j: int| 0 <= j < k - 1 ==> t[j] == s[j + 1]);
        if k < s.len() {
            assert(t[k - 1] == s[k]);
        }
        lemma_count_leading_ext(t, k - 1);
    }
}

/// When the first `k` bytes all carry the continuation bit, the leading
/// run is at least `k` long.
pub proof fn lemma_count_leading_ext_at_least(s: Seq<u8>, k: int)
    requires
        0 <= k <= s.len(),
        forall|j: int| 0 <= j < k ==> s[j] >= 0x80,
    ensures
        spec_count_leading_ext(s) >= k,
    decreases k,
{
    if k == 0 {
    } else {
        let t = s.drop_first();
        assert(forall|j: int| 0 <= j < k - 1 ==> t[j] == s[j + 1]);
        lemma_count_leading_ext_at_least(t, k - 1);
    }
}

/// The first byte of a data-information block.
#[derive(Debug, PartialEq, Eq, Structural, Clone, Copy)]
pub struct DataInformationField {
    pub data: u8,
}

impl From<u8> for DataInformationField {
    fn from(data: u8) -> (r: Self) {
        DataInformationField { data }
    }
}

impl vstd::std_specs::convert::FromSpecImpl<u8> for DataInformationField {
    open spec fn obeys_from_spec() -> bool {
        true
    }

    open spec fn from_spec(data: u8) -> Self {
        DataInformationField { data }
    }
}

impl DataInformationField {
    /// True when this byte's extension bit (bit 7) is set.
    pub fn has_extension(&self) -> (r: bool)
        ensures
            r == spec_has_extension(self.data),
    {
        self.data >= 0x80
    }
}

/// One extension byte of a data-information chain.
#[derive(Debug, PartialEq, Eq, Structural, Clone, Copy)]
pub struct DataInformationFieldExtension {
    pub data: u8,
}

/// Inline control markers and reserved codes that a special-functions
/// data-information byte can select through its first extension byte.
#[derive(Debug, PartialEq, Eq, Structural, Clone, Copy)]
pub enum SpecialFunctions {
    ManufacturerSpecific,
    MoreRecordsFollow,
    IdleFiller,
    Reserved,
    GlobalReadoutRequest,
}

/// The special function selected by a first extension byte.
pub open spec fn spec_special_function(b: u8) -> SpecialFunctions {
    if b == 0x0F {
        SpecialFunctions::ManufacturerSpecific
    } else if b == 0x1F {
        SpecialFunctions::MoreRecordsFollow
    } else if b == 0x2F {
        SpecialFunctions::IdleFiller
    } else if b == 0x7F {
        SpecialFunctions::GlobalReadoutRequest
    } else {
        SpecialFunctions::Reserved
    }
}

impl From<u8> for DataInformationFieldExtension {
    fn from(data: u8) -> (r: Self) {
        DataInformationFieldExtension { data }
    }
}

impl vstd::std_specs::convert::FromSpecImpl<u8> for DataInformationFieldExtension {
    open spec fn obeys_from_spec() -> bool {
        true
    }

    open spec fn from_spec(data: u8) -> Self {
        DataInformationFieldExtension { data }
    }
}

impl DataInformationFieldExtension {
    /// The special function this extension byte selects when the base byte's
    /// coding selector is the special-functions slot.
    pub fn special_function(&self) -> (r: SpecialFunctions)
        ensures
            r == spec_special_function(self.data),
    {
        match self.data {
            0x0F => SpecialFunctions::ManufacturerSpecific,
            0x1F => SpecialFunctions::MoreRecordsFollow,
            0x2F => SpecialFunctions::IdleFiller,
            0x7F => SpecialFunctions::GlobalReadoutRequest,
            _ => SpecialFunctions::Reserved,
        }
    }
}

/// A borrowed window over the extension bytes of one block, traversable
/// from either end without consuming the underlying buffer.
#[derive(Debug, PartialEq, Eq, Clone, Copy)]
pub struct DataInformationFieldExtensions<'a>(&'a [u8]);

impl<'a> View for DataInformationFieldExtensions<'a> {
    type V = Seq<u8>;

    closed spec fn view(&self) -> Seq<u8> {
        self.0@
    }
}

impl<'a> DataInformationFieldExtensions<'a> {
    /// Wraps a borrowed byte window.
    pub fn new(data: &'a [u8]) -> (r: Self)
        ensures
            r@ == data@,
    {
        DataInformationFieldExtensions(data)
    }

    /// The number of extension bytes remaining in the window.
    pub fn len(&self) -> (r: usize)
        ensures
            r == self@.len(),
    {
        self.0.len()
    }

    /// True when no extension bytes remain.
    pub fn is_empty(&self) -> (r: bool)
        ensures
            r == (self@.len() == 0),
    {
        self.0.len() == 0
    }

    /// The extension byte at position `i` of the window.
    pub fn get(&self, i: usize) -> (r: DataInformationFieldExtension)
        requires
            i < self@.len(),
        ensures
            r.data == self@[i as int],
    {
        DataInformationFieldExtension { data: self.0[i] }
    }

    /// Takes the front extension byte, advancing the window.
    pub fn next(&mut self) -> (r: Option<DataInformationFieldExtension>)
        ensures
            old(self)@.len() == 0 ==> r is None && final(self)@ == old(self)@,
            old(self)@.len() > 0 ==> (r matches Some(e) && e.data == old(self)@[0]
                && final(self)@ == old(self)@.drop_first()),
    {
        let s = self.0;
        if s.len() == 0 {
            None
        } else {
            let head = s[0];
            self.0 = slice_subrange(s, 1, s.len());
            Some(DataInformationFieldExtension { data: head })
        }
    }

    /// Takes the back extension byte, shrinking the window.
    pub fn next_back(&mut self) -> (r: Option<DataInformationFieldExtension>)
        ensures
            old(self)@.len() == 0 ==> r is None && final(self)@ == old(self)@,
            old(self)@.len() > 0 ==> (r matches Some(e) && e.data == old(self)@.last()
                && final(self)@ == old(self)@.drop_last()),
    {
        let s = self.0;
        if s.len() == 0 {
            None
        } else {
            let tail = s[s.len() - 1];
            self.0 = slice_subrange(s, 0, s.len() - 1);
            proof {
                assert(self@ =~= old(self)@.drop_last());
            }
            Some(DataInformationFieldExtension { data: tail })
        }
    }
}

/// The raw span of one data-information field: its base byte and the
/// borrowed window of its extension bytes.
#[derive(Debug, PartialEq, Eq, Clone, Copy)]
pub struct DataInformationBlock<'a> {
    pub data_information_field: DataInformationField,
    pub data_information_field_extension: Option<DataInformationFieldExtensions<'a>>,
}

impl<'a> DataInformationBlock<'a> {
    /// The extension bytes of this block, or the empty sequence if none.
    pub open spec fn spec_chain(self) -> Seq<u8> {
        match self.data_information_field_extension {
            Some(e) => e@,
            None => Seq::empty(),
        }
    }

    /// Blocks that `parse_block` produces keep their chain within the
    /// structural bound, so sizes fit comfortably in `usize`.
    pub open spec fn wf(self) -> bool {
        self.spec_chain().len() <= MAXIMUM_DATA_INFORMATION_SIZE
    }

    /// The number of bytes the block occupies: the base byte plus its chain.
    pub fn get_size(&self) -> (r: usize)
        requires
            self.wf(),
        ensures
            r == 1 + self.spec_chain().len(),
    {
        let mut size: usize = 1;
        if let Some(vife) = &self.data_information_field_extension {
            size += vife.len();
        }
        size
    }

    /// Everything `parse_block` promises of its result on a given buffer.
    pub open spec fn spec_parse_block_post(data: Seq<u8>, r: Result<Self, DataInformationError>) -> bool {
        let rest = data.drop_first();
        let offset = spec_count_leading_ext(rest) + 1;
        &&& (r == Err::<Self, _>(DataInformationError::NoData) <==> data.len() == 0)
        &&& (r == Err::<Self, _>(DataInformationError::DataTooLong) <==> data.len() > 0
            && spec_has_extension(data[0]) && offset > MAXIMUM_DATA_INFORMATION_SIZE)
        &&& (r == Err::<Self, _>(DataInformationError::DataTooShort) <==> data.len() > 0
            && spec_has_extension(data[0]) && offset <= MAXIMUM_DATA_INFORMATION_SIZE
            && offset > rest.len())
        &&& r is Err ==> r == Err::<Self, _>(DataInformationError::NoData) || r == Err::<Self, _>(
            DataInformationError::DataTooLong,
        ) || r == Err::<Self, _>(DataInformationError::DataTooShort)
        &&& r matches Ok(block) ==> {
            &&& data.len() > 0
            &&& block.data_information_field.data == data[0]
            &&& block.wf()
            &&& if spec_has_extension(data[0]) {
                block.data_information_field_extension matches Some(e) && e@ == rest.subrange(
                    0,
                    offset as int,
                )
            } else {
                block.data_information_field_extension is None
            }
        }
    }

    /// Reads one data-information block off the front of `data`.
    ///
    /// The base byte comes first; if its extension bit is set, the block
    /// spans the following run of continuation-bearing bytes plus the byte
    /// that ends the run. A run past the structural bound or past the end
    /// of the buffer is a terminal error, not a clamp.
    pub fn parse_block(data: &'a [u8]) -> (r: Result<Self, DataInformationError>)
        ensures
            Self::spec_parse_block_post(data@, r),
    {
        if data.len() == 0 {
            return Err(DataInformationError::NoData);
        }
        let dif = DataInformationField::from(data[0]);
        let rest = slice_subrange(data, 1, data.len());
        let mut count: usize = 0;
        while count < rest.len() && rest[count] >= 0x80
            invariant
                count <= rest@.len(),
                forall|j: int| 0 <= j < count ==> rest@[j] >= 0x80,
            decreases rest@.len() - count,
        {
            count += 1;
        }
        proof {
            lemma_count_leading_ext(rest@, count as int);
        }
        let offset = count + 1;
        if dif.has_extension() {
            if offset > MAXIMUM_DATA_INFORMATION_SIZE {
                Err(DataInformationError::DataTooLong)
            } else if offset > rest.len() {
                Err(DataInformationError::DataTooShort)
            } else {
                Ok(DataInformationBlock {
                    data_information_field: dif,
                    data_information_field_extension: Some(
                        DataInformationFieldExtensions::new(slice_subrange(rest, 0, offset)),
                    ),
                })
            }
        } else {
            Ok(
                DataInformationBlock {
                    data_information_field: dif,
                    data_information_field_extension: None,
                },
            )
        }
    }
}

/// Law: a data-information field whose extension bit is clear parses to a
/// block of exactly one byte with no extension chain, whatever follows it
/// in the buffer. The law covers every result `parse_block`'s contract
/// allows.
pub proof fn lemma_single_byte_parse_block<'a>(
    data: Seq<u8>,
    r: Result<DataInformationBlock<'a>, DataInformationError>,
)
    requires
        data.len() > 0,
        !spec_has_extension(data[0]),
        DataInformationBlock::spec_parse_block_post(data, r),
    ensures
        r matches Ok(block) ==> {
            &&& block.data_information_field.data == data[0]
            &&& block.data_information_field_extension is None
            &&& block.spec_chain().len() == 0
        },
        r is Ok,
{
}

/// The semantics of a record's value: which reading of the quantity the
/// record carries.
#[derive(Debug, PartialEq, Eq, Structural, Clone, Copy)]
pub enum FunctionField {
    InstantaneousValue,
    MaximumValue,
    MinimumValue,
    ValueDuringErrorState,
}

/// The function field encoded in bits 5-4 of a data-information byte.
pub open spec fn spec_function_field(dif: u8) -> FunctionField {
    let code = (dif / 16) % 4;
    if code == 0 {
        FunctionField::InstantaneousValue
    } else if code == 1 {
        FunctionField::MaximumValue
    } else if code == 2 {
        FunctionField::MinimumValue
    } else {
        FunctionField::ValueDuringErrorState
    }
}

/// How the record's payload bytes encode its value, selected by bits 3-0
/// of the data-information byte (the special-functions slot additionally
/// consults the first extension byte).
#[derive(Debug, PartialEq, Eq, Structural, Clone, Copy)]
pub enum DataFieldCoding {
    NoData,
    Integer8Bit,
    Integer16Bit,
    Integer24Bit,
    Integer32Bit,
    Real32Bit,
    Integer48Bit,
    Integer64Bit,
    SelectionForReadout,
    BCD2Digit,
    BCD4Digit,
    BCD6Digit,
    BCD8Digit,
    VariableLength,
    BCDDigit12,
    SpecialFunctions(SpecialFunctions),
    DateTypeG,
    DateTimeTypeF,
    DateTimeTypeJ,
    DateTimeTypeI,
}

/// The data-field coding selected by a data-information byte, given the
/// first extension byte where the selector requires one.
pub open spec fn spec_data_field_coding(dif: u8, first_ext: u8) -> DataFieldCoding {
    let sel = dif % 16;
    if sel == 0 {
        DataFieldCoding::NoData
    } else if sel == 1 {
        DataFieldCoding::Integer8Bit
    } else if sel == 2 {
        DataFieldCoding::Integer16Bit
    } else if sel == 3 {
        DataFieldCoding::Integer24Bit
    } else if sel == 4 {
        DataFieldCoding::Integer32Bit
    } else if sel == 5 {
        DataFieldCoding::Real32Bit
    } else if sel == 6 {
        DataFieldCoding::Integer48Bit
    } else if sel == 7 {
        DataFieldCoding::Integer64Bit
    } else if sel == 8 {
        DataFieldCoding::SelectionForReadout
    } else if sel == 9 {
        DataFieldCoding::BCD2Digit
    } else if sel == 10 {
        DataFieldCoding::BCD4Digit
    } else if sel == 11 {
        DataFieldCoding::BCD6Digit
    } else if sel == 12 {
        DataFieldCoding::BCD8Digit
    } else if sel == 13 {
        DataFieldCoding::VariableLength
    } else if sel == 14 {
        DataFieldCoding::BCDDigit12
    } else {
        DataFieldCoding::SpecialFunctions(spec_special_function(first_ext))
    }
}

/// The storage number contributed by the first `n` extension bytes of a
/// chain: the low nibble of the byte at 1-based position `i` carries weight
/// `2^(4*i + 1)`.
pub open spec fn spec_storage_prefix(difes: Seq<u8>, n: int) -> int
    decreases n,
{
    if n <= 0 {
        0
    } else {
        spec_storage_prefix(difes, n - 1) + (difes[n - 1] % 16) * pow2((4 * n + 1) as nat)
    }
}

/// The full storage number of a block: bit 6 of the base byte plus the
/// nibbles of the whole chain at their positional weights.
pub open spec fn spec_storage_number(dif: u8, difes: Seq<u8>) -> int {
    (dif / 64) % 2 + spec_storage_prefix(difes, difes.len() as int)
}

/// The storage prefix over `n` bytes stays below `2^(4*n + 5)`.
proof fn lemma_storage_prefix_bound(difes: Seq<u8>, n: int)
    requires
        0 <= n <= difes.len(),
    ensures
        0 <= spec_storage_prefix(difes, n) < pow2((4 * n + 5) as nat),
    decreases n,
{
    if n == 0 {
        lemma_pow2_pos(5);
        lemma2_to64();
    } else {
        lemma_storage_prefix_bound(difes, n - 1);
        let e = (4 * n + 1) as nat;
        lemma_pow2_pos(e);
        lemma_mul_inequality((difes[n - 1] % 16) as int, 15, pow2(e) as int);
        lemma_pow2_adds((4 * (n - 1) + 5) as nat, 0);
        lemma_pow2_adds(e, 4);
        lemma2_to64();
        assert(pow2((e + 4) as nat) == 16 * pow2(e));
        assert(spec_storage_prefix(difes, n) <= spec_storage_prefix(difes, n - 1) + 15 * pow2(e));
    }
}

/// Marker recording that the last consulted byte of a block still had its
/// extension bit set.
#[derive(Debug, PartialEq, Eq, Structural, Clone, Copy)]
pub struct DataInformationExtensionField {}

/// The decoded meaning of a data-information block: accumulated storage
/// number, function field, data-field coding, whether the final byte still
/// announced an extension, and the block's total size in bytes.
#[derive(Debug, PartialEq, Eq, Clone)]
pub struct DataInformation {
    pub storage_number: u64,
    pub function_field: FunctionField,
    pub data_field_coding: DataFieldCoding,
    pub data_information_extension: Option<DataInformationExtensionField>,
    pub size: usize,
}

impl DataInformation {
    /// The block's total size in bytes, as recorded at decode time.
    pub fn get_size(&self) -> (r: usize)
        ensures
            r == self.size,
    {
        self.size
    }

    /// Decodes the meaning of a parsed block.
    ///
    /// The storage number accumulates bit 6 of the base byte and each
    /// extension nibble at its positional weight; the function field and
    /// data-field coding come from the base byte, where the
    /// special-functions selector additionally needs the first extension
    /// byte and fails without one.
    pub fn derive(block: &DataInformationBlock<'_>) -> (r: Result<Self, DataInformationError>)
        ensures
            ({
                let dif = block.data_information_field.data;
                let chain = block.spec_chain();
                &&& (r == Err::<Self, _>(DataInformationError::DataTooLong) <==> chain.len()
                    > MAXIMUM_DATA_INFORMATION_SIZE)
                &&& (r == Err::<Self, _>(DataInformationError::InvalidValueInformation)
                    <==> chain.len() <= MAXIMUM_DATA_INFORMATION_SIZE && dif % 16 == 15
                    && chain.len() == 0)
                &&& r is Err ==> r == Err::<Self, _>(DataInformationError::DataTooLong) || r
                    == Err::<Self, _>(DataInformationError::InvalidValueInformation)
                &&& r matches Ok(info) ==> {
                    &&& chain.len() <= MAXIMUM_DATA_INFORMATION_SIZE
                    &&& info.storage_number == spec_storage_number(dif, chain)
                    &&& info.function_field == spec_function_field(dif)
                    &&& dif % 16 == 15 ==> chain.len() > 0 && info.data_field_coding
                        == spec_data_field_coding(dif, chain[0])
                    &&& dif % 16 != 15 ==> info.data_field_coding == spec_data_field_coding(
                        dif,
                        0,
                    )
                    &&& (info.data_information_extension is Some <==> spec_has_extension(
                        if chain.len() == 0 {
                            dif
                        } else {
                            chain.last()
                        },
                    ))
                    &&& info.size == 1 + chain.len()
                }
            }),
    {
        let dif = block.data_information_field.data;
        let ghost chain = block.spec_chain();
        let chain_len: usize = match &block.data_information_field_extension {
            Some(e) => e.len(),
            None => 0,
        };
        if chain_len > MAXIMUM_DATA_INFORMATION_SIZE {
            return Err(DataInformationError::DataTooLong);
        }
        let mut storage_number: u64 = ((dif / 64) % 2) as u64;
        let mut extension_bit = dif >= 0x80;
        let mut weight: u64 = 32;
        let mut i: usize = 0;
        proof {
            lemma2_to64();
        }
        while i < chain_len
            invariant
                chain_len <= MAXIMUM_DATA_INFORMATION_SIZE,
                i <= chain_len,
                chain_len == chain.len(),
                chain_len > 0 ==> (block.data_information_field_extension matches Some(e) && e@
                    == chain),
                weight == pow2((4 * i + 5) as nat),
                storage_number == (dif / 64) % 2 + spec_storage_prefix(chain, i as int),
                storage_number < pow2((4 * i + 6) as nat),
                extension_bit == spec_has_extension(
                    if i == 0 {
                        dif
                    } else {
                        chain[i - 1]
                    },
                ),
            decreases chain_len - i,
        {
            let dife = match &block.data_information_field_extension {
                Some(e) => e.get(i).data,
                None => 0,  // unreachable: the chain is empty only when the loop never runs
            };
            proof {
                let e5 = (4 * i + 5) as nat;
                lemma_pow2_pos(e5);
                lemma_mul_inequality((dife % 16) as int, 15, pow2(e5) as int);
                lemma_pow2_adds(e5, 1);
                lemma_pow2_adds(e5, 5);
                lemma_pow2_strictly_increases(e5 + 5, 51);
                lemma2_to64();
                lemma2_to64_rest();
                assert(storage_number + (dife % 16) * pow2(e5) < 2 * pow2(e5) + 15 * pow2(e5));
                assert(17 * pow2(e5) < 32 * pow2(e5)) by {
                    lemma_pow2_pos(e5);
                }
                assert(32 * pow2(e5) == pow2((4 * (i + 1) + 6) as nat));
            }
            storage_number = storage_number + (dife % 16) as u64 * weight;
            extension_bit = dife >= 0x80;
            i += 1;
            proof {
                let e = (4 * (i - 1) + 5) as nat;
                lemma_pow2_adds(e, 4);
                if e + 4 < 50 {
                    lemma_pow2_strictly_increases(e + 4, 50);
                }
                lemma2_to64_rest();
            }
            weight = weight * 16;
        }
        let function_field = match (dif / 16) % 4 {
            0 => FunctionField::InstantaneousValue,
            1 => FunctionField::MaximumValue,
            2 => FunctionField::MinimumValue,
            _ => FunctionField::ValueDuringErrorState,
        };
        let sel = dif % 16;
        let data_field_coding = if sel == 0 {
            DataFieldCoding::NoData
        } else if sel == 1 {
            DataFieldCoding::Integer8Bit
        } else if sel == 2 {
            DataFieldCoding::Integer16Bit
        } else if sel == 3 {
            DataFieldCoding::Integer24Bit
        } else if sel == 4 {
            DataFieldCoding::Integer32Bit
        } else if sel == 5 {
            DataFieldCoding::Real32Bit
        } else if sel == 6 {
            DataFieldCoding::Integer48Bit
        } else if sel == 7 {
            DataFieldCoding::Integer64Bit
        } else if sel == 8 {
            DataFieldCoding::SelectionForReadout
        } else if sel == 9 {
            DataFieldCoding::BCD2Digit
        } else if sel == 10 {
            DataFieldCoding::BCD4Digit
        } else if sel == 11 {
            DataFieldCoding::BCD6Digit
        } else if sel == 12 {
            DataFieldCoding::BCD8Digit
        } else if sel == 13 {
            DataFieldCoding::VariableLength
        } else if sel == 14 {
            DataFieldCoding::BCDDigit12
        } else {
            let first = match &block.data_information_field_extension {
                Some(e) => {
                    if e.len() > 0 {
                        e.get(0)
                    } else {
                        return Err(DataInformationError::InvalidValueInformation);
                    }
                },
                None => {
                    return Err(DataInformationError::InvalidValueInformation);
                },
            };
            DataFieldCoding::SpecialFunctions(first.special_function())
        };
        Ok(
            DataInformation {
                storage_number,
                function_field,
                data_field_coding,
                data_information_extension: if extension_bit {
                    Some(DataInformationExtensionField {})
                } else {
                    None
                },
                size: 1 + chain_len,
            },
        )
    }
}

/// The two decimal digits packed in one BCD byte: high nibble tens, low
/// nibble ones.
pub open spec fn spec_bcd_digits(b: u8) -> int {
    (b / 16) * 10 + b % 16
}

/// The decimal value of a little-endian BCD byte string: the byte at
/// position `i` carries weight `100^i`.
pub open spec fn spec_bcd_value(s: Seq<u8>) -> int
    decreases s.len(),
{
    if s.len() == 0 {
        0
    } else {
        spec_bcd_value(s.drop_first()) * 100 + spec_bcd_digits(s[0])
    }
}

/// Every nibble of every byte in the string is a decimal digit.
pub open spec fn spec_bcd_nibbles_valid(s: Seq<u8>) -> bool {
    forall|i: int| 0 <= i < s.len() ==> s[i] / 16 <= 9 && s[i] % 16 <= 9
}

/// `100^k`.
pub open spec fn spec_pow100(k: int) -> int
    decreases k,
{
    if k <= 0 {
        1
    } else {
        100 * spec_pow100(k - 1)
    }
}

/// A BCD string's value is bounded: three times the value stays below
/// five times `100^len`.
proof fn lemma_bcd_value_bound(s: Seq<u8>)
    ensures
        0 <= spec_bcd_value(s),
        3 * spec_bcd_value(s) <= 5 * spec_pow100(s.len() as int) - 5,
    decreases s.len(),
{
    if s.len() == 0 {
    } else {
        lemma_bcd_value_bound(s.drop_first());
        assert(spec_bcd_digits(s[0]) <= 165);
        assert(spec_pow100(s.len() as int) == 100 * spec_pow100(s.len() - 1));
    }
}

/// Splitting a BCD string at `k` splits its value at weight `100^k`.
proof fn lemma_bcd_split(s: Seq<u8>, k: int)
    requires
        0 <= k <= s.len(),
    ensures
        spec_bcd_value(s) == spec_bcd_value(s.take(k)) + spec_pow100(k) * spec_bcd_value(s.skip(k)),
    decreases k,
{
    if k == 0 {
        assert(s.take(0) =~= Seq::<u8>::empty());
        assert(s.skip(0) =~= s);
    } else {
        let t = s.drop_first();
        lemma_bcd_split(t, k - 1);
        assert(t.take(k - 1) =~= s.take(k).drop_first());
        assert(t.skip(k - 1) =~= s.skip(k));
        assert(s.take(k)[0] == s[0]);
        assert(spec_bcd_value(s.take(k)) == spec_bcd_value(s.take(k).drop_first()) * 100
            + spec_bcd_digits(s[0]));
        assert((spec_bcd_value(t.take(k - 1)) + spec_pow100(k - 1) * spec_bcd_value(t.skip(k - 1)))
            * 100 == spec_bcd_value(t.take(k - 1)) * 100 + (100 * spec_pow100(k - 1))
            * spec_bcd_value(t.skip(k - 1))) by (nonlinear_arith);
    }
}

/// Decimal value of one BCD byte.
pub fn bcd_to_u8(bcd: u8) -> (r: u8)
    ensures
        r == spec_bcd_digits(bcd),
{
    (bcd / 16) * 10 + bcd % 16
}

/// Decimal value of a one- or two-byte little-endian BCD string.
pub fn bcd_to_u16(bcd: &[u8]) -> (r: u16)
    requires
        bcd@.len() == 1 || bcd@.len() == 2,
    ensures
        r == spec_bcd_value(bcd@),
{
    proof {
        lemma_bcd_split(bcd@, 1);
        assert(bcd@.take(1) =~= seq![bcd@[0]]);
        assert(spec_bcd_value(seq![bcd@[0]].drop_first()) == 0);
        if bcd@.len() == 2 {
            assert(bcd@.skip(1) =~= seq![bcd@[1]]);
            assert(spec_bcd_value(seq![bcd@[1]].drop_first()) == 0);
        } else {
            assert(bcd@.skip(1) =~= Seq::<u8>::empty());
        }
    }
    if bcd.len() == 1 {
        bcd_to_u8(bcd[0]) as u16
    } else {
        bcd_to_u8(bcd[1]) as u16 * 100 + bcd_to_u8(bcd[0]) as u16
    }
}

/// Decimal value of a three- or four-byte little-endian BCD string.
pub fn bcd_to_u32(bcd: &[u8]) -> (r: u32)
    requires
        bcd@.len() == 3 || bcd@.len() == 4,
    ensures
        r == spec_bcd_value(bcd@),
{
    proof {
        lemma_bcd_split(bcd@, 2);
        assert(spec_pow100(0) == 1);
        assert(spec_pow100(1) == 100);
        assert(spec_pow100(2) == 10000);
        assert(bcd@.take(2) =~= bcd@.subrange(0, 2));
        if bcd@.len() == 3 {
            assert(bcd@.skip(2) =~= seq![bcd@[2]]);
            assert(spec_bcd_value(seq![bcd@[2]].drop_first()) == 0);
        } else {
            assert(bcd@.skip(2) =~= bcd@.subrange(2, 4));
        }
    }
    let low = bcd_to_u16(&bcd[0..2]) as u32;
    assert(low == spec_bcd_value(bcd@.take(2)));
    if bcd.len() == 3 {
        let hi = bcd_to_u8(bcd[2]) as u32;
        assert(spec_bcd_value(bcd@.skip(2)) == spec_bcd_digits(bcd@[2]));
        assert(hi * 10000 + low == spec_bcd_value(bcd@.take(2)) + spec_pow100(2) * spec_bcd_value(
            bcd@.skip(2),
        ));
        hi * 10000 + low
    } else {
        let hi = bcd_to_u16(&bcd[2..4]) as u32;
        assert(hi == spec_bcd_value(bcd@.skip(2)));
        assert(hi * 10000 + low == spec_bcd_value(bcd@.take(2)) + spec_pow100(2) * spec_bcd_value(
            bcd@.skip(2),
        ));
        hi * 10000 + low
    }
}

/// Decimal value of a six-byte little-endian BCD string.
pub fn bcd_to_u48(bcd: &[u8]) -> (r: u64)
    requires
        bcd@.len() == 6,
    ensures
        r == spec_bcd_value(bcd@),
{
    proof {
        lemma_bcd_split(bcd@, 2);
        assert(spec_pow100(0) == 1);
        assert(spec_pow100(1) == 100);
        assert(spec_pow100(2) == 10000);
        assert(bcd@.take(2) =~= bcd@.subrange(0, 2));
        assert(bcd@.skip(2) =~= bcd@.subrange(2, 6));
    }
    bcd_to_u32(&bcd[2..6]) as u64 * 10000 + bcd_to_u16(&bcd[0..2]) as u64
}

/// The unsigned value of a little-endian byte string: the byte at position
/// `i` carries weight `256^i`.
pub open spec fn spec_le_bytes(s: Seq<u8>) -> int
    decreases s.len(),
{
    if s.len() == 0 {
        0
    } else {
        s[0] + 256 * spec_le_bytes(s.drop_first())
    }
}

/// A little-endian byte string's value stays below `2^(8*len)`.
proof fn lemma_le_bytes_bound(s: Seq<u8>)
    ensures
        0 <= spec_le_bytes(s) < pow2((8 * s.len()) as nat),
    decreases s.len(),
{
    if s.len() == 0 {
        lemma_pow2_pos(0);
    } else {
        lemma_le_bytes_bound(s.drop_first());
        let e = (8 * (s.len() - 1)) as nat;
        lemma_pow2_pos(e);
        lemma_pow2_adds(e, 8);
        lemma2_to64();
        assert(256 * spec_le_bytes(s.drop_first()) <= 256 * (pow2(e) - 1)) by (nonlinear_arith)
            requires
                spec_le_bytes(s.drop_first()) <= pow2(e) - 1,
        ;
    }
}

/// Reads the unsigned little-endian value of up to eight bytes.
pub fn le_value(bytes: &[u8]) -> (r: u64)
    requires
        bytes@.len() <= 8,
    ensures
        r == spec_le_bytes(bytes@),
{
    let mut acc: u64 = 0;
    let mut i: usize = bytes.len();
    proof {
        assert(bytes@.skip(i as int) =~= Seq::<u8>::empty());
        lemma_pow2_pos(0);
    }
    while i > 0
        invariant
            i <= bytes@.len() <= 8,
            acc == spec_le_bytes(bytes@.skip(i as int)),
            acc < pow2((8 * (bytes@.len() - i)) as nat),
        decreases i,
    {
        proof {
            lemma_le_bytes_bound(bytes@.skip(i as int));
            let e = (8 * (bytes@.len() - i)) as nat;
            lemma_pow2_adds(e, 8);
            lemma2_to64();
            lemma2_to64_rest();
            if e + 8 < 64 {
                lemma_pow2_strictly_increases(e + 8, 64);
            }
            assert(256 * acc <= 256 * (pow2(e) - 1)) by (nonlinear_arith)
                requires
                    acc <= pow2(e) - 1,
            ;
            assert(bytes@.skip(i - 1).drop_first() =~= bytes@.skip(i as int));
            assert(bytes@.skip(i - 1)[0] == bytes@[i - 1]);
        }
        i -= 1;
        acc = bytes[i] as u64 + 256 * acc;
    }
    proof {
        assert(bytes@.skip(0) =~= bytes@);
    }
    acc
}

/// The two's-complement reading of a `bits`-wide raw value.
pub open spec fn spec_signed(raw: int, bits: nat) -> int {
    if raw >= pow2((bits - 1) as nat) {
        raw - pow2(bits)
    } else {
        raw
    }
}

/// Interprets a raw little-endian value of the given byte width as a
/// two's-complement signed number.
pub fn sign_extend(raw: u64, width: usize) -> (r: i64)
    requires
        width == 1 || width == 2 || width == 3 || width == 4 || width == 6 || width == 8,
        raw < pow2((8 * width) as nat),
    ensures
        r == spec_signed(raw as int, (8 * width) as nat),
{
    proof {
        lemma2_to64();
        lemma2_to64_rest();
    }
    let half: u64 = match width {
        1 => 0x80,
        2 => 0x8000,
        3 => 0x800000,
        4 => 0x80000000,
        6 => 0x800000000000,
        _ => 0x8000000000000000,
    };
    let max_val: u64 = match width {
        1 => 0xFF,
        2 => 0xFFFF,
        3 => 0xFFFFFF,
        4 => 0xFFFFFFFF,
        6 => 0xFFFFFFFFFFFF,
        _ => 0xFFFFFFFFFFFFFFFF,
    };
    if raw >= half {
        -1 - ((max_val - raw) as i64)
    } else {
        raw as i64
    }
}

/// A borrowed view of a text value as it sits on the wire: the protocol
/// stores the least-significant character first, so reading order is the
/// reverse of storage order.
#[derive(Debug, PartialEq, Eq, Clone, Copy)]
pub struct TextUnit<'a>(&'a [u8]);

impl<'a> View for TextUnit<'a> {
    type V = Seq<u8>;

    closed spec fn view(&self) -> Seq<u8> {
        self.0@
    }
}

/// Relies on String::from_utf8: it succeeds exactly on valid UTF-8 input
/// and then carries those bytes as the string's characters.
#[verifier::external_body]
fn string_from_bytes(v: Vec<u8>) -> (r: Option<String>)
    ensures
        r is Some <==> valid_utf8(v@),
        r matches Some(s) ==> s@ == decode_utf8(v@),
{
    match String::from_utf8(v) {
        Ok(s) => Some(s),
        Err(_) => None,
    }
}

impl<'a> TextUnit<'a> {
    /// Wraps a borrowed byte window holding a reversed-order text value.
    pub fn new(input: &'a [u8]) -> (r: Self)
        ensures
            r@ == input@,
    {
        TextUnit(input)
    }

    /// The text in reading order, or `None` when the reversed bytes are
    /// not valid UTF-8.
    pub fn render(&self) -> (r: Option<String>)
        ensures
            r is Some <==> valid_utf8(self@.reverse()),
            r matches Some(s) ==> s@ == decode_utf8(self@.reverse()),
    {
        let n = self.0.len();
        let mut rev: Vec<u8> = Vec::new();
        let mut i: usize = 0;
        while i < n
            invariant
                n == self@.len(),
                i <= n,
                rev@.len() == i,
                forall|j: int| 0 <= j < i ==> rev@[j] == self@[n - 1 - j],
            decreases n - i,
        {
            rev.push(self.0[n - 1 - i]);
            i += 1;
        }
        proof {
            assert(rev@ =~= self@.reverse());
        }
        string_from_bytes(rev)
    }
}

/// A calendar month.
#[derive(Debug, PartialEq, Eq, Structural, Clone, Copy)]
pub enum Month {
    January,
    February,
    March,
    April,
    May,
    June,
    July,
    August,
    September,
    October,
    November,
    December,
}

pub type Year = u16;

pub type DayOfMonth = u8;

pub type Hour = u8;

pub type Minute = u8;

pub type Second = u8;

/// The month selected by a nibble in `0..=11`.
pub open spec fn spec_month(n: u8) -> Month {
    if n == 0 {
        Month::January
    } else if n == 1 {
        Month::February
    } else if n == 2 {
        Month::March
    } else if n == 3 {
        Month::April
    } else if n == 4 {
        Month::May
    } else if n == 5 {
        Month::June
    } else if n == 6 {
        Month::July
    } else if n == 7 {
        Month::August
    } else if n == 8 {
        Month::September
    } else if n == 9 {
        Month::October
    } else if n == 10 {
        Month::November
    } else {
        Month::December
    }
}

/// One date or time component: a specific value, or the protocol's
/// "applies to every value" sentinel.
#[derive(Debug, PartialEq, Eq, Structural, Clone, Copy)]
pub enum SingleOrEvery<T> {
    Single(T),
    Every(),
}

/// An exactly represented decoded number.
///
/// Integer and BCD codings reconstruct to integers; the 32-bit real coding
/// is kept as its raw little-endian IEEE 754 bits for the caller to
/// interpret as a float outside the decoder.
#[derive(Debug, PartialEq, Eq, Structural, Clone, Copy)]
pub enum Numeric {
    Integer(i64),
    Unsigned(u64),
    Real32Bits(u32),
}

/// A decoded payload value.
#[derive(Debug, PartialEq, Eq, Clone, Copy)]
pub enum DataType<'a> {
    Text(TextUnit<'a>),
    Number(Numeric),
    Date(SingleOrEvery<DayOfMonth>, SingleOrEvery<Month>, SingleOrEvery<Year>),
    DateTime(
        SingleOrEvery<DayOfMonth>,
        SingleOrEvery<Month>,
        SingleOrEvery<Year>,
        SingleOrEvery<Hour>,
        SingleOrEvery<Minute>,
    ),
    DateTimeWithSeconds(
        SingleOrEvery<DayOfMonth>,
        SingleOrEvery<Month>,
        SingleOrEvery<Year>,
        SingleOrEvery<Hour>,
        SingleOrEvery<Minute>,
        SingleOrEvery<Second>,
    ),
}

/// A decoded payload together with the number of payload bytes it consumed.
#[derive(Debug, PartialEq, Eq, Clone, Copy)]
pub struct Data<'a> {
    pub value: Option<DataType<'a>>,
    pub size: usize,
}

impl<'a> Data<'a> {
    /// The number of payload bytes this value consumed.
    pub fn get_size(&self) -> (r: usize)
        ensures
            r == self.size,
    {
        self.size
    }
}

/// The day-of-month field of a date of type G: bits 0-4, where 0 means
/// "every day".
pub open spec fn spec_day_g(b: u8) -> SingleOrEvery<u8> {
    if b % 32 == 0 {
        SingleOrEvery::Every()
    } else {
        SingleOrEvery::Single(b % 32)
    }
}

/// A five-bit day or hour field whose all-ones pattern means "every".
pub open spec fn spec_five_bit_field(b: u8) -> SingleOrEvery<u8> {
    if b % 32 == 31 {
        SingleOrEvery::Every()
    } else {
        SingleOrEvery::Single(b % 32)
    }
}

/// A six-bit minute field whose all-ones pattern means "every".
pub open spec fn spec_minute_field(b: u8) -> SingleOrEvery<u8> {
    if b % 64 == 63 {
        SingleOrEvery::Every()
    } else {
        SingleOrEvery::Single(b % 64)
    }
}

/// The month nibble, where 15 means "every month"; nibbles 12-14 are
/// outside the defined domain and rejected before this is consulted.
pub open spec fn spec_month_field(nibble: u8) -> SingleOrEvery<Month> {
    if nibble == 15 {
        SingleOrEvery::Every()
    } else {
        SingleOrEvery::Single(spec_month(nibble))
    }
}

/// The packed seven-bit year of date types G and F: the high nibble of the
/// month byte combined with the top three bits of the day byte shifted up
/// by one, with the pattern 0x7F meaning "every year".
pub open spec fn spec_year_field(day_byte: u8, month_byte: u8) -> SingleOrEvery<u16> {
    let year = ((month_byte & 0xF0) as u16) | (((day_byte & 0xE0) as u16) << 1);
    if year == 0x7F {
        SingleOrEvery::Every()
    } else {
        SingleOrEvery::Single(year)
    }
}

/// What a fixed-width signed-integer coding of `w` bytes decodes to on
/// payload `s`: too-short input fails, otherwise the little-endian value
/// sign-extended from `8*w` bits, consuming `w` bytes.
pub open spec fn spec_fixed_int_result<'a>(
    r: Result<Data<'a>, crate::variable_user_data::DataRecordError>,
    s: Seq<u8>,
    w: int,
) -> bool {
    if s.len() < w {
        r == Err::<Data<'a>, _>(crate::variable_user_data::DataRecordError::InsufficientData)
    } else {
        {
            &&& r matches Ok(d)
            &&& d.size == w
            &&& d.value matches Some(DataType::Number(Numeric::Integer(v)))
            &&& v == spec_signed(spec_le_bytes(s.take(w)), (8 * w) as nat)
        }
    }
}

/// What an unsigned BCD coding of `w` bytes decodes to on payload `s`:
/// too-short input fails, a nibble outside the decimal digits fails, and
/// otherwise the positionally weighted decimal value, consuming `w` bytes.
pub open spec fn spec_bcd_result<'a>(
    r: Result<Data<'a>, crate::variable_user_data::DataRecordError>,
    s: Seq<u8>,
    w: int,
) -> bool {
    if s.len() < w {
        r == Err::<Data<'a>, _>(crate::variable_user_data::DataRecordError::InsufficientData)
    } else if !spec_bcd_nibbles_valid(s.take(w)) {
        r == Err::<Data<'a>, _>(crate::variable_user_data::DataRecordError::InvalidData)
    } else {
        {
            &&& r matches Ok(d)
            &&& d.size == w
            &&& d.value matches Some(DataType::Number(Numeric::Integer(v)))
            &&& v == spec_bcd_value(s.take(w))
        }
    }
}

/// What the variable-length coding decodes to on payload `s`, keyed by its
/// leading selector byte: a reversed text window, a signed BCD number of
/// nominal length 2, 4, 6 or 8, or an explicit "unsupported" failure for
/// the ranges this decoder does not implement.
pub open spec fn spec_varlen_result<'a>(
    r: Result<Data<'a>, crate::variable_user_data::DataRecordError>,
    s: Seq<u8>,
) -> bool {
    if s.len() == 0 {
        r == Err::<Data<'a>, _>(crate::variable_user_data::DataRecordError::InsufficientData)
    } else {
        let c = s[0];
        if c <= 0xBF {
            if s.len() < 1 + c {
                r == Err::<Data<'a>, _>(
                    crate::variable_user_data::DataRecordError::InsufficientData,
                )
            } else {
                {
                    &&& r matches Ok(d)
                    &&& d.size == c + 1
                    &&& d.value matches Some(DataType::Text(t))
                    &&& t@ == s.subrange(1, 1 + c)
                }
            }
        } else if c <= 0xD9 {
            let nominal = c - 0xC0;
            if nominal == 2 || nominal == 4 || nominal == 6 || nominal == 8 {
                let w = nominal / 2;
                if s.len() < 1 + w {
                    r == Err::<Data<'a>, _>(
                        crate::variable_user_data::DataRecordError::InsufficientData,
                    )
                } else if !spec_bcd_nibbles_valid(s.subrange(1, 1 + w)) {
                    r == Err::<Data<'a>, _>(crate::variable_user_data::DataRecordError::InvalidData)
                } else {
                    {
                        &&& r matches Ok(d)
                        &&& d.size == nominal
                        &&& d.value matches Some(DataType::Number(Numeric::Integer(v)))
                        &&& v == if c > 0xC9 {
                            -spec_bcd_value(s.subrange(1, 1 + w))
                        } else {
                            spec_bcd_value(s.subrange(1, 1 + w))
                        }
                    }
                }
            } else {
                r == Err::<Data<'a>, _>(
                    crate::variable_user_data::DataRecordError::UnsupportedEncoding,
                )
            }
        } else {
            r == Err::<Data<'a>, _>(crate::variable_user_data::DataRecordError::UnsupportedEncoding)
        }
    }
}

/// What a date of type G decodes to on payload `s`: day, month and packed
/// year from two bytes, rejecting month nibbles outside the defined domain.
pub open spec fn spec_date_g_result<'a>(
    r: Result<Data<'a>, crate::variable_user_data::DataRecordError>,
    s: Seq<u8>,
) -> bool {
    if s.len() < 2 {
        r == Err::<Data<'a>, _>(crate::variable_user_data::DataRecordError::InsufficientData)
    } else if 12 <= s[1] % 16 && s[1] % 16 <= 14 {
        r == Err::<Data<'a>, _>(crate::variable_user_data::DataRecordError::InvalidData)
    } else {
        {
            &&& r matches Ok(d)
            &&& d.size == 2
            &&& d.value == Some(
                DataType::Date(
                    spec_day_g(s[0]),
                    spec_month_field(s[1] % 16),
                    spec_year_field(s[0], s[1]),
                ),
            )
        }
    }
}

/// What a date-time of type F decodes to on payload `s`: minute, hour,
/// day, month and packed year from four bytes, rejecting month nibbles
/// outside the defined domain.
pub open spec fn spec_datetime_f_result<'a>(
    r: Result<Data<'a>, crate::variable_user_data::DataRecordError>,
    s: Seq<u8>,
) -> bool {
    if s.len() < 4 {
        r == Err::<Data<'a>, _>(crate::variable_user_data::DataRecordError::InsufficientData)
    } else if 12 <= s[3] % 16 && s[3] % 16 <= 14 {
        r == Err::<Data<'a>, _>(crate::variable_user_data::DataRecordError::InvalidData)
    } else {
        {
            &&& r matches Ok(d)
            &&& d.size == 4
            &&& d.value == Some(
                DataType::DateTime(
                    spec_five_bit_field(s[2]),
                    spec_month_field(s[3] % 16),
                    spec_year_field(s[2], s[3]),
                    spec_five_bit_field(s[1]),
                    spec_minute_field(s[0]),
                ),
            )
        }
    }
}

/// Checks that every nibble of the string is a decimal digit.
fn bcd_nibbles_valid(bytes: &[u8]) -> (r: bool)
    ensures
        r == spec_bcd_nibbles_valid(bytes@),
{
    let mut i: usize = 0;
    while i < bytes.len()
        invariant
            i <= bytes@.len(),
            forall|j: int| 0 <= j < i ==> bytes@[j] / 16 <= 9 && bytes@[j] % 16 <= 9,
        decreases bytes@.len() - i,
    {
        if bytes[i] / 16 > 9 || bytes[i] % 16 > 9 {
            return false;
        }
        i += 1;
    }
    true
}

/// Decodes a month nibble, rejecting the values outside the defined domain.
fn month_from_nibble(nibble: u8) -> (r: Result<Month, crate::variable_user_data::DataRecordError>)
    requires
        nibble < 15,
    ensures
        nibble <= 11 ==> r == Ok::<_, crate::variable_user_data::DataRecordError>(
            spec_month(nibble),
        ),
        nibble > 11 ==> r == Err::<Month, _>(crate::variable_user_data::DataRecordError::InvalidData),
{
    match nibble {
        0x0 => Ok(Month::January),
        0x1 => Ok(Month::February),
        0x2 => Ok(Month::March),
        0x3 => Ok(Month::April),
        0x4 => Ok(Month::May),
        0x5 => Ok(Month::June),
        0x6 => Ok(Month::July),
        0x7 => Ok(Month::August),
        0x8 => Ok(Month::September),
        0x9 => Ok(Month::October),
        0xA => Ok(Month::November),
        0xB => Ok(Month::December),
        _ => Err(crate::variable_user_data::DataRecordError::InvalidData),
    }
}

impl DataFieldCoding {
    /// Decodes the payload bytes selected by this coding.
    ///
    /// Fixed-width integers are little-endian and sign-extended; BCD values
    /// are positionally weighted decimal digits, rejected when a nibble is
    /// not a digit; the 32-bit real is kept as raw bits; variable-length
    /// payloads carry reversed text or signed BCD; dates come bit-packed.
    /// Codings this decoder does not implement fail with an explicit
    /// "unsupported" error instead of fabricating a value.
    pub fn parse<'a>(&self, input: &'a [u8]) -> (r: Result<
        Data<'a>,
        crate::variable_user_data::DataRecordError,
    >)
        ensures
            ({
                let s = input@;
                match *self {
                    DataFieldCoding::NoData => r matches Ok(d) && d.value is None && d.size == 0,
                    DataFieldCoding::SelectionForReadout => r matches Ok(d) && d.value is None
                        && d.size == 0,
                    DataFieldCoding::Integer8Bit => spec_fixed_int_result(r, s, 1),
                    DataFieldCoding::Integer16Bit => spec_fixed_int_result(r, s, 2),
                    DataFieldCoding::Integer24Bit => spec_fixed_int_result(r, s, 3),
                    DataFieldCoding::Integer32Bit => spec_fixed_int_result(r, s, 4),
                    DataFieldCoding::Integer48Bit => spec_fixed_int_result(r, s, 6),
                    DataFieldCoding::Integer64Bit => spec_fixed_int_result(r, s, 8),
                    DataFieldCoding::Real32Bit => if s.len() < 4 {
                        r == Err::<Data<'a>, _>(
                            crate::variable_user_data::DataRecordError::InsufficientData,
                        )
                    } else {
                        {
                            &&& r matches Ok(d)
                            &&& d.size == 4
                            &&& d.value matches Some(DataType::Number(Numeric::Real32Bits(b)))
                            &&& b == spec_le_bytes(s.take(4))
                        }
                    },
                    DataFieldCoding::BCD2Digit => spec_bcd_result(r, s, 1),
                    DataFieldCoding::BCD4Digit => spec_bcd_result(r, s, 2),
                    DataFieldCoding::BCD6Digit => spec_bcd_result(r, s, 3),
                    DataFieldCoding::BCD8Digit => spec_bcd_result(r, s, 4),
                    DataFieldCoding::BCDDigit12 => spec_bcd_result(r, s, 6),
                    DataFieldCoding::VariableLength => spec_varlen_result(r, s),
                    DataFieldCoding::DateTypeG => spec_date_g_result(r, s),
                    DataFieldCoding::DateTimeTypeF => spec_datetime_f_result(r, s),
                    DataFieldCoding::SpecialFunctions(_) => r == Err::<Data<'a>, _>(
                        crate::variable_user_data::DataRecordError::UnsupportedEncoding,
                    ),
                    DataFieldCoding::DateTimeTypeI => r == Err::<Data<'a>, _>(
                        crate::variable_user_data::DataRecordError::UnsupportedEncoding,
                    ),
                    DataFieldCoding::DateTimeTypeJ => r == Err::<Data<'a>, _>(
                        crate::variable_user_data::DataRecordError::UnsupportedEncoding,
                    ),
                }
            }),
    {
        match *self {
            DataFieldCoding::NoData => Ok(Data { value: None, size: 0 }),
            DataFieldCoding::SelectionForReadout => Ok(Data { value: None, size: 0 }),
            DataFieldCoding::Integer8Bit => Self::parse_fixed_int(input, 1),
            DataFieldCoding::Integer16Bit => Self::parse_fixed_int(input, 2),
            DataFieldCoding::Integer24Bit => Self::parse_fixed_int(input, 3),
            DataFieldCoding::Integer32Bit => Self::parse_fixed_int(input, 4),
            DataFieldCoding::Integer48Bit => Self::parse_fixed_int(input, 6),
            DataFieldCoding::Integer64Bit => Self::parse_fixed_int(input, 8),
            DataFieldCoding::Real32Bit => {
                if input.len() < 4 {
                    return Err(crate::variable_user_data::DataRecordError::InsufficientData);
                }
                let raw = le_value(&input[0..4]);
                proof {
                    lemma_le_bytes_bound(input@.subrange(0, 4));
                    lemma2_to64();
                    lemma2_to64_rest();
                    assert(input@.subrange(0, 4) =~= input@.take(4));
                }
                Ok(
                    Data {
                        value: Some(DataType::Number(Numeric::Real32Bits(raw as u32))),
                        size: 4,
                    },
                )
            },
            DataFieldCoding::BCD2Digit => Self::parse_bcd(input, 1),
            DataFieldCoding::BCD4Digit => Self::parse_bcd(input, 2),
            DataFieldCoding::BCD6Digit => Self::parse_bcd(input, 3),
            DataFieldCoding::BCD8Digit => Self::parse_bcd(input, 4),
            DataFieldCoding::BCDDigit12 => Self::parse_bcd(input, 6),
            DataFieldCoding::VariableLength => Self::parse_variable_length(input),
            DataFieldCoding::DateTypeG => Self::parse_date_g(input),
            DataFieldCoding::DateTimeTypeF => Self::parse_datetime_f(input),
            DataFieldCoding::SpecialFunctions(_) => Err(
                crate::variable_user_data::DataRecordError::UnsupportedEncoding,
            ),
            DataFieldCoding::DateTimeTypeI => Err(
                crate::variable_user_data::DataRecordError::UnsupportedEncoding,
            ),
            DataFieldCoding::DateTimeTypeJ => Err(
                crate::variable_user_data::DataRecordError::UnsupportedEncoding,
            ),
        }
    }

    /// Decodes a little-endian sign-extended integer of `width` bytes.
    fn parse_fixed_int<'a>(input: &'a [u8], width: usize) -> (r: Result<
        Data<'a>,
        crate::variable_user_data::DataRecordError,
    >)
        requires
            width == 1 || width == 2 || width == 3 || width == 4 || width == 6 || width == 8,
        ensures
            spec_fixed_int_result(r, input@, width as int),
    {
        if input.len() < width {
            return Err(crate::variable_user_data::DataRecordError::InsufficientData);
        }
        let raw = le_value(&input[0..width]);
        proof {
            lemma_le_bytes_bound(input@.subrange(0, width as int));
            assert(input@.subrange(0, width as int) =~= input@.take(width as int));
        }
        let value = sign_extend(raw, width);
        Ok(Data { value: Some(DataType::Number(Numeric::Integer(value))), size: width })
    }

    /// Decodes an unsigned BCD number of `width` bytes.
    fn parse_bcd<'a>(input: &'a [u8], width: usize) -> (r: Result<
        Data<'a>,
        crate::variable_user_data::DataRecordError,
    >)
        requires
            width == 1 || width == 2 || width == 3 || width == 4 || width == 6,
        ensures
            spec_bcd_result(r, input@, width as int),
    {
        if input.len() < width {
            return Err(crate::variable_user_data::DataRecordError::InsufficientData);
        }
        let window = &input[0..width];
        proof {
            assert(input@.subrange(0, width as int) =~= input@.take(width as int));
        }
        if !bcd_nibbles_valid(window) {
            return Err(crate::variable_user_data::DataRecordError::InvalidData);
        }
        let value: u64 = if width == 1 {
            bcd_to_u8(input[0]) as u64
        } else if width == 2 {
            bcd_to_u16(window) as u64
        } else if width == 3 || width == 4 {
            bcd_to_u32(window) as u64
        } else {
            bcd_to_u48(window)
        };
        proof {
            if width == 1 {
                assert(input@.take(1) =~= seq![input@[0]]);
                assert(spec_bcd_value(seq![input@[0]].drop_first()) == 0);
            }
            lemma_bcd_value_bound(input@.take(width as int));
            assert(spec_pow100(3) == 100 * spec_pow100(2));
            assert(spec_pow100(4) == 100 * spec_pow100(3));
            assert(spec_pow100(5) == 100 * spec_pow100(4));
            assert(spec_pow100(6) == 100 * spec_pow100(5));
            assert(spec_pow100(0) == 1);
            assert(spec_pow100(1) == 100);
            assert(spec_pow100(2) == 10000);
        }
        Ok(Data { value: Some(DataType::Number(Numeric::Integer(value as i64))), size: width })
    }

    /// Decodes a variable-length payload keyed by its selector byte.
    fn parse_variable_length<'a>(input: &'a [u8]) -> (r: Result<
        Data<'a>,
        crate::variable_user_data::DataRecordError,
    >)
        ensures
            spec_varlen_result(r, input@),
    {
        if input.len() == 0 {
            return Err(crate::variable_user_data::DataRecordError::InsufficientData);
        }
        let c = input[0];
        if c <= 0xBF {
            let length = c as usize;
            if input.len() < 1 + length {
                return Err(crate::variable_user_data::DataRecordError::InsufficientData);
            }
            let text = TextUnit::new(&input[1..1 + length]);
            Ok(Data { value: Some(DataType::Text(text)), size: length + 1 })
        } else if c <= 0xD9 {
            let nominal = c - 0xC0;
            if nominal == 2 || nominal == 4 || nominal == 6 || nominal == 8 {
                let w = (nominal / 2) as usize;
                if input.len() < 1 + w {
                    return Err(crate::variable_user_data::DataRecordError::InsufficientData);
                }
                let window = &input[1..1 + w];
                if !bcd_nibbles_valid(window) {
                    return Err(crate::variable_user_data::DataRecordError::InvalidData);
                }
                let magnitude: u64 = if w == 1 {
                    bcd_to_u8(input[1]) as u64
                } else if w == 2 {
                    bcd_to_u16(window) as u64
                } else {
                    bcd_to_u32(window) as u64
                };
                proof {
                    if w == 1 {
                        assert(input@.subrange(1, 2) =~= seq![input@[1]]);
                        assert(spec_bcd_value(seq![input@[1]].drop_first()) == 0);
                    }
                }
                let value: i64 = if c > 0xC9 {
                    -(magnitude as i64)
                } else {
                    magnitude as i64
                };
                Ok(
                    Data {
                        value: Some(DataType::Number(Numeric::Integer(value))),
                        size: nominal as usize,
                    },
                )
            } else {
                Err(crate::variable_user_data::DataRecordError::UnsupportedEncoding)
            }
        } else {
            Err(crate::variable_user_data::DataRecordError::UnsupportedEncoding)
        }
    }

    /// Decodes a two-byte date of type G.
    fn parse_date_g<'a>(input: &'a [u8]) -> (r: Result<
        Data<'a>,
        crate::variable_user_data::DataRecordError,
    >)
        ensures
            spec_date_g_result(r, input@),
    {
        if input.len() < 2 {
            return Err(crate::variable_user_data::DataRecordError::InsufficientData);
        }
        let day = if input[0] % 32 == 0 {
            SingleOrEvery::Every()
        } else {
            SingleOrEvery::Single(input[0] % 32)
        };
        let month_nibble = input[1] % 16;
        let month = if month_nibble == 15 {
            SingleOrEvery::Every()
        } else {
            match month_from_nibble(month_nibble) {
                Ok(m) => SingleOrEvery::Single(m),
                Err(e) => {
                    return Err(e);
                },
            }
        };
        let year_raw: u16 = ((input[1] & 0xF0) as u16) | (((input[0] & 0xE0) as u16) << 1);
        let year = if year_raw == 0x7F {
            SingleOrEvery::Every()
        } else {
            SingleOrEvery::Single(year_raw)
        };
        Ok(Data { value: Some(DataType::Date(day, month, year)), size: 2 })
    }

    /// Decodes a four-byte date-time of type F.
    fn parse_datetime_f<'a>(input: &'a [u8]) -> (r: Result<
        Data<'a>,
        crate::variable_user_data::DataRecordError,
    >)
        ensures
            spec_datetime_f_result(r, input@),
    {
        if input.len() < 4 {
            return Err(crate::variable_user_data::DataRecordError::InsufficientData);
        }
        let minute = if input[0] % 64 == 63 {
            SingleOrEvery::Every()
        } else {
            SingleOrEvery::Single(input[0] % 64)
        };
        let hour = if input[1] % 32 == 31 {
            SingleOrEvery::Every()
        } else {
            SingleOrEvery::Single(input[1] % 32)
        };
        let day = if input[2] % 32 == 31 {
            SingleOrEvery::Every()
        } else {
            SingleOrEvery::Single(input[2] % 32)
        };
        let month_nibble = input[3] % 16;
        let month = if month_nibble == 15 {
            SingleOrEvery::Every()
        } else {
            match month_from_nibble(month_nibble) {
                Ok(m) => SingleOrEvery::Single(m),
                Err(e) => {
                    return Err(e);
                },
            }
        };
        let year_raw: u16 = ((input[3] & 0xF0) as u16) | (((input[2] & 0xE0) as u16) << 1);
        let year = if year_raw == 0x7F {
            SingleOrEvery::Every()
        } else {
            SingleOrEvery::Single(year_raw)
        };
        Ok(Data { value: Some(DataType::DateTime(day, month, year, hour, minute)), size: 4 })
    }
}


/// The number of payload bytes that `extract_from_bytes` reads for a
/// coding; codings without a fixed-width numeric reading consume nothing.
pub open spec fn spec_extract_width(coding: DataFieldCoding) -> int {
    match coding {
        DataFieldCoding::Integer8Bit => 1,
        DataFieldCoding::Integer16Bit => 2,
        DataFieldCoding::Integer24Bit => 3,
        DataFieldCoding::Integer32Bit => 4,
        DataFieldCoding::Real32Bit => 4,
        DataFieldCoding::Integer48Bit => 6,
        DataFieldCoding::Integer64Bit => 8,
        DataFieldCoding::BCD2Digit => 1,
        DataFieldCoding::BCD4Digit => 2,
        DataFieldCoding::BCD6Digit => 3,
        DataFieldCoding::BCD8Digit => 4,
        DataFieldCoding::BCDDigit12 => 6,
        _ => 0,
    }
}

/// A numeric value read straight off payload bytes, with the number of
/// bytes it occupied.
#[derive(Debug, PartialEq, Eq, Clone, Copy)]
pub struct Value {
    pub data: Numeric,
    pub byte_size: usize,
}

impl DataFieldCoding {
    /// Reads the unsigned numeric value of this coding from the front of
    /// `data`: integers little-endian without sign extension, BCD by
    /// positional decimal weight, the 32-bit real as raw bits, and zero
    /// for codings without a fixed-width numeric reading.
    pub fn extract_from_bytes(&self, data: &[u8]) -> (r: Value)
        requires
            data@.len() >= spec_extract_width(*self),
        ensures
            r.byte_size == spec_extract_width(*self),
            ({
                let s = data@;
                match *self {
                    DataFieldCoding::Integer8Bit => r.data == Numeric::Unsigned(
                        spec_le_bytes(s.take(1)) as u64,
                    ),
                    DataFieldCoding::Integer16Bit => r.data == Numeric::Unsigned(
                        spec_le_bytes(s.take(2)) as u64,
                    ),
                    DataFieldCoding::Integer24Bit => r.data == Numeric::Unsigned(
                        spec_le_bytes(s.take(3)) as u64,
                    ),
                    DataFieldCoding::Integer32Bit => r.data == Numeric::Unsigned(
                        spec_le_bytes(s.take(4)) as u64,
                    ),
                    DataFieldCoding::Integer48Bit => r.data == Numeric::Unsigned(
                        spec_le_bytes(s.take(6)) as u64,
                    ),
                    DataFieldCoding::Integer64Bit => r.data == Numeric::Unsigned(
                        spec_le_bytes(s.take(8)) as u64,
                    ),
                    DataFieldCoding::Real32Bit => r.data == Numeric::Real32Bits(
                        spec_le_bytes(s.take(4)) as u32,
                    ),
                    DataFieldCoding::BCD2Digit => r.data == Numeric::Unsigned(
                        spec_bcd_value(s.take(1)) as u64,
                    ),
                    DataFieldCoding::BCD4Digit => r.data == Numeric::Unsigned(
                        spec_bcd_value(s.take(2)) as u64,
                    ),
                    DataFieldCoding::BCD6Digit => r.data == Numeric::Unsigned(
                        spec_bcd_value(s.take(3)) as u64,
                    ),
                    DataFieldCoding::BCD8Digit => r.data == Numeric::Unsigned(
                        spec_bcd_value(s.take(4)) as u64,
                    ),
                    DataFieldCoding::BCDDigit12 => r.data == Numeric::Unsigned(
                        spec_bcd_value(s.take(6)) as u64,
                    ),
                    _ => r.data == Numeric::Unsigned(0),
                }
            }),
    {
        match *self {
            DataFieldCoding::Integer8Bit => Value {
                data: Numeric::Unsigned(Self::take_le(data, 1)),
                byte_size: 1,
            },
            DataFieldCoding::Integer16Bit => Value {
                data: Numeric::Unsigned(Self::take_le(data, 2)),
                byte_size: 2,
            },
            DataFieldCoding::Integer24Bit => Value {
                data: Numeric::Unsigned(Self::take_le(data, 3)),
                byte_size: 3,
            },
            DataFieldCoding::Integer32Bit => Value {
                data: Numeric::Unsigned(Self::take_le(data, 4)),
                byte_size: 4,
            },
            DataFieldCoding::Integer48Bit => Value {
                data: Numeric::Unsigned(Self::take_le(data, 6)),
                byte_size: 6,
            },
            DataFieldCoding::Integer64Bit => Value {
                data: Numeric::Unsigned(Self::take_le(data, 8)),
                byte_size: 8,
            },
            DataFieldCoding::Real32Bit => {
                let raw = Self::take_le(data, 4);
                proof {
                    lemma_le_bytes_bound(data@.take(4));
                    lemma2_to64();
                    lemma2_to64_rest();
                }
                Value { data: Numeric::Real32Bits(raw as u32), byte_size: 4 }
            },
            DataFieldCoding::BCD2Digit => Value {
                data: Numeric::Unsigned(Self::take_bcd(data, 1)),
                byte_size: 1,
            },
            DataFieldCoding::BCD4Digit => Value {
                data: Numeric::Unsigned(Self::take_bcd(data, 2)),
                byte_size: 2,
            },
            DataFieldCoding::BCD6Digit => Value {
                data: Numeric::Unsigned(Self::take_bcd(data, 3)),
                byte_size: 3,
            },
            DataFieldCoding::BCD8Digit => Value {
                data: Numeric::Unsigned(Self::take_bcd(data, 4)),
                byte_size: 4,
            },
            DataFieldCoding::BCDDigit12 => Value {
                data: Numeric::Unsigned(Self::take_bcd(data, 6)),
                byte_size: 6,
            },
            _ => Value { data: Numeric::Unsigned(0), byte_size: 0 },
        }
    }

    /// Reads the unsigned little-endian value of the first `w` bytes.
    fn take_le(data: &[u8], w: usize) -> (r: u64)
        requires
            w <= 8,
            data@.len() >= w,
        ensures
            r == spec_le_bytes(data@.take(w as int)),
    {
        let r = le_value(&data[0..w]);
        proof {
            assert(data@.subrange(0, w as int) =~= data@.take(w as int));
        }
        r
    }

    /// Reads the positionally weighted decimal value of the first `w`
    /// BCD bytes.
    fn take_bcd(data: &[u8], w: usize) -> (r: u64)
        requires
            w == 1 || w == 2 || w == 3 || w == 4 || w == 6,
            data@.len() >= w,
        ensures
            r == spec_bcd_value(data@.take(w as int)),
    {
        let window = &data[0..w];
        proof {
            assert(data@.subrange(0, w as int) =~= data@.take(w as int));
            if w == 1 {
                assert(data@.take(1) =~= seq![data@[0]]);
                assert(spec_bcd_value(seq![data@[0]].drop_first()) == 0);
            }
        }
        if w == 1 {
            bcd_to_u8(data[0]) as u64
        } else if w == 2 {
            bcd_to_u16(window) as u64
        } else if w == 3 || w == 4 {
            bcd_to_u32(window) as u64
        } else {
            bcd_to_u48(window)
        }
    }
}

} // verus!
