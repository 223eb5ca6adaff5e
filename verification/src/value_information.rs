//! The value-information side of a record: classification of the base
//! byte, its capacity-bounded extension chain, and the physical unit.

use vstd::prelude::*;

verus! {

use crate::data_information::{
    spec_count_leading_ext,
    lemma_count_leading_ext,
    lemma_count_leading_ext_at_least,
};

/// A value-information extension chain holds at most this many bytes.
pub const MAX_VIFE_RECORDS: usize = 10;

#[verifier::external_type_specification]
#[verifier::external_body]
#[verifier::reject_recursive_types(T)]
pub struct ExArrayVec<T, const CAP: usize>(arrayvec::ArrayVec<T, CAP>);

/// The bytes a value-information extension vector holds, in order.
pub uninterp spec fn arrayvec_bytes(v: arrayvec::ArrayVec<u8, 10>) -> Seq<u8>;

/// Relies on arrayvec's ArrayVec::new: a fresh vector holds nothing.
#[verifier::external_body]
fn vife_new() -> (r: arrayvec::ArrayVec<u8, 10>)
    ensures
        arrayvec_bytes(r) == Seq::<u8>::empty(),
{
    arrayvec::ArrayVec::new()
}

/// Relies on arrayvec's ArrayVec::try_push: it appends the element while
/// below capacity and rejects it when full.
#[verifier::external_body]
fn vife_try_push(v: &mut arrayvec::ArrayVec<u8, 10>, b: u8) -> (ok: bool)
    ensures
        ok <==> arrayvec_bytes(*old(v)).len() < 10,
        ok ==> arrayvec_bytes(*final(v)) == arrayvec_bytes(*old(v)).push(b),
        !ok ==> arrayvec_bytes(*final(v)) == arrayvec_bytes(*old(v)),
{
    v.try_push(b).is_ok()
}

/// Relies on arrayvec's ArrayVec::len: the number of elements held.
#[verifier::external_body]
fn vife_len(v: &arrayvec::ArrayVec<u8, 10>) -> (r: usize)
    ensures
        r == arrayvec_bytes(*v).len(),
{
    v.len()
}

/// Relies on arrayvec's ArrayVec::as_slice: all held elements, in order.
#[verifier::external_body]
fn vife_as_slice(v: &arrayvec::ArrayVec<u8, 10>) -> (r: &[u8])
    ensures
        r@ == arrayvec_bytes(*v),
{
    v.as_slice()
}

/// Failures of value-information classification and unit lookup.
#[derive(Debug, PartialEq, Eq, Structural, Clone, Copy)]
pub enum ValueInformationError {
    /// A value-information byte or classification outside the domain the
    /// decoder can interpret.
    InvalidValueInformation,
    /// A primary code whose unit range this decoder deliberately does not
    /// implement; it fails loudly rather than defaulting a unit.
    UnsupportedValueInformation,
}

/// The semantic classification of a value-information byte.
#[derive(Debug, PartialEq, Eq, Structural, Clone, Copy)]
pub enum ValueInformation {
    /// A primary-table code, carrying the raw byte.
    Primary(u8),
    /// Plain-text unit; the flag records the ascii-order variant.
    PlainText(bool),
    /// Selector for the first extension table.
    FirstVIFExtension,
    /// Selector for the second extension table.
    SecondVIFExtension,
    /// Selector for the third extension table.
    ThidVIFExtension,
    /// The "any" wildcard; the flag records the extension-bit variant.
    Any(bool),
    /// Manufacturer-specific coding; the flag records the extension-bit
    /// variant.
    ManufacturerSpecific(bool),
}

/// The classification of a value-information byte. The byte 0x7D belongs
/// to no documented range and has no classification.
pub open spec fn spec_classify_vif(b: u8) -> ValueInformation {
    if b <= 0x7B || (0x80 <= b && b <= 0xFA) {
        ValueInformation::Primary(b)
    } else if b == 0x7C || b == 0xFC {
        ValueInformation::PlainText(b == 0xFC)
    } else if b == 0xFB {
        ValueInformation::FirstVIFExtension
    } else if b == 0xFD {
        ValueInformation::SecondVIFExtension
    } else if b == 0x7E || b == 0xFE {
        ValueInformation::Any(b == 0xFE)
    } else {
        ValueInformation::ManufacturerSpecific(b == 0xFF)
    }
}

impl ValueInformation {
    /// Classifies a value-information byte, failing on the one byte value
    /// outside every documented range.
    pub fn try_from_byte(data: u8) -> (r: Result<Self, ValueInformationError>)
        ensures
            data == 0x7D ==> r == Err::<Self, _>(ValueInformationError::InvalidValueInformation),
            data != 0x7D ==> r == Ok::<_, ValueInformationError>(spec_classify_vif(data)),
    {
        if data <= 0x7B || (0x80 <= data && data <= 0xFA) {
            Ok(ValueInformation::Primary(data))
        } else if data == 0x7C || data == 0xFC {
            Ok(ValueInformation::PlainText(data == 0xFC))
        } else if data == 0xFB {
            Ok(ValueInformation::FirstVIFExtension)
        } else if data == 0xFD {
            Ok(ValueInformation::SecondVIFExtension)
        } else if data == 0x7E || data == 0xFE {
            Ok(ValueInformation::Any(data == 0xFE))
        } else if data == 0x7F || data == 0xFF {
            Ok(ValueInformation::ManufacturerSpecific(data == 0xFF))
        } else {
            Err(ValueInformationError::InvalidValueInformation)
        }
    }
}

/// One parsed value-information field: the classified base byte and the
/// raw bytes of its extension chain.
#[derive(Debug, PartialEq)]
pub struct ValueInformationBlock {
    pub value_information: ValueInformation,
    pub value_information_extension: Option<arrayvec::ArrayVec<u8, 10>>,
}

/// The length of a buffer's value-information extension run: the leading
/// run of continuation-bearing bytes after the base byte, cut at the
/// chain's capacity.
pub open spec fn spec_vife_run(data: Seq<u8>) -> int {
    let run = spec_count_leading_ext(data.skip(1)) as int;
    if run <= 10 {
        run
    } else {
        10
    }
}

impl ValueInformationBlock {
    /// The extension bytes of this block, or the empty sequence if none.
    pub open spec fn spec_ext_bytes(self) -> Seq<u8> {
        match self.value_information_extension {
            Some(v) => arrayvec_bytes(v),
            None => Seq::empty(),
        }
    }

    /// Blocks that `parse` produces keep their chain within capacity, and
    /// never hold an empty chain vector.
    pub open spec fn wf(self) -> bool {
        &&& self.spec_ext_bytes().len() <= MAX_VIFE_RECORDS
        &&& self.value_information_extension is Some ==> self.spec_ext_bytes().len() > 0
    }

    /// The number of bytes the block occupies: the base byte plus its chain.
    pub fn get_size(&self) -> (r: usize)
        requires
            self.wf(),
        ensures
            r == 1 + self.spec_ext_bytes().len(),
    {
        let mut size: usize = 1;
        if let Some(vife) = &self.value_information_extension {
            size += vife_len(vife);
        }
        size
    }

    /// The raw extension bytes of this block, if it has any.
    pub fn extension_bytes(&self) -> (r: Option<&[u8]>)
        ensures
            self.value_information_extension is Some ==> (r matches Some(s) && s@
                == self.spec_ext_bytes()),
            self.value_information_extension is None ==> r is None,
    {
        match &self.value_information_extension {
            Some(v) => Some(vife_as_slice(v)),
            None => None,
        }
    }

    /// Reads one value-information block off the front of `data`.
    ///
    /// The base byte is classified; the extension chain greedily takes the
    /// following bytes while their continuation bit is set, stopping at
    /// the end of the buffer and at the chain's capacity.
    pub fn parse(data: &[u8]) -> (r: Result<Self, ValueInformationError>)
        ensures
            r is Err <==> data@.len() == 0 || data@[0] == 0x7D,
            r is Err ==> r == Err::<Self, _>(ValueInformationError::InvalidValueInformation),
            r matches Ok(block) ==> {
                &&& block.wf()
                &&& block.value_information == spec_classify_vif(data@[0])
                &&& block.spec_ext_bytes() == data@.subrange(1, 1 + spec_vife_run(data@))
                &&& block.spec_ext_bytes().len() == spec_vife_run(data@)
                &&& 1 + spec_vife_run(data@) <= data@.len()
            },
    {
        if data.len() == 0 {
            return Err(ValueInformationError::InvalidValueInformation);
        }
        let value_information = match ValueInformation::try_from_byte(data[0]) {
            Ok(vi) => vi,
            Err(e) => {
                return Err(e);
            },
        };
        let mut vife = vife_new();
        let mut i: usize = 1;
        while i < data.len() && data[i] >= 0x80 && i - 1 < MAX_VIFE_RECORDS
            invariant
                data@.len() >= 1,
                1 <= i <= data@.len(),
                i - 1 <= MAX_VIFE_RECORDS,
                arrayvec_bytes(vife) == data@.subrange(1, i as int),
                forall|j: int| 1 <= j < i ==> data@[j] >= 0x80,
            decreases data@.len() - i,
        {
            let pushed = vife_try_push(&mut vife, data[i]);
            proof {
                assert(pushed);
                assert(arrayvec_bytes(vife) =~= data@.subrange(1, i + 1));
            }
            i += 1;
        }
        proof {
            let rest = data@.skip(1);
            assert(forall|j: int| 0 <= j < i - 1 ==> rest[j] == data@[j + 1]);
            if i == data@.len() {
                lemma_count_leading_ext(rest, i - 1);
            } else if data@[i as int] < 0x80 {
                assert(rest[i - 1] == data@[i as int]);
                lemma_count_leading_ext(rest, i - 1);
            } else {
                lemma_count_leading_ext_at_least(rest, i - 1);
            }
        }
        if i == 1 {
            Ok(ValueInformationBlock { value_information, value_information_extension: None })
        } else {
            Ok(
                ValueInformationBlock {
                    value_information,
                    value_information_extension: Some(vife),
                },
            )
        }
    }
}

/// Extension-table value-information meanings; kept for callers that
/// classify extension chains.
#[derive(Debug, PartialEq, Eq, Structural, Clone, Copy)]
pub enum VIFExtension {
    CreditOfCurrencyUnits(u8),
    DebitOfCurrencyUnits(u8),
    AccessNumber,
    Medium,
    Manufacturer,
    ParameterSetIdentification,
    ModelVersion,
    HardwareVersion,
    FirmwareVersion,
    SoftwareVersion,
    CustomerLocation,
    Customer,
    AccessCodeUser,
    AccessCodeOperator,
    AccessCodeSystemOperator,
    AccessCodeDeveloper,
    Password,
    ErrorFlags,
    ErrorMask,
    Reserved,
    DigitalOutput,
    DigitalInput,
    BaudRate,
    ResponseDelayTime,
    Retry,
    FirstStorage,
    LastStorage,
    SizeOfStorageBlock,
    StorageIntervalSecondsToDays(u8),
    StorageIntervalMonths,
    StorageIntervalYears,
    DurationSinceLastReadout(u8),
    StartOfTariff,
    DurationOfTariff(u8),
    PeriodOfTariff(u8),
    PeriodOfTarrifMonths,
    PeriodOfTTariffYears,
    Dimensionless,
    Volts(u8),
    Ampere(u8),
    ResetCounter,
    CumulationCounter,
    ControlSignal,
    DayOfWeek,
    WeekNumber,
    TimePointOfDay,
    StateOfParameterActivation,
    SpecialSupervision,
    DurationSinceLastCumulation(u8),
    OperatingTimeBattery(u8),
    DateAndTimeOfBatteryChange,
    EnergyMWh(u8),
    EnergyGJ(u8),
    VolumeM3(u8),
    MassTons(u8),
    VolumeFeet3Tenth,
    VolumeAmericanGallonTenth,
    VolumeAmericanGallon,
    VolumeFlowAmericanGallonPerMinuteThousandth,
    VolumeFlowAmericanGallonPerMinute,
    VolumeFlowAmericanGallonPerHour,
    PowerMW(u8),
    PowerGJH(u8),
    FlowTemperature(u8),
    ReturnTemperature(u8),
    TemperatureDifference(u8),
    ExternalTemperature(u8),
    ColdWarmTemperatureLimitFarenheit(u8),
    ColdWarmTemperatureLimitCelsius(u8),
    CumulativeCountMaxPower(u8),
}

/// A physical unit derived from a primary value-information code.
#[derive(Debug, PartialEq, Eq, Structural, Clone, Copy)]
pub enum Unit {
    HourMinuteSecond,
    DayMonthYear,
    WattHour,
    KiloWattHour,
    MegaWattHour,
    Joul,
    Kilogram,
    KiloJoul,
    MegaJoul,
    GigaJoul,
    Watt,
    KiloWatt,
    MegaWat,
    KiloJoulHour,
    MegaJoulHour,
    GigaJoulHour,
    MegaLiter,
    Liter,
    CubicMeter,
    MegaLiterHour,
    LiterHour,
    CubicMeterPerHour,
    CubicMeterPerMinute,
    CubicMeterPerSecond,
    KilogramPerHour,
    Celsius,
    Kelvin,
    Bar,
    HCA,
    Reserved,
    WithoutUnits,
    Seconds,
    Minutes,
    Hours,
    Days,
    JoulPerHour,
    ActualityDuration,
    TimePoint,
    FabricationNumber,
    MegaWatt,
    PlainText,
}

/// The unit a primary code selects, keyed by the code with its extension
/// bit masked off; codes outside every documented range select none.
pub open spec fn spec_primary_unit(masked: u8) -> Option<Unit> {
    if masked <= 0x07 {
        Some(Unit::WattHour)
    } else if masked <= 0x0F {
        Some(Unit::Joul)
    } else if masked <= 0x17 {
        Some(Unit::CubicMeter)
    } else if masked <= 0x1F {
        Some(Unit::Kilogram)
    } else if masked == 0x20 || masked == 0x24 {
        Some(Unit::Seconds)
    } else if masked == 0x21 || masked == 0x25 {
        Some(Unit::Minutes)
    } else if masked == 0x22 || masked == 0x26 {
        Some(Unit::Hours)
    } else if masked == 0x23 || masked == 0x27 {
        Some(Unit::Days)
    } else if 0x28 <= masked && masked <= 0x2F {
        Some(Unit::Watt)
    } else if masked <= 0x37 {
        Some(Unit::JoulPerHour)
    } else if masked <= 0x3F {
        Some(Unit::CubicMeterPerHour)
    } else if masked <= 0x47 {
        Some(Unit::CubicMeterPerMinute)
    } else if masked <= 0x4F {
        Some(Unit::CubicMeterPerSecond)
    } else if masked <= 0x57 {
        Some(Unit::KilogramPerHour)
    } else if masked <= 0x5F || (0x64 <= masked && masked <= 0x67) {
        Some(Unit::Celsius)
    } else if masked <= 0x63 {
        Some(Unit::Kelvin)
    } else if 0x68 <= masked && masked <= 0x6B {
        Some(Unit::Bar)
    } else if masked == 0x6C || masked == 0x6D {
        Some(Unit::TimePoint)
    } else if 0x74 <= masked && masked <= 0x77 {
        Some(Unit::ActualityDuration)
    } else if masked == 0x78 {
        Some(Unit::FabricationNumber)
    } else {
        None
    }
}

/// Everything `Unit::unit_of` promises of its result for a given
/// value-information classification.
pub open spec fn spec_unit_of_post(vi: ValueInformation, r: Result<
    Unit,
    ValueInformationError,
>) -> bool {
    match vi {
        ValueInformation::Primary(b) => match spec_primary_unit(b % 128) {
            Some(u) => r == Ok::<Unit, ValueInformationError>(u),
            None => r == Err::<Unit, _>(ValueInformationError::UnsupportedValueInformation),
        },
        ValueInformation::PlainText(_) => r == Ok::<Unit, ValueInformationError>(Unit::PlainText),
        _ => r == Err::<Unit, _>(ValueInformationError::InvalidValueInformation),
    }
}

/// Law: every primary code from 0x10 through 0x17, with or without its
/// extension bit, carries the cubic-meter unit: any result `unit_of`'s
/// contract allows for such a classification is exactly that unit.
pub proof fn lemma_cubic_meter_codes(b: u8, r: Result<Unit, ValueInformationError>)
    requires
        0x10 <= b % 128 <= 0x17,
        spec_unit_of_post(ValueInformation::Primary(b), r),
    ensures
        r == Ok::<Unit, ValueInformationError>(Unit::CubicMeter),
{
}

/// Law: a primary code outside every documented unit range yields an
/// explicit failure, never a default unit: any result `unit_of`'s
/// contract allows for such a classification is the unsupported error.
pub proof fn lemma_undocumented_code_fails(b: u8, r: Result<Unit, ValueInformationError>)
    requires
        (0x6E <= b % 128 && b % 128 <= 0x73) || 0x79 <= b % 128,
        spec_unit_of_post(ValueInformation::Primary(b), r),
    ensures
        r == Err::<Unit, _>(ValueInformationError::UnsupportedValueInformation),
{
}

impl Unit {
    /// The physical unit of a parsed value-information block.
    ///
    /// Primary codes go through the fixed range table (failing loudly on
    /// the ranges this decoder does not implement); plain-text
    /// classifications carry their own unit; every other classification is
    /// incompatible with a unit lookup.
    pub fn unit_of(block: &ValueInformationBlock) -> (r: Result<Self, ValueInformationError>)
        ensures
            spec_unit_of_post(block.value_information, r),
    {
        match block.value_information {
            ValueInformation::Primary(data) => {
                let masked = data % 128;
                if masked <= 0x07 {
                    Ok(Unit::WattHour)
                } else if masked <= 0x0F {
                    Ok(Unit::Joul)
                } else if masked <= 0x17 {
                    Ok(Unit::CubicMeter)
                } else if masked <= 0x1F {
                    Ok(Unit::Kilogram)
                } else if masked == 0x20 || masked == 0x24 {
                    Ok(Unit::Seconds)
                } else if masked == 0x21 || masked == 0x25 {
                    Ok(Unit::Minutes)
                } else if masked == 0x22 || masked == 0x26 {
                    Ok(Unit::Hours)
                } else if masked == 0x23 || masked == 0x27 {
                    Ok(Unit::Days)
                } else if 0x28 <= masked && masked <= 0x2F {
                    Ok(Unit::Watt)
                } else if masked <= 0x37 {
                    Ok(Unit::JoulPerHour)
                } else if masked <= 0x3F {
                    Ok(Unit::CubicMeterPerHour)
                } else if masked <= 0x47 {
                    Ok(Unit::CubicMeterPerMinute)
                } else if masked <= 0x4F {
                    Ok(Unit::CubicMeterPerSecond)
                } else if masked <= 0x57 {
                    Ok(Unit::KilogramPerHour)
                } else if masked <= 0x5F || (0x64 <= masked && masked <= 0x67) {
                    Ok(Unit::Celsius)
                } else if masked <= 0x63 {
                    Ok(Unit::Kelvin)
                } else if 0x68 <= masked && masked <= 0x6B {
                    Ok(Unit::Bar)
                } else if masked == 0x6C || masked == 0x6D {
                    Ok(Unit::TimePoint)
                } else if 0x74 <= masked && masked <= 0x77 {
                    Ok(Unit::ActualityDuration)
                } else if masked == 0x78 {
                    Ok(Unit::FabricationNumber)
                } else {
                    Err(ValueInformationError::UnsupportedValueInformation)
                }
            },
            ValueInformation::PlainText(_) => Ok(Unit::PlainText),
            _ => Err(ValueInformationError::InvalidValueInformation),
        }
    }
}

} // verus!
