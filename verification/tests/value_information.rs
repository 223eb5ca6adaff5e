use mbus_parser::value_information::{
    Unit, ValueInformation, ValueInformationBlock, ValueInformationError,
};

#[test]
fn test_value_information_parsing() {
    /* VIF = 0x13 => m3^3*1e-3 */
    let data = [0x13];
    let result = ValueInformationBlock::parse(data.as_slice()).unwrap();
    assert_eq!(
        result,
        ValueInformationBlock {
            value_information: ValueInformation::Primary(0x13),
            value_information_extension: None
        }
    );
    assert_eq!(result.get_size(), 1);
    assert_eq!(Unit::unit_of(&result).unwrap(), Unit::CubicMeter);

    /* VIF = 0x14 => m3^-3*1e-2 */
    let data = [0x14];
    let result = ValueInformationBlock::parse(data.as_slice()).unwrap();
    assert_eq!(
        result,
        ValueInformationBlock {
            value_information: ValueInformation::Primary(0x14),
            value_information_extension: None
        }
    );
    assert_eq!(result.get_size(), 1);
    assert_eq!(Unit::unit_of(&result).unwrap(), Unit::CubicMeter);

    /* VIF = 0x15 => m3^3*1e-2 */
    let data = [0x15];
    let result = ValueInformationBlock::parse(data.as_slice()).unwrap();
    assert_eq!(
        result,
        ValueInformationBlock {
            value_information: ValueInformation::Primary(0x15),
            value_information_extension: None
        }
    );
    assert_eq!(result.get_size(), 1);
    assert_eq!(Unit::unit_of(&result).unwrap(), Unit::CubicMeter);

    /* VIF = 0x16 => m3^-3*1e-1 */
    let data = [0x16];
    let result = ValueInformationBlock::parse(data.as_slice()).unwrap();
    assert_eq!(
        result,
        ValueInformationBlock {
            value_information: ValueInformation::Primary(0x16),
            value_information_extension: None
        }
    );
    assert_eq!(result.get_size(), 1);
}

#[test]
fn cubic_meter_covers_whole_primary_range() {
    for code in 0x10..=0x17_u8 {
        let block = ValueInformationBlock::parse(&[code]).unwrap();
        assert_eq!(Unit::unit_of(&block).unwrap(), Unit::CubicMeter);
        // The same code with the extension bit set selects the same unit.
        let with_ext = ValueInformationBlock::parse(&[code | 0x80, 0x00]).unwrap();
        assert_eq!(Unit::unit_of(&with_ext).unwrap(), Unit::CubicMeter);
    }
}

#[test]
fn undocumented_primary_codes_fail_unit_lookup() {
    for code in [0x6E_u8, 0x70, 0x73, 0x79, 0x7B] {
        let block = ValueInformationBlock::parse(&[code]).unwrap();
        assert_eq!(
            Unit::unit_of(&block),
            Err(ValueInformationError::UnsupportedValueInformation)
        );
    }
}

#[test]
fn non_primary_classifications_have_no_unit() {
    let any = ValueInformationBlock::parse(&[0x7E]).unwrap();
    assert_eq!(any.value_information, ValueInformation::Any(false));
    assert_eq!(
        Unit::unit_of(&any),
        Err(ValueInformationError::InvalidValueInformation)
    );

    let manufacturer = ValueInformationBlock::parse(&[0x7F]).unwrap();
    assert_eq!(
        manufacturer.value_information,
        ValueInformation::ManufacturerSpecific(false)
    );
    assert_eq!(
        Unit::unit_of(&manufacturer),
        Err(ValueInformationError::InvalidValueInformation)
    );
}

#[test]
fn plain_text_classification_keeps_its_unit() {
    let block = ValueInformationBlock::parse(&[0xFC, 0x74, 0x03]).unwrap();
    assert_eq!(block.value_information, ValueInformation::PlainText(true));
    assert_eq!(Unit::unit_of(&block).unwrap(), Unit::PlainText);
}

#[test]
fn extension_chain_is_collected_and_sized() {
    // Base byte, then one continuation-bearing byte, then a byte without
    // the continuation bit, which belongs to the next field.
    let data = [0xFB, 0x84, 0x42];
    let block = ValueInformationBlock::parse(data.as_slice()).unwrap();
    assert_eq!(block.value_information, ValueInformation::FirstVIFExtension);
    assert_eq!(block.get_size(), 2);
    assert_eq!(block.extension_bytes(), Some(&[0x84_u8][..]));
}

#[test]
fn extension_chain_stops_at_capacity() {
    let mut data = [0x93_u8; 13];
    data[0] = 0x13;
    let block = ValueInformationBlock::parse(data.as_slice()).unwrap();
    assert_eq!(block.get_size(), 11);
}

#[test]
fn undefined_vif_byte_is_rejected() {
    assert_eq!(
        ValueInformationBlock::parse(&[0x7D]),
        Err(ValueInformationError::InvalidValueInformation)
    );
    assert_eq!(
        ValueInformationBlock::parse(&[]),
        Err(ValueInformationError::InvalidValueInformation)
    );
}
