use mbus_parser::data_information::{
    DataFieldCoding, DataInformation, DataInformationBlock, DataInformationError,
    DataInformationField, DataInformationFieldExtension, DataInformationFieldExtensions, DataType,
    FunctionField, Month,
    Numeric, SingleOrEvery, SpecialFunctions, TextUnit, bcd_to_u8, bcd_to_u16, bcd_to_u32,
    bcd_to_u48,
};
use mbus_parser::variable_user_data::DataRecordError;

#[test]
fn test_data_information() {
    let data = [0x13_u8];
    let result = DataInformationBlock::parse_block(data.as_slice());
    let result = DataInformation::derive(&result.unwrap());
    assert_eq!(
        result,
        Ok(DataInformation {
            storage_number: 0,
            function_field: FunctionField::MaximumValue,
            data_field_coding: DataFieldCoding::Integer24Bit,
            data_information_extension: None,
            size: 1,
        })
    );
}

#[test]
fn reverse_text_unit() {
    let original_value = [0x6c, 0x61, 0x67, 0x69];
    let parsed = TextUnit::new(&original_value);
    assert_eq!(parsed.render().unwrap(), "igal");
}

#[test]
fn test_invalid_data_information() {
    let data = [
        0xFF, 0xFF, 0xFF, 0xFF, 0xFF, 0xFF, 0xFF, 0xFF, 0xFF, 0xFF, 0xFF, 0xFF, 0xFF, 0xFF,
    ];
    let result = DataInformationBlock::parse_block(data.as_slice());
    assert_eq!(result, Err(DataInformationError::DataTooLong));
}

#[test]
fn test_longest_data_information_not_too_long() {
    let data = [
        0xFF, 0xFF, 0xFF, 0xFF, 0xFF, 0xFF, 0xFF, 0xFF, 0xFF, 0xFF, 0x01,
    ];
    let result = DataInformationBlock::parse_block(data.as_slice());
    assert_ne!(result, Err(DataInformationError::DataTooLong));
}

#[test]
fn test_short_data_information() {
    let data = [0xFF];
    let result = DataInformationBlock::parse_block(data.as_slice());
    assert_eq!(result, Err(DataInformationError::DataTooShort));
}

#[test]
fn test_data_inforamtion1() {
    let data = [178, 1];
    let result = DataInformationBlock::parse_block(data.as_slice());
    assert!(result.is_ok());
    assert_eq!(result.unwrap().get_size(), 2);
}

#[test]
fn single_byte_fields_parse_to_size_one() {
    // Any base byte with a clear extension bit is a whole block by itself,
    // whatever follows it in the buffer.
    for b in [0x00_u8, 0x13, 0x42, 0x7F] {
        let data = [b, 0xAA];
        let block = DataInformationBlock::parse_block(&data).unwrap();
        assert_eq!(block.get_size(), 1);
        assert!(block.data_information_field_extension.is_none());
    }
}

#[test]
fn empty_input_is_no_data() {
    let result = DataInformationBlock::parse_block(&[]);
    assert_eq!(result, Err(DataInformationError::NoData));
}

#[test]
fn storage_number_accumulates_extension_nibbles() {
    // Base byte 0xCC: storage bit 6 set, instantaneous, BCD 8-digit,
    // extension announced; one extension byte 0x42 adds nibble 2 at
    // weight 2^5.
    let data = [0xCC_u8, 0x42];
    let block = DataInformationBlock::parse_block(data.as_slice()).unwrap();
    let info = DataInformation::derive(&block).unwrap();
    assert_eq!(info.storage_number, 1 + (2 << 5));
    assert_eq!(info.function_field, FunctionField::InstantaneousValue);
    assert_eq!(info.data_field_coding, DataFieldCoding::BCD8Digit);
    assert_eq!(info.size, 2);
    assert_eq!(info.data_information_extension, None);
}

#[test]
fn special_functions_need_an_extension_byte() {
    // Selector 15 with a clear extension bit has no byte to qualify it.
    let data = [0x0F_u8];
    let block = DataInformationBlock::parse_block(data.as_slice()).unwrap();
    assert_eq!(
        DataInformation::derive(&block),
        Err(DataInformationError::InvalidValueInformation)
    );
}

#[test]
fn special_functions_from_first_extension_byte() {
    let data = [0x9F_u8, 0x0F];
    let block = DataInformationBlock::parse_block(data.as_slice()).unwrap();
    let info = DataInformation::derive(&block).unwrap();
    assert_eq!(
        info.data_field_coding,
        DataFieldCoding::SpecialFunctions(SpecialFunctions::ManufacturerSpecific)
    );
    assert_eq!(info.size, 2);
}

#[test]
fn bcd_single_byte() {
    assert_eq!(bcd_to_u8(0x27), 27);
}

#[test]
fn bcd_two_bytes_low_byte_least_significant() {
    assert_eq!(bcd_to_u16(&[0x12, 0x34]), 3412);
}

#[test]
fn bcd_wider_values() {
    assert_eq!(bcd_to_u32(&[0x45, 0x23, 0x01]), 12345);
    assert_eq!(bcd_to_u32(&[0x78, 0x56, 0x34, 0x12]), 12345678);
    assert_eq!(bcd_to_u48(&[0x12, 0x90, 0x78, 0x56, 0x34, 0x12]), 123456789012);
}

#[test]
fn parse_sign_extends_integers() {
    let minus_one = DataFieldCoding::Integer8Bit.parse(&[0xFF]).unwrap();
    assert_eq!(
        minus_one.value,
        Some(DataType::Number(Numeric::Integer(-1)))
    );
    assert_eq!(minus_one.size, 1);

    let sixteen_bit = DataFieldCoding::Integer16Bit.parse(&[0x34, 0x12]).unwrap();
    assert_eq!(
        sixteen_bit.value,
        Some(DataType::Number(Numeric::Integer(0x1234)))
    );

    let max_positive = DataFieldCoding::Integer24Bit
        .parse(&[0xFF, 0xFF, 0x7F])
        .unwrap();
    assert_eq!(
        max_positive.value,
        Some(DataType::Number(Numeric::Integer(8_388_607)))
    );

    let min_negative = DataFieldCoding::Integer24Bit
        .parse(&[0x00, 0x00, 0x80])
        .unwrap();
    assert_eq!(
        min_negative.value,
        Some(DataType::Number(Numeric::Integer(-8_388_608)))
    );
}

#[test]
fn parse_real_keeps_raw_bits() {
    // 1.0f32 in little-endian IEEE 754.
    let data = DataFieldCoding::Real32Bit
        .parse(&[0x00, 0x00, 0x80, 0x3F])
        .unwrap();
    assert_eq!(
        data.value,
        Some(DataType::Number(Numeric::Real32Bits(0x3F80_0000)))
    );
    assert_eq!(data.size, 4);
    match data.value {
        Some(DataType::Number(Numeric::Real32Bits(bits))) => {
            assert_eq!(f32::from_le_bytes(bits.to_le_bytes()), 1.0_f32);
        }
        other => panic!("unexpected value {:?}", other),
    }
}

#[test]
fn parse_rejects_short_payloads() {
    assert_eq!(
        DataFieldCoding::Integer16Bit.parse(&[0x01]),
        Err(DataRecordError::InsufficientData)
    );
    assert_eq!(
        DataFieldCoding::BCD4Digit.parse(&[0x99]),
        Err(DataRecordError::InsufficientData)
    );
    assert_eq!(
        DataFieldCoding::DateTypeG.parse(&[0x01]),
        Err(DataRecordError::InsufficientData)
    );
}

#[test]
fn parse_rejects_non_decimal_bcd_nibbles() {
    assert_eq!(
        DataFieldCoding::BCD2Digit.parse(&[0xFA]),
        Err(DataRecordError::InvalidData)
    );
}

#[test]
fn parse_bcd_values() {
    let two_digit = DataFieldCoding::BCD2Digit.parse(&[0x27]).unwrap();
    assert_eq!(two_digit.value, Some(DataType::Number(Numeric::Integer(27))));
    let twelve_digit = DataFieldCoding::BCDDigit12
        .parse(&[0x12, 0x90, 0x78, 0x56, 0x34, 0x12])
        .unwrap();
    assert_eq!(
        twelve_digit.value,
        Some(DataType::Number(Numeric::Integer(123_456_789_012)))
    );
    assert_eq!(twelve_digit.size, 6);
}

#[test]
fn parse_variable_length_text() {
    let data = DataFieldCoding::VariableLength
        .parse(&[0x04, 0x64, 0x63, 0x62, 0x61])
        .unwrap();
    assert_eq!(data.size, 5);
    match data.value {
        Some(DataType::Text(t)) => assert_eq!(t.render().unwrap(), "abcd"),
        other => panic!("unexpected value {:?}", other),
    }
}

#[test]
fn parse_variable_length_bcd() {
    let data = DataFieldCoding::VariableLength.parse(&[0xC2, 0x45]).unwrap();
    assert_eq!(data.value, Some(DataType::Number(Numeric::Integer(45))));
    assert_eq!(data.size, 2);

    let four_digit = DataFieldCoding::VariableLength
        .parse(&[0xC4, 0x23, 0x01])
        .unwrap();
    assert_eq!(
        four_digit.value,
        Some(DataType::Number(Numeric::Integer(123)))
    );
    assert_eq!(four_digit.size, 4);
}

#[test]
fn parse_unsupported_encodings_fail_loudly() {
    assert_eq!(
        DataFieldCoding::VariableLength.parse(&[0xE0, 0x00]),
        Err(DataRecordError::UnsupportedEncoding)
    );
    assert_eq!(
        DataFieldCoding::VariableLength.parse(&[0xF6]),
        Err(DataRecordError::UnsupportedEncoding)
    );
    assert_eq!(
        DataFieldCoding::DateTimeTypeI.parse(&[0x00, 0x00, 0x00, 0x00]),
        Err(DataRecordError::UnsupportedEncoding)
    );
    assert_eq!(
        DataFieldCoding::DateTimeTypeJ.parse(&[0x00, 0x00, 0x00, 0x00]),
        Err(DataRecordError::UnsupportedEncoding)
    );
    assert_eq!(
        DataFieldCoding::SpecialFunctions(SpecialFunctions::IdleFiller).parse(&[0x00]),
        Err(DataRecordError::UnsupportedEncoding)
    );
}

#[test]
fn parse_date_type_g() {
    // Day 31, month nibble 10 (November), packed year bits all clear.
    let data = DataFieldCoding::DateTypeG.parse(&[0x1F, 0x0A]).unwrap();
    assert_eq!(
        data.value,
        Some(DataType::Date(
            SingleOrEvery::Single(31),
            SingleOrEvery::Single(Month::November),
            SingleOrEvery::Single(0),
        ))
    );
    assert_eq!(data.size, 2);

    // Day bits zero mean "every day"; month nibble 15 means "every month".
    let wild = DataFieldCoding::DateTypeG.parse(&[0x00, 0x0F]).unwrap();
    assert_eq!(
        wild.value,
        Some(DataType::Date(
            SingleOrEvery::Every(),
            SingleOrEvery::Every(),
            SingleOrEvery::Single(0),
        ))
    );
}

#[test]
fn parse_date_type_g_invalid_month() {
    assert_eq!(
        DataFieldCoding::DateTypeG.parse(&[0x01, 0x0C]),
        Err(DataRecordError::InvalidData)
    );
}

#[test]
fn parse_datetime_type_f() {
    let data = DataFieldCoding::DateTimeTypeF
        .parse(&[0x2D, 0x17, 0x1E, 0x0B])
        .unwrap();
    assert_eq!(
        data.value,
        Some(DataType::DateTime(
            SingleOrEvery::Single(30),
            SingleOrEvery::Single(Month::December),
            SingleOrEvery::Single(0),
            SingleOrEvery::Single(23),
            SingleOrEvery::Single(45),
        ))
    );
    assert_eq!(data.size, 4);
}

#[test]
fn extract_from_bytes_reads_unsigned() {
    let value = DataFieldCoding::Integer24Bit.extract_from_bytes(&[0x15, 0x31, 0x00]);
    assert_eq!(value.data, Numeric::Unsigned(12565));
    assert_eq!(value.byte_size, 3);

    let bcd = DataFieldCoding::BCD4Digit.extract_from_bytes(&[0x12, 0x34]);
    assert_eq!(bcd.data, Numeric::Unsigned(3412));
    assert_eq!(bcd.byte_size, 2);

    let none = DataFieldCoding::NoData.extract_from_bytes(&[]);
    assert_eq!(none.data, Numeric::Unsigned(0));
    assert_eq!(none.byte_size, 0);
}

#[test]
fn render_rejects_invalid_utf8() {
    let bytes = [0xFF_u8, 0xFE];
    assert_eq!(TextUnit::new(&bytes).render(), None);
}

#[test]
fn extension_window_traverses_both_ways() {
    let bytes = [0x81_u8, 0x82, 0x03];
    let mut forward = DataInformationFieldExtensions::new(&bytes);
    assert_eq!(forward.len(), 3);
    assert!(!forward.is_empty());
    assert_eq!(forward.get(1), DataInformationFieldExtension { data: 0x82 });
    assert_eq!(forward.next(), Some(DataInformationFieldExtension { data: 0x81 }));
    assert_eq!(forward.len(), 2);

    let mut backward = DataInformationFieldExtensions::new(&bytes);
    assert_eq!(backward.next_back(), Some(DataInformationFieldExtension { data: 0x03 }));
    assert_eq!(backward.next_back(), Some(DataInformationFieldExtension { data: 0x82 }));
    assert_eq!(backward.next_back(), Some(DataInformationFieldExtension { data: 0x81 }));
    assert_eq!(backward.next_back(), None);
    assert!(backward.is_empty());
}

#[test]
fn special_function_markers_decode_from_bytes() {
    let cases = [
        (0x0F_u8, SpecialFunctions::ManufacturerSpecific),
        (0x1F, SpecialFunctions::MoreRecordsFollow),
        (0x2F, SpecialFunctions::IdleFiller),
        (0x7F, SpecialFunctions::GlobalReadoutRequest),
        (0x3F, SpecialFunctions::Reserved),
    ];
    for (byte, expected) in cases {
        let ext = DataInformationFieldExtension { data: byte };
        assert_eq!(ext.special_function(), expected);
    }
}

#[test]
fn field_types_convert_from_bytes() {
    assert_eq!(DataInformationField::from(0x13).data, 0x13);
    assert_eq!(DataInformationFieldExtension::from(0x42).data, 0x42);
}
