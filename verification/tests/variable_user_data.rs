use mbus_parser::data_information::{DataInformationError, FunctionField};
use mbus_parser::value_information::Unit;
use mbus_parser::variable_user_data::{
    DataRecord, DataRecordError, DataRecords, Quantity, VariableUserDataError,
};

#[test]
fn test_parse_vafriable_data() {
    /* Data block 1: unit 0, storage No 0, no tariff, instantaneous volume, 12565 l (24 bit integer) */
    let data = &[0x03, 0x13, 0x15, 0x31, 0x00];

    let result = DataRecords::decode_all(data.as_slice());
    assert_eq!(
        result.unwrap().get(0),
        Some(&DataRecord {
            function: FunctionField::InstantaneousValue,
            storage_number: 0,
            unit: Unit::WithoutUnits,
            quantity: Quantity::Unspecified,
            value: 12565,
            size: 2,
        })
    );
}

#[test]
fn whole_volume_telegram_is_one_record() {
    let data = &[0x03, 0x13, 0x15, 0x31, 0x00];
    let records = DataRecords::decode_all(data.as_slice()).unwrap();
    assert_eq!(records.len(), 1);
    assert!(!records.more_records_follow);
    let record = records.get(0).unwrap();
    assert_eq!(record.value, 12565);
    assert_eq!(record.size, 2);
}

#[test]
fn decoding_twice_gives_identical_records() {
    let data = &[0x03, 0x13, 0x15, 0x31, 0x00, 0x2F, 0x01, 0x20, 0x07];
    let first = DataRecords::decode_all(data.as_slice());
    let second = DataRecords::decode_all(data.as_slice());
    assert_eq!(first, second);
}

#[test]
fn manufacturer_specific_marker_ends_the_scan() {
    // One 8-bit record, then 0x0F cuts the scan before malformed bytes.
    let data = &[0x01, 0x20, 0x07, 0x0F, 0xFF, 0xFF];
    let records = DataRecords::decode_all(data.as_slice()).unwrap();
    assert_eq!(records.len(), 1);
    assert!(!records.more_records_follow);
    assert_eq!(records.get(0).unwrap().value, 7);
    assert_eq!(records.get(0).unwrap().unit, Unit::WithoutUnits);
}

#[test]
fn more_records_follow_marker_raises_the_flag() {
    let data = &[0x01, 0x20, 0x07, 0x1F];
    let records = DataRecords::decode_all(data.as_slice()).unwrap();
    assert_eq!(records.len(), 1);
    assert!(records.more_records_follow);
}

#[test]
fn idle_filler_is_skipped_without_a_record() {
    let data = &[0x2F, 0x2F, 0x01, 0x20, 0x07];
    let records = DataRecords::decode_all(data.as_slice()).unwrap();
    assert_eq!(records.len(), 1);
    assert_eq!(records.get(0).unwrap().value, 7);
    assert_eq!(records.get(1), None);
    assert_eq!(records.last().unwrap().value, 7);
}

#[test]
fn one_malformed_record_fails_the_whole_scan() {
    // The second field's data information claims an extension chain that
    // runs past the end of the buffer.
    let data = &[0x01, 0x20, 0x07, 0xFF];
    assert_eq!(
        DataRecords::decode_all(data.as_slice()),
        Err(VariableUserDataError::DataInformationError(
            DataRecordError::DataInformationError(DataInformationError::DataTooShort)
        ))
    );
}

#[test]
fn record_payload_must_fit_the_buffer() {
    // 16-bit coding with only one payload byte after the information blocks.
    let data = &[0x02, 0x20, 0x07];
    assert_eq!(
        DataRecord::decode(data.as_slice()),
        Err(DataRecordError::InsufficientData)
    );
}

#[test]
fn record_requires_primary_value_information() {
    // VIF 0x7E is the "any" wildcard, which the assembler cannot use.
    let data = &[0x01, 0x7E, 0x07];
    assert_eq!(
        DataRecord::decode(data.as_slice()),
        Err(DataRecordError::DataInformationError(
            DataInformationError::InvalidValueInformation
        ))
    );
}

#[test]
fn record_decode_reports_consumed_bytes() {
    let data = &[0x03, 0x13, 0x15, 0x31, 0x00];
    let (record, consumed) = DataRecord::decode(data.as_slice()).unwrap();
    assert_eq!(record.size, 2);
    assert_eq!(consumed, 5);
    assert_eq!(record.storage_number, 0);
}

#[test]
fn empty_telegram_has_no_records() {
    let records = DataRecords::decode_all(&[]).unwrap();
    assert_eq!(records.len(), 0);
    assert!(records.is_empty());
    assert_eq!(records.last(), None);
}

#[test]
fn records_collect_in_order() {
    let mut records = DataRecords::new();
    assert!(records.is_empty());
    let record = DataRecord {
        function: FunctionField::MinimumValue,
        storage_number: 3,
        unit: Unit::WithoutUnits,
        quantity: Quantity::Unspecified,
        value: 9,
        size: 2,
    };
    records.add_record(record);
    assert_eq!(records.len(), 1);
    assert_eq!(records.get(0), Some(&record));
    assert_eq!(records.last(), Some(&record));
}

#[test]
fn record_needs_a_value_information_byte() {
    // The buffer ends right after the data-information block.
    let data = &[0x01];
    assert_eq!(
        DataRecord::decode(data.as_slice()),
        Err(DataRecordError::DataInformationError(
            DataInformationError::InvalidValueInformation
        ))
    );
}
