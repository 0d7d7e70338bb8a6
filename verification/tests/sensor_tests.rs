use sensor_api::blockchain::{
    decode_account, decode_accounts, select_sensor, sensor_id_filters, sensor_query, sensor_type_filters,
    sensor_type_query, AccountError, AccountFilter, QueryError, SENSOR_DATA_ACCOUNT_SIZE,
};
use sensor_api::program_utils::{fetch_sensors_query, Sensor, SENSOR_PROGRAM_ID};
use sensor_api::types::{
    decode_sensor_metadata, DecodeError, SensorMetadata, SensorStatus, SensorType, SENSOR_METADATA_LEN,
};
use std::str::FromStr;

fn sample(id: u64, model: SensorType) -> SensorMetadata {
    SensorMetadata {
        id,
        model,
        host: [7u8; 32],
        latitude: -33_868_820,
        longitude: 151_209_290,
        status: SensorStatus::Collateralized,
        last_collateralized_at: 1_714_557_600,
        last_uncollateralized_at: -1,
        last_slashed_at: 0,
        bump: 254,
    }
}

fn account(m: &SensorMetadata) -> Vec<u8> {
    let mut data = vec![0xAAu8; 8];
    data.extend(m.to_bytes());
    data
}

#[test]
fn sensor_type_into_u8_gives_variant_index() {
    assert_eq!(u8::from(SensorType::Moisture), 0);
    assert_eq!(u8::from(SensorType::Flowmeter), 1);
}

#[test]
fn encoding_matches_borsh() {
    let m = sample(42, SensorType::Flowmeter);
    let expected = borsh::to_vec(&(
        m.id,
        1u8,
        m.host,
        m.latitude,
        m.longitude,
        1u8,
        m.last_collateralized_at,
        m.last_uncollateralized_at,
        m.last_slashed_at,
        m.bump,
    ))
    .unwrap();
    assert_eq!(m.to_bytes(), expected);
    assert_eq!(m.to_bytes().len(), SENSOR_METADATA_LEN);
    assert_eq!(SENSOR_METADATA_LEN as u64 + 8, SENSOR_DATA_ACCOUNT_SIZE);
}

#[test]
fn decoding_an_encoding_gives_the_sensor_back() {
    for m in [sample(1, SensorType::Moisture), sample(u64::MAX, SensorType::Flowmeter)] {
        assert_eq!(decode_sensor_metadata(&m.to_bytes()), Ok(m));
    }
}

#[test]
fn decoding_reports_the_first_problem() {
    let bytes = sample(9, SensorType::Moisture).to_bytes();
    assert_eq!(decode_sensor_metadata(&bytes[..5]), Err(DecodeError::UnexpectedLength));
    let mut bad_model = bytes.clone();
    bad_model[8] = 2;
    assert_eq!(decode_sensor_metadata(&bad_model[..20]), Err(DecodeError::InvalidModelTag(2)));
    let mut bad_status = bytes.clone();
    bad_status[57] = 3;
    assert_eq!(decode_sensor_metadata(&bad_status), Err(DecodeError::InvalidStatusTag(3)));
    assert_eq!(decode_sensor_metadata(&bytes[..82]), Err(DecodeError::UnexpectedLength));
    let mut long = bytes.clone();
    long.push(0);
    assert_eq!(decode_sensor_metadata(&long), Err(DecodeError::TrailingBytes));
}

#[test]
fn decoding_matches_borsh_layout_of_fields() {
    let mut bytes = Vec::new();
    bytes.extend(77u64.to_le_bytes());
    bytes.push(0);
    bytes.extend([3u8; 32]);
    bytes.extend((-5i64).to_le_bytes());
    bytes.extend(6i64.to_le_bytes());
    bytes.push(2);
    bytes.extend(8i64.to_le_bytes());
    bytes.extend(9i64.to_le_bytes());
    bytes.extend(10i64.to_le_bytes());
    bytes.push(11);
    let m = decode_sensor_metadata(&bytes).unwrap();
    assert_eq!(m.id, 77);
    assert_eq!(m.model, SensorType::Moisture);
    assert_eq!(m.host, [3u8; 32]);
    assert_eq!((m.latitude, m.longitude), (-5, 6));
    assert_eq!(m.status, SensorStatus::Slashed);
    assert_eq!((m.last_collateralized_at, m.last_uncollateralized_at, m.last_slashed_at), (8, 9, 10));
    assert_eq!(m.bump, 11);
}

#[test]
fn id_filters_hold_size_and_id_bytes() {
    let filters = sensor_id_filters(0x0102030405060708);
    assert!(matches!(filters[0], AccountFilter::DataSize(91)));
    match &filters[1] {
        AccountFilter::BytesAt { offset, bytes } => {
            assert_eq!(*offset, 8);
            assert_eq!(bytes, &vec![8, 7, 6, 5, 4, 3, 2, 1]);
        }
        _ => panic!("expected a byte filter"),
    }
}

#[test]
fn type_filters_hold_size_and_kind_byte() {
    let filters = sensor_type_filters(SensorType::Flowmeter);
    assert!(matches!(filters[0], AccountFilter::DataSize(91)));
    match &filters[1] {
        AccountFilter::BytesAt { offset, bytes } => {
            assert_eq!(*offset, 16);
            assert_eq!(bytes, &vec![1]);
        }
        _ => panic!("expected a byte filter"),
    }
}

#[test]
fn id_filter_bytes_sit_where_the_account_holds_the_id() {
    let m = sample(123_456, SensorType::Moisture);
    let data = account(&m);
    assert_eq!(data.len() as u64, SENSOR_DATA_ACCOUNT_SIZE);
    if let AccountFilter::BytesAt { offset, bytes } = &sensor_id_filters(123_456)[1] {
        assert_eq!(&data[*offset..*offset + bytes.len()], bytes.as_slice());
    }
    if let AccountFilter::BytesAt { offset, bytes } = &sensor_type_filters(SensorType::Moisture)[1] {
        assert_eq!(&data[*offset..*offset + bytes.len()], bytes.as_slice());
    }
}

const PROGRAM: &str = "H3B2URUN8BMxZvxx6yit2n8sRRWGo8bBdew4yDosurjG";

#[test]
fn program_constant_is_the_parsed_key() {
    let key = solana_sdk::pubkey::Pubkey::from_str(PROGRAM).unwrap();
    assert_eq!(key.to_bytes(), SENSOR_PROGRAM_ID);
    let q = fetch_sensors_query(SensorType::Moisture);
    assert_eq!(q.program, SENSOR_PROGRAM_ID);
    assert!(q.sort_results);
}

#[test]
fn sensor_query_parses_program_and_id() {
    let q = sensor_query(PROGRAM, "42").unwrap();
    assert_eq!(q.program, SENSOR_PROGRAM_ID);
    assert!(q.sort_results);
    match &q.filters[1] {
        AccountFilter::BytesAt { bytes, .. } => assert_eq!(bytes, &42u64.to_le_bytes().to_vec()),
        _ => panic!("expected a byte filter"),
    }
    assert!(sensor_query(PROGRAM, "+42").is_ok());
}

#[test]
fn sensor_query_refuses_bad_identifiers() {
    assert_eq!(sensor_query("not-a-key", "42").unwrap_err(), QueryError::InvalidProgramId);
    assert_eq!(sensor_query("not-a-key", "x").unwrap_err(), QueryError::InvalidProgramId);
    for bad in ["", "+", "-1", " 1", "1.0", "18446744073709551616", "abc"] {
        assert_eq!(sensor_query(PROGRAM, bad).unwrap_err(), QueryError::InvalidSensorId, "{bad:?}");
    }
    assert!(sensor_query(PROGRAM, "18446744073709551615").is_ok());
    assert_eq!(
        sensor_type_query("tooooooooooooooooooooooooooooooooooooooooooooooooooooooolong", SensorType::Moisture)
            .unwrap_err(),
        QueryError::InvalidProgramId
    );
    assert_eq!(sensor_type_query(PROGRAM, SensorType::Flowmeter).unwrap().program, SENSOR_PROGRAM_ID);
}

#[test]
fn select_sensor_takes_the_first_decodable_account() {
    let a = sample(1, SensorType::Moisture);
    let b = sample(2, SensorType::Moisture);
    let junk = vec![0xFFu8; 91];
    let mut invalid = account(&a);
    invalid[16] = 9;
    assert_eq!(select_sensor(&vec![junk.clone(), invalid, account(&b), account(&a)]), Ok(b));
    assert_eq!(select_sensor(&vec![]), Err(AccountError::NotFound));
    assert_eq!(select_sensor(&vec![vec![1u8; 40]]), Err(AccountError::NotFound));
    assert_eq!(select_sensor(&vec![vec![1u8; 40], vec![1u8; 3], account(&a)]), Err(AccountError::ShortAccount(1)));
    assert_eq!(select_sensor(&vec![account(&a), vec![1u8; 3]]), Ok(a));
}

#[test]
fn decode_accounts_decodes_all_or_reports_the_first_failure() {
    let a = sample(1, SensorType::Flowmeter);
    let b = sample(2, SensorType::Flowmeter);
    let sensors: Vec<Sensor> = decode_accounts(&vec![account(&a), account(&b)]).unwrap();
    assert_eq!(sensors, vec![a, b]);
    let mut short_tail = account(&b);
    short_tail.pop();
    assert_eq!(
        decode_accounts(&vec![account(&a), short_tail, vec![]]),
        Err(AccountError::Undecodable(1, DecodeError::UnexpectedLength))
    );
    assert_eq!(decode_accounts(&vec![account(&a), vec![0u8; 7]]), Err(AccountError::ShortAccount(1)));
    assert_eq!(decode_accounts(&vec![]), Ok(vec![]));
    assert_eq!(decode_account(&account(&a)), Ok(a));
}

#[test]
fn lookup_selects_the_first_of_all_decoded_sensors() {
    let a = sample(5, SensorType::Moisture);
    let b = sample(6, SensorType::Flowmeter);
    let accounts = vec![account(&a), account(&b)];
    let all = decode_accounts(&accounts).unwrap();
    assert_eq!(select_sensor(&accounts), Ok(all[0]));
}
