//! Finding sensors among the accounts of the sensor program on Solana.
//!
//! A lookup asks an RPC node for the program's accounts that pass a list of
//! filters, then decodes the accounts that come back. This module builds the
//! filters, parses the identifiers that a lookup starts from, and decodes and
//! selects the accounts; the caller talks to the node.

use vstd::prelude::*;
use vstd::bytes::{spec_u64_from_le_bytes, spec_u64_to_le_bytes, u64_to_le_bytes};
use crate::types::{
    decode_sensor_metadata, lemma_encode_decode, model_byte, spec_decode_sensor,
    DecodeError, SensorMetadata, SensorMetadataView, SensorType,
};

verus! {

/// Size in bytes of a sensor account: the discriminator and the encoded sensor.
pub const SENSOR_DATA_ACCOUNT_SIZE: u64 = 91;

/// Offset of the sensor id in a sensor account.
pub const SENSOR_ID_OFFSET: usize = 8;

/// Offset of the sensor kind in a sensor account.
pub const SENSOR_MODEL_OFFSET: usize = 16;

/// Length of the discriminator that starts every account of the program.
pub const BORSH_DISCRIMINATOR_LEN: usize = 8;

/// A condition that an RPC node checks on an account's data before it
/// returns the account.
#[derive(Debug)]
pub enum AccountFilter {
    /// The data has exactly this many bytes.
    DataSize(u64),
    /// The data holds `bytes` starting at `offset`.
    BytesAt { offset: usize, bytes: Vec<u8> },
}

/// Whether account data `data` passes filter `f`.
pub open spec fn filter_matches(f: AccountFilter, data: Seq<u8>) -> bool {
    match f {
        AccountFilter::DataSize(n) => data.len() == n,
        AccountFilter::BytesAt { offset, bytes } => offset + bytes@.len() <= data.len()
            && data.subrange(offset as int, offset + bytes@.len()) == bytes@,
    }
}

/// Whether account data `data` passes every filter of `filters`.
pub open spec fn all_filters_match(filters: Seq<AccountFilter>, data: Seq<u8>) -> bool {
    forall|i: int| 0 <= i < filters.len() ==> filter_matches(#[trigger] filters[i], data)
}

/// A request for the accounts of a program that pass all filters.
#[derive(Debug)]
pub struct ProgramAccountsQuery {
    pub program: [u8; 32],
    pub filters: Vec<AccountFilter>,
    pub sort_results: bool,
}

/// Account data of a sensor account's size that holds `id` where the sensor id goes.
pub open spec fn holds_sensor_id(data: Seq<u8>, id: u64) -> bool {
    &&& data.len() == SENSOR_DATA_ACCOUNT_SIZE
    &&& data.subrange(8, 16) == spec_u64_to_le_bytes(id)
}

/// Account data of a sensor account's size that holds the byte of `t` where
/// the sensor kind goes.
pub open spec fn holds_sensor_type(data: Seq<u8>, t: SensorType) -> bool {
    &&& data.len() == SENSOR_DATA_ACCOUNT_SIZE
    &&& data[16] == model_byte(t)
}

/// `filters` are the size of a sensor account and, at `offset`, `bytes`.
pub open spec fn sensor_filters_with(filters: Seq<AccountFilter>, offset: usize, bytes: Seq<u8>) -> bool {
    &&& filters.len() == 2
    &&& filters[0] == AccountFilter::DataSize(SENSOR_DATA_ACCOUNT_SIZE)
    &&& filters[1] matches AccountFilter::BytesAt { offset: o, bytes: b } && o == offset && b@ == bytes
}

/// The filters that select the accounts of the sensor with id `sensor_id`:
/// the size of a sensor account, and the id's little-endian bytes at the id's
/// offset.
pub fn sensor_id_filters(sensor_id: u64) -> (filters: Vec<AccountFilter>)
    ensures
        sensor_filters_with(filters@, SENSOR_ID_OFFSET, spec_u64_to_le_bytes(sensor_id)),
        forall|data: Seq<u8>| all_filters_match(filters@, data) <==> holds_sensor_id(data, sensor_id),
{
    let id_bytes = u64_to_le_bytes(sensor_id);
    let filters = vec![
        AccountFilter::DataSize(SENSOR_DATA_ACCOUNT_SIZE),
        AccountFilter::BytesAt { offset: SENSOR_ID_OFFSET, bytes: id_bytes },
    ];
    assert forall|data: Seq<u8>| all_filters_match(filters@, data) <==> holds_sensor_id(data, sensor_id) by {
        if holds_sensor_id(data, sensor_id) {
            assert forall|i: int| 0 <= i < filters@.len() implies filter_matches(#[trigger] filters@[i], data) by {}
        }
        if all_filters_match(filters@, data) {
            assert(filter_matches(filters@[0], data));
            assert(filter_matches(filters@[1], data));
        }
    }
    filters
}

/// The filters that select the accounts of sensors of kind `sensor_type`: the
/// size of a sensor account, and the kind's byte at the kind's offset.
pub fn sensor_type_filters(sensor_type: SensorType) -> (filters: Vec<AccountFilter>)
    ensures
        sensor_filters_with(filters@, SENSOR_MODEL_OFFSET, seq![model_byte(sensor_type)]),
        forall|data: Seq<u8>| all_filters_match(filters@, data) <==> holds_sensor_type(data, sensor_type),
{
    let model: u8 = sensor_type.into();
    let model_bytes = vec![model];
    assert(model_bytes@ =~= seq![model_byte(sensor_type)]);
    let filters = vec![
        AccountFilter::DataSize(SENSOR_DATA_ACCOUNT_SIZE),
        AccountFilter::BytesAt { offset: SENSOR_MODEL_OFFSET, bytes: model_bytes },
    ];
    assert forall|data: Seq<u8>| all_filters_match(filters@, data) <==> holds_sensor_type(data, sensor_type) by {
        if holds_sensor_type(data, sensor_type) {
            assert(data.subrange(16, 17) =~= seq![model_byte(sensor_type)]);
            assert forall|i: int| 0 <= i < filters@.len() implies filter_matches(#[trigger] filters@[i], data) by {}
        }
        if all_filters_match(filters@, data) {
            assert(filter_matches(filters@[0], data));
            assert(filter_matches(filters@[1], data));
            assert(data[16] == data.subrange(16, 17)[0]);
        }
    }
    filters
}

/// The encoded sensor in account data: what follows the discriminator.
pub open spec fn account_payload(data: Seq<u8>) -> Seq<u8> {
    data.subrange(BORSH_DISCRIMINATOR_LEN as int, data.len() as int)
}

/// For an account that holds a sensor, the id filter passes exactly when the
/// sensor has that id.
pub proof fn lemma_id_filter_selects(data: Seq<u8>, id: u64)
    requires
        data.len() >= BORSH_DISCRIMINATOR_LEN,
        spec_decode_sensor(account_payload(data)) is Ok,
    ensures
        data.len() == SENSOR_DATA_ACCOUNT_SIZE,
        holds_sensor_id(data, id) <==> spec_decode_sensor(account_payload(data)).unwrap().id == id,
{
    vstd::bytes::lemma_auto_spec_u64_to_from_le_bytes();
    let p = account_payload(data);
    lemma_encode_decode(p);
    assert(data.subrange(8, 16) =~= p.subrange(0, 8));
    assert(p.subrange(0, 8).len() == 8);
}

/// For an account that holds a sensor, the kind filter passes exactly when
/// the sensor is of that kind.
pub proof fn lemma_type_filter_selects(data: Seq<u8>, t: SensorType)
    requires
        data.len() >= BORSH_DISCRIMINATOR_LEN,
        spec_decode_sensor(account_payload(data)) is Ok,
    ensures
        data.len() == SENSOR_DATA_ACCOUNT_SIZE,
        holds_sensor_type(data, t) <==> spec_decode_sensor(account_payload(data)).unwrap().model == t,
{
    let p = account_payload(data);
    assert(data[16] == p[8]);
}

/// The key that base-58 text `s` names, as `solana_sdk` parses
/// it: 32 bytes, or nothing when `s` is not such a key.
pub uninterp spec fn parsed_pubkey(s: Seq<char>) -> Option<Seq<u8>>;

/// Parses a base-58 public key.
///
/// Calls `FromStr` for `solana_sdk::pubkey::Pubkey` and hands back the key's
/// bytes. The result is named by [`parsed_pubkey`] of the text; the crate
/// refuses text longer than 44 bytes before decoding, so text of more than 44
/// characters gives nothing. Which other texts decode is not stated.
#[verifier::external_body]
fn parse_pubkey(s: &str) -> (res: Option<[u8; 32]>)
    ensures
        res matches Some(k) ==> parsed_pubkey(s@) == Some(k@),
        res is None ==> parsed_pubkey(s@) is None,
        s@.len() > 44 ==> res is None,
{
    match s.parse::<solana_sdk::pubkey::Pubkey>() {
        Ok(key) => Some(key.to_bytes()),
        Err(_) => None,
    }
}

/// Whether `c` is one of the ASCII digits `0` to `9`.
pub open spec fn is_decimal_digit(c: char) -> bool {
    '0' <= c && c <= '9'
}

/// The number that the decimal digits `s` write.
pub open spec fn decimal_value(s: Seq<char>) -> int
    decreases s.len(),
{
    if s.len() == 0 {
        0
    } else {
        decimal_value(s.drop_last()) * 10 + (s.last() as int - '0' as int)
    }
}

/// The `u64` that text `s` writes in decimal: an optional `+` and at least one
/// ASCII digit, with a value that fits; nothing for any other text.
pub open spec fn spec_parse_u64(s: Seq<char>) -> Option<u64> {
    let digits = if s.len() > 0 && s[0] == '+' {
        s.drop_first()
    } else {
        s
    };
    if digits.len() > 0 && (forall|i: int| 0 <= i < digits.len() ==> is_decimal_digit(#[trigger] digits[i]))
        && decimal_value(digits) <= u64::MAX {
        Some(decimal_value(digits) as u64)
    } else {
        None
    }
}

/// Parses a decimal `u64`.
///
/// Calls `str::parse::<u64>`, which its documentation describes as accepting
/// an optional `+` followed by ASCII digits whose value fits, and nothing else
/// (no sign `-`, no whitespace); the contract states exactly that.
#[verifier::external_body]
fn parse_u64(s: &str) -> (res: Option<u64>)
    ensures
        res == spec_parse_u64(s@),
{
    s.parse::<u64>().ok()
}

/// Why a lookup cannot start.
#[derive(Clone, Copy, Debug, PartialEq, Eq, Structural)]
pub enum QueryError {
    /// The program id is not a base-58 public key.
    InvalidProgramId,
    /// The sensor id is not a decimal `u64`.
    InvalidSensorId,
}

/// The query for the account of the sensor whose decimal id is `sensor_id`,
/// among the accounts of the program whose base-58 id is `program_id`: the
/// program's key, the filters of [`sensor_id_filters`] and sorted results. The
/// program id is parsed first.
pub fn sensor_query(program_id: &str, sensor_id: &str) -> (res: Result<ProgramAccountsQuery, QueryError>)
    ensures
        parsed_pubkey(program_id@) is None <==> res == Err::<ProgramAccountsQuery, QueryError>(
            QueryError::InvalidProgramId,
        ),
        parsed_pubkey(program_id@) is Some && spec_parse_u64(sensor_id@) is None <==> res == Err::<
            ProgramAccountsQuery,
            QueryError,
        >(QueryError::InvalidSensorId),
        res matches Ok(q) ==> {
            &&& parsed_pubkey(program_id@) == Some(q.program@)
            &&& q.sort_results
            &&& spec_parse_u64(sensor_id@) matches Some(id) && sensor_filters_with(
                q.filters@,
                SENSOR_ID_OFFSET,
                spec_u64_to_le_bytes(id),
            ) && forall|data: Seq<u8>| all_filters_match(q.filters@, data) <==> holds_sensor_id(data, id)
        },
{
    let program = match parse_pubkey(program_id) {
        Some(key) => key,
        None => return Err(QueryError::InvalidProgramId),
    };
    let id = match parse_u64(sensor_id) {
        Some(id) => id,
        None => return Err(QueryError::InvalidSensorId),
    };
    Ok(ProgramAccountsQuery { program, filters: sensor_id_filters(id), sort_results: true })
}

/// The query for the accounts of all sensors of kind `sensor_type` among the
/// accounts of the program whose base-58 id is `program_id`: the program's
/// key, the filters of [`sensor_type_filters`] and sorted results.
pub fn sensor_type_query(program_id: &str, sensor_type: SensorType) -> (res: Result<ProgramAccountsQuery, QueryError>)
    ensures
        parsed_pubkey(program_id@) is None <==> res is Err,
        res matches Err(e) ==> e == QueryError::InvalidProgramId,
        res matches Ok(q) ==> {
            &&& parsed_pubkey(program_id@) == Some(q.program@)
            &&& q.sort_results
            &&& sensor_filters_with(q.filters@, SENSOR_MODEL_OFFSET, seq![model_byte(sensor_type)])
            &&& forall|data: Seq<u8>| all_filters_match(q.filters@, data) <==> holds_sensor_type(data, sensor_type)
        },
{
    let program = match parse_pubkey(program_id) {
        Some(key) => key,
        None => return Err(QueryError::InvalidProgramId),
    };
    Ok(ProgramAccountsQuery { program, filters: sensor_type_filters(sensor_type), sort_results: true })
}

/// Why the accounts that a node returned give no answer.
#[derive(Clone, Copy, Debug, PartialEq, Eq, Structural)]
pub enum AccountError {
    /// The account at this index is shorter than the discriminator.
    ShortAccount(usize),
    /// No account holds a sensor.
    NotFound,
    /// The account at this index does not hold a sensor, for this reason.
    Undecodable(usize, DecodeError),
}

/// The sensor of the first account, from index `i` on, whose payload decodes;
/// an account shorter than the discriminator before it stops the search.
pub open spec fn spec_select_sensor(accounts: Seq<Vec<u8>>, i: int) -> Result<SensorMetadataView, AccountError>
    decreases accounts.len() - i,
{
    if i < 0 || i >= accounts.len() {
        Err(AccountError::NotFound)
    } else if accounts[i]@.len() < BORSH_DISCRIMINATOR_LEN {
        Err(AccountError::ShortAccount(i as usize))
    } else {
        match spec_decode_sensor(account_payload(accounts[i]@)) {
            Ok(v) => Ok(v),
            Err(_) => spec_select_sensor(accounts, i + 1),
        }
    }
}

/// The sensors of all accounts from index `i` on, in order; the first account
/// that is shorter than the discriminator or does not decode stops the decoding.
pub open spec fn spec_decode_accounts(accounts: Seq<Vec<u8>>, i: int) -> Result<Seq<SensorMetadataView>, AccountError>
    decreases accounts.len() - i,
{
    if i < 0 || i >= accounts.len() {
        Ok(Seq::empty())
    } else if accounts[i]@.len() < BORSH_DISCRIMINATOR_LEN {
        Err(AccountError::ShortAccount(i as usize))
    } else {
        match spec_decode_sensor(account_payload(accounts[i]@)) {
            Ok(v) => match spec_decode_accounts(accounts, i + 1) {
                Ok(rest) => Ok(seq![v] + rest),
                Err(e) => Err(e),
            },
            Err(e) => Err(AccountError::Undecodable(i as usize, e)),
        }
    }
}

/// Decodes the sensor held by account data `data`, after its discriminator.
pub fn decode_account(data: &Vec<u8>) -> (res: Result<SensorMetadata, DecodeError>)
    requires
        data.len() >= BORSH_DISCRIMINATOR_LEN,
    ensures
        crate::types::decode_result_view(res) == spec_decode_sensor(account_payload(data@)),
        account_sensor(data@) == Some(crate::types::decode_result_view(res)),
{
    let payload = vstd::slice::slice_subrange(data.as_slice(), BORSH_DISCRIMINATOR_LEN, data.len());
    decode_sensor_metadata(payload)
}

/// The sensor of the first account whose data, after the discriminator,
/// decodes; `NotFound` when none does. An account shorter than the
/// discriminator that is reached before a decodable one gives `ShortAccount`.
pub fn select_sensor(accounts: &Vec<Vec<u8>>) -> (res: Result<SensorMetadata, AccountError>)
    ensures
        match res {
            Ok(m) => spec_select_sensor(accounts@, 0) == Ok::<SensorMetadataView, AccountError>(m@),
            Err(e) => spec_select_sensor(accounts@, 0) == Err::<SensorMetadataView, AccountError>(e),
        },
        res matches Ok(m) ==> exists|j: int|
            0 <= j < accounts.len() && account_sensor(accounts@[j]@) == Some(Ok::<SensorMetadataView, DecodeError>(m@))
                && forall|k: int| 0 <= k < j ==> #[trigger] account_sensor(accounts@[k]@) matches Some(Err(_)),
        res matches Err(AccountError::NotFound) ==> forall|k: int|
            0 <= k < accounts.len() ==> #[trigger] account_sensor(accounts@[k]@) matches Some(Err(_)),
{
    let len = accounts.len();
    proof {
        lemma_select_sensor_takes_first(accounts@);
    }
    let mut i: usize = 0;
    while i < accounts.len()
        invariant
            len == accounts.len(),
            i <= accounts.len(),
            spec_select_sensor(accounts@, 0) == spec_select_sensor(accounts@, i as int),
        decreases accounts.len() - i,
    {
        if accounts[i].len() < BORSH_DISCRIMINATOR_LEN {
            return Err(AccountError::ShortAccount(i));
        }
        match decode_account(&accounts[i]) {
            Ok(m) => {
                proof {
                    lemma_select_sensor_takes_first(accounts@);
                }
                return Ok(m);
            },
            Err(_) => {},
        }
        i = i + 1;
    }
    Err(AccountError::NotFound)
}

/// The sensors of all accounts, in order, each decoded from the data after
/// its discriminator; the first account that is shorter than the
/// discriminator or does not decode gives the error.
pub fn decode_accounts(accounts: &Vec<Vec<u8>>) -> (res: Result<Vec<SensorMetadata>, AccountError>)
    ensures
        match res {
            Ok(sensors) => spec_decode_accounts(accounts@, 0) == Ok::<Seq<SensorMetadataView>, AccountError>(
                sensors@.map_values(|m: SensorMetadata| m@),
            ),
            Err(e) => spec_decode_accounts(accounts@, 0) == Err::<Seq<SensorMetadataView>, AccountError>(e),
        },
        res matches Ok(sensors) ==> sensors.len() == accounts.len() && forall|k: int|
            0 <= k < sensors.len() ==> account_sensor(accounts@[k]@) == Some(
                Ok::<SensorMetadataView, DecodeError>(#[trigger] sensors@[k]@),
            ),
        (forall|k: int| 0 <= k < accounts.len() ==> #[trigger] account_sensor(accounts@[k]@) matches Some(Ok(_)))
            ==> res is Ok,
{
    let len = accounts.len();
    proof {
        lemma_decode_accounts_reads_each(accounts@);
    }
    let mut sensors: Vec<SensorMetadata> = Vec::new();
    let mut i: usize = 0;
    while i < accounts.len()
        invariant
            len == accounts.len(),
            i <= accounts.len(),
            spec_decode_accounts(accounts@, 0) == match spec_decode_accounts(accounts@, i as int) {
                Ok(rest) => Ok(sensors@.map_values(|m: SensorMetadata| m@) + rest),
                Err(e) => Err(e),
            },
        decreases accounts.len() - i,
    {
        if accounts[i].len() < BORSH_DISCRIMINATOR_LEN {
            proof {
                lemma_decode_accounts_reads_each(accounts@);
            }
            return Err(AccountError::ShortAccount(i));
        }
        match decode_account(&accounts[i]) {
            Ok(m) => {
                let ghost before = sensors@.map_values(|m: SensorMetadata| m@);
                sensors.push(m);
                assert(sensors@.map_values(|m: SensorMetadata| m@) =~= before.push(m@));
                proof {
                    match spec_decode_accounts(accounts@, i + 1) {
                        Ok(rest) => {
                            assert(before + (seq![m@] + rest) =~= before.push(m@) + rest);
                        },
                        Err(_) => {},
                    }
                }
            },
            Err(e) => {
                proof {
                    lemma_decode_accounts_reads_each(accounts@);
                }
                return Err(AccountError::Undecodable(i, e));
            },
        }
        i = i + 1;
    }
    assert(sensors@.map_values(|m: SensorMetadata| m@) + Seq::<SensorMetadataView>::empty() =~= sensors@.map_values(
        |m: SensorMetadata| m@,
    ));
    proof {
        let views = sensors@.map_values(|m: SensorMetadata| m@);
        assert forall|k: int| 0 <= k < sensors@.len() implies account_sensor(accounts@[k]@) == Some(
            Ok::<SensorMetadataView, DecodeError>(#[trigger] sensors@[k]@),
        ) by {
            assert(views[k] == sensors@[k]@);
        }
    }
    Ok(sensors)
}

/// When all accounts decode to a non-empty list of sensors, a lookup over the
/// same accounts selects the first sensor of that list.
pub proof fn lemma_select_first_decoded(accounts: Seq<Vec<u8>>)
    requires
        spec_decode_accounts(accounts, 0) matches Ok(sensors) && sensors.len() > 0,
    ensures
        spec_select_sensor(accounts, 0) == Ok::<SensorMetadataView, AccountError>(
            spec_decode_accounts(accounts, 0).unwrap()[0],
        ),
{
    let sensors = spec_decode_accounts(accounts, 0).unwrap();
    if accounts.len() > 0 {
        let v = spec_decode_sensor(account_payload(accounts[0]@)).unwrap();
        let rest = spec_decode_accounts(accounts, 1).unwrap();
        assert(sensors == seq![v] + rest);
    }
}

/// The sensor that account data `data` holds after its 8-byte discriminator,
/// or why there is none; nothing when the data is shorter than the
/// discriminator.
pub open spec fn account_sensor(data: Seq<u8>) -> Option<Result<SensorMetadataView, DecodeError>> {
    if data.len() < 8 {
        None
    } else {
        Some(spec_decode_sensor(data.subrange(8, data.len() as int)))
    }
}

proof fn lemma_decode_accounts_from(accounts: Seq<Vec<u8>>, i: int)
    requires
        0 <= i <= accounts.len() <= usize::MAX,
    ensures
        spec_decode_accounts(accounts, i) matches Ok(sensors) ==> sensors.len() == accounts.len() - i && forall|k: int|
            0 <= k < sensors.len() ==> account_sensor(accounts[i + k]@) == Some(
                Ok::<SensorMetadataView, DecodeError>(#[trigger] sensors[k]),
            ),
        (forall|k: int| i <= k < accounts.len() ==> #[trigger] account_sensor(accounts[k]@) matches Some(Ok(_)))
            ==> spec_decode_accounts(accounts, i) is Ok,
        spec_decode_accounts(accounts, i) matches Err(AccountError::ShortAccount(j)) ==> i <= j < accounts.len()
            && account_sensor(accounts[j as int]@) is None && forall|k: int|
            i <= k < j ==> #[trigger] account_sensor(accounts[k]@) matches Some(Ok(_)),
        spec_decode_accounts(accounts, i) matches Err(AccountError::Undecodable(j, d)) ==> i <= j < accounts.len()
            && account_sensor(accounts[j as int]@) == Some(Err::<SensorMetadataView, DecodeError>(d))
            && forall|k: int| i <= k < j ==> #[trigger] account_sensor(accounts[k]@) matches Some(Ok(_)),
        !(spec_decode_accounts(accounts, i) matches Err(AccountError::NotFound)),
    decreases accounts.len() - i,
{
    if i < accounts.len() {
        lemma_decode_accounts_from(accounts, i + 1);
        assert(account_payload(accounts[i]@) == accounts[i]@.subrange(8, accounts[i]@.len() as int));
        if forall|k: int| i <= k < accounts.len() ==> #[trigger] account_sensor(accounts[k]@) matches Some(Ok(_)) {
            assert(account_sensor(accounts[i]@) matches Some(Ok(_)));
        }
        if account_sensor(accounts[i]@) matches Some(Ok(_)) {
            match spec_decode_accounts(accounts, i) {
                Err(AccountError::ShortAccount(j)) => {
                    assert forall|k: int| i <= k < j implies #[trigger] account_sensor(accounts[k]@) matches Some(Ok(_)) by {
                        if k > i {
                        }
                    }
                },
                Err(AccountError::Undecodable(j, _)) => {
                    assert forall|k: int| i <= k < j implies #[trigger] account_sensor(accounts[k]@) matches Some(Ok(_)) by {
                        if k > i {
                        }
                    }
                },
                _ => {},
            }
        }
        if let Ok(sensors) = spec_decode_accounts(accounts, i) {
            let rest = spec_decode_accounts(accounts, i + 1).unwrap();
            assert forall|k: int| 0 <= k < sensors.len() implies account_sensor(accounts[i + k]@) == Some(
                Ok::<SensorMetadataView, DecodeError>(#[trigger] sensors[k]),
            ) by {
                if k > 0 {
                    assert(sensors[k] == rest[k - 1]);
                    assert(i + 1 + (k - 1) == i + k);
                }
            }
        }
    }
}

/// Decoding all accounts gives one sensor per account, in order, each the one
/// its data holds after the discriminator, and succeeds whenever every account
/// holds a sensor; otherwise the error names the first account that is too
/// short or does not hold a sensor, and why.
pub proof fn lemma_decode_accounts_reads_each(accounts: Seq<Vec<u8>>)
    requires
        accounts.len() <= usize::MAX,
    ensures
        spec_decode_accounts(accounts, 0) matches Ok(sensors) ==> sensors.len() == accounts.len() && forall|k: int|
            0 <= k < sensors.len() ==> account_sensor(accounts[k]@) == Some(
                Ok::<SensorMetadataView, DecodeError>(#[trigger] sensors[k]),
            ),
        (forall|k: int| 0 <= k < accounts.len() ==> #[trigger] account_sensor(accounts[k]@) matches Some(Ok(_)))
            ==> spec_decode_accounts(accounts, 0) is Ok,
        spec_decode_accounts(accounts, 0) matches Err(AccountError::ShortAccount(j)) ==> j < accounts.len()
            && account_sensor(accounts[j as int]@) is None && forall|k: int|
            0 <= k < j ==> #[trigger] account_sensor(accounts[k]@) matches Some(Ok(_)),
        spec_decode_accounts(accounts, 0) matches Err(AccountError::Undecodable(j, d)) ==> j < accounts.len()
            && account_sensor(accounts[j as int]@) == Some(Err::<SensorMetadataView, DecodeError>(d))
            && forall|k: int| 0 <= k < j ==> #[trigger] account_sensor(accounts[k]@) matches Some(Ok(_)),
        !(spec_decode_accounts(accounts, 0) matches Err(AccountError::NotFound)),
{
    lemma_decode_accounts_from(accounts, 0);
    if let Ok(sensors) = spec_decode_accounts(accounts, 0) {
        assert forall|k: int| 0 <= k < sensors.len() implies account_sensor(accounts[k]@) == Some(
            Ok::<SensorMetadataView, DecodeError>(#[trigger] sensors[k]),
        ) by {
            assert(0 + k == k);
        }
    }
}

proof fn lemma_select_sensor_from(accounts: Seq<Vec<u8>>, i: int)
    requires
        0 <= i <= accounts.len() <= usize::MAX,
    ensures
        spec_select_sensor(accounts, i) matches Ok(v) ==> exists|j: int|
            i <= j < accounts.len() && account_sensor(accounts[j]@) == Some(Ok::<SensorMetadataView, DecodeError>(v))
                && forall|k: int| i <= k < j ==> #[trigger] account_sensor(accounts[k]@) matches Some(Err(_)),
        spec_select_sensor(accounts, i) matches Err(AccountError::NotFound) ==> forall|k: int|
            i <= k < accounts.len() ==> #[trigger] account_sensor(accounts[k]@) matches Some(Err(_)),
        spec_select_sensor(accounts, i) matches Err(AccountError::ShortAccount(j)) ==> i <= j < accounts.len()
            && account_sensor(accounts[j as int]@) is None && forall|k: int|
            i <= k < j ==> #[trigger] account_sensor(accounts[k]@) matches Some(Err(_)),
        !(spec_select_sensor(accounts, i) matches Err(AccountError::Undecodable(_, _))),
    decreases accounts.len() - i,
{
    if i < accounts.len() {
        lemma_select_sensor_from(accounts, i + 1);
        assert(account_payload(accounts[i]@) == accounts[i]@.subrange(8, accounts[i]@.len() as int));
        if account_sensor(accounts[i]@) matches Some(Err(_)) {
            match spec_select_sensor(accounts, i) {
                Err(AccountError::ShortAccount(j)) => {
                    assert forall|k: int| i <= k < j implies #[trigger] account_sensor(accounts[k]@) matches Some(Err(_)) by {
                        if k > i {
                        }
                    }
                },
                Err(AccountError::NotFound) => {
                    assert forall|k: int| i <= k < accounts.len() implies #[trigger] account_sensor(accounts[k]@) matches Some(Err(_)) by {
                        if k > i {
                        }
                    }
                },
                _ => {},
            }
        }
        if let Ok(v) = spec_select_sensor(accounts, i) {
            if account_sensor(accounts[i]@) != Some(Ok::<SensorMetadataView, DecodeError>(v)) {
                let j = choose|j: int|
                    i + 1 <= j < accounts.len() && account_sensor(accounts[j]@) == Some(
                        Ok::<SensorMetadataView, DecodeError>(v),
                    ) && forall|k: int| i + 1 <= k < j ==> #[trigger] account_sensor(accounts[k]@) matches Some(Err(_));
                assert(forall|k: int| i <= k < j ==> #[trigger] account_sensor(accounts[k]@) matches Some(Err(_)));
            } else {
                assert(forall|k: int| i <= k < i ==> #[trigger] account_sensor(accounts[k]@) matches Some(Err(_)));
            }
        }
    }
}

/// A lookup gives the sensor of the first account that holds one, when every
/// account before it is long enough and holds none; `NotFound` when no account
/// holds one and none is too short; and `ShortAccount` with the first account
/// shorter than the discriminator that comes before any sensor.
pub proof fn lemma_select_sensor_takes_first(accounts: Seq<Vec<u8>>)
    requires
        accounts.len() <= usize::MAX,
    ensures
        spec_select_sensor(accounts, 0) matches Ok(v) ==> exists|j: int|
            0 <= j < accounts.len() && account_sensor(accounts[j]@) == Some(Ok::<SensorMetadataView, DecodeError>(v))
                && forall|k: int| 0 <= k < j ==> #[trigger] account_sensor(accounts[k]@) matches Some(Err(_)),
        spec_select_sensor(accounts, 0) matches Err(AccountError::NotFound) ==> forall|k: int|
            0 <= k < accounts.len() ==> #[trigger] account_sensor(accounts[k]@) matches Some(Err(_)),
        spec_select_sensor(accounts, 0) matches Err(AccountError::ShortAccount(j)) ==> j < accounts.len()
            && account_sensor(accounts[j as int]@) is None && forall|k: int|
            0 <= k < j ==> #[trigger] account_sensor(accounts[k]@) matches Some(Err(_)),
        !(spec_select_sensor(accounts, 0) matches Err(AccountError::Undecodable(_, _))),
{
    lemma_select_sensor_from(accounts, 0);
}

} // verus!
