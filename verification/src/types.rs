//! The records the service exchanges: firmware requests and the sensor
//! accounts that a Solana program keeps, with their on-chain byte layout.
//!
//! A sensor account holds, after an 8-byte discriminator, the Borsh encoding
//! of [`SensorMetadata`]: the fields in order, integers little-endian, each
//! enum as one byte that gives the index of its variant, and the host key as
//! its 32 bytes.

use vstd::prelude::*;
use vstd::bytes::{spec_u64_from_le_bytes, spec_u64_to_le_bytes, u64_from_le_bytes, u64_to_le_bytes};

verus! {

/// Collateral state of a sensor.
#[derive(Clone, Copy, Debug, PartialEq, Eq, Structural)]
pub enum SensorStatus {
    Uncollateralized,
    Collateralized,
    Slashed,
}

/// Kind of sensor.
#[derive(Clone, Copy, Debug, PartialEq, Eq, Structural)]
pub enum SensorType {
    Moisture,
    Flowmeter,
}

/// The byte that stands for a sensor kind: the index of its variant.
pub open spec fn model_byte(t: SensorType) -> u8 {
    match t {
        SensorType::Moisture => 0,
        SensorType::Flowmeter => 1,
    }
}

/// The byte that stands for a collateral state: the index of its variant.
pub open spec fn status_byte(s: SensorStatus) -> u8 {
    match s {
        SensorStatus::Uncollateralized => 0,
        SensorStatus::Collateralized => 1,
        SensorStatus::Slashed => 2,
    }
}

impl From<SensorType> for u8 {
    fn from(sensor_type: SensorType) -> (res: u8) {
        match sensor_type {
            SensorType::Moisture => 0,
            SensorType::Flowmeter => 1,
        }
    }
}

impl vstd::std_specs::convert::FromSpecImpl<SensorType> for u8 {
    open spec fn obeys_from_spec() -> bool {
        true
    }

    open spec fn from_spec(v: SensorType) -> u8 {
        model_byte(v)
    }
}

/// What a client sends to have firmware built for a board.
#[derive(Debug)]
pub struct FirmwareRequest {
    pub board: String,
    pub ssid: String,
    pub password: String,
    pub key: String,
}

/// A sensor as its on-chain account describes it.
#[derive(Clone, Copy, Debug, PartialEq, Eq)]
pub struct SensorMetadata {
    pub id: u64,
    pub model: SensorType,
    pub host: [u8; 32],
    pub latitude: i64,
    pub longitude: i64,
    pub status: SensorStatus,
    pub last_collateralized_at: i64,
    pub last_uncollateralized_at: i64,
    pub last_slashed_at: i64,
    pub bump: u8,
}

/// [`SensorMetadata`] with the host key as a sequence of bytes.
#[verifier::ext_equal]
pub struct SensorMetadataView {
    pub id: u64,
    pub model: SensorType,
    pub host: Seq<u8>,
    pub latitude: i64,
    pub longitude: i64,
    pub status: SensorStatus,
    pub last_collateralized_at: i64,
    pub last_uncollateralized_at: i64,
    pub last_slashed_at: i64,
    pub bump: u8,
}

impl View for SensorMetadata {
    type V = SensorMetadataView;

    open spec fn view(&self) -> SensorMetadataView {
        SensorMetadataView {
            id: self.id,
            model: self.model,
            host: self.host@,
            latitude: self.latitude,
            longitude: self.longitude,
            status: self.status,
            last_collateralized_at: self.last_collateralized_at,
            last_uncollateralized_at: self.last_uncollateralized_at,
            last_slashed_at: self.last_slashed_at,
            bump: self.bump,
        }
    }
}

/// Length of the encoding of a sensor.
pub const SENSOR_METADATA_LEN: usize = 83;

/// Offsets of the fields in the encoding of a sensor.
pub const MODEL_OFFSET: usize = 8;
pub const HOST_OFFSET: usize = 9;
pub const LATITUDE_OFFSET: usize = 41;
pub const LONGITUDE_OFFSET: usize = 49;
pub const STATUS_OFFSET: usize = 57;
pub const COLLATERALIZED_OFFSET: usize = 58;
pub const UNCOLLATERALIZED_OFFSET: usize = 66;
pub const SLASHED_OFFSET: usize = 74;
pub const BUMP_OFFSET: usize = 82;

/// Little-endian bytes of a signed 64-bit integer (two's complement).
pub open spec fn i64_le(x: i64) -> Seq<u8> {
    spec_u64_to_le_bytes(x as u64)
}

/// The signed 64-bit integer whose little-endian bytes are `s`.
pub open spec fn i64_from_le(s: Seq<u8>) -> i64 {
    spec_u64_from_le_bytes(s) as i64
}

/// The encoding of a sensor.
pub open spec fn encode_sensor(v: SensorMetadataView) -> Seq<u8> {
    spec_u64_to_le_bytes(v.id) + seq![model_byte(v.model)] + v.host + i64_le(v.latitude) + i64_le(
        v.longitude,
    ) + seq![status_byte(v.status)] + i64_le(v.last_collateralized_at) + i64_le(
        v.last_uncollateralized_at,
    ) + i64_le(v.last_slashed_at) + seq![v.bump]
}

/// Why bytes are not the encoding of a sensor, in the order in which a
/// reader that takes the fields one after the other finds out.
#[derive(Clone, Copy, Debug, PartialEq, Eq, Structural)]
pub enum DecodeError {
    /// The bytes end before the last field does.
    UnexpectedLength,
    /// The byte of the sensor kind is not the index of a kind.
    InvalidModelTag(u8),
    /// The byte of the collateral state is not the index of a state.
    InvalidStatusTag(u8),
    /// Bytes remain after the last field.
    TrailingBytes,
}

/// The sensor that `b` encodes, or why there is none.
pub open spec fn spec_decode_sensor(b: Seq<u8>) -> Result<SensorMetadataView, DecodeError> {
    if b.len() < 9 {
        Err(DecodeError::UnexpectedLength)
    } else if b[8] > 1 {
        Err(DecodeError::InvalidModelTag(b[8]))
    } else if b.len() < 58 {
        Err(DecodeError::UnexpectedLength)
    } else if b[57] > 2 {
        Err(DecodeError::InvalidStatusTag(b[57]))
    } else if b.len() < 83 {
        Err(DecodeError::UnexpectedLength)
    } else if b.len() > 83 {
        Err(DecodeError::TrailingBytes)
    } else {
        Ok(
            SensorMetadataView {
                id: spec_u64_from_le_bytes(b.subrange(0, 8)),
                model: if b[8] == 0 {
                    SensorType::Moisture
                } else {
                    SensorType::Flowmeter
                },
                host: b.subrange(9, 41),
                latitude: i64_from_le(b.subrange(41, 49)),
                longitude: i64_from_le(b.subrange(49, 57)),
                status: if b[57] == 0 {
                    SensorStatus::Uncollateralized
                } else if b[57] == 1 {
                    SensorStatus::Collateralized
                } else {
                    SensorStatus::Slashed
                },
                last_collateralized_at: i64_from_le(b.subrange(58, 66)),
                last_uncollateralized_at: i64_from_le(b.subrange(66, 74)),
                last_slashed_at: i64_from_le(b.subrange(74, 82)),
                bump: b[82],
            },
        )
    }
}

/// The result of decoding, with the sensor taken by its view.
pub open spec fn decode_result_view(
    r: Result<SensorMetadata, DecodeError>,
) -> Result<SensorMetadataView, DecodeError> {
    match r {
        Ok(m) => Ok(m@),
        Err(e) => Err(e),
    }
}

fn read_i64_le(bytes: &[u8], at: usize) -> (x: i64)
    requires
        at + 8 <= bytes.len(),
    ensures
        x == i64_from_le(bytes@.subrange(at as int, at + 8)),
{
    let word = vstd::slice::slice_subrange(bytes, at, at + 8);
    u64_from_le_bytes(word) as i64
}

/// Decodes the sensor that `bytes` encode, reading the fields in order.
pub fn decode_sensor_metadata(bytes: &[u8]) -> (res: Result<SensorMetadata, DecodeError>)
    ensures
        decode_result_view(res) == spec_decode_sensor(bytes@),
        res matches Ok(m) ==> fields_stored_in(m@, bytes@),
        res is Ok <==> (bytes@.len() == 83 && bytes@[8] <= 1 && bytes@[57] <= 2),
{
    proof {
        lemma_decode_sensor_reads_fields(bytes@);
    }
    let len = bytes.len();
    if len < 9 {
        return Err(DecodeError::UnexpectedLength);
    }
    let model_tag = bytes[MODEL_OFFSET];
    let model = if model_tag == 0 {
        SensorType::Moisture
    } else if model_tag == 1 {
        SensorType::Flowmeter
    } else {
        return Err(DecodeError::InvalidModelTag(model_tag));
    };
    if len < 58 {
        return Err(DecodeError::UnexpectedLength);
    }
    let status_tag = bytes[STATUS_OFFSET];
    let status = if status_tag == 0 {
        SensorStatus::Uncollateralized
    } else if status_tag == 1 {
        SensorStatus::Collateralized
    } else if status_tag == 2 {
        SensorStatus::Slashed
    } else {
        return Err(DecodeError::InvalidStatusTag(status_tag));
    };
    if len < SENSOR_METADATA_LEN {
        return Err(DecodeError::UnexpectedLength);
    }
    if len > SENSOR_METADATA_LEN {
        return Err(DecodeError::TrailingBytes);
    }
    let id = u64_from_le_bytes(vstd::slice::slice_subrange(bytes, 0, 8));
    let mut host = [0u8; 32];
    let mut i: usize = 0;
    while i < 32
        invariant
            len == bytes.len(),
            len == SENSOR_METADATA_LEN,
            i <= 32,
            forall|j: int| 0 <= j < i ==> host@[j] == bytes@[HOST_OFFSET + j],
        decreases 32 - i,
    {
        host[i] = bytes[HOST_OFFSET + i];
        i = i + 1;
    }
    assert(host@ =~= bytes@.subrange(9, 41));
    let m = SensorMetadata {
        id,
        model,
        host,
        latitude: read_i64_le(bytes, LATITUDE_OFFSET),
        longitude: read_i64_le(bytes, LONGITUDE_OFFSET),
        status,
        last_collateralized_at: read_i64_le(bytes, COLLATERALIZED_OFFSET),
        last_uncollateralized_at: read_i64_le(bytes, UNCOLLATERALIZED_OFFSET),
        last_slashed_at: read_i64_le(bytes, SLASHED_OFFSET),
        bump: bytes[BUMP_OFFSET],
    };
    assert(m@ =~= spec_decode_sensor(bytes@).unwrap());
    Ok(m)
}

impl SensorMetadata {
    /// The encoding of this sensor, as its account stores it after the
    /// discriminator.
    pub fn to_bytes(&self) -> (bytes: Vec<u8>)
        ensures
            bytes@ == encode_sensor(self@),
            fields_stored_in(self@, bytes@),
    {
        proof {
            lemma_encode_stores_fields(self@);
        }
        let mut bytes = u64_to_le_bytes(self.id);
        bytes.push(u8::from(self.model));
        let mut i: usize = 0;
        let ghost prefix = bytes@;
        while i < 32
            invariant
                i <= 32,
                bytes@ == prefix + self.host@.take(i as int),
            decreases 32 - i,
        {
            bytes.push(self.host[i]);
            assert(self.host@.take(i + 1) =~= self.host@.take(i as int).push(self.host@[i as int]));
            i = i + 1;
        }
        assert(self.host@.take(32) =~= self.host@);
        let mut word = u64_to_le_bytes(self.latitude as u64);
        bytes.append(&mut word);
        let mut word = u64_to_le_bytes(self.longitude as u64);
        bytes.append(&mut word);
        let status: u8 = match self.status {
            SensorStatus::Uncollateralized => 0,
            SensorStatus::Collateralized => 1,
            SensorStatus::Slashed => 2,
        };
        bytes.push(status);
        let mut word = u64_to_le_bytes(self.last_collateralized_at as u64);
        bytes.append(&mut word);
        let mut word = u64_to_le_bytes(self.last_uncollateralized_at as u64);
        bytes.append(&mut word);
        let mut word = u64_to_le_bytes(self.last_slashed_at as u64);
        bytes.append(&mut word);
        bytes.push(self.bump);
        assert(bytes@ =~= encode_sensor(self@));
        bytes
    }
}

proof fn lemma_i64_le_roundtrip(x: i64)
    ensures
        i64_le(x).len() == 8,
        i64_from_le(i64_le(x)) == x,
{
    vstd::bytes::lemma_auto_spec_u64_to_from_le_bytes();
    assert(((x as u64) as i64) == x) by (bit_vector);
}

/// Encoding a sensor whose host key has 32 bytes gives 83 bytes, and decoding
/// them gives the sensor back.
pub proof fn lemma_decode_encode(v: SensorMetadataView)
    requires
        v.host.len() == 32,
    ensures
        encode_sensor(v).len() == SENSOR_METADATA_LEN,
        spec_decode_sensor(encode_sensor(v)) == Ok::<SensorMetadataView, DecodeError>(v),
{
    vstd::bytes::lemma_auto_spec_u64_to_from_le_bytes();
    lemma_i64_le_roundtrip(v.latitude);
    lemma_i64_le_roundtrip(v.longitude);
    lemma_i64_le_roundtrip(v.last_collateralized_at);
    lemma_i64_le_roundtrip(v.last_uncollateralized_at);
    lemma_i64_le_roundtrip(v.last_slashed_at);
    let b = encode_sensor(v);
    assert(b.subrange(0, 8) =~= spec_u64_to_le_bytes(v.id));
    assert(b.subrange(9, 41) =~= v.host);
    assert(b.subrange(41, 49) =~= i64_le(v.latitude));
    assert(b.subrange(49, 57) =~= i64_le(v.longitude));
    assert(b.subrange(58, 66) =~= i64_le(v.last_collateralized_at));
    assert(b.subrange(66, 74) =~= i64_le(v.last_uncollateralized_at));
    assert(b.subrange(74, 82) =~= i64_le(v.last_slashed_at));
    assert(b[8] == model_byte(v.model));
    assert(b[57] == status_byte(v.status));
    assert(b[82] == v.bump);
    assert(spec_decode_sensor(b).unwrap() =~= v);
}

/// Bytes that decode to a sensor are exactly that sensor's encoding.
pub proof fn lemma_encode_decode(b: Seq<u8>)
    requires
        spec_decode_sensor(b) is Ok,
    ensures
        spec_decode_sensor(b).unwrap().host.len() == 32,
        encode_sensor(spec_decode_sensor(b).unwrap()) == b,
{
    vstd::bytes::lemma_auto_spec_u64_to_from_le_bytes();
    let v = spec_decode_sensor(b).unwrap();
    assert(spec_u64_to_le_bytes(v.id) == b.subrange(0, 8));
    assert forall|s: Seq<u8>| s.len() == 8 implies #[trigger] i64_le(i64_from_le(s)) == s by {
        let x = spec_u64_from_le_bytes(s);
        assert(((x as i64) as u64) == x) by (bit_vector);
    }
    assert(i64_le(v.latitude) == b.subrange(41, 49));
    assert(i64_le(v.longitude) == b.subrange(49, 57));
    assert(i64_le(v.last_collateralized_at) == b.subrange(58, 66));
    assert(i64_le(v.last_uncollateralized_at) == b.subrange(66, 74));
    assert(i64_le(v.last_slashed_at) == b.subrange(74, 82));
    assert(encode_sensor(v) =~= b);
}

/// `v` holds the fields stored in the 83 bytes `b`: the id in bytes 0..8,
/// the kind byte at 8 (0 for moisture, 1 for flowmeter), the host key as
/// bytes 9..41 in order, latitude and longitude in 41..49 and 49..57, the
/// status byte at 57 (0, 1, 2 for uncollateralized, collateralized, slashed),
/// the three times in 58..66, 66..74, 74..82 and the bump at 82; integers
/// little-endian, signed ones in two's complement.
pub open spec fn fields_stored_in(v: SensorMetadataView, b: Seq<u8>) -> bool {
    &&& b.len() == 83
    &&& v.id == spec_u64_from_le_bytes(b.subrange(0, 8))
    &&& (v.model == SensorType::Moisture <==> b[8] == 0)
    &&& (v.model == SensorType::Flowmeter <==> b[8] == 1)
    &&& v.host == b.subrange(9, 41)
    &&& v.latitude == spec_u64_from_le_bytes(b.subrange(41, 49)) as i64
    &&& v.longitude == spec_u64_from_le_bytes(b.subrange(49, 57)) as i64
    &&& (v.status == SensorStatus::Uncollateralized <==> b[57] == 0)
    &&& (v.status == SensorStatus::Collateralized <==> b[57] == 1)
    &&& (v.status == SensorStatus::Slashed <==> b[57] == 2)
    &&& v.last_collateralized_at == spec_u64_from_le_bytes(b.subrange(58, 66)) as i64
    &&& v.last_uncollateralized_at == spec_u64_from_le_bytes(b.subrange(66, 74)) as i64
    &&& v.last_slashed_at == spec_u64_from_le_bytes(b.subrange(74, 82)) as i64
    &&& v.bump == b[82]
}

/// Bytes decode exactly when they are 83 long with a kind byte below 2 and a
/// status byte below 3; the sensor they decode to holds the fields stored in
/// them. Otherwise the error is the first problem met reading the fields in
/// order: a missing kind byte, a bad kind byte, a missing status byte, a bad
/// status byte, missing bytes, then bytes left over.
pub proof fn lemma_decode_sensor_reads_fields(b: Seq<u8>)
    ensures
        spec_decode_sensor(b) is Ok <==> (b.len() == 83 && b[8] <= 1 && b[57] <= 2),
        spec_decode_sensor(b) matches Ok(v) ==> fields_stored_in(v, b),
        spec_decode_sensor(b) == Err::<SensorMetadataView, DecodeError>(DecodeError::UnexpectedLength) <==> (
        b.len() < 83 && (b.len() < 9 || b[8] <= 1) && (b.len() < 58 || b[57] <= 2)),
        (spec_decode_sensor(b) is Err && spec_decode_sensor(b)->Err_0 is InvalidModelTag) <==> (b.len() >= 9
            && b[8] > 1),
        b.len() >= 9 && b[8] > 1 ==> spec_decode_sensor(b) == Err::<SensorMetadataView, DecodeError>(
            DecodeError::InvalidModelTag(b[8]),
        ),
        (spec_decode_sensor(b) is Err && spec_decode_sensor(b)->Err_0 is InvalidStatusTag) <==> (b.len()
            >= 58 && b[8] <= 1 && b[57] > 2),
        b.len() >= 58 && b[8] <= 1 && b[57] > 2 ==> spec_decode_sensor(b) == Err::<
            SensorMetadataView,
            DecodeError,
        >(DecodeError::InvalidStatusTag(b[57])),
        spec_decode_sensor(b) == Err::<SensorMetadataView, DecodeError>(DecodeError::TrailingBytes) <==> (
        b.len() > 83 && b[8] <= 1 && b[57] <= 2),
{
}

/// The encoding of a sensor stores its fields where [`fields_stored_in`]
/// says.
pub proof fn lemma_encode_stores_fields(v: SensorMetadataView)
    requires
        v.host.len() == 32,
    ensures
        fields_stored_in(v, encode_sensor(v)),
{
    lemma_decode_encode(v);
    lemma_decode_sensor_reads_fields(encode_sensor(v));
}

/// Each enum is stored as the index of its variant.
pub proof fn lemma_variant_bytes()
    ensures
        model_byte(SensorType::Moisture) == 0,
        model_byte(SensorType::Flowmeter) == 1,
        status_byte(SensorStatus::Uncollateralized) == 0,
        status_byte(SensorStatus::Collateralized) == 1,
        status_byte(SensorStatus::Slashed) == 2,
{
}

} // verus!
