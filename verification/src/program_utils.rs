//! Fetching sensors from the sensor program deployed on Solana's devnet.

use vstd::prelude::*;
use crate::blockchain::{
    all_filters_match, holds_sensor_type, sensor_filters_with, sensor_type_filters, ProgramAccountsQuery,
    SENSOR_MODEL_OFFSET,
};
use crate::types::model_byte;
pub use crate::types::{SensorStatus, SensorType};

verus! {

/// A sensor account's contents; the same record as [`crate::types::SensorMetadata`].
pub type Sensor = crate::types::SensorMetadata;

/// RPC endpoint of Solana's devnet.
pub const DEVNET_RPC_URL: &'static str = "https://api.devnet.solana.com";

/// Key of the sensor program on devnet, `H3B2URUN8BMxZvxx6yit2n8sRRWGo8bBdew4yDosurjG`.
pub const SENSOR_PROGRAM_ID: [u8; 32] = [
    238, 73, 124, 249, 223, 85, 233, 172, 128, 185, 175, 49, 123, 160, 193, 90,
    152, 150, 187, 254, 193, 185, 157, 149, 32, 194, 219, 88, 52, 141, 119, 119,
];

/// The query for the accounts of all sensors of kind `sensor_type` among the
/// accounts of the devnet sensor program, with sorted results.
pub fn fetch_sensors_query(sensor_type: SensorType) -> (q: ProgramAccountsQuery)
    ensures
        q.program == SENSOR_PROGRAM_ID,
        q.sort_results,
        sensor_filters_with(q.filters@, SENSOR_MODEL_OFFSET, seq![model_byte(sensor_type)]),
        forall|data: Seq<u8>| all_filters_match(q.filters@, data) <==> holds_sensor_type(data, sensor_type),
{
    ProgramAccountsQuery {
        program: SENSOR_PROGRAM_ID,
        filters: sensor_type_filters(sensor_type),
        sort_results: true,
    }
}

} // verus!
