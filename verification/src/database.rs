//! Settings of the TimescaleDB connection.

use vstd::prelude::*;
use vstd::string::StringExecFns;

verus! {

/// The connection string for the database, in the key-value form that
/// `tokio_postgres` reads.
pub open spec fn spec_connection_string(
    host: Seq<char>,
    port: Seq<char>,
    user: Seq<char>,
    password: Seq<char>,
    dbname: Seq<char>,
) -> Seq<char> {
    "host="@ + host + " port="@ + port + " user="@ + user + " password="@ + password + " dbname="@
        + dbname
}

/// The connection string for the database at `host:port`, as `user` with
/// `password`, on database `dbname`.
pub fn connection_string(host: &str, port: &str, user: &str, password: &str, dbname: &str) -> (s: String)
    ensures
        s@ == spec_connection_string(host@, port@, user@, password@, dbname@),
        s@ == "host="@ + host@ + " port="@ + port@ + " user="@ + user@ + " password="@ + password@
            + " dbname="@ + dbname@,
{
    String::from_str("host=").concat(host).concat(" port=").concat(port).concat(" user=").concat(user).concat(
        " password=",
    ).concat(password).concat(" dbname=").concat(dbname)
}

} // verus!
