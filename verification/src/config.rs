//! The settings of the process and their defaults.
//!
//! The values are read from the environment by the caller; what follows
//! from them is decided here.

use crate::text::{chars_of, nat_text, push_nat, push_str, same_text, string_of};
use vstd::prelude::*;

verus! {

/// The keep-alive interval of the MQTT client in seconds.
pub const MQTT_KEEP_ALIVE_SECS: u64 = 5;

/// The number of requests that the MQTT client may hold back.
pub const MQTT_CAPACITY: usize = 10;

/// The greatest size of a JSON request body in bytes.
pub const JSON_LIMIT: usize = 4096;

/// The given value, or the default where none is given.
pub open spec fn or_default(configured: Option<String>, default: Seq<char>) -> Seq<char> {
    match configured {
        Some(s) => s@,
        None => default,
    }
}

/// The connection string of the database; a local SQLite file by default.
pub fn db_connection(configured: Option<String>) -> (r: String)
    ensures
        r@ == or_default(configured, "sqlite://tracking.sqlite"@),
{
    match configured {
        Some(s) => s,
        None => "sqlite://tracking.sqlite".to_owned(),
    }
}

/// The address on which the HTTP server listens; port 8083 on all
/// interfaces by default.
pub fn http_listen(configured: Option<String>) -> (r: String)
    ensures
        r@ == or_default(configured, "0.0.0.0:8083"@),
{
    match configured {
        Some(s) => s,
        None => "0.0.0.0:8083".to_owned(),
    }
}

/// Whether `s` starts with `prefix`.
pub open spec fn starts_with(s: Seq<char>, prefix: Seq<char>) -> bool {
    s.len() >= prefix.len() && s.subrange(0, prefix.len() as int) == prefix
}

/// Whether a connection string names an SQLite database, which is created
/// where it does not exist.
pub fn is_sqlite(connection: &str) -> (r: bool)
    ensures
        r == starts_with(connection@, "sqlite:"@),
{
    let chars = chars_of(connection);
    let prefix = chars_of("sqlite:");
    if chars.len() < prefix.len() {
        return false;
    }
    let head = crate::text::slice_chars(&chars, 0, prefix.len());
    crate::text::same_chars(&head, &prefix)
}

/// Whether the backend is PostgreSQL, which needs the compatibility
/// functions.
pub fn is_postgres(backend_name: &str) -> (r: bool)
    ensures
        r == (backend_name@ == "PostgreSQL"@),
{
    same_text(backend_name, "PostgreSQL")
}

/// The URL of the MQTT broker where one is configured; an empty value
/// counts as none, and without one no client is started.
pub fn mqtt_url(configured: Option<String>) -> (r: Option<String>)
    ensures
        match r {
            Some(url) => configured == Some(url) && url@.len() > 0,
            None => match configured {
                Some(s) => s@.len() == 0,
                None => true,
            },
        },
{
    match configured {
        Some(url) => {
            if chars_of(url.as_str()).len() == 0 {
                None
            } else {
                Some(url)
            }
        },
        None => None,
    }
}

/// The client ID under which the process connects: the host name, a hyphen
/// and the process ID.
pub fn mqtt_client_id(hostname: &str, pid: u32) -> (r: String)
    ensures
        r@ == hostname@ + seq!['-'] + nat_text(pid as nat),
{
    let mut out = chars_of(hostname);
    out.push('-');
    push_nat(&mut out, pid as u64);
    string_of(&out)
}

/// The URL with which the client connects: the URL of the broker with the
/// client ID as its query.
pub fn mqtt_connect_url(url: &str, client_id: &str) -> (r: String)
    ensures
        r@ == url@ + "?client_id="@ + client_id@,
{
    let mut out = chars_of(url);
    push_str(&mut out, "?client_id=");
    push_str(&mut out, client_id);
    string_of(&out)
}

/// The topic filter to which the client subscribes.
pub fn mqtt_topic_filter() -> (r: String)
    ensures
        r@ == "owntracks/#"@,
{
    "owntracks/#".to_owned()
}

} // verus!
