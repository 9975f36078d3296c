//! Where the broker is, and how to connect to it.

use crate::number;
use crate::text;
use vstd::prelude::*;
use vstd::string::*;

verus! {

/// The host to connect to where none is configured.
pub const DEFAULT_HOST: &'static str = "localhost";

/// The port to connect to where none is configured.
pub const DEFAULT_PORT: u16 = 1883;

/// The number of requests that may wait for the connection, for both programs.
pub const REQUEST_CAPACITY: usize = 65_535;

/// The text of an optional setting.
pub open spec fn setting_text(setting: Option<String>) -> Option<Seq<char>> {
    match setting {
        Some(s) => Some(s@),
        None => None,
    }
}

/// The broker's host: the setting `MQTT_HOST`, if there is one.
pub fn broker_host(setting: Option<String>) -> (r: String)
    ensures
        r@ == (match setting_text(setting) {
            Some(s) => s,
            None => DEFAULT_HOST@,
        }),
        setting matches Some(s) ==> r@ == s@,
        setting is None ==> r@ == "localhost"@,
{
    match setting {
        Some(s) => s,
        None => DEFAULT_HOST.to_owned(),
    }
}

/// The broker's port: the setting `MQTT_PORT`, if there is one and it is a
/// port number.
pub fn broker_port(setting: Option<String>) -> (r: u16)
    ensures
        r == (match setting_text(setting) {
            Some(s) => match number::unsigned_value(s, u16::MAX as nat) {
                Some(port) => port as u16,
                None => DEFAULT_PORT,
            },
            None => DEFAULT_PORT,
        }),
        setting is None ==> r == 1883,
        setting matches Some(s) ==> match number::unsigned_value(s@, 65_535) {
            Some(port) => r == port,
            None => r == 1883,
        },
{
    match setting {
        Some(s) => {
            let chars = text::chars_of(s.as_str());
            match number::parse_unsigned(chars.as_slice(), u16::MAX as u128) {
                Some(port) => port as u16,
                None => DEFAULT_PORT,
            }
        },
        None => DEFAULT_PORT,
    }
}

/// How to connect to the broker.
#[derive(Debug, PartialEq, Eq)]
pub struct ConnectOptions {
    /// The name of the client.
    pub client_id: String,
    pub host: String,
    pub port: u16,
    /// The seconds without traffic after which the connection is probed.
    pub keep_alive_secs: u64,
    /// The broker is told to forget what it holds for the client. Otherwise it
    /// is told what the client library tells it by default.
    pub clean_session: bool,
    /// The number of requests that may wait for the connection.
    pub request_capacity: usize,
}

/// A setting that is there counts with all its text.
pub proof fn law_setting_faithful(s: String)
    ensures
        setting_text(Some(s)) == Some(s@),
        setting_text(None) is None,
{
}

} // verus!
