//! The options of the MQTT client library.

use crate::broker::ConnectOptions;
use rumqttc::MqttOptions;
use std::time::Duration;
use vstd::prelude::*;

verus! {

/// The options of a client, as the client library keeps them.
#[verifier::external_type_specification]
#[verifier::external_body]
pub struct ExMqttOptions(rumqttc::MqttOptions);

/// The name of the client: what `rumqttc::MqttOptions::client_id` returns.
pub uninterp spec fn client_id_of(o: MqttOptions) -> Seq<char>;

/// The host and the port of the broker: what
/// `rumqttc::MqttOptions::broker_address` returns.
pub uninterp spec fn broker_address_of(o: MqttOptions) -> (Seq<char>, u16);

/// The seconds without traffic after which the connection is probed: those of
/// what `rumqttc::MqttOptions::keep_alive` returns.
pub uninterp spec fn keep_alive_secs_of(o: MqttOptions) -> u64;

/// The clean-session flag: what `rumqttc::MqttOptions::clean_session` returns.
pub uninterp spec fn clean_session_of(o: MqttOptions) -> bool;

/// `rumqttc::MqttOptions::new` stores its arguments. The keep-alive time starts
/// out at a minute, and the clean-session flag is set.
#[verifier::external_body]
fn new_options(id: &str, host: &str, port: u16) -> (r: MqttOptions)
    ensures
        client_id_of(r) == id@,
        broker_address_of(r) == (host@, port),
        keep_alive_secs_of(r) == 60,
        clean_session_of(r),
{
    MqttOptions::new(id, host, port)
}

/// `rumqttc::MqttOptions::set_keep_alive` stores the time, and changes nothing
/// else. It accepts any number of whole seconds.
#[verifier::external_body]
fn set_keep_alive(o: &mut MqttOptions, secs: u64)
    ensures
        keep_alive_secs_of(*final(o)) == secs,
        client_id_of(*final(o)) == client_id_of(*old(o)),
        broker_address_of(*final(o)) == broker_address_of(*old(o)),
        clean_session_of(*final(o)) == clean_session_of(*old(o)),
{
    o.set_keep_alive(Duration::from_secs(secs));
}

/// `rumqttc::MqttOptions::set_clean_session` stores the flag, and changes
/// nothing else. From a client without a name it takes only a flag that is
/// set; it panics on the other.
#[verifier::external_body]
fn set_clean_session(o: &mut MqttOptions, clean: bool)
    requires
        clean || client_id_of(*old(o)).len() > 0,
    ensures
        clean_session_of(*final(o)) == clean,
        client_id_of(*final(o)) == client_id_of(*old(o)),
        broker_address_of(*final(o)) == broker_address_of(*old(o)),
        keep_alive_secs_of(*final(o)) == keep_alive_secs_of(*old(o)),
{
    o.set_clean_session(clean);
}

/// The options for the client library. The session is a clean one either way:
/// the library asks for that by default.
pub fn mqtt_options(options: &ConnectOptions) -> (r: MqttOptions)
    ensures
        client_id_of(r) == options.client_id@,
        broker_address_of(r) == (options.host@, options.port),
        keep_alive_secs_of(r) == options.keep_alive_secs,
        clean_session_of(r),
{
    let mut o = new_options(options.client_id.as_str(), options.host.as_str(), options.port);
    set_keep_alive(&mut o, options.keep_alive_secs);
    if options.clean_session {
        set_clean_session(&mut o, true);
    }
    o
}

} // verus!
