//! The quality of service of a message.

use vstd::prelude::*;

verus! {

/// How hard the broker tries to deliver a message.
#[derive(Clone, Copy, Debug, PartialEq, Eq, Structural)]
pub enum QoS {
    /// A message may get lost.
    AtMostOnce,
    /// A message may arrive more than once.
    AtLeastOnce,
    /// A message arrives once.
    ExactlyOnce,
}

/// The quality of service of the settings and signals that the two programs
/// exchange.
pub const SIGNAL_QOS: QoS = QoS::AtLeastOnce;

/// The quality of service with the number `n`. Numbers that name none stand
/// for the weakest.
pub open spec fn qos_of(n: u8) -> QoS {
    match n {
        1u8 => QoS::AtLeastOnce,
        2u8 => QoS::ExactlyOnce,
        _ => QoS::AtMostOnce,
    }
}

/// The quality of service with the number `n`.
pub fn to_qos(n: u8) -> (r: QoS)
    ensures
        r == qos_of(n),
        r == QoS::AtLeastOnce <==> n == 1,
        r == QoS::ExactlyOnce <==> n == 2,
        r == QoS::AtMostOnce <==> n != 1 && n != 2,
{
    match n {
        1 => QoS::AtLeastOnce,
        2 => QoS::ExactlyOnce,
        _ => QoS::AtMostOnce,
    }
}

/// Each quality of service has its number, and every other number stands for
/// the weakest.
pub proof fn law_qos_exact(n: u8)
    ensures
        qos_of(n) == QoS::AtLeastOnce <==> n == 1,
        qos_of(n) == QoS::ExactlyOnce <==> n == 2,
        qos_of(n) == QoS::AtMostOnce <==> n != 1 && n != 2,
{
}

} // verus!
