//! Names of MQTT values as they are shown.
use vstd::prelude::*;

use crate::mqtt::QoS;

verus! {

/// The name of a quality of service.
pub open spec fn spec_qos(qos: QoS) -> Seq<char> {
    match qos {
        QoS::AtLeastOnce => "AtLeastOnce"@,
        QoS::AtMostOnce => "AtMostOnce"@,
        QoS::ExactlyOnce => "ExactlyOnce"@,
    }
}

/// The name of a quality of service.
pub fn qos(level: QoS) -> (name: &'static str)
    ensures
        name@ == spec_qos(level),
{
    match level {
        QoS::AtLeastOnce => "AtLeastOnce",
        QoS::AtMostOnce => "AtMostOnce",
        QoS::ExactlyOnce => "ExactlyOnce",
    }
}

} // verus!
