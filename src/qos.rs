use vstd::prelude::*;

verus! {

#[verifier::external_type_specification]
#[verifier::external_body]
pub struct ExProtocolError(mqtt311::Error);

/// Quality-of-service level of a delivery.
#[derive(Clone, Copy, Debug, PartialEq, Eq, Structural)]
pub enum QoS {
    AtMostOnce,
    AtLeastOnce,
    ExactlyOnce,
}

/// The level that a protocol byte names: 0, 1 and 2 are the three levels.
pub open spec fn qos_of_byte(n: u8) -> Option<QoS> {
    if n == 0 {
        Some(QoS::AtMostOnce)
    } else if n == 1 {
        Some(QoS::AtLeastOnce)
    } else if n == 2 {
        Some(QoS::ExactlyOnce)
    } else {
        None
    }
}

/// Relies on mqtt311::QoS::from_u8: bytes 0, 1 and 2 give the three levels
/// in order, every other byte gives an error.
#[verifier::external_body]
pub(crate) fn qos_from_u8(n: u8) -> (r: Result<QoS, mqtt311::Error>)
    ensures
        r matches Ok(q) ==> qos_of_byte(n) == Some(q),
        r is Err <==> qos_of_byte(n) is None,
{
    match mqtt311::QoS::from_u8(n) {
        Ok(mqtt311::QoS::AtMostOnce) => Ok(QoS::AtMostOnce),
        Ok(mqtt311::QoS::AtLeastOnce) => Ok(QoS::AtLeastOnce),
        Ok(mqtt311::QoS::ExactlyOnce) => Ok(QoS::ExactlyOnce),
        Err(e) => Err(e),
    }
}

} // verus!
