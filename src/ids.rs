use vstd::prelude::*;

verus! {

/// Identity of a widget: assigned once at creation, the only key by which
/// other parts of the designer refer to it.
#[derive(Debug, Clone, Copy, PartialEq, Eq, Hash, Structural)]
pub struct WidgetId {
    pub value: u128,
}

/// Relies on uuid::Uuid::new_v4 and Uuid::as_u128: a random version-4 UUID as
/// its 128 bits. Nothing is promised of the value.
#[verifier::external_body]
fn random_uuid_bits() -> (r: u128) {
    uuid::Uuid::new_v4().as_u128()
}

impl WidgetId {
    pub fn from_u128(value: u128) -> (r: WidgetId)
        ensures
            r.value == value,
    {
        WidgetId { value }
    }

    /// A fresh random identifier.
    pub fn new_random() -> (r: WidgetId) {
        WidgetId { value: random_uuid_bits() }
    }
}

} // verus!
