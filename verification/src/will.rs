//! The will a client registers at connect time.

use vstd::prelude::*;
use crate::qos::QualityOfService;

verus! {

/// Mathematical model of a will.
#[verifier::ext_equal]
pub struct WillView {
    pub retain: bool,
    pub qos: QualityOfService,
    pub topic: Seq<u8>,
    pub message: Seq<u8>,
}

/// A message the broker publishes on the client's behalf if the
/// connection is lost without a graceful disconnect.
#[derive(Clone, Debug, PartialEq, Eq)]
pub struct Will {
    pub retain: bool,
    pub qos: QualityOfService,
    pub topic: Vec<u8>,
    pub message: Vec<u8>,
}

impl View for Will {
    type V = WillView;

    open spec fn view(&self) -> WillView {
        WillView {
            retain: self.retain,
            qos: self.qos,
            topic: self.topic@,
            message: self.message@,
        }
    }
}

/// The view of an optional will.
pub open spec fn opt_will_view(w: Option<Will>) -> Option<WillView> {
    match w {
        None => None,
        Some(will) => Some(will@),
    }
}

} // verus!
