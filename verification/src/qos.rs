//! Quality of service: the 2-bit delivery-guarantee field.

use vstd::prelude::*;
use crate::serde::{DecodeError, EncodeError, Serde};

verus! {

/// Delivery guarantee of a Publish exchange, a 2-bit field on the wire.
/// Values outside 0, 1 and 2 are invalid.
#[derive(Clone, Copy, PartialEq, Eq, Structural, Debug)]
pub enum QualityOfService {
    AtMostOnce,
    AtLeastOnce,
    ExactlyOnce,
}

/// Numeric wire encoding of a quality-of-service level.
pub open spec fn qos_num(q: QualityOfService) -> u8 {
    match q {
        QualityOfService::AtMostOnce => 0,
        QualityOfService::AtLeastOnce => 1,
        QualityOfService::ExactlyOnce => 2,
    }
}

/// The level a byte decodes to, meaningful for bytes 0, 1 and 2.
pub open spec fn qos_of_num(n: u8) -> QualityOfService {
    if n == 0 {
        QualityOfService::AtMostOnce
    } else if n == 1 {
        QualityOfService::AtLeastOnce
    } else {
        QualityOfService::ExactlyOnce
    }
}

impl View for QualityOfService {
    type V = QualityOfService;

    open spec fn view(&self) -> QualityOfService {
        *self
    }
}

impl QualityOfService {
    /// The two bits (high, low) this level contributes to a flag nibble.
    pub fn bits(&self) -> (r: (bool, bool))
        ensures
            r.0 == (qos_num(*self) / 2 == 1),
            r.1 == (qos_num(*self) % 2 == 1),
    {
        match self {
            QualityOfService::AtMostOnce => (false, false),
            QualityOfService::AtLeastOnce => (false, true),
            QualityOfService::ExactlyOnce => (true, false),
        }
    }

    /// Numeric wire encoding of this level.
    pub fn to_byte(&self) -> (r: u8)
        ensures
            r == qos_num(*self),
    {
        match self {
            QualityOfService::AtMostOnce => 0,
            QualityOfService::AtLeastOnce => 1,
            QualityOfService::ExactlyOnce => 2,
        }
    }

    /// The level a valid wire byte encodes.
    pub fn from_byte(b: u8) -> (r: QualityOfService)
        requires
            b <= 2,
        ensures
            r == qos_of_num(b),
    {
        if b == 0 {
            QualityOfService::AtMostOnce
        } else if b == 1 {
            QualityOfService::AtLeastOnce
        } else {
            QualityOfService::ExactlyOnce
        }
    }

    /// The level granted for a subscription: the requested level capped
    /// at the highest level the server supports, compared numerically.
    pub fn granted(requested: QualityOfService, maximum: QualityOfService) -> (r:
        QualityOfService)
        ensures
            qos_num(r) == if qos_num(requested) <= qos_num(maximum) {
                qos_num(requested)
            } else {
                qos_num(maximum)
            },
            r == requested || r == maximum,
    {
        let rq = requested.to_byte();
        let mx = maximum.to_byte();
        if rq <= mx {
            requested
        } else {
            maximum
        }
    }
}

impl Serde for QualityOfService {
    open spec fn spec_ser(&self) -> Seq<u8> {
        seq![qos_num(*self)]
    }

    open spec fn ser_ok(&self) -> bool {
        true
    }

    open spec fn spec_de(bytes: Seq<u8>) -> Result<(QualityOfService, int), DecodeError> {
        if bytes.len() == 0 {
            Err(DecodeError::UnexpectedEndOfInput)
        } else if bytes[0] <= 2 {
            Ok((qos_of_num(bytes[0]), 1))
        } else {
            Err(DecodeError::MalformedPayload)
        }
    }

    fn ser(&self) -> (r: Result<Vec<u8>, EncodeError>)
        ensures
            self.ser_ok() ==> (r matches Ok(v) && v@ == self.spec_ser()),
            !self.ser_ok() ==> r is Err,
    {
        let mut out: Vec<u8> = Vec::new();
        out.push(self.to_byte());
        assert(out@ =~= self.spec_ser());
        Ok(out)
    }

    fn de(bytes: &[u8]) -> (r: Result<(QualityOfService, usize), DecodeError>)
        ensures
            match r {
                Ok((v, n)) => Self::spec_de(bytes@) == Ok::<
                    (QualityOfService, int),
                    DecodeError,
                >((v@, n as int)),
                Err(e) => Self::spec_de(bytes@) == Err::<(QualityOfService, int), DecodeError>(e),
            },
    {
        if bytes.len() == 0 {
            Err(DecodeError::UnexpectedEndOfInput)
        } else if bytes[0] == 0 {
            Ok((QualityOfService::AtMostOnce, 1))
        } else if bytes[0] == 1 {
            Ok((QualityOfService::AtLeastOnce, 1))
        } else if bytes[0] == 2 {
            Ok((QualityOfService::ExactlyOnce, 1))
        } else {
            Err(DecodeError::MalformedPayload)
        }
    }
}

} // verus!
