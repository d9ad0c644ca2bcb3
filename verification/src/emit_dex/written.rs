//! The outcome of a serialization step: the bytes it wrote and, where it failed,
//! the error that stopped it.
use vstd::prelude::*;

use crate::emit_dex::error::DexEmitError;

verus! {

/// What a step writes, up to the point at which it fails if it does.
#[verifier::ext_equal]
pub struct Written {
    pub bytes: Seq<u8>,
    pub fault: Option<DexEmitError>,
}

/// A step that writes `bytes`.
pub open spec fn done(bytes: Seq<u8>) -> Written {
    Written { bytes, fault: None }
}

/// A step that fails before it writes anything.
pub open spec fn failed(e: DexEmitError) -> Written {
    Written { bytes: Seq::empty(), fault: Some(e) }
}

/// A step that fails because a rule of the format is broken.
pub open spec fn unrepresentable(why: &'static str) -> Written {
    failed(DexEmitError::UnrepresentableIR { why })
}

impl Written {
    /// This step followed by `next`, which is not reached where this one fails.
    pub open spec fn and(self, next: Written) -> Written {
        if self.fault is Some {
            self
        } else {
            Written { bytes: self.bytes + next.bytes, fault: next.fault }
        }
    }

    /// The whole result where nothing partial is handed out.
    pub open spec fn result(self) -> Result<Seq<u8>, DexEmitError> {
        match self.fault {
            None => Ok(self.bytes),
            Some(e) => Err(e),
        }
    }

    /// A step that appends to a buffer does what this one says.
    pub open spec fn appends(
        self,
        before: Seq<u8>,
        after: Seq<u8>,
        r: Result<(), DexEmitError>,
    ) -> bool {
        &&& after == before + self.bytes
        &&& match self.fault {
            None => r is Ok,
            Some(e) => r == Err::<(), DexEmitError>(e),
        }
    }
}

/// A function that returns bytes returns those of `expected`, or its error.
pub open spec fn gives(
    r: Result<Vec<u8>, DexEmitError>,
    expected: Result<Seq<u8>, DexEmitError>,
) -> bool {
    match expected {
        Ok(b) => r matches Ok(v) && v@ == b,
        Err(e) => r == Err::<Vec<u8>, DexEmitError>(e),
    }
}

/// A function that returns a value returns that of `expected`, or its error.
pub open spec fn agrees<T: View>(
    r: Result<T, DexEmitError>,
    expected: Result<T::V, DexEmitError>,
) -> bool {
    match expected {
        Ok(v) => r matches Ok(t) && t@ == v,
        Err(e) => r == Err::<T, DexEmitError>(e),
    }
}

/// What is still to do agrees with the whole: `sofar` has been written after
/// `before`, and `rest` remains of `whole`.
pub open spec fn remains(before: Seq<u8>, whole: Written, sofar: Seq<u8>, rest: Written) -> bool {
    &&& before + whole.bytes =~= sofar + rest.bytes
    &&& whole.fault == rest.fault
}

} // verus!
