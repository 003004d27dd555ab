//! The uniform success/failure channel: status codes, statuses, and the
//! attribute handle shared by the whole crate.

use vstd::prelude::*;

verus! {

/// The class of a checked failure.
#[derive(Clone, Copy, Debug, PartialEq, Eq, Structural)]
pub enum StatusCode {
    /// Zero component count, or a value whose byte shape does not match the
    /// attribute's declared element type and component count.
    InvalidAttribute,
    /// A point or face index outside the valid range.
    IndexOutOfRange,
    /// The encoding engine rejected the input or met a malformed buffer.
    EngineFailure,
    /// A programmer-contract violation surfaced at a checked boundary.
    ContractViolation,
}

/// A tagged outcome: either `Succeeded`, or `Failed` with a code and a short
/// diagnostic message naming the stage that failed.
#[derive(Debug)]
pub enum DracoStatus {
    Succeeded,
    Failed(StatusCode, String),
}

/// The result type returned by every operation that can fail.
pub type DracoStatusType<T> = Result<T, DracoStatus>;

impl DracoStatus {
    /// Whether this status is a failure carrying the given code.
    pub open spec fn is_failure(self, code: StatusCode) -> bool {
        self matches DracoStatus::Failed(c, _) && c == code
    }

    /// The code of a failed status; `None` for a successful one.
    pub open spec fn spec_code(self) -> Option<StatusCode> {
        match self {
            DracoStatus::Succeeded => None,
            DracoStatus::Failed(c, _) => Some(c),
        }
    }

    /// The diagnostic message; empty for a successful status.
    pub open spec fn spec_message(self) -> Seq<char> {
        match self {
            DracoStatus::Succeeded => Seq::empty(),
            DracoStatus::Failed(_, m) => m@,
        }
    }

    pub fn ok(&self) -> (r: bool)
        ensures
            r == (*self is Succeeded),
    {
        matches!(self, DracoStatus::Succeeded)
    }

    pub fn code(&self) -> (r: Option<StatusCode>)
        ensures
            r == self.spec_code(),
    {
        match self {
            DracoStatus::Succeeded => None,
            DracoStatus::Failed(c, _) => Some(*c),
        }
    }

    pub fn error_message(&self) -> (r: String)
        ensures
            r@ == self.spec_message(),
    {
        match self {
            DracoStatus::Succeeded => {
                proof {
                    reveal_strlit("");
                }
                "".to_owned()
            },
            DracoStatus::Failed(_, m) => m.clone(),
        }
    }
}

/// An opaque handle identifying one attribute stream within the point cloud
/// (or builder) that returned it.  Ids are only meaningful against the
/// instance that issued them.
#[derive(Debug, Copy, Clone, PartialEq, Eq, Structural)]
pub struct AttrId(pub i32);

impl AttrId {
    pub fn as_u32(&self) -> (r: u32)
        requires
            self.0 >= 0,
        ensures
            r == self.0,
    {
        self.0 as u32
    }
}

} // verus!
