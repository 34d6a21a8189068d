//! What is shared by the parts that generate the code of one function.

use crate::constant::ConstantCx;
use crate::pretty_clif::CommentWriter;
use vstd::prelude::*;

verus! {

/// The state that goes with the function whose code is being generated.
pub struct FunctionCx {
    /// The width of a pointer of the target in bytes.
    pub pointer_size: u8,
    /// The constants that the code of this compilation unit asked for.
    pub constants_cx: ConstantCx,
    /// The comments on the function's intermediate representation.
    pub clif_comments: CommentWriter,
}

} // verus!
