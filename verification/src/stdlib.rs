//! The part of the library that is written in the language itself.

use vstd::prelude::*;
use crate::{Rlisp, RlispView, execution};

verus! {

/// Defines `unpack`: `(unpack f l)` calls `f` with the elements of the list
/// `l` as its arguments.
pub open spec fn unpack_source() -> Seq<char> {
    "(def {unpack f l} {eval (join (list f) l)})"@
}

/// Defines `pack`: `(pack f a b ...)` calls `f` with its further arguments.
pub open spec fn pack_source() -> Seq<char> {
    "(def {pack f ...} {f ...})"@
}

/// The interpreter after the definitions of the library have been executed.
pub open spec fn injected(before: RlispView) -> RlispView {
    execution(execution(before, unpack_source()).0, pack_source()).0
}

/// Executes the definitions of the library.
pub fn inject(rlisp: &mut Rlisp)
    ensures
        final(rlisp)@ == injected(old(rlisp)@),
{
    let _ = rlisp.execute("(def {unpack f l} {eval (join (list f) l)})");
    let _ = rlisp.execute("(def {pack f ...} {f ...})");
}

} // verus!
