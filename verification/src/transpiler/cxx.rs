//! The C++ target.

use vstd::prelude::*;

use crate::transpiler::{Transpiler, TranspilerLang};

verus! {

pub type Cxx = Transpiler;

/// A generator for the C++ target with an empty buffer and no includes
/// remembered.
pub fn new() -> (r: Cxx)
    ensures
        r.buffer@ == Seq::<char>::empty(),
        r.imports@ == Seq::<String>::empty(),
        r.target_lang == TranspilerLang::Cxx,
{
    Transpiler { buffer: String::new(), imports: Vec::new(), target_lang: TranspilerLang::Cxx }
}

} // verus!
