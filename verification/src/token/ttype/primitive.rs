use crate::text::push_text;
use vstd::prelude::*;

verus! {

/// The types that the target offers.
#[derive(Debug, Clone, Copy, PartialEq, Eq, Structural)]
pub enum PrimitiveType {
    I32,
    I64,
    F32,
    F64,
}

impl PrimitiveType {
    /// The name of the type.
    pub open spec fn name(self) -> Seq<char> {
        match self {
            PrimitiveType::I32 => "i32"@,
            PrimitiveType::I64 => "i64"@,
            PrimitiveType::F32 => "f32"@,
            PrimitiveType::F64 => "f64"@,
        }
    }

    /// The name of the type.
    pub fn get_show_as_string(&self) -> (r: String)
        ensures
            r@ == self.name(),
    {
        let mut out = String::new();
        match self {
            PrimitiveType::I32 => push_text(&mut out, "i32"),
            PrimitiveType::I64 => push_text(&mut out, "i64"),
            PrimitiveType::F32 => push_text(&mut out, "f32"),
            PrimitiveType::F64 => push_text(&mut out, "f64"),
        }
        assert(out@ =~= self.name());
        out
    }
}

/// A primitive type in a type annotation.
#[derive(Debug, Clone, Copy, PartialEq, Eq, Structural)]
pub struct PrimitiveBranch {
    pub primitive_type: PrimitiveType,
    pub depth: isize,
    pub loopdepth: isize,
}

} // verus!
