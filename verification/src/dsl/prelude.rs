//! The names that a program written in code needs.

pub use crate::dsl::blocks;
pub use crate::dsl::ops::{
    absa, and, cho, clr, exp, jam, ldax, log, mulx, nop, or, rda, rdax, rdfx, rdfx2, rmpa, shl,
    shr, skp, sof, wlds, wra, wrap, wrax, xor,
};
pub use crate::dsl::typed::TypedBuilder;
pub use crate::dsl::ProgramBuilder;
pub use crate::float32::Float32;
pub use crate::instruction::{ChoFlags, ChoMode, Instruction, SkipCondition};
pub use crate::register::{Control, Lfo, Register};
