use vstd::prelude::*;
use crate::types::Token;

verus! {

/// The instructions found in a source, in order.
#[derive(Debug)]
pub struct Program {
    pub instructions: Vec<Instruction>,
}

impl View for Program {
    type V = Seq<Instruction>;

    open spec fn view(&self) -> Seq<Instruction> {
        self.instructions@
    }
}

#[derive(Debug, Clone, Copy, PartialEq, Eq, Structural)]
pub enum Instruction {
    Label(Token),
    // Keyword instructions
    Say,
    Signal,
    Unknown(Token),
}

} // verus!
