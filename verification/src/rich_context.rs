//! One function of a build with its statements, instructions and locals.

use vstd::prelude::*;

verus! {

/// A statement: where its code starts in the function and how long it is, and
/// the source line that it stands on.
#[derive(Debug)]
pub struct Statement {
    pub off: u32,
    pub size: u32,
    pub line: u32,
    pub depth: i32,
    pub source: Option<String>,
}

/// A disassembled instruction.
#[derive(Debug)]
pub struct Instruction {
    pub off: u32,
    pub len: u32,
    pub text: String,
    pub label: Option<String>,
}

/// A local variable; `scope` counts the blocks that it is declared inside of.
#[derive(Debug)]
pub struct Local {
    pub ty: String,
    pub name: String,
    pub scope: i32,
}

/// A function as a build recorded it.
#[derive(Debug)]
pub struct FunctionEntry {
    pub name: String,
    pub mangled: String,
    pub rva: u32,
    pub size: u32,
    pub image_base: u32,
    pub file: String,
    pub statements: Vec<Statement>,
    pub instructions: Vec<Instruction>,
    pub locals: Vec<Local>,
    pub skipped_blocks: Vec<(u32, i32)>,
}

impl FunctionEntry {
    /// No statements beyond the two braces of the frame.
    pub open spec fn body_less(self) -> bool {
        self.statements@.len() <= 2
    }

    /// Whether the function has no statements beyond the braces of its frame.
    pub fn is_body_less(&self) -> (b: bool)
        ensures
            b == self.body_less(),
    {
        self.statements.len() <= 2
    }

    /// The address of byte `off` of the function in the loaded image; addresses
    /// wrap around.
    pub open spec fn address(self, off: u32) -> u32 {
        ((self.image_base + self.rva + off) % 0x1_0000_0000) as u32
    }

    /// The address of byte `off` of the function in the loaded image.
    pub fn va(&self, off: u32) -> (r: u32)
        ensures
            r == self.address(off),
    {
        self.image_base.wrapping_add(self.rva).wrapping_add(off)
    }
}

} // verus!
