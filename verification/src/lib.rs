//! A small compiler for a C-like language, from source text to AArch64
//! assembly text.

pub mod codegen;
pub mod error;
pub mod ast;
pub mod ir;
pub mod parse;
pub mod stage;
pub mod text;
pub mod tokenize;
pub mod tree;

use vstd::prelude::*;

verus! {

/// What the compiler is asked to do.
#[derive(Debug, Default, Clone)]
pub struct Flags {
    pub log: bool,
    pub run: bool,
    pub capture: bool,
    pub codegen: bool,
    pub input: Vec<String>,
    pub output: Option<String>,
}

impl Flags {
    /// Where the executable goes: the path given, or `a.out`.
    pub fn output(&self) -> (r: String)
        ensures
            r@ == match self.output {
                Some(s) => s@,
                None => "a.out"@,
            },
    {
        match &self.output {
            Some(s) => s.clone(),
            None => String::from_str("a.out"),
        }
    }
}

} // verus!
