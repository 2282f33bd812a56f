//! Optimisation of circuits: truth tables of combinational logic, and
//! optimisation of the generated IR.
pub mod ir;
pub mod truth_table;

use vstd::prelude::*;

use crate::analyser::circ::Circ;
use crate::analyser::pins::CircId;
use crate::codegen::targets::ir::{Sections, WordTrait};
use ir::{optimised_program, program_optimisable, IrOptimiser};
use truth_table::TruthTable;

verus! {

/// A circuit after optimisation: as analysed, or reduced to a truth table.
#[derive(Debug)]
pub enum OptimiserUnit {
    Circ(Circ),
    TruthTable(TruthTable),
}

/// The circuits of a program and its main circuit.
#[derive(Debug)]
pub struct Optimiser {
    main: CircId,
    circs: Vec<OptimiserUnit>,
}

impl Optimiser {
    /// Optimises the generated IR of a whole program.
    pub fn optimise_ir<Word: WordTrait>(blocks: Sections<Word>) -> (r: Sections<Word>)
        requires
            program_optimisable(blocks),
        ensures
            optimised_program(blocks, r),
    {
        IrOptimiser::optimise(blocks)
    }
}

} // verus!
