//! A device that draws some input into some output.
use vstd::prelude::*;

verus! {

pub trait GPU<InputData, OutputTarget> {
    fn draw_primitive(&self, input: &InputData, output: &mut OutputTarget);
}

} // verus!
