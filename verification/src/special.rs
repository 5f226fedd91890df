//! Interactive boundary components: a button the user toggles and a lamp
//! that shows a value. Both are placed inside circuits like gates, but
//! neither is compilable: a button has no inputs to enumerate and a lamp no
//! outputs to record.

use vstd::prelude::*;
use vstd::string::*;
use crate::errors::CantCompileGate;
use crate::table::TruthTable;

verus! {

/// A source the user drives directly: no inputs, one output pin.
pub struct ButtonGate {
    pub state: bool,
}

impl ButtonGate {
    pub fn new() -> (r: ButtonGate)
        ensures
            r.state == false,
    {
        ButtonGate { state: false }
    }

    pub fn get_name(&self) -> (r: String)
        ensures
            r@ == "BUTTON"@,
    {
        String::from_str("BUTTON")
    }

    pub fn get_inputs(&self) -> (r: Vec<bool>)
        ensures
            r@ == Seq::<bool>::empty(),
    {
        Vec::new()
    }

    pub fn get_outputs(&self) -> (r: Vec<bool>)
        ensures
            r@ == seq![self.state],
    {
        let mut v: Vec<bool> = Vec::new();
        v.push(self.state);
        proof {
            assert(v@ =~= seq![self.state]);
        }
        v
    }

    /// A button has no input pins; writing one does nothing.
    pub fn set_input(&mut self, _index: usize, _value: bool)
        ensures
            *final(self) == *old(self),
    {
    }

    pub fn set_output(&mut self, _index: usize, value: bool)
        ensures
            final(self).state == value,
    {
        self.state = value;
    }

    /// A button computes nothing; its output is whatever the user set.
    pub fn calculate(&mut self) -> (r: Result<(), CantCompileGate>)
        ensures
            *final(self) == *old(self),
            r is Ok,
    {
        Ok(())
    }

    pub fn compilable(&self) -> (r: bool)
        ensures
            !r,
    {
        false
    }

    pub fn compile(&self) -> (r: Result<TruthTable, CantCompileGate>)
        ensures
            r is Err,
    {
        Err(CantCompileGate)
    }

    pub fn get_input_num(&self) -> (r: usize)
        ensures
            r == 0,
    {
        0
    }

    pub fn get_output_num(&self) -> (r: usize)
        ensures
            r == 1,
    {
        1
    }
}

/// A sink the user observes: one input pin, no outputs.
pub struct LampGate {
    pub state: bool,
}

impl LampGate {
    pub fn new() -> (r: LampGate)
        ensures
            r.state == false,
    {
        LampGate { state: false }
    }

    pub fn get_name(&self) -> (r: String)
        ensures
            r@ == "LAMP"@,
    {
        String::from_str("LAMP")
    }

    pub fn get_inputs(&self) -> (r: Vec<bool>)
        ensures
            r@ == seq![self.state],
    {
        let mut v: Vec<bool> = Vec::new();
        v.push(self.state);
        proof {
            assert(v@ =~= seq![self.state]);
        }
        v
    }

    pub fn get_outputs(&self) -> (r: Vec<bool>)
        ensures
            r@ == Seq::<bool>::empty(),
    {
        Vec::new()
    }

    pub fn set_input(&mut self, _index: usize, value: bool)
        ensures
            final(self).state == value,
    {
        self.state = value;
    }

    /// A lamp has no output pins; writing one does nothing.
    pub fn set_output(&mut self, _index: usize, _value: bool)
        ensures
            *final(self) == *old(self),
    {
    }

    /// A lamp computes nothing; it shows whatever was written to it.
    pub fn calculate(&mut self) -> (r: Result<(), CantCompileGate>)
        ensures
            *final(self) == *old(self),
            r is Ok,
    {
        Ok(())
    }

    pub fn compilable(&self) -> (r: bool)
        ensures
            !r,
    {
        false
    }

    pub fn compile(&self) -> (r: Result<TruthTable, CantCompileGate>)
        ensures
            r is Err,
    {
        Err(CantCompileGate)
    }

    pub fn get_input_num(&self) -> (r: usize)
        ensures
            r == 1,
    {
        1
    }

    pub fn get_output_num(&self) -> (r: usize)
        ensures
            r == 0,
    {
        0
    }
}

} // verus!
