//! Ready-made controller programs for exercising the machine.

use vstd::prelude::*;

verus! {

/// A named controller text.
pub struct MachineCase {
    pub name: &'static str,
    pub controller_text: &'static str,
}

impl MachineCase {
    /// A factorial controller whose base case misspells `assign`:
    /// assembling it reports an unknown instruction.
    pub fn new() -> (r: Self)
        ensures
            r.name@ == "factorial_machine"@,
    {
        MachineCase {
            name: "factorial_machine",
            controller_text: "(controller   
                    (assign continue (label fact-done)) 
                fact-loop 
                    (test (op =) (reg n) (const 1))   
                    (branch (label base-case))   
                    (save continue) 
                    (save n)                     
                    (assign n (op -) (reg n) (const 1)) 
                    (assign continue (label after-fact))  
                    (goto (label fact-loop))   
                after-fact            
                    (restore n) 
                    (restore continue) 
                    (assign val (op *) (reg n) (reg val))
                    (goto (reg continue))
                base-case
                    (assgin val (const 1))
                    (goto (reg continue))
                fact-done)",
        }
    }

    /// A factorial controller over the registers `exp`, `val` and
    /// `continue`, driven by the operations `=`, `-` and `*`.
    pub fn test_case() -> (r: Self)
        ensures
            r.name@ == "factorial_for_test"@,
    {
        MachineCase {
            name: "factorial_for_test",
            controller_text: "(controller   
                (assign continue (label fact-done)) 
            fact-loop 
                (test (op =) (reg exp) (const 1))   
                (branch (label base-case))   
                (save continue) 
                (save exp)                     
                (assign exp (op -) (reg exp) (const 1)) 
                (assign continue (label after-fact))  
                (goto (label fact-loop))   
            after-fact            
                (restore exp) 
                (restore continue) 
                (assign val (op *) (reg exp) (reg val))
                (goto (reg continue))
            base-case
                (assign val (const 1))
                (goto (reg continue))
            fact-done)",
        }
    }
}

} // verus!
