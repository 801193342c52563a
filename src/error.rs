use vstd::prelude::*;

verus! {

/// Why an execution did not produce a result.
#[derive(Clone, Copy, PartialEq, Eq, Structural, Debug)]
pub enum ExecError {
    /// More inputs than the stack has slots.
    TooManyInputs,
    /// An input word is not a field element.
    InputNotInField,
    /// The program is empty, too long, or its length is not a power of two.
    BadProgramLength,
    /// The instruction at this step underflows or overflows the stack, or is unknown.
    StackFault { step: usize },
    /// More outputs were requested than the final stack holds.
    TooManyOutputs,
    /// The extension factor is not a power of two at least the constraint degree.
    BadExtensionFactor,
    /// The interpolant of a trace column does not reproduce it on the trace domain.
    DomainError,
    /// The trace fails a transition or boundary constraint: an internal fault,
    /// never a fault of the program or its inputs.
    ConstraintViolation,
}

} // verus!
