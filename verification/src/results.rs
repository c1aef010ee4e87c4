//! Outcome classifications the journal's callers convert execution results
//! into.  The journal produces the inputs for these (transfer failures,
//! collision detection); computing gas or choosing a halt reason is the
//! interpreter collaborator's concern.

use vstd::prelude::*;

verus! {

/// Reason a transaction successfully completed.
#[derive(Clone, Copy, Debug, PartialEq, Eq, Structural)]
pub enum SuccessReason {
    /// Execution ran to a stop instruction.
    Stop,
    /// Execution returned data.
    Return,
    /// Execution ended in a self-destruct.
    SelfDestruct,
}

/// Errors from a misconfigured block header.
#[derive(Clone, Copy, Debug, PartialEq, Eq, Structural)]
pub enum InvalidHeader {
    /// The randomness beacon value is not set although required.
    PrevrandaoNotSet,
    /// The excess blob gas is not set although required.
    ExcessBlobGasNotSet,
}

/// Out-of-gas classifications.
#[derive(Clone, Copy, Debug, PartialEq, Eq, Structural)]
pub enum OutOfGasError {
    /// Not enough gas to execute the instruction.
    Basic,
    /// Memory expansion past the memory limit.
    MemoryLimit,
    /// Out of gas during memory expansion.
    Memory,
    /// A precompile ran out of gas.
    Precompile,
    /// An operand was too large to cast down to a machine word.
    InvalidOperand,
    /// A storage write was attempted with too little gas left.
    ReentrancySentry,
}

/// Reasons execution halts exceptionally, consuming all gas.
#[derive(Clone, Copy, Debug, PartialEq, Eq, Structural)]
pub enum HaltReason {
    /// Out of gas.
    OutOfGas(OutOfGasError),
    /// Unknown opcode.
    OpcodeNotFound,
    /// The designated-invalid opcode was executed.
    InvalidFEOpcode,
    /// Jump to a non-jumpdest target.
    InvalidJump,
    /// Feature or opcode not active in the configured hardfork.
    NotActivated,
    /// Pop from an empty stack.
    StackUnderflow,
    /// Push onto a full stack.
    StackOverflow,
    /// Invalid memory or return-data offset.
    OutOfOffset,
    /// Address collision during contract creation.
    CreateCollision,
    /// A precompile failed.
    PrecompileError,
    /// Nonce overflow.
    NonceOverflow,
    /// Created contract exceeds the size limit.
    CreateContractSizeLimit,
    /// Created contract begins with the reserved byte.
    CreateContractStartingWithEF,
    /// Initcode exceeds the size limit.
    CreateInitCodeSizeLimit,
    /// Overflow while paying a balance.
    OverflowPayment,
    /// State change attempted during a static call.
    StateChangeDuringStaticCall,
    /// Call kind not allowed inside a static call.
    CallNotAllowedInsideStatic,
    /// Out of funds to pay for the call.
    OutOfFunds,
    /// Call nesting too deep.
    CallTooDeep,
}

} // verus!
