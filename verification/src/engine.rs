//! The exception dispatch engine: a two-state machine driven by CPU traps.
//!
//! The host registers a trap callback with the operating system. On each
//! trap it reads what the engine needs from memory, hands it over as a
//! [`Trap`], and carries out the returned [`Disposition`]. The engine itself
//! touches nothing but the register snapshot it is given.

use vstd::prelude::*;
use crate::address::calc_rip;
use crate::address::transformable;
use crate::address::transformed;
use crate::gate::ENTER_LEN;

verus! {

/// The single-step (trap) bit of the flags register.
pub const TRAP_MASK: u32 = 0x100;

/// Bytes taken by one return address on the machine stack.
pub const STACK_SLOT: u64 = 8;

/// The registers of the trapped thread that the engine reads and writes.
#[derive(Clone, Copy, Debug, PartialEq, Eq, Structural)]
pub struct CpuTrapContext {
    /// Instruction pointer.
    pub rip: u64,
    /// Stack pointer.
    pub rsp: u64,
    /// Flags register.
    pub eflags: u32,
}

/// Whether the CPU traps after every instruction.
#[derive(Clone, Copy, Debug, PartialEq, Eq, Structural)]
pub enum ExecutionMode {
    Normal,
    Stepping,
}

/// A trap, together with what the host read from memory for it.
#[derive(Clone, Copy, Debug, PartialEq, Eq, Structural)]
pub enum Trap {
    /// Illegal instruction on the ENTER opcode; `target` is the eight-byte
    /// operand that follows the opcode.
    Enter { target: u64 },
    /// Illegal instruction on the LEAVE opcode; `return_address` is the
    /// eight-byte value at the stack pointer.
    Leave { return_address: u64 },
    /// Illegal instruction on any other opcode.
    IllegalOpcode,
    /// Single-step trap.
    SingleStep,
    /// Any other kind of exception.
    Other,
}

/// Why the engine gives up.
#[derive(Clone, Copy, Debug, PartialEq, Eq, Structural)]
pub enum Fatal {
    /// An illegal instruction that is neither gate.
    UnexpectedOpcode,
    /// An exception that is neither an illegal instruction nor a single step.
    UnexpectedException,
}

/// What the host does once the engine has handled a trap.
#[derive(Clone, Copy, Debug, PartialEq, Eq, Structural)]
pub enum Disposition {
    /// Resume the thread with the updated registers.
    Continue,
    /// Write the eight bytes of `value` at `address`, then resume the thread
    /// with the updated registers.
    StoreThenContinue { address: u64, value: u64 },
    /// Abort the process; the registers are as they were.
    Abort { reason: Fatal },
}

/// The mode that a register snapshot is in: it is kept in the trap bit and
/// nowhere else.
pub open spec fn mode_of(ctx: CpuTrapContext) -> ExecutionMode {
    if ctx.eflags & TRAP_MASK != 0 {
        ExecutionMode::Stepping
    } else {
        ExecutionMode::Normal
    }
}

/// The traps whose address arithmetic stays within 64 bits.
pub open spec fn admissible(ctx: CpuTrapContext, trap: Trap) -> bool {
    match trap {
        Trap::Enter { .. } => ctx.rsp >= 8 && ctx.rip + 10 <= u64::MAX,
        Trap::Leave { .. } => ctx.rsp + 8 <= u64::MAX,
        Trap::SingleStep => transformable(ctx.rip),
        Trap::IllegalOpcode => true,
        Trap::Other => true,
    }
}

/// The registers after the engine has handled `trap`.
pub open spec fn next_context(ctx: CpuTrapContext, trap: Trap) -> CpuTrapContext {
    match trap {
        Trap::Enter { target } => CpuTrapContext {
            rip: target,
            rsp: (ctx.rsp - 8) as u64,
            eflags: ctx.eflags | TRAP_MASK,
        },
        Trap::Leave { return_address } => CpuTrapContext {
            rip: return_address,
            rsp: (ctx.rsp + 8) as u64,
            eflags: ctx.eflags & !TRAP_MASK,
        },
        Trap::SingleStep => CpuTrapContext {
            rip: transformed(ctx.rip) as u64,
            rsp: ctx.rsp,
            eflags: ctx.eflags | TRAP_MASK,
        },
        Trap::IllegalOpcode => ctx,
        Trap::Other => ctx,
    }
}

/// What the engine asks of the host for `trap`.
pub open spec fn disposition_of(ctx: CpuTrapContext, trap: Trap) -> Disposition {
    match trap {
        Trap::Enter { .. } => Disposition::StoreThenContinue {
            address: (ctx.rsp - 8) as u64,
            value: (ctx.rip + 10) as u64,
        },
        Trap::Leave { .. } => Disposition::Continue,
        Trap::SingleStep => Disposition::Continue,
        Trap::IllegalOpcode => Disposition::Abort { reason: Fatal::UnexpectedOpcode },
        Trap::Other => Disposition::Abort { reason: Fatal::UnexpectedException },
    }
}

proof fn lemma_trap_bit(eflags: u32)
    by (bit_vector)
    ensures
        (eflags | 0x100) & 0x100 != 0,
        (eflags & !0x100u32) & 0x100 == 0,
{
}

impl CpuTrapContext {
    /// Reads the mode off the trap bit.
    pub fn mode(&self) -> (mode: ExecutionMode)
        ensures
            mode == mode_of(*self),
    {
        if self.eflags & TRAP_MASK != 0 {
            ExecutionMode::Stepping
        } else {
            ExecutionMode::Normal
        }
    }
}

/// Tells whether the address arithmetic of `trap` stays within 64 bits, so
/// that `vectored_handler` may be called.
pub fn admits(ctx: &CpuTrapContext, trap: Trap) -> (yes: bool)
    ensures
        yes == admissible(*ctx, trap),
{
    match trap {
        Trap::Enter { .. } => ctx.rsp >= STACK_SLOT && ctx.rip <= u64::MAX - ENTER_LEN,
        Trap::Leave { .. } => ctx.rsp <= u64::MAX - STACK_SLOT,
        Trap::SingleStep => ctx.rip % 16 == 0 || ctx.rip >= 16,
        Trap::IllegalOpcode => true,
        Trap::Other => true,
    }
}

/// Handles one trap: updates the registers and says what the host does
/// next.
///
/// ENTER pushes the address after its ten bytes, jumps to the operand and starts
/// stepping. LEAVE pops the return address and stops stepping. A single
/// step passes the instruction pointer through the address transform and
/// keeps stepping. Anything else is fatal and leaves the registers alone.
pub fn vectored_handler(ctx: &mut CpuTrapContext, trap: Trap) -> (todo: Disposition)
    requires
        admissible(*old(ctx), trap),
    ensures
        *final(ctx) == next_context(*old(ctx), trap),
        todo == disposition_of(*old(ctx), trap),
        trap is Enter || trap is SingleStep ==> mode_of(*final(ctx)) == ExecutionMode::Stepping,
        trap is Leave ==> mode_of(*final(ctx)) == ExecutionMode::Normal,
        todo is Abort ==> *final(ctx) == *old(ctx),
{
    proof {
        lemma_trap_bit(ctx.eflags);
    }
    match trap {
        Trap::Enter { target } => {
            let value: u64 = ctx.rip + ENTER_LEN;
            ctx.rsp = ctx.rsp - STACK_SLOT;
            ctx.rip = target;
            ctx.eflags = ctx.eflags | TRAP_MASK;
            Disposition::StoreThenContinue { address: ctx.rsp, value }
        },
        Trap::Leave { return_address } => {
            ctx.rip = return_address;
            ctx.rsp = ctx.rsp + STACK_SLOT;
            ctx.eflags = ctx.eflags & !TRAP_MASK;
            Disposition::Continue
        },
        Trap::IllegalOpcode => Disposition::Abort { reason: Fatal::UnexpectedOpcode },
        Trap::SingleStep => {
            ctx.rip = calc_rip(ctx.rip);
            ctx.eflags = ctx.eflags | TRAP_MASK;
            Disposition::Continue
        },
        Trap::Other => Disposition::Abort { reason: Fatal::UnexpectedException },
    }
}

/// The call gate round trip. Take an ENTER trap at `ctx`, and a LEAVE trap
/// at any later snapshot `at_leave` whose stack pointer is where ENTER left
/// it and whose stack top still holds what ENTER stored. Then the thread
/// resumes right after the ENTER bytes with the stack pointer it had before, and
/// out of stepping mode; in between, control went to the target and the
/// thread was stepping.
pub proof fn lemma_gate_round_trip(ctx: CpuTrapContext, target: u64, at_leave: CpuTrapContext)
    requires
        admissible(ctx, Trap::Enter { target }),
        at_leave.rsp == next_context(ctx, Trap::Enter { target }).rsp,
    ensures
        disposition_of(ctx, Trap::Enter { target }) == (Disposition::StoreThenContinue {
            address: at_leave.rsp,
            value: (ctx.rip + 10) as u64,
        }),
        next_context(ctx, Trap::Enter { target }).rip == target,
        mode_of(next_context(ctx, Trap::Enter { target })) == ExecutionMode::Stepping,
        admissible(at_leave, Trap::Leave { return_address: (ctx.rip + 10) as u64 }),
        next_context(at_leave, Trap::Leave { return_address: (ctx.rip + 10) as u64 }).rsp
            == ctx.rsp,
        next_context(at_leave, Trap::Leave { return_address: (ctx.rip + 10) as u64 }).rip
            == ctx.rip + 10,
        mode_of(next_context(at_leave, Trap::Leave { return_address: (ctx.rip + 10) as u64 }))
            == ExecutionMode::Normal,
        disposition_of(at_leave, Trap::Leave { return_address: (ctx.rip + 10) as u64 })
            == Disposition::Continue,
{
    lemma_trap_bit(ctx.eflags);
    lemma_trap_bit(at_leave.eflags);
}

/// A single step keeps the thread stepping and leaves the stack pointer
/// alone; on a slot boundary it leaves the instruction pointer alone too.
pub proof fn lemma_single_step_keeps_stepping(ctx: CpuTrapContext)
    requires
        admissible(ctx, Trap::SingleStep),
    ensures
        mode_of(next_context(ctx, Trap::SingleStep)) == ExecutionMode::Stepping,
        next_context(ctx, Trap::SingleStep).rsp == ctx.rsp,
        ctx.rip % 16 == 0 ==> next_context(ctx, Trap::SingleStep).rip == ctx.rip,
{
    lemma_trap_bit(ctx.eflags);
}

} // verus!
