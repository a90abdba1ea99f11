use vstd::prelude::*;

verus! {

// Bits of the 16-bit status register.
pub const CARRY_FLAG: u16 = 0x0001;
pub const PARITY_FLAG: u16 = 0x0004;
pub const AUXILIARY_CARRY_FLAG: u16 = 0x0010;
pub const ZERO_FLAG: u16 = 0x0040;
pub const SIGN_FLAG: u16 = 0x0080;
pub const TRAP_FLAG: u16 = 0x0100;
pub const INTERRUPT_FLAG: u16 = 0x0200;
pub const DIRECTIONAL_FLAG: u16 = 0x0400;
pub const OVERFLOW_FLAG: u16 = 0x0800;
pub const SUPERVISOR_FLAG: u16 = 0x8000;

// Process states.
pub const P_READY: usize = 0;
pub const P_RUNNING: usize = 1;
pub const P_BLOCKED: usize = 2;
pub const P_READY_SUSP: usize = 3;
pub const P_BLOCKED_SUSP: usize = 4;

// Resource kinds.
pub const RES_S_MEM: usize = 0;
pub const RES_U_MEM: usize = 1;
pub const RES_DISK: usize = 2;
pub const RES_CHNL: usize = 3;
pub const RES_TASK_IN_SUPER: usize = 4;
pub const RES_FROM_USER_INT: usize = 5;
pub const RES_FILE_PACK: usize = 6;
pub const RES_USER_INPUT: usize = 7;
pub const RES_LINE_IN_MEM: usize = 8;
pub const RES_FROM_FILEWORK: usize = 9;
pub const RES_INTERRUPT: usize = 10;
pub const RES_FROM_INTERRUPT: usize = 11;
pub const RES_THEAD_SUPER: usize = 12;
pub const RES_TPROG_SUPER: usize = 13;
pub const RES_TASK_IN_USER: usize = 14;
pub const RES_TDAT_SUPER: usize = 15;

} // verus!
