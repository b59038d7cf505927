//! The fetch-decode-execute engine: registers, program counter, index
//! register, timers, and the full instruction semantics.
//!
//! Each cycle fetches the word at the program counter, advances the counter
//! by two before the opcode body runs (so jumps overwrite it), and dispatches
//! on the four nibbles.  `step_spec` states the complete effect of one cycle;
//! `execute` is proved against it.  Keypad opcodes do not block here: they
//! return a request that the host answers through `resolve_key_scan` or
//! `write_register`.

use vstd::prelude::*;

use crate::mem::Memory;
use crate::mem::blit;
use crate::mem::collision;
use crate::mem::fresh_ram;
use crate::mem::reloaded_ram;
use crate::mem::word_at;
use crate::mem::zero_bytes;
use crate::mem::zero_seq;
use crate::timer::Timer60Hz;
use crate::timer::timer_after_read;
use crate::timer::timer_read_value;

verus! {

/// Operand fields shared by the opcode handlers, computed once per decode.
#[derive(Debug)]
pub struct InstHelper {
    /// The low 12 bits: an address or wide literal.
    pub nnn: u16,
    /// The low 8 bits: a byte literal.
    pub nn: u8,
    /// The second nibble: a register index.
    pub x: usize,
    /// The third nibble: a register index.
    pub y: usize,
}

/// What one successful cycle asks of the host.
#[derive(Debug, PartialEq, Eq)]
pub enum Step {
    /// The cycle completed with no outward effect.
    Normal,
    /// The framebuffer changed; the host should repaint.
    DisplayUpdated,
    /// The engine entered its terminal halted state.
    Halted,
    /// A skip opcode needs to know whether keypad key `code` is pressed; the
    /// host answers through `resolve_key_scan`.
    KeyScan { code: u8, expect_pressed: bool },
    /// A wait opcode blocks until some key arrives; the host stores its code
    /// into register `x` through `write_register`.
    KeyWait { x: u8 },
}

/// A fatal condition: the engine halts and surfaces the failing instruction.
#[derive(Debug, PartialEq, Eq)]
pub enum Fault {
    /// The program counter left the address space.
    FetchOutOfRange { pc: u16 },
    /// A return was executed with an empty call stack.
    StackUnderflow { pc: u16, raw: u16 },
    /// The instruction word matches no opcode.
    UnknownOpcode { pc: u16, raw: u16 },
    /// A memory-block opcode would read or write past the address space.
    AddressOutOfRange { pc: u16, raw: u16 },
}

/// The opcode family: the leading nibble.
pub open spec fn op_of(w: u16) -> int {
    w as int / 0x1000
}

/// The second nibble: register index `x`.
pub open spec fn x_of(w: u16) -> int {
    w as int / 0x100 % 16
}

/// The third nibble: register index `y`.
pub open spec fn y_of(w: u16) -> int {
    w as int / 0x10 % 16
}

/// The low nibble.
pub open spec fn n_of(w: u16) -> int {
    w as int % 16
}

/// The low byte.
pub open spec fn nn_of(w: u16) -> u8 {
    (w as int % 0x100) as u8
}

/// The low 12 bits.
pub open spec fn nnn_of(w: u16) -> u16 {
    (w as int % 0x1000) as u16
}

/// Addition modulo 256.
pub open spec fn wrap8(v: int) -> u8 {
    (v % 256) as u8
}

/// Addition modulo 65536.
pub open spec fn wrap16(v: int) -> u16 {
    (v % 0x10000) as u16
}

/// A word is its four nibbles reassembled.
pub proof fn lemma_word_decompose(w: u16)
    ensures
        w == op_of(w) * 0x1000 + x_of(w) * 0x100 + y_of(w) * 0x10 + n_of(w),
        nnn_of(w) == x_of(w) * 0x100 + y_of(w) * 0x10 + n_of(w),
        nn_of(w) == y_of(w) * 0x10 + n_of(w),
        n_of(w) == nn_of(w) % 16,
{
    assert(w / 0x1000 * 0x1000 + w / 0x100 % 0x10 * 0x100 + w / 0x10 % 0x10 * 0x10 + w % 0x10
        == w) by (bit_vector);
    assert(w % 0x1000 == w / 0x100 % 0x10 * 0x100 + w / 0x10 % 0x10 * 0x10 + w % 0x10)
        by (bit_vector);
    assert(w % 0x100 == w / 0x10 % 0x10 * 0x10 + w % 0x10) by (bit_vector);
    assert(w % 0x10 == w % 0x100 % 0x10) by (bit_vector);
}

/// The register file after one register-register ALU opcode `8xyn`.  The
/// flag register 15 is written last, computed from the operands as they
/// stood before the result write: for the shifts it receives the bit shifted
/// out of `y` before the shift.
pub open spec fn alu_regs(regs: Seq<u8>, x: int, y: int, n: int) -> Seq<u8> {
    let vx = regs[x];
    let vy = regs[y];
    if n == 0 {
        regs.update(x, vy)
    } else if n == 1 {
        regs.update(x, vx | vy)
    } else if n == 2 {
        regs.update(x, vx & vy)
    } else if n == 3 {
        regs.update(x, vx ^ vy)
    } else if n == 4 {
        regs.update(x, wrap8(vx + vy)).update(
            15,
            if vx + vy > 255 {
                1u8
            } else {
                0u8
            },
        )
    } else if n == 5 {
        regs.update(x, wrap8(vx - vy)).update(
            15,
            if vx >= vy {
                1u8
            } else {
                0u8
            },
        )
    } else if n == 6 {
        regs.update(x, vy / 2).update(15, vy % 2)
    } else if n == 7 {
        regs.update(x, wrap8(vy - vx)).update(
            15,
            if vy >= vx {
                1u8
            } else {
                0u8
            },
        )
    } else {
        regs.update(x, wrap8(vy * 2)).update(15, vy / 128)
    }
}

/// RAM after a block store of registers 0 through `x` at `ir`.
pub open spec fn stored_regs(ram: Seq<u8>, ir: int, regs: Seq<u8>, x: int) -> Seq<u8> {
    Seq::new(
        ram.len(),
        |i: int|
            if ir <= i <= ir + x {
                regs[i - ir]
            } else {
                ram[i]
            },
    )
}

/// The register file after a block load of registers 0 through `x` from `ir`.
pub open spec fn loaded_regs(regs: Seq<u8>, ram: Seq<u8>, ir: int, x: int) -> Seq<u8> {
    Seq::new(
        regs.len(),
        |j: int|
            if j <= x {
                ram[ir + j]
            } else {
                regs[j]
            },
    )
}

/// The state machine: registers, pointers, timers and memory.
#[derive(Debug)]
pub struct System {
    /// RAM, stack and framebuffer.
    pub mem: Memory,
    /// Program counter, even-aligned by construction.
    pub pc: u16,
    /// Index register: the general memory pointer.
    pub ir: u16,
    /// The delay timer.
    pub dt: Timer60Hz,
    /// The sound timer value; tracked, never sounded.
    pub st: u8,
    /// The sixteen general-purpose registers; register 15 doubles as the
    /// carry/borrow/collision flag.
    pub registers: Vec<u8>,
    /// Milliseconds the host sleeps between cycles: a throttle, not part of
    /// the semantics.
    pub cycle_delay_ms: u64,
    /// Whether the engine has reached its terminal state.
    pub halted: bool,
}

/// The complete state relation of one cycle.  All ten components of the
/// post-state are listed for every opcode; `pre`'s scratch area and cycle
/// delay are never touched.
pub open spec fn post_state(
    pre: System,
    post: System,
    ram: Seq<u8>,
    stack: Seq<u16>,
    display: Seq<u8>,
    regs: Seq<u8>,
    pc: u16,
    ir: u16,
    dt: Timer60Hz,
    st: u8,
    halted: bool,
) -> bool {
    &&& post.mem.ram@ == ram
    &&& post.mem.stack@ == stack
    &&& post.mem.display@ == display
    &&& post.mem.scratch@ == pre.mem.scratch@
    &&& post.registers@ == regs
    &&& post.pc == pc
    &&& post.ir == ir
    &&& post.dt == dt
    &&& post.st == st
    &&& post.cycle_delay_ms == pre.cycle_delay_ms
    &&& post.halted == halted
}

/// What executing one cycle from `pre` does: the post-state, the returned
/// step or fault, and — for the two timer opcodes, whose outcome depends on
/// the wall clock — the elapsed-milliseconds sample `e` that was observed.
/// Every fault halts the engine and leaves the rest of the state as the
/// failed opcode found it.
pub open spec fn step_spec(pre: System, post: System, r: Result<Step, Fault>, e: u64) -> bool {
    let ram = pre.mem.ram@;
    let stk = pre.mem.stack@;
    let dsp = pre.mem.display@;
    let regs = pre.registers@;
    if pre.pc >= 4095 {
        &&& post_state(pre, post, ram, stk, dsp, regs, pre.pc, pre.ir, pre.dt, pre.st, true)
        &&& r == Err::<Step, Fault>(Fault::FetchOutOfRange { pc: pre.pc })
    } else {
        let w = word_at(ram, pre.pc);
        let pc2 = (pre.pc + 2) as u16;
        let x = x_of(w);
        let y = y_of(w);
        let n = n_of(w);
        let nn = nn_of(w);
        let nnn = nnn_of(w);
        let vx = regs[x];
        let vy = regs[y];
        if w == 0x00E0 {
            &&& post_state(
                pre,
                post,
                ram,
                stk,
                zero_seq(2048),
                regs,
                pc2,
                pre.ir,
                pre.dt,
                pre.st,
                pre.halted,
            )
            &&& r == Ok::<Step, Fault>(Step::DisplayUpdated)
        } else if w == 0x00EE {
            if stk.len() == 0 {
                &&& post_state(pre, post, ram, stk, dsp, regs, pc2, pre.ir, pre.dt, pre.st, true)
                &&& r == Err::<Step, Fault>(Fault::StackUnderflow { pc: pre.pc, raw: w })
            } else {
                &&& post_state(
                    pre,
                    post,
                    ram,
                    stk.drop_last(),
                    dsp,
                    regs,
                    stk.last(),
                    pre.ir,
                    pre.dt,
                    pre.st,
                    pre.halted,
                )
                &&& r == Ok::<Step, Fault>(Step::Normal)
            }
        } else if op_of(w) == 0 {
            &&& post_state(pre, post, ram, stk, dsp, regs, pc2, pre.ir, pre.dt, pre.st, true)
            &&& r == Ok::<Step, Fault>(Step::Halted)
        } else if op_of(w) == 1 {
            &&& post_state(pre, post, ram, stk, dsp, regs, nnn, pre.ir, pre.dt, pre.st, pre.halted)
            &&& r == Ok::<Step, Fault>(Step::Normal)
        } else if op_of(w) == 2 {
            &&& post_state(
                pre,
                post,
                ram,
                stk.push(pc2),
                dsp,
                regs,
                nnn,
                pre.ir,
                pre.dt,
                pre.st,
                pre.halted,
            )
            &&& r == Ok::<Step, Fault>(Step::Normal)
        } else if op_of(w) == 3 {
            &&& post_state(
                pre,
                post,
                ram,
                stk,
                dsp,
                regs,
                if vx == nn {
                    (pc2 + 2) as u16
                } else {
                    pc2
                },
                pre.ir,
                pre.dt,
                pre.st,
                pre.halted,
            )
            &&& r == Ok::<Step, Fault>(Step::Normal)
        } else if op_of(w) == 4 {
            &&& post_state(
                pre,
                post,
                ram,
                stk,
                dsp,
                regs,
                if vx != nn {
                    (pc2 + 2) as u16
                } else {
                    pc2
                },
                pre.ir,
                pre.dt,
                pre.st,
                pre.halted,
            )
            &&& r == Ok::<Step, Fault>(Step::Normal)
        } else if op_of(w) == 5 {
            if n == 0 {
                &&& post_state(
                    pre,
                    post,
                    ram,
                    stk,
                    dsp,
                    regs,
                    if vx == vy {
                        (pc2 + 2) as u16
                    } else {
                        pc2
                    },
                    pre.ir,
                    pre.dt,
                    pre.st,
                    pre.halted,
                )
                &&& r == Ok::<Step, Fault>(Step::Normal)
            } else {
                &&& post_state(pre, post, ram, stk, dsp, regs, pc2, pre.ir, pre.dt, pre.st, true)
                &&& r == Err::<Step, Fault>(Fault::UnknownOpcode { pc: pre.pc, raw: w })
            }
        } else if op_of(w) == 6 {
            &&& post_state(
                pre,
                post,
                ram,
                stk,
                dsp,
                regs.update(x, nn),
                pc2,
                pre.ir,
                pre.dt,
                pre.st,
                pre.halted,
            )
            &&& r == Ok::<Step, Fault>(Step::Normal)
        } else if op_of(w) == 7 {
            &&& post_state(
                pre,
                post,
                ram,
                stk,
                dsp,
                regs.update(x, wrap8(vx + nn)),
                pc2,
                pre.ir,
                pre.dt,
                pre.st,
                pre.halted,
            )
            &&& r == Ok::<Step, Fault>(Step::Normal)
        } else if op_of(w) == 8 {
            if n <= 7 || n == 0xE {
                &&& post_state(
                    pre,
                    post,
                    ram,
                    stk,
                    dsp,
                    alu_regs(regs, x, y, n),
                    pc2,
                    pre.ir,
                    pre.dt,
                    pre.st,
                    pre.halted,
                )
                &&& r == Ok::<Step, Fault>(Step::Normal)
            } else {
                &&& post_state(pre, post, ram, stk, dsp, regs, pc2, pre.ir, pre.dt, pre.st, true)
                &&& r == Err::<Step, Fault>(Fault::UnknownOpcode { pc: pre.pc, raw: w })
            }
        } else if op_of(w) == 9 {
            if n == 0 {
                &&& post_state(
                    pre,
                    post,
                    ram,
                    stk,
                    dsp,
                    regs,
                    if vx != vy {
                        (pc2 + 2) as u16
                    } else {
                        pc2
                    },
                    pre.ir,
                    pre.dt,
                    pre.st,
                    pre.halted,
                )
                &&& r == Ok::<Step, Fault>(Step::Normal)
            } else {
                &&& post_state(pre, post, ram, stk, dsp, regs, pc2, pre.ir, pre.dt, pre.st, true)
                &&& r == Err::<Step, Fault>(Fault::UnknownOpcode { pc: pre.pc, raw: w })
            }
        } else if op_of(w) == 0xA {
            &&& post_state(pre, post, ram, stk, dsp, regs, pc2, nnn, pre.dt, pre.st, pre.halted)
            &&& r == Ok::<Step, Fault>(Step::Normal)
        } else if op_of(w) == 0xB {
            &&& post_state(
                pre,
                post,
                ram,
                stk,
                dsp,
                regs,
                (nnn + regs[0]) as u16,
                pre.ir,
                pre.dt,
                pre.st,
                pre.halted,
            )
            &&& r == Ok::<Step, Fault>(Step::Normal)
        } else if op_of(w) == 0xC {
            &&& post_state(
                pre,
                post,
                ram,
                stk,
                dsp,
                regs.update(x, 255u8),
                pc2,
                pre.ir,
                pre.dt,
                pre.st,
                pre.halted,
            )
            &&& r == Ok::<Step, Fault>(Step::Normal)
        } else if op_of(w) == 0xD {
            if pre.ir as int + n > 4096 {
                &&& post_state(pre, post, ram, stk, dsp, regs, pc2, pre.ir, pre.dt, pre.st, true)
                &&& r == Err::<Step, Fault>(Fault::AddressOutOfRange { pc: pre.pc, raw: w })
            } else {
                let rows = ram.subrange(pre.ir as int, pre.ir as int + n);
                let col = collision(dsp, vx, vy, rows);
                &&& post_state(
                    pre,
                    post,
                    ram,
                    stk,
                    blit(dsp, vx, vy, rows),
                    regs.update(
                        15,
                        if col {
                            1u8
                        } else {
                            0u8
                        },
                    ),
                    pc2,
                    pre.ir,
                    pre.dt,
                    pre.st,
                    pre.halted,
                )
                &&& r == Ok::<Step, Fault>(Step::DisplayUpdated)
            }
        } else if op_of(w) == 0xE {
            if nn == 0x9E {
                &&& post_state(pre, post, ram, stk, dsp, regs, pc2, pre.ir, pre.dt, pre.st, pre.halted)
                &&& r == Ok::<Step, Fault>(Step::KeyScan { code: vx, expect_pressed: true })
            } else if nn == 0xA1 {
                &&& post_state(pre, post, ram, stk, dsp, regs, pc2, pre.ir, pre.dt, pre.st, pre.halted)
                &&& r == Ok::<Step, Fault>(Step::KeyScan { code: vx, expect_pressed: false })
            } else {
                &&& post_state(pre, post, ram, stk, dsp, regs, pc2, pre.ir, pre.dt, pre.st, true)
                &&& r == Err::<Step, Fault>(Fault::UnknownOpcode { pc: pre.pc, raw: w })
            }
        } else if w == 0xFFFF {
            &&& post_state(pre, post, ram, stk, dsp, regs, pc2, pre.ir, pre.dt, pre.st, true)
            &&& r == Ok::<Step, Fault>(Step::Halted)
        } else {
            if nn == 0x07 {
                &&& post_state(
                    pre,
                    post,
                    ram,
                    stk,
                    dsp,
                    regs.update(x, timer_read_value(pre.dt, e)),
                    pc2,
                    pre.ir,
                    timer_after_read(pre.dt, e),
                    pre.st,
                    pre.halted,
                )
                &&& r == Ok::<Step, Fault>(Step::Normal)
            } else if nn == 0x0A {
                &&& post_state(pre, post, ram, stk, dsp, regs, pc2, pre.ir, pre.dt, pre.st, pre.halted)
                &&& r == Ok::<Step, Fault>(Step::KeyWait { x: x as u8 })
            } else if nn == 0x15 {
                &&& post_state(
                    pre,
                    post,
                    ram,
                    stk,
                    dsp,
                    regs,
                    pc2,
                    pre.ir,
                    Timer60Hz { val: vx, t: Some(e), time_scale: pre.dt.time_scale },
                    pre.st,
                    pre.halted,
                )
                &&& r == Ok::<Step, Fault>(Step::Normal)
            } else if nn == 0x18 {
                &&& post_state(pre, post, ram, stk, dsp, regs, pc2, pre.ir, pre.dt, vx, pre.halted)
                &&& r == Ok::<Step, Fault>(Step::Normal)
            } else if nn == 0x1E {
                &&& post_state(
                    pre,
                    post,
                    ram,
                    stk,
                    dsp,
                    regs,
                    pc2,
                    wrap16(pre.ir + vx),
                    pre.dt,
                    pre.st,
                    pre.halted,
                )
                &&& r == Ok::<Step, Fault>(Step::Normal)
            } else if nn == 0x29 {
                &&& post_state(
                    pre,
                    post,
                    ram,
                    stk,
                    dsp,
                    regs,
                    pc2,
                    (vx as int % 16 * 5) as u16,
                    pre.dt,
                    pre.st,
                    pre.halted,
                )
                &&& r == Ok::<Step, Fault>(Step::Normal)
            } else if nn == 0x33 {
                if pre.ir as int + 2 >= 4096 {
                    &&& post_state(pre, post, ram, stk, dsp, regs, pc2, pre.ir, pre.dt, pre.st, true)
                    &&& r == Err::<Step, Fault>(Fault::AddressOutOfRange { pc: pre.pc, raw: w })
                } else {
                    &&& post_state(
                        pre,
                        post,
                        ram.update(pre.ir as int + 2, vx % 10).update(
                            pre.ir as int + 1,
                            vx / 10 % 10,
                        ).update(pre.ir as int, vx / 10 / 10),
                        stk,
                        dsp,
                        regs,
                        pc2,
                        pre.ir,
                        pre.dt,
                        pre.st,
                        pre.halted,
                    )
                    &&& r == Ok::<Step, Fault>(Step::Normal)
                }
            } else if nn == 0x55 {
                if pre.ir as int + x >= 4096 {
                    &&& post_state(pre, post, ram, stk, dsp, regs, pc2, pre.ir, pre.dt, pre.st, true)
                    &&& r == Err::<Step, Fault>(Fault::AddressOutOfRange { pc: pre.pc, raw: w })
                } else {
                    &&& post_state(
                        pre,
                        post,
                        stored_regs(ram, pre.ir as int, regs, x),
                        stk,
                        dsp,
                        regs,
                        pc2,
                        (pre.ir + x + 1) as u16,
                        pre.dt,
                        pre.st,
                        pre.halted,
                    )
                    &&& r == Ok::<Step, Fault>(Step::Normal)
                }
            } else if nn == 0x65 {
                if pre.ir as int + x >= 4096 {
                    &&& post_state(pre, post, ram, stk, dsp, regs, pc2, pre.ir, pre.dt, pre.st, true)
                    &&& r == Err::<Step, Fault>(Fault::AddressOutOfRange { pc: pre.pc, raw: w })
                } else {
                    &&& post_state(
                        pre,
                        post,
                        ram,
                        stk,
                        dsp,
                        loaded_regs(regs, ram, pre.ir as int, x),
                        pc2,
                        (pre.ir + x + 1) as u16,
                        pre.dt,
                        pre.st,
                        pre.halted,
                    )
                    &&& r == Ok::<Step, Fault>(Step::Normal)
                }
            } else {
                &&& post_state(pre, post, ram, stk, dsp, regs, pc2, pre.ir, pre.dt, pre.st, true)
                &&& r == Err::<Step, Fault>(Fault::UnknownOpcode { pc: pre.pc, raw: w })
            }
        }
    }
}

/// Literal loads: after `6xnn`, register `x` holds exactly `nn` and the
/// program counter advanced by exactly 2.
pub proof fn lemma_load_literal(pre: System, post: System, r: Result<Step, Fault>, e: u64)
    requires
        pre.wf(),
        pre.pc < 4095,
        op_of(word_at(pre.mem.ram@, pre.pc)) == 6,
        step_spec(pre, post, r, e),
    ensures
        ({
            let w = word_at(pre.mem.ram@, pre.pc);
            &&& post.registers@ == pre.registers@.update(x_of(w), nn_of(w))
            &&& post.registers@[x_of(w)] == nn_of(w)
            &&& post.pc == pre.pc + 2
            &&& r == Ok::<Step, Fault>(Step::Normal)
        }),
{
}

/// Add-literal wraps silently: after `7xnn`, register `x` holds the sum
/// modulo 256 and no other register — the flag register included — is
/// touched.
pub proof fn lemma_add_literal_wraps(pre: System, post: System, r: Result<Step, Fault>, e: u64)
    requires
        pre.wf(),
        pre.pc < 4095,
        op_of(word_at(pre.mem.ram@, pre.pc)) == 7,
        step_spec(pre, post, r, e),
    ensures
        ({
            let w = word_at(pre.mem.ram@, pre.pc);
            let x = x_of(w);
            &&& post.registers@[x] == wrap8(pre.registers@[x] + nn_of(w))
            &&& forall|j: int| 0 <= j < 16 && j != x ==> post.registers@[j] == pre.registers@[j]
            &&& post.pc == pre.pc + 2
            &&& r == Ok::<Step, Fault>(Step::Normal)
        }),
{
}

/// ADD with carry: after `8xy4`, the flag register holds 1 exactly when the
/// unsigned sum of the two operands exceeds 255, and the result register —
/// when it is not the flag itself, which is written last — holds the
/// truncated sum.
pub proof fn lemma_alu_add_carry(pre: System, post: System, r: Result<Step, Fault>, e: u64)
    requires
        pre.wf(),
        pre.pc < 4095,
        op_of(word_at(pre.mem.ram@, pre.pc)) == 8,
        n_of(word_at(pre.mem.ram@, pre.pc)) == 4,
        step_spec(pre, post, r, e),
    ensures
        ({
            let w = word_at(pre.mem.ram@, pre.pc);
            let vx = pre.registers@[x_of(w)];
            let vy = pre.registers@[y_of(w)];
            &&& post.registers@[15] == (if vx + vy > 255 {
                1u8
            } else {
                0u8
            })
            &&& x_of(w) != 15 ==> post.registers@[x_of(w)] == wrap8(vx + vy)
            &&& post.pc == pre.pc + 2
            &&& r == Ok::<Step, Fault>(Step::Normal)
        }),
{
}

/// SUB and SUBN borrow: after `8xy5` or `8xy7`, the flag register holds 1
/// exactly when no borrow occurred — the minuend is at least the subtrahend
/// — and the result register, when it is not the flag itself, holds the
/// wrapped difference.
pub proof fn lemma_alu_sub_borrow(pre: System, post: System, r: Result<Step, Fault>, e: u64)
    requires
        pre.wf(),
        pre.pc < 4095,
        op_of(word_at(pre.mem.ram@, pre.pc)) == 8,
        n_of(word_at(pre.mem.ram@, pre.pc)) == 5 || n_of(word_at(pre.mem.ram@, pre.pc)) == 7,
        step_spec(pre, post, r, e),
    ensures
        ({
            let w = word_at(pre.mem.ram@, pre.pc);
            let vx = pre.registers@[x_of(w)];
            let vy = pre.registers@[y_of(w)];
            let minuend = if n_of(w) == 5 {
                vx
            } else {
                vy
            };
            let subtrahend = if n_of(w) == 5 {
                vy
            } else {
                vx
            };
            &&& post.registers@[15] == (if minuend >= subtrahend {
                1u8
            } else {
                0u8
            })
            &&& x_of(w) != 15 ==> post.registers@[x_of(w)] == wrap8(minuend - subtrahend)
            &&& post.pc == pre.pc + 2
            &&& r == Ok::<Step, Fault>(Step::Normal)
        }),
{
}

/// Call/return round trip: `2nnn` pushes the address of the instruction that
/// follows it; a later `00EE` executed with that same stack restores the
/// program counter to exactly that address and pops the stack back — at any
/// nesting depth, since only the stack at return time matters.
pub proof fn lemma_call_return_round_trip(
    s0: System,
    s1: System,
    r1: Result<Step, Fault>,
    e1: u64,
    s2: System,
    s3: System,
    r2: Result<Step, Fault>,
    e2: u64,
)
    requires
        s0.wf(),
        s0.pc < 4095,
        op_of(word_at(s0.mem.ram@, s0.pc)) == 2,
        step_spec(s0, s1, r1, e1),
        s2.wf(),
        s2.pc < 4095,
        word_at(s2.mem.ram@, s2.pc) == 0x00EE,
        s2.mem.stack@ == s1.mem.stack@,
        step_spec(s2, s3, r2, e2),
    ensures
        s1.mem.stack@ == s0.mem.stack@.push((s0.pc + 2) as u16),
        s1.pc == nnn_of(word_at(s0.mem.ram@, s0.pc)),
        r1 == Ok::<Step, Fault>(Step::Normal),
        r2 == Ok::<Step, Fault>(Step::Normal),
        s3.pc == s0.pc + 2,
        s3.mem.stack@ == s0.mem.stack@,
{
    assert(s1.mem.stack@.len() > 0);
    assert(s2.mem.stack@.last() == (s0.pc + 2) as u16);
    assert(s3.mem.stack@ =~= s0.mem.stack@);
}

impl System {
    /// The structural invariant: a well-formed memory, sixteen registers,
    /// and a well-formed delay timer.
    pub open spec fn wf(&self) -> bool {
        &&& self.mem.wf()
        &&& self.registers@.len() == 16
        &&& self.dt.wf()
    }

    /// A fresh machine: font seeded, program counter at 0x200, and the delay
    /// timer's mutating reads slowed down by half the cycle delay.
    pub fn new(delay: u64) -> (r: Self)
        requires
            delay >= 2,
        ensures
            r.wf(),
            r.mem.ram@ == fresh_ram(),
            r.mem.stack@ == Seq::<u16>::empty(),
            r.mem.display@ == zero_seq(2048),
            r.mem.scratch@ == zero_seq(32),
            r.pc == 0x200,
            r.ir == 0,
            r.st == 0,
            r.halted == false,
            r.registers@ == zero_seq(16),
            r.dt.val == 0,
            r.dt.t is None,
            r.dt.time_scale == delay / 2,
            r.cycle_delay_ms == delay,
    {
        Self {
            mem: Memory::new(),
            pc: 0x200,
            ir: 0,
            dt: Timer60Hz::with_time_scale(delay / 2),
            st: 0,
            registers: zero_bytes(16),
            cycle_delay_ms: delay,
            halted: false,
        }
    }

    /// The register `rp` holds.
    pub fn read_register(&self, rp: u8) -> (r: u8)
        requires
            self.wf(),
            rp <= 0xF,
        ensures
            r == self.registers@[rp as int],
    {
        self.registers[rp as usize]
    }

    /// Stores `value` into register `rp`.
    pub fn write_register(&mut self, rp: u8, value: u8)
        requires
            old(self).wf(),
            rp <= 0xF,
        ensures
            final(self).wf(),
            post_state(
                *old(self),
                *final(self),
                old(self).mem.ram@,
                old(self).mem.stack@,
                old(self).mem.display@,
                old(self).registers@.update(rp as int, value),
                old(self).pc,
                old(self).ir,
                old(self).dt,
                old(self).st,
                old(self).halted,
            ),
    {
        self.registers[rp as usize] = value;
    }

    /// Returns registers, pointers and timers to their cold-start values and
    /// puts the engine back into its running state; the memory is left alone.
    fn reset(&mut self)
        requires
            old(self).wf(),
        ensures
            final(self).wf(),
            final(self).mem.ram@ == old(self).mem.ram@,
            final(self).mem.stack@ == old(self).mem.stack@,
            final(self).mem.display@ == old(self).mem.display@,
            final(self).mem.scratch@ == old(self).mem.scratch@,
            final(self).pc == 0x200,
            final(self).ir == 0,
            final(self).st == 0,
            final(self).registers@ == zero_seq(16),
            final(self).dt == (Timer60Hz { val: 0u8, t: None::<u64>, time_scale: 1u64 }),
            final(self).cycle_delay_ms == old(self).cycle_delay_ms,
            final(self).halted == false,
    {
        self.pc = 0x200;
        self.ir = 0;
        self.dt = Timer60Hz::new();
        self.st = 0;
        self.registers = zero_bytes(16);
        self.halted = false;
    }

    /// Puts the engine into its terminal halted state.
    pub fn halt(&mut self)
        ensures
            final(self).wf() == old(self).wf(),
            post_state(
                *old(self),
                *final(self),
                old(self).mem.ram@,
                old(self).mem.stack@,
                old(self).mem.display@,
                old(self).registers@,
                old(self).pc,
                old(self).ir,
                old(self).dt,
                old(self).st,
                true,
            ),
    {
        self.halted = true;
    }

    /// Loads a ROM: a cold reset of memory with `data` at 0x200, every
    /// register, pointer and timer returned to its starting value, and the
    /// engine in its running state.
    pub fn load_rom(&mut self, data: &[u8])
        requires
            old(self).wf(),
            data@.len() <= 0xE00,
        ensures
            final(self).wf(),
            final(self).mem.ram@ == reloaded_ram(old(self).mem.ram@, data@),
            final(self).mem.stack@ == Seq::<u16>::empty(),
            final(self).mem.display@ == zero_seq(2048),
            final(self).mem.scratch@ == zero_seq(32),
            final(self).pc == 0x200,
            final(self).ir == 0,
            final(self).st == 0,
            final(self).registers@ == zero_seq(16),
            final(self).dt == (Timer60Hz { val: 0u8, t: None::<u64>, time_scale: 1u64 }),
            final(self).cycle_delay_ms == old(self).cycle_delay_ms,
            final(self).halted == false,
    {
        self.mem.reload(data);
        self.reset();
    }

    /// Fetches and decodes the word at the program counter: the raw word,
    /// its four nibbles, and the shared operand fields.  Stateless: callable
    /// repeatedly without mutation, by the engine and by external debuggers
    /// alike.
    pub fn read_decode(&self) -> (r: (u16, (u8, u8, u8, u8), InstHelper))
        requires
            self.wf(),
            self.pc < 4095,
        ensures
            ({
                let w = word_at(self.mem.ram@, self.pc);
                &&& r.0 == w
                &&& r.1.0 == op_of(w)
                &&& r.1.1 == x_of(w)
                &&& r.1.2 == y_of(w)
                &&& r.1.3 == n_of(w)
                &&& r.2.nnn == nnn_of(w)
                &&& r.2.nn == nn_of(w)
                &&& r.2.x == x_of(w)
                &&& r.2.y == y_of(w)
            }),
    {
        let instruction: u16 = self.mem.read_u16(self.pc);
        proof {
            assert((instruction & 0xF000) >> 12 == instruction / 0x1000) by (bit_vector);
            assert((instruction & 0x0F00) >> 8 == instruction / 0x100 % 16) by (bit_vector);
            assert((instruction & 0x00F0) >> 4 == instruction / 0x10 % 16) by (bit_vector);
            assert(instruction & 0x000F == instruction % 16) by (bit_vector);
            assert(instruction & 0x0FFF == instruction % 0x1000) by (bit_vector);
            assert(instruction & 0x00FF == instruction % 0x100) by (bit_vector);
        }
        let decoded = (
            ((instruction & 0xF000) >> 12) as u8,
            ((instruction & 0x0F00) >> 8) as u8,
            ((instruction & 0x00F0) >> 4) as u8,
            (instruction & 0x000F) as u8,
        );
        let helper = InstHelper {
            nnn: instruction & 0x0FFF,
            nn: (instruction & 0x00FF) as u8,
            x: ((instruction & 0x0F00) >> 8) as usize,
            y: ((instruction & 0x00F0) >> 4) as usize,
        };
        (instruction, decoded, helper)
    }

    /// Applies the host's answer to a pending `Step::KeyScan`: the skip is
    /// taken exactly when the observed key state matches the expectation.
    pub fn resolve_key_scan(&mut self, pressed: bool, expect_pressed: bool)
        requires
            old(self).wf(),
            old(self).pc <= 0xFFFD,
        ensures
            final(self).wf(),
            post_state(
                *old(self),
                *final(self),
                old(self).mem.ram@,
                old(self).mem.stack@,
                old(self).mem.display@,
                old(self).registers@,
                if pressed == expect_pressed {
                    (old(self).pc + 2) as u16
                } else {
                    old(self).pc
                },
                old(self).ir,
                old(self).dt,
                old(self).st,
                old(self).halted,
            ),
    {
        if pressed == expect_pressed {
            self.pc = self.pc + 2;
        }
    }

    /// Executes one cycle: fetch, advance the program counter by two,
    /// dispatch.  Returns what the cycle asks of the host, or the fault that
    /// halted the engine.
    #[verifier::rlimit(100)]
    pub fn execute(&mut self) -> (r: Result<Step, Fault>)
        requires
            old(self).wf(),
        ensures
            final(self).wf(),
            exists|e: u64| #[trigger] step_spec(*old(self), *final(self), r, e),
    {
        if self.pc >= 4095 {
            self.halted = true;
            let res: Result<Step, Fault> = Err(Fault::FetchOutOfRange { pc: self.pc });
            proof {
                assert(step_spec(*old(self), *self, res, 0));
            }
            return res;
        }
        let pc0: u16 = self.pc;
        let (raw, decoded, helper) = self.read_decode();
        proof {
            lemma_word_decompose(raw);
        }
        self.pc = pc0 + 2;
        let x: usize = helper.x;
        let y: usize = helper.y;
        match decoded.0 {
            0 => {
                if raw == 0x00E0 {
                    self.mem.clear_display();
                    let res: Result<Step, Fault> = Ok(Step::DisplayUpdated);
                    proof {
                        assert(step_spec(*old(self), *self, res, 0));
                    }
                    res
                } else if raw == 0x00EE {
                    if self.mem.stack.len() == 0 {
                        self.halted = true;
                        let res: Result<Step, Fault> = Err(
                            Fault::StackUnderflow { pc: pc0, raw },
                        );
                        proof {
                            assert(step_spec(*old(self), *self, res, 0));
                        }
                        res
                    } else {
                        let popped = self.mem.stack.pop();
                        match popped {
                            Some(addr) => {
                                self.pc = addr;
                                let res: Result<Step, Fault> = Ok(Step::Normal);
                                proof {
                                    assert(self.mem.stack@ =~= old(self).mem.stack@.drop_last());
                                    assert(step_spec(*old(self), *self, res, 0));
                                }
                                res
                            },
                            None => {
                                proof {
                                    assert(false);
                                }
                                Ok(Step::Normal)
                            },
                        }
                    }
                } else {
                    self.halted = true;
                    let res: Result<Step, Fault> = Ok(Step::Halted);
                    proof {
                        assert(step_spec(*old(self), *self, res, 0));
                    }
                    res
                }
            },
            1 => {
                self.pc = helper.nnn;
                let res: Result<Step, Fault> = Ok(Step::Normal);
                proof {
                    assert(step_spec(*old(self), *self, res, 0));
                }
                res
            },
            2 => {
                self.mem.stack.push(self.pc);
                self.pc = helper.nnn;
                let res: Result<Step, Fault> = Ok(Step::Normal);
                proof {
                    assert(step_spec(*old(self), *self, res, 0));
                }
                res
            },
            3 => {
                if self.registers[x] == helper.nn {
                    self.pc = self.pc + 2;
                }
                let res: Result<Step, Fault> = Ok(Step::Normal);
                proof {
                    assert(step_spec(*old(self), *self, res, 0));
                }
                res
            },
            4 => {
                if self.registers[x] != helper.nn {
                    self.pc = self.pc + 2;
                }
                let res: Result<Step, Fault> = Ok(Step::Normal);
                proof {
                    assert(step_spec(*old(self), *self, res, 0));
                }
                res
            },
            5 => {
                if decoded.3 == 0 {
                    if self.registers[x] == self.registers[y] {
                        self.pc = self.pc + 2;
                    }
                    let res: Result<Step, Fault> = Ok(Step::Normal);
                    proof {
                        assert(step_spec(*old(self), *self, res, 0));
                    }
                    res
                } else {
                    self.halted = true;
                    let res: Result<Step, Fault> = Err(Fault::UnknownOpcode { pc: pc0, raw });
                    proof {
                        assert(step_spec(*old(self), *self, res, 0));
                    }
                    res
                }
            },
            6 => {
                self.registers[x] = helper.nn;
                let res: Result<Step, Fault> = Ok(Step::Normal);
                proof {
                    assert(step_spec(*old(self), *self, res, 0));
                }
                res
            },
            7 => {
                let sum: u16 = self.registers[x] as u16 + helper.nn as u16;
                self.registers[x] = (sum % 256) as u8;
                let res: Result<Step, Fault> = Ok(Step::Normal);
                proof {
                    assert(step_spec(*old(self), *self, res, 0));
                }
                res
            },
            8 => {
                let n: u8 = decoded.3;
                if n == 0 {
                    let vy: u8 = self.registers[y];
                    self.registers[x] = vy;
                } else if n == 1 {
                    let v: u8 = self.registers[x] | self.registers[y];
                    self.registers[x] = v;
                } else if n == 2 {
                    let v: u8 = self.registers[x] & self.registers[y];
                    self.registers[x] = v;
                } else if n == 3 {
                    let v: u8 = self.registers[x] ^ self.registers[y];
                    self.registers[x] = v;
                } else if n == 4 {
                    let sum: u16 = self.registers[x] as u16 + self.registers[y] as u16;
                    self.registers[x] = (sum % 256) as u8;
                    self.registers[15] = if sum > 255 {
                        1
                    } else {
                        0
                    };
                } else if n == 5 {
                    let vx: u8 = self.registers[x];
                    let vy: u8 = self.registers[y];
                    let diff: u8 = if vx >= vy {
                        vx - vy
                    } else {
                        (vx as u16 + 256 - vy as u16) as u8
                    };
                    self.registers[x] = diff;
                    self.registers[15] = if vx >= vy {
                        1
                    } else {
                        0
                    };
                } else if n == 6 {
                    let vy: u8 = self.registers[y];
                    self.registers[x] = vy / 2;
                    self.registers[15] = vy % 2;
                } else if n == 7 {
                    let vx: u8 = self.registers[x];
                    let vy: u8 = self.registers[y];
                    let diff: u8 = if vy >= vx {
                        vy - vx
                    } else {
                        (vy as u16 + 256 - vx as u16) as u8
                    };
                    self.registers[x] = diff;
                    self.registers[15] = if vy >= vx {
                        1
                    } else {
                        0
                    };
                } else if n == 0xE {
                    let vy: u8 = self.registers[y];
                    let dbl: u16 = vy as u16 * 2;
                    self.registers[x] = (dbl % 256) as u8;
                    self.registers[15] = vy / 128;
                } else {
                    self.halted = true;
                    let res: Result<Step, Fault> = Err(Fault::UnknownOpcode { pc: pc0, raw });
                    proof {
                        assert(step_spec(*old(self), *self, res, 0));
                    }
                    return res;
                }
                let res: Result<Step, Fault> = Ok(Step::Normal);
                proof {
                    assert(step_spec(*old(self), *self, res, 0));
                }
                res
            },
            9 => {
                if decoded.3 == 0 {
                    if self.registers[x] != self.registers[y] {
                        self.pc = self.pc + 2;
                    }
                    let res: Result<Step, Fault> = Ok(Step::Normal);
                    proof {
                        assert(step_spec(*old(self), *self, res, 0));
                    }
                    res
                } else {
                    self.halted = true;
                    let res: Result<Step, Fault> = Err(Fault::UnknownOpcode { pc: pc0, raw });
                    proof {
                        assert(step_spec(*old(self), *self, res, 0));
                    }
                    res
                }
            },
            0xA => {
                self.ir = helper.nnn;
                let res: Result<Step, Fault> = Ok(Step::Normal);
                proof {
                    assert(step_spec(*old(self), *self, res, 0));
                }
                res
            },
            0xB => {
                self.pc = helper.nnn + self.registers[0] as u16;
                let res: Result<Step, Fault> = Ok(Step::Normal);
                proof {
                    assert(step_spec(*old(self), *self, res, 0));
                }
                res
            },
            0xC => {
                self.registers[x] = 255;
                let res: Result<Step, Fault> = Ok(Step::Normal);
                proof {
                    assert(step_spec(*old(self), *self, res, 0));
                }
                res
            },
            0xD => {
                let n16: u16 = decoded.3 as u16;
                if self.ir > 4096 - n16 {
                    self.halted = true;
                    let res: Result<Step, Fault> = Err(Fault::AddressOutOfRange { pc: pc0, raw });
                    proof {
                        assert(step_spec(*old(self), *self, res, 0));
                    }
                    res
                } else {
                    let mut buf: Vec<u8> = Vec::new();
                    let mut i: u16 = 0;
                    while i < n16
                        invariant
                            i <= n16,
                            n16 <= 15,
                            self.wf(),
                            self.ir + n16 <= 4096,
                            buf@ == self.mem.ram@.subrange(
                                self.ir as int,
                                self.ir as int + i as int,
                            ),
                        decreases n16 - i,
                    {
                        let b: u8 = self.mem.read_u8(self.ir + i);
                        buf.push(b);
                        proof {
                            assert(buf@ =~= self.mem.ram@.subrange(
                                self.ir as int,
                                self.ir as int + i as int + 1,
                            ));
                        }
                        i += 1;
                    }
                    let vx: u8 = self.registers[x];
                    let vy: u8 = self.registers[y];
                    let col: bool = self.mem.write_sprite(vx, vy, buf.as_slice());
                    self.registers[15] = if col {
                        1
                    } else {
                        0
                    };
                    let res: Result<Step, Fault> = Ok(Step::DisplayUpdated);
                    proof {
                        assert(step_spec(*old(self), *self, res, 0));
                    }
                    res
                }
            },
            0xE => {
                let code: u8 = self.registers[x];
                if helper.nn == 0x9E {
                    let res: Result<Step, Fault> = Ok(
                        Step::KeyScan { code, expect_pressed: true },
                    );
                    proof {
                        assert(step_spec(*old(self), *self, res, 0));
                    }
                    res
                } else if helper.nn == 0xA1 {
                    let res: Result<Step, Fault> = Ok(
                        Step::KeyScan { code, expect_pressed: false },
                    );
                    proof {
                        assert(step_spec(*old(self), *self, res, 0));
                    }
                    res
                } else {
                    self.halted = true;
                    let res: Result<Step, Fault> = Err(Fault::UnknownOpcode { pc: pc0, raw });
                    proof {
                        assert(step_spec(*old(self), *self, res, 0));
                    }
                    res
                }
            },
            _ => {
                if raw == 0xFFFF {
                    self.halted = true;
                    let res: Result<Step, Fault> = Ok(Step::Halted);
                    proof {
                        assert(step_spec(*old(self), *self, res, 0));
                    }
                    res
                } else if helper.nn == 0x07 {
                    let ghost dt0 = self.dt;
                    let v: u8 = self.dt.get();
                    self.registers[x] = v;
                    let res: Result<Step, Fault> = Ok(Step::Normal);
                    proof {
                        let e0 = choose|e: u64|
                            v == timer_read_value(dt0, e) && self.dt == timer_after_read(dt0, e);
                        assert(step_spec(*old(self), *self, res, e0));
                    }
                    res
                } else if helper.nn == 0x0A {
                    let res: Result<Step, Fault> = Ok(Step::KeyWait { x: x as u8 });
                    proof {
                        assert(step_spec(*old(self), *self, res, 0));
                    }
                    res
                } else if helper.nn == 0x15 {
                    let vx: u8 = self.registers[x];
                    self.dt.set(vx);
                    let res: Result<Step, Fault> = Ok(Step::Normal);
                    proof {
                        match self.dt.t {
                            Some(n0) => {
                                assert(self.dt == (Timer60Hz {
                                    val: vx,
                                    t: Some(n0),
                                    time_scale: old(self).dt.time_scale,
                                }));
                                assert(step_spec(*old(self), *self, res, n0));
                            },
                            None => {
                                assert(false);
                            },
                        }
                    }
                    res
                } else if helper.nn == 0x18 {
                    let vx: u8 = self.registers[x];
                    self.st = vx;
                    let res: Result<Step, Fault> = Ok(Step::Normal);
                    proof {
                        assert(step_spec(*old(self), *self, res, 0));
                    }
                    res
                } else if helper.nn == 0x1E {
                    let s: u32 = self.ir as u32 + self.registers[x] as u32;
                    self.ir = (s % 0x10000) as u16;
                    let res: Result<Step, Fault> = Ok(Step::Normal);
                    proof {
                        assert(step_spec(*old(self), *self, res, 0));
                    }
                    res
                } else if helper.nn == 0x29 {
                    let vx: u8 = self.registers[x];
                    self.ir = (vx % 16) as u16 * 5;
                    let res: Result<Step, Fault> = Ok(Step::Normal);
                    proof {
                        assert(step_spec(*old(self), *self, res, 0));
                    }
                    res
                } else if helper.nn == 0x33 {
                    if self.ir > 4093 {
                        self.halted = true;
                        let res: Result<Step, Fault> = Err(
                            Fault::AddressOutOfRange { pc: pc0, raw },
                        );
                        proof {
                            assert(step_spec(*old(self), *self, res, 0));
                        }
                        res
                    } else {
                        let vx: u8 = self.registers[x];
                        self.mem.write_u8(self.ir + 2, vx % 10);
                        self.mem.write_u8(self.ir + 1, vx / 10 % 10);
                        self.mem.write_u8(self.ir, vx / 10 / 10);
                        let res: Result<Step, Fault> = Ok(Step::Normal);
                        proof {
                            assert(step_spec(*old(self), *self, res, 0));
                        }
                        res
                    }
                } else if helper.nn == 0x55 {
                    if self.ir > 4095 - (x as u16) {
                        self.halted = true;
                        let res: Result<Step, Fault> = Err(
                            Fault::AddressOutOfRange { pc: pc0, raw },
                        );
                        proof {
                            assert(step_spec(*old(self), *self, res, 0));
                        }
                        res
                    } else {
                        let ghost s0 = *self;
                        let mut i: usize = 0;
                        while i <= x
                            invariant
                                i <= x + 1,
                                x < 16,
                                s0.ir as int + x < 4096,
                                self.wf(),
                                self.mem.ram@.len() == 4096,
                                self.pc == s0.pc,
                                self.ir == s0.ir,
                                self.registers@ == s0.registers@,
                                self.dt == s0.dt,
                                self.st == s0.st,
                                self.halted == s0.halted,
                                self.cycle_delay_ms == s0.cycle_delay_ms,
                                self.mem.stack@ == s0.mem.stack@,
                                self.mem.display@ == s0.mem.display@,
                                self.mem.scratch@ == s0.mem.scratch@,
                                forall|j: int|
                                    0 <= j < i ==> self.mem.ram@[s0.ir + j] == s0.registers@[j],
                                forall|j: int|
                                    0 <= j < 4096 && !(s0.ir <= j < s0.ir + i)
                                        ==> self.mem.ram@[j] == s0.mem.ram@[j],
                            decreases x + 1 - i,
                        {
                            let v: u8 = self.registers[i];
                            self.mem.write_u8(self.ir + i as u16, v);
                            i += 1;
                        }
                        proof {
                            assert(self.mem.ram@ =~= stored_regs(
                                s0.mem.ram@,
                                s0.ir as int,
                                s0.registers@,
                                x as int,
                            ));
                        }
                        self.ir = self.ir + x as u16 + 1;
                        let res: Result<Step, Fault> = Ok(Step::Normal);
                        proof {
                            assert(step_spec(*old(self), *self, res, 0));
                        }
                        res
                    }
                } else if helper.nn == 0x65 {
                    if self.ir > 4095 - (x as u16) {
                        self.halted = true;
                        let res: Result<Step, Fault> = Err(
                            Fault::AddressOutOfRange { pc: pc0, raw },
                        );
                        proof {
                            assert(step_spec(*old(self), *self, res, 0));
                        }
                        res
                    } else {
                        let ghost s0 = *self;
                        let mut i: usize = 0;
                        while i <= x
                            invariant
                                i <= x + 1,
                                x < 16,
                                s0.ir as int + x < 4096,
                                self.wf(),
                                self.pc == s0.pc,
                                self.ir == s0.ir,
                                self.dt == s0.dt,
                                self.st == s0.st,
                                self.halted == s0.halted,
                                self.cycle_delay_ms == s0.cycle_delay_ms,
                                self.mem.ram@ == s0.mem.ram@,
                                self.mem.stack@ == s0.mem.stack@,
                                self.mem.display@ == s0.mem.display@,
                                self.mem.scratch@ == s0.mem.scratch@,
                                self.registers@.len() == 16,
                                forall|j: int|
                                    0 <= j < i ==> self.registers@[j] == s0.mem.ram@[s0.ir + j],
                                forall|j: int|
                                    i <= j < 16 ==> self.registers@[j] == s0.registers@[j],
                            decreases x + 1 - i,
                        {
                            let b: u8 = self.mem.read_u8(self.ir + i as u16);
                            self.registers[i] = b;
                            i += 1;
                        }
                        proof {
                            assert(self.registers@ =~= loaded_regs(
                                s0.registers@,
                                s0.mem.ram@,
                                s0.ir as int,
                                x as int,
                            ));
                        }
                        self.ir = self.ir + x as u16 + 1;
                        let res: Result<Step, Fault> = Ok(Step::Normal);
                        proof {
                            assert(step_spec(*old(self), *self, res, 0));
                        }
                        res
                    }
                } else {
                    self.halted = true;
                    let res: Result<Step, Fault> = Err(Fault::UnknownOpcode { pc: pc0, raw });
                    proof {
                        assert(step_spec(*old(self), *self, res, 0));
                    }
                    res
                }
            },
        }
    }
}

} // verus!
