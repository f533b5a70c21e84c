//! The laws of the instruction set that relate several operations or
//! quantify over all inputs, proved against the semantics in `semantics`
//! and `draw`.

use vstd::prelude::*;

use vstd::arithmetic::div_mod::{lemma_fundamental_div_mod, lemma_fundamental_div_mod_converse};

use crate::semantics::{
    first_held, lemma_first_held_prefix, op_addr, op_family, op_n, op_nn, op_x, op_y,
    spec_exec_opcode, spec_tick,
};
use crate::state::{Model, StepResult};

verus! {

/// Decoding an instruction word assembled from a family nibble, a
/// register-index nibble and a low byte recovers each field.
proof fn lemma_decode(fam: u16, x: u16, nn: u16)
    requires
        fam < 16,
        x < 16,
        nn < 256,
    ensures
        ({
            let op = (fam * 0x1000 + x * 0x100 + nn) as u16;
            &&& op_family(op) == fam
            &&& op_x(op) == x
            &&& op_nn(op) == nn
            &&& op_addr(op) == x * 0x100 + nn
            &&& op_n(op) == nn % 16
            &&& op_y(op) == nn as int / 16
        }),
{
    let opi = fam as int * 4096 + x as int * 256 + nn as int;
    lemma_fundamental_div_mod_converse(opi, 4096, fam as int, x as int * 256 + nn as int);
    lemma_fundamental_div_mod_converse(opi, 256, fam as int * 16 + x as int, nn as int);
    lemma_fundamental_div_mod_converse(fam as int * 16 + x as int, 16, fam as int, x as int);
    lemma_fundamental_div_mod(nn as int, 16);
    assert(nn as int / 16 < 16) by (nonlinear_arith)
        requires
            nn < 256,
    ;
    lemma_fundamental_div_mod_converse(
        opi,
        16,
        fam as int * 256 + x as int * 16 + nn as int / 16,
        nn as int % 16,
    );
    lemma_fundamental_div_mod_converse(
        fam as int * 256 + x as int * 16 + nn as int / 16,
        16,
        fam as int * 16 + x as int,
        nn as int / 16,
    );
}

/// For every register X and immediate N: executing the load-immediate
/// opcode `6XNN` leaves exactly N in VX, touches nothing else, and
/// continues.
pub proof fn lemma_load_immediate_reads_back(
    m: Model,
    d: Seq<bool>,
    keys: Seq<bool>,
    rnd: u8,
    x: u16,
    nn: u8,
)
    requires
        m.wf(),
        x < 16,
    ensures
        ({
            let op = (0x6000 + x * 0x100 + nn) as u16;
            let out = spec_exec_opcode(m, d, op, keys, rnd);
            &&& out.0.v[x as int] == nn
            &&& out.0 == (Model { v: m.v.update(x as int, nn), ..m })
            &&& out.1 == d
            &&& out.2 == StepResult::Continued
        }),
{
    lemma_decode(6, x, nn as u16);
}

/// For every register X and immediate N: add-immediate (`7XNN`) wraps
/// modulo 256 and, for X other than the flag register, leaves VF alone.
pub proof fn lemma_add_immediate_wraps(
    m: Model,
    d: Seq<bool>,
    keys: Seq<bool>,
    rnd: u8,
    x: u16,
    nn: u8,
)
    requires
        m.wf(),
        x < 16,
    ensures
        ({
            let op = (0x7000 + x * 0x100 + nn) as u16;
            let out = spec_exec_opcode(m, d, op, keys, rnd);
            &&& out.0.v[x as int] == (m.v[x as int] + nn) % 256
            &&& x != 15 ==> out.0.v[15] == m.v[15]
            &&& out.0.pc == m.pc
            &&& out.1 == d
            &&& out.2 == StepResult::Continued
        }),
{
    lemma_decode(7, x, nn as u16);
}

/// Shift-right (`8XY6`) stores the shifted source in VX and puts the bit
/// shifted out into the flag register; the source is VY or VX according
/// to the configuration. Stated for X other than the flag register
/// itself, whose shift result is overwritten by the flag.
pub proof fn lemma_shift_right_flag(
    m: Model,
    d: Seq<bool>,
    keys: Seq<bool>,
    rnd: u8,
    x: u16,
    y: u16,
)
    requires
        m.wf(),
        x < 15,
        y < 16,
    ensures
        ({
            let op = (0x8000 + x * 0x100 + y * 0x10 + 6) as u16;
            let out = spec_exec_opcode(m, d, op, keys, rnd);
            let src = if m.shift_uses_vy {
                m.v[y as int]
            } else {
                m.v[x as int]
            };
            &&& out.0.v[15] == src & 1
            &&& out.0.v[x as int] == src >> 1u8
            &&& out.1 == d
            &&& out.2 == StepResult::Continued
        }),
{
    lemma_decode(8, x, (y * 0x10 + 6) as u16);
    assert((y * 16 + 6) as int / 16 == y && (y * 16 + 6) % 16 == 6) by {
        lemma_fundamental_div_mod_converse(y as int * 16 + 6, 16, y as int, 6);
    }
}

/// Calling a subroutine at address A with the program counter holding P
/// pushes P and jumps to A; the matching return pops the stack and
/// restores the program counter to exactly P (not P minus two, not A).
pub proof fn lemma_call_return_round_trip(
    m: Model,
    d: Seq<bool>,
    keys: Seq<bool>,
    rnd: u8,
    a: u16,
)
    requires
        m.wf(),
        m.stack.len() < 16,
        a < 0x1000,
    ensures
        ({
            let call = (0x2000 + a) as u16;
            let out1 = spec_exec_opcode(m, d, call, keys, rnd);
            let out2 = spec_exec_opcode(out1.0, out1.1, 0x00EE, keys, rnd);
            &&& out1.2 == StepResult::Continued
            &&& out1.0.pc == a
            &&& out1.0.stack == m.stack.push(m.pc)
            &&& out2.2 == StepResult::Continued
            &&& out2.0.pc == m.pc
            &&& out2.0.stack == m.stack
            &&& out2.0 == m
            &&& out2.1 == d
        }),
{
    lemma_fundamental_div_mod_converse(0x2000 + a as int, 4096, 2, a as int);
    let call = (0x2000 + a) as u16;
    let out1 = spec_exec_opcode(m, d, call, keys, rnd);
    assert(out1.0.stack.drop_last() =~= m.stack);
    let out2 = spec_exec_opcode(out1.0, out1.1, 0x00EE, keys, rnd);
    assert(out2.0 =~= m);
}

/// A call with the 16 stack slots already in use faults with a stack
/// overflow, and a return with the stack empty faults with a stack
/// underflow; neither changes the machine state. A call with fewer than
/// 16 saved addresses is accepted.
pub proof fn lemma_stack_bounds(m: Model, d: Seq<bool>, keys: Seq<bool>, rnd: u8, a: u16)
    requires
        m.wf(),
        a < 0x1000,
    ensures
        ({
            let call = (0x2000 + a) as u16;
            let out = spec_exec_opcode(m, d, call, keys, rnd);
            &&& m.stack.len() < 16 ==> out.2 == StepResult::Continued
                && out.0.stack == m.stack.push(m.pc)
            &&& m.stack.len() == 16 ==> out.2 == StepResult::Faulted(
                crate::state::Fault::StackOverflow,
            ) && out.0 == m && out.1 == d
        }),
        m.stack.len() == 0 ==> spec_exec_opcode(m, d, 0x00EE, keys, rnd) == (
            m,
            d,
            StepResult::Faulted(crate::state::Fault::StackUnderflow),
        ),
{
    lemma_fundamental_div_mod_converse(0x2000 + a as int, 4096, 2, a as int);
}

/// While the wait-for-key latch is set: a step with no key held leaves
/// the whole machine (the program counter included) untouched; a step
/// whose snapshot holds at least one key stores the lowest held key's
/// index in the target register, clears the latch so that the next step
/// fetches normally, and still does not advance the program counter.
pub proof fn lemma_wait_for_key(m: Model, d: Seq<bool>, keys: Seq<bool>, rnd: u8)
    requires
        m.wf(),
        m.wait_for_key,
        keys.len() == 16,
    ensures
        (forall|j: int| 0 <= j < 16 ==> !keys[j]) ==> spec_tick(m, d, keys, rnd) == (
            m,
            d,
            StepResult::Continued,
        ),
        (exists|j: int| 0 <= j < 16 && keys[j]) ==> (first_held(keys, 0) is Some),
        (first_held(keys, 0) is Some) ==> ({
            let k = first_held(keys, 0)->Some_0;
            &&& keys[k as int]
            &&& forall|j: int| 0 <= j < k ==> !keys[j]
            &&& spec_tick(m, d, keys, rnd) == (
                Model { v: m.v.update(m.key_reg as int, k), wait_for_key: false, ..m },
                d,
                StepResult::Continued,
            )
        }),
{
    if forall|j: int| 0 <= j < 16 ==> !keys[j] {
        lemma_first_held_prefix(keys, 16);
    }
    lemma_first_held_found(keys, 0);
}

/// The key scan from `start` finds a held key exactly when one is held at
/// or after `start`, and what it finds is the lowest such key.
proof fn lemma_first_held_found(keys: Seq<bool>, start: int)
    requires
        0 <= start <= 16,
    ensures
        (exists|j: int| start <= j < 16 && keys[j]) <==> (first_held(keys, start) is Some),
        (first_held(keys, start) is Some) ==> ({
            let k = first_held(keys, start)->Some_0;
            &&& start <= k < 16
            &&& keys[k as int]
            &&& forall|j: int| start <= j < k ==> !keys[j]
        }),
    decreases 16 - start,
{
    if start < 16 {
        lemma_first_held_found(keys, start + 1);
        if keys[start] {
            assert(exists|j: int| start <= j < 16 && keys[j]);
        } else {
            assert(first_held(keys, start) == first_held(keys, start + 1));
            if first_held(keys, start) is Some {
                let k = first_held(keys, start)->Some_0;
                assert(start + 1 <= k < 16 && keys[k as int]);
                assert forall|j: int| start <= j < k implies !keys[j] by {
                    if j != start {
                        assert(start + 1 <= j < k);
                    }
                }
            }
        }
    }
}

} // verus!
