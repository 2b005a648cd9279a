//! Laws of the instruction set that relate several operations, proved once
//! and for all states.

use vstd::prelude::*;

use crate::cycle::exec_spec;
use crate::cycle::CycleOutcome;
use crate::machine::MachineView;
use crate::ops::addr3;
use crate::ops::drawn_display;
use crate::ops::sprite_covers;

verus! {

/// Call/return round trip: executing a call and then a return, with no
/// intervening call, leaves the program counter equal to its value just
/// after the call instruction was fetched, and the stack as it was — the
/// net effect on control flow is nothing. `m` is the machine after the
/// call instruction was fetched, `ret_site` the counter from which the
/// return instruction was then fetched.
pub proof fn lemma_call_return_round_trip(
    m: MachineView,
    a: u8,
    b: u8,
    c: u8,
    ret_site: int,
    keys: Seq<bool>,
    rnd: u8,
)
    requires
        a < 16,
        b < 16,
        c < 16,
        0 <= m.pc <= u16::MAX,
    ensures
        ({
            let after_call = exec_spec(m, 2, a, b, c, keys, rnd);
            let ret_fetched = MachineView { pc: ret_site + 2, ..after_call.post };
            let after_ret = exec_spec(ret_fetched, 0, 0, 0xE, 0xE, keys, rnd);
            &&& after_call.outcome == Ok::<CycleOutcome, crate::ops::Fault>(CycleOutcome::Executed)
            &&& after_call.post.pc == addr3(a, b, c)
            &&& after_ret.outcome == Ok::<CycleOutcome, crate::ops::Fault>(CycleOutcome::Executed)
            &&& after_ret.post.pc == m.pc
            &&& after_ret.post.stack == m.stack
        }),
{
    let after_call = exec_spec(m, 2, a, b, c, keys, rnd);
    let ret_fetched = MachineView { pc: ret_site + 2, ..after_call.post };
    assert(ret_fetched.stack.len() > 0);
    assert(ret_fetched.stack.last() == m.pc as u16);
    assert(ret_fetched.stack.drop_last() =~= m.stack);
}

/// Compositing the same sprite twice at the same coordinates restores the
/// display: XOR blending is an involution.
pub proof fn lemma_draw_twice_restores(disp: Seq<bool>, sprite: Seq<u8>, x: int, y: int)
    ensures
        drawn_display(drawn_display(disp, sprite, x, y), sprite, x, y) =~= disp,
{
    let once = drawn_display(disp, sprite, x, y);
    assert forall|idx: int| 0 <= idx < disp.len() implies drawn_display(once, sprite, x, y)[idx]
        == disp[idx] by {
        assert(once[idx] == (disp[idx] != sprite_covers(sprite, x, y, idx / 64, idx % 64)));
    }
}

} // verus!
