//! The stepping mechanism: an odometer with the double-step anomaly.
use vstd::prelude::*;

use crate::rotor::{stack_wf, Rotor};

verus! {

/// The rotor stack after one keystroke. Both carries are decided on the offsets before
/// the keystroke: rotor 1 moves when rotor 0 or rotor 1 stands on its notch, rotor 2 when
/// rotor 1 does.
pub open spec fn stepped<'a>(rs: Seq<Rotor<'a>>) -> Seq<Rotor<'a>> {
    let carry_middle = rs[0].at_notch() || rs[1].at_notch();
    let carry_left = rs[1].at_notch();
    seq![
        rs[0].advanced(),
        if carry_middle {
            rs[1].advanced()
        } else {
            rs[1]
        },
        if carry_left {
            rs[2].advanced()
        } else {
            rs[2]
        },
    ]
}

/// The rotor stack after `n` keystrokes.
pub open spec fn steps<'a>(rs: Seq<Rotor<'a>>, n: nat) -> Seq<Rotor<'a>>
    decreases n,
{
    if n == 0 {
        rs
    } else {
        stepped(steps(rs, (n - 1) as nat))
    }
}

/// Advances the rotor offsets for one keystroke.
pub fn step(rotors: &mut [Rotor; 3])
    requires
        stack_wf(old(rotors)@),
    ensures
        final(rotors)@ == stepped(old(rotors)@),
        stack_wf(final(rotors)@),
{
    let middle_steps = rotors[1].current_value + 97 == rotors[1].rotate_value
        || rotors[0].current_value + 97 == rotors[0].rotate_value;
    let left_steps = rotors[1].current_value + 97 == rotors[1].rotate_value;

    rotors[0].current_value = (rotors[0].current_value + 1) % 26;
    if middle_steps {
        rotors[1].current_value = (rotors[1].current_value + 1) % 26;
    }
    if left_steps {
        rotors[2].current_value = (rotors[2].current_value + 1) % 26;
    }
    proof {
        assert(rotors@ =~= stepped(old(rotors)@));
    }
}

/// Starting with every offset at 0: after `k` keystrokes rotor 0 stands at `k mod 26`, so
/// after 26 keystrokes it is back at 0 having advanced on each of them; and rotor 1 advances
/// on every keystroke before which rotor 0 stands on its notch.
pub proof fn lemma_odometer(rs: Seq<Rotor>)
    requires
        stack_wf(rs),
        rs[0].current_value == 0,
        rs[1].current_value == 0,
        rs[2].current_value == 0,
    ensures
        forall|k: nat| k <= 26 ==> (#[trigger] steps(rs, k))[0].current_value == k % 26,
        steps(rs, 26)[0].current_value == 0,
        forall|k: nat|
            k < 26 ==> (#[trigger] steps(rs, k + 1))[0].current_value == (steps(rs, k)[0].current_value
                + 1) % 26,
        forall|k: nat|
            k < 26 && (#[trigger] steps(rs, k))[0].at_notch() ==> steps(rs, k + 1)[1].current_value
                == (steps(rs, k)[1].current_value + 1) % 26,
{
    assert forall|k: nat| k <= 26 implies (#[trigger] steps(rs, k))[0].current_value == k % 26 by {
        lemma_rotor0_counts(rs, k);
    }
    assert(steps(rs, 26)[0].current_value == 0);
    assert forall|k: nat|
        k < 26 implies (#[trigger] steps(rs, k + 1))[0].current_value == (steps(rs, k)[0].current_value
        + 1) % 26 by {
        assert(steps(rs, k + 1) == stepped(steps(rs, k)));
    }
    assert forall|k: nat|
        k < 26 && (#[trigger] steps(rs, k))[0].at_notch() implies steps(rs, k + 1)[1].current_value
        == (steps(rs, k)[1].current_value + 1) % 26 by {
        assert(steps(rs, k + 1) == stepped(steps(rs, k)));
    }
}

/// Rotor 0 advances on every keystroke.
proof fn lemma_rotor0_counts(rs: Seq<Rotor>, k: nat)
    requires
        stack_wf(rs),
        rs[0].current_value == 0,
    ensures
        steps(rs, k)[0].current_value == k % 26,
    decreases k,
{
    if k > 0 {
        lemma_rotor0_counts(rs, (k - 1) as nat);
    }
}

/// The double step: when rotor 1 stands on its own notch, the next keystroke advances
/// rotor 1 and rotor 2 together (and rotor 0, as always).
pub proof fn lemma_double_step(rs: Seq<Rotor>)
    requires
        stack_wf(rs),
        rs[1].at_notch(),
    ensures
        stepped(rs)[0].current_value == (rs[0].current_value + 1) % 26,
        stepped(rs)[1].current_value == (rs[1].current_value + 1) % 26,
        stepped(rs)[2].current_value == (rs[2].current_value + 1) % 26,
{
}

} // verus!
