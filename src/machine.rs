//! The encode pipeline: plugboard, rotors forward, reflector, rotors backward, plugboard.
use std::collections::HashMap;
use vstd::prelude::*;

use crate::plugboard::{identity_plugboard, lemma_identity_wf, plugboard_wf, toggled};
use crate::rotor::{
    is_letter, lemma_position, lemma_rotor_round_trip, lemma_wirings_valid, position, reflect,
    stack_wf, Rotor, REFLECTOR,
};
use crate::stepping::{step, stepped};

verus! {

broadcast use vstd::std_specs::hash::group_hash_axioms;

/// The signal from the plugboard through rotors 0, 1, 2 to the reflector and back through
/// rotors 2, 1, 0, for the given offsets.
pub open spec fn through_rotors(rs: Seq<Rotor>, x: u8) -> u8 {
    let inward = rs[2].forward(rs[1].forward(rs[0].forward(x)));
    rs[0].backward(rs[1].backward(rs[2].backward(reflect(inward))))
}

/// The letter that the key `x` lights for plugboard `m` and rotor offsets `rs`.
pub open spec fn signal(m: Map<u8, u8>, rs: Seq<Rotor>, x: u8) -> u8 {
    m[through_rotors(rs, m[x])]
}

/// One rotor, on the way towards the reflector.
fn forward_through(rotor: &Rotor, x: u8) -> (r: u8)
    requires
        rotor.wf(),
        is_letter(x),
    ensures
        r == rotor.forward(x),
        is_letter(r),
{
    proof {
        lemma_rotor_round_trip(*rotor, x);
    }
    let index = ((x - 97 + 26 - rotor.current_value) % 26) as usize;
    rotor.code_string.get_ascii(index)
}

/// One rotor, on the way back from the reflector: finds the contact wired to `x`.
fn backward_through(rotor: &Rotor, x: u8) -> (r: u8)
    requires
        rotor.wf(),
        is_letter(x),
    ensures
        r == rotor.backward(x),
        is_letter(r),
{
    let ghost w = rotor.wiring();
    proof {
        lemma_position(w, x);
        lemma_rotor_round_trip(*rotor, x);
    }
    let mut j: usize = 0;
    while j < 26
        invariant
            rotor.wf(),
            is_letter(x),
            w == rotor.wiring(),
            0 <= position(w, x) < 26,
            w[position(w, x)] == x,
            forall|i: int| 0 <= i < 26 && w[i] == x ==> i == position(w, x),
            j <= position(w, x),
        decreases 26 - j,
    {
        if rotor.code_string.get_ascii(j) == x {
            assert(w[j as int] == x);
            return ((j + rotor.current_value as usize) % 26) as u8 + 97;
        }
        j = j + 1;
    }
    97
}

/// The reflector.
fn reflect_letter(x: u8) -> (r: u8)
    requires
        is_letter(x),
    ensures
        r == reflect(x),
        is_letter(r),
{
    proof {
        lemma_wirings_valid();
    }
    REFLECTOR.get_ascii((x - 97) as usize)
}

/// Encodes the key `ch`: the rotors step first, then the signal runs through the machine
/// with the new offsets.
pub fn encode(ch: u8, plugboard: &HashMap<u8, u8>, rotors: &mut [Rotor; 3]) -> (r: char)
    requires
        is_letter(ch),
        plugboard_wf(plugboard@),
        stack_wf(old(rotors)@),
    ensures
        final(rotors)@ == stepped(old(rotors)@),
        stack_wf(final(rotors)@),
        r == signal(plugboard@, final(rotors)@, ch) as char,
        is_letter(r as u8),
{
    step(rotors);
    let ghost rs = rotors@;
    assert(rs[0].wf() && rs[1].wf() && rs[2].wf());

    let mut encoded: u8 = 0;

    // Through the plugboard
    if let Some(pair) = plugboard.get(&ch) {
        encoded = *pair;
    }
    // Through the rotors towards the reflector
    encoded = forward_through(&rotors[0], encoded);
    encoded = forward_through(&rotors[1], encoded);
    encoded = forward_through(&rotors[2], encoded);

    encoded = reflect_letter(encoded);

    // Through the rotors again, in reverse order
    encoded = backward_through(&rotors[2], encoded);
    encoded = backward_through(&rotors[1], encoded);
    encoded = backward_through(&rotors[0], encoded);

    // Through the plugboard again
    if let Some(pair) = plugboard.get(&encoded) {
        encoded = *pair;
    }
    encoded as char
}

/// For fixed offsets the rotors and reflector pair the letters: the path maps every letter to
/// a letter other than itself, and taking the path twice gives the letter back.
pub proof fn lemma_through_rotors_pairs(rs: Seq<Rotor>, x: u8)
    requires
        stack_wf(rs),
        is_letter(x),
    ensures
        is_letter(through_rotors(rs, x)),
        through_rotors(rs, x) != x,
        through_rotors(rs, through_rotors(rs, x)) == x,
{
    assert(rs[0].wf() && rs[1].wf() && rs[2].wf());
    lemma_wirings_valid();
    let a1 = rs[0].forward(x);
    lemma_rotor_round_trip(rs[0], x);
    let a2 = rs[1].forward(a1);
    lemma_rotor_round_trip(rs[1], a1);
    let a3 = rs[2].forward(a2);
    lemma_rotor_round_trip(rs[2], a2);
    let b = reflect(a3);
    assert(reflect(b) == a3 && b != a3);
    let c2 = rs[2].backward(b);
    lemma_rotor_round_trip(rs[2], b);
    let c1 = rs[1].backward(c2);
    lemma_rotor_round_trip(rs[1], c2);
    let y = rs[0].backward(c1);
    lemma_rotor_round_trip(rs[0], c1);
    assert(through_rotors(rs, x) == y);
    assert(rs[0].forward(y) == c1);
    assert(rs[1].forward(c1) == c2);
    assert(rs[2].forward(c2) == b);
}

/// With the rotor offsets held fixed, encoding the output gives the input back, for every
/// valid plugboard and in particular for the identity plugboard; no letter encodes to itself.
pub proof fn lemma_encode_reciprocal(m: Map<u8, u8>, rs: Seq<Rotor>, x: u8)
    requires
        plugboard_wf(m),
        stack_wf(rs),
        is_letter(x),
    ensures
        is_letter(signal(m, rs, x)),
        signal(m, rs, x) != x,
        signal(m, rs, signal(m, rs, x)) == x,
        signal(identity_plugboard(), rs, signal(identity_plugboard(), rs, x)) == x,
{
    lemma_through_rotors_pairs(rs, m[x]);
    let y = signal(m, rs, x);
    assert(m[y] == through_rotors(rs, m[x]));
    lemma_identity_wf();
    let id = identity_plugboard();
    lemma_through_rotors_pairs(rs, x);
    assert(id[x] == x);
    assert(id[through_rotors(rs, x)] == through_rotors(rs, x));
}

/// After `a` and then `b` are picked on a plugboard where both are unplugged, the two are
/// wired together, and with the rotors fixed each enters the rotor stack as the other.
pub proof fn lemma_plugged_pair_swaps(m: Map<u8, u8>, rs: Seq<Rotor>, a: u8, b: u8)
    requires
        plugboard_wf(m),
        stack_wf(rs),
        is_letter(a),
        is_letter(b),
        a != b,
        m[a] == a,
        m[b] == b,
    ensures
        toggled(m, Some(a), b).1 == None::<u8>,
        toggled(m, Some(a), b).0[a] == b,
        toggled(m, Some(a), b).0[b] == a,
        signal(toggled(m, Some(a), b).0, rs, a) == toggled(m, Some(a), b).0[through_rotors(rs, b)],
        signal(toggled(m, Some(a), b).0, rs, b) == toggled(m, Some(a), b).0[through_rotors(rs, a)],
{
}

} // verus!
