//! Rotors and the reflector: fixed wirings of the 26-letter alphabet.
use vstd::prelude::*;

verus! {

/// Wiring of the historical rotor I.
pub const ROTOR_I_WIRING: &'static str = "jgdqoxuscamifrvtpnewkblzyh";

/// Wiring of the historical rotor II.
pub const ROTOR_II_WIRING: &'static str = "ajdksiruxblhwtmcqgznpyfvoe";

/// Wiring of the historical rotor III.
pub const ROTOR_III_WIRING: &'static str = "bdfhjlcprtxvznyeiwgakmusqo";

/// Turnover letter of rotor I: `q`.
pub const ROTOR_I_NOTCH: u8 = 113;

/// Turnover letter of rotor II: `e`.
pub const ROTOR_II_NOTCH: u8 = 101;

/// Turnover letter of rotor III: `v`.
pub const ROTOR_III_NOTCH: u8 = 118;

/// Wiring of the fixed reflector.
pub const REFLECTOR: &'static str = "yruhqsldpxngokmiebfzcwvjat";

/// A lowercase ASCII letter, `b'a'..=b'z'`.
pub open spec fn is_letter(b: u8) -> bool {
    97 <= b <= 122
}

/// The byte code of each character.
pub open spec fn bytes_of(s: Seq<char>) -> Seq<u8> {
    s.map_values(|c: char| c as u8)
}

/// `w`, read as a function from `[0, 26)` to letters, is a bijection onto the alphabet.
pub open spec fn is_permutation(w: Seq<u8>) -> bool {
    &&& w.len() == 26
    &&& forall|i: int| 0 <= i < 26 ==> is_letter(#[trigger] w[i])
    &&& forall|i: int, j: int|
        #![trigger w[i], w[j]]
        0 <= i < 26 && 0 <= j < 26 && w[i] == w[j] ==> i == j
    &&& forall|b: u8| is_letter(b) ==> #[trigger] w.contains(b)
}

/// A wiring string: 26 lowercase letters, each letter of the alphabet once.
pub open spec fn is_wiring(s: Seq<char>) -> bool {
    &&& forall|i: int| 0 <= i < s.len() ==> 'a' <= #[trigger] s[i] <= 'z'
    &&& is_permutation(bytes_of(s))
}

/// The index at which the letter `b` stands in the wiring `w`.
pub open spec fn position(w: Seq<u8>, b: u8) -> int {
    choose|j: int| 0 <= j < 26 && w[j] == b
}

/// The reflector's image of the letter `x`.
pub open spec fn reflect(x: u8) -> u8 {
    bytes_of(REFLECTOR@)[x - 97]
}

/// A wired disk: its wiring, its turnover letter and its current offset.
pub struct Rotor<'a> {
    /// Rotational offset, `0..26`.
    pub current_value: u8,
    /// Letter wired to each contact position.
    pub code_string: &'a str,
    /// Turnover letter: at this offset the rotor carries its neighbour along.
    pub rotate_value: u8,
}

impl<'a> Rotor<'a> {
    /// The wiring as letter bytes.
    pub open spec fn wiring(&self) -> Seq<u8> {
        bytes_of(self.code_string@)
    }

    /// Offset in range, turnover letter in the alphabet, wiring a permutation.
    pub open spec fn wf(&self) -> bool {
        &&& self.current_value < 26
        &&& is_letter(self.rotate_value)
        &&& is_wiring(self.code_string@)
    }

    /// The rotor stands on its own turnover letter.
    pub open spec fn at_notch(&self) -> bool {
        self.current_value + 97 == self.rotate_value
    }

    /// Signal entering at letter `x` on the way towards the reflector.
    pub open spec fn forward(&self, x: u8) -> u8 {
        self.wiring()[(x - 97 - self.current_value) % 26]
    }

    /// Signal entering at letter `x` on the way back from the reflector.
    pub open spec fn backward(&self, x: u8) -> u8 {
        ((position(self.wiring(), x) + self.current_value) % 26 + 97) as u8
    }

    /// The same rotor turned on by one position.
    pub open spec fn advanced(&self) -> Rotor<'a> {
        Rotor {
            current_value: ((self.current_value + 1) % 26) as u8,
            code_string: self.code_string,
            rotate_value: self.rotate_value,
        }
    }
}

/// Three well-formed rotors, index 0 the fastest.
pub open spec fn stack_wf(rs: Seq<Rotor>) -> bool {
    &&& rs.len() == 3
    &&& forall|i: int| 0 <= i < 3 ==> (#[trigger] rs[i]).wf()
}

/// Rotors I, II and III, in that order from the fastest, all at offset 0.
pub fn default_rotor_state() -> (rotors: [Rotor<'static>; 3])
    ensures
        stack_wf(rotors@),
        rotors[0] == (Rotor {
            current_value: 0,
            code_string: ROTOR_I_WIRING,
            rotate_value: ROTOR_I_NOTCH,
        }),
        rotors[1] == (Rotor {
            current_value: 0,
            code_string: ROTOR_II_WIRING,
            rotate_value: ROTOR_II_NOTCH,
        }),
        rotors[2] == (Rotor {
            current_value: 0,
            code_string: ROTOR_III_WIRING,
            rotate_value: ROTOR_III_NOTCH,
        }),
{
    proof {
        lemma_wirings_valid();
    }
    [
        Rotor { current_value: 0, code_string: ROTOR_I_WIRING, rotate_value: ROTOR_I_NOTCH },
        Rotor { current_value: 0, code_string: ROTOR_II_WIRING, rotate_value: ROTOR_II_NOTCH },
        Rotor { current_value: 0, code_string: ROTOR_III_WIRING, rotate_value: ROTOR_III_NOTCH },
    ]
}

/// Sets each rotor's offset back to a remembered start position; wirings and notches stay.
pub fn reset_rotors(rotors: &mut [Rotor; 3], rotor_start_pos: &[u8; 3])
    requires
        stack_wf(old(rotors)@),
        forall|i: int| 0 <= i < 3 ==> rotor_start_pos[i] < 26,
    ensures
        stack_wf(final(rotors)@),
        forall|i: int|
            0 <= i < 3 ==> (#[trigger] final(rotors)[i]).current_value == rotor_start_pos[i]
                && final(rotors)[i].code_string == old(rotors)[i].code_string
                && final(rotors)[i].rotate_value == old(rotors)[i].rotate_value,
{
    let mut i: usize = 0;
    while i < 3
        invariant
            i <= 3,
            stack_wf(rotors@),
            forall|k: int| 0 <= k < 3 ==> rotor_start_pos[k] < 26,
            forall|k: int|
                0 <= k < 3 ==> (#[trigger] rotors[k]).code_string == old(rotors)[k].code_string
                    && rotors[k].rotate_value == old(rotors)[k].rotate_value,
            forall|k: int| 0 <= k < i ==> (#[trigger] rotors[k]).current_value == rotor_start_pos[k],
        decreases 3 - i,
    {
        rotors[i].current_value = rotor_start_pos[i];
        i = i + 1;
    }
}

/// Turns rotor `i` on by one position by hand and remembers the new offset as its start
/// position.
pub fn turn_rotor(rotors: &mut [Rotor; 3], rotor_start_pos: &mut [u8; 3], i: usize)
    requires
        stack_wf(old(rotors)@),
        i < 3,
    ensures
        final(rotors)@ == old(rotors)@.update(i as int, old(rotors)[i as int].advanced()),
        final(rotor_start_pos)@ == old(rotor_start_pos)@.update(
            i as int,
            final(rotors)[i as int].current_value,
        ),
        stack_wf(final(rotors)@),
{
    rotors[i].current_value = (rotors[i].current_value + 1) % 26;
    rotor_start_pos[i] = rotors[i].current_value;
    proof {
        assert(rotors@ =~= old(rotors)@.update(i as int, old(rotors)[i as int].advanced()));
        assert(rotor_start_pos@ =~= old(rotor_start_pos)@.update(i as int, rotors[i as int].current_value));
    }
}

/// Where a letter stands in a permutation, and that it stands nowhere else.
pub proof fn lemma_position(w: Seq<u8>, b: u8)
    requires
        is_permutation(w),
        is_letter(b),
    ensures
        0 <= position(w, b) < 26,
        w[position(w, b)] == b,
        forall|j: int| 0 <= j < 26 && w[j] == b ==> j == position(w, b),
{
    assert(w.contains(b));
}

/// The backward pass through a rotor undoes the forward pass, and the other way round.
pub proof fn lemma_rotor_round_trip(r: Rotor, x: u8)
    requires
        r.wf(),
        is_letter(x),
    ensures
        is_letter(r.forward(x)),
        is_letter(r.backward(x)),
        r.backward(r.forward(x)) == x,
        r.forward(r.backward(x)) == x,
{
    let w = r.wiring();
    let k = (x - 97 - r.current_value) % 26;
    assert(0 <= k < 26);
    lemma_position(w, w[k]);
    lemma_position(w, x);
    let p = position(w, x);
    assert((((p + r.current_value) % 26 + 97) as u8 - 97 - r.current_value) % 26 == p);
}

/// Every `i` in `[0, 26)` is one of the 26 values, so a property of each index can be checked case by case.
proof fn lemma_index_cases(i: int)
    requires
        0 <= i < 26,
    ensures
        i == 0 || i == 1 || i == 2 || i == 3 || i == 4 || i == 5 || i == 6 || i == 7 || i == 8
            || i == 9 || i == 10 || i == 11 || i == 12 || i == 13 || i == 14 || i == 15 || i == 16
            || i == 17 || i == 18 || i == 19 || i == 20 || i == 21 || i == 22 || i == 23 || i == 24
            || i == 25,
{
}

/// `t` lists, for each letter, where it stands in `s`; both hold lowercase letters only.
spec fn inverse_entry(s: Seq<char>, t: Seq<char>, i: int) -> bool {
    &&& 'a' <= s[i] <= 'z'
    &&& 'a' <= t[i] <= 'z'
    &&& t[s[i] as u8 - 97] as u8 == i + 97
    &&& s[t[i] as u8 - 97] as u8 == i + 97
}

/// A string of 26 letters that has an inverse table is a wiring.
proof fn lemma_wiring_from_inverse(s: Seq<char>, t: Seq<char>)
    requires
        s.len() == 26,
        t.len() == 26,
        forall|i: int| 0 <= i < 26 ==> #[trigger] inverse_entry(s, t, i),
    ensures
        is_wiring(s),
{
    let w = bytes_of(s);
    assert forall|i: int| 0 <= i < s.len() implies 'a' <= #[trigger] s[i] <= 'z' by {
        assert(inverse_entry(s, t, i));
    }
    assert forall|i: int| 0 <= i < 26 implies is_letter(#[trigger] w[i]) by {
        assert(inverse_entry(s, t, i));
    }
    assert forall|i: int, j: int|
        #![trigger w[i], w[j]]
        0 <= i < 26 && 0 <= j < 26 && w[i] == w[j] implies i == j by {
        assert(inverse_entry(s, t, i));
        assert(inverse_entry(s, t, j));
    }
    assert forall|b: u8| is_letter(b) implies #[trigger] w.contains(b) by {
        let k = b - 97;
        assert(inverse_entry(s, t, k));
        let j = t[k] as u8 - 97;
        assert(w[j] == b);
    }
}

/// The three rotor wirings and the reflector are permutations of the alphabet; the reflector
/// is moreover its own inverse and maps no letter to itself.
pub proof fn lemma_wirings_valid()
    ensures
        is_wiring(ROTOR_I_WIRING@),
        is_wiring(ROTOR_II_WIRING@),
        is_wiring(ROTOR_III_WIRING@),
        is_wiring(REFLECTOR@),
        forall|x: u8| is_letter(x) ==> #[trigger] reflect(reflect(x)) == x,
        forall|x: u8| is_letter(x) ==> #[trigger] reflect(x) != x,
{
    reveal_strlit("jgdqoxuscamifrvtpnewkblzyh");
    reveal_strlit("jvicsmbzlauwkreqdnhpgotfyx");
    let s1 = ROTOR_I_WIRING@;
    let t1 = "jvicsmbzlauwkreqdnhpgotfyx"@;
    assert forall|i: int| 0 <= i < 26 implies #[trigger] inverse_entry(s1, t1, i) by {
        lemma_index_cases(i);
    }
    lemma_wiring_from_inverse(s1, t1);

    reveal_strlit("ajdksiruxblhwtmcqgznpyfvoe");
    reveal_strlit("ajpczwrlfbdkotyuqgenhxmivs");
    let s2 = ROTOR_II_WIRING@;
    let t2 = "ajpczwrlfbdkotyuqgenhxmivs"@;
    assert forall|i: int| 0 <= i < 26 implies #[trigger] inverse_entry(s2, t2, i) by {
        lemma_index_cases(i);
    }
    lemma_wiring_from_inverse(s2, t2);

    reveal_strlit("bdfhjlcprtxvznyeiwgakmusqo");
    reveal_strlit("tagbpcsdqeufvnzhyixjwlrkom");
    let s3 = ROTOR_III_WIRING@;
    let t3 = "tagbpcsdqeufvnzhyixjwlrkom"@;
    assert forall|i: int| 0 <= i < 26 implies #[trigger] inverse_entry(s3, t3, i) by {
        lemma_index_cases(i);
    }
    lemma_wiring_from_inverse(s3, t3);

    reveal_strlit("yruhqsldpxngokmiebfzcwvjat");
    let s4 = REFLECTOR@;
    assert forall|i: int| 0 <= i < 26 implies #[trigger] inverse_entry(s4, s4, i) && s4[i] as u8
        != i + 97 by {
        lemma_index_cases(i);
    }
    lemma_wiring_from_inverse(s4, s4);
    assert forall|x: u8| is_letter(x) implies #[trigger] reflect(reflect(x)) == x by {
        assert(inverse_entry(s4, s4, x - 97));
    }
    assert forall|x: u8| is_letter(x) implies #[trigger] reflect(x) != x by {
        assert(inverse_entry(s4, s4, x - 97) && s4[x - 97] as u8 != x);
    }
}

} // verus!
