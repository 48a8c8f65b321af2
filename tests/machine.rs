use enigma::{
    create_plugboard, default_rotor_state, encode, key_equal, key_letter, reset_rotors, step,
    toggle_connection, turn_rotor, Rotor,
};
use std::collections::HashMap;

fn offsets(rotors: &[Rotor; 3]) -> [u8; 3] {
    [rotors[0].current_value, rotors[1].current_value, rotors[2].current_value]
}

fn encode_text(text: &str, plugboard: &HashMap<u8, u8>, rotors: &mut [Rotor; 3]) -> String {
    text.bytes().map(|b| encode(b, plugboard, rotors)).collect()
}

fn connect(plugboard: &mut HashMap<u8, u8>, a: u8, b: u8) {
    let pending = toggle_connection(plugboard, None, a);
    assert_eq!(pending, Some(a));
    let pending = toggle_connection(plugboard, pending, b);
    assert_eq!(pending, None);
}

#[test]
fn first_keystroke_from_start_position() {
    let mut rotors = default_rotor_state();
    let plugboard = create_plugboard();
    let out = encode(b'a', &plugboard, &mut rotors);
    assert_eq!(out, 'q');
    assert_eq!(offsets(&rotors), [1, 0, 0]);
}

#[test]
fn same_letter_twenty_six_times() {
    let mut rotors = default_rotor_state();
    let plugboard = create_plugboard();
    let mut seen_offsets = Vec::new();
    let mut out = String::new();
    for _ in 0..26 {
        out.push(encode(b'a', &plugboard, &mut rotors));
        let now = offsets(&rotors);
        assert!(!seen_offsets.contains(&now));
        seen_offsets.push(now);
    }
    assert_eq!(out, "qtfhjhzbhvksxxfdjikfhtxsud");
    assert!(out.chars().all(|c| c != 'a'));
    assert_eq!(offsets(&rotors), [0, 1, 0]);
}

#[test]
fn encodes_a_word() {
    let mut rotors = default_rotor_state();
    let plugboard = create_plugboard();
    assert_eq!(encode_text("helloworld", &plugboard, &mut rotors), "pzdjrrmugc");
    assert_eq!(offsets(&rotors), [10, 0, 0]);
}

#[test]
fn decoding_with_the_same_start_gives_the_text_back() {
    let plugboard = create_plugboard();
    let mut rotors = default_rotor_state();
    reset_rotors(&mut rotors, &[3, 4, 5]);
    let cipher = encode_text("enigmamachine", &plugboard, &mut rotors);
    assert_eq!(cipher, "bxzbdfdrvmncb");
    reset_rotors(&mut rotors, &[3, 4, 5]);
    assert_eq!(encode_text(&cipher, &plugboard, &mut rotors), "enigmamachine");
}

#[test]
fn reciprocal_at_fixed_offsets_for_every_letter() {
    let mut plugboard = create_plugboard();
    connect(&mut plugboard, b'c', b'x');
    for start in [[0, 0, 0], [7, 4, 21], [16, 4, 25]] {
        for x in b'a'..=b'z' {
            let mut rotors = default_rotor_state();
            reset_rotors(&mut rotors, &start);
            let y = encode(x, &plugboard, &mut rotors);
            assert_ne!(y as u8, x);
            let mut rotors = default_rotor_state();
            reset_rotors(&mut rotors, &start);
            assert_eq!(encode(y as u8, &plugboard, &mut rotors), x as char);
        }
    }
}

#[test]
fn plugged_pair_is_swapped_before_the_rotors() {
    let mut plugboard = create_plugboard();
    connect(&mut plugboard, b'a', b'b');
    assert_eq!(plugboard[&b'a'], b'b');
    assert_eq!(plugboard[&b'b'], b'a');

    let mut rotors = default_rotor_state();
    assert_eq!(encode(b'a', &plugboard, &mut rotors), 'j');
    let mut rotors = default_rotor_state();
    assert_eq!(encode(b'b', &plugboard, &mut rotors), 'q');

    let bare = create_plugboard();
    let mut rotors = default_rotor_state();
    assert_eq!(encode(b'b', &bare, &mut rotors), 'j');
}

#[test]
fn step_from_zero_moves_only_rotor_zero() {
    let mut rotors = default_rotor_state();
    step(&mut rotors);
    assert_eq!(offsets(&rotors), [1, 0, 0]);
}

#[test]
fn odometer_over_twenty_six_steps() {
    let mut rotors = default_rotor_state();
    for k in 0..26u8 {
        let before = offsets(&rotors);
        assert_eq!(before[0], k);
        step(&mut rotors);
        let after = offsets(&rotors);
        assert_eq!(after[0], (k + 1) % 26);
        if before[0] == b'q' - b'a' {
            assert_eq!(after[1], before[1] + 1);
        } else {
            assert_eq!(after[1], before[1]);
        }
    }
    assert_eq!(offsets(&rotors), [0, 1, 0]);
}

#[test]
fn double_step_when_middle_rotor_on_its_notch() {
    let mut rotors = default_rotor_state();
    reset_rotors(&mut rotors, &[0, 4, 0]);
    step(&mut rotors);
    assert_eq!(offsets(&rotors), [1, 5, 1]);
}

#[test]
fn double_step_over_two_keystrokes() {
    let mut rotors = default_rotor_state();
    reset_rotors(&mut rotors, &[16, 3, 0]);
    step(&mut rotors);
    assert_eq!(offsets(&rotors), [17, 4, 0]);
    step(&mut rotors);
    assert_eq!(offsets(&rotors), [18, 5, 1]);
}

#[test]
fn offsets_wrap_around() {
    let mut rotors = default_rotor_state();
    reset_rotors(&mut rotors, &[25, 25, 25]);
    step(&mut rotors);
    assert_eq!(offsets(&rotors), [0, 25, 25]);
    reset_rotors(&mut rotors, &[16, 4, 25]);
    step(&mut rotors);
    assert_eq!(offsets(&rotors), [17, 5, 0]);
}

#[test]
fn default_rotor_stack() {
    let rotors = default_rotor_state();
    assert_eq!(rotors[0].code_string, "jgdqoxuscamifrvtpnewkblzyh");
    assert_eq!(rotors[1].code_string, "ajdksiruxblhwtmcqgznpyfvoe");
    assert_eq!(rotors[2].code_string, "bdfhjlcprtxvznyeiwgakmusqo");
    assert_eq!(rotors[0].rotate_value, b'q');
    assert_eq!(rotors[1].rotate_value, b'e');
    assert_eq!(rotors[2].rotate_value, b'v');
    assert_eq!(offsets(&rotors), [0, 0, 0]);
}

#[test]
fn reset_restores_offsets_only() {
    let mut rotors = default_rotor_state();
    let plugboard = create_plugboard();
    encode_text("abcdefghijklmnopqrstuvwxyz", &plugboard, &mut rotors);
    reset_rotors(&mut rotors, &[2, 7, 11]);
    assert_eq!(offsets(&rotors), [2, 7, 11]);
    assert_eq!(rotors[1].code_string, "ajdksiruxblhwtmcqgznpyfvoe");
    assert_eq!(rotors[1].rotate_value, b'e');
}

#[test]
fn turning_a_rotor_by_hand_sets_its_start() {
    let mut rotors = default_rotor_state();
    let mut start = [0u8, 0, 0];
    turn_rotor(&mut rotors, &mut start, 1);
    assert_eq!(offsets(&rotors), [0, 1, 0]);
    assert_eq!(start, [0, 1, 0]);
    reset_rotors(&mut rotors, &[0, 0, 25]);
    turn_rotor(&mut rotors, &mut start, 2);
    assert_eq!(offsets(&rotors), [0, 0, 0]);
    assert_eq!(start, [0, 1, 0]);
}

#[test]
fn plugboard_starts_as_identity() {
    let plugboard = create_plugboard();
    assert_eq!(plugboard.len(), 26);
    for k in b'a'..=b'z' {
        assert_eq!(plugboard[&k], k);
        assert!(key_equal(&plugboard, k));
    }
    assert!(!key_equal(&plugboard, b'A'));
}

#[test]
fn key_equal_on_plugged_letter() {
    let mut plugboard = create_plugboard();
    connect(&mut plugboard, b'm', b'q');
    assert!(!key_equal(&plugboard, b'm'));
    assert!(!key_equal(&plugboard, b'q'));
    assert!(key_equal(&plugboard, b'n'));
}

#[test]
fn picking_a_plugged_letter_tears_the_pair_down() {
    let mut plugboard = create_plugboard();
    connect(&mut plugboard, b'a', b'z');
    let pending = toggle_connection(&mut plugboard, None, b'z');
    assert_eq!(pending, None);
    assert_eq!(plugboard, create_plugboard());
}

#[test]
fn picking_the_same_letter_twice_does_nothing() {
    let mut plugboard = create_plugboard();
    let pending = toggle_connection(&mut plugboard, None, b'k');
    assert_eq!(pending, Some(b'k'));
    let pending = toggle_connection(&mut plugboard, pending, b'k');
    assert_eq!(pending, Some(b'k'));
    assert_eq!(plugboard, create_plugboard());
}

#[test]
fn picking_a_plugged_second_letter_keeps_the_pick_pending() {
    let mut plugboard = create_plugboard();
    connect(&mut plugboard, b'a', b'b');
    let snapshot = plugboard.clone();
    let pending = toggle_connection(&mut plugboard, None, b'c');
    assert_eq!(pending, Some(b'c'));
    let pending = toggle_connection(&mut plugboard, pending, b'a');
    assert_eq!(pending, Some(b'c'));
    assert_eq!(plugboard, snapshot);
}

#[test]
fn plugboard_stays_an_involution() {
    let mut plugboard = create_plugboard();
    let mut pending = None;
    for &pick in b"abcadbzzyqyqfe" {
        pending = toggle_connection(&mut plugboard, pending, pick);
        for k in b'a'..=b'z' {
            let image = plugboard[&k];
            assert_eq!(plugboard[&image], k);
        }
        if let Some(c) = pending {
            assert_eq!(plugboard[&c], c);
        }
    }
}

#[test]
fn key_names_that_are_letters() {
    assert_eq!(key_letter("A"), Some(b'a'));
    assert_eq!(key_letter("z"), Some(b'z'));
    assert_eq!(key_letter("Q"), Some(b'q'));
    assert_eq!(key_letter("Escape"), None);
    assert_eq!(key_letter("1"), None);
    assert_eq!(key_letter("["), None);
    assert_eq!(key_letter(""), None);
}
