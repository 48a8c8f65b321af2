//! The plugboard: an involution on the alphabet, edited one letter pick at a time.
use std::collections::HashMap;
use vstd::prelude::*;

use crate::rotor::is_letter;

verus! {

broadcast use vstd::std_specs::hash::group_hash_axioms;

/// Every letter maps to itself.
pub open spec fn identity_plugboard() -> Map<u8, u8> {
    Map::new(|k: u8| is_letter(k), |k: u8| k)
}

/// The plugboard maps exactly the letters, to letters, and is its own inverse.
pub open spec fn plugboard_wf(m: Map<u8, u8>) -> bool {
    &&& forall|k: u8| #[trigger] m.contains_key(k) <==> is_letter(k)
    &&& forall|k: u8| is_letter(k) ==> is_letter(#[trigger] m[k]) && m[m[k]] == k
}

/// A pending first pick is a letter that is not plugged.
pub open spec fn selection_wf(m: Map<u8, u8>, selected: Option<u8>) -> bool {
    match selected {
        Some(c) => is_letter(c) && m[c] == c,
        None => true,
    }
}

/// The plugboard and the pending pick after the letter `ch` is picked.
/// - nothing pending, `ch` unplugged: `ch` becomes the pending pick;
/// - nothing pending, `ch` plugged: its pair is taken apart;
/// - `c` pending, `ch` another unplugged letter: `c` and `ch` are plugged together;
/// - otherwise nothing changes.
pub open spec fn toggled(m: Map<u8, u8>, selected: Option<u8>, ch: u8) -> (Map<u8, u8>, Option<u8>) {
    match selected {
        Some(c) => if c != ch && m[ch] == ch {
            (m.insert(c, ch).insert(ch, c), None)
        } else {
            (m, selected)
        },
        None => if m[ch] == ch {
            (m, Some(ch))
        } else {
            (m.insert(m[ch], m[ch]).insert(ch, ch), None)
        },
    }
}

/// The plugboard and the pending pick after the letters `picks` were picked in turn,
/// starting from the identity with nothing pending.
pub open spec fn after_picks(picks: Seq<u8>) -> (Map<u8, u8>, Option<u8>)
    decreases picks.len(),
{
    if picks.len() == 0 {
        (identity_plugboard(), None)
    } else {
        let prev = after_picks(picks.drop_last());
        toggled(prev.0, prev.1, picks.last())
    }
}

/// A plugboard on which every letter maps to itself.
pub fn create_plugboard() -> (plugboard: HashMap<u8, u8>)
    ensures
        plugboard@ == identity_plugboard(),
        plugboard_wf(plugboard@),
{
    let mut plugboard = HashMap::<u8, u8>::new();
    let mut ch: u8 = 97;
    while ch <= 122
        invariant
            97 <= ch <= 123,
            plugboard@ =~= Map::new(|k: u8| 97 <= k < ch, |k: u8| k),
        decreases 123 - ch,
    {
        plugboard.insert(ch, ch);
        ch = ch + 1;
        assert(plugboard@ =~= Map::new(|k: u8| 97 <= k < ch, |k: u8| k));
    }
    assert(plugboard@ =~= identity_plugboard());
    plugboard
}

/// Whether `ch` is on the plugboard and maps to itself.
pub fn key_equal(map: &HashMap<u8, u8>, ch: u8) -> (r: bool)
    ensures
        r == (map@.contains_key(ch) && map@[ch] == ch),
{
    if let Some(c2) = map.get(&ch) {
        if *c2 == ch {
            return true;
        }
    }
    false
}

/// Picks the letter `ch` on the plugboard, given the pending first pick, and returns the
/// new pending pick.
pub fn toggle_connection(
    plugboard: &mut HashMap<u8, u8>,
    selected_plugboard: Option<u8>,
    ch: u8,
) -> (r: Option<u8>)
    requires
        plugboard_wf(old(plugboard)@),
        selection_wf(old(plugboard)@, selected_plugboard),
        is_letter(ch),
    ensures
        (final(plugboard)@, r) == toggled(old(plugboard)@, selected_plugboard, ch),
        plugboard_wf(final(plugboard)@),
        selection_wf(final(plugboard)@, r),
{
    proof {
        lemma_toggled_wf(plugboard@, selected_plugboard, ch);
    }
    let unplugged = key_equal(plugboard, ch);
    match selected_plugboard {
        Some(c) => {
            if c != ch && unplugged {
                plugboard.insert(c, ch);
                plugboard.insert(ch, c);
                return None;
            }
        },
        None => {
            if unplugged {
                return Some(ch);
            } else if let Some(c2) = plugboard.get(&ch) {
                let c2 = *c2;
                plugboard.insert(c2, c2);
                plugboard.insert(ch, ch);
            }
        },
    }
    selected_plugboard
}

/// The identity is a valid plugboard.
pub proof fn lemma_identity_wf()
    ensures
        plugboard_wf(identity_plugboard()),
{
}

/// One pick keeps the plugboard an involution and the pending pick unplugged.
pub proof fn lemma_toggled_wf(m: Map<u8, u8>, selected: Option<u8>, ch: u8)
    requires
        plugboard_wf(m),
        selection_wf(m, selected),
        is_letter(ch),
    ensures
        plugboard_wf(toggled(m, selected, ch).0),
        selection_wf(toggled(m, selected, ch).0, toggled(m, selected, ch).1),
{
    let n = toggled(m, selected, ch).0;
    assert forall|k: u8| is_letter(k) implies is_letter(#[trigger] n[k]) && n[n[k]] == k by {
        assert(is_letter(m[k]) && m[m[k]] == k);
        assert(is_letter(m[ch]) && m[m[ch]] == ch);
    }
}

/// After any sequence of picks, starting from the identity, every letter `k` satisfies
/// `plugboard[plugboard[k]] == k`.
pub proof fn lemma_picks_keep_involution(picks: Seq<u8>)
    requires
        forall|i: int| 0 <= i < picks.len() ==> is_letter(#[trigger] picks[i]),
    ensures
        plugboard_wf(after_picks(picks).0),
        selection_wf(after_picks(picks).0, after_picks(picks).1),
        forall|k: u8|
            is_letter(k) ==> #[trigger] after_picks(picks).0[after_picks(picks).0[k]] == k,
    decreases picks.len(),
{
    if picks.len() > 0 {
        let prefix = picks.drop_last();
        assert forall|i: int| 0 <= i < prefix.len() implies is_letter(#[trigger] prefix[i]) by {
            assert(prefix[i] == picks[i]);
        }
        lemma_picks_keep_involution(prefix);
        let prev = after_picks(prefix);
        lemma_toggled_wf(prev.0, prev.1, picks.last());
    }
}

} // verus!
