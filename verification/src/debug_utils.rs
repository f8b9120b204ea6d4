use vstd::prelude::*;
use crate::snake::{Snake, left_end, right_end, spec_playable};
use crate::tile::Tile;

verus! {

/// A tile fits the declared open ends: a missing end accepts anything.
pub open spec fn matches_ends(t: Tile, left: Option<u8>, right: Option<u8>) -> bool {
    (match left {
        Some(l) => t.left == l || t.right == l,
        None => true,
    }) || (match right {
        Some(r) => t.left == r || t.right == r,
        None => true,
    })
}

/// Against the ends of an actual layout, fitting the ends is exactly
/// playability.
pub proof fn lemma_matches_ends_is_playable(s: Seq<Tile>, t: Tile)
    ensures
        matches_ends(t, left_end(s), right_end(s)) == spec_playable(s, t),
{
}

/// Whether any tile of the hand fits the declared open ends.
pub fn is_hand_playable(hand: &[Tile], left: Option<u8>, right: Option<u8>) -> (r: bool)
    ensures
        r == exists|i: int| 0 <= i < hand@.len() && matches_ends(#[trigger] hand@[i], left, right),
{
    let mut i: usize = 0;
    while i < hand.len()
        invariant
            i <= hand@.len(),
            forall|j: int| 0 <= j < i ==> !matches_ends(#[trigger] hand@[j], left, right),
        decreases hand@.len() - i,
    {
        let t = hand[i];
        let left_fits = match left {
            Some(l) => t.left == l || t.right == l,
            None => true,
        };
        let right_fits = match right {
            Some(r) => t.left == r || t.right == r,
            None => true,
        };
        if left_fits || right_fits {
            assert(matches_ends(hand@[i as int], left, right));
            return true;
        }
        i = i + 1;
    }
    false
}

/// Whether the stored layout still forms one chain when each tile may be
/// read in either orientation: the lenient validity walk, weaker than
/// `chain_ok`, which fixes orientations.
pub open spec fn loose_chain_from(s: Seq<Tile>, left: u8, right: u8, i: int) -> bool
    decreases s.len() - i,
{
    if i >= s.len() {
        true
    } else {
        let t = s[i];
        if t.left == left || t.right == left {
            loose_chain_from(s, t.left, t.right, i + 1)
        } else if t.left == right || t.right == right {
            loose_chain_from(s, t.right, t.left, i + 1)
        } else {
            false
        }
    }
}

pub open spec fn spec_board_valid(s: Seq<Tile>) -> bool {
    if s.len() == 0 {
        true
    } else {
        loose_chain_from(s, s[0].left, s[0].right, 1)
    }
}

/// The lenient chain check over the layout.
pub fn is_board_valid(snake: &Snake) -> (r: bool)
    ensures
        r == spec_board_valid(snake@),
{
    if snake.tiles.len() == 0 {
        return true;
    }
    let mut left: u8 = snake.tiles[0].left;
    let mut right: u8 = snake.tiles[0].right;
    let mut i: usize = 1;
    while i < snake.tiles.len()
        invariant
            1 <= i <= snake@.len(),
            snake@.len() > 0,
            spec_board_valid(snake@) == loose_chain_from(snake@, left, right, i as int),
        decreases snake@.len() - i,
    {
        let t = snake.tiles[i];
        if t.left == left || t.right == left {
            left = t.left;
            right = t.right;
        } else if t.left == right || t.right == right {
            let new_left = t.right;
            right = t.left;
            left = new_left;
        } else {
            return false;
        }
        i = i + 1;
    }
    true
}

} // verus!
