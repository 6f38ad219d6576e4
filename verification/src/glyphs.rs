//! The glyph blocks drawn for cards and piles: an 8-line bordered face for
//! each rank and suit, one shared back pattern, and one shared empty-slot
//! frame. Every block is pinned to a spec-level character sequence.

use vstd::prelude::*;
use crate::text::seq_repeat;

verus! {

/// The in-block newline: down one row, back to the left edge of the block.
pub open spec fn glyph_nl() -> Seq<char> {
    "\x1b[1B\x1b[13D"@
}

/// The printed label of a rank, ace through king.
pub open spec fn rank_label(rank: i8) -> Seq<char> {
    if rank == 0 {
        "A"@
    } else if rank == 1 {
        "2"@
    } else if rank == 2 {
        "3"@
    } else if rank == 3 {
        "4"@
    } else if rank == 4 {
        "5"@
    } else if rank == 5 {
        "6"@
    } else if rank == 6 {
        "7"@
    } else if rank == 7 {
        "8"@
    } else if rank == 8 {
        "9"@
    } else if rank == 9 {
        "10"@
    } else if rank == 10 {
        "J"@
    } else if rank == 11 {
        "Q"@
    } else {
        "K"@
    }
}

/// The printed glyph of a suit: hearts and diamonds first (the red pair),
/// spades and clubs after (the black pair).
pub open spec fn suit_label(suit: i8) -> Seq<char> {
    if suit == 0 {
        "♥"@
    } else if suit == 1 {
        "♦"@
    } else if suit == 2 {
        "♠"@
    } else {
        "♣"@
    }
}

/// The color escape of a suit: red for the first two suits, gray for the
/// other two.
pub open spec fn color_code(suit: i8) -> Seq<char> {
    if suit < 2 {
        "\x1b[1;31m"@
    } else {
        "\x1b[1;90m"@
    }
}

/// The rank label in the top-left corner, padded on the right to two
/// characters except for the ten, which is already two wide.
pub open spec fn top_rank_label(rank: i8) -> Seq<char> {
    if rank == 9 {
        rank_label(rank)
    } else {
        rank_label(rank) + " "@
    }
}

/// The rank label in the bottom-right corner, padded on the left to two
/// characters except for the ten.
pub open spec fn bottom_rank_label(rank: i8) -> Seq<char> {
    if rank == 9 {
        rank_label(rank)
    } else {
        " "@ + rank_label(rank)
    }
}

/// A blank interior line of a face, colored but empty.
pub open spec fn face_blank_line(suit: i8) -> Seq<char> {
    "│ "@ + color_code(suit) + "         "@ + "\x1b[0m"@ + " │"@ + glyph_nl()
}

/// The whole face block of a card: bordered, rank and suit in the top-left
/// corner, the suit large in the center, suit and rank in the bottom-right
/// corner.
pub open spec fn face_glyph(rank: i8, suit: i8) -> Seq<char> {
    "┌───────────┐"@ + glyph_nl() + "│ "@ + color_code(suit) + top_rank_label(rank) + "      "@
        + suit_label(suit) + "\x1b[0m"@ + " │"@ + glyph_nl() + face_blank_line(suit)
        + face_blank_line(suit) + "│ "@ + color_code(suit) + "    "@ + suit_label(suit) + "    "@
        + "\x1b[0m"@ + " │"@ + glyph_nl() + face_blank_line(suit) + face_blank_line(suit) + "│ "@
        + color_code(suit) + suit_label(suit) + "      "@ + bottom_rank_label(rank) + "\x1b[0m"@
        + " │"@ + glyph_nl() + "└───────────┘"@
}

/// The shared back block: a bordered fill pattern, identical for all cards.
pub open spec fn back_glyph() -> Seq<char> {
    "┌───────────┐"@ + glyph_nl() + seq_repeat("│ ░░░░░░░░░ │"@ + glyph_nl(), 7)
        + "└───────────┘"@
}

/// The shared empty-slot block: a bordered blank interior.
pub open spec fn empty_glyph() -> Seq<char> {
    "┌─         ─┐"@ + glyph_nl() + seq_repeat("             "@ + glyph_nl(), 7)
        + "└─         ─┘"@
}

fn rank_str(rank: i8) -> (r: &'static str)
    requires
        0 <= rank < 13,
    ensures
        r@ == rank_label(rank),
{
    if rank == 0 {
        "A"
    } else if rank == 1 {
        "2"
    } else if rank == 2 {
        "3"
    } else if rank == 3 {
        "4"
    } else if rank == 4 {
        "5"
    } else if rank == 5 {
        "6"
    } else if rank == 6 {
        "7"
    } else if rank == 7 {
        "8"
    } else if rank == 8 {
        "9"
    } else if rank == 9 {
        "10"
    } else if rank == 10 {
        "J"
    } else if rank == 11 {
        "Q"
    } else {
        "K"
    }
}

fn suit_str(suit: i8) -> (r: &'static str)
    requires
        0 <= suit < 4,
    ensures
        r@ == suit_label(suit),
{
    if suit == 0 {
        "♥"
    } else if suit == 1 {
        "♦"
    } else if suit == 2 {
        "♠"
    } else {
        "♣"
    }
}

fn color_str(suit: i8) -> (r: &'static str)
    ensures
        r@ == color_code(suit),
{
    if suit < 2 {
        "\x1b[1;31m"
    } else {
        "\x1b[1;90m"
    }
}

/// Appends one blank interior line of a face.
fn push_blank_line(out: &mut String, suit: i8)
    ensures
        final(out)@ == old(out)@ + face_blank_line(suit),
{
    out.append("│ ");
    out.append(color_str(suit));
    out.append("         ");
    out.append("\x1b[0m");
    out.append(" │");
    out.append("\x1b[1B\x1b[13D");
}

/// Builds the face block of the card of the given rank and suit.
#[verifier::rlimit(50)]
pub fn card_face(rank: i8, suit: i8) -> (r: String)
    requires
        0 <= rank < 13,
        0 <= suit < 4,
    ensures
        r@ == face_glyph(rank, suit),
{
    let mut s = String::new();
    s.append("┌───────────┐");
    s.append("\x1b[1B\x1b[13D");
    s.append("│ ");
    s.append(color_str(suit));
    if rank == 9 {
        s.append(rank_str(rank));
    } else {
        s.append(rank_str(rank));
        s.append(" ");
    }
    assert(s@ == "┌───────────┐"@ + glyph_nl() + "│ "@ + color_code(suit) + top_rank_label(
        rank,
    ));
    s.append("      ");
    s.append(suit_str(suit));
    s.append("\x1b[0m");
    s.append(" │");
    s.append("\x1b[1B\x1b[13D");
    push_blank_line(&mut s, suit);
    push_blank_line(&mut s, suit);
    s.append("│ ");
    s.append(color_str(suit));
    s.append("    ");
    s.append(suit_str(suit));
    s.append("    ");
    s.append("\x1b[0m");
    s.append(" │");
    s.append("\x1b[1B\x1b[13D");
    push_blank_line(&mut s, suit);
    push_blank_line(&mut s, suit);
    s.append("│ ");
    s.append(color_str(suit));
    s.append(suit_str(suit));
    s.append("      ");
    if rank == 9 {
        s.append(rank_str(rank));
    } else {
        s.append(" ");
        s.append(rank_str(rank));
    }
    s.append("\x1b[0m");
    s.append(" │");
    s.append("\x1b[1B\x1b[13D");
    s.append("└───────────┘");
    assert(s@ =~= face_glyph(rank, suit));
    s
}

/// Builds the shared back block.
pub fn card_back() -> (r: String)
    ensures
        r@ == back_glyph(),
{
    let mut s = String::new();
    s.append("┌───────────┐");
    s.append("\x1b[1B\x1b[13D");
    let mut i: usize = 0;
    assert(s@ =~= "┌───────────┐"@ + glyph_nl() + seq_repeat("│ ░░░░░░░░░ │"@ + glyph_nl(), 0));
    while i < 7
        invariant
            0 <= i <= 7,
            s@ == "┌───────────┐"@ + glyph_nl() + seq_repeat(
                "│ ░░░░░░░░░ │"@ + glyph_nl(),
                i as nat,
            ),
        decreases 7 - i,
    {
        s.append("│ ░░░░░░░░░ │");
        s.append("\x1b[1B\x1b[13D");
        i = i + 1;
        assert(s@ =~= "┌───────────┐"@ + glyph_nl() + seq_repeat(
            "│ ░░░░░░░░░ │"@ + glyph_nl(),
            i as nat,
        ));
    }
    s.append("└───────────┘");
    assert(s@ =~= back_glyph());
    s
}

/// Builds the shared empty-slot block.
pub fn empty_slot() -> (r: String)
    ensures
        r@ == empty_glyph(),
{
    let mut s = String::new();
    s.append("┌─         ─┐");
    s.append("\x1b[1B\x1b[13D");
    let mut i: usize = 0;
    assert(s@ =~= "┌─         ─┐"@ + glyph_nl() + seq_repeat("             "@ + glyph_nl(), 0));
    while i < 7
        invariant
            0 <= i <= 7,
            s@ == "┌─         ─┐"@ + glyph_nl() + seq_repeat(
                "             "@ + glyph_nl(),
                i as nat,
            ),
        decreases 7 - i,
    {
        s.append("             ");
        s.append("\x1b[1B\x1b[13D");
        i = i + 1;
        assert(s@ =~= "┌─         ─┐"@ + glyph_nl() + seq_repeat(
            "             "@ + glyph_nl(),
            i as nat,
        ));
    }
    s.append("└─         ─┘");
    assert(s@ =~= empty_glyph());
    s
}

} // verus!
