//! The table renderer: builds the escape-sequence stream that redraws the
//! whole table in place, as one string per region and one for the whole
//! frame. Every function is pinned to a spec-level character sequence, so
//! the exact byte stream is part of the contract.

use vstd::prelude::*;
use crate::cards::Card;
use crate::table::State;
use crate::text::dec_of;
use crate::text::dec_len;
use crate::text::score_seq;
use crate::text::score_len;
use crate::text::seq_repeat;
use crate::text::u64_to_string;
use crate::text::score_string;
use crate::text::repeat_char;
use crate::text::append_repeated;
use crate::text::lemma_dec_of_len;
use crate::text::lemma_dec_len_word;
use crate::text::lemma_score_seq_len;

verus! {

/// The tallest height among the first `n` tableau columns.
pub open spec fn max_len_upto(tableau: Seq<crate::cards::Pile>, n: int) -> int
    decreases n,
{
    if n <= 0 {
        0
    } else {
        let m = max_len_upto(tableau, n - 1);
        if tableau[n - 1].cards@.len() > m {
            tableau[n - 1].cards@.len() as int
        } else {
            m
        }
    }
}

/// The vertical extent of the table: twice the tallest column plus the
/// fixed rows above, with two spare rows when the table is entirely empty.
pub open spec fn spec_max_lines(st: State) -> int {
    let m = max_len_upto(st.tableau@, st.tableau@.len() as int);
    if m == 0 {
        27
    } else {
        2 * m + 25
    }
}

/// What the renderer asks of a table: the thirteen piles are in place and
/// every column is short enough for the line count to fit its byte.
pub open spec fn render_ready(st: State) -> bool {
    &&& st.tableau@.len() == 7
    &&& st.foundations@.len() == 4
    &&& forall|i: int| 0 <= i < 7 ==> (#[trigger] st.tableau@[i]).cards@.len() <= 51
}

/// Computes `spec_max_lines`: how many lines get cleared before a redraw.
pub fn get_max_lines(state: &State) -> (r: i8)
    requires
        forall|i: int|
            0 <= i < state.tableau@.len() ==> (#[trigger] state.tableau@[i]).cards@.len() <= 51,
    ensures
        r as int == spec_max_lines(*state),
        25 <= r as int <= 127,
{
    let mut num_cards: i8 = 0;
    let mut i: usize = 0;
    while i < state.tableau.len()
        invariant
            0 <= i <= state.tableau@.len(),
            forall|k: int|
                0 <= k < state.tableau@.len() ==> (#[trigger] state.tableau@[k]).cards@.len()
                    <= 51,
            num_cards as int == max_len_upto(state.tableau@, i as int),
            0 <= num_cards <= 51,
        decreases state.tableau@.len() - i,
    {
        let l = state.tableau[i].cards.len();
        if (l as i8) > num_cards {
            num_cards = l as i8;
        }
        i = i + 1;
    }
    let mut num_lines: i8 = num_cards * 2 + 25;
    if num_lines == 25 {
        num_lines = num_lines + 2;
    }
    num_lines
}

/// A run of box-drawing dashes.
pub open spec fn dashes(n: int) -> Seq<char> {
    if n <= 0 {
        Seq::empty()
    } else {
        Seq::new(n as nat, |i: int| '─')
    }
}

/// A run of blanks.
pub open spec fn blanks(n: int) -> Seq<char> {
    if n <= 0 {
        Seq::empty()
    } else {
        Seq::new(n as nat, |i: int| ' ')
    }
}

/// The interior width the prompt box always fills, score and prompt
/// together with the padding that makes up the difference.
pub open spec fn prompt_rem(score: i16, prompt: Seq<char>) -> int {
    83 - score_len(score) - prompt.len()
}

/// The top border of the prompt box.
pub open spec fn prompt_top(score: i16, prompt: Seq<char>) -> Seq<char> {
    "┌────────"@ + dashes(score_len(score) as int) + "─┬─"@ + dashes(prompt.len() as int)
        + dashes(prompt_rem(score, prompt)) + "─┐"@
}

/// The middle row of the prompt box: the score cell and the prompt cell.
pub open spec fn prompt_mid(score: i16, prompt: Seq<char>) -> Seq<char> {
    "│ Score: "@ + score_seq(score) + " │ "@ + prompt + blanks(prompt_rem(score, prompt))
        + " │"@
}

/// The bottom border of the prompt box.
pub open spec fn prompt_bot(score: i16, prompt: Seq<char>) -> Seq<char> {
    "└────────"@ + dashes(score_len(score) as int) + "─┴─"@ + dashes(prompt.len() as int)
        + dashes(prompt_rem(score, prompt)) + "─┘"@
}

/// The whole prompt bar: three rows, then the cursor parked just after the
/// prompt text and saved, ready for input echo.
pub open spec fn spec_render_prompt(score: i16, prompt: Seq<char>) -> Seq<char> {
    prompt_top(score, prompt) + "\x1b[1E"@ + prompt_mid(score, prompt) + "\x1b[1E"@ + prompt_bot(
        score,
        prompt,
    ) + "\x1b[1F\x1b["@ + dec_of((12 + score_len(score) + prompt.len()) as nat) + "C\x1b[s"@
}

/// Whatever the score and however long the prompt, as long as the two fit
/// the interior, every row of the prompt box is exactly 97 characters: 83
/// interior characters plus the fixed borders.
pub proof fn lemma_prompt_box_width(score: i16, prompt: Seq<char>)
    requires
        score_len(score) + prompt.len() <= 83,
    ensures
        prompt_top(score, prompt).len() == 97,
        prompt_mid(score, prompt).len() == 97,
        prompt_bot(score, prompt).len() == 97,
{
    lemma_score_seq_len(score);
    reveal_strlit("┌────────");
    reveal_strlit("─┬─");
    reveal_strlit("─┐");
    reveal_strlit("│ Score: ");
    reveal_strlit(" │ ");
    reveal_strlit(" │");
    reveal_strlit("└────────");
    reveal_strlit("─┴─");
    reveal_strlit("─┘");
}

/// Builds the prompt bar for the given table and prompt text.
#[verifier::rlimit(50)]
pub fn render_prompt(state: &State, prompt: &str) -> (r: String)
    requires
        score_len(state.score) + prompt@.len() <= 83,
    ensures
        r@ == spec_render_prompt(state.score, prompt@),
{
    let score_str = score_string(state.score);
    let slen = score_str.as_str().unicode_len();
    proof {
        lemma_score_seq_len(state.score);
    }
    let plen = prompt.unicode_len();
    let rem = 83 - slen - plen;
    let score_dashes = repeat_char('─', slen as i8);
    let prompt_dashes = repeat_char('─', plen as i8);
    let remaining_dashes = repeat_char('─', rem as i8);
    let remaining_blanks = repeat_char(' ', rem as i8);
    proof {
        assert(score_dashes@ =~= dashes(slen as int));
        assert(prompt_dashes@ =~= dashes(plen as int));
        assert(remaining_dashes@ =~= dashes(prompt_rem(state.score, prompt@)));
        assert(remaining_blanks@ =~= blanks(prompt_rem(state.score, prompt@)));
    }
    let mut s = String::new();
    s.append("┌────────");
    s.append(score_dashes.as_str());
    s.append("─┬─");
    s.append(prompt_dashes.as_str());
    s.append(remaining_dashes.as_str());
    s.append("─┐");
    s.append("\x1b[1E");
    s.append("│ Score: ");
    s.append(score_str.as_str());
    s.append(" │ ");
    s.append(prompt);
    s.append(remaining_blanks.as_str());
    s.append(" │");
    s.append("\x1b[1E");
    s.append("└────────");
    s.append(score_dashes.as_str());
    s.append("─┴─");
    s.append(prompt_dashes.as_str());
    s.append(remaining_dashes.as_str());
    s.append("─┘");
    s.append("\x1b[1F\x1b[");
    let park = u64_to_string((12 + slen + plen) as u64);
    s.append(park.as_str());
    s.append("C\x1b[s");
    assert(s@ =~= spec_render_prompt(state.score, prompt@));
    s
}

/// The stock region: label, count, and the shared back (or the empty slot).
pub open spec fn spec_render_stock(st: State) -> Seq<char> {
    "Stock\x1b[1E"@ + "("@ + dec_of(st.stock.cards@.len()) + " Cards)\x1b[1E"@ + (if st.stock.cards@.len()
        > 0 {
        st.stock.cards@.last().back@
    } else {
        st.stock.empty@
    })
}

/// Builds the stock region.
pub fn render_stock(state: &State) -> (r: String)
    ensures
        r@ == spec_render_stock(*state),
{
    let num_cards = state.stock.cards.len();
    let mut s = String::new();
    s.append("Stock\x1b[1E");
    s.append("(");
    let count = u64_to_string(num_cards as u64);
    s.append(count.as_str());
    s.append(" Cards)\x1b[1E");
    if num_cards > 0 {
        s.append(state.stock.cards[num_cards - 1].back.as_str());
        assert(state.stock.cards@[num_cards - 1] == state.stock.cards@.last());
    } else {
        s.append(state.stock.empty.as_str());
    }
    assert(s@ =~= spec_render_stock(*state));
    s
}

/// The fanned predecessors of the waste top, from `start` up to `i`
/// exclusive: each face, a step back, and the column of blanks that masks
/// the row above.
pub open spec fn fan_upto(cards: Seq<Card>, start: int, i: int) -> Seq<char>
    decreases i - start,
{
    if i <= start {
        Seq::empty()
    } else {
        fan_upto(cards, start, i - 1) + cards[i - 1].face@ + "\x1b[8D "@ + seq_repeat(
            "\x1b[1A\x1b[1D "@,
            8,
        )
    }
}

/// Where the waste fan starts: up to two cards below the top.
pub open spec fn fan_start(n: int) -> int {
    if n > 3 {
        n - 3
    } else {
        0
    }
}

/// Whether the waste shows a fan: draw-three mode and at least two cards.
pub open spec fn waste_fans(st: State) -> bool {
    st.waste.cards@.len() > 0 && st.draw == 3 && st.waste.cards@.len() > 1
}

/// How many predecessor cards the waste fans out.
pub open spec fn fan_count(st: State) -> int {
    if waste_fans(st) {
        (st.waste.cards@.len() - 1) - fan_start(st.waste.cards@.len() as int)
    } else {
        0
    }
}

/// The waste region: label, count, the fan when draw-three mode shows one,
/// then the full top card (or the empty slot), then the step right that
/// clears the region.
pub open spec fn spec_render_waste(st: State) -> Seq<char> {
    let n = st.waste.cards@.len() as int;
    "Waste\x1b[1B\x1b[5D"@ + "("@ + dec_of(n as nat) + " Cards)\x1b[1B\x1b["@ + dec_of(
        (8 + dec_len(n as nat)) as nat,
    ) + "D"@ + (if waste_fans(st) {
        fan_upto(st.waste.cards@, fan_start(n), n - 1)
    } else {
        Seq::empty()
    }) + (if n > 0 {
        st.waste.cards@.last().face@
    } else {
        st.waste.empty@
    }) + "\x1b["@ + dec_of((14 - 6 * fan_count(st)) as nat) + "C"@
}

/// Builds the waste region.
#[verifier::rlimit(50)]
pub fn render_waste(state: &State) -> (r: String)
    ensures
        r@ == spec_render_waste(*state),
{
    let num_cards = state.waste.cards.len();
    let mut s = String::new();
    s.append("Waste\x1b[1B\x1b[5D");
    s.append("(");
    let count = u64_to_string(num_cards as u64);
    s.append(count.as_str());
    s.append(" Cards)\x1b[1B\x1b[");
    let num_digits = count.as_str().unicode_len();
    proof {
        lemma_dec_of_len(num_cards as nat);
        lemma_dec_len_word(num_cards as nat);
    }
    let width = u64_to_string((8 + num_digits) as u64);
    s.append(width.as_str());
    s.append("D");
    let mut fanned: usize = 0;
    if num_cards > 0 && state.draw == 3 && num_cards > 1 {
        let start = if num_cards > 3 {
            num_cards - 3
        } else {
            0
        };
        let end = num_cards - 1;
        let mut i = start;
        let ghost prefix = s@;
        assert(s@ =~= prefix + fan_upto(state.waste.cards@, start as int, start as int));
        while i < end
            invariant
                fan_start(state.waste.cards@.len() as int) == start as int,
                start <= i <= end,
                end == state.waste.cards@.len() - 1,
                state.waste.cards@.len() > 1,
                s@ == prefix + fan_upto(state.waste.cards@, start as int, i as int),
            decreases end - i,
        {
            s.append(state.waste.cards[i].face.as_str());
            s.append("\x1b[8D ");
            append_repeated(&mut s, "\x1b[1A\x1b[1D ", 8);
            i = i + 1;
            assert(s@ =~= prefix + fan_upto(state.waste.cards@, start as int, i as int));
        }
        fanned = end - start;
    }
    if num_cards > 0 {
        s.append(state.waste.cards[num_cards - 1].face.as_str());
        assert(state.waste.cards@[num_cards - 1] == state.waste.cards@.last());
    } else {
        s.append(state.waste.empty.as_str());
    }
    s.append("\x1b[");
    assert(fanned as int == fan_count(*state));
    let spaces = u64_to_string((14 - 6 * fanned) as u64);
    s.append(spaces.as_str());
    s.append("C");
    assert(s@ =~= spec_render_waste(*state));
    s
}

/// One foundation: label, count, its top card (or the empty slot), and the
/// step to the next foundation for all but the last.
pub open spec fn foundation_block(st: State, i: int) -> Seq<char> {
    let p = st.foundations@[i];
    let n = p.cards@.len() as int;
    "Foundation "@ + dec_of((i + 1) as nat) + "\x1b[1B\x1b[12D"@ + "("@ + dec_of(n as nat)
        + " Cards)\x1b[1B\x1b["@ + dec_of((8 + dec_len(n as nat)) as nat) + "D"@ + (if n > 0 {
        p.cards@.last().face@
    } else {
        p.empty@
    }) + (if i < 3 {
        "\x1b[10A\x1b[1C"@
    } else {
        Seq::empty()
    })
}

/// The first `k` foundations, in order.
pub open spec fn foundations_upto(st: State, k: int) -> Seq<char>
    decreases k,
{
    if k <= 0 {
        Seq::empty()
    } else {
        foundations_upto(st, k - 1) + foundation_block(st, k - 1)
    }
}

/// The foundation row: all four piles.
pub open spec fn spec_render_foundations(st: State) -> Seq<char> {
    foundations_upto(st, 4)
}

/// Builds one foundation's region.
fn render_foundation(state: &State, i: usize) -> (r: String)
    requires
        state.foundations@.len() == 4,
        i < 4,
    ensures
        r@ == foundation_block(*state, i as int),
{
    let foundation = &state.foundations[i];
    let num_cards = foundation.cards.len();
    let mut s = String::new();
    s.append("Foundation ");
    let label = u64_to_string((i + 1) as u64);
    s.append(label.as_str());
    s.append("\x1b[1B\x1b[12D");
    s.append("(");
    let count = u64_to_string(num_cards as u64);
    s.append(count.as_str());
    s.append(" Cards)\x1b[1B\x1b[");
    let num_digits = count.as_str().unicode_len();
    proof {
        lemma_dec_of_len(num_cards as nat);
        lemma_dec_len_word(num_cards as nat);
    }
    let width = u64_to_string((8 + num_digits) as u64);
    s.append(width.as_str());
    s.append("D");
    if num_cards > 0 {
        s.append(foundation.cards[num_cards - 1].face.as_str());
        assert(foundation.cards@[num_cards - 1] == foundation.cards@.last());
    } else {
        s.append(foundation.empty.as_str());
    }
    if i < 3 {
        s.append("\x1b[10A\x1b[1C");
    }
    assert(s@ =~= foundation_block(*state, i as int));
    s
}

/// Builds the foundation row.
pub fn render_foundations(state: &State) -> (r: String)
    requires
        state.foundations@.len() == 4,
    ensures
        r@ == spec_render_foundations(*state),
{
    let mut s = String::new();
    let mut i: usize = 0;
    assert(s@ =~= foundations_upto(*state, 0));
    while i < 4
        invariant
            0 <= i <= 4,
            state.foundations@.len() == 4,
            s@ == foundations_upto(*state, i as int),
        decreases 4 - i,
    {
        let block = render_foundation(state, i);
        s.append(block.as_str());
        i = i + 1;
        assert(s@ =~= foundations_upto(*state, i as int));
    }
    s
}

/// The cards of one column, bottom first: each face-up card shows its
/// face, each face-down card the shared back, every card followed by the
/// step up that overlaps it with the next.
pub open spec fn column_cards_upto(cards: Seq<Card>, k: int) -> Seq<char>
    decreases k,
{
    if k <= 0 {
        Seq::empty()
    } else {
        column_cards_upto(cards, k - 1) + (if cards[k - 1].flip {
            cards[k - 1].face@
        } else {
            cards[k - 1].back@
        }) + "\x1b[6A\x1b[13D"@
    }
}

/// How many rows one column occupies: two per card below the fixed frame,
/// two more when the column is empty and shows the slot glyph.
pub open spec fn column_lines(st: State, i: int) -> int {
    let n = st.tableau@[i].cards@.len() as int;
    if n > 0 {
        2 * n + 9
    } else {
        2 * n + 9 + 2
    }
}

/// One tableau column: label, count, its stack of cards (or the empty
/// slot), and the cursor step that lands at the head of the next column,
/// or below the whole table after the last one.
pub open spec fn column_block(st: State, i: int) -> Seq<char> {
    let cards = st.tableau@[i].cards@;
    let n = cards.len() as int;
    let diff = spec_max_lines(st) - column_lines(st, i) + 16;
    "Column "@ + dec_of((i + 1) as nat) + "\x1b[1B\x1b[8D"@ + "("@ + dec_of(n as nat)
        + " Cards)\x1b[1B\x1b["@ + dec_of((8 + dec_len(n as nat)) as nat) + "D"@ + (if n > 0 {
        column_cards_upto(cards, n) + "\x1b[6B\x1b[13C"@
    } else {
        st.tableau@[i].empty@
    }) + (if i < 6 {
        "\x1b["@ + dec_of((column_lines(st, i) - 1) as nat) + "A\x1b[1C"@
    } else if diff > 0 {
        "\x1b["@ + dec_of(diff as nat) + "B"@
    } else {
        Seq::empty()
    })
}

/// The first `k` tableau columns, in order.
pub open spec fn columns_upto(st: State, k: int) -> Seq<char>
    decreases k,
{
    if k <= 0 {
        Seq::empty()
    } else {
        columns_upto(st, k - 1) + column_block(st, k - 1)
    }
}

/// The tableau: all seven columns.
pub open spec fn spec_render_tableau(st: State) -> Seq<char> {
    columns_upto(st, 7)
}

/// Builds the stacked cards of one column, bottom first.
fn render_column_cards(column: &crate::cards::Pile) -> (r: String)
    ensures
        r@ == column_cards_upto(column.cards@, column.cards@.len() as int),
{
    let num_cards = column.cards.len();
    let mut s = String::new();
    let mut j: usize = 0;
    assert(s@ =~= column_cards_upto(column.cards@, 0));
    while j < num_cards
        invariant
            0 <= j <= num_cards,
            num_cards == column.cards@.len(),
            s@ == column_cards_upto(column.cards@, j as int),
        decreases num_cards - j,
    {
        let card = &column.cards[j];
        if card.flip {
            s.append(card.face.as_str());
        } else {
            s.append(card.back.as_str());
        }
        s.append("\x1b[6A\x1b[13D");
        j = j + 1;
        assert(s@ =~= column_cards_upto(column.cards@, j as int));
    }
    s
}

/// Builds one tableau column's region.
#[verifier::rlimit(30)]
fn render_column(state: &State, i: usize) -> (r: String)
    requires
        render_ready(*state),
        i < 7,
    ensures
        r@ == column_block(*state, i as int),
{
    let column = &state.tableau[i];
    let num_cards = column.cards.len();
    let mut s = String::new();
    s.append("Column ");
    let label = u64_to_string((i + 1) as u64);
    s.append(label.as_str());
    s.append("\x1b[1B\x1b[8D");
    s.append("(");
    let count = u64_to_string(num_cards as u64);
    s.append(count.as_str());
    s.append(" Cards)\x1b[1B\x1b[");
    let num_digits = count.as_str().unicode_len();
    proof {
        lemma_dec_of_len(num_cards as nat);
        lemma_dec_len_word(num_cards as nat);
    }
    let width = u64_to_string((8 + num_digits) as u64);
    s.append(width.as_str());
    s.append("D");
    let mut num_lines: i32 = (num_cards as i32) * 2 + 9;
    if num_cards > 0 {
        let stack = render_column_cards(column);
        s.append(stack.as_str());
        s.append("\x1b[6B\x1b[13C");
    } else {
        s.append(column.empty.as_str());
        num_lines = num_lines + 2;
    }
    assert(num_lines as int == column_lines(*state, i as int));
    let max_lines = get_max_lines(state);
    let difference: i32 = (max_lines as i32) - num_lines + 16;
    if i < 6 {
        s.append("\x1b[");
        let steps = u64_to_string((num_lines - 1) as u64);
        s.append(steps.as_str());
        s.append("A\x1b[1C");
    } else if difference > 0 {
        s.append("\x1b[");
        let steps = u64_to_string(difference as u64);
        s.append(steps.as_str());
        s.append("B");
    }
    assert(s@ =~= column_block(*state, i as int));
    s
}

/// Builds the tableau.
#[verifier::rlimit(50)]
pub fn render_tableau(state: &State) -> (r: String)
    requires
        render_ready(*state),
    ensures
        r@ == spec_render_tableau(*state),
{
    let mut s = String::new();
    let mut i: usize = 0;
    assert(s@ =~= columns_upto(*state, 0));
    while i < 7
        invariant
            0 <= i <= 7,
            render_ready(*state),
            s@ == columns_upto(*state, i as int),
        decreases 7 - i,
    {
        let block = render_column(state, i);
        s.append(block.as_str());
        i = i + 1;
        assert(s@ =~= columns_upto(*state, i as int));
    }
    s
}

/// The whole frame: clear the table region line by line, return to its
/// head, then the prompt bar, stock, waste, foundations and tableau, and
/// finally the jump back to the saved input point. One string, so a caller
/// can hand the terminal the frame in a single write.
pub open spec fn spec_render_table(st: State, prompt: Seq<char>) -> Seq<char> {
    let ml = spec_max_lines(st);
    "\x1b[1F"@ + seq_repeat("\x1b[2K\x1b[1E"@, ml as nat) + "\x1b[0J\x1b["@ + dec_of(ml as nat)
        + "F"@ + spec_render_prompt(st.score, prompt) + "\x1b[3E"@ + spec_render_stock(st)
        + "\x1b[10A\x1b[1C"@ + spec_render_waste(st) + "\x1b[10A\x1b[1C"@
        + spec_render_foundations(st) + "\x1b[2E"@ + spec_render_tableau(st) + "\x1b[u"@
}

/// Builds the escape-sequence stream that redraws the whole table.
#[verifier::rlimit(50)]
pub fn render_table(state: &State, prompt: &str) -> (r: String)
    requires
        render_ready(*state),
        score_len(state.score) + prompt@.len() <= 83,
    ensures
        r@ == spec_render_table(*state, prompt@),
{
    let max_lines = get_max_lines(state);
    let mut s = String::new();
    s.append("\x1b[1F");
    append_repeated(&mut s, "\x1b[2K\x1b[1E", max_lines as usize);
    s.append("\x1b[0J\x1b[");
    let ml = u64_to_string(max_lines as u64);
    s.append(ml.as_str());
    s.append("F");
    let prompt_bar = render_prompt(state, prompt);
    s.append(prompt_bar.as_str());
    s.append("\x1b[3E");
    let stock = render_stock(state);
    s.append(stock.as_str());
    s.append("\x1b[10A\x1b[1C");
    let waste = render_waste(state);
    s.append(waste.as_str());
    s.append("\x1b[10A\x1b[1C");
    let foundations = render_foundations(state);
    s.append(foundations.as_str());
    s.append("\x1b[2E");
    let tableau = render_tableau(state);
    s.append(tableau.as_str());
    s.append("\x1b[u");
    assert(s@ =~= spec_render_table(*state, prompt@));
    s
}

/// A freshly dealt table is always ready to render: its columns hold at
/// most seven cards, well under the tallest column the renderer accepts.
pub proof fn lemma_dealt_is_render_ready(st: State)
    requires
        crate::table::dealt(st),
    ensures
        render_ready(st),
{
}

/// Whether a table is ready to render; a caller outside the library can
/// test this before asking for a frame.
pub fn can_render(state: &State) -> (b: bool)
    ensures
        b == render_ready(*state),
{
    if state.tableau.len() != 7 {
        return false;
    }
    if state.foundations.len() != 4 {
        return false;
    }
    let mut i: usize = 0;
    while i < 7
        invariant
            0 <= i <= 7,
            state.tableau@.len() == 7,
            forall|k: int| 0 <= k < i ==> (#[trigger] state.tableau@[k]).cards@.len() <= 51,
        decreases 7 - i,
    {
        if state.tableau[i].cards.len() > 51 {
            return false;
        }
        i = i + 1;
    }
    true
}

/// Whether a score and a prompt together fit the prompt box interior; a
/// caller outside the library can test this before asking for a frame.
pub fn prompt_fits(score: i16, prompt: &str) -> (b: bool)
    ensures
        b == (score_len(score) + prompt@.len() <= 83),
{
    let score_str = score_string(score);
    let slen = score_str.as_str().unicode_len();
    proof {
        lemma_score_seq_len(score);
        if score < 0 {
            lemma_dec_len_word((-(score as int)) as nat);
        } else {
            lemma_dec_len_word(score as nat);
        }
    }
    let plen = prompt.unicode_len();
    if plen > 83 {
        return false;
    }
    slen + plen <= 83
}

} // verus!
