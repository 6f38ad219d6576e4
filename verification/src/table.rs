//! The table: deck construction, shuffling, and the initial Klondike deal
//! into stock, waste, four foundations and seven tableau columns.

use vstd::prelude::*;
use vstd::seq_lib::lemma_multiset_commutative;
use rand::seq::SliceRandom;
use crate::cards::Card;
use crate::cards::Pile;
use crate::cards::card_id;
use crate::cards::ids;
use crate::cards::lemma_map_to_multiset;
use crate::cards::lemma_permutation_membership;
use crate::glyphs::face_glyph;
use crate::glyphs::back_glyph;
use crate::glyphs::empty_glyph;
use crate::glyphs::card_face;
use crate::glyphs::card_back;
use crate::glyphs::empty_slot;

verus! {

/// The whole game state: draw mode (one or three cards per draw), score,
/// and the thirteen piles that partition the deck.
pub struct State {
    pub draw: i8,
    pub score: i16,
    pub stock: Pile,
    pub waste: Pile,
    pub tableau: Vec<Pile>,
    pub foundations: Vec<Pile>,
}

/// The fixed 52-card identity set, suits in order and ranks in order
/// within each suit.
pub open spec fn full_ids() -> Seq<(i8, i8)> {
    Seq::new(52, |i: int| ((i % 13) as i8, (i / 13) as i8))
}

/// A card whose rank and suit are in range and whose glyph blocks are the
/// ones built for that rank and suit.
pub open spec fn well_glyphed(c: Card) -> bool {
    &&& 0 <= c.rank < 13
    &&& 0 <= c.suit < 4
    &&& c.face@ == face_glyph(c.rank, c.suit)
    &&& c.back@ == back_glyph()
}

/// A card as the deck builder makes it: well glyphed and face down.
pub open spec fn fresh_card(c: Card) -> bool {
    well_glyphed(c) && !c.flip
}

/// The sum 1 + 2 + ... + n of the first n column heights.
pub open spec fn tri(n: int) -> int
    decreases n,
{
    if n <= 0 {
        0
    } else {
        tri(n - 1) + n
    }
}

/// All cards of a row of piles, first pile first, each pile bottom first.
pub open spec fn piles_cards(piles: Seq<Pile>) -> Seq<Card>
    decreases piles.len(),
{
    if piles.len() == 0 {
        Seq::empty()
    } else {
        piles_cards(piles.drop_last()) + piles.last().cards@
    }
}

/// All cards on the table, over all thirteen piles.
pub open spec fn table_cards(st: State) -> Seq<Card> {
    st.stock.cards@ + st.waste.cards@ + piles_cards(st.foundations@) + piles_cards(st.tableau@)
}

/// A pile's cards with its top card turned face up.
pub open spec fn flip_last(cs: Seq<Card>) -> Seq<Card> {
    cs.update(
        cs.len() - 1,
        Card { rank: cs.last().rank, suit: cs.last().suit, flip: true, face: cs.last().face, back: cs.last().back },
    )
}

/// What the initial deal guarantees: column `i` holds `i + 1` cards with
/// only its top card face up, the stock holds the remaining 24 face-down
/// cards, waste and foundations are empty, the score is zero, the draw
/// mode is one, every pile carries the shared empty-slot glyph, and the
/// thirteen piles together hold exactly the 52-card identity set.
pub open spec fn dealt(st: State) -> bool {
    &&& st.draw == 1
    &&& st.score == 0
    &&& st.stock.cards@.len() == 24
    &&& forall|i: int|
        0 <= i < st.stock.cards@.len() ==> fresh_card(#[trigger] st.stock.cards@[i])
    &&& st.waste.cards@.len() == 0
    &&& st.foundations@.len() == 4
    &&& forall|i: int| 0 <= i < 4 ==> (#[trigger] st.foundations@[i]).cards@.len() == 0
    &&& st.tableau@.len() == 7
    &&& forall|i: int| 0 <= i < 7 ==> (#[trigger] st.tableau@[i]).cards@.len() == i + 1
    &&& forall|i: int, j: int|
        0 <= i < 7 && 0 <= j < i + 1 ==> well_glyphed(#[trigger] st.tableau@[i].cards@[j])
    &&& forall|i: int| 0 <= i < 7 ==> (#[trigger] st.tableau@[i]).cards@.last().flip
    &&& forall|i: int, j: int| 0 <= i < 7 && 0 <= j < i ==> !(#[trigger] st.tableau@[i].cards@[j]).flip
    &&& st.stock.empty@ == empty_glyph()
    &&& st.waste.empty@ == empty_glyph()
    &&& forall|i: int| 0 <= i < 4 ==> (#[trigger] st.foundations@[i]).empty@ == empty_glyph()
    &&& forall|i: int| 0 <= i < 7 ==> (#[trigger] st.tableau@[i]).empty@ == empty_glyph()
    &&& table_cards(st).len() == 52
    &&& ids(table_cards(st)).to_multiset() == full_ids().to_multiset()
}

/// Relies on rand's `SliceRandom::shuffle` with `thread_rng`: a
/// Fisher-Yates shuffle that permutes the slice in place by swaps, so
/// afterwards the vector holds the same cards in some order.
#[verifier::external_body]
fn shuffle_cards(cards: &mut Vec<Card>)
    ensures
        final(cards)@.len() == old(cards)@.len(),
        final(cards)@.to_multiset() == old(cards)@.to_multiset(),
{
    cards.shuffle(&mut rand::thread_rng());
}

/// The ranks and suits of a concatenation are the concatenated ranks and
/// suits.
proof fn lemma_ids_concat(a: Seq<Card>, b: Seq<Card>)
    ensures
        ids(a + b) == ids(a) + ids(b),
{
    assert(ids(a + b) =~= ids(a) + ids(b));
}

/// Turning the top card face up changes no rank or suit.
proof fn lemma_ids_flip_last(cs: Seq<Card>)
    requires
        cs.len() > 0,
    ensures
        ids(flip_last(cs)) == ids(cs),
{
    assert(ids(flip_last(cs)) =~= ids(cs));
}

/// Reversing a stack changes no rank or suit, only their order.
proof fn lemma_ids_reverse(cs: Seq<Card>)
    ensures
        ids(cs.reverse()) == ids(cs).reverse(),
{
    assert(ids(cs.reverse()) =~= ids(cs).reverse());
}

/// A row of empty piles holds no cards.
proof fn lemma_piles_cards_empty(piles: Seq<Pile>)
    requires
        forall|i: int| 0 <= i < piles.len() ==> (#[trigger] piles[i]).cards@.len() == 0,
    ensures
        piles_cards(piles) == Seq::<Card>::empty(),
    decreases piles.len(),
{
    if piles.len() > 0 {
        lemma_piles_cards_empty(piles.drop_last());
        assert(piles.last().cards@ =~= Seq::<Card>::empty());
        assert(piles_cards(piles) =~= Seq::<Card>::empty());
    }
}

/// Builds the 52-card deck in identity order: suits in order, ranks in
/// order within each suit, every card face down and carrying its glyphs.
fn build_deck(deck: &mut Vec<Card>, back: &String)
    requires
        old(deck)@.len() == 0,
        back@ == back_glyph(),
    ensures
        final(deck)@.len() == 52,
        ids(final(deck)@) == full_ids(),
        forall|i: int| 0 <= i < 52 ==> fresh_card(#[trigger] final(deck)@[i]),
{
    let mut suit: i8 = 0;
    while suit < 4
        invariant
            0 <= suit <= 4,
            back@ == back_glyph(),
            deck@.len() == (suit as int) * 13,
            ids(deck@) == full_ids().take((suit as int) * 13),
            forall|i: int| 0 <= i < deck@.len() ==> fresh_card(#[trigger] deck@[i]),
        decreases 4 - suit,
    {
        let mut rank: i8 = 0;
        while rank < 13
            invariant
                0 <= rank <= 13,
                0 <= suit < 4,
                back@ == back_glyph(),
                deck@.len() == (suit as int) * 13 + rank,
                ids(deck@) == full_ids().take((suit as int) * 13 + rank),
                forall|i: int| 0 <= i < deck@.len() ==> fresh_card(#[trigger] deck@[i]),
            decreases 13 - rank,
        {
            let face = card_face(rank, suit);
            let card = Card { rank, suit, flip: false, face, back: back.clone() };
            deck.push(card);
            proof {
                let n = (suit as int) * 13 + rank;
                assert((n + 1) <= 52) by (nonlinear_arith)
                    requires
                        0 <= rank < 13,
                        0 <= suit < 4,
                        n == (suit as int) * 13 + rank,
                ;
                assert(n % 13 == rank as int && n / 13 == suit as int) by (nonlinear_arith)
                    requires
                        0 <= rank < 13,
                        0 <= suit < 4,
                        n == (suit as int) * 13 + rank,
                ;
                assert(full_ids()[n] == (rank, suit));
                assert(ids(deck@) =~= full_ids().take(n + 1));
            }
            rank = rank + 1;
        }
        suit = suit + 1;
    }
    assert(ids(deck@) =~= full_ids());
}

/// Twice the running total 1 + ... + n is n (n + 1).
proof fn lemma_tri_sq(n: int)
    requires
        n >= 0,
    ensures
        2 * tri(n) == n * (n + 1),
    decreases n,
{
    if n > 0 {
        lemma_tri_sq(n - 1);
        assert(tri(n) == tri(n - 1) + n);
        assert(2 * tri(n - 1) == (n - 1) * n);
        assert((n - 1) * n + 2 * n == n * (n + 1)) by (nonlinear_arith);
        assert(2 * tri(n) == 2 * tri(n - 1) + 2 * n);
    } else {
        assert(n * (n + 1) == 0) by (nonlinear_arith)
            requires
                n == 0,
        ;
    }
}

/// The running totals of the deal stay within the deck.
proof fn lemma_tri_bounds(n: int)
    requires
        0 <= n <= 7,
    ensures
        0 <= tri(n) <= 28,
{
    lemma_tri_sq(n);
    assert(0 <= n * (n + 1) <= 56) by (nonlinear_arith)
        requires
            0 <= n <= 7,
    ;
}

/// Builds the full 52-card deck and shuffles it: however the shuffle falls,
/// the result is a permutation of the fixed 52-card identity set — the same
/// multiset of rank and suit pairs — of face-down cards carrying their
/// glyphs.
pub fn shuffled_deck(back: &String) -> (deck: Vec<Card>)
    requires
        back@ == back_glyph(),
    ensures
        deck@.len() == 52,
        ids(deck@).to_multiset() == full_ids().to_multiset(),
        forall|i: int| 0 <= i < 52 ==> fresh_card(#[trigger] deck@[i]),
{
    let mut deck: Vec<Card> = Vec::new();
    build_deck(&mut deck, back);
    let ghost deck0 = deck@;
    shuffle_cards(&mut deck);
    let ghost s = deck@;
    proof {
        lemma_map_to_multiset(deck0, s, |c: Card| card_id(c));
        assert(ids(deck0) =~= deck0.map_values(|c: Card| card_id(c)));
        assert(ids(s) =~= s.map_values(|c: Card| card_id(c)));
        assert(ids(s).to_multiset() == full_ids().to_multiset());
        lemma_permutation_membership(deck0, s);
        assert forall|i: int| 0 <= i < s.len() implies fresh_card(#[trigger] s[i]) by {
            assert(deck0.contains(s[i]));
            let j = choose|j: int| 0 <= j < deck0.len() && deck0[j] == s[i];
            assert(fresh_card(deck0[j]));
        }
    }
    deck
}

/// Builds the shuffled deck, deals the initial layout, and pushes the new
/// table onto the state stack.
#[verifier::rlimit(100)]
pub fn initialize_table(states: &mut Vec<State>)
    ensures
        final(states)@.len() == old(states)@.len() + 1,
        final(states)@.subrange(0, old(states)@.len() as int) == old(states)@,
        dealt(final(states)@.last()),
{
    let empty = empty_slot();
    let back = card_back();
    let mut stock = Pile { cards: shuffled_deck(&back), empty: empty.clone() };
    let waste = Pile { cards: Vec::new(), empty: empty.clone() };
    let ghost s = stock.cards@;
    let mut tableau: Vec<Pile> = Vec::new();
    let mut num: usize = 0;
    assert(stock.cards@ =~= s.subrange(0, 52 - tri(0)));
    assert(ids(stock.cards@ + piles_cards(tableau@)).to_multiset() == full_ids().to_multiset())
        by {
        assert(stock.cards@ + piles_cards(tableau@) =~= s);
    }
    while num < 7
        invariant
            0 <= num <= 7,
            s.len() == 52,
            forall|i: int| 0 <= i < s.len() ==> fresh_card(#[trigger] s[i]),
            ids(s).to_multiset() == full_ids().to_multiset(),
            stock.cards@ == s.subrange(0, 52 - tri(num as int)),
            stock.empty@ == empty_glyph(),
            empty@ == empty_glyph(),
            tableau@.len() == num,
            forall|j: int| 0 <= j < num ==> (#[trigger] tableau@[j]).cards@.len() == j + 1,
            forall|j: int, k: int|
                0 <= j < num && 0 <= k < j + 1 ==> well_glyphed(#[trigger] tableau@[j].cards@[k]),
            forall|j: int| 0 <= j < num ==> (#[trigger] tableau@[j]).cards@.last().flip,
            forall|j: int, k: int|
                0 <= j < num && 0 <= k < j ==> !(#[trigger] tableau@[j].cards@[k]).flip,
            forall|j: int| 0 <= j < num ==> (#[trigger] tableau@[j]).empty@ == empty_glyph(),
            ids(stock.cards@ + piles_cards(tableau@)).to_multiset() == full_ids().to_multiset(),
        decreases 7 - num,
    {
        proof {
            lemma_tri_bounds(num as int);
            lemma_tri_bounds(num + 1);
            assert(tri(num + 1) == tri(num as int) + num + 1);
        }
        let ghost stock_before = stock.cards@;
        let ghost tab_before = tableau@;
        let ghost piles_before = piles_cards(tableau@);
        let mut column = Pile { cards: Vec::new(), empty: empty.clone() };
        stock.move_cards_reverse(&mut column, num + 1);
        let ghost lo = 52 - tri(num + 1);
        let ghost hi = 52 - tri(num as int);
        let ghost seg = s.subrange(lo, hi);
        proof {
            assert(stock.cards@ =~= s.subrange(0, lo));
            assert(stock_before.subrange(
                stock_before.len() - (num + 1),
                stock_before.len() as int,
            ) =~= seg);
            assert(column.cards@ =~= seg.reverse());
        }
        let top_opt = column.cards.pop();
        let mut top = top_opt.unwrap();
        top.flip = true;
        column.cards.push(top);
        proof {
            assert(column.cards@ =~= flip_last(seg.reverse()));
        }
        tableau.push(column);
        num = num + 1;
        proof {
            let t = tableau@;
            assert(t.drop_last() =~= tab_before);
            assert(t.drop_last() == tab_before);
            assert(piles_cards(t) == piles_cards(tab_before) + t.last().cards@);
            let col = flip_last(seg.reverse());
            assert(t.last().cards@ == col);
            // each card of the new column is a card of the shuffled deck
            assert(col.len() == num);
            assert forall|k: int| 0 <= k < col.len() implies well_glyphed(#[trigger] col[k]) by {
                assert(seg.reverse()[k] == s[hi - 1 - k]);
                assert(fresh_card(s[hi - 1 - k]));
                assert(col[k].rank == seg.reverse()[k].rank);
            }
            assert forall|k: int| 0 <= k < col.len() - 1 implies !(#[trigger] col[k]).flip by {
                assert(col[k] == seg.reverse()[k]);
                assert(seg.reverse()[k] == s[hi - 1 - k]);
            }
            assert(col.last().flip);
            // the multiset of ranks and suits over stock and tableau is kept
            let msf = full_ids().to_multiset();
            lemma_ids_flip_last(seg.reverse());
            lemma_ids_reverse(seg);
            ids(seg).lemma_reverse_to_multiset();
            assert(ids(col).to_multiset() == ids(seg).to_multiset());
            assert(stock_before =~= stock.cards@ + seg);
            lemma_ids_concat(stock.cards@, seg);
            lemma_multiset_commutative(ids(stock.cards@), ids(seg));
            assert(ids(stock_before).to_multiset() == ids(stock.cards@).to_multiset().add(
                ids(seg).to_multiset(),
            ));
            lemma_ids_concat(stock_before, piles_before);
            lemma_multiset_commutative(ids(stock_before), ids(piles_before));
            lemma_ids_concat(piles_cards(tab_before), col);
            lemma_multiset_commutative(ids(piles_cards(tab_before)), ids(col));
            lemma_ids_concat(stock.cards@, piles_cards(t));
            lemma_multiset_commutative(ids(stock.cards@), ids(piles_cards(t)));
            assert(ids(stock.cards@ + piles_cards(t)).to_multiset() =~= ids(
                stock_before + piles_before,
            ).to_multiset());
            assert(ids(stock.cards@ + piles_cards(t)).to_multiset() == msf);
        }
    }
    let mut foundations: Vec<Pile> = Vec::new();
    let mut f: usize = 0;
    while f < 4
        invariant
            0 <= f <= 4,
            empty@ == empty_glyph(),
            foundations@.len() == f,
            forall|i: int| 0 <= i < f ==> (#[trigger] foundations@[i]).cards@.len() == 0,
            forall|i: int| 0 <= i < f ==> (#[trigger] foundations@[i]).empty@ == empty_glyph(),
        decreases 4 - f,
    {
        let foundation = Pile { cards: Vec::new(), empty: empty.clone() };
        foundations.push(foundation);
        f = f + 1;
    }
    let state = State { draw: 1, score: 0, stock, waste, tableau, foundations };
    proof {
        lemma_tri_sq(7);
        assert(tri(7) == 28);
        assert(state.stock.cards@.len() == 24);
        lemma_piles_cards_empty(state.foundations@);
        assert(table_cards(state) =~= state.stock.cards@ + piles_cards(state.tableau@));
        assert(ids(table_cards(state)).to_multiset() == full_ids().to_multiset());
        assert(table_cards(state).len() == 52) by {
            broadcast use vstd::seq_lib::group_to_multiset_ensures;

            assert(ids(table_cards(state)).to_multiset().len() == ids(table_cards(state)).len());
            assert(full_ids().to_multiset().len() == full_ids().len());
        }
        assert(dealt(state));
    }
    states.push(state);
    assert(final(states)@.subrange(0, old(states)@.len() as int) =~= old(states)@);
}

} // verus!
