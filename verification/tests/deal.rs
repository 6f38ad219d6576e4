use klondike::table::State;
use klondike::table::initialize_table;

fn dealt_state() -> State {
    let mut states: Vec<State> = Vec::new();
    initialize_table(&mut states);
    states.pop().unwrap()
}

#[test]
fn deal_columns_hold_one_through_seven() {
    let st = dealt_state();
    assert_eq!(st.tableau.len(), 7);
    for i in 0..7 {
        assert_eq!(st.tableau[i].cards.len(), i + 1);
    }
}

#[test]
fn deal_tops_face_up_rest_face_down() {
    let st = dealt_state();
    for column in &st.tableau {
        let n = column.cards.len();
        assert!(column.cards[n - 1].flip);
        for j in 0..n - 1 {
            assert!(!column.cards[j].flip);
        }
    }
}

#[test]
fn deal_stock_waste_foundations() {
    let st = dealt_state();
    assert_eq!(st.stock.cards.len(), 24);
    for card in &st.stock.cards {
        assert!(!card.flip);
    }
    assert_eq!(st.waste.cards.len(), 0);
    assert_eq!(st.foundations.len(), 4);
    for f in &st.foundations {
        assert_eq!(f.cards.len(), 0);
    }
    assert_eq!(st.draw, 1);
    assert_eq!(st.score, 0);
}

#[test]
fn deal_total_is_fifty_two() {
    let st = dealt_state();
    let mut total = st.stock.cards.len() + st.waste.cards.len();
    for f in &st.foundations {
        total += f.cards.len();
    }
    for c in &st.tableau {
        total += c.cards.len();
    }
    assert_eq!(total, 52);
}

#[test]
fn deal_is_a_permutation_of_the_identity_deck() {
    let st = dealt_state();
    let mut pairs: Vec<(i8, i8)> = Vec::new();
    for card in &st.stock.cards {
        pairs.push((card.rank, card.suit));
    }
    for card in &st.waste.cards {
        pairs.push((card.rank, card.suit));
    }
    for f in &st.foundations {
        for card in &f.cards {
            pairs.push((card.rank, card.suit));
        }
    }
    for c in &st.tableau {
        for card in &c.cards {
            pairs.push((card.rank, card.suit));
        }
    }
    pairs.sort();
    let mut expected: Vec<(i8, i8)> = Vec::new();
    for suit in 0..4 {
        for rank in 0..13 {
            expected.push((rank, suit));
        }
    }
    expected.sort();
    assert_eq!(pairs, expected);
}

#[test]
fn deal_cards_carry_their_glyphs() {
    let st = dealt_state();
    for card in &st.stock.cards {
        assert_eq!(card.face, klondike::glyphs::card_face(card.rank, card.suit));
        assert_eq!(card.back, klondike::glyphs::card_back());
    }
    assert_eq!(st.stock.empty, klondike::glyphs::empty_slot());
}

#[test]
fn shuffled_deck_is_a_permutation_of_the_identity_deck() {
    let back = klondike::glyphs::card_back();
    let deck = klondike::table::shuffled_deck(&back);
    assert_eq!(deck.len(), 52);
    let mut pairs: Vec<(i8, i8)> = Vec::new();
    for card in &deck {
        assert!(!card.flip);
        pairs.push((card.rank, card.suit));
    }
    pairs.sort();
    let mut expected: Vec<(i8, i8)> = Vec::new();
    for suit in 0..4 {
        for rank in 0..13 {
            expected.push((rank, suit));
        }
    }
    expected.sort();
    assert_eq!(pairs, expected);
}

#[test]
fn two_deals_push_two_states() {
    let mut states: Vec<State> = Vec::new();
    initialize_table(&mut states);
    initialize_table(&mut states);
    assert_eq!(states.len(), 2);
}
