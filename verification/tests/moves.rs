use klondike::cards::Card;
use klondike::cards::Pile;
use klondike::glyphs::card_back;
use klondike::glyphs::card_face;
use klondike::glyphs::empty_slot;

fn card(rank: i8, suit: i8) -> Card {
    Card {
        rank,
        suit,
        flip: false,
        face: card_face(rank, suit),
        back: card_back(),
    }
}

fn pile_of(ids: &[(i8, i8)]) -> Pile {
    let mut cards: Vec<Card> = Vec::new();
    for &(rank, suit) in ids {
        cards.push(card(rank, suit));
    }
    Pile { cards, empty: empty_slot() }
}

fn assert_pile_eq(a: &Pile, b: &Pile) {
    assert_eq!(a.cards.len(), b.cards.len());
    for (x, y) in a.cards.iter().zip(b.cards.iter()) {
        assert_eq!(x.rank, y.rank);
        assert_eq!(x.suit, y.suit);
        assert_eq!(x.flip, y.flip);
        assert_eq!(x.face, y.face);
        assert_eq!(x.back, y.back);
    }
    assert_eq!(a.empty, b.empty);
}

#[test]
fn move_more_than_held_is_a_no_op() {
    let mut a = pile_of(&[(0, 0), (1, 0), (2, 0)]);
    let mut b = pile_of(&[(5, 1)]);
    let a0 = pile_of(&[(0, 0), (1, 0), (2, 0)]);
    let b0 = pile_of(&[(5, 1)]);
    a.move_cards(&mut b, 4);
    assert_pile_eq(&a, &a0);
    assert_pile_eq(&b, &b0);
}

#[test]
fn move_zero_changes_nothing() {
    let mut a = pile_of(&[(0, 0), (1, 0)]);
    let mut b = pile_of(&[]);
    a.move_cards(&mut b, 0);
    assert_eq!(a.cards.len(), 2);
    assert_eq!(b.cards.len(), 0);
}

#[test]
fn move_takes_top_cards_in_order() {
    let mut a = pile_of(&[(0, 0), (1, 0), (2, 0), (3, 0)]);
    let mut b = pile_of(&[(9, 3)]);
    a.move_cards(&mut b, 2);
    assert_eq!(a.cards.len(), 2);
    assert_eq!(b.cards.len(), 3);
    assert_eq!((a.cards[0].rank, a.cards[1].rank), (0, 1));
    assert_eq!(b.cards[0].rank, 9);
    assert_eq!(b.cards[1].rank, 2);
    assert_eq!(b.cards[2].rank, 3);
}

#[test]
fn move_whole_pile() {
    let mut a = pile_of(&[(4, 2), (5, 2)]);
    let mut b = pile_of(&[]);
    a.move_cards(&mut b, 2);
    assert_eq!(a.cards.len(), 0);
    assert_eq!(b.cards.len(), 2);
    assert_eq!(b.cards[0].rank, 4);
    assert_eq!(b.cards[1].rank, 5);
}

#[test]
fn move_reverse_reverses_order() {
    let mut a = pile_of(&[(0, 0), (1, 0), (2, 0), (3, 0)]);
    let mut b = pile_of(&[]);
    a.move_cards_reverse(&mut b, 3);
    assert_eq!(a.cards.len(), 1);
    assert_eq!(a.cards[0].rank, 0);
    assert_eq!(b.cards.len(), 3);
    assert_eq!(b.cards[0].rank, 3);
    assert_eq!(b.cards[1].rank, 2);
    assert_eq!(b.cards[2].rank, 1);
}

#[test]
fn move_reverse_more_than_held_is_a_no_op() {
    let mut a = pile_of(&[(0, 0), (1, 0)]);
    let mut b = pile_of(&[(7, 1)]);
    let a0 = pile_of(&[(0, 0), (1, 0)]);
    let b0 = pile_of(&[(7, 1)]);
    a.move_cards_reverse(&mut b, 3);
    assert_pile_eq(&a, &a0);
    assert_pile_eq(&b, &b0);
}

#[test]
fn moves_preserve_the_total_count() {
    let mut a = pile_of(&[(0, 0), (1, 0), (2, 0)]);
    let mut b = pile_of(&[(5, 1)]);
    a.move_cards(&mut b, 2);
    assert_eq!(a.cards.len() + b.cards.len(), 4);
    b.move_cards_reverse(&mut a, 3);
    assert_eq!(a.cards.len() + b.cards.len(), 4);
}
