//! Cards and piles. A pile is an ordered stack of cards, the last element
//! the exposed top; moving cards between piles is the only mutation the
//! table ever sees.

use vstd::prelude::*;
use vstd::seq_lib::lemma_multiset_commutative;

verus! {

/// One playing card: rank `0..13` (ace through king), suit `0..4` (two red,
/// two black), a face-up flag, and the precomputed face and back glyph
/// blocks drawn for it.
pub struct Card {
    pub rank: i8,
    pub suit: i8,
    pub flip: bool,
    pub face: String,
    pub back: String,
}

/// An ordered stack of cards plus the glyph block drawn when the pile is
/// empty. The last card of `cards` is the top of the pile.
pub struct Pile {
    pub cards: Vec<Card>,
    pub empty: String,
}

/// The rank and suit of a card, the identity that shuffling and dealing
/// must preserve.
pub open spec fn card_id(c: Card) -> (i8, i8) {
    (c.rank, c.suit)
}

/// The ranks and suits of a stack of cards, in stack order.
pub open spec fn ids(s: Seq<Card>) -> Seq<(i8, i8)> {
    s.map_values(|c: Card| card_id(c))
}

impl Pile {
    /// Moves the top `num` cards of `self` onto `pile` as one block,
    /// keeping their relative order; when `self` holds fewer than `num`
    /// cards, both piles are left exactly as they were.
    pub fn move_cards(&mut self, pile: &mut Pile, num: usize)
        ensures
            num > old(self).cards@.len() ==> {
                &&& final(self).cards@ == old(self).cards@
                &&& final(pile).cards@ == old(pile).cards@
            },
            num <= old(self).cards@.len() ==> {
                &&& final(self).cards@ == old(self).cards@.subrange(
                    0,
                    old(self).cards@.len() - num,
                )
                &&& final(pile).cards@ == old(pile).cards@ + old(self).cards@.subrange(
                    old(self).cards@.len() - num,
                    old(self).cards@.len() as int,
                )
            },
            final(self).empty == old(self).empty,
            final(pile).empty == old(pile).empty,
    {
        if num > self.cards.len() {
            return ;
        }
        let index = self.cards.len() - num;
        let mut temp: Vec<Card> = self.cards.split_off(index);
        pile.cards.append(&mut temp);
    }

    /// Moves the top `num` cards of `self` onto `pile` one at a time, so
    /// they arrive in reverse order; when `self` holds fewer than `num`
    /// cards, both piles are left exactly as they were.
    pub fn move_cards_reverse(&mut self, pile: &mut Pile, num: usize)
        ensures
            num > old(self).cards@.len() ==> {
                &&& final(self).cards@ == old(self).cards@
                &&& final(pile).cards@ == old(pile).cards@
            },
            num <= old(self).cards@.len() ==> {
                &&& final(self).cards@ == old(self).cards@.subrange(
                    0,
                    old(self).cards@.len() - num,
                )
                &&& final(pile).cards@ == old(pile).cards@ + old(self).cards@.subrange(
                    old(self).cards@.len() - num,
                    old(self).cards@.len() as int,
                ).reverse()
            },
            final(self).empty == old(self).empty,
            final(pile).empty == old(pile).empty,
    {
        if num > self.cards.len() {
            return ;
        }
        let ghost src = old(self).cards@;
        let ghost len = old(self).cards@.len() as int;
        let mut k: usize = 0;
        assert(self.cards@ =~= src.subrange(0, len - 0));
        assert(pile.cards@ =~= old(pile).cards@ + src.subrange(len - 0, len).reverse());
        while k < num
            invariant
                0 <= k <= num <= len,
                src.len() == len,
                self.cards@ == src.subrange(0, len - k),
                pile.cards@ == old(pile).cards@ + src.subrange(len - k, len).reverse(),
                self.empty == old(self).empty,
                pile.empty == old(pile).empty,
            decreases num - k,
        {
            self.move_cards(pile, 1);
            k = k + 1;
            assert(self.cards@ =~= src.subrange(0, len - k));
            assert(pile.cards@ =~= old(pile).cards@ + src.subrange(len - k, len).reverse());
        }
        assert(src.subrange(0, len) =~= src);
    }
}

/// Lifting a permutation through a map: two stacks that hold the same cards
/// in some order carry the same multiset of any per-card attribute.
pub proof fn lemma_map_to_multiset<A, B>(s1: Seq<A>, s2: Seq<A>, f: spec_fn(A) -> B)
    requires
        s1.to_multiset() == s2.to_multiset(),
    ensures
        s1.map_values(f).to_multiset() == s2.map_values(f).to_multiset(),
    decreases s1.len(),
{
    broadcast use vstd::seq_lib::group_to_multiset_ensures;

    if s1.len() == 0 {
        assert(s1.to_multiset().len() == 0);
        assert(s2.len() == 0);
        assert(s1.map_values(f) =~= Seq::<B>::empty());
        assert(s2.map_values(f) =~= Seq::<B>::empty());
    } else {
        let a = s1[0];
        assert(s1.contains(a));
        assert(s1.to_multiset().count(a) > 0);
        assert(s2.to_multiset().count(a) > 0);
        assert(s2.contains(a));
        let j = choose|j: int| 0 <= j < s2.len() && s2[j] == a;
        let s1r = s1.remove(0);
        let s2r = s2.remove(j);
        assert(s1r.to_multiset() =~= s1.to_multiset().remove(a));
        assert(s2r.to_multiset() =~= s2.to_multiset().remove(a));
        lemma_map_to_multiset(s1r, s2r, f);
        let m1 = s1.map_values(f);
        let m2 = s2.map_values(f);
        assert(s1r.map_values(f) =~= m1.remove(0));
        assert(s2r.map_values(f) =~= m2.remove(j));
        assert(m1.remove(0).to_multiset() =~= m1.to_multiset().remove(f(a)));
        assert(m2.remove(j).to_multiset() =~= m2.to_multiset().remove(f(a)));
        assert(m1.contains(f(a)));
        assert(m2.contains(f(a)));
        assert(m1.to_multiset() =~= m2.to_multiset()) by {
            let r1 = m1.to_multiset();
            let r2 = m2.to_multiset();
            assert forall|b: B| r1.count(b) == r2.count(b) by {
                if b == f(a) {
                    assert(r1.remove(f(a)).count(b) == r2.remove(f(a)).count(b));
                    assert(r1.count(b) > 0);
                    assert(r2.count(b) > 0);
                } else {
                    assert(r1.remove(f(a)).count(b) == r1.count(b));
                    assert(r2.remove(f(a)).count(b) == r2.count(b));
                    assert(r1.remove(f(a)).count(b) == r2.remove(f(a)).count(b));
                }
            }
        }
    }
}

/// Two stacks that hold the same cards in some order hold them element for
/// element: each card of the one occurs in the other.
pub proof fn lemma_permutation_membership<A>(s1: Seq<A>, s2: Seq<A>)
    requires
        s1.to_multiset() == s2.to_multiset(),
    ensures
        forall|i: int| 0 <= i < s2.len() ==> s1.contains(#[trigger] s2[i]),
{
    broadcast use vstd::seq_lib::group_to_multiset_ensures;

    assert forall|i: int| 0 <= i < s2.len() implies s1.contains(#[trigger] s2[i]) by {
        assert(s2.contains(s2[i]));
        assert(s2.to_multiset().count(s2[i]) > 0);
        assert(s1.to_multiset().count(s2[i]) > 0);
    }
}

/// A move between two piles keeps the multiset of cards they hold between
/// them: this is the conservation that every `move_cards` obeys.
pub proof fn lemma_move_preserves_cards(src: Seq<Card>, dst: Seq<Card>, num: int)
    requires
        0 <= num <= src.len(),
    ensures
        src.subrange(0, src.len() - num).to_multiset().add(
            (dst + src.subrange(src.len() - num, src.len() as int)).to_multiset(),
        ) == src.to_multiset().add(dst.to_multiset()),
{
    let stay = src.subrange(0, src.len() - num);
    let go = src.subrange(src.len() - num, src.len() as int);
    assert(src =~= stay + go);
    lemma_multiset_commutative(stay, go);
    lemma_multiset_commutative(dst, go);
    assert(stay.to_multiset().add((dst + go).to_multiset()) =~= src.to_multiset().add(
        dst.to_multiset(),
    ));
}

} // verus!
