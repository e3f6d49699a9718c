use vstd::prelude::*;
use crate::game::position::{Position, lemma_small_coordinates};
use crate::game::GameMode;
use crate::rng::{Rng, rng, xorshift};
use crate::screen::{Screen, multiline, written};
use crate::lcd::format::decimal_digits;

verus! {

broadcast use crate::screen::lemma_extends_refl;

pub const PLAYER_CHARACTER: u8 = 0;

pub const TABLE_WIDTH: u8 = 12;

pub const MAXIMUM_CARDS: u8 = 11;

pub const TABLE_START_COLUMN: u8 = 4;

/// What the table is waiting for, and for how many more frames.
#[derive(Copy, Clone, PartialEq, Eq, Debug, Structural)]
pub enum Countdown {
    Standing(u8),
    Waiting(u8),
    Exiting(u8),
}

impl Countdown {
    /// The dealer draws again after half a second.
    pub fn standing() -> (countdown: Self)
        ensures
            countdown == Countdown::Standing(30),
    {
        Countdown::Standing(30)
    }

    /// The result shows after a second and a half.
    pub fn waiting() -> (countdown: Self)
        ensures
            countdown == Countdown::Waiting(90),
    {
        Countdown::Waiting(90)
    }

    /// The game leaves to the overworld after two and a half seconds.
    pub fn exiting() -> (countdown: Self)
        ensures
            countdown == Countdown::Exiting(150),
    {
        Countdown::Exiting(150)
    }
}

#[derive(Copy, Clone, PartialEq, Eq, Debug, Structural)]
pub enum Number {
    Ace,
    Number2,
    Number3,
    Number4,
    Number5,
    Number6,
    Number7,
    Number8,
    Number9,
    Number10,
    Jack,
    Queen,
    King,
}

#[derive(Copy, Clone, PartialEq, Eq, Debug, Structural)]
pub enum Suit {
    Diamonds,
    Hearts,
    Spades,
    Clubs,
}

impl Number {
    /// The number's bits in a card: the high four bits, 0x00 (ace) to 0xc0
    /// (king).
    pub open spec fn bits_of(self) -> u8 {
        match self {
            Number::Ace => 0x00,
            Number::Number2 => 0x10,
            Number::Number3 => 0x20,
            Number::Number4 => 0x30,
            Number::Number5 => 0x40,
            Number::Number6 => 0x50,
            Number::Number7 => 0x60,
            Number::Number8 => 0x70,
            Number::Number9 => 0x80,
            Number::Number10 => 0x90,
            Number::Jack => 0xa0,
            Number::Queen => 0xb0,
            Number::King => 0xc0,
        }
    }

    pub fn bits(self) -> (bits: u8)
        ensures
            bits == self.bits_of(),
    {
        match self {
            Number::Ace => 0x00,
            Number::Number2 => 0x10,
            Number::Number3 => 0x20,
            Number::Number4 => 0x30,
            Number::Number5 => 0x40,
            Number::Number6 => 0x50,
            Number::Number7 => 0x60,
            Number::Number8 => 0x70,
            Number::Number9 => 0x80,
            Number::Number10 => 0x90,
            Number::Jack => 0xa0,
            Number::Queen => 0xb0,
            Number::King => 0xc0,
        }
    }

    /// The number whose bits are `bits` (a king past the face cards).
    pub open spec fn of_bits(bits: u8) -> Number {
        if bits == 0x00 {
            Number::Ace
        } else if bits == 0x10 {
            Number::Number2
        } else if bits == 0x20 {
            Number::Number3
        } else if bits == 0x30 {
            Number::Number4
        } else if bits == 0x40 {
            Number::Number5
        } else if bits == 0x50 {
            Number::Number6
        } else if bits == 0x60 {
            Number::Number7
        } else if bits == 0x70 {
            Number::Number8
        } else if bits == 0x80 {
            Number::Number9
        } else if bits == 0x90 {
            Number::Number10
        } else if bits == 0xa0 {
            Number::Jack
        } else if bits == 0xb0 {
            Number::Queen
        } else {
            Number::King
        }
    }

    /// The number whose bits are `bits`.
    pub fn from_bits(bits: u8) -> (number: Number)
        requires
            bits & 0x0f == 0,
            bits <= 0xc0,
        ensures
            number.bits_of() == bits,
            number == Number::of_bits(bits),
    {
        assert(bits & 0x0f == 0 && bits <= 0xc0 ==> bits == 0x00 || bits == 0x10 || bits == 0x20
            || bits == 0x30 || bits == 0x40 || bits == 0x50 || bits == 0x60 || bits == 0x70 || bits
            == 0x80 || bits == 0x90 || bits == 0xa0 || bits == 0xb0 || bits == 0xc0) by (bit_vector);
        if bits == 0x00 {
            Number::Ace
        } else if bits == 0x10 {
            Number::Number2
        } else if bits == 0x20 {
            Number::Number3
        } else if bits == 0x30 {
            Number::Number4
        } else if bits == 0x40 {
            Number::Number5
        } else if bits == 0x50 {
            Number::Number6
        } else if bits == 0x60 {
            Number::Number7
        } else if bits == 0x70 {
            Number::Number8
        } else if bits == 0x80 {
            Number::Number9
        } else if bits == 0x90 {
            Number::Number10
        } else if bits == 0xa0 {
            Number::Jack
        } else if bits == 0xb0 {
            Number::Queen
        } else {
            Number::King
        }
    }

    pub open spec fn character_of(self) -> u8 {
        match self {
            Number::Ace => 65,
            Number::Number2 => 50,
            Number::Number3 => 51,
            Number::Number4 => 52,
            Number::Number5 => 53,
            Number::Number6 => 54,
            Number::Number7 => 55,
            Number::Number8 => 56,
            Number::Number9 => 57,
            Number::Number10 => 116,
            Number::Jack => 74,
            Number::Queen => 81,
            Number::King => 75,
        }
    }

    /// The character that shows the number: `A`, `2` to `9`, `t` for ten,
    /// `J`, `Q`, `K`.
    pub fn character(self) -> (character: u8)
        ensures
            character == self.character_of(),
    {
        match self {
            Number::Ace => 65,
            Number::Number2 => 50,
            Number::Number3 => 51,
            Number::Number4 => 52,
            Number::Number5 => 53,
            Number::Number6 => 54,
            Number::Number7 => 55,
            Number::Number8 => 56,
            Number::Number9 => 57,
            Number::Number10 => 116,
            Number::Jack => 74,
            Number::Queen => 81,
            Number::King => 75,
        }
    }

    pub open spec fn points_of(self, current_score: u8) -> u8 {
        match self {
            Number::Ace => if current_score > 10 {
                1
            } else {
                11
            },
            Number::Number2 => 2,
            Number::Number3 => 3,
            Number::Number4 => 4,
            Number::Number5 => 5,
            Number::Number6 => 6,
            Number::Number7 => 7,
            Number::Number8 => 8,
            Number::Number9 => 9,
            _ => 10,
        }
    }

    /// What the card adds to a hand worth `current_score`: an ace counts 11
    /// unless that would pass 21 (hands over 10 take 1), face cards 10.
    pub fn points(self, current_score: u8) -> (points: u8)
        ensures
            points == self.points_of(current_score),
            1 <= points <= 11,
    {
        match self {
            Number::Ace => {
                if current_score > 10 {
                    1
                } else {
                    11
                }
            },
            Number::Number2 => 2,
            Number::Number3 => 3,
            Number::Number4 => 4,
            Number::Number5 => 5,
            Number::Number6 => 6,
            Number::Number7 => 7,
            Number::Number8 => 8,
            Number::Number9 => 9,
            Number::Number10 | Number::Jack | Number::Queen | Number::King => 10,
        }
    }
}

impl Suit {
    /// The suit's bits in a card: the low four bits, 1 to 4.
    pub open spec fn bits_of(self) -> u8 {
        match self {
            Suit::Diamonds => 1,
            Suit::Hearts => 2,
            Suit::Spades => 3,
            Suit::Clubs => 4,
        }
    }

    pub fn bits(self) -> (bits: u8)
        ensures
            bits == self.bits_of(),
    {
        match self {
            Suit::Diamonds => 1,
            Suit::Hearts => 2,
            Suit::Spades => 3,
            Suit::Clubs => 4,
        }
    }

    pub fn from_bits(bits: u8) -> (suit: Suit)
        requires
            1 <= bits <= 4,
        ensures
            suit.bits_of() == bits,
    {
        if bits == 1 {
            Suit::Diamonds
        } else if bits == 2 {
            Suit::Hearts
        } else if bits == 3 {
            Suit::Spades
        } else {
            Suit::Clubs
        }
    }

    /// The custom character of the suit: characters 1 to 4 hold the suits.
    pub fn character(self) -> (character: u8)
        ensures
            character == self.bits_of(),
    {
        self.bits()
    }
}

/// A card's byte: a number's bits or'ed with a suit's bits.
pub open spec fn valid_card_bits(bits: u8) -> bool {
    &&& bits & 0xf0 <= 0xc0
    &&& 1 <= bits & 0x0f <= 4
}

proof fn lemma_card_bits(n: u8, s: u8)
    by (bit_vector)
    requires
        n & 0x0f == 0,
        n <= 0xc0,
        1 <= s <= 4,
    ensures
        (n | s) & 0xf0 == n,
        (n | s) & 0x0f == s,
{
}

proof fn lemma_high_bits(b: u8)
    by (bit_vector)
    ensures
        (b & 0xf0) & 0x0f == 0,
{
}

/// A playing card, packed into one byte.
#[derive(Copy, Clone, PartialEq, Eq, Debug)]
pub struct Card {
    bits: u8,
}

impl Card {
    #[verifier::type_invariant]
    closed spec fn inv(self) -> bool {
        valid_card_bits(self.bits)
    }

    /// The card's byte.
    pub closed spec fn bits_of(self) -> u8 {
        self.bits
    }

    pub open spec fn number_of(self) -> u8 {
        self.bits_of() & 0xf0
    }

    pub open spec fn suit_of(self) -> u8 {
        self.bits_of() & 0x0f
    }

    pub fn new(number: Number, suit: Suit) -> (card: Self)
        ensures
            card.number_of() == number.bits_of(),
            card.suit_of() == suit.bits_of(),
    {
        let n = number.bits();
        let s = suit.bits();
        proof {
            assert(n == 0x00u8 || n == 0x10u8 || n == 0x20u8 || n == 0x30u8 || n == 0x40u8 || n
                == 0x50u8 || n == 0x60u8 || n == 0x70u8 || n == 0x80u8 || n == 0x90u8 || n
                == 0xa0u8 || n == 0xb0u8 || n == 0xc0u8);
            assert(n == 0x00u8 || n == 0x10u8 || n == 0x20u8 || n == 0x30u8 || n == 0x40u8 || n
                == 0x50u8 || n == 0x60u8 || n == 0x70u8 || n == 0x80u8 || n == 0x90u8 || n
                == 0xa0u8 || n == 0xb0u8 || n == 0xc0u8 ==> n & 0x0f == 0) by (bit_vector);
            lemma_card_bits(n, s);
        }
        Card { bits: n | s }
    }

    /// The card with byte `bits`, which must be a valid card byte.
    pub fn from_bits_unchecked(bits: u8) -> (card: Self)
        requires
            valid_card_bits(bits),
        ensures
            card.bits_of() == bits,
    {
        Card { bits }
    }

    /// The card's number.
    pub open spec fn number_kind(self) -> Number {
        Number::of_bits(self.number_of())
    }

    pub fn number(self) -> (number: Number)
        ensures
            number.bits_of() == self.number_of(),
            number == self.number_kind(),
    {
        proof {
            use_type_invariant(&self);
            lemma_high_bits(self.bits);
        }
        Number::from_bits(self.bits & 0xf0)
    }

    pub fn suit(self) -> (suit: Suit)
        ensures
            suit.bits_of() == self.suit_of(),
    {
        proof {
            use_type_invariant(&self);
        }
        Suit::from_bits(self.bits & 0x0f)
    }

    /// Shows the suit at `column` of row 0 and the number below it.
    pub fn draw_at(self, screen: &mut Screen, column: u8)
        requires
            old(screen).wf(),
            column < 16,
        ensures
            final(screen).extends(*old(screen)),
            final(screen)@.character_set == old(screen)@.character_set,
            final(screen).cell(column as int, 0) == self.suit_of(),
            final(screen).cell(column as int, 1) == self.number_kind().character_of(),
            forall|k: int|
                0 <= k < 32 && k != column && k != 16 + column ==> final(screen)@.cells[k]
                    == old(screen)@.cells[k],
    {
        proof {
            lemma_small_coordinates(column, 0);
            lemma_small_coordinates(column, 1);
        }
        let ghost s0 = *screen;
        screen.set_cursor(Position::new(column, 0));
        let ghost a = *screen;
        screen.write(self.suit().character());
        let ghost s1 = *screen;
        screen.set_cursor(Position::new(column, 1));
        let ghost b = *screen;
        screen.write(self.number().character());
        proof {
            crate::screen::lemma_extends_trans(s0, a, s1);
            crate::screen::lemma_extends_trans(s1, b, *screen);
            crate::screen::lemma_extends_trans(s0, s1, *screen);
        }
    }
}

/// No card occurs twice in `cards`.
pub open spec fn distinct_cards(cards: Seq<Card>) -> bool {
    forall|i: int, j: int|
        0 <= i < j < cards.len() ==> (#[trigger] cards[i]).bits_of() != (#[trigger] cards[j]).bits_of()
}

/// The cards left to draw.
pub struct Deck {
    pub cards: Vec<Card>,
}

proof fn lemma_number_bits(index: u8)
    by (bit_vector)
    requires
        index <= 12,
    ensures
        ((index * 16) as u8) & 0x0f == 0,
        index * 16 <= 0xc0,
{
}

impl Deck {
    /// The deck holds all 52 cards in order: the diamonds from ace to king,
    /// then the hearts, the spades and the clubs.
    pub open spec fn is_full(self) -> bool {
        &&& self.cards@.len() == 52
        &&& forall|k: int|
            0 <= k < 52 ==> (#[trigger] self.cards@[k]).number_of() == (k % 13) * 16
                && self.cards@[k].suit_of() == k / 13 + 1
    }

    /// All 52 cards: the diamonds from ace to king, then the hearts, the
    /// spades and the clubs.
    pub fn full() -> (deck: Self)
        ensures
            deck.is_full(),
            // Every card occurs once.
            distinct_cards(deck.cards@),
    {
        let mut cards: Vec<Card> = Vec::new();
        let mut suit_bits: u8 = 1;
        while suit_bits <= 4
            invariant
                1 <= suit_bits <= 5,
                cards@.len() == 13 * (suit_bits - 1),
                forall|k: int|
                    0 <= k < cards@.len() ==> (#[trigger] cards@[k]).number_of() == (k % 13) * 16
                        && cards@[k].suit_of() == k / 13 + 1,
            decreases 5 - suit_bits,
        {
            let mut index: u8 = 0;
            while index <= 12
                invariant
                    1 <= suit_bits <= 4,
                    0 <= index <= 13,
                    cards@.len() == 13 * (suit_bits - 1) + index,
                    forall|k: int|
                        0 <= k < cards@.len() ==> (#[trigger] cards@[k]).number_of() == (k % 13)
                            * 16 && cards@[k].suit_of() == k / 13 + 1,
                decreases 13 - index,
            {
                proof {
                    lemma_number_bits(index);
                    lemma_card_bits((index * 16) as u8, suit_bits);
                }
                cards.push(Card::from_bits_unchecked(index * 16 | suit_bits));
                proof {
                    let k = cards@.len() - 1;
                    assert(k % 13 == index as int && k / 13 == suit_bits - 1);
                }
                index = index + 1;
            }
            suit_bits = suit_bits + 1;
        }
        proof {
            assert forall|i: int, j: int| 0 <= i < j < cards@.len() implies (#[trigger] cards@[i]).bits_of()
                != (#[trigger] cards@[j]).bits_of() by {
                if cards@[i].bits_of() == cards@[j].bits_of() {
                    assert(cards@[i].number_of() == cards@[j].number_of());
                    assert(cards@[i].suit_of() == cards@[j].suit_of());
                    assert(i % 13 == j % 13 && i / 13 == j / 13);
                }
            }
        }
        Deck { cards }
    }

    pub fn len(&self) -> (len: usize)
        ensures
            len == self.cards@.len(),
    {
        self.cards.len()
    }

    /// Takes a random card out of the deck: the card at the generator's
    /// next value modulo the deck's size, whose place the last card takes.
    /// `None`, with nothing drawn, when the deck is empty.
    pub fn remove_random(&mut self, generator: &mut Rng) -> (card: Option<Card>)
        requires
            old(self).cards@.len() <= 52,
        ensures
            old(self).cards@.len() == 0 ==> card is None && final(self).cards@ == old(self).cards@
                && final(generator).state == old(generator).state,
            old(self).cards@.len() > 0 ==> {
                let i = xorshift(old(generator).state) % (old(self).cards@.len() as u32);
                &&& final(generator).state == xorshift(old(generator).state)
                &&& card == Some(old(self).cards@[i as int])
                &&& final(self).cards@ == old(self).cards@.update(
                    i as int,
                    old(self).cards@.last(),
                ).drop_last()
            },
            // A drawn card leaves the deck for good.
            distinct_cards(old(self).cards@) ==> distinct_cards(final(self).cards@) && (card matches Some(c)
                ==> forall|k: int| 0 <= k < final(self).cards@.len() ==> (#[trigger] final(self).cards@[k]).bits_of()
                != c.bits_of()),
    {
        let len = self.cards.len();
        if len == 0 {
            return None;
        }
        let i = rng(generator) % (len as u32);
        let card = self.cards.swap_remove(i as usize);
        proof {
            let o = old(self).cards@;
            let n = self.cards@;
            if distinct_cards(o) {
                assert forall|a: int, b: int| 0 <= a < b < n.len() implies (#[trigger] n[a]).bits_of()
                    != (#[trigger] n[b]).bits_of() by {
                    if a == i {
                        assert(n[a] == o[o.len() - 1]);
                    } else if b == i {
                        assert(n[b] == o[o.len() - 1]);
                    }
                }
                assert forall|k: int| 0 <= k < n.len() implies (#[trigger] n[k]).bits_of() != card.bits_of() by {
                    if k == i {
                        assert(n[k] == o[o.len() - 1]);
                    }
                }
            }
        }
        Some(card)
    }
}

pub struct BlackJack {
    pub num_player_cards: u8,
    pub player_points: u8,
    pub num_dealer_cards: u8,
    pub dealer_points: u8,
    /// 0 on "hit", 1 on "stand".
    pub player_position: u8,
    pub countdown: Option<Countdown>,
    pub deck: Deck,
}

/// The message at the end of a round: "Player\nbusted!" when the player's
/// hand went over 21, else "Dealer\nbusted!" when the dealer's did, else
/// "Player\nwon!" or "Dealer\nwon!".
pub open spec fn result_message(player_busted: bool, dealer_busted: bool, player_won: bool) -> Seq<u8> {
    let winner = if player_busted || (!dealer_busted && player_won) {
        seq![80u8, 108, 97, 121, 101, 114]
    } else {
        seq![68u8, 101, 97, 108, 101, 114]
    };
    let outcome = if player_busted || dealer_busted {
        seq![98u8, 117, 115, 116, 101, 100, 33]
    } else {
        seq![119u8, 111, 110, 33]
    };
    winner + seq![10u8] + outcome
}

fn result_text(player_busted: bool, dealer_busted: bool, player_won: bool) -> (text: Vec<u8>)
    ensures
        text@ == result_message(player_busted, dealer_busted, player_won),
{
    let mut text: Vec<u8> = if player_busted || (!dealer_busted && player_won) {
        vec![80u8, 108, 97, 121, 101, 114]
    } else {
        vec![68u8, 101, 97, 108, 101, 114]
    };
    text.push(10u8);
    if player_busted || dealer_busted {
        text.push(98u8);
        text.push(117u8);
        text.push(115u8);
        text.push(116u8);
        text.push(101u8);
        text.push(100u8);
        text.push(33u8);
    } else {
        text.push(119u8);
        text.push(111u8);
        text.push(110u8);
        text.push(33u8);
    }
    assert(text@ =~= result_message(player_busted, dealer_busted, player_won));
    text
}

/// The screen of a deal: a blank screen with the two cards drawn for the
/// player and the one drawn for the dealer shown while the table has room
/// (`before`, `first` and `second` are the table before each draw, `g0`,
/// `g1`, `g2` the generator's states), the player's marker, "HS" and both
/// hands' points (those of `after`).
pub open spec fn dealt_cells(
    before: BlackJack,
    first: BlackJack,
    second: BlackJack,
    after: BlackJack,
    g0: u32,
    g1: u32,
    g2: u32,
) -> Seq<u8> {
    let blank = Seq::new(32, |k: int| 32u8);
    let one = if before.num_player_cards + before.num_dealer_cards < MAXIMUM_CARDS {
        card_shown(blank, before.next_card(g0), before.num_player_cards + TABLE_START_COLUMN)
    } else {
        blank
    };
    let two = if first.num_player_cards + first.num_dealer_cards < MAXIMUM_CARDS {
        card_shown(one, first.next_card(g1), first.num_player_cards + TABLE_START_COLUMN)
    } else {
        one
    };
    let three = if second.num_player_cards + second.num_dealer_cards + 1 < MAXIMUM_CARDS {
        card_shown(
            two,
            second.next_card(g2),
            TABLE_WIDTH - (second.num_dealer_cards + 1) + TABLE_START_COLUMN,
        )
    } else {
        two
    };
    let marked = written(
        written(three, before.player_position as int, 0, seq![PLAYER_CHARACTER]),
        0,
        1,
        seq![72u8, 83],
    );
    written(
        written(marked, 2, 0, decimal_digits(after.player_points as nat)),
        2,
        1,
        decimal_digits(after.dealer_points as nat),
    )
}

/// The cells after both hands' points of `table` are shown: the player's
/// from column 2 of the top row, the dealer's below.
pub open spec fn scores_shown(cells: Seq<u8>, table: BlackJack) -> Seq<u8> {
    written(
        written(cells, 2, 0, decimal_digits(table.player_points as nat)),
        2,
        1,
        decimal_digits(table.dealer_points as nat),
    )
}

/// The cells after the player's marker moves from column `from` to column
/// `to` of the top row (nothing changes when they are the same).
pub open spec fn marker_moved(cells: Seq<u8>, from: u8, to: u8) -> Seq<u8> {
    if from == to {
        cells
    } else {
        cells.update(from as int, 32u8).update(to as int, PLAYER_CHARACTER)
    }
}

/// The cells after `card` is shown in `column`: its suit on the top row,
/// its number below.
pub open spec fn card_shown(cells: Seq<u8>, card: Card, column: int) -> Seq<u8> {
    cells.update(column, card.suit_of()).update(16 + column, card.number_kind().character_of())
}

impl BlackJack {
    /// The deck and the cards on the table add up to the 52 cards, no card
    /// is left in the deck twice, and the player is on "hit" or "stand".
    pub open spec fn consistent(self) -> bool {
        &&& self.deck.cards@.len() + self.num_player_cards + self.num_dealer_cards == 52
        &&& distinct_cards(self.deck.cards@)
        &&& self.player_position <= 1
    }

    /// A hand in play: every card is worth at least a point, and the hands
    /// are in the ranges that the phase of the game allows.
    pub open spec fn wf(self) -> bool {
        &&& self.consistent()
        &&& self.num_player_cards <= self.player_points
        &&& self.num_dealer_cards <= self.dealer_points
        &&& match self.countdown {
            None | Some(Countdown::Standing(_)) => self.player_points <= 21 && self.dealer_points
                <= 16,
            Some(_) => self.player_points <= 32 && self.dealer_points <= 27,
        }
    }

    /// A table before the deal.
    pub open spec fn fresh(self) -> bool {
        &&& self.consistent()
        &&& self.num_player_cards == 0
        &&& self.num_dealer_cards == 0
        &&& self.player_points == 0
        &&& self.dealer_points == 0
        &&& self.player_position == 0
        &&& self.countdown is None
    }

    /// The player won: not bust, and above the dealer, or the dealer bust,
    /// or a black jack (21 with the first two cards).
    pub open spec fn player_won_spec(self) -> bool {
        &&& self.player_points <= 21
        &&& self.player_points > self.dealer_points || self.dealer_points > 21 || (self.player_points
            == 21 && self.num_player_cards == 2)
    }

    /// The card that the next draw from `self`'s deck takes with generator
    /// state `state`.
    pub open spec fn next_card(self, state: u32) -> Card {
        self.deck.cards@[(xorshift(state) % (self.deck.cards@.len() as u32)) as int]
    }

    /// The deck after that draw.
    pub open spec fn deck_after_draw(self, state: u32) -> Seq<Card> {
        self.deck.cards@.update(
            (xorshift(state) % (self.deck.cards@.len() as u32)) as int,
            self.deck.cards@.last(),
        ).drop_last()
    }

    /// The deck and both hands are the same in `self` and `other`.
    pub open spec fn same_hands(self, other: BlackJack) -> bool {
        &&& self.deck.cards@ == other.deck.cards@
        &&& self.num_player_cards == other.num_player_cards
        &&& self.player_points == other.player_points
        &&& self.num_dealer_cards == other.num_dealer_cards
        &&& self.dealer_points == other.dealer_points
    }

    /// `self` is `before` after the player drew the next card with
    /// generator state `state`.
    pub open spec fn player_drew(self, before: BlackJack, state: u32) -> bool {
        &&& self.deck.cards@ == before.deck_after_draw(state)
        &&& self.num_player_cards == before.num_player_cards + 1
        &&& self.player_points == before.player_points + before.next_card(
            state,
        ).number_kind().points_of(before.player_points)
        &&& self.num_dealer_cards == before.num_dealer_cards
        &&& self.dealer_points == before.dealer_points
    }

    /// `self` is `before` after the dealer drew the next card with
    /// generator state `state`.
    pub open spec fn dealer_drew(self, before: BlackJack, state: u32) -> bool {
        &&& self.deck.cards@ == before.deck_after_draw(state)
        &&& self.num_dealer_cards == before.num_dealer_cards + 1
        &&& self.dealer_points == before.dealer_points + before.next_card(
            state,
        ).number_kind().points_of(before.dealer_points)
        &&& self.num_player_cards == before.num_player_cards
        &&& self.player_points == before.player_points
    }

    /// The pause after the dealer's draw: another draw under 17, else the
    /// result.
    pub open spec fn after_stand(self) -> Option<Countdown> {
        Some(
            if self.dealer_points < 17 {
                Countdown::Standing(30)
            } else {
                Countdown::Waiting(90)
            },
        )
    }

    /// The table as it starts: nothing dealt, a full deck.
    pub open spec fn initial(self) -> bool {
        &&& self.fresh()
        &&& self.deck.is_full()
    }

    pub fn default() -> (table: Self)
        ensures
            table.initial(),
    {
        BlackJack {
            num_player_cards: 0,
            player_points: 0,
            num_dealer_cards: 0,
            dealer_points: 0,
            player_position: 0,
            countdown: None,
            deck: Deck::full(),
        }
    }

    /// Whether the table has no room to show another card.
    pub fn table_full(&self) -> (full: bool)
        requires
            self.num_player_cards + self.num_dealer_cards <= 255,
        ensures
            full == (self.num_player_cards + self.num_dealer_cards >= MAXIMUM_CARDS),
    {
        self.num_player_cards + self.num_dealer_cards >= MAXIMUM_CARDS
    }

    /// Whether the player beat the dealer.
    pub fn player_won(&self) -> (won: bool)
        ensures
            won == self.player_won_spec(),
    {
        self.player_points <= 21 && (self.player_points > self.dealer_points || self.dealer_points
            > 21 || (self.player_points == 21 && self.num_player_cards == 2) && !(self.dealer_points
            == 21 && self.dealer_points == 2))
    }

    /// Deals the player a card from the deck, shown from column 4 on while
    /// the table has room.
    pub fn add_player_card(&mut self, screen: &mut Screen, generator: &mut Rng)
        requires
            old(self).consistent(),
            old(self).deck.cards@.len() > 0,
            old(self).player_points <= 244,
            old(screen).wf(),
        ensures
            final(self).consistent(),
            final(screen).extends(*old(screen)),
            final(screen)@.character_set == old(screen)@.character_set,
            final(generator).state == xorshift(old(generator).state),
            final(self).deck.cards@ == old(self).deck_after_draw(old(generator).state),
            final(self).num_player_cards == old(self).num_player_cards + 1,
            final(self).player_points == old(self).player_points + old(self).next_card(
                old(generator).state,
            ).number_kind().points_of(old(self).player_points),
            final(self).num_dealer_cards == old(self).num_dealer_cards,
            final(self).dealer_points == old(self).dealer_points,
            final(self).player_position == old(self).player_position,
            final(self).countdown == old(self).countdown,
            final(screen)@.cells == if old(self).num_player_cards + old(self).num_dealer_cards
                < MAXIMUM_CARDS {
                card_shown(
                    old(screen)@.cells,
                    old(self).next_card(old(generator).state),
                    old(self).num_player_cards + TABLE_START_COLUMN,
                )
            } else {
                old(screen)@.cells
            },
    {
        let card = match self.deck.remove_random(generator) {
            Some(card) => card,
            None => {
                return;
            },
        };
        let ghost s0 = *screen;
        if !self.table_full() {
            let index = self.num_player_cards;
            card.draw_at(screen, index + TABLE_START_COLUMN);
            assert(screen@.cells =~= card_shown(s0@.cells, card, (index + TABLE_START_COLUMN) as int));
        } else {
            proof {
                crate::screen::lemma_extends_refl(*screen);
            }
        }
        self.num_player_cards = self.num_player_cards + 1;
        let number = card.number();
        self.player_points = self.player_points + number.points(self.player_points);
    }

    /// Deals the dealer a card from the deck, shown from column 15 leftwards
    /// while the table has room.
    pub fn add_dealer_card(&mut self, screen: &mut Screen, generator: &mut Rng)
        requires
            old(self).consistent(),
            old(self).deck.cards@.len() > 0,
            old(self).dealer_points <= 244,
            old(screen).wf(),
        ensures
            final(self).consistent(),
            final(screen).extends(*old(screen)),
            final(screen)@.character_set == old(screen)@.character_set,
            final(generator).state == xorshift(old(generator).state),
            final(self).deck.cards@ == old(self).deck_after_draw(old(generator).state),
            final(self).num_dealer_cards == old(self).num_dealer_cards + 1,
            final(self).dealer_points == old(self).dealer_points + old(self).next_card(
                old(generator).state,
            ).number_kind().points_of(old(self).dealer_points),
            final(self).num_player_cards == old(self).num_player_cards,
            final(self).player_points == old(self).player_points,
            final(self).player_position == old(self).player_position,
            final(self).countdown == old(self).countdown,
            final(screen)@.cells == if old(self).num_player_cards + old(self).num_dealer_cards + 1
                < MAXIMUM_CARDS {
                card_shown(
                    old(screen)@.cells,
                    old(self).next_card(old(generator).state),
                    TABLE_WIDTH - (old(self).num_dealer_cards + 1) + TABLE_START_COLUMN,
                )
            } else {
                old(screen)@.cells
            },
    {
        let card = match self.deck.remove_random(generator) {
            Some(card) => card,
            None => {
                return;
            },
        };
        self.num_dealer_cards = self.num_dealer_cards + 1;
        if !self.table_full() {
            let index = TABLE_WIDTH - self.num_dealer_cards;
            let ghost s0 = *screen;
            card.draw_at(screen, index + TABLE_START_COLUMN);
            assert(screen@.cells =~= card_shown(s0@.cells, card, (index + TABLE_START_COLUMN) as int));
        } else {
            proof {
                crate::screen::lemma_extends_refl(*screen);
            }
        }
        let number = card.number();
        self.dealer_points = self.dealer_points + number.points(self.dealer_points);
    }

    /// Shows both scores in column 2.
    pub fn draw_scores(&self, screen: &mut Screen)
        requires
            old(screen).wf(),
        ensures
            final(screen).extends(*old(screen)),
            final(screen)@.character_set == old(screen)@.character_set,
            final(screen)@.cells == scores_shown(old(screen)@.cells, *self),
    {
        proof {
            lemma_small_coordinates(2, 0);
            lemma_small_coordinates(2, 1);
        }
        let ghost s0 = *screen;
        screen.set_cursor(Position::new(2, 0));
        let ghost a = *screen;
        screen.print(self.player_points as u32);
        let ghost s1 = *screen;
        screen.set_cursor(Position::new(2, 1));
        let ghost b = *screen;
        screen.print(self.dealer_points as u32);
        proof {
            crate::screen::lemma_extends_trans(s0, a, s1);
            crate::screen::lemma_extends_trans(s1, b, *screen);
            crate::screen::lemma_extends_trans(s0, s1, *screen);
        }
    }

    /// The player draws a card; a hand over 21 ends the round.
    pub fn hit(&mut self, screen: &mut Screen, generator: &mut Rng)
        requires
            old(self).consistent(),
            old(self).deck.cards@.len() > 0,
            old(self).player_points <= 244,
            old(screen).wf(),
        ensures
            final(self).consistent(),
            final(screen).extends(*old(screen)),
            final(generator).state == xorshift(old(generator).state),
            final(self).deck.cards@ == old(self).deck_after_draw(old(generator).state),
            final(self).num_player_cards == old(self).num_player_cards + 1,
            final(self).player_points == old(self).player_points + old(self).next_card(
                old(generator).state,
            ).number_kind().points_of(old(self).player_points),
            final(self).num_dealer_cards == old(self).num_dealer_cards,
            final(self).dealer_points == old(self).dealer_points,
            final(self).player_position == old(self).player_position,
            final(self).countdown == if final(self).player_points > 21 {
                Some(Countdown::Waiting(90))
            } else {
                old(self).countdown
            },
            final(screen)@.cells == scores_shown(
                if old(self).num_player_cards + old(self).num_dealer_cards < MAXIMUM_CARDS {
                    card_shown(
                        old(screen)@.cells,
                        old(self).next_card(old(generator).state),
                        old(self).num_player_cards + TABLE_START_COLUMN,
                    )
                } else {
                    old(screen)@.cells
                },
                *final(self),
            ),
            old(self).wf() && old(self).countdown is None ==> final(self).wf(),
    {
        let ghost s0 = *screen;
        self.add_player_card(screen, generator);
        let ghost s1 = *screen;
        self.draw_scores(screen);
        proof {
            crate::screen::lemma_extends_trans(s0, s1, *screen);
        }
        if self.player_points > 21 {
            self.countdown = Some(Countdown::waiting());
        }
    }

    /// The dealer draws a card, and draws again after a pause while its
    /// hand is under 17.
    pub fn stand(&mut self, screen: &mut Screen, generator: &mut Rng)
        requires
            old(self).consistent(),
            old(self).deck.cards@.len() > 0,
            old(self).dealer_points <= 244,
            old(screen).wf(),
        ensures
            final(self).consistent(),
            final(screen).extends(*old(screen)),
            final(generator).state == xorshift(old(generator).state),
            final(self).deck.cards@ == old(self).deck_after_draw(old(generator).state),
            final(self).num_dealer_cards == old(self).num_dealer_cards + 1,
            final(self).dealer_points == old(self).dealer_points + old(self).next_card(
                old(generator).state,
            ).number_kind().points_of(old(self).dealer_points),
            final(self).num_player_cards == old(self).num_player_cards,
            final(self).player_points == old(self).player_points,
            final(self).player_position == old(self).player_position,
            final(self).countdown == Some(
                if final(self).dealer_points < 17 {
                    Countdown::Standing(30)
                } else {
                    Countdown::Waiting(90)
                },
            ),
            old(self).wf() && (old(self).countdown is None || old(self).countdown.unwrap() is Standing)
                ==> final(self).wf(),
            final(screen)@.cells == scores_shown(
                if old(self).num_player_cards + old(self).num_dealer_cards + 1 < MAXIMUM_CARDS {
                    card_shown(
                        old(screen)@.cells,
                        old(self).next_card(old(generator).state),
                        TABLE_WIDTH - (old(self).num_dealer_cards + 1) + TABLE_START_COLUMN,
                    )
                } else {
                    old(screen)@.cells
                },
                *final(self),
            ),
    {
        let ghost s0 = *screen;
        self.add_dealer_card(screen, generator);
        let ghost s1 = *screen;
        self.draw_scores(screen);
        proof {
            crate::screen::lemma_extends_trans(s0, s1, *screen);
        }
        self.countdown = Some(
            if self.dealer_points < 17 {
                Countdown::standing()
            } else {
                Countdown::waiting()
            },
        );
    }

    /// Moves the player's marker to `position` (0 "hit", 1 "stand").
    pub fn set_player_position(&mut self, screen: &mut Screen, position: u8)
        requires
            old(self).player_position <= 1,
            position <= 1,
            old(screen).wf(),
        ensures
            final(screen).extends(*old(screen)),
            final(screen)@.character_set == old(screen)@.character_set,
            final(self).player_position == position,
            final(self).num_player_cards == old(self).num_player_cards,
            final(self).player_points == old(self).player_points,
            final(self).num_dealer_cards == old(self).num_dealer_cards,
            final(self).dealer_points == old(self).dealer_points,
            final(self).countdown == old(self).countdown,
            final(self).deck == old(self).deck,
            final(screen)@.cells == marker_moved(
                old(screen)@.cells,
                old(self).player_position,
                position,
            ),
    {
        proof {
            crate::screen::lemma_extends_refl(*screen);
        }
        if self.player_position == position {
            return;
        }
        proof {
            lemma_small_coordinates(self.player_position, 0);
            lemma_small_coordinates(position, 0);
        }
        let ghost s0 = *screen;
        screen.set_cursor(Position::new(self.player_position, 0));
        let ghost a = *screen;
        screen.write(32u8);
        let ghost s1 = *screen;
        proof {
            crate::screen::lemma_extends_trans(s0, a, s1);
        }
        if self.player_position + 1 != position {
            screen.set_cursor(Position::new(position, 0));
        }
        let ghost s2 = *screen;
        screen.write(PLAYER_CHARACTER);
        proof {
            crate::screen::lemma_written_one(s0@.cells, self.player_position as int, 0, 32u8);
            crate::screen::lemma_written_one(s2@.cells, position as int, 0, PLAYER_CHARACTER);
            crate::screen::lemma_extends_trans(s0, s1, s2);
            crate::screen::lemma_extends_trans(s0, s2, *screen);
        }
        self.player_position = position;
    }

    /// `self` is `before` dealt with the generator at `g0`: two cards to
    /// the player and one to the dealer, which `cells` show (see
    /// `dealt_cells`).
    pub open spec fn dealt(self, before: BlackJack, g0: u32, cells: Seq<u8>) -> bool {
        let g1 = xorshift(g0);
        let g2 = xorshift(g1);
        exists|first: BlackJack, second: BlackJack|
            #[trigger] first.player_drew(before, g0) && #[trigger] second.player_drew(first, g1)
                && self.dealer_drew(second, g2) && cells == dealt_cells(
                before,
                first,
                second,
                self,
                g0,
                g1,
                g2,
            )
    }

    /// Clears the screen and deals: two cards to the player, one to the
    /// dealer.
    pub fn draw_full_screen(&mut self, screen: &mut Screen, generator: &mut Rng)
        requires
            old(self).consistent(),
            old(self).deck.cards@.len() >= 3,
            old(self).player_points <= 233,
            old(self).dealer_points <= 244,
            old(screen).wf(),
        ensures
            final(self).consistent(),
            final(screen).extends(*old(screen)),
            final(self).num_player_cards == old(self).num_player_cards + 2,
            final(self).num_dealer_cards == old(self).num_dealer_cards + 1,
            final(self).player_position == old(self).player_position,
            final(self).countdown == old(self).countdown,
            old(self).fresh() ==> final(self).wf(),
            final(generator).state == xorshift(xorshift(xorshift(old(generator).state))),
            final(self).dealt(*old(self), old(generator).state, final(screen)@.cells),
    {
        let ghost s0 = *screen;
        screen.clear();
        let ghost p0 = self.player_points;
        let ghost c0 = *screen;
        self.add_player_card(screen, generator);
        let ghost first = *self;
        let ghost p1 = self.player_points;
        let ghost c1 = *screen;
        self.add_player_card(screen, generator);
        let ghost second = *self;
        let ghost c2 = *screen;
        proof {
            crate::screen::lemma_extends_trans(s0, c0, c1);
            crate::screen::lemma_extends_trans(s0, c1, c2);
        }
        proof {
            if old(self).fresh() {
                assert(p1 <= 11);
                assert(self.player_points <= 21);
            }
        }
        self.add_dealer_card(screen, generator);
        let ghost s1 = *screen;
        proof {
            crate::screen::lemma_extends_trans(s0, c2, s1);
            lemma_small_coordinates(self.player_position, 0);
            lemma_small_coordinates(0, 1);
            assert(first.player_drew(*old(self), old(generator).state));
            assert(second.player_drew(first, xorshift(old(generator).state)));
        }
        screen.set_cursor(Position::new(self.player_position, 0));
        let ghost d0 = *screen;
        screen.write(PLAYER_CHARACTER);
        let ghost d1 = *screen;
        screen.set_cursor(Position::new(0, 1));
        let ghost d2 = *screen;
        let label = [72u8, 83];
        screen.print_bytes(&label);
        let ghost s2 = *screen;
        proof {
            crate::screen::lemma_extends_trans(s1, d0, d1);
            crate::screen::lemma_extends_trans(s1, d1, d2);
            crate::screen::lemma_extends_trans(s1, d2, s2);
        }
        self.draw_scores(screen);
        proof {
            crate::screen::lemma_extends_trans(s0, s1, s2);
            crate::screen::lemma_extends_trans(s0, s2, *screen);
        }
    }

    /// `self` is `before` after a frame of black jack with the soft input
    /// `soft_input`, the generator going from `state` to `next`, and `mode`
    /// returned.
    pub open spec fn played(
        self,
        before: BlackJack,
        soft_input: [i8; 2],
        state: u32,
        next: u32,
        mode: Option<GameMode>,
    ) -> bool {
        &&& mode is Some ==> mode == Some(GameMode::Overworld)
        &&& match before.countdown {
            Some(Countdown::Exiting(t)) => mode is Some <==> t <= 1,
            _ => mode is None,
        }
        &&& match before.countdown {
            Some(Countdown::Standing(t)) => if t > 1 {
                &&& self.countdown == Some(Countdown::Standing((t - 1) as u8))
                &&& self.same_hands(before)
                &&& next == state
            } else {
                &&& self.dealer_drew(before, state)
                &&& next == xorshift(state)
                &&& self.countdown == self.after_stand()
            },
            Some(Countdown::Waiting(t)) => {
                &&& self.countdown == if t > 1 {
                    Some(Countdown::Waiting((t - 1) as u8))
                } else {
                    Some(Countdown::Exiting(150))
                }
                &&& self.same_hands(before)
                &&& next == state
            },
            Some(Countdown::Exiting(t)) => {
                &&& self.countdown == Some(Countdown::Exiting(if t > 0 { (t - 1) as u8 } else { 0 }))
                &&& self.same_hands(before)
                &&& next == state
            },
            None => {
                &&& self.player_position == if soft_input[0] == 1 {
                    1
                } else if soft_input[0] == -1 {
                    0
                } else {
                    before.player_position
                }
                &&& soft_input[1] != 1 ==> {
                    &&& self.countdown is None
                    &&& self.same_hands(before)
                    &&& next == state
                }
                &&& soft_input[1] == 1 && self.player_position == 0 ==> {
                    &&& self.player_drew(before, state)
                    &&& next == xorshift(state)
                    &&& self.countdown == if self.player_points > 21 {
                        Some(Countdown::Waiting(90))
                    } else {
                        None
                    }
                }
                &&& soft_input[1] == 1 && self.player_position == 1 ==> {
                    &&& self.dealer_drew(before, state)
                    &&& next == xorshift(state)
                    &&& self.countdown == self.after_stand()
                }
            },
        }
        &&& self.player_position == before.player_position || before.countdown is None
    }

    /// What a frame of black jack that takes `before` to `self`, with the
    /// generator at `g0`, draws from `earlier` to `later`: while playing,
    /// the marker and the card drawn, with the scores; the dealer's card
    /// and the scores when the dealer's turn ends; the result when the wait
    /// ends; else nothing.
    pub open spec fn frame_drawn(self, before: BlackJack, soft_input: [i8; 2], g0: u32, earlier: Seq<
        u8,
    >, later: Seq<u8>) -> bool {
        let moved = marker_moved(earlier, before.player_position, self.player_position);
        let np = before.num_player_cards;
        let nd = before.num_dealer_cards;
        let dealer_card = if np + nd + 1 < MAXIMUM_CARDS {
            card_shown(moved, before.next_card(g0), TABLE_WIDTH - (nd + 1) + TABLE_START_COLUMN)
        } else {
            moved
        };
        let player_card = if np + nd < MAXIMUM_CARDS {
            card_shown(moved, before.next_card(g0), np + TABLE_START_COLUMN)
        } else {
            moved
        };
        match before.countdown {
            None => later == if soft_input[1] != 1 {
                moved
            } else if self.player_position == 0 {
                scores_shown(player_card, self)
            } else {
                scores_shown(dealer_card, self)
            },
            Some(Countdown::Standing(t)) => later == if t <= 1 {
                scores_shown(dealer_card, self)
            } else {
                earlier
            },
            Some(Countdown::Waiting(t)) => later == if t <= 1 {
                multiline(
                    earlier,
                    4,
                    4,
                    0,
                    result_message(
                        before.player_points > 21,
                        before.dealer_points > 21,
                        before.player_won_spec(),
                    ),
                ).0
            } else {
                earlier
            },
            Some(Countdown::Exiting(_)) => later == earlier,
        }
    }

    /// One frame of black jack: counts down the pauses (the dealer draws
    /// again, the result shows, the game exits), or lets the player move
    /// between "hit" and "stand" (left, right) and pick one (down).
    pub fn update(&mut self, screen: &mut Screen, generator: &mut Rng, raw_input: [i8; 2], soft_input:
        [i8; 2]) -> (mode: Option<GameMode>)
        requires
            old(self).wf(),
            old(screen).wf(),
        ensures
            final(screen).extends(*old(screen)),
            mode is None ==> final(self).wf(),
            final(self).played(*old(self), soft_input, old(generator).state, final(generator).state, mode),
            final(self).frame_drawn(*old(self), soft_input, old(generator).state, old(screen)@.cells, final(screen)@.cells),
    {
        let ghost s0 = *screen;
        proof {
            crate::screen::lemma_extends_refl(*screen);
        }
        match self.countdown {
            Some(countdown) => {
                let (next, time) = match countdown {
                    Countdown::Standing(time) => (Countdown::Standing(time.saturating_sub(1)), time.saturating_sub(1)),
                    Countdown::Waiting(time) => (Countdown::Waiting(time.saturating_sub(1)), time.saturating_sub(1)),
                    Countdown::Exiting(time) => (Countdown::Exiting(time.saturating_sub(1)), time.saturating_sub(1)),
                };
                self.countdown = Some(next);
                if time == 0 {
                    match next {
                        Countdown::Standing(_) => {
                            self.stand(screen, generator);
                        },
                        Countdown::Waiting(_) => {
                            self.countdown = Some(Countdown::exiting());
                            let player_busted = self.player_points > 21;
                            let dealer_busted = self.dealer_points > 21;
                            let won = self.player_won();
                            let text = result_text(player_busted, dealer_busted, won);
                            proof {
                                lemma_small_coordinates(4, 0);
                            }
                            screen.print_multiline(Position::new(4, 0), text.as_slice());
                        },
                        Countdown::Exiting(_) => {
                            return Some(GameMode::Overworld);
                        },
                    }
                }
            },
            None => {
                if soft_input[0] == 1 {
                    self.set_player_position(screen, 1);
                } else if soft_input[0] == -1 {
                    self.set_player_position(screen, 0);
                }
                let ghost s1 = *screen;
                if soft_input[1] == 1 {
                    if self.player_position == 0 {
                        self.hit(screen, generator);
                    } else {
                        self.stand(screen, generator);
                    }
                }
                proof {
                    crate::screen::lemma_extends_trans(s0, s1, *screen);
                }
            },
        }
        None
    }
}

/// Who wins a round: a player over 21 never does; one who beats the
/// dealer's points, or whose dealer went over 21, does; a tie wins only
/// with a black jack (21 with two cards), so a tie with three or more
/// cards is no win; fewer points than the dealer's never win.
pub proof fn law_who_wins(game: BlackJack)
    ensures
        game.player_points > 21 ==> !game.player_won_spec(),
        game.player_points <= 21 && (game.player_points > game.dealer_points || game.dealer_points
            > 21) ==> game.player_won_spec(),
        game.player_points == game.dealer_points ==> (game.player_won_spec() <==> (
        game.player_points == 21 && game.num_player_cards == 2)),
        game.player_points < game.dealer_points <= 21 ==> !game.player_won_spec(),
{
}

} // verus!
