use arduino_arcade::game::black_jack::{BlackJack, Card, Countdown, Deck, Number, Suit};
use arduino_arcade::game::GameMode;
use arduino_arcade::rng::Rng;
use arduino_arcade::screen::Screen;

#[test]
fn countdowns() {
    assert_eq!(Countdown::standing(), Countdown::Standing(30));
    assert_eq!(Countdown::waiting(), Countdown::Waiting(90));
    assert_eq!(Countdown::exiting(), Countdown::Exiting(150));
}

#[test]
fn number_points() {
    assert_eq!(Number::Ace.points(0), 11);
    assert_eq!(Number::Ace.points(10), 11);
    assert_eq!(Number::Ace.points(11), 1);
    assert_eq!(Number::Number2.points(5), 2);
    assert_eq!(Number::Number9.points(5), 9);
    assert_eq!(Number::Number10.points(5), 10);
    assert_eq!(Number::Jack.points(5), 10);
    assert_eq!(Number::Queen.points(20), 10);
    assert_eq!(Number::King.points(0), 10);
}

#[test]
fn characters() {
    assert_eq!(Number::Ace.character(), b'A');
    assert_eq!(Number::Number7.character(), b'7');
    assert_eq!(Number::Number10.character(), b't');
    assert_eq!(Number::King.character(), b'K');
    assert_eq!(Suit::Diamonds.character(), 1);
    assert_eq!(Suit::Clubs.character(), 4);
}

#[test]
fn card_packs_number_and_suit() {
    let card = Card::new(Number::Queen, Suit::Spades);
    assert!(card.number() == Number::Queen);
    assert!(card.suit() == Suit::Spades);
    let card = Card::from_bits_unchecked(0x92);
    assert!(card.number() == Number::Number10);
    assert!(card.suit() == Suit::Hearts);
}

#[test]
fn full_deck_has_every_card_once() {
    let deck = Deck::full();
    assert_eq!(deck.len(), 52);
    for (k, card) in deck.cards.iter().enumerate() {
        assert!(card.number().bits() == (k % 13) as u8 * 16);
        assert!(card.suit().bits() == (k / 13) as u8 + 1);
    }
    for i in 0..52 {
        for j in i + 1..52 {
            assert!(deck.cards[i] != deck.cards[j]);
        }
    }
}

#[test]
fn remove_random_takes_the_card_out() {
    let mut deck = Deck::full();
    let mut generator = Rng::new(1);
    let card = deck.remove_random(&mut generator).unwrap();
    assert!(card == Card::new(Number::Number9, Suit::Hearts));
    assert_eq!(deck.len(), 51);
    assert!(!deck.cards.contains(&card));
    assert!(deck.cards[21] == Card::new(Number::King, Suit::Clubs));
    let mut empty = Deck { cards: Vec::new() };
    assert!(empty.remove_random(&mut generator).is_none());
}

#[test]
fn deal_from_a_fresh_table() {
    let mut table = BlackJack::default();
    let mut screen = Screen::new();
    let mut generator = Rng::new(1);
    table.draw_full_screen(&mut screen, &mut generator);
    assert_eq!(table.num_player_cards, 2);
    assert_eq!(table.player_points, 16);
    assert_eq!(table.num_dealer_cards, 1);
    assert_eq!(table.dealer_points, 10);
    assert_eq!(table.deck.len(), 49);
    assert_eq!(generator.state, 2647435461);
    // suit and number of the first player card in column 4
    assert_eq!(screen.cells()[4], 2);
    assert_eq!(screen.cells()[16 + 4], b'9');
    assert_eq!(&screen.cells()[16..18], b"HS");
}

#[test]
fn player_won_rules() {
    let mut table = BlackJack::default();
    table.player_points = 20;
    table.dealer_points = 19;
    assert!(table.player_won());
    table.dealer_points = 20;
    assert!(!table.player_won());
    table.dealer_points = 22;
    assert!(table.player_won());
    table.player_points = 22;
    assert!(!table.player_won());
    table.player_points = 21;
    table.num_player_cards = 2;
    table.dealer_points = 21;
    assert!(table.player_won());
}

#[test]
fn table_full_at_eleven_cards() {
    let mut table = BlackJack::default();
    table.num_player_cards = 6;
    table.num_dealer_cards = 4;
    assert!(!table.table_full());
    table.num_dealer_cards = 5;
    assert!(table.table_full());
}

#[test]
fn hit_busts_into_waiting() {
    let mut table = BlackJack::default();
    let mut screen = Screen::new();
    let mut generator = Rng::new(1);
    table.draw_full_screen(&mut screen, &mut generator);
    table.player_points = 21;
    table.hit(&mut screen, &mut generator);
    assert_eq!(table.num_player_cards, 3);
    assert!(table.player_points > 21);
    assert_eq!(table.countdown, Some(Countdown::Waiting(90)));
}

#[test]
fn stand_draws_for_the_dealer() {
    let mut table = BlackJack::default();
    let mut screen = Screen::new();
    let mut generator = Rng::new(1);
    table.draw_full_screen(&mut screen, &mut generator);
    table.stand(&mut screen, &mut generator);
    assert_eq!(table.num_dealer_cards, 2);
    let expected = if table.dealer_points < 17 { Countdown::Standing(30) } else { Countdown::Waiting(90) };
    assert_eq!(table.countdown, Some(expected));
}

#[test]
fn update_moves_marker_and_exits_after_countdown() {
    let mut table = BlackJack::default();
    let mut screen = Screen::new();
    let mut generator = Rng::new(1);
    table.draw_full_screen(&mut screen, &mut generator);
    assert!(table.update(&mut screen, &mut generator, [0, 0], [1, 0]).is_none());
    assert_eq!(table.player_position, 1);
    assert_eq!(screen.cells()[1], 0);
    assert_eq!(screen.cells()[0], b' ');
    table.countdown = Some(Countdown::Exiting(2));
    assert!(table.update(&mut screen, &mut generator, [0, 0], [0, 0]).is_none());
    assert_eq!(table.countdown, Some(Countdown::Exiting(1)));
    assert!(matches!(table.update(&mut screen, &mut generator, [0, 0], [0, 0]), Some(GameMode::Overworld)));
}

#[test]
fn waiting_shows_result_then_exits() {
    let mut table = BlackJack::default();
    let mut screen = Screen::new();
    let mut generator = Rng::new(1);
    table.draw_full_screen(&mut screen, &mut generator);
    table.countdown = Some(Countdown::Waiting(1));
    assert!(table.update(&mut screen, &mut generator, [0, 0], [0, 0]).is_none());
    assert_eq!(table.countdown, Some(Countdown::Exiting(150)));
    assert_eq!(&screen.cells()[4..10], b"Player");
    assert_eq!(&screen.cells()[20..24], b"won!");
}

#[test]
fn a_busted_dealer_is_announced() {
    let mut table = BlackJack::default();
    let mut screen = Screen::new();
    let mut generator = Rng::new(1);
    table.draw_full_screen(&mut screen, &mut generator);
    table.player_points = 20;
    table.dealer_points = 25;
    table.countdown = Some(Countdown::Waiting(1));
    assert!(table.update(&mut screen, &mut generator, [0, 0], [0, 0]).is_none());
    assert_eq!(&screen.cells()[4..10], b"Dealer");
    assert_eq!(&screen.cells()[20..27], b"busted!");
}
