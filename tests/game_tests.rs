use skull_table::game::{
    beats, create_deck, create_default_deck, new_card, Card, CardColor, CardEffect, CardType,
    CardTypeName, ColorCard, Deck, GameError, MarySueCard, PirateCard, SkullCard,
};

fn color(value: i32, c: CardColor) -> CardType {
    new_card(CardTypeName::Color, Some(value), Some(c))
}

fn skull(value: i32) -> CardType {
    new_card(CardTypeName::Skull, Some(value), None)
}

fn plain(kind: CardTypeName) -> CardType {
    new_card(kind, None, None)
}

#[test]
fn test_beats() {
    let pirate = new_card(CardTypeName::Pirate, None, None);
    let skull_king = new_card(CardTypeName::SkullKing, None, None);
    let flag = new_card(CardTypeName::Flag, None, None);
    let mermaid = new_card(CardTypeName::Mermaid, None, None);
    let skull = new_card(CardTypeName::Skull, Some(5), None);
    let skull_2 = new_card(CardTypeName::Skull, Some(3), None);
    let color_red_5 = new_card(CardTypeName::Color, Some(5), Some(CardColor::Red));
    let color_red_3 = new_card(CardTypeName::Color, Some(3), Some(CardColor::Red));
    let color_blue_5 = new_card(CardTypeName::Color, Some(5), Some(CardColor::Blue));

    assert!(beats(&pirate, &flag));
    assert!(!beats(&pirate, &skull_king));
    assert!(beats(&pirate, &mermaid));
    assert!(!beats(&mermaid, &pirate));
    assert!(beats(&mermaid, &skull_king));
    assert!(beats(&skull_king, &pirate));
    assert!(beats(&skull, &skull_2));
    assert!(beats(&skull, &color_red_3));
    // A new play of another suit never overtakes the card it is compared with.
    assert!(!beats(&color_red_3, &color_blue_5));
    assert!(beats(&color_red_5, &color_red_3));
    assert!(!beats(&color_red_5, &color_blue_5));
    assert!(!beats(&color_red_3, &color_red_5));
}

#[test]
fn same_suit_goes_by_value() {
    for c in [CardColor::Red, CardColor::Blue, CardColor::Green] {
        for a in 1..=13 {
            for b in 1..=13 {
                let x = color(a, c);
                let y = color(b, c);
                assert_eq!(beats(&x, &y), a > b);
                if a != b {
                    assert_ne!(beats(&x, &y), beats(&y, &x));
                }
            }
        }
    }
}

#[test]
fn anything_beats_a_flag_played_after() {
    let flag = plain(CardTypeName::Flag);
    let mut wild_flag = plain(CardTypeName::MarySue);
    assert_eq!(wild_flag.set_card_effect(CardEffect::Flag), Ok(()));
    let firsts = [
        flag,
        wild_flag,
        plain(CardTypeName::Pirate),
        plain(CardTypeName::Mermaid),
        plain(CardTypeName::SkullKing),
        plain(CardTypeName::MarySue),
        skull(1),
        color(1, CardColor::Green),
    ];
    for a in firsts.iter() {
        assert!(beats(a, &flag));
        assert!(beats(a, &wild_flag));
    }
}

#[test]
fn lone_flag_first_is_beaten_by_a_later_card() {
    let flag = plain(CardTypeName::Flag);
    assert!(beats(&color(1, CardColor::Red), &flag));
    assert!(!beats(&flag, &color(1, CardColor::Red)));
}

#[test]
fn pirate_and_skull_king() {
    let pirate = plain(CardTypeName::Pirate);
    let king = plain(CardTypeName::SkullKing);
    assert!(!beats(&pirate, &king));
    assert!(beats(&king, &pirate));
}

#[test]
fn mermaid_and_pirate() {
    let pirate = plain(CardTypeName::Pirate);
    let mermaid = plain(CardTypeName::Mermaid);
    assert!(!beats(&mermaid, &pirate));
    assert!(beats(&pirate, &mermaid));
}

#[test]
fn trump_beats_every_suit_card() {
    for v in 1..=13 {
        for w in 1..=13 {
            for c in [CardColor::Red, CardColor::Blue, CardColor::Green] {
                assert!(beats(&skull(v), &color(w, c)));
                assert!(!beats(&color(w, c), &skull(v)));
            }
        }
    }
}

#[test]
fn trump_against_trump() {
    assert!(beats(&skull(9), &skull(4)));
    assert!(!beats(&skull(4), &skull(9)));
    assert!(!beats(&skull(4), &skull(4)));
}

#[test]
fn off_suit_cannot_overtake() {
    let red_5 = color(5, CardColor::Red);
    let blue_9 = color(9, CardColor::Blue);
    assert!(!beats(&red_5, &blue_9));
    assert!(!beats(&blue_9, &red_5));
}

#[test]
fn wild_card_plays_as_pirate_until_chosen() {
    let wild = plain(CardTypeName::MarySue);
    assert_eq!(wild.card_type(), CardTypeName::Pirate);
    assert!(beats(&wild, &plain(CardTypeName::Mermaid)));
    assert!(!beats(&wild, &plain(CardTypeName::SkullKing)));
    assert!(!beats(&plain(CardTypeName::Mermaid), &wild));
}

#[test]
fn wild_card_effect_is_set_once() {
    let mut wild = plain(CardTypeName::MarySue);
    assert_eq!(wild.set_card_effect(CardEffect::Flag), Ok(()));
    assert_eq!(wild.card_type(), CardTypeName::Flag);
    assert_eq!(
        wild.set_card_effect(CardEffect::Pirate),
        Err(GameError::InvalidOperation)
    );
    assert_eq!(wild.card_type(), CardTypeName::Flag);
    assert_eq!(wild, CardType::MarySue(MarySueCard { choice: Some(CardEffect::Flag) }));
}

#[test]
fn effect_on_other_cards_is_refused() {
    let mut cards = vec![
        skull(3),
        color(2, CardColor::Blue),
        plain(CardTypeName::Flag),
        plain(CardTypeName::Pirate),
        plain(CardTypeName::Mermaid),
        plain(CardTypeName::SkullKing),
    ];
    for c in cards.iter_mut() {
        let before = *c;
        assert_eq!(c.set_card_effect(CardEffect::Pirate), Err(GameError::InvalidOperation));
        assert_eq!(*c, before);
    }
    let mut p = PirateCard {};
    assert_eq!(p.set_card_effect(CardEffect::Flag), Err(GameError::InvalidOperation));
}

#[test]
fn card_attributes() {
    let red = color(7, CardColor::Red);
    assert_eq!(red.card_type(), CardTypeName::Color);
    assert_eq!(red.card_color(), CardColor::Red);
    assert_eq!(red.card_value(), Some(7));
    assert!(!red.is_card_special());
    assert!(!red.is_card_atout());

    let s = skull(4);
    assert_eq!(s.card_type(), CardTypeName::Skull);
    assert_eq!(s.card_color(), CardColor::Black);
    assert_eq!(s.card_value(), Some(4));
    assert!(!s.is_card_special());
    assert!(s.is_card_atout());

    let expected = [
        (CardTypeName::Flag, CardColor::White),
        (CardTypeName::Pirate, CardColor::Brown),
        (CardTypeName::Mermaid, CardColor::Pink),
        (CardTypeName::SkullKing, CardColor::DarkBlue),
    ];
    for (kind, col) in expected {
        let c = plain(kind);
        assert_eq!(c.card_type(), kind);
        assert_eq!(c.card_color(), col);
        assert_eq!(c.card_value(), None);
        assert!(c.is_card_special());
        assert!(!c.is_card_atout());
    }
    let wild = plain(CardTypeName::MarySue);
    assert_eq!(wild.card_color(), CardColor::Brown);
    assert_eq!(wild.card_value(), None);
    assert!(wild.is_card_special());
    assert!(!wild.is_card_atout());
    assert_eq!(
        ColorCard { color: CardColor::Green, value: 2 }.card_value(),
        Some(2)
    );
    assert_eq!(SkullCard { value: 8 }.card_value(), Some(8));
}

fn count(cards: &[CardType], pred: impl Fn(&CardType) -> bool) -> usize {
    cards.iter().filter(|c| pred(c)).count()
}

#[test]
fn standard_deck_has_sixty_six_cards() {
    let colors = vec![CardColor::Red, CardColor::Blue, CardColor::Green];
    let deck = Deck::build(&colors, 13, 13);
    assert_eq!(deck.cards.len(), 66);
    assert_eq!(create_deck(13).cards.len(), 66);
    assert_eq!(create_default_deck().cards.len(), 66);
    assert_eq!(Deck::new().cards.len(), 66);
    let cards = &deck.cards;
    assert_eq!(count(cards, |c| matches!(c, CardType::Color(_))), 39);
    assert_eq!(count(cards, |c| matches!(c, CardType::Skull(_))), 13);
    assert_eq!(count(cards, |c| matches!(c, CardType::Flag(_))), 5);
    assert_eq!(count(cards, |c| matches!(c, CardType::Pirate(_))), 5);
    assert_eq!(count(cards, |c| matches!(c, CardType::Mermaid(_))), 2);
    assert_eq!(count(cards, |c| matches!(c, CardType::SkullKing(_))), 1);
    assert_eq!(count(cards, |c| matches!(c, CardType::MarySue(_))), 1);
}

#[test]
fn deck_order_is_deterministic() {
    let deck = create_deck(2);
    let expected = vec![
        color(1, CardColor::Red),
        color(2, CardColor::Red),
        color(1, CardColor::Blue),
        color(2, CardColor::Blue),
        color(1, CardColor::Green),
        color(2, CardColor::Green),
        skull(1),
        skull(2),
    ];
    assert_eq!(deck.cards[..8].to_vec(), expected);
    assert_eq!(deck.cards.len(), 8 + 14);
    assert_eq!(deck.cards[20], plain(CardTypeName::SkullKing));
    assert_eq!(deck.cards[21], plain(CardTypeName::MarySue));
}

#[test]
fn deck_with_other_sizes() {
    let deck = Deck::build(&vec![CardColor::Red, CardColor::Blue], 4, 2);
    assert_eq!(deck.cards.len(), 2 * 4 + 2 + 14);
    let empty_suits = Deck::build(&vec![], 0, 0);
    assert_eq!(empty_suits.cards.len(), 14);
    let negative = create_deck(-3);
    assert_eq!(negative.cards.len(), 14);
}

#[test]
fn dealing_pops_the_last_card() {
    let mut deck = create_deck(1);
    let total = deck.cards.len();
    assert_eq!(deck.deal_one(), Ok(plain(CardTypeName::MarySue)));
    assert_eq!(deck.deal_one(), Ok(plain(CardTypeName::SkullKing)));
    assert_eq!(deck.cards.len(), total - 2);
    let mut empty = Deck::default();
    assert_eq!(empty.deal_one(), Err(GameError::EmptyResource));
    assert_eq!(empty.cards.len(), 0);
}

fn sorted_key(cards: &[CardType]) -> Vec<String> {
    let mut keys: Vec<String> = cards.iter().map(|c| format!("{:?}", c)).collect();
    keys.sort();
    keys
}

#[test]
fn shuffle_keeps_the_cards() {
    let mut deck = create_default_deck();
    let before = deck.cards.clone();
    deck.shuffle();
    assert_eq!(deck.cards.len(), before.len());
    assert_eq!(sorted_key(&deck.cards), sorted_key(&before));
    assert_ne!(deck.cards, before);
}
