use skull_table::game::{
    fresh_card, new_card, Card, CardColor, CardEffect, CardType, CardTypeName, GameError,
    MarySueCard,
};
use skull_table::online_board::{
    clear_table_after_game, new_seat, new_table, play_card, store_winner_fold, trick_winner,
    PlayedCard, Table,
};
use skull_table::user::Player;

fn player(id: i32, name: &str) -> Player {
    Player { name: name.to_string(), player_id: id }
}

fn color(value: i32, c: CardColor) -> CardType {
    new_card(CardTypeName::Color, Some(value), Some(c))
}

fn plain(kind: CardTypeName) -> CardType {
    new_card(kind, None, None)
}

fn table_of(n: i32) -> Table {
    let mut table = new_table(n);
    for id in 1..=n {
        table.seats.push(new_seat(player(id, &format!("p{}", id))));
    }
    table
}

fn total_cards(t: &Table) -> usize {
    t.deck.cards.len()
        + t.river.len()
        + t.seats.iter().map(|s| s.hand.len() + s.plis.len()).sum::<usize>()
}

#[test]
fn pirate_takes_the_trick_from_a_trump() {
    let a = player(1, "A");
    let b = player(2, "B");
    let c = player(3, "C");
    let mut river: Vec<PlayedCard> = Vec::new();
    play_card(&mut river, &a, new_card(CardTypeName::Skull, Some(5), None));
    play_card(&mut river, &b, color(3, CardColor::Red));
    play_card(&mut river, &c, plain(CardTypeName::Pirate));
    assert_eq!(trick_winner(&river), Ok(3));
}

#[test]
fn first_suit_holds_against_off_suit() {
    let a = player(1, "A");
    let b = player(2, "B");
    let mut river: Vec<PlayedCard> = Vec::new();
    play_card(&mut river, &a, color(5, CardColor::Red));
    play_card(&mut river, &b, color(9, CardColor::Blue));
    assert_eq!(trick_winner(&river), Ok(1));
}

#[test]
fn higher_card_of_the_suit_wins() {
    let mut river: Vec<PlayedCard> = Vec::new();
    play_card(&mut river, &player(1, "A"), color(5, CardColor::Green));
    play_card(&mut river, &player(2, "B"), color(11, CardColor::Green));
    play_card(&mut river, &player(3, "C"), color(7, CardColor::Green));
    assert_eq!(trick_winner(&river), Ok(2));
}

#[test]
fn rock_paper_scissors_follows_the_fold() {
    let mut river: Vec<PlayedCard> = Vec::new();
    play_card(&mut river, &player(1, "A"), plain(CardTypeName::SkullKing));
    play_card(&mut river, &player(2, "B"), plain(CardTypeName::Mermaid));
    play_card(&mut river, &player(3, "C"), plain(CardTypeName::Pirate));
    assert_eq!(trick_winner(&river), Ok(3));
}

#[test]
fn trick_with_no_play_or_only_flags() {
    let river: Vec<PlayedCard> = Vec::new();
    assert_eq!(trick_winner(&river), Err(GameError::EmptyResource));
    let mut flags: Vec<PlayedCard> = Vec::new();
    play_card(&mut flags, &player(1, "A"), plain(CardTypeName::Flag));
    play_card(&mut flags, &player(2, "B"), plain(CardTypeName::Flag));
    assert_eq!(trick_winner(&flags), Err(GameError::NoWinner));
    play_card(&mut flags, &player(3, "C"), color(1, CardColor::Red));
    assert_eq!(trick_winner(&flags), Ok(3));
}

#[test]
fn plays_are_ranked_in_turn() {
    let mut river: Vec<PlayedCard> = Vec::new();
    play_card(&mut river, &player(4, "D"), color(1, CardColor::Red));
    play_card(&mut river, &player(2, "B"), color(2, CardColor::Red));
    assert_eq!(river.len(), 2);
    assert_eq!(river[0].order, 0);
    assert_eq!(river[1].order, 1);
    assert_eq!(river[0].player_id, 4);
    assert_eq!(river[1].card, color(2, CardColor::Red));
}

#[test]
fn resolving_an_empty_river_is_an_error() {
    let mut table = table_of(2);
    let before = total_cards(&table);
    assert_eq!(store_winner_fold(&mut table, 1), Err(GameError::EmptyResource));
    assert_eq!(total_cards(&table), before);
    assert!(table.seats.iter().all(|s| s.plis.is_empty()));
}

#[test]
fn resolving_for_an_unknown_player_is_an_error() {
    let mut table = table_of(2);
    table.deal_to(1).unwrap();
    let card = table.seats[0].hand[0];
    table.play_from_hand(1, card).unwrap();
    assert_eq!(store_winner_fold(&mut table, 9), Err(GameError::InvalidOperation));
    assert_eq!(table.river.len(), 1);
}

#[test]
fn winner_collects_the_river_last_first() {
    let mut table = table_of(3);
    let cards = [
        color(2, CardColor::Red),
        color(8, CardColor::Red),
        color(4, CardColor::Red),
    ];
    for (i, c) in cards.iter().enumerate() {
        table.seats[i].hand.push(*c);
    }
    for (i, c) in cards.iter().enumerate() {
        table.play_from_hand(i as i32 + 1, *c).unwrap();
    }
    let winner = trick_winner(&table.river).unwrap();
    assert_eq!(winner, 2);
    assert_eq!(store_winner_fold(&mut table, winner), Ok(()));
    assert!(table.river.is_empty());
    assert_eq!(table.seats[1].plis, vec![cards[2], cards[1], cards[0]]);
    assert!(table.seats[0].plis.is_empty());
    assert!(table.seats[2].plis.is_empty());
}

#[test]
fn dealing_to_seats() {
    let mut table = table_of(2);
    let top = *table.deck.cards.last().unwrap();
    assert_eq!(table.deal_to(2), Ok(()));
    assert_eq!(table.seats[1].hand, vec![top]);
    assert_eq!(table.deck.cards.len(), 65);
    assert_eq!(table.deal_to(7), Err(GameError::InvalidOperation));
    assert_eq!(table.deck.cards.len(), 65);
    table.deck.cards.clear();
    assert_eq!(table.deal_to(1), Err(GameError::EmptyResource));
    assert!(table.seats[0].hand.is_empty());
}

#[test]
fn playing_a_card_not_in_hand() {
    let mut table = table_of(2);
    table.seats[0].hand.push(color(3, CardColor::Blue));
    assert_eq!(
        table.play_from_hand(1, color(4, CardColor::Blue)),
        Err(GameError::EmptyResource)
    );
    assert_eq!(
        table.play_from_hand(5, color(3, CardColor::Blue)),
        Err(GameError::InvalidOperation)
    );
    assert_eq!(table.seats[0].hand.len(), 1);
    assert!(table.river.is_empty());
    assert_eq!(table.play_from_hand(1, color(3, CardColor::Blue)), Ok(()));
    assert!(table.seats[0].hand.is_empty());
    assert_eq!(table.river[0].player_id, 1);
}

#[test]
fn playing_takes_the_first_copy() {
    let mut table = table_of(1);
    let a = color(1, CardColor::Red);
    let b = color(2, CardColor::Red);
    table.seats[0].hand = vec![a, b, a];
    table.play_from_hand(1, a).unwrap();
    assert_eq!(table.seats[0].hand, vec![b, a]);
}

#[test]
fn clearing_returns_every_card() {
    let mut table = table_of(3);
    for _ in 0..2 {
        for id in 1..=3 {
            table.deal_to(id).unwrap();
        }
    }
    for id in 1..=3 {
        let card = table.seats[id as usize - 1].hand[0];
        table.play_from_hand(id, card).unwrap();
    }
    let winner = trick_winner(&table.river).unwrap_or(1);
    store_winner_fold(&mut table, winner).unwrap();
    for id in 1..=3 {
        let card = table.seats[id as usize - 1].hand[0];
        table.play_from_hand(id, card).unwrap();
    }
    assert_eq!(total_cards(&table), 66);
    clear_table_after_game(&mut table);
    assert_eq!(table.deck.cards.len(), 66);
    assert!(table.river.is_empty());
    for s in table.seats.iter() {
        assert!(s.hand.is_empty());
        assert!(s.plis.is_empty());
    }
    assert_eq!(table.seats.len(), 3);
    assert_eq!(table.seats[2].player.player_id, 3);
}

#[test]
fn clearing_an_empty_table_is_harmless() {
    let mut table = Table::new();
    clear_table_after_game(&mut table);
    assert!(table.deck.cards.is_empty());
    let mut fresh = table_of(2);
    clear_table_after_game(&mut fresh);
    assert_eq!(fresh.deck.cards.len(), 66);
    assert_eq!(fresh.seat_count, 2);
}

#[test]
fn new_table_and_seat() {
    let table = new_table(4);
    assert_eq!(table.seat_count, 4);
    assert_eq!(table.deck.cards.len(), 66);
    assert!(table.seats.is_empty());
    let seat = new_seat(player(3, "Ann"));
    assert_eq!(seat.player.player_id, 3);
    assert_eq!(seat.player.name, "Ann");
    assert!(seat.hand.is_empty() && seat.plis.is_empty());
    let empty = Table::new();
    assert_eq!(empty.seat_count, 0);
    assert!(empty.deck.cards.is_empty());
}

#[test]
fn clearing_gives_back_a_fresh_wild_card() {
    let mut table = table_of(1);
    let mut wild = plain(CardTypeName::MarySue);
    assert_eq!(wild.set_card_effect(CardEffect::Flag), Ok(()));
    let pos = table
        .deck
        .cards
        .iter()
        .position(|c| matches!(c, CardType::MarySue(_)))
        .unwrap();
    table.deck.cards.remove(pos);
    table.seats[0].plis.push(wild);
    assert_eq!(total_cards(&table), 66);
    clear_table_after_game(&mut table);
    assert_eq!(table.deck.cards.len(), 66);
    let wilds: Vec<&CardType> = table
        .deck
        .cards
        .iter()
        .filter(|c| matches!(c, CardType::MarySue(_)))
        .collect();
    assert_eq!(wilds, vec![&CardType::MarySue(MarySueCard { choice: None })]);
    let mut back = *wilds[0];
    assert_eq!(back.set_card_effect(CardEffect::Pirate), Ok(()));
    assert_eq!(fresh_card(wild), plain(CardTypeName::MarySue));
    assert_eq!(fresh_card(color(4, CardColor::Red)), color(4, CardColor::Red));
}
