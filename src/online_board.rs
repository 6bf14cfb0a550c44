use vstd::multiset::Multiset;
use vstd::prelude::*;

use crate::game::{beats, beats_spec, create_default_deck, deck_cards, kind, standard_colors};
use crate::game::lemma_deck_cards_fresh;
use crate::game::{fresh, fresh_card, Card, CardColor, CardEffect, CardType, CardTypeName};
use crate::game::{Deck, GameError, MarySueCard, PlayCard};
use crate::user::Player;

verus! {

broadcast use {
    vstd::seq_lib::group_to_multiset_ensures,
    vstd::multiset::group_multiset_axioms,
    vstd::multiset::group_multiset_properties,
    vstd::seq_lib::lemma_multiset_commutative,
};

/// A player's place at the table: the cards in hand and the cards won in
/// tricks this round.
#[derive(Debug, Clone)]
pub struct Seat {
    pub player: Player,
    pub hand: Vec<PlayCard>,
    pub plis: Vec<PlayCard>,
}

/// One play of the current trick: its rank in the trick, who played, and what.
#[derive(Debug, Clone)]
pub struct PlayedCard {
    pub order: i32,
    pub player_id: i32,
    pub card: PlayCard,
}

/// Seats, the deck, and the river of the trick in progress.
#[derive(Debug, Clone)]
pub struct Table {
    pub seats: Vec<Seat>,
    pub deck: Deck,
    pub river: Vec<PlayedCard>,
    pub seat_count: i32,
}

/// The cards of a river, in the order they were played.
pub open spec fn river_cards(river: Seq<PlayedCard>) -> Seq<PlayCard> {
    river.map_values(|p: PlayedCard| p.card)
}

/// The cards held or won at one seat.
pub open spec fn held(s: Seat) -> Multiset<PlayCard> {
    s.hand@.to_multiset().add(s.plis@.to_multiset())
}

/// Every card held or won at the given seats.
pub open spec fn seat_cards(seats: Seq<Seat>) -> Multiset<PlayCard>
    decreases seats.len(),
{
    if seats.len() == 0 {
        Multiset::empty()
    } else {
        seat_cards(seats.drop_last()).add(held(seats.last()))
    }
}

/// Every card on the table, wherever it lies: deck, hands, tricks won, river.
pub open spec fn table_cards(t: Table) -> Multiset<PlayCard> {
    t.deck.cards@.to_multiset().add(seat_cards(t.seats@)).add(river_cards(t.river@).to_multiset())
}

/// `i` is the first seat of the player `id`.
pub open spec fn is_first_seat(seats: Seq<Seat>, id: i32, i: int) -> bool {
    &&& 0 <= i < seats.len()
    &&& seats[i].player.player_id == id
    &&& forall|j: int| 0 <= j < i ==> seats[j].player.player_id != id
}

pub open spec fn has_seat(seats: Seq<Seat>, id: i32) -> bool {
    exists|j: int| 0 <= j < seats.len() && seats[j].player.player_id == id
}

/// The first seat of the player `id`, where there is one.
pub open spec fn first_seat(seats: Seq<Seat>, id: i32) -> int {
    choose|i: int| is_first_seat(seats, id, i)
}

proof fn lemma_first_seat(seats: Seq<Seat>, id: i32, i: int)
    requires
        is_first_seat(seats, id, i),
    ensures
        first_seat(seats, id) == i,
        has_seat(seats, id),
{
    let k = first_seat(seats, id);
    assert(is_first_seat(seats, id, k));
    if k < i {
        assert(seats[k].player.player_id != id);
    } else if i < k {
        assert(seats[i].player.player_id != id);
    }
}

fn find_seat(seats: &Vec<Seat>, player_id: i32) -> (r: Option<usize>)
    ensures
        r is Some ==> is_first_seat(seats@, player_id, r->Some_0 as int) && r->Some_0 as int
            == first_seat(seats@, player_id),
        r is None <==> !has_seat(seats@, player_id),
{
    let mut i: usize = 0;
    while i < seats.len()
        invariant
            i <= seats@.len(),
            forall|j: int| 0 <= j < i ==> seats@[j].player.player_id != player_id,
        decreases seats@.len() - i,
    {
        if seats[i].player.player_id == player_id {
            proof {
                lemma_first_seat(seats@, player_id, i as int);
            }
            return Some(i);
        }
        i = i + 1;
    }
    None
}

/// Appends the card that `player` plays to the river, ranked after the plays
/// already there.
pub fn play_card(table_river: &mut Vec<PlayedCard>, player: &Player, card: PlayCard)
    requires
        old(table_river)@.len() < i32::MAX,
    ensures
        final(table_river)@ == old(table_river)@.push(
            PlayedCard {
                order: old(table_river)@.len() as i32,
                player_id: player.player_id,
                card,
            },
        ),
{
    let played_card = PlayedCard {
        order: table_river.len() as i32,
        player_id: player.player_id,
        card,
    };
    table_river.push(played_card);
}

/// Changing one seat changes the cards at the table by the cards of that seat.
proof fn lemma_seat_cards_update(seats: Seq<Seat>, i: int, s: Seat)
    requires
        0 <= i < seats.len(),
    ensures
        seat_cards(seats.update(i, s)).add(held(seats[i])) =~= seat_cards(seats).add(held(s)),
    decreases seats.len(),
{
    let u = seats.update(i, s);
    assert(seat_cards(u) == seat_cards(u.drop_last()).add(held(u.last())));
    assert(seat_cards(seats) == seat_cards(seats.drop_last()).add(held(seats.last())));
    if i == seats.len() - 1 {
        assert(u.drop_last() =~= seats.drop_last());
        assert(u.last() == s);
        assert(seats.last() == seats[i]);
    } else {
        assert(u.drop_last() =~= seats.drop_last().update(i, s));
        assert(u.last() == seats.last());
        assert(seats.drop_last()[i] == seats[i]);
        lemma_seat_cards_update(seats.drop_last(), i, s);
    }
    let lhs = seat_cards(u).add(held(seats[i]));
    let rhs = seat_cards(seats).add(held(s));
    assert forall|x: PlayCard| lhs.count(x) == rhs.count(x) by {
        if i < seats.len() - 1 {
            let a = seat_cards(seats.drop_last().update(i, s)).add(held(seats[i]));
            let b = seat_cards(seats.drop_last()).add(held(s));
            assert(a.count(x) == b.count(x));
        }
    }
}

/// Where the best play of the first `n + 1` plays of a trick stands: the first
/// play, replaced by each later play that beats the best so far.
pub open spec fn best_play(river: Seq<PlayedCard>, n: int) -> int
    decreases n,
{
    if n <= 0 {
        0
    } else {
        let b = best_play(river, n - 1);
        if beats_spec(river[n].card, river[b].card) {
            n
        } else {
            b
        }
    }
}

pub open spec fn all_flags(river: Seq<PlayedCard>) -> bool {
    forall|i: int| 0 <= i < river.len() ==> kind(#[trigger] river[i].card) == CardTypeName::Flag
}

/// The player who wins the trick in the river: the plays are folded from the
/// first, and a play takes the lead when it beats the play that holds it. An
/// empty river has no trick to decide, and one of white flags only has no
/// winner under the rules.
pub fn trick_winner(river: &Vec<PlayedCard>) -> (r: Result<i32, GameError>)
    ensures
        river@.len() == 0 ==> r == Err::<i32, GameError>(GameError::EmptyResource),
        river@.len() > 0 && all_flags(river@) ==> r == Err::<i32, GameError>(GameError::NoWinner),
        river@.len() > 0 && !all_flags(river@) ==> r == Ok::<i32, GameError>(
            river@[best_play(river@, river@.len() - 1)].player_id,
        ),
{
    if river.len() == 0 {
        return Err(GameError::EmptyResource);
    }
    let mut flags_only = river[0].card.card_type() == CardTypeName::Flag;
    let mut best: usize = 0;
    let mut i: usize = 1;
    while i < river.len()
        invariant
            1 <= i <= river@.len(),
            best as int == best_play(river@, i - 1),
            best < i,
            flags_only == (forall|j: int| 0 <= j < i ==> kind(#[trigger] river@[j].card) == CardTypeName::Flag),
        decreases river@.len() - i,
    {
        if river[i].card.card_type() != CardTypeName::Flag {
            flags_only = false;
        }
        if beats(&river[i].card, &river[best].card) {
            best = i;
        }
        proof {
            assert(best_play(river@, i as int) == if beats_spec(river@[i as int].card, river@[best_play(river@, i - 1)].card) { i as int } else { best_play(river@, i - 1) });
        }
        i = i + 1;
    }
    if flags_only {
        Err(GameError::NoWinner)
    } else {
        Ok(river[best].player_id)
    }
}

/// The seats after the player at seat `i` took the cards `won`.
pub open spec fn collected(before: Seq<Seat>, after: Seq<Seat>, i: int, won: Seq<PlayCard>) -> bool {
    &&& after.len() == before.len()
    &&& forall|j: int| 0 <= j < before.len() && j != i ==> after[j] == before[j]
    &&& after[i].player == before[i].player
    &&& after[i].hand == before[i].hand
    &&& after[i].plis@ == before[i].plis@ + won
}

/// Gives the whole river to the player `player_id`: the plays are taken from
/// the last to the first and added in that order to the tricks the player won.
/// The river must hold a play and the player a seat; where not, nothing moves.
pub fn store_winner_fold(table: &mut Table, player_id: i32) -> (r: Result<(), GameError>)
    ensures
        old(table).river@.len() == 0 ==> r == Err::<(), GameError>(GameError::EmptyResource)
            && *final(table) == *old(table),
        old(table).river@.len() > 0 && !has_seat(old(table).seats@, player_id) ==> r == Err::<
            (),
            GameError,
        >(GameError::InvalidOperation) && *final(table) == *old(table),
        old(table).river@.len() > 0 && has_seat(old(table).seats@, player_id) ==> {
            &&& r is Ok
            &&& collected(
                old(table).seats@,
                final(table).seats@,
                first_seat(old(table).seats@, player_id),
                river_cards(old(table).river@).reverse(),
            )
            &&& final(table).river@.len() == 0
            &&& final(table).deck == old(table).deck
            &&& final(table).seat_count == old(table).seat_count
        },
        table_cards(*final(table)) == table_cards(*old(table)),
{
    if table.river.len() == 0 {
        return Err(GameError::EmptyResource);
    }
    let i = match find_seat(&table.seats, player_id) {
        Some(i) => i,
        None => {
            return Err(GameError::InvalidOperation);
        },
    };
    let ghost t0 = *table;
    let ghost start = river_cards(table.river@);
    let mut winner_cards: Vec<PlayCard> = Vec::new();
    while table.river.len() > 0
        invariant
            start == river_cards(table.river@) + winner_cards@.reverse(),
            table.seats == t0.seats,
            table.deck == t0.deck,
            table.seat_count == t0.seat_count,
        decreases table.river@.len(),
    {
        let ghost before = table.river@;
        let played = table.river.pop().unwrap();
        proof {
            assert(river_cards(before) =~= river_cards(table.river@).push(played.card));
            assert(winner_cards@.push(played.card).reverse() =~= seq![played.card]
                + winner_cards@.reverse());
        }
        winner_cards.push(played.card);
    }
    assert(river_cards(table.river@) =~= Seq::<PlayCard>::empty());
    assert(start.reverse() =~= winner_cards@) by {
        assert(start =~= winner_cards@.reverse());
    }
    let ghost seat0 = table.seats@[i as int];
    table.seats[i].plis.append(&mut winner_cards);
    proof {
        let s1 = table.seats@[i as int];
        start.lemma_reverse_to_multiset();
        lemma_seat_cards_update(t0.seats@, i as int, s1);
        assert(table.seats@ =~= t0.seats@.update(i as int, s1));
        assert(s1.plis@ == seat0.plis@ + start.reverse());
        assert(held(s1) =~= held(seat0).add(start.to_multiset()));
        assert(river_cards(table.river@).to_multiset() =~= Multiset::empty());
        assert(seat_cards(t0.seats@.update(i as int, s1)).add(held(seat0)) =~= seat_cards(
            t0.seats@,
        ).add(held(s1)));
        assert forall|x: PlayCard|
            seat_cards(table.seats@).count(x) == seat_cards(t0.seats@).add(
                start.to_multiset(),
            ).count(x) by {
            assert(seat_cards(t0.seats@.update(i as int, s1)).add(held(seat0)).count(x)
                == seat_cards(t0.seats@).add(held(s1)).count(x));
        }
        assert(seat_cards(table.seats@) =~= seat_cards(t0.seats@).add(start.to_multiset()));
        assert(table_cards(*table) =~= table_cards(t0));
    }
    Ok(())
}

proof fn lemma_seat_cards_empty(seats: Seq<Seat>)
    requires
        forall|j: int|
            0 <= j < seats.len() ==> seats[j].hand@.len() == 0 && seats[j].plis@.len() == 0,
    ensures
        seat_cards(seats) =~= Multiset::empty(),
    decreases seats.len(),
{
    if seats.len() > 0 {
        lemma_seat_cards_empty(seats.drop_last());
        let last = seats.last();
        assert(last.hand@ =~= Seq::<PlayCard>::empty());
        assert(last.plis@ =~= Seq::<PlayCard>::empty());
    }
}

/// The wild card with the given effect.
pub open spec fn wild(e: Option<CardEffect>) -> CardType {
    CardType::MarySue(MarySueCard { choice: e })
}

/// The cards `m` as a new round takes them: each wild card, whatever effect
/// it had, comes back without one.
pub open spec fn fresh_cards(m: Multiset<PlayCard>) -> Multiset<PlayCard> {
    m.update(wild(Some(CardEffect::Pirate)), 0).update(wild(Some(CardEffect::Flag)), 0).update(
        wild(None),
        m.count(wild(None)) + m.count(wild(Some(CardEffect::Pirate))) + m.count(
            wild(Some(CardEffect::Flag)),
        ),
    )
}

/// Taking each card of a sequence fresh takes its cards fresh.
pub proof fn lemma_fresh_map(s: Seq<PlayCard>)
    ensures
        s.map_values(|c: PlayCard| fresh(c)).to_multiset() =~= fresh_cards(s.to_multiset()),
    decreases s.len(),
{
    let f = |c: PlayCard| fresh(c);
    if s.len() == 0 {
        assert(s.map_values(f) =~= Seq::<PlayCard>::empty());
    } else {
        let t = s.drop_last();
        let x = s.last();
        lemma_fresh_map(t);
        assert(s =~= t.push(x));
        assert(s.map_values(f) =~= t.map_values(f).push(fresh(x)));
        let m = t.to_multiset();
        let mt = t.map_values(f);
        assert(s.to_multiset() =~= m.insert(x));
        assert(mt.push(fresh(x)).to_multiset() =~= mt.to_multiset().insert(fresh(x)));
        let wn = wild(None);
        let wp = wild(Some(CardEffect::Pirate));
        let wf = wild(Some(CardEffect::Flag));
        assert(x is MarySue ==> x == wn || x == wp || x == wf) by {
            if let CardType::MarySue(mc) = x {
                match mc.choice {
                    None => assert(x == wn),
                    Some(CardEffect::Pirate) => assert(x == wp),
                    Some(CardEffect::Flag) => assert(x == wf),
                }
            }
        }
        assert forall|y: PlayCard|
            s.map_values(f).to_multiset().count(y) == fresh_cards(s.to_multiset()).count(y) by {
            if x is MarySue {
                assert(fresh(x) == wn);
            } else {
                assert(fresh(x) == x);
                assert(x != wn && x != wp && x != wf);
            }
            if y == wn {
            } else if y == wp {
            } else if y == wf {
            } else {
            }
        }
    }
}

/// The state of a table once a round was cleared: the seats keep their
/// players and hold no cards, the river is empty, and the deck holds every
/// card that was on the table before, each wild card without an effect.
pub open spec fn cleared(before: Table, after: Table) -> bool {
    &&& after.seats@.len() == before.seats@.len()
    &&& forall|j: int|
        0 <= j < before.seats@.len() ==> {
            &&& (#[trigger] after.seats@[j]).player == before.seats@[j].player
            &&& after.seats@[j].hand@.len() == 0
            &&& after.seats@[j].plis@.len() == 0
        }
    &&& after.river@.len() == 0
    &&& after.seat_count == before.seat_count
    &&& after.deck.cards@.len() == table_cards(before).len()
    &&& after.deck.cards@.to_multiset() == fresh_cards(table_cards(before))
    &&& forall|i: int|
        0 <= i < after.deck.cards@.len() && (#[trigger] after.deck.cards@[i]) is MarySue
            ==> after.deck.cards@[i]->MarySue_0.choice is None
}

/// Ends a round: every card in a hand, in the tricks won and in the river goes
/// back to the deck, the wild card without the effect chosen for it, and the
/// deck is shuffled. On a table with nothing to clear no card is added or lost.
pub fn clear_table_after_game(table: &mut Table)
    ensures
        cleared(*old(table), *final(table)),
        table_cards(*final(table)) == fresh_cards(table_cards(*old(table))),
{
    let ghost t0 = *table;
    let mut all_cards: Vec<PlayCard> = Vec::new();
    let mut i: usize = 0;
    while i < table.seats.len()
        invariant
            i <= table.seats@.len(),
            table.seats@.len() == t0.seats@.len(),
            forall|j: int|
                0 <= j < i ==> {
                    &&& (#[trigger] table.seats@[j]).player == t0.seats@[j].player
                    &&& table.seats@[j].hand@.len() == 0
                    &&& table.seats@[j].plis@.len() == 0
                },
            forall|j: int| i <= j < t0.seats@.len() ==> #[trigger] table.seats@[j] == t0.seats@[j],
            all_cards@.to_multiset().add(seat_cards(table.seats@)) == seat_cards(t0.seats@),
            table.deck == t0.deck,
            table.river == t0.river,
            table.seat_count == t0.seat_count,
        decreases t0.seats@.len() - i,
    {
        let ghost seats0 = table.seats@;
        let ghost seat0 = table.seats@[i as int];
        let ghost all0 = all_cards@;
        all_cards.append(&mut table.seats[i].hand);
        all_cards.append(&mut table.seats[i].plis);
        proof {
            let s1 = table.seats@[i as int];
            lemma_seat_cards_update(seats0, i as int, s1);
            assert(table.seats@ =~= seats0.update(i as int, s1));
            assert(s1.hand@ =~= Seq::<PlayCard>::empty());
            assert(s1.plis@ =~= Seq::<PlayCard>::empty());
            assert(held(s1) =~= Multiset::empty());
            let mid = all0 + seat0.hand@;
            assert(all_cards@ == mid + seat0.plis@);
            assert(mid.to_multiset() =~= all0.to_multiset().add(seat0.hand@.to_multiset()));
            assert((mid + seat0.plis@).to_multiset() =~= mid.to_multiset().add(
                seat0.plis@.to_multiset(),
            ));
            assert(all_cards@.to_multiset() =~= all0.to_multiset().add(held(seat0)));
            assert forall|x: PlayCard|
                all_cards@.to_multiset().add(seat_cards(table.seats@)).count(x) == seat_cards(
                    t0.seats@,
                ).count(x) by {
                assert(seat_cards(seats0.update(i as int, s1)).add(held(seat0)).count(x)
                    == seat_cards(seats0).add(held(s1)).count(x));
                assert(all0.to_multiset().add(seat_cards(seats0)).count(x) == seat_cards(
                    t0.seats@,
                ).count(x));
            }
            assert(all_cards@.to_multiset().add(seat_cards(table.seats@)) =~= seat_cards(
                t0.seats@,
            ));
        }
        i = i + 1;
    }
    proof {
        lemma_seat_cards_empty(table.seats@);
        assert(all_cards@.to_multiset() =~= seat_cards(t0.seats@));
    }
    let ghost from_seats = all_cards@;
    let ghost emptied = table.seats;
    while table.river.len() > 0
        invariant
            all_cards@.to_multiset().add(river_cards(table.river@).to_multiset())
                == from_seats.to_multiset().add(river_cards(t0.river@).to_multiset()),
            table.seats == emptied,
            table.deck == t0.deck,
            table.seat_count == t0.seat_count,
        decreases table.river@.len(),
    {
        let ghost before = table.river@;
        let ghost all0 = all_cards@;
        let played = table.river.pop().unwrap();
        all_cards.push(played.card);
        proof {
            let rest = river_cards(table.river@);
            assert(river_cards(before) =~= rest.push(played.card));
            assert(rest.push(played.card).to_multiset() =~= rest.to_multiset().insert(played.card));
            assert(all0.push(played.card).to_multiset() =~= all0.to_multiset().insert(played.card));
            assert(all_cards@.to_multiset().add(rest.to_multiset()) =~= all0.to_multiset().add(
                river_cards(before).to_multiset(),
            ));
        }
    }
    proof {
        assert(river_cards(table.river@) =~= Seq::<PlayCard>::empty());
        assert(river_cards(table.river@).to_multiset() =~= Multiset::empty());
    }
    let ghost gathered = all_cards@;
    table.deck.cards.append(&mut all_cards);
    let ghost joined = table.deck.cards@;
    let ghost river_end = table.river;
    let mut k: usize = 0;
    while k < table.deck.cards.len()
        invariant
            k <= joined.len(),
            table.deck.cards@.len() == joined.len(),
            forall|j: int| 0 <= j < k ==> #[trigger] table.deck.cards@[j] == fresh(joined[j]),
            forall|j: int| k <= j < joined.len() ==> #[trigger] table.deck.cards@[j] == joined[j],
            table.seats == emptied,
            table.river == river_end,
            table.seat_count == t0.seat_count,
        decreases joined.len() - k,
    {
        let card = table.deck.cards[k];
        table.deck.cards[k] = fresh_card(card);
        k = k + 1;
    }
    let ghost renewed = table.deck.cards@;
    table.deck.shuffle();
    proof {
        let wp = wild(Some(CardEffect::Pirate));
        let wf = wild(Some(CardEffect::Flag));
        assert(joined == t0.deck.cards@ + gathered);
        assert(gathered.to_multiset() =~= seat_cards(t0.seats@).add(
            river_cards(t0.river@).to_multiset(),
        ));
        assert((t0.deck.cards@ + gathered).to_multiset() =~= t0.deck.cards@.to_multiset().add(
            gathered.to_multiset(),
        ));
        assert(joined.to_multiset() =~= table_cards(t0));
        assert(renewed =~= joined.map_values(|c: PlayCard| fresh(c)));
        lemma_fresh_map(joined);
        let deck = table.deck.cards@;
        assert(deck.to_multiset() =~= fresh_cards(table_cards(t0)));
        assert(deck.to_multiset().count(wp) == 0);
        assert(deck.to_multiset().count(wf) == 0);
        assert forall|i: int| 0 <= i < deck.len() && (#[trigger] deck[i]) is MarySue implies deck[i]->MarySue_0.choice is None by {
            let c = deck[i];
            assert(deck.contains(c));
            if let CardType::MarySue(mc) = c {
                match mc.choice {
                    None => {},
                    Some(CardEffect::Pirate) => assert(c == wp),
                    Some(CardEffect::Flag) => assert(c == wf),
                }
            }
        }
        assert(table_cards(*table) =~= deck.to_multiset());
    }
}

/// The seats after the player at seat `i` took `card` into hand.
pub open spec fn dealt(before: Seq<Seat>, after: Seq<Seat>, i: int, card: PlayCard) -> bool {
    &&& after.len() == before.len()
    &&& forall|j: int| 0 <= j < before.len() && j != i ==> after[j] == before[j]
    &&& after[i].player == before[i].player
    &&& after[i].hand@ == before[i].hand@.push(card)
    &&& after[i].plis == before[i].plis
}

/// The seats after the player at seat `i` gave up the card at place `k` of the hand.
pub open spec fn played(before: Seq<Seat>, after: Seq<Seat>, i: int, k: int) -> bool {
    &&& after.len() == before.len()
    &&& forall|j: int| 0 <= j < before.len() && j != i ==> after[j] == before[j]
    &&& after[i].player == before[i].player
    &&& after[i].hand@ == before[i].hand@.remove(k)
    &&& after[i].plis == before[i].plis
}

/// `k` is the first place of `card` in `hand`.
pub open spec fn is_first_index(hand: Seq<PlayCard>, card: PlayCard, k: int) -> bool {
    &&& 0 <= k < hand.len()
    &&& hand[k] == card
    &&& forall|j: int| 0 <= j < k ==> hand[j] != card
}

pub open spec fn first_index(hand: Seq<PlayCard>, card: PlayCard) -> int {
    choose|k: int| is_first_index(hand, card, k)
}

proof fn lemma_first_index(hand: Seq<PlayCard>, card: PlayCard, k: int)
    requires
        is_first_index(hand, card, k),
    ensures
        first_index(hand, card) == k,
{
    let m = first_index(hand, card);
    assert(is_first_index(hand, card, m));
    if m < k {
        assert(hand[m] != card);
    } else if k < m {
        assert(hand[k] != card);
    }
}

impl Table {
    /// A table with no seat, an empty deck and an empty river.
    pub fn new() -> (r: Self)
        ensures
            r.seats@.len() == 0,
            r.deck.cards@.len() == 0,
            r.river@.len() == 0,
            r.seat_count == 0,
    {
        Table { seats: Vec::new(), deck: Deck::default(), river: Vec::new(), seat_count: 0 }
    }

    /// Deals the last card of the deck into the hand of the player `player_id`.
    /// The player must have a seat and the deck a card; where not, nothing moves.
    pub fn deal_to(&mut self, player_id: i32) -> (r: Result<(), GameError>)
        ensures
            !has_seat(old(self).seats@, player_id) ==> r == Err::<(), GameError>(
                GameError::InvalidOperation,
            ) && *final(self) == *old(self),
            has_seat(old(self).seats@, player_id) && old(self).deck.cards@.len() == 0 ==> r
                == Err::<(), GameError>(GameError::EmptyResource) && *final(self) == *old(self),
            has_seat(old(self).seats@, player_id) && old(self).deck.cards@.len() > 0 ==> {
                &&& r is Ok
                &&& final(self).deck.cards@ == old(self).deck.cards@.drop_last()
                &&& dealt(
                    old(self).seats@,
                    final(self).seats@,
                    first_seat(old(self).seats@, player_id),
                    old(self).deck.cards@.last(),
                )
                &&& final(self).river == old(self).river
                &&& final(self).seat_count == old(self).seat_count
            },
            table_cards(*final(self)) == table_cards(*old(self)),
    {
        let i = match find_seat(&self.seats, player_id) {
            Some(i) => i,
            None => {
                return Err(GameError::InvalidOperation);
            },
        };
        if self.deck.cards.len() == 0 {
            return Err(GameError::EmptyResource);
        }
        let ghost t0 = *self;
        let card = match self.deck.deal_one() {
            Ok(c) => c,
            Err(e) => {
                return Err(e);
            },
        };
        let ghost seat0 = self.seats@[i as int];
        self.seats[i].hand.push(card);
        proof {
            let s1 = self.seats@[i as int];
            lemma_seat_cards_update(t0.seats@, i as int, s1);
            assert(self.seats@ =~= t0.seats@.update(i as int, s1));
            assert(held(s1) =~= held(seat0).insert(card));
            assert(t0.deck.cards@ =~= self.deck.cards@.push(card));
            assert forall|x: PlayCard|
                seat_cards(self.seats@).count(x) == seat_cards(t0.seats@).insert(card).count(x) by {
                assert(seat_cards(t0.seats@.update(i as int, s1)).add(held(seat0)).count(x)
                    == seat_cards(t0.seats@).add(held(s1)).count(x));
            }
            assert(seat_cards(self.seats@) =~= seat_cards(t0.seats@).insert(card));
            assert(table_cards(*self) =~= table_cards(t0));
        }
        Ok(())
    }

    /// The player `player_id` plays `card` from hand: the first such card
    /// leaves the hand and goes to the end of the river. The player must have a
    /// seat and the card must be in hand; where not, nothing moves.
    pub fn play_from_hand(&mut self, player_id: i32, card: PlayCard) -> (r: Result<(), GameError>)
        requires
            old(self).river@.len() < i32::MAX,
        ensures
            !has_seat(old(self).seats@, player_id) ==> r == Err::<(), GameError>(
                GameError::InvalidOperation,
            ) && *final(self) == *old(self),
            has_seat(old(self).seats@, player_id) && !old(self).seats@[first_seat(
                old(self).seats@,
                player_id,
            )].hand@.contains(card) ==> r == Err::<(), GameError>(GameError::EmptyResource)
                && *final(self) == *old(self),
            has_seat(old(self).seats@, player_id) && old(self).seats@[first_seat(
                old(self).seats@,
                player_id,
            )].hand@.contains(card) ==> {
                let i = first_seat(old(self).seats@, player_id);
                &&& r is Ok
                &&& played(
                    old(self).seats@,
                    final(self).seats@,
                    i,
                    first_index(old(self).seats@[i].hand@, card),
                )
                &&& final(self).river@ == old(self).river@.push(
                    PlayedCard {
                        order: old(self).river@.len() as i32,
                        player_id: old(self).seats@[i].player.player_id,
                        card,
                    },
                )
                &&& final(self).deck == old(self).deck
                &&& final(self).seat_count == old(self).seat_count
            },
            table_cards(*final(self)) == table_cards(*old(self)),
    {
        let i = match find_seat(&self.seats, player_id) {
            Some(i) => i,
            None => {
                return Err(GameError::InvalidOperation);
            },
        };
        let ghost t0 = *self;
        let ghost seat0 = self.seats@[i as int];
        let mut k: usize = 0;
        while k < self.seats[i].hand.len() && self.seats[i].hand[k] != card
            invariant
                *self == t0,
                i < self.seats@.len(),
                seat0 == self.seats@[i as int],
                k <= seat0.hand@.len(),
                forall|j: int| 0 <= j < k ==> seat0.hand@[j] != card,
            decreases seat0.hand@.len() - k,
        {
            k = k + 1;
        }
        if k == self.seats[i].hand.len() {
            proof {
                assert forall|j: int| 0 <= j < seat0.hand@.len() implies seat0.hand@[j] != card by {
                }
            }
            return Err(GameError::EmptyResource);
        }
        proof {
            lemma_first_index(seat0.hand@, card, k as int);
        }
        let removed = self.seats[i].hand.remove(k);
        play_card(&mut self.river, &self.seats[i].player, removed);
        proof {
            let s1 = self.seats@[i as int];
            lemma_seat_cards_update(t0.seats@, i as int, s1);
            assert(self.seats@ =~= t0.seats@.update(i as int, s1));
            assert(s1.hand@ == seat0.hand@.remove(k as int));
            assert(s1.hand@.to_multiset() =~= seat0.hand@.to_multiset().remove(card));
            assert(seat0.hand@.to_multiset().count(card) > 0) by {
                assert(seat0.hand@.contains(card));
            }
            assert(held(seat0) =~= held(s1).insert(card));
            assert(river_cards(self.river@) =~= river_cards(t0.river@).push(card));
            assert forall|x: PlayCard|
                seat_cards(self.seats@).insert(card).count(x) == seat_cards(t0.seats@).count(x) by {
                assert(seat_cards(t0.seats@.update(i as int, s1)).add(held(seat0)).count(x)
                    == seat_cards(t0.seats@).add(held(s1)).count(x));
            }
            assert(seat_cards(self.seats@).insert(card) =~= seat_cards(t0.seats@));
            assert(table_cards(*self) =~= table_cards(t0));
        }
        Ok(())
    }
}

/// A table for `player_count` players, with the standard deck and no seat yet.
pub fn new_table(player_count: i32) -> (r: Table)
    ensures
        r.seats@.len() == 0,
        r.deck.cards@ == deck_cards(standard_colors(), 13, 13),
        r.river@.len() == 0,
        r.seat_count == player_count,
        table_cards(r) == deck_cards(standard_colors(), 13, 13).to_multiset(),
{
    let r = Table {
        seats: Vec::new(),
        deck: create_default_deck(),
        seat_count: player_count,
        river: Vec::new(),
    };
    proof {
        assert(river_cards(r.river@) =~= Seq::<PlayCard>::empty());
        assert(seat_cards(r.seats@) =~= Multiset::empty());
        assert(table_cards(r) =~= r.deck.cards@.to_multiset());
    }
    r
}

/// A seat for `player`, with no card.
pub fn new_seat(player: Player) -> (r: Seat)
    ensures
        r.player == player,
        r.hand@.len() == 0,
        r.plis@.len() == 0,
{
    Seat { player, hand: Vec::new(), plis: Vec::new() }
}

/// No card is made or lost over a round. A table that holds the cards of a
/// freshly built deck, however they were dealt, played and won since, holds
/// them all in its deck once cleared: as many cards as the built deck has.
pub proof fn lemma_clear_restores_deck(
    before: Table,
    after: Table,
    colors: Seq<CardColor>,
    per_suit: i32,
    skulls: i32,
)
    requires
        table_cards(before) == deck_cards(colors, per_suit, skulls).to_multiset(),
        cleared(before, after),
    ensures
        after.deck.cards@.to_multiset() == deck_cards(colors, per_suit, skulls).to_multiset(),
        after.deck.cards@.len() == deck_cards(colors, per_suit, skulls).len(),
        table_cards(after) == table_cards(before),
{
    let d = deck_cards(colors, per_suit, skulls);
    lemma_deck_cards_fresh(colors, per_suit, skulls);
    lemma_fresh_map(d);
    lemma_seat_cards_empty(after.seats@);
    assert(river_cards(after.river@) =~= Seq::<PlayCard>::empty());
    assert(fresh_cards(d.to_multiset()) == d.to_multiset());
    assert(table_cards(after) =~= after.deck.cards@.to_multiset());
}

} // verus!
