use rand::seq::SliceRandom;
use vstd::prelude::*;

verus! {

/// What a card is, as the comparator sees it.
#[derive(Copy, Clone, PartialEq, Eq, Debug, Structural)]
pub enum CardTypeName {
    Color,
    Skull,
    Flag,
    Mermaid,
    Pirate,
    MarySue,
    SkullKing,
}

/// The effect a player may give the wild card.
#[derive(Copy, Clone, PartialEq, Eq, Debug, Structural)]
pub enum CardEffect {
    Pirate,
    Flag,
}

#[derive(Copy, Clone, PartialEq, Eq, Debug, Structural)]
pub enum CardColor {
    Red,
    Blue,
    Green,
    Black,
    Brown,
    Pink,
    DarkBlue,
    White,
}

/// Why an operation of the rules engine could not be carried out.
#[derive(Copy, Clone, PartialEq, Eq, Debug, Structural)]
pub enum GameError {
    /// The operation makes no sense on its argument (an effect on a card that
    /// takes none, a player that has no seat).
    InvalidOperation,
    /// Nothing to take: an empty deck, an empty river, a card not in the hand.
    EmptyResource,
    /// The rules name no winner (a trick of white flags only).
    NoWinner,
}

#[derive(Copy, Clone, PartialEq, Eq, Debug, Structural)]
pub struct ColorCard {
    pub color: CardColor,
    pub value: i32,
}

#[derive(Copy, Clone, PartialEq, Eq, Debug, Structural)]
pub struct SkullCard {
    pub value: i32,
}

#[derive(Copy, Clone, PartialEq, Eq, Debug, Structural)]
pub struct MermaidCard {}

#[derive(Copy, Clone, PartialEq, Eq, Debug, Structural)]
pub struct PirateCard {}

/// The wild card: it plays as a pirate until its holder chooses otherwise.
#[derive(Copy, Clone, PartialEq, Eq, Debug, Structural)]
pub struct MarySueCard {
    pub choice: Option<CardEffect>,
}

#[derive(Copy, Clone, PartialEq, Eq, Debug, Structural)]
pub struct WhiteFlagCard {}

#[derive(Copy, Clone, PartialEq, Eq, Debug, Structural)]
pub struct SkullKingCard {}

#[derive(Copy, Clone, PartialEq, Eq, Debug, Structural)]
pub enum CardType {
    Color(ColorCard),
    Skull(SkullCard),
    Flag(WhiteFlagCard),
    Mermaid(MermaidCard),
    Pirate(PirateCard),
    MarySue(MarySueCard),
    SkullKing(SkullKingCard),
}

pub type PlayCard = CardType;

/// The type a card plays as: the wild card plays as the effect chosen for it,
/// and as a pirate while none is chosen.
pub open spec fn effect_kind(choice: Option<CardEffect>) -> CardTypeName {
    match choice {
        Some(CardEffect::Flag) => CardTypeName::Flag,
        _ => CardTypeName::Pirate,
    }
}

/// The type a card plays as.
pub open spec fn kind(c: CardType) -> CardTypeName {
    match c {
        CardType::Color(_) => CardTypeName::Color,
        CardType::Skull(_) => CardTypeName::Skull,
        CardType::Flag(_) => CardTypeName::Flag,
        CardType::Mermaid(_) => CardTypeName::Mermaid,
        CardType::Pirate(_) => CardTypeName::Pirate,
        CardType::MarySue(m) => effect_kind(m.choice),
        CardType::SkullKing(_) => CardTypeName::SkullKing,
    }
}

pub open spec fn color_of(c: CardType) -> CardColor {
    match c {
        CardType::Color(x) => x.color,
        CardType::Skull(_) => CardColor::Black,
        CardType::Flag(_) => CardColor::White,
        CardType::Mermaid(_) => CardColor::Pink,
        CardType::Pirate(_) => CardColor::Brown,
        CardType::MarySue(_) => CardColor::Brown,
        CardType::SkullKing(_) => CardColor::DarkBlue,
    }
}

pub open spec fn value_of(c: CardType) -> Option<i32> {
    match c {
        CardType::Color(x) => Some(x.value),
        CardType::Skull(x) => Some(x.value),
        _ => None,
    }
}

/// Every card but the suit and trump cards is special.
pub open spec fn special(c: CardType) -> bool {
    !(c is Color || c is Skull)
}

/// Common behaviour of every card.
pub trait Card {
    fn card_type(&self) -> CardTypeName;

    fn card_color(&self) -> CardColor;

    fn card_value(&self) -> Option<i32>;

    fn is_card_special(&self) -> bool;

    fn is_card_atout(&self) -> bool;

    /// Gives the card the effect its holder chose. Only the wild card takes one.
    fn set_card_effect(&mut self, player_choice: CardEffect) -> Result<(), GameError>;
}

/// Marks a card outside the suits and the trump.
pub trait Special: Card {
}

/// Marks a card that carries a number.
pub trait Color: Card {
}

/// Marks a numbered card of the trump suit.
pub trait Atout: Color {
}

/// Marks a card whose effect its holder chooses.
pub trait Choice: Card {
}

/// Marks a card that can play as a pirate.
pub trait Pirate: Special {
}

/// Marks a card that can play as a white flag.
pub trait WhiteFlag: Special {
}

/// Marks the wild card.
pub trait MarySue: Choice + Pirate + WhiteFlag {
}

/// Marks a mermaid.
pub trait Mermaid: Special {
}

/// Marks the skull king.
pub trait SkullKing: Special {
}

impl Card for SkullCard {
    fn card_type(&self) -> (r: CardTypeName)
        ensures
            r == CardTypeName::Skull,
    {
        CardTypeName::Skull
    }

    fn card_color(&self) -> (r: CardColor)
        ensures
            r == CardColor::Black,
    {
        CardColor::Black
    }

    fn card_value(&self) -> (r: Option<i32>)
        ensures
            r == Some(self.value),
    {
        Some(self.value)
    }

    fn is_card_special(&self) -> (r: bool)
        ensures
            !r,
    {
        false
    }

    fn is_card_atout(&self) -> (r: bool)
        ensures
            r,
    {
        true
    }

    fn set_card_effect(&mut self, player_choice: CardEffect) -> (r: Result<(), GameError>)
        ensures
            r == Err::<(), GameError>(GameError::InvalidOperation),
            *final(self) == *old(self),
    {
        Err(GameError::InvalidOperation)
    }
}

impl Color for SkullCard {
}

impl Atout for SkullCard {
}

impl Card for ColorCard {
    fn card_type(&self) -> (r: CardTypeName)
        ensures
            r == CardTypeName::Color,
    {
        CardTypeName::Color
    }

    fn card_color(&self) -> (r: CardColor)
        ensures
            r == self.color,
    {
        self.color
    }

    fn card_value(&self) -> (r: Option<i32>)
        ensures
            r == Some(self.value),
    {
        Some(self.value)
    }

    fn is_card_special(&self) -> (r: bool)
        ensures
            !r,
    {
        false
    }

    fn is_card_atout(&self) -> (r: bool)
        ensures
            !r,
    {
        false
    }

    fn set_card_effect(&mut self, player_choice: CardEffect) -> (r: Result<(), GameError>)
        ensures
            r == Err::<(), GameError>(GameError::InvalidOperation),
            *final(self) == *old(self),
    {
        Err(GameError::InvalidOperation)
    }
}

impl Color for ColorCard {
}

impl Card for WhiteFlagCard {
    fn card_type(&self) -> (r: CardTypeName)
        ensures
            r == CardTypeName::Flag,
    {
        CardTypeName::Flag
    }

    fn card_color(&self) -> (r: CardColor)
        ensures
            r == CardColor::White,
    {
        CardColor::White
    }

    fn card_value(&self) -> (r: Option<i32>)
        ensures
            r == None::<i32>,
    {
        None
    }

    fn is_card_special(&self) -> (r: bool)
        ensures
            r,
    {
        true
    }

    fn is_card_atout(&self) -> (r: bool)
        ensures
            !r,
    {
        false
    }

    fn set_card_effect(&mut self, player_choice: CardEffect) -> (r: Result<(), GameError>)
        ensures
            r == Err::<(), GameError>(GameError::InvalidOperation),
            *final(self) == *old(self),
    {
        Err(GameError::InvalidOperation)
    }
}

impl Special for WhiteFlagCard {
}

impl WhiteFlag for WhiteFlagCard {
}

impl Card for PirateCard {
    fn card_type(&self) -> (r: CardTypeName)
        ensures
            r == CardTypeName::Pirate,
    {
        CardTypeName::Pirate
    }

    fn card_color(&self) -> (r: CardColor)
        ensures
            r == CardColor::Brown,
    {
        CardColor::Brown
    }

    fn card_value(&self) -> (r: Option<i32>)
        ensures
            r == None::<i32>,
    {
        None
    }

    fn is_card_special(&self) -> (r: bool)
        ensures
            r,
    {
        true
    }

    fn is_card_atout(&self) -> (r: bool)
        ensures
            !r,
    {
        false
    }

    fn set_card_effect(&mut self, player_choice: CardEffect) -> (r: Result<(), GameError>)
        ensures
            r == Err::<(), GameError>(GameError::InvalidOperation),
            *final(self) == *old(self),
    {
        Err(GameError::InvalidOperation)
    }
}

impl Special for PirateCard {
}

impl Pirate for PirateCard {
}

impl Card for MermaidCard {
    fn card_type(&self) -> (r: CardTypeName)
        ensures
            r == CardTypeName::Mermaid,
    {
        CardTypeName::Mermaid
    }

    fn card_color(&self) -> (r: CardColor)
        ensures
            r == CardColor::Pink,
    {
        CardColor::Pink
    }

    fn card_value(&self) -> (r: Option<i32>)
        ensures
            r == None::<i32>,
    {
        None
    }

    fn is_card_special(&self) -> (r: bool)
        ensures
            r,
    {
        true
    }

    fn is_card_atout(&self) -> (r: bool)
        ensures
            !r,
    {
        false
    }

    fn set_card_effect(&mut self, player_choice: CardEffect) -> (r: Result<(), GameError>)
        ensures
            r == Err::<(), GameError>(GameError::InvalidOperation),
            *final(self) == *old(self),
    {
        Err(GameError::InvalidOperation)
    }
}

impl Special for MermaidCard {
}

impl Mermaid for MermaidCard {
}

impl Card for SkullKingCard {
    fn card_type(&self) -> (r: CardTypeName)
        ensures
            r == CardTypeName::SkullKing,
    {
        CardTypeName::SkullKing
    }

    fn card_color(&self) -> (r: CardColor)
        ensures
            r == CardColor::DarkBlue,
    {
        CardColor::DarkBlue
    }

    fn card_value(&self) -> (r: Option<i32>)
        ensures
            r == None::<i32>,
    {
        None
    }

    fn is_card_special(&self) -> (r: bool)
        ensures
            r,
    {
        true
    }

    fn is_card_atout(&self) -> (r: bool)
        ensures
            !r,
    {
        false
    }

    fn set_card_effect(&mut self, player_choice: CardEffect) -> (r: Result<(), GameError>)
        ensures
            r == Err::<(), GameError>(GameError::InvalidOperation),
            *final(self) == *old(self),
    {
        Err(GameError::InvalidOperation)
    }
}

impl Special for SkullKingCard {
}

impl SkullKing for SkullKingCard {
}

impl Card for MarySueCard {
    fn card_type(&self) -> (r: CardTypeName)
        ensures
            r == effect_kind(self.choice),
    {
        match self.choice {
            Some(CardEffect::Pirate) => CardTypeName::Pirate,
            Some(CardEffect::Flag) => CardTypeName::Flag,
            None => CardTypeName::Pirate,
        }
    }

    fn card_color(&self) -> (r: CardColor)
        ensures
            r == CardColor::Brown,
    {
        CardColor::Brown
    }

    fn card_value(&self) -> (r: Option<i32>)
        ensures
            r == None::<i32>,
    {
        None
    }

    fn is_card_special(&self) -> (r: bool)
        ensures
            r,
    {
        true
    }

    fn is_card_atout(&self) -> (r: bool)
        ensures
            !r,
    {
        false
    }

    /// The effect is chosen once: a card that already has one keeps it.
    fn set_card_effect(&mut self, player_choice: CardEffect) -> (r: Result<(), GameError>)
        ensures
            old(self).choice is None ==> r is Ok && final(self).choice == Some(player_choice),
            old(self).choice is Some ==> r == Err::<(), GameError>(GameError::InvalidOperation)
                && *final(self) == *old(self),
    {
        match self.choice {
            Some(_) => Err(GameError::InvalidOperation),
            None => {
                self.choice = Some(player_choice);
                Ok(())
            },
        }
    }
}

impl Choice for MarySueCard {
}

impl Special for MarySueCard {
}

impl Pirate for MarySueCard {
}

impl WhiteFlag for MarySueCard {
}

impl MarySue for MarySueCard {
}

/// The one card that takes an effect: the wild card while it has none.
pub open spec fn takes_effect(c: CardType) -> bool {
    match c {
        CardType::MarySue(m) => m.choice is None,
        _ => false,
    }
}

pub open spec fn with_effect(c: CardType, e: CardEffect) -> CardType {
    match c {
        CardType::MarySue(_) => CardType::MarySue(MarySueCard { choice: Some(e) }),
        _ => c,
    }
}

impl Card for CardType {
    fn card_type(&self) -> (r: CardTypeName)
        ensures
            r == kind(*self),
    {
        match self {
            CardType::Color(c) => c.card_type(),
            CardType::Skull(c) => c.card_type(),
            CardType::Flag(c) => c.card_type(),
            CardType::Mermaid(c) => c.card_type(),
            CardType::Pirate(c) => c.card_type(),
            CardType::MarySue(c) => c.card_type(),
            CardType::SkullKing(c) => c.card_type(),
        }
    }

    fn card_color(&self) -> (r: CardColor)
        ensures
            r == color_of(*self),
    {
        match self {
            CardType::Color(c) => c.card_color(),
            CardType::Skull(c) => c.card_color(),
            CardType::Flag(c) => c.card_color(),
            CardType::Mermaid(c) => c.card_color(),
            CardType::Pirate(c) => c.card_color(),
            CardType::MarySue(c) => c.card_color(),
            CardType::SkullKing(c) => c.card_color(),
        }
    }

    fn card_value(&self) -> (r: Option<i32>)
        ensures
            r == value_of(*self),
    {
        match self {
            CardType::Color(c) => c.card_value(),
            CardType::Skull(c) => c.card_value(),
            CardType::Flag(c) => c.card_value(),
            CardType::Mermaid(c) => c.card_value(),
            CardType::Pirate(c) => c.card_value(),
            CardType::MarySue(c) => c.card_value(),
            CardType::SkullKing(c) => c.card_value(),
        }
    }

    fn is_card_special(&self) -> (r: bool)
        ensures
            r == special(*self),
    {
        match self {
            CardType::Color(c) => c.is_card_special(),
            CardType::Skull(c) => c.is_card_special(),
            CardType::Flag(c) => c.is_card_special(),
            CardType::Mermaid(c) => c.is_card_special(),
            CardType::Pirate(c) => c.is_card_special(),
            CardType::MarySue(c) => c.is_card_special(),
            CardType::SkullKing(c) => c.is_card_special(),
        }
    }

    fn is_card_atout(&self) -> (r: bool)
        ensures
            r == (*self is Skull),
    {
        match self {
            CardType::Color(c) => c.is_card_atout(),
            CardType::Skull(c) => c.is_card_atout(),
            CardType::Flag(c) => c.is_card_atout(),
            CardType::Mermaid(c) => c.is_card_atout(),
            CardType::Pirate(c) => c.is_card_atout(),
            CardType::MarySue(c) => c.is_card_atout(),
            CardType::SkullKing(c) => c.is_card_atout(),
        }
    }

    fn set_card_effect(&mut self, player_choice: CardEffect) -> (r: Result<(), GameError>)
        ensures
            takes_effect(*old(self)) ==> r is Ok && *final(self) == with_effect(
                *old(self),
                player_choice,
            ),
            !takes_effect(*old(self)) ==> r == Err::<(), GameError>(GameError::InvalidOperation)
                && *final(self) == *old(self),
    {
        match self {
            CardType::MarySue(c) => c.set_card_effect(player_choice),
            _ => Err(GameError::InvalidOperation),
        }
    }
}

/// The card that `new_card` builds from its arguments.
pub open spec fn card_of(
    card_type: CardTypeName,
    card_number: Option<i32>,
    card_color: Option<CardColor>,
) -> CardType {
    match card_type {
        CardTypeName::Color => CardType::Color(
            ColorCard { color: card_color->Some_0, value: card_number->Some_0 },
        ),
        CardTypeName::Skull => CardType::Skull(SkullCard { value: card_number->Some_0 }),
        CardTypeName::MarySue => CardType::MarySue(MarySueCard { choice: None }),
        CardTypeName::Flag => CardType::Flag(WhiteFlagCard {  }),
        CardTypeName::Mermaid => CardType::Mermaid(MermaidCard {  }),
        CardTypeName::Pirate => CardType::Pirate(PirateCard {  }),
        CardTypeName::SkullKing => CardType::SkullKing(SkullKingCard {  }),
    }
}

/// Builds a fresh card of the given type. A suit card needs a number and a
/// color, a trump card a number; the other arguments are ignored.
pub fn new_card(
    card_type: CardTypeName,
    card_number: Option<i32>,
    card_color: Option<CardColor>,
) -> (r: PlayCard)
    requires
        card_type == CardTypeName::Color ==> card_number is Some && card_color is Some,
        card_type == CardTypeName::Skull ==> card_number is Some,
    ensures
        r == card_of(card_type, card_number, card_color),
{
    match card_type {
        CardTypeName::Color => CardType::Color(
            ColorCard { color: card_color.unwrap(), value: card_number.unwrap() },
        ),
        CardTypeName::Skull => CardType::Skull(SkullCard { value: card_number.unwrap() }),
        CardTypeName::MarySue => CardType::MarySue(MarySueCard { choice: None }),
        CardTypeName::Flag => CardType::Flag(WhiteFlagCard {  }),
        CardTypeName::Mermaid => CardType::Mermaid(MermaidCard {  }),
        CardTypeName::Pirate => CardType::Pirate(PirateCard {  }),
        CardTypeName::SkullKing => CardType::SkullKing(SkullKingCard {  }),
    }
}

/// A card as it comes back to the deck when a round is cleared: the wild card
/// loses the effect chosen for it, every other card stays as it is.
pub open spec fn fresh(c: CardType) -> CardType {
    match c {
        CardType::MarySue(_) => CardType::MarySue(MarySueCard { choice: None }),
        _ => c,
    }
}

/// Returns the card as a new round takes it.
pub fn fresh_card(card: PlayCard) -> (r: PlayCard)
    ensures
        r == fresh(card),
{
    match card {
        CardType::MarySue(_) => CardType::MarySue(MarySueCard { choice: None }),
        _ => card,
    }
}

/// Whether the new play `first` takes the lead from `second`, the best play so
/// far. The rules are tried in order and the first that applies decides; the
/// wild card counts as the type it plays as. A suit card of another color than
/// the lead never overtakes it.
pub open spec fn beats_spec(first: CardType, second: CardType) -> bool {
    if kind(second) == CardTypeName::Flag {
        true
    } else if kind(first) == CardTypeName::Pirate {
        kind(second) != CardTypeName::SkullKing
    } else if kind(first) == CardTypeName::Mermaid {
        kind(second) != CardTypeName::Pirate
    } else if kind(first) == CardTypeName::SkullKing {
        true
    } else {
        match (first, second) {
            (CardType::Skull(a), CardType::Skull(b)) => a.value > b.value,
            (CardType::Skull(_), _) => true,
            (CardType::Color(a), CardType::Color(b)) => a.color == b.color && a.value > b.value,
            _ => false,
        }
    }
}

/// Decides whether the new play `first` takes the lead from `second`, the best
/// play so far. This relation is no order: it is meant to be applied to each
/// new play in turn against the current best.
pub fn beats(first: &PlayCard, second: &PlayCard) -> (r: bool)
    ensures
        r == beats_spec(*first, *second),
{
    let k1 = first.card_type();
    let k2 = second.card_type();
    if k2 == CardTypeName::Flag {
        return true;
    }
    match k1 {
        CardTypeName::Pirate => return k2 != CardTypeName::SkullKing,
        CardTypeName::Mermaid => return k2 != CardTypeName::Pirate,
        CardTypeName::SkullKing => return true,
        _ => {},
    }
    match (first, second) {
        (CardType::Skull(a), CardType::Skull(b)) => a.value > b.value,
        (CardType::Skull(_), _) => true,
        (CardType::Color(a), CardType::Color(b)) => {
            if a.card_color() == b.card_color() {
                a.value > b.value
            } else {
                false
            }
        },
        _ => false,
    }
}

/// Between two suit cards of one color the higher number wins, and of two
/// different numbers exactly one card beats the other.
pub proof fn lemma_same_suit_by_value(c1: ColorCard, c2: ColorCard)
    requires
        c1.color == c2.color,
    ensures
        beats_spec(CardType::Color(c1), CardType::Color(c2)) == (c1.value > c2.value),
        c1.value != c2.value ==> beats_spec(CardType::Color(c1), CardType::Color(c2))
            != beats_spec(CardType::Color(c2), CardType::Color(c1)),
{
}

/// Any card beats a white flag that stands second.
pub proof fn lemma_flag_always_beaten(first: CardType, second: CardType)
    requires
        kind(second) == CardTypeName::Flag,
    ensures
        beats_spec(first, second),
{
}

/// A pirate loses to the skull king, and the skull king beats a pirate.
pub proof fn lemma_skull_king_over_pirate(pirate: CardType, king: CardType)
    requires
        kind(pirate) == CardTypeName::Pirate,
        kind(king) == CardTypeName::SkullKing,
    ensures
        !beats_spec(pirate, king),
        beats_spec(king, pirate),
{
}

/// A mermaid loses to a pirate, and a pirate beats a mermaid.
pub proof fn lemma_pirate_over_mermaid(mermaid: CardType, pirate: CardType)
    requires
        kind(mermaid) == CardTypeName::Mermaid,
        kind(pirate) == CardTypeName::Pirate,
    ensures
        !beats_spec(mermaid, pirate),
        beats_spec(pirate, mermaid),
{
}

/// A suit card never overtakes a suit card of another color.
pub proof fn lemma_off_suit_never_overtakes(new_play: ColorCard, lead: ColorCard)
    requires
        new_play.color != lead.color,
    ensures
        !beats_spec(CardType::Color(new_play), CardType::Color(lead)),
{
}

/// A trump card beats every suit card, whatever the numbers.
pub proof fn lemma_trump_over_suit(skull: SkullCard, c: ColorCard)
    ensures
        beats_spec(CardType::Skull(skull), CardType::Color(c)),
{
}

/// White flags in a deck.
pub const WHITE_FLAG_NB: usize = 5;

/// Pirates in a deck.
pub const PIRATE_NB: usize = 5;

/// Mermaids in a deck.
pub const MERMAID_NB: usize = 2;

/// How many numbered cards a run up to `n` holds.
pub open spec fn count_of(n: i32) -> nat {
    if n > 0 {
        n as nat
    } else {
        0
    }
}

/// The suit cards of one color, numbered from 1 up to `n`.
pub open spec fn suit_run(color: CardColor, n: i32) -> Seq<CardType> {
    Seq::new(count_of(n), |i: int| CardType::Color(ColorCard { color, value: (i + 1) as i32 }))
}

/// The suit cards of each color in turn.
pub open spec fn suit_cards(colors: Seq<CardColor>, n: i32) -> Seq<CardType>
    decreases colors.len(),
{
    if colors.len() == 0 {
        Seq::empty()
    } else {
        suit_cards(colors.drop_last(), n) + suit_run(colors.last(), n)
    }
}

/// The trump cards, numbered from 1 up to `n`.
pub open spec fn trump_run(n: i32) -> Seq<CardType> {
    Seq::new(count_of(n), |i: int| CardType::Skull(SkullCard { value: (i + 1) as i32 }))
}

pub open spec fn copies(c: CardType, k: nat) -> Seq<CardType> {
    Seq::new(k, |i: int| c)
}

/// The cards that every deck holds besides its numbered ones.
pub open spec fn special_cards() -> Seq<CardType> {
    copies(CardType::Flag(WhiteFlagCard {  }), WHITE_FLAG_NB as nat) + copies(
        CardType::Pirate(PirateCard {  }),
        PIRATE_NB as nat,
    ) + copies(CardType::Mermaid(MermaidCard {  }), MERMAID_NB as nat) + seq![
        CardType::SkullKing(SkullKingCard {  }),
        CardType::MarySue(MarySueCard { choice: None }),
    ]
}

/// The cards of a freshly built deck, in the order it is built.
pub open spec fn deck_cards(colors: Seq<CardColor>, per_suit: i32, skulls: i32) -> Seq<CardType> {
    suit_cards(colors, per_suit) + trump_run(skulls) + special_cards()
}

/// The suits of the standard deck.
pub open spec fn standard_colors() -> Seq<CardColor> {
    seq![CardColor::Red, CardColor::Blue, CardColor::Green]
}

pub proof fn lemma_suit_cards_len(colors: Seq<CardColor>, n: i32)
    ensures
        suit_cards(colors, n).len() == colors.len() * count_of(n),
    decreases colors.len(),
{
    if colors.len() > 0 {
        lemma_suit_cards_len(colors.drop_last(), n);
        assert(colors.len() * count_of(n) == (colors.len() - 1) * count_of(n) + count_of(n))
            by (nonlinear_arith);
    }
}

/// A deck holds one card per number of each suit, one per trump number, and
/// fourteen special cards.
pub proof fn lemma_deck_len(colors: Seq<CardColor>, per_suit: i32, skulls: i32)
    ensures
        deck_cards(colors, per_suit, skulls).len() == colors.len() * count_of(per_suit) + count_of(
            skulls,
        ) + 14,
{
    lemma_suit_cards_len(colors, per_suit);
}

proof fn lemma_suit_cards_fresh(colors: Seq<CardColor>, n: i32)
    ensures
        forall|i: int|
            0 <= i < suit_cards(colors, n).len() ==> fresh(#[trigger] suit_cards(colors, n)[i])
                == suit_cards(colors, n)[i],
    decreases colors.len(),
{
    if colors.len() > 0 {
        lemma_suit_cards_fresh(colors.drop_last(), n);
        let a = suit_cards(colors.drop_last(), n);
        let b = suit_run(colors.last(), n);
        assert forall|i: int| 0 <= i < (a + b).len() implies fresh(#[trigger] (a + b)[i]) == (a
            + b)[i] by {
            if i < a.len() {
                assert((a + b)[i] == a[i]);
            } else {
                assert((a + b)[i] == b[i - a.len()]);
            }
        }
    }
}

/// A freshly built deck holds no wild card with an effect: taking its cards
/// fresh leaves them as they are.
pub proof fn lemma_deck_cards_fresh(colors: Seq<CardColor>, per_suit: i32, skulls: i32)
    ensures
        deck_cards(colors, per_suit, skulls).map_values(|c: CardType| fresh(c)) =~= deck_cards(
            colors,
            per_suit,
            skulls,
        ),
{
    lemma_suit_cards_fresh(colors, per_suit);
    let a = suit_cards(colors, per_suit);
    let b = trump_run(skulls);
    let c = special_cards();
    let d = deck_cards(colors, per_suit, skulls);
    assert forall|i: int| 0 <= i < d.len() implies fresh(#[trigger] d[i]) == d[i] by {
        if i < a.len() {
            assert(d[i] == a[i]);
        } else if i < a.len() + b.len() {
            assert(d[i] == b[i - a.len()]);
        } else {
            assert(d[i] == c[i - a.len() - b.len()]);
        }
    }
}

/// An ordered pile of cards; dealing takes from its end.
#[derive(Debug, Clone)]
pub struct Deck {
    pub cards: Vec<PlayCard>,
}

/// Relies on rand's `SliceRandom::shuffle`, driven by `rand::rng()`: it only
/// swaps elements, so the cards that come out are those that went in.
#[verifier::external_body]
fn shuffle_cards(cards: &mut Vec<PlayCard>)
    ensures
        final(cards)@.len() == old(cards)@.len(),
        final(cards)@.to_multiset() == old(cards)@.to_multiset(),
{
    let mut rng = rand::rng();
    cards.shuffle(&mut rng);
}

impl Deck {
    /// The standard deck.
    pub fn new() -> (r: Self)
        ensures
            r.cards@ == deck_cards(standard_colors(), 13, 13),
            r.cards@.len() == 66,
    {
        create_default_deck()
    }

    /// An empty deck.
    pub fn default() -> (r: Self)
        ensures
            r.cards@.len() == 0,
    {
        Deck { cards: Vec::new() }
    }

    /// Puts the cards in a random order; no card is added or lost.
    pub fn shuffle(&mut self)
        ensures
            final(self).cards@.len() == old(self).cards@.len(),
            final(self).cards@.to_multiset() == old(self).cards@.to_multiset(),
    {
        shuffle_cards(&mut self.cards);
    }

    /// Takes the last card, or tells that the deck is empty.
    pub fn deal_one(&mut self) -> (r: Result<PlayCard, GameError>)
        ensures
            old(self).cards@.len() == 0 ==> r == Err::<PlayCard, GameError>(
                GameError::EmptyResource,
            ) && final(self).cards@ == old(self).cards@,
            old(self).cards@.len() > 0 ==> r == Ok::<PlayCard, GameError>(old(self).cards@.last())
                && final(self).cards@ == old(self).cards@.drop_last(),
    {
        match self.cards.pop() {
            Some(c) => Ok(c),
            None => Err(GameError::EmptyResource),
        }
    }

    /// Builds a deck: for each color, one suit card per number from 1 up to
    /// `cards_per_suit`; one trump card per number from 1 up to `skull_count`;
    /// then the white flags, pirates, mermaids, the skull king and the wild card.
    pub fn build(suit_colors: &Vec<CardColor>, cards_per_suit: i32, skull_count: i32) -> (r: Self)
        ensures
            r.cards@ == deck_cards(suit_colors@, cards_per_suit, skull_count),
    {
        let mut cards: Vec<PlayCard> = Vec::new();
        let mut i: usize = 0;
        while i < suit_colors.len()
            invariant
                i <= suit_colors@.len(),
                cards@ == suit_cards(suit_colors@.take(i as int), cards_per_suit),
            decreases suit_colors@.len() - i,
        {
            let color = suit_colors[i];
            let ghost before = cards@;
            let mut v: i32 = 0;
            while v < cards_per_suit
                invariant
                    0 <= v,
                    cards_per_suit > 0 ==> v <= cards_per_suit,
                    cards_per_suit <= 0 ==> v == 0,
                    cards@ == before + Seq::new(
                        v as nat,
                        |k: int| CardType::Color(ColorCard { color, value: (k + 1) as i32 }),
                    ),
                decreases cards_per_suit - v,
            {
                v = v + 1;
                cards.push(new_card(CardTypeName::Color, Some(v), Some(color)));
            }
            proof {
                let taken = suit_colors@.take(i as int + 1);
                assert(taken.drop_last() =~= suit_colors@.take(i as int));
                assert(cards@ =~= before + suit_run(color, cards_per_suit));
            }
            i = i + 1;
        }
        assert(suit_colors@.take(suit_colors@.len() as int) =~= suit_colors@);
        let ghost suits = cards@;
        let mut v: i32 = 0;
        while v < skull_count
            invariant
                0 <= v,
                skull_count > 0 ==> v <= skull_count,
                skull_count <= 0 ==> v == 0,
                cards@ == suits + Seq::new(
                    v as nat,
                    |k: int| CardType::Skull(SkullCard { value: (k + 1) as i32 }),
                ),
            decreases skull_count - v,
        {
            v = v + 1;
            cards.push(new_card(CardTypeName::Skull, Some(v), None));
        }
        assert(cards@ =~= suits + trump_run(skull_count));
        let ghost numbered = cards@;
        let mut k: usize = 0;
        while k < WHITE_FLAG_NB
            invariant
                k <= WHITE_FLAG_NB,
                cards@ == numbered + copies(CardType::Flag(WhiteFlagCard {  }), k as nat),
            decreases WHITE_FLAG_NB - k,
        {
            cards.push(new_card(CardTypeName::Flag, None, None));
            k = k + 1;
            assert(cards@ =~= numbered + copies(CardType::Flag(WhiteFlagCard {  }), k as nat));
        }
        let ghost flags = cards@;
        k = 0;
        while k < PIRATE_NB
            invariant
                k <= PIRATE_NB,
                cards@ == flags + copies(CardType::Pirate(PirateCard {  }), k as nat),
            decreases PIRATE_NB - k,
        {
            cards.push(new_card(CardTypeName::Pirate, None, None));
            k = k + 1;
            assert(cards@ =~= flags + copies(CardType::Pirate(PirateCard {  }), k as nat));
        }
        let ghost pirates = cards@;
        k = 0;
        while k < MERMAID_NB
            invariant
                k <= MERMAID_NB,
                cards@ == pirates + copies(CardType::Mermaid(MermaidCard {  }), k as nat),
            decreases MERMAID_NB - k,
        {
            cards.push(new_card(CardTypeName::Mermaid, None, None));
            k = k + 1;
            assert(cards@ =~= pirates + copies(CardType::Mermaid(MermaidCard {  }), k as nat));
        }
        cards.push(new_card(CardTypeName::SkullKing, None, None));
        cards.push(new_card(CardTypeName::MarySue, None, None));
        assert(cards@ =~= deck_cards(suit_colors@, cards_per_suit, skull_count));
        Deck { cards }
    }
}

/// The deck of the three standard suits, with as many trump cards as cards
/// per suit.
pub fn create_deck(nb_per_color: i32) -> (r: Deck)
    ensures
        r.cards@ == deck_cards(standard_colors(), nb_per_color, nb_per_color),
{
    let colors = vec![CardColor::Red, CardColor::Blue, CardColor::Green];
    assert(colors@ =~= standard_colors());
    Deck::build(&colors, nb_per_color, nb_per_color)
}

/// The standard deck of sixty-six cards.
pub fn create_default_deck() -> (r: Deck)
    ensures
        r.cards@ == deck_cards(standard_colors(), 13, 13),
        r.cards@.len() == 66,
{
    proof {
        lemma_deck_len(standard_colors(), 13, 13);
        assert(standard_colors().len() == 3);
        assert(standard_colors().len() * count_of(13) == 39);
    }
    create_deck(13)
}

} // verus!
