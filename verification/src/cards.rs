//! The classic 52 card deck: suites, values, and the numbering of
//! cards as `0..52`.
use vstd::prelude::*;

verus! {

/// Errors of card games played with a classic deck.
#[derive(Debug, PartialEq, Eq, Clone, Copy)]
pub enum GameErrors {
    CardNotFound,
    InvalidCard,
}

impl GameErrors {
    /// The human readable description of the error.
    pub fn message(&self) -> (s: &'static str)
        ensures
            *self == GameErrors::CardNotFound ==> s@ == "No such card in hand"@,
            *self == GameErrors::InvalidCard ==> s@ == "Invalid card"@,
    {
        match self {
            GameErrors::CardNotFound => "No such card in hand",
            GameErrors::InvalidCard => "Invalid card",
        }
    }
}

/// The four suites, in increasing order.
#[derive(Clone, Copy, PartialEq, Eq, PartialOrd, Ord, Debug, Structural)]
pub enum Suite {
    Club,
    Diamond,
    Heart,
    Spade,
}

/// The thirteen values, in increasing order.
#[derive(Clone, Copy, PartialEq, Eq, PartialOrd, Ord, Debug, Structural)]
pub enum Value {
    Two,
    Three,
    Four,
    Five,
    Six,
    Seven,
    Eight,
    Nine,
    Ten,
    Jack,
    Queen,
    King,
    Ace,
}

impl Suite {
    /// Position of the suite in `Club, Diamond, Heart, Spade`.
    pub open spec fn rank(self) -> nat {
        match self {
            Suite::Club => 0,
            Suite::Diamond => 1,
            Suite::Heart => 2,
            Suite::Spade => 3,
        }
    }

    /// The suite at position `i` of `Club, Diamond, Heart, Spade`.
    pub open spec fn at(i: nat) -> Suite {
        if i == 0 {
            Suite::Club
        } else if i == 1 {
            Suite::Diamond
        } else if i == 2 {
            Suite::Heart
        } else {
            Suite::Spade
        }
    }

    pub fn index(&self) -> (i: usize)
        ensures
            i == self.rank(),
            i < 4,
            *self == Suite::Club ==> i == 0,
            *self == Suite::Diamond ==> i == 1,
            *self == Suite::Heart ==> i == 2,
            *self == Suite::Spade ==> i == 3,
    {
        match self {
            Suite::Club => 0,
            Suite::Diamond => 1,
            Suite::Heart => 2,
            Suite::Spade => 3,
        }
    }

    pub fn from_index(i: usize) -> (s: Suite)
        requires
            i < 4,
        ensures
            s == Suite::at(i as nat),
            s.rank() == i,
            i == 0 ==> s == Suite::Club,
            i == 1 ==> s == Suite::Diamond,
            i == 2 ==> s == Suite::Heart,
            i == 3 ==> s == Suite::Spade,
    {
        if i == 0 {
            Suite::Club
        } else if i == 1 {
            Suite::Diamond
        } else if i == 2 {
            Suite::Heart
        } else {
            Suite::Spade
        }
    }

    /// The printed symbol of the suite.
    pub fn symbol(&self) -> (s: &'static str)
        ensures
            s@ == self.spec_symbol()@,
            *self == Suite::Club ==> s@ == "♣"@,
            *self == Suite::Diamond ==> s@ == "♦"@,
            *self == Suite::Heart ==> s@ == "♥"@,
            *self == Suite::Spade ==> s@ == "♠"@,
    {
        match self {
            Suite::Club => "♣",
            Suite::Diamond => "♦",
            Suite::Heart => "♥",
            Suite::Spade => "♠",
        }
    }

    pub open spec fn spec_symbol(self) -> &'static str {
        match self {
            Suite::Club => "♣",
            Suite::Diamond => "♦",
            Suite::Heart => "♥",
            Suite::Spade => "♠",
        }
    }
}

impl Value {
    /// Position of the value in `Two, Three, ..., King, Ace`.
    pub open spec fn rank(self) -> nat {
        match self {
            Value::Two => 0,
            Value::Three => 1,
            Value::Four => 2,
            Value::Five => 3,
            Value::Six => 4,
            Value::Seven => 5,
            Value::Eight => 6,
            Value::Nine => 7,
            Value::Ten => 8,
            Value::Jack => 9,
            Value::Queen => 10,
            Value::King => 11,
            Value::Ace => 12,
        }
    }

    /// The value at position `i` of `Two, Three, ..., King, Ace`.
    pub open spec fn at(i: nat) -> Value {
        if i == 0 {
            Value::Two
        } else if i == 1 {
            Value::Three
        } else if i == 2 {
            Value::Four
        } else if i == 3 {
            Value::Five
        } else if i == 4 {
            Value::Six
        } else if i == 5 {
            Value::Seven
        } else if i == 6 {
            Value::Eight
        } else if i == 7 {
            Value::Nine
        } else if i == 8 {
            Value::Ten
        } else if i == 9 {
            Value::Jack
        } else if i == 10 {
            Value::Queen
        } else if i == 11 {
            Value::King
        } else {
            Value::Ace
        }
    }

    pub fn index(&self) -> (i: usize)
        ensures
            i == self.rank(),
            i < 13,
            *self == Value::Two ==> i == 0,
            *self == Value::Three ==> i == 1,
            *self == Value::Four ==> i == 2,
            *self == Value::Five ==> i == 3,
            *self == Value::Six ==> i == 4,
            *self == Value::Seven ==> i == 5,
            *self == Value::Eight ==> i == 6,
            *self == Value::Nine ==> i == 7,
            *self == Value::Ten ==> i == 8,
            *self == Value::Jack ==> i == 9,
            *self == Value::Queen ==> i == 10,
            *self == Value::King ==> i == 11,
            *self == Value::Ace ==> i == 12,
    {
        match self {
            Value::Two => 0,
            Value::Three => 1,
            Value::Four => 2,
            Value::Five => 3,
            Value::Six => 4,
            Value::Seven => 5,
            Value::Eight => 6,
            Value::Nine => 7,
            Value::Ten => 8,
            Value::Jack => 9,
            Value::Queen => 10,
            Value::King => 11,
            Value::Ace => 12,
        }
    }

    pub fn from_index(i: usize) -> (v: Value)
        requires
            i < 13,
        ensures
            v == Value::at(i as nat),
            v.rank() == i,
            i == 0 ==> v == Value::Two,
            i == 1 ==> v == Value::Three,
            i == 2 ==> v == Value::Four,
            i == 3 ==> v == Value::Five,
            i == 4 ==> v == Value::Six,
            i == 5 ==> v == Value::Seven,
            i == 6 ==> v == Value::Eight,
            i == 7 ==> v == Value::Nine,
            i == 8 ==> v == Value::Ten,
            i == 9 ==> v == Value::Jack,
            i == 10 ==> v == Value::Queen,
            i == 11 ==> v == Value::King,
            i == 12 ==> v == Value::Ace,
    {
        if i == 0 {
            Value::Two
        } else if i == 1 {
            Value::Three
        } else if i == 2 {
            Value::Four
        } else if i == 3 {
            Value::Five
        } else if i == 4 {
            Value::Six
        } else if i == 5 {
            Value::Seven
        } else if i == 6 {
            Value::Eight
        } else if i == 7 {
            Value::Nine
        } else if i == 8 {
            Value::Ten
        } else if i == 9 {
            Value::Jack
        } else if i == 10 {
            Value::Queen
        } else if i == 11 {
            Value::King
        } else {
            Value::Ace
        }
    }

    /// The printed symbol of the value.
    pub fn symbol(&self) -> (s: &'static str)
        ensures
            s@ == self.spec_symbol()@,
            *self == Value::Two ==> s@ == "2"@,
            *self == Value::Three ==> s@ == "3"@,
            *self == Value::Four ==> s@ == "4"@,
            *self == Value::Five ==> s@ == "5"@,
            *self == Value::Six ==> s@ == "6"@,
            *self == Value::Seven ==> s@ == "7"@,
            *self == Value::Eight ==> s@ == "8"@,
            *self == Value::Nine ==> s@ == "9"@,
            *self == Value::Ten ==> s@ == "10"@,
            *self == Value::Jack ==> s@ == "J"@,
            *self == Value::Queen ==> s@ == "Q"@,
            *self == Value::King ==> s@ == "K"@,
            *self == Value::Ace ==> s@ == "A"@,
    {
        match self {
            Value::Two => "2",
            Value::Three => "3",
            Value::Four => "4",
            Value::Five => "5",
            Value::Six => "6",
            Value::Seven => "7",
            Value::Eight => "8",
            Value::Nine => "9",
            Value::Ten => "10",
            Value::Jack => "J",
            Value::Queen => "Q",
            Value::King => "K",
            Value::Ace => "A",
        }
    }

    pub open spec fn spec_symbol(self) -> &'static str {
        match self {
            Value::Two => "2",
            Value::Three => "3",
            Value::Four => "4",
            Value::Five => "5",
            Value::Six => "6",
            Value::Seven => "7",
            Value::Eight => "8",
            Value::Nine => "9",
            Value::Ten => "10",
            Value::Jack => "J",
            Value::Queen => "Q",
            Value::King => "K",
            Value::Ace => "A",
        }
    }
}

/// A card of the classic deck.
#[derive(Clone, Copy, PartialEq, Eq, Debug, Structural)]
pub struct ClassicPlayingCard {
    pub value: Value,
    pub suite: Suite,
}

impl ClassicPlayingCard {
    /// The number of the card in `0..52`: suites in blocks of thirteen,
    /// values in increasing order inside a block.
    pub open spec fn number(self) -> nat {
        13 * self.suite.rank() + self.value.rank()
    }

    /// The card whose number is `x`.
    pub open spec fn numbered(x: nat) -> ClassicPlayingCard {
        ClassicPlayingCard { value: Value::at(x % 13), suite: Suite::at(x / 13) }
    }

    pub fn to_52(&self) -> (x: usize)
        ensures
            x == self.number(),
            x < 52,
    {
        13 * self.suite.index() + self.value.index()
    }

    pub fn from_52(x: usize) -> (c: ClassicPlayingCard)
        requires
            x < 52,
        ensures
            c == ClassicPlayingCard::numbered(x as nat),
            c.number() == x,
    {
        ClassicPlayingCard { value: Value::from_index(x % 13), suite: Suite::from_index(x / 13) }
    }

    /// The printed form of the card: value symbol, then suite symbol.
    pub fn symbol(&self) -> (s: String)
        ensures
            s@ == self.value.spec_symbol()@ + self.suite.spec_symbol()@,
    {
        let v = String::from_str(self.value.symbol());
        v.concat(self.suite.symbol())
    }
}

/// Numbering a card and taking the card of that number gives the card back.
pub proof fn lemma_numbered_number(c: ClassicPlayingCard)
    ensures
        ClassicPlayingCard::numbered(c.number()) == c,
        c.number() < 52,
{
}

/// Every number below 52 is the number of exactly the card it names.
pub proof fn lemma_number_numbered(x: nat)
    requires
        x < 52,
    ensures
        ClassicPlayingCard::numbered(x).number() == x,
{
}

/// Distinct cards have distinct numbers.
pub proof fn lemma_number_injective(a: ClassicPlayingCard, b: ClassicPlayingCard)
    requires
        a.number() == b.number(),
    ensures
        a == b,
{
    lemma_numbered_number(a);
    lemma_numbered_number(b);
}

/// Values are ranked in their order of play, `Two` lowest and `Ace`
/// highest: each value's position among the thirteen, so that the card
/// numbers follow the same order inside each suite's block.
pub proof fn lemma_value_ranks()
    ensures
        Value::Two.rank() == 0,
        Value::Three.rank() == 1,
        Value::Four.rank() == 2,
        Value::Five.rank() == 3,
        Value::Six.rank() == 4,
        Value::Seven.rank() == 5,
        Value::Eight.rank() == 6,
        Value::Nine.rank() == 7,
        Value::Ten.rank() == 8,
        Value::Jack.rank() == 9,
        Value::Queen.rank() == 10,
        Value::King.rank() == 11,
        Value::Ace.rank() == 12,
        forall|i: nat| i < 13 ==> (#[trigger] Value::at(i)).rank() == i,
{
}

/// Suites are ranked `Club, Diamond, Heart, Spade`, which orders the
/// blocks of thirteen card numbers.
pub proof fn lemma_suite_ranks()
    ensures
        Suite::Club.rank() == 0,
        Suite::Diamond.rank() == 1,
        Suite::Heart.rank() == 2,
        Suite::Spade.rank() == 3,
        forall|i: nat| i < 4 ==> (#[trigger] Suite::at(i)).rank() == i,
{
}

/// The number of a card is thirteen times its suite's position plus its
/// value's position: the Jack of Clubs is card 9, the Two of Diamonds
/// card 13, the Ace of Spades card 51.
pub proof fn lemma_card_numbers(c: ClassicPlayingCard)
    ensures
        c.number() == 13 * c.suite.rank() + c.value.rank(),
        c.suite == Suite::Club ==> c.number() < 13,
        c.value == Value::Jack && c.suite == Suite::Club ==> c.number() == 9,
        c.value == Value::Two ==> c.number() % 13 == 0,
        c.value == Value::Ace ==> c.number() % 13 == 12,
{
}

/// Each suite prints as its own symbol: clubs `♣`, diamonds `♦`,
/// hearts `♥`, spades `♠`; values print as their digits or initials.
pub proof fn lemma_symbols()
    ensures
        Suite::Club.spec_symbol()@ == "♣"@,
        Suite::Diamond.spec_symbol()@ == "♦"@,
        Suite::Heart.spec_symbol()@ == "♥"@,
        Suite::Spade.spec_symbol()@ == "♠"@,
        Value::Two.spec_symbol()@ == "2"@,
        Value::Three.spec_symbol()@ == "3"@,
        Value::Four.spec_symbol()@ == "4"@,
        Value::Five.spec_symbol()@ == "5"@,
        Value::Six.spec_symbol()@ == "6"@,
        Value::Seven.spec_symbol()@ == "7"@,
        Value::Eight.spec_symbol()@ == "8"@,
        Value::Nine.spec_symbol()@ == "9"@,
        Value::Ten.spec_symbol()@ == "10"@,
        Value::Jack.spec_symbol()@ == "J"@,
        Value::Queen.spec_symbol()@ == "Q"@,
        Value::King.spec_symbol()@ == "K"@,
        Value::Ace.spec_symbol()@ == "A"@,
{
}

} // verus!
