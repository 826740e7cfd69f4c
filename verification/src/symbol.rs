use vstd::prelude::*;

verus! {

/// Whether Unicode gives the character the Alphabetic property.
pub uninterp spec fn alphabetic(c: char) -> bool;

/// `char::is_alphabetic` of the standard library: a table lookup whose answer
/// depends on the character alone. The answer is given the name `alphabetic`.
pub assume_specification[ char::is_alphabetic ](c: char) -> (b: bool)
    ensures
        b == alphabetic(c),
;

/// One token of a formula.
#[derive(Debug, Clone, Copy, PartialEq, Eq, Structural)]
pub enum LogicalSymbol {
    False,
    True,
    Variable(char),
    Negation,
    Conjunction,
    Disjunction,
    ExclusiveOr,
    Implication,
    Equivalence,
}

impl LogicalSymbol {
    /// The token that a character stands for, given whether the character is
    /// alphabetic. The glyphs of constants and operators are read first.
    pub open spec fn classify_spec(c: char, is_alphabetic: bool) -> Option<LogicalSymbol> {
        if c == '0' {
            Some(LogicalSymbol::False)
        } else if c == '1' {
            Some(LogicalSymbol::True)
        } else if c == '!' {
            Some(LogicalSymbol::Negation)
        } else if c == '&' {
            Some(LogicalSymbol::Conjunction)
        } else if c == '|' {
            Some(LogicalSymbol::Disjunction)
        } else if c == '^' {
            Some(LogicalSymbol::ExclusiveOr)
        } else if c == '>' {
            Some(LogicalSymbol::Implication)
        } else if c == '=' {
            Some(LogicalSymbol::Equivalence)
        } else if is_alphabetic {
            Some(LogicalSymbol::Variable(c))
        } else {
            None
        }
    }

    /// The token that a character stands for.
    pub open spec fn from_char_spec(c: char) -> Option<LogicalSymbol> {
        Self::classify_spec(c, alphabetic(c))
    }

    /// The glyph that the token is written with.
    pub open spec fn glyph(self) -> char {
        match self {
            LogicalSymbol::False => '0',
            LogicalSymbol::True => '1',
            LogicalSymbol::Negation => '!',
            LogicalSymbol::Conjunction => '&',
            LogicalSymbol::Disjunction => '|',
            LogicalSymbol::ExclusiveOr => '^',
            LogicalSymbol::Implication => '>',
            LogicalSymbol::Equivalence => '=',
            LogicalSymbol::Variable(c) => c,
        }
    }

    /// The token that a character stands for, given whether the character is
    /// alphabetic.
    pub fn classify(c: char, is_alphabetic: bool) -> (r: Option<LogicalSymbol>)
        ensures
            r == Self::classify_spec(c, is_alphabetic),
    {
        match c {
            '0' => Some(LogicalSymbol::False),
            '1' => Some(LogicalSymbol::True),
            '!' => Some(LogicalSymbol::Negation),
            '&' => Some(LogicalSymbol::Conjunction),
            '|' => Some(LogicalSymbol::Disjunction),
            '^' => Some(LogicalSymbol::ExclusiveOr),
            '>' => Some(LogicalSymbol::Implication),
            '=' => Some(LogicalSymbol::Equivalence),
            _ => if is_alphabetic {
                Some(LogicalSymbol::Variable(c))
            } else {
                None
            },
        }
    }

    /// The token that a character stands for; `None` for a character outside
    /// the grammar.
    pub fn from_char(c: char) -> (r: Option<LogicalSymbol>)
        ensures
            r == Self::from_char_spec(c),
    {
        Self::classify(c, c.is_alphabetic())
    }

    /// The glyph that the token is written with.
    pub fn to_unicode(&self) -> (c: char)
        ensures
            c == self.glyph(),
    {
        match self {
            LogicalSymbol::False => '0',
            LogicalSymbol::True => '1',
            LogicalSymbol::Negation => '!',
            LogicalSymbol::Conjunction => '&',
            LogicalSymbol::Disjunction => '|',
            LogicalSymbol::ExclusiveOr => '^',
            LogicalSymbol::Implication => '>',
            LogicalSymbol::Equivalence => '=',
            LogicalSymbol::Variable(c) => *c,
        }
    }

    /// Whether the token is a constant or a variable.
    pub fn is_operand(&self) -> (b: bool)
        ensures
            b == (*self is True || *self is False || *self is Variable),
    {
        matches!(self, LogicalSymbol::True | LogicalSymbol::False | LogicalSymbol::Variable(_))
    }

    /// Whether the token is a variable.
    pub fn is_variable(&self) -> (b: bool)
        ensures
            b == (*self is Variable),
    {
        matches!(self, LogicalSymbol::Variable(_))
    }

    /// Whether the token is one of the six operators.
    pub fn is_operator(&self) -> (b: bool)
        ensures
            b == !(*self is True || *self is False || *self is Variable),
    {
        !self.is_operand()
    }
}

/// A token that is read stands for the character it was read from.
pub proof fn lemma_symbol_round_trip(c: char)
    ensures
        LogicalSymbol::from_char_spec(c) matches Some(symbol) ==> symbol.glyph() == c,
{
}

/// The glyph of a constant or an operator is read as that token.
pub proof fn lemma_glyph_round_trip(symbol: LogicalSymbol)
    requires
        !(symbol is Variable),
    ensures
        LogicalSymbol::from_char_spec(symbol.glyph()) == Some(symbol),
{
}

} // verus!
