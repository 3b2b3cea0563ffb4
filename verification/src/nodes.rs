//! The search expression tree that the compiler consumes.

use vstd::prelude::*;

verus! {

/// One element of a search expression.
///
/// Inside a `Group`, connectors and operands alternate; the tree is taken as
/// it is written and no precedence is inferred.
#[derive(Debug, PartialEq)]
pub enum Node {
    /// The connector "and", written between two operands of a group.
    And,
    /// The connector "or", written between two operands of a group.
    Or,
    /// Negation of the one operand that follows.
    Not(Box<Node>),
    /// A parenthesised list of operands and connectors.
    Group(Vec<Node>),
    /// A leaf predicate.
    Search(SearchNode),
}

/// A leaf predicate of a search.
#[derive(Debug, PartialEq)]
pub enum SearchNode {
    /// Text to look for anywhere in a note.
    UnqualifiedText(String),
    /// Text to look for in the fields called `field`.
    SingleField { field: String, text: String },
    /// Cards added within the given number of days. The number is compared
    /// with the card's id as it is; it is not turned into a time.
    AddedInDays(u32),
    /// Cards made from a template.
    CardTemplate(TemplateKind),
    /// Cards in the decks that a pattern names, or one of `*`, `filtered`
    /// and `current`.
    Deck(String),
    /// Notes of the note type with this id.
    NoteTypeID(i64),
    /// Notes of the note types that a pattern names.
    NoteType(String),
    /// Cards answered within the given number of days, optionally with a
    /// given ease button.
    Rated { days: u32, ease: Option<u8> },
    /// Notes whose tags are like the text, or that carry no tag where the
    /// text is `none`.
    Tag(String),
    /// Notes of a note type whose first field equals `text`.
    Duplicates { note_type_id: i64, text: String },
    /// Cards in a scheduling state.
    State(StateKind),
    /// Cards with a flag, 0 to 7.
    Flag(u8),
    /// Notes by id. The text is a comma-separated list that the caller has
    /// built from validated ids; it is written into the predicate as it is.
    NoteIDs(String),
    /// Cards by id, under the same terms as `NoteIDs`.
    CardIDs(String),
    /// A comparison of a card property with a number. The operator is
    /// written into the predicate as it is.
    Property { operator: String, kind: PropertyKind },
}

/// The property that a `Property` leaf compares, with the number to compare
/// it with.
#[derive(Debug, PartialEq)]
pub enum PropertyKind {
    /// Days from today until the card is due; negative for overdue cards.
    Due(i32),
    /// The interval in days.
    Interval(u32),
    /// The number of reviews.
    Reps(u32),
    /// The number of lapses.
    Lapses(u32),
    /// The ease factor in thousandths, as cards store it: 2500 for a factor of
    /// two and a half.
    Ease(u32),
}

/// The scheduling states that a `State` leaf can ask for.
#[derive(Debug, PartialEq)]
pub enum StateKind {
    New,
    Review,
    Learning,
    Due,
    Buried,
    Suspended,
}

/// How a `CardTemplate` leaf names its template.
#[derive(Debug, PartialEq)]
pub enum TemplateKind {
    /// By position among the note type's templates, counted from 0.
    Ordinal(u16),
    /// By a name pattern.
    Name(String),
}

} // verus!
