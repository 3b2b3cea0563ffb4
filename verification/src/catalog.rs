//! The read-only snapshot of a collection that one compilation works on:
//! today's scheduling numbers, the decks and the note types.

use vstd::prelude::*;
use crate::text::{ascii_fold, chars_of, fold_char};

verus! {

/// A deck. The name holds the deck's place in the hierarchy: the names of its
/// ancestors and its own, joined by `::`.
#[derive(Debug, PartialEq)]
pub struct Deck {
    pub id: i64,
    pub name: String,
}

/// A field of a note type.
#[derive(Debug, PartialEq)]
pub struct NoteField {
    pub name: String,
    pub ord: u16,
}

/// A card template of a note type.
#[derive(Debug, PartialEq)]
pub struct CardTemplate {
    pub name: String,
    pub ord: u16,
}

/// A note type with its fields and templates.
#[derive(Debug, PartialEq)]
pub struct NoteType {
    pub id: i64,
    pub name: String,
    pub fields: Vec<NoteField>,
    pub templates: Vec<CardTemplate>,
}

/// Where today stands on the collection's calendar.
#[derive(Debug, Clone, Copy, PartialEq)]
pub struct SchedTimingToday {
    /// Days that have passed since the collection was created.
    pub days_elapsed: u32,
    /// The time at which the next day starts, in seconds since the epoch.
    pub next_day_at: i64,
}

/// What a compilation reads of a collection. Decks and note types are taken
/// in the order in which the lists hold them.
#[derive(Debug, PartialEq)]
pub struct Collection {
    pub timing: SchedTimingToday,
    pub decks: Vec<Deck>,
    pub current_deck_id: i64,
    pub note_types: Vec<NoteType>,
}

/// The position of the first deck with the given id, if there is one.
pub open spec fn deck_position(decks: Seq<Deck>, id: i64) -> Option<int>
    decreases decks.len(),
{
    if decks.len() == 0 {
        None
    } else {
        match deck_position(decks.drop_last(), id) {
            Some(at) => Some(at),
            None => if decks.last().id == id {
                Some(decks.len() - 1)
            } else {
                None
            },
        }
    }
}

/// The first deck with the given id.
pub fn get_deck(decks: &[Deck], id: i64) -> (found: Option<&Deck>)
    ensures
        match deck_position(decks@, id) {
            Some(at) => 0 <= at < decks.len() && found == Some(&decks@[at]),
            None => found is None,
        },
{
    let mut i: usize = 0;
    while i < decks.len()
        invariant
            i <= decks.len(),
            deck_position(decks@.take(i as int), id) is None,
        decreases decks.len() - i,
    {
        assert(decks@.take(i + 1).drop_last() == decks@.take(i as int));
        if decks[i].id == id {
            proof {
                lemma_position_extends(decks@, id, i + 1);
            }
            return Some(&decks[i]);
        }
        i += 1;
    }
    assert(decks@.take(i as int) == decks@);
    None
}

/// A position found among the first `upto` decks is the position among all.
proof fn lemma_position_extends(decks: Seq<Deck>, id: i64, upto: int)
    requires
        0 <= upto <= decks.len(),
        deck_position(decks.take(upto), id) is Some,
    ensures
        deck_position(decks, id) == deck_position(decks.take(upto), id),
    decreases decks.len() - upto,
{
    if upto < decks.len() {
        assert(decks.take(upto + 1).drop_last() == decks.take(upto));
        lemma_position_extends(decks, id, upto + 1);
    } else {
        assert(decks.take(upto) == decks);
    }
}

/// Whether a deck called `child` lies below a deck called `parent`: its name
/// starts with the parent's name, up to ASCII case, followed by `::`.
pub open spec fn is_child_name(child: Seq<char>, parent: Seq<char>) -> bool {
    &&& child.len() >= parent.len() + 2
    &&& forall|i: int|
        0 <= i < parent.len() ==> ascii_fold(#[trigger] child[i]) == ascii_fold(parent[i])
    &&& child[parent.len() as int] == ':'
    &&& child[parent.len() as int + 1] == ':'
}

/// The ids of the decks that lie below a deck called `name`, in the order of
/// `decks`.
pub open spec fn child_ids_of(decks: Seq<Deck>, name: Seq<char>) -> Seq<i64>
    decreases decks.len(),
{
    if decks.len() == 0 {
        Seq::empty()
    } else if is_child_name(decks.last().name@, name) {
        child_ids_of(decks.drop_last(), name).push(decks.last().id)
    } else {
        child_ids_of(decks.drop_last(), name)
    }
}

fn has_parent(child: &Vec<char>, parent: &Vec<char>) -> (below: bool)
    ensures
        below == is_child_name(child@, parent@),
{
    let n = parent.len();
    if child.len() < n || child.len() - n < 2 {
        return false;
    }
    let mut i: usize = 0;
    while i < n
        invariant
            i <= n,
            n == parent.len(),
            child.len() >= n + 2,
            forall|k: int|
                0 <= k < i ==> ascii_fold(#[trigger] child@[k]) == ascii_fold(parent@[k]),
        decreases n - i,
    {
        if fold_char(child[i]) != fold_char(parent[i]) {
            return false;
        }
        i += 1;
    }
    child[n] == ':' && child[n + 1] == ':'
}

/// The ids of the decks that lie below a deck called `name`.
pub fn child_ids(decks: &[Deck], name: &str) -> (ids: Vec<i64>)
    ensures
        ids@ == child_ids_of(decks@, name@),
{
    let parent = chars_of(name);
    let mut ids: Vec<i64> = Vec::new();
    let mut i: usize = 0;
    while i < decks.len()
        invariant
            i <= decks.len(),
            parent@ == name@,
            ids@ == child_ids_of(decks@.take(i as int), name@),
        decreases decks.len() - i,
    {
        assert(decks@.take(i + 1).drop_last() == decks@.take(i as int));
        let child = chars_of(decks[i].name.as_str());
        if has_parent(&child, &parent) {
            ids.push(decks[i].id);
        }
        i += 1;
    }
    assert(decks@.take(i as int) == decks@);
    ids
}

} // verus!
