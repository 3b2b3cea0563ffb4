//! What a search reads of a collection.
//!
//! A caller that has to fetch the parts of a snapshot can ask first which
//! of them a search will read, and leave the others empty: the predicate
//! does not depend on them.

use vstd::prelude::*;
use crate::catalog::Collection;
use crate::nodes::{Node, SearchNode, TemplateKind};
use crate::sqlwriter::{
    node_fails, node_fragment, nodes_fail, nodes_fragment, search_node, search_node_fails,
};
use crate::text::same_text;

verus! {

/// The parts of a collection, each marked as read or not.
#[derive(Debug, Clone, Copy, PartialEq, Eq, Structural)]
pub struct Needs {
    /// Today's scheduling numbers.
    pub timing: bool,
    /// The decks.
    pub decks: bool,
    /// The id of the current deck.
    pub current_deck: bool,
    /// The note types.
    pub note_types: bool,
}

impl Needs {
    /// No part.
    pub open spec fn nothing() -> Needs {
        Needs { timing: false, decks: false, current_deck: false, note_types: false }
    }

    /// The parts that are marked here or in `other`.
    pub open spec fn and(self, other: Needs) -> Needs {
        Needs {
            timing: self.timing || other.timing,
            decks: self.decks || other.decks,
            current_deck: self.current_deck || other.current_deck,
            note_types: self.note_types || other.note_types,
        }
    }
}

/// What a leaf reads.
///
/// Leaves about answers, states and properties read the timing. A deck leaf
/// reads the decks unless it asks for every deck or for the filtered ones,
/// and the current deck where it asks for that. Leaves that name fields,
/// templates or note types read the note types.
pub open spec fn leaf_needs(leaf: SearchNode) -> Needs {
    match leaf {
        SearchNode::SingleField { .. } => Needs { note_types: true, ..Needs::nothing() },
        SearchNode::CardTemplate(TemplateKind::Name(_)) => Needs {
            note_types: true,
            ..Needs::nothing()
        },
        SearchNode::NoteType(_) => Needs { note_types: true, ..Needs::nothing() },
        SearchNode::Deck(deck) => if deck@ == "*"@ || deck@ == "filtered"@ {
            Needs::nothing()
        } else {
            Needs { decks: true, current_deck: deck@ == "current"@, ..Needs::nothing() }
        },
        SearchNode::Rated { .. } => Needs { timing: true, ..Needs::nothing() },
        SearchNode::State(_) => Needs { timing: true, ..Needs::nothing() },
        SearchNode::Property { .. } => Needs { timing: true, ..Needs::nothing() },
        _ => Needs::nothing(),
    }
}

/// What a node reads: what its leaves read.
pub open spec fn node_needs(node: Node) -> Needs
    decreases node,
{
    match node {
        Node::And => Needs::nothing(),
        Node::Or => Needs::nothing(),
        Node::Not(inner) => node_needs(*inner),
        Node::Group(nodes) => nodes_need(nodes@),
        Node::Search(leaf) => leaf_needs(leaf),
    }
}

/// What a list of nodes reads.
pub open spec fn nodes_need(nodes: Seq<Node>) -> Needs
    decreases nodes,
{
    if nodes.len() == 0 {
        Needs::nothing()
    } else {
        nodes_need(nodes.drop_last()).and(node_needs(nodes.last()))
    }
}

/// Whether two collections hold the same in the parts that are marked.
pub open spec fn same_where_needed(a: Collection, b: Collection, needs: Needs) -> bool {
    &&& needs.timing ==> a.timing == b.timing
    &&& needs.decks ==> a.decks@ == b.decks@
    &&& needs.current_deck ==> a.current_deck_id == b.current_deck_id
    &&& needs.note_types ==> a.note_types@ == b.note_types@
}

fn search_node_needs(leaf: &SearchNode) -> (needs: Needs)
    ensures
        needs == leaf_needs(*leaf),
{
    let nothing = Needs { timing: false, decks: false, current_deck: false, note_types: false };
    match leaf {
        SearchNode::SingleField { .. } => Needs { note_types: true, ..nothing },
        SearchNode::CardTemplate(TemplateKind::Name(_)) => Needs { note_types: true, ..nothing },
        SearchNode::NoteType(_) => Needs { note_types: true, ..nothing },
        SearchNode::Deck(deck) => {
            if same_text(deck.as_str(), "*") || same_text(deck.as_str(), "filtered") {
                nothing
            } else {
                Needs { decks: true, current_deck: same_text(deck.as_str(), "current"), ..nothing }
            }
        },
        SearchNode::Rated { .. } => Needs { timing: true, ..nothing },
        SearchNode::State(_) => Needs { timing: true, ..nothing },
        SearchNode::Property { .. } => Needs { timing: true, ..nothing },
        _ => nothing,
    }
}

/// The parts of a collection that the predicate of `node` depends on.
pub fn needs(node: &Node) -> (needs: Needs)
    ensures
        needs == node_needs(*node),
    decreases node,
{
    match node {
        Node::And => Needs { timing: false, decks: false, current_deck: false, note_types: false },
        Node::Or => Needs { timing: false, decks: false, current_deck: false, note_types: false },
        Node::Not(inner) => self::needs(inner),
        Node::Group(nodes) => {
            let mut all = Needs {
                timing: false,
                decks: false,
                current_deck: false,
                note_types: false,
            };
            let mut i: usize = 0;
            assert(nodes@.take(0) =~= Seq::<Node>::empty());
            while i < nodes.len()
                invariant
                    i <= nodes.len(),
                    *node == Node::Group(*nodes),
                    all == nodes_need(nodes@.take(i as int)),
                decreases nodes.len() - i,
            {
                assert(nodes@.take(i + 1).drop_last() == nodes@.take(i as int));
                assert(nodes@.take(i + 1).last() == nodes@[i as int]);
                proof {
                    // the call is on a smaller tree: a node of this group
                    vstd::std_specs::vec::axiom_vec_index_decreases(*nodes, i as int);
                    assert(decreases_to!(*node => node->Group_0));
                }
                let one = self::needs(&nodes[i]);
                all = Needs {
                    timing: all.timing || one.timing,
                    decks: all.decks || one.decks,
                    current_deck: all.current_deck || one.current_deck,
                    note_types: all.note_types || one.note_types,
                };
                i += 1;
            }
            assert(nodes@.take(i as int) == nodes@);
            all
        },
        Node::Search(leaf) => search_node_needs(leaf),
    }
}

proof fn lemma_leaf_reads_its_needs(a: Collection, b: Collection, leaf: SearchNode, bound: nat)
    requires
        same_where_needed(a, b, leaf_needs(leaf)),
    ensures
        search_node(a, leaf, bound) == search_node(b, leaf, bound),
        search_node_fails(a, leaf) == search_node_fails(b, leaf),
{
    crate::sqlwriter::lemma_deck_words_differ();
}

proof fn lemma_node_reads_its_needs(a: Collection, b: Collection, node: Node, bound: nat)
    requires
        same_where_needed(a, b, node_needs(node)),
    ensures
        node_fragment(a, node, bound) == node_fragment(b, node, bound),
        node_fails(a, node) == node_fails(b, node),
    decreases node,
{
    match node {
        Node::And => {},
        Node::Or => {},
        Node::Not(inner) => lemma_node_reads_its_needs(a, b, *inner, bound),
        Node::Group(nodes) => lemma_nodes_read_their_needs(a, b, nodes@, bound),
        Node::Search(leaf) => lemma_leaf_reads_its_needs(a, b, leaf, bound),
    }
}

proof fn lemma_nodes_read_their_needs(a: Collection, b: Collection, nodes: Seq<Node>, bound: nat)
    requires
        same_where_needed(a, b, nodes_need(nodes)),
    ensures
        nodes_fragment(a, nodes, bound) == nodes_fragment(b, nodes, bound),
        nodes_fail(a, nodes) == nodes_fail(b, nodes),
    decreases nodes,
{
    if nodes.len() > 0 {
        lemma_nodes_read_their_needs(a, b, nodes.drop_last(), bound);
        let before = nodes_fragment(a, nodes.drop_last(), bound);
        lemma_node_reads_its_needs(a, b, nodes.last(), bound + before.args.len());
    }
}

/// A search reads no more of a collection than `needs` says: against two
/// collections that hold the same in those parts it fails alike and is
/// written alike.
pub proof fn law_search_reads_its_needs(a: Collection, b: Collection, node: Node, bound: nat)
    requires
        same_where_needed(a, b, node_needs(node)),
    ensures
        node_fails(a, node) == node_fails(b, node),
        node_fragment(a, node, bound) == node_fragment(b, node, bound),
{
    lemma_node_reads_its_needs(a, b, node, bound);
}

} // verus!
