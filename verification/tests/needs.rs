use search_sql::catalog::{CardTemplate, Collection, Deck, NoteField, NoteType, SchedTimingToday};
use search_sql::needs::{needs, Needs};
use search_sql::nodes::{Node, PropertyKind, SearchNode, StateKind, TemplateKind};
use search_sql::sqlwriter::node_to_sql;

const NOTHING: Needs =
    Needs { timing: false, decks: false, current_deck: false, note_types: false };

fn leaf_needs(leaf: SearchNode) -> Needs {
    needs(&Node::Search(leaf))
}

fn full() -> Collection {
    Collection {
        timing: SchedTimingToday { days_elapsed: 100, next_day_at: 1_600_000_000 },
        decks: vec![
            Deck { id: 1, name: "Default".to_string() },
            Deck { id: 2, name: "Lang".to_string() },
        ],
        current_deck_id: 2,
        note_types: vec![NoteType {
            id: 10,
            name: "Basic".to_string(),
            fields: vec![NoteField { name: "Front".to_string(), ord: 0 }],
            templates: vec![CardTemplate { name: "Card 1".to_string(), ord: 0 }],
        }],
    }
}

/// The collection with the parts that are not needed left empty.
fn cut_to(needs: Needs) -> Collection {
    let full = full();
    Collection {
        timing: if needs.timing {
            full.timing
        } else {
            SchedTimingToday { days_elapsed: 0, next_day_at: 0 }
        },
        decks: if needs.decks { full.decks } else { vec![] },
        current_deck_id: if needs.current_deck { full.current_deck_id } else { 0 },
        note_types: if needs.note_types { full.note_types } else { vec![] },
    }
}

#[test]
fn leaves_that_are_written_as_they_are_need_nothing() {
    assert_eq!(needs(&Node::And), NOTHING);
    assert_eq!(needs(&Node::Or), NOTHING);
    assert_eq!(needs(&Node::Group(vec![])), NOTHING);
    assert_eq!(leaf_needs(SearchNode::UnqualifiedText("x".to_string())), NOTHING);
    assert_eq!(leaf_needs(SearchNode::AddedInDays(1)), NOTHING);
    assert_eq!(leaf_needs(SearchNode::NoteTypeID(1)), NOTHING);
    assert_eq!(leaf_needs(SearchNode::Tag("t".to_string())), NOTHING);
    assert_eq!(leaf_needs(SearchNode::Flag(1)), NOTHING);
    assert_eq!(leaf_needs(SearchNode::NoteIDs("1".to_string())), NOTHING);
    assert_eq!(leaf_needs(SearchNode::CardIDs("1".to_string())), NOTHING);
    assert_eq!(leaf_needs(SearchNode::CardTemplate(TemplateKind::Ordinal(0))), NOTHING);
    assert_eq!(
        leaf_needs(SearchNode::Duplicates { note_type_id: 1, text: "t".to_string() }),
        NOTHING
    );
}

#[test]
fn deck_leaves_need_the_decks_unless_they_name_a_kind() {
    let deck = |s: &str| leaf_needs(SearchNode::Deck(s.to_string()));
    assert_eq!(deck("*"), NOTHING);
    assert_eq!(deck("filtered"), NOTHING);
    assert_eq!(deck("lang"), Needs { decks: true, ..NOTHING });
    assert_eq!(deck("current"), Needs { decks: true, current_deck: true, ..NOTHING });
}

#[test]
fn leaves_about_scheduling_need_the_timing() {
    let timing = Needs { timing: true, ..NOTHING };
    assert_eq!(leaf_needs(SearchNode::Rated { days: 1, ease: None }), timing);
    assert_eq!(leaf_needs(SearchNode::State(StateKind::New)), timing);
    assert_eq!(
        leaf_needs(SearchNode::Property {
            operator: "=".to_string(),
            kind: PropertyKind::Reps(1)
        }),
        timing
    );
}

#[test]
fn leaves_that_name_parts_of_note_types_need_the_note_types() {
    let note_types = Needs { note_types: true, ..NOTHING };
    assert_eq!(leaf_needs(SearchNode::NoteType("b".to_string())), note_types);
    assert_eq!(
        leaf_needs(SearchNode::CardTemplate(TemplateKind::Name("c".to_string()))),
        note_types
    );
    assert_eq!(
        leaf_needs(SearchNode::SingleField { field: "f".to_string(), text: "t".to_string() }),
        note_types
    );
}

#[test]
fn a_tree_needs_what_its_leaves_need() {
    let tree = Node::Group(vec![
        Node::Search(SearchNode::Deck("lang".to_string())),
        Node::And,
        Node::Not(Box::new(Node::Group(vec![
            Node::Search(SearchNode::State(StateKind::Due)),
            Node::Or,
            Node::Search(SearchNode::Tag("t".to_string())),
        ]))),
    ]);
    assert_eq!(needs(&tree), Needs { timing: true, decks: true, ..NOTHING });
}

#[test]
fn what_is_not_needed_does_not_change_the_predicate() {
    let trees = vec![
        Node::Search(SearchNode::Deck("current".to_string())),
        Node::Search(SearchNode::Deck("*l*".to_string())),
        Node::Search(SearchNode::State(StateKind::Due)),
        Node::Group(vec![
            Node::Search(SearchNode::UnqualifiedText("x".to_string())),
            Node::And,
            Node::Search(SearchNode::SingleField {
                field: "front".to_string(),
                text: "t".to_string(),
            }),
        ]),
        Node::Group(vec![
            Node::Search(SearchNode::Rated { days: 3, ease: Some(2) }),
            Node::Or,
            Node::Search(SearchNode::CardTemplate(TemplateKind::Name("card*".to_string()))),
        ]),
    ];
    for tree in &trees {
        let cut = cut_to(needs(tree));
        assert_eq!(node_to_sql(&cut, tree), node_to_sql(&full(), tree));
    }
}
