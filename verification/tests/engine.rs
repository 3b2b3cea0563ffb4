use rusqlite::functions::FunctionFlags;
use rusqlite::{params_from_iter, Connection};
use search_sql::catalog::{CardTemplate, Collection, Deck, NoteField, NoteType, SchedTimingToday};
use search_sql::nodes::{Node, PropertyKind, SearchNode, StateKind, TemplateKind};
use search_sql::sqlwriter::node_to_sql;

fn store() -> Connection {
    let db = Connection::open_in_memory().unwrap();
    db.execute_batch(
        "create table notes (id integer primary key, mid integer, sfld text, flds text,
            tags text, csum integer);
         create table cards (id integer primary key, nid integer, did integer, odid integer,
            ord integer, queue integer, due integer, flags integer, ivl integer, reps integer,
            lapses integer, ease integer);
         create table revlog (id integer primary key, cid integer, ease integer);
         insert into notes values (1, 10, 'hello', 'hello\x1fworld', ' foo bar ', 2868168221);
         insert into notes values (2, 12, 'some text', 'some text\x1fextra', '', 5);
         insert into cards values (101, 1, 1, 0, 0, 0, 5, 0, 0, 0, 0, 0);
         insert into cards values (102, 1, 3, 0, 1, 2, 90, 1, 10, 5, 1, 2500);
         insert into cards values (103, 2, 2, 1, 0, -1, 200, 2, 3, 2, 0, 1300);
         insert into cards values (104, 2, 1, 0, 0, 1, 1599999000, 0, 0, 1, 0, 2100);
         insert into revlog values (1599950000, 102, 3);
         insert into revlog values (1599000000, 103, 1);
         insert into revlog values (1500000000, 104, 2);",
    )
    .unwrap();
    db.create_scalar_function("field_at_index", 2, FunctionFlags::SQLITE_DETERMINISTIC, |ctx| {
        let fields: String = ctx.get(0)?;
        let index: i64 = ctx.get(1)?;
        Ok(fields.split('\x1f').nth(index as usize).map(|field| field.to_string()))
    })
    .unwrap();
    db
}

fn catalog() -> Collection {
    Collection {
        timing: SchedTimingToday { days_elapsed: 100, next_day_at: 1_600_000_000 },
        decks: vec![
            Deck { id: 1, name: "Default".to_string() },
            Deck { id: 2, name: "Lang".to_string() },
            Deck { id: 3, name: "Lang::French".to_string() },
        ],
        current_deck_id: 2,
        note_types: vec![
            NoteType {
                id: 10,
                name: "Basic".to_string(),
                fields: vec![
                    NoteField { name: "Front".to_string(), ord: 0 },
                    NoteField { name: "Back".to_string(), ord: 1 },
                ],
                templates: vec![
                    CardTemplate { name: "Card 1".to_string(), ord: 0 },
                    CardTemplate { name: "Card 2".to_string(), ord: 1 },
                ],
            },
            NoteType {
                id: 12,
                name: "Cloze".to_string(),
                fields: vec![
                    NoteField { name: "Text".to_string(), ord: 0 },
                    NoteField { name: "Extra".to_string(), ord: 1 },
                ],
                templates: vec![CardTemplate { name: "Cloze".to_string(), ord: 0 }],
            },
        ],
    }
}

/// The cards that the store finds for a node, after a check that the
/// engine sees as many placeholders as there are values.
fn found(node: Node) -> Vec<i64> {
    let db = store();
    let (sql, args) = node_to_sql(&catalog(), &node).unwrap();
    let mut stmt = db
        .prepare(&format!(
            "select c.id from cards c, notes n where c.nid = n.id and {} order by c.id",
            sql
        ))
        .unwrap();
    assert_eq!(stmt.parameter_count(), args.len());
    let cards = stmt.query_map(params_from_iter(args), |row| row.get(0)).unwrap();
    cards.map(|card| card.unwrap()).collect()
}

fn leaf(node: SearchNode) -> Vec<i64> {
    found(Node::Group(vec![Node::Search(node)]))
}

fn text(s: &str) -> Node {
    Node::Search(SearchNode::UnqualifiedText(s.to_string()))
}

fn tag(s: &str) -> Node {
    Node::Search(SearchNode::Tag(s.to_string()))
}

fn field(name: &str, value: &str) -> Node {
    Node::Search(SearchNode::SingleField { field: name.to_string(), text: value.to_string() })
}

fn deck(s: &str) -> SearchNode {
    SearchNode::Deck(s.to_string())
}

fn property(operator: &str, kind: PropertyKind) -> SearchNode {
    SearchNode::Property { operator: operator.to_string(), kind }
}

#[test]
fn the_store_finds_text_anywhere_in_a_note() {
    assert_eq!(found(text("ell")), vec![101, 102]);
    assert_eq!(found(text("WORLD")), vec![101, 102]);
    assert_eq!(found(text("extra")), vec![103, 104]);
    assert_eq!(found(text("nowhere")), Vec::<i64>::new());
}

#[test]
fn the_store_finds_text_in_a_field() {
    assert_eq!(found(field("front", "hello")), vec![101, 102]);
    assert_eq!(found(field("back", "w%")), vec![101, 102]);
    assert_eq!(found(field("back", "hello")), Vec::<i64>::new());
    assert_eq!(found(field("extra", "extra")), vec![103, 104]);
    assert_eq!(found(field("nothing", "hello")), Vec::<i64>::new());
}

#[test]
fn the_store_finds_tags() {
    assert_eq!(found(tag("none")), vec![103, 104]);
    assert_eq!(found(tag("foo*")), vec![101, 102]);
    assert_eq!(found(tag("foo bar")), vec![101, 102]);
    assert_eq!(found(tag("*bar")), vec![101, 102]);
    assert_eq!(found(tag("baz*")), Vec::<i64>::new());
}

#[test]
fn the_store_finds_decks() {
    assert_eq!(leaf(deck("*")), vec![101, 102, 103, 104]);
    assert_eq!(leaf(deck("filtered")), vec![103]);
    assert_eq!(leaf(deck("current")), vec![102, 103]);
    assert_eq!(leaf(deck("lang")), vec![102, 103]);
    assert_eq!(leaf(deck("lang::*")), vec![102]);
    assert_eq!(leaf(deck("default")), vec![101, 104]);
    assert_eq!(leaf(deck("nothing")), Vec::<i64>::new());
}

#[test]
fn the_store_finds_states() {
    assert_eq!(leaf(SearchNode::State(StateKind::New)), vec![101]);
    assert_eq!(leaf(SearchNode::State(StateKind::Review)), vec![102]);
    assert_eq!(leaf(SearchNode::State(StateKind::Learning)), vec![104]);
    assert_eq!(leaf(SearchNode::State(StateKind::Suspended)), vec![103]);
    assert_eq!(leaf(SearchNode::State(StateKind::Buried)), Vec::<i64>::new());
    assert_eq!(leaf(SearchNode::State(StateKind::Due)), vec![102, 104]);
}

#[test]
fn the_store_compares_properties() {
    assert_eq!(leaf(property("=", PropertyKind::Due(-10))), vec![102]);
    assert_eq!(leaf(property("<", PropertyKind::Due(0))), vec![102]);
    assert_eq!(leaf(property(">", PropertyKind::Ease(2000))), vec![102, 104]);
    assert_eq!(leaf(property(">=", PropertyKind::Interval(3))), vec![102, 103]);
    assert_eq!(leaf(property("=", PropertyKind::Reps(1))), vec![104]);
    assert_eq!(leaf(property(">", PropertyKind::Lapses(0))), vec![102]);
}

#[test]
fn the_store_finds_answers_of_the_last_days() {
    assert_eq!(leaf(SearchNode::Rated { days: 1, ease: None }), vec![102]);
    assert_eq!(leaf(SearchNode::Rated { days: 31, ease: None }), vec![102, 103]);
    assert_eq!(leaf(SearchNode::Rated { days: 4000, ease: None }), vec![102, 103]);
    assert_eq!(leaf(SearchNode::Rated { days: 31, ease: Some(1) }), vec![103]);
    assert_eq!(leaf(SearchNode::Rated { days: 1, ease: Some(1) }), Vec::<i64>::new());
}

#[test]
fn the_store_finds_duplicates() {
    let dupes = |id: i64, text: &str| {
        leaf(SearchNode::Duplicates { note_type_id: id, text: text.to_string() })
    };
    assert_eq!(dupes(10, "hello"), vec![101, 102]);
    assert_eq!(dupes(12, "hello"), Vec::<i64>::new());
    assert_eq!(dupes(10, "hell"), Vec::<i64>::new());
}

#[test]
fn the_store_finds_note_types_and_templates() {
    assert_eq!(leaf(SearchNode::NoteType("cloze".to_string())), vec![103, 104]);
    assert_eq!(leaf(SearchNode::NoteType("*".to_string())), vec![101, 102, 103, 104]);
    assert_eq!(leaf(SearchNode::NoteType("nothing".to_string())), Vec::<i64>::new());
    assert_eq!(leaf(SearchNode::NoteTypeID(10)), vec![101, 102]);
    let named = |name: &str| leaf(SearchNode::CardTemplate(TemplateKind::Name(name.to_string())));
    assert_eq!(named("card 2"), vec![102]);
    assert_eq!(named("c*"), vec![101, 102, 103, 104]);
    assert_eq!(named("nothing"), Vec::<i64>::new());
    assert_eq!(leaf(SearchNode::CardTemplate(TemplateKind::Ordinal(1))), vec![102]);
}

#[test]
fn the_store_finds_flags_and_ids() {
    assert_eq!(leaf(SearchNode::Flag(1)), vec![102]);
    assert_eq!(leaf(SearchNode::Flag(0)), vec![101, 104]);
    assert_eq!(leaf(SearchNode::NoteIDs("1".to_string())), vec![101, 102]);
    assert_eq!(leaf(SearchNode::CardIDs("103,104".to_string())), vec![103, 104]);
    assert_eq!(leaf(SearchNode::AddedInDays(102)), vec![103, 104]);
}

#[test]
fn the_store_reads_groups_as_they_are_written() {
    let both = Node::Group(vec![text("hello"), Node::And, field("back", "world")]);
    assert_eq!(found(both), vec![101, 102]);
    let either = Node::Group(vec![
        Node::Search(SearchNode::Flag(1)),
        Node::Or,
        Node::Search(SearchNode::Flag(2)),
    ]);
    assert_eq!(found(either), vec![102, 103]);
    let nested = Node::Group(vec![
        Node::Group(vec![tag("none"), Node::Or, tag("foo*")]),
        Node::And,
        Node::Not(Box::new(Node::Search(deck("default")))),
    ]);
    assert_eq!(found(nested), vec![102, 103]);
    let fields = Node::Group(vec![
        field("front", "hello"),
        Node::Or,
        field("text", "some%"),
        Node::And,
        Node::Not(Box::new(text("extra"))),
    ]);
    assert_eq!(found(fields), vec![101, 102]);
}

#[test]
fn not_negates_the_operand_that_follows() {
    assert_eq!(found(Node::Not(Box::new(tag("none")))), vec![101, 102]);
    let group = Node::Group(vec![
        Node::Not(Box::new(Node::Search(SearchNode::Flag(0)))),
        Node::And,
        Node::Not(Box::new(Node::Search(deck("filtered")))),
    ]);
    assert_eq!(found(group), vec![102]);
}
