use search_sql::catalog::{CardTemplate, Collection, Deck, NoteField, NoteType, SchedTimingToday};
use search_sql::nodes::{PropertyKind, SearchNode, StateKind, TemplateKind};
use search_sql::sqlwriter::{
    write_deck, write_dupes, write_dupes_with, write_note_type, write_prop, write_rated,
    write_search_node_to_sql, write_single_field, write_state, write_tag, write_template,
    write_unqualified, SearchContext, SearchError,
};

fn note_type(id: i64, name: &str, fields: &[&str], templates: &[&str]) -> NoteType {
    NoteType {
        id,
        name: name.to_string(),
        fields: fields
            .iter()
            .enumerate()
            .map(|(ord, name)| NoteField { name: name.to_string(), ord: ord as u16 })
            .collect(),
        templates: templates
            .iter()
            .enumerate()
            .map(|(ord, name)| CardTemplate { name: name.to_string(), ord: ord as u16 })
            .collect(),
    }
}

fn collection() -> Collection {
    Collection {
        timing: SchedTimingToday { days_elapsed: 100, next_day_at: 1_600_000_000 },
        decks: vec![
            Deck { id: 1, name: "Default".to_string() },
            Deck { id: 2, name: "Lang".to_string() },
            Deck { id: 3, name: "Lang::French".to_string() },
            Deck { id: 4, name: "lang::German".to_string() },
            Deck { id: 5, name: "Language".to_string() },
        ],
        current_deck_id: 2,
        note_types: vec![
            note_type(10, "Basic", &["Front", "Back"], &["Card 1"]),
            note_type(11, "Basic (and reversed)", &["Front", "Back"], &["Card 1", "Card 2"]),
            note_type(12, "Cloze", &["Text", "Extra"], &["Cloze"]),
        ],
    }
}

fn leaf(col: &Collection, node: SearchNode) -> (String, Vec<String>) {
    let mut ctx = SearchContext::new(col);
    assert!(write_search_node_to_sql(&mut ctx, &node).is_ok());
    (ctx.sql, ctx.args)
}

fn none() -> Vec<String> {
    vec![]
}

#[test]
fn a_new_context_is_empty() {
    let col = collection();
    let ctx = SearchContext::new(&col);
    assert_eq!(ctx.sql, "");
    assert_eq!(ctx.args, none());
    assert_eq!(ctx.col, &col);
}

#[test]
fn unqualified_text_is_looked_for_in_two_columns() {
    let col = collection();
    let mut ctx = SearchContext::new(&col);
    write_unqualified(&mut ctx, "foo");
    assert_eq!(ctx.sql, "(n.sfld like ? escape '\\' or n.flds like ? escape '\\')");
    assert_eq!(ctx.args, vec!["%foo%", "%foo%"]);
}

#[test]
fn unqualified_text_keeps_its_own_wildcards() {
    let col = collection();
    let mut ctx = SearchContext::new(&col);
    write_unqualified(&mut ctx, "a*b%c");
    assert_eq!(ctx.args, vec!["%a*b%c%", "%a*b%c%"]);
    let mut ctx = SearchContext::new(&col);
    write_unqualified(&mut ctx, "");
    assert_eq!(ctx.args, vec!["%%", "%%"]);
}

#[test]
fn the_tag_none_asks_for_notes_without_tags() {
    let col = collection();
    let mut ctx = SearchContext::new(&col);
    write_tag(&mut ctx, "none");
    assert_eq!(ctx.sql, "n.tags = ''");
    assert_eq!(ctx.args, none());
}

#[test]
fn a_tag_is_bound_between_spaces() {
    let col = collection();
    let mut ctx = SearchContext::new(&col);
    write_tag(&mut ctx, "foo*bar");
    assert_eq!(ctx.sql, "n.tags like ?");
    assert_eq!(ctx.args, vec![" foo%bar "]);
}

#[test]
fn a_tag_other_than_none_is_a_pattern() {
    let col = collection();
    let mut ctx = SearchContext::new(&col);
    write_tag(&mut ctx, "None");
    assert_eq!(ctx.sql, "n.tags like ?");
    assert_eq!(ctx.args, vec![" None "]);
    let mut ctx = SearchContext::new(&col);
    write_tag(&mut ctx, "*");
    assert_eq!(ctx.args, vec![" % "]);
    let mut ctx = SearchContext::new(&col);
    write_tag(&mut ctx, "");
    assert_eq!(ctx.args, vec!["  "]);
}

#[test]
fn rated_looks_back_31_days_at_most() {
    let col = collection();
    let mut ctx = SearchContext::new(&col);
    write_rated(&mut ctx, 40, None);
    assert_eq!(ctx.sql, "c.id in (select cid from revlog where id>1597321600)");
    let mut month = SearchContext::new(&col);
    write_rated(&mut month, 31, None);
    assert_eq!(month.sql, ctx.sql);
    assert_eq!(ctx.args, none());
}

#[test]
fn rated_counts_whole_days_back_from_the_next_day() {
    let col = collection();
    let mut ctx = SearchContext::new(&col);
    write_rated(&mut ctx, 2, None);
    assert_eq!(ctx.sql, "c.id in (select cid from revlog where id>1599827200)");
    let mut ctx = SearchContext::new(&col);
    write_rated(&mut ctx, 0, None);
    assert_eq!(ctx.sql, "c.id in (select cid from revlog where id>1600000000)");
    let mut ctx = SearchContext::new(&col);
    write_rated(&mut ctx, 30, None);
    assert_eq!(ctx.sql, "c.id in (select cid from revlog where id>1597408000)");
}

#[test]
fn rated_with_an_ease_asks_for_that_button() {
    let col = collection();
    let mut ctx = SearchContext::new(&col);
    write_rated(&mut ctx, 2, Some(3));
    assert_eq!(ctx.sql, "c.id in (select cid from revlog where id>1599827200 and ease=3)");
}

#[test]
fn rated_does_not_overflow_at_the_earliest_time() {
    let mut col = collection();
    col.timing.next_day_at = i64::MIN;
    let mut ctx = SearchContext::new(&col);
    write_rated(&mut ctx, 1, None);
    assert_eq!(ctx.sql, "c.id in (select cid from revlog where id>-9223372036854862208)");
}

#[test]
fn ease_is_compared_in_thousandths() {
    let col = collection();
    let mut ctx = SearchContext::new(&col);
    let ease = (2.5f32 * 1000.0).round() as u32;
    write_prop(&mut ctx, ">", &PropertyKind::Ease(ease));
    assert_eq!(ctx.sql, "ease > 2500");
    assert_eq!(ctx.args, none());
}

#[test]
fn due_is_counted_from_today() {
    let col = collection();
    let mut ctx = SearchContext::new(&col);
    write_prop(&mut ctx, "<=", &PropertyKind::Due(-1));
    assert_eq!(ctx.sql, "(c.queue in (2,3) and due <= 99)");
    let mut ctx = SearchContext::new(&col);
    write_prop(&mut ctx, "=", &PropertyKind::Due(5));
    assert_eq!(ctx.sql, "(c.queue in (2,3) and due = 105)");
}

#[test]
fn due_does_not_overflow() {
    let mut col = collection();
    col.timing.days_elapsed = u32::MAX;
    let mut ctx = SearchContext::new(&col);
    write_prop(&mut ctx, "<", &PropertyKind::Due(i32::MAX));
    assert_eq!(ctx.sql, "(c.queue in (2,3) and due < 6442450942)");
    let mut col = collection();
    col.timing.days_elapsed = 0;
    let mut ctx = SearchContext::new(&col);
    write_prop(&mut ctx, "<", &PropertyKind::Due(i32::MIN));
    assert_eq!(ctx.sql, "(c.queue in (2,3) and due < -2147483648)");
}

#[test]
fn stored_properties_are_compared_as_they_are() {
    let col = collection();
    let mut ctx = SearchContext::new(&col);
    write_prop(&mut ctx, ">", &PropertyKind::Interval(5));
    assert_eq!(ctx.sql, "ivl > 5");
    let mut ctx = SearchContext::new(&col);
    write_prop(&mut ctx, "!=", &PropertyKind::Reps(0));
    assert_eq!(ctx.sql, "reps != 0");
    let mut ctx = SearchContext::new(&col);
    write_prop(&mut ctx, ">=", &PropertyKind::Lapses(3));
    assert_eq!(ctx.sql, "lapses >= 3");
}

fn state(kind: StateKind) -> String {
    let col = collection();
    let mut ctx = SearchContext::new(&col);
    write_state(&mut ctx, &kind);
    assert_eq!(ctx.args, none());
    ctx.sql
}

#[test]
fn states_are_queues() {
    assert_eq!(state(StateKind::New), "c.queue = 0");
    assert_eq!(state(StateKind::Review), "c.queue = 2");
    assert_eq!(state(StateKind::Learning), "c.queue in (1,3)");
    assert_eq!(state(StateKind::Buried), "c.queue in (-2,-3)");
    assert_eq!(state(StateKind::Suspended), "c.queue = -1");
}

#[test]
fn due_cards_are_due_by_day_or_by_time() {
    assert_eq!(
        state(StateKind::Due),
        "\n(c.queue in (2,3) and c.due <= 100) or\n(c.queue = 1 and c.due <= 1600000000)"
    );
}

fn deck(col: &Collection, pattern: &str) -> String {
    let mut ctx = SearchContext::new(col);
    assert!(write_deck(&mut ctx, pattern).is_ok());
    assert_eq!(ctx.args, none());
    ctx.sql
}

#[test]
fn the_deck_star_is_every_deck() {
    assert_eq!(deck(&collection(), "*"), "true");
}

#[test]
fn the_deck_filtered_is_every_filtered_deck() {
    assert_eq!(deck(&collection(), "filtered"), "c.odid > 0");
}

#[test]
fn the_current_deck_comes_with_its_children() {
    assert_eq!(deck(&collection(), "current"), "c.did in (3,4,2)");
    let mut col = collection();
    col.current_deck_id = 1;
    assert_eq!(deck(&col, "current"), "c.did in (1)");
}

#[test]
fn a_current_deck_that_is_missing_is_invalid_input() {
    let mut col = collection();
    col.current_deck_id = 99;
    let mut ctx = SearchContext::new(&col);
    ctx.sql.push_str("not ");
    let done = write_deck(&mut ctx, "current");
    assert_eq!(done, Err(SearchError::InvalidInput { info: "invalid current deck".to_string() }));
    assert_eq!(ctx.sql, "not ");
    assert_eq!(ctx.args, none());
}

#[test]
fn the_sentinels_are_exact_words() {
    let mut col = collection();
    col.current_deck_id = 99;
    assert_eq!(deck(&col, "Current"), "c.did in ()");
    assert_eq!(deck(&col, "Filtered"), "c.did in ()");
    assert_eq!(deck(&col, "**"), "c.did in (2,3,4,3,4,5,1)");
}

#[test]
fn a_deck_pattern_names_decks_and_their_children() {
    let col = collection();
    assert_eq!(deck(&col, "default"), "c.did in (1)");
    assert_eq!(deck(&col, "lang"), "c.did in (3,4,2)");
    assert_eq!(deck(&col, "lang*"), "c.did in (3,4,3,4,5,2)");
    assert_eq!(deck(&col, "*french"), "c.did in (3)");
}

#[test]
fn a_deck_pattern_that_names_nothing_matches_nothing() {
    assert_eq!(deck(&collection(), "nothing"), "c.did in ()");
    let mut col = collection();
    col.decks.clear();
    assert_eq!(deck(&col, "default"), "c.did in ()");
}

fn template(col: &Collection, kind: TemplateKind) -> String {
    let mut ctx = SearchContext::new(col);
    write_template(&mut ctx, &kind);
    assert_eq!(ctx.args, none());
    ctx.sql
}

#[test]
fn a_template_is_named_by_its_position() {
    assert_eq!(template(&collection(), TemplateKind::Ordinal(2)), "c.ord = 2");
    assert_eq!(template(&collection(), TemplateKind::Ordinal(0)), "c.ord = 0");
}

#[test]
fn a_template_name_gives_a_branch_for_each_template() {
    let col = collection();
    assert_eq!(
        template(&col, TemplateKind::Name("card*".to_string())),
        "((n.mid = 10 and c.ord = 0) or (n.mid = 11 and c.ord = 0) or (n.mid = 11 and c.ord = 1))"
    );
    assert_eq!(
        template(&col, TemplateKind::Name("CLOZE".to_string())),
        "((n.mid = 12 and c.ord = 0))"
    );
}

#[test]
fn a_template_name_that_names_nothing_is_false() {
    let col = collection();
    assert_eq!(template(&col, TemplateKind::Name("zzz".to_string())), "false");
    let mut col = collection();
    col.note_types.clear();
    assert_eq!(template(&col, TemplateKind::Name("*".to_string())), "false");
}

#[test]
fn a_note_type_pattern_names_note_types() {
    let col = collection();
    let mut ctx = SearchContext::new(&col);
    write_note_type(&mut ctx, "basic*");
    assert_eq!(ctx.sql, "n.mid in (11,10)");
    assert_eq!(ctx.args, none());
    let mut ctx = SearchContext::new(&col);
    write_note_type(&mut ctx, "cloze");
    assert_eq!(ctx.sql, "n.mid in (12)");
    let mut ctx = SearchContext::new(&col);
    write_note_type(&mut ctx, "zzz");
    assert_eq!(ctx.sql, "n.mid in ()");
}

#[test]
fn a_field_is_looked_for_in_each_note_type_that_has_it() {
    let col = collection();
    let mut ctx = SearchContext::new(&col);
    write_single_field(&mut ctx, "front", "a%");
    assert_eq!(
        ctx.sql,
        "((n.mid = 10 and field_at_index(n.flds, 0) like ?1) or (n.mid = 11 and field_at_index(n.flds, 0) like ?1))"
    );
    assert_eq!(ctx.args, vec!["a%"]);
    let mut ctx = SearchContext::new(&col);
    write_single_field(&mut ctx, "EXTRA", "x");
    assert_eq!(ctx.sql, "((n.mid = 12 and field_at_index(n.flds, 1) like ?1))");
    assert_eq!(ctx.args, vec!["x"]);
}

#[test]
fn a_field_refers_to_its_value_by_number() {
    let col = collection();
    let mut ctx = SearchContext::new(&col);
    write_unqualified(&mut ctx, "foo");
    ctx.sql.push_str(" and ");
    write_single_field(&mut ctx, "back", "b");
    assert_eq!(
        ctx.sql,
        "(n.sfld like ? escape '\\' or n.flds like ? escape '\\') and ((n.mid = 10 and field_at_index(n.flds, 1) like ?3) or (n.mid = 11 and field_at_index(n.flds, 1) like ?3))"
    );
    assert_eq!(ctx.args, vec!["%foo%", "%foo%", "b"]);
}

#[test]
fn a_field_that_no_note_type_has_is_false() {
    let col = collection();
    let mut ctx = SearchContext::new(&col);
    write_single_field(&mut ctx, "nothing", "x");
    assert_eq!(ctx.sql, "false");
    assert_eq!(ctx.args, none());
    let mut col = collection();
    col.note_types.clear();
    let mut ctx = SearchContext::new(&col);
    write_single_field(&mut ctx, "front", "x");
    assert_eq!(ctx.sql, "false");
    assert_eq!(ctx.args, none());
}

#[test]
fn duplicates_are_found_by_checksum_and_text() {
    let col = collection();
    let mut ctx = SearchContext::new(&col);
    write_dupes(&mut ctx, 10, "<b>hello</b>");
    assert_eq!(
        ctx.sql,
        "(n.mid = 10 and n.csum = 2868168221 and field_at_index(n.flds, 0) = ?)"
    );
    assert_eq!(ctx.args, vec!["<b>hello</b>"]);
}

#[test]
fn duplicates_of_texts_that_strip_alike_share_a_checksum() {
    let col = collection();
    let mut a = SearchContext::new(&col);
    write_dupes(&mut a, 10, "<b>hello</b>");
    let mut b = SearchContext::new(&col);
    write_dupes(&mut b, 10, "hel<i>lo</i>");
    assert_eq!(a.sql, b.sql);
    assert_eq!(b.args, vec!["hel<i>lo</i>"]);
    let mut again = SearchContext::new(&col);
    write_dupes(&mut again, 10, "<b>hello</b>");
    assert_eq!(a.sql, again.sql);
}

#[test]
fn duplicates_of_images_go_by_the_file() {
    let col = collection();
    let mut ctx = SearchContext::new(&col);
    write_dupes(&mut ctx, 12, "foo<img src=\"x.jpg\">");
    assert_eq!(
        ctx.sql,
        "(n.mid = 12 and n.csum = 2117129545 and field_at_index(n.flds, 0) = ?)"
    );
}

#[test]
fn a_given_checksum_is_written_as_it_is() {
    let col = collection();
    let mut ctx = SearchContext::new(&col);
    write_dupes_with(&mut ctx, -4, u32::MAX, "text");
    assert_eq!(
        ctx.sql,
        "(n.mid = -4 and n.csum = 4294967295 and field_at_index(n.flds, 0) = ?)"
    );
    assert_eq!(ctx.args, vec!["text"]);
}

#[test]
fn added_compares_the_id_with_the_number_of_days() {
    // the number of days is written as it is, not as a time
    let col = collection();
    assert_eq!(leaf(&col, SearchNode::AddedInDays(1)), ("c.id > 1".to_string(), none()));
    assert_eq!(leaf(&col, SearchNode::AddedInDays(365)), ("c.id > 365".to_string(), none()));
}

#[test]
fn simple_leaves_are_written_with_their_number() {
    let col = collection();
    assert_eq!(leaf(&col, SearchNode::NoteTypeID(1234)), ("n.mid = 1234".to_string(), none()));
    assert_eq!(leaf(&col, SearchNode::Flag(3)), ("(c.flags & 7) == 3".to_string(), none()));
    assert_eq!(leaf(&col, SearchNode::Flag(0)), ("(c.flags & 7) == 0".to_string(), none()));
}

#[test]
fn id_lists_are_written_as_they_are() {
    let col = collection();
    assert_eq!(
        leaf(&col, SearchNode::NoteIDs("1,2,3".to_string())),
        ("n.id in (1,2,3)".to_string(), none())
    );
    assert_eq!(
        leaf(&col, SearchNode::CardIDs("55".to_string())),
        ("c.id in (55)".to_string(), none())
    );
}

#[test]
fn each_leaf_goes_to_its_writer() {
    let col = collection();
    assert_eq!(
        leaf(&col, SearchNode::UnqualifiedText("x".to_string())).1,
        vec!["%x%", "%x%"]
    );
    assert_eq!(
        leaf(&col, SearchNode::SingleField { field: "text".to_string(), text: "t".to_string() }),
        ("((n.mid = 12 and field_at_index(n.flds, 0) like ?1))".to_string(), vec!["t".to_string()])
    );
    assert_eq!(
        leaf(&col, SearchNode::CardTemplate(TemplateKind::Ordinal(1))).0,
        "c.ord = 1"
    );
    assert_eq!(leaf(&col, SearchNode::Deck("filtered".to_string())).0, "c.odid > 0");
    assert_eq!(leaf(&col, SearchNode::NoteType("cloze".to_string())).0, "n.mid in (12)");
    assert_eq!(
        leaf(&col, SearchNode::Rated { days: 1, ease: Some(1) }).0,
        "c.id in (select cid from revlog where id>1599913600 and ease=1)"
    );
    assert_eq!(leaf(&col, SearchNode::Tag("t".to_string())).1, vec![" t "]);
    assert_eq!(
        leaf(&col, SearchNode::Duplicates { note_type_id: 10, text: "abc".to_string() }).0,
        "(n.mid = 10 and n.csum = 2845392438 and field_at_index(n.flds, 0) = ?)"
    );
    assert_eq!(leaf(&col, SearchNode::State(StateKind::New)).0, "c.queue = 0");
    assert_eq!(
        leaf(
            &col,
            SearchNode::Property { operator: "<".to_string(), kind: PropertyKind::Reps(9) }
        )
        .0,
        "reps < 9"
    );
}

#[test]
fn a_leaf_that_fails_writes_nothing() {
    let mut col = collection();
    col.current_deck_id = 0;
    let mut ctx = SearchContext::new(&col);
    let done = write_search_node_to_sql(&mut ctx, &SearchNode::Deck("current".to_string()));
    assert!(matches!(done, Err(SearchError::InvalidInput { .. })));
    assert_eq!(ctx.sql, "");
}
