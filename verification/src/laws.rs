//! What holds of every predicate that the writer produces.

use vstd::prelude::*;
use crate::catalog::{CardTemplate, Collection, NoteField, NoteType, SchedTimingToday};
use crate::checksum::checksum_of;
use crate::markup::strip_markup;
use crate::nodes::{Node, SearchNode, TemplateKind};
use crate::sqlwriter::{
    dupes, field_branches, field_branches_of, ids_rest_text, ids_text, node_fragment,
    nodes_fragment, rated, search_node, single_field, template, template_branches,
    template_branches_of, Fragment,
};
use crate::text::{int_text, same_ignoring_ascii_case};
use crate::wildcard::wildcard_matches;

verus! {

/// A group of two operands joined by `and` is written as an opening bracket,
/// the first operand, ` and `, the second operand and a closing bracket, with
/// nothing added and nothing moved. The second operand is written where the
/// values of the first have been bound.
pub proof fn law_group_keeps_shape(col: Collection, group: Vec<Node>, a: Node, b: Node, bound: nat)
    requires
        group@ == seq![a, Node::And, b],
    ensures
        ({
            let first = node_fragment(col, a, bound);
            let second = node_fragment(col, b, bound + first.args.len());
            let whole = node_fragment(col, Node::Group(group), bound);
            &&& whole.sql == "("@ + first.sql + " and "@ + second.sql + ")"@
            &&& whole.args == first.args + second.args
        }),
{
    let nodes = group@;
    let first = node_fragment(col, a, bound);
    let second = node_fragment(col, b, bound + first.args.len());
    let one = nodes.drop_last().drop_last();
    assert(one.drop_last() =~= Seq::<Node>::empty());
    assert(one.last() == a);
    assert(nodes_fragment(col, one.drop_last(), bound) == Fragment::text(Seq::empty()));
    assert(nodes_fragment(col, one, bound) =~~= first);
    assert(nodes.drop_last().last() == Node::And);
    assert(node_fragment(col, Node::And, bound + first.args.len()) == Fragment::text(" and "@));
    assert(nodes_fragment(col, nodes.drop_last(), bound) =~~= first.followed_by(
        Fragment::text(" and "@),
    ));
    assert(nodes.last() == b);
    assert(nodes_fragment(col, nodes, bound) =~~= first.followed_by(
        Fragment::text(" and "@),
    ).followed_by(second));
    let whole = node_fragment(col, Node::Group(group), bound);
    assert(whole.sql =~= "("@ + first.sql + " and "@ + second.sql + ")"@);
    assert(whole.args =~= first.args + second.args);
}

proof fn lemma_branch_count_of(
    note_type_id: i64,
    fields: Seq<NoteField>,
    name: Seq<char>,
    arg: nat,
    other: nat,
)
    ensures
        field_branches_of(note_type_id, fields, name, arg).len() == field_branches_of(
            note_type_id,
            fields,
            name,
            other,
        ).len(),
    decreases fields.len(),
{
    if fields.len() > 0 {
        lemma_branch_count_of(note_type_id, fields.drop_last(), name, arg, other);
    }
}

/// As many branches are written for a field whatever the number of its
/// value is.
proof fn lemma_branch_count(note_types: Seq<NoteType>, name: Seq<char>, arg: nat, other: nat)
    ensures
        field_branches(note_types, name, arg).len() == field_branches(
            note_types,
            name,
            other,
        ).len(),
    decreases note_types.len(),
{
    if note_types.len() > 0 {
        lemma_branch_count(note_types.drop_last(), name, arg, other);
        lemma_branch_count_of(
            note_types.last().id,
            note_types.last().fields@,
            name,
            arg,
            other,
        );
    }
}

/// A group of two leaves joined by `and`, compiled on its own, reads as an
/// opening bracket, the first leaf as compiled on its own, ` and `, the
/// second leaf as compiled on its own, and a closing bracket.
///
/// This is stated for every pair but those in which the text of the second
/// leaf depends on what the first has bound: a field leaf with a field that
/// some note type has, after a leaf that binds a value. Such a leaf refers
/// to its value by number, and the number counts the values before it.
pub proof fn law_group_of_leaves(col: Collection, group: Vec<Node>, a: SearchNode, b: SearchNode)
    requires
        group@ == seq![Node::Search(a), Node::And, Node::Search(b)],
        b matches SearchNode::SingleField { field, .. } ==> search_node(col, a, 0).args.len() == 0
            || field_branches(col.note_types@, field@, 1).len() == 0,
    ensures
        node_fragment(col, Node::Group(group), 0).sql == "("@ + search_node(col, a, 0).sql
            + " and "@ + search_node(col, b, 0).sql + ")"@,
{
    law_group_keeps_shape(col, group, Node::Search(a), Node::Search(b), 0);
    let bound = search_node(col, a, 0).args.len();
    match b {
        SearchNode::SingleField { field, text } => {
            lemma_branch_count(col.note_types@, field@, 1, bound + 1);
            if bound != 0 {
                assert(field_branches(col.note_types@, field@, 1) =~= field_branches(
                    col.note_types@,
                    field@,
                    bound + 1,
                ));
            }
        },
        _ => {},
    }
    assert(search_node(col, b, bound).sql == search_node(col, b, 0).sql);
}

/// A negation is written as `not ` and its operand, with no brackets added,
/// and binds what its operand binds.
pub proof fn law_not_adds_no_brackets(col: Collection, x: Node, bound: nat)
    ensures
        node_fragment(col, Node::Not(Box::new(x)), bound).sql == "not "@ + node_fragment(
            col,
            x,
            bound,
        ).sql,
        node_fragment(col, Node::Not(Box::new(x)), bound).args == node_fragment(col, x, bound).args,
{
    let whole = node_fragment(col, Node::Not(Box::new(x)), bound);
    assert(whole.args =~= node_fragment(col, x, bound).args);
}

/// Numbers in decimal, separated by commas.
pub open spec fn comma_join(ids: Seq<i64>) -> Seq<char>
    decreases ids.len(),
{
    if ids.len() == 0 {
        Seq::empty()
    } else if ids.len() == 1 {
        int_text(ids[0] as int)
    } else {
        comma_join(ids.drop_last()) + seq![','] + int_text(ids.last() as int)
    }
}

/// The order in which a list of ids is written: the ids after the first,
/// then the first.
pub open spec fn written_order(ids: Seq<i64>) -> Seq<i64> {
    if ids.len() == 0 {
        ids
    } else {
        ids.skip(1).push(ids[0])
    }
}

proof fn lemma_rest_then_one(rest: Seq<i64>, one: i64)
    ensures
        ids_rest_text(rest) + int_text(one as int) == comma_join(rest.push(one)),
    decreases rest.len(),
{
    if rest.len() > 0 {
        lemma_rest_then_one(rest.drop_last(), rest.last());
        assert(rest.drop_last().push(rest.last()) == rest);
        assert(rest.push(one).drop_last() == rest);
        assert(ids_rest_text(rest) + int_text(one as int) =~= comma_join(rest) + seq![',']
            + int_text(one as int));
    } else {
        assert(ids_rest_text(rest) + int_text(one as int) =~= int_text(one as int));
    }
}

/// A list of ids is written as a tuple: the ids in their written order,
/// separated by commas, between two brackets. The written order holds each
/// id as often as the list does, so every id of the list is in the tuple
/// and no other.
pub proof fn law_ids_are_written_once_each(ids: Seq<i64>)
    ensures
        ids_text(ids) == seq!['('] + comma_join(written_order(ids)) + seq![')'],
        written_order(ids).to_multiset() == ids.to_multiset(),
{
    if ids.len() > 0 {
        lemma_rest_then_one(ids.skip(1), ids[0]);
        assert(ids_text(ids) =~= seq!['('] + comma_join(written_order(ids)) + seq![')']);
        vstd::seq_lib::to_multiset_build(ids.skip(1), ids[0]);
        vstd::seq_lib::to_multiset_insert(ids.skip(1), 0, ids[0]);
        assert(ids.skip(1).insert(0, ids[0]) == ids);
    } else {
        assert(ids_text(ids) =~= seq!['('] + comma_join(written_order(ids)) + seq![')']);
    }
}

/// Answers are looked for in the last 31 days at most: a longer time gives
/// the predicate that 31 days give.
pub proof fn law_rated_looks_back_a_month(timing: SchedTimingToday, days: u32, ease: Option<u8>)
    requires
        days >= 31,
    ensures
        rated(timing, days, ease) == rated(timing, 31, ease),
{
}

/// Two texts that are the same once their markup is stripped are looked for
/// under the same checksum.
pub proof fn law_checksum_ignores_markup(note_type_id: i64, a: Seq<char>, b: Seq<char>)
    requires
        strip_markup(a) == strip_markup(b),
    ensures
        checksum_of(strip_markup(a)) == checksum_of(strip_markup(b)),
        dupes(note_type_id, a).sql == dupes(note_type_id, b).sql,
{
}

proof fn lemma_no_field_no_branch(
    note_type_id: i64,
    fields: Seq<NoteField>,
    name: Seq<char>,
    arg: nat,
)
    requires
        forall|j: int|
            0 <= j < fields.len() ==> !same_ignoring_ascii_case((#[trigger] fields[j]).name@, name),
    ensures
        field_branches_of(note_type_id, fields, name, arg).len() == 0,
    decreases fields.len(),
{
    if fields.len() > 0 {
        lemma_no_field_no_branch(note_type_id, fields.drop_last(), name, arg);
    }
}

proof fn lemma_no_fields_no_branch(note_types: Seq<NoteType>, name: Seq<char>, arg: nat)
    requires
        forall|i: int, j: int|
            0 <= i < note_types.len() && 0 <= j < note_types[i].fields.len()
                ==> !same_ignoring_ascii_case((#[trigger] note_types[i].fields@[j]).name@, name),
    ensures
        field_branches(note_types, name, arg).len() == 0,
    decreases note_types.len(),
{
    if note_types.len() > 0 {
        let before = note_types.drop_last();
        assert forall|i: int, j: int|
            0 <= i < before.len() && 0 <= j < before[i].fields.len()
                implies !same_ignoring_ascii_case(
            (#[trigger] before[i].fields@[j]).name@,
            name,
        ) by {
            assert(before[i] == note_types[i]);
        }
        lemma_no_fields_no_branch(before, name, arg);
        let last = note_types.last();
        assert forall|j: int| 0 <= j < last.fields@.len() implies !same_ignoring_ascii_case(
            (#[trigger] last.fields@[j]).name@,
            name,
        ) by {
            assert(last == note_types[note_types.len() - 1]);
        }
        lemma_no_field_no_branch(last.id, last.fields@, name, arg);
    }
}

/// Where no note type has a field of the name that is asked for, the
/// predicate for text in that field is `false` and binds nothing, however
/// many note types there are.
pub proof fn law_unknown_field_matches_nothing(
    note_types: Seq<NoteType>,
    field: Seq<char>,
    text: Seq<char>,
    bound: nat,
)
    requires
        forall|i: int, j: int|
            0 <= i < note_types.len() && 0 <= j < note_types[i].fields.len()
                ==> !same_ignoring_ascii_case((#[trigger] note_types[i].fields@[j]).name@, field),
    ensures
        single_field(note_types, field, text, bound) == Fragment::text("false"@),
{
    lemma_no_fields_no_branch(note_types, field, bound + 1);
    assert(single_field(note_types, field, text, bound) =~~= Fragment::text("false"@));
}

proof fn lemma_no_template_no_branch(
    note_type_id: i64,
    templates: Seq<CardTemplate>,
    pattern: Seq<char>,
)
    requires
        forall|j: int|
            0 <= j < templates.len() ==> !wildcard_matches(
                (#[trigger] templates[j]).name@,
                pattern,
            ),
    ensures
        template_branches_of(note_type_id, templates, pattern).len() == 0,
    decreases templates.len(),
{
    if templates.len() > 0 {
        lemma_no_template_no_branch(note_type_id, templates.drop_last(), pattern);
    }
}

proof fn lemma_no_templates_no_branch(note_types: Seq<NoteType>, pattern: Seq<char>)
    requires
        forall|i: int, j: int|
            0 <= i < note_types.len() && 0 <= j < note_types[i].templates.len()
                ==> !wildcard_matches((#[trigger] note_types[i].templates@[j]).name@, pattern),
    ensures
        template_branches(note_types, pattern).len() == 0,
    decreases note_types.len(),
{
    if note_types.len() > 0 {
        let before = note_types.drop_last();
        assert forall|i: int, j: int|
            0 <= i < before.len() && 0 <= j < before[i].templates.len() implies !wildcard_matches(
            (#[trigger] before[i].templates@[j]).name@,
            pattern,
        ) by {
            assert(before[i] == note_types[i]);
        }
        lemma_no_templates_no_branch(before, pattern);
        let last = note_types.last();
        assert forall|j: int| 0 <= j < last.templates@.len() implies !wildcard_matches(
            (#[trigger] last.templates@[j]).name@,
            pattern,
        ) by {
            assert(last == note_types[note_types.len() - 1]);
        }
        lemma_no_template_no_branch(last.id, last.templates@, pattern);
    }
}

/// Where no note type has a template whose name matches, the predicate for
/// cards of the templates of that name is `false` and binds nothing, however
/// many note types there are.
pub proof fn law_unknown_template_matches_nothing(note_types: Seq<NoteType>, name: String)
    requires
        forall|i: int, j: int|
            0 <= i < note_types.len() && 0 <= j < note_types[i].templates.len()
                ==> !wildcard_matches((#[trigger] note_types[i].templates@[j]).name@, name@),
    ensures
        template(note_types, TemplateKind::Name(name)) == Fragment::text("false"@),
{
    lemma_no_templates_no_branch(note_types, name@);
}

} // verus!
