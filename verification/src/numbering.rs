//! The predicates that the writer produces number their placeholders as
//! their values are bound.
//!
//! Each piece of a predicate is followed through the engine's reading of it:
//! text without placeholders changes nothing, a `?` on its own stands for
//! the value bound next, and the numbered `?` of a field leaf stands for the
//! one value that the leaf binds.

use vstd::prelude::*;
use crate::card::CardQueue;
use crate::catalog::{
    child_ids_of, deck_position, CardTemplate, Collection, NoteField, NoteType, SchedTimingToday,
};
use crate::checksum::checksum_of;
use crate::markup::strip_markup;
use crate::nodes::{Node, PropertyKind, SearchNode, StateKind, TemplateKind};
use crate::placeholders::{
    is_digit, lemma_bare_placeholder, lemma_int_text_is_plain, lemma_numbered_placeholder,
    lemma_plain_is_passed, params_after, plain, starts_clean,
};
use crate::sqlwriter::{
    any_of, deck, deck_ids_matching, dupes_with, field_branch, field_branches, field_branches_of,
    ids_rest_text, ids_text, in_queue, in_queues, node_fragment, nodes_fragment, note_type,
    note_type_ids_matching, or_join, prop, rated, rated_cutoff, search_node, single_field, state,
    tag, template, template_branch, template_branches, template_branches_of, unqualified,
};
use crate::text::{int_text, nat_text};

verus! {

/// Whether `s` has a first character and it is no digit.
pub open spec fn leads(s: Seq<char>) -> bool {
    s.len() > 0 && !is_digit(s[0])
}

/// Plain text and then a `?` on its own take the next number.
proof fn lemma_plain_then_bare(text: Seq<char>, rest: Seq<char>, bound: nat)
    requires
        plain(text),
        starts_clean(rest),
    ensures
        params_after(text + seq!['?'] + rest, bound) == params_after(rest, bound + 1),
{
    assert(text + seq!['?'] + rest == text + (seq!['?'] + rest));
    lemma_plain_is_passed(text, seq!['?'] + rest, bound);
    lemma_bare_placeholder(rest, bound);
}

/// A list of ids holds no placeholder.
proof fn lemma_ids_text_is_plain(ids: Seq<i64>)
    ensures
        plain(ids_text(ids)),
        leads(ids_text(ids)),
{
    if ids.len() > 0 {
        lemma_ids_rest_is_plain(ids.skip(1));
        lemma_int_text_is_plain(ids[0] as int);
    }
}

proof fn lemma_ids_rest_is_plain(ids: Seq<i64>)
    ensures
        plain(ids_rest_text(ids)),
    decreases ids.len(),
{
    if ids.len() > 0 {
        lemma_ids_rest_is_plain(ids.drop_last());
        lemma_int_text_is_plain(ids.last() as int);
    }
}

proof fn lemma_rated_is_plain(timing: SchedTimingToday, days: u32, ease: Option<u8>)
    ensures
        plain(rated(timing, days, ease).sql),
        leads(rated(timing, days, ease).sql),
        rated(timing, days, ease).args.len() == 0,
{
    reveal_strlit("c.id in (select cid from revlog where id>");
    reveal_strlit(" and ease=");
    reveal_strlit(")");
    lemma_int_text_is_plain(rated_cutoff(timing.next_day_at as int, days as int));
    if let Some(ease) = ease {
        lemma_int_text_is_plain(ease as int);
    }
}

proof fn lemma_queues_are_plain(first: CardQueue, second: CardQueue)
    ensures
        plain(in_queue(first)),
        leads(in_queue(first)),
        plain(in_queues(first, second)),
        leads(in_queues(first, second)),
{
    reveal_strlit("c.queue = ");
    reveal_strlit("c.queue in (");
    reveal_strlit(",");
    reveal_strlit(")");
    lemma_int_text_is_plain(first.code() as int);
    lemma_int_text_is_plain(second.code() as int);
}

proof fn lemma_state_is_plain(timing: SchedTimingToday, kind: StateKind)
    ensures
        plain(state(timing, kind).sql),
        leads(state(timing, kind).sql),
        state(timing, kind).args.len() == 0,
{
    lemma_queues_are_plain(CardQueue::New, CardQueue::New);
    lemma_queues_are_plain(CardQueue::Review, CardQueue::DayLearn);
    lemma_queues_are_plain(CardQueue::Learn, CardQueue::DayLearn);
    lemma_queues_are_plain(CardQueue::SchedBuried, CardQueue::UserBuried);
    lemma_queues_are_plain(CardQueue::Suspended, CardQueue::Suspended);
    reveal_strlit("\n(");
    reveal_strlit(" and c.due <= ");
    reveal_strlit(") or\n(");
    reveal_strlit(")");
    lemma_int_text_is_plain(timing.days_elapsed as int);
    lemma_int_text_is_plain(timing.next_day_at as int);
}

proof fn lemma_prop_is_plain(timing: SchedTimingToday, op: Seq<char>, kind: PropertyKind)
    requires
        plain(op),
    ensures
        plain(prop(timing, op, kind).sql),
        leads(prop(timing, op, kind).sql),
        prop(timing, op, kind).args.len() == 0,
{
    reveal_strlit("(c.queue in (");
    reveal_strlit(",");
    reveal_strlit(") and due ");
    reveal_strlit(" ");
    reveal_strlit(")");
    reveal_strlit("ivl ");
    reveal_strlit("reps ");
    reveal_strlit("lapses ");
    reveal_strlit("ease ");
    lemma_int_text_is_plain(CardQueue::Review.code() as int);
    lemma_int_text_is_plain(CardQueue::DayLearn.code() as int);
    match kind {
        PropertyKind::Due(days) => lemma_int_text_is_plain(days + timing.days_elapsed),
        PropertyKind::Interval(ivl) => lemma_int_text_is_plain(ivl as int),
        PropertyKind::Reps(reps) => lemma_int_text_is_plain(reps as int),
        PropertyKind::Lapses(lapses) => lemma_int_text_is_plain(lapses as int),
        PropertyKind::Ease(ease) => lemma_int_text_is_plain(ease as int),
    }
}

proof fn lemma_deck_is_plain(col: Collection, pattern: Seq<char>)
    ensures
        plain(deck(col, pattern).sql),
        leads(deck(col, pattern).sql),
        deck(col, pattern).args.len() == 0,
{
    reveal_strlit("true");
    reveal_strlit("c.odid > 0");
    reveal_strlit("c.did in ");
    let current = col.decks@[deck_position(col.decks@, col.current_deck_id).unwrap()];
    lemma_ids_text_is_plain(seq![col.current_deck_id] + child_ids_of(col.decks@, current.name@));
    lemma_ids_text_is_plain(deck_ids_matching(col.decks@, col.decks.len() as nat, pattern));
}

proof fn lemma_note_type_is_plain(note_types: Seq<NoteType>, pattern: Seq<char>)
    ensures
        plain(note_type(note_types, pattern).sql),
        leads(note_type(note_types, pattern).sql),
        note_type(note_types, pattern).args.len() == 0,
{
    reveal_strlit("n.mid in ");
    lemma_ids_text_is_plain(note_type_ids_matching(note_types, pattern));
}

/// Whether no placeholder starts in any of the texts.
pub open spec fn all_plain(texts: Seq<Seq<char>>) -> bool {
    forall|i: int| 0 <= i < texts.len() ==> plain(#[trigger] texts[i])
}

proof fn lemma_or_join_is_plain(branches: Seq<Seq<char>>)
    requires
        all_plain(branches),
    ensures
        plain(or_join(branches)),
    decreases branches.len(),
{
    reveal_strlit(" or ");
    if branches.len() > 1 {
        assert(all_plain(branches.drop_last())) by {
            assert forall|i: int| 0 <= i < branches.drop_last().len() implies plain(
                #[trigger] branches.drop_last()[i],
            ) by {
                assert(branches.drop_last()[i] == branches[i]);
            }
        }
        lemma_or_join_is_plain(branches.drop_last());
        assert(plain(branches.last()));
    } else if branches.len() == 1 {
        assert(plain(branches[0]));
    }
}

proof fn lemma_any_of_plain(branches: Seq<Seq<char>>)
    requires
        all_plain(branches),
    ensures
        plain(any_of(branches)),
        leads(any_of(branches)),
{
    reveal_strlit("false");
    reveal_strlit("(");
    reveal_strlit(")");
    lemma_or_join_is_plain(branches);
}

proof fn lemma_template_branches_of_are_plain(
    note_type_id: i64,
    templates: Seq<CardTemplate>,
    pattern: Seq<char>,
)
    ensures
        all_plain(template_branches_of(note_type_id, templates, pattern)),
    decreases templates.len(),
{
    if templates.len() > 0 {
        lemma_template_branches_of_are_plain(note_type_id, templates.drop_last(), pattern);
        reveal_strlit("(n.mid = ");
        reveal_strlit(" and c.ord = ");
        reveal_strlit(")");
        lemma_int_text_is_plain(note_type_id as int);
        lemma_int_text_is_plain(templates.last().ord as int);
        assert(plain(template_branch(note_type_id, templates.last().ord)));
    }
}

proof fn lemma_template_branches_are_plain(note_types: Seq<NoteType>, pattern: Seq<char>)
    ensures
        all_plain(template_branches(note_types, pattern)),
    decreases note_types.len(),
{
    if note_types.len() > 0 {
        lemma_template_branches_are_plain(note_types.drop_last(), pattern);
        lemma_template_branches_of_are_plain(
            note_types.last().id,
            note_types.last().templates@,
            pattern,
        );
    }
}

proof fn lemma_template_is_plain(note_types: Seq<NoteType>, kind: TemplateKind)
    ensures
        plain(template(note_types, kind).sql),
        leads(template(note_types, kind).sql),
        template(note_types, kind).args.len() == 0,
{
    match kind {
        TemplateKind::Ordinal(ord) => {
            reveal_strlit("c.ord = ");
            lemma_int_text_is_plain(ord as int);
        },
        TemplateKind::Name(name) => {
            lemma_template_branches_are_plain(note_types, name@);
            lemma_any_of_plain(template_branches(note_types, name@));
        },
    }
}

proof fn lemma_unqualified_numbering(text: Seq<char>, rest: Seq<char>, bound: nat)
    requires
        starts_clean(rest),
    ensures
        params_after(unqualified(text).sql + rest, bound) == params_after(rest, bound + 2),
        leads(unqualified(text).sql),
        unqualified(text).args.len() == 2,
{
    reveal_strlit("(n.sfld like ? escape '\\' or n.flds like ? escape '\\')");
    reveal_strlit("(n.sfld like ");
    reveal_strlit(" escape '\\' or n.flds like ");
    reveal_strlit(" escape '\\')");
    let first = "(n.sfld like "@;
    let second = " escape '\\' or n.flds like "@;
    let third = " escape '\\')"@;
    let after_first = second + seq!['?'] + third + rest;
    assert(unqualified(text).sql + rest =~= first + seq!['?'] + after_first);
    lemma_plain_then_bare(first, after_first, bound);
    assert(after_first =~= second + seq!['?'] + (third + rest));
    lemma_plain_then_bare(second, third + rest, bound + 1);
    lemma_plain_is_passed(third, rest, (bound + 2) as nat);
}

proof fn lemma_tag_numbering(text: Seq<char>, rest: Seq<char>, bound: nat)
    requires
        starts_clean(rest),
    ensures
        params_after(tag(text).sql + rest, bound) == params_after(
            rest,
            bound + tag(text).args.len(),
        ),
        leads(tag(text).sql),
{
    reveal_strlit("n.tags = ''");
    reveal_strlit("n.tags like ?");
    reveal_strlit("n.tags like ");
    if text == "none"@ {
        lemma_plain_is_passed("n.tags = ''"@, rest, bound);
    } else {
        assert(tag(text).sql + rest =~= "n.tags like "@ + seq!['?'] + rest);
        lemma_plain_then_bare("n.tags like "@, rest, bound);
    }
}

proof fn lemma_dupes_numbering(
    note_type_id: i64,
    csum: int,
    text: Seq<char>,
    rest: Seq<char>,
    bound: nat,
)
    requires
        starts_clean(rest),
    ensures
        params_after(dupes_with(note_type_id, csum, text).sql + rest, bound) == params_after(
            rest,
            bound + 1,
        ),
        leads(dupes_with(note_type_id, csum, text).sql),
        dupes_with(note_type_id, csum, text).args.len() == 1,
{
    reveal_strlit("(n.mid = ");
    reveal_strlit(" and n.csum = ");
    reveal_strlit(" and field_at_index(n.flds, 0) = ?)");
    reveal_strlit(" and field_at_index(n.flds, 0) = ");
    reveal_strlit(")");
    lemma_int_text_is_plain(note_type_id as int);
    lemma_int_text_is_plain(csum);
    let before = "(n.mid = "@ + int_text(note_type_id as int) + " and n.csum = "@ + int_text(csum)
        + " and field_at_index(n.flds, 0) = "@;
    assert(dupes_with(note_type_id, csum, text).sql + rest =~= before + seq!['?'] + (")"@ + rest));
    lemma_plain_then_bare(before, ")"@ + rest, bound);
    lemma_plain_is_passed(")"@, rest, (bound + 1) as nat);
}

/// Whether a branch refers to the value with number `arg`, and to no
/// other: read where that value or the one before it is the last one bound,
/// it leaves that value as the last one bound.
pub open spec fn refers_to(branch: Seq<char>, arg: nat) -> bool {
    &&& leads(branch)
    &&& forall|rest: Seq<char>, bound: nat|
        starts_clean(rest) && (bound == arg || bound + 1 == arg) ==> #[trigger] params_after(
            branch + rest,
            bound,
        ) == params_after(rest, arg)
}

/// Whether each of the branches refers to the value with number `arg`.
pub open spec fn all_refer_to(branches: Seq<Seq<char>>, arg: nat) -> bool {
    forall|i: int| 0 <= i < branches.len() ==> refers_to(#[trigger] branches[i], arg)
}

proof fn lemma_field_branch_refers(note_type_id: i64, ord: u16, arg: nat)
    requires
        arg >= 1,
    ensures
        refers_to(field_branch(note_type_id, ord, arg), arg),
{
    reveal_strlit("(n.mid = ");
    reveal_strlit(" and field_at_index(n.flds, ");
    reveal_strlit(") like ?");
    reveal_strlit(") like ");
    reveal_strlit(")");
    lemma_int_text_is_plain(note_type_id as int);
    lemma_int_text_is_plain(ord as int);
    let branch = field_branch(note_type_id, ord, arg);
    let before = "(n.mid = "@ + int_text(note_type_id as int) + " and field_at_index(n.flds, "@
        + int_text(ord as int) + ") like "@;
    assert(plain(before));
    assert forall|rest: Seq<char>, bound: nat|
        starts_clean(rest) && (bound == arg || bound + 1 == arg) implies #[trigger] params_after(
        branch + rest,
        bound,
    ) == params_after(rest, arg) by {
        let after = seq!['?'] + nat_text(arg) + (")"@ + rest);
        assert(branch + rest =~= before + after);
        lemma_plain_is_passed(before, after, bound);
        lemma_numbered_placeholder(arg, ")"@ + rest, bound);
        lemma_plain_is_passed(")"@, rest, arg);
    }
}

proof fn lemma_field_branches_of_refer(
    note_type_id: i64,
    fields: Seq<NoteField>,
    name: Seq<char>,
    arg: nat,
)
    requires
        arg >= 1,
    ensures
        all_refer_to(field_branches_of(note_type_id, fields, name, arg), arg),
    decreases fields.len(),
{
    if fields.len() > 0 {
        lemma_field_branches_of_refer(note_type_id, fields.drop_last(), name, arg);
        lemma_field_branch_refers(note_type_id, fields.last().ord, arg);
    }
}

proof fn lemma_field_branches_refer(note_types: Seq<NoteType>, name: Seq<char>, arg: nat)
    requires
        arg >= 1,
    ensures
        all_refer_to(field_branches(note_types, name, arg), arg),
    decreases note_types.len(),
{
    if note_types.len() > 0 {
        lemma_field_branches_refer(note_types.drop_last(), name, arg);
        lemma_field_branches_of_refer(
            note_types.last().id,
            note_types.last().fields@,
            name,
            arg,
        );
    }
}

proof fn lemma_or_join_numbering(branches: Seq<Seq<char>>, arg: nat, rest: Seq<char>, bound: nat)
    requires
        branches.len() > 0,
        all_refer_to(branches, arg),
        starts_clean(rest),
        bound == arg || bound + 1 == arg,
    ensures
        params_after(or_join(branches) + rest, bound) == params_after(rest, arg),
        leads(or_join(branches)),
    decreases branches.len(),
{
    reveal_strlit(" or ");
    if branches.len() == 1 {
        assert(refers_to(branches[0], arg));
    } else {
        let front = branches.drop_last();
        let last = branches.last();
        assert(all_refer_to(front, arg)) by {
            assert forall|i: int| 0 <= i < front.len() implies refers_to(
                #[trigger] front[i],
                arg,
            ) by {
                assert(front[i] == branches[i]);
            }
        }
        assert(refers_to(last, arg));
        let after = " or "@ + (last + rest);
        assert(or_join(branches) + rest =~= or_join(front) + after);
        lemma_or_join_numbering(front, arg, after, bound);
        lemma_plain_is_passed(" or "@, last + rest, arg);
    }
}

proof fn lemma_single_field_numbering(
    note_types: Seq<NoteType>,
    field: Seq<char>,
    text: Seq<char>,
    rest: Seq<char>,
    bound: nat,
)
    requires
        starts_clean(rest),
    ensures
        params_after(single_field(note_types, field, text, bound).sql + rest, bound)
            == params_after(rest, bound + single_field(note_types, field, text, bound).args.len()),
        leads(single_field(note_types, field, text, bound).sql),
{
    reveal_strlit("false");
    reveal_strlit("(");
    reveal_strlit(")");
    let branches = field_branches(note_types, field, bound + 1);
    if branches.len() == 0 {
        lemma_plain_is_passed("false"@, rest, bound);
    } else {
        lemma_field_branches_refer(note_types, field, bound + 1);
        let after = or_join(branches) + (")"@ + rest);
        assert(any_of(branches) + rest =~= "("@ + after);
        lemma_plain_is_passed("("@, after, bound);
        lemma_or_join_numbering(branches, bound + 1, ")"@ + rest, bound);
        lemma_plain_is_passed(")"@, rest, bound + 1);
    }
}

/// Whether the texts that a leaf writes into the predicate as they are hold
/// no placeholder of their own.
pub open spec fn leaf_is_clean(leaf: SearchNode) -> bool {
    match leaf {
        SearchNode::NoteIDs(ids) => plain(ids@),
        SearchNode::CardIDs(ids) => plain(ids@),
        SearchNode::Property { operator, .. } => plain(operator@),
        _ => true,
    }
}

/// Whether the leaves of a node are clean.
pub open spec fn node_is_clean(node: Node) -> bool
    decreases node,
{
    match node {
        Node::And => true,
        Node::Or => true,
        Node::Not(inner) => node_is_clean(*inner),
        Node::Group(nodes) => nodes_are_clean(nodes@),
        Node::Search(leaf) => leaf_is_clean(leaf),
    }
}

/// Whether the leaves of each of the nodes are clean.
pub open spec fn nodes_are_clean(nodes: Seq<Node>) -> bool
    decreases nodes,
{
    nodes.len() == 0 || (nodes_are_clean(nodes.drop_last()) && node_is_clean(nodes.last()))
}

proof fn lemma_leaf_numbering(col: Collection, leaf: SearchNode, rest: Seq<char>, bound: nat)
    requires
        leaf_is_clean(leaf),
        starts_clean(rest),
    ensures
        params_after(search_node(col, leaf, bound).sql + rest, bound) == params_after(
            rest,
            bound + search_node(col, leaf, bound).args.len(),
        ),
        leads(search_node(col, leaf, bound).sql),
{
    let written = search_node(col, leaf, bound);
    match leaf {
        SearchNode::UnqualifiedText(text) => lemma_unqualified_numbering(text@, rest, bound),
        SearchNode::SingleField { field, text } => lemma_single_field_numbering(
            col.note_types@,
            field@,
            text@,
            rest,
            bound,
        ),
        SearchNode::AddedInDays(days) => {
            reveal_strlit("c.id > ");
            lemma_int_text_is_plain(days as int);
            lemma_plain_is_passed(written.sql, rest, bound);
        },
        SearchNode::CardTemplate(kind) => {
            lemma_template_is_plain(col.note_types@, kind);
            lemma_plain_is_passed(written.sql, rest, bound);
        },
        SearchNode::Deck(pattern) => {
            lemma_deck_is_plain(col, pattern@);
            lemma_plain_is_passed(written.sql, rest, bound);
        },
        SearchNode::NoteTypeID(ntid) => {
            reveal_strlit("n.mid = ");
            lemma_int_text_is_plain(ntid as int);
            lemma_plain_is_passed(written.sql, rest, bound);
        },
        SearchNode::NoteType(pattern) => {
            lemma_note_type_is_plain(col.note_types@, pattern@);
            lemma_plain_is_passed(written.sql, rest, bound);
        },
        SearchNode::Rated { days, ease } => {
            lemma_rated_is_plain(col.timing, days, ease);
            lemma_plain_is_passed(written.sql, rest, bound);
        },
        SearchNode::Tag(text) => lemma_tag_numbering(text@, rest, bound),
        SearchNode::Duplicates { note_type_id, text } => lemma_dupes_numbering(
            note_type_id,
            checksum_of(strip_markup(text@)),
            text@,
            rest,
            bound,
        ),
        SearchNode::State(kind) => {
            lemma_state_is_plain(col.timing, kind);
            lemma_plain_is_passed(written.sql, rest, bound);
        },
        SearchNode::Flag(flag) => {
            reveal_strlit("(c.flags & 7) == ");
            lemma_int_text_is_plain(flag as int);
            lemma_plain_is_passed(written.sql, rest, bound);
        },
        SearchNode::NoteIDs(nids) => {
            reveal_strlit("n.id in (");
            reveal_strlit(")");
            lemma_plain_is_passed(written.sql, rest, bound);
        },
        SearchNode::CardIDs(cids) => {
            reveal_strlit("c.id in (");
            reveal_strlit(")");
            lemma_plain_is_passed(written.sql, rest, bound);
        },
        SearchNode::Property { operator, kind } => {
            lemma_prop_is_plain(col.timing, operator@, kind);
            lemma_plain_is_passed(written.sql, rest, bound);
        },
    }
}

proof fn lemma_node_numbering(col: Collection, node: Node, rest: Seq<char>, bound: nat)
    requires
        node_is_clean(node),
        starts_clean(rest),
    ensures
        params_after(node_fragment(col, node, bound).sql + rest, bound) == params_after(
            rest,
            bound + node_fragment(col, node, bound).args.len(),
        ),
        leads(node_fragment(col, node, bound).sql),
    decreases node,
{
    let written = node_fragment(col, node, bound);
    match node {
        Node::And => {
            reveal_strlit(" and ");
            lemma_plain_is_passed(written.sql, rest, bound);
        },
        Node::Or => {
            reveal_strlit(" or ");
            lemma_plain_is_passed(written.sql, rest, bound);
        },
        Node::Not(inner) => {
            reveal_strlit("not ");
            let operand = node_fragment(col, *inner, bound);
            assert(written.sql + rest =~= "not "@ + (operand.sql + rest));
            lemma_plain_is_passed("not "@, operand.sql + rest, bound);
            lemma_node_numbering(col, *inner, rest, bound);
            assert(written.args =~= operand.args);
        },
        Node::Group(nodes) => {
            reveal_strlit("(");
            reveal_strlit(")");
            let inside = nodes_fragment(col, nodes@, bound);
            assert(written.sql + rest =~= "("@ + (inside.sql + (")"@ + rest)));
            lemma_plain_is_passed("("@, inside.sql + (")"@ + rest), bound);
            lemma_nodes_numbering(col, nodes@, ")"@ + rest, bound);
            lemma_plain_is_passed(")"@, rest, bound + inside.args.len());
            assert(written.args =~= inside.args);
        },
        Node::Search(leaf) => lemma_leaf_numbering(col, leaf, rest, bound),
    }
}

proof fn lemma_nodes_numbering(col: Collection, nodes: Seq<Node>, rest: Seq<char>, bound: nat)
    requires
        nodes_are_clean(nodes),
        starts_clean(rest),
    ensures
        params_after(nodes_fragment(col, nodes, bound).sql + rest, bound) == params_after(
            rest,
            bound + nodes_fragment(col, nodes, bound).args.len(),
        ),
        starts_clean(nodes_fragment(col, nodes, bound).sql + rest),
    decreases nodes,
{
    let written = nodes_fragment(col, nodes, bound);
    if nodes.len() == 0 {
        assert(written.sql + rest =~= rest);
    } else {
        let before = nodes_fragment(col, nodes.drop_last(), bound);
        let last = node_fragment(col, nodes.last(), bound + before.args.len());
        lemma_node_numbering(col, nodes.last(), rest, bound + before.args.len());
        assert(written.sql + rest =~= before.sql + (last.sql + rest));
        lemma_nodes_numbering(col, nodes.drop_last(), last.sql + rest, bound);
        assert(written.args.len() == before.args.len() + last.args.len());
    }
}

/// The placeholders of a predicate are numbered as its values are bound.
///
/// Read by the engine after `bound` values, the predicate of a node uses the
/// numbers of its own values, each of them and in their order, and leaves as
/// many values to bind as it has written. In a predicate compiled on its own
/// the placeholders therefore take the numbers from 1 to the number of bound
/// values.
///
/// This holds where the texts that leaves take over as they are, the lists
/// of ids and the operators of comparisons, hold no `?`.
pub proof fn law_placeholders_count_values(col: Collection, node: Node, bound: nat)
    requires
        node_is_clean(node),
    ensures
        params_after(node_fragment(col, node, bound).sql, bound) == Some(
            bound + node_fragment(col, node, bound).args.len(),
        ),
{
    let written = node_fragment(col, node, bound);
    lemma_node_numbering(col, node, Seq::empty(), bound);
    assert(written.sql + Seq::<char>::empty() =~= written.sql);
}

} // verus!
