//! Writing a search expression as an SQL predicate.
//!
//! The tree is walked once, from left to right. Each node appends its text to
//! the predicate and its bound values to the parameter list, so the text
//! mirrors the tree as it was written.

use vstd::prelude::*;
use crate::card::CardQueue;
use crate::catalog::{
    child_ids, child_ids_of, deck_position, get_deck, CardTemplate, Collection, Deck, NoteField,
    NoteType, SchedTimingToday,
};
use crate::checksum::{checksum_of, field_checksum};
use crate::markup::{strip_html_preserving_image_filenames, strip_markup};
use crate::nodes::{Node, PropertyKind, SearchNode, StateKind, TemplateKind};
use crate::numbering::{law_placeholders_count_values, node_is_clean};
use crate::params::{bind_args, text_params, texts};
use crate::placeholders::params_after;
use crate::text::{
    chars_of, eq_ignore_ascii_case, int_text, push_int, same_ignoring_ascii_case, same_text,
};
use crate::wildcard::{matches_wildcard, wildcard_matches};
use rusqlite::types::ToSqlOutput;

verus! {

/// A piece of a predicate: its text and the values bound to the placeholders
/// in it, in the order in which the placeholders are numbered.
#[verifier::ext_equal]
pub struct Fragment {
    pub sql: Seq<char>,
    pub args: Seq<Seq<char>>,
}

impl Fragment {
    /// Text that binds no value.
    pub open spec fn text(sql: Seq<char>) -> Fragment {
        Fragment { sql, args: Seq::empty() }
    }

    /// This piece followed by `next`.
    pub open spec fn followed_by(self, next: Fragment) -> Fragment {
        Fragment { sql: self.sql + next.sql, args: self.args + next.args }
    }
}

/// Why a search cannot be written as a predicate.
#[derive(Debug, PartialEq)]
pub enum SearchError {
    /// The search asks for something that the collection does not hold.
    InvalidInput { info: String },
}

/// Whether `error` says that the current deck is not among the decks.
pub open spec fn is_invalid_current_deck(error: SearchError) -> bool {
    error matches SearchError::InvalidInput { info } && info@ == "invalid current deck"@
}

/// A predicate under construction, with the snapshot that it is written
/// against.
pub struct SearchContext<'a> {
    pub col: &'a Collection,
    pub sql: String,
    pub args: Vec<String>,
}

impl<'a> View for SearchContext<'a> {
    type V = Fragment;

    /// What has been written so far.
    open spec fn view(&self) -> Fragment {
        Fragment { sql: self.sql@, args: texts(self.args@) }
    }
}

impl<'a> SearchContext<'a> {
    /// A context in which nothing has been written yet.
    pub fn new(col: &'a Collection) -> (ctx: Self)
        ensures
            ctx.col == col,
            ctx@ == Fragment::text(Seq::empty()),
    {
        let ctx = SearchContext { col, sql: String::new(), args: Vec::new() };
        assert(ctx@ =~~= Fragment::text(Seq::empty()));
        ctx
    }
}

/// The ids after the first, each followed by a comma.
pub open spec fn ids_rest_text(ids: Seq<i64>) -> Seq<char>
    decreases ids.len(),
{
    if ids.len() == 0 {
        Seq::empty()
    } else {
        ids_rest_text(ids.drop_last()) + int_text(ids.last() as int) + seq![',']
    }
}

/// A list of ids as a parenthesised, comma-separated tuple for an `in` test.
///
/// The ids after the first come in their order and the first id comes last:
/// `(6,5,7)` for 7, 6, 5. No ids give `()`, which no value is in.
pub open spec fn ids_text(ids: Seq<i64>) -> Seq<char> {
    if ids.len() == 0 {
        seq!['(', ')']
    } else {
        seq!['('] + ids_rest_text(ids.skip(1)) + int_text(ids[0] as int) + seq![')']
    }
}

/// Appends `ids_text(ids)` to `buf`.
pub fn ids_to_string(buf: &mut String, ids: &[i64])
    ensures
        final(buf)@ == old(buf)@ + ids_text(ids@),
{
    buf.push('(');
    if ids.len() > 0 {
        let ghost rest = ids@.skip(1);
        let mut i: usize = 1;
        while i < ids.len()
            invariant
                1 <= i <= ids.len(),
                rest == ids@.skip(1),
                buf@ == old(buf)@ + seq!['('] + ids_rest_text(rest.take(i - 1)),
            decreases ids.len() - i,
        {
            assert(rest.take(i as int).drop_last() == rest.take(i - 1));
            push_int(buf, ids[i] as i128);
            buf.push(',');
            i += 1;
        }
        assert(rest.take(i - 1) == rest);
        push_int(buf, ids[0] as i128);
    }
    buf.push(')');
}

/// The predicate for text that may stand anywhere in a note: the text is
/// looked for in the sort field and in the joined fields, with `%` on both
/// sides so that it matches inside them.
pub open spec fn unqualified(text: Seq<char>) -> Fragment {
    Fragment {
        sql: "(n.sfld like ? escape '\\' or n.flds like ? escape '\\')"@,
        args: seq![seq!['%'] + text + seq!['%'], seq!['%'] + text + seq!['%']],
    }
}

/// Writes `unqualified(text)`.
pub fn write_unqualified(ctx: &mut SearchContext, text: &str)
    ensures
        final(ctx).col == old(ctx).col,
        final(ctx)@ == old(ctx)@.followed_by(unqualified(text@)),
{
    let mut wrapped = String::new();
    wrapped.push('%');
    wrapped.append(text);
    wrapped.push('%');
    assert(wrapped@ =~= seq!['%'] + text@ + seq!['%']);
    ctx.sql.append("(n.sfld like ? escape '\\' or n.flds like ? escape '\\')");
    ctx.args.push(wrapped.clone());
    ctx.args.push(wrapped);
    assert(ctx@ =~~= old(ctx)@.followed_by(unqualified(text@)));
}

/// `text` with `%`, which matches any run of characters in a `like` test, in
/// place of each `*`.
pub open spec fn star_to_percent(text: Seq<char>) -> Seq<char> {
    text.map_values(
        |c: char|
            if c == '*' {
                '%'
            } else {
                c
            },
    )
}

/// The predicate for a tag.
///
/// Notes keep their tags in one string, separated and enclosed by spaces.
/// That string is compared with the text between two spaces, a `*` in the
/// text matching any run of characters. The text `none` asks for notes
/// without tags and binds nothing.
pub open spec fn tag(text: Seq<char>) -> Fragment {
    if text == "none"@ {
        Fragment::text("n.tags = ''"@)
    } else {
        Fragment {
            sql: "n.tags like ?"@,
            args: seq![seq![' '] + star_to_percent(text) + seq![' ']],
        }
    }
}

/// Writes `tag(text)`.
pub fn write_tag(ctx: &mut SearchContext, text: &str)
    ensures
        final(ctx).col == old(ctx).col,
        final(ctx)@ == old(ctx)@.followed_by(tag(text@)),
{
    if same_text(text, "none") {
        ctx.sql.append("n.tags = ''");
        assert(ctx@ =~~= old(ctx)@.followed_by(tag(text@)));
        return ;
    }
    let chars = chars_of(text);
    let mut pattern = String::new();
    pattern.push(' ');
    let mut i: usize = 0;
    while i < chars.len()
        invariant
            i <= chars.len(),
            pattern@ == seq![' '] + star_to_percent(chars@.take(i as int)),
        decreases chars.len() - i,
    {
        let c = chars[i];
        pattern.push(
            if c == '*' {
                '%'
            } else {
                c
            },
        );
        assert(pattern@ =~= seq![' '] + star_to_percent(chars@.take(i + 1)));
        i += 1;
    }
    assert(chars@.take(i as int) == chars@);
    pattern.push(' ');
    ctx.sql.append("n.tags like ?");
    ctx.args.push(pattern);
    assert(ctx@ =~~= old(ctx)@.followed_by(tag(text@)));
}

/// The time after which an answer counts as given within the last `days`
/// days: the start of the next day less `days` whole days. No more than 31
/// days are looked back.
pub open spec fn rated_cutoff(next_day_at: int, days: int) -> int {
    next_day_at - 86_400 * (if days < 31 {
        days
    } else {
        31
    })
}

/// The predicate for cards answered within the last `days` days, with the
/// ease button `ease` where one is given.
pub open spec fn rated(timing: SchedTimingToday, days: u32, ease: Option<u8>) -> Fragment {
    Fragment::text(
        "c.id in (select cid from revlog where id>"@ + int_text(
            rated_cutoff(timing.next_day_at as int, days as int),
        ) + match ease {
            Some(ease) => " and ease="@ + int_text(ease as int) + ")"@,
            None => ")"@,
        },
    )
}

/// Writes `rated` for today's timing.
pub fn write_rated(ctx: &mut SearchContext, days: u32, ease: Option<u8>)
    ensures
        final(ctx).col == old(ctx).col,
        final(ctx)@ == old(ctx)@.followed_by(rated(old(ctx).col.timing, days, ease)),
{
    let today_cutoff: i128 = ctx.col.timing.next_day_at as i128;
    let back: i128 = if days < 31 {
        days as i128
    } else {
        31
    };
    let target_cutoff: i128 = today_cutoff - 86_400 * back;
    ctx.sql.append("c.id in (select cid from revlog where id>");
    push_int(&mut ctx.sql, target_cutoff);
    match ease {
        Some(ease) => {
            ctx.sql.append(" and ease=");
            push_int(&mut ctx.sql, ease as i128);
            ctx.sql.append(")");
        },
        None => {
            ctx.sql.append(")");
        },
    }
    assert(ctx@ =~~= old(ctx)@.followed_by(rated(old(ctx).col.timing, days, ease)));
}

/// The predicate for a comparison of a card property with a number.
///
/// A due day is given relative to today and compared as a day of the
/// collection's calendar; only cards that are due on a day, those in review
/// and those in learning by days, are asked. The other properties are
/// compared as they are stored.
pub open spec fn prop(timing: SchedTimingToday, op: Seq<char>, kind: PropertyKind) -> Fragment {
    Fragment::text(
        match kind {
            PropertyKind::Due(days) => "(c.queue in ("@ + int_text(CardQueue::Review.code() as int)
                + ","@ + int_text(CardQueue::DayLearn.code() as int) + ") and due "@ + op + " "@
                + int_text(days + timing.days_elapsed) + ")"@,
            PropertyKind::Interval(ivl) => "ivl "@ + op + " "@ + int_text(ivl as int),
            PropertyKind::Reps(reps) => "reps "@ + op + " "@ + int_text(reps as int),
            PropertyKind::Lapses(lapses) => "lapses "@ + op + " "@ + int_text(lapses as int),
            PropertyKind::Ease(ease) => "ease "@ + op + " "@ + int_text(ease as int),
        },
    )
}

/// Writes `prop` for today's timing.
pub fn write_prop(ctx: &mut SearchContext, op: &str, kind: &PropertyKind)
    ensures
        final(ctx).col == old(ctx).col,
        final(ctx)@ == old(ctx)@.followed_by(prop(old(ctx).col.timing, op@, *kind)),
{
    match kind {
        PropertyKind::Due(days) => {
            let day: i128 = *days as i128 + ctx.col.timing.days_elapsed as i128;
            ctx.sql.append("(c.queue in (");
            push_int(&mut ctx.sql, CardQueue::Review.code() as i128);
            ctx.sql.append(",");
            push_int(&mut ctx.sql, CardQueue::DayLearn.code() as i128);
            ctx.sql.append(") and due ");
            ctx.sql.append(op);
            ctx.sql.append(" ");
            push_int(&mut ctx.sql, day);
            ctx.sql.append(")");
        },
        PropertyKind::Interval(ivl) => {
            ctx.sql.append("ivl ");
            ctx.sql.append(op);
            ctx.sql.append(" ");
            push_int(&mut ctx.sql, *ivl as i128);
        },
        PropertyKind::Reps(reps) => {
            ctx.sql.append("reps ");
            ctx.sql.append(op);
            ctx.sql.append(" ");
            push_int(&mut ctx.sql, *reps as i128);
        },
        PropertyKind::Lapses(lapses) => {
            ctx.sql.append("lapses ");
            ctx.sql.append(op);
            ctx.sql.append(" ");
            push_int(&mut ctx.sql, *lapses as i128);
        },
        PropertyKind::Ease(ease) => {
            ctx.sql.append("ease ");
            ctx.sql.append(op);
            ctx.sql.append(" ");
            push_int(&mut ctx.sql, *ease as i128);
        },
    }
    assert(ctx@ =~~= old(ctx)@.followed_by(prop(old(ctx).col.timing, op@, *kind)));
}

/// `c.queue = ` and the number of a queue.
pub open spec fn in_queue(queue: CardQueue) -> Seq<char> {
    "c.queue = "@ + int_text(queue.code() as int)
}

/// `c.queue in (` and the numbers of two queues, up to the closing bracket.
pub open spec fn in_queues(first: CardQueue, second: CardQueue) -> Seq<char> {
    "c.queue in ("@ + int_text(first.code() as int) + ","@ + int_text(second.code() as int) + ")"@
}

/// The predicate for a scheduling state.
///
/// A card is due when it is in review or in learning by days and its day has
/// come, or when it is in learning by time and its time comes before the
/// next day starts.
pub open spec fn state(timing: SchedTimingToday, kind: StateKind) -> Fragment {
    Fragment::text(
        match kind {
            StateKind::New => in_queue(CardQueue::New),
            StateKind::Review => in_queue(CardQueue::Review),
            StateKind::Learning => in_queues(CardQueue::Learn, CardQueue::DayLearn),
            StateKind::Buried => in_queues(CardQueue::SchedBuried, CardQueue::UserBuried),
            StateKind::Suspended => in_queue(CardQueue::Suspended),
            StateKind::Due => "\n("@ + in_queues(CardQueue::Review, CardQueue::DayLearn)
                + " and c.due <= "@ + int_text(timing.days_elapsed as int) + ") or\n("@ + in_queue(
                CardQueue::Learn,
            ) + " and c.due <= "@ + int_text(timing.next_day_at as int) + ")"@,
        },
    )
}

fn write_queue(buf: &mut String, queue: CardQueue)
    ensures
        final(buf)@ == old(buf)@ + in_queue(queue),
{
    buf.append("c.queue = ");
    push_int(buf, queue.code() as i128);
    assert(buf@ =~= old(buf)@ + in_queue(queue));
}

fn write_queues(buf: &mut String, first: CardQueue, second: CardQueue)
    ensures
        final(buf)@ == old(buf)@ + in_queues(first, second),
{
    buf.append("c.queue in (");
    push_int(buf, first.code() as i128);
    buf.append(",");
    push_int(buf, second.code() as i128);
    buf.append(")");
    assert(buf@ =~= old(buf)@ + in_queues(first, second));
}

/// Writes `state` for today's timing.
pub fn write_state(ctx: &mut SearchContext, state: &StateKind)
    ensures
        final(ctx).col == old(ctx).col,
        final(ctx)@ == old(ctx)@.followed_by(self::state(old(ctx).col.timing, *state)),
{
    match state {
        StateKind::New => write_queue(&mut ctx.sql, CardQueue::New),
        StateKind::Review => write_queue(&mut ctx.sql, CardQueue::Review),
        StateKind::Learning => write_queues(&mut ctx.sql, CardQueue::Learn, CardQueue::DayLearn),
        StateKind::Buried => write_queues(
            &mut ctx.sql,
            CardQueue::SchedBuried,
            CardQueue::UserBuried,
        ),
        StateKind::Suspended => write_queue(&mut ctx.sql, CardQueue::Suspended),
        StateKind::Due => {
            ctx.sql.append("\n(");
            write_queues(&mut ctx.sql, CardQueue::Review, CardQueue::DayLearn);
            ctx.sql.append(" and c.due <= ");
            push_int(&mut ctx.sql, ctx.col.timing.days_elapsed as i128);
            ctx.sql.append(") or\n(");
            write_queue(&mut ctx.sql, CardQueue::Learn);
            ctx.sql.append(" and c.due <= ");
            push_int(&mut ctx.sql, ctx.col.timing.next_day_at as i128);
            ctx.sql.append(")");
        },
    }
    assert(ctx@ =~~= old(ctx)@.followed_by(self::state(old(ctx).col.timing, *state)));
}

/// The ids of the decks among the first `upto` whose names match `pattern`,
/// each followed by the ids of the decks that lie below it. A deck that is
/// reached in more than one way is listed each time.
pub open spec fn deck_ids_matching(decks: Seq<Deck>, upto: nat, pattern: Seq<char>) -> Seq<i64>
    decreases upto,
{
    if upto == 0 {
        Seq::empty()
    } else {
        let deck = decks[upto - 1];
        let before = deck_ids_matching(decks, (upto - 1) as nat, pattern);
        if wildcard_matches(deck.name@, pattern) {
            before + seq![deck.id] + child_ids_of(decks, deck.name@)
        } else {
            before
        }
    }
}

/// Whether a deck leaf cannot be written: it asks for the current deck, and
/// no deck has the id that the collection gives as current.
pub open spec fn deck_fails(col: Collection, deck: Seq<char>) -> bool {
    deck == "current"@ && deck_position(col.decks@, col.current_deck_id) is None
}

/// The predicate for a deck leaf that can be written.
///
/// `*` is every deck and `filtered` is every filtered deck. `current` is
/// the current deck with the decks below it. Any other text is a pattern: the
/// decks whose names match it, with the decks below them.
pub open spec fn deck(col: Collection, deck: Seq<char>) -> Fragment {
    if deck == "*"@ {
        Fragment::text("true"@)
    } else if deck == "filtered"@ {
        Fragment::text("c.odid > 0"@)
    } else if deck == "current"@ {
        let current = col.decks@[deck_position(col.decks@, col.current_deck_id).unwrap()];
        Fragment::text(
            "c.did in "@ + ids_text(
                seq![col.current_deck_id] + child_ids_of(col.decks@, current.name@),
            ),
        )
    } else {
        Fragment::text(
            "c.did in "@ + ids_text(deck_ids_matching(col.decks@, col.decks.len() as nat, deck)),
        )
    }
}

/// The three words that a deck leaf knows are three different texts.
pub proof fn lemma_deck_words_differ()
    ensures
        "*"@ != "filtered"@,
        "*"@ != "current"@,
        "filtered"@ != "current"@,
{
    reveal_strlit("*");
    reveal_strlit("filtered");
    reveal_strlit("current");
    assert("*"@.len() == 1);
    assert("filtered"@.len() == 8);
    assert("current"@.len() == 7);
}

/// Writes `deck` for the snapshot's decks, or fails where `deck_fails` holds
/// and then writes nothing.
pub fn write_deck(ctx: &mut SearchContext, deck: &str) -> (done: Result<(), SearchError>)
    ensures
        final(ctx).col == old(ctx).col,
        done is Err <==> deck_fails(*old(ctx).col, deck@),
        done matches Err(error) ==> is_invalid_current_deck(error) && final(ctx)@ == old(ctx)@,
        done is Ok ==> final(ctx)@ == old(ctx)@.followed_by(self::deck(*old(ctx).col, deck@)),
{
    proof {
        lemma_deck_words_differ();
    }
    if same_text(deck, "*") {
        ctx.sql.append("true");
    } else if same_text(deck, "filtered") {
        ctx.sql.append("c.odid > 0");
    } else {
        let all_decks = ctx.col.decks.as_slice();
        let dids_with_children = if same_text(deck, "current") {
            let current_id = ctx.col.current_deck_id;
            let mut dids_with_children: Vec<i64> = Vec::new();
            dids_with_children.push(current_id);
            let current = match get_deck(all_decks, current_id) {
                Some(current) => current,
                None => {
                    return Err(
                        SearchError::InvalidInput { info: "invalid current deck".to_owned() },
                    );
                },
            };
            let mut children = child_ids(all_decks, current.name.as_str());
            dids_with_children.append(&mut children);
                dids_with_children
        } else {
            let mut dids_with_children: Vec<i64> = Vec::new();
            let mut i: usize = 0;
            while i < all_decks.len()
                invariant
                    i <= all_decks.len(),
                    dids_with_children@ == deck_ids_matching(all_decks@, i as nat, deck@),
                decreases all_decks.len() - i,
            {
                if matches_wildcard(all_decks[i].name.as_str(), deck) {
                    dids_with_children.push(all_decks[i].id);
                    let mut children = child_ids(all_decks, all_decks[i].name.as_str());
                    dids_with_children.append(&mut children);
                }
                i += 1;
            }
            dids_with_children
        };
        ctx.sql.append("c.did in ");
        ids_to_string(&mut ctx.sql, dids_with_children.as_slice());
    }
    assert(ctx@ =~~= old(ctx)@.followed_by(self::deck(*old(ctx).col, deck@)));
    Ok(())
}

/// Texts joined by ` or `.
pub open spec fn or_join(branches: Seq<Seq<char>>) -> Seq<char>
    decreases branches.len(),
{
    if branches.len() == 0 {
        Seq::empty()
    } else if branches.len() == 1 {
        branches[0]
    } else {
        or_join(branches.drop_last()) + " or "@ + branches.last()
    }
}

/// The predicate that holds where one of the branches holds, and nowhere
/// where there is no branch.
pub open spec fn any_of(branches: Seq<Seq<char>>) -> Seq<char> {
    if branches.len() == 0 {
        "false"@
    } else {
        "("@ + or_join(branches) + ")"@
    }
}

/// Appends `any_of` of the branches.
fn write_any_of(buf: &mut String, branches: &Vec<String>)
    ensures
        final(buf)@ == old(buf)@ + any_of(texts(branches@)),
{
    if branches.len() == 0 {
        buf.append("false");
        return ;
    }
    buf.append("(");
    let mut i: usize = 0;
    while i < branches.len()
        invariant
            i <= branches.len(),
            buf@ == old(buf)@ + "("@ + or_join(texts(branches@).take(i as int)),
        decreases branches.len() - i,
    {
        if i > 0 {
            buf.append(" or ");
        }
        buf.append(branches[i].as_str());
        assert(texts(branches@).take(i + 1).drop_last() == texts(branches@).take(i as int));
        assert(buf@ =~= old(buf)@ + "("@ + or_join(texts(branches@).take(i + 1)));
        i += 1;
    }
    assert(texts(branches@).take(i as int) == texts(branches@));
    buf.append(")");
    assert(buf@ =~= old(buf)@ + any_of(texts(branches@)));
}

/// The test for cards of one template of one note type.
pub open spec fn template_branch(note_type_id: i64, ord: u16) -> Seq<char> {
    "(n.mid = "@ + int_text(note_type_id as int) + " and c.ord = "@ + int_text(ord as int) + ")"@
}

/// One branch for each of the templates whose names match `pattern`.
pub open spec fn template_branches_of(
    note_type_id: i64,
    templates: Seq<CardTemplate>,
    pattern: Seq<char>,
) -> Seq<Seq<char>>
    decreases templates.len(),
{
    if templates.len() == 0 {
        Seq::empty()
    } else {
        let before = template_branches_of(note_type_id, templates.drop_last(), pattern);
        if wildcard_matches(templates.last().name@, pattern) {
            before.push(template_branch(note_type_id, templates.last().ord))
        } else {
            before
        }
    }
}

/// One branch for each template of each note type whose name matches
/// `pattern`, note type by note type.
pub open spec fn template_branches(note_types: Seq<NoteType>, pattern: Seq<char>) -> Seq<Seq<char>>
    decreases note_types.len(),
{
    if note_types.len() == 0 {
        Seq::empty()
    } else {
        template_branches(note_types.drop_last(), pattern) + template_branches_of(
            note_types.last().id,
            note_types.last().templates@,
            pattern,
        )
    }
}

/// The predicate for a template leaf: the cards at a position, or the cards
/// of the templates that a pattern names. A pattern that names no template
/// gives a predicate that never holds.
pub open spec fn template(note_types: Seq<NoteType>, kind: TemplateKind) -> Fragment {
    match kind {
        TemplateKind::Ordinal(ord) => Fragment::text("c.ord = "@ + int_text(ord as int)),
        TemplateKind::Name(name) => Fragment::text(any_of(template_branches(note_types, name@))),
    }
}

/// Writes `template` for the snapshot's note types.
pub fn write_template(ctx: &mut SearchContext, template: &TemplateKind)
    ensures
        final(ctx).col == old(ctx).col,
        final(ctx)@ == old(ctx)@.followed_by(self::template(old(ctx).col.note_types@, *template)),
{
    match template {
        TemplateKind::Ordinal(n) => {
            ctx.sql.append("c.ord = ");
            push_int(&mut ctx.sql, *n as i128);
        },
        TemplateKind::Name(name) => {
            let note_types = &ctx.col.note_types;
            let mut id_ords: Vec<String> = Vec::new();
            let mut i: usize = 0;
            while i < note_types.len()
                invariant
                    i <= note_types.len(),
                    texts(id_ords@) == template_branches(note_types@.take(i as int), name@),
                decreases note_types.len() - i,
            {
                let nt = &note_types[i];
                let ghost before = texts(id_ords@);
                let mut j: usize = 0;
                while j < nt.templates.len()
                    invariant
                        j <= nt.templates.len(),
                        texts(id_ords@) == before + template_branches_of(
                            nt.id,
                            nt.templates@.take(j as int),
                            name@,
                        ),
                    decreases nt.templates.len() - j,
                {
                    let tmpl = &nt.templates[j];
                    assert(nt.templates@.take(j + 1).drop_last() == nt.templates@.take(j as int));
                    assert(nt.templates@.take(j + 1).last() == *tmpl);
                    let ghost written = texts(id_ords@);
                    if matches_wildcard(tmpl.name.as_str(), name.as_str()) {
                        let mut branch = String::new();
                        branch.append("(n.mid = ");
                        push_int(&mut branch, nt.id as i128);
                        branch.append(" and c.ord = ");
                        push_int(&mut branch, tmpl.ord as i128);
                        branch.append(")");
                        assert(branch@ =~= template_branch(nt.id, tmpl.ord));
                        id_ords.push(branch);
                        assert(texts(id_ords@) =~= written.push(template_branch(nt.id, tmpl.ord)));
                    }
                    assert(texts(id_ords@) =~= before + template_branches_of(
                        nt.id,
                        nt.templates@.take(j + 1),
                        name@,
                    ));
                    j += 1;
                }
                assert(nt.templates@.take(j as int) == nt.templates@);
                assert(note_types@.take(i + 1).drop_last() == note_types@.take(i as int));
                i += 1;
            }
            assert(note_types@.take(i as int) == note_types@);
            write_any_of(&mut ctx.sql, &id_ords);
        },
    }
    assert(ctx@ =~~= old(ctx)@.followed_by(self::template(old(ctx).col.note_types@, *template)));
}

/// The ids of the note types whose names match `pattern`, in their order.
pub open spec fn note_type_ids_matching(note_types: Seq<NoteType>, pattern: Seq<char>) -> Seq<i64>
    decreases note_types.len(),
{
    if note_types.len() == 0 {
        Seq::empty()
    } else {
        let before = note_type_ids_matching(note_types.drop_last(), pattern);
        if wildcard_matches(note_types.last().name@, pattern) {
            before.push(note_types.last().id)
        } else {
            before
        }
    }
}

/// The predicate for notes of the note types that a pattern names.
pub open spec fn note_type(note_types: Seq<NoteType>, pattern: Seq<char>) -> Fragment {
    Fragment::text("n.mid in "@ + ids_text(note_type_ids_matching(note_types, pattern)))
}

/// Writes `note_type` for the snapshot's note types.
pub fn write_note_type(ctx: &mut SearchContext, nt_name: &str)
    ensures
        final(ctx).col == old(ctx).col,
        final(ctx)@ == old(ctx)@.followed_by(note_type(old(ctx).col.note_types@, nt_name@)),
{
    let note_types = &ctx.col.note_types;
    let mut ntids: Vec<i64> = Vec::new();
    let mut i: usize = 0;
    while i < note_types.len()
        invariant
            i <= note_types.len(),
            ntids@ == note_type_ids_matching(note_types@.take(i as int), nt_name@),
        decreases note_types.len() - i,
    {
        assert(note_types@.take(i + 1).drop_last() == note_types@.take(i as int));
        if matches_wildcard(note_types[i].name.as_str(), nt_name) {
            ntids.push(note_types[i].id);
        }
        i += 1;
    }
    assert(note_types@.take(i as int) == note_types@);
    ctx.sql.append("n.mid in ");
    ids_to_string(&mut ctx.sql, ntids.as_slice());
    assert(ctx@ =~~= old(ctx)@.followed_by(note_type(old(ctx).col.note_types@, nt_name@)));
}

/// The test for notes of one note type whose field at `ord` is like the
/// value bound to placeholder number `arg`.
pub open spec fn field_branch(note_type_id: i64, ord: u16, arg: nat) -> Seq<char> {
    "(n.mid = "@ + int_text(note_type_id as int) + " and field_at_index(n.flds, "@ + int_text(
        ord as int,
    ) + ") like ?"@ + int_text(arg as int) + ")"@
}

/// One branch for each of the fields called `name`, up to ASCII case.
pub open spec fn field_branches_of(
    note_type_id: i64,
    fields: Seq<NoteField>,
    name: Seq<char>,
    arg: nat,
) -> Seq<Seq<char>>
    decreases fields.len(),
{
    if fields.len() == 0 {
        Seq::empty()
    } else {
        let before = field_branches_of(note_type_id, fields.drop_last(), name, arg);
        if same_ignoring_ascii_case(fields.last().name@, name) {
            before.push(field_branch(note_type_id, fields.last().ord, arg))
        } else {
            before
        }
    }
}

/// One branch for each field called `name` of each note type, note type by
/// note type.
pub open spec fn field_branches(note_types: Seq<NoteType>, name: Seq<char>, arg: nat) -> Seq<
    Seq<char>,
>
    decreases note_types.len(),
{
    if note_types.len() == 0 {
        Seq::empty()
    } else {
        field_branches(note_types.drop_last(), name, arg) + field_branches_of(
            note_types.last().id,
            note_types.last().fields@,
            name,
            arg,
        )
    }
}

/// The predicate for text in the fields called `field`, written where
/// `bound` values have been bound already.
///
/// The text is bound once, as value number `bound + 1`, and every branch
/// refers to it by that number. Where no note type has such a field nothing
/// is bound and the predicate never holds.
pub open spec fn single_field(
    note_types: Seq<NoteType>,
    field: Seq<char>,
    text: Seq<char>,
    bound: nat,
) -> Fragment {
    let branches = field_branches(note_types, field, bound + 1);
    Fragment {
        sql: any_of(branches),
        args: if branches.len() == 0 {
            Seq::empty()
        } else {
            seq![text]
        },
    }
}

/// Writes `single_field` for the snapshot's note types and the values bound
/// so far.
pub fn write_single_field(ctx: &mut SearchContext, field_name: &str, val: &str)
    ensures
        final(ctx).col == old(ctx).col,
        final(ctx)@ == old(ctx)@.followed_by(
            single_field(old(ctx).col.note_types@, field_name@, val@, old(ctx)@.args.len()),
        ),
{
    let note_types = &ctx.col.note_types;
    let arg_idx: i128 = ctx.args.len() as i128 + 1;
    let ghost arg = (old(ctx)@.args.len() + 1) as nat;
    let mut branches: Vec<String> = Vec::new();
    let mut i: usize = 0;
    while i < note_types.len()
        invariant
            i <= note_types.len(),
            arg_idx == arg,
            texts(branches@) == field_branches(note_types@.take(i as int), field_name@, arg),
        decreases note_types.len() - i,
    {
        let nt = &note_types[i];
        let ghost before = texts(branches@);
        let mut j: usize = 0;
        while j < nt.fields.len()
            invariant
                j <= nt.fields.len(),
                arg_idx == arg,
                texts(branches@) == before + field_branches_of(
                    nt.id,
                    nt.fields@.take(j as int),
                    field_name@,
                    arg,
                ),
            decreases nt.fields.len() - j,
        {
            let field = &nt.fields[j];
            assert(nt.fields@.take(j + 1).drop_last() == nt.fields@.take(j as int));
            assert(nt.fields@.take(j + 1).last() == *field);
            let ghost written = texts(branches@);
            if eq_ignore_ascii_case(field.name.as_str(), field_name) {
                let mut branch = String::new();
                branch.append("(n.mid = ");
                push_int(&mut branch, nt.id as i128);
                branch.append(" and field_at_index(n.flds, ");
                push_int(&mut branch, field.ord as i128);
                branch.append(") like ?");
                push_int(&mut branch, arg_idx);
                branch.append(")");
                assert(branch@ =~= field_branch(nt.id, field.ord, arg));
                branches.push(branch);
                assert(texts(branches@) =~= written.push(field_branch(nt.id, field.ord, arg)));
            }
            assert(texts(branches@) =~= before + field_branches_of(
                nt.id,
                nt.fields@.take(j + 1),
                field_name@,
                arg,
            ));
            j += 1;
        }
        assert(nt.fields@.take(j as int) == nt.fields@);
        assert(note_types@.take(i + 1).drop_last() == note_types@.take(i as int));
        i += 1;
    }
    assert(note_types@.take(i as int) == note_types@);
    write_any_of(&mut ctx.sql, &branches);
    if branches.len() > 0 {
        ctx.args.push(val.to_owned());
    }
    assert(ctx@ =~~= old(ctx)@.followed_by(
        single_field(old(ctx).col.note_types@, field_name@, val@, old(ctx)@.args.len()),
    ));
}

/// The predicate for notes of a note type whose first field has the
/// checksum `csum` and equals `text`.
pub open spec fn dupes_with(note_type_id: i64, csum: int, text: Seq<char>) -> Fragment {
    Fragment {
        sql: "(n.mid = "@ + int_text(note_type_id as int) + " and n.csum = "@ + int_text(csum)
            + " and field_at_index(n.flds, 0) = ?)"@,
        args: seq![text],
    }
}

/// The predicate for the duplicates of a first field: the notes of the note
/// type whose first field has the checksum of `text` without its markup, and
/// equals `text`.
pub open spec fn dupes(note_type_id: i64, text: Seq<char>) -> Fragment {
    dupes_with(note_type_id, checksum_of(strip_markup(text)), text)
}

/// Writes `dupes_with`, for a checksum that the caller has computed.
pub fn write_dupes_with(ctx: &mut SearchContext, ntid: i64, csum: u32, text: &str)
    ensures
        final(ctx).col == old(ctx).col,
        final(ctx)@ == old(ctx)@.followed_by(dupes_with(ntid, csum as int, text@)),
{
    ctx.sql.append("(n.mid = ");
    push_int(&mut ctx.sql, ntid as i128);
    ctx.sql.append(" and n.csum = ");
    push_int(&mut ctx.sql, csum as i128);
    ctx.sql.append(" and field_at_index(n.flds, 0) = ?)");
    ctx.args.push(text.to_owned());
    assert(ctx@ =~~= old(ctx)@.followed_by(dupes_with(ntid, csum as int, text@)));
}

/// Writes `dupes(ntid, text)`.
pub fn write_dupes(ctx: &mut SearchContext, ntid: i64, text: &str)
    ensures
        final(ctx).col == old(ctx).col,
        final(ctx)@ == old(ctx)@.followed_by(dupes(ntid, text@)),
{
    let text_nohtml = strip_html_preserving_image_filenames(text);
    let csum = field_checksum(text_nohtml.as_str());
    write_dupes_with(ctx, ntid, csum, text);
}

/// Whether a leaf cannot be written against `col`.
pub open spec fn search_node_fails(col: Collection, node: SearchNode) -> bool {
    node matches SearchNode::Deck(deck) && deck_fails(col, deck@)
}

/// The predicate for a leaf that can be written, where `bound` values have
/// been bound already.
pub open spec fn search_node(col: Collection, node: SearchNode, bound: nat) -> Fragment {
    match node {
        SearchNode::UnqualifiedText(text) => unqualified(text@),
        SearchNode::SingleField { field, text } => single_field(
            col.note_types@,
            field@,
            text@,
            bound,
        ),
        SearchNode::AddedInDays(days) => Fragment::text("c.id > "@ + int_text(days as int)),
        SearchNode::CardTemplate(kind) => template(col.note_types@, kind),
        SearchNode::Deck(pattern) => deck(col, pattern@),
        SearchNode::NoteTypeID(ntid) => Fragment::text("n.mid = "@ + int_text(ntid as int)),
        SearchNode::NoteType(pattern) => note_type(col.note_types@, pattern@),
        SearchNode::Rated { days, ease } => rated(col.timing, days, ease),
        SearchNode::Tag(text) => tag(text@),
        SearchNode::Duplicates { note_type_id, text } => dupes(note_type_id, text@),
        SearchNode::State(kind) => state(col.timing, kind),
        SearchNode::Flag(flag) => Fragment::text("(c.flags & 7) == "@ + int_text(flag as int)),
        SearchNode::NoteIDs(nids) => Fragment::text("n.id in ("@ + nids@ + ")"@),
        SearchNode::CardIDs(cids) => Fragment::text("c.id in ("@ + cids@ + ")"@),
        SearchNode::Property { operator, kind } => prop(col.timing, operator@, kind),
    }
}

/// Writes the predicate for a leaf, or fails where `search_node_fails` holds
/// and then writes nothing.
pub fn write_search_node_to_sql(ctx: &mut SearchContext, node: &SearchNode) -> (done: Result<
    (),
    SearchError,
>)
    ensures
        final(ctx).col == old(ctx).col,
        done is Err <==> search_node_fails(*old(ctx).col, *node),
        done matches Err(error) ==> is_invalid_current_deck(error) && final(ctx)@ == old(ctx)@,
        done is Ok ==> final(ctx)@ == old(ctx)@.followed_by(
            search_node(*old(ctx).col, *node, old(ctx)@.args.len()),
        ),
{
    match node {
        SearchNode::UnqualifiedText(text) => write_unqualified(ctx, text.as_str()),
        SearchNode::SingleField { field, text } => write_single_field(
            ctx,
            field.as_str(),
            text.as_str(),
        ),
        SearchNode::AddedInDays(days) => {
            ctx.sql.append("c.id > ");
            push_int(&mut ctx.sql, *days as i128);
        },
        SearchNode::CardTemplate(template) => write_template(ctx, template),
        SearchNode::Deck(deck) => {
            return write_deck(ctx, deck.as_str());
        },
        SearchNode::NoteTypeID(ntid) => {
            ctx.sql.append("n.mid = ");
            push_int(&mut ctx.sql, *ntid as i128);
        },
        SearchNode::NoteType(notetype) => write_note_type(ctx, notetype.as_str()),
        SearchNode::Rated { days, ease } => write_rated(ctx, *days, *ease),
        SearchNode::Tag(tag) => write_tag(ctx, tag.as_str()),
        SearchNode::Duplicates { note_type_id, text } => write_dupes(
            ctx,
            *note_type_id,
            text.as_str(),
        ),
        SearchNode::State(state) => write_state(ctx, state),
        SearchNode::Flag(flag) => {
            ctx.sql.append("(c.flags & 7) == ");
            push_int(&mut ctx.sql, *flag as i128);
        },
        SearchNode::NoteIDs(nids) => {
            ctx.sql.append("n.id in (");
            ctx.sql.append(nids.as_str());
            ctx.sql.append(")");
        },
        SearchNode::CardIDs(cids) => {
            ctx.sql.append("c.id in (");
            ctx.sql.append(cids.as_str());
            ctx.sql.append(")");
        },
        SearchNode::Property { operator, kind } => write_prop(ctx, operator.as_str(), kind),
    }
    assert(ctx@ =~~= old(ctx)@.followed_by(
        search_node(*old(ctx).col, *node, old(ctx)@.args.len()),
    ));
    Ok(())
}

/// Whether a node cannot be written against `col`: one of its leaves
/// cannot.
pub open spec fn node_fails(col: Collection, node: Node) -> bool
    decreases node,
{
    match node {
        Node::And => false,
        Node::Or => false,
        Node::Not(inner) => node_fails(col, *inner),
        Node::Group(nodes) => nodes_fail(col, nodes@),
        Node::Search(leaf) => search_node_fails(col, leaf),
    }
}

/// Whether one of the nodes cannot be written against `col`.
pub open spec fn nodes_fail(col: Collection, nodes: Seq<Node>) -> bool
    decreases nodes,
{
    nodes.len() > 0 && (nodes_fail(col, nodes.drop_last()) || node_fails(col, nodes.last()))
}

/// The predicate for a node that can be written, where `bound` values have
/// been bound already.
///
/// A connector is its word between two spaces. A negation is `not` before
/// its operand, with no brackets of its own. A group is its nodes, one after
/// the other, between two brackets.
pub open spec fn node_fragment(col: Collection, node: Node, bound: nat) -> Fragment
    decreases node,
{
    match node {
        Node::And => Fragment::text(" and "@),
        Node::Or => Fragment::text(" or "@),
        Node::Not(inner) => Fragment::text("not "@).followed_by(node_fragment(col, *inner, bound)),
        Node::Group(nodes) => Fragment::text("("@).followed_by(
            nodes_fragment(col, nodes@, bound),
        ).followed_by(Fragment::text(")"@)),
        Node::Search(leaf) => search_node(col, leaf, bound),
    }
}

/// The predicates for a list of nodes, one after the other. Each node is
/// written where the values of the nodes before it have been bound.
pub open spec fn nodes_fragment(col: Collection, nodes: Seq<Node>, bound: nat) -> Fragment
    decreases nodes,
{
    if nodes.len() == 0 {
        Fragment::text(Seq::empty())
    } else {
        let before = nodes_fragment(col, nodes.drop_last(), bound);
        before.followed_by(node_fragment(col, nodes.last(), bound + before.args.len()))
    }
}

/// What has been written of a node that cannot be written when its
/// writing ends: all that comes before the first leaf that fails.
pub open spec fn node_started(col: Collection, node: Node, bound: nat) -> Fragment
    decreases node,
{
    match node {
        Node::Not(inner) => Fragment::text("not "@).followed_by(node_started(col, *inner, bound)),
        Node::Group(nodes) => Fragment::text("("@).followed_by(
            nodes_started(col, nodes@, bound),
        ),
        _ => Fragment::text(Seq::empty()),
    }
}

/// What has been written of a list of nodes one of which cannot be written:
/// the nodes before the first that fails, and what has been written of
/// that one.
pub open spec fn nodes_started(col: Collection, nodes: Seq<Node>, bound: nat) -> Fragment
    decreases nodes,
{
    if nodes.len() == 0 {
        Fragment::text(Seq::empty())
    } else if nodes_fail(col, nodes.drop_last()) {
        nodes_started(col, nodes.drop_last(), bound)
    } else {
        let before = nodes_fragment(col, nodes.drop_last(), bound);
        before.followed_by(node_started(col, nodes.last(), bound + before.args.len()))
    }
}

/// A failure among the first `upto` nodes is a failure among all, and what
/// has been written when it is met is the same.
proof fn lemma_failure_extends(col: Collection, nodes: Seq<Node>, upto: int, bound: nat)
    requires
        0 <= upto <= nodes.len(),
        nodes_fail(col, nodes.take(upto)),
    ensures
        nodes_fail(col, nodes),
        nodes_started(col, nodes, bound) == nodes_started(col, nodes.take(upto), bound),
    decreases nodes.len() - upto,
{
    if upto < nodes.len() {
        assert(nodes.take(upto + 1).drop_last() == nodes.take(upto));
        lemma_failure_extends(col, nodes, upto + 1, bound);
    } else {
        assert(nodes.take(upto) == nodes);
    }
}

/// Writes the predicate for a node, or fails where `node_fails` holds. A
/// failure ends the writing at the leaf that fails: the context then holds
/// the part of the predicate that comes before that leaf.
pub fn write_node_to_sql(ctx: &mut SearchContext, node: &Node) -> (done: Result<(), SearchError>)
    ensures
        final(ctx).col == old(ctx).col,
        done is Err <==> node_fails(*old(ctx).col, *node),
        done matches Err(error) ==> is_invalid_current_deck(error),
        done is Ok ==> final(ctx)@ == old(ctx)@.followed_by(
            node_fragment(*old(ctx).col, *node, old(ctx)@.args.len()),
        ),
        done is Err ==> final(ctx)@ == old(ctx)@.followed_by(
            node_started(*old(ctx).col, *node, old(ctx)@.args.len()),
        ),
    decreases node,
{
    let ghost col = *old(ctx).col;
    let ghost bound = old(ctx)@.args.len();
    match node {
        Node::And => {
            ctx.sql.append(" and ");
        },
        Node::Or => {
            ctx.sql.append(" or ");
        },
        Node::Not(inner) => {
            ctx.sql.append("not ");
            assert(ctx@ =~~= old(ctx)@.followed_by(Fragment::text("not "@)));
            match write_node_to_sql(ctx, inner) {
                Ok(()) => {},
                Err(error) => {
                    assert(ctx@ =~~= old(ctx)@.followed_by(node_started(col, *node, bound)));
                    return Err(error);
                },
            }
        },
        Node::Group(nodes) => {
            ctx.sql.append("(");
            let mut i: usize = 0;
            assert(nodes@.take(0) =~= Seq::<Node>::empty());
            assert(ctx@ =~~= old(ctx)@.followed_by(Fragment::text("("@)).followed_by(
                nodes_fragment(col, nodes@.take(0), bound),
            ));
            while i < nodes.len()
                invariant
                    i <= nodes.len(),
                    *node == Node::Group(*nodes),
                    ctx.col == old(ctx).col,
                    col == *old(ctx).col,
                    bound == old(ctx)@.args.len(),
                    !nodes_fail(col, nodes@.take(i as int)),
                    ctx@ == old(ctx)@.followed_by(Fragment::text("("@)).followed_by(
                        nodes_fragment(col, nodes@.take(i as int), bound),
                    ),
                decreases nodes.len() - i,
            {
                assert(nodes@.take(i + 1).drop_last() == nodes@.take(i as int));
                assert(nodes@.take(i + 1).last() == nodes@[i as int]);
                proof {
                    // the call is on a smaller tree: a node of this group
                    vstd::std_specs::vec::axiom_vec_index_decreases(*nodes, i as int);
                    assert(decreases_to!(*node => node->Group_0));
                }
                match write_node_to_sql(ctx, &nodes[i]) {
                    Ok(()) => {},
                    Err(error) => {
                        proof {
                            lemma_failure_extends(col, nodes@, i + 1, bound);
                        }
                        assert(ctx@ =~~= old(ctx)@.followed_by(node_started(col, *node, bound)));
                        return Err(error);
                    },
                }
                assert(ctx@ =~~= old(ctx)@.followed_by(Fragment::text("("@)).followed_by(
                    nodes_fragment(col, nodes@.take(i + 1), bound),
                ));
                i += 1;
            }
            assert(nodes@.take(i as int) == nodes@);
            ctx.sql.append(")");
        },
        Node::Search(search) => {
            let done = write_search_node_to_sql(ctx, search);
            if done.is_err() {
                assert(ctx@ =~~= old(ctx)@.followed_by(node_started(col, *node, bound)));
            }
            return done;
        },
    }
    assert(ctx@ =~~= old(ctx)@.followed_by(node_fragment(col, *node, bound)));
    Ok(())
}

/// Compiles a search expression against a snapshot of the collection: the
/// text of the predicate, and the values to bind to its placeholders in the
/// form in which the storage engine takes them.
///
/// Fails where the expression asks for the current deck and the snapshot
/// holds no deck with the current deck's id.
///
/// The engine finds as many placeholders in the text as there are values,
/// numbered in the order of the values, unless a list of ids or an operator
/// that the expression hands over as text brings a `?` of its own.
pub fn node_to_sql(col: &Collection, node: &Node) -> (compiled: Result<
    (String, Vec<ToSqlOutput<'static>>),
    SearchError,
>)
    ensures
        compiled is Err <==> node_fails(*col, *node),
        compiled matches Err(error) ==> is_invalid_current_deck(error),
        compiled matches Ok(query) ==> {
            &&& query.0@ == node_fragment(*col, *node, 0).sql
            &&& query.1@ == text_params(node_fragment(*col, *node, 0).args)
            &&& node_is_clean(*node) ==> params_after(query.0@, 0) == Some(query.1@.len())
        },
{
    let mut sctx = SearchContext::new(col);
    match write_node_to_sql(&mut sctx, node) {
        Ok(()) => {
            assert(sctx@ =~~= node_fragment(*col, *node, 0));
            proof {
                if node_is_clean(*node) {
                    law_placeholders_count_values(*col, *node, 0);
                }
            }
            Ok((sctx.sql, bind_args(sctx.args)))
        },
        Err(error) => Err(error),
    }
}

} // verus!
