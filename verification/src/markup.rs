//! Stripping markup from field text.
//!
//! A tag runs from a `<` to the next `>`. Tags are dropped, with one
//! exception: an image tag leaves the name of its file behind, set off by
//! spaces, so that two notes that show different images differ as text too.
//! A `<` that no `>` follows is ordinary text.

use vstd::prelude::*;
use crate::text::{ascii_fold, chars_of, fold_char};

verus! {

/// The position of the first `>` at or after `from`, or the length of `s`
/// where there is none.
pub open spec fn tag_end(s: Seq<char>, from: int) -> int
    decreases s.len() - from,
{
    if from >= s.len() {
        s.len() as int
    } else if s[from] == '>' {
        from
    } else {
        tag_end(s, from + 1)
    }
}

/// Whether the inside of a tag starts with `img`, in either case.
pub open spec fn is_image_tag(tag: Seq<char>) -> bool {
    &&& tag.len() >= 3
    &&& ascii_fold(tag[0]) == 'i' as int
    &&& ascii_fold(tag[1]) == 'm' as int
    &&& ascii_fold(tag[2]) == 'g' as int
}

/// Whether `src=` stands at position `at` of a tag, `src` in either case.
pub open spec fn is_src_at(tag: Seq<char>, at: int) -> bool {
    &&& 0 <= at
    &&& at + 4 <= tag.len()
    &&& ascii_fold(tag[at]) == 's' as int
    &&& ascii_fold(tag[at + 1]) == 'r' as int
    &&& ascii_fold(tag[at + 2]) == 'c' as int
    &&& tag[at + 3] == '='
}

/// The first position at or after `from` where `src=` stands, or the length
/// of the tag where it stands nowhere.
pub open spec fn src_position(tag: Seq<char>, from: int) -> int
    decreases tag.len() - from,
{
    if from + 4 > tag.len() {
        tag.len() as int
    } else if is_src_at(tag, from) {
        from
    } else {
        src_position(tag, from + 1)
    }
}

/// Whether `c` is a single or a double quote.
pub open spec fn is_quote(c: char) -> bool {
    c == '"' || c == '\''
}

/// The position of the first quote at or after `from`, or the length of the
/// tag where there is none.
pub open spec fn name_end(tag: Seq<char>, from: int) -> int
    decreases tag.len() - from,
{
    if from >= tag.len() {
        tag.len() as int
    } else if is_quote(tag[from]) {
        from
    } else {
        name_end(tag, from + 1)
    }
}

/// What a tag leaves behind, given its inside. An image tag with a `src`
/// attribute after the first four characters leaves the attribute's value
/// between two spaces: what follows `src=` and one optional quote, up to the
/// next quote or the end of the tag. An empty value and every other tag leave
/// nothing.
pub open spec fn media_name(tag: Seq<char>) -> Seq<char> {
    if !is_image_tag(tag) {
        Seq::empty()
    } else {
        let at = src_position(tag, 4);
        if at >= tag.len() {
            Seq::empty()
        } else {
            let start = if at + 4 < tag.len() && is_quote(tag[at + 4]) {
                at + 5
            } else {
                at + 4
            };
            let end = name_end(tag, start);
            if end <= start {
                Seq::empty()
            } else {
                seq![' '] + tag.subrange(start, end) + seq![' ']
            }
        }
    }
}

/// The text from position `from` on, without its markup.
pub open spec fn strip_from(s: Seq<char>, from: int) -> Seq<char>
    decreases s.len() - from,
{
    if from < 0 || from >= s.len() {
        Seq::empty()
    } else if s[from] != '<' {
        seq![s[from]] + strip_from(s, from + 1)
    } else {
        let close = tag_end(s, from + 1);
        proof {
            lemma_tag_end_bounds(s, from + 1);
        }
        if close >= s.len() {
            s.skip(from)
        } else {
            media_name(s.subrange(from + 1, close)) + strip_from(s, close + 1)
        }
    }
}

/// A text without its markup, the names of image files kept.
pub open spec fn strip_markup(s: Seq<char>) -> Seq<char> {
    strip_from(s, 0)
}

/// A tag ends no earlier than where the search for its end starts.
pub proof fn lemma_tag_end_bounds(s: Seq<char>, from: int)
    requires
        0 <= from <= s.len(),
    ensures
        from <= tag_end(s, from) <= s.len(),
    decreases s.len() - from,
{
    if from < s.len() && s[from] != '>' {
        lemma_tag_end_bounds(s, from + 1);
    }
}

fn find_tag_end(s: &Vec<char>, from: usize) -> (end: usize)
    requires
        from <= s.len(),
    ensures
        end == tag_end(s@, from as int),
        from <= end <= s.len(),
{
    let mut i: usize = from;
    while i < s.len() && s[i] != '>'
        invariant
            from <= i <= s.len(),
            tag_end(s@, i as int) == tag_end(s@, from as int),
        decreases s.len() - i,
    {
        i += 1;
    }
    i
}

fn find_src(tag: &Vec<char>, from: usize) -> (at: usize)
    requires
        from <= tag.len(),
    ensures
        at == src_position(tag@, from as int),
        from <= at <= tag.len(),
        at < tag.len() ==> at + 4 <= tag.len(),
{
    let n = tag.len();
    let mut i: usize = from;
    while n - i >= 4
        invariant
            from <= i <= n,
            n == tag.len(),
            src_position(tag@, i as int) == src_position(tag@, from as int),
        decreases n - i,
    {
        if fold_char(tag[i]) == 's' as u32 && fold_char(tag[i + 1]) == 'r' as u32 && fold_char(
            tag[i + 2],
        ) == 'c' as u32 && tag[i + 3] == '=' {
            return i;
        }
        i += 1;
    }
    n
}

fn quote(c: char) -> (yes: bool)
    ensures
        yes == is_quote(c),
{
    c == '"' || c == '\''
}

fn find_name_end(tag: &Vec<char>, from: usize) -> (end: usize)
    requires
        from <= tag.len(),
    ensures
        end == name_end(tag@, from as int),
        from <= end <= tag.len(),
{
    let mut i: usize = from;
    while i < tag.len() && !quote(tag[i])
        invariant
            from <= i <= tag.len(),
            name_end(tag@, i as int) == name_end(tag@, from as int),
        decreases tag.len() - i,
    {
        i += 1;
    }
    i
}

/// Appends the characters of `s` from `lo` up to `hi` to `out`.
fn push_range(out: &mut String, s: &Vec<char>, lo: usize, hi: usize)
    requires
        lo <= hi <= s.len(),
    ensures
        final(out)@ == old(out)@ + s@.subrange(lo as int, hi as int),
{
    let mut i: usize = lo;
    while i < hi
        invariant
            lo <= i <= hi <= s.len(),
            out@ == old(out)@ + s@.subrange(lo as int, i as int),
        decreases hi - i,
    {
        out.push(s[i]);
        assert(s@.subrange(lo as int, i + 1) == s@.subrange(lo as int, i as int).push(
            s@[i as int],
        ));
        i += 1;
    }
}

/// Appends what the tag with the given inside leaves behind.
fn push_media_name(out: &mut String, tag: &Vec<char>)
    ensures
        final(out)@ == old(out)@ + media_name(tag@),
{
    let n = tag.len();
    if n < 3 || fold_char(tag[0]) != 'i' as u32 || fold_char(tag[1]) != 'm' as u32 || fold_char(
        tag[2],
    ) != 'g' as u32 {
        return ;
    }
    if n < 4 {
        return ;
    }
    let at = find_src(tag, 4);
    if at >= n {
        return ;
    }
    let start: usize = if n - at > 4 && quote(tag[at + 4]) {
        at + 5
    } else {
        at + 4
    };
    let end = find_name_end(tag, start);
    if end > start {
        out.push(' ');
        push_range(out, tag, start, end);
        out.push(' ');
    }
}

/// Strips the markup from `text`: `strip_markup` of its characters.
pub fn strip_html_preserving_image_filenames(text: &str) -> (plain: String)
    ensures
        plain@ == strip_markup(text@),
{
    let s = chars_of(text);
    let n = s.len();
    let mut out = String::new();
    let mut i: usize = 0;
    while i < n
        invariant
            i <= n,
            n == s.len(),
            out@ + strip_from(s@, i as int) == strip_from(s@, 0),
        decreases n - i,
    {
        if s[i] != '<' {
            out.push(s[i]);
            i += 1;
        } else {
            let close = find_tag_end(&s, i + 1);
            if close >= n {
                push_range(&mut out, &s, i, n);
                assert(s@.subrange(i as int, n as int) == s@.skip(i as int));
                i = n;
            } else {
                let mut tag: Vec<char> = Vec::new();
                let mut k: usize = i + 1;
                while k < close
                    invariant
                        i + 1 <= k <= close < n,
                        n == s.len(),
                        tag@ == s@.subrange(i + 1, k as int),
                    decreases close - k,
                {
                    tag.push(s[k]);
                    assert(s@.subrange(i + 1, k + 1) == s@.subrange(i + 1, k as int).push(
                        s@[k as int],
                    ));
                    k += 1;
                }
                push_media_name(&mut out, &tag);
                i = close + 1;
            }
        }
    }
    assert(out@ + Seq::<char>::empty() == out@);
    out
}

} // verus!
