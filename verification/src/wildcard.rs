//! Matching a name against a pattern in which `*` stands for any run of
//! characters. Letters are compared without regard to ASCII case.

use vstd::prelude::*;
use crate::text::{ascii_fold, chars_of, fold_char};

verus! {

/// Whether `text` matches `pattern`. A `*` in the pattern matches any run of
/// characters, the empty one included; any other character matches one
/// character of the text that is equal to it up to ASCII case.
pub open spec fn wildcard_matches(text: Seq<char>, pattern: Seq<char>) -> bool
    decreases pattern.len(), text.len(),
{
    if pattern.len() == 0 {
        text.len() == 0
    } else if pattern[0] == '*' {
        wildcard_matches(text, pattern.skip(1)) || (text.len() > 0 && wildcard_matches(
            text.skip(1),
            pattern,
        ))
    } else {
        text.len() > 0 && ascii_fold(text[0]) == ascii_fold(pattern[0]) && wildcard_matches(
            text.skip(1),
            pattern.skip(1),
        )
    }
}

/// One step of `wildcard_matches`, for the rest of the text from `i` and the
/// rest of the pattern from `j`.
proof fn lemma_step(text: Seq<char>, pattern: Seq<char>, i: int, j: int)
    requires
        0 <= i <= text.len(),
        0 <= j < pattern.len(),
    ensures
        pattern[j] == '*' ==> (wildcard_matches(text.skip(i), pattern.skip(j)) <==> (
        wildcard_matches(text.skip(i), pattern.skip(j + 1)) || (i < text.len()
            && wildcard_matches(text.skip(i + 1), pattern.skip(j))))),
        pattern[j] != '*' ==> (wildcard_matches(text.skip(i), pattern.skip(j)) <==> (i
            < text.len() && ascii_fold(text[i]) == ascii_fold(pattern[j]) && wildcard_matches(
            text.skip(i + 1),
            pattern.skip(j + 1),
        ))),
{
    assert(pattern.skip(j).skip(1) == pattern.skip(j + 1));
    if i < text.len() {
        assert(text.skip(i).skip(1) == text.skip(i + 1));
    }
}

/// Decides `wildcard_matches` in time proportional to the product of the two
/// lengths: one row of answers per pattern position, filled from the end.
pub fn matches_wildcard(text: &str, pattern: &str) -> (matched: bool)
    ensures
        matched == wildcard_matches(text@, pattern@),
{
    let t = chars_of(text);
    let p = chars_of(pattern);
    let n = t.len();
    let m = p.len();
    // below[i] tells whether the text from i on matches the pattern from
    // j + 1 on; at the start, whether it matches the empty pattern
    let mut below: Vec<bool> = Vec::new();
    let mut i: usize = 0;
    while i < n
        invariant
            i <= n,
            n == t.len(),
            m == p.len(),
            below.len() == i,
            forall|k: int|
                0 <= k < i ==> #[trigger] below@[k] == wildcard_matches(
                    t@.skip(k),
                    p@.skip(m as int),
                ),
        decreases n - i,
    {
        below.push(false);
        i += 1;
    }
    below.push(true);
    let mut j: usize = m;
    while j > 0
        invariant
            j <= m,
            n == t.len(),
            m == p.len(),
            below.len() == n + 1,
            forall|k: int|
                0 <= k <= n ==> #[trigger] below@[k] == wildcard_matches(
                    t@.skip(k),
                    p@.skip(j as int),
                ),
        decreases j,
    {
        j -= 1;
        let star = p[j] == '*';
        let want = fold_char(p[j]);
        // row[i] tells the same for the pattern from j on; it starts as a
        // copy for its length and is filled from the end of the text
        let mut row: Vec<bool> = below.clone();
        proof {
            lemma_step(t@, p@, n as int, j as int);
        }
        row.set(n, star && below[n]);
        let mut i: usize = n;
        while i > 0
            invariant
                i <= n,
                j < m,
                n == t.len(),
                m == p.len(),
                star == (p@[j as int] == '*'),
                want == ascii_fold(p@[j as int]),
                below.len() == n + 1,
                row.len() == n + 1,
                forall|k: int|
                    0 <= k <= n ==> #[trigger] below@[k] == wildcard_matches(
                        t@.skip(k),
                        p@.skip(j + 1),
                    ),
                forall|k: int|
                    i <= k <= n ==> #[trigger] row@[k] == wildcard_matches(
                        t@.skip(k),
                        p@.skip(j as int),
                    ),
            decreases i,
        {
            i -= 1;
            proof {
                lemma_step(t@, p@, i as int, j as int);
            }
            let here = if star {
                below[i] || row[i + 1]
            } else {
                fold_char(t[i]) == want && below[i + 1]
            };
            row.set(i, here);
        }
        below = row;
    }
    assert(t@.skip(0) == t@);
    assert(p@.skip(0) == p@);
    below[0]
}

} // verus!
