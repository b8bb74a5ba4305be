//! Editing the slide deck from the command line: `--replace-slide N:path`
//! puts another image in place of slide `N`, `--remove-slide N` leaves
//! slide `N` out. Slides are numbered from 1 in the deck as resolved;
//! when a slide is replaced more than once, the last replacement wins.

use vstd::prelude::*;
use crate::pipeline::digits_value;
use crate::text::{chars_of, decimal, push_decimal, push_str, string_of, views};

verus! {

/// A `--replace-slide` argument: the 1-based slide number and the image
/// (or PDF, of which the first page is used) that replaces it.
#[derive(Debug)]
pub struct SlideReplacement {
    pub index: usize,
    pub path: String,
}

/// Why the deck edits cannot be applied.
#[derive(Debug, Clone, Copy, PartialEq, Eq, Structural)]
pub enum EditError {
    /// A `--replace-slide` argument is not `N:path` with `N` ≥ 1.
    BadReplacement,
    /// A slide number is 0 or beyond the last slide.
    SlideOutOfRange(usize),
}

impl EditError {
    /// The message shown for this error.
    pub fn message(self) -> (m: String)
        ensures
            m@ == match self {
                EditError::BadReplacement => "--replace-slide expects N:path with N >= 1"@,
                EditError::SlideOutOfRange(i) => "no slide "@ + decimal(i as nat) + " in the deck"@,
            },
    {
        match self {
            EditError::BadReplacement => {
                let cs = chars_of("--replace-slide expects N:path with N >= 1");
                string_of(&cs)
            },
            EditError::SlideOutOfRange(i) => {
                let mut out: Vec<char> = Vec::new();
                push_str(&mut out, "no slide ");
                push_decimal(&mut out, i as u128);
                push_str(&mut out, " in the deck");
                assert(out@ =~= "no slide "@ + decimal(i as nat) + " in the deck"@);
                string_of(&out)
            },
        }
    }
}

// ─── Parsing `N:path` ────────────────────────────────────────────────

/// The index of the first `:` of `s`, if any.
pub open spec fn first_colon(s: Seq<char>) -> Option<int>
    decreases s.len(),
{
    if s.len() == 0 {
        None
    } else if s[0] == ':' {
        Some(0)
    } else {
        match first_colon(s.drop_first()) {
            Some(k) => Some(k + 1),
            None => None,
        }
    }
}

pub open spec fn is_digit(c: char) -> bool {
    '0' <= c && c <= '9'
}

pub open spec fn all_digits(s: Seq<char>) -> bool {
    forall|k: int| 0 <= k < s.len() ==> is_digit(#[trigger] s[k])
}

/// The slide number and path written `N:path`: `N` is one or more
/// decimal digits with a value of at least 1, and `path` (everything
/// after the first `:`) is not empty.
pub open spec fn replacement_of(s: Seq<char>) -> Option<(int, Seq<char>)> {
    match first_colon(s) {
        None => None,
        Some(k) => {
            let num = s.take(k);
            let path = s.skip(k + 1);
            if num.len() > 0 && all_digits(num) && path.len() > 0 && digits_value(num) >= 1 {
                Some((digits_value(num), path))
            } else {
                None
            }
        },
    }
}

proof fn lemma_first_colon(s: Seq<char>)
    ensures
        first_colon(s) matches Some(k) ==> 0 <= k < s.len() && s[k] == ':' && forall|j: int|
            0 <= j < k ==> s[j] != ':',
        first_colon(s) is None ==> forall|j: int| 0 <= j < s.len() ==> s[j] != ':',
    decreases s.len(),
{
    if s.len() > 0 && s[0] != ':' {
        lemma_first_colon(s.drop_first());
        assert forall|j: int| 1 <= j < s.len() implies s[j] == s.drop_first()[j - 1] by {}
    }
}

proof fn lemma_digits_value_nonneg(s: Seq<char>)
    requires
        all_digits(s),
    ensures
        digits_value(s) >= 0,
    decreases s.len(),
{
    if s.len() > 0 {
        lemma_digits_value_nonneg(s.drop_last());
    }
}

/// Reads a `--replace-slide` argument.
pub fn parse_replacement(arg: &str) -> (r: Result<SlideReplacement, EditError>)
    ensures
        match r {
            Ok(rep) => replacement_of(arg@) == Some((rep.index as int, rep.path@)),
            Err(e) => e == EditError::BadReplacement && match replacement_of(arg@) {
                Some((v, _)) => v > usize::MAX,
                None => true,
            },
        },
{
    let s = chars_of(arg);
    let n = s.len();
    let mut k: usize = 0;
    while k < n && s[k] != ':'
        invariant
            n == s@.len(),
            k <= n,
            forall|j: int| 0 <= j < k ==> s@[j] != ':',
        decreases n - k,
    {
        k = k + 1;
    }
    proof {
        lemma_first_colon(s@);
        if k < n {
            assert(first_colon(s@) == Some(k as int));
        } else {
            assert(first_colon(s@) is None);
        }
    }
    if k == n || k == 0 || k + 1 == n {
        return Err(EditError::BadReplacement);
    }
    let mut value: usize = 0;
    let mut i: usize = 0;
    while i < k
        invariant
            k < n == s@.len(),
            s@ == arg@,
            first_colon(s@) == Some(k as int),
            i <= k,
            all_digits(s@.take(i as int)),
            value == digits_value(s@.take(i as int)),
        decreases k - i,
    {
        let c = s[i];
        assert(s@.take(i + 1).drop_last() =~= s@.take(i as int));
        if !('0' <= c && c <= '9') {
            assert(!all_digits(s@.take(k as int))) by {
                assert(s@.take(k as int)[i as int] == c);
            }
            return Err(EditError::BadReplacement);
        }
        let d: usize = (c as u8 - 48u8) as usize;
        proof {
            lemma_digits_value_nonneg(s@.take(i as int));
        }
        if value > (usize::MAX - d) / 10 {
            // The number does not fit; every later digit only makes it larger.
            proof {
                if all_digits(s@.take(k as int)) {
                    lemma_prefix_value_grows(s@.take(k as int), i + 1);
                    assert(s@.take(k as int).take(i + 1) =~= s@.take(i + 1));
                    assert(s@.take(i + 1).drop_last() =~= s@.take(i as int));
                    assert(s@.take(i + 1).last() == c);
                }
            }
            return Err(EditError::BadReplacement);
        }
        value = value * 10 + d;
        i = i + 1;
        assert(all_digits(s@.take(i as int)));
    }
    if value == 0 {
        return Err(EditError::BadReplacement);
    }
    let mut path: Vec<char> = Vec::new();
    let mut j: usize = k + 1;
    while j < n
        invariant
            k < n == s@.len(),
            k + 1 <= j <= n,
            path@ == s@.subrange(k + 1, j as int),
        decreases n - j,
    {
        path.push(s[j]);
        j = j + 1;
        assert(path@ =~= s@.subrange(k + 1, j as int));
    }
    assert(path@ =~= s@.skip(k + 1));
    Ok(SlideReplacement { index: value, path: string_of(&path) })
}

/// A longer all-digit prefix never has a smaller value.
proof fn lemma_prefix_value_grows(s: Seq<char>, m: int)
    requires
        all_digits(s),
        0 <= m <= s.len(),
    ensures
        digits_value(s.take(m)) <= digits_value(s),
    decreases s.len() - m,
{
    if m < s.len() {
        lemma_prefix_value_grows(s, m + 1);
        assert(s.take(m + 1).drop_last() =~= s.take(m));
        lemma_digits_value_nonneg(s.take(m));
        assert(all_digits(s.take(m + 1)));
        assert(s.take(m + 1).last() == s[m]);
    } else {
        assert(s.take(m) =~= s);
    }
}

// ─── Applying the edits ──────────────────────────────────────────────

/// The path that replaces slide `slide` (1-based): the last replacement
/// naming it, if any.
pub open spec fn replacement_for(reps: Seq<SlideReplacement>, slide: int) -> Option<Seq<char>>
    decreases reps.len(),
{
    if reps.len() == 0 {
        None
    } else if reps.last().index == slide {
        Some(reps.last().path@)
    } else {
        replacement_for(reps.drop_last(), slide)
    }
}

/// Slide `k` (0-based) after replacement.
pub open spec fn edited_slide(slides: Seq<Seq<char>>, reps: Seq<SlideReplacement>, k: int) -> Seq<char> {
    match replacement_for(reps, k + 1) {
        Some(p) => p,
        None => slides[k],
    }
}

/// The first `m` slides after the edits: each replaced as asked, those
/// whose number is removed left out, the others in order.
pub open spec fn edited_upto(
    slides: Seq<Seq<char>>,
    reps: Seq<SlideReplacement>,
    removals: Seq<usize>,
    m: int,
) -> Seq<Seq<char>>
    decreases m,
{
    if m <= 0 {
        Seq::empty()
    } else if removals.contains(m as usize) {
        edited_upto(slides, reps, removals, m - 1)
    } else {
        edited_upto(slides, reps, removals, m - 1).push(edited_slide(slides, reps, m - 1))
    }
}

/// The deck after the edits.
pub open spec fn edited_deck(
    slides: Seq<Seq<char>>,
    reps: Seq<SlideReplacement>,
    removals: Seq<usize>,
) -> Seq<Seq<char>> {
    edited_upto(slides, reps, removals, slides.len() as int)
}

/// Whether every slide number of the edits names a slide of a deck of `n`.
pub open spec fn edits_in_range(n: int, reps: Seq<SlideReplacement>, removals: Seq<usize>) -> bool {
    &&& forall|i: int| 0 <= i < reps.len() ==> 1 <= #[trigger] reps[i].index <= n
    &&& forall|i: int| 0 <= i < removals.len() ==> 1 <= #[trigger] removals[i] <= n
}

fn replaced_path(slides: &Vec<String>, reps: &Vec<SlideReplacement>, k: usize) -> (p: String)
    requires
        k < slides@.len(),
    ensures
        p@ == edited_slide(views(slides@), reps@, k as int),
{
    let n = slides.len();
    let target: usize = k + 1;
    let mut j: usize = reps.len();
    assert(reps@.take(j as int) =~= reps@);
    while j > 0
        invariant
            j <= reps@.len(),
            target == k + 1,
            replacement_for(reps@, k + 1) == replacement_for(reps@.take(j as int), k + 1),
        decreases j,
    {
        assert(reps@.take(j as int).drop_last() =~= reps@.take(j - 1));
        assert(reps@.take(j as int).last() == reps@[j - 1]);
        if reps[j - 1].index == target {
            let p = reps[j - 1].path.clone();
            return p;
        }
        j = j - 1;
    }
    let p = slides[k].clone();
    p
}

fn contains_index(removals: &Vec<usize>, x: usize) -> (r: bool)
    ensures
        r == removals@.contains(x),
{
    let mut i: usize = 0;
    while i < removals.len()
        invariant
            i <= removals@.len(),
            forall|j: int| 0 <= j < i ==> removals@[j] != x,
        decreases removals@.len() - i,
    {
        if removals[i] == x {
            assert(removals@[i as int] == x);
            return true;
        }
        i = i + 1;
    }
    false
}

/// Applies `--replace-slide` and `--remove-slide` to the resolved deck;
/// refused when a slide number is 0 or past the last slide.
pub fn apply_edits(
    slides: &Vec<String>,
    replacements: &Vec<SlideReplacement>,
    removals: &Vec<usize>,
) -> (r: Result<Vec<String>, EditError>)
    ensures
        r is Ok <==> edits_in_range(slides@.len() as int, replacements@, removals@),
        r matches Ok(v) ==> views(v@) == edited_deck(views(slides@), replacements@, removals@),
        r matches Err(e) ==> e matches EditError::SlideOutOfRange(i) && (i < 1 || i > slides@.len())
            && ((exists|j: int| 0 <= j < replacements@.len() && replacements@[j].index == i) || (
        exists|j: int| 0 <= j < removals@.len() && removals@[j] == i)),
{
    let n = slides.len();
    let mut i: usize = 0;
    while i < replacements.len()
        invariant
            i <= replacements@.len(),
            n == slides@.len(),
            forall|j: int| 0 <= j < i ==> 1 <= #[trigger] replacements@[j].index <= n,
        decreases replacements@.len() - i,
    {
        let x = replacements[i].index;
        if x < 1 || x > n {
            return Err(EditError::SlideOutOfRange(x));
        }
        i = i + 1;
    }
    let mut i: usize = 0;
    while i < removals.len()
        invariant
            i <= removals@.len(),
            n == slides@.len(),
            forall|j: int| 0 <= j < i ==> 1 <= #[trigger] removals@[j] <= n,
        decreases removals@.len() - i,
    {
        let x = removals[i];
        if x < 1 || x > n {
            return Err(EditError::SlideOutOfRange(x));
        }
        i = i + 1;
    }
    let mut out: Vec<String> = Vec::new();
    let mut k: usize = 0;
    while k < n
        invariant
            k <= n == slides@.len(),
            views(out@) == edited_upto(views(slides@), replacements@, removals@, k as int),
        decreases n - k,
    {
        let ghost before = views(out@);
        if !contains_index(removals, k + 1) {
            let p = replaced_path(slides, replacements, k);
            out.push(p);
            assert(views(out@) =~= before.push(p@));
        }
        k = k + 1;
    }
    Ok(out)
}

/// Removing one slide `r` and replacing none leaves the other slides in
/// their order: the deck of `n` slides becomes the deck of `n - 1`
/// without slide `r`.
pub proof fn lemma_remove_one(slides: Seq<Seq<char>>, r: usize)
    requires
        1 <= r <= slides.len() <= usize::MAX,
    ensures
        edited_deck(slides, Seq::empty(), seq![r]) == slides.remove(r - 1),
{
    lemma_remove_one_upto(slides, r, slides.len() as int);
    assert(slides.remove(r - 1) =~= slides.take(r - 1) + slides.skip(r as int));
}

proof fn lemma_remove_one_upto(slides: Seq<Seq<char>>, r: usize, m: int)
    requires
        1 <= r <= slides.len() <= usize::MAX,
        0 <= m <= slides.len(),
    ensures
        edited_upto(slides, Seq::empty(), seq![r], m) == if m < r {
            slides.take(m)
        } else {
            slides.take(r - 1) + slides.subrange(r as int, m)
        },
    decreases m,
{
    if m > 0 {
        lemma_remove_one_upto(slides, r, m - 1);
        assert(seq![r].contains(m as usize) <==> m == r) by {
            assert(seq![r][0] == r);
            if seq![r].contains(m as usize) {
                let i = choose|i: int| 0 <= i < seq![r].len() && seq![r][i] == m as usize;
                assert(i == 0);
            }
        }
        if m < r {
            assert(slides.take(m - 1).push(slides[m - 1]) =~= slides.take(m));
        } else if m == r {
            assert(slides.take(r - 1) + slides.subrange(r as int, m) =~= slides.take(r - 1));
        } else {
            assert((slides.take(r - 1) + slides.subrange(r as int, m - 1)).push(slides[m - 1])
                =~= slides.take(r - 1) + slides.subrange(r as int, m));
        }
    } else {
        assert(slides.take(0) =~= Seq::<Seq<char>>::empty());
    }
}

/// Replacing slides and removing none keeps the deck's length, and each
/// slide is its replacement, if it has one, or itself.
pub proof fn lemma_replace_only(slides: Seq<Seq<char>>, reps: Seq<SlideReplacement>, m: int)
    requires
        0 <= m <= slides.len(),
    ensures
        edited_upto(slides, reps, Seq::empty(), m).len() == m,
        forall|k: int|
            0 <= k < m ==> #[trigger] edited_upto(slides, reps, Seq::empty(), m)[k] == edited_slide(
                slides,
                reps,
                k,
            ),
    decreases m,
{
    if m > 0 {
        lemma_replace_only(slides, reps, m - 1);
    }
}

proof fn lemma_replacement_for_last(reps: Seq<SlideReplacement>, slide: int, j: int)
    requires
        0 <= j < reps.len(),
        reps[j].index == slide,
        forall|l: int| j < l < reps.len() ==> #[trigger] reps[l].index != slide,
    ensures
        replacement_for(reps, slide) == Some(reps[j].path@),
    decreases reps.len(),
{
    if j < reps.len() - 1 {
        assert(reps.last() == reps[reps.len() - 1]);
        assert(reps.last().index != slide);
        let d = reps.drop_last();
        assert(d[j] == reps[j]);
        assert forall|l: int| j < l < d.len() implies #[trigger] d[l].index != slide by {
            assert(d[l] == reps[l]);
        }
        lemma_replacement_for_last(d, slide, j);
    }
}

proof fn lemma_replacement_for_none(reps: Seq<SlideReplacement>, slide: int)
    requires
        forall|l: int| 0 <= l < reps.len() ==> #[trigger] reps[l].index != slide,
    ensures
        replacement_for(reps, slide) is None,
    decreases reps.len(),
{
    if reps.len() > 0 {
        assert(reps.last() == reps[reps.len() - 1]);
        let d = reps.drop_last();
        assert forall|l: int| 0 <= l < d.len() implies #[trigger] d[l].index != slide by {
            assert(d[l] == reps[l]);
        }
        lemma_replacement_for_none(d, slide);
    }
}

/// With `--replace-slide` repeated, every slide named is replaced, and
/// the last replacement naming a slide wins: when `reps[j]` names slide
/// `k + 1` and no later replacement does, slide `k` of the deck becomes
/// `reps[j]`'s path, wherever `j` stands in the list. The deck keeps its
/// length.
pub proof fn lemma_last_replacement_wins(
    slides: Seq<Seq<char>>,
    reps: Seq<SlideReplacement>,
    k: int,
    j: int,
)
    requires
        0 <= k < slides.len(),
        0 <= j < reps.len(),
        reps[j].index == k + 1,
        forall|l: int| j < l < reps.len() ==> #[trigger] reps[l].index != k + 1,
    ensures
        edited_deck(slides, reps, Seq::empty()).len() == slides.len(),
        edited_deck(slides, reps, Seq::empty())[k] == reps[j].path@,
{
    lemma_replace_only(slides, reps, slides.len() as int);
    lemma_replacement_for_last(reps, k + 1, j);
}

/// A slide that no replacement names keeps its image.
pub proof fn lemma_unnamed_slide_kept(slides: Seq<Seq<char>>, reps: Seq<SlideReplacement>, k: int)
    requires
        0 <= k < slides.len(),
        forall|l: int| 0 <= l < reps.len() ==> #[trigger] reps[l].index != k + 1,
    ensures
        edited_deck(slides, reps, Seq::empty()).len() == slides.len(),
        edited_deck(slides, reps, Seq::empty())[k] == slides[k],
{
    lemma_replace_only(slides, reps, slides.len() as int);
    lemma_replacement_for_none(reps, k + 1);
}

/// The slides, numbered from 0, that the removals keep, in order.
pub open spec fn kept_slides(n: int, removals: Seq<usize>) -> Seq<int> {
    Seq::new(n as nat, |k: int| k).filter(|k: int| !removals.contains((k + 1) as usize))
}

proof fn lemma_edited_upto_kept(
    slides: Seq<Seq<char>>,
    reps: Seq<SlideReplacement>,
    removals: Seq<usize>,
    m: int,
)
    requires
        0 <= m <= slides.len(),
    ensures
        edited_upto(slides, reps, removals, m) == kept_slides(m, removals).map_values(
            |k: int| edited_slide(slides, reps, k),
        ),
    decreases m,
{
    let p = |k: int| !removals.contains((k + 1) as usize);
    let f = |k: int| edited_slide(slides, reps, k);
    if m <= 0 {
        assert(Seq::new(0nat, |k: int| k) =~= Seq::<int>::empty());
        assert(Seq::<int>::empty().filter(p) =~= Seq::<int>::empty());
        assert(kept_slides(m, removals).map_values(f) =~= Seq::<Seq<char>>::empty());
    } else {
        lemma_edited_upto_kept(slides, reps, removals, m - 1);
        let prev = Seq::new((m - 1) as nat, |k: int| k);
        assert(Seq::new(m as nat, |k: int| k) =~= prev.push(m - 1));
        prev.lemma_filter_push(m - 1, p);
        if removals.contains(m as usize) {
            assert(kept_slides(m, removals) == kept_slides(m - 1, removals));
        } else {
            assert(kept_slides(m, removals) == kept_slides(m - 1, removals).push(m - 1));
            assert(kept_slides(m, removals).map_values(f) =~= kept_slides(m - 1, removals).map_values(
                f,
            ).push(f(m - 1)));
        }
    }
}

/// `--remove-slide` leaves out exactly the slides it names and keeps the
/// others in their order: the deck after the edits holds, for each slide
/// whose number is not removed, in order, that slide as replaced.
pub proof fn lemma_edits_keep_order(
    slides: Seq<Seq<char>>,
    reps: Seq<SlideReplacement>,
    removals: Seq<usize>,
)
    ensures
        edited_deck(slides, reps, removals) == kept_slides(slides.len() as int, removals).map_values(
            |k: int| edited_slide(slides, reps, k),
        ),
{
    lemma_edited_upto_kept(slides, reps, removals, slides.len() as int);
}

} // verus!
