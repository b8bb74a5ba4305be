//! Unix path text: joining a name onto a directory, and showing paths
//! under the user's home directory with `~`.
//!
//! Joining works on the text as written, with `/` as separator. Whether a
//! path lies under the home directory is decided by components, as
//! `Path::strip_prefix` decides it: repeated separators and `.` segments
//! past the start do not count.

use vstd::prelude::*;
use crate::text::{chars_eq_str, chars_of, push_chars, push_str, string_of};

verus! {

/// `base` joined with `name` as `PathBuf::push` does on Unix: an
/// absolute `name` replaces `base`; otherwise a `/` separates the two
/// unless `base` is empty or already ends with one.
pub open spec fn joined(base: Seq<char>, name: Seq<char>) -> Seq<char> {
    if name.len() > 0 && name[0] == '/' {
        name
    } else if base.len() == 0 {
        name
    } else if base.last() == '/' {
        base + name
    } else {
        base + "/"@ + name
    }
}

/// `base` joined with `name`.
pub fn join_path(base: &str, name: &str) -> (p: String)
    ensures
        p@ == joined(base@, name@),
{
    let b = chars_of(base);
    let n = chars_of(name);
    let mut out: Vec<char> = Vec::new();
    if n.len() > 0 && n[0] == '/' {
        push_chars(&mut out, &n);
    } else if b.len() == 0 {
        push_chars(&mut out, &n);
    } else if b[b.len() - 1] == '/' {
        push_chars(&mut out, &b);
        push_chars(&mut out, &n);
    } else {
        push_chars(&mut out, &b);
        push_str(&mut out, "/");
        push_chars(&mut out, &n);
    }
    assert(out@ =~= joined(base@, name@));
    string_of(&out)
}

// ─── Home directory ──────────────────────────────────────────────────

/// `dirs::home_dir`, taken as text. Its result comes from the environment
/// (`$HOME`, else the password database), so nothing is stated of it. A
/// home directory that is not UTF-8 gives `None`: no UTF-8 path lies
/// under it, and it has no text to put in place of `~`.
#[verifier::external_body]
fn home_dir() -> Option<String> {
    match dirs::home_dir() {
        Some(p) => match p.to_str() {
            Some(s) => Some(s.to_string()),
            None => None,
        },
        None => None,
    }
}

// ─── Path components ─────────────────────────────────────────────────

/// Whether `p[s..e]` is a segment that `Path::components` passes over:
/// empty (from a repeated or trailing `/`) or `.`.
pub open spec fn skipped_segment(p: Seq<char>, s: int, e: int) -> bool {
    e == s || (e == s + 1 && p[s] == '.')
}

/// The spans `[s, e)` of the kept `/`-separated segments of `p`, where
/// the segment being read began at `start` and the scan stands at `i`.
pub open spec fn segment_spans(p: Seq<char>, start: int, i: int) -> Seq<(int, int)>
    decreases p.len() - i,
{
    if i >= p.len() {
        if skipped_segment(p, start, p.len() as int) {
            seq![]
        } else {
            seq![(start, p.len() as int)]
        }
    } else if p[i] == '/' {
        let rest = segment_spans(p, i + 1, i + 1);
        if skipped_segment(p, start, i) {
            rest
        } else {
            seq![(start, i)] + rest
        }
    } else {
        segment_spans(p, start, i + 1)
    }
}

/// Whether `p` begins at the root.
pub open spec fn has_root(p: Seq<char>) -> bool {
    p.len() > 0 && p[0] == '/'
}

/// Whether the relative path `p` begins with a `.` component, the one
/// place where `Path::components` keeps one.
pub open spec fn has_cur_dir(p: Seq<char>) -> bool {
    !has_root(p) && p.len() > 0 && p[0] == '.' && (p.len() == 1 || p[1] == '/')
}

/// The spans of the components of `p`, as `Path::components` gives them
/// on Unix: the root `/` or a leading `.`, then each segment that is
/// neither empty nor `.`.
pub open spec fn component_spans(p: Seq<char>) -> Seq<(int, int)> {
    if has_root(p) || has_cur_dir(p) {
        seq![(0int, 1int)] + segment_spans(p, 1, 1)
    } else {
        segment_spans(p, 0, 0)
    }
}

/// The components of `p`, each as its text.
pub open spec fn components(p: Seq<char>) -> Seq<Seq<char>> {
    component_spans(p).map_values(|sp: (int, int)| p.subrange(sp.0, sp.1))
}

/// `path` as shown to the user. When the components of `home` begin the
/// components of `path` (as `Path::strip_prefix` asks), the rest is the
/// text from the first remaining component to the end of the last one:
/// no rest shows as `~`, a rest as `~/` and the rest (a rooted rest,
/// possible only for a home with no components, is shown as it is).
/// Otherwise, or when there is no home, `path` is shown unchanged.
pub open spec fn shown_path(path: Seq<char>, home: Option<Seq<char>>) -> Seq<char> {
    match home {
        None => path,
        Some(h) => {
            let hc = components(h);
            let pc = components(path);
            let sp = component_spans(path);
            if hc.len() <= pc.len() && pc.take(hc.len() as int) == hc {
                if hc.len() == pc.len() {
                    "~"@
                } else if hc.len() == 0 && has_root(path) {
                    path.take(sp.last().1)
                } else {
                    "~/"@ + path.subrange(sp[hc.len() as int].0, sp.last().1)
                }
            } else {
                path
            }
        },
    }
}

/// `v` with its positions as integers.
pub open spec fn spans_of(v: Seq<(usize, usize)>) -> Seq<(int, int)> {
    v.map_values(|x: (usize, usize)| (x.0 as int, x.1 as int))
}

/// The component spans of `p`, in order and within `p`.
fn component_spans_of(p: &Vec<char>) -> (r: Vec<(usize, usize)>)
    ensures
        spans_of(r@) == component_spans(p@),
        forall|m: int| #![trigger r[m]] 0 <= m < r.len() ==> r[m].0 <= r[m].1 <= p.len(),
        forall|m: int, n: int| #![trigger r[m], r[n]] 0 <= m < n < r.len() ==> r[m].1 <= r[n].0,
{
    let mut out: Vec<(usize, usize)> = Vec::new();
    let mut start: usize = 0;
    let mut i: usize = 0;
    if p.len() > 0 && (p[0] == '/' || (p[0] == '.' && (p.len() == 1 || p[1] == '/'))) {
        out.push((0, 1));
        start = 1;
        i = 1;
        assert(spans_of(out@) =~= seq![(0int, 1int)]);
    } else {
        assert(spans_of(out@) =~= Seq::<(int, int)>::empty());
        assert(spans_of(out@) + segment_spans(p@, 0, 0) =~= segment_spans(p@, 0, 0));
    }
    while i < p.len()
        invariant
            start <= i <= p.len(),
            spans_of(out@) + segment_spans(p@, start as int, i as int) == component_spans(p@),
            forall|m: int| #![trigger out[m]] 0 <= m < out.len() ==> out[m].0 <= out[m].1 <= start,
            forall|m: int, n: int| #![trigger out[m], out[n]] 0 <= m < n < out.len() ==> out[m].1 <= out[n].0,
        decreases p.len() - i,
    {
        if p[i] == '/' {
            let ghost before = out@;
            let ghost rest = segment_spans(p@, i + 1, i + 1);
            if !(i == start || (i == start + 1 && p[start] == '.')) {
                out.push((start, i));
                assert forall|a: int, b: int| #![trigger out[a], out[b]] 0 <= a < b < out.len() implies out[a].1
                    <= out[b].0 by {
                    assert(out[a] == before[a]);
                    if b < before.len() {
                        assert(out[b] == before[b]);
                    }
                }
                assert(spans_of(out@) =~= spans_of(before) + seq![(start as int, i as int)]);
                assert(spans_of(out@) + rest =~= spans_of(before) + (seq![(start as int, i as int)] + rest));
            } else {
                assert(out@ == before);
            }
            start = i + 1;
            i = i + 1;
        } else {
            i = i + 1;
        }
    }
    let ghost before = out@;
    if !(start == p.len() || (start + 1 == p.len() && p[start] == '.')) {
        out.push((start, p.len()));
        assert forall|a: int, b: int| #![trigger out[a], out[b]] 0 <= a < b < out.len() implies out[a].1
            <= out[b].0 by {
            assert(out[a] == before[a]);
            if b < before.len() {
                assert(out[b] == before[b]);
            }
        }
        assert(spans_of(out@) =~= spans_of(before) + seq![(start as int, p.len() as int)]);
    } else {
        assert(spans_of(out@) =~= spans_of(before) + Seq::<(int, int)>::empty());
    }
    out
}

/// Whether `a[s..e]` and `b[t..f]` hold the same characters.
fn same_chars(a: &Vec<char>, s: usize, e: usize, b: &Vec<char>, t: usize, f: usize) -> (r: bool)
    requires
        s <= e <= a.len(),
        t <= f <= b.len(),
    ensures
        r == (a@.subrange(s as int, e as int) == b@.subrange(t as int, f as int)),
{
    if e - s != f - t {
        assert(a@.subrange(s as int, e as int).len() != b@.subrange(t as int, f as int).len());
        return false;
    }
    let mut k: usize = 0;
    assert(a@.subrange(s as int, s as int) =~= b@.subrange(t as int, t as int));
    while k < e - s
        invariant
            s <= e <= a.len(),
            t <= f <= b.len(),
            e - s == f - t,
            k <= e - s,
            a@.subrange(s as int, s + k) == b@.subrange(t as int, t + k),
        decreases e - s - k,
    {
        if a[s + k] != b[t + k] {
            assert(a@.subrange(s as int, e as int)[k as int] != b@.subrange(t as int, f as int)[k as int]);
            return false;
        }
        assert(a@.subrange(s as int, s + k + 1) =~= a@.subrange(s as int, s + k).push(a@[s + k]));
        assert(b@.subrange(t as int, t + k + 1) =~= b@.subrange(t as int, t + k).push(b@[t + k]));
        k = k + 1;
    }
    true
}

/// `s[start..end]`.
fn copy_range(s: &Vec<char>, start: usize, end: usize) -> (r: Vec<char>)
    requires
        start <= end <= s@.len(),
    ensures
        r@ == s@.subrange(start as int, end as int),
{
    let mut r: Vec<char> = Vec::new();
    let mut k: usize = start;
    while k < end
        invariant
            start <= k <= end <= s@.len(),
            r@ == s@.subrange(start as int, k as int),
        decreases end - k,
    {
        r.push(s[k]);
        k = k + 1;
        assert(r@ =~= s@.subrange(start as int, k as int));
    }
    r
}

/// Whether the components of `h` begin the components of `p`, given the
/// component spans of each.
fn components_begin_with(
    p: &Vec<char>,
    ps: &Vec<(usize, usize)>,
    h: &Vec<char>,
    hs: &Vec<(usize, usize)>,
) -> (r: bool)
    requires
        spans_of(ps@) == component_spans(p@),
        spans_of(hs@) == component_spans(h@),
        forall|j: int| #![trigger ps[j]] 0 <= j < ps.len() ==> ps[j].0 <= ps[j].1 <= p.len(),
        forall|j: int| #![trigger hs[j]] 0 <= j < hs.len() ==> hs[j].0 <= hs[j].1 <= h.len(),
    ensures
        r == (components(h@).len() <= components(p@).len() && components(p@).take(
            components(h@).len() as int,
        ) == components(h@)),
{
    let ghost pc = components(p@);
    let ghost hc = components(h@);
    assert(pc.len() == ps.len() && hc.len() == hs.len());
    let k = hs.len();
    if k > ps.len() {
        return false;
    }
    let mut m: usize = 0;
    while m < k
        invariant
            k == hs.len() <= ps.len(),
            pc == components(p@),
            hc == components(h@),
            pc.len() == ps.len(),
            hc.len() == hs.len(),
            spans_of(ps@) == component_spans(p@),
            spans_of(hs@) == component_spans(h@),
            forall|j: int| #![trigger ps[j]] 0 <= j < ps.len() ==> ps[j].0 <= ps[j].1 <= p.len(),
            forall|j: int| #![trigger hs[j]] 0 <= j < hs.len() ==> hs[j].0 <= hs[j].1 <= h.len(),
            m <= k,
            forall|j: int| 0 <= j < m ==> #[trigger] pc[j] == hc[j],
        decreases k - m,
    {
        let same = same_chars(p, ps[m].0, ps[m].1, h, hs[m].0, hs[m].1);
        assert(pc[m as int] == p@.subrange(ps[m as int].0 as int, ps[m as int].1 as int));
        assert(hc[m as int] == h@.subrange(hs[m as int].0 as int, hs[m as int].1 as int));
        if !same {
            assert(pc.take(k as int)[m as int] != hc[m as int]);
            return false;
        }
        m = m + 1;
    }
    assert(pc.take(k as int) =~= hc);
    true
}

/// `path` with the home directory `home` written `~`.
pub fn display_path_with_home(path: &str, home: Option<String>) -> (r: String)
    ensures
        r@ == shown_path(
            path@,
            match home {
                Some(h) => Some(h@),
                None => None,
            },
        ),
{
    let p = chars_of(path);
    match home {
        None => string_of(&p),
        Some(h) => {
            let hv = chars_of(h.as_str());
            let ps = component_spans_of(&p);
            let hs = component_spans_of(&hv);
            if !components_begin_with(&p, &ps, &hv, &hs) {
                return string_of(&p);
            }
            let k = hs.len();
            assert(components(p@).len() == ps.len() && components(hv@).len() == k);
            let mut out: Vec<char> = Vec::new();
            if k == ps.len() {
                push_str(&mut out, "~");
            } else {
                let last = ps[ps.len() - 1].1;
                let first = ps[k].0;
                assert(ps[k as int].0 <= ps[k as int].1);
                assert(k == ps.len() - 1 || ps[k as int].1 <= ps[ps.len() - 1].0);
                if k == 0 && p.len() > 0 && p[0] == '/' {
                    let rest = copy_range(&p, 0, last);
                    push_chars(&mut out, &rest);
                    assert(out@ =~= p@.take(last as int));
                } else {
                    let rest = copy_range(&p, first, last);
                    push_str(&mut out, "~/");
                    push_chars(&mut out, &rest);
                }
            }
            string_of(&out)
        },
    }
}

/// `path` with a leading `~` standing for `home`: `~` alone is `home`,
/// `~/rest` is `rest` in `home`; any other path, or any path when there
/// is no home, is kept.
pub open spec fn expanded_path(path: Seq<char>, home: Option<Seq<char>>) -> Seq<char> {
    match home {
        None => path,
        Some(h) => if path == "~"@ {
            h
        } else if path.len() >= 2 && path[0] == '~' && path[1] == '/' {
            joined(h, path.skip(2))
        } else {
            path
        },
    }
}

/// Expands a leading `~` of `path` to `home`.
pub fn expand_home_with(path: &str, home: Option<String>) -> (r: String)
    ensures
        r@ == expanded_path(
            path@,
            match home {
                Some(h) => Some(h@),
                None => None,
            },
        ),
{
    let p = chars_of(path);
    match home {
        None => string_of(&p),
        Some(h) => {
            if chars_eq_str(&p, "~") {
                h
            } else if p.len() >= 2 && p[0] == '~' && p[1] == '/' {
                let rest = copy_range(&p, 2, p.len());
                assert(rest@ =~= p@.skip(2));
                let rest_s = string_of(&rest);
                join_path(h.as_str(), rest_s.as_str())
            } else {
                string_of(&p)
            }
        },
    }
}

/// Expands a leading `~` of `path` to the current user's home directory.
pub fn expand_home(path: &str) -> (r: String)
    ensures
        exists|home: Option<Seq<char>>| r@ == expanded_path(path@, home),
{
    let home = home_dir();
    let ghost h = match &home {
        Some(h) => Some(h@),
        None => None,
    };
    let r = expand_home_with(path, home);
    assert(r@ == expanded_path(path@, h));
    r
}

/// `path` as shown to the user, with the current user's home directory
/// written `~`.
pub fn display_path(path: &str) -> (r: String)
    ensures
        exists|home: Option<Seq<char>>| r@ == shown_path(path@, home),
{
    let home = home_dir();
    let ghost h = match &home {
        Some(h) => Some(h@),
        None => None,
    };
    let r = display_path_with_home(path, home);
    assert(r@ == shown_path(path@, h));
    r
}

} // verus!
