//! The command-line decisions of `svs render`: where the video and the
//! cache go by default, what to do with an existing cache, and how many
//! encodes run at once.

use vstd::prelude::*;
use crate::paths::{join_path, joined};
use crate::pdf::last_dot;
use crate::text::{
    ascii_lower, ascii_lowercase, chars_eq_str, chars_of, push_chars, push_str, string_of, trim,
    trim_chars,
};

verus! {

// ─── Default paths ───────────────────────────────────────────────────

/// The index of the last `/` of `p`, if any.
pub open spec fn last_slash(p: Seq<char>) -> Option<int>
    decreases p.len(),
{
    if p.len() == 0 {
        None
    } else if p.last() == '/' {
        Some(p.len() - 1)
    } else {
        last_slash(p.drop_last())
    }
}

/// The last component of the path `p`, if it names a file or directory.
/// Inputs are canonical paths: absolute, without `.`, `..` or a trailing `/`.
pub open spec fn file_name_of(p: Seq<char>) -> Option<Seq<char>> {
    let n = match last_slash(p) {
        None => p,
        Some(k) => p.skip(k + 1),
    };
    if n.len() == 0 || n == ".."@ {
        None
    } else {
        Some(n)
    }
}

/// The directory that holds `p`, if any (`/` has none).
pub open spec fn parent_of(p: Seq<char>) -> Option<Seq<char>> {
    match last_slash(p) {
        None => if p.len() == 0 {
            None
        } else {
            Some(Seq::empty())
        },
        Some(k) => if p.len() == 1 {
            None
        } else if k == 0 {
            Some("/"@)
        } else {
            Some(p.take(k))
        },
    }
}

/// The stem of a file name as `Path::file_stem` finds it: the text before
/// the last `.`, or the whole name when it has no `.` besides a leading one.
pub open spec fn file_stem_of(name: Seq<char>) -> Seq<char> {
    if name == ".."@ {
        name
    } else {
        match last_dot(name) {
            None => name,
            Some(k) => if k == 0 {
                name
            } else {
                name.take(k)
            },
        }
    }
}

/// The stem the outputs are named after: the input's, or `slidevoice`.
pub open spec fn input_stem(input: Seq<char>) -> Seq<char> {
    match file_name_of(input) {
        Some(n) => file_stem_of(n),
        None => "slidevoice"@,
    }
}

/// The directory the outputs go to by default: the input's, or `.`.
pub open spec fn input_dir(input: Seq<char>) -> Seq<char> {
    match parent_of(input) {
        Some(d) => d,
        None => "."@,
    }
}

/// Where the video and the cache go by default.
pub struct DefaultPaths {
    pub output: String,
    pub cache_dir: String,
}

fn last_slash_exec(p: &Vec<char>) -> (r: Option<usize>)
    ensures
        r matches Some(k) ==> k < p@.len() && p@[k as int] == '/',
        match (r, last_slash(p@)) {
            (Some(a), Some(b)) => a == b,
            (None, None) => true,
            _ => false,
        },
{
    let mut j: usize = p.len();
    assert(p@.take(j as int) =~= p@);
    while j > 0 && p[j - 1] != '/'
        invariant
            j <= p@.len(),
            last_slash(p@) == last_slash(p@.take(j as int)),
        decreases j,
    {
        assert(p@.take(j as int).drop_last() =~= p@.take(j - 1));
        j = j - 1;
    }
    if j == 0 {
        None
    } else {
        Some(j - 1)
    }
}

fn subrange_chars(p: &Vec<char>, from: usize, to: usize) -> (r: Vec<char>)
    requires
        from <= to <= p@.len(),
    ensures
        r@ == p@.subrange(from as int, to as int),
{
    let mut r: Vec<char> = Vec::new();
    let mut k: usize = from;
    while k < to
        invariant
            from <= k <= to <= p@.len(),
            r@ == p@.subrange(from as int, k as int),
        decreases to - k,
    {
        r.push(p[k]);
        k = k + 1;
        assert(r@ =~= p@.subrange(from as int, k as int));
    }
    r
}

fn stem_chars(input: &Vec<char>) -> (s: Vec<char>)
    ensures
        s@ == input_stem(input@),
{
    let n = input.len();
    let start: usize = match last_slash_exec(input) {
        None => 0,
        Some(k) => k + 1,
    };
    let name = subrange_chars(input, start, n);
    assert(name@ =~= match last_slash(input@) {
        None => input@,
        Some(k) => input@.skip(k + 1),
    });
    if name.len() == 0 || chars_eq_str(&name, "..") {
        return chars_of("slidevoice");
    }
    let mut j: usize = name.len();
    assert(name@.take(j as int) =~= name@);
    while j > 0 && name[j - 1] != '.'
        invariant
            j <= name@.len(),
            last_dot(name@) == last_dot(name@.take(j as int)),
        decreases j,
    {
        assert(name@.take(j as int).drop_last() =~= name@.take(j - 1));
        j = j - 1;
    }
    if j <= 1 {
        name
    } else {
        subrange_chars(&name, 0, j - 1)
    }
}

fn dir_chars(input: &Vec<char>) -> (d: Vec<char>)
    ensures
        d@ == input_dir(input@),
{
    match last_slash_exec(input) {
        None => {
            if input.len() == 0 {
                chars_of(".")
            } else {
                Vec::new()
            }
        },
        Some(k) => {
            if input.len() == 1 {
                chars_of(".")
            } else if k == 0 {
                chars_of("/")
            } else {
                subrange_chars(input, 0, k)
            }
        },
    }
}

/// The default video `<dir>/<stem>.mp4` and cache `<dir>/<stem>.svs-cache`
/// next to the (canonical) input path.
pub fn default_paths(input: &str) -> (r: DefaultPaths)
    ensures
        r.output@ == joined(input_dir(input@), input_stem(input@) + ".mp4"@),
        r.cache_dir@ == joined(input_dir(input@), input_stem(input@) + ".svs-cache"@),
{
    let p = chars_of(input);
    let stem = stem_chars(&p);
    let dir = dir_chars(&p);
    let dir_s = string_of(&dir);
    let mut video: Vec<char> = Vec::new();
    push_chars(&mut video, &stem);
    push_str(&mut video, ".mp4");
    let mut cache: Vec<char> = Vec::new();
    push_chars(&mut cache, &stem);
    push_str(&mut cache, ".svs-cache");
    let video_s = string_of(&video);
    let cache_s = string_of(&cache);
    DefaultPaths {
        output: join_path(dir_s.as_str(), video_s.as_str()),
        cache_dir: join_path(dir_s.as_str(), cache_s.as_str()),
    }
}

// ─── Existing cache ──────────────────────────────────────────────────

/// What the user answered about an existing cache.
#[derive(Debug, Clone, Copy, PartialEq, Eq, Structural)]
pub enum CacheChoice {
    Resume,
    Clear,
}

/// `c` or `clear`, in any case and with surrounding white space, clears;
/// any other answer (the empty one too) resumes.
pub open spec fn cache_choice_of(answer: Seq<char>) -> CacheChoice {
    let a = ascii_lower(trim(answer));
    if a == "c"@ || a == "clear"@ {
        CacheChoice::Clear
    } else {
        CacheChoice::Resume
    }
}

/// Reads the answer to the resume-or-clear prompt.
pub fn parse_cache_choice(answer: &str) -> (c: CacheChoice)
    ensures
        c == cache_choice_of(answer@),
{
    let cs = chars_of(answer);
    let t = trim_chars(&cs);
    let ts = string_of(&t);
    let l = ascii_lowercase(ts.as_str());
    if chars_eq_str(&l, "c") || chars_eq_str(&l, "clear") {
        CacheChoice::Clear
    } else {
        CacheChoice::Resume
    }
}

/// What to do before rendering with the cache directory.
#[derive(Debug, Clone, Copy, PartialEq, Eq, Structural)]
pub enum CacheAction {
    /// Render with the cache as it is (resume, or nothing cached).
    Keep,
    /// Delete the cache first.
    Clear,
    /// Ask the user whether to resume or clear.
    Ask,
}

/// A cache that holds something is cleared when `--clear` was given,
/// kept when `--resume` was given, and otherwise the user is asked.
pub open spec fn cache_action_of(has_content: bool, clear: bool, resume: bool) -> CacheAction {
    if !has_content {
        CacheAction::Keep
    } else if clear {
        CacheAction::Clear
    } else if !resume {
        CacheAction::Ask
    } else {
        CacheAction::Keep
    }
}

/// Decides what to do with the cache directory.
pub fn cache_action(has_content: bool, clear: bool, resume: bool) -> (a: CacheAction)
    ensures
        a == cache_action_of(has_content, clear, resume),
{
    if !has_content {
        CacheAction::Keep
    } else if clear {
        CacheAction::Clear
    } else if !resume {
        CacheAction::Ask
    } else {
        CacheAction::Keep
    }
}

/// The action an answer to the prompt leads to.
pub fn action_for_choice(c: CacheChoice) -> (a: CacheAction)
    ensures
        a == match c {
            CacheChoice::Clear => CacheAction::Clear,
            CacheChoice::Resume => CacheAction::Keep,
        },
{
    match c {
        CacheChoice::Clear => CacheAction::Clear,
        CacheChoice::Resume => CacheAction::Keep,
    }
}

// ─── Concurrency ─────────────────────────────────────────────────────

/// Half the available cores (`cores/2`), at least 1; 2 when the core
/// count is unknown.
pub open spec fn encode_concurrency_of(parallelism: Option<usize>) -> int {
    match parallelism {
        None => 2,
        Some(n) => if n / 2 < 1 {
            1
        } else {
            (n / 2) as int
        },
    }
}

/// The default number of concurrent FFmpeg encodes for a core count.
pub fn encode_concurrency_for(parallelism: Option<usize>) -> (n: usize)
    ensures
        n == encode_concurrency_of(parallelism),
{
    match parallelism {
        None => 2,
        Some(n) => {
            let half = n / 2;
            if half < 1 {
                1
            } else {
                half
            }
        },
    }
}

} // verus!
