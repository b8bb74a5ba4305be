//! Slide image selection: which files of a directory are slides, and in
//! which order. The directory is listed, and PDFs rasterised with
//! `pdftoppm`, by the caller.
//!
//! File names are sorted naturally: runs of digits compare by their
//! value, so `slide-2.jpg` comes before `slide-10.jpg`.

use vstd::prelude::*;
use vstd::multiset::Multiset;
use crate::natural::{lemma_natural_total, lemma_natural_trans, natural_le, natural_le_exec};
use crate::paths::{join_path, joined};
use crate::pipeline::{digits_value, lemma_decimal_value};
use crate::text::{
    ascii_lower, ascii_lowercase, chars_eq_str, chars_of, decimal, push_decimal, push_str, string_of,
    views,
};

verus! {

broadcast use {vstd::seq_lib::group_seq_properties, vstd::multiset::group_multiset_axioms};

// ─── Ordering ────────────────────────────────────────────────────────

/// Whether `s` is in ascending natural order.
pub open spec fn sorted(s: Seq<Seq<char>>) -> bool {
    forall|i: int, j: int| 0 <= i < j < s.len() ==> natural_le(#[trigger] s[i], #[trigger] s[j])
}

/// The character sequences of `v`.
pub open spec fn char_views(v: Seq<Vec<char>>) -> Seq<Seq<char>> {
    v.map_values(|c: Vec<char>| c@)
}

proof fn lemma_insert_multiset(s: Seq<Seq<char>>, pos: int, x: Seq<char>)
    requires
        0 <= pos <= s.len(),
    ensures
        s.insert(pos, x).to_multiset() =~= s.to_multiset().insert(x),
{
    let t = s.insert(pos, x);
    assert(t.remove(pos) =~= s);
    t.to_multiset_ensures();
    s.to_multiset_ensures();
    assert(t[pos] == x);
    assert(t.contains(x));
}

/// Inserts `x` into the sorted `v` after every element not greater than it.
fn insert_sorted(v: &mut Vec<Vec<char>>, x: Vec<char>)
    requires
        sorted(char_views(old(v)@)),
    ensures
        sorted(char_views(final(v)@)),
        char_views(final(v)@).to_multiset() =~= char_views(old(v)@).to_multiset().insert(x@),
{
    let ghost s = char_views(v@);
    let mut j: usize = 0;
    while j < v.len() && natural_le_exec(&v[j], &x)
        invariant
            j <= v@.len(),
            s == char_views(v@),
            forall|k: int| 0 <= k < j ==> natural_le(#[trigger] s[k], x@),
        decreases v@.len() - j,
    {
        j = j + 1;
    }
    proof {
        if j < v@.len() {
            lemma_natural_total(s[j as int], x@);
        }
    }
    let ghost xv = x@;
    v.insert(j, x);
    let ghost t = char_views(v@);
    assert(t =~= s.insert(j as int, xv));
    proof {
        lemma_insert_multiset(s, j as int, xv);
        assert forall|a: int, b: int| 0 <= a < b < t.len() implies natural_le(
            #[trigger] t[a],
            #[trigger] t[b],
        ) by {
            if b < j {
            } else if a < j && b == j {
            } else if a < j {
                assert(natural_le(xv, s[b - 1])) by {
                    if j + 1 <= b - 1 {
                        lemma_natural_trans(xv, s[j as int], s[b - 1]);
                    }
                }
                lemma_natural_trans(s[a], xv, s[b - 1]);
            } else if a == j {
                if b - 1 > j {
                    lemma_natural_trans(xv, s[j as int], s[b - 1]);
                }
            } else {
            }
        }
    }
}

/// Sorts `names` in ascending order.
fn sort_names(names: Vec<Vec<char>>) -> (r: Vec<Vec<char>>)
    ensures
        sorted(char_views(r@)),
        char_views(r@).to_multiset() =~= char_views(names@).to_multiset(),
{
    let mut r: Vec<Vec<char>> = Vec::new();
    let mut rest = names;
    // Take the names from the back, so that each step is a `pop`.
    proof {
        assert(char_views(r@) =~= Seq::<Seq<char>>::empty());
    }
    let ghost all = char_views(rest@);
    while rest.len() > 0
        invariant
            sorted(char_views(r@)),
            all.to_multiset() =~= char_views(rest@).to_multiset().add(char_views(r@).to_multiset()),
        decreases rest@.len(),
    {
        let ghost before = char_views(rest@);
        let x = rest.pop().unwrap();
        assert(before =~= char_views(rest@).push(x@));
        proof {
            char_views(rest@).to_multiset_ensures();
        }
        insert_sorted(&mut r, x);
    }
    proof {
        assert(char_views(rest@) =~= Seq::<Seq<char>>::empty());
        assert(char_views(rest@).to_multiset() =~= Multiset::empty());
    }
    r
}

// ─── Extensions ──────────────────────────────────────────────────────

/// The index of the last `.` of `name`, if any.
pub open spec fn last_dot(name: Seq<char>) -> Option<int>
    decreases name.len(),
{
    if name.len() == 0 {
        None
    } else if name.last() == '.' {
        Some(name.len() - 1)
    } else {
        last_dot(name.drop_last())
    }
}

/// The extension of a file name, as `Path::extension` finds it: the text
/// after the last `.`, unless there is no `.`, the only `.` starts the
/// name, or the name is `..`.
pub open spec fn extension_of(name: Seq<char>) -> Option<Seq<char>> {
    if name == ".."@ {
        None
    } else {
        match last_dot(name) {
            None => None,
            Some(k) => if k == 0 {
                None
            } else {
                Some(name.skip(k + 1))
            },
        }
    }
}

/// The extension of the file name `name`.
pub fn file_extension(name: &Vec<char>) -> (r: Option<Vec<char>>)
    ensures
        match (r, extension_of(name@)) {
            (Some(e), Some(f)) => e@ == f,
            (None, None) => true,
            _ => false,
        },
{
    if chars_eq_str(name, "..") {
        return None;
    }
    let mut j: usize = name.len();
    assert(name@.take(j as int) =~= name@);
    while j > 0 && name[j - 1] != '.'
        invariant
            j <= name@.len(),
            last_dot(name@) == last_dot(name@.take(j as int)),
        decreases j,
    {
        assert(name@.take(j as int).drop_last() =~= name@.take(j - 1));
        j = j - 1;
    }
    if j <= 1 {
        return None;
    }
    let mut e: Vec<char> = Vec::new();
    let mut k: usize = j;
    while k < name.len()
        invariant
            j <= k <= name@.len(),
            e@ == name@.subrange(j as int, k as int),
        decreases name@.len() - k,
    {
        e.push(name[k]);
        k = k + 1;
        assert(e@ =~= name@.subrange(j as int, k as int));
    }
    assert(e@ =~= name@.skip(j as int));
    Some(e)
}

/// Slide images are JPEG, PNG and WebP files, by their extension in any
/// ASCII case.
pub open spec fn is_slide_image_name(name: Seq<char>) -> bool {
    match extension_of(name) {
        Some(e) => {
            let l = ascii_lower(e);
            l == "jpg"@ || l == "jpeg"@ || l == "png"@ || l == "webp"@
        },
        None => false,
    }
}

/// A name is a slide image exactly when it has an extension that, in
/// lower case, is `jpg`, `jpeg`, `png` or `webp`.
pub proof fn lemma_slide_image_extensions(name: Seq<char>)
    ensures
        selected(name, false) <==> (extension_of(name) is Some && seq![
            "jpg"@,
            "jpeg"@,
            "png"@,
            "webp"@,
        ].contains(ascii_lower(extension_of(name)->0))),
{
}

/// A page written by `pdftoppm` is a name starting with `slide` whose
/// extension is exactly `jpg`.
pub proof fn lemma_rasterised_page_names(name: Seq<char>)
    ensures
        selected(name, true) <==> (extension_of(name) == Some("jpg"@) && name.len() >= 5
            && name.subrange(0, 5) == "slide"@),
{
    assert(name.len() >= 5 ==> name.subrange(0, 5) =~= name.take(5));
}

/// The case of an extension does not matter: two names whose extensions
/// are equal up to ASCII case are both slide images or neither is
/// (`Slide1.JPG` is taken as `Slide1.jpg` is).
pub proof fn lemma_slide_image_ignores_case(a: Seq<char>, b: Seq<char>)
    requires
        extension_of(a) is Some,
        extension_of(b) is Some,
        ascii_lower(extension_of(a)->0) == ascii_lower(extension_of(b)->0),
    ensures
        selected(a, false) == selected(b, false),
{
}

/// The pages `pdftoppm` writes: `slide*` files with the `jpg` extension.
pub open spec fn is_rasterised_page_name(name: Seq<char>) -> bool {
    &&& extension_of(name) == Some("jpg"@)
    &&& name.len() >= 5
    &&& name.take(5) == "slide"@
}

/// Which of the two selections is meant.
pub open spec fn selected(name: Seq<char>, pages: bool) -> bool {
    if pages {
        is_rasterised_page_name(name)
    } else {
        is_slide_image_name(name)
    }
}

fn is_selected(name: &Vec<char>, pages: bool) -> (r: bool)
    ensures
        r == selected(name@, pages),
{
    let ext = file_extension(name);
    match ext {
        None => false,
        Some(e) => {
            if pages {
                if !chars_eq_str(&e, "jpg") || name.len() < 5 {
                    return false;
                }
                let mut head: Vec<char> = Vec::new();
                let mut k: usize = 0;
                while k < 5
                    invariant
                        k <= 5 <= name@.len(),
                        head@ == name@.take(k as int),
                    decreases 5 - k,
                {
                    head.push(name[k]);
                    k = k + 1;
                    assert(head@ =~= name@.take(k as int));
                }
                chars_eq_str(&head, "slide")
            } else {
                let s = string_of(&e);
                let l = ascii_lowercase(s.as_str());
                chars_eq_str(&l, "jpg") || chars_eq_str(&l, "jpeg") || chars_eq_str(&l, "png")
                    || chars_eq_str(&l, "webp")
            }
        },
    }
}

/// The names of `names` that pass the selection, in ascending order.
pub open spec fn selection_ok(names: Seq<String>, r: Seq<String>, pages: bool) -> bool {
    &&& sorted(views(r))
    &&& views(r).to_multiset() =~= views(names).filter(|s: Seq<char>| selected(s, pages)).to_multiset()
}

fn select_sorted(names: &Vec<String>, pages: bool) -> (r: Vec<String>)
    ensures
        selection_ok(names@, r@, pages),
{
    let ghost pred = |s: Seq<char>| selected(s, pages);
    let mut chosen: Vec<Vec<char>> = Vec::new();
    let mut i: usize = 0;
    while i < names.len()
        invariant
            i <= names@.len(),
            pred == (|s: Seq<char>| selected(s, pages)),
            char_views(chosen@) == views(names@.take(i as int)).filter(pred),
        decreases names@.len() - i,
    {
        let cs = chars_of(names[i].as_str());
        let ghost prev = views(names@.take(i as int));
        assert(views(names@.take(i + 1)) =~= prev.push(cs@));
        proof {
            prev.lemma_filter_push(cs@, pred);
        }
        if is_selected(&cs, pages) {
            chosen.push(cs);
        }
        assert(char_views(chosen@) =~= views(names@.take(i + 1)).filter(pred));
        i = i + 1;
    }
    assert(names@.take(names@.len() as int) =~= names@);
    let sorted_chars = sort_names(chosen);
    let mut r: Vec<String> = Vec::new();
    let mut k: usize = 0;
    while k < sorted_chars.len()
        invariant
            k <= sorted_chars@.len(),
            views(r@) == char_views(sorted_chars@).take(k as int),
        decreases sorted_chars@.len() - k,
    {
        let ghost before = views(r@);
        let s = string_of(&sorted_chars[k]);
        assert(s@ == char_views(sorted_chars@)[k as int]);
        r.push(s);
        assert(views(r@) =~= before.push(s@));
        k = k + 1;
        assert(views(r@) =~= char_views(sorted_chars@).take(k as int));
    }
    assert(char_views(sorted_chars@).take(k as int) =~= char_views(sorted_chars@));
    r
}

/// The slide images among the file names of a directory (JPEG, PNG or
/// WebP by extension, in any case), sorted naturally by name; `None` when there
/// are none.
pub fn select_slide_images(names: &Vec<String>) -> (r: Option<Vec<String>>)
    ensures
        match r {
            Some(v) => selection_ok(names@, v@, false) && v@.len() > 0,
            None => views(names@).filter(|s: Seq<char>| selected(s, false)).len() == 0,
        },
{
    let v = select_sorted(names, false);
    proof {
        views(v@).to_multiset_ensures();
        views(names@).filter(|s: Seq<char>| selected(s, false)).to_multiset_ensures();
    }
    if v.len() == 0 {
        None
    } else {
        Some(v)
    }
}

/// The pages `pdftoppm` wrote among the file names of its output
/// directory (`slide*.jpg`), in page order; `None` when there are none.
pub fn select_rasterised_pages(names: &Vec<String>) -> (r: Option<Vec<String>>)
    ensures
        match r {
            Some(v) => selection_ok(names@, v@, true) && v@.len() > 0,
            None => views(names@).filter(|s: Seq<char>| selected(s, true)).len() == 0,
        },
{
    let v = select_sorted(names, true);
    proof {
        views(v@).to_multiset_ensures();
        views(names@).filter(|s: Seq<char>| selected(s, true)).to_multiset_ensures();
    }
    if v.len() == 0 {
        None
    } else {
        Some(v)
    }
}

// ─── Rasterisation ───────────────────────────────────────────────────

/// The `pdftoppm` arguments that render every page of `pdf_path` as
/// `slide-N.jpg` JPEGs of the given quality and resolution in `out_dir`.
pub open spec fn pdftoppm_argv(pdf_path: Seq<char>, out_dir: Seq<char>, dpi: nat, jpeg_quality: nat) -> Seq<
    Seq<char>,
> {
    seq![
        "-jpeg"@,
        "-jpegopt"@,
        "quality="@ + decimal(jpeg_quality),
        "-r"@,
        decimal(dpi),
        pdf_path,
        joined(out_dir, "slide"@),
    ]
}

/// `pdftoppm` renders at the resolution and JPEG quality asked for: the
/// argument after `-r` is made of decimal digits that read back as `dpi`,
/// and the `-jpegopt` argument is `quality=` followed by digits that read
/// back as `jpeg_quality`.
pub proof fn lemma_pdftoppm_resolution_and_quality(
    pdf_path: Seq<char>,
    out_dir: Seq<char>,
    dpi: nat,
    jpeg_quality: nat,
)
    ensures
        ({
            let a = pdftoppm_argv(pdf_path, out_dir, dpi, jpeg_quality);
            &&& a[1] == "-jpegopt"@
            &&& a[2].take(8) == "quality="@
            &&& digits_value(a[2].skip(8)) == jpeg_quality
            &&& a[3] == "-r"@
            &&& digits_value(a[4]) == dpi
            &&& forall|k: int| 0 <= k < a[4].len() ==> 48 <= #[trigger] a[4][k] as int <= 57
            &&& a[5] == pdf_path
            &&& a[6] == joined(out_dir, "slide"@)
        }),
{
    reveal_strlit("quality=");
    lemma_decimal_value(dpi);
    lemma_decimal_value(jpeg_quality);
    let a = pdftoppm_argv(pdf_path, out_dir, dpi, jpeg_quality);
    assert(a[2].take(8) =~= "quality="@);
    assert(a[2].skip(8) =~= decimal(jpeg_quality));
}

/// The first page of a replacement PDF is rendered at the same
/// resolution and quality rules: the argument after `-r` reads back as
/// `dpi`, the `-jpegopt` argument as `quality=` and `jpeg_quality`, and
/// only page 1 is rendered.
pub proof fn lemma_first_page_resolution_and_quality(
    pdf_path: Seq<char>,
    out_prefix: Seq<char>,
    dpi: nat,
    jpeg_quality: nat,
)
    ensures
        ({
            let a = first_page_argv(pdf_path, out_prefix, dpi, jpeg_quality);
            &&& a[2].take(8) == "quality="@
            &&& digits_value(a[2].skip(8)) == jpeg_quality
            &&& a[3] == "-r"@
            &&& digits_value(a[4]) == dpi
            &&& a[5] == "-f"@ && a[6] == "1"@ && a[7] == "-l"@ && a[8] == "1"@
            &&& a[9] == "-singlefile"@ && a[10] == pdf_path && a[11] == out_prefix
        }),
{
    reveal_strlit("quality=");
    lemma_decimal_value(dpi);
    lemma_decimal_value(jpeg_quality);
    let a = first_page_argv(pdf_path, out_prefix, dpi, jpeg_quality);
    assert(a[2].take(8) =~= "quality="@);
    assert(a[2].skip(8) =~= decimal(jpeg_quality));
}

fn text_of(s: &str) -> (r: String)
    ensures
        r@ == s@,
{
    let cs = chars_of(s);
    string_of(&cs)
}

/// The arguments of the `pdftoppm` run that rasterises `pdf_path`.
pub fn pdftoppm_args(pdf_path: &str, out_dir: &str, dpi: u32, jpeg_quality: u32) -> (args: Vec<
    String,
>)
    ensures
        views(args@) == pdftoppm_argv(pdf_path@, out_dir@, dpi as nat, jpeg_quality as nat),
{
    let mut quality: Vec<char> = Vec::new();
    push_str(&mut quality, "quality=");
    push_decimal(&mut quality, jpeg_quality as u128);
    let mut resolution: Vec<char> = Vec::new();
    push_decimal(&mut resolution, dpi as u128);
    let mut args: Vec<String> = Vec::new();
    args.push(text_of("-jpeg"));
    args.push(text_of("-jpegopt"));
    args.push(string_of(&quality));
    args.push(text_of("-r"));
    args.push(string_of(&resolution));
    args.push(text_of(pdf_path));
    args.push(join_path(out_dir, "slide"));
    assert(views(args@) =~= pdftoppm_argv(pdf_path@, out_dir@, dpi as nat, jpeg_quality as nat));
    args
}

/// The `pdftoppm` arguments that render only the first page of
/// `pdf_path` as the single JPEG `<out_prefix>.jpg`.
pub open spec fn first_page_argv(pdf_path: Seq<char>, out_prefix: Seq<char>, dpi: nat, jpeg_quality: nat) -> Seq<
    Seq<char>,
> {
    seq![
        "-jpeg"@,
        "-jpegopt"@,
        "quality="@ + decimal(jpeg_quality),
        "-r"@,
        decimal(dpi),
        "-f"@,
        "1"@,
        "-l"@,
        "1"@,
        "-singlefile"@,
        pdf_path,
        out_prefix,
    ]
}

/// The arguments of the `pdftoppm` run that renders the first page of a
/// replacement PDF.
pub fn first_page_args(pdf_path: &str, out_prefix: &str, dpi: u32, jpeg_quality: u32) -> (args: Vec<
    String,
>)
    ensures
        views(args@) == first_page_argv(pdf_path@, out_prefix@, dpi as nat, jpeg_quality as nat),
{
    let mut quality: Vec<char> = Vec::new();
    push_str(&mut quality, "quality=");
    push_decimal(&mut quality, jpeg_quality as u128);
    let mut resolution: Vec<char> = Vec::new();
    push_decimal(&mut resolution, dpi as u128);
    let mut args: Vec<String> = Vec::new();
    args.push(text_of("-jpeg"));
    args.push(text_of("-jpegopt"));
    args.push(string_of(&quality));
    args.push(text_of("-r"));
    args.push(string_of(&resolution));
    args.push(text_of("-f"));
    args.push(text_of("1"));
    args.push(text_of("-l"));
    args.push(text_of("1"));
    args.push(text_of("-singlefile"));
    args.push(text_of(pdf_path));
    args.push(text_of(out_prefix));
    assert(views(args@) =~= first_page_argv(pdf_path@, out_prefix@, dpi as nat, jpeg_quality as nat));
    args
}

} // verus!
