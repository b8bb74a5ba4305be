use svs::edits::{apply_edits, parse_replacement, EditError, SlideReplacement};
use svs::paths::expand_home_with;

fn deck(n: usize) -> Vec<String> {
    (1..=n).map(|i| format!("/img/{i}.jpg")).collect()
}

fn rep(index: usize, path: &str) -> SlideReplacement {
    SlideReplacement { index, path: path.to_string() }
}

#[test]
fn replacement_arguments() {
    let r = parse_replacement("1:~/Desktop/new_cover.pdf").ok().unwrap();
    assert_eq!((r.index, r.path.as_str()), (1, "~/Desktop/new_cover.pdf"));
    let r = parse_replacement("12:a:b.png").ok().unwrap();
    assert_eq!((r.index, r.path.as_str()), (12, "a:b.png"));
    for bad in ["0:x.png", ":x.png", "1:", "x:y", "1x:y", "nocolon", "99999999999999999999999:x"] {
        assert!(matches!(parse_replacement(bad), Err(EditError::BadReplacement)), "{bad}");
    }
}

#[test]
fn remove_slide_two() {
    let out = apply_edits(&deck(3), &Vec::new(), &vec![2]).ok().unwrap();
    assert_eq!(out, vec!["/img/1.jpg", "/img/3.jpg"]);
}

#[test]
fn replace_first_slide_last_wins() {
    let out = apply_edits(&deck(2), &vec![rep(1, "/a.png"), rep(1, "/b.png")], &Vec::new()).ok().unwrap();
    assert_eq!(out, vec!["/b.png", "/img/2.jpg"]);
}

#[test]
fn replace_and_remove_use_deck_numbers() {
    let out = apply_edits(&deck(4), &vec![rep(3, "/new.png")], &vec![1, 1, 4]).ok().unwrap();
    assert_eq!(out, vec!["/img/2.jpg", "/new.png"]);
}

#[test]
fn out_of_range_numbers_are_refused() {
    assert_eq!(apply_edits(&deck(2), &vec![rep(3, "/x.png")], &Vec::new()).err(), Some(EditError::SlideOutOfRange(3)));
    assert_eq!(apply_edits(&deck(2), &Vec::new(), &vec![0]).err(), Some(EditError::SlideOutOfRange(0)));
    assert_eq!(EditError::SlideOutOfRange(7).message(), "no slide 7 in the deck");
}

#[test]
fn tilde_expansion() {
    let home = Some("/home/u".to_string());
    assert_eq!(expand_home_with("~/Desktop/a.pdf", home.clone()), "/home/u/Desktop/a.pdf");
    assert_eq!(expand_home_with("~", home.clone()), "/home/u");
    assert_eq!(expand_home_with("~bob/a", home.clone()), "~bob/a");
    assert_eq!(expand_home_with("~/a", None), "~/a");
}
