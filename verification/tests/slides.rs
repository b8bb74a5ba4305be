use svs::pdf::{pdftoppm_args, select_rasterised_pages, select_slide_images};

fn names(v: &[&str]) -> Vec<String> {
    v.iter().map(|s| s.to_string()).collect()
}

#[test]
fn slide_images_filtered_and_sorted() {
    let got = select_slide_images(&names(&[
        "slide-010.PNG",
        "notes.txt",
        "slide-002.jpg",
        ".jpg",
        "slide-001.JPEG",
        "b.webp",
        "noext",
        "slide-003.gif",
    ]));
    assert_eq!(got, Some(names(&["b.webp", "slide-001.JPEG", "slide-002.jpg", "slide-010.PNG"])));
    assert_eq!(select_slide_images(&names(&["a.txt", "b"])), None);
}

#[test]
fn rasterised_pages_filtered_and_sorted() {
    let got = select_rasterised_pages(&names(&["slide-2.jpg", "slide-1.jpg", "cover.jpg", "slide-3.JPG", "slide-10.jpg"]));
    assert_eq!(got, Some(names(&["slide-1.jpg", "slide-2.jpg", "slide-10.jpg"])));
    assert_eq!(select_rasterised_pages(&Vec::new()), None);
}

#[test]
fn pdftoppm_argument_list() {
    assert_eq!(
        pdftoppm_args("/in/deck.pdf", "/cache/images", 200, 85),
        vec!["-jpeg", "-jpegopt", "quality=85", "-r", "200", "/in/deck.pdf", "/cache/images/slide"]
    );
}

#[test]
fn first_page_argument_list() {
    assert_eq!(
        svs::pdf::first_page_args("/n/cover.pdf", "/c/replacements/replacement_0001", 150, 90),
        vec!["-jpeg", "-jpegopt", "quality=90", "-r", "150", "-f", "1", "-l", "1", "-singlefile",
             "/n/cover.pdf", "/c/replacements/replacement_0001"]
    );
}

#[test]
fn slide_images_in_natural_order() {
    let got = select_slide_images(&names(&["slide-10.jpg", "slide-2.jpg"]));
    assert_eq!(got, Some(names(&["slide-2.jpg", "slide-10.jpg"])));
    let got = select_slide_images(&names(&["a10b2.png", "a9b10.png", "a10b10.png", "a010b1.png", "a-1.png"]));
    assert_eq!(got, Some(names(&["a-1.png", "a9b10.png", "a10b2.png", "a10b10.png", "a010b1.png"])));
}
