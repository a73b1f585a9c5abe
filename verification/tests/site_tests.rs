use tesseract::html::HTMLElement;
use tesseract::site::{Body, Head, Site};

#[test]
fn head_renders_title_and_language() {
    let expected = "<head>\n<title>\nExample Page\n</title>\n<lang>\nen-gb\n</lang>\n</head>";
    assert_eq!(Head::default().render(), expected);
}

#[test]
fn body_renders_the_greeting_paragraphs() {
    let expected =
        "<body>\n<div>\n<p>\nHi!\n</p>\n<p>\nThis is a test page!\n</p>\n</div>\n</body>";
    assert_eq!(Body::default().render(), expected);
}

#[test]
fn site_renders_the_whole_page() {
    let expected = "<html>\n\
        <head>\n<title>\nExample Page\n</title>\n<lang>\nen-gb\n</lang>\n</head>\n\
        <body>\n<div>\n<p>\nHi!\n</p>\n<p>\nThis is a test page!\n</p>\n</div>\n</body>\n\
        </html>";
    assert_eq!(Site::default().render(), expected);
}
