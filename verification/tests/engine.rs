//! End-to-end tests of the icon inference engine with a deterministic fake
//! network client.

use nativefier::error::Error;
use nativefier::infer::{infer_icon, Downloader, Icon, Inferer, Size};
use std::cell::RefCell;
use std::collections::HashMap;

/// A deterministic fake network: canned responses per URL, plus a record of
/// every URL fetched.
struct FakeClient {
    pages: HashMap<String, Vec<u8>>,
    calls: RefCell<Vec<String>>,
}

impl FakeClient {
    fn new() -> FakeClient {
        FakeClient {
            pages: HashMap::new(),
            calls: RefCell::new(Vec::new()),
        }
    }

    fn with(mut self, url: &str, body: Vec<u8>) -> FakeClient {
        self.pages.insert(url.to_string(), body);
        self
    }
}

impl Downloader for &FakeClient {
    fn get(&self, url: &str) -> Result<Vec<u8>, String> {
        self.calls.borrow_mut().push(url.to_string());
        match self.pages.get(url) {
            Some(body) => Ok(body.clone()),
            None => Err(format!("unreachable host: {}", url)),
        }
    }
}

fn png_bytes(w: u32, h: u32) -> Vec<u8> {
    let img = image::DynamicImage::ImageRgba8(image::RgbaImage::new(w, h));
    let mut buf = std::io::Cursor::new(Vec::new());
    img.write_to(&mut buf, image::ImageFormat::Png).unwrap();
    buf.into_inner()
}

const PAGE_AB: &str = "<html><head>\
    <link rel=\"icon\" href=\"a.png\">\
    <link rel=\"icon\" href=\"b.png\">\
    </head><body></body></html>";

#[test]
fn scenario_a_largest_icon_wins() {
    let client = FakeClient::new()
        .with("https://x.test/", PAGE_AB.as_bytes().to_vec())
        .with("https://x.test/a.png", png_bytes(16, 16))
        .with("https://x.test/b.png", png_bytes(64, 64));
    let icon = infer_icon(&client, "https://x.test/").unwrap();
    assert_eq!(icon.source, "https://x.test/b.png");
    assert_eq!(icon.size, Size { w: 64, h: 64 });
    assert_eq!(icon.ext, "png");
    assert_eq!(icon.name, "x.test");
}

#[test]
fn scenario_b_partial_failure_tolerated() {
    let client = FakeClient::new()
        .with("https://x.test/", PAGE_AB.as_bytes().to_vec())
        .with("https://x.test/a.png", png_bytes(16, 16));
    let icon = infer_icon(&client, "https://x.test/").unwrap();
    assert_eq!(icon.source, "https://x.test/a.png");
    assert_eq!(icon.size, Size { w: 16, h: 16 });
}

#[test]
fn scenario_c_no_links_is_no_candidates() {
    let client = FakeClient::new().with(
        "https://x.test/",
        b"<html><head><title>t</title></head><body><p>hi</p></body></html>".to_vec(),
    );
    let err = infer_icon(&client, "https://x.test/").unwrap_err();
    assert!(matches!(err, Error::NoCandidates));
}

#[test]
fn scenario_d_all_fetches_fail_is_no_icons_decoded() {
    let client = FakeClient::new().with("https://x.test/", PAGE_AB.as_bytes().to_vec());
    let err = infer_icon(&client, "https://x.test/").unwrap_err();
    assert!(matches!(err, Error::NoIconsDecoded));
}

#[test]
fn page_fetch_failure_is_fatal() {
    let client = FakeClient::new();
    let err = infer_icon(&client, "https://down.test/").unwrap_err();
    assert!(matches!(err, Error::FetchPage(_)));
}

#[test]
fn page_that_is_not_utf8_is_a_fetch_failure() {
    let client = FakeClient::new().with("https://x.test/", vec![0xff, 0xfe, 0x80, 0x80]);
    let err = infer_icon(&client, "https://x.test/").unwrap_err();
    assert!(matches!(err, Error::FetchPage(_)));
}

#[test]
fn non_icon_rel_is_never_fetched() {
    let page = "<html><head>\
        <link rel=\"stylesheet\" href=\"style.css\">\
        <link rel=\"icon\" href=\"a.png\">\
        <link href=\"norel.png\">\
        <link rel=\"preload\">\
        </head></html>";
    let client = FakeClient::new()
        .with("https://x.test/", page.as_bytes().to_vec())
        .with("https://x.test/a.png", png_bytes(8, 8));
    let icon = infer_icon(&client, "https://x.test/").unwrap();
    assert_eq!(icon.source, "https://x.test/a.png");
    let calls = client.calls.borrow().clone();
    assert_eq!(
        calls,
        vec![
            "https://x.test/".to_string(),
            "https://x.test/a.png".to_string()
        ]
    );
}

#[test]
fn duplicate_candidates_are_fetched_twice() {
    let page = "<html><head>\
        <link rel=\"icon\" href=\"a.png\">\
        <link rel=\"icon\" href=\"a.png\">\
        </head></html>";
    let client = FakeClient::new()
        .with("https://x.test/", page.as_bytes().to_vec())
        .with("https://x.test/a.png", png_bytes(4, 4));
    let icon = infer_icon(&client, "https://x.test/").unwrap();
    assert_eq!(icon.size, Size { w: 4, h: 4 });
    assert_eq!(client.calls.borrow().len(), 3);
}

#[test]
fn relative_href_resolves_against_page_url() {
    let body = "<link rel=\"icon\" href=\"/favicon.png\">";
    let candidates = nativefier::infer::scrape_body(body, "https://x.test/deep/page.html");
    assert_eq!(candidates, vec!["https://x.test/favicon.png".to_string()]);
}

#[test]
fn absolute_href_passes_through_unchanged() {
    let body = "<link rel=\"icon\" href=\"http://cdn.test/i.png\">\
        <link rel=\"icon\" href=\"https://cdn.test/j.png\">\
        <link rel=\"shortcut icon\" href=\"img/icon.png\">";
    let candidates = nativefier::infer::scrape_body(body, "https://x.test/a/b.html");
    assert_eq!(
        candidates,
        vec![
            "http://cdn.test/i.png".to_string(),
            "https://cdn.test/j.png".to_string(),
            "https://x.test/a/img/icon.png".to_string()
        ]
    );
}

#[test]
fn relative_href_containing_http_is_still_resolved() {
    // "http" as a mere substring is not a scheme marker: this href is
    // relative and must resolve against the page URL.
    let body = "<link rel=\"icon\" href=\"/icons/http/a.png\">\
        <link rel=\"icon\" href=\"http-assets/b.png\">";
    let candidates = nativefier::infer::scrape_body(body, "https://x.test/deep/page.html");
    assert_eq!(
        candidates,
        vec![
            "https://x.test/icons/http/a.png".to_string(),
            "https://x.test/deep/http-assets/b.png".to_string()
        ]
    );
}

#[test]
fn other_schemes_come_out_absolute_through_resolution() {
    // A protocol-relative href and an uppercase scheme are not the verbatim
    // fast path, but standard resolution still yields an absolute URL.
    let body = "<link rel=\"icon\" href=\"//cdn.test/i.png\">\
        <link rel=\"icon\" href=\"HTTP://cdn.test/j.png\">";
    let candidates = nativefier::infer::scrape_body(body, "https://x.test/a/b.html");
    assert_eq!(
        candidates,
        vec![
            "https://cdn.test/i.png".to_string(),
            "http://cdn.test/j.png".to_string()
        ]
    );
}

#[test]
fn unresolvable_hrefs_are_dropped_not_fatal() {
    let body = "<link rel=\"icon\" href=\"b.png\">\
        <link rel=\"icon\" href=\"a.png\">";
    let candidates = nativefier::infer::scrape_body(body, "not a base url");
    // Neither href carries a scheme marker and the base does not parse:
    // both candidates drop, none crash the scrape.
    assert_eq!(candidates, Vec::<String>::new());
}

#[test]
fn scrape_returns_resolved_candidates() {
    let client = FakeClient::new().with("https://x.test/", PAGE_AB.as_bytes().to_vec());
    let inferer = Inferer { client: &client };
    let links = inferer.scrape("https://x.test/").unwrap();
    assert_eq!(
        links,
        vec![
            "https://x.test/a.png".to_string(),
            "https://x.test/b.png".to_string()
        ]
    );
}

#[test]
fn scrape_of_an_unreachable_page_is_a_fetch_error() {
    let client = FakeClient::new();
    let inferer = Inferer { client: &client };
    let err = inferer.scrape("https://down.test/").unwrap_err();
    assert!(matches!(err, Error::FetchPage(_)));
}

#[test]
fn decoding_garbage_yields_no_icon() {
    let data = b"this is not an image at all".to_vec();
    assert!(Icon::from_data("https://x.test/a.png", &data).is_none());
}

#[test]
fn decoding_empty_payload_yields_no_icon() {
    let data: Vec<u8> = Vec::new();
    assert!(Icon::from_data("https://x.test/a.png", &data).is_none());
}

#[test]
fn decoded_png_icon_has_exact_fields() {
    let data = png_bytes(5, 3);
    let icon = Icon::from_data("https://icons.test/img/fav.png", &data).unwrap();
    assert_eq!(icon.source, "https://icons.test/img/fav.png");
    assert_eq!(icon.name, "icons.test");
    assert_eq!(icon.ext, "png");
    assert_eq!(icon.size, Size { w: 5, h: 3 });
    assert_eq!(icon.pixels.len(), 4 * 5 * 3);
}

#[test]
fn decoded_ico_gets_ico_extension() {
    let img = image::DynamicImage::ImageRgba8(image::RgbaImage::new(16, 16));
    let mut buf = std::io::Cursor::new(Vec::new());
    img.write_to(&mut buf, image::ImageFormat::Ico).unwrap();
    let icon = Icon::from_data("https://x.test/favicon.ico", &buf.into_inner()).unwrap();
    assert_eq!(icon.ext, "ico");
    assert_eq!(icon.size, Size { w: 16, h: 16 });
}

#[test]
fn decoded_jpeg_gets_jpeg_extension() {
    let img = image::DynamicImage::ImageRgb8(image::RgbImage::new(10, 10));
    let mut buf = std::io::Cursor::new(Vec::new());
    img.write_to(&mut buf, image::ImageFormat::Jpeg).unwrap();
    let icon = Icon::from_data("https://x.test/photo.jpg", &buf.into_inner()).unwrap();
    assert_eq!(icon.ext, "jpeg");
    assert_eq!(icon.size, Size { w: 10, h: 10 });
    assert_eq!(icon.pixels.len(), 4 * 10 * 10);
}

#[test]
fn extension_is_sniffed_from_bytes_not_from_the_url() {
    // PNG bytes behind a name that claims to be an ICO.
    let icon = Icon::from_data("https://x.test/favicon.ico", &png_bytes(2, 2)).unwrap();
    assert_eq!(icon.ext, "png");
}

#[test]
fn icon_with_unparsable_source_url_is_dropped() {
    let data = png_bytes(2, 2);
    assert!(Icon::from_data("http://[broken", &data).is_none());
}

#[test]
fn icon_equality_is_name_and_dimensions() {
    let a = Icon::from_data("https://x.test/a.png", &png_bytes(4, 4)).unwrap();
    let b = Icon::from_data("https://x.test/b.png", &png_bytes(4, 4)).unwrap();
    let c = Icon::from_data("https://x.test/c.png", &png_bytes(4, 5)).unwrap();
    assert!(a == b);
    assert!(a != c);
}
