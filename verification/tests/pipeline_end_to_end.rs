use media_scraper::pipeline::{
    extract_media_links, is_success_status, scrape_media_links, scrape_response,
};

fn pair(name: &str, url: &str) -> (String, String) {
    (name.to_string(), url.to_string())
}

#[test]
fn end_to_end_single_entry() {
    let body = "<video src=\"intro.mp4\"></video>\
                <a href=\"intro.mp4\">clip</a>\
                <a href=\"readme.txt\">notes</a>";
    let links = scrape_media_links(body, "https://s.test/p");
    assert_eq!(links, vec![pair("intro.mp4", "https://s.test/p/intro.mp4")]);
}

#[test]
fn document_order_is_preserved() {
    let body = "<audio src=\"a.mp3\"></audio>\
                <video src=\"b.mp4\"></video>\
                <a href=\"a.mp3\">again</a>";
    let links = scrape_media_links(body, "https://s.test/p");
    assert_eq!(
        links,
        vec![
            pair("a.mp3", "https://s.test/p/a.mp3"),
            pair("b.mp4", "https://s.test/p/b.mp4"),
        ]
    );
}

#[test]
fn source_element_is_inspected() {
    let body = "<source src=\"track.flac\">";
    let links = scrape_media_links(body, "https://s.test/p");
    assert_eq!(links, vec![pair("track.flac", "https://s.test/p/track.flac")]);
}

#[test]
fn anchor_to_pdf_is_excluded() {
    let body = "<a href=\"doc.pdf\">doc</a>";
    let links = scrape_media_links(body, "https://s.test/p");
    assert_eq!(links, Vec::<(String, String)>::new());
}

#[test]
fn element_without_relevant_attribute_is_skipped() {
    let body = "<audio></audio><a>nowhere</a><video src=\"v.webm\"></video>";
    let links = scrape_media_links(body, "https://s.test/p");
    assert_eq!(links, vec![pair("v.webm", "https://s.test/p/v.webm")]);
}

#[test]
fn unselected_tags_are_ignored() {
    let body = "<img src=\"pic.mp4\"><embed src=\"clip.mp4\"><object data=\"o.mp4\"></object>";
    let links = scrape_media_links(body, "https://s.test/p");
    assert_eq!(links, Vec::<(String, String)>::new());
}

#[test]
fn subtitle_track_is_not_media() {
    let body = "<track src=\"subs.vtt\">";
    let links = scrape_media_links(body, "https://s.test/p");
    assert_eq!(links, Vec::<(String, String)>::new());
}

#[test]
fn running_twice_yields_identical_results() {
    let body = "<audio src=\"a.mp3\"></audio>\
                <a href=\"//cdn.test/b.ogg\">b</a>\
                <video src=\"/c.webm?t=2\"></video>";
    let first = scrape_media_links(body, "https://s.test/p");
    let second = scrape_media_links(body, "https://s.test/p");
    assert_eq!(first, second);
}

#[test]
fn same_url_from_src_and_href_collapses() {
    let body = "<video src=\"/m/v.mp4\"></video><a href=\"/m/v.mp4\">v</a>";
    let links = scrape_media_links(body, "https://s.test");
    assert_eq!(links, vec![pair("v.mp4", "https://s.test/m/v.mp4")]);
}

#[test]
fn extract_over_prepared_elements() {
    let elements = vec![
        ("audio".to_string(), Some("a.mp3".to_string()), None),
        ("a".to_string(), None, Some("b.mp4?x=1".to_string())),
        ("div".to_string(), Some("c.mp3".to_string()), Some("c.mp3".to_string())),
    ];
    let links = extract_media_links(&elements, "https://s.test/p");
    assert_eq!(
        links,
        vec![
            pair("a.mp3", "https://s.test/p/a.mp3"),
            pair("b.mp4", "https://s.test/p/b.mp4"),
        ]
    );
}

#[test]
fn same_file_name_under_different_urls_stays_distinct() {
    let body = "<a href=\"/a/x.mp3\">one</a><a href=\"/b/x.mp3\">two</a>";
    let links = scrape_media_links(body, "https://s.test");
    assert_eq!(
        links,
        vec![
            pair("x.mp3", "https://s.test/a/x.mp3"),
            pair("x.mp3", "https://s.test/b/x.mp3"),
        ]
    );
}

#[test]
fn response_is_scraped_only_on_success_with_a_body() {
    let body = "<audio src=\"a.mp3\"></audio>";
    assert_eq!(
        scrape_response(200, Some(body), "https://s.test/p"),
        Some(vec![pair("a.mp3", "https://s.test/p/a.mp3")])
    );
    assert_eq!(scrape_response(404, Some(body), "https://s.test/p"), None);
    assert_eq!(scrape_response(200, None, "https://s.test/p"), None);
    assert_eq!(
        scrape_response(204, Some(""), "https://s.test/p"),
        Some(Vec::new())
    );
}

#[test]
fn status_categories() {
    assert!(is_success_status(200));
    assert!(is_success_status(204));
    assert!(is_success_status(299));
    assert!(!is_success_status(199));
    assert!(!is_success_status(300));
    assert!(!is_success_status(404));
    assert!(!is_success_status(502));
}
