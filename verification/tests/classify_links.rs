use media_scraper::classify::classify_candidate;
use media_scraper::resolve::resolve_url;

const BASE: &str = "https://example.com/page";

fn pair(name: &str, url: &str) -> (String, String) {
    (name.to_string(), url.to_string())
}

#[test]
fn site_root_relative_prepends_base_verbatim() {
    assert_eq!(
        classify_candidate("/media/a.mp3", BASE),
        Some(pair("a.mp3", "https://example.com/page/media/a.mp3"))
    );
}

#[test]
fn protocol_relative_gets_https() {
    assert_eq!(
        classify_candidate("//cdn.example.com/b.mp4", BASE),
        Some(pair("b.mp4", "https://cdn.example.com/b.mp4"))
    );
}

#[test]
fn query_string_is_stripped_before_everything() {
    assert_eq!(
        classify_candidate("clip.wav?x=1", BASE),
        Some(pair("clip.wav", "https://example.com/page/clip.wav"))
    );
}

#[test]
fn absolute_url_is_kept_unchanged() {
    assert_eq!(
        classify_candidate("https://other.com/c.ogg", BASE),
        Some(pair("c.ogg", "https://other.com/c.ogg"))
    );
}

#[test]
fn application_category_is_excluded() {
    assert_eq!(classify_candidate("doc.pdf", BASE), None);
}

#[test]
fn audio_category_is_included() {
    assert_eq!(
        classify_candidate("track.flac", BASE),
        Some(pair("track.flac", "https://example.com/page/track.flac"))
    );
}

#[test]
fn surrounding_whitespace_is_trimmed() {
    assert_eq!(
        classify_candidate("  clip.mp3\n", BASE),
        Some(pair("clip.mp3", "https://example.com/page/clip.mp3"))
    );
}

#[test]
fn text_file_is_excluded() {
    assert_eq!(classify_candidate("readme.txt", BASE), None);
}

#[test]
fn file_name_without_dot_has_empty_extension_and_is_excluded() {
    assert_eq!(classify_candidate("mp3", BASE), None);
}

#[test]
fn empty_candidate_is_excluded() {
    assert_eq!(classify_candidate("", BASE), None);
}

#[test]
fn candidate_ending_in_slash_has_empty_file_name_and_is_excluded() {
    assert_eq!(classify_candidate("media/", BASE), None);
}

#[test]
fn any_http_prefix_counts_as_absolute() {
    assert_eq!(
        classify_candidate("httpclip.mp3", BASE),
        Some(pair("httpclip.mp3", "httpclip.mp3"))
    );
}

#[test]
fn base_with_trailing_slash_keeps_the_double_slash() {
    assert_eq!(
        classify_candidate("x.mp3", "https://h.test/"),
        Some(pair("x.mp3", "https://h.test//x.mp3"))
    );
}

#[test]
fn extension_lookup_is_case_insensitive() {
    assert_eq!(
        classify_candidate("LOUD.MP3", BASE),
        Some(pair("LOUD.MP3", "https://example.com/page/LOUD.MP3"))
    );
}

#[test]
fn resolve_url_rules() {
    assert_eq!(resolve_url("https://a.b/c.mp3", BASE), "https://a.b/c.mp3");
    assert_eq!(resolve_url("http://a.b/c.mp3", BASE), "http://a.b/c.mp3");
    assert_eq!(resolve_url("//cdn.test/c.mp3", BASE), "https://cdn.test/c.mp3");
    assert_eq!(
        resolve_url("/c.mp3", BASE),
        "https://example.com/page/c.mp3"
    );
    assert_eq!(
        resolve_url("c.mp3", BASE),
        "https://example.com/page/c.mp3"
    );
}
