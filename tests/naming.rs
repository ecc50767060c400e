use downloader::naming::{file_name_from_path, file_name_from_url, Source};
use downloader::transfer::TransferError;

#[test]
fn name_is_last_path_segment() {
    let s = Source::parse("https://host/dir/a.txt").unwrap();
    assert_eq!(s.path, "/dir/a.txt");
    assert_eq!(file_name_from_url(&s), "a.txt");
}

#[test]
fn query_and_fragment_are_not_part_of_the_name() {
    let s = Source::parse("https://host/files/report.pdf?x=1#top").unwrap();
    assert_eq!(file_name_from_url(&s), "report.pdf");
}

#[test]
fn trailing_slash_takes_last_non_empty_segment() {
    let s = Source::parse("https://host/dir/").unwrap();
    assert_eq!(file_name_from_url(&s), "dir");
    let s = Source::parse("https://host/a/b.txt//").unwrap();
    assert_eq!(file_name_from_url(&s), "b.txt");
}

#[test]
fn no_non_empty_segment_falls_back_to_download() {
    let s = Source::parse("https://host").unwrap();
    assert_eq!(s.path, "/");
    assert_eq!(file_name_from_url(&s), "download");
}

#[test]
fn path_without_leading_slash_falls_back_to_download() {
    let s = Source::parse("mailto:someone@example.com").unwrap();
    assert_eq!(file_name_from_url(&s), "download");
    assert_eq!(file_name_from_path("a/b.txt"), "download");
    assert_eq!(file_name_from_path(""), "download");
}

#[test]
fn name_from_plain_paths() {
    assert_eq!(file_name_from_path("/a/b/c.tar.gz"), "c.tar.gz");
    assert_eq!(file_name_from_path("/only"), "only");
    assert_eq!(file_name_from_path("/"), "download");
    assert_eq!(file_name_from_path("///"), "download");
    assert_eq!(file_name_from_path("/x//"), "x");
}

#[test]
fn malformed_locator_is_invalid_source() {
    match Source::parse("not a url") {
        Err(TransferError::InvalidSource { source, message }) => {
            assert_eq!(source, "not a url");
            assert!(!message.is_empty());
        }
        other => panic!("unexpected {:?}", other),
    }
}

#[test]
fn parse_normalises_the_locator() {
    let s = Source::parse("HTTPS://Host/a.txt").unwrap();
    assert_eq!(s.href, "https://host/a.txt");
}
