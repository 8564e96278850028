use tarnish::trove::embedded_feed_data;
use tarnish::util::{extension, file_name, path_join, u64_string, url_path_ext};

#[test]
fn file_name_is_the_path_tail() {
    assert_eq!(file_name("https://h/a/b/setup.exe"), Some("setup.exe".to_string()));
    assert_eq!(file_name("plain"), Some("plain".to_string()));
    assert_eq!(file_name("ends/with/"), None);
    assert_eq!(file_name(""), None);
}

#[test]
fn extension_is_the_tail_after_the_last_dot() {
    assert_eq!(extension("a/b/c.tar.gz"), Some("gz".to_string()));
    assert_eq!(extension("a/b/image.png"), Some("png".to_string()));
    assert_eq!(extension("a/b/nodot"), None);
    assert_eq!(extension("a/b/trailing."), None);
}

#[test]
fn url_path_ext_ignores_the_query() {
    assert_eq!(url_path_ext("https://h/p/img.jpeg?w=100&h=2.5"), Some("jpeg".to_string()));
    assert_eq!(url_path_ext("https://h/p/img.jpeg"), Some("jpeg".to_string()));
    assert_eq!(url_path_ext("https://h/p/raw?fmt=png"), None);
}

#[test]
fn path_join_inserts_one_separator() {
    assert_eq!(path_join("/root", "file.bin"), "/root/file.bin");
    assert_eq!(path_join("", "f"), "/f");
}

#[test]
fn decimal_formatting_matches_expectations() {
    assert_eq!(u64_string(0), "0");
    assert_eq!(u64_string(7), "7");
    assert_eq!(u64_string(12345), "12345");
    assert_eq!(u64_string(u64::MAX), "18446744073709551615");
}

#[test]
fn embedded_feed_data_reads_the_identified_element() {
    let html = "<html><body>\
        <script id=\"other-data\">{\"x\":0}</script>\
        <script id=\"webpack-monthly-trove-data\">{\"standardProducts\":[]}</script>\
        </body></html>";
    assert_eq!(embedded_feed_data(html), Some("{\"standardProducts\":[]}".to_string()));
}

#[test]
fn embedded_feed_data_reports_missing_element() {
    assert_eq!(embedded_feed_data("<html><body><p>nothing here</p></body></html>"), None);
}
