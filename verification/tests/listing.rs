use ftp_client::listing::{file_name_fields, file_size_fields, format_response, try_format_response};
use regex::Regex;

fn by_regex(pattern: &str, text: &str) -> Vec<String> {
    let re = Regex::new(pattern).unwrap();
    re.captures_iter(text).map(|c| c[1].to_string()).collect()
}

const NAME: &str = r"(.*)(?:\s\s\[.*\sbytes\][\n\r])";
const SIZE: &str = r"(\d+)(?:\sbytes\][\n\r])";

fn samples() -> Vec<&'static str> {
    vec![
        "",
        "a.txt  [12 bytes]\n",
        "a.txt  [12 bytes]\nb.bin  [3 bytes]\n",
        "report final.pdf  [1024 bytes]\r\nnotes  [0 bytes]\n",
        "x  [1 bytes]  [2 bytes]\n",
        "odd\n\n[7 bytes]\n",
        "weird  [1 bytes]\rtail  [22 bytes]\n",
        "no entry here\n",
        "5 bytes]\n",
        "name\u{a0}\u{2003}[\u{0663}\u{0664} bytes]\n",
        "\u{0661}\u{0662}\u{85}bytes]\r",
        "a  [x\n12 bytes]\n",
        "abc  [ bytes]\n   [9 bytes]\n",
        "k12  [34 bytes]\nz  [5  bytes]\n",
        "\u{1d7ce}\u{1d7cf} bytes]\n",
        "tab\t\t[9\tbytes]\rq  [8 bytes]]\n",
    ]
}

#[test]
fn names_match_the_listing_pattern() {
    for s in samples() {
        assert_eq!(file_name_fields(s), by_regex(NAME, s), "listing {:?}", s);
    }
}

#[test]
fn sizes_match_the_size_pattern() {
    for s in samples() {
        assert_eq!(file_size_fields(s), by_regex(SIZE, s), "listing {:?}", s);
    }
}

#[test]
fn entries_pair_names_with_sizes() {
    let listing = String::from("a.txt  [12 bytes]\nb.bin  [3 bytes]\n");
    let entries = format_response(&listing);
    assert_eq!(entries.len(), 2);
    assert_eq!(entries[0].f_name, "a.txt");
    assert_eq!(entries[0].f_size, "12");
    assert_eq!(entries[1].f_name, "b.bin");
    assert_eq!(entries[1].f_size, "3");
}

#[test]
fn names_without_sizes_get_empty_size() {
    let listing = String::from("x  [1 bytes]  [2 bytes]\n");
    let entries = format_response(&listing);
    assert_eq!(entries.len(), 1);
    assert_eq!(entries[0].f_name, "x  [1 bytes]");
    assert_eq!(entries[0].f_size, "2");
    let listing = String::from("abc  [ bytes]\n");
    let entries = format_response(&listing);
    assert_eq!(entries.len(), 1);
    assert_eq!(entries[0].f_name, "abc");
    assert_eq!(entries[0].f_size, "");
}

#[test]
fn more_sizes_than_names_is_refused() {
    let listing = String::from("5 bytes]\n");
    assert!(try_format_response(&listing).is_none());
    let listing = String::from("a  [5 bytes]\n");
    assert_eq!(try_format_response(&listing).unwrap().len(), 1);
}
