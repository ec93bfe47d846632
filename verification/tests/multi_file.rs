use dreamberd::multi_file::parse_multi_file_format;

#[test]
fn test_parse_multi_file_format() {
    let code = "===== file1.db =====\ncode1\n===== file2.db =====\ncode2";
    let files = parse_multi_file_format(code);
    assert_eq!(files.len(), 2);
}

#[test]
fn programs_get_their_names_and_their_text() {
    let code = "===== file1.db =====\ncode1\n===== file2.db =====\ncode2";
    let files = parse_multi_file_format(code);
    assert_eq!(
        files,
        vec![
            (Some("file1.db".to_string()), "code1\n".to_string()),
            (Some("file2.db".to_string()), "code2\n".to_string())
        ]
    );
}

#[test]
fn file_without_separators_is_one_program() {
    assert_eq!(parse_multi_file_format(""), vec![(None, String::new())]);
    assert_eq!(parse_multi_file_format("a!\r\nb!"), vec![(None, "a!\nb!\n".to_string())]);
}

#[test]
fn text_before_the_first_separator_goes_to_the_first_program() {
    let files = parse_multi_file_format("intro\n=====\nbody\n==========\nlast");
    assert_eq!(
        files,
        vec![(None, "intro\nbody\n".to_string()), (None, "last\n".to_string())]
    );
}
