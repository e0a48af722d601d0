use waywallen::system_info::{parse_name_line, parse_os_name, parse_value, unescape, SystemInfo};

#[test]
fn parses_os_release_name() {
    assert_eq!(
        parse_os_name("ID=fedora\nNAME=\"Fedora Linux\"\n"),
        Some("Fedora Linux".to_owned())
    );
    assert_eq!(parse_os_name("NAME=Ubuntu\n"), Some("Ubuntu".to_owned()));
    assert_eq!(
        parse_os_name("NAME='Arch Linux'\n"),
        Some("Arch Linux".to_owned())
    );
    assert_eq!(
        parse_os_name("NAME=First\nNAME=Second\\ Linux\n"),
        Some("Second Linux".to_owned())
    );
}

#[test]
fn skips_comments_blank_lines_and_other_keys() {
    assert_eq!(parse_os_name(""), None);
    assert_eq!(parse_os_name("# NAME=Commented\n\nID=x\n"), None);
    assert_eq!(parse_os_name("  NAME = Spaced  \r\nID=y"), Some("Spaced".to_owned()));
    assert_eq!(parse_name_line("NAMES=x"), None);
    assert_eq!(parse_name_line("NAME"), None);
}

#[test]
fn a_broken_last_line_leaves_the_earlier_name() {
    assert_eq!(
        parse_os_name("NAME=Good\nNAME=Bad\\\n"),
        Some("Good".to_owned())
    );
}

#[test]
fn values_are_unquoted_and_unescaped() {
    assert_eq!(parse_value("\"a\\\"b\""), Some("a\"b".to_owned()));
    assert_eq!(parse_value("'a\\b'"), Some("a\\b".to_owned()));
    assert_eq!(parse_value("\""), Some("\"".to_owned()));
    assert_eq!(parse_value("\"\""), Some(String::new()));
    assert_eq!(unescape("x\\"), None);
    assert_eq!(unescape("\\\\"), Some("\\".to_owned()));
}

#[test]
fn system_info_from_os_release_text() {
    let info = SystemInfo::from_os_release("NAME=\"Test Linux\"\n");
    assert_eq!(info.os_name(), "Test Linux");
    let unknown = SystemInfo::from_os_release("ID=none\n");
    assert_eq!(unknown.os_name(), "");
    assert_eq!(SystemInfo::default().os_name(), "");
}
