use screen_time::app_info::{split_bytes, AppInfoTable};

#[test]
fn parse_skips_malformed_lines() {
    let text = b"code;/usr/share/applications/code.desktop\nbroken line\nfirefox;/a;/b\r\nvlc;/vlc.desktop\r\n".to_vec();
    let table = AppInfoTable::parse(&text).unwrap();
    assert!(table.contains_key("code"));
    assert!(table.contains_key("vlc"));
    assert!(!table.contains_key("firefox"));
    assert!(!table.contains_key("broken line"));
    assert_eq!(table.render(), b"code;/usr/share/applications/code.desktop\nvlc;/vlc.desktop\n".to_vec());
}

#[test]
fn later_lines_win() {
    let text = b"code;/old\ncode;/new\n".to_vec();
    let table = AppInfoTable::parse(&text).unwrap();
    assert_eq!(table.render(), b"code;/new\n".to_vec());
}

#[test]
fn parse_rejects_non_utf8() {
    assert!(AppInfoTable::parse(&vec![b'a', b';', 0xff]).is_none());
}

#[test]
fn insert_replaces_in_place() {
    let mut table = AppInfoTable::new();
    assert_eq!(table.render(), Vec::<u8>::new());
    table.insert("a".to_string(), "/1".to_string());
    table.insert("b".to_string(), "/2".to_string());
    table.insert("a".to_string(), "/3".to_string());
    assert_eq!(table.render(), b"a;/3\nb;/2\n".to_vec());
}

#[test]
fn split_keeps_empty_pieces() {
    let pieces = split_bytes(&b";x;;".to_vec(), b';');
    assert_eq!(pieces, vec![vec![], b"x".to_vec(), vec![], vec![]]);
    assert_eq!(split_bytes(&Vec::new(), b';'), vec![Vec::<u8>::new()]);
}
