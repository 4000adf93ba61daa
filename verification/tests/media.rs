use lowresourcecapture::media::{concat_list, data_uri, data_uri_of_encoded, js_str};

#[test]
fn media_becomes_a_base64_data_uri() {
    assert_eq!(data_uri("video/mp4", &b"abc".to_vec()), "data:video/mp4;base64,YWJj");
    assert_eq!(data_uri("image/jpeg", &b"ab".to_vec()), "data:image/jpeg;base64,YWI=");
    assert_eq!(data_uri("image/jpeg", &Vec::new()), "data:image/jpeg;base64,");
    assert_eq!(data_uri_of_encoded("video/mp4", "QQ=="), "data:video/mp4;base64,QQ==");
}

#[test]
fn concat_list_uses_forward_slashes_one_line_per_piece() {
    let parts = vec![r"C:\Temp\lrc_seg_1_0.mp4".to_string(), "/tmp/b.mp4".to_string()];
    assert_eq!(concat_list(&parts), "file 'C:/Temp/lrc_seg_1_0.mp4'\nfile '/tmp/b.mp4'\n");
    assert_eq!(concat_list(&Vec::new()), "");
    assert_eq!(concat_list(&vec![r"\\a\".to_string()]), "file '//a/'\n");
}

#[test]
fn strings_are_quoted_for_a_script() {
    assert_eq!(js_str("clip.mp4"), "\"clip.mp4\"");
    assert_eq!(js_str("it's \"here\"\n"), "\"it's \\\"here\\\"\\n\"");
    assert_eq!(js_str(r"C:\a"), "\"C:\\\\a\"");
}

#[test]
fn control_characters_are_escaped_in_lowercase_hex() {
    assert_eq!(js_str("\u{1}\u{1f}\u{8}\u{c}\r\t"), "\"\\u0001\\u001f\\b\\f\\r\\t\"");
    assert_eq!(js_str("\u{7f}é/"), "\"\u{7f}é/\"", "DEL, non-ASCII and '/' are written as they are");
}

#[test]
fn base64_uses_the_standard_alphabet_with_padding() {
    assert_eq!(data_uri("x", &vec![0xfb, 0xff, 0xbf]), "data:x;base64,+/+/");
    assert_eq!(data_uri("x", &vec![0, 0, 0, 1]), "data:x;base64,AAAAAQ==");
    assert_eq!(data_uri("x", &b"Man".to_vec()), "data:x;base64,TWFu");
}
