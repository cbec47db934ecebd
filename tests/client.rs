use osekai_scripts::client::{medal_page_data, BodyBytes, MedalPageError, Multipart, OsekaiResponse};

#[test]
fn multipart_body_layout() {
    let m = Multipart::with_boundary(b"abcdefgh12345678".to_vec()).unwrap();
    let m = m.push_text(b"key", b"value");
    let m = m.push_json(b"data", b"{\"a\":1}");
    let body = m.finish();
    let expected = "--abcdefgh12345678\r\nContent-Disposition: form-data; name=\"key\"\r\n\r\nvalue\
        \r\n--abcdefgh12345678\r\nContent-Disposition: form-data; name=\"data\"\r\nContent-Type: application/json\r\n\r\n{\"a\":1}\
        \r\n--abcdefgh12345678--";
    assert_eq!(String::from_utf8(body).unwrap(), expected);
}

#[test]
fn empty_multipart_is_just_the_end() {
    let m = Multipart::with_boundary(b"ABCDEFGHIJKLMNOP".to_vec()).unwrap();
    assert_eq!(
        m.content_type(),
        "multipart/form-data; boundary=ABCDEFGHIJKLMNOP"
    );
    assert_eq!(m.finish(), b"--ABCDEFGHIJKLMNOP--".to_vec());
}

#[test]
fn bad_boundaries_are_refused() {
    assert!(Multipart::with_boundary(b"short".to_vec()).is_none());
    assert!(Multipart::with_boundary(b"abcdefgh1234567-".to_vec()).is_none());
}

#[test]
fn random_boundary_is_alphanumeric() {
    let m = Multipart::new();
    let ct = m.content_type();
    let boundary = ct.strip_prefix("multipart/form-data; boundary=").unwrap();
    assert_eq!(boundary.len(), 16);
    assert!(boundary.chars().all(|c| c.is_ascii_alphanumeric()));
}

#[test]
fn response_text_and_description() {
    let r = OsekaiResponse::new("ok ✓".as_bytes().to_vec()).ok().unwrap();
    assert_eq!(r.0, "ok ✓");
    assert_eq!(r.describe(), "; Response: ok ✓");
    let empty = OsekaiResponse::new(Vec::new()).ok().unwrap();
    assert_eq!(empty.describe(), "");
    let bad = OsekaiResponse::new(vec![0xff, 0x61]).err().unwrap();
    assert_eq!(bad.bytes, vec![0xff, 0x61]);
}

#[test]
fn medal_page_data_is_found() {
    let page = b"<html><div class=\"x\"></div><div data-initial-data='{\"achievements\":[]}'></div></html>";
    assert_eq!(medal_page_data(page.to_vec()).ok().unwrap(), "{\"achievements\":[]}");
}

#[test]
fn medal_page_errors() {
    assert!(matches!(
        medal_page_data(b"<div>nothing</div>".to_vec()),
        Err(MedalPageError::MissingData)
    ));
    match medal_page_data(vec![0xc3]) {
        Err(MedalPageError::InvalidUtf8(b)) => assert_eq!(b, vec![0xc3]),
        _ => panic!("expected invalid UTF-8"),
    }
}

#[test]
fn body_bytes_are_handed_out_once() {
    let mut b = BodyBytes::from_vec(vec![1, 2, 3]);
    assert_eq!(b.len(), 3);
    assert!(!b.is_empty());
    assert_eq!(b.take_data(), Some(vec![1, 2, 3]));
    assert!(b.is_empty());
    assert_eq!(b.take_data(), None);
}
