use rust_upload::upload::extract_boundary;
use rust_upload::upload::filename_ext;
use rust_upload::upload::format_filename;

#[test]
fn test_ext() {
    assert_eq!(Some("jpg"), filename_ext("foo.jpg"));
    assert_eq!(Some("tar.gz"), filename_ext("foo.tar.gz"));
    assert_eq!(None, filename_ext(".png"));
    assert_eq!(None, filename_ext("../foo.png"));
    assert_eq!(None, filename_ext("tmp/../foo.png"));
}

#[test]
fn test_ext_length_limit() {
    assert_eq!(Some("abcdefg"), filename_ext("f.abcdefg"));
    assert_eq!(None, filename_ext("f.abcdefgh"));
}

#[test]
fn test_format_filename() {
    assert_eq!("foo.jpg", format_filename("foo.jpg"));
    assert_eq!("foo.tar.gz", format_filename("foo.tar.gz"));
    assert_eq!("foo", format_filename("foo"));
    assert_eq!("my-file_1.txt", format_filename("my-file_1.txt"));
    // An unusable base falls back, keeping a valid extension.
    assert_eq!("upload.jpg", format_filename("foo bar.jpg"));
    assert_eq!("upload", format_filename(".png"));
    assert_eq!("upload", format_filename("../foo.png"));
}

#[test]
fn test_extract_boundary() {
    assert_eq!(
        Some("abc123".to_owned()),
        extract_boundary("multipart/form-data; boundary=abc123")
    );
    assert_eq!(Some(String::new()), extract_boundary("boundary="));
    assert_eq!(None, extract_boundary("text/plain"));
    assert_eq!(None, extract_boundary("boundar=nope"));
}

#[test]
fn test_upload_url() {
    let id = rust_upload::expire_queue::UploadId::new("0123456789abcdef0123456789abcdef").unwrap();
    assert_eq!(
        "0123456789abcdef0123456789abcdef/foo.jpg",
        rust_upload::upload::upload_url(&id, "foo.jpg")
    );
}
