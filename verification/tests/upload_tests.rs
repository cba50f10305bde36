use dropmutt_site::disposition::parse_content_disposition;
use dropmutt_site::error::DropmuttError;
use dropmutt_site::form_value::FormValue;
use dropmutt_site::upload::{
    post_kind, ImageForm, MultipartDecoder, PartClass, PostKind, TextFieldBuffer,
};

const FILE_HEADER: &[u8] = b"form-data; name=\"file-upload\"; filename=\"cat.png\"";
const TEXT_HEADER: &[u8] = b"form-data; name=\"description\"";

#[test]
fn disposition_reads_name_and_filename() {
    let d = parse_content_disposition("form-data; name=\"file\"; filename=\"img.png\"");
    assert_eq!(d.name.as_deref(), Some("file"));
    assert_eq!(d.filename.as_deref(), Some("img.png"));
}

#[test]
fn disposition_trims_and_unquotes() {
    let d = parse_content_disposition("form-data;  name = upload ; filename =  \"a b.png\"  ");
    assert_eq!(d.name.as_deref(), Some("upload"));
    assert_eq!(d.filename.as_deref(), Some("a b.png"));
}

#[test]
fn disposition_skips_malformed_segments_and_unknown_keys() {
    let d = parse_content_disposition("form-data; bogus; charset=utf-8; name=\"x\"");
    assert_eq!(d.name.as_deref(), Some("x"));
    assert_eq!(d.filename, None);
}

#[test]
fn disposition_first_occurrence_wins() {
    let d = parse_content_disposition("name=\"a\"; name=\"b\"");
    assert_eq!(d.name.as_deref(), Some("a"));
}

#[test]
fn post_kind_classifies_request_bodies() {
    assert_eq!(
        post_kind(Some("multipart/form-data")).unwrap(),
        PostKind::Multipart
    );
    assert_eq!(
        post_kind(Some("application/x-www-form-urlencoded")).unwrap(),
        PostKind::UrlEncoded
    );
    assert_eq!(
        post_kind(Some("text/html")).unwrap_err(),
        DropmuttError::ContentType
    );
    assert_eq!(post_kind(None).unwrap_err(), DropmuttError::ContentType);
}

#[test]
fn begin_part_classifies_file_text_and_nested() {
    let mut dec = MultipartDecoder::new();
    match dec.begin_part(Some("image/png"), Some(FILE_HEADER)).unwrap() {
        PartClass::FilePart { name, filename } => {
            assert_eq!(name, "file-upload");
            assert_eq!(filename, "cat.png");
        }
        _ => panic!("expected a file part"),
    }
    match dec.begin_part(Some("text/plain"), Some(TEXT_HEADER)).unwrap() {
        PartClass::TextPart { name } => assert_eq!(name, "description"),
        _ => panic!("expected a text part"),
    }
    match dec.begin_part(None, Some(TEXT_HEADER)).unwrap() {
        PartClass::TextPart { name } => assert_eq!(name, "description"),
        _ => panic!("expected a text part"),
    }
    match dec.begin_part(Some("multipart/mixed"), Some(TEXT_HEADER)).unwrap() {
        PartClass::NestedPart { name } => assert_eq!(name, "description"),
        _ => panic!("expected a nested part"),
    }
}

#[test]
fn begin_part_rejects_bad_headers() {
    let mut dec = MultipartDecoder::new();
    assert_eq!(
        dec.begin_part(Some("image/png"), None).unwrap_err(),
        DropmuttError::ContentDisposition
    );
    assert_eq!(
        dec.begin_part(Some("image/png"), Some(&[0xff, 0xfe])).unwrap_err(),
        DropmuttError::ContentDisposition
    );
    assert_eq!(
        dec.begin_part(Some("image/png"), Some(b"form-data; foo=bar")).unwrap_err(),
        DropmuttError::MissingFieldName
    );
    assert_eq!(
        dec.begin_part(Some("image/png"), Some(b"form-data; name=\"x\"")).unwrap_err(),
        DropmuttError::MissingFilename
    );
    assert_eq!(
        dec.begin_part(Some("video/mp4"), Some(TEXT_HEADER)).unwrap_err(),
        DropmuttError::ContentType
    );
}

#[test]
fn eleventh_file_part_fails_after_ten_accepted() {
    let mut dec = MultipartDecoder::new();
    for _ in 0..10 {
        assert!(dec.begin_part(Some("image/png"), Some(FILE_HEADER)).is_ok());
    }
    assert_eq!(dec.file_count, 10);
    assert_eq!(
        dec.begin_part(Some("image/png"), Some(FILE_HEADER)).unwrap_err(),
        DropmuttError::FileCount
    );
    assert_eq!(dec.file_count, 10);
}

#[test]
fn hundred_first_text_field_fails() {
    let mut dec = MultipartDecoder::new();
    for _ in 0..100 {
        assert!(dec.begin_part(Some("text/plain"), Some(TEXT_HEADER)).is_ok());
    }
    assert_eq!(
        dec.begin_part(Some("text/plain"), Some(TEXT_HEADER)).unwrap_err(),
        DropmuttError::FormCount
    );
}

#[test]
fn text_field_fails_at_eighty_thousand_bytes() {
    let mut buf = TextFieldBuffer::new();
    let chunk = vec![b'x'; 79_999];
    assert!(buf.push_chunk(&chunk).is_ok());
    assert_eq!(buf.push_chunk(b"y").unwrap_err(), DropmuttError::FormSize);
    assert!(buf.finish().is_ok());

    let mut buf2 = TextFieldBuffer::new();
    let big = vec![b'x'; 80_000];
    assert_eq!(buf2.push_chunk(&big).unwrap_err(), DropmuttError::FormSize);
}

#[test]
fn text_field_decodes_utf8_and_rejects_invalid() {
    let mut buf = TextFieldBuffer::new();
    assert!(buf.push_chunk("caf\u{e9}".as_bytes()).is_ok());
    assert_eq!(buf.finish().unwrap(), "caf\u{e9}");

    let mut bad = TextFieldBuffer::new();
    assert!(bad.push_chunk(&[0xff, 0x00]).is_ok());
    assert_eq!(bad.finish().unwrap_err(), DropmuttError::Utf8);
}

#[test]
fn finish_text_part_rejects_bad_names() {
    let mut dec = MultipartDecoder::new();
    assert_eq!(
        dec.finish_text_part("a[b]c", "v".to_string()).unwrap_err(),
        DropmuttError::InvalidFieldName
    );
}

#[test]
fn decoder_builds_form_and_stored_files() {
    let mut dec = MultipartDecoder::new();
    dec.begin_part(Some("image/png"), Some(FILE_HEADER)).unwrap();
    dec.finish_file_part(
        "file-upload",
        "cat.png".to_string(),
        "000/000/000/abcdefghij.png".to_string(),
    )
    .unwrap();
    dec.begin_part(Some("text/plain"), Some(TEXT_HEADER)).unwrap();
    dec.finish_text_part("description", "a cat".to_string()).unwrap();
    dec.finish_text_part("alternate-text", "cat photo".to_string()).unwrap();
    dec.finish_text_part("gallery-name", "cats".to_string()).unwrap();
    let (form, files) = dec.finish();
    assert_eq!(files.len(), 1);
    assert_eq!(files[0].original_filename, "cat.png");
    assert_eq!(files[0].stored_relative_path, "000/000/000/abcdefghij.png");

    let typed = ImageForm::from_value(&form, &files).unwrap();
    assert_eq!(typed.file_upload.0, "cat.png");
    assert_eq!(typed.file_upload.1, "000/000/000/abcdefghij.png");
    assert_eq!(typed.description, "a cat");
    assert_eq!(typed.alternate_text, "cat photo");
    assert_eq!(typed.gallery_name, "cats");
}

#[test]
fn image_form_requires_every_field() {
    let mut dec = MultipartDecoder::new();
    dec.finish_text_part("description", "a cat".to_string()).unwrap();
    let (form, files) = dec.finish();
    assert!(ImageForm::from_value(&form, &files).is_none());
    assert!(ImageForm::from_value(&FormValue::Empty, &files).is_none());
}
