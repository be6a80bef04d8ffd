use media_archive::archive::Archive;
use media_archive::handlers::UploadField;
use media_archive::handlers::archive_request;
use media_archive::handlers::delete_request;
use media_archive::handlers::fallback_response;
use media_archive::handlers::stream_request;
use media_archive::handlers::upload_fields;
use media_archive::handlers::upload_request;
use media_archive::types::ArchiveError;
use media_archive::types::File;
use media_archive::types::FileUpload;
use media_archive::types::status_of_error;

fn named_field(name: &str, chunks: Vec<Vec<u8>>) -> UploadField {
    UploadField { name: Some(name.to_string()), chunks }
}

fn upload_one(archive: &mut Archive, name: &str, chunks: Vec<Vec<u8>>) -> (u16, String) {
    upload_request(archive, vec![named_field(name, chunks)])
}

fn stream_all(archive: &Archive, name: &str) -> Result<(u16, String, String, Vec<u8>), u16> {
    match stream_request(archive, &name.to_string()) {
        Ok((status, headers, mut reader)) => {
            let body = reader.read_to_end();
            Ok((status, headers.content_type, headers.accept_ranges, body))
        }
        Err(status) => Err(status),
    }
}

#[test]
fn round_trip_upload_then_stream() {
    let mut archive = Archive::new();
    let (status, message) = upload_one(
        &mut archive,
        "clip.mp4",
        vec![b"hel".to_vec(), b"lo ".to_vec(), b"world".to_vec()],
    );
    assert_eq!(status, 200);
    assert_eq!(message, "Video uploaded successfully");
    let (status, content_type, accept_ranges, body) =
        stream_all(&archive, "clip.mp4").expect("stored file must stream");
    assert_eq!(status, 200);
    assert_eq!(content_type, "video/mp4");
    assert_eq!(accept_ranges, "bytes");
    assert_eq!(body, b"hello world".to_vec());
}

#[test]
fn list_is_idempotent_without_writes() {
    let mut archive = Archive::new();
    upload_one(&mut archive, "a.mp4", vec![b"a".to_vec()]);
    upload_one(&mut archive, "b.mp4", vec![b"b".to_vec()]);
    let (status1, first) = archive_request(&archive);
    let (status2, second) = archive_request(&archive);
    assert_eq!(status1, 200);
    assert_eq!(status2, 200);
    let mut names1 = first.files;
    let mut names2 = second.files;
    names1.sort();
    names2.sort();
    assert_eq!(names1, names2);
    assert_eq!(names1, vec!["a.mp4".to_string(), "b.mp4".to_string()]);
}

#[test]
fn delete_removes_from_list_and_stream() {
    let mut archive = Archive::new();
    upload_one(&mut archive, "gone.mp4", vec![b"data".to_vec()]);
    upload_one(&mut archive, "kept.mp4", vec![b"data".to_vec()]);
    let result = delete_request(&mut archive, &"gone.mp4".to_string());
    let (status, message) = result.expect("present file must delete");
    assert_eq!(status, 200);
    assert_eq!(message, "File deleted successfully");
    let (_, listing) = archive_request(&archive);
    assert!(!listing.files.contains(&"gone.mp4".to_string()));
    assert!(listing.files.contains(&"kept.mp4".to_string()));
    assert_eq!(stream_all(&archive, "gone.mp4"), Err(404));
}

#[test]
fn empty_upload_creates_zero_byte_file() {
    let mut archive = Archive::new();
    let (status, _) = upload_one(&mut archive, "empty.mp4", vec![]);
    assert_eq!(status, 200);
    let (_, listing) = archive_request(&archive);
    assert!(listing.files.contains(&"empty.mp4".to_string()));
    let (status, _, _, body) = stream_all(&archive, "empty.mp4").expect("zero-byte file must stream");
    assert_eq!(status, 200);
    assert_eq!(body, Vec::<u8>::new());
}

#[test]
fn distinct_uploads_both_retrievable() {
    let mut archive = Archive::new();
    let (s1, _) = upload_one(&mut archive, "one.mp4", vec![b"first".to_vec()]);
    let (s2, _) = upload_one(&mut archive, "two.mp4", vec![b"second".to_vec()]);
    assert_eq!(s1, 200);
    assert_eq!(s2, 200);
    let (_, _, _, body1) = stream_all(&archive, "one.mp4").expect("first upload must stream");
    let (_, _, _, body2) = stream_all(&archive, "two.mp4").expect("second upload must stream");
    assert_eq!(body1, b"first".to_vec());
    assert_eq!(body2, b"second".to_vec());
}

#[test]
fn stream_missing_returns_404_without_body() {
    let archive = Archive::new();
    let result = stream_request(&archive, &"missing.mp4".to_string());
    match result {
        Ok(_) => panic!("absent name must not stream"),
        Err(status) => assert_eq!(status, 404),
    }
}

#[test]
fn delete_missing_then_twice() {
    let mut archive = Archive::new();
    assert_eq!(
        delete_request(&mut archive, &"missing.mp4".to_string()).err(),
        Some(404)
    );
    upload_one(&mut archive, "x.mp4", vec![b"x".to_vec()]);
    let (status, _) = delete_request(&mut archive, &"x.mp4".to_string()).expect("first delete succeeds");
    assert_eq!(status, 200);
    assert_eq!(delete_request(&mut archive, &"x.mp4".to_string()).err(), Some(404));
}

#[test]
fn unnamed_field_aborts_whole_request() {
    let mut archive = Archive::new();
    let fields = vec![
        named_field("early.mp4", vec![b"kept".to_vec()]),
        UploadField { name: None, chunks: vec![b"lost".to_vec()] },
        named_field("late.mp4", vec![b"never".to_vec()]),
    ];
    let (status, message) = upload_request(&mut archive, fields);
    assert_eq!(status, 500);
    assert_eq!(message, "Internal server error");
    let (_, _, _, body) = stream_all(&archive, "early.mp4").expect("earlier field stays stored");
    assert_eq!(body, b"kept".to_vec());
    assert_eq!(stream_all(&archive, "late.mp4"), Err(404));
}

#[test]
fn unnamed_field_is_a_bad_request() {
    let mut archive = Archive::new();
    let fields = vec![UploadField { name: None, chunks: vec![b"data".to_vec()] }];
    assert_eq!(upload_fields(&mut archive, fields).err(), Some(ArchiveError::BadRequest));
    let all_named = vec![named_field("ok.mp4", vec![b"data".to_vec()])];
    let (status, message) = upload_fields(&mut archive, all_named).expect("named fields store");
    assert_eq!(status, 200);
    assert_eq!(message, "Video uploaded successfully");
}

#[test]
fn reupload_overwrites_content() {
    let mut archive = Archive::new();
    upload_one(&mut archive, "v.mp4", vec![b"old".to_vec()]);
    upload_one(&mut archive, "v.mp4", vec![b"new".to_vec()]);
    let (_, _, _, body) = stream_all(&archive, "v.mp4").expect("overwritten file must stream");
    assert_eq!(body, b"new".to_vec());
    let (_, listing) = archive_request(&archive);
    assert_eq!(listing.files.len(), 1);
}

#[test]
fn fallback_is_page_not_found() {
    let (status, payload) = fallback_response();
    assert_eq!(status, 404);
    assert_eq!(payload.message, "");
    assert_eq!(payload.error, "page not found");
}

#[test]
fn error_status_mapping() {
    assert_eq!(status_of_error(ArchiveError::NotFound), 404);
    assert_eq!(status_of_error(ArchiveError::IoError), 500);
    assert_eq!(status_of_error(ArchiveError::BadRequest), 500);
}

#[test]
fn contains_tracks_store_and_delete() {
    let mut archive = Archive::new();
    let name = "item.mp4".to_string();
    assert!(!archive.contains(&name));
    archive.store(name.clone(), b"bytes".to_vec());
    assert!(archive.contains(&name));
    assert_eq!(archive.read(&name).map(|c| c.clone()), Ok(b"bytes".to_vec()));
    archive.delete(&name).expect("present file must delete");
    assert!(!archive.contains(&name));
    assert_eq!(archive.read(&name).err(), Some(ArchiveError::NotFound));
}

#[test]
fn file_upload_payload_keeps_fields() {
    let upload = FileUpload {
        file: File { filetype: "video/mp4".to_string(), contents: "abc".to_string() },
    };
    assert_eq!(upload.file.filetype, "video/mp4");
    assert_eq!(upload.file.contents, "abc");
}
