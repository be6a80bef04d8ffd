use media_archive::archive::Archive;
use media_archive::chunk::ChunkedReader;
use media_archive::chunk::ChunkedWriter;
use media_archive::handlers::UploadField;
use media_archive::handlers::stream_request;
use media_archive::handlers::upload_request;

#[test]
fn writer_concatenates_chunks_in_order() {
    let mut writer = ChunkedWriter::new();
    writer.write_chunk(b"ab");
    writer.write_chunk(b"");
    writer.write_chunk(b"cde");
    assert_eq!(writer.chunks_received(), 3);
    assert_eq!(writer.byte_len(), 5);
    assert_eq!(writer.into_content(), b"abcde".to_vec());
}

#[test]
fn large_upload_arrives_chunk_by_chunk() {
    // Simulates a large file as many small chunks: the writer sees each chunk
    // separately, so the producer never has to assemble the whole payload.
    let chunk_count: usize = 1000;
    let chunk: Vec<u8> = vec![7u8; 100];
    let mut writer = ChunkedWriter::new();
    for _ in 0..chunk_count {
        writer.write_chunk(&chunk);
    }
    assert_eq!(writer.chunks_received(), chunk_count);
    assert_eq!(writer.byte_len(), chunk_count * 100);
    let content = writer.into_content();
    assert_eq!(content.len(), 100_000);
    assert!(content.iter().all(|b| *b == 7u8));
}

#[test]
fn large_upload_streams_back_in_bounded_chunks() {
    let mut archive = Archive::new();
    let chunks: Vec<Vec<u8>> = (0..200).map(|i| vec![(i % 256) as u8; 64]).collect();
    let field = UploadField { name: Some("big.mp4".to_string()), chunks };
    let (status, _) = upload_request(&mut archive, vec![field]);
    assert_eq!(status, 200);
    let (_, _, mut reader) =
        stream_request(&archive, &"big.mp4".to_string()).expect("stored file must stream");
    let mut total: usize = 0;
    let mut emitted: usize = 0;
    while let Some(chunk) = reader.next_chunk() {
        assert!(!chunk.is_empty());
        assert!(chunk.len() <= 4096);
        total += chunk.len();
        emitted += 1;
    }
    assert_eq!(total, 200 * 64);
    // 12800 bytes at up to 4096 bytes per chunk: four chunks, not one blob.
    assert_eq!(emitted, 4);
}

#[test]
fn reader_emits_exact_bytes_in_order() {
    let mut reader = ChunkedReader::new(b"0123456789".to_vec(), 4);
    assert_eq!(reader.next_chunk(), Some(b"0123".to_vec()));
    assert_eq!(reader.next_chunk(), Some(b"4567".to_vec()));
    assert_eq!(reader.next_chunk(), Some(b"89".to_vec()));
    assert_eq!(reader.next_chunk(), None);
    assert_eq!(reader.next_chunk(), None);
}

#[test]
fn reader_drains_to_exact_content() {
    let mut reader = ChunkedReader::new(b"some stored bytes".to_vec(), 3);
    assert_eq!(reader.read_to_end(), b"some stored bytes".to_vec());
    assert_eq!(reader.next_chunk(), None);
}
