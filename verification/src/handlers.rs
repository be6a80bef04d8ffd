//! The four request operations: Upload, List, Stream and Delete.
//!
//! Each operation is a single-shot function over the archive catalog,
//! decoupled from the transport layer: it takes the catalog (the storage
//! root) and plain request values, and returns the HTTP status with the
//! response payload. The transport adapter relays these results verbatim.
//!
//! Storage failures that only a real filesystem can produce (disk full,
//! permissions, the check-then-open race) are outside this model; the adapter
//! maps them through [`crate::types::status_of_error`].

use crate::archive::Archive;
use crate::archive::name_views;
use crate::chunk::ChunkedReader;
use crate::chunk::ChunkedWriter;
use crate::chunk::DEFAULT_CHUNK_SIZE;
use crate::types::ArchiveError;
use crate::types::ArchiveResponse;
use crate::types::ResponseError;
use crate::types::status_of_error;
use crate::types::STATUS_INTERNAL_ERROR;
use crate::types::STATUS_NOT_FOUND;
use crate::types::STATUS_OK;
use vstd::prelude::*;

verus! {

/// A transient upload field: the client-declared filename, when one was
/// declared, and the content as the sequence of chunks it arrived in.
pub struct UploadField {
    pub name: Option<String>,
    pub chunks: Vec<Vec<u8>>,
}

/// The views of a sequence of owned chunks.
pub open spec fn chunk_views(chunks: Seq<Vec<u8>>) -> Seq<Seq<u8>> {
    chunks.map_values(|c: Vec<u8>| c@)
}

impl UploadField {
    /// The declared filename's view, when a name was declared.
    pub open spec fn name_view(&self) -> Option<Seq<char>> {
        match self.name {
            Some(s) => Some(s@),
            None => None,
        }
    }

    /// The field's whole content: the concatenation of its chunks in order.
    pub open spec fn content_view(&self) -> Seq<u8> {
        chunk_views(self.chunks@).flatten()
    }
}

/// Every field of the request declares a filename.
pub open spec fn upload_all_named(fields: Seq<UploadField>) -> bool {
    forall|i: int| 0 <= i < fields.len() ==> (#[trigger] fields[i].name_view()) is Some
}

/// What an upload request does to the catalog: each field's content is stored
/// under its name, in order, stopping at the first field without a name.
/// Fields already stored stay stored — a failure partway through is not
/// rolled back.
pub open spec fn apply_upload(
    m: Map<Seq<char>, Seq<u8>>,
    fields: Seq<UploadField>,
) -> Map<Seq<char>, Seq<u8>>
    decreases fields.len(),
{
    if fields.len() == 0 {
        m
    } else {
        match fields[0].name_view() {
            Some(n) => apply_upload(m.insert(n, fields[0].content_view()), fields.skip(1)),
            None => m,
        }
    }
}

/// What a stream request answers: the stored content, or nothing when the
/// name is absent.
pub open spec fn stream_spec(m: Map<Seq<char>, Seq<u8>>, n: Seq<char>) -> Option<Seq<u8>> {
    if m.dom().contains(n) {
        Some(m[n])
    } else {
        None
    }
}

/// What a delete request does: the catalog without the name, or nothing when
/// the name is absent.
pub open spec fn delete_spec(m: Map<Seq<char>, Seq<u8>>, n: Seq<char>) -> Option<
    Map<Seq<char>, Seq<u8>>,
> {
    if m.dom().contains(n) {
        Some(m.remove(n))
    } else {
        None
    }
}

/// Appending a named field to an upload stores its content after the rest;
/// appending an unnamed one changes nothing further.
proof fn lemma_apply_upload_push(
    m: Map<Seq<char>, Seq<u8>>,
    fields: Seq<UploadField>,
    f: UploadField,
)
    requires
        upload_all_named(fields),
    ensures
        apply_upload(m, fields.push(f)) == (match f.name_view() {
            Some(n) => apply_upload(m, fields).insert(n, f.content_view()),
            None => apply_upload(m, fields),
        }),
    decreases fields.len(),
{
    let s2 = fields.push(f);
    if fields.len() == 0 {
        assert(s2[0] == f);
        assert(s2.skip(1) =~= Seq::<UploadField>::empty());
        match f.name_view() {
            Some(n) => {
                assert(apply_upload(m, s2) == apply_upload(
                    m.insert(n, f.content_view()),
                    s2.skip(1),
                ));
                assert(apply_upload(m, s2) == m.insert(n, f.content_view()));
                assert(apply_upload(m, fields) == m);
            },
            None => {
                assert(apply_upload(m, s2) == m);
                assert(apply_upload(m, fields) == m);
            },
        }
    } else {
        assert(s2[0] == fields[0]);
        assert(s2.skip(1) =~= fields.skip(1).push(f));
        assert forall|k: int|
            0 <= k < fields.skip(1).len() implies (#[trigger] fields.skip(
            1,
        )[k].name_view()) is Some by {
            assert(fields.skip(1)[k] == fields[k + 1]);
        }
        assert(fields[0].name_view() is Some);
        match fields[0].name_view() {
            Some(n0) => {
                let m1 = m.insert(n0, fields[0].content_view());
                lemma_apply_upload_push(m1, fields.skip(1), f);
                assert(apply_upload(m, s2) == apply_upload(m1, s2.skip(1)));
                assert(apply_upload(m, fields) == apply_upload(m1, fields.skip(1)));
                assert(s2.skip(1) == fields.skip(1).push(f));
            },
            None => {},
        }
    }
}

/// An upload stops at its first unnamed field: the fields after it leave the
/// catalog as it stood.
proof fn lemma_apply_upload_stop(m: Map<Seq<char>, Seq<u8>>, fields: Seq<UploadField>, i: int)
    requires
        0 <= i < fields.len(),
        forall|k: int| 0 <= k < i ==> (#[trigger] fields[k].name_view()) is Some,
        fields[i].name_view() is None,
    ensures
        apply_upload(m, fields) == apply_upload(m, fields.take(i)),
    decreases i,
{
    if i == 0 {
        assert(fields.take(0) =~= Seq::<UploadField>::empty());
    } else {
        assert(fields[0].name_view() is Some);
        match fields[0].name_view() {
            Some(n0) => {
                let m1 = m.insert(n0, fields[0].content_view());
                let rest = fields.skip(1);
                assert(rest[i - 1] == fields[i]);
                assert forall|k: int|
                    0 <= k < i - 1 implies (#[trigger] rest[k].name_view()) is Some by {
                    assert(rest[k] == fields[k + 1]);
                }
                lemma_apply_upload_stop(m1, rest, i - 1);
                assert(fields.take(i)[0] == fields[0]);
                assert(fields.take(i).skip(1) =~= rest.take(i - 1));
            },
            None => {},
        }
    }
}

/// Store every field of a multipart upload, each written chunk by chunk in
/// the order received. A field without a filename aborts the whole request
/// with `BadRequest`; the fields already written stay stored (no rollback).
/// When every field is named, all are stored and the request succeeds.
pub fn upload_fields(archive: &mut Archive, fields: Vec<UploadField>) -> (r: Result<
    (u16, String),
    ArchiveError,
>)
    requires
        old(archive).wf(),
    ensures
        final(archive).wf(),
        final(archive)@ == apply_upload(old(archive)@, fields@),
        upload_all_named(fields@) ==> (r matches Ok(p) && p.0 == STATUS_OK && p.1@
            == "Video uploaded successfully"@),
        !upload_all_named(fields@) ==> (r matches Err(e) && e == ArchiveError::BadRequest),
{
    let n = fields.len();
    let mut i: usize = 0;
    while i < n
        invariant
            archive.wf(),
            n == fields@.len(),
            i <= n,
            forall|k: int| 0 <= k < i ==> (#[trigger] fields@[k].name_view()) is Some,
            archive@ == apply_upload(old(archive)@, fields@.take(i as int)),
        decreases n - i,
    {
        match &fields[i].name {
            None => {
                proof {
                    lemma_apply_upload_stop(old(archive)@, fields@, i as int);
                }
                return Err(ArchiveError::BadRequest);
            },
            Some(file_name) => {
                let mut writer = ChunkedWriter::new();
                let chunks = &fields[i].chunks;
                let mut k: usize = 0;
                while k < chunks.len()
                    invariant
                        k <= chunks@.len(),
                        writer@ == chunk_views(chunks@.take(k as int)).flatten(),
                        writer.chunk_count() == k,
                    decreases chunks@.len() - k,
                {
                    writer.write_chunk(chunks[k].as_slice());
                    proof {
                        chunk_views(chunks@.take(k as int)).lemma_flatten_push(
                            chunks@[k as int]@,
                        );
                        assert(chunk_views(chunks@.take(k as int)).push(chunks@[k as int]@)
                            =~= chunk_views(chunks@.take(k + 1)));
                    }
                    k += 1;
                }
                proof {
                    assert(chunks@.take(chunks@.len() as int) =~= chunks@);
                    assert(writer@ == fields@[i as int].content_view());
                    lemma_apply_upload_push(
                        old(archive)@,
                        fields@.take(i as int),
                        fields@[i as int],
                    );
                    assert(fields@.take(i as int).push(fields@[i as int]) =~= fields@.take(
                        i + 1,
                    ));
                }
                archive.store(file_name.clone(), writer.into_content());
            },
        }
        i += 1;
    }
    proof {
        assert(fields@.take(n as int) =~= fields@);
    }
    Ok((STATUS_OK, "Video uploaded successfully".to_string()))
}

/// The whole upload operation as the transport sees it: store the fields and
/// map a failure to its status with the generic message, as
/// [`status_of_error`] fixes it.
pub fn upload_request(archive: &mut Archive, fields: Vec<UploadField>) -> (r: (u16, String))
    requires
        old(archive).wf(),
    ensures
        final(archive).wf(),
        final(archive)@ == apply_upload(old(archive)@, fields@),
        upload_all_named(fields@) ==> (r.0 == STATUS_OK && r.1@ == "Video uploaded successfully"@),
        !upload_all_named(fields@) ==> (r.0 == STATUS_INTERNAL_ERROR && r.1@
            == "Internal server error"@),
{
    match upload_fields(archive, fields) {
        Ok(response) => response,
        Err(e) => (status_of_error(e), "Internal server error".to_string()),
    }
}

/// Enumerate the stored filenames. Always succeeds on the model: the status
/// is OK and the payload carries exactly the catalog's names, each once.
pub fn archive_request(archive: &Archive) -> (r: (u16, ArchiveResponse))
    requires
        archive.wf(),
    ensures
        r.0 == STATUS_OK,
        name_views(r.1.files@).to_set() == archive@.dom(),
        name_views(r.1.files@).no_duplicates(),
{
    (STATUS_OK, ArchiveResponse { files: archive.list() })
}

/// Response headers of a successful stream: suitable for byte-range-capable
/// binary video playback.
pub struct StreamHeaders {
    pub content_type: String,
    pub accept_ranges: String,
}

/// An exact byte copy of a stored content.
fn copy_bytes(v: &Vec<u8>) -> (r: Vec<u8>)
    ensures
        r@ == v@,
{
    let mut r: Vec<u8> = Vec::new();
    let mut i: usize = 0;
    while i < v.len()
        invariant
            i <= v@.len(),
            r@ == v@.take(i as int),
        decreases v@.len() - i,
    {
        r.push(v[i]);
        proof {
            assert(v@.take(i as int).push(v@[i as int]) =~= v@.take(i + 1));
        }
        i += 1;
    }
    proof {
        assert(v@.take(v@.len() as int) =~= v@);
    }
    r
}

/// Stream a stored file: when the name is present the response is OK with
/// video headers and a chunked body whose chunks concatenate to exactly the
/// stored content; when it is absent the response is a bare not-found status
/// with no body at all.
pub fn stream_request(archive: &Archive, name: &String) -> (r: Result<
    (u16, StreamHeaders, ChunkedReader),
    u16,
>)
    requires
        archive.wf(),
    ensures
        stream_spec(archive@, name@) matches Some(c) ==> (r matches Ok(p) && p.0 == STATUS_OK
            && p.1.content_type@ == "video/mp4"@ && p.1.accept_ranges@ == "bytes"@ && p.2.wf()
            && p.2.full() == c && p.2.remaining() == c && p.2.chunk_len() == DEFAULT_CHUNK_SIZE),
        stream_spec(archive@, name@) is None ==> (r matches Err(status) && status
            == STATUS_NOT_FOUND),
{
    match archive.read(name) {
        Ok(content) => {
            let body = ChunkedReader::new(copy_bytes(content), DEFAULT_CHUNK_SIZE);
            let headers = StreamHeaders {
                content_type: "video/mp4".to_string(),
                accept_ranges: "bytes".to_string(),
            };
            Ok((STATUS_OK, headers, body))
        },
        Err(_) => Err(STATUS_NOT_FOUND),
    }
}

/// Delete a stored file: when the name is present it is removed and the
/// response is OK; when it is absent the archive is unchanged and the
/// response is a bare not-found status.
pub fn delete_request(archive: &mut Archive, name: &String) -> (r: Result<(u16, String), u16>)
    requires
        old(archive).wf(),
    ensures
        final(archive).wf(),
        delete_spec(old(archive)@, name@) matches Some(m2) ==> (r matches Ok(p) && p.0 == STATUS_OK
            && p.1@ == "File deleted successfully"@ && final(archive)@ == m2),
        delete_spec(old(archive)@, name@) is None ==> (r matches Err(status) && status
            == STATUS_NOT_FOUND && final(archive)@ == old(archive)@),
{
    match archive.delete(name) {
        Ok(_) => Ok((STATUS_OK, "File deleted successfully".to_string())),
        Err(_) => Err(STATUS_NOT_FOUND),
    }
}

/// The response for a request that matches no route: not found, with an
/// empty message and a generic error string.
pub fn fallback_response() -> (r: (u16, ResponseError))
    ensures
        r.0 == STATUS_NOT_FOUND,
        r.1.message@ == Seq::<char>::empty(),
        r.1.error@ == "page not found"@,
{
    (
        STATUS_NOT_FOUND,
        ResponseError { message: String::new(), error: "page not found".to_string() },
    )
}

} // verus!
