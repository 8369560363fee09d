//! Uploading to the fake symbols server, without a network.

use std::collections::HashSet;
use std::io::{Cursor, Write};
use upload_symbols::download;
use upload_symbols::fake_tecken::storage::SymbolsStorage;
use upload_symbols::fake_tecken::v2::{
    parse_content_range, resumable_upload, Answer, ChunkResponse, ContentRange,
};
use upload_symbols::fake_tecken::{auth_info, store_files, upload, v2, BAD_REQUEST, NOT_FOUND};
use upload_symbols::gcs::{ContentEncoding, Reaction, Transfer};
use upload_symbols::keys::KeySet;
use upload_symbols::pool::Action;
use upload_symbols::summary::UploadSummary;
use upload_symbols::sym_files::SymbolsFile;
use upload_symbols::telemetry::{build_endpoint, choose_dsn, hostname, Variable};
use upload_symbols::tempdir::{Creation, Made, Next};
use upload_symbols::urls::AbsoluteUrl as Url;
use upload_symbols::v1::ArchivePlan;
use upload_symbols::v2::{
    collect_upload_jobs, ActionSpec, Batches, FileBatch, FileSpec, FileSpecResponse,
};

fn strings(list: &[&str]) -> Vec<String> {
    list.iter().map(|s| s.to_string()).collect()
}

fn file(key: &str) -> SymbolsFile {
    SymbolsFile::new(format!("/data/{key}").into_bytes(), key.to_string())
}

fn all_keys(n: usize) -> Vec<String> {
    (0..n).map(|i| format!("lib{i}.so/{i:032X}/lib{i}.so.sym")).collect()
}

fn content(key: &str) -> Vec<u8> {
    key.bytes().cycle().take(key.len() * 40).collect()
}

fn set(list: &[String]) -> HashSet<String> {
    list.iter().cloned().collect()
}

fn zip_archive(keys: &[String]) -> Vec<u8> {
    let mut writer = zip::ZipWriter::new(Cursor::new(Vec::new()));
    for key in keys {
        writer.start_file(key.as_str(), zip::write::SimpleFileOptions::default()).unwrap();
        writer.write_all(&content(key)).unwrap();
    }
    writer.finish().unwrap().into_inner()
}

/// Upload files the way version 1 of the upload API does.
fn upload_v1(storage: &mut SymbolsStorage, keys: &[String], threshold: u64) -> UploadSummary {
    let mut plan = ArchivePlan::new(b"/tmp/x".to_vec(), threshold);
    let mut archives = Vec::new();
    let mut size = 0;
    for key in keys {
        if plan.begin().is_some() {
            size = 0;
        }
        size += content(key).len() as u64;
        plan.added(file(key));
        archives.extend(plan.measured(size));
    }
    archives.extend(plan.finish());
    let mut summary = UploadSummary::new();
    for archive in archives {
        let bytes = zip_archive(&archive.keys);
        let response = upload(storage, &bytes).unwrap();
        summary.record_archive(archive.keys, Ok(KeySet::from_list(response.skipped_keys)));
    }
    summary
}

/// Send a file to an upload session, and count the requests.
fn send(storage: &mut SymbolsStorage, id: u32, bytes: &[u8], chunk_size: u64) -> (usize, Vec<u8>) {
    let mut transfer = Transfer::new(bytes.len() as u64, chunk_size, 0);
    let mut received = Vec::new();
    let mut requests = 0;
    loop {
        let chunk = transfer.next_chunk();
        requests += 1;
        let (from, to) = (chunk.start as usize, (chunk.start + chunk.content_length) as usize);
        received.extend_from_slice(&bytes[from..to]);
        let range = parse_content_range(&chunk.content_range).unwrap();
        let (status, range) = match resumable_upload(storage, id, range).unwrap() {
            ChunkResponse::Complete { range, object } => {
                assert_eq!(object.size, bytes.len().to_string());
                assert_eq!(object.md5_hash, "");
                (200, range)
            }
            ChunkResponse::Incomplete { range } => (308, range),
        };
        let range = Some(range.into_bytes());
        assert!(transfer.accepts(status, &range));
        let (next, reaction) = transfer.note(status, range);
        transfer = next;
        match reaction {
            Reaction::Finish => return (requests, received),
            Reaction::Continue => {}
            _ => panic!("unexpected reaction"),
        }
    }
}

/// Upload files the way version 2 of the upload API does.
fn upload_v2(storage: &mut SymbolsStorage, keys: &[String], batch_size: usize) -> UploadSummary {
    let mut batches = Batches::new(batch_size);
    let mut complete: Vec<FileBatch> = Vec::new();
    for key in keys {
        let spec = FileSpec::new(&file(key)).update(&content(key)).finish();
        let (rest, batch) = batches.add(file(key), spec);
        batches = rest;
        complete.extend(batch);
    }
    complete.extend(batches.finish());
    let mut requests = UploadSummary::new();
    let mut uploads = UploadSummary::new();
    for mut batch in complete {
        let specs = std::mem::take(&mut batch.file_specs);
        let response = v2::upload(storage, "localhost:1234", 1_000, specs);
        assert_eq!(response.upload_protocol, "gcs-resumable");
        assert_eq!(response.user, "user@mozilla.com");
        assert_eq!(response.created_at, 1_000);
        assert!(!response.try_symbols);
        let list = response
            .files
            .into_iter()
            .map(|answer| FileSpecResponse {
                key: answer.key,
                action: match answer.action {
                    Answer::Upload { url } => {
                        ActionSpec::Upload { url: Url::parse(&url).unwrap(), content_encoding: None }
                    }
                    Answer::Skip => ActionSpec::Skip,
                },
            })
            .collect();
        let (jobs, summary) = collect_upload_jobs(batch, list, requests);
        requests = summary;
        for job in jobs {
            let url = job.session_url.as_str();
            let id = url.strip_prefix("http://localhost:1234/gcs/resumable-upload/").unwrap();
            let bytes = content(job.sym_file.key());
            let (_, received) = send(storage, id.parse().unwrap(), &bytes, 500);
            assert_eq!(received, bytes);
            assert_eq!(job.content_encoding, None::<ContentEncoding>);
            uploads.record_upload(job.sym_file.into_key(), Ok(()));
        }
    }
    uploads.merge(requests);
    uploads
}

fn check_two_uploads(upload: fn(&mut SymbolsStorage, &[String]) -> UploadSummary) {
    let keys = all_keys(144);
    let mut storage = SymbolsStorage::new();

    // Upload half the files.
    let summary1 = upload(&mut storage, &keys[..72]);
    let uploaded_keys1 = set(&summary1.uploaded_keys);
    assert_eq!(uploaded_keys1, set(storage.uploaded_files().keys()));
    assert_eq!(uploaded_keys1.len(), 72);
    assert!(summary1.skipped_keys.is_empty());
    assert!(summary1.failed_keys.is_empty());
    assert!(summary1.discovery_errors.is_empty());
    assert!(summary1.upload_errors.is_empty());

    // Upload all files.
    let summary2 = upload(&mut storage, &keys);
    let uploaded_keys2 = set(&summary2.uploaded_keys);
    let skipped_keys2 = set(&summary2.skipped_keys);
    assert_eq!(uploaded_keys1, skipped_keys2);
    assert!(uploaded_keys1.is_disjoint(&uploaded_keys2));
    assert_eq!(&uploaded_keys1 | &uploaded_keys2, set(storage.uploaded_files().keys()));
    assert!(summary2.failed_keys.is_empty());
    assert!(summary2.discovery_errors.is_empty());
    assert!(summary2.upload_errors.is_empty());
    assert_eq!(summary2.success_report().unwrap(), "72 files uploaded, 72 skipped.\n");
    assert!(storage.pending_uploads().is_empty());
}

#[test]
fn two_uploads_with_version_1() {
    check_two_uploads(|storage, keys| upload_v1(storage, keys, 20_000));
}

#[test]
fn two_uploads_with_version_2() {
    check_two_uploads(|storage, keys| upload_v2(storage, keys, 10));
}

#[test]
fn archives_are_read() {
    let mut storage = SymbolsStorage::new();
    let keys = strings(&["a/12/c", "d/34/e"]);
    let first = upload(&mut storage, &zip_archive(&keys)).unwrap();
    assert_eq!(first.id, 1);
    assert!(first.skipped_keys.is_empty());
    assert_eq!(storage.uploaded_files().keys(), &keys);
    let second = upload(&mut storage, &zip_archive(&keys)).unwrap();
    assert_eq!(second.id, 2);
    assert_eq!(second.skipped_keys, keys);
    assert_eq!(upload(&mut storage, b"not an archive").unwrap_err(), BAD_REQUEST);
    assert_eq!(BAD_REQUEST, 400);
    assert_eq!(storage.new_upload(), 3);
}

#[test]
fn stored_files_are_skipped() {
    let mut storage = SymbolsStorage::default();
    storage.upload_file("b".to_string());
    let response = store_files(&mut storage, strings(&["a", "b", "a"]));
    assert_eq!(response.id, 1);
    assert_eq!(response.skipped_keys, strings(&["b", "a"]));
    assert_eq!(storage.uploaded_files().keys(), &strings(&["b", "a"]));
}

#[test]
fn file_uploads_are_numbered() {
    let mut storage = SymbolsStorage::new();
    assert_eq!(storage.initiate_file_upload("a".to_string()), 1);
    assert_eq!(storage.initiate_file_upload("b".to_string()), 2);
    assert_eq!(storage.pending_uploads().len(), 2);
    assert_eq!(storage.complete_file_upload(1), Some("a".to_string()));
    assert_eq!(storage.complete_file_upload(1), None);
    assert_eq!(storage.complete_file_upload(3), None);
    assert_eq!(storage.uploaded_files().keys(), &strings(&["a"]));
    assert_eq!(storage.pending_uploads().get(&2), Some(&"b".to_string()));
    assert_eq!(storage.initiate_file_upload("c".to_string()), 3);
}

#[test]
fn requests_are_answered() {
    let mut storage = SymbolsStorage::new();
    storage.upload_file("b".to_string());
    let specs = vec![
        FileSpec::new(&file("a")).finish(),
        FileSpec::new(&file("b")).finish(),
        FileSpec::new(&file("a")).finish(),
    ];
    let response = v2::upload(&mut storage, "example.com", 7, specs);
    assert_eq!(response.id, 1);
    assert_eq!(response.files.len(), 3);
    assert!(matches!(
        &response.files[0].action,
        Answer::Upload { url } if url == "http://example.com/gcs/resumable-upload/1"
    ));
    assert!(matches!(&response.files[1].action, Answer::Skip));
    assert_eq!(response.files[1].key, "b");
    assert!(matches!(
        &response.files[2].action,
        Answer::Upload { url } if url == "http://example.com/gcs/resumable-upload/2"
    ));
}

#[test]
fn chunks_are_received() {
    for (len, chunk_size, expected) in [(0, 4, 1), (1, 4, 1), (4, 4, 1), (5, 4, 2), (12, 4, 3)] {
        let mut storage = SymbolsStorage::new();
        let id = storage.initiate_file_upload("k".to_string());
        let bytes: Vec<u8> = (0..len).collect();
        let (requests, received) = send(&mut storage, id, &bytes, chunk_size);
        assert_eq!(requests, expected);
        assert_eq!(received, bytes);
        assert_eq!(storage.uploaded_files().keys(), &strings(&["k"]));
    }
}

#[test]
fn unknown_sessions_are_not_found() {
    let mut storage = SymbolsStorage::new();
    for range in [ContentRange { end: 3, total: 10 }, ContentRange { end: 9, total: 10 }] {
        let status = resumable_upload(&mut storage, 1, range).unwrap_err();
        assert_eq!(status, NOT_FOUND);
    }
    assert_eq!(NOT_FOUND, 404);
}

#[test]
fn ranges_are_reported() {
    let mut storage = SymbolsStorage::new();
    let id = storage.initiate_file_upload("k".to_string());
    match resumable_upload(&mut storage, id, ContentRange { end: 3, total: 5 }).unwrap() {
        ChunkResponse::Incomplete { range } => assert_eq!(range, "bytes=0-3"),
        _ => panic!("the upload is not complete"),
    }
    match resumable_upload(&mut storage, id, ContentRange { end: 4, total: 5 }).unwrap() {
        ChunkResponse::Complete { range, object } => {
            assert_eq!(range, "bytes=0-4");
            assert_eq!(object.name, "k");
            assert_eq!(object.size, "5");
        }
        _ => panic!("the upload is complete"),
    }
}

#[test]
fn content_ranges_are_read() {
    assert_eq!(
        parse_content_range("bytes 0-262143/1000000"),
        Some(ContentRange { end: 262_143, total: 1_000_000 })
    );
    for text in ["", "bytes 0-1", "bytes 01/2", "0-1/2", "bytes 0-x/2", "bytes 0-1/*"] {
        assert_eq!(parse_content_range(text), None);
    }
}

#[test]
fn tokens_are_valid_for_a_day() {
    let info = auth_info(1_000, 2);
    assert_eq!(info.email, "user@mozilla.com");
    assert!(!info.try_symbols);
    assert_eq!(info.token_expires_at, 87_400);
    assert_eq!(info.upload_api_version, 2);
}

#[test]
fn temporary_directories_have_random_names() {
    let creation = Creation::new(b"/tmp".to_vec(), b"upload-symbols.".to_vec());
    let path = String::from_utf8(creation.candidate()).unwrap();
    let suffix = path.strip_prefix("/tmp/upload-symbols.").unwrap();
    assert_eq!(suffix.len(), 12);
    assert!(suffix.chars().all(|c| c.is_ascii_alphanumeric()));
    assert_ne!(creation.candidate(), creation.candidate());
    assert_eq!(creation.candidate_with(b"x"), b"/tmp/upload-symbols.x".to_vec());
}

#[test]
fn temporary_directories_are_created() {
    let creation = Creation::new(b"/tmp".to_vec(), b"p.".to_vec());
    match creation.note(b"/tmp/p.x".to_vec(), Made::Created) {
        Next::Ready(dir) => {
            assert_eq!(dir.path(), &b"/tmp/p.x".to_vec());
            assert_eq!(dir.close(), b"/tmp/p.x".to_vec());
        }
        _ => panic!("the directory was created"),
    }
    let creation = Creation::new(b"/tmp".to_vec(), b"p.".to_vec());
    match creation.note(b"/tmp/p.x".to_vec(), Made::Failed("read-only".to_string())) {
        Next::Failed(message) => assert_eq!(message, "read-only"),
        _ => panic!("the directory was not created"),
    }
}

#[test]
fn attempts_are_bounded() {
    let mut creation = Creation::new(b"/tmp".to_vec(), b"p.".to_vec());
    let mut attempts = 0;
    loop {
        attempts += 1;
        let path = creation.candidate();
        match creation.note(path, Made::AlreadyExists) {
            Next::Again(next) => creation = next,
            Next::Exhausted => break,
            _ => panic!("the directory exists"),
        }
    }
    assert_eq!(attempts, 10);
}

#[test]
fn uploads_are_downloaded() {
    let upload = download::Upload {
        skipped_keys: strings(&["b", "a"]),
        file_uploads: vec![
            download::FileUpload { key: "d".to_string() },
            download::FileUpload { key: "c".to_string() },
        ],
    };
    assert_eq!(upload.into_keys(), strings(&["b", "a", "d", "c"]));
    let server = Url::parse("https://symbols.mozilla.org/").unwrap();
    assert_eq!(
        download::upload_info_url(&server, 42).unwrap().as_str(),
        "https://symbols.mozilla.org/api/uploads/upload/42"
    );
    assert!(download::upload_info_url(&Url::parse("data:x").unwrap(), 42).is_err());
    assert_eq!(download::file_url("a/12/c"), "https://symbols.mozilla.org/try/a/12/c");
    assert_eq!(download::file_path(b"target", "a/12/c"), b"target/a/12/c".to_vec());
    assert_eq!(download::downloads().next(), Action::Receive);
    assert_eq!(download::MAX_CONCURRENT_DOWNLOADS, 6);
}

#[test]
fn endpoints_have_one_slash() {
    for base in ["https://otel.example.com", "https://otel.example.com/", "https://otel.example.com//"] {
        assert_eq!(build_endpoint(base, "/v1/traces"), "https://otel.example.com/v1/traces");
    }
    assert_eq!(build_endpoint("//", "/v1/metrics"), "/v1/metrics");
}

#[test]
fn host_names_end_at_a_nul() {
    assert_eq!(hostname(b"build-7\0\0garbage"), Some("build-7".to_string()));
    assert_eq!(hostname(b"\0"), Some(String::new()));
    assert_eq!(hostname(b"b\xff\0"), Some("b\u{fffd}".to_string()));
    assert_eq!(hostname(b"unterminated"), None);
}

#[test]
fn environment_comes_before_what_was_built_in() {
    let built_in = Some("https://built-in".to_string());
    let present = Variable::Present("https://env".to_string());
    assert_eq!(choose_dsn(present, built_in.clone()), Ok(Some("https://env".to_string())));
    assert_eq!(choose_dsn(Variable::NotPresent, built_in.clone()), Ok(built_in.clone()));
    assert_eq!(choose_dsn(Variable::NotPresent, None), Ok(None));
    let invalid = Variable::NotUnicode("not text".to_string());
    assert_eq!(choose_dsn(invalid, built_in), Err("not text".to_string()));
}
