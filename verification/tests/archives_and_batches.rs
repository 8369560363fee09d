//! Grouping files into archives and batches, and summing up what became of them.

use upload_symbols::digest::Hasher;
use upload_symbols::gcs::ContentEncoding;
use upload_symbols::keys::KeySet;
use upload_symbols::summary::UploadSummary;
use upload_symbols::sym_files::{InvalidKeyError, SymbolsFile};
use upload_symbols::urls::AbsoluteUrl as Url;
use upload_symbols::v1::{self, compression_for, ArchivePlan, Compression};
use upload_symbols::v2::{
    self, collect_upload_jobs, ActionSpec, Batches, FileBatch, FileSpec, FileSpecRequest,
    FileSpecResponse,
};
use upload_symbols::{Error, UploadApiVersion};

fn file(key: &str) -> SymbolsFile {
    SymbolsFile::new(format!("/data/{key}").into_bytes(), key.to_string())
}

fn strings(list: &[&str]) -> Vec<String> {
    list.iter().map(|s| s.to_string()).collect()
}

#[test]
fn archives_are_closed_above_the_threshold() {
    let mut plan = ArchivePlan::new(b"/tmp/x".to_vec(), 100);
    let mut archives = Vec::new();
    let mut created = Vec::new();
    for (key, size) in [("a", 40), ("b", 100), ("c", 101), ("d", 500), ("e", 1)] {
        if let Some(path) = plan.begin() {
            created.push(path);
        }
        plan.added(file(key));
        if let Some(archive) = plan.measured(size) {
            archives.push(archive);
        }
    }
    archives.extend(plan.finish());
    assert_eq!(
        created,
        vec![
            b"/tmp/x/symbols-0.zip".to_vec(),
            b"/tmp/x/symbols-1.zip".to_vec(),
            b"/tmp/x/symbols-2.zip".to_vec(),
        ]
    );
    let paths: Vec<Vec<u8>> = archives.iter().map(|a| a.path.clone()).collect();
    assert_eq!(paths, created);
    let names: Vec<&str> = archives.iter().map(|a| a.name.as_str()).collect();
    assert_eq!(names, vec!["symbols-0.zip", "symbols-1.zip", "symbols-2.zip"]);
    let keys: Vec<Vec<String>> = archives.into_iter().map(|a| a.keys).collect();
    assert_eq!(keys, vec![strings(&["a", "b", "c"]), strings(&["d"]), strings(&["e"])]);
}

#[test]
fn no_files_make_no_archive() {
    assert!(ArchivePlan::new(b"/tmp/x".to_vec(), 100).finish().is_none());
}

#[test]
fn compressed_files_are_stored() {
    assert_eq!(compression_for(&file("a/b/c.sym")), Compression::Deflated);
    assert_eq!(compression_for(&file("a/b/c.pd_")), Compression::Stored);
}

#[test]
fn file_specs_hold_size_and_digest() {
    let spec = FileSpec::new(&file("k")).update(b"ab").update(b"").update(b"c");
    assert_eq!(spec.size(), 3);
    let spec = spec.finish();
    assert_eq!(spec.key, "k");
    assert_eq!(spec.size, 3);
    assert_eq!(spec.md5_hash, "900150983cd24fb0d6963f7d28e17f72");
    let empty = FileSpec::new(&file("k")).finish();
    assert_eq!(empty.size, 0);
    assert_eq!(empty.md5_hash, "d41d8cd98f00b204e9800998ecf8427e");
}

#[test]
fn digest_does_not_depend_on_pieces() {
    let mut whole = Hasher::new();
    whole.update(b"message digest");
    let mut pieces = Hasher::new();
    pieces.update(b"message");
    pieces.update(b" digest");
    let digest = whole.finish();
    assert_eq!(digest.len(), 16);
    assert_eq!(digest[0], 0xf9);
    assert_eq!(digest, pieces.finish());
}

fn spec(key: &str) -> FileSpecRequest {
    FileSpec::new(&file(key)).finish()
}

fn batch_keys(batch: &FileBatch) -> Vec<String> {
    for spec in &batch.file_specs {
        assert_eq!(batch.sym_files.get(&spec.key).unwrap().key(), spec.key);
    }
    batch.file_specs.iter().map(|s| s.key.clone()).collect()
}

#[test]
fn files_are_batched() {
    let mut batches = Batches::new(2);
    let mut complete = Vec::new();
    for key in ["a", "b", "c", "d", "e"] {
        let (rest, batch) = batches.add(file(key), spec(key));
        batches = rest;
        if let Some(batch) = batch {
            complete.push(batch_keys(&batch));
        }
    }
    assert_eq!(complete, vec![strings(&["a", "b"]), strings(&["c", "d"])]);
    assert_eq!(batch_keys(&batches.finish().unwrap()), strings(&["e"]));
    assert!(Batches::new(2).finish().is_none());
    let (rest, batch) = Batches::new(1).add(file("a"), spec("a"));
    assert_eq!(batch_keys(&batch.unwrap()), strings(&["a"]));
    assert!(rest.finish().is_none());
}

fn batch(keys: &[&str]) -> FileBatch {
    let mut batch = FileBatch::new();
    for key in keys {
        batch.insert(file(key), spec(key));
    }
    batch
}

fn upload(key: &str, content_encoding: Option<ContentEncoding>) -> FileSpecResponse {
    let url = Url::parse(&format!("http://localhost/gcs/{key}")).unwrap();
    FileSpecResponse { key: key.to_string(), action: ActionSpec::Upload { url, content_encoding } }
}

#[test]
fn responses_are_processed() {
    let list = vec![
        upload("b", Some(ContentEncoding::Gzip)),
        FileSpecResponse { key: "c".to_string(), action: ActionSpec::Skip },
        upload("x", None),
        FileSpecResponse {
            key: "d".to_string(),
            action: ActionSpec::Error { msg: "bad key".to_string() },
        },
        upload("a", None),
        upload("a", None),
    ];
    let (jobs, summary) = collect_upload_jobs(batch(&["a", "b", "c", "d"]), list, UploadSummary::new());
    assert_eq!(jobs.len(), 2);
    assert_eq!(jobs[0].sym_file.key(), "b");
    assert_eq!(jobs[0].sym_file.path(), &b"/data/b".to_vec());
    assert_eq!(jobs[0].session_url.as_str(), "http://localhost/gcs/b");
    assert_eq!(jobs[0].content_encoding, Some(ContentEncoding::Gzip));
    assert_eq!(jobs[1].sym_file.key(), "a");
    assert_eq!(jobs[1].content_encoding, None);
    assert_eq!(summary.uploaded_keys, strings(&[]));
    assert_eq!(summary.skipped_keys, strings(&["c"]));
    assert_eq!(summary.failed_keys, strings(&["x", "d", "a"]));
    let messages: Vec<String> = summary.upload_errors.iter().map(|e| e.message()).collect();
    assert_eq!(
        messages,
        strings(&[
            "invalid Symbols Server response: unknown key x",
            "invalid Symbols Server response: bad key",
            "invalid Symbols Server response: unknown key a",
        ])
    );
}

#[test]
fn every_answer_is_accounted_for() {
    let list = vec![
        upload("a", None),
        upload("b", None),
        FileSpecResponse { key: "c".to_string(), action: ActionSpec::Skip },
    ];
    let (jobs, requests) = collect_upload_jobs(batch(&["a", "b", "c"]), list, UploadSummary::new());
    let mut summary = UploadSummary::default();
    for job in jobs.into_iter().rev() {
        let key = job.sym_file.into_key();
        let result = if key == "a" { Err(Error::MissingRangeHeader) } else { Ok(()) };
        summary.record_upload(key, result);
    }
    let discovery_errors = vec![InvalidKeyError::InvalidDebugId("a/x/c".to_string())];
    let summary = v2::summarize(summary, discovery_errors, requests, Ok(()));
    assert_eq!(summary.uploaded_keys, strings(&["b"]));
    assert_eq!(summary.skipped_keys, strings(&["c"]));
    assert_eq!(summary.failed_keys, strings(&["a"]));
    assert!(!summary.success());
    assert_eq!(summary.success_report(), None);
    assert_eq!(
        summary.error_report(),
        "\nerror: the following keys failed to upload:\n    a\n\nErrors during upload:\n\
         missing range header in GCS response\n\nErrors during symbols file discovery:\n\
         debug_id must be a hex string: a/x/c\n"
    );
}

#[test]
fn successful_uploads_are_reported() {
    let mut summary = UploadSummary::new();
    summary.record_archive(
        strings(&["a", "b", "c"]),
        Ok(KeySet::from_list(strings(&["b", "z", "b"]))),
    );
    assert!(summary.success());
    assert_eq!(summary.uploaded_keys, strings(&["a", "c"]));
    assert_eq!(summary.skipped_keys, strings(&["b", "z"]));
    assert_eq!(summary.error_report(), "");
    assert_eq!(summary.success_report().unwrap(), "2 files uploaded, 2 skipped.\n");
}

#[test]
fn every_file_of_every_archive_is_accounted_for() {
    let outcomes = vec![
        (strings(&["a", "b"]), Ok(KeySet::from_list(strings(&["b"])))),
        (strings(&["c"]), Err(Error::ZipError("bad archive".to_string()))),
        (strings(&["d"]), Ok(KeySet::new())),
    ];
    let errors = vec![InvalidKeyError::NotThreeComponents(b"x".to_vec())];
    let summary = v1::summarize(outcomes, errors, Err("busy".to_string()));
    assert_eq!(summary.uploaded_keys, strings(&["a", "d"]));
    assert_eq!(summary.skipped_keys, strings(&["b"]));
    assert_eq!(summary.failed_keys, strings(&["c"]));
    let messages: Vec<String> = summary.upload_errors.iter().map(|e| e.message()).collect();
    assert_eq!(messages, strings(&["ZIP archiver error: bad archive", "I/O error: busy"]));
    let mut all = [
        summary.uploaded_keys.clone(),
        summary.skipped_keys.clone(),
        summary.failed_keys.clone(),
    ]
    .concat();
    all.sort();
    assert_eq!(all, strings(&["a", "b", "c", "d"]));
    let report = summary.error_report();
    assert!(report.contains("    c\n"));
    assert!(report.contains("ZIP archiver error: bad archive\n"));
    assert!(report.contains("I/O error: busy\n"));
    assert!(report.contains("path does not have exactly three components: x\n"));
    assert_eq!(summary.success_report(), None);
}

#[test]
fn order_of_archives_does_not_matter() {
    let outcomes = || {
        vec![
            (strings(&["a", "b"]), Ok(KeySet::from_list(strings(&["b"])))),
            (strings(&["c"]), Err(Error::MissingRangeHeader)),
            (strings(&["d", "e"]), Ok(KeySet::from_list(strings(&["d"])))),
        ]
    };
    let sorted = |mut keys: Vec<String>| {
        keys.sort();
        keys
    };
    let forward = v1::summarize(outcomes(), Vec::new(), Ok(()));
    let backward = v1::summarize(outcomes().into_iter().rev().collect(), Vec::new(), Ok(()));
    assert_eq!(backward.uploaded_keys, strings(&["e", "a"]));
    assert_eq!(sorted(forward.uploaded_keys), sorted(backward.uploaded_keys));
    assert_eq!(sorted(forward.skipped_keys), sorted(backward.skipped_keys));
    assert_eq!(sorted(forward.failed_keys), sorted(backward.failed_keys));
    assert_eq!(forward.upload_errors.len(), backward.upload_errors.len());
}

#[test]
fn answers_of_several_batches_are_accounted_for() {
    let rounds = vec![
        (
            batch(&["a", "b"]),
            vec![
                upload("a", None),
                FileSpecResponse { key: "b".to_string(), action: ActionSpec::Skip },
            ],
        ),
        (
            batch(&["c", "d"]),
            vec![
                upload("a", None),
                FileSpecResponse {
                    key: "c".to_string(),
                    action: ActionSpec::Error { msg: "bad key".to_string() },
                },
                upload("d", None),
            ],
        ),
    ];
    let mut requests = UploadSummary::new();
    let mut uploads = UploadSummary::new();
    for (batch, list) in rounds {
        let (jobs, summary) = collect_upload_jobs(batch, list, requests);
        requests = summary;
        for job in jobs {
            uploads.record_upload(job.sym_file.into_key(), Ok(()));
        }
    }
    let summary = v2::summarize(uploads, Vec::new(), requests, Ok(()));
    assert_eq!(summary.uploaded_keys, strings(&["a", "d"]));
    assert_eq!(summary.skipped_keys, strings(&["b"]));
    assert_eq!(summary.failed_keys, strings(&["a", "c"]));
    assert_eq!(summary.upload_errors.len(), 2);
}

#[test]
fn failed_archives_fail_all_their_keys() {
    let mut summary = UploadSummary::new();
    summary.record_archive(
        strings(&["a", "b"]),
        Err(Error::ReqwestError("connection reset".to_string())),
    );
    assert!(!summary.success());
    assert_eq!(summary.failed_keys, strings(&["a", "b"]));
    assert_eq!(summary.upload_errors.len(), 1);
}

#[test]
fn errors_after_the_upload_are_recorded() {
    let mut summary = UploadSummary::new();
    summary.record_close(Err("directory not empty".to_string()));
    assert!(!summary.success());
    assert!(summary.failed_keys.is_empty());
    assert_eq!(summary.upload_errors[0].message(), "I/O error: directory not empty");
    let mut summary = UploadSummary::new();
    summary.record_skip("k".to_string());
    assert!(summary.success());
    assert_eq!(summary.skipped_keys, strings(&["k"]));
}

#[test]
fn errors_have_messages() {
    for (error, message) in [
        (Error::NotADirectory(b"/x\xff".to_vec()), "not a directory: /x\u{fffd}"),
        (
            Error::InvalidBaseUrlScheme(Url::parse("ftp://ftp.mozilla.org/").unwrap()),
            "URL must have http or https scheme: ftp://ftp.mozilla.org/",
        ),
        (Error::IOError("a".to_string()), "I/O error: a"),
        (Error::ZipError("b".to_string()), "ZIP archiver error: b"),
        (Error::ReqwestError("c".to_string()), "error sending HTTP request: c"),
        (
            Error::SymbolsServer4xx { status: 400, msg: "d".to_string() },
            "status 400 response from symbols server: d",
        ),
        (
            Error::NotImplemented(UploadApiVersion::V2),
            "upload client not implemented: V2",
        ),
        (Error::InvalidAuthToken, "auth token must contain only hex digits"),
        (Error::MissingRangeHeader, "missing range header in GCS response"),
        (
            Error::InvalidRangeHeader(b"x".to_vec()),
            "invalid range header in GCS response: \"x\"",
        ),
        (
            Error::GcsError { status: 410, msg: "e".to_string() },
            "status 410 response from GCS: e",
        ),
        (
            Error::InvalidSymbolsServerResponse { msg: "f".to_string() },
            "invalid Symbols Server response: f",
        ),
    ] {
        assert_eq!(error.message(), message);
    }
}

#[test]
fn key_sets_keep_their_order() {
    let set = KeySet::from_list(strings(&["b", "a", "b", "c", "a"]));
    assert_eq!(set.keys(), &strings(&["b", "a", "c"]));
    assert!(set.contains("a"));
    assert!(!set.contains("d"));
    let set = set.insert("d".to_string()).insert("b".to_string());
    assert_eq!(set.into_keys(), strings(&["b", "a", "c", "d"]));
}
