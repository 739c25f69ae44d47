use locallens::ingest::{has_text_extension, plan_document, ImportResult};

#[test]
fn text_extension_any_case() {
    assert!(has_text_extension("txt"));
    assert!(has_text_extension("TXT"));
    assert!(has_text_extension("TxT"));
    assert!(!has_text_extension("md"));
    assert!(!has_text_extension("txts"));
    assert!(!has_text_extension(""));
}

#[test]
fn counters_start_at_zero_and_count() {
    let mut r = ImportResult::new();
    assert_eq!(r, ImportResult { files_imported: 0, chunks_created: 0, skipped: 0, embeddings_generated: 0 });
    r.record_skipped();
    r.record_passage();
    r.record_passage();
    r.record_embedding();
    r.record_file();
    assert_eq!(r, ImportResult { files_imported: 1, chunks_created: 2, skipped: 1, embeddings_generated: 1 });
}

#[test]
fn reimport_plans_the_same_passages() {
    let text = format!("{}\n\n{}", "p".repeat(60), "s. ".repeat(400));
    let first = plan_document(&text);
    let second = plan_document(&text);
    assert_eq!(first, second);
    for (i, (idx, _)) in first.iter().enumerate() {
        assert_eq!(*idx, i);
    }
}

use locallens::ingest::{ImportAction, ImportPhase, ImportRun};

/// Drives a run with the given file texts; `encode_ok` answers each
/// encoding. Returns the actions taken and the final counters.
fn drive(texts: &[Option<String>], ready: bool, encode_ok: bool) -> (Vec<String>, ImportResult) {
    let mut run = ImportRun::start(texts.len(), ready);
    let mut log = Vec::new();
    loop {
        match run.action() {
            ImportAction::ReadFile(i) => {
                log.push(format!("read {i}"));
                run.on_file_read(texts[i].clone());
            }
            ImportAction::ResetDocument(i) => {
                log.push(format!("reset {i}"));
                run.on_stored();
            }
            ImportAction::StorePassage(ci, text) => {
                log.push(format!("store {ci} {}", text.chars().count()));
                run.on_stored();
            }
            ImportAction::EncodePassage(_) => {
                log.push("encode".to_string());
                run.on_encoded(encode_ok);
            }
            ImportAction::StoreEmbedding => {
                log.push("embedding".to_string());
                run.on_stored();
            }
            ImportAction::CommitDocument => {
                log.push("commit".to_string());
                run.on_stored();
            }
            ImportAction::InvalidateCache => {
                log.push("invalidate".to_string());
                run.on_stored();
            }
            ImportAction::Done(r) => {
                assert_eq!(run.phase(), ImportPhase::Finished);
                return (log, r);
            }
        }
    }
}

fn a_txt() -> String {
    format!("{}\n\n{}. {}", "f".repeat(40), "a".repeat(299), "b".repeat(299))
}

#[test]
fn document_with_forty_and_six_hundred_chars_stores_three_passages() {
    let (log, r) = drive(&[Some(a_txt())], false, false);
    assert_eq!(log, vec!["read 0", "reset 0", "store 0 40", "store 1 299", "store 2 299", "commit", "invalidate"]);
    assert_eq!(r, ImportResult { files_imported: 1, chunks_created: 3, skipped: 0, embeddings_generated: 0 });
}

#[test]
fn ready_model_encodes_each_stored_passage() {
    let (log, r) = drive(&[Some(a_txt()), None], true, true);
    assert_eq!(
        log,
        vec![
            "read 0", "reset 0", "store 0 40", "encode", "embedding", "store 1 299", "encode", "embedding",
            "store 2 299", "encode", "embedding", "commit", "read 1", "invalidate"
        ]
    );
    assert_eq!(r, ImportResult { files_imported: 1, chunks_created: 3, skipped: 1, embeddings_generated: 3 });
}

#[test]
fn failed_encoding_stores_no_embedding() {
    let (log, r) = drive(&[Some(a_txt())], true, false);
    assert!(!log.contains(&"embedding".to_string()));
    assert_eq!(r.embeddings_generated, 0);
    assert_eq!(r.chunks_created, 3);
}

#[test]
fn empty_folder_only_invalidates() {
    let (log, r) = drive(&[], true, true);
    assert_eq!(log, vec!["invalidate"]);
    assert_eq!(r, ImportResult::new());
}

#[test]
fn reimport_gives_same_counts() {
    let files = vec![Some(a_txt()), None, Some("short".to_string()), Some("z".repeat(45))];
    let first = drive(&files, true, true);
    let second = drive(&files, true, true);
    assert_eq!(first, second);
    assert_eq!(first.1, ImportResult { files_imported: 3, chunks_created: 4, skipped: 1, embeddings_generated: 4 });
}

#[test]
fn failed_write_goes_to_invalidation() {
    let mut run = ImportRun::start(3, false);
    assert!(matches!(run.action(), ImportAction::ReadFile(0)));
    run.on_file_read(Some(a_txt()));
    assert!(matches!(run.action(), ImportAction::ResetDocument(0)));
    run.on_stored();
    assert!(matches!(run.action(), ImportAction::StorePassage(0, _)));
    run.on_stored();
    run.on_failed();
    assert!(matches!(run.action(), ImportAction::InvalidateCache));
    run.on_stored();
    match run.action() {
        ImportAction::Done(r) => {
            assert_eq!(r, ImportResult { files_imported: 0, chunks_created: 1, skipped: 0, embeddings_generated: 0 })
        }
        other => panic!("unexpected {:?}", other),
    }
}
