use meilisearch_lib::index_controller::{
    DocumentAdditionFormat, IndexController, IndexControllerError, IndexSettings, Settings, Update,
};
use meilisearch_lib::task::{DocumentAdditionMergeStrategy, TaskContent, TaskStatus};

fn controller() -> IndexController {
    let mut builder = IndexController::builder();
    builder.set_max_index_size(1 << 20).set_max_update_store_size(1 << 20);
    builder.build().unwrap()
}

fn addition(payload: &[u8], format: DocumentAdditionFormat) -> Update {
    Update::DocumentAddition {
        payload: payload.to_vec(),
        primary_key: Some(String::from("id")),
        method: DocumentAdditionMergeStrategy::ReplaceDocument,
        format,
    }
}

#[test]
fn builder_requires_the_index_size() {
    let builder = IndexController::builder();
    assert!(matches!(builder.build(), Err(IndexControllerError::MissingIndexSize)));

    let mut builder = IndexController::builder();
    builder.set_max_index_size(1024);
    assert!(builder.build().is_ok());
}

#[test]
fn three_record_ndjson_payload_registers_one_task() {
    let mut ctl = controller();
    let payload = b"{\"id\":1,\"title\":\"a\"}\n{\"id\":2,\"title\":\"b\"}\n{\"id\":3,\"title\":\"c\"}\n";
    let task = ctl
        .register_update(String::from("movies"), addition(payload, DocumentAdditionFormat::Ndjson))
        .unwrap();

    assert_eq!(task.status, TaskStatus::Enqueued);
    assert_eq!(task.index_uid, "movies");
    let content_uuid = match &task.content {
        TaskContent::DocumentAddition { content_uuid, documents_count, merge_strategy, primary_key } => {
            assert_eq!(*documents_count, 3);
            assert_eq!(*merge_strategy, DocumentAdditionMergeStrategy::ReplaceDocument);
            assert_eq!(primary_key.as_deref(), Some("id"));
            *content_uuid
        },
        other => panic!("unexpected content {:?}", other),
    };

    // the blob reads back as the three normalized records
    let records = ctl.get_content(content_uuid).unwrap();
    assert_eq!(records.len(), 3);
    assert_eq!(records[0], b"{\"id\":1,\"title\":\"a\"}".to_vec());
    assert_eq!(records[1], b"{\"id\":2,\"title\":\"b\"}".to_vec());
    assert_eq!(records[2], b"{\"id\":3,\"title\":\"c\"}".to_vec());

    let listed = ctl.list_tasks(None);
    assert_eq!(listed.len(), 1);
    assert_eq!(listed[0].id, task.id);
}

#[test]
fn empty_payload_fails_and_leaves_no_task() {
    let mut ctl = controller();
    let result = ctl.register_update(
        String::from("movies"),
        addition(b"", DocumentAdditionFormat::Ndjson),
    );
    assert_eq!(
        result.unwrap_err(),
        IndexControllerError::MissingPayload(DocumentAdditionFormat::Ndjson)
    );
    assert_eq!(ctl.list_tasks(None).len(), 0);
}

#[test]
fn malformed_ndjson_fails_and_retains_no_blob() {
    let mut ctl = controller();
    let result = ctl.register_update(
        String::from("movies"),
        addition(b"{\"id\":1}\nnot json at all\n", DocumentAdditionFormat::Ndjson),
    );
    assert_eq!(
        result.unwrap_err(),
        IndexControllerError::MalformedPayload(DocumentAdditionFormat::Ndjson)
    );
    assert_eq!(ctl.list_tasks(None).len(), 0);
}

#[test]
fn json_array_payload_counts_its_elements() {
    let mut ctl = controller();
    let task = ctl
        .register_update(
            String::from("movies"),
            addition(b"[{\"id\":1},{\"id\":2},{\"id\":3}]", DocumentAdditionFormat::Json),
        )
        .unwrap();
    match &task.content {
        TaskContent::DocumentAddition { documents_count, .. } => assert_eq!(*documents_count, 3),
        other => panic!("unexpected content {:?}", other),
    }

    let result = ctl.register_update(
        String::from("movies"),
        addition(b"{\"id\":1}", DocumentAdditionFormat::Json),
    );
    assert_eq!(
        result.unwrap_err(),
        IndexControllerError::MalformedPayload(DocumentAdditionFormat::Json)
    );
}

#[test]
fn csv_payload_counts_records_after_the_header() {
    let mut ctl = controller();
    let task = ctl
        .register_update(
            String::from("movies"),
            addition(b"id,title\n1,a\n2,b\n", DocumentAdditionFormat::Csv),
        )
        .unwrap();
    let content_uuid = match &task.content {
        TaskContent::DocumentAddition { documents_count, content_uuid, .. } => {
            assert_eq!(*documents_count, 2);
            *content_uuid
        },
        other => panic!("unexpected content {:?}", other),
    };
    let records = ctl.get_content(content_uuid).unwrap();
    assert_eq!(records, vec![b"1,a".to_vec(), b"2,b".to_vec()]);

    // a payload of blank lines has no header to read
    let result = ctl.register_update(
        String::from("movies"),
        addition(b"\n\n", DocumentAdditionFormat::Csv),
    );
    assert_eq!(
        result.unwrap_err(),
        IndexControllerError::MalformedPayload(DocumentAdditionFormat::Csv)
    );
}

#[test]
fn metadata_updates_register_without_a_blob() {
    let mut ctl = controller();
    let t1 = ctl
        .register_update(
            String::from("movies"),
            Update::DeleteDocuments(vec![String::from("1"), String::from("2")]),
        )
        .unwrap();
    let t2 = ctl.register_update(String::from("movies"), Update::ClearDocuments).unwrap();
    let t3 = ctl
        .register_update(String::from("movies"), Update::Settings(Settings::cleared()))
        .unwrap();
    let t4 = ctl.register_update(String::from("movies"), Update::DeleteIndex).unwrap();

    assert!(matches!(t1.content, TaskContent::DocumentDeletion(_)));
    assert!(matches!(t2.content, TaskContent::DocumentDeletion(_)));
    assert!(matches!(t3.content, TaskContent::SettingsUpdate));
    assert!(matches!(t4.content, TaskContent::IndexDeletion));
    assert!(t1.id < t2.id && t2.id < t3.id && t3.id < t4.id);
    assert_eq!(ctl.list_tasks(None).len(), 4);
}

#[test]
fn explicit_clock_and_content_id_are_used() {
    let mut ctl = controller();
    let task = ctl
        .register_update_with(
            String::from("movies"),
            addition(b"{\"id\":1}\n", DocumentAdditionFormat::Ndjson),
            424242,
            7,
        )
        .unwrap();
    assert_eq!(task.created_at, 424242);
    match &task.content {
        TaskContent::DocumentAddition { content_uuid, documents_count, .. } => {
            assert_eq!(*content_uuid, 7);
            assert_eq!(*documents_count, 1);
        },
        other => panic!("unexpected content {:?}", other),
    }

    // the same content identifier cannot be staged twice
    let clash = ctl.register_update_with(
        String::from("movies"),
        addition(b"{\"id\":2}\n", DocumentAdditionFormat::Ndjson),
        424243,
        7,
    );
    assert_eq!(clash.unwrap_err(), IndexControllerError::ContentIdReused);
    assert_eq!(ctl.list_tasks(None).len(), 1);
}

#[test]
fn builder_setters_record_every_option() {
    let mut builder = IndexController::builder();
    builder
        .set_max_index_size(1)
        .set_max_update_store_size(2)
        .set_snapshot_dir(String::from("snapshots"))
        .set_import_snapshot(String::from("import.snapshot"))
        .set_snapshot_interval(3600)
        .set_ignore_snapshot_if_db_exists(true)
        .set_ignore_missing_snapshot(true)
        .set_dump_src(String::from("dump-in"))
        .set_dump_dst(String::from("dump-out"))
        .set_schedule_snapshot();
    assert_eq!(builder.max_index_size, Some(1));
    assert_eq!(builder.max_update_store_size, Some(2));
    assert_eq!(builder.snapshot_dir.as_deref(), Some("snapshots"));
    assert_eq!(builder.import_snapshot.as_deref(), Some("import.snapshot"));
    assert_eq!(builder.snapshot_interval, Some(3600));
    assert!(builder.ignore_snapshot_if_db_exists);
    assert!(builder.ignore_missing_snapshot);
    assert!(builder.schedule_snapshot);
    assert_eq!(builder.dump_src.as_deref(), Some("dump-in"));
    assert_eq!(builder.dump_dst.as_deref(), Some("dump-out"));
    assert!(builder.build().is_ok());

    let settings = IndexSettings { uid: Some(String::from("movies")), primary_key: Some(String::from("id")) };
    assert_eq!(settings.uid.as_deref(), Some("movies"));
    assert_eq!(settings.primary_key.as_deref(), Some("id"));

    let cleared = Settings::default();
    assert!(cleared.displayed_attributes.is_none());
    assert!(cleared.distinct_attribute.is_none());
}

#[test]
fn format_names_match_the_external_interface() {
    assert_eq!(DocumentAdditionFormat::Json.as_str(), "json");
    assert_eq!(DocumentAdditionFormat::Ndjson.as_str(), "ndjson");
    assert_eq!(DocumentAdditionFormat::Csv.as_str(), "csv");
}
