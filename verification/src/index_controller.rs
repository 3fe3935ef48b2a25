use vstd::prelude::*;
use crate::content_store::ContentStore;
use crate::document_formats::{
    json_array_count, json_valid, nonempty_lines, read_csv, read_json, read_ndjson,
};
use crate::task::{
    DocumentAdditionMergeStrategy, DocumentDeletion, Task, TaskContent, TaskContentModel, TaskId,
    TaskModel, TaskStatus,
};
use crate::task_store::{
    spec_list_tasks, spec_task_allowed, task_store_wf, TaskFilter, TaskFilterModel, TaskStore,
    TaskStoreModel,
};

verus! {

/// Selection of an index by the serving layer: an optional index name and
/// an optional primary key for documents.
#[derive(Debug)]
pub struct IndexSettings {
    pub uid: Option<String>,
    pub primary_key: Option<String>,
}

/// Declared format of an uploaded document payload.
#[derive(Clone, Copy, Debug, PartialEq, Eq, Structural)]
pub enum DocumentAdditionFormat {
    Json,
    Csv,
    Ndjson,
}

impl DocumentAdditionFormat {
    /// The format's name as written in the external interface.
    pub open spec fn spec_name(self) -> Seq<char> {
        match self {
            DocumentAdditionFormat::Json => "json"@,
            DocumentAdditionFormat::Ndjson => "ndjson"@,
            DocumentAdditionFormat::Csv => "csv"@,
        }
    }

    pub fn as_str(&self) -> (r: &'static str)
        ensures
            r@ == self.spec_name(),
    {
        match self {
            DocumentAdditionFormat::Json => "json",
            DocumentAdditionFormat::Ndjson => "ndjson",
            DocumentAdditionFormat::Csv => "csv",
        }
    }
}

/// A partial settings update for an index. Its contents travel through
/// the queue opaque to this layer: the execution worker interprets them.
#[derive(Debug)]
pub struct Settings {
    pub displayed_attributes: Option<Vec<String>>,
    pub searchable_attributes: Option<Vec<String>>,
    pub filterable_attributes: Option<Vec<String>>,
    pub distinct_attribute: Option<String>,
}

impl Settings {
    /// The update that resets every attribute.
    pub fn cleared() -> (r: Settings)
        ensures
            r.displayed_attributes is None,
            r.searchable_attributes is None,
            r.filterable_attributes is None,
            r.distinct_attribute is None,
    {
        Settings {
            displayed_attributes: None,
            searchable_attributes: None,
            filterable_attributes: None,
            distinct_attribute: None,
        }
    }
}

impl Default for Settings {
    fn default() -> (r: Settings)
        ensures
            r.displayed_attributes is None,
            r.searchable_attributes is None,
            r.filterable_attributes is None,
            r.distinct_attribute is None,
    {
        Settings::cleared()
    }
}

/// One external mutation request, as handed over by the serving layer
/// with its payload already drained into memory.
pub enum Update {
    DeleteDocuments(Vec<String>),
    ClearDocuments,
    Settings(Settings),
    DocumentAddition {
        payload: Vec<u8>,
        primary_key: Option<String>,
        method: DocumentAdditionMergeStrategy,
        format: DocumentAdditionFormat,
    },
    DeleteIndex,
}

pub ghost enum UpdateModel {
    DeleteDocuments(Seq<Seq<char>>),
    ClearDocuments,
    Settings,
    DocumentAddition {
        payload: Seq<u8>,
        primary_key: Option<Seq<char>>,
        method: DocumentAdditionMergeStrategy,
        format: DocumentAdditionFormat,
    },
    DeleteIndex,
}

impl View for Update {
    type V = UpdateModel;

    open spec fn view(&self) -> UpdateModel {
        match self {
            Update::DeleteDocuments(ids) => UpdateModel::DeleteDocuments(ids.deep_view()),
            Update::ClearDocuments => UpdateModel::ClearDocuments,
            Update::Settings(_) => UpdateModel::Settings,
            Update::DocumentAddition { payload, primary_key, method, format } => UpdateModel::DocumentAddition {
                payload: payload@,
                primary_key: primary_key.deep_view(),
                method: *method,
                format: *format,
            },
            Update::DeleteIndex => UpdateModel::DeleteIndex,
        }
    }
}

/// Error of the orchestration layer.
#[derive(Clone, Copy, Debug, PartialEq, Eq, Structural)]
pub enum IndexControllerError {
    /// The builder was not given a maximum index size.
    MissingIndexSize,
    /// A document addition arrived with an empty payload: a client-data
    /// error, no task is created.
    MissingPayload(DocumentAdditionFormat),
    /// The payload does not parse under its declared format: a
    /// client-data error, no task is created and no blob is retained.
    MalformedPayload(DocumentAdditionFormat),
    /// The task identifier space is exhausted.
    TaskIdsExhausted,
    /// The freshly drawn content identifier was already bound; the write
    /// was refused to keep blobs write-once.
    ContentIdReused,
    /// No task with that identifier is visible to the caller.
    TaskNotFound,
}

/// Number of documents a payload carries under a format, when it parses.
pub open spec fn spec_format_count(format: DocumentAdditionFormat, p: Seq<u8>) -> Option<int> {
    match format {
        DocumentAdditionFormat::Ndjson => if (forall|q: int|
            0 <= q < nonempty_lines(p).len() ==> json_valid(#[trigger] nonempty_lines(p)[q])) {
            Some(nonempty_lines(p).len() as int)
        } else {
            None
        },
        DocumentAdditionFormat::Json => json_array_count(p),
        DocumentAdditionFormat::Csv => if nonempty_lines(p).len() >= 1 {
            Some(nonempty_lines(p).len() - 1)
        } else {
            None
        },
    }
}

/// The normalized records staged into the content store for a payload.
pub open spec fn spec_format_docs(format: DocumentAdditionFormat, p: Seq<u8>) -> Seq<Seq<u8>> {
    match format {
        DocumentAdditionFormat::Ndjson => nonempty_lines(p),
        DocumentAdditionFormat::Json => seq![p],
        DocumentAdditionFormat::Csv => nonempty_lines(p).drop_first(),
    }
}

/// Mathematical abstraction of the orchestrator's durable state: the task
/// queue and the content-addressed blob store.
pub ghost struct IndexControllerModel {
    pub tasks: TaskStoreModel,
    pub contents: Map<u128, Seq<Seq<u8>>>,
}

/// Turns one external mutation request into zero-or-one content blob plus
/// exactly one durable task, and gives read access to the queue.
pub struct IndexController {
    task_store: TaskStore,
    update_file_store: ContentStore,
}

impl View for IndexController {
    type V = IndexControllerModel;

    closed spec fn view(&self) -> IndexControllerModel {
        IndexControllerModel { tasks: self.task_store@, contents: self.update_file_store@ }
    }
}

/// Relies on chrono::Utc::now and its timestamp: reads the wall clock as
/// seconds since the epoch; nothing is promised about the value.
#[verifier::external_body]
fn now_timestamp() -> (r: i64) {
    chrono::Utc::now().timestamp()
}

/// Relies on uuid::Uuid::new_v4: draws a random content identifier;
/// nothing is promised about the value.
#[verifier::external_body]
fn fresh_content_uuid() -> (r: u128) {
    uuid::Uuid::new_v4().as_u128()
}

/// What the orchestrator guarantees of a successful registration: the
/// returned task is the one appended to the queue under the next
/// identifier, and its content mirrors the request. A document addition
/// stages its blob under `cu` before the task exists.
pub open spec fn spec_registered(
    m0: IndexControllerModel,
    m1: IndexControllerModel,
    u: UpdateModel,
    uid: Seq<char>,
    t: TaskModel,
    cu: u128,
) -> bool {
    &&& t.id == m0.tasks.next_id
    &&& t.index_uid == uid
    &&& t.status == TaskStatus::Enqueued
    &&& t.finished_at is None
    &&& t.error is None
    &&& m1.tasks.next_id == m0.tasks.next_id + 1
    &&& m1.tasks.tasks == m0.tasks.tasks.push(t)
    &&& match u {
        UpdateModel::DeleteDocuments(ids) => t.content == TaskContentModel::DocumentDeletion(
            crate::task::DocumentDeletionModel::Ids(ids),
        ) && m1.contents == m0.contents,
        UpdateModel::ClearDocuments => t.content == TaskContentModel::DocumentDeletion(
            crate::task::DocumentDeletionModel::Clear,
        ) && m1.contents == m0.contents,
        UpdateModel::Settings => t.content == TaskContentModel::SettingsUpdate && m1.contents
            == m0.contents,
        UpdateModel::DeleteIndex => t.content == TaskContentModel::IndexDeletion && m1.contents
            == m0.contents,
        UpdateModel::DocumentAddition { payload, primary_key, method, format } => {
            let count = spec_format_count(format, payload);
            &&& payload.len() > 0
            &&& count is Some
            &&& 0 <= count.unwrap() <= u64::MAX
            &&& t.content == (TaskContentModel::DocumentAddition {
                content_uuid: cu,
                merge_strategy: method,
                primary_key: primary_key,
                documents_count: count.unwrap() as u64,
            })
            &&& !m0.contents.contains_key(cu)
            &&& m1.contents == m0.contents.insert(cu, spec_format_docs(format, payload))
        },
    }
}

impl IndexController {
    pub fn builder() -> (r: IndexControllerBuilder)
        ensures
            r == IndexControllerBuilder::spec_default(),
    {
        IndexControllerBuilder::default()
    }

    /// Internal shape every operation preserves.
    pub closed spec fn wf(self) -> bool {
        &&& task_store_wf(self.task_store@)
        &&& self.update_file_store.wf()
    }

    /// Registers one mutation request, stamping the supplied clock
    /// reading and, for a document addition, staging the payload's
    /// normalized records under the supplied content identifier before
    /// the task is created. Exact in every case: an empty or malformed
    /// document payload, an exhausted identifier space, and an
    /// already-bound content identifier each fail with their own error
    /// and leave both stores untouched.
    pub fn register_update_with(
        &mut self,
        uid: String,
        update: Update,
        now: i64,
        content_uuid: u128,
    ) -> (r: Result<Task, IndexControllerError>)
        requires
            old(self).wf(),
        ensures
            final(self).wf(),
            r is Err ==> *final(self) == *old(self),
            ({
                let u = update@;
                let m0 = old(self)@;
                match r {
                    Ok(t) => t@.created_at == now as int && spec_registered(
                        m0,
                        final(self)@,
                        u,
                        uid@,
                        t@,
                        content_uuid,
                    ),
                    Err(e) => match u {
                        UpdateModel::DocumentAddition { payload, primary_key, method, format } => {
                            if payload.len() == 0 {
                                e == IndexControllerError::MissingPayload(format)
                            } else if spec_format_count(format, payload) is None {
                                e == IndexControllerError::MalformedPayload(format)
                            } else if m0.tasks.next_id == TaskId::MAX {
                                e == IndexControllerError::TaskIdsExhausted
                            } else {
                                e == IndexControllerError::ContentIdReused
                                    && m0.contents.contains_key(content_uuid)
                            }
                        },
                        _ => e == IndexControllerError::TaskIdsExhausted && m0.tasks.next_id
                            == TaskId::MAX,
                    },
                }
            }),
    {
        let content: TaskContent = match update {
            Update::DeleteDocuments(ids) => TaskContent::DocumentDeletion(
                DocumentDeletion::Ids(ids),
            ),
            Update::ClearDocuments => TaskContent::DocumentDeletion(DocumentDeletion::Clear),
            Update::Settings(_) => TaskContent::SettingsUpdate,
            Update::DeleteIndex => TaskContent::IndexDeletion,
            Update::DocumentAddition { payload, primary_key, method, format } => {
                if payload.len() == 0 {
                    return Err(IndexControllerError::MissingPayload(format));
                }
                let parsed = match format {
                    DocumentAdditionFormat::Json => read_json(payload.as_slice()),
                    DocumentAdditionFormat::Csv => read_csv(payload.as_slice()),
                    DocumentAdditionFormat::Ndjson => read_ndjson(payload.as_slice()),
                };
                let (count, docs) = match parsed {
                    Ok(p) => p,
                    Err(_) => {
                        return Err(IndexControllerError::MalformedPayload(format));
                    },
                };
                if self.task_store.next_task_id() == TaskId::MAX {
                    return Err(IndexControllerError::TaskIdsExhausted);
                }
                if self.update_file_store.contains(content_uuid) {
                    return Err(IndexControllerError::ContentIdReused);
                }
                match self.update_file_store.save(content_uuid, docs) {
                    Ok(_) => {},
                    Err(_) => {
                        proof {
                            assert(false);
                        }
                        return Err(IndexControllerError::ContentIdReused);
                    },
                }
                TaskContent::DocumentAddition {
                    content_uuid,
                    merge_strategy: method,
                    primary_key,
                    documents_count: count,
                }
            },
        };
        if self.task_store.next_task_id() == TaskId::MAX {
            return Err(IndexControllerError::TaskIdsExhausted);
        }
        match self.task_store.register(uid, content, now) {
            Ok(task) => Ok(task),
            Err(_) => {
                proof {
                    assert(false);
                }
                Err(IndexControllerError::TaskIdsExhausted)
            },
        }
    }

    /// Registers one mutation request against the wall clock and a
    /// freshly drawn content identifier. The identifier and the clock
    /// come from outside calls, so this wrapper promises what holds of
    /// every outcome; `register_update_with` carries the exact contract.
    pub fn register_update(&mut self, uid: String, update: Update) -> (r: Result<
        Task,
        IndexControllerError,
    >)
        requires
            old(self).wf(),
        ensures
            final(self).wf(),
            r is Err ==> *final(self) == *old(self),
            ({
                let u = update@;
                let m0 = old(self)@;
                match r {
                    Ok(t) => exists|cu: u128|
                        #[trigger] spec_registered(m0, final(self)@, u, uid@, t@, cu),
                    Err(e) => match u {
                        UpdateModel::DocumentAddition { payload, primary_key, method, format } => {
                            if payload.len() == 0 {
                                e == IndexControllerError::MissingPayload(format)
                            } else if spec_format_count(format, payload) is None {
                                e == IndexControllerError::MalformedPayload(format)
                            } else {
                                e == IndexControllerError::TaskIdsExhausted && m0.tasks.next_id
                                    == TaskId::MAX || e == IndexControllerError::ContentIdReused
                            }
                        },
                        _ => e == IndexControllerError::TaskIdsExhausted && m0.tasks.next_id
                            == TaskId::MAX,
                    },
                }
            }),
    {
        let now = now_timestamp();
        let content_uuid = fresh_content_uuid();
        let r = self.register_update_with(uid, update, now, content_uuid);
        proof {
            if r is Ok {
                assert(spec_registered(
                    old(self)@,
                    final(self)@,
                    update@,
                    uid@,
                    r.unwrap()@,
                    content_uuid,
                ));
            }
        }
        r
    }

    /// Point lookup; a task hidden by the filter is reported exactly like
    /// one that never existed.
    pub fn get_task(&self, id: TaskId, filter: Option<&TaskFilter>) -> (r: Result<
        Task,
        IndexControllerError,
    >)
        requires
            self.wf(),
        ensures
            ({
                let fm = match filter {
                    Some(f) => Some(f@),
                    None => None::<TaskFilterModel>,
                };
                match r {
                    Ok(t) => (exists|i: int|
                        0 <= i < self@.tasks.tasks.len() && #[trigger] self@.tasks.tasks[i] == t@)
                        && t@.id == id && spec_task_allowed(fm, t@),
                    Err(e) => e == IndexControllerError::TaskNotFound && forall|i: int|
                        0 <= i < self@.tasks.tasks.len() ==> !((#[trigger] self@.tasks.tasks[i]).id
                            == id && spec_task_allowed(fm, self@.tasks.tasks[i])),
                }
            }),
    {
        match self.task_store.get_task(id, filter) {
            Some(t) => Ok(t),
            None => Err(IndexControllerError::TaskNotFound),
        }
    }

    /// The twenty most recent tasks visible under the filter.
    pub fn list_tasks(&self, filter: Option<&TaskFilter>) -> (r: Vec<Task>)
        requires
            self.wf(),
        ensures
            ({
                let fm = match filter {
                    Some(f) => Some(f@),
                    None => None::<TaskFilterModel>,
                };
                Seq::new(r@.len(), |q: int| r@[q]@) == spec_list_tasks(
                    self@.tasks.tasks,
                    fm,
                    None,
                    20,
                )
            }),
    {
        self.task_store.list_tasks(filter, 20, None)
    }

    /// Reads a staged blob back by its content identifier.
    pub fn get_content(&self, uuid: u128) -> (r: Option<Vec<Vec<u8>>>)
        requires
            self.wf(),
        ensures
            r is Some <==> self@.contents.contains_key(uuid),
            r is Some ==> r.unwrap().deep_view() == self@.contents[uuid],
    {
        self.update_file_store.get(uuid)
    }
}

/// Step-by-step configuration of an `IndexController`. Snapshot and dump
/// settings are recorded for the serving layer; building the controller
/// itself needs only the maximum index size to be present.
#[derive(Debug)]
pub struct IndexControllerBuilder {
    pub max_index_size: Option<usize>,
    pub max_update_store_size: Option<usize>,
    pub snapshot_dir: Option<String>,
    pub import_snapshot: Option<String>,
    pub snapshot_interval: Option<u64>,
    pub ignore_snapshot_if_db_exists: bool,
    pub ignore_missing_snapshot: bool,
    pub schedule_snapshot: bool,
    pub dump_src: Option<String>,
    pub dump_dst: Option<String>,
}

impl IndexControllerBuilder {
    /// The configuration with nothing set.
    pub open spec fn spec_default() -> IndexControllerBuilder {
        IndexControllerBuilder {
            max_index_size: None,
            max_update_store_size: None,
            snapshot_dir: None,
            import_snapshot: None,
            snapshot_interval: None,
            ignore_snapshot_if_db_exists: false,
            ignore_missing_snapshot: false,
            schedule_snapshot: false,
            dump_src: None,
            dump_dst: None,
        }
    }

    /// Builds the controller with empty stores. The maximum index size
    /// must have been set; nothing else is required.
    pub fn build(self) -> (r: Result<IndexController, IndexControllerError>)
        ensures
            self.max_index_size is Some ==> r is Ok && ({
                let c = r.unwrap();
                &&& c.wf()
                &&& c@.tasks.next_id == 0
                &&& c@.tasks.tasks == Seq::<TaskModel>::empty()
                &&& c@.contents == Map::<u128, Seq<Seq<u8>>>::empty()
            }),
            self.max_index_size is None ==> r == Err::<IndexController, IndexControllerError>(
                IndexControllerError::MissingIndexSize,
            ),
    {
        if self.max_index_size.is_none() {
            return Err(IndexControllerError::MissingIndexSize);
        }
        Ok(IndexController { task_store: TaskStore::new(), update_file_store: ContentStore::new() })
    }

    /// Set the maximum update store size.
    pub fn set_max_update_store_size(&mut self, max_update_store_size: usize) -> (ret: &mut Self)
        ensures
            *ret == (IndexControllerBuilder {
                max_update_store_size: Some(max_update_store_size),
                ..*old(self)
            }),
            *final(self) == *final(ret),
    {
        self.max_update_store_size = Some(max_update_store_size);
        self
    }

    /// Set the maximum index size.
    pub fn set_max_index_size(&mut self, size: usize) -> (ret: &mut Self)
        ensures
            *ret == (IndexControllerBuilder { max_index_size: Some(size), ..*old(self) }),
            *final(self) == *final(ret),
    {
        self.max_index_size = Some(size);
        self
    }

    /// Set the snapshot directory.
    pub fn set_snapshot_dir(&mut self, snapshot_dir: String) -> (ret: &mut Self)
        ensures
            (*ret).snapshot_dir is Some && (*ret).snapshot_dir.deep_view() == Some(
                snapshot_dir@,
            ),
            *ret == (IndexControllerBuilder { snapshot_dir: (*ret).snapshot_dir, ..*old(self) }),
            *final(self) == *final(ret),
    {
        self.snapshot_dir = Some(snapshot_dir);
        self
    }

    /// Set whether an existing database wins over an imported snapshot.
    pub fn set_ignore_snapshot_if_db_exists(
        &mut self,
        ignore_snapshot_if_db_exists: bool,
    ) -> (ret: &mut Self)
        ensures
            *ret == (IndexControllerBuilder {
                ignore_snapshot_if_db_exists: ignore_snapshot_if_db_exists,
                ..*old(self)
            }),
            *final(self) == *final(ret),
    {
        self.ignore_snapshot_if_db_exists = ignore_snapshot_if_db_exists;
        self
    }

    /// Set whether a missing snapshot is tolerated.
    pub fn set_ignore_missing_snapshot(&mut self, ignore_missing_snapshot: bool) -> (ret:
        &mut Self)
        ensures
            *ret == (IndexControllerBuilder {
                ignore_missing_snapshot: ignore_missing_snapshot,
                ..*old(self)
            }),
            *final(self) == *final(ret),
    {
        self.ignore_missing_snapshot = ignore_missing_snapshot;
        self
    }

    /// Set the dump source path.
    pub fn set_dump_src(&mut self, dump_src: String) -> (ret: &mut Self)
        ensures
            (*ret).dump_src is Some && (*ret).dump_src.deep_view() == Some(dump_src@),
            *ret == (IndexControllerBuilder { dump_src: (*ret).dump_src, ..*old(self) }),
            *final(self) == *final(ret),
    {
        self.dump_src = Some(dump_src);
        self
    }

    /// Set the dump destination path.
    pub fn set_dump_dst(&mut self, dump_dst: String) -> (ret: &mut Self)
        ensures
            (*ret).dump_dst is Some && (*ret).dump_dst.deep_view() == Some(dump_dst@),
            *ret == (IndexControllerBuilder { dump_dst: (*ret).dump_dst, ..*old(self) }),
            *final(self) == *final(ret),
    {
        self.dump_dst = Some(dump_dst);
        self
    }

    /// Set the snapshot to import.
    pub fn set_import_snapshot(&mut self, import_snapshot: String) -> (ret: &mut Self)
        ensures
            (*ret).import_snapshot is Some && (*ret).import_snapshot.deep_view() == Some(
                import_snapshot@,
            ),
            *ret == (IndexControllerBuilder {
                import_snapshot: (*ret).import_snapshot,
                ..*old(self)
            }),
            *final(self) == *final(ret),
    {
        self.import_snapshot = Some(import_snapshot);
        self
    }

    /// Set the interval between scheduled snapshots, in seconds.
    pub fn set_snapshot_interval(&mut self, snapshot_interval: u64) -> (ret: &mut Self)
        ensures
            *ret == (IndexControllerBuilder {
                snapshot_interval: Some(snapshot_interval),
                ..*old(self)
            }),
            *final(self) == *final(ret),
    {
        self.snapshot_interval = Some(snapshot_interval);
        self
    }

    /// Schedule periodic snapshots.
    pub fn set_schedule_snapshot(&mut self) -> (ret: &mut Self)
        ensures
            *ret == (IndexControllerBuilder { schedule_snapshot: true, ..*old(self) }),
            *final(self) == *final(ret),
    {
        self.schedule_snapshot = true;
        self
    }
}

impl Default for IndexControllerBuilder {
    fn default() -> (r: Self)
        ensures
            r == IndexControllerBuilder::spec_default(),
    {
        IndexControllerBuilder {
            max_index_size: None,
            max_update_store_size: None,
            snapshot_dir: None,
            import_snapshot: None,
            snapshot_interval: None,
            ignore_snapshot_if_db_exists: false,
            ignore_missing_snapshot: false,
            schedule_snapshot: false,
            dump_src: None,
            dump_dst: None,
        }
    }
}

} // verus!
