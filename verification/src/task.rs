use vstd::prelude::*;
use crate::key::{clone_opt_string, clone_string_vec};

verus! {

/// Identifier of a task. A store assigns them strictly increasing and
/// never reuses one.
pub type TaskId = u64;

/// Policy for combining newly added documents with stored documents that
/// share a primary key: replace the document whole, or update its fields.
#[derive(Clone, Copy, Debug, PartialEq, Eq, Structural)]
pub enum DocumentAdditionMergeStrategy {
    ReplaceDocument,
    UpdateDocument,
}

/// Lifecycle state of a task. This layer only ever writes `Enqueued`; the
/// terminal states are written back by the external execution worker.
#[derive(Clone, Copy, Debug, PartialEq, Eq, Structural)]
pub enum TaskStatus {
    Enqueued,
    Succeeded,
    Failed,
}

/// Which documents a deletion task removes.
#[derive(Debug, PartialEq, Eq)]
pub enum DocumentDeletion {
    Ids(Vec<String>),
    Clear,
}

pub ghost enum DocumentDeletionModel {
    Ids(Seq<Seq<char>>),
    Clear,
}

impl View for DocumentDeletion {
    type V = DocumentDeletionModel;

    open spec fn view(&self) -> DocumentDeletionModel {
        match self {
            DocumentDeletion::Ids(ids) => DocumentDeletionModel::Ids(ids.deep_view()),
            DocumentDeletion::Clear => DocumentDeletionModel::Clear,
        }
    }
}

impl Clone for DocumentDeletion {
    fn clone(&self) -> (res: Self)
        ensures
            res@ == self@,
    {
        match self {
            DocumentDeletion::Ids(ids) => DocumentDeletion::Ids(clone_string_vec(ids)),
            DocumentDeletion::Clear => DocumentDeletion::Clear,
        }
    }
}

/// The payload of one queued mutating operation.
#[derive(Debug, PartialEq, Eq)]
pub enum TaskContent {
    DocumentAddition {
        /// Identifier of the content blob, which is durably stored first:
        /// a reader that sees the task can always fetch the blob.
        content_uuid: u128,
        merge_strategy: DocumentAdditionMergeStrategy,
        primary_key: Option<String>,
        documents_count: u64,
    },
    DocumentDeletion(DocumentDeletion),
    SettingsUpdate,
    IndexDeletion,
}

pub ghost enum TaskContentModel {
    DocumentAddition {
        content_uuid: u128,
        merge_strategy: DocumentAdditionMergeStrategy,
        primary_key: Option<Seq<char>>,
        documents_count: u64,
    },
    DocumentDeletion(DocumentDeletionModel),
    SettingsUpdate,
    IndexDeletion,
}

impl View for TaskContent {
    type V = TaskContentModel;

    open spec fn view(&self) -> TaskContentModel {
        match self {
            TaskContent::DocumentAddition { content_uuid, merge_strategy, primary_key, documents_count } => TaskContentModel::DocumentAddition {
                content_uuid: *content_uuid,
                merge_strategy: *merge_strategy,
                primary_key: primary_key.deep_view(),
                documents_count: *documents_count,
            },
            TaskContent::DocumentDeletion(d) => TaskContentModel::DocumentDeletion(d@),
            TaskContent::SettingsUpdate => TaskContentModel::SettingsUpdate,
            TaskContent::IndexDeletion => TaskContentModel::IndexDeletion,
        }
    }
}

impl Clone for TaskContent {
    fn clone(&self) -> (res: Self)
        ensures
            res@ == self@,
    {
        match self {
            TaskContent::DocumentAddition { content_uuid, merge_strategy, primary_key, documents_count } => TaskContent::DocumentAddition {
                content_uuid: *content_uuid,
                merge_strategy: *merge_strategy,
                primary_key: clone_opt_string(primary_key),
                documents_count: *documents_count,
            },
            TaskContent::DocumentDeletion(d) => TaskContent::DocumentDeletion(d.clone()),
            TaskContent::SettingsUpdate => TaskContent::SettingsUpdate,
            TaskContent::IndexDeletion => TaskContent::IndexDeletion,
        }
    }
}

/// Durable record of one queued mutating operation against an index.
#[derive(Debug, PartialEq, Eq)]
pub struct Task {
    pub id: TaskId,
    pub index_uid: String,
    pub content: TaskContent,
    pub status: TaskStatus,
    pub created_at: i64,
    pub finished_at: Option<i64>,
    pub error: Option<String>,
}

pub ghost struct TaskModel {
    pub id: TaskId,
    pub index_uid: Seq<char>,
    pub content: TaskContentModel,
    pub status: TaskStatus,
    pub created_at: int,
    pub finished_at: Option<int>,
    pub error: Option<Seq<char>>,
}

impl View for Task {
    type V = TaskModel;

    open spec fn view(&self) -> TaskModel {
        TaskModel {
            id: self.id,
            index_uid: self.index_uid@,
            content: self.content@,
            status: self.status,
            created_at: self.created_at as int,
            finished_at: match self.finished_at {
                Some(v) => Some(v as int),
                None => None,
            },
            error: match self.error {
                Some(e) => Some(e@),
                None => None,
            },
        }
    }
}

impl Clone for Task {
    fn clone(&self) -> (res: Self)
        ensures
            res@ == self@,
    {
        Task {
            id: self.id,
            index_uid: self.index_uid.clone(),
            content: self.content.clone(),
            status: self.status,
            created_at: self.created_at,
            finished_at: self.finished_at,
            error: clone_opt_string(&self.error),
        }
    }
}

} // verus!
