//! The vocabulary of the service: requests, what is asked of the world outside, what comes back,
//! and what is remembered in between.
//!
//! Handling a request is a conversation. The library answers a request with a [`Step`]: a reply, or
//! something to ask for together with the [`Task`] to resume once the [`Event`] with the answer is
//! there.

use crate::auth::{Credentials, CredentialsView};
use crate::model::{ListingView, Listing, ObjectInfo, ObjectInfoView, PathItem, PathItemView};
use crate::multipart::{MultipartSession, MultipartSessionView};
use crate::pages::{EditData, EditDataView, IndexData, IndexDataView};
use crate::query::Query;
use crate::reply::{Assets, AssetsView, Reply, ReplyView};
use crate::text::Text;
use vstd::prelude::*;

verus! {

/// A request. Of its headers those are kept that matter here.
pub struct Request {
    pub method: String,
    /// The path of the URL, still encoded.
    pub path: String,
    /// The whole URL.
    pub url: String,
    pub authorization: Option<String>,
    pub depth: Option<String>,
    pub destination: Option<String>,
    pub overwrite: Option<String>,
    pub if_none_match: Option<String>,
    pub if_match: Option<String>,
    pub range: Option<String>,
    pub content_length: Option<String>,
    pub content_type: Option<String>,
    pub update_range: Option<String>,
}

/// A request.
pub struct RequestView {
    pub method: Text,
    pub path: Text,
    pub url: Text,
    pub authorization: Option<Text>,
    pub depth: Option<Text>,
    pub destination: Option<Text>,
    pub overwrite: Option<Text>,
    pub if_none_match: Option<Text>,
    pub if_match: Option<Text>,
    pub range: Option<Text>,
    pub content_length: Option<Text>,
    pub content_type: Option<Text>,
    pub update_range: Option<Text>,
}

impl View for Request {
    type V = RequestView;

    open spec fn view(&self) -> RequestView {
        RequestView {
            method: self.method@,
            path: self.path@,
            url: self.url@,
            authorization: self.authorization.deep_view(),
            depth: self.depth.deep_view(),
            destination: self.destination.deep_view(),
            overwrite: self.overwrite.deep_view(),
            if_none_match: self.if_none_match.deep_view(),
            if_match: self.if_match.deep_view(),
            range: self.range.deep_view(),
            content_length: self.content_length.deep_view(),
            content_type: self.content_type.deep_view(),
            update_range: self.update_range.deep_view(),
        }
    }
}

/// What a request for a file asks beyond its contents.
pub struct Conditions {
    pub if_none_match: Option<String>,
    pub if_match: Option<String>,
    pub range: Option<String>,
}

/// What a request for a file asks beyond its contents.
pub struct ConditionsView {
    pub if_none_match: Option<Text>,
    pub if_match: Option<Text>,
    pub range: Option<Text>,
}

impl View for Conditions {
    type V = ConditionsView;

    open spec fn view(&self) -> ConditionsView {
        ConditionsView {
            if_none_match: self.if_none_match.deep_view(),
            if_match: self.if_match.deep_view(),
            range: self.range.deep_view(),
        }
    }
}

/// What a deployment of the service is made of.
pub struct Service {
    /// The one user; without it nobody can be let in.
    pub credentials: Option<Credentials>,
    pub read_only: bool,
    /// Whether a bucket is bound.
    pub has_bucket: bool,
    pub assets: Assets,
}

/// What a deployment of the service is made of.
pub struct ServiceView {
    pub credentials: Option<CredentialsView>,
    pub read_only: bool,
    pub has_bucket: bool,
    pub assets: AssetsView,
}

impl View for Service {
    type V = ServiceView;

    open spec fn view(&self) -> ServiceView {
        ServiceView {
            credentials: match self.credentials {
                Some(user) => Some(user@),
                None => None,
            },
            read_only: self.read_only,
            has_bucket: self.has_bucket,
            assets: self.assets@,
        }
    }
}

/// A part of an upload as the client reports it.
pub struct MultipartClientPart {
    pub part_number: u16,
    pub etag: String,
}

/// A part of an upload as the client reports it.
pub struct MultipartClientPartView {
    pub part_number: u16,
    pub etag: Text,
}

impl View for MultipartClientPart {
    type V = MultipartClientPartView;

    open spec fn view(&self) -> MultipartClientPartView {
        MultipartClientPartView {
            part_number: self.part_number,
            etag: self.etag@,
        }
    }
}

impl DeepView for MultipartClientPart {
    type V = MultipartClientPartView;

    open spec fn deep_view(&self) -> MultipartClientPartView {
        self@
    }
}

/// A document that is to be serialized as JSON.
pub enum Document {
    Index(IndexData),
    Edit(EditData),
    Item(PathItem),
    Session(MultipartSession),
    /// The session of a new upload, for the client.
    Started { session: String, part_size: u64 },
    /// A part that was stored, for the client.
    Part { part_number: u16, etag: String },
}

/// A document that is to be serialized as JSON.
pub enum DocumentView {
    Index(IndexDataView),
    Edit(EditDataView),
    Item(PathItemView),
    Session(MultipartSessionView),
    Started { session: Text, part_size: u64 },
    Part { part_number: u16, etag: Text },
}

impl View for Document {
    type V = DocumentView;

    open spec fn view(&self) -> DocumentView {
        match self {
            Document::Index(it) => DocumentView::Index(it@),
            Document::Edit(it) => DocumentView::Edit(it@),
            Document::Item(it) => DocumentView::Item(it@),
            Document::Session(it) => DocumentView::Session(it@),
            Document::Started { session, part_size } => DocumentView::Started {
                session: session@,
                part_size: *part_size,
            },
            Document::Part { part_number, etag } => DocumentView::Part {
                part_number: *part_number,
                etag: etag@,
            },
        }
    }
}

/// A kind of worker that requests can be passed on to. All requests with one name meet in one
/// place, where they are handled one after another.
#[derive(Clone, Copy, PartialEq, Eq, Structural)]
pub enum Namespace {
    ObjectCopy,
    ObjectUpload,
    MultipartUploadPart,
}

/// Something to ask of the world outside.
pub enum Action {
    /// What the bucket says of an object.
    /// Answered by `Object`.
    Head { key: String },
    /// Opens an object, or `range` of it given as offset and length, and keeps it at hand.
    /// Answered by `Object`.
    Get { key: String, range: Option<(u64, u64)> },
    /// A page of the objects whose keys start with `prefix`. If `delimited`, deeper ones are
    /// represented by their prefixes up to the next slash. Answered by `Page`.
    List { prefix: String, delimited: bool, limit: u32, cursor: Option<String> },
    /// Removes an object. Answered by `Done`.
    Delete { key: String },
    /// Removes objects. Answered by `Done`.
    DeleteMany { keys: Vec<String> },
    /// Stores bytes as an object. Answered by `Done`.
    PutBytes { key: String, bytes: Vec<u8>, content_type: Option<String> },
    /// Stores the body of the request as an object. Answered by `Done`.
    PutBody { key: String, length: Option<u64>, content_type: Option<String> },
    /// Stores the object at hand, with its metadata, under another key.
    /// Answered by `Done`.
    PutHeld { key: String, size: u64 },
    /// The body of the request. Answered by `Bytes`.
    ReadBody,
    /// The contents of the object at hand. Answered by `Bytes`.
    ReadHeld,
    /// The body of the request as the description of a new upload.
    /// Answered by `Start`.
    ReadStart,
    /// The body of the request as the list of the parts of an upload.
    /// Answered by `Complete`.
    ReadComplete,
    /// Begins an upload in parts. Answered by `Upload`.
    CreateUpload { key: String, content_type: Option<String> },
    /// Stores the body of the request as a part of an upload. Answered by `Part`.
    UploadPart { key: String, upload_id: String, part_number: u16, size: u64 },
    /// Makes one object of the parts of an upload. Answered by `Done`.
    CompleteUpload { key: String, upload_id: String, parts: Vec<MultipartClientPart> },
    /// Gives an upload up. Answered by `Done`.
    AbortUpload { key: String, upload_id: String },
    /// Serializes a document as JSON. Answered by `Bytes`.
    Encode { document: Document, pretty: bool },
    /// Reads a serialized session. Answered by `Session`.
    ParseSession { json: Vec<u8> },
    /// Writes times in the form that HTTP wants. Answered by `Dates`.
    FormatDates { millis: Vec<u64> },
}

/// Something to ask of the world outside.
pub enum ActionView {
    Head { key: Text },
    Get { key: Text, range: Option<(u64, u64)> },
    List { prefix: Text, delimited: bool, limit: u32, cursor: Option<Text> },
    Delete { key: Text },
    DeleteMany { keys: Seq<Text> },
    PutBytes { key: Text, bytes: Seq<u8>, content_type: Option<Text> },
    PutBody { key: Text, length: Option<u64>, content_type: Option<Text> },
    PutHeld { key: Text, size: u64 },
    ReadBody,
    ReadHeld,
    ReadStart,
    ReadComplete,
    CreateUpload { key: Text, content_type: Option<Text> },
    UploadPart { key: Text, upload_id: Text, part_number: u16, size: u64 },
    CompleteUpload { key: Text, upload_id: Text, parts: Seq<MultipartClientPartView> },
    AbortUpload { key: Text, upload_id: Text },
    Encode { document: DocumentView, pretty: bool },
    ParseSession { json: Seq<u8> },
    FormatDates { millis: Seq<u64> },
}

impl View for Action {
    type V = ActionView;

    open spec fn view(&self) -> ActionView {
        match self {
            Action::Head { key } => ActionView::Head {
                key: key@,
            },
            Action::Get { key, range } => ActionView::Get {
                key: key@,
                range: *range,
            },
            Action::List { prefix, delimited, limit, cursor } => ActionView::List {
                prefix: prefix@,
                delimited: *delimited,
                limit: *limit,
                cursor: cursor.deep_view(),
            },
            Action::Delete { key } => ActionView::Delete {
                key: key@,
            },
            Action::DeleteMany { keys } => ActionView::DeleteMany {
                keys: keys.deep_view(),
            },
            Action::PutBytes { key, bytes, content_type } => ActionView::PutBytes {
                key: key@,
                bytes: bytes@,
                content_type: content_type.deep_view(),
            },
            Action::PutBody { key, length, content_type } => ActionView::PutBody {
                key: key@,
                length: *length,
                content_type: content_type.deep_view(),
            },
            Action::PutHeld { key, size } => ActionView::PutHeld {
                key: key@,
                size: *size,
            },
            Action::ReadBody => ActionView::ReadBody,
            Action::ReadHeld => ActionView::ReadHeld,
            Action::ReadStart => ActionView::ReadStart,
            Action::ReadComplete => ActionView::ReadComplete,
            Action::CreateUpload { key, content_type } => ActionView::CreateUpload {
                key: key@,
                content_type: content_type.deep_view(),
            },
            Action::UploadPart { key, upload_id, part_number, size } => ActionView::UploadPart {
                key: key@,
                upload_id: upload_id@,
                part_number: *part_number,
                size: *size,
            },
            Action::CompleteUpload { key, upload_id, parts } => ActionView::CompleteUpload {
                key: key@,
                upload_id: upload_id@,
                parts: parts.deep_view(),
            },
            Action::AbortUpload { key, upload_id } => ActionView::AbortUpload {
                key: key@,
                upload_id: upload_id@,
            },
            Action::Encode { document, pretty } => ActionView::Encode {
                document: document@,
                pretty: *pretty,
            },
            Action::ParseSession { json } => ActionView::ParseSession {
                json: json@,
            },
            Action::FormatDates { millis } => ActionView::FormatDates {
                millis: millis@,
            },
        }
    }
}

/// What comes back.
pub enum Event {
    /// The object, if there is one.
    Object(Option<ObjectInfo>),
    Page(Listing),
    Done,
    Bytes(Vec<u8>),
    Start { size: u64, content_type: Option<String> },
    Complete { session: String, parts: Vec<MultipartClientPart> },
    /// The name of the new upload.
    Upload(String),
    Part { part_number: u16, etag: String },
    /// The session, if it could be read.
    Session(Option<MultipartSession>),
    Dates(Vec<String>),
    /// Something went wrong outside.
    Failed,
}

/// What comes back.
pub enum EventView {
    Object(Option<ObjectInfoView>),
    Page(ListingView),
    Done,
    Bytes(Seq<u8>),
    Start { size: u64, content_type: Option<Text> },
    Complete { session: Text, parts: Seq<MultipartClientPartView> },
    Upload(Text),
    Part { part_number: u16, etag: Text },
    Session(Option<MultipartSessionView>),
    Dates(Seq<Text>),
    Failed,
}

impl View for Event {
    type V = EventView;

    open spec fn view(&self) -> EventView {
        match self {
            Event::Object(it) => EventView::Object(it.deep_view()),
            Event::Page(it) => EventView::Page(it@),
            Event::Done => EventView::Done,
            Event::Bytes(it) => EventView::Bytes(it@),
            Event::Start { size, content_type } => EventView::Start {
                size: *size,
                content_type: content_type.deep_view(),
            },
            Event::Complete { session, parts } => EventView::Complete {
                session: session@,
                parts: parts.deep_view(),
            },
            Event::Upload(it) => EventView::Upload(it@),
            Event::Part { part_number, etag } => EventView::Part {
                part_number: *part_number,
                etag: etag@,
            },
            Event::Session(it) => EventView::Session(it.deep_view()),
            Event::Dates(it) => EventView::Dates(it.deep_view()),
            Event::Failed => EventView::Failed,
        }
    }
}

/// How far the search for what stands at a key has come: first the object of that name is looked
/// for, then the marker of a directory, then anything below it.
#[derive(Clone, Copy, PartialEq, Eq, Structural)]
pub enum ProbeStage {
    Object,
    Marker,
    Contents,
}

/// How a file or a directory is to be shown to the user.
pub struct ReadPlan {
    pub params: Query,
    pub user: String,
    pub read_only: bool,
    pub head_only: bool,
    pub conditions: Conditions,
}

/// How a file or a directory is to be shown to the user.
pub struct ReadPlanView {
    pub params: Seq<(Text, Text)>,
    pub user: Text,
    pub read_only: bool,
    pub head_only: bool,
    pub conditions: ConditionsView,
}

impl View for ReadPlan {
    type V = ReadPlanView;

    open spec fn view(&self) -> ReadPlanView {
        ReadPlanView {
            params: self.params@,
            user: self.user@,
            read_only: self.read_only,
            head_only: self.head_only,
            conditions: self.conditions@,
        }
    }
}

/// What is to be copied or moved where.
pub struct TransferPlan {
    pub source: String,
    pub destination: String,
    pub source_is_dir: bool,
    pub move_source: bool,
    pub destination_exists: bool,
}

/// What is to be copied or moved where.
pub struct TransferPlanView {
    pub source: Text,
    pub destination: Text,
    pub source_is_dir: bool,
    pub move_source: bool,
    pub destination_exists: bool,
}

impl View for TransferPlan {
    type V = TransferPlanView;

    open spec fn view(&self) -> TransferPlanView {
        TransferPlanView {
            source: self.source@,
            destination: self.destination@,
            source_is_dir: self.source_is_dir,
            move_source: self.move_source,
            destination_exists: self.destination_exists,
        }
    }
}

/// What follows once something has been removed or stored.
pub enum After {
    /// A bare reply.
    Reply { status: u16 },
    /// The place is free: copy into it.
    Transfer(TransferPlan),
}

/// What follows once something has been removed or stored.
pub enum AfterView {
    Reply { status: u16 },
    Transfer(TransferPlanView),
}

impl View for After {
    type V = AfterView;

    open spec fn view(&self) -> AfterView {
        match self {
            After::Reply { status } => AfterView::Reply {
                status: *status,
            },
            After::Transfer(it) => AfterView::Transfer(it@),
        }
    }
}

/// What follows once it is known what stands at a key.
pub enum Plan {
    Read(ReadPlan),
    Share { slash: bool, head_only: bool, conditions: Conditions },
    Put { length: Option<u64>, content_type: Option<String> },
    Start,
    Delete,
    Mkcol,
    Propfind { deep: bool },
    /// The key is the source.
    TransferSource { destination: String, keep: bool, move_source: bool },
    /// The key is the destination; it is asked whether it exists.
    TransferTarget { source: String, source_is_dir: bool, keep: bool, move_source: bool },
    /// The key is the destination; it is to be cleared.
    TransferClear(TransferPlan),
}

/// What follows once it is known what stands at a key.
pub enum PlanView {
    Read(ReadPlanView),
    Share { slash: bool, head_only: bool, conditions: ConditionsView },
    Put { length: Option<u64>, content_type: Option<Text> },
    Start,
    Delete,
    Mkcol,
    Propfind { deep: bool },
    TransferSource { destination: Text, keep: bool, move_source: bool },
    TransferTarget { source: Text, source_is_dir: bool, keep: bool, move_source: bool },
    TransferClear(TransferPlanView),
}

impl View for Plan {
    type V = PlanView;

    open spec fn view(&self) -> PlanView {
        match self {
            Plan::Read(it) => PlanView::Read(it@),
            Plan::Share { slash, head_only, conditions } => PlanView::Share {
                slash: *slash,
                head_only: *head_only,
                conditions: conditions@,
            },
            Plan::Put { length, content_type } => PlanView::Put {
                length: *length,
                content_type: content_type.deep_view(),
            },
            Plan::Start => PlanView::Start,
            Plan::Delete => PlanView::Delete,
            Plan::Mkcol => PlanView::Mkcol,
            Plan::Propfind { deep } => PlanView::Propfind {
                deep: *deep,
            },
            Plan::TransferSource { destination, keep, move_source } => PlanView::TransferSource {
                destination: destination@,
                keep: *keep,
                move_source: *move_source,
            },
            Plan::TransferTarget { source, source_is_dir, keep, move_source } => PlanView::TransferTarget {
                source: source@,
                source_is_dir: *source_is_dir,
                keep: *keep,
                move_source: *move_source,
            },
            Plan::TransferClear(it) => PlanView::TransferClear(it@),
        }
    }
}

/// What follows once the entries of a directory are known.
pub enum ListPlan {
    Index(ReadPlan),
    Share { head_only: bool },
    Propfind,
}

/// What follows once the entries of a directory are known.
pub enum ListPlanView {
    Index(ReadPlanView),
    Share { head_only: bool },
    Propfind,
}

impl View for ListPlan {
    type V = ListPlanView;

    open spec fn view(&self) -> ListPlanView {
        match self {
            ListPlan::Index(it) => ListPlanView::Index(it@),
            ListPlan::Share { head_only } => ListPlanView::Share {
                head_only: *head_only,
            },
            ListPlan::Propfind => ListPlanView::Propfind,
        }
    }
}

/// What follows once all keys with a prefix are known.
pub enum ScanPlan {
    Search { key: String, needle: String, read: ReadPlan },
    Delete(After),
    Copy(TransferPlan),
}

/// What follows once all keys with a prefix are known.
pub enum ScanPlanView {
    Search { key: Text, needle: Text, read: ReadPlanView },
    Delete(AfterView),
    Copy(TransferPlanView),
}

impl View for ScanPlan {
    type V = ScanPlanView;

    open spec fn view(&self) -> ScanPlanView {
        match self {
            ScanPlan::Search { key, needle, read } => ScanPlanView::Search {
                key: key@,
                needle: needle@,
                read: read@,
            },
            ScanPlan::Delete(it) => ScanPlanView::Delete(it@),
            ScanPlan::Copy(it) => ScanPlanView::Copy(it@),
        }
    }
}

/// What follows once the session of an upload is known.
pub enum SessionPlan {
    Forward,
    Part { part_number: Option<String>, content_length: Option<String> },
    Complete { parts: Vec<MultipartClientPart> },
    Abort,
}

/// What follows once the session of an upload is known.
pub enum SessionPlanView {
    Forward,
    Part { part_number: Option<Text>, content_length: Option<Text> },
    Complete { parts: Seq<MultipartClientPartView> },
    Abort,
}

impl View for SessionPlan {
    type V = SessionPlanView;

    open spec fn view(&self) -> SessionPlanView {
        match self {
            SessionPlan::Forward => SessionPlanView::Forward,
            SessionPlan::Part { part_number, content_length } => SessionPlanView::Part {
                part_number: part_number.deep_view(),
                content_length: content_length.deep_view(),
            },
            SessionPlan::Complete { parts } => SessionPlanView::Complete {
                parts: parts.deep_view(),
            },
            SessionPlan::Abort => SessionPlanView::Abort,
        }
    }
}

/// What is remembered while something is asked for.
pub enum Task {
    Probe { key: String, stage: ProbeStage, plan: Plan },
    List { key: String, show: ListPlan },
    /// `limit` is the most keys to collect.
    Scan { prefix: String, limit: Option<u64>, keys: Vec<String>, goal: ScanPlan },
    /// The object `keys[at]` is looked at.
    Search { key: String, prefix: String, keys: Vec<String>, at: usize, found: Vec<PathItem>, read: ReadPlan },
    /// All keys ahead of `at` have been removed or are being removed.
    DeleteRest { keys: Vec<String>, at: usize, after: After },
    /// The object `keys[at]` is opened.
    CopyRead { transfer: TransferPlan, keys: Vec<String>, at: usize },
    /// The copy of `keys[at]` is stored.
    CopyWrite { transfer: TransferPlan, keys: Vec<String>, at: usize },
    Work(After),
    PutLook { key: String, length: Option<u64>, content_type: Option<String> },
    PatchOpen { key: String, content_type: Option<String> },
    PatchIncoming { key: String, content_type: Option<String>, size: u64 },
    PatchExisting { key: String, content_type: Option<String>, incoming: Vec<u8> },
    StartRead { key: String },
    StartCreate { key: String, size: u64 },
    StartSession,
    CompleteRead { key: String },
    Session { key: String, purpose: SessionPlan },
    PartStored,
    Json { status: u16 },
    PrettyJson { head_only: bool },
    Interface { head_only: bool },
    /// The reply lacks only the contents of the object.
    Open(Reply),
    /// The entries with their keys.
    Propfind { items: Vec<PathItem>, keys: Vec<String> },
}

/// What is remembered while something is asked for.
pub enum TaskView {
    Probe { key: Text, stage: ProbeStage, plan: PlanView },
    List { key: Text, show: ListPlanView },
    Scan { prefix: Text, limit: Option<u64>, keys: Seq<Text>, goal: ScanPlanView },
    Search { key: Text, prefix: Text, keys: Seq<Text>, at: usize, found: Seq<PathItemView>, read: ReadPlanView },
    DeleteRest { keys: Seq<Text>, at: usize, after: AfterView },
    CopyRead { transfer: TransferPlanView, keys: Seq<Text>, at: usize },
    CopyWrite { transfer: TransferPlanView, keys: Seq<Text>, at: usize },
    Work(AfterView),
    PutLook { key: Text, length: Option<u64>, content_type: Option<Text> },
    PatchOpen { key: Text, content_type: Option<Text> },
    PatchIncoming { key: Text, content_type: Option<Text>, size: u64 },
    PatchExisting { key: Text, content_type: Option<Text>, incoming: Seq<u8> },
    StartRead { key: Text },
    StartCreate { key: Text, size: u64 },
    StartSession,
    CompleteRead { key: Text },
    Session { key: Text, purpose: SessionPlanView },
    PartStored,
    Json { status: u16 },
    PrettyJson { head_only: bool },
    Interface { head_only: bool },
    Open(ReplyView),
    Propfind { items: Seq<PathItemView>, keys: Seq<Text> },
}

impl View for Task {
    type V = TaskView;

    open spec fn view(&self) -> TaskView {
        match self {
            Task::Probe { key, stage, plan } => TaskView::Probe {
                key: key@,
                stage: *stage,
                plan: plan@,
            },
            Task::List { key, show } => TaskView::List {
                key: key@,
                show: show@,
            },
            Task::Scan { prefix, limit, keys, goal } => TaskView::Scan {
                prefix: prefix@,
                limit: *limit,
                keys: keys.deep_view(),
                goal: goal@,
            },
            Task::Search { key, prefix, keys, at, found, read } => TaskView::Search {
                key: key@,
                prefix: prefix@,
                keys: keys.deep_view(),
                at: *at,
                found: found.deep_view(),
                read: read@,
            },
            Task::DeleteRest { keys, at, after } => TaskView::DeleteRest {
                keys: keys.deep_view(),
                at: *at,
                after: after@,
            },
            Task::CopyRead { transfer, keys, at } => TaskView::CopyRead {
                transfer: transfer@,
                keys: keys.deep_view(),
                at: *at,
            },
            Task::CopyWrite { transfer, keys, at } => TaskView::CopyWrite {
                transfer: transfer@,
                keys: keys.deep_view(),
                at: *at,
            },
            Task::Work(it) => TaskView::Work(it@),
            Task::PutLook { key, length, content_type } => TaskView::PutLook {
                key: key@,
                length: *length,
                content_type: content_type.deep_view(),
            },
            Task::PatchOpen { key, content_type } => TaskView::PatchOpen {
                key: key@,
                content_type: content_type.deep_view(),
            },
            Task::PatchIncoming { key, content_type, size } => TaskView::PatchIncoming {
                key: key@,
                content_type: content_type.deep_view(),
                size: *size,
            },
            Task::PatchExisting { key, content_type, incoming } => TaskView::PatchExisting {
                key: key@,
                content_type: content_type.deep_view(),
                incoming: incoming@,
            },
            Task::StartRead { key } => TaskView::StartRead {
                key: key@,
            },
            Task::StartCreate { key, size } => TaskView::StartCreate {
                key: key@,
                size: *size,
            },
            Task::StartSession => TaskView::StartSession,
            Task::CompleteRead { key } => TaskView::CompleteRead {
                key: key@,
            },
            Task::Session { key, purpose } => TaskView::Session {
                key: key@,
                purpose: purpose@,
            },
            Task::PartStored => TaskView::PartStored,
            Task::Json { status } => TaskView::Json {
                status: *status,
            },
            Task::PrettyJson { head_only } => TaskView::PrettyJson {
                head_only: *head_only,
            },
            Task::Interface { head_only } => TaskView::Interface {
                head_only: *head_only,
            },
            Task::Open(it) => TaskView::Open(it@),
            Task::Propfind { items, keys } => TaskView::Propfind {
                items: items.deep_view(),
                keys: keys.deep_view(),
            },
        }
    }
}

/// What a request has come to.
pub enum Step {
    Reply(Reply),
    /// The request is passed on as it is.
    Forward { namespace: Namespace, name: String },
    /// Something is asked for; the task is resumed with the answer.
    Ask(Action, Task),
    /// Something outside failed, or answered what was not asked.
    Fail,
}

/// What a request has come to.
pub enum StepView {
    Reply(ReplyView),
    Forward { namespace: Namespace, name: Text },
    Ask(ActionView, TaskView),
    Fail,
}

impl View for Step {
    type V = StepView;

    open spec fn view(&self) -> StepView {
        match self {
            Step::Reply(it) => StepView::Reply(it@),
            Step::Forward { namespace, name } => StepView::Forward {
                namespace: *namespace,
                name: name@,
            },
            Step::Ask(a0, a1) => StepView::Ask(a0@, a1@),
            Step::Fail => StepView::Fail,
        }
    }
}

} // verus!
