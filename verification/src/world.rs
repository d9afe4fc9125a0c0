//! A picture of the bucket, for saying what conversations with it come to.
//!
//! Nothing here runs. A [`Scene`] is a moment of a conversation, and a play is a conversation in
//! which the bucket answers truthfully and nobody else writes to it.

use crate::keys;
use crate::listing;
use crate::machine::{ActionView, EventView, MultipartClientPartView, ServiceView, StepView};
use crate::model::{ListingView, NodeView, ObjectInfoView};
use crate::service;
use crate::text::{self, Text};
use vstd::prelude::*;

verus! {

/// What is kept of an object for those who fetch it over HTTP.
pub struct Metadata {
    pub content_type: Option<Text>,
    pub content_language: Option<Text>,
    pub content_disposition: Option<Text>,
    pub content_encoding: Option<Text>,
    pub cache_control: Option<Text>,
    pub cache_expiry: Option<u64>,
}

/// An object in the bucket.
pub struct Stored {
    pub bytes: Seq<u8>,
    pub metadata: Metadata,
    pub etag: Text,
    pub uploaded: u64,
}

/// The bucket: its objects by their keys.
pub type World = Map<Text, Stored>;

/// A part of an upload in progress.
pub struct StoredPart {
    pub bytes: Seq<u8>,
    pub etag: Text,
}

/// An upload in progress: the object it will make, and the parts that have come, by their numbers.
pub struct OpenUpload {
    pub key: Text,
    pub metadata: Metadata,
    pub parts: Map<u16, StoredPart>,
}

/// A moment of a conversation: what is in the bucket, which uploads to it are in progress, by their
/// names, which object is at hand, which keys the listing in progress has handed out, and what the
/// request has come to.
pub struct Scene {
    pub world: World,
    pub uploads: Map<Text, OpenUpload>,
    pub held: Option<Stored>,
    pub seen: Seq<Text>,
    pub step: StepView,
}

/// The metadata of an object of which only the type is known.
pub open spec fn typed(content_type: Option<Text>) -> Metadata {
    Metadata {
        content_type,
        content_language: None,
        content_disposition: None,
        content_encoding: None,
        cache_control: None,
        cache_expiry: None,
    }
}

/// What the bucket says of an object without its contents.
pub open spec fn info_of(key: Text, object: Stored) -> ObjectInfoView {
    ObjectInfoView {
        key,
        size: object.bytes.len() as u64,
        etag: object.etag,
        content_type: object.metadata.content_type,
        uploaded: object.uploaded,
    }
}

/// What the bucket says of the object `key`, if it is there.
pub open spec fn info_at(world: World, key: Text) -> Option<ObjectInfoView> {
    if world.contains_key(key) {
        Some(info_of(key, world[key]))
    } else {
        None
    }
}

/// Some object lies below the prefix.
pub open spec fn has_below(world: World, prefix: Text) -> bool {
    exists|key: Text| #[trigger] world.contains_key(key) && prefix.is_prefix_of(key)
}

/// What stands at `key`: the object of that name is a file; without one, any object below makes a
/// directory.
pub open spec fn node_at(world: World, key: Text) -> NodeView {
    if key.len() == 0 {
        NodeView::Dir
    } else if world.contains_key(key) {
        NodeView::File(info_of(key, world[key]))
    } else if has_below(world, keys::prefix_of_directory(key)) {
        NodeView::Dir
    } else {
        NodeView::Missing
    }
}

/// The bucket without the given keys.
pub open spec fn without_keys(world: World, gone: Seq<Text>) -> World {
    Map::new(|key: Text| world.contains_key(key) && !gone.contains(key), |key: Text| world[key])
}

/// The bucket without what lies below the prefix.
pub open spec fn without_below(world: World, prefix: Text) -> World {
    Map::new(
        |key: Text| world.contains_key(key) && !prefix.is_prefix_of(key),
        |key: Text| world[key],
    )
}

/// The bucket without what stands at `key`.
pub open spec fn without_node(world: World, key: Text) -> World {
    match node_at(world, key) {
        NodeView::File(_) => world.remove(key),
        NodeView::Dir => without_below(world, keys::prefix_of_directory(key)),
        NodeView::Missing => world,
    }
}

/// The second bucket is the first with one object stored in it.
pub open spec fn is_stored(
    before: World,
    after: World,
    key: Text,
    bytes: Seq<u8>,
    metadata: Metadata,
) -> bool {
    &&& after.contains_key(key)
    &&& after == before.insert(key, after[key])
    &&& after[key].bytes == bytes
    &&& after[key].metadata == metadata
}

/// The object, or the part of it that was asked for by its offset and length.
pub open spec fn part_of(object: Stored, range: Option<(u64, u64)>) -> Stored {
    match range {
        Some((offset, length)) => Stored {
            bytes: object.bytes.subrange(offset as int, offset + length),
            ..object
        },
        None => object,
    }
}

/// The bytes of the parts that the list names, one after another.
pub open spec fn joined(upload: OpenUpload, list: Seq<MultipartClientPartView>) -> Seq<u8>
    decreases list.len(),
{
    if list.len() == 0 {
        Seq::empty()
    } else {
        joined(upload, list.drop_last()) + upload.parts[list.last().part_number].bytes
    }
}

/// The list names parts that have come, by their numbers and tags.
pub open spec fn names_parts(upload: OpenUpload, list: Seq<MultipartClientPartView>) -> bool {
    forall|i: int|
        0 <= i < list.len() ==> upload.parts.contains_key((#[trigger] list[i]).part_number)
            && upload.parts[list[i].part_number].etag == list[i].etag
}

/// A page of a listing, after the keys in `base` have been handed out. What is on it is there,
/// nothing comes twice, and unless the page leads to another one, everything has come. A page is
/// empty only if nothing is left.
pub open spec fn is_page(world: World, prefix: Text, base: Seq<Text>, page: ListingView) -> bool {
    let all = base + listing::object_keys(page.objects);
    &&& forall|i: int|
        0 <= i < page.objects.len() ==> {
            let object = #[trigger] page.objects[i];
            prefix.is_prefix_of(object.key) && Some(object) == info_at(world, object.key)
        }
    &&& all.no_duplicates()
    &&& page.prefixes.len() == 0
    &&& (!page.truncated || page.cursor is None || page.objects.len() == 0) ==> forall|key: Text|
        #[trigger] world.contains_key(key) && prefix.is_prefix_of(key) ==> all.contains(key)
}

/// A page of a directory. What is on it is there, nothing comes twice, and unless the page was cut
/// short, everything has come: the objects in the directory, and for each that lies deeper the
/// prefix up to the next slash.
pub open spec fn is_directory_page(world: World, prefix: Text, page: ListingView) -> bool {
    &&& forall|i: int|
        0 <= i < page.objects.len() ==> {
            let object = #[trigger] page.objects[i];
            &&& prefix.is_prefix_of(object.key)
            &&& !object.key.skip(prefix.len() as int).contains('/')
            &&& Some(object) == info_at(world, object.key)
        }
    &&& listing::object_keys(page.objects).no_duplicates()
    &&& forall|i: int|
        0 <= i < page.prefixes.len() ==> {
            let deeper = #[trigger] page.prefixes[i];
            &&& deeper == prefix + first_part(deeper.skip(prefix.len() as int)).push('/')
            &&& has_below(world, deeper)
        }
    &&& page.prefixes.no_duplicates()
    &&& !page.truncated ==> forall|key: Text| #[trigger]
        world.contains_key(key) && prefix.is_prefix_of(key) ==> {
            let rest = key.skip(prefix.len() as int);
            if rest.contains('/') {
                page.prefixes.contains(prefix + first_part(rest).push('/'))
            } else {
                page.objects.contains(info_of(key, world[key]))
            }
        }
}

/// What stands ahead of the first slash.
pub open spec fn first_part(rest: Text) -> Text {
    rest.take(text::first_index(rest, '/'))
}

/// What an action does, given the body of the request, and what is answered. An action may fail;
/// nothing is then said of what it has done.
pub open spec fn plays(
    body: Seq<u8>,
    before: Scene,
    action: ActionView,
    event: EventView,
    after: Scene,
) -> bool {
    let aside = after.held == before.held && after.seen == before.seen;
    let kept = after.world == before.world && after.uploads == before.uploads && aside;
    let done = event == EventView::Done && after.uploads == before.uploads && aside;
    ||| event is Failed
    ||| match action {
        ActionView::Head { key } => kept && event == EventView::Object(info_at(before.world, key)),
        ActionView::Get { key, range } => {
            &&& event == EventView::Object(info_at(before.world, key))
            &&& after.world == before.world
            &&& after.uploads == before.uploads
            &&& after.seen == before.seen
            &&& before.world.contains_key(key) ==> after.held == Some(
                part_of(before.world[key], range),
            )
        },
        ActionView::List { prefix, delimited, cursor, .. } => {
            let base = if cursor is None {
                Seq::empty()
            } else {
                before.seen
            };
            &&& event is Page
            &&& after.world == before.world
            &&& after.uploads == before.uploads
            &&& after.held == before.held
            &&& if delimited {
                is_directory_page(before.world, prefix, event->Page_0)
            } else {
                &&& is_page(before.world, prefix, base, event->Page_0)
                &&& after.seen == base + listing::object_keys(event->Page_0.objects)
            }
        },
        ActionView::Delete { key } => done && after.world == before.world.remove(key),
        ActionView::DeleteMany { keys } => done && after.world == without_keys(before.world, keys),
        ActionView::PutBytes { key, bytes, content_type } => done && is_stored(
            before.world,
            after.world,
            key,
            bytes,
            typed(content_type),
        ),
        ActionView::PutBody { key, content_type, .. } => done && is_stored(
            before.world,
            after.world,
            key,
            body,
            typed(content_type),
        ),
        ActionView::PutHeld { key, .. } => done && (before.held matches Some(object) && is_stored(
            before.world,
            after.world,
            key,
            object.bytes,
            object.metadata,
        )),
        ActionView::CreateUpload { key, content_type } => {
            &&& event matches EventView::Upload(upload_id)
            &&& !before.uploads.contains_key(upload_id)
            &&& after.uploads == before.uploads.insert(
                upload_id,
                OpenUpload { key, metadata: typed(content_type), parts: Map::empty() },
            )
            &&& after.world == before.world
            &&& aside
        },
        ActionView::UploadPart { key, upload_id, part_number, size } => {
            let upload = before.uploads[upload_id];
            &&& event matches EventView::Part { part_number: number, etag }
            &&& number == part_number
            &&& body.len() == size
            &&& before.uploads.contains_key(upload_id)
            &&& upload.key == key
            &&& after.uploads == before.uploads.insert(
                upload_id,
                OpenUpload {
                    parts: upload.parts.insert(part_number, StoredPart { bytes: body, etag }),
                    ..upload
                },
            )
            &&& after.world == before.world
            &&& aside
        },
        ActionView::CompleteUpload { key, upload_id, parts } => {
            let upload = before.uploads[upload_id];
            &&& event == EventView::Done
            &&& before.uploads.contains_key(upload_id)
            &&& upload.key == key
            &&& names_parts(upload, parts)
            &&& after.uploads == before.uploads.remove(upload_id)
            &&& is_stored(before.world, after.world, key, joined(upload, parts), upload.metadata)
            &&& aside
        },
        ActionView::AbortUpload { upload_id, .. } => {
            &&& event == EventView::Done
            &&& after.uploads == before.uploads.remove(upload_id)
            &&& after.world == before.world
            &&& aside
        },
        ActionView::ReadBody => kept && event == EventView::Bytes(body),
        ActionView::ReadHeld => kept && (before.held matches Some(object) && event
            == EventView::Bytes(object.bytes)),
        ActionView::ReadStart => kept && event is Start,
        ActionView::ReadComplete => kept && event is Complete,
        ActionView::Encode { .. } => kept && event is Bytes,
        ActionView::ParseSession { .. } => kept && event is Session,
        ActionView::FormatDates { millis } => kept && (event matches EventView::Dates(dates)
            && dates.len() == millis.len()),
    }
}

/// One scene follows on another: what was asked for has been answered.
pub open spec fn follows(
    service: ServiceView,
    body: Seq<u8>,
    before: Scene,
    answer: (EventView, nat),
    after: Scene,
) -> bool {
    before.step matches StepView::Ask(action, task) && plays(body, before, action, answer.0, after)
        && after.step == service::next_step(service, task, answer.0, answer.1)
}

/// A conversation with the bucket: every scene follows on the one before it.
pub open spec fn is_play(
    service: ServiceView,
    body: Seq<u8>,
    scenes: Seq<Scene>,
    answers: Seq<(EventView, nat)>,
) -> bool {
    &&& scenes.len() == answers.len() + 1
    &&& forall|i: int|
        0 <= i < answers.len() ==> follows(
            service,
            body,
            #[trigger] scenes[i],
            answers[i],
            scenes[i + 1],
        )
}

/// Nothing that was asked for has failed.
pub open spec fn nothing_failed(answers: Seq<(EventView, nat)>) -> bool {
    forall|i: int| 0 <= i < answers.len() ==> !((#[trigger] answers[i]).0 is Failed)
}

/// The conversation comes to a reply: unless something is still being asked for, there is one.
pub open spec fn ends_in_reply(scenes: Seq<Scene>) -> bool {
    scenes.last().step is Ask || scenes.last().step is Reply
}

/// What lies below the prefix can be held in memory: a machine counts it.
pub open spec fn is_countable(world: World, prefix: Text) -> bool {
    let below = Set::new(|key: Text| world.contains_key(key) && prefix.is_prefix_of(key));
    below.finite() && below.len() < usize::MAX
}

} // verus!
