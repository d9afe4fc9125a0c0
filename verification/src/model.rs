//! What the service knows of the objects in the bucket and of the entries of a directory.

use crate::text::Text;
use vstd::prelude::*;

verus! {

/// What an entry is.
#[derive(Clone, Copy, PartialEq, Eq, Structural)]
pub enum PathType {
    Dir,
    File,
}

/// An entry of a directory. A directory has neither a time nor a size.
pub struct PathItem {
    pub path_type: PathType,
    pub name: String,
    pub mtime: u64,
    pub size: u64,
}

/// An entry of a directory.
pub struct PathItemView {
    pub path_type: PathType,
    pub name: Text,
    pub mtime: u64,
    pub size: u64,
}

impl View for PathItem {
    type V = PathItemView;

    open spec fn view(&self) -> PathItemView {
        PathItemView {
            path_type: self.path_type,
            name: self.name@,
            mtime: self.mtime,
            size: self.size,
        }
    }
}

impl DeepView for PathItem {
    type V = PathItemView;

    open spec fn deep_view(&self) -> PathItemView {
        self@
    }
}

impl PathItem {
    /// Whether the entry is a directory.
    pub fn is_dir(&self) -> (r: bool)
        ensures
            r == (self@.path_type == PathType::Dir),
    {
        self.path_type == PathType::Dir
    }
}

/// What the bucket says of an object without its contents. `etag` is quoted as HTTP wants it;
/// `uploaded` is in milliseconds since 1970.
pub struct ObjectInfo {
    pub key: String,
    pub size: u64,
    pub etag: String,
    pub content_type: Option<String>,
    pub uploaded: u64,
}

/// What the bucket says of an object without its contents.
pub struct ObjectInfoView {
    pub key: Text,
    pub size: u64,
    pub etag: Text,
    pub content_type: Option<Text>,
    pub uploaded: u64,
}

impl View for ObjectInfo {
    type V = ObjectInfoView;

    open spec fn view(&self) -> ObjectInfoView {
        ObjectInfoView {
            key: self.key@,
            size: self.size,
            etag: self.etag@,
            content_type: self.content_type.deep_view(),
            uploaded: self.uploaded,
        }
    }
}

impl DeepView for ObjectInfo {
    type V = ObjectInfoView;

    open spec fn deep_view(&self) -> ObjectInfoView {
        self@
    }
}

/// One page of a listing: the objects on it, the prefixes that stand for deeper ones, and where
/// the next page begins.
pub struct Listing {
    pub objects: Vec<ObjectInfo>,
    pub prefixes: Vec<String>,
    pub truncated: bool,
    pub cursor: Option<String>,
}

/// One page of a listing.
pub struct ListingView {
    pub objects: Seq<ObjectInfoView>,
    pub prefixes: Seq<Text>,
    pub truncated: bool,
    pub cursor: Option<Text>,
}

impl View for Listing {
    type V = ListingView;

    open spec fn view(&self) -> ListingView {
        ListingView {
            objects: self.objects.deep_view(),
            prefixes: self.prefixes.deep_view(),
            truncated: self.truncated,
            cursor: self.cursor.deep_view(),
        }
    }
}

/// What stands at a key.
pub enum Node {
    File(ObjectInfo),
    Dir,
    Missing,
}

/// What stands at a key.
pub enum NodeView {
    File(ObjectInfoView),
    Dir,
    Missing,
}

impl View for Node {
    type V = NodeView;

    open spec fn view(&self) -> NodeView {
        match self {
            Node::File(object) => NodeView::File(object@),
            Node::Dir => NodeView::Dir,
            Node::Missing => NodeView::Missing,
        }
    }
}

} // verus!
