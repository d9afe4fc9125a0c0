//! What the pages and listings show.

use crate::codec::{self, base64_encode};
use crate::escape::{self, html_escape, xml_escape};
use crate::keys::{self, href_for_key, join_key, PUBLIC_SHARE_ROOT};
use crate::media::{self, content_type_for, is_text_content_type};
use crate::model::{ObjectInfo, ObjectInfoView, PathItem, PathItemView, PathType};
use crate::numbers::{self, decimal_text};
use crate::reply::{Reply, ReplyView, ASSET_PREFIX};
use crate::sort::{self, sort_items, SortKey};
use crate::text::{self, last_part, parent_part, replace_text, same_text, Text};
use vstd::prelude::*;
use vstd::string::*;
use vstd::utf8::*;

verus! {

/// The largest file that is offered for editing: 4 MiB.
pub const EDITABLE_TEXT_MAX_SIZE: u64 = 4_194_304;

// ---------------------------------------------------------------------------
// The public share
// ---------------------------------------------------------------------------

/// The row of one entry: a link, and for a file its size and a button to download it.
pub open spec fn share_row(parent_key: Text, item: PathItemView) -> Text {
    let dir = item.path_type == PathType::Dir;
    let href = escape::html_escaped(keys::href_of(keys::joined_key(parent_key, item.name), dir));
    let name = escape::html_escaped(item.name);
    if dir {
        "<li><a class=\"name\" href=\""@ + href + "\">"@ + name
            + "/</a><span class=\"meta\">folder</span></li>"@
    } else {
        "<li><a class=\"name\" href=\""@ + href + "\">"@ + name + "</a><span class=\"meta\">"@
            + numbers::decimal(item.size as nat) + " bytes</span><a class=\"download\" href=\""@
            + href + "\" download aria-label=\""@ + escape::html_escaped(
            "Download "@ + item.name,
        ) + "\">Download</a></li>"@
    }
}

/// The row of one entry; see `share_row`.
pub fn public_share_item_row(parent_key: &str, item: &PathItem) -> (r: String)
    ensures
        r@ == share_row(parent_key@, item@),
{
    let child_key = join_key(parent_key, item.name.as_str());
    let href = html_escape(href_for_key(child_key.as_str(), item.is_dir()).as_str());
    let mut row = "<li><a class=\"name\" href=\"".to_owned();
    row.append(href.as_str());
    row.append("\">");
    row.append(html_escape(item.name.as_str()).as_str());
    if item.is_dir() {
        row.append("/</a><span class=\"meta\">folder</span></li>");
    } else {
        let mut label = "Download ".to_owned();
        label.append(item.name.as_str());
        row.append("</a><span class=\"meta\">");
        row.append(decimal_text(item.size).as_str());
        row.append(" bytes</span><a class=\"download\" href=\"");
        row.append(href.as_str());
        row.append("\" download aria-label=\"");
        row.append(html_escape(label.as_str()).as_str());
        row.append("\">Download</a></li>");
    }
    row
}

/// The rows of the entries, one after another.
pub open spec fn share_rows(key: Text, items: Seq<PathItemView>) -> Text
    decreases items.len(),
{
    if items.len() == 0 {
        Seq::empty()
    } else {
        share_rows(key, items.drop_last()) + share_row(key, items.last())
    }
}

/// The row that leads to the directory above; the share root has none.
pub open spec fn parent_row(key: Text) -> Text {
    if key == PUBLIC_SHARE_ROOT@ {
        Seq::empty()
    } else {
        let parent = text::before_last(key, '/').unwrap_or(PUBLIC_SHARE_ROOT@);
        "<li class=\"parent\"><a class=\"name\" href=\""@ + escape::html_escaped(
            keys::href_of(parent, true),
        ) + "\">../</a><span class=\"meta\">parent folder</span></li>"@
    }
}

/// All rows of the page of the shared directory `key`: the way up, then the entries by type and
/// name.
pub open spec fn share_list(key: Text, items: Seq<PathItemView>) -> Text {
    let rows = parent_row(key) + share_rows(key, sort::sorted(items, SortKey::Name));
    if rows.len() == 0 {
        "<li class=\"empty\"><span>This folder is empty.</span></li>"@
    } else {
        rows
    }
}

/// What stands ahead of the name of the directory on a page of the share.
pub const SHARE_PAGE_HEAD: &'static str =
    "<!doctype html>\n<html lang=\"en\"><head><meta charset=\"utf-8\"><meta name=\"viewport\" content=\"width=device-width, initial-scale=1\">\n<title>Public share</title><style>\nbody{font:16px system-ui,sans-serif;max-width:860px;margin:3rem auto;padding:0 1rem;color:#1f2937}\nh1{font-size:1.5rem;margin-bottom:.25rem}p{color:#4b5563}ul{list-style:none;padding:0;border-top:1px solid #e5e7eb}\nli{display:grid;grid-template-columns:minmax(0,1fr) auto auto;gap:.75rem;align-items:center;padding:.7rem .25rem;border-bottom:1px solid #e5e7eb}\nli.parent{grid-template-columns:minmax(0,1fr) auto}.name{min-width:0;overflow-wrap:anywhere}\na{color:#2563eb;text-decoration:none}a:hover{text-decoration:underline}.meta{color:#6b7280;white-space:nowrap}\n.download{border:1px solid #cbd5e1;border-radius:6px;padding:.25rem .55rem;white-space:nowrap}.download:hover{background:#eff6ff;text-decoration:none}\n@media (max-width:520px){li{grid-template-columns:minmax(0,1fr) auto;gap:.35rem .75rem}.meta{grid-column:1;grid-row:2}.download{grid-column:2;grid-row:1 / span 2}li.parent .meta{grid-column:2;grid-row:1}}\n</style></head><body><main><h1>Public share</h1><p>Read-only files in <code>";

/// The page of the shared directory `key`.
pub open spec fn share_page(key: Text, items: Seq<PathItemView>) -> Text {
    SHARE_PAGE_HEAD@ + escape::html_escaped(keys::href_of(key, true)) + "</code></p><ul>"@
        + share_list(key, items) + "</ul></main></body></html>"@
}

/// The headers of the page of a shared directory: no script of any kind may run on it.
pub open spec fn share_page_headers(length: nat) -> ReplyView {
    ReplyView::new(200).with("content-type"@, "text/html; charset=utf-8"@).with(
        "content-length"@,
        numbers::decimal(length),
    ).with("cache-control"@, "no-cache"@).with(
        "content-security-policy"@,
        "default-src 'none'; style-src 'unsafe-inline'; base-uri 'none'; frame-ancestors 'none'"@,
    ).with("referrer-policy"@, "no-referrer"@).with("x-content-type-options"@, "nosniff"@)
}

/// The reply with the page of a shared directory.
pub open spec fn share_page_reply(
    key: Text,
    items: Seq<PathItemView>,
    head_only: bool,
) -> ReplyView {
    let body = encode_utf8(share_page(key, items));
    if head_only {
        share_page_headers(body.len())
    } else {
        share_page_headers(body.len()).fixed(body)
    }
}

fn rows_of(key: &str, items: &Vec<PathItem>) -> (r: String)
    ensures
        r@ == share_rows(key@, items.deep_view()),
{
    let mut rows = String::new();
    let ghost all = items.deep_view();
    let mut i: usize = 0;
    while i < items.len()
        invariant
            i <= items@.len(),
            all == items.deep_view(),
            rows@ == share_rows(key@, all.take(i as int)),
        decreases items@.len() - i,
    {
        rows.append(public_share_item_row(key, &items[i]).as_str());
        assert(all.take(i + 1).drop_last() =~= all.take(i as int));
        assert(all.take(i + 1).last() == items@[i as int]@);
        i += 1;
    }
    assert(all.take(all.len() as int) =~= all);
    rows
}

/// The reply with the page of the shared directory `key`.
pub fn public_share_index(key: &str, paths: Vec<PathItem>, head_only: bool) -> (r: Reply)
    ensures
        r@ == share_page_reply(key@, paths.deep_view(), head_only),
{
    let ordered = sort_items(paths, SortKey::Name);
    let mut rows = String::new();
    if !same_text(key, PUBLIC_SHARE_ROOT) {
        let parent = match parent_part(key, '/') {
            Some(parent) => parent,
            None => PUBLIC_SHARE_ROOT.to_owned(),
        };
        rows = "<li class=\"parent\"><a class=\"name\" href=\"".to_owned();
        rows.append(html_escape(href_for_key(parent.as_str(), true).as_str()).as_str());
        rows.append("\">../</a><span class=\"meta\">parent folder</span></li>");
    }
    rows.append(rows_of(key, &ordered).as_str());
    if rows.as_str().is_empty() {
        rows = "<li class=\"empty\"><span>This folder is empty.</span></li>".to_owned();
    }
    let mut page = SHARE_PAGE_HEAD.to_owned();
    page.append(html_escape(href_for_key(key, true).as_str()).as_str());
    page.append("</code></p><ul>");
    page.append(rows.as_str());
    page.append("</ul></main></body></html>");
    let body = page.as_str().as_bytes_vec();
    let length = decimal_text(body.len() as u64);
    let headers = Reply::new(200).with("content-type", "text/html; charset=utf-8").with(
        "content-length",
        length.as_str(),
    ).with("cache-control", "no-cache").with(
        "content-security-policy",
        "default-src 'none'; style-src 'unsafe-inline'; base-uri 'none'; frame-ancestors 'none'",
    ).with("referrer-policy", "no-referrer").with("x-content-type-options", "nosniff");
    if head_only {
        headers
    } else {
        headers.fixed(body)
    }
}

// ---------------------------------------------------------------------------
// WebDAV
// ---------------------------------------------------------------------------

/// The properties of one entry. `date` is its time in the form that HTTP wants; an entry without
/// a time shows none.
pub open spec fn dav_item(item: PathItemView, key: Text, date: Text) -> Text {
    let dir = item.path_type == PathType::Dir;
    "<D:response><D:href>"@ + escape::xml_escaped(keys::href_of(key, dir))
        + "</D:href><D:propstat><D:prop><D:displayname>"@ + escape::xml_escaped(
        text::after_last(item.name, '/'),
    ) + "</D:displayname>"@ + dav_length(item) + "<D:getlastmodified>"@ + dav_modified(item, date)
        + "</D:getlastmodified>"@ + dav_type(item)
        + "</D:prop><D:status>HTTP/1.1 200 OK</D:status></D:propstat></D:response>"@
}

/// A file has a length.
pub open spec fn dav_length(item: PathItemView) -> Text {
    if item.path_type == PathType::Dir {
        Seq::empty()
    } else {
        "<D:getcontentlength>"@ + numbers::decimal(item.size as nat) + "</D:getcontentlength>"@
    }
}

/// An entry with a time shows it.
pub open spec fn dav_modified(item: PathItemView, date: Text) -> Text {
    if item.mtime == 0 {
        Seq::empty()
    } else {
        date
    }
}

/// A directory is a collection.
pub open spec fn dav_type(item: PathItemView) -> Text {
    if item.path_type == PathType::Dir {
        "<D:resourcetype><D:collection/></D:resourcetype>"@
    } else {
        "<D:resourcetype></D:resourcetype>"@
    }
}

/// The properties of one entry; see `dav_item`.
pub fn dav_item_xml(item: &PathItem, key: &str, date: &str) -> (r: String)
    ensures
        r@ == dav_item(item@, key@, date@),
{
    let mut length = String::new();
    if !item.is_dir() {
        length = "<D:getcontentlength>".to_owned();
        length.append(decimal_text(item.size).as_str());
        length.append("</D:getcontentlength>");
    }
    let modified = if item.mtime == 0 {
        ""
    } else {
        date
    };
    proof {
        reveal_strlit("");
        assert(""@ =~= Seq::<char>::empty());
    }
    let resource_type = if item.is_dir() {
        "<D:resourcetype><D:collection/></D:resourcetype>"
    } else {
        "<D:resourcetype></D:resourcetype>"
    };
    let mut xml = "<D:response><D:href>".to_owned();
    xml.append(xml_escape(href_for_key(key, item.is_dir()).as_str()).as_str());
    xml.append("</D:href><D:propstat><D:prop><D:displayname>");
    xml.append(xml_escape(last_part(item.name.as_str(), '/').as_str()).as_str());
    xml.append("</D:displayname>");
    xml.append(length.as_str());
    xml.append("<D:getlastmodified>");
    xml.append(modified);
    xml.append("</D:getlastmodified>");
    xml.append(resource_type);
    xml.append("</D:prop><D:status>HTTP/1.1 200 OK</D:status></D:propstat></D:response>");
    xml
}

/// A file as an entry of its directory.
pub open spec fn file_entry(key: Text, object: ObjectInfoView) -> PathItemView {
    PathItemView {
        path_type: PathType::File,
        name: text::after_last(key, '/'),
        mtime: object.uploaded,
        size: object.size,
    }
}

/// A file as an entry of its directory.
pub fn file_item(key: &str, object: &ObjectInfo) -> (r: PathItem)
    ensures
        r@ == file_entry(key@, object@),
{
    PathItem {
        path_type: PathType::File,
        name: last_part(key, '/'),
        mtime: object.uploaded,
        size: object.size,
    }
}

/// A directory as an entry.
pub open spec fn dir_entry(name: Text) -> PathItemView {
    PathItemView { path_type: PathType::Dir, name, mtime: 0, size: 0 }
}

/// A directory as an entry.
pub fn dir_item(name: String) -> (r: PathItem)
    ensures
        r@ == dir_entry(name@),
{
    PathItem { path_type: PathType::Dir, name, mtime: 0, size: 0 }
}

// ---------------------------------------------------------------------------
// The pages of the user interface
// ---------------------------------------------------------------------------

/// The names of the entries, one on each line; directories end in a slash.
pub open spec fn simple_list(items: Seq<PathItemView>) -> Text
    decreases items.len(),
{
    if items.len() == 0 {
        Seq::empty()
    } else {
        let item = items.last();
        simple_list(items.drop_last()) + item.name + if item.path_type == PathType::Dir {
            "/\n"@
        } else {
            "\n"@
        }
    }
}

/// The names of the entries, one on each line; directories end in a slash.
pub fn simple_listing(items: &Vec<PathItem>) -> (r: String)
    ensures
        r@ == simple_list(items.deep_view()),
{
    let mut content = String::new();
    let ghost all = items.deep_view();
    let mut i: usize = 0;
    while i < items.len()
        invariant
            i <= items@.len(),
            all == items.deep_view(),
            content@ == simple_list(all.take(i as int)),
        decreases items@.len() - i,
    {
        content.append(items[i].name.as_str());
        if items[i].is_dir() {
            content.append("/\n");
        } else {
            content.append("\n");
        }
        assert(all.take(i + 1).drop_last() =~= all.take(i as int));
        assert(all.take(i + 1).last() == items@[i as int]@);
        i += 1;
    }
    assert(all.take(all.len() as int) =~= all);
    content
}

/// What a page of the user interface is about.
#[derive(Clone, Copy, PartialEq, Eq, Structural)]
pub enum DataKind {
    Index,
    Edit,
    View,
}

/// What the user interface is told of a directory.
pub struct IndexData {
    pub href: String,
    pub kind: DataKind,
    pub uri_prefix: String,
    pub allow_upload: bool,
    pub allow_delete: bool,
    pub allow_search: bool,
    pub allow_archive: bool,
    pub dir_exists: bool,
    pub auth: bool,
    pub user: Option<String>,
    pub paths: Vec<PathItem>,
}

/// What the user interface is told of a directory.
pub struct IndexDataView {
    pub href: Text,
    pub kind: DataKind,
    pub uri_prefix: Text,
    pub allow_upload: bool,
    pub allow_delete: bool,
    pub allow_search: bool,
    pub allow_archive: bool,
    pub dir_exists: bool,
    pub auth: bool,
    pub user: Option<Text>,
    pub paths: Seq<PathItemView>,
}

impl View for IndexData {
    type V = IndexDataView;

    open spec fn view(&self) -> IndexDataView {
        IndexDataView {
            href: self.href@,
            kind: self.kind,
            uri_prefix: self.uri_prefix@,
            allow_upload: self.allow_upload,
            allow_delete: self.allow_delete,
            allow_search: self.allow_search,
            allow_archive: self.allow_archive,
            dir_exists: self.dir_exists,
            auth: self.auth,
            user: self.user.deep_view(),
            paths: self.paths.deep_view(),
        }
    }
}

/// What the user interface is told of a file.
pub struct EditData {
    pub href: String,
    pub kind: DataKind,
    pub uri_prefix: String,
    pub allow_upload: bool,
    pub allow_delete: bool,
    pub auth: bool,
    pub user: Option<String>,
    pub editable: bool,
}

/// What the user interface is told of a file.
pub struct EditDataView {
    pub href: Text,
    pub kind: DataKind,
    pub uri_prefix: Text,
    pub allow_upload: bool,
    pub allow_delete: bool,
    pub auth: bool,
    pub user: Option<Text>,
    pub editable: bool,
}

impl View for EditData {
    type V = EditDataView;

    open spec fn view(&self) -> EditDataView {
        EditDataView {
            href: self.href@,
            kind: self.kind,
            uri_prefix: self.uri_prefix@,
            allow_upload: self.allow_upload,
            allow_delete: self.allow_delete,
            auth: self.auth,
            user: self.user.deep_view(),
            editable: self.editable,
        }
    }
}

/// What the user interface is told of the directory `key`. Archives are never offered: they would
/// have to be built in memory.
pub open spec fn index_facts(
    key: Text,
    paths: Seq<PathItemView>,
    exists: bool,
    user: Text,
    read_only: bool,
) -> IndexDataView {
    IndexDataView {
        href: keys::href_of(key, false),
        kind: DataKind::Index,
        uri_prefix: "/"@,
        allow_upload: !read_only,
        allow_delete: !read_only,
        allow_search: true,
        allow_archive: false,
        dir_exists: exists,
        auth: true,
        user: Some(user),
        paths,
    }
}

/// What the user interface is told of a directory; see `index_facts`.
pub fn index_data(
    key: &str,
    paths: Vec<PathItem>,
    exists: bool,
    user: &str,
    read_only: bool,
) -> (r: IndexData)
    ensures
        r@ == index_facts(key@, paths.deep_view(), exists, user@, read_only),
{
    IndexData {
        href: href_for_key(key, false),
        kind: DataKind::Index,
        uri_prefix: "/".to_owned(),
        allow_upload: !read_only,
        allow_delete: !read_only,
        allow_search: true,
        allow_archive: false,
        dir_exists: exists,
        auth: true,
        user: Some(user.to_owned()),
        paths,
    }
}

/// The content type of a file: what the bucket has, or else what the name suggests.
pub open spec fn effective_type(key: Text, object: ObjectInfoView) -> Text {
    match object.content_type {
        Some(content_type) => content_type,
        None => media::suggested_type(key),
    }
}

/// The content type of a file; see `effective_type`.
pub fn effective_content_type(key: &str, object: &ObjectInfo) -> (r: String)
    ensures
        r@ == effective_type(key@, object@),
{
    match &object.content_type {
        Some(content_type) => content_type.clone(),
        None => content_type_for(key).to_owned(),
    }
}

/// What the user interface is told of the file `key`. Only text of a moderate size can be edited.
pub open spec fn edit_facts(
    key: Text,
    object: ObjectInfoView,
    user: Text,
    read_only: bool,
    viewing: bool,
) -> EditDataView {
    EditDataView {
        href: keys::href_of(key, false),
        kind: if viewing {
            DataKind::View
        } else {
            DataKind::Edit
        },
        uri_prefix: "/"@,
        allow_upload: !read_only,
        allow_delete: !read_only,
        auth: true,
        user: Some(user),
        editable: object.size <= EDITABLE_TEXT_MAX_SIZE && media::is_editable_type(
            effective_type(key, object),
        ),
    }
}

/// What the user interface is told of a file; see `edit_facts`.
pub fn edit_data(key: &str, object: &ObjectInfo, user: &str, read_only: bool, viewing: bool) -> (r:
    EditData)
    ensures
        r@ == edit_facts(key@, object@, user@, read_only, viewing),
{
    let content_type = effective_content_type(key, object);
    EditData {
        href: href_for_key(key, false),
        kind: if viewing {
            DataKind::View
        } else {
            DataKind::Edit
        },
        uri_prefix: "/".to_owned(),
        allow_upload: !read_only,
        allow_delete: !read_only,
        auth: true,
        user: Some(user.to_owned()),
        editable: object.size <= EDITABLE_TEXT_MAX_SIZE && is_text_content_type(
            content_type.as_str(),
        ),
    }
}

/// The page of the user interface that shows the serialized facts `json`.
pub open spec fn interface_page(template: Text, json: Seq<u8>) -> Text {
    text::replace_each(
        text::replace_each(template, "__ASSETS_PREFIX__"@, "/"@ + ASSET_PREFIX@),
        "__INDEX_DATA__"@,
        codec::standard_base64(json),
    )
}

/// The page of the user interface that shows the serialized facts `json`.
pub fn interface_html(template: &str, json: &[u8]) -> (r: String)
    ensures
        r@ == interface_page(template@, json@),
{
    proof {
        reveal_strlit("__ASSETS_PREFIX__");
        reveal_strlit("__INDEX_DATA__");
    }
    let mut prefix = "/".to_owned();
    prefix.append(ASSET_PREFIX);
    let with_assets = replace_text(template, "__ASSETS_PREFIX__", prefix.as_str());
    replace_text(with_assets.as_str(), "__INDEX_DATA__", base64_encode(json).as_str())
}

} // verus!
