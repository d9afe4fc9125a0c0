//! Replies to requests, and those whose text is fixed.

use crate::escape::{self, xml_escape};
use crate::keys::{self, href_for_key};
use crate::numbers::{self, decimal_text};
use crate::text::{self, same_text, strip_prefix, trim_start_char, Text};
use vstd::prelude::*;
use vstd::string::*;
use vstd::utf8::*;

verus! {

/// What a reply carries.
pub enum Body {
    Empty,
    Bytes(Vec<u8>),
    /// The contents of the object that was opened for this request.
    Object,
}

/// What a reply carries.
pub enum BodyView {
    Empty,
    Bytes(Seq<u8>),
    Object,
}

impl View for Body {
    type V = BodyView;

    open spec fn view(&self) -> BodyView {
        match self {
            Body::Empty => BodyView::Empty,
            Body::Bytes(bytes) => BodyView::Bytes(bytes@),
            Body::Object => BodyView::Object,
        }
    }
}

/// A reply: its status, its headers in the order in which they were set, and its body.
pub struct Reply {
    pub status: u16,
    pub headers: Vec<(String, String)>,
    pub body: Body,
}

/// A reply.
pub struct ReplyView {
    pub status: u16,
    pub headers: Seq<(Text, Text)>,
    pub body: BodyView,
}

impl View for Reply {
    type V = ReplyView;

    open spec fn view(&self) -> ReplyView {
        ReplyView { status: self.status, headers: self.headers.deep_view(), body: self.body@ }
    }
}

impl ReplyView {
    /// A bare reply.
    pub open spec fn new(status: u16) -> ReplyView {
        ReplyView { status, headers: Seq::empty(), body: BodyView::Empty }
    }

    /// The reply with one header more.
    pub open spec fn with(self, name: Text, value: Text) -> ReplyView {
        ReplyView { headers: self.headers.push((name, value)), ..self }
    }

    /// The reply with these bytes as its body.
    pub open spec fn fixed(self, bytes: Seq<u8>) -> ReplyView {
        ReplyView { body: BodyView::Bytes(bytes), ..self }
    }

    /// The reply with the contents of the opened object as its body.
    pub open spec fn carrying(self) -> ReplyView {
        ReplyView { body: BodyView::Object, ..self }
    }
}

impl Reply {
    /// A bare reply.
    pub fn new(status: u16) -> (r: Reply)
        ensures
            r@ == ReplyView::new(status),
    {
        let r = Reply { status, headers: Vec::new(), body: Body::Empty };
        assert(r@.headers =~= Seq::empty());
        r
    }

    /// The reply with one header more.
    pub fn with(self, name: &str, value: &str) -> (r: Reply)
        ensures
            r@ == self@.with(name@, value@),
    {
        let mut r = self;
        r.headers.push((name.to_owned(), value.to_owned()));
        assert(r@.headers =~= self@.headers.push((name@, value@)));
        r
    }

    /// The reply with these bytes as its body.
    pub fn fixed(self, bytes: Vec<u8>) -> (r: Reply)
        ensures
            r@ == self@.fixed(bytes@),
    {
        Reply { status: self.status, headers: self.headers, body: Body::Bytes(bytes) }
    }

    /// The reply with this text as its body.
    pub fn fixed_text(self, content: &str) -> (r: Reply)
        ensures
            r@ == self@.fixed(encode_utf8(content@)),
    {
        self.fixed(content.as_bytes_vec())
    }

    /// The reply with the contents of the opened object as its body.
    pub fn carrying(self) -> (r: Reply)
        ensures
            r@ == self@.carrying(),
    {
        Reply { status: self.status, headers: self.headers, body: Body::Object }
    }
}

// ---------------------------------------------------------------------------
// Plain replies
// ---------------------------------------------------------------------------

/// A short message in plain text.
pub open spec fn text_reply(status: u16, message: Text) -> ReplyView {
    ReplyView::new(status).with("content-type"@, "text/plain; charset=utf-8"@).fixed(
        encode_utf8(message),
    )
}

/// A short message in plain text.
pub fn text_response(status: u16, message: &str) -> (r: Reply)
    ensures
        r@ == text_reply(status, message@),
{
    Reply::new(status).with("content-type", "text/plain; charset=utf-8").fixed_text(message)
}

/// A page that is always revalidated. A request for the headers alone gets the length of the body
/// that it would have got.
pub open spec fn fixed_reply(
    status: u16,
    content_type: Text,
    body: Seq<u8>,
    head_only: bool,
) -> ReplyView {
    let headers = ReplyView::new(status).with("content-type"@, content_type).with(
        "content-length"@,
        numbers::decimal(body.len()),
    ).with("cache-control"@, "no-cache"@);
    if head_only {
        headers
    } else {
        headers.fixed(body)
    }
}

/// A page that is always revalidated; see `fixed_reply`.
pub fn fixed_response(status: u16, content_type: &str, body: Vec<u8>, head_only: bool) -> (r:
    Reply)
    ensures
        r@ == fixed_reply(status, content_type@, body@, head_only),
{
    let length = decimal_text(body.len() as u64);
    let headers = Reply::new(status).with("content-type", content_type).with(
        "content-length",
        length.as_str(),
    ).with("cache-control", "no-cache");
    if head_only {
        headers
    } else {
        headers.fixed(body)
    }
}

/// A JSON document.
pub open spec fn json_reply(status: u16, json: Seq<u8>) -> ReplyView {
    ReplyView::new(status).with("content-type"@, "application/json; charset=utf-8"@).fixed(json)
}

/// A JSON document with status 200.
pub fn json_response(json: Vec<u8>) -> (r: Reply)
    ensures
        r@ == json_reply(200, json@),
{
    json_response_with_status(200, json)
}

/// A JSON document.
pub fn json_response_with_status(status: u16, json: Vec<u8>) -> (r: Reply)
    ensures
        r@ == json_reply(status, json@),
{
    Reply::new(status).with("content-type", "application/json; charset=utf-8").fixed(json)
}

/// What is answered when something outside failed.
pub open spec fn failure_reply() -> ReplyView {
    text_reply(500, "Internal Server Error"@)
}

/// What is answered when something outside failed.
pub fn failure_response() -> (r: Reply)
    ensures
        r@ == failure_reply(),
{
    text_response(500, "Internal Server Error")
}

/// The reply to a request that carries neither the credentials nor a token that is good for it.
pub open spec fn unauthorized_reply() -> ReplyView {
    dav_reply(401).with("www-authenticate"@, "Basic realm=\"DUFS\", charset=\"UTF-8\""@)
}

/// A bare reply with the headers that tell a client what the service can do.
pub open spec fn dav_reply(status: u16) -> ReplyView {
    ReplyView::new(status).with(
        "allow"@,
        "GET, HEAD, POST, PUT, OPTIONS, DELETE, PATCH, PROPFIND, PROPPATCH, MKCOL, COPY, MOVE, LOCK, UNLOCK"@,
    ).with("dav"@, "1, 2, 3"@).with("ms-author-via"@, "DAV"@)
}

/// A bare reply with the headers that tell a client what the service can do.
pub fn dav_headers(status: u16) -> (r: Reply)
    ensures
        r@ == dav_reply(status),
{
    Reply::new(status).with(
        "allow",
        "GET, HEAD, POST, PUT, OPTIONS, DELETE, PATCH, PROPFIND, PROPPATCH, MKCOL, COPY, MOVE, LOCK, UNLOCK",
    ).with("dav", "1, 2, 3").with("ms-author-via", "DAV")
}

/// The reply to `OPTIONS`.
pub fn options_response() -> (r: Reply)
    ensures
        r@ == dav_reply(200),
{
    dav_headers(200)
}

/// The reply to a request that is not let in.
pub fn unauthorized_response() -> (r: Reply)
    ensures
        r@ == unauthorized_reply(),
{
    dav_headers(401).with("www-authenticate", "Basic realm=\"DUFS\", charset=\"UTF-8\"")
}

// ---------------------------------------------------------------------------
// WebDAV
// ---------------------------------------------------------------------------

/// A multi-status reply around the given responses.
pub open spec fn multistatus_reply(content: Text) -> ReplyView {
    ReplyView::new(207).with("content-type"@, "application/xml; charset=utf-8"@).fixed(
        encode_utf8(
            "<?xml version=\"1.0\" encoding=\"utf-8\" ?>\n<D:multistatus xmlns:D=\"DAV:\">"@
                + content + "</D:multistatus>"@,
        ),
    )
}

/// A multi-status reply around the given responses.
pub fn dav_multistatus(content: &str) -> (r: Reply)
    ensures
        r@ == multistatus_reply(content@),
{
    let mut body =
        "<?xml version=\"1.0\" encoding=\"utf-8\" ?>\n<D:multistatus xmlns:D=\"DAV:\">".to_owned();
    body.append(content);
    body.append("</D:multistatus>");
    Reply::new(207).with("content-type", "application/xml; charset=utf-8").fixed_text(
        body.as_str(),
    )
}

/// The reply to `PROPPATCH`: no property can be changed.
pub open spec fn proppatch_reply(key: Text) -> ReplyView {
    multistatus_reply(
        "<D:response><D:href>"@ + escape::xml_escaped(keys::href_of(key, false))
            + "</D:href><D:propstat><D:prop></D:prop><D:status>HTTP/1.1 403 Forbidden</D:status></D:propstat></D:response>"@,
    )
}

/// The reply to `PROPPATCH`.
pub fn proppatch_response(key: &str) -> (r: Reply)
    ensures
        r@ == proppatch_reply(key@),
{
    let mut content = "<D:response><D:href>".to_owned();
    content.append(xml_escape(href_for_key(key, false).as_str()).as_str());
    content.append(
        "</D:href><D:propstat><D:prop></D:prop><D:status>HTTP/1.1 403 Forbidden</D:status></D:propstat></D:response>",
    );
    dav_multistatus(content.as_str())
}

/// The token of a lock taken at the time `now`.
pub open spec fn lock_token(now: nat) -> Text {
    "opaquelocktoken:dufs-r2-"@ + numbers::decimal(now)
}

/// The reply to `LOCK`: a token that locks nothing, for clients that insist on one.
pub open spec fn lock_reply(key: Text, now: nat) -> ReplyView {
    ReplyView::new(200).with("content-type"@, "application/xml; charset=utf-8"@).with(
        "lock-token"@,
        "<"@ + lock_token(now) + ">"@,
    ).fixed(
        encode_utf8(
            "<?xml version=\"1.0\" encoding=\"utf-8\"?>\n<D:prop xmlns:D=\"DAV:\"><D:lockdiscovery><D:activelock>\n<D:locktoken><D:href>"@
                + lock_token(now) + "</D:href></D:locktoken>\n<D:lockroot><D:href>"@
                + escape::xml_escaped(keys::href_of(key, false))
                + "</D:href></D:lockroot>\n</D:activelock></D:lockdiscovery></D:prop>"@,
        ),
    )
}

/// The reply to `LOCK`.
pub fn handle_lock(key: &str, now: u64) -> (r: Reply)
    ensures
        r@ == lock_reply(key@, now as nat),
{
    let mut token = "opaquelocktoken:dufs-r2-".to_owned();
    token.append(decimal_text(now).as_str());
    let mut header = "<".to_owned();
    header.append(token.as_str());
    header.append(">");
    let mut body =
        "<?xml version=\"1.0\" encoding=\"utf-8\"?>\n<D:prop xmlns:D=\"DAV:\"><D:lockdiscovery><D:activelock>\n<D:locktoken><D:href>".to_owned();
    body.append(token.as_str());
    body.append("</D:href></D:locktoken>\n<D:lockroot><D:href>");
    body.append(xml_escape(href_for_key(key, false).as_str()).as_str());
    body.append("</D:href></D:lockroot>\n</D:activelock></D:lockdiscovery></D:prop>");
    Reply::new(200).with("content-type", "application/xml; charset=utf-8").with(
        "lock-token",
        header.as_str(),
    ).fixed_text(body.as_str())
}

// ---------------------------------------------------------------------------
// The public share
// ---------------------------------------------------------------------------

/// The reply to a visitor of the share who asks for anything but reading.
pub open spec fn share_method_reply() -> ReplyView {
    ReplyView::new(405).with("allow"@, "GET, HEAD"@).with(
        "content-type"@,
        "text/plain; charset=utf-8"@,
    ).fixed(encode_utf8("Public shares are read-only"@))
}

/// The reply to a visitor of the share who asks for anything but reading.
pub fn public_share_method_not_allowed() -> (r: Reply)
    ensures
        r@ == share_method_reply(),
{
    Reply::new(405).with("allow", "GET, HEAD").with(
        "content-type",
        "text/plain; charset=utf-8",
    ).fixed_text("Public shares are read-only")
}

/// A permanent redirection.
pub open spec fn redirect_reply(location: Text) -> ReplyView {
    ReplyView::new(308).with("location"@, location).with("cache-control"@, "no-cache"@)
}

/// A permanent redirection.
pub fn public_share_redirect(location: &str) -> (r: Reply)
    ensures
        r@ == redirect_reply(location@),
{
    Reply::new(308).with("location", location).with("cache-control", "no-cache")
}

// ---------------------------------------------------------------------------
// What the service itself serves
// ---------------------------------------------------------------------------

/// The path under which the files of the user interface are served. They are cached for a year, so
/// the path changes whenever they do.
pub const ASSET_PREFIX: &'static str = "__dufs_wasm_v7__/";

/// The files of the user interface.
pub struct Assets {
    pub index_html: String,
    pub index_css: String,
    pub index_js: String,
    pub favicon: Vec<u8>,
}

/// The files of the user interface.
pub struct AssetsView {
    pub index_html: Text,
    pub index_css: Text,
    pub index_js: Text,
    pub favicon: Seq<u8>,
}

impl View for Assets {
    type V = AssetsView;

    open spec fn view(&self) -> AssetsView {
        AssetsView {
            index_html: self.index_html@,
            index_css: self.index_css@,
            index_js: self.index_js@,
            favicon: self.favicon@,
        }
    }
}

/// A file of the user interface.
pub open spec fn asset_reply(content_type: Text, bytes: Seq<u8>) -> ReplyView {
    ReplyView::new(200).with("content-type"@, content_type).with(
        "cache-control"@,
        "public, max-age=31536000, immutable"@,
    ).with("x-content-type-options"@, "nosniff"@).fixed(bytes)
}

/// What the service answers by itself, whoever asks: the health check for every method, and its
/// own files for `GET`.
pub open spec fn internal_reply(method: Text, path: Text, assets: AssetsView) -> Option<
    ReplyView,
> {
    if path == "/__dufs__/health"@ {
        Some(
            ReplyView::new(200).with("content-type"@, "application/json"@).fixed(
                encode_utf8("{\"status\":\"OK\"}"@),
            ),
        )
    } else if method != "GET"@ {
        None
    } else {
        match text::without_prefix(text::trim_start_of(path, '/'), ASSET_PREFIX@) {
            Some(name) => Some(
                if name == "index.js"@ {
                    asset_reply(
                        "application/javascript; charset=UTF-8"@,
                        encode_utf8(assets.index_js),
                    )
                } else if name == "index.css"@ {
                    asset_reply("text/css; charset=UTF-8"@, encode_utf8(assets.index_css))
                } else if name == "favicon.ico"@ {
                    asset_reply("image/x-icon"@, assets.favicon)
                } else {
                    text_reply(404, "Not Found"@)
                },
            ),
            None => None,
        }
    }
}

fn asset_response(content_type: &str, bytes: Vec<u8>) -> (r: Reply)
    ensures
        r@ == asset_reply(content_type@, bytes@),
{
    Reply::new(200).with("content-type", content_type).with(
        "cache-control",
        "public, max-age=31536000, immutable",
    ).with("x-content-type-options", "nosniff").fixed(bytes)
}

/// What the service answers by itself; see `internal_reply`.
pub fn internal_response(method: &str, path: &str, assets: &Assets) -> (r: Option<Reply>)
    ensures
        match internal_reply(method@, path@, assets@) {
            Some(reply) => r matches Some(given) && given@ == reply,
            None => r is None,
        },
{
    if same_text(path, "/__dufs__/health") {
        return Some(
            Reply::new(200).with("content-type", "application/json").fixed_text(
                "{\"status\":\"OK\"}",
            ),
        );
    }
    if !same_text(method, "GET") {
        return None;
    }
    match strip_prefix(trim_start_char(path, '/').as_str(), ASSET_PREFIX) {
        Some(name) => {
            let asset = name.as_str();
            Some(
                if same_text(asset, "index.js") {
                    asset_response(
                        "application/javascript; charset=UTF-8",
                        assets.index_js.as_str().as_bytes_vec(),
                    )
                } else if same_text(asset, "index.css") {
                    asset_response(
                        "text/css; charset=UTF-8",
                        assets.index_css.as_str().as_bytes_vec(),
                    )
                } else if same_text(asset, "favicon.ico") {
                    asset_response("image/x-icon", copy_bytes(&assets.favicon))
                } else {
                    text_response(404, "Not Found")
                },
            )
        },
        None => None,
    }
}

fn copy_bytes(bytes: &Vec<u8>) -> (r: Vec<u8>)
    ensures
        r@ == bytes@,
{
    vstd::slice::slice_to_vec(bytes.as_slice())
}

} // verus!
