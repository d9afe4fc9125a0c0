use dufs_r2_worker::auth::{download_token, Credentials};
use dufs_r2_worker::listing::list_all_keys_limited;
use dufs_r2_worker::machine::{
    Action, After, Document, Event, MultipartClientPart, Namespace, Request, ScanPlan, Service,
    Step, Task,
};
use dufs_r2_worker::model::{Listing, ObjectInfo};
use dufs_r2_worker::multipart::MultipartSession;
use dufs_r2_worker::reply::{Assets, Body, Reply};
use dufs_r2_worker::service::{
    handle_copy_or_move_via_durable_object, handle_upload_via_durable_object, is_read_only,
    MultipartUploadPart, ObjectCopy, ObjectUpload,
};
use dufs_r2_worker::transfers::copy_or_move_to;
use dufs_r2_worker::uploads::{declared_length, store_part};
use serde_json::Value;
use std::collections::BTreeMap;

const NOW: u64 = 1_700_000_000_000;
const LOGIN: &str = "Basic YWRtaW46c2VjcmV0";

fn service() -> Service {
    Service {
        credentials: Some(Credentials {
            username: "admin".to_string(),
            password: "secret".to_string(),
        }),
        read_only: false,
        has_bucket: true,
        assets: Assets {
            index_html: "<b>__ASSETS_PREFIX__</b><i>__INDEX_DATA__</i>".to_string(),
            index_css: "css".to_string(),
            index_js: "js".to_string(),
            favicon: vec![0],
        },
    }
}

fn request(method: &str, target: &str) -> Request {
    let path = target.split('?').next().unwrap().to_string();
    Request {
        method: method.to_string(),
        path,
        url: format!("https://dav.example.com{target}"),
        authorization: Some(LOGIN.to_string()),
        depth: None,
        destination: None,
        overwrite: None,
        if_none_match: None,
        if_match: None,
        range: None,
        content_length: None,
        content_type: None,
        update_range: None,
    }
}

#[derive(Clone)]
struct Stored {
    bytes: Vec<u8>,
    content_type: Option<String>,
}

struct OpenUpload {
    key: String,
    content_type: Option<String>,
    parts: BTreeMap<u16, Vec<u8>>,
}

struct Bucket {
    objects: BTreeMap<String, Stored>,
    upload: Option<OpenUpload>,
    held: Option<Stored>,
    body: Vec<u8>,
    page: usize,
    log: Vec<String>,
    fail_on: Option<&'static str>,
}

impl Bucket {
    fn new(keys: &[(&str, &str)]) -> Bucket {
        let mut objects = BTreeMap::new();
        for (key, text) in keys {
            objects.insert(
                key.to_string(),
                Stored { bytes: text.as_bytes().to_vec(), content_type: None },
            );
        }
        Bucket {
            objects,
            upload: None,
            held: None,
            body: Vec::new(),
            page: 1000,
            log: Vec::new(),
            fail_on: None,
        }
    }

    fn keys(&self) -> Vec<&str> {
        self.objects.keys().map(|key| key.as_str()).collect()
    }

    fn text(&self, key: &str) -> String {
        String::from_utf8(self.objects[key].bytes.clone()).unwrap()
    }

    fn info(&self, key: &str) -> Option<ObjectInfo> {
        self.objects.get(key).map(|stored| ObjectInfo {
            key: key.to_string(),
            size: stored.bytes.len() as u64,
            etag: "\"tag\"".to_string(),
            content_type: stored.content_type.clone(),
            uploaded: NOW,
        })
    }

    fn list(&self, prefix: &str, delimited: bool, limit: usize, cursor: Option<String>) -> Listing {
        let mut page = Listing {
            objects: Vec::new(),
            prefixes: Vec::new(),
            truncated: false,
            cursor: None,
        };
        let limit = limit.min(self.page);
        for key in self.objects.keys() {
            if !key.starts_with(prefix) || cursor.as_ref().is_some_and(|last| key <= last) {
                continue;
            }
            if delimited {
                if let Some(slash) = key[prefix.len()..].find('/') {
                    let deeper = key[..prefix.len() + slash + 1].to_string();
                    if !page.prefixes.contains(&deeper) {
                        page.prefixes.push(deeper);
                    }
                    continue;
                }
            }
            if page.objects.len() == limit {
                page.truncated = true;
                page.cursor = page.objects.last().map(|last| last.key.clone());
                return page;
            }
            page.objects.push(self.info(key).unwrap());
        }
        page
    }

    fn answer(&mut self, action: Action) -> Event {
        let name = name_of(&action);
        self.log.push(name.to_string());
        if self.fail_on == Some(name) {
            return Event::Failed;
        }
        match action {
            Action::Head { key } => Event::Object(self.info(&key)),
            Action::Get { key, range } => {
                self.held = self.objects.get(&key).cloned();
                if let (Some(held), Some((offset, length))) = (self.held.as_mut(), range) {
                    held.bytes =
                        held.bytes[offset as usize..(offset + length) as usize].to_vec();
                }
                Event::Object(self.info(&key))
            },
            Action::List { prefix, delimited, limit, cursor } => {
                Event::Page(self.list(&prefix, delimited, limit as usize, cursor))
            },
            Action::Delete { key } => {
                self.objects.remove(&key);
                Event::Done
            },
            Action::DeleteMany { keys } => {
                assert!(keys.len() <= 1000);
                for key in keys {
                    self.objects.remove(&key);
                }
                Event::Done
            },
            Action::PutBytes { key, bytes, content_type } => {
                self.objects.insert(key, Stored { bytes, content_type });
                Event::Done
            },
            Action::PutBody { key, length, content_type } => {
                if length.is_some_and(|length| length != self.body.len() as u64) {
                    return Event::Failed;
                }
                self.objects.insert(key, Stored { bytes: self.body.clone(), content_type });
                Event::Done
            },
            Action::PutHeld { key, size } => {
                let held = self.held.clone().unwrap();
                assert_eq!(held.bytes.len() as u64, size);
                self.objects.insert(key, held);
                Event::Done
            },
            Action::ReadBody => Event::Bytes(self.body.clone()),
            Action::ReadHeld => Event::Bytes(self.held.clone().unwrap().bytes),
            Action::ReadStart => match serde_json::from_slice::<Value>(&self.body) {
                Ok(value) => Event::Start {
                    size: value["size"].as_u64().unwrap(),
                    content_type: value["content_type"].as_str().map(|t| t.to_string()),
                },
                Err(_) => Event::Failed,
            },
            Action::ReadComplete => match serde_json::from_slice::<Value>(&self.body) {
                Ok(value) => Event::Complete {
                    session: value["session"].as_str().unwrap().to_string(),
                    parts: value["parts"]
                        .as_array()
                        .unwrap()
                        .iter()
                        .map(|part| MultipartClientPart {
                            part_number: part["part_number"].as_u64().unwrap() as u16,
                            etag: part["etag"].as_str().unwrap().to_string(),
                        })
                        .collect(),
                },
                Err(_) => Event::Failed,
            },
            Action::CreateUpload { key, content_type } => {
                self.upload = Some(OpenUpload { key, content_type, parts: BTreeMap::new() });
                Event::Upload("upload-1".to_string())
            },
            Action::UploadPart { part_number, size, .. } => {
                self.log.push(format!("part {part_number} of {size}"));
                if let Some(upload) = self.upload.as_mut() {
                    upload.parts.insert(part_number, self.body.clone());
                }
                Event::Part { part_number, etag: format!("etag-{part_number}") }
            },
            Action::CompleteUpload { key, upload_id, parts } => {
                self.log.push(format!("complete {key} {upload_id} {}", parts.len()));
                let upload = self.upload.take().unwrap();
                assert_eq!(upload.key, key);
                let mut bytes = Vec::new();
                for part in parts {
                    bytes.extend_from_slice(&upload.parts[&part.part_number]);
                }
                self.objects.insert(key, Stored { bytes, content_type: upload.content_type });
                Event::Done
            },
            Action::AbortUpload { key, upload_id } => {
                self.log.push(format!("abort {key} {upload_id}"));
                self.upload = None;
                Event::Done
            },
            Action::Encode { document, pretty } => {
                let value = value_of(document);
                Event::Bytes(if pretty {
                    serde_json::to_vec_pretty(&value).unwrap()
                } else {
                    serde_json::to_vec(&value).unwrap()
                })
            },
            Action::ParseSession { json } => {
                Event::Session(serde_json::from_slice::<Value>(&json).ok().map(|value| {
                    MultipartSession {
                        key: value["key"].as_str().unwrap().to_string(),
                        upload_id: value["upload_id"].as_str().unwrap().to_string(),
                        size: value["size"].as_u64().unwrap(),
                        expires_at: value["expires_at"].as_u64().unwrap(),
                    }
                }))
            },
            Action::FormatDates { millis } => {
                Event::Dates(millis.into_iter().map(|time| format!("date {time}")).collect())
            },
        }
    }
}

fn name_of(action: &Action) -> &'static str {
    match action {
        Action::Head { .. } => "head",
        Action::Get { .. } => "get",
        Action::List { .. } => "list",
        Action::Delete { .. } => "delete",
        Action::DeleteMany { .. } => "delete many",
        Action::PutBytes { .. } => "put bytes",
        Action::PutBody { .. } => "put body",
        Action::PutHeld { .. } => "put held",
        Action::ReadBody => "read body",
        Action::ReadHeld => "read held",
        Action::ReadStart => "read start",
        Action::ReadComplete => "read complete",
        Action::CreateUpload { .. } => "create upload",
        Action::UploadPart { .. } => "upload part",
        Action::CompleteUpload { .. } => "complete upload",
        Action::AbortUpload { .. } => "abort upload",
        Action::Encode { .. } => "encode",
        Action::ParseSession { .. } => "parse session",
        Action::FormatDates { .. } => "format dates",
    }
}

fn changes(log: &[String]) -> bool {
    log.iter().any(|name| {
        name.starts_with("delete")
            || name.starts_with("put")
            || name.starts_with("create")
            || name.starts_with("upload")
            || name.starts_with("complete")
            || name.starts_with("abort")
    })
}

fn value_of(document: Document) -> Value {
    let mut map = serde_json::Map::new();
    let mut set = |name: &str, value: Value| {
        map.insert(name.to_string(), value);
    };
    match document {
        Document::Index(data) => {
            set("href", Value::from(data.href));
            set("allow_upload", Value::from(data.allow_upload));
            set("user", Value::from(data.user));
            let names: Vec<Value> =
                data.paths.into_iter().map(|item| Value::from(item.name)).collect();
            set("paths", Value::from(names));
        },
        Document::Edit(data) => {
            set("href", Value::from(data.href));
            set("editable", Value::from(data.editable));
        },
        Document::Item(item) => {
            set("name", Value::from(item.name));
            set("size", Value::from(item.size));
        },
        Document::Session(session) => {
            set("key", Value::from(session.key));
            set("upload_id", Value::from(session.upload_id));
            set("size", Value::from(session.size));
            set("expires_at", Value::from(session.expires_at));
        },
        Document::Started { session, part_size } => {
            set("session", Value::from(session));
            set("part_size", Value::from(part_size));
        },
        Document::Part { part_number, etag } => {
            set("part_number", Value::from(part_number));
            set("etag", Value::from(etag));
        },
    }
    Value::Object(map)
}

enum Outcome {
    Reply(Reply),
    Forward(Namespace, String),
    Fail,
}

fn converse(service: &Service, bucket: &mut Bucket, first: Step, now: u64) -> Outcome {
    let mut step = first;
    loop {
        match step {
            Step::Reply(reply) => return Outcome::Reply(reply),
            Step::Forward { namespace, name } => return Outcome::Forward(namespace, name),
            Step::Fail => return Outcome::Fail,
            Step::Ask(action, task) => {
                let event = bucket.answer(action);
                step = service.resume(task, event, now);
            },
        }
    }
}

fn reply_of(outcome: Outcome) -> Reply {
    match outcome {
        Outcome::Reply(reply) => reply,
        Outcome::Forward(_, name) => panic!("passed on to {name}"),
        Outcome::Fail => panic!("failed"),
    }
}

fn send(service: &Service, bucket: &mut Bucket, request: Request) -> Reply {
    let mut step = service.fetch(request, NOW);
    loop {
        match step {
            Step::Ask(action, task) => {
                let event = bucket.answer(action);
                step = service.fetch_resumed(task, event, NOW);
            },
            Step::Reply(reply) => return reply,
            Step::Forward { name, .. } => panic!("passed on to {name}"),
            Step::Fail => panic!("a failure was not answered"),
        }
    }
}

fn header<'a>(reply: &'a Reply, name: &str) -> Option<&'a str> {
    reply.headers.iter().find(|(n, _)| n == name).map(|(_, v)| v.as_str())
}

fn body_text(reply: &Reply) -> String {
    match &reply.body {
        Body::Bytes(bytes) => String::from_utf8(bytes.clone()).unwrap(),
        Body::Empty => String::new(),
        Body::Object => panic!("the body is an object"),
    }
}

fn upload(bucket: &mut Bucket, request: Request) -> Reply {
    let place = ObjectUpload::new(service());
    let first = place.fetch(request);
    reply_of(converse(&place.service, bucket, first, NOW))
}

fn transfer(bucket: &mut Bucket, method: &str, from: &str, to: &str, overwrite: Option<&str>) -> Outcome {
    let place = ObjectCopy::new(service());
    let mut asked = request(method, from);
    asked.destination = Some(format!("https://dav.example.com{to}"));
    asked.overwrite = overwrite.map(|value| value.to_string());
    let first = place.fetch(asked);
    converse(&place.service, bucket, first, NOW)
}

// Who is let in

#[test]
fn strangers_are_refused_before_the_bucket_is_asked() {
    let mut bucket = Bucket::new(&[("a.txt", "x")]);
    for method in ["GET", "PUT", "DELETE", "PROPFIND", "OPTIONS", "NONSENSE"] {
        let mut asked = request(method, "/a.txt");
        asked.authorization = None;
        let reply = send(&service(), &mut bucket, asked);
        assert_eq!(reply.status, 401);
        assert!(header(&reply, "www-authenticate").is_some());
        let mut wrong = request(method, "/a.txt");
        wrong.authorization = Some("Basic YWRtaW46d3Jvbmc=".to_string());
        assert_eq!(send(&service(), &mut bucket, wrong).status, 401);
    }
    assert!(bucket.log.is_empty());
}

#[test]
fn without_credentials_every_request_fails() {
    let mut unset = service();
    unset.credentials = None;
    let mut bucket = Bucket::new(&[]);
    let reply = send(&unset, &mut bucket, request("GET", "/a.txt"));
    assert_eq!((reply.status, body_text(&reply).as_str()), (500, "Internal Server Error"));
    assert_eq!(send(&unset, &mut bucket, request("GET", "/__dufs__/health")).status, 200);
    let mut unbound = service();
    unbound.has_bucket = false;
    assert_eq!(send(&unbound, &mut bucket, request("GET", "/a.txt")).status, 500);
    assert_eq!(send(&unbound, &mut bucket, request("CHECKAUTH", "/")).status, 200);
    let mut visitor = request("GET", "/share/");
    visitor.authorization = None;
    assert_eq!(send(&unbound, &mut bucket, visitor).status, 500);
}

#[test]
fn checking_and_leaving() {
    let mut bucket = Bucket::new(&[]);
    let checked = send(&service(), &mut bucket, request("POST", "/?__dufs_checkauth=1"));
    assert_eq!((checked.status, body_text(&checked).as_str()), (200, "admin"));
    assert_eq!(header(&checked, "content-type"), Some("text/plain; charset=utf-8"));
    assert_eq!(send(&service(), &mut bucket, request("POST", "/?__dufs_logout=1")).status, 401);
    assert_eq!(send(&service(), &mut bucket, request("logout", "/")).status, 401);
    assert_eq!(send(&service(), &mut bucket, request("POST", "/")).status, 405);
    assert_eq!(send(&service(), &mut bucket, request("GET", "/%2e%2e/x")).status, 400);
}

#[test]
fn download_links_work_without_credentials() {
    let mut bucket = Bucket::new(&[("docs/a.txt", "hello")]);
    let token = send(&service(), &mut bucket, request("GET", "/docs/a.txt?tokengen"));
    assert_eq!(token.status, 200);
    let user = service().credentials.unwrap();
    assert_eq!(body_text(&token), download_token("docs/a.txt", &user, NOW));
    assert_eq!(send(&service(), &mut bucket, request("PUT", "/docs/a.txt?tokengen")).status, 405);

    let link = format!("/docs/a.txt?token={}", body_text(&token));
    let mut asked = request("GET", &link);
    asked.authorization = None;
    let reply = send(&service(), &mut bucket, asked);
    assert_eq!(reply.status, 200);
    assert!(matches!(reply.body, Body::Object));
    let mut writing = request("DELETE", &link);
    writing.authorization = None;
    assert_eq!(send(&service(), &mut bucket, writing).status, 401);
    let mut late = request("GET", &link);
    late.authorization = None;
    let first = service().fetch(late, NOW + 259_200_001);
    assert_eq!(reply_of(converse(&service(), &mut bucket, first, NOW)).status, 401);
}

// Reading

#[test]
fn files_are_read() {
    let mut bucket = Bucket::new(&[("docs/a.txt", "hello")]);
    let reply = send(&service(), &mut bucket, request("GET", "/docs/a.txt"));
    assert_eq!(reply.status, 200);
    assert_eq!(header(&reply, "content-length"), Some("5"));
    assert_eq!(header(&reply, "content-type"), Some("text/plain; charset=utf-8"));
    assert_eq!(header(&reply, "content-disposition"), Some("inline; filename=\"a.txt\""));
    assert!(matches!(reply.body, Body::Object));
    assert_eq!(bucket.held.clone().unwrap().bytes, b"hello");

    let mut part = request("GET", "/docs/a.txt");
    part.range = Some("bytes=1-2".to_string());
    let reply = send(&service(), &mut bucket, part);
    assert_eq!((reply.status, header(&reply, "content-range")), (206, Some("bytes 1-2/5")));
    assert_eq!(bucket.held.clone().unwrap().bytes, b"el");

    let head = send(&service(), &mut bucket, request("HEAD", "/docs/a.txt"));
    assert_eq!(header(&head, "content-length"), Some("5"));
    assert!(matches!(head.body, Body::Empty));
    assert_eq!(send(&service(), &mut bucket, request("GET", "/none")).status, 404);
}

#[test]
fn a_file_that_vanishes_is_not_found() {
    let first = service().fetch(request("GET", "/a.txt"), NOW);
    let mut bucket = Bucket::new(&[("a.txt", "x")]);
    let step = match first {
        Step::Ask(action, task) => service().resume(task, bucket.answer(action), NOW),
        _ => panic!("nothing is asked for"),
    };
    bucket.objects.clear();
    assert_eq!(reply_of(converse(&service(), &mut bucket, step, NOW)).status, 404);
}

#[test]
fn files_are_shown_in_the_interface() {
    let mut bucket = Bucket::new(&[("a.txt", "x")]);
    let reply = send(&service(), &mut bucket, request("GET", "/a.txt?edit"));
    assert_eq!(header(&reply, "content-type"), Some("text/html; charset=utf-8"));
    assert_eq!(
        body_text(&reply),
        "<b>/__dufs_wasm_v7__/</b><i>eyJlZGl0YWJsZSI6dHJ1ZSwiaHJlZiI6Ii9hJTJFdHh0In0=</i>"
    );
    let json = send(&service(), &mut bucket, request("GET", "/a.txt?json"));
    assert_eq!(body_text(&json), "{\"name\":\"a.txt\",\"size\":1}");
    assert_eq!(send(&service(), &mut bucket, request("GET", "/a.txt?hash")).status, 501);
}

#[test]
fn directories_are_listed() {
    let mut bucket = Bucket::new(&[
        ("docs/.dufs-directory", ""),
        ("docs/b.txt", "xx"),
        ("docs/A.txt", "x"),
        ("docs/sub/deep.txt", "x"),
        ("other.txt", "x"),
    ]);
    let simple = send(&service(), &mut bucket, request("GET", "/docs?simple"));
    assert_eq!(body_text(&simple), "sub/\nA.txt\nb.txt\n");
    let turned = send(&service(), &mut bucket, request("GET", "/docs?simple&order=desc"));
    assert_eq!(body_text(&turned), "b.txt\nA.txt\nsub/\n");
    let root = send(&service(), &mut bucket, request("GET", "/?simple"));
    assert_eq!(body_text(&root), "docs/\nother.txt\n");
    let json = send(&service(), &mut bucket, request("GET", "/docs?json"));
    assert_eq!(header(&json, "content-type"), Some("application/json; charset=utf-8"));
    assert!(body_text(&json).contains("\"href\": \"/docs\""));
    let page = send(&service(), &mut bucket, request("HEAD", "/docs/"));
    assert_eq!((page.status, header(&page, "cache-control")), (200, Some("no-cache")));
    assert!(matches!(page.body, Body::Empty));
    assert_eq!(send(&service(), &mut bucket, request("GET", "/docs?zip")).status, 501);
}

#[test]
fn directories_are_searched() {
    let mut bucket = Bucket::new(&[
        ("docs/Report.txt", "x"),
        ("docs/sub/old report.txt", "x"),
        ("docs/sub/.dufs-directory", ""),
        ("docs/none.txt", "x"),
        ("report.txt", "x"),
    ]);
    bucket.page = 2;
    let found = send(&service(), &mut bucket, request("GET", "/docs?q=REPORT&simple"));
    assert_eq!(body_text(&found), "Report.txt\nsub/old report.txt\n");
    let markers = send(&service(), &mut bucket, request("GET", "/docs?q=dufs&simple"));
    assert_eq!(body_text(&markers), "");
    let all = send(&service(), &mut bucket, request("GET", "/docs?q=&simple"));
    assert_eq!(body_text(&all), "sub/\nnone.txt\nReport.txt\n");
}

#[test]
fn searches_have_limits() {
    let mut bucket = Bucket::new(&[]);
    for i in 0..6000 {
        bucket.objects.insert(
            format!("d/{i:05}.txt"),
            Stored { bytes: Vec::new(), content_type: None },
        );
    }
    let found = send(&service(), &mut bucket, request("GET", "/d?q=txt&simple"));
    assert_eq!(body_text(&found).lines().count(), 1000);
    let late = send(&service(), &mut bucket, request("GET", "/d?q=05000&simple"));
    assert_eq!(body_text(&late), "");
    let early = send(&service(), &mut bucket, request("GET", "/d?q=04999&simple"));
    assert_eq!(body_text(&early), "04999.txt\n");
}

#[test]
fn properties_are_found() {
    let mut bucket = Bucket::new(&[("docs/a.txt", "xyz"), ("docs/s/x", "x")]);
    let deep = send(&service(), &mut bucket, request("PROPFIND", "/docs"));
    assert_eq!(deep.status, 207);
    let xml = body_text(&deep);
    assert_eq!(xml.matches("<D:response>").count(), 3);
    assert!(xml.contains("<D:href>/docs/</D:href>"));
    assert!(xml.contains("<D:href>/docs/s/</D:href>"));
    assert!(xml.contains("<D:getcontentlength>3</D:getcontentlength>"));
    assert!(xml.contains("<D:getlastmodified>date 1700000000000</D:getlastmodified>"));
    let mut shallow = request("PROPFIND", "/docs");
    shallow.depth = Some("0".to_string());
    let reply = send(&service(), &mut bucket, shallow);
    assert_eq!(body_text(&reply).matches("<D:response>").count(), 1);
    let mut infinite = request("PROPFIND", "/docs");
    infinite.depth = Some("infinity".to_string());
    assert_eq!(send(&service(), &mut bucket, infinite).status, 400);
    assert_eq!(send(&service(), &mut bucket, request("PROPFIND", "/none")).status, 404);
    let file = send(&service(), &mut bucket, request("PROPFIND", "/docs/a.txt"));
    assert!(body_text(&file).contains("<D:displayname>a.txt</D:displayname>"));
}

#[test]
fn other_methods() {
    let mut bucket = Bucket::new(&[]);
    assert_eq!(send(&service(), &mut bucket, request("options", "/")).status, 200);
    assert_eq!(send(&service(), &mut bucket, request("PROPPATCH", "/a")).status, 207);
    let lock = send(&service(), &mut bucket, request("LOCK", "/a"));
    assert_eq!(header(&lock, "lock-token"), Some("<opaquelocktoken:dufs-r2-1700000000000>"));
    assert_eq!(send(&service(), &mut bucket, request("UNLOCK", "/a")).status, 204);
    assert_eq!(send(&service(), &mut bucket, request("BREW", "/a")).status, 405);
    assert!(bucket.log.is_empty());
}

// Read-only service

#[test]
fn the_setting_is_true_in_any_case() {
    assert!(is_read_only(Some("true")));
    assert!(is_read_only(Some("TRUE")));
    assert!(!is_read_only(Some("1")));
    assert!(!is_read_only(Some("")));
    assert!(!is_read_only(None));
}

#[test]
fn a_read_only_service_changes_nothing() {
    let mut closed = service();
    closed.read_only = true;
    let mut bucket = Bucket::new(&[("a.txt", "x"), ("d/b.txt", "x")]);
    for method in ["PUT", "PATCH", "DELETE", "MKCOL", "COPY", "MOVE"] {
        let reply = send(&closed, &mut bucket, request(method, "/a.txt"));
        assert_eq!((reply.status, body_text(&reply).as_str()), (403, "Read-only"));
    }
    for action in ["start", "part", "complete", "abort"] {
        let asked = request("POST", &format!("/a.txt?__dufs_multipart={action}"));
        assert_eq!(send(&closed, &mut bucket, asked).status, 403);
    }
    for target in ["/a.txt", "/d", "/d?q=b", "/d?json", "/a.txt?edit"] {
        assert_eq!(send(&closed, &mut bucket, request("GET", target)).status, 200);
    }
    assert!(!changes(&bucket.log));
}

// The public share

#[test]
fn visitors_see_the_share_and_nothing_else() {
    let mut bucket = Bucket::new(&[
        ("share/a.html", "x"),
        ("share/d/b.png", "x"),
        ("private.txt", "x"),
        ("share", "hidden"),
    ]);
    let visit = |bucket: &mut Bucket, method: &str, target: &str| {
        let mut asked = request(method, target);
        asked.authorization = None;
        send(&service(), bucket, asked)
    };
    let page = visit(&mut bucket, "GET", "/share/");
    assert_eq!(page.status, 200);
    assert!(body_text(&page).contains("/share/a%2Ehtml"));
    assert!(!body_text(&page).contains("private"));
    let moved = visit(&mut bucket, "GET", "/share");
    assert_eq!((moved.status, header(&moved, "location")), (308, Some("/share/")));
    let deeper = visit(&mut bucket, "GET", "/share/d");
    assert_eq!((deeper.status, header(&deeper, "location")), (308, Some("/share/d/")));
    assert_eq!(visit(&mut bucket, "GET", "/share/d/").status, 200);
    let html = visit(&mut bucket, "GET", "/share/a.html");
    assert_eq!(header(&html, "content-disposition"), Some("attachment; filename=\"a.html\""));
    assert_eq!(header(&html, "cache-control"), Some("no-cache"));
    assert_eq!(header(&html, "x-content-type-options"), Some("nosniff"));
    let image = visit(&mut bucket, "HEAD", "/share/d/b.png");
    assert_eq!(header(&image, "content-disposition"), Some("inline; filename=\"b.png\""));
    assert_eq!(visit(&mut bucket, "GET", "/share/none").status, 404);
    assert_eq!(visit(&mut bucket, "GET", "/share/%2e%2e/private.txt").status, 400);
    assert_eq!(visit(&mut bucket, "GET", "/private.txt").status, 401);
    for method in ["PUT", "DELETE", "MOVE", "PROPFIND", "POST"] {
        let reply = visit(&mut bucket, method, "/share/a.html");
        assert_eq!((reply.status, header(&reply, "allow")), (405, Some("GET, HEAD")));
    }
    assert!(!changes(&bucket.log));
    let administrator = send(&service(), &mut bucket, request("DELETE", "/share/a.html"));
    assert_eq!(administrator.status, 204);
    assert_eq!(visit(&mut bucket, "GET", "/share/a.html").status, 404);
}

#[test]
fn visitors_read_parts_of_shared_files() {
    let mut bucket = Bucket::new(&[("share/a.txt", "hello")]);
    let mut part = request("GET", "/share/a.txt");
    part.authorization = None;
    part.range = Some("bytes=1-3".to_string());
    let reply = send(&service(), &mut bucket, part);
    assert_eq!((reply.status, header(&reply, "content-range")), (206, Some("bytes 1-3/5")));
    assert_eq!(header(&reply, "content-disposition"), Some("inline; filename=\"a.txt\""));
    assert_eq!(bucket.held.clone().unwrap().bytes, b"ell");
    let mut same = request("GET", "/share/a.txt");
    same.authorization = None;
    same.if_match = Some("\"tag\"".to_string());
    assert_eq!(send(&service(), &mut bucket, same).status, 200);
    assert_eq!(bucket.held.clone().unwrap().bytes, b"hello");
    let mut known = request("GET", "/share/a.txt");
    known.authorization = None;
    known.if_none_match = Some("\"tag\"".to_string());
    assert_eq!(send(&service(), &mut bucket, known).status, 304);
}

// Storing

#[test]
fn uploads_are_passed_on_by_their_key() {
    let mut bucket = Bucket::new(&[]);
    for (method, target, expected) in
        [("PUT", "/a/b.txt", "a/b.txt"), ("PATCH", "/a/b.txt", "a/b.txt"), ("PUT", "/", "/")]
    {
        let first = service().fetch(request(method, target), NOW);
        match converse(&service(), &mut bucket, first, NOW) {
            Outcome::Forward(Namespace::ObjectUpload, name) => assert_eq!(name, expected),
            _ => panic!("not passed on"),
        }
    }
    for method in ["COPY", "MOVE"] {
        let first = service().fetch(request(method, "/a"), NOW);
        match converse(&service(), &mut bucket, first, NOW) {
            Outcome::Forward(Namespace::ObjectCopy, name) => assert_eq!(name, "a"),
            _ => panic!("not passed on"),
        }
        assert_eq!(send(&service(), &mut bucket, request(method, "/")).status, 403);
    }
    assert!(matches!(
        handle_upload_via_durable_object("k".to_string()),
        Step::Forward { namespace: Namespace::ObjectUpload, name } if name == "k"
    ));
    assert!(matches!(
        handle_copy_or_move_via_durable_object("k".to_string()),
        Step::Forward { namespace: Namespace::ObjectCopy, name } if name == "k"
    ));
}

#[test]
fn what_is_stored_is_read_back() {
    let mut bucket = Bucket::new(&[]);
    bucket.body = b"first".to_vec();
    let mut put = request("PUT", "/docs/a.bin");
    put.content_length = Some("5".to_string());
    put.content_type = Some("text/x-test".to_string());
    assert_eq!(upload(&mut bucket, put).status, 201);
    bucket.body = b"second".to_vec();
    assert_eq!(upload(&mut bucket, request("PUT", "/docs/a.bin")).status, 204);
    let mut put = request("put", "/docs/b.bin");
    put.content_type = Some("text/x-test".to_string());
    assert_eq!(upload(&mut bucket, put).status, 201);
    let reply = send(&service(), &mut bucket, request("GET", "/docs/b.bin"));
    assert_eq!(header(&reply, "content-type"), Some("text/x-test"));
    assert_eq!(header(&reply, "content-length"), Some("6"));
    assert_eq!(bucket.held.clone().unwrap().bytes, b"second");
    assert_eq!(upload(&mut bucket, request("PUT", "/docs")).status, 405);
    assert_eq!(upload(&mut bucket, request("PUT", "/")).status, 405);
    assert_eq!(upload(&mut bucket, request("PUT", "/.dufs-directory")).status, 400);
    assert_eq!(upload(&mut bucket, request("GET", "/docs")).status, 405);
    assert_eq!(bucket.keys(), ["docs/a.bin", "docs/b.bin"]);
}

#[test]
fn appending_appends() {
    let mut bucket = Bucket::new(&[("log.txt", "one ")]);
    bucket.body = b"two".to_vec();
    let append = |target: &str| {
        let mut asked = request("PATCH", target);
        asked.update_range = Some("append".to_string());
        asked
    };
    assert_eq!(upload(&mut bucket, append("/log.txt")).status, 204);
    assert_eq!(bucket.text("log.txt"), "one two");
    assert_eq!(upload(&mut bucket, append("/none.txt")).status, 404);
    assert_eq!(upload(&mut bucket, request("PATCH", "/log.txt")).status, 405);
    bucket.body = vec![0; 10 * 1024 * 1024 - 7];
    assert_eq!(upload(&mut bucket, append("/log.txt")).status, 204);
    bucket.body = vec![0];
    assert_eq!(upload(&mut bucket, append("/log.txt")).status, 413);
    assert_eq!(bucket.objects["log.txt"].bytes.len(), 10 * 1024 * 1024);
}

#[test]
fn directories_are_made() {
    let mut bucket = Bucket::new(&[("file", "x")]);
    assert_eq!(send(&service(), &mut bucket, request("MKCOL", "/new")).status, 201);
    assert_eq!(bucket.keys(), ["file", "new/.dufs-directory"]);
    assert_eq!(
        bucket.objects["new/.dufs-directory"].content_type.as_deref(),
        Some("application/x-dufs-directory-marker")
    );
    for taken in ["/new", "/file", "/"] {
        assert_eq!(send(&service(), &mut bucket, request("MKCOL", taken)).status, 405);
    }
    let empty = send(&service(), &mut bucket, request("GET", "/new?simple"));
    assert_eq!((empty.status, body_text(&empty).as_str()), (200, ""));
}

// Removing

#[test]
fn removing_removes() {
    let mut bucket = Bucket::new(&[("a", "x"), ("a/b", "x"), ("ab", "x"), ("d/x", "x"), ("d/y/z", "x")]);
    assert_eq!(send(&service(), &mut bucket, request("DELETE", "/a")).status, 204);
    assert_eq!(bucket.keys(), ["a/b", "ab", "d/x", "d/y/z"]);
    bucket.page = 1;
    assert_eq!(send(&service(), &mut bucket, request("DELETE", "/d")).status, 204);
    assert_eq!(bucket.keys(), ["a/b", "ab"]);
    assert_eq!(send(&service(), &mut bucket, request("DELETE", "/d")).status, 404);
    assert_eq!(send(&service(), &mut bucket, request("DELETE", "/")).status, 403);
}

#[test]
fn large_directories_are_removed_in_batches() {
    let mut bucket = Bucket::new(&[("keep", "x")]);
    for i in 0..2500 {
        bucket.objects.insert(
            format!("d/{i:05}"),
            Stored { bytes: Vec::new(), content_type: None },
        );
    }
    assert_eq!(send(&service(), &mut bucket, request("DELETE", "/d")).status, 204);
    assert_eq!(bucket.keys(), ["keep"]);
    assert_eq!(bucket.log.iter().filter(|name| *name == "delete many").count(), 3);
}

#[test]
fn collections_end_at_their_limit() {
    let collect = |keys: &[(&str, &str)], page: usize, limit: Option<u64>| -> Vec<String> {
        let mut bucket = Bucket::new(keys);
        bucket.page = page;
        let goal = ScanPlan::Delete(After::Reply { status: 204 });
        let first = list_all_keys_limited("d/".to_string(), limit, goal);
        assert_eq!(reply_of(converse(&service(), &mut bucket, first, NOW)).status, 204);
        bucket.objects.into_keys().collect()
    };
    let three = [("d/a", "1"), ("d/b", "2"), ("d/c", "3")];
    assert_eq!(collect(&three, 1000, Some(0)), ["d/b", "d/c"]);
    assert_eq!(collect(&three, 1000, Some(1)), ["d/b", "d/c"]);
    assert_eq!(collect(&three, 1, Some(2)), ["d/c"]);
    assert_eq!(collect(&three, 2, Some(3)), [""; 0]);
    assert_eq!(collect(&three, 2, Some(9)), [""; 0]);
    assert_eq!(collect(&three, 2, None), [""; 0]);
    assert_eq!(collect(&[("x", "1")], 1000, Some(0)), ["x"]);
}

// Copying and moving

#[test]
fn files_are_copied_and_moved() {
    let mut bucket = Bucket::new(&[("a.txt", "hello")]);
    assert_eq!(reply_of(transfer(&mut bucket, "COPY", "/a.txt", "/b/c.txt", None)).status, 201);
    assert_eq!(bucket.keys(), ["a.txt", "b/c.txt"]);
    assert_eq!(bucket.text("b/c.txt"), "hello");
    assert_eq!(reply_of(transfer(&mut bucket, "MOVE", "/a.txt", "/b/c.txt", None)).status, 204);
    assert_eq!(bucket.keys(), ["b/c.txt"]);
    assert_eq!(reply_of(transfer(&mut bucket, "MOVE", "/a.txt", "/x", None)).status, 404);
    bucket.objects.insert("x".to_string(), Stored { bytes: vec![1], content_type: None });
    assert_eq!(reply_of(transfer(&mut bucket, "MOVE", "/x", "/b/c.txt", Some("f"))).status, 412);
    assert_eq!(reply_of(transfer(&mut bucket, "MOVE", "/x", "/b/c.txt", Some("T"))).status, 204);
    assert_eq!(bucket.keys(), ["b/c.txt"]);
    let typed = Stored { bytes: vec![2], content_type: Some("x/y".to_string()) };
    bucket.objects.insert("typed".to_string(), typed);
    assert_eq!(reply_of(transfer(&mut bucket, "COPY", "/typed", "/again", None)).status, 201);
    assert_eq!(bucket.objects["again"].content_type.as_deref(), Some("x/y"));
}

#[test]
fn directories_are_copied_and_moved() {
    let mut bucket = Bucket::new(&[
        ("d/.dufs-directory", ""),
        ("d/a", "1"),
        ("d/e/b", "2"),
        ("dd/c", "3"),
        ("old/gone", "4"),
    ]);
    bucket.page = 2;
    assert_eq!(reply_of(transfer(&mut bucket, "COPY", "/d", "/old", None)).status, 204);
    assert_eq!(
        bucket.keys(),
        ["d/.dufs-directory", "d/a", "d/e/b", "dd/c", "old/.dufs-directory", "old/a", "old/e/b"]
    );
    assert_eq!(bucket.text("old/e/b"), "2");
    assert_eq!(reply_of(transfer(&mut bucket, "MOVE", "/d", "/new/place", None)).status, 201);
    assert_eq!(
        bucket.keys(),
        [
            "dd/c",
            "new/place/.dufs-directory",
            "new/place/a",
            "new/place/e/b",
            "old/.dufs-directory",
            "old/a",
            "old/e/b"
        ]
    );
    assert_eq!(reply_of(transfer(&mut bucket, "MOVE", "/old", "/old/inside", None)).status, 409);
}

#[test]
fn a_kept_destination_may_hold_the_source() {
    let mut bucket = Bucket::new(&[("a/b/x", "1"), ("a/y", "2")]);
    assert_eq!(reply_of(transfer(&mut bucket, "MOVE", "/a/b", "/a", Some("F"))).status, 412);
    assert_eq!(reply_of(transfer(&mut bucket, "MOVE", "/a/y", "/a", Some("F"))).status, 412);
    assert_eq!(bucket.keys(), ["a/b/x", "a/y"]);
}

#[test]
fn a_source_is_removed_only_after_it_was_copied() {
    let mut bucket = Bucket::new(&[("d/a", "1"), ("d/b", "2")]);
    bucket.fail_on = Some("put held");
    assert!(matches!(transfer(&mut bucket, "MOVE", "/d", "/e", None), Outcome::Fail));
    assert_eq!(bucket.keys(), ["d/a", "d/b"]);
}

#[test]
fn impossible_destinations_are_refused() {
    let mut bucket = Bucket::new(&[("a", "1")]);
    assert_eq!(reply_of(transfer(&mut bucket, "MOVE", "/a", "/a", None)).status, 400);
    assert_eq!(reply_of(transfer(&mut bucket, "MOVE", "/a", "/", None)).status, 400);
    assert_eq!(reply_of(transfer(&mut bucket, "MOVE", "/a", "/.dufs-directory", None)).status, 400);
    assert_eq!(reply_of(transfer(&mut bucket, "MOVE", "/", "/b", None)).status, 403);
    assert_eq!(reply_of(transfer(&mut bucket, "GET", "/a", "/b", None)).status, 405);
    assert_eq!(reply_of(transfer(&mut bucket, "MOVE", "/%ff", "/b", None)).status, 400);
    let nowhere = copy_or_move_to("a".to_string(), None, false, false);
    assert!(matches!(nowhere, Step::Reply(reply) if reply.status == 400));
    assert!(bucket.log.is_empty());
}

// Uploads in parts

fn part_request(session: &str, number: &str, length: Option<&str>) -> Request {
    let mut asked = request(
        "PUT",
        &format!("/big.bin?__dufs_multipart=part&session={session}&partNumber={number}"),
    );
    asked.content_length = length.map(|value| value.to_string());
    asked
}

fn store(bucket: &mut Bucket, asked: Request, now: u64) -> Outcome {
    let place = MultipartUploadPart::new(service());
    let first = place.fetch(asked);
    converse(&place.service, bucket, first, now)
}

fn started(bucket: &mut Bucket, size: u64) -> String {
    bucket.body = format!("{{\"size\":{size},\"content_type\":\"a/b\"}}").into_bytes();
    let reply = send(&service(), bucket, request("POST", "/big.bin?__dufs_multipart=start"));
    assert_eq!(reply.status, 201);
    let answer: Value = serde_json::from_str(&body_text(&reply)).unwrap();
    assert_eq!(answer["part_size"].as_u64(), Some(16_777_216));
    answer["session"].as_str().unwrap().to_string()
}

#[test]
fn an_upload_in_parts() {
    let mut bucket = Bucket::new(&[]);
    let session = started(&mut bucket, 16_777_216 + 5);
    let first = service().fetch(part_request(&session, "1", None), NOW);
    match converse(&service(), &mut bucket, first, NOW) {
        Outcome::Forward(Namespace::MultipartUploadPart, name) => assert_eq!(name, "upload-1"),
        _ => panic!("not passed on"),
    }
    let reply = reply_of(store(&mut bucket, part_request(&session, "1", Some("16777216")), NOW));
    assert_eq!(body_text(&reply), "{\"etag\":\"etag-1\",\"part_number\":1}");
    assert_eq!(reply_of(store(&mut bucket, part_request(&session, "2", Some("5")), NOW)).status, 200);
    assert!(bucket.log.contains(&"part 1 of 16777216".to_string()));
    assert!(bucket.log.contains(&"part 2 of 5".to_string()));

    let complete = |bucket: &mut Bucket, parts: &str| {
        bucket.body = format!("{{\"session\":\"{session}\",\"parts\":[{parts}]}}").into_bytes();
        send(&service(), bucket, request("POST", "/big.bin?__dufs_multipart=complete"))
    };
    let one = "{\"part_number\":1,\"etag\":\"etag-1\"}";
    let two = "{\"part_number\":2,\"etag\":\"etag-2\"}";
    assert_eq!(complete(&mut bucket, one).status, 400);
    assert_eq!(complete(&mut bucket, &format!("{two},{one}")).status, 400);
    let nameless = "{\"part_number\":2,\"etag\":\"\"}";
    assert_eq!(complete(&mut bucket, &format!("{one},{nameless}")).status, 400);
    assert_eq!(complete(&mut bucket, &format!("{one},{two}")).status, 201);
    assert!(bucket.log.contains(&"complete big.bin upload-1 2".to_string()));
}

#[test]
fn a_completed_upload_is_the_file() {
    let mut bucket = Bucket::new(&[]);
    let whole: Vec<u8> = (0..16_777_216u32 + 5).map(|i| (i % 251) as u8).collect();
    let session = started(&mut bucket, whole.len() as u64);
    bucket.body = whole[16_777_216..].to_vec();
    assert_eq!(reply_of(store(&mut bucket, part_request(&session, "2", Some("5")), NOW)).status, 200);
    bucket.body = whole[..16_777_216].to_vec();
    assert_eq!(reply_of(store(&mut bucket, part_request(&session, "1", None), NOW)).status, 200);
    assert!(bucket.keys().is_empty());
    let list = "{\"part_number\":1,\"etag\":\"etag-1\"},{\"part_number\":2,\"etag\":\"etag-2\"}";
    bucket.body = format!("{{\"session\":\"{session}\",\"parts\":[{list}]}}").into_bytes();
    let reply = send(&service(), &mut bucket, request("POST", "/big.bin?__dufs_multipart=complete"));
    assert_eq!(reply.status, 201);
    let stored = &bucket.objects["big.bin"];
    assert!(stored.bytes == whole);
    assert_eq!(stored.content_type.as_deref(), Some("a/b"));
    assert!(bucket.upload.is_none());
}

#[test]
fn parts_that_do_not_fit_are_refused() {
    let mut bucket = Bucket::new(&[]);
    let session = started(&mut bucket, 10);
    let status = |bucket: &mut Bucket, asked: Request, now: u64| reply_of(store(bucket, asked, now)).status;
    assert_eq!(status(&mut bucket, part_request(&session, "1", Some("9")), NOW), 400);
    assert_eq!(status(&mut bucket, part_request(&session, "0", None), NOW), 400);
    assert_eq!(status(&mut bucket, part_request(&session, "2", None), NOW), 400);
    assert_eq!(status(&mut bucket, part_request(&session, "x", None), NOW), 400);
    assert_eq!(status(&mut bucket, part_request(&session, "1", None), NOW + 86_400_001), 403);
    assert_eq!(status(&mut bucket, part_request(&session, "1", None), NOW + 86_400_000), 200);
    assert_eq!(status(&mut bucket, part_request("forged.token", "1", None), NOW), 403);
    assert_eq!(status(&mut bucket, part_request("nodot", "1", None), NOW), 403);
    let mut elsewhere = part_request(&session, "1", None);
    elsewhere.path = "/other.bin".to_string();
    assert_eq!(status(&mut bucket, elsewhere, NOW), 403);
    let mut invalid = part_request(&session, "1", None);
    invalid.path = "/%ff".to_string();
    assert_eq!(status(&mut bucket, invalid, NOW), 400);
    let mut posted = part_request(&session, "1", None);
    posted.method = "POST".to_string();
    assert_eq!(status(&mut bucket, posted, NOW), 405);
    let mut nowhere = part_request(&session, "1", None);
    nowhere.url = "relative".to_string();
    assert!(matches!(store(&mut bucket, nowhere, NOW), Outcome::Fail));
}

#[test]
fn uploads_begin_with_a_sensible_size() {
    let mut bucket = Bucket::new(&[("d/x", "1")]);
    let start = |bucket: &mut Bucket, target: &str, size: u64| {
        bucket.body = format!("{{\"size\":{size}}}").into_bytes();
        let asked = request("POST", &format!("{target}?__dufs_multipart=start"));
        send(&service(), bucket, asked).status
    };
    assert_eq!(start(&mut bucket, "/f", 0), 400);
    assert_eq!(start(&mut bucket, "/f", 16_777_216 * 10_000), 201);
    assert_eq!(start(&mut bucket, "/f", 16_777_216 * 10_000 + 1), 413);
    assert_eq!(start(&mut bucket, "/d", 5), 405);
    assert_eq!(start(&mut bucket, "/", 5), 405);
    bucket.body = b"no json".to_vec();
    assert_eq!(
        send(&service(), &mut bucket, request("POST", "/f?__dufs_multipart=start")).status,
        500
    );
    assert_eq!(
        send(&service(), &mut bucket, request("GET", "/f?__dufs_multipart=start")).status,
        405
    );
}

#[test]
fn uploads_can_be_given_up() {
    let mut bucket = Bucket::new(&[]);
    let session = started(&mut bucket, 10);
    let abort = format!("/big.bin?__dufs_multipart=abort&session={session}");
    assert_eq!(send(&service(), &mut bucket, request("POST", &abort)).status, 204);
    assert!(bucket.log.contains(&"abort big.bin upload-1".to_string()));
    let other = format!("/x.bin?__dufs_multipart=abort&session={session}");
    assert_eq!(send(&service(), &mut bucket, request("POST", &other)).status, 403);
    assert_eq!(
        send(&service(), &mut bucket, request("POST", "/x?__dufs_multipart=abort")).status,
        403
    );
}

#[test]
fn lengths_and_numbers_of_parts() {
    assert_eq!(declared_length(Some("12")), Some(12));
    assert_eq!(declared_length(Some("twelve")), None);
    assert_eq!(declared_length(None), None);
    let session = MultipartSession {
        key: "k".to_string(),
        upload_id: "u".to_string(),
        size: 7,
        expires_at: 0,
    };
    let step = store_part("k".to_string(), session, &Some("1".to_string()), &None);
    assert!(matches!(
        step,
        Step::Ask(Action::UploadPart { part_number: 1, size: 7, .. }, Task::PartStored)
    ));
}

// Failures

#[test]
fn failures_outside_are_answered() {
    for failing in ["head", "list", "encode"] {
        let mut bucket = Bucket::new(&[("d/a", "1")]);
        bucket.fail_on = Some(failing);
        let mut step = service().fetch(request("GET", "/d?json"), NOW);
        let status = loop {
            match step {
                Step::Reply(reply) => break reply.status,
                Step::Ask(action, task) => {
                    let event = bucket.answer(action);
                    step = service().fetch_resumed(task, event, NOW);
                },
                _ => panic!("no answer"),
            }
        };
        assert_eq!(status, 500);
    }
}

#[test]
fn an_answer_to_another_question_is_a_failure() {
    match service().fetch(request("GET", "/a"), NOW) {
        Step::Ask(_, task) => {
            assert!(matches!(service().resume(task, Event::Done, NOW), Step::Fail));
        },
        _ => panic!("nothing is asked for"),
    }
}
