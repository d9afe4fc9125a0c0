# dufs-r2-worker

A WebDAV file service that keeps its files in an R2 bucket and runs as a Cloudflare Worker. The
service proper is a library verified with Verus; a thin layer of ordinary Rust ties it to the
Workers runtime.

## How it works

Handling a request is a conversation. `Service::fetch` takes a request and gives back a step:

- a reply;
- the place to pass the request on to (a Durable Object, by the name of the key, the source or the
  upload that it is about);
- or an action to perform on the bucket, with the task that `Service::fetch_resumed` goes on with
  once the answer is there.

The library never waits and never does I/O, so every decision it takes is a function with a
contract.

## Layout

- `src/text.rs`, `src/numbers.rs`: operations on strings and decimal numbers.
- `src/codec.rs`: the calls into the codec crates, each with what it is trusted to do.
- `src/keys.rs`, `src/key_laws.rs`: request paths, object keys and links.
- `src/query.rs`, `src/range.rs`, `src/media.rs`, `src/escape.rs`: queries, byte ranges, content
  types, markup.
- `src/auth.rs`, `src/multipart.rs`: credentials, download tokens, upload sessions.
- `src/model.rs`, `src/sort.rs`, `src/pages.rs`, `src/reply.rs`: entries, their order, pages,
  replies.
- `src/machine.rs`: requests, actions, events, tasks and steps.
- `src/listing.rs`, `src/files.rs`, `src/dav.rs`, `src/share.rs`, `src/uploads.rs`,
  `src/transfers.rs`, `src/service.rs`: what becomes of each kind of request.
- `src/world.rs`: a picture of the bucket, in which laws are stated.
- `src/access_laws.rs`, `src/storage_laws.rs`, `src/upload_laws.rs`, `src/listing_laws.rs`,
  `src/transfer_laws.rs`, `src/page_laws.rs`: who can see and change what, what the bucket holds in
  the end, and what the pages of the share hold.
- `app/`: the Worker: entry point, Durable Objects, bucket, JSON, user interface.

## Rules of the service

- A file is the object of that name. A directory is anything below its prefix; an empty one is kept
  by a hidden `.dufs-directory` object.
- Without credentials, objects below `share/` can be read and nothing else. HTML, scripts and SVG
  are sent there as downloads.
- Credentials are `DUFS_USERNAME` and `DUFS_PASSWORD`; until both are set every other request fails.
- `DUFS_READ_ONLY = "true"` refuses everything that would change the bucket.
- Files of more than 16 MiB are uploaded in parts of that size, held together by a signed session
  that lasts a day.
- A directory is moved by copying its objects and then removing them; this is not transactional.
