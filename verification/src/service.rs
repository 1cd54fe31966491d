//! The service's decisions, one verified function per route.
//!
//! Each function takes the store and the plain request data and produces
//! the response, changing the store exactly as its spec transition says.
//! `handle_request` binds the three routes together with the fallback, so
//! a whole request is one call against the in-memory store; the binary
//! makes the same decisions against the disk through the same pieces.

use vstd::prelude::*;

use crate::codec::spec_decode_book;
use crate::routes::{
    body_bad_request, body_deleted, body_not_found, body_saved, spec_route, Method, Response,
    Route, SpecRoute,
};
use crate::store::{store_delete, store_load, store_save, MemFs};

verus! {

/// What a save request does to the store, and what it answers: a body
/// that decodes becomes the book's file and 200; any other body leaves
/// the store alone and answers 400.
pub open spec fn spec_save_step(m: Map<Seq<char>, Seq<char>>, body: Seq<char>) -> (
    Map<Seq<char>, Seq<char>>,
    int,
    Seq<char>,
) {
    match spec_decode_book(body) {
        Some((n, a, d)) => (store_save(m, n, a, d), 200, body_saved()),
        None => (m, 400, body_bad_request()),
    }
}

/// What a get request answers: the stored book re-encoded and 200, or 404
/// where there is no file or its text does not decode.
pub open spec fn spec_get_step(m: Map<Seq<char>, Seq<char>>, name: Seq<char>) -> (
    int,
    Seq<char>,
) {
    match store_load(m, name) {
        Some((n, a, d)) => (200, crate::codec::spec_encode_book(n, a, d)),
        None => (404, body_not_found()),
    }
}

/// What a delete request does to the store, and what it answers: an
/// existing file is removed with 200; a missing one answers 400.
pub open spec fn spec_delete_step(m: Map<Seq<char>, Seq<char>>, name: Seq<char>) -> (
    Map<Seq<char>, Seq<char>>,
    int,
    Seq<char>,
) {
    if m.contains_key(crate::sanitize::spec_storage_path(name)) {
        (store_delete(m, name), 200, body_deleted())
    } else {
        (m, 400, body_bad_request())
    }
}

/// What a whole request does: the matched route's step, or an untouched
/// store and the plain 404 where no route matches.
pub open spec fn spec_handle(
    m: Map<Seq<char>, Seq<char>>,
    method: Method,
    segs: Seq<Seq<char>>,
    body: Seq<char>,
) -> (Map<Seq<char>, Seq<char>>, int, Seq<char>) {
    match spec_route(method, segs) {
        SpecRoute::Save => spec_save_step(m, body),
        SpecRoute::Load(name) => {
            let g = spec_get_step(m, name);
            (m, g.0, g.1)
        },
        SpecRoute::Remove(name) => spec_delete_step(m, name),
        SpecRoute::Unknown => (m, 404, body_not_found()),
    }
}

/// A saved book is what a following get answers: status 200 and the
/// book's own encoding, from any starting store.
pub proof fn lemma_get_after_save(
    m: Map<Seq<char>, Seq<char>>,
    n: Seq<char>,
    a: Seq<char>,
    d: crate::date::Date,
)
    requires
        crate::date::date_valid(d),
    ensures
        spec_get_step(store_save(m, n, a, d), n) == (
            200int,
            crate::codec::spec_encode_book(n, a, d),
        ),
{
    crate::store::lemma_save_then_load(m, n, a, d);
}

/// After a save and a delete of the same name, a get answers the plain
/// 404, from any starting store.
pub proof fn lemma_get_after_delete(
    m: Map<Seq<char>, Seq<char>>,
    n: Seq<char>,
    a: Seq<char>,
    d: crate::date::Date,
)
    ensures
        spec_get_step(store_delete(store_save(m, n, a, d), n), n) == (404int, body_not_found()),
{
}

/// Apply a save request body to the store.
pub fn apply_save(fs: &mut MemFs, body: &str) -> (r: Response)
    requires
        old(fs).wf(),
    ensures
        final(fs).wf(),
        ({
            let step = spec_save_step(old(fs)@, body@);
            final(fs)@ == step.0 && r.status as int == step.1 && r.body@ == step.2
        }),
{
    match crate::codec::decode_book(body) {
        Ok(b) => {
            let path = crate::sanitize::storage_path(b.name.as_str());
            let contents = crate::codec::encode_book(&b);
            fs.write(path.as_str(), contents.as_str());
            Response { status: 200, body: "\"Book saved successfully\"".to_owned() }
        },
        Err(_) => Response { status: 400, body: "BAD_REQUEST".to_owned() },
    }
}

/// Answer a get request for `name` from the store.
pub fn apply_get(fs: &MemFs, name: &str) -> (r: Response)
    requires
        fs.wf(),
    ensures
        ({
            let step = spec_get_step(fs@, name@);
            r.status as int == step.0 && r.body@ == step.1
        }),
{
    let path = crate::sanitize::storage_path(name);
    match fs.read(path.as_str()) {
        Some(contents) => match crate::codec::decode_book(contents.as_str()) {
            Ok(b) => Response { status: 200, body: crate::codec::encode_book(&b) },
            Err(_) => Response { status: 404, body: "NOT_FOUND".to_owned() },
        },
        None => Response { status: 404, body: "NOT_FOUND".to_owned() },
    }
}

/// Apply a delete request for `name` to the store.
pub fn apply_delete(fs: &mut MemFs, name: &str) -> (r: Response)
    requires
        old(fs).wf(),
    ensures
        final(fs).wf(),
        ({
            let step = spec_delete_step(old(fs)@, name@);
            final(fs)@ == step.0 && r.status as int == step.1 && r.body@ == step.2
        }),
{
    let path = crate::sanitize::storage_path(name);
    if fs.remove(path.as_str()) {
        Response { status: 200, body: "Book deleted successfully".to_owned() }
    } else {
        Response { status: 400, body: "BAD_REQUEST".to_owned() }
    }
}

/// Apply one whole request to the store: route it, run the route's step,
/// and answer 404 where nothing matches.
pub fn handle_request(fs: &mut MemFs, method: Method, segments: &Vec<String>, body: &str) -> (r:
    Response)
    requires
        old(fs).wf(),
    ensures
        final(fs).wf(),
        ({
            let step = spec_handle(old(fs)@, method, segments.deep_view(), body@);
            final(fs)@ == step.0 && r.status as int == step.1 && r.body@ == step.2
        }),
{
    match crate::routes::route_of(method, segments) {
        Route::Save => apply_save(fs, body),
        Route::Load(name) => apply_get(fs, name.as_str()),
        Route::Remove(name) => apply_delete(fs, name.as_str()),
        Route::Unknown => Response { status: 404, body: "NOT_FOUND".to_owned() },
    }
}

} // verus!
