//! The HTTP surface: routes, responses, and the rejection mapping.
//!
//! The service answers three routes — save a book, get a book by name,
//! delete a book by name — and turns everything else into a plain 404. The
//! routing works on the request method and the path segments; the fallback
//! mapping turns a rejection into one of three fixed responses. The error
//! taxonomy is deliberately asymmetric: a failed load answers 404, while a
//! failed save or delete answers 400, whatever the cause.

use vstd::prelude::*;

verus! {

/// The request methods the service distinguishes.
#[derive(Clone, Copy, PartialEq, Eq, Structural, Debug)]
pub enum Method {
    Get,
    Post,
    Delete,
}

/// Which route a request takes, with the book name where one is named.
pub enum Route {
    Save,
    Load(String),
    Remove(String),
    Unknown,
}

/// The route of a request, over the views of its segments.
pub enum SpecRoute {
    Save,
    Load(Seq<char>),
    Remove(Seq<char>),
    Unknown,
}

/// The one path segment of the save route.
pub open spec fn seg_save() -> Seq<char> {
    seq!['s', 'a', 'v', 'e']
}

/// The first path segment of the get route.
pub open spec fn seg_get() -> Seq<char> {
    seq!['g', 'e', 't']
}

/// The first path segment of the delete route.
pub open spec fn seg_delete() -> Seq<char> {
    seq!['d', 'e', 'l', 'e', 't', 'e']
}

/// Which route a method and a segment list select: POST `/save`, GET
/// `/get/{name}`, DELETE `/delete/{name}`, and nothing else.
pub open spec fn spec_route(m: Method, segs: Seq<Seq<char>>) -> SpecRoute {
    if m is Post && segs.len() == 1 && segs[0] == seg_save() {
        SpecRoute::Save
    } else if m is Get && segs.len() == 2 && segs[0] == seg_get() {
        SpecRoute::Load(segs[1])
    } else if m is Delete && segs.len() == 2 && segs[0] == seg_delete() {
        SpecRoute::Remove(segs[1])
    } else {
        SpecRoute::Unknown
    }
}

/// Select the route of a request from its method and path segments.
pub fn route_of(m: Method, segments: &Vec<String>) -> (r: Route)
    ensures
        ({
            let sr = spec_route(m, segments.deep_view());
            match r {
                Route::Save => sr is Save,
                Route::Load(n) => sr matches SpecRoute::Load(sn) && n@ == sn,
                Route::Remove(n) => sr matches SpecRoute::Remove(sn) && n@ == sn,
                Route::Unknown => sr is Unknown,
            }
        }),
{
    proof {
        reveal_strlit("save");
        reveal_strlit("get");
        reveal_strlit("delete");
        assert("save"@ =~= seg_save());
        assert("get"@ =~= seg_get());
        assert("delete"@ =~= seg_delete());
        assert(segments.deep_view().len() == segments@.len());
    }
    if matches!(m, Method::Post) && segments.len() == 1 && crate::strutil::str_eq(
        segments[0].as_str(),
        "save",
    ) {
        proof {
            assert(segments.deep_view()[0] == segments@[0]@);
        }
        Route::Save
    } else if matches!(m, Method::Get) && segments.len() == 2 && crate::strutil::str_eq(
        segments[0].as_str(),
        "get",
    ) {
        proof {
            assert(segments.deep_view()[0] == segments@[0]@);
            assert(segments.deep_view()[1] == segments@[1]@);
        }
        Route::Load(segments[1].clone())
    } else if matches!(m, Method::Delete) && segments.len() == 2 && crate::strutil::str_eq(
        segments[0].as_str(),
        "delete",
    ) {
        proof {
            assert(segments.deep_view()[0] == segments@[0]@);
            assert(segments.deep_view()[1] == segments@[1]@);
        }
        Route::Remove(segments[1].clone())
    } else {
        proof {
            if segments.deep_view().len() == 1 {
                assert(segments.deep_view()[0] == segments@[0]@);
            }
            if segments.deep_view().len() == 2 {
                assert(segments.deep_view()[0] == segments@[0]@);
            }
        }
        Route::Unknown
    }
}

/// One HTTP answer: a status code and a body.
pub struct Response {
    pub status: u16,
    pub body: String,
}

/// The body of the plain not-found answer.
pub open spec fn body_not_found() -> Seq<char> {
    "NOT_FOUND"@
}

/// The body of the plain bad-request answer.
pub open spec fn body_bad_request() -> Seq<char> {
    "BAD_REQUEST"@
}

/// The body of the plain internal-error answer.
pub open spec fn body_internal_error() -> Seq<char> {
    "INTERNAL_SERVER_ERROR"@
}

/// The body answering a successful save: a JSON string.
pub open spec fn body_saved() -> Seq<char> {
    "\"Book saved successfully\""@
}

/// The body answering a successful delete: plain text.
pub open spec fn body_deleted() -> Seq<char> {
    "Book deleted successfully"@
}

/// The kinds of rejection the fallback mapping distinguishes: no route
/// matched, a route reported a failure of the application, or anything
/// else.
#[derive(Clone, Copy, PartialEq, Eq, Structural, Debug)]
pub enum RejectionKind {
    RouteNotFound,
    AppFailure,
    Other,
}

/// The fixed answer for each kind of rejection: 404 for a missed route,
/// 400 for an application failure, 500 for everything else.
pub fn rejection_response(kind: RejectionKind) -> (r: Response)
    ensures
        kind is RouteNotFound ==> r.status == 404 && r.body@ == body_not_found(),
        kind is AppFailure ==> r.status == 400 && r.body@ == body_bad_request(),
        kind is Other ==> r.status == 500 && r.body@ == body_internal_error(),
{
    match kind {
        RejectionKind::RouteNotFound => Response {
            status: 404,
            body: "NOT_FOUND".to_owned(),
        },
        RejectionKind::AppFailure => Response { status: 400, body: "BAD_REQUEST".to_owned() },
        RejectionKind::Other => Response {
            status: 500,
            body: "INTERNAL_SERVER_ERROR".to_owned(),
        },
    }
}

} // verus!
