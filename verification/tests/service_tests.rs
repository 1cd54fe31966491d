use bookshelf::{
    apply_delete, apply_get, apply_save, handle_request, rejection_response, sanitize_filename,
    storage_path, Method, MemFs, RejectionKind,
};

const DUNE_JSON: &str =
    "{\"name\":\"Dune\",\"author\":\"Frank Herbert\",\"published\":\"1965-08-01\"}";

fn segs(parts: &[&str]) -> Vec<String> {
    let mut v: Vec<String> = Vec::new();
    for p in parts {
        v.push((*p).to_owned());
    }
    v
}

#[test]
fn sanitize_replaces_spaces_and_slashes() {
    assert_eq!(sanitize_filename("a b"), "a_b");
    assert_eq!(sanitize_filename("a/b"), "a_b");
    assert_eq!(sanitize_filename("a b/c d"), "a_b_c_d");
    assert_eq!(sanitize_filename("plain"), "plain");
    assert_eq!(sanitize_filename(""), "");
    assert_eq!(sanitize_filename("..\\evil"), "..\\evil");
}

#[test]
fn storage_path_shape() {
    assert_eq!(storage_path("Dune"), "./books/Dune.json");
    assert_eq!(storage_path("a b"), "./books/a_b.json");
}

#[test]
fn save_then_load_round_trip() {
    let mut fs = MemFs::new();
    let r = apply_save(&mut fs, DUNE_JSON);
    assert_eq!(r.status, 200);
    assert_eq!(r.body, "\"Book saved successfully\"");
    let g = apply_get(&fs, "Dune");
    assert_eq!(g.status, 200);
    assert_eq!(g.body, DUNE_JSON);
}

#[test]
fn second_save_overwrites_first() {
    let mut fs = MemFs::new();
    apply_save(&mut fs, DUNE_JSON);
    let second = "{\"name\":\"Dune\",\"author\":\"Other Author\",\"published\":\"1970-01-02\"}";
    let r = apply_save(&mut fs, second);
    assert_eq!(r.status, 200);
    let g = apply_get(&fs, "Dune");
    assert_eq!(g.status, 200);
    assert_eq!(g.body, second);
}

#[test]
fn delete_removes_book() {
    let mut fs = MemFs::new();
    apply_save(&mut fs, DUNE_JSON);
    let d = apply_delete(&mut fs, "Dune");
    assert_eq!(d.status, 200);
    assert_eq!(d.body, "Book deleted successfully");
    let g = apply_get(&fs, "Dune");
    assert_eq!(g.status, 404);
    assert_eq!(g.body, "NOT_FOUND");
}

#[test]
fn delete_of_missing_book_fails() {
    let mut fs = MemFs::new();
    let d = apply_delete(&mut fs, "Nothing");
    assert_eq!(d.status, 400);
    assert_eq!(d.body, "BAD_REQUEST");
}

#[test]
fn sanitize_collision_shares_one_file() {
    let mut fs = MemFs::new();
    let first = "{\"name\":\"a b\",\"author\":\"First\",\"published\":\"1990-01-01\"}";
    let second = "{\"name\":\"a_b\",\"author\":\"Second\",\"published\":\"1991-02-02\"}";
    apply_save(&mut fs, first);
    apply_save(&mut fs, second);
    let via_space = apply_get(&fs, "a b");
    let via_underscore = apply_get(&fs, "a_b");
    assert_eq!(via_space.status, 200);
    assert_eq!(via_space.body, second);
    assert_eq!(via_underscore.status, 200);
    assert_eq!(via_underscore.body, second);
}

#[test]
fn get_of_missing_book_is_not_found() {
    let fs = MemFs::new();
    let g = apply_get(&fs, "Nobody");
    assert_eq!(g.status, 404);
    assert_eq!(g.body, "NOT_FOUND");
}

#[test]
fn unknown_routes_answer_not_found() {
    let mut fs = MemFs::new();
    let r = handle_request(&mut fs, Method::Get, &segs(&["save"]), "");
    assert_eq!(r.status, 404);
    assert_eq!(r.body, "NOT_FOUND");
    let r = handle_request(&mut fs, Method::Get, &segs(&["nowhere"]), "");
    assert_eq!(r.status, 404);
    let r = handle_request(&mut fs, Method::Post, &segs(&["get", "Dune"]), "");
    assert_eq!(r.status, 404);
    let r = handle_request(&mut fs, Method::Delete, &segs(&["save"]), "");
    assert_eq!(r.status, 404);
    let r = handle_request(&mut fs, Method::Get, &segs(&[]), "");
    assert_eq!(r.status, 404);
    let r = handle_request(&mut fs, Method::Get, &segs(&["get", "a", "b"]), "");
    assert_eq!(r.status, 404);
}

#[test]
fn malformed_save_body_answers_bad_request() {
    let mut fs = MemFs::new();
    let body = "{\"name\":\"Dune\",\"author\":\"Frank Herbert\"}";
    let r = handle_request(&mut fs, Method::Post, &segs(&["save"]), body);
    assert_eq!(r.status, 400);
    assert_eq!(r.body, "BAD_REQUEST");
}

#[test]
fn full_scenario_over_routes() {
    let mut fs = MemFs::new();
    let r = handle_request(&mut fs, Method::Post, &segs(&["save"]), DUNE_JSON);
    assert_eq!(r.status, 200);
    let g = handle_request(&mut fs, Method::Get, &segs(&["get", "Dune"]), "");
    assert_eq!(g.status, 200);
    assert_eq!(g.body, DUNE_JSON);
    let d = handle_request(&mut fs, Method::Delete, &segs(&["delete", "Dune"]), "");
    assert_eq!(d.status, 200);
    let g2 = handle_request(&mut fs, Method::Get, &segs(&["get", "Dune"]), "");
    assert_eq!(g2.status, 404);
    assert_eq!(g2.body, "NOT_FOUND");
}

#[test]
fn rejection_mapping_is_fixed() {
    let nf = rejection_response(RejectionKind::RouteNotFound);
    assert_eq!(nf.status, 404);
    assert_eq!(nf.body, "NOT_FOUND");
    let bad = rejection_response(RejectionKind::AppFailure);
    assert_eq!(bad.status, 400);
    assert_eq!(bad.body, "BAD_REQUEST");
    let other = rejection_response(RejectionKind::Other);
    assert_eq!(other.status, 500);
    assert_eq!(other.body, "INTERNAL_SERVER_ERROR");
}
