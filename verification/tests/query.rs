use term_index::query::{
    asset_content_type, asset_file, not_found_reply, placeholder, route, search, search_reply,
    Asset, Method, QueryError, Reply, Route,
};

#[test]
fn post_api_search_is_the_search() {
    assert_eq!(route(Method::Post, "/api/search"), Route::Search);
}

#[test]
fn get_serves_the_page_and_its_script() {
    assert_eq!(route(Method::Get, "/"), Route::Static(Asset::Page));
    assert_eq!(route(Method::Get, "/index.html"), Route::Static(Asset::Page));
    assert_eq!(route(Method::Get, "/index.js"), Route::Static(Asset::Script));
}

#[test]
fn unknown_path_is_not_found() {
    assert_eq!(route(Method::Get, "/not-a-real-path"), Route::NotFound);
    assert_eq!(route(Method::Get, "/api/search"), Route::NotFound);
    assert_eq!(route(Method::Get, ""), Route::NotFound);
    assert_eq!(route(Method::Get, "/index.html/"), Route::NotFound);
    assert_eq!(route(Method::Post, "/"), Route::NotFound);
    assert_eq!(route(Method::Post, "/index.js"), Route::NotFound);
    assert_eq!(route(Method::Post, "/api/search/"), Route::NotFound);
    assert_eq!(route(Method::Post, "/api/search?q=1"), Route::NotFound);
}

#[test]
fn other_methods_are_not_found() {
    assert_eq!(route(Method::Other, "/"), Route::NotFound);
    assert_eq!(route(Method::Other, "/api/search"), Route::NotFound);
    assert_eq!(route(Method::Other, "/index.js"), Route::NotFound);
}

#[test]
fn not_found_is_a_404() {
    assert_eq!(not_found_reply(), Reply { status: 404, body: "Not found".to_string() });
}

#[test]
fn assets_have_their_file_and_type() {
    assert_eq!(asset_file(Asset::Page), "index.html");
    assert_eq!(asset_content_type(Asset::Page), "text/html; charset=utf-8");
    assert_eq!(asset_file(Asset::Script), "index.js");
    assert_eq!(asset_content_type(Asset::Script), "text/javascript; charset=utf-8");
}

#[test]
fn search_answers_the_same_whatever_the_query() {
    let one = search(b"rust programming language").unwrap();
    let two = search("какой-то запрос 123".as_bytes()).unwrap();
    let none = search(b"").unwrap();
    assert_eq!(one.body, r#"["hello","world"]"#);
    assert_eq!(two.body, one.body);
    assert_eq!(none.body, one.body);
    assert_eq!(one.results, vec!["hello", "world"]);
    assert_eq!(two.results, one.results);
    assert_eq!(none.results, one.results);
    assert_eq!(placeholder(), one.results);
}

#[test]
fn search_tokenizes_the_query_as_indexing_does() {
    let reply = search(b"Hello, world 42times").unwrap();
    assert_eq!(reply.terms, vec!["HELLO", ",", "WORLD", "42", "TIMES"]);
    assert_eq!(search(b"  ").unwrap().terms, Vec::<String>::new());
}

#[test]
fn search_folds_a_non_latin_query() {
    let reply = search("привет42мир".as_bytes()).unwrap();
    assert_eq!(reply.terms, vec!["ПРИВЕТ", "42", "МИР"]);
}

#[test]
fn search_refuses_a_body_that_is_not_utf8() {
    assert_eq!(search(&[b'h', b'i', 0xff]), Err(QueryError::MalformedBody));
    assert_eq!(search(&[0xc3, 0x28]), Err(QueryError::MalformedBody));
}

#[test]
fn a_search_is_answered_with_its_results() {
    let reply = search_reply(search(b"anything at all"));
    assert_eq!(reply, Reply { status: 200, body: r#"["hello","world"]"#.to_string() });
    assert_eq!(search_reply(search(b"")), reply);
    assert_eq!(search_reply(search(b"something else")), reply);
}

#[test]
fn a_failed_search_is_answered_with_an_error_status() {
    assert_eq!(
        search_reply(search(&[0xff])),
        Reply { status: 400, body: "Bad request".to_string() }
    );
    assert_eq!(
        search_reply(Err(QueryError::Unserializable { message: "x".to_string() })),
        Reply { status: 500, body: "Internal server error".to_string() }
    );
}
