//! The decisions of the query front-end: where a request goes, and what a
//! search answers.
//!
//! No ranking exists yet. A search tokenizes the query as indexing tokenizes
//! a document, and answers with a fixed list that stands in for the results.

use crate::lexer::{canonical_tokens, tokenize};
use crate::store::{json_list_text, save_list};
use crate::text::decode;
use vstd::prelude::*;
use vstd::utf8::{decode_utf8, valid_utf8};

verus! {

/// The request methods that the front-end tells apart.
#[derive(Clone, Copy, Debug, PartialEq, Eq, Structural)]
pub enum Method {
    Get,
    Post,
    Other,
}

/// The static assets that the front-end serves.
#[derive(Clone, Copy, Debug, PartialEq, Eq, Structural)]
pub enum Asset {
    /// The search page.
    Page,
    /// The script of the search page.
    Script,
}

/// Where a request goes.
#[derive(Clone, Copy, Debug, PartialEq, Eq, Structural)]
pub enum Route {
    /// The search operation; the request's body is the query.
    Search,
    /// A static asset.
    Static(Asset),
    /// Nothing is served under this method and path.
    NotFound,
}

/// The route of a request: `POST /api/search` is the search, `GET /` and
/// `GET /index.html` are the page, `GET /index.js` is its script, and
/// everything else is not found.
pub open spec fn route_of(method: Method, url: Seq<char>) -> Route {
    match method {
        Method::Post => if url == "/api/search"@ {
            Route::Search
        } else {
            Route::NotFound
        },
        Method::Get => if url == "/"@ || url == "/index.html"@ {
            Route::Static(Asset::Page)
        } else if url == "/index.js"@ {
            Route::Static(Asset::Script)
        } else {
            Route::NotFound
        },
        Method::Other => Route::NotFound,
    }
}

/// Decides where a request goes.
pub fn route(method: Method, url: &str) -> (route: Route)
    ensures
        route == route_of(method, url@),
{
    match method {
        Method::Post => if url.eq("/api/search") {
            Route::Search
        } else {
            Route::NotFound
        },
        Method::Get => if url.eq("/") || url.eq("/index.html") {
            Route::Static(Asset::Page)
        } else if url.eq("/index.js") {
            Route::Static(Asset::Script)
        } else {
            Route::NotFound
        },
        Method::Other => Route::NotFound,
    }
}

/// The file that holds an asset.
pub fn asset_file(asset: Asset) -> (path: &'static str)
    ensures
        path@ == match asset {
            Asset::Page => "index.html"@,
            Asset::Script => "index.js"@,
        },
{
    match asset {
        Asset::Page => "index.html",
        Asset::Script => "index.js",
    }
}

/// The content type under which an asset is served.
pub fn asset_content_type(asset: Asset) -> (content_type: &'static str)
    ensures
        content_type@ == match asset {
            Asset::Page => "text/html; charset=utf-8"@,
            Asset::Script => "text/javascript; charset=utf-8"@,
        },
{
    match asset {
        Asset::Page => "text/html; charset=utf-8",
        Asset::Script => "text/javascript; charset=utf-8",
    }
}

/// The list that stands in for search results until there is a ranking.
pub open spec fn placeholder_results() -> Seq<Seq<char>> {
    seq!["hello"@, "world"@]
}

/// The answer to a search.
#[derive(Clone, Debug, PartialEq, Eq)]
pub struct SearchReply {
    /// The canonical tokens of the query.
    pub terms: Vec<String>,
    /// The results.
    pub results: Vec<String>,
    /// The results as a JSON array, the body of the response.
    pub body: String,
}

/// Why a search could not be answered.
#[derive(Clone, Debug, PartialEq, Eq)]
pub enum QueryError {
    /// The request's body is not valid UTF-8.
    MalformedBody,
    /// The results could not be written as JSON.
    Unserializable { message: String },
}

/// Builds the list that stands in for search results.
pub fn placeholder() -> (results: Vec<String>)
    ensures
        results.deep_view() == placeholder_results(),
{
    let mut results: Vec<String> = Vec::new();
    results.push("hello".to_owned());
    results.push("world".to_owned());
    assert(results.deep_view() =~= placeholder_results());
    results
}

/// Answers a search. The body is decoded as UTF-8 and tokenized exactly as a
/// document would be. The results are the same fixed list whatever the query
/// is. A body that is not valid UTF-8 is refused, and nothing else is.
pub fn search(body: &[u8]) -> (outcome: Result<SearchReply, QueryError>)
    ensures
        match outcome {
            Ok(reply) => {
                &&& valid_utf8(body@)
                &&& reply.terms.deep_view() == canonical_tokens(decode_utf8(body@))
                &&& reply.results.deep_view() == placeholder_results()
                &&& reply.body@ == json_list_text(placeholder_results())
            },
            Err(error) => !valid_utf8(body@) && error == QueryError::MalformedBody,
        },
{
    let query = match decode(body) {
        Some(query) => query,
        None => {
            return Err(QueryError::MalformedBody);
        },
    };
    let terms = tokenize(query.as_slice());
    let results = placeholder();
    match save_list(&results) {
        Ok(body) => Ok(SearchReply { terms, results, body }),
        Err(error) => Err(QueryError::Unserializable { message: error.message }),
    }
}

/// An answer that is sent as text: its status code and its body.
#[derive(Clone, Debug, PartialEq, Eq)]
pub struct Reply {
    pub status: u16,
    pub body: String,
}

/// The status code that a search is answered with: success, the client's
/// fault where the body was malformed, and the server's fault otherwise.
pub open spec fn status_of(outcome: Result<SearchReply, QueryError>) -> u16 {
    match outcome {
        Ok(_) => 200,
        Err(QueryError::MalformedBody) => 400,
        Err(QueryError::Unserializable { .. }) => 500,
    }
}

/// The body that a search is answered with: the results as JSON, or a word
/// on what went wrong.
pub open spec fn body_of(outcome: Result<SearchReply, QueryError>) -> Seq<char> {
    match outcome {
        Ok(reply) => reply.body@,
        Err(QueryError::MalformedBody) => "Bad request"@,
        Err(QueryError::Unserializable { .. }) => "Internal server error"@,
    }
}

/// The answer that is sent for the outcome of a search. A search that failed
/// is answered too: its failure goes to the client that caused it and to
/// nobody else.
pub fn search_reply(outcome: Result<SearchReply, QueryError>) -> (reply: Reply)
    ensures
        reply.status == status_of(outcome),
        reply.body@ == body_of(outcome),
{
    match outcome {
        Ok(found) => Reply { status: 200, body: found.body },
        Err(QueryError::MalformedBody) => Reply { status: 400, body: "Bad request".to_owned() },
        Err(QueryError::Unserializable { .. }) => Reply {
            status: 500,
            body: "Internal server error".to_owned(),
        },
    }
}

/// The answer to a request that goes nowhere.
pub fn not_found_reply() -> (reply: Reply)
    ensures
        reply.status == 404,
        reply.body@ == "Not found"@,
{
    Reply { status: 404, body: "Not found".to_owned() }
}

} // verus!
