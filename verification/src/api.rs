use vstd::prelude::*;

use crate::error::Error;
use crate::event::Event;
use crate::registry::Registry;

verus! {

/// The method of an HTTP request, as far as the service tells them apart.
#[derive(Debug, PartialEq, Eq)]
pub enum Method {
    Get,
    Post,
    Other,
}

/// An HTTP response: its status code and its body.
#[derive(Debug, PartialEq, Eq)]
pub struct Response {
    pub status: u16,
    pub body: String,
}

/// A query reads the aggregate and answers with text.
///
/// Answering must depend on the aggregate alone.
pub trait Query<A> {
    /// The answer to the query on `aggregate`.
    spec fn answer(&self, aggregate: A) -> Result<String, Error>;

    /// Runs the query on `aggregate`.
    fn query(&self, aggregate: &A) -> (r: Result<String, Error>)
        ensures
            r == self.answer(*aggregate),
    ;
}

/// What a request asks the service to do.
#[derive(Debug, PartialEq, Eq)]
pub enum Route {
    /// Run the query with this name and answer with its result.
    Query(String),
    /// Take this event and answer with an empty body.
    Command(Event),
    /// Answer at once with this response.
    Reply(Response),
}

/// Whether the first byte of `url` ends its first character, so that the
/// rest of `url` after it is a string.
pub open spec fn has_name(url: Seq<char>) -> bool {
    url.len() > 0 && (url[0] as u32) < 0x80
}

/// The status code of a successful request.
pub open spec fn status_ok() -> u16 {
    200
}

/// The status code of a request for a query that is not registered.
pub open spec fn status_not_found() -> u16 {
    404
}

/// The status code of a request with a method that is not supported.
pub open spec fn status_bad_request() -> u16 {
    400
}

/// The name that a request target stands for: the target without its first
/// character, the slash.
pub fn target_name(url: &str) -> (name: String)
    requires
        has_name(url@),
    ensures
        name@ == url@.drop_first(),
{
    let len = url.unicode_len();
    url.substring_char(1, len).to_owned()
}

/// Decides what the request with method `method`, target `url` and body
/// `body` asks for: a `GET` runs the query named by the target, a `POST`
/// takes a text event whose source is named by the target and whose text is
/// the body, and any other method is refused with status 400.
pub fn route_request(method: &Method, url: &str, body: String) -> (r: Route)
    requires
        *method is Other || has_name(url@),
    ensures
        match *method {
            Method::Get => r matches Route::Query(name) && name@ == url@.drop_first(),
            Method::Post => r matches Route::Command(Event::Text(source, text)) && source@
                == url@.drop_first() && text == body,
            Method::Other => r matches Route::Reply(response) && response.status
                == status_bad_request() && response.body@ == "Method is not supported"@,
        },
{
    match method {
        Method::Get => Route::Query(target_name(url)),
        Method::Post => Route::Command(Event::Text(target_name(url), body)),
        Method::Other => Route::Reply(
            Response { status: 400, body: "Method is not supported".to_owned() },
        ),
    }
}

/// Answers the query named `name` on `aggregate`: with status 404 and the
/// body `Unknown query` when no query has that name, with status 200 and the
/// query's answer when it succeeds, and with the query's error otherwise.
pub fn answer_query<A, Q: Query<A>>(queries: &Registry<Q>, name: &str, aggregate: &A) -> (r: Result<
    Response,
    Error,
>)
    ensures
        !queries@.contains_key(name@) ==> (r matches Ok(response) && response.status
            == status_not_found() && response.body@ == "Unknown query"@),
        queries@.contains_key(name@) ==> match queries@[name@].answer(*aggregate) {
            Ok(text) => r matches Ok(response) && response.status == status_ok() && response.body
                == text,
            Err(e) => r == Err::<Response, Error>(e),
        },
{
    match queries.get(name) {
        None => Ok(Response { status: 404, body: "Unknown query".to_owned() }),
        Some(query) => match query.query(aggregate) {
            Ok(text) => Ok(Response { status: 200, body: text }),
            Err(e) => Err(e),
        },
    }
}

/// The response to a command that was taken: status 200 and an empty body.
pub fn command_accepted() -> (r: Response)
    ensures
        r.status == status_ok(),
        r.body@ == Seq::<char>::empty(),
{
    Response { status: 200, body: String::new() }
}

} // verus!
