use socrates::api::{answer_query, command_accepted, route_request, target_name, Method, Query, Response, Route};
use socrates::error::Error;
use socrates::event::Event;
use socrates::registry::Registry;

struct Length;

impl Query<String> for Length {
    fn answer(&self, aggregate: String) -> Result<String, Error> {
        self.query(&aggregate)
    }

    fn query(&self, aggregate: &String) -> Result<String, Error> {
        if aggregate.is_empty() {
            Err(Error::new("empty"))
        } else {
            Ok(aggregate.len().to_string())
        }
    }
}

#[test]
fn get_runs_the_named_query() {
    let r = route_request(&Method::Get, "/GetFolderTree", String::new());
    assert_eq!(r, Route::Query("GetFolderTree".to_string()));
}

#[test]
fn post_takes_a_text_event() {
    let r = route_request(&Method::Post, "/CreateFolder", "{\"id\":1}".to_string());
    assert_eq!(
        r,
        Route::Command(Event::Text("CreateFolder".to_string(), "{\"id\":1}".to_string()))
    );
}

#[test]
fn other_methods_are_refused() {
    let r = route_request(&Method::Other, "", String::new());
    assert_eq!(
        r,
        Route::Reply(Response { status: 400, body: "Method is not supported".to_string() })
    );
}

#[test]
fn target_name_drops_the_slash() {
    assert_eq!(target_name("/a/b?c=1"), "a/b?c=1");
    assert_eq!(target_name("/"), "");
}

#[test]
fn queries_are_answered() {
    let mut queries: Registry<Length> = Registry::new();
    queries.insert("Length".to_string(), Length);
    let r = answer_query(&queries, "Length", &"abcd".to_string());
    assert_eq!(r, Ok(Response { status: 200, body: "4".to_string() }));
    let r = answer_query(&queries, "Width", &"abcd".to_string());
    assert_eq!(r, Ok(Response { status: 404, body: "Unknown query".to_string() }));
    let r = answer_query(&queries, "Length", &String::new());
    assert_eq!(r, Err(Error::new("empty")));
    assert_eq!(command_accepted(), Response { status: 200, body: String::new() });
}
