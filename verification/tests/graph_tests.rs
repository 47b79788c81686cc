use graph_export::graph::{
    graph_url, lists_url, tasks_url, DateTimeTimeZone, ErrorResponse, ErrorResponseError,
    ErrorResponseErrorInnerError, Response, GRAPH_BASE_URI,
};
use graph_export::reader::{Collection, CollectionReader, OData};
use graph_export::todo::OutputList;

#[test]
fn graph_url_appends_the_path() {
    assert_eq!(graph_url("/me/todo/lists"), "https://graph.microsoft.com/beta/me/todo/lists");
    assert_eq!(graph_url(""), GRAPH_BASE_URI);
}

#[test]
fn lists_url_is_fixed() {
    assert_eq!(lists_url(), "https://graph.microsoft.com/beta/me/todo/lists");
}

#[test]
fn tasks_url_holds_the_list_id() {
    assert_eq!(tasks_url("AB12"), "https://graph.microsoft.com/beta/me/todo/lists/AB12/tasks");
}

#[test]
fn response_success_is_ok() {
    let r: Response<u8> = Response::Success(7);
    assert_eq!(r.into_result().ok(), Some(7));
}

#[test]
fn response_error_is_err() {
    let e = ErrorResponse {
        error: ErrorResponseError {
            code: "denied".to_string(),
            message: "no".to_string(),
            inner_error: ErrorResponseErrorInnerError {
                date: "2021-01-01".to_string(),
                request_id: "r".to_string(),
                client_request_id: "c".to_string(),
            },
        },
    };
    let r: Response<u8> = Response::Error(e);
    let back = r.into_result().err().unwrap();
    assert_eq!(back.error.code, "denied");
    assert_eq!(back.error.message, "no");
    assert_eq!(back.error.inner_error.date, "2021-01-01");
    assert_eq!(back.error.inner_error.request_id, "r");
    assert_eq!(back.error.inner_error.client_request_id, "c");
}

#[test]
fn date_time_time_zone_holds_both() {
    let d = DateTimeTimeZone { date_time: "2021-05-01T10:00:00".to_string(), time_zone: "UTC".to_string() };
    assert_eq!(d.date_time, "2021-05-01T10:00:00");
    assert_eq!(d.time_zone, "UTC");
}

#[test]
fn output_list_collects_each_task_once() {
    let mut reader = CollectionReader::new();
    reader
        .fetch(Ok(Collection {
            value: vec!["t1".to_string(), "t2".to_string()],
            odata: OData { context: None, next_link: Some("n".to_string()) },
        }))
        .unwrap();
    reader
        .fetch(Ok(Collection {
            value: vec!["t3".to_string()],
            odata: OData { context: None, next_link: None },
        }))
        .unwrap();
    let list = OutputList::collect("Tasks".to_string(), "L1".to_string(), "defaultList", reader);
    assert_eq!(list.display_name, "Tasks");
    assert_eq!(list.id, "L1");
    assert_eq!(list.wellknown_list_name, "defaultList");
    assert_eq!(list.children, vec!["t1", "t2", "t3"]);
}
