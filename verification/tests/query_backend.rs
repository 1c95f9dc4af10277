use starwars_search::backend::{bulk_endpoint, check_response, index_endpoint, search_endpoint};
use starwars_search::errors::PipelineError;
use starwars_search::query::build_query;

#[test]
fn query_document_for_a_plain_text() {
    assert_eq!(
        build_query("Yoda"),
        "{\"query\":{\"multi_match\":{\"query\":\"Yoda\",\"fields\":[\"name^10\",\"description\"]}}}"
    );
}

#[test]
fn query_text_is_escaped() {
    assert_eq!(
        build_query("a\"b"),
        "{\"query\":{\"multi_match\":{\"query\":\"a\\\"b\",\"fields\":[\"name^10\",\"description\"]}}}"
    );
}

#[test]
fn success_class_statuses_pass() {
    assert!(check_response(200, String::new()).is_ok());
    assert!(check_response(204, String::new()).is_ok());
    assert!(check_response(299, String::new()).is_ok());
}

#[test]
fn a_failing_status_carries_status_and_body() {
    let outcome = check_response(400, String::from("index_already_exists_exception"));
    match outcome {
        Ok(()) => panic!("a 400 response must fail the run"),
        Err(PipelineError::BackendRequest { status, body }) => {
            assert_eq!(status, 400);
            assert_eq!(body, "index_already_exists_exception");
        }
        Err(_) => panic!("a failing backend call must fail as a backend request error"),
    }
}

#[test]
fn statuses_outside_the_success_class_fail() {
    for status in [0u16, 100, 199, 300, 301, 404, 500, 503] {
        assert!(check_response(status, String::from("body")).is_err());
    }
}

#[test]
fn endpoints_follow_the_backend_protocol() {
    assert_eq!(index_endpoint("http://localhost:9200", "starwars"), "http://localhost:9200/starwars");
    assert_eq!(
        bulk_endpoint("http://localhost:9200", "starwars"),
        "http://localhost:9200/starwars/_doc/_bulk"
    );
    assert_eq!(
        search_endpoint("http://localhost:9200", "starwars"),
        "http://localhost:9200/starwars/_search"
    );
}
