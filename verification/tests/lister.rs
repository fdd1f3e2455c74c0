use model_lister::check_response;
use model_lister::collect_names;
use model_lister::HttpStatus;
use model_lister::ListError;
use model_lister::ModelListResponse;
use model_lister::ModelTag;
use model_lister::TAGS_ENDPOINT;

fn payload(names: &[&str]) -> ModelListResponse {
    ModelListResponse {
        models: names
            .iter()
            .map(|name| ModelTag { name: name.to_string() })
            .collect(),
    }
}

fn list(names: &[&str]) -> Vec<String> {
    names.iter().map(|name| name.to_string()).collect()
}

fn status(code: u16) -> HttpStatus {
    HttpStatus::from_u16(code).unwrap()
}

#[test]
fn the_endpoint_is_the_local_tags_address() {
    assert_eq!(TAGS_ENDPOINT, "http://127.0.0.1:11434/api/tags");
}

#[test]
fn a_successful_response_is_to_be_read() {
    assert_eq!(check_response(Ok(status(200))), Ok(()));
    assert_eq!(check_response(Ok(status(204))), Ok(()));
    assert_eq!(check_response(Ok(status(299))), Ok(()));
}

#[test]
fn a_payload_is_listed_sorted_and_without_duplicates() {
    assert_eq!(check_response(Ok(status(200))), Ok(()));
    let listed = collect_names(Ok(payload(&["b", "a", "a"])));
    assert_eq!(listed, Ok(list(&["a", "b"])));
}

#[test]
fn a_payload_without_models_is_an_empty_list() {
    assert_eq!(check_response(Ok(status(200))), Ok(()));
    assert_eq!(collect_names(Ok(payload(&[]))), Ok(Vec::new()));
}

#[test]
fn a_server_error_fails_with_the_status_in_the_message() {
    let checked = check_response(Ok(status(500)));
    assert_eq!(checked, Err(ListError::StatusFailure(status(500))));
    let message = checked.unwrap_err().message();
    assert!(message.contains("500"));
    assert_eq!(
        message,
        "ollama request failed with status 500 Internal Server Error"
    );
}

#[test]
fn every_status_outside_the_success_range_fails() {
    for code in [100, 199, 300, 301, 400, 404, 499, 503, 999] {
        assert_eq!(
            check_response(Ok(status(code))),
            Err(ListError::StatusFailure(status(code)))
        );
    }
}

#[test]
fn a_not_found_message_names_the_status() {
    assert_eq!(
        ListError::StatusFailure(status(404)).message(),
        "ollama request failed with status 404 Not Found"
    );
}

#[test]
fn a_body_without_models_fails_with_a_parse_message() {
    let cause = "error decoding response body: missing field `models` at line 1 column 2";
    let listed = collect_names(Err(cause.to_string()));
    assert_eq!(listed, Err(ListError::ParseFailure(cause.to_string())));
    assert_eq!(
        listed.unwrap_err().message(),
        format!("failed to parse ollama response: {}", cause)
    );
}

#[test]
fn an_unreachable_daemon_fails_with_a_connection_message() {
    let cause = "error sending request for url (http://127.0.0.1:11434/api/tags): connection refused";
    let checked = check_response(Err(cause.to_string()));
    assert_eq!(checked, Err(ListError::ConnectionFailure(cause.to_string())));
    assert_eq!(
        checked.unwrap_err().message(),
        format!("failed to connect ollama: {}", cause)
    );
}

#[test]
fn a_failure_with_an_empty_cause_keeps_the_fixed_part() {
    assert_eq!(
        ListError::ConnectionFailure(String::new()).message(),
        "failed to connect ollama: "
    );
    assert_eq!(
        ListError::ParseFailure(String::new()).message(),
        "failed to parse ollama response: "
    );
}

#[test]
fn listing_again_gives_the_same_list() {
    let first = collect_names(Ok(payload(&["mistral", "llama3", "mistral"])));
    let second = collect_names(Ok(payload(&["mistral", "llama3", "mistral"])));
    assert_eq!(first, Ok(list(&["llama3", "mistral"])));
    assert_eq!(first, second);
}

#[test]
fn listing_does_not_depend_on_the_order_of_the_report() {
    let first = collect_names(Ok(payload(&["phi3", "llama3", "mistral"])));
    let second = collect_names(Ok(payload(&["llama3", "mistral", "phi3", "phi3"])));
    assert_eq!(first, second);
}

#[test]
fn into_names_keeps_the_order_of_the_report() {
    assert_eq!(
        payload(&["b", "a", "a"]).into_names(),
        list(&["b", "a", "a"])
    );
    assert!(payload(&[]).into_names().is_empty());
}
