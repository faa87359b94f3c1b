use svc_bootstrap::error::AppError;
use svc_bootstrap::pipeline::error_http_response;
use svc_bootstrap::wire::find_header;

fn is_uuid_shaped(s: &str) -> bool {
    s.len() == 36
        && s.chars().enumerate().all(|(i, c)| {
            if i == 8 || i == 13 || i == 18 || i == 23 {
                c == '-'
            } else {
                c.is_ascii_hexdigit() && !c.is_ascii_uppercase()
            }
        })
}

#[test]
fn status_and_code_follow_the_table() {
    let cases: Vec<(AppError, u16, &str)> = vec![
        (AppError::bad_request("x"), 400, "bad_request"),
        (AppError::NotFound, 404, "not_found"),
        (AppError::Unauthorized, 401, "unauthorized"),
        (AppError::Forbidden, 403, "forbidden"),
        (AppError::Conflict { message: "clash".to_string() }, 409, "conflict"),
        (AppError::internal(), 500, "internal"),
    ];
    for (e, status, code) in cases {
        assert_eq!(e.status_code(), status);
        assert_eq!(e.error_code(), code);
    }
}

#[test]
fn error_id_is_present_iff_internal() {
    assert!(AppError::internal().to_response().error_id.is_some());
    assert!(AppError::bad_request("x").to_response().error_id.is_none());
    assert!(AppError::NotFound.to_response().error_id.is_none());
    assert!(AppError::Unauthorized.to_response().error_id.is_none());
    assert!(AppError::Forbidden.to_response().error_id.is_none());
    assert!(AppError::Conflict { message: "c".to_string() }.to_response().error_id.is_none());
}

#[test]
fn messages_surface_caller_text_only_where_allowed() {
    assert_eq!(AppError::bad_request("nope").public_message(), "nope");
    assert_eq!(
        AppError::Conflict { message: "already there".to_string() }.public_message(),
        "already there"
    );
    assert_eq!(AppError::NotFound.public_message(), "Not found");
    assert_eq!(AppError::internal().public_message(), "Internal server error");
}

#[test]
fn converting_the_same_internal_twice_gives_the_same_body() {
    let e = AppError::internal();
    let r1 = e.to_response();
    let r2 = e.to_response();
    assert_eq!(r1.code, r2.code);
    assert_eq!(r1.message, r2.message);
    assert_eq!(r1.error_id, r2.error_id);
}

#[test]
fn distinct_internal_errors_carry_distinct_ids() {
    let a = AppError::internal().to_response().error_id.unwrap();
    let b = AppError::internal().to_response().error_id.unwrap();
    assert_ne!(a, b);
}

#[test]
fn app_error_bad_request_converts_to_json_response() {
    let res = error_http_response(&AppError::bad_request("nope"));
    assert_eq!(res.status, 400);
    let content_type = find_header(&res.headers, "content-type").expect("content-type present");
    assert!(content_type.starts_with("application/json"));
    let json: serde_json::Value = serde_json::from_str(&res.body).expect("body parses");
    assert_eq!(json["code"], "bad_request");
    assert_eq!(json["message"], "nope");
    assert!(json["error_id"].is_null());
    assert!(res.body.contains("\"message\":\"nope\""));
}

#[test]
fn app_error_internal_converts_to_500() {
    let res = error_http_response(&AppError::internal());
    assert_eq!(res.status, 500);
    let json: serde_json::Value = serde_json::from_str(&res.body).expect("body parses");
    assert_eq!(json["code"], "internal");
    assert_eq!(json["message"], "Internal server error");
    let id = json["error_id"].as_str().expect("error_id present");
    assert!(is_uuid_shaped(id), "error_id must look like a uuid: {id}");
}

#[test]
fn internal_ids_are_uuid_shaped() {
    match AppError::internal() {
        AppError::Internal { error_id } => assert!(is_uuid_shaped(&error_id)),
        other => panic!("internal() must build Internal, got {:?}", other),
    }
}

#[test]
fn error_bodies_escape_quotes_and_controls() {
    let res = error_http_response(&AppError::bad_request("say \"hi\"\n\\done\u{1}"));
    let json: serde_json::Value = serde_json::from_str(&res.body).expect("body parses");
    assert_eq!(json["message"], "say \"hi\"\n\\done\u{1}");
    assert!(res.body.contains("\\\"hi\\\""));
    assert!(res.body.contains("\\n"));
    assert!(res.body.contains("\\u0001"));
}
