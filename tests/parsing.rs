use kmamiz_data_processor::json_utils::{merge, to_types, type_of, JsonValue};
use kmamiz_data_processor::log_matcher::LogMatcher;
use kmamiz_data_processor::request_type::{
    EndpointDependencyType, LogType, RecordType, RequestType,
};
use kmamiz_data_processor::url_matcher::{ExplodedUrl, UrlMatcher};

fn some(s: &str) -> Option<String> {
    Some(s.to_owned())
}

#[test]
fn test_url_matcher() {
    let matcher = UrlMatcher::new();
    let res = matcher.explode_url("http://example.com:8080/test/test", false);
    assert_eq!(
        res,
        ExplodedUrl {
            host: some("example.com"),
            port: some(":8080"),
            path: some("/test/test"),
            service_name: None,
            namespace: None,
            cluster_name: None,
        }
    );

    let res = matcher.explode_url("https://192.168.1.1/test#123", false);
    assert_eq!(
        res,
        ExplodedUrl {
            host: some("192.168.1.1"),
            port: some(""),
            path: some("/test#123"),
            service_name: None,
            namespace: None,
            cluster_name: None,
        }
    );

    let res = matcher.explode_url("service.test.svc.cluster.local:80/test/endpoint", false);
    assert_eq!(
        res,
        ExplodedUrl {
            host: some("service.test.svc.cluster.local"),
            port: some(":80"),
            path: some("/test/endpoint"),
            service_name: None,
            namespace: None,
            cluster_name: None,
        }
    );

    let res = matcher.explode_url("service.test.svc.cluster.local:80/test/endpoint", true);
    assert_eq!(
        res,
        ExplodedUrl {
            host: some("service.test.svc.cluster.local"),
            port: some(":80"),
            path: some("/test/endpoint"),
            service_name: some("service"),
            namespace: some("test"),
            cluster_name: some("cluster.local"),
        }
    );
}

#[test]
fn url_service_without_cluster() {
    let matcher = UrlMatcher::new();
    let res = matcher.explode_url("user.pdas.svc:8080/api", true);
    assert_eq!(res.host, some("user.pdas.svc"));
    assert_eq!(res.port, some(":8080"));
    assert_eq!(res.path, some("/api"));
    assert_eq!(res.service_name, some("user"));
    assert_eq!(res.namespace, some("pdas"));
    assert_eq!(res.cluster_name, some(""));
}

#[test]
fn url_host_that_is_no_service_name() {
    let matcher = UrlMatcher::new();
    let res = matcher.explode_url("http://example.com/index.html", true);
    assert_eq!(res.host, some("example.com"));
    assert_eq!(res.port, some(""));
    assert_eq!(res.path, some("/index.html"));
    assert_eq!(res.service_name, None);
    assert_eq!(res.namespace, None);
    assert_eq!(res.cluster_name, None);
}

const REQUEST_LINE: &str = "2023-01-03T06:03:38.005654Z\tpdas\tuser-service-abc123-def456\t[Request 669084db-e52d-9825-8d03-aab35afa6f4a/dad62e0cb93a980cc6bba3d0762fefc8/d40b8bb597882141/c6bba3d0762fefc8] [GET /internal/user/verify] [ContentType application/json]";

#[test]
fn test_create_log() {
    let matcher = LogMatcher::new();
    let res = matcher.parse_log(REQUEST_LINE.to_owned());
    assert!(res.is_ok());
    let res = res.unwrap();
    assert_eq!(res.timestamp, 1672725818005);
    let res = matcher.parse_log("2023-01-03T06:03:38.005671Z\tpdas\tuser-service-abc123-def456\t[Response 669084db-e52d-9825-8d03-aab35afa6f4a/dad62e0cb93a980cc6bba3d0762fefc8/3f0ebe8b94ab3156/ab22aec8ee300093] [Status] 200 [ContentType application/json] [Body] null".to_owned());
    assert!(res.is_ok());
    println!("{:?}", res.unwrap());
}

#[test]
fn log_request_line_fields() {
    let res = LogMatcher::new().parse_log(REQUEST_LINE.to_owned()).unwrap();
    assert_eq!(res.log_type, LogType::Req);
    assert_eq!(res.timestamp, 1672725818005);
    assert_eq!(res.namespace, "pdas");
    assert_eq!(res.pod_name, "user-service-abc123-def456");
    assert_eq!(res.request_id, "669084db-e52d-9825-8d03-aab35afa6f4a");
    assert_eq!(res.trace_id, "dad62e0cb93a980cc6bba3d0762fefc8");
    assert_eq!(res.span_id, "d40b8bb597882141");
    assert_eq!(res.parent_span_id, "c6bba3d0762fefc8");
    assert_eq!(res.method, Some(RequestType::Get));
    assert_eq!(res.content_type, some("application/json"));
    assert_eq!(res.path, some("/internal/user/verify"));
    assert_eq!(res.body, None);
    assert_eq!(res.status, None);
}

#[test]
fn log_response_line_fields() {
    let res = LogMatcher::new().parse_log("2023-01-03T06:03:38.005671Z\tpdas\tuser-service-abc123-def456\t[Response 669084db-e52d-9825-8d03-aab35afa6f4a/dad62e0cb93a980cc6bba3d0762fefc8/3f0ebe8b94ab3156/ab22aec8ee300093] [Status] 200 [ContentType application/json] [Body] {\"ok\":true}".to_owned()).unwrap();
    assert_eq!(res.log_type, LogType::Res);
    assert_eq!(res.status, some("200"));
    assert_eq!(res.body, some("{\"ok\":true}"));
    assert_eq!(res.content_type, some("application/json"));
    assert_eq!(res.span_id, "3f0ebe8b94ab3156");
    assert_eq!(res.method, None);
    assert_eq!(res.path, None);
}

#[test]
fn log_with_too_few_fields() {
    let err = LogMatcher::new()
        .parse_log("2023-01-03T06:03:38.005654Z\tpdas\tpod".to_owned())
        .unwrap_err();
    assert_eq!(err.cause, "incorrect log tokens");
}

#[test]
fn log_with_bad_time() {
    let err = LogMatcher::new()
        .parse_log("yesterday\tpdas\tpod\t[Request a/b/c/d]".to_owned())
        .unwrap_err();
    assert_eq!(err.cause, "incorrect timestamp");
}

#[test]
fn log_without_metadata() {
    let err = LogMatcher::new()
        .parse_log("2023-01-03T06:03:38.005654Z\tpdas\tpod\t[GET /x]".to_owned())
        .unwrap_err();
    assert_eq!(err.cause, "incorrect metadata tokens");
}

#[test]
fn request_type_from_str() {
    assert_eq!(RequestType::from_str("get"), Ok(RequestType::Get));
    assert_eq!(RequestType::from_str("Delete"), Ok(RequestType::Delete));
    assert_eq!(RequestType::from_str("TRACE"), Ok(RequestType::Trace));
    assert!(RequestType::from_str("FETCH").is_err());
    assert_eq!(EndpointDependencyType::from_str("client"), Ok(EndpointDependencyType::Client));
    assert!(EndpointDependencyType::from_str("peer").is_err());
    assert_eq!(LogType::from_str("response"), Ok(LogType::Res));
    assert_eq!(LogType::from_str("Req"), Ok(LogType::Req));
    assert!(LogType::from_str("log").is_err());
    assert_eq!(RecordType::from_str("REQUEST"), Ok(RecordType::Req));
    assert!(RecordType::from_str("").is_err());
}

fn to_json(v: &serde_json::Value) -> JsonValue {
    match v {
        serde_json::Value::Null => JsonValue::Null,
        serde_json::Value::Bool(b) => JsonValue::Bool(*b),
        serde_json::Value::Number(n) => JsonValue::Number(n.to_string()),
        serde_json::Value::String(s) => JsonValue::String(s.clone()),
        serde_json::Value::Array(a) => JsonValue::Array(a.iter().map(to_json).collect()),
        serde_json::Value::Object(m) => {
            JsonValue::Object(m.iter().map(|(k, v)| (k.clone(), to_json(v))).collect())
        }
    }
}

fn from_json(v: &JsonValue) -> serde_json::Value {
    match v {
        JsonValue::Null => serde_json::Value::Null,
        JsonValue::Bool(b) => serde_json::Value::Bool(*b),
        JsonValue::Number(n) => serde_json::from_str(n).unwrap(),
        JsonValue::String(s) => serde_json::Value::String(s.clone()),
        JsonValue::Array(a) => serde_json::Value::Array(a.iter().map(from_json).collect()),
        JsonValue::Object(f) => {
            let mut m = serde_json::Map::new();
            for (k, v) in f {
                m.insert(k.clone(), from_json(v));
            }
            serde_json::Value::Object(m)
        }
    }
}

fn parse(text: &str) -> JsonValue {
    to_json(&serde_json::from_str::<serde_json::Value>(text).unwrap())
}

#[test]
fn test_object_to_schema() {
    let json = r#"
      {
        "testNumber": 123,
        "testString": "test",
        "testArray": [1, 2, 3],
        "testObjArray": [{ "test": 123, "text": "test" }],
        "testObj": {
          "text": "test",
          "test": 1.1
        }
      }
    "#;
    let ans = r#"type Root = {
  testArray: number[];
  testNumber: number;
  testObj: TestObj;
  testObjArray: TestObj[];
  testString: string;
};
type TestObj = {
  test: number;
  text: string;
};"#;
    let res = to_types(parse(json));
    assert_eq!(res, ans);

    let json = r#"[
      {
        "id": "61d58fabd7cb2766e01db3c6",
        "originId": null,
        "ordinaryUserName": null,
        "dataRequesterName": "新創公司A",
        "dataHolderName": "台灣電力公司",
        "firstSignDate": 0,
        "secondSignDate": 0,
        "signState": 0
      },
      {
        "id": "61d58facd7cb2766e01db7b0",
        "originId": null,
        "ordinaryUserName": null,
        "dataRequesterName": "新創公司A",
        "dataHolderName": "台灣電力公司",
        "firstSignDate": 0,
        "secondSignDate": 0,
        "signState": -3
      }
    ]"#;
    let ans = r#"type Root = Array<ArrayItem>;
type ArrayItem = {
  dataHolderName: string;
  dataRequesterName: string;
  firstSignDate: number;
  id: string;
  ordinaryUserName?: unknown;
  originId?: unknown;
  secondSignDate: number;
  signState: number;
};"#;
    let res = to_types(parse(json));
    assert_eq!(res, ans);
}

#[test]
fn test_obj_merging() {
    let obj_a = parse(r#"{"name":"test","nestObj":{"time":123}}"#);
    let obj_b = parse(r#"{"id":"123","nestObj":{"id":"123","array":[1,2,3,4,5]}}"#);
    let merged = merge(vec![obj_a, obj_b]);
    assert_eq!(
        from_json(&merged),
        serde_json::from_str::<serde_json::Value>(
            r#"{"name":"test","nestObj":{"id":"123","array":[1,2,3,4,5]},"id":"123"}"#
        )
        .unwrap()
    );

    let obj_a = parse(r#"[{"name":"123"},{"name":"234","id":123}]"#);
    let obj_b = parse(r#"[{"name":"456"},{"id":234},{"id":1234,"array":[1,2,3,4,5]}]"#);
    let merged = merge(vec![obj_a, obj_b]);
    assert_eq!(
        from_json(&merged),
        serde_json::from_str::<serde_json::Value>(
            r#"[{"name":"123"},{"name":"234","id":123},{"name":"456"},{"id":234},{"id":1234,"array":[1,2,3,4,5]}]"#
        )
        .unwrap()
    );
}

#[test]
fn merge_ignores_non_objects_and_empty_input() {
    let merged = merge(vec![parse(r#"{"a":1}"#), parse("3"), parse(r#"{"b":true}"#)]);
    assert_eq!(
        from_json(&merged),
        serde_json::from_str::<serde_json::Value>(r#"{"a":1,"b":true}"#).unwrap()
    );
    let merged = merge(vec![]);
    assert_eq!(from_json(&merged), serde_json::from_str::<serde_json::Value>("{}").unwrap());
    let merged = merge(vec![parse("[1]"), parse("2")]);
    assert_eq!(from_json(&merged), serde_json::from_str::<serde_json::Value>("[1,2]").unwrap());
}

#[test]
fn schema_of_scalars_and_empty_arrays() {
    let mut addons = Vec::new();
    assert_eq!(type_of("x", &JsonValue::Null, &mut addons), None);
    assert_eq!(type_of("x", &parse("true"), &mut addons), Some("boolean".to_owned()));
    assert_eq!(type_of("x", &parse("[]"), &mut addons), Some("unknown[]".to_owned()));
    assert_eq!(type_of("x", &parse("[[\"a\"]]"), &mut addons), Some("string[][]".to_owned()));
    assert!(addons.is_empty());
    assert_eq!(to_types(parse(r#"{"a":null}"#)), "type Root = {\n  a?: unknown;\n};\n");
}

#[test]
fn schema_reuses_the_shorter_name() {
    let res = to_types(parse(r#"{"longName":{"v":1},"ab":{"v":2}}"#));
    assert_eq!(
        res,
        "type Root = {\n  ab: Ab;\n  longName: Ab;\n};\ntype Ab = {\n  v: number;\n};"
    );
}

#[test]
fn reads_script_lines_of_a_pod_log() {
    let text = "2023-01-03T06:03:38.005654Z\twarning\tenvoy lua\tscript log: pdas\tuser-abc\t[Request r-1/t1/s1/x1] [GET /api]\n\
2023-01-03T06:03:38.005654Z\tinfo\tenvoy main\tstarting\n\
2023-01-03T06:03:38.007000Z\twarning\tenvoy wasm\twasm log kmamiz: pdas\tuser-abc\t[Response r-1/t1/s2/s1] [Status] 200\n\
2023-01-03T06:03:38.007000Z\twarning\tenvoy lua\tscript log: garbage";
    let logs = LogMatcher::new().parse_pod_logs(text);
    assert_eq!(logs.len(), 2);
    assert_eq!(logs[0].log_type, LogType::Req);
    assert_eq!(logs[0].namespace, "pdas");
    assert_eq!(logs[0].request_id, "r-1");
    assert_eq!(logs[0].path, some("/api"));
    assert_eq!(logs[1].log_type, LogType::Res);
    assert_eq!(logs[1].status, some("200"));
    assert_eq!(logs[1].timestamp, 1672725818007);
    assert!(LogMatcher::new().parse_pod_logs("").is_empty());
}
