use placeclient::archive::{archive_path, entry_header, ImageCounter, ENTRY_MODE, IMAGES_PER_ARCHIVE};
use placeclient::json::{Json, JsonNumber};
use placeclient::session::{
    access_token, auth_url, bearer, connection_init, reconnect_delay_secs, session_start_line,
    trim_end_str,
};

#[test]
fn auth_url_trims_credentials() {
    assert_eq!(
        auth_url("me\n", "secret \n"),
        "https://www.reddit.com/api/v1/access_token?grant_type=password&username=me&password=secret"
    );
}

#[test]
fn token_from_reply() {
    let reply = Json::Object(vec![
        ("access_token".to_string(), Json::Text("abc".to_string())),
        ("expires_in".to_string(), Json::Number(JsonNumber { int: Some(3600), text: "3600".to_string() })),
    ]);
    assert_eq!(access_token(&reply), Ok("abc".to_string()));
}

#[test]
fn token_errors() {
    assert_eq!(access_token(&Json::Null), Err("fail json->as_object".to_string()));
    assert_eq!(access_token(&Json::Object(vec![])), Err("fail json->access_token".to_string()));
    let reply = Json::Object(vec![("access_token".to_string(), Json::Bool(true))]);
    assert_eq!(access_token(&reply), Err("fail json->access_token->as_str".to_string()));
}

#[test]
fn session_texts() {
    assert_eq!(bearer("tok"), "Bearer tok");
    assert_eq!(
        connection_init("Bearer tok"),
        "{ \"type\": \"connection_init\", \"payload\": { \"Authorization\": \"Bearer tok\"} }"
    );
    assert_eq!(session_start_line(1649033631577), "start session 1649033631577\n");
    assert_eq!(trim_end_str("id\r\n"), "id");
}

#[test]
fn archive_names() {
    assert_eq!(archive_path(1649033631577), "/mnt/hdd/place2/1649033631577.tar.gz");
    let h = entry_header("https://hot-potato.reddit.com/media/canvas-images/1649033-0-f-abc.png\n", 1234);
    assert_eq!(h.path, "1649033-0-f-abc.png\n");
    assert_eq!(h.owner, "placeclient");
    assert_eq!(h.mode, ENTRY_MODE);
    assert_eq!(h.size, 1234);
}

#[test]
fn archive_rotates_after_each_1024_images() {
    let mut c = ImageCounter::new();
    let mut rotations = Vec::new();
    for n in 1..=3000u32 {
        if c.record() {
            rotations.push(n);
        }
    }
    assert_eq!(IMAGES_PER_ARCHIVE, 1024);
    assert_eq!(rotations, vec![1024, 2048]);
    assert_eq!(c.count(), 3000 - 2048);
}

#[test]
fn reconnect_waits_only_after_errors() {
    assert_eq!(reconnect_delay_secs(true), 10);
    assert_eq!(reconnect_delay_secs(false), 0);
}
