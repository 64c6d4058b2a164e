use placeclient::json::{Json, JsonNumber};
use placeclient::scrape::{Effect, Flow, Frame, Scraper};

fn text(s: &str) -> Json {
    Json::Text(s.to_string())
}

fn obj(members: Vec<(&str, Json)>) -> Json {
    Json::Object(members.into_iter().map(|(k, v)| (k.to_string(), v)).collect())
}

fn num(i: i64) -> Json {
    Json::Number(JsonNumber { int: Some(i), text: i.to_string() })
}

fn data_message(inner: Json) -> Frame {
    Frame::Text {
        raw: "raw".to_string(),
        json: obj(vec![
            ("type", text("data")),
            ("payload", obj(vec![("data", obj(vec![("subscribe", obj(vec![("data", inner)]))]))])),
        ]),
    }
}

fn diff_frame(url: &str, time: &str) -> Frame {
    data_message(obj(vec![
        ("__typename", text("DiffFrameMessageData")),
        ("name", text(url)),
        ("currentTimestamp", Json::Number(JsonNumber { int: None, text: time.to_string() })),
    ]))
}

#[test]
fn new_frame_is_forwarded_logged_and_printed() {
    let mut s = Scraper::new("sub PUTTHETAGHERE");
    let step = s.handle(&diff_frame("https://x/y/abc.png", "1649033631577.5"));
    assert_eq!(step.flow, Flow::Continue);
    assert_eq!(
        step.actions,
        vec![
            Effect::Forward("https://x/y/abc.png\n".to_string()),
            Effect::Log("diff 1649033631577.5 abc.png\n".to_string()),
            Effect::Print("diff 1649033631577.5 abc.png".to_string()),
        ]
    );
}

#[test]
fn repeated_frame_is_only_reported() {
    let mut s = Scraper::new("");
    s.handle(&diff_frame("https://x/y/abc.png", "1"));
    let step = s.handle(&diff_frame("https://x/y/abc.png", "2"));
    assert_eq!(step.actions, vec![Effect::Print("dupe https://x/y/abc.png".to_string())]);
    assert_eq!(step.flow, Flow::Continue);
}

#[test]
fn image_urls_are_remembered_not_forwarded() {
    let mut s = Scraper::new("");
    let step = s.handle(&diff_frame("https://x/y/image", "1"));
    assert!(step.actions.is_empty());
    let again = s.handle(&diff_frame("https://x/y/image", "1"));
    assert_eq!(again.actions, vec![Effect::Print("dupe https://x/y/image".to_string())]);
}

#[test]
fn full_frame_uses_timestamp() {
    let mut s = Scraper::new("");
    let f = data_message(obj(vec![
        ("__typename", text("FullFrameMessageData")),
        ("name", text("https://x/full.png")),
        ("timestamp", num(7)),
    ]));
    let step = s.handle(&f);
    assert_eq!(step.actions[1], Effect::Log("full 7 full.png\n".to_string()));
}

#[test]
fn missing_timestamp_fails_but_url_is_remembered() {
    let mut s = Scraper::new("");
    let f = data_message(obj(vec![("__typename", text("DiffFrameMessageData")), ("name", text("u"))]));
    let step = s.handle(&f);
    assert_eq!(step.flow, Flow::Fail("diff: fail currentTimestamp".to_string()));
    let again = s.handle(&diff_frame("u", "1"));
    assert_eq!(again.actions, vec![Effect::Print("dupe u".to_string())]);
}

#[test]
fn configuration_subscribes_once_per_canvas() {
    let mut s = Scraper::new("{\"id\":\"PUTTHETAGHERE\",\"tag\":PUTTHETAGHERE}");
    let canvas = |i: i64| obj(vec![("index", num(i)), ("dx", num(i * 1000)), ("dy", num(-5))]);
    let f = data_message(obj(vec![
        ("__typename", text("ConfigurationMessageData")),
        ("canvasConfigurations", Json::Array(vec![canvas(0), canvas(1), canvas(0)])),
    ]));
    let step = s.handle(&f);
    assert_eq!(step.flow, Flow::Continue);
    assert_eq!(
        step.actions,
        vec![
            Effect::Log("canvas 0 0 -5\n".to_string()),
            Effect::Subscribe { canvas: 0, message: "{\"id\":\"0\",\"tag\":0}".to_string() },
            Effect::Log("canvas 1 1000 -5\n".to_string()),
            Effect::Subscribe { canvas: 1, message: "{\"id\":\"1\",\"tag\":1}".to_string() },
            Effect::Log("canvas 0 0 -5\n".to_string()),
        ]
    );
}

#[test]
fn bad_canvas_entry_stops_after_earlier_effects() {
    let mut s = Scraper::new("T PUTTHETAGHERE");
    let good = obj(vec![("index", num(2)), ("dx", num(0)), ("dy", num(0))]);
    let bad = obj(vec![("index", num(3)), ("dx", text("x"))]);
    let f = data_message(obj(vec![
        ("__typename", text("ConfigurationMessageData")),
        ("canvasConfigurations", Json::Array(vec![good, bad])),
    ]));
    let step = s.handle(&f);
    assert_eq!(step.actions.len(), 2);
    assert_eq!(step.flow, Flow::Fail("fail dx->i64".to_string()));
}

#[test]
fn message_types() {
    let mut s = Scraper::new("");
    let ka = Frame::Text { raw: "x".to_string(), json: obj(vec![("type", text("ka"))]) };
    assert!(s.handle(&ka).actions.is_empty());
    let err = Frame::Text { raw: "{bad}".to_string(), json: obj(vec![("type", text("connection_error"))]) };
    assert_eq!(s.handle(&err).flow, Flow::Fail("{bad}".to_string()));
    let no_type = Frame::Text { raw: "x".to_string(), json: Json::Array(vec![]) };
    assert_eq!(s.handle(&no_type).flow, Flow::Continue);
    assert_eq!(s.handle(&Frame::Other).actions, vec![Effect::Log("bad_message_json\n".to_string())]);
    let unparsed = Frame::Unparsed { error: "EOF".to_string() };
    assert_eq!(s.handle(&unparsed).flow, Flow::Fail("EOF".to_string()));
}

#[test]
fn unknown_type_warns_then_processes_data() {
    let mut s = Scraper::new("");
    let f = Frame::Text { raw: "x".to_string(), json: obj(vec![("type", text("other"))]) };
    let step = s.handle(&f);
    assert_eq!(step.actions, vec![Effect::Warn("wtf other".to_string())]);
    assert_eq!(step.flow, Flow::Fail("fail j->payload".to_string()));
}

#[test]
fn unknown_typename_is_logged() {
    let mut s = Scraper::new("");
    let step = s.handle(&data_message(obj(vec![("__typename", text("Odd"))])));
    assert_eq!(
        step.actions,
        vec![Effect::Warn("bad message type: Odd".to_string()), Effect::Log("bad_message Odd\n".to_string())]
    );
}

#[test]
fn session_restarts_after_ten_minutes() {
    let mut s = Scraper::new("");
    assert_eq!(s.tick(600).flow, Flow::Continue);
    let step = s.tick(601);
    assert_eq!(step.flow, Flow::Restart);
    assert_eq!(
        step.actions,
        vec![Effect::Log("restart connection\n".to_string()), Effect::Print("restart connection".to_string())]
    );
}

#[test]
fn session_never_repeats_a_url_or_canvas() {
    let mut s = Scraper::new("PUTTHETAGHERE");
    let canvas = |i: i64| obj(vec![("index", num(i)), ("dx", num(0)), ("dy", num(0))]);
    let config = || {
        data_message(obj(vec![
            ("__typename", text("ConfigurationMessageData")),
            ("canvasConfigurations", Json::Array(vec![canvas(0), canvas(1)])),
        ]))
    };
    let mut all = Vec::new();
    for (i, f) in [
        config(),
        diff_frame("a", "1"),
        diff_frame("b", "2"),
        config(),
        diff_frame("a", "3"),
        diff_frame("c", "4"),
        diff_frame("b", "5"),
    ]
    .iter()
    .enumerate()
    {
        all.extend(s.tick(i as u64).actions);
        all.extend(s.handle(f).actions);
    }
    let forwards: Vec<&String> = all.iter().filter_map(|e| match e {
        Effect::Forward(u) => Some(u),
        _ => None,
    }).collect();
    assert_eq!(forwards, vec!["a\n", "b\n", "c\n"]);
    let canvases: Vec<i64> = all.iter().filter_map(|e| match e {
        Effect::Subscribe { canvas, .. } => Some(*canvas),
        _ => None,
    }).collect();
    assert_eq!(canvases, vec![0, 1]);
}
