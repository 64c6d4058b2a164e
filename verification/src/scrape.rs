//! The decisions of the websocket scraper, as a state machine: the caller
//! feeds it the messages the server sends (and the time since the
//! connection opened) and carries out the effects it returns.
//!
//! The scraper remembers which frame URLs it has already passed on and
//! which canvases it has subscribed to; it forwards each new frame URL to
//! the downloader once, logs what it sees, and subscribes to each canvas
//! the server announces once.
use crate::json::{json_get, json_i64, Json};
use crate::text::{
    chars_of, ends_with, has_suffix, last_segment, last_segment_of, push_all, push_signed_decimal,
    push_str, replace_all, replace_spec, signed_decimal, string_from_chars, trim_end, trim_end_spec,
};
use vstd::hash_set::{HashSetWithView, StringHashSet};
use vstd::prelude::*;

verus! {

broadcast use vstd::std_specs::hash::group_hash_axioms, vstd::hash_set::group_hash_set_axioms;

/// Something the caller is to do, in order.
#[derive(Debug, Clone, PartialEq, Eq)]
pub enum Effect<T> {
    /// Append this text to the session log.
    Log(T),
    /// Print this line on standard output.
    Print(T),
    /// Print this line on standard error.
    Warn(T),
    /// Write this text to the downloader's socket.
    Forward(T),
    /// Subscribe to a canvas by sending this text message on the websocket.
    Subscribe { canvas: i64, message: T },
}

/// How the connection goes on after the effects.
#[derive(Debug, Clone, PartialEq, Eq)]
pub enum Flow<T> {
    /// Wait for the next message.
    Continue,
    /// End the session without error; a new one starts.
    Restart,
    /// End the session with this error.
    Fail(T),
}

pub type Action = Effect<String>;

impl View for Effect<String> {
    type V = Effect<Seq<char>>;

    open spec fn view(&self) -> Effect<Seq<char>> {
        match self {
            Effect::Log(s) => Effect::Log(s@),
            Effect::Print(s) => Effect::Print(s@),
            Effect::Warn(s) => Effect::Warn(s@),
            Effect::Forward(s) => Effect::Forward(s@),
            Effect::Subscribe { canvas, message } => Effect::Subscribe {
                canvas: *canvas,
                message: message@,
            },
        }
    }
}

impl View for Flow<String> {
    type V = Flow<Seq<char>>;

    open spec fn view(&self) -> Flow<Seq<char>> {
        match self {
            Flow::Continue => Flow::Continue,
            Flow::Restart => Flow::Restart,
            Flow::Fail(s) => Flow::Fail(s@),
        }
    }
}

/// The effects of a list of actions.
pub open spec fn effects(v: Seq<Action>) -> Seq<Effect<Seq<char>>> {
    v.map_values(|a: Action| a@)
}

/// A message received from the server.
pub enum Frame {
    /// A text message, parsed as JSON.
    Text { raw: String, json: Json },
    /// A text message that is not JSON; `error` says why.
    Unparsed { error: String },
    /// Any other kind of message.
    Other,
}

/// What the scraper returns for one event.
pub struct Step {
    pub actions: Vec<Action>,
    pub flow: Flow<String>,
}

/// The scraper's memory.
pub struct Scraper {
    grabbed: StringHashSet,
    configs: HashSetWithView<i64>,
    canvas_template: Vec<char>,
}

/// The scraper's memory as sets.
pub struct ScraperState {
    /// Frame URLs already handled.
    pub grabbed: Set<Seq<char>>,
    /// Canvases already subscribed to.
    pub configs: Set<i64>,
    /// The subscription message, with a placeholder for the canvas number.
    pub template: Seq<char>,
}

impl View for Scraper {
    type V = ScraperState;

    closed spec fn view(&self) -> ScraperState {
        ScraperState {
            grabbed: self.grabbed@,
            configs: self.configs@,
            template: self.canvas_template@,
        }
    }
}

/// What handling an event does: the new memory, the effects, the flow.
pub struct Outcome {
    pub state: ScraperState,
    pub effects: Seq<Effect<Seq<char>>>,
    pub flow: Flow<Seq<char>>,
}

/// The placeholder in the subscription message.
pub open spec fn placeholder() -> Seq<char> {
    "PUTTHETAGHERE"@
}

/// Seconds after which a session is ended so that the server sends a full
/// frame again.
pub const SESSION_SECONDS: u64 = 600;

/// Number of remembered URLs above which the memory is emptied.
pub const GRABBED_LIMIT: usize = 65536;

/// What happens before the next message is awaited.
pub open spec fn tick_spec(s: ScraperState, elapsed_secs: u64) -> Outcome {
    let grabbed = if s.grabbed.len() > GRABBED_LIMIT {
        Set::empty()
    } else {
        s.grabbed
    };
    let s2 = ScraperState { grabbed, ..s };
    if elapsed_secs > SESSION_SECONDS {
        Outcome {
            state: s2,
            effects: seq![
                Effect::Log("restart connection\n"@),
                Effect::Print("restart connection"@),
            ],
            flow: Flow::Restart,
        }
    } else {
        Outcome { state: s2, effects: seq![], flow: Flow::Continue }
    }
}

/// An outcome that changes nothing, does nothing and goes on as `flow`.
pub open spec fn quiet(s: ScraperState, flow: Flow<Seq<char>>) -> Outcome {
    Outcome { state: s, effects: seq![], flow }
}

/// The object under `key` of object `v`, or the error to report.
pub open spec fn object_member(v: Json, key: Seq<char>, missing: Seq<char>, not_object: Seq<
    char,
>) -> Result<Json, Seq<char>> {
    match json_get(v, key) {
        None => Err(missing),
        Some(m) => if m is Object {
            Ok(m)
        } else {
            Err(not_object)
        },
    }
}

/// The object at `payload.data.subscribe.data` of a message, or the error
/// to report.
pub open spec fn subscription_data(j: Json) -> Result<Json, Seq<char>> {
    if !(j is Object) {
        Err("fail j->as_object"@)
    } else {
        match object_member(j, "payload"@, "fail j->payload"@, "fail payload->as_object"@) {
            Err(e) => Err(e),
            Ok(p) => match object_member(
                p,
                "data"@,
                "fail payload->data"@,
                "fail 1 data->as_object"@,
            ) {
                Err(e) => Err(e),
                Ok(d) => match object_member(
                    d,
                    "subscribe"@,
                    "fail data->subscribe"@,
                    "fail subscribe->as_object"@,
                ) {
                    Err(e) => Err(e),
                    Ok(s) => object_member(s, "data"@, "fail j->data"@, "fail 2 data->as_object"@),
                },
            },
        }
    }
}

/// An `i64` member of a canvas entry, or the error to report.
pub open spec fn member_i64(v: Json, key: Seq<char>, missing: Seq<char>, not_int: Seq<char>) -> Result<
    i64,
    Seq<char>,
> {
    match json_get(v, key) {
        None => Err(missing),
        Some(m) => match json_i64(m) {
            Some(n) => Ok(n),
            None => Err(not_int),
        },
    }
}

/// The log line for a canvas entry.
pub open spec fn canvas_line(tag: i64, dx: i64, dy: i64) -> Seq<char> {
    "canvas "@ + signed_decimal(tag as int) + " "@ + signed_decimal(dx as int) + " "@
        + signed_decimal(dy as int) + "\n"@
}

/// The subscription message for a canvas.
pub open spec fn subscription(template: Seq<char>, tag: i64) -> Seq<char> {
    replace_spec(template, placeholder(), signed_decimal(tag as int))
}

/// Handling one canvas entry after `o`: log it, and subscribe to it if it
/// is new.
pub open spec fn canvas_step(o: Outcome, entry: Json) -> Outcome {
    match member_i64(entry, "index"@, "fail canvas->index"@, "fail canvas->as_i64"@) {
        Err(e) => Outcome { flow: Flow::Fail(e), ..o },
        Ok(tag) => match member_i64(entry, "dx"@, "fail dx"@, "fail dx->i64"@) {
            Err(e) => Outcome { flow: Flow::Fail(e), ..o },
            Ok(dx) => match member_i64(entry, "dy"@, "fail dy"@, "fail dy->i64"@) {
                Err(e) => Outcome { flow: Flow::Fail(e), ..o },
                Ok(dy) => {
                    let logged = o.effects.push(Effect::Log(canvas_line(tag, dx, dy)));
                    if o.state.configs.contains(tag) {
                        Outcome { effects: logged, ..o }
                    } else {
                        Outcome {
                            state: ScraperState { configs: o.state.configs.insert(tag), ..o.state },
                            effects: logged.push(
                                Effect::Subscribe {
                                    canvas: tag,
                                    message: subscription(o.state.template, tag),
                                },
                            ),
                            flow: Flow::Continue,
                        }
                    }
                },
            },
        },
    }
}

/// Handling the canvas entries in order, stopping at the first bad one.
pub open spec fn canvases_spec(s: ScraperState, entries: Seq<Json>) -> Outcome
    decreases entries.len(),
{
    if entries.len() == 0 {
        quiet(s, Flow::Continue)
    } else {
        let before = canvases_spec(s, entries.drop_last());
        if before.flow is Fail {
            before
        } else {
            canvas_step(before, entries.last())
        }
    }
}

/// Handling a configuration message.
pub open spec fn config_spec(s: ScraperState, d: Json) -> Outcome {
    match json_get(d, "canvasConfigurations"@) {
        None => quiet(s, Flow::Fail("fail canvasConfigurations"@)),
        Some(Json::Array(entries)) => canvases_spec(s, entries@),
        Some(_) => quiet(s, Flow::Fail("fail canvasConfigurations->as_array"@)),
    }
}

/// The log line for a frame.
pub open spec fn frame_line(kind: Seq<char>, time: Seq<char>, url: Seq<char>) -> Seq<char> {
    kind + " "@ + time + " "@ + last_segment(url) + "\n"@
}

/// Handling a frame message of kind `kind` ("diff" or "full") whose time
/// is under `time_key`: forward a new URL that does not end in "image",
/// and log it.
pub open spec fn frame_spec(s: ScraperState, d: Json, kind: Seq<char>, time_key: Seq<char>) -> Outcome {
    match json_get(d, "name"@) {
        None => quiet(s, Flow::Fail(kind + ": fail name"@)),
        Some(Json::Text(url)) => if s.grabbed.contains(url@) {
            Outcome {
                state: s,
                effects: seq![Effect::Print("dupe "@ + url@)],
                flow: Flow::Continue,
            }
        } else {
            let s2 = ScraperState { grabbed: s.grabbed.insert(url@), ..s };
            match json_get(d, time_key) {
                None => quiet(s2, Flow::Fail(kind + ": fail "@ + time_key)),
                Some(Json::Number(n)) => if has_suffix(url@, "image"@) {
                    quiet(s2, Flow::Continue)
                } else {
                    let line = frame_line(kind, n.text@, url@);
                    Outcome {
                        state: s2,
                        effects: seq![
                            Effect::Forward(url@ + "\n"@),
                            Effect::Log(line),
                            Effect::Print(trim_end_spec(line)),
                        ],
                        flow: Flow::Continue,
                    }
                },
                Some(_) => quiet(s2, Flow::Fail(kind + ": fail "@ + time_key + "->as_f64"@)),
            }
        },
        Some(_) => quiet(s, Flow::Fail(kind + ": fail name->as_str"@)),
    }
}

/// Handling the data of a subscription message by its `__typename`.
pub open spec fn data_spec(s: ScraperState, j: Json) -> Outcome {
    match subscription_data(j) {
        Err(e) => quiet(s, Flow::Fail(e)),
        Ok(d) => match json_get(d, "__typename"@) {
            None => quiet(s, Flow::Fail("fail get __typename"@)),
            Some(Json::Text(t)) => if t@ == "ConfigurationMessageData"@ {
                config_spec(s, d)
            } else if t@ == "DiffFrameMessageData"@ {
                frame_spec(s, d, "diff"@, "currentTimestamp"@)
            } else if t@ == "FullFrameMessageData"@ {
                frame_spec(s, d, "full"@, "timestamp"@)
            } else {
                Outcome {
                    state: s,
                    effects: seq![
                        Effect::Warn("bad message type: "@ + t@),
                        Effect::Log("bad_message "@ + t@ + "\n"@),
                    ],
                    flow: Flow::Continue,
                }
            },
            Some(_) => quiet(s, Flow::Fail("fail as_str"@)),
        },
    }
}

/// Handling a message from the server.
pub open spec fn handle_spec(s: ScraperState, frame: Frame) -> Outcome {
    match frame {
        Frame::Unparsed { error } => quiet(s, Flow::Fail(error@)),
        Frame::Other => Outcome {
            state: s,
            effects: seq![Effect::Log("bad_message_json\n"@)],
            flow: Flow::Continue,
        },
        Frame::Text { raw, json } => match json_get(json, "type"@) {
            Some(Json::Text(t)) => if t@ == "connection_ack"@ || t@ == "ka"@ {
                quiet(s, Flow::Continue)
            } else if t@ == "connection_error"@ {
                quiet(s, Flow::Fail(raw@))
            } else if t@ == "data"@ {
                data_spec(s, json)
            } else {
                let o = data_spec(s, json);
                Outcome { effects: seq![Effect::Warn("wtf "@ + t@)] + o.effects, ..o }
            },
            _ => quiet(s, Flow::Continue),
        },
    }
}

/// Whether `a` holds the text `lit`.
fn same_text(a: &String, lit: &str) -> (r: bool)
    ensures
        r == (a@ == lit@),
{
    let b = String::from_str(lit);
    *a == b
}


/// Whether a returned step and the scraper's memory after it are `o`.
pub open spec fn realizes(s: ScraperState, r: Step, o: Outcome) -> bool {
    &&& s.grabbed == o.state.grabbed
    &&& s.configs == o.state.configs
    &&& s.template == o.state.template
    &&& effects(r.actions@) == o.effects
    &&& r.flow@ == o.flow
}

/// A string holding `a` followed by `b`.
fn join(a: &str, b: &str) -> (s: String)
    ensures
        s@ == a@ + b@,
{
    let mut out: Vec<char> = Vec::new();
    push_str(&mut out, a);
    push_str(&mut out, b);
    string_from_chars(out)
}

/// A string holding `a`, `b` and `c`.
fn join3(a: &str, b: &str, c: &str) -> (s: String)
    ensures
        s@ == a@ + b@ + c@,
{
    let mut out: Vec<char> = Vec::new();
    push_str(&mut out, a);
    push_str(&mut out, b);
    push_str(&mut out, c);
    string_from_chars(out)
}

/// A step with no effects.
fn quiet_step(flow: Flow<String>) -> (r: Step)
    ensures
        effects(r.actions@) == Seq::<Effect<Seq<char>>>::empty(),
        r.actions@.len() == 0,
        r.flow == flow,
{
    let r = Step { actions: Vec::new(), flow };
    assert(effects(r.actions@) =~= Seq::<Effect<Seq<char>>>::empty());
    r
}

/// Once a canvas entry fails, the entries after it change nothing.
proof fn lemma_canvases_fail_sticks(s: ScraperState, entries: Seq<Json>, k: int)
    requires
        0 <= k <= entries.len(),
        canvases_spec(s, entries.take(k)).flow is Fail,
    ensures
        canvases_spec(s, entries) == canvases_spec(s, entries.take(k)),
    decreases entries.len() - k,
{
    if k < entries.len() {
        let next = entries.take(k + 1);
        assert(next.drop_last() == entries.take(k));
        lemma_canvases_fail_sticks(s, entries, k + 1);
    } else {
        assert(entries.take(k) == entries);
    }
}

/// The object under `key` of an object, or the error to report.
fn member_object<'a>(v: &'a Json, key: &str, missing: &str, not_object: &str) -> (r: Result<
    &'a Json,
    String,
>)
    ensures
        match object_member(*v, key@, missing@, not_object@) {
            Ok(m) => r is Ok && *(r->Ok_0) == m,
            Err(e) => r is Err && (r->Err_0)@ == e,
        },
{
    match v.get(key) {
        None => Err(String::from_str(missing)),
        Some(m) => if m.is_object() {
            Ok(m)
        } else {
            Err(String::from_str(not_object))
        },
    }
}

/// The object at `payload.data.subscribe.data`, or the error to report.
fn find_subscription_data(j: &Json) -> (r: Result<&Json, String>)
    ensures
        match subscription_data(*j) {
            Ok(m) => r is Ok && *(r->Ok_0) == m,
            Err(e) => r is Err && (r->Err_0)@ == e,
        },
{
    if !j.is_object() {
        return Err(String::from_str("fail j->as_object"));
    }
    let p = member_object(j, "payload", "fail j->payload", "fail payload->as_object")?;
    let d = member_object(p, "data", "fail payload->data", "fail 1 data->as_object")?;
    let s = member_object(d, "subscribe", "fail data->subscribe", "fail subscribe->as_object")?;
    member_object(s, "data", "fail j->data", "fail 2 data->as_object")
}

/// An `i64` member, or the error to report.
fn member_int(v: &Json, key: &str, missing: &str, not_int: &str) -> (r: Result<i64, String>)
    ensures
        match member_i64(*v, key@, missing@, not_int@) {
            Ok(n) => r == Ok::<i64, String>(n),
            Err(e) => r is Err && (r->Err_0)@ == e,
        },
{
    match v.get(key) {
        None => Err(String::from_str(missing)),
        Some(m) => match m.as_i64() {
            Some(n) => Ok(n),
            None => Err(String::from_str(not_int)),
        },
    }
}

impl Scraper {
    /// A scraper that has seen nothing, subscribing to canvases with
    /// `template`, whose placeholder is replaced by the canvas number.
    pub fn new(template: &str) -> (s: Scraper)
        ensures
            s@.grabbed == Set::<Seq<char>>::empty(),
            s@.configs == Set::<i64>::empty(),
            s@.template == template@,
    {
        Scraper {
            grabbed: StringHashSet::new(),
            configs: HashSetWithView::new(),
            canvas_template: chars_of(template),
        }
    }

    /// Called before each message is awaited, `elapsed_secs` after the
    /// session began: forgets the remembered URLs when there are too many,
    /// and ends the session when it has lasted long enough.
    pub fn tick(&mut self, elapsed_secs: u64) -> (r: Step)
        ensures
            realizes(final(self)@, r, tick_spec(old(self)@, elapsed_secs)),
    {
        if self.grabbed.len() > GRABBED_LIMIT {
            self.grabbed.clear();
        }
        if elapsed_secs > SESSION_SECONDS {
            let mut actions: Vec<Action> = Vec::new();
            actions.push(Effect::Log(String::from_str("restart connection\n")));
            actions.push(Effect::Print(String::from_str("restart connection")));
            let r = Step { actions, flow: Flow::Restart };
            assert(effects(r.actions@) =~= tick_spec(old(self)@, elapsed_secs).effects);
            r
        } else {
            let r = quiet_step(Flow::Continue);
            assert(effects(r.actions@) =~= tick_spec(old(self)@, elapsed_secs).effects);
            r
        }
    }

    /// Handles one canvas entry: `Continue` after logging it (and
    /// subscribing if it is new), or the error.
    fn canvas_entry(&mut self, entry: &Json, actions: &mut Vec<Action>) -> (r: Flow<String>)
        ensures
            ({
                let before = Outcome {
                    state: old(self)@,
                    effects: effects(old(actions)@),
                    flow: Flow::Continue,
                };
                let after = canvas_step(before, *entry);
                &&& final(self)@.grabbed == after.state.grabbed
                &&& final(self)@.configs == after.state.configs
                &&& final(self)@.template == after.state.template
                &&& effects(final(actions)@) == after.effects
                &&& r@ == after.flow
            }),
    {
        let tag = match member_int(entry, "index", "fail canvas->index", "fail canvas->as_i64") {
            Ok(n) => n,
            Err(e) => {
                return Flow::Fail(e);
            },
        };
        let dx = match member_int(entry, "dx", "fail dx", "fail dx->i64") {
            Ok(n) => n,
            Err(e) => {
                return Flow::Fail(e);
            },
        };
        let dy = match member_int(entry, "dy", "fail dy", "fail dy->i64") {
            Ok(n) => n,
            Err(e) => {
                return Flow::Fail(e);
            },
        };
        let mut line: Vec<char> = Vec::new();
        push_str(&mut line, "canvas ");
        push_signed_decimal(&mut line, tag);
        push_str(&mut line, " ");
        push_signed_decimal(&mut line, dx);
        push_str(&mut line, " ");
        push_signed_decimal(&mut line, dy);
        push_str(&mut line, "\n");
        assert(line@ == canvas_line(tag, dx, dy));
        let ghost before = effects(actions@);
        actions.push(Effect::Log(string_from_chars(line)));
        assert(effects(actions@) =~= before.push(Effect::Log(canvas_line(tag, dx, dy))));
        if !self.configs.contains(&tag) {
            self.configs.insert(tag);
            let mut number: Vec<char> = Vec::new();
            push_signed_decimal(&mut number, tag);
            let pattern = chars_of("PUTTHETAGHERE");
            proof {
                reveal_strlit("PUTTHETAGHERE");
            }
            let message = replace_all(&self.canvas_template, &pattern, &number);
            let ghost logged = effects(actions@);
            actions.push(Effect::Subscribe { canvas: tag, message: string_from_chars(message) });
            assert(effects(actions@) =~= logged.push(
                Effect::Subscribe { canvas: tag, message: subscription(old(self)@.template, tag) },
            ));
        }
        Flow::Continue
    }

    /// Handles a configuration message.
    fn configuration(&mut self, d: &Json) -> (r: Step)
        ensures
            realizes(final(self)@, r, config_spec(old(self)@, *d)),
    {
        let entries = match d.get("canvasConfigurations") {
            None => {
                return quiet_step(Flow::Fail(String::from_str("fail canvasConfigurations")));
            },
            Some(c) => match c.as_array() {
                Some(items) => items,
                None => {
                    return quiet_step(
                        Flow::Fail(String::from_str("fail canvasConfigurations->as_array")),
                    );
                },
            },
        };
        let ghost s0 = self@;
        assert(config_spec(old(self)@, *d) == canvases_spec(s0, entries@));
        let mut actions: Vec<Action> = Vec::new();
        let mut i: usize = 0;
        assert(entries@.take(0) == Seq::<Json>::empty());
        assert(effects(actions@) =~= Seq::<Effect<Seq<char>>>::empty());
        while i < entries.len()
            invariant
                i <= entries.len(),
                config_spec(old(self)@, *d) == canvases_spec(s0, entries@),
                ({
                    let o = canvases_spec(s0, entries@.take(i as int));
                    &&& self@.grabbed == o.state.grabbed
                    &&& self@.configs == o.state.configs
                    &&& self@.template == o.state.template
                    &&& effects(actions@) == o.effects
                    &&& o.flow is Continue
                }),
            decreases entries.len() - i,
        {
            let ghost prefix = entries@.take(i + 1);
            assert(prefix.drop_last() == entries@.take(i as int));
            assert(prefix.last() == entries@[i as int]);
            let ghost o = canvases_spec(s0, entries@.take(i as int));
            assert(o == Outcome { state: self@, effects: effects(actions@), flow: Flow::Continue });
            let flow = self.canvas_entry(&entries[i], &mut actions);
            match flow {
                Flow::Fail(e) => {
                    proof {
                        assert(canvases_spec(s0, prefix) == canvas_step(o, entries@[i as int]));
                        lemma_canvases_fail_sticks(s0, entries@, i + 1);
                    }
                    return Step { actions, flow: Flow::Fail(e) };
                },
                _ => {},
            }
            i = i + 1;
        }
        assert(entries@.take(entries.len() as int) == entries@);
        Step { actions, flow: Flow::Continue }
    }

    /// Handles a frame message of kind `kind` whose time is under `time_key`.
    fn frame(&mut self, d: &Json, kind: &str, time_key: &str) -> (r: Step)
        ensures
            realizes(final(self)@, r, frame_spec(old(self)@, *d, kind@, time_key@)),
    {
        let url: &String = match d.get("name") {
            None => {
                return quiet_step(Flow::Fail(join(kind, ": fail name")));
            },
            Some(n) => match n.as_str() {
                Some(u) => u,
                None => {
                    return quiet_step(Flow::Fail(join(kind, ": fail name->as_str")));
                },
            },
        };
        if self.grabbed.contains(url.as_str()) {
            let mut actions: Vec<Action> = Vec::new();
            actions.push(Effect::Print(join("dupe ", url.as_str())));
            let r = Step { actions, flow: Flow::Continue };
            assert(effects(r.actions@) =~= seq![Effect::Print("dupe "@ + url@)]);
            return r;
        }
        self.grabbed.insert(url.clone());
        let time_text: &String = match d.get(time_key) {
            None => {
                return quiet_step(Flow::Fail(join3(kind, ": fail ", time_key)));
            },
            Some(t) => match t.as_f64_text() {
                Some(x) => x,
                None => {
                    let mut text: Vec<char> = Vec::new();
                    push_str(&mut text, kind);
                    push_str(&mut text, ": fail ");
                    push_str(&mut text, time_key);
                    push_str(&mut text, "->as_f64");
                    return quiet_step(Flow::Fail(string_from_chars(text)));
                },
            },
        };
        let url_chars = chars_of(url.as_str());
        if ends_with(&url_chars, &chars_of("image")) {
            return quiet_step(Flow::Continue);
        }
        let mut forward: Vec<char> = Vec::new();
        push_all(&mut forward, &url_chars);
        push_str(&mut forward, "\n");
        let mut line: Vec<char> = Vec::new();
        push_str(&mut line, kind);
        push_str(&mut line, " ");
        push_str(&mut line, time_text.as_str());
        push_str(&mut line, " ");
        push_all(&mut line, &last_segment_of(&url_chars));
        push_str(&mut line, "\n");
        let shown = trim_end(&line);
        let ghost line_view = line@;
        let mut actions: Vec<Action> = Vec::new();
        actions.push(Effect::Forward(string_from_chars(forward)));
        actions.push(Effect::Log(string_from_chars(line)));
        actions.push(Effect::Print(string_from_chars(shown)));
        let r = Step { actions, flow: Flow::Continue };
        assert(effects(r.actions@) =~= seq![
            Effect::Forward(url@ + "\n"@),
            Effect::Log(line_view),
            Effect::Print(trim_end_spec(line_view)),
        ]);
        r
    }

    /// Handles the data of a subscription message.
    fn data(&mut self, j: &Json) -> (r: Step)
        ensures
            realizes(final(self)@, r, data_spec(old(self)@, *j)),
    {
        let d = match find_subscription_data(j) {
            Ok(d) => d,
            Err(e) => {
                return quiet_step(Flow::Fail(e));
            },
        };
        let t: &String = match d.get("__typename") {
            None => {
                return quiet_step(Flow::Fail(String::from_str("fail get __typename")));
            },
            Some(v) => match v.as_str() {
                Some(t) => t,
                None => {
                    return quiet_step(Flow::Fail(String::from_str("fail as_str")));
                },
            },
        };
        if same_text(t, "ConfigurationMessageData") {
            self.configuration(d)
        } else if same_text(t, "DiffFrameMessageData") {
            self.frame(d, "diff", "currentTimestamp")
        } else if same_text(t, "FullFrameMessageData") {
            self.frame(d, "full", "timestamp")
        } else {
            let mut actions: Vec<Action> = Vec::new();
            actions.push(Effect::Warn(join("bad message type: ", t.as_str())));
            actions.push(Effect::Log(join3("bad_message ", t.as_str(), "\n")));
            let r = Step { actions, flow: Flow::Continue };
            assert(effects(r.actions@) =~= seq![
                Effect::Warn("bad message type: "@ + t@),
                Effect::Log("bad_message "@ + t@ + "\n"@),
            ]);
            r
        }
    }

    /// Handles one message from the server.
    pub fn handle(&mut self, frame: &Frame) -> (r: Step)
        ensures
            realizes(final(self)@, r, handle_spec(old(self)@, *frame)),
    {
        match frame {
            Frame::Unparsed { error } => quiet_step(Flow::Fail(error.clone())),
            Frame::Other => {
                let mut actions: Vec<Action> = Vec::new();
                actions.push(Effect::Log(String::from_str("bad_message_json\n")));
                let r = Step { actions, flow: Flow::Continue };
                assert(effects(r.actions@) =~= seq![Effect::Log("bad_message_json\n"@)]);
                r
            },
            Frame::Text { raw, json } => {
                let t: &String = match json.get("type") {
                    None => {
                        return quiet_step(Flow::Continue);
                    },
                    Some(v) => match v.as_str() {
                        Some(t) => t,
                        None => {
                            return quiet_step(Flow::Continue);
                        },
                    },
                };
                if same_text(t, "connection_ack") || same_text(t, "ka") {
                    quiet_step(Flow::Continue)
                } else if same_text(t, "connection_error") {
                    quiet_step(Flow::Fail(raw.clone()))
                } else if same_text(t, "data") {
                    self.data(json)
                } else {
                    let mut actions: Vec<Action> = Vec::new();
                    actions.push(Effect::Warn(join("wtf ", t.as_str())));
                    let ghost warned = effects(actions@);
                    let mut rest = self.data(json);
                    let ghost rest_effects = effects(rest.actions@);
                    actions.append(&mut rest.actions);
                    assert(effects(actions@) =~= warned + rest_effects);
                    assert(warned =~= seq![Effect::Warn("wtf "@ + t@)]);
                    Step { actions, flow: rest.flow }
                }
            },
        }
    }
}


/// Whether the effect at `i` forwards a URL that was not remembered in `s`
/// and is remembered in `o`.
pub open spec fn forwards_new_url(s: ScraperState, o: Outcome, i: int) -> bool {
    let f = o.effects[i]->Forward_0;
    &&& f.len() > 0
    &&& f.last() == '\n'
    &&& !s.grabbed.contains(f.drop_last())
    &&& o.state.grabbed.contains(f.drop_last())
}

/// Whether the effect at `i` subscribes to a canvas that was not
/// subscribed to in `s` and is in `o`, with the canvas's message.
pub open spec fn subscribes_new_canvas(s: ScraperState, o: Outcome, i: int) -> bool {
    let c = o.effects[i]->canvas;
    &&& o.effects[i]->message == subscription(s.template, c)
    &&& !s.configs.contains(c)
    &&& o.state.configs.contains(c)
}

/// What every step, and every session, promises about its effects: memory
/// only grows; every URL forwarded (followed by a newline) was not
/// remembered before and is now, and no URL is forwarded twice; every
/// subscription is for a canvas not subscribed to before and subscribed to
/// now, and no canvas is subscribed to twice.
pub open spec fn keeps_promises(s: ScraperState, o: Outcome) -> bool {
    &&& s.grabbed.subset_of(o.state.grabbed)
    &&& s.configs.subset_of(o.state.configs)
    &&& o.state.template == s.template
    &&& forall|i: int|
        #![trigger o.effects[i]]
        0 <= i < o.effects.len() && o.effects[i] is Forward ==> forwards_new_url(s, o, i)
    &&& forall|i: int|
        #![trigger o.effects[i]]
        0 <= i < o.effects.len() && o.effects[i] is Subscribe ==> subscribes_new_canvas(s, o, i)
    &&& forall|i: int, j: int|
        #![trigger o.effects[i], o.effects[j]]
        0 <= i < j < o.effects.len() && o.effects[i] is Forward ==> o.effects[j] != o.effects[i]
    &&& forall|i: int, j: int|
        #![trigger o.effects[i], o.effects[j]]
        0 <= i < j < o.effects.len() && o.effects[i] is Subscribe && o.effects[j] is Subscribe
            ==> o.effects[i]->canvas != o.effects[j]->canvas
}

proof fn lemma_canvases_keep_promises(s: ScraperState, entries: Seq<Json>)
    ensures
        keeps_promises(s, canvases_spec(s, entries)),
        forall|i: int|
            #![trigger canvases_spec(s, entries).effects[i]]
            0 <= i < canvases_spec(s, entries).effects.len() ==> !(canvases_spec(
                s,
                entries,
            ).effects[i] is Forward),
        canvases_spec(s, entries).state.grabbed == s.grabbed,
    decreases entries.len(),
{
    if entries.len() > 0 {
        let before = canvases_spec(s, entries.drop_last());
        lemma_canvases_keep_promises(s, entries.drop_last());
        if !(before.flow is Fail) {
            let after = canvas_step(before, entries.last());
            assert forall|i: int|
                #![trigger after.effects[i]]
                0 <= i < after.effects.len() && after.effects[i] is Subscribe implies subscribes_new_canvas(
                s,
                after,
                i,
            ) by {
                if i < before.effects.len() {
                    assert(after.effects[i] == before.effects[i]);
                    assert(subscribes_new_canvas(s, before, i));
                }
            }
            assert forall|i: int, j: int|
                #![trigger after.effects[i], after.effects[j]]
                0 <= i < j < after.effects.len() && after.effects[i] is Subscribe
                    && after.effects[j] is Subscribe implies after.effects[i]->canvas
                != after.effects[j]->canvas by {
                if j < before.effects.len() {
                    assert(after.effects[i] == before.effects[i]);
                    assert(after.effects[j] == before.effects[j]);
                } else {
                    assert(after.effects[i] == before.effects[i]);
                    assert(subscribes_new_canvas(s, before, i));
                }
            }
            assert forall|i: int|
                #![trigger after.effects[i]]
                0 <= i < after.effects.len() implies !(after.effects[i] is Forward) by {
                if i < before.effects.len() {
                    assert(after.effects[i] == before.effects[i]);
                }
            }
        }
    }
}

proof fn lemma_frame_keeps_promises(s: ScraperState, d: Json, kind: Seq<char>, time_key: Seq<char>)
    ensures
        keeps_promises(s, frame_spec(s, d, kind, time_key)),
{
    reveal_strlit("\n");
    let o = frame_spec(s, d, kind, time_key);
    if let Some(Json::Text(url)) = json_get(d, "name"@) {
        let f = url@ + "\n"@;
        assert(f.drop_last() == url@);
    }
}

proof fn lemma_data_keeps_promises(s: ScraperState, j: Json)
    ensures
        keeps_promises(s, data_spec(s, j)),
{
    if let Ok(d) = subscription_data(j) {
        lemma_frame_keeps_promises(s, d, "diff"@, "currentTimestamp"@);
        lemma_frame_keeps_promises(s, d, "full"@, "timestamp"@);
        if let Some(Json::Array(entries)) = json_get(d, "canvasConfigurations"@) {
            lemma_canvases_keep_promises(s, entries@);
        }
    }
}

/// Whatever message arrives, the scraper forwards only URLs it had not
/// seen, subscribes only to canvases it had not subscribed to, does each at
/// most once, and forgets nothing.
pub proof fn lemma_handle_keeps_promises(s: ScraperState, frame: Frame)
    ensures
        keeps_promises(s, handle_spec(s, frame)),
{
    if let Frame::Text { json, .. } = frame {
        lemma_data_keeps_promises(s, json);
        let o = data_spec(s, json);
        if let Some(Json::Text(t)) = json_get(json, "type"@) {
            let w = Outcome { effects: seq![Effect::Warn("wtf "@ + t@)] + o.effects, ..o };
            assert forall|i: int|
                #![trigger w.effects[i]]
                0 < i < w.effects.len() implies w.effects[i] == o.effects[i - 1] by {}
            assert forall|i: int|
                #![trigger w.effects[i]]
                0 <= i < w.effects.len() && w.effects[i] is Forward implies forwards_new_url(
                s,
                w,
                i,
            ) by {
                assert(forwards_new_url(s, o, i - 1));
            }
            assert forall|i: int|
                #![trigger w.effects[i]]
                0 <= i < w.effects.len() && w.effects[i] is Subscribe implies subscribes_new_canvas(
                s,
                w,
                i,
            ) by {
                assert(subscribes_new_canvas(s, o, i - 1));
            }
            assert forall|i: int, j: int|
                #![trigger w.effects[i], w.effects[j]]
                0 <= i < j < w.effects.len() && w.effects[i] is Forward implies w.effects[j]
                != w.effects[i] by {
                assert(o.effects[i - 1] == w.effects[i]);
                assert(o.effects[j - 1] == w.effects[j]);
            }
            assert forall|i: int, j: int|
                #![trigger w.effects[i], w.effects[j]]
                0 <= i < j < w.effects.len() && w.effects[i] is Subscribe && w.effects[j] is Subscribe
                    implies w.effects[i]->canvas != w.effects[j]->canvas by {
                assert(o.effects[i - 1] == w.effects[i]);
                assert(o.effects[j - 1] == w.effects[j]);
            }
        }
    }
}

/// An event of a session: the timer check before a message is awaited,
/// `secs` seconds into the session, or a message.
pub enum Event {
    Tick(u64),
    Message(Frame),
}

/// What one event does.
pub open spec fn event_spec(s: ScraperState, e: Event) -> Outcome {
    match e {
        Event::Tick(secs) => tick_spec(s, secs),
        Event::Message(frame) => handle_spec(s, frame),
    }
}

/// What a run of events does: the memory at the end, all effects in order,
/// and the flow of the last event.
pub open spec fn run_spec(s: ScraperState, events: Seq<Event>) -> Outcome
    decreases events.len(),
{
    if events.len() == 0 {
        quiet(s, Flow::Continue)
    } else {
        let before = run_spec(s, events.drop_last());
        let o = event_spec(before.state, events.last());
        Outcome { state: o.state, effects: before.effects + o.effects, flow: o.flow }
    }
}

/// No timer check in the run finds more than 65536 remembered URLs, so the
/// memory is never emptied.
pub open spec fn never_forgets(s: ScraperState, events: Seq<Event>) -> bool {
    forall|i: int|
        #![trigger events[i]]
        0 <= i < events.len() && events[i] is Tick ==> run_spec(s, events.take(i)).state.grabbed.len()
            <= GRABBED_LIMIT
}

/// Over a whole session in which the memory of URLs is never emptied, no
/// URL is forwarded twice and no canvas is subscribed to twice: the
/// promises of each step hold of the run as a whole.
pub proof fn lemma_session_keeps_promises(s: ScraperState, events: Seq<Event>)
    requires
        never_forgets(s, events),
    ensures
        keeps_promises(s, run_spec(s, events)),
    decreases events.len(),
{
    if events.len() > 0 {
        let prefix = events.drop_last();
        assert forall|i: int|
            #![trigger prefix[i]]
            0 <= i < prefix.len() && prefix[i] is Tick implies run_spec(s, prefix.take(i)).state.grabbed.len()
            <= GRABBED_LIMIT by {
            assert(prefix.take(i) == events.take(i));
            assert(events[i] == prefix[i]);
        }
        lemma_session_keeps_promises(s, prefix);
        let before = run_spec(s, prefix);
        let step = event_spec(before.state, events.last());
        let after = run_spec(s, events);
        let n = before.effects.len();
        match events.last() {
            Event::Tick(secs) => {
                assert(events.take(events.len() - 1) == prefix);
                assert(events[events.len() - 1] is Tick);
                assert(step.state.grabbed == before.state.grabbed);
                assert forall|k: int| 0 <= k < step.effects.len() implies !(#[trigger] step.effects[k] is Forward)
                    && !(step.effects[k] is Subscribe) by {}
            },
            Event::Message(frame) => {
                lemma_handle_keeps_promises(before.state, frame);
            },
        }
        assert forall|i: int|
            #![trigger after.effects[i]]
            0 <= i < after.effects.len() && after.effects[i] is Forward implies forwards_new_url(
            s,
            after,
            i,
        ) by {
            if i < n {
                assert(after.effects[i] == before.effects[i]);
                assert(forwards_new_url(s, before, i));
            } else {
                assert(after.effects[i] == step.effects[i - n]);
                assert(forwards_new_url(before.state, step, i - n));
            }
        }
        assert forall|i: int|
            #![trigger after.effects[i]]
            0 <= i < after.effects.len() && after.effects[i] is Subscribe implies subscribes_new_canvas(
            s,
            after,
            i,
        ) by {
            if i < n {
                assert(after.effects[i] == before.effects[i]);
                assert(subscribes_new_canvas(s, before, i));
            } else {
                assert(after.effects[i] == step.effects[i - n]);
                assert(subscribes_new_canvas(before.state, step, i - n));
            }
        }
        assert forall|i: int, j: int|
            #![trigger after.effects[i], after.effects[j]]
            0 <= i < j < after.effects.len() && after.effects[i] is Forward implies after.effects[j]
            != after.effects[i] by {
            if j < n {
                assert(after.effects[i] == before.effects[i]);
                assert(after.effects[j] == before.effects[j]);
            } else if i < n {
                assert(after.effects[i] == before.effects[i]);
                assert(after.effects[j] == step.effects[j - n]);
                assert(forwards_new_url(s, before, i));
                if after.effects[j] == after.effects[i] {
                    assert(forwards_new_url(before.state, step, j - n));
                }
            } else {
                assert(after.effects[i] == step.effects[i - n]);
                assert(after.effects[j] == step.effects[j - n]);
            }
        }
        assert forall|i: int, j: int|
            #![trigger after.effects[i], after.effects[j]]
            0 <= i < j < after.effects.len() && after.effects[i] is Subscribe
                && after.effects[j] is Subscribe implies after.effects[i]->canvas
            != after.effects[j]->canvas by {
            if j < n {
                assert(after.effects[i] == before.effects[i]);
                assert(after.effects[j] == before.effects[j]);
            } else if i < n {
                assert(after.effects[i] == before.effects[i]);
                assert(after.effects[j] == step.effects[j - n]);
                assert(subscribes_new_canvas(s, before, i));
                assert(subscribes_new_canvas(before.state, step, j - n));
            } else {
                assert(after.effects[i] == step.effects[i - n]);
                assert(after.effects[j] == step.effects[j - n]);
            }
        }
    }
}

/// What a run promises about subscriptions, with no premise: canvases are
/// never forgotten; each subscription is for a canvas not subscribed to at
/// the start, and no canvas is subscribed to twice.
pub open spec fn subscribes_once(s: ScraperState, o: Outcome) -> bool {
    &&& s.configs.subset_of(o.state.configs)
    &&& o.state.template == s.template
    &&& forall|i: int|
        #![trigger o.effects[i]]
        0 <= i < o.effects.len() && o.effects[i] is Subscribe ==> subscribes_new_canvas(s, o, i)
    &&& forall|i: int, j: int|
        #![trigger o.effects[i], o.effects[j]]
        0 <= i < j < o.effects.len() && o.effects[i] is Subscribe && o.effects[j] is Subscribe
            ==> o.effects[i]->canvas != o.effects[j]->canvas
}

/// Over any run of events, however long and whatever the timer does, no
/// canvas is subscribed to twice: the memory of canvases is never emptied.
pub proof fn lemma_session_subscribes_once(s: ScraperState, events: Seq<Event>)
    ensures
        subscribes_once(s, run_spec(s, events)),
    decreases events.len(),
{
    if events.len() > 0 {
        let prefix = events.drop_last();
        lemma_session_subscribes_once(s, prefix);
        let before = run_spec(s, prefix);
        let step = event_spec(before.state, events.last());
        let after = run_spec(s, events);
        let n = before.effects.len();
        match events.last() {
            Event::Tick(secs) => {
                assert(step.state.configs == before.state.configs);
                assert forall|k: int| 0 <= k < step.effects.len() implies !(
                #[trigger] step.effects[k] is Subscribe) by {}
            },
            Event::Message(frame) => {
                lemma_handle_keeps_promises(before.state, frame);
            },
        }
        assert forall|i: int|
            #![trigger after.effects[i]]
            0 <= i < after.effects.len() && after.effects[i] is Subscribe implies subscribes_new_canvas(
            s,
            after,
            i,
        ) by {
            if i < n {
                assert(after.effects[i] == before.effects[i]);
                assert(subscribes_new_canvas(s, before, i));
            } else {
                assert(after.effects[i] == step.effects[i - n]);
                assert(subscribes_new_canvas(before.state, step, i - n));
            }
        }
        assert forall|i: int, j: int|
            #![trigger after.effects[i], after.effects[j]]
            0 <= i < j < after.effects.len() && after.effects[i] is Subscribe
                && after.effects[j] is Subscribe implies after.effects[i]->canvas
            != after.effects[j]->canvas by {
            if j < n {
                assert(after.effects[i] == before.effects[i]);
                assert(after.effects[j] == before.effects[j]);
            } else if i < n {
                assert(after.effects[i] == before.effects[i]);
                assert(after.effects[j] == step.effects[j - n]);
                assert(subscribes_new_canvas(s, before, i));
                assert(subscribes_new_canvas(before.state, step, j - n));
            } else {
                assert(after.effects[i] == step.effects[i - n]);
                assert(after.effects[j] == step.effects[j - n]);
            }
        }
    }
}

/// The URL of a diff or full frame message, the only kind of message whose
/// URL the scraper remembers.
pub open spec fn frame_name(frame: Frame) -> Option<Seq<char>> {
    match frame {
        Frame::Text { json, .. } => match json_get(json, "type"@) {
            Some(Json::Text(t)) => if t@ == "connection_ack"@ || t@ == "ka"@ || t@
                == "connection_error"@ {
                None
            } else {
                match subscription_data(json) {
                    Ok(d) => match json_get(d, "__typename"@) {
                        Some(Json::Text(tn)) => if tn@ == "DiffFrameMessageData"@ || tn@
                            == "FullFrameMessageData"@ {
                            match json_get(d, "name"@) {
                                Some(Json::Text(u)) => Some(u@),
                                _ => None,
                            }
                        } else {
                            None
                        },
                        _ => None,
                    },
                    Err(_) => None,
                }
            },
            _ => None,
        },
        _ => None,
    }
}

/// The distinct frame URLs received in a run of events.
pub open spec fn received_names(events: Seq<Event>) -> Set<Seq<char>>
    decreases events.len(),
{
    if events.len() == 0 {
        Set::empty()
    } else {
        let before = received_names(events.drop_last());
        match events.last() {
            Event::Message(frame) => match frame_name(frame) {
                Some(u) => before.insert(u),
                None => before,
            },
            Event::Tick(_) => before,
        }
    }
}

proof fn lemma_handle_remembers_only_its_name(s: ScraperState, frame: Frame)
    ensures
        forall|v: Seq<char>|
            #[trigger] handle_spec(s, frame).state.grabbed.contains(v) ==> s.grabbed.contains(v)
                || frame_name(frame) == Some(v),
{
    if let Frame::Text { json, .. } = frame {
        if let Ok(d) = subscription_data(json) {
            if let Some(Json::Array(entries)) = json_get(d, "canvasConfigurations"@) {
                lemma_canvases_keep_promises(s, entries@);
            }
        }
    }
}

proof fn lemma_received_names_grow(events: Seq<Event>, k: int)
    requires
        0 <= k <= events.len(),
    ensures
        received_names(events.take(k)).subset_of(received_names(events)),
        received_names(events).finite(),
    decreases events.len(),
{
    if events.len() > 0 {
        let prefix = events.drop_last();
        if k < events.len() {
            assert(events.take(k) == prefix.take(k));
            lemma_received_names_grow(prefix, k);
        } else {
            assert(events.take(k) == events);
            lemma_received_names_grow(prefix, 0);
        }
    }
}

proof fn lemma_run_remembers_received(s: ScraperState, events: Seq<Event>)
    ensures
        forall|v: Seq<char>|
            #[trigger] run_spec(s, events).state.grabbed.contains(v) ==> s.grabbed.contains(v)
                || received_names(events).contains(v),
    decreases events.len(),
{
    if events.len() > 0 {
        let prefix = events.drop_last();
        lemma_run_remembers_received(s, prefix);
        let before = run_spec(s, prefix);
        match events.last() {
            Event::Tick(secs) => {},
            Event::Message(frame) => {
                lemma_handle_remembers_only_its_name(before.state, frame);
            },
        }
    }
}

/// A session that starts with nothing remembered and receives at most 65536
/// distinct frame URLs never empties its memory, so it forwards no URL twice
/// and keeps every other promise over the whole run.
pub proof fn lemma_fresh_session_forwards_once(s: ScraperState, events: Seq<Event>)
    requires
        s.grabbed == Set::<Seq<char>>::empty(),
        received_names(events).len() <= GRABBED_LIMIT,
    ensures
        never_forgets(s, events),
        keeps_promises(s, run_spec(s, events)),
{
    lemma_received_names_grow(events, 0);
    assert forall|i: int|
        #![trigger events[i]]
        0 <= i < events.len() && events[i] is Tick implies run_spec(s, events.take(i)).state.grabbed.len()
        <= GRABBED_LIMIT by {
        let g = run_spec(s, events.take(i)).state.grabbed;
        lemma_run_remembers_received(s, events.take(i));
        lemma_received_names_grow(events, i);
        assert(g.subset_of(received_names(events)));
        vstd::set_lib::lemma_len_subset(g, received_names(events));
    }
    lemma_session_keeps_promises(s, events);
}

/// The server's acknowledgement of a session and its keep-alive messages
/// change nothing: whatever the state, a text message whose "type" is
/// "connection_ack" or "ka" leaves the memory as it was, has no effects, and
/// the session goes on.
pub proof fn lemma_acknowledgement_continues(s: ScraperState, raw: String, json: Json, t: String)
    requires
        json_get(json, "type"@) == Some(Json::Text(t)),
        t@ == "connection_ack"@ || t@ == "ka"@,
    ensures
        handle_spec(s, Frame::Text { raw, json }).state == s,
        handle_spec(s, Frame::Text { raw, json }).effects.len() == 0,
        handle_spec(s, Frame::Text { raw, json }).flow == Flow::<Seq<char>>::Continue,
{
}

/// A connection error from the server ends the session with the message's
/// own text, without effects and without touching the memory.
pub proof fn lemma_connection_error_fails(s: ScraperState, raw: String, json: Json, t: String)
    requires
        json_get(json, "type"@) == Some(Json::Text(t)),
        t@ == "connection_error"@,
    ensures
        handle_spec(s, Frame::Text { raw, json }).state == s,
        handle_spec(s, Frame::Text { raw, json }).effects.len() == 0,
        handle_spec(s, Frame::Text { raw, json }).flow == Flow::Fail(raw@),
{
    reveal_strlit("connection_error");
    reveal_strlit("connection_ack");
    reveal_strlit("ka");
    assert("connection_error"@[0] != "ka"@[0]);
    assert("connection_error"@[11] != "connection_ack"@[11]);
}

} // verus!
