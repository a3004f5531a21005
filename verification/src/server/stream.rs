//! Server-sent events: what each generation event becomes on each surface, and
//! the order in which they go out.
use vstd::prelude::*;
use vstd::string::*;

use std::collections::VecDeque;

use crate::json::{count, members, put, signed_count, tree, Json, Tree};
use crate::server::inference::{GenEvent, StopReason};
use crate::text::{hex_padded, hex_string, join3, lemma_hex_holds, lemma_hex_tells};

verus! {

/// The id with number `n` under a prefix: sixteen hexadecimal digits.
pub fn gen_id(prefix: &str, n: u64) -> (r: String)
    ensures
        r@ == prefix@ + "-"@ + hex_padded(n as nat, 16),
{
    join3(prefix, "-", hex_string(n, 16).as_str())
}

/// Ids of different numbers differ, whatever their prefixes.
pub proof fn law_ids_differ(p: Seq<char>, q: Seq<char>, m: u64, n: u64)
    requires
        m != n,
    ensures
        p + "-"@ + hex_padded(m as nat, 16) != q + "-"@ + hex_padded(n as nat, 16),
{
    let a = p + "-"@ + hex_padded(m as nat, 16);
    let b = q + "-"@ + hex_padded(n as nat, 16);
    lemma_hex_tells(m as nat, n as nat, 16);
    lemma_hex_holds(m);
    lemma_hex_holds(n);
    if a == b {
        let k = a.len() - 16;
        assert(a.skip(k) =~= hex_padded(m as nat, 16));
        assert(b.skip(k) =~= hex_padded(n as nat, 16));
    }
}

/// Seconds since the epoch: those that the clock shows, 0 where it fails.
pub fn unix_now(elapsed: Option<u64>) -> (r: i64)
    ensures
        r == match elapsed {
            Some(s) => s as i64,
            None => 0,
        },
{
    match elapsed {
        Some(s) => #[verifier::truncate] (s as i64),
        None => 0,
    }
}

/// An event to send: perhaps a name, and a value or the word that ends a stream.
#[derive(Debug)]
pub struct Frame {
    pub event: Option<&'static str>,
    pub data: FrameData,
}

/// What an event carries.
#[derive(Debug)]
pub enum FrameData {
    Value(Json),
    /// The literal `[DONE]`.
    Done,
}

/// An event by its views; no value is the word that ends a stream.
pub ghost struct Sent {
    pub event: Option<Seq<char>>,
    pub data: Option<Tree>,
}

/// An event by its views.
pub open spec fn sent(f: Frame) -> Sent {
    Sent {
        event: match f.event {
            Some(n) => Some(n@),
            None => None,
        },
        data: match f.data {
            FrameData::Value(v) => Some(tree(v)),
            FrameData::Done => None,
        },
    }
}

/// Events by their views.
pub open spec fn all_sent(v: Seq<Frame>) -> Seq<Sent> {
    v.map_values(|f: Frame| sent(f))
}

/// An event without a name.
pub open spec fn unnamed(t: Tree) -> Sent {
    Sent { event: None, data: Some(t) }
}

/// An event with a name.
pub open spec fn under(name: Seq<char>, t: Tree) -> Sent {
    Sent { event: Some(name), data: Some(t) }
}

/// The word that ends a stream.
pub open spec fn done_mark() -> Sent {
    Sent { event: None, data: None }
}

/// An event without a name.
fn data(value: Json) -> (r: Frame)
    ensures
        sent(r) == unnamed(tree(value)),
{
    Frame { event: None, data: FrameData::Value(value) }
}

/// An event with a name.
fn named(name: &'static str, value: Json) -> (r: Frame)
    ensures
        sent(r) == under(name@, tree(value)),
{
    Frame { event: Some(name), data: FrameData::Value(value) }
}

/// The word that ends a stream.
fn done_sentinel() -> (r: Frame)
    ensures
        sent(r) == done_mark(),
{
    Frame { event: None, data: FrameData::Done }
}

/// One event.
fn one(a: Frame) -> (r: Vec<Frame>)
    ensures
        all_sent(r@) == seq![sent(a)],
{
    let ghost s = sent(a);
    let mut v: Vec<Frame> = Vec::new();
    v.push(a);
    assert(all_sent(v@) =~= seq![s]);
    v
}

/// Two events.
fn two(a: Frame, b: Frame) -> (r: Vec<Frame>)
    ensures
        all_sent(r@) == seq![sent(a), sent(b)],
{
    let ghost s = seq![sent(a), sent(b)];
    let mut v: Vec<Frame> = Vec::new();
    v.push(a);
    v.push(b);
    assert(all_sent(v@) =~= s);
    v
}

/// No event.
fn none() -> (r: Vec<Frame>)
    ensures
        all_sent(r@) == Seq::<Sent>::empty(),
{
    let v: Vec<Frame> = Vec::new();
    assert(all_sent(v@) =~= Seq::<Sent>::empty());
    v
}

/// The `finish_reason` of a stop.
pub open spec fn finish_text(why: StopReason) -> Seq<char> {
    if why is Eos || why is StopSequence {
        "stop"@
    } else {
        "length"@
    }
}

/// The Anthropic `stop_reason` of a stop.
pub open spec fn reason_text(why: StopReason) -> Seq<char> {
    if why is Eos {
        "end_turn"@
    } else if why is StopSequence {
        "stop_sequence"@
    } else {
        "max_tokens"@
    }
}

/// The stop sequence that was met.
pub open spec fn matched_text(why: StopReason) -> Option<Seq<char>> {
    match why {
        StopReason::StopSequence(s) => Some(s@),
        _ => None,
    }
}

/// A string, or null.
pub open spec fn opt_tree(s: Option<Seq<char>>) -> Tree {
    match s {
        Some(t) => Tree::Text(t),
        None => Tree::Null,
    }
}

/// The event ends a stream.
pub open spec fn ends_stream(ev: GenEvent) -> bool {
    ev is Done || ev is Error
}

/// Whether the event ends a stream.
pub fn is_terminal(ev: &GenEvent) -> (r: bool)
    ensures
        r == ends_stream(*ev),
{
    match ev {
        GenEvent::Done { .. } => true,
        GenEvent::Error(_) => true,
        _ => false,
    }
}

/// A chunk of a chat reply.
pub open spec fn chat_chunk(
    id: Seq<char>,
    created: i64,
    model: Seq<char>,
    delta: Tree,
    finish: Tree,
) -> Tree {
    Tree::Object(
        seq![
            ("id"@, Tree::Text(id)),
            ("object"@, Tree::Text("chat.completion.chunk"@)),
            ("created"@, signed_count(created)),
            ("model"@, Tree::Text(model)),
            (
                "choices"@,
                Tree::Array(
                    seq![
                        Tree::Object(
                            seq![
                                ("index"@, count(0)),
                                ("delta"@, delta),
                                ("finish_reason"@, finish),
                            ],
                        ),
                    ],
                ),
            ),
        ],
    )
}

/// A chunk of a chat reply.
fn chunk(id: &str, created: i64, model: &str, delta: Json, finish: Json) -> (r: Json)
    ensures
        tree(r) == chat_chunk(id@, created, model@, tree(delta), tree(finish)),
{
    let ghost d = tree(delta);
    let ghost f = tree(finish);
    let mut choice: Vec<(String, Json)> = Vec::new();
    put(&mut choice, "index", Json::number(0));
    put(&mut choice, "delta", delta);
    put(&mut choice, "finish_reason", finish);
    assert(members(choice@) =~= seq![
        ("index"@, count(0)),
        ("delta"@, d),
        ("finish_reason"@, f),
    ]);
    let mut o: Vec<(String, Json)> = Vec::new();
    put(&mut o, "id", Json::text(id));
    put(&mut o, "object", Json::text("chat.completion.chunk"));
    put(&mut o, "created", Json::signed(created));
    put(&mut o, "model", Json::text(model));
    put(&mut o, "choices", Json::single(Json::Object(choice)));
    let r = Json::Object(o);
    proof {
        let t = chat_chunk(id@, created, model@, d, f);
        assert(members(o@) =~= t->Object_0);
    }
    r
}

/// What reports a failure on the OpenAI surfaces.
pub open spec fn server_error(message: Seq<char>) -> Tree {
    Tree::Object(
        seq![
            (
                "error"@,
                Tree::Object(
                    seq![
                        ("message"@, Tree::Text(message)),
                        ("type"@, Tree::Text("server_error"@)),
                    ],
                ),
            ),
        ],
    )
}

/// What reports a failure on the OpenAI surfaces.
fn error_body(message: &str) -> (r: Json)
    ensures
        tree(r) == server_error(message@),
{
    let mut inner: Vec<(String, Json)> = Vec::new();
    put(&mut inner, "message", Json::text(message));
    put(&mut inner, "type", Json::text("server_error"));
    assert(members(inner@) =~= seq![
        ("message"@, Tree::Text(message@)),
        ("type"@, Tree::Text("server_error"@)),
    ]);
    let mut o: Vec<(String, Json)> = Vec::new();
    put(&mut o, "error", Json::Object(inner));
    assert(members(o@) =~= server_error(message@)->Object_0);
    Json::Object(o)
}

/// What an event becomes in a chat stream: a role, content, a finish reason and
/// the word that ends the stream.
pub open spec fn chat_events(
    id: Seq<char>,
    created: i64,
    model: Seq<char>,
    ev: GenEvent,
) -> Seq<Sent> {
    match ev {
        GenEvent::Started { .. } => seq![
            unnamed(
                chat_chunk(
                    id,
                    created,
                    model,
                    Tree::Object(
                        seq![
                            ("role"@, Tree::Text("assistant"@)),
                            ("content"@, Tree::Text(""@)),
                        ],
                    ),
                    Tree::Null,
                ),
            ),
        ],
        GenEvent::Delta(t) => seq![
            unnamed(
                chat_chunk(
                    id,
                    created,
                    model,
                    Tree::Object(seq![("content"@, Tree::Text(t@))]),
                    Tree::Null,
                ),
            ),
        ],
        GenEvent::Done { stop_reason, .. } => seq![
            unnamed(
                chat_chunk(
                    id,
                    created,
                    model,
                    Tree::Object(seq![]),
                    Tree::Text(finish_text(stop_reason)),
                ),
            ),
            done_mark(),
        ],
        GenEvent::Error(e) => seq![unnamed(server_error(e@)), done_mark()],
    }
}

/// What an event becomes in a chat stream.
pub fn openai_chat_stream(id: &str, created: i64, model: &str, ev: &GenEvent) -> (r: Vec<Frame>)
    ensures
        all_sent(r@) == chat_events(id@, created, model@, *ev),
{
    match ev {
        GenEvent::Started { .. } => {
            let mut delta: Vec<(String, Json)> = Vec::new();
            put(&mut delta, "role", Json::text("assistant"));
            put(&mut delta, "content", Json::text(""));
            assert(members(delta@) =~= seq![
                ("role"@, Tree::Text("assistant"@)),
                ("content"@, Tree::Text(""@)),
            ]);
            one(data(chunk(id, created, model, Json::Object(delta), Json::Null)))
        },
        GenEvent::Delta(t) => {
            let mut delta: Vec<(String, Json)> = Vec::new();
            put(&mut delta, "content", Json::text(t.as_str()));
            assert(members(delta@) =~= seq![("content"@, Tree::Text(t@))]);
            one(data(chunk(id, created, model, Json::Object(delta), Json::Null)))
        },
        GenEvent::Done { stop_reason, .. } => {
            let delta: Vec<(String, Json)> = Vec::new();
            let finish = Json::text(stop_reason.openai_finish());
            two(data(chunk(id, created, model, Json::Object(delta), finish)), done_sentinel())
        },
        GenEvent::Error(e) => two(data(error_body(e.as_str())), done_sentinel()),
    }
}

/// A chunk of a completion.
pub open spec fn text_chunk(
    id: Seq<char>,
    created: i64,
    model: Seq<char>,
    text: Seq<char>,
    finish: Tree,
) -> Tree {
    Tree::Object(
        seq![
            ("id"@, Tree::Text(id)),
            ("object"@, Tree::Text("text_completion"@)),
            ("created"@, signed_count(created)),
            ("model"@, Tree::Text(model)),
            (
                "choices"@,
                Tree::Array(
                    seq![
                        Tree::Object(
                            seq![
                                ("index"@, count(0)),
                                ("text"@, Tree::Text(text)),
                                ("finish_reason"@, finish),
                                ("logprobs"@, Tree::Null),
                            ],
                        ),
                    ],
                ),
            ),
        ],
    )
}

/// A chunk of a completion.
fn completion_chunk(id: &str, created: i64, model: &str, text: &str, finish: Json) -> (r: Json)
    ensures
        tree(r) == text_chunk(id@, created, model@, text@, tree(finish)),
{
    let ghost f = tree(finish);
    let mut choice: Vec<(String, Json)> = Vec::new();
    put(&mut choice, "index", Json::number(0));
    put(&mut choice, "text", Json::text(text));
    put(&mut choice, "finish_reason", finish);
    put(&mut choice, "logprobs", Json::Null);
    assert(members(choice@) =~= seq![
        ("index"@, count(0)),
        ("text"@, Tree::Text(text@)),
        ("finish_reason"@, f),
        ("logprobs"@, Tree::Null),
    ]);
    let mut o: Vec<(String, Json)> = Vec::new();
    put(&mut o, "id", Json::text(id));
    put(&mut o, "object", Json::text("text_completion"));
    put(&mut o, "created", Json::signed(created));
    put(&mut o, "model", Json::text(model));
    put(&mut o, "choices", Json::single(Json::Object(choice)));
    proof {
        let t = text_chunk(id@, created, model@, text@, f);
        assert(members(o@) =~= t->Object_0);
    }
    Json::Object(o)
}

/// What an event becomes in a completion stream: text, a finish reason and the
/// word that ends the stream.
pub open spec fn completion_events(
    id: Seq<char>,
    created: i64,
    model: Seq<char>,
    ev: GenEvent,
) -> Seq<Sent> {
    match ev {
        GenEvent::Started { .. } => seq![],
        GenEvent::Delta(t) => seq![unnamed(text_chunk(id, created, model, t@, Tree::Null))],
        GenEvent::Done { stop_reason, .. } => seq![
            unnamed(
                text_chunk(id, created, model, ""@, Tree::Text(finish_text(stop_reason))),
            ),
            done_mark(),
        ],
        GenEvent::Error(e) => seq![unnamed(server_error(e@)), done_mark()],
    }
}

/// What an event becomes in a completion stream.
pub fn openai_completion_stream(id: &str, created: i64, model: &str, ev: &GenEvent) -> (r: Vec<
    Frame,
>)
    ensures
        all_sent(r@) == completion_events(id@, created, model@, *ev),
{
    match ev {
        GenEvent::Started { .. } => none(),
        GenEvent::Delta(t) => one(
            data(completion_chunk(id, created, model, t.as_str(), Json::Null)),
        ),
        GenEvent::Done { stop_reason, .. } => {
            let finish = Json::text(stop_reason.openai_finish());
            two(data(completion_chunk(id, created, model, "", finish)), done_sentinel())
        },
        GenEvent::Error(e) => two(data(error_body(e.as_str())), done_sentinel()),
    }
}

/// The last value of a native completion stream.
pub open spec fn native_end(
    model: Seq<char>,
    why: StopReason,
    prompt_tokens: u32,
    completion_tokens: u32,
) -> Tree {
    let matched = matched_text(why);
    Tree::Object(
        seq![
            ("content"@, Tree::Text(""@)),
            ("stop"@, Tree::Bool(true)),
            ("model"@, Tree::Text(model)),
            ("tokens_predicted"@, count(completion_tokens as u64)),
            ("tokens_evaluated"@, count(prompt_tokens as u64)),
            ("stopped_eos"@, Tree::Bool(why is Eos)),
            ("stopped_word"@, Tree::Bool(matched is Some)),
            ("stopped_limit"@, Tree::Bool(why is MaxTokens || why is ContextFull)),
            (
                "stopping_word"@,
                Tree::Text(
                    match matched {
                        Some(s) => s,
                        None => ""@,
                    },
                ),
            ),
        ],
    )
}

/// What an event becomes in a native completion stream. No word ends it.
pub open spec fn native_events(model: Seq<char>, ev: GenEvent) -> Seq<Sent> {
    match ev {
        GenEvent::Started { .. } => seq![],
        GenEvent::Delta(t) => seq![
            unnamed(
                Tree::Object(
                    seq![("content"@, Tree::Text(t@)), ("stop"@, Tree::Bool(false))],
                ),
            ),
        ],
        GenEvent::Done { stop_reason, prompt_tokens, completion_tokens } => seq![
            unnamed(native_end(model, stop_reason, prompt_tokens, completion_tokens)),
        ],
        GenEvent::Error(e) => seq![
            unnamed(
                Tree::Object(
                    seq![
                        ("content"@, Tree::Text(""@)),
                        ("stop"@, Tree::Bool(true)),
                        ("error"@, Tree::Text(e@)),
                    ],
                ),
            ),
        ],
    }
}

/// What an event becomes in a native completion stream.
pub fn llama_completion_stream(model: &str, ev: &GenEvent) -> (r: Vec<Frame>)
    ensures
        all_sent(r@) == native_events(model@, *ev),
{
    let mut o: Vec<(String, Json)> = Vec::new();
    match ev {
        GenEvent::Started { .. } => none(),
        GenEvent::Delta(t) => {
            put(&mut o, "content", Json::text(t.as_str()));
            put(&mut o, "stop", Json::Bool(false));
            assert(members(o@) =~= seq![
                ("content"@, Tree::Text(t@)),
                ("stop"@, Tree::Bool(false)),
            ]);
            one(data(Json::Object(o)))
        },
        GenEvent::Done { stop_reason, prompt_tokens, completion_tokens } => {
            let matched = stop_reason.matched_sequence();
            let eos = match stop_reason {
                StopReason::Eos => true,
                _ => false,
            };
            let limit = match stop_reason {
                StopReason::MaxTokens | StopReason::ContextFull => true,
                _ => false,
            };
            let word = match matched {
                Some(s) => s,
                None => "",
            };
            put(&mut o, "content", Json::text(""));
            put(&mut o, "stop", Json::Bool(true));
            put(&mut o, "model", Json::text(model));
            put(&mut o, "tokens_predicted", Json::number(*completion_tokens as u64));
            put(&mut o, "tokens_evaluated", Json::number(*prompt_tokens as u64));
            put(&mut o, "stopped_eos", Json::Bool(eos));
            put(&mut o, "stopped_word", Json::Bool(matched.is_some()));
            put(&mut o, "stopped_limit", Json::Bool(limit));
            put(&mut o, "stopping_word", Json::text(word));
            proof {
                let t = native_end(model@, *stop_reason, *prompt_tokens, *completion_tokens);
                assert(members(o@) =~= t->Object_0);
            }
            one(data(Json::Object(o)))
        },
        GenEvent::Error(e) => {
            put(&mut o, "content", Json::text(""));
            put(&mut o, "stop", Json::Bool(true));
            put(&mut o, "error", Json::text(e.as_str()));
            assert(members(o@) =~= seq![
                ("content"@, Tree::Text(""@)),
                ("stop"@, Tree::Bool(true)),
                ("error"@, Tree::Text(e@)),
            ]);
            one(data(Json::Object(o)))
        },
    }
}

/// The first value of a message stream.
pub open spec fn message_start(id: Seq<char>, model: Seq<char>, prompt_tokens: u32) -> Tree {
    Tree::Object(
        seq![
            ("type"@, Tree::Text("message_start"@)),
            (
                "message"@,
                Tree::Object(
                    seq![
                        ("id"@, Tree::Text(id)),
                        ("type"@, Tree::Text("message"@)),
                        ("role"@, Tree::Text("assistant"@)),
                        ("content"@, Tree::Array(seq![])),
                        ("model"@, Tree::Text(model)),
                        ("stop_reason"@, Tree::Null),
                        ("stop_sequence"@, Tree::Null),
                        (
                            "usage"@,
                            Tree::Object(
                                seq![
                                    ("input_tokens"@, count(prompt_tokens as u64)),
                                    ("output_tokens"@, count(0)),
                                ],
                            ),
                        ),
                    ],
                ),
            ),
        ],
    )
}

/// The first value of a message stream.
fn start_body(id: &str, model: &str, prompt_tokens: u32) -> (r: Json)
    ensures
        tree(r) == message_start(id@, model@, prompt_tokens),
{
    let mut usage: Vec<(String, Json)> = Vec::new();
    put(&mut usage, "input_tokens", Json::number(prompt_tokens as u64));
    put(&mut usage, "output_tokens", Json::number(0));
    assert(members(usage@) =~= seq![
        ("input_tokens"@, count(prompt_tokens as u64)),
        ("output_tokens"@, count(0)),
    ]);
    let mut m: Vec<(String, Json)> = Vec::new();
    put(&mut m, "id", Json::text(id));
    put(&mut m, "type", Json::text("message"));
    put(&mut m, "role", Json::text("assistant"));
    put(&mut m, "content", Json::Array(Vec::new()));
    put(&mut m, "model", Json::text(model));
    put(&mut m, "stop_reason", Json::Null);
    put(&mut m, "stop_sequence", Json::Null);
    put(&mut m, "usage", Json::Object(usage));
    proof {
        let t = message_start(id@, model@, prompt_tokens);
        assert(members(m@) =~= t->Object_0[1].1->Object_0);
    }
    let mut o: Vec<(String, Json)> = Vec::new();
    put(&mut o, "type", Json::text("message_start"));
    put(&mut o, "message", Json::Object(m));
    assert(members(o@) =~= message_start(id@, model@, prompt_tokens)->Object_0);
    Json::Object(o)
}

/// The value that opens the text of a message.
pub open spec fn block_start() -> Tree {
    Tree::Object(
        seq![
            ("type"@, Tree::Text("content_block_start"@)),
            ("index"@, count(0)),
            (
                "content_block"@,
                Tree::Object(seq![("type"@, Tree::Text("text"@)), ("text"@, Tree::Text(""@))]),
            ),
        ],
    )
}

/// The value that opens the text of a message.
fn block_start_body() -> (r: Json)
    ensures
        tree(r) == block_start(),
{
    let mut b: Vec<(String, Json)> = Vec::new();
    put(&mut b, "type", Json::text("text"));
    put(&mut b, "text", Json::text(""));
    assert(members(b@) =~= seq![("type"@, Tree::Text("text"@)), ("text"@, Tree::Text(""@))]);
    let mut o: Vec<(String, Json)> = Vec::new();
    put(&mut o, "type", Json::text("content_block_start"));
    put(&mut o, "index", Json::number(0));
    put(&mut o, "content_block", Json::Object(b));
    assert(members(o@) =~= block_start()->Object_0);
    Json::Object(o)
}

/// The value that brings more text of a message.
pub open spec fn block_delta(text: Seq<char>) -> Tree {
    Tree::Object(
        seq![
            ("type"@, Tree::Text("content_block_delta"@)),
            ("index"@, count(0)),
            (
                "delta"@,
                Tree::Object(
                    seq![("type"@, Tree::Text("text_delta"@)), ("text"@, Tree::Text(text))],
                ),
            ),
        ],
    )
}

/// The value that brings more text of a message.
fn block_delta_body(text: &str) -> (r: Json)
    ensures
        tree(r) == block_delta(text@),
{
    let mut d: Vec<(String, Json)> = Vec::new();
    put(&mut d, "type", Json::text("text_delta"));
    put(&mut d, "text", Json::text(text));
    assert(members(d@) =~= seq![
        ("type"@, Tree::Text("text_delta"@)),
        ("text"@, Tree::Text(text@)),
    ]);
    let mut o: Vec<(String, Json)> = Vec::new();
    put(&mut o, "type", Json::text("content_block_delta"));
    put(&mut o, "index", Json::number(0));
    put(&mut o, "delta", Json::Object(d));
    assert(members(o@) =~= block_delta(text@)->Object_0);
    Json::Object(o)
}

/// The value that closes the text of a message.
pub open spec fn block_stop() -> Tree {
    Tree::Object(
        seq![("type"@, Tree::Text("content_block_stop"@)), ("index"@, count(0))],
    )
}

/// The value that closes the text of a message.
fn block_stop_body() -> (r: Json)
    ensures
        tree(r) == block_stop(),
{
    let mut o: Vec<(String, Json)> = Vec::new();
    put(&mut o, "type", Json::text("content_block_stop"));
    put(&mut o, "index", Json::number(0));
    assert(members(o@) =~= block_stop()->Object_0);
    Json::Object(o)
}

/// The value that says how a message ended.
pub open spec fn message_delta(why: StopReason, completion_tokens: u32) -> Tree {
    Tree::Object(
        seq![
            ("type"@, Tree::Text("message_delta"@)),
            (
                "delta"@,
                Tree::Object(
                    seq![
                        ("stop_reason"@, Tree::Text(reason_text(why))),
                        ("stop_sequence"@, opt_tree(matched_text(why))),
                    ],
                ),
            ),
            (
                "usage"@,
                Tree::Object(seq![("output_tokens"@, count(completion_tokens as u64))]),
            ),
        ],
    )
}

/// The value that says how a message ended.
fn message_delta_body(why: &StopReason, completion_tokens: u32) -> (r: Json)
    ensures
        tree(r) == message_delta(*why, completion_tokens),
{
    let mut d: Vec<(String, Json)> = Vec::new();
    put(&mut d, "stop_reason", Json::text(why.anthropic_reason()));
    put(&mut d, "stop_sequence", Json::opt_text(why.matched_sequence()));
    assert(members(d@) =~= seq![
        ("stop_reason"@, Tree::Text(reason_text(*why))),
        ("stop_sequence"@, opt_tree(matched_text(*why))),
    ]);
    let mut u: Vec<(String, Json)> = Vec::new();
    put(&mut u, "output_tokens", Json::number(completion_tokens as u64));
    assert(members(u@) =~= seq![("output_tokens"@, count(completion_tokens as u64))]);
    let mut o: Vec<(String, Json)> = Vec::new();
    put(&mut o, "type", Json::text("message_delta"));
    put(&mut o, "delta", Json::Object(d));
    put(&mut o, "usage", Json::Object(u));
    assert(members(o@) =~= message_delta(*why, completion_tokens)->Object_0);
    Json::Object(o)
}

/// The last value of a message stream.
pub open spec fn message_stop() -> Tree {
    Tree::Object(seq![("type"@, Tree::Text("message_stop"@))])
}

/// The value that reports a failure in a message stream.
pub open spec fn message_error(message: Seq<char>) -> Tree {
    Tree::Object(
        seq![
            ("type"@, Tree::Text("error"@)),
            (
                "error"@,
                Tree::Object(
                    seq![("type"@, Tree::Text("api_error"@)), ("message"@, Tree::Text(message))],
                ),
            ),
        ],
    )
}

/// What an event becomes in a message stream, where `open` says whether a text
/// was opened before.
pub open spec fn message_events(
    id: Seq<char>,
    model: Seq<char>,
    open: bool,
    ev: GenEvent,
) -> Seq<Sent> {
    match ev {
        GenEvent::Started { prompt_tokens } => seq![
            under("message_start"@, message_start(id, model, prompt_tokens)),
            under("content_block_start"@, block_start()),
        ],
        GenEvent::Delta(t) => seq![under("content_block_delta"@, block_delta(t@))],
        GenEvent::Done { stop_reason, completion_tokens, .. } => (if open {
            seq![under("content_block_stop"@, block_stop())]
        } else {
            seq![]
        }) + seq![
            under("message_delta"@, message_delta(stop_reason, completion_tokens)),
            under("message_stop"@, message_stop()),
        ],
        GenEvent::Error(e) => seq![under("error"@, message_error(e@))],
    }
}

/// What an event becomes in a message stream. A text is open from the start of
/// the reply on.
pub fn anthropic_messages_stream(id: &str, model: &str, block_open: &mut bool, ev: &GenEvent) -> (r:
    Vec<Frame>)
    ensures
        all_sent(r@) == message_events(id@, model@, *old(block_open), *ev),
        *final(block_open) == (*old(block_open) || ev is Started),
{
    match ev {
        GenEvent::Started { prompt_tokens } => {
            *block_open = true;
            two(
                named("message_start", start_body(id, model, *prompt_tokens)),
                named("content_block_start", block_start_body()),
            )
        },
        GenEvent::Delta(t) => one(named("content_block_delta", block_delta_body(t.as_str()))),
        GenEvent::Done { stop_reason, completion_tokens, .. } => {
            let mut stop: Vec<(String, Json)> = Vec::new();
            put(&mut stop, "type", Json::text("message_stop"));
            assert(members(stop@) =~= message_stop()->Object_0);
            let a = named("message_delta", message_delta_body(stop_reason, *completion_tokens));
            let b = named("message_stop", Json::Object(stop));
            let mut out: Vec<Frame> = Vec::new();
            if *block_open {
                out.push(named("content_block_stop", block_stop_body()));
            }
            out.push(a);
            out.push(b);
            assert(all_sent(out@) =~= message_events(id@, model@, *old(block_open), *ev));
            out
        },
        GenEvent::Error(e) => {
            let mut inner: Vec<(String, Json)> = Vec::new();
            put(&mut inner, "type", Json::text("api_error"));
            put(&mut inner, "message", Json::text(e.as_str()));
            assert(members(inner@) =~= seq![
                ("type"@, Tree::Text("api_error"@)),
                ("message"@, Tree::Text(e@)),
            ]);
            let mut o: Vec<(String, Json)> = Vec::new();
            put(&mut o, "type", Json::text("error"));
            put(&mut o, "error", Json::Object(inner));
            assert(members(o@) =~= message_error(e@)->Object_0);
            one(named("error", Json::Object(o)))
        },
    }
}

/// Events waiting to be sent, and whether the generation is over.
pub struct EventStream {
    pub queue: VecDeque<Frame>,
    pub done: bool,
}

/// What a stream does next.
#[derive(Debug)]
pub enum StreamStep {
    /// Send this.
    Emit(Frame),
    /// End the stream.
    Finish,
    /// Wait for the next generation event.
    Receive,
}

impl EventStream {
    /// A stream before its first event.
    pub fn new() -> (r: Self)
        ensures
            r.queue@ == Seq::<Frame>::empty(),
            !r.done,
    {
        EventStream { queue: VecDeque::new(), done: false }
    }

    /// What to do next: send what waits, in order; then end, if the generation is
    /// over; otherwise wait.
    pub fn step(&mut self) -> (r: StreamStep)
        ensures
            final(self).done == old(self).done,
            if old(self).queue@.len() > 0 {
                &&& r == StreamStep::Emit(old(self).queue@[0])
                &&& final(self).queue@ == old(self).queue@.skip(1)
            } else {
                &&& final(self).queue@ == old(self).queue@
                &&& r == if old(self).done {
                    StreamStep::Finish
                } else {
                    StreamStep::Receive
                }
            },
    {
        match self.queue.pop_front() {
            Some(f) => {
                assert(self.queue@ =~= old(self).queue@.skip(1));
                StreamStep::Emit(f)
            },
            None => if self.done {
                StreamStep::Finish
            } else {
                StreamStep::Receive
            },
        }
    }

    /// Queue what a generation event became.
    pub fn accept(&mut self, frames: Vec<Frame>, terminal: bool)
        ensures
            final(self).queue@ == old(self).queue@ + frames@,
            final(self).done == (old(self).done || terminal),
    {
        let ghost all = frames@;
        for f in it: frames
            invariant
                it.seq() == all,
                self.queue@ == old(self).queue@ + all.take(it.index()),
                self.done == old(self).done,
        {
            let ghost at = it.index();
            self.queue.push_back(f);
            assert(self.queue@ =~= old(self).queue@ + all.take(at + 1));
        }
        assert(all.take(all.len() as int) =~= all);
        if terminal {
            self.done = true;
        }
    }
}

/// What a chat stream sends for a list of events.
pub open spec fn chat_transcript(
    id: Seq<char>,
    created: i64,
    model: Seq<char>,
    events: Seq<GenEvent>,
) -> Seq<Sent>
    decreases events.len(),
{
    if events.len() == 0 {
        seq![]
    } else {
        chat_transcript(id, created, model, events.drop_last()) + chat_events(
            id,
            created,
            model,
            events.last(),
        )
    }
}

/// A chat stream whose last event, and no other, ends it closes with the word that
/// ends streams, and sends that word once.
pub proof fn law_chat_stream_ends_once(
    id: Seq<char>,
    created: i64,
    model: Seq<char>,
    events: Seq<GenEvent>,
)
    requires
        events.len() > 0,
        ends_stream(events.last()),
        forall|i: int| 0 <= i < events.len() - 1 ==> !ends_stream(#[trigger] events[i]),
    ensures
        ({
            let s = chat_transcript(id, created, model, events);
            &&& s.len() > 0
            &&& s.last() == done_mark()
            &&& forall|k: int| 0 <= k < s.len() - 1 ==> #[trigger] s[k] != done_mark()
        }),
{
    lemma_unfinished(id, created, model, events.drop_last());
    let before = chat_transcript(id, created, model, events.drop_last());
    let end = chat_events(id, created, model, events.last());
    let s = chat_transcript(id, created, model, events);
    assert(s =~= before + end);
    assert(end.len() == 2 && end[1] == done_mark() && end[0] != done_mark());
    assert(s.last() == end.last());
    assert forall|k: int| 0 <= k < s.len() - 1 implies #[trigger] s[k] != done_mark() by {
        if k < before.len() {
            assert(s[k] == before[k]);
        } else {
            assert(s[k] == end[k - before.len()]);
        }
    }
}

/// Events that do not end a stream do not send the word that does.
proof fn lemma_unfinished(id: Seq<char>, created: i64, model: Seq<char>, events: Seq<GenEvent>)
    requires
        forall|i: int| 0 <= i < events.len() ==> !ends_stream(#[trigger] events[i]),
    ensures
        forall|k: int|
            0 <= k < chat_transcript(id, created, model, events).len() ==> #[trigger] chat_transcript(
                id,
                created,
                model,
                events,
            )[k] != done_mark(),
    decreases events.len(),
{
    if events.len() > 0 {
        let before = events.drop_last();
        assert forall|i: int| 0 <= i < before.len() implies !ends_stream(#[trigger] before[i]) by {
            assert(events[i] == before[i]);
        }
        lemma_unfinished(id, created, model, before);
        assert(!ends_stream(events[events.len() - 1]));
        let s = chat_transcript(id, created, model, events);
        let a = chat_transcript(id, created, model, before);
        let b = chat_events(id, created, model, events.last());
        assert forall|k: int| 0 <= k < s.len() implies #[trigger] s[k] != done_mark() by {
            if k < a.len() {
                assert(s[k] == a[k]);
            } else {
                assert(s[k] == b[k - a.len()]);
            }
        }
    }
}

} // verus!
