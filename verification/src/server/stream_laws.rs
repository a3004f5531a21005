//! What a client finds in the events of a stream.
use vstd::prelude::*;

use crate::json::{count, Tree};
use crate::server::inference::{GenEvent, StopReason};
use crate::server::stream::{
    chat_events, completion_events, finish_text, message_events, native_events,
    reason_text, Sent,
};

verus! {

/// The value is an object with this member.
pub open spec fn holds(t: Tree, key: Seq<char>, v: Tree) -> bool {
    t matches Tree::Object(m) && m.contains((key, v))
}

/// The event has no name and carries an object whose only choice holds this member.
pub open spec fn choice_holds(s: Sent, key: Seq<char>, v: Tree) -> bool {
    &&& s.event is None
    &&& s.data matches Some(t) && exists|choice: Tree|
        #![trigger holds(choice, key, v)]
        holds(t, "choices"@, Tree::Array(seq![choice])) && holds(choice, key, v)
}

/// The event has this name and carries an object of the same type.
pub open spec fn is_typed(s: Sent, name: Seq<char>) -> bool {
    &&& s.event == Some(name)
    &&& s.data matches Some(t) && holds(t, "type"@, Tree::Text(name))
}

/// The event carries an object with an object under `outer`, which holds this
/// member.
pub open spec fn inner_holds(s: Sent, outer: Seq<char>, key: Seq<char>, v: Tree) -> bool {
    s.data matches Some(t) && exists|o: Tree|
        #![trigger holds(o, key, v)]
        holds(t, outer, o) && holds(o, key, v)
}

/// The member at place `i` is a member.
proof fn lemma_member(m: Seq<(Seq<char>, Tree)>, i: int)
    requires
        0 <= i < m.len(),
    ensures
        holds(Tree::Object(m), m[i].0, m[i].1),
{
    assert(m.contains(m[i]));
}

/// Every member of an object is a member.
proof fn lemma_members(t: Tree)
    ensures
        t matches Tree::Object(m) ==> forall|i: int|
            0 <= i < m.len() ==> holds(t, (#[trigger] m[i]).0, m[i].1),
{
    if let Tree::Object(m) = t {
        assert forall|i: int| 0 <= i < m.len() implies holds(t, (#[trigger] m[i]).0, m[i].1) by {
            lemma_member(m, i);
        }
    }
}

/// A chat stream opens with the assistant's role, sends each piece of text as it
/// is, and closes with the reason and the word that ends a stream; a failure is
/// reported and closes it too.
pub proof fn law_chat_events_carry_the_reply(
    id: Seq<char>,
    created: i64,
    model: Seq<char>,
    ev: GenEvent,
)
    ensures
        ({
            let s = chat_events(id, created, model, ev);
            match ev {
                GenEvent::Started { .. } => s.len() == 1 && exists|d: Tree|
                    #![trigger holds(d, "role"@, Tree::Text("assistant"@))]
                    choice_holds(s[0], "delta"@, d) && holds(
                        d,
                        "role"@,
                        Tree::Text("assistant"@),
                    ),
                GenEvent::Delta(t) => s.len() == 1 && exists|d: Tree|
                    #![trigger holds(d, "content"@, Tree::Text(t@))]
                    choice_holds(s[0], "delta"@, d) && holds(d, "content"@, Tree::Text(t@)),
                GenEvent::Done { stop_reason, .. } => s.len() == 2 && choice_holds(
                    s[0],
                    "finish_reason"@,
                    Tree::Text(finish_text(stop_reason)),
                ) && s[1].data is None,
                GenEvent::Error(e) => s.len() == 2 && inner_holds(
                    s[0],
                    "error"@,
                    "message"@,
                    Tree::Text(e@),
                ) && s[1].data is None,
            }
        }),
{
    let s = chat_events(id, created, model, ev);
    let t = s[0].data->0;
    lemma_members(t);
    match ev {
        GenEvent::Error(_) => {
            let o = t->Object_0[0].1;
            lemma_members(o);
            assert(o->Object_0[0].0 == "message"@);
        },
        _ => {
            assert(t->Object_0[4].0 == "choices"@);
            let choice = t->Object_0[4].1->Array_0[0];
            assert(t->Object_0[4].1->Array_0 =~= seq![choice]);
            lemma_members(choice);
            assert(choice->Object_0[1].0 == "delta"@);
            assert(choice->Object_0[2].0 == "finish_reason"@);
            let d = choice->Object_0[1].1;
            lemma_members(d);
            assert(ev is Started ==> d->Object_0[0].0 == "role"@);
            assert(ev is Delta ==> d->Object_0[0].0 == "content"@);
        },
    }
}

/// A completion stream sends each piece of text as it is, and closes with the
/// reason and the word that ends a stream.
pub proof fn law_completion_events_carry_the_reply(
    id: Seq<char>,
    created: i64,
    model: Seq<char>,
    ev: GenEvent,
)
    ensures
        ({
            let s = completion_events(id, created, model, ev);
            match ev {
                GenEvent::Started { .. } => s.len() == 0,
                GenEvent::Delta(t) => s.len() == 1 && choice_holds(s[0], "text"@, Tree::Text(t@)),
                GenEvent::Done { stop_reason, .. } => s.len() == 2 && choice_holds(
                    s[0],
                    "finish_reason"@,
                    Tree::Text(finish_text(stop_reason)),
                ) && s[1].data is None,
                GenEvent::Error(e) => s.len() == 2 && inner_holds(
                    s[0],
                    "error"@,
                    "message"@,
                    Tree::Text(e@),
                ) && s[1].data is None,
            }
        }),
{
    let s = completion_events(id, created, model, ev);
    if !(ev is Started) {
        let t = s[0].data->0;
        lemma_members(t);
        match ev {
            GenEvent::Error(_) => {
                let o = t->Object_0[0].1;
                lemma_members(o);
                assert(o->Object_0[0].0 == "message"@);
            },
            _ => {
                assert(t->Object_0[4].0 == "choices"@);
                let choice = t->Object_0[4].1->Array_0[0];
                assert(t->Object_0[4].1->Array_0 =~= seq![choice]);
                lemma_members(choice);
                assert(choice->Object_0[1].0 == "text"@);
                assert(choice->Object_0[2].0 == "finish_reason"@);
            },
        }
    }
}

/// A native stream sends each piece of text as it is with `stop` unset, and closes
/// with one event that has it set, the token counts each under its own name, and a
/// flag for what ended the reply.
pub proof fn law_native_events_carry_the_reply(model: Seq<char>, ev: GenEvent)
    ensures
        ({
            let s = native_events(model, ev);
            match ev {
                GenEvent::Started { .. } => s.len() == 0,
                GenEvent::Delta(t) => s.len() == 1 && (s[0].data matches Some(v) && holds(
                    v,
                    "content"@,
                    Tree::Text(t@),
                ) && holds(v, "stop"@, Tree::Bool(false))),
                GenEvent::Done { stop_reason, prompt_tokens, completion_tokens } => s.len() == 1
                    && (s[0].data matches Some(v) && {
                    &&& holds(v, "stop"@, Tree::Bool(true))
                    &&& holds(v, "tokens_evaluated"@, count(prompt_tokens as u64))
                    &&& holds(v, "tokens_predicted"@, count(completion_tokens as u64))
                    &&& holds(v, "stopped_eos"@, Tree::Bool(stop_reason is Eos))
                    &&& holds(v, "stopped_word"@, Tree::Bool(stop_reason is StopSequence))
                    &&& holds(
                        v,
                        "stopped_limit"@,
                        Tree::Bool(!(stop_reason is Eos) && !(stop_reason is StopSequence)),
                    )
                    &&& stop_reason matches StopReason::StopSequence(w) ==> holds(
                        v,
                        "stopping_word"@,
                        Tree::Text(w@),
                    )
                }),
                GenEvent::Error(e) => s.len() == 1 && (s[0].data matches Some(v) && holds(
                    v,
                    "error"@,
                    Tree::Text(e@),
                ) && holds(v, "stop"@, Tree::Bool(true))),
            }
        }),
{
    let s = native_events(model, ev);
    if !(ev is Started) {
        let t = s[0].data->0;
        lemma_members(t);
        let m = t->Object_0;
        assert(m[0].0 == "content"@ && m[1].0 == "stop"@);
        if ev is Error {
            assert(m[2].0 == "error"@);
        }
        if ev is Done {
            assert(m[3].0 == "tokens_predicted"@ && m[4].0 == "tokens_evaluated"@);
            assert(m[5].0 == "stopped_eos"@ && m[6].0 == "stopped_word"@);
            assert(m[7].0 == "stopped_limit"@ && m[8].0 == "stopping_word"@);
        }
    }
}

/// A message stream opens the message with the prompt's token count and then its
/// text, sends each piece of text as it is, and closes the text where it was opened,
/// then the message with the reason and the reply's token count.
pub proof fn law_message_events_carry_the_reply(
    id: Seq<char>,
    model: Seq<char>,
    open: bool,
    ev: GenEvent,
)
    ensures
        ({
            let s = message_events(id, model, open, ev);
            match ev {
                GenEvent::Started { prompt_tokens } => {
                    &&& s.len() == 2
                    &&& is_typed(s[0], "message_start"@)
                    &&& is_typed(s[1], "content_block_start"@)
                    &&& exists|m: Tree, u: Tree|
                        #![trigger holds(m, "usage"@, u)]
                        holds(s[0].data->0, "message"@, m) && holds(m, "usage"@, u) && holds(
                            u,
                            "input_tokens"@,
                            count(prompt_tokens as u64),
                        )
                },
                GenEvent::Delta(t) => {
                    &&& s.len() == 1
                    &&& is_typed(s[0], "content_block_delta"@)
                    &&& inner_holds(s[0], "delta"@, "text"@, Tree::Text(t@))
                },
                GenEvent::Done { stop_reason, completion_tokens, .. } => {
                    let at: int = if open {
                        1
                    } else {
                        0
                    };
                    &&& s.len() == at + 2
                    &&& open ==> is_typed(s[0], "content_block_stop"@)
                    &&& is_typed(s[at], "message_delta"@)
                    &&& inner_holds(
                        s[at],
                        "delta"@,
                        "stop_reason"@,
                        Tree::Text(reason_text(stop_reason)),
                    )
                    &&& inner_holds(
                        s[at],
                        "usage"@,
                        "output_tokens"@,
                        count(completion_tokens as u64),
                    )
                    &&& stop_reason matches StopReason::StopSequence(w) ==> inner_holds(
                        s[at],
                        "delta"@,
                        "stop_sequence"@,
                        Tree::Text(w@),
                    )
                    &&& is_typed(s[at + 1], "message_stop"@)
                },
                GenEvent::Error(e) => {
                    &&& s.len() == 1
                    &&& is_typed(s[0], "error"@)
                    &&& inner_holds(s[0], "error"@, "message"@, Tree::Text(e@))
                },
            }
        }),
{
    let s = message_events(id, model, open, ev);
    let t = s[0].data->0;
    lemma_members(t);
    assert(t->Object_0[0].0 == "type"@);
    match ev {
        GenEvent::Started { .. } => {
            lemma_members(s[1].data->0);
            assert(s[1].data->0->Object_0[0].0 == "type"@);
            assert(t->Object_0[1].0 == "message"@);
            let m = t->Object_0[1].1;
            lemma_members(m);
            assert(m->Object_0[7].0 == "usage"@);
            let u = m->Object_0[7].1;
            lemma_members(u);
            assert(u->Object_0[0].0 == "input_tokens"@);
        },
        GenEvent::Delta(_) => {
            assert(t->Object_0[2].0 == "delta"@);
            let d = t->Object_0[2].1;
            lemma_members(d);
            assert(d->Object_0[1].0 == "text"@);
        },
        GenEvent::Done { .. } => {
            let at: int = if open {
                1
            } else {
                0
            };
            let v = s[at].data->0;
            lemma_members(v);
            assert(v->Object_0[0].0 == "type"@);
            assert(v->Object_0[1].0 == "delta"@ && v->Object_0[2].0 == "usage"@);
            let d = v->Object_0[1].1;
            let u = v->Object_0[2].1;
            lemma_members(d);
            lemma_members(u);
            assert(d->Object_0[0].0 == "stop_reason"@ && d->Object_0[1].0 == "stop_sequence"@);
            assert(u->Object_0[0].0 == "output_tokens"@);
            lemma_members(s[at + 1].data->0);
            assert(s[at + 1].data->0->Object_0[0].0 == "type"@);
        },
        GenEvent::Error(_) => {
            assert(t->Object_0[1].0 == "error"@);
            let o = t->Object_0[1].1;
            lemma_members(o);
            assert(o->Object_0[1].0 == "message"@);
        },
    }
}

/// Both surfaces agree on why a reply ended: it is cut short on the one exactly
/// where it ran out of tokens on the other, and otherwise the model ended it or a
/// stop sequence did.
pub proof fn law_reasons_agree(why: StopReason)
    ensures
        finish_text(why) == "length"@ <==> why is MaxTokens || why is ContextFull,
        finish_text(why) == "stop"@ <==> why is Eos || why is StopSequence,
        reason_text(why) == "max_tokens"@ <==> why is MaxTokens || why is ContextFull,
        reason_text(why) == "end_turn"@ <==> why is Eos,
        reason_text(why) == "stop_sequence"@ <==> why is StopSequence,
{
    reveal_strlit("length");
    reveal_strlit("stop");
    reveal_strlit("max_tokens");
    reveal_strlit("end_turn");
    reveal_strlit("stop_sequence");
    assert("length"@.len() == 6 && "stop"@.len() == 4 && "max_tokens"@.len() == 10
        && "end_turn"@.len() == 8 && "stop_sequence"@.len() == 13);
}

} // verus!
