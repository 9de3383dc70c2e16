//! Extraction of role-tagged chat messages from loosely-structured history
//! records: a fixed priority order of JSON locations for the role, the
//! content and the message id, with content flattened from string,
//! array-of-parts or nested object forms.

use vstd::prelude::*;

use vstd::string::StrSliceExecFns;
use vstd::string::StringExecFns;
use vstd::string::StringSliceAdditionalSpecFns;
use vstd::utf8::encode_utf8;

use crate::json::JsonValue;
use crate::outside::lower_of;
use crate::outside::lowercase;
use crate::outside::render_of;
use crate::outside::render_json;
use crate::text::byte_len;
use crate::text::opt_str_view;
use crate::text::contains_seq;
use crate::text::contains_subslice;
use crate::text::lemma_byte_len_is_encode_len;
use crate::text::trim_spec;
use crate::text::trim_str;
use crate::text::truncate_spec;
use crate::text::truncate_to_bytes;

verus! {

/// One recognized chat message, ready to become a transcript event.
pub struct ChatMessage {
    /// Exactly `"assistant"` or `"user"`.
    pub role: String,
    /// The flattened content, cut to the byte budget.
    pub content: String,
    pub message_id: Option<String>,
    /// The whole source record, kept only when its rendering fits the
    /// byte budget.
    pub raw: Option<JsonValue>,
}

/// The mathematical image of one extracted message.
pub struct ChatMessageModel {
    pub role: Seq<char>,
    pub content: Seq<char>,
    pub message_id: Option<Seq<char>>,
    /// The record the message came from; attached as `raw` when small.
    pub src: JsonValue,
    pub raw_ok: bool,
}

/// The first JSON location that resolves for the role, in priority order.
pub open spec fn role_candidate(v: JsonValue) -> Option<JsonValue> {
    match v.spec_get2("message"@, "role"@) {
        Some(x) => Some(x),
        None => match v.spec_get("role"@) {
            Some(x) => Some(x),
            None => match v.spec_get2("item"@, "role"@) {
                Some(x) => Some(x),
                None => v.spec_get("type"@),
            },
        },
    }
}

/// The role a record resolves to: `assistant` or `user` when the folded
/// candidate string contains either word, nothing otherwise.
pub open spec fn role_of(v: JsonValue) -> Option<Seq<char>> {
    match role_candidate(v) {
        Some(c) => match c.spec_str() {
            Some(s) => {
                let low = lower_of(s);
                if contains_seq(encode_utf8(low), encode_utf8("assistant"@)) {
                    Some("assistant"@)
                } else if contains_seq(encode_utf8(low), encode_utf8("user"@)) {
                    Some("user"@)
                } else {
                    None
                }
            },
            None => None,
        },
        None => None,
    }
}

/// The first JSON location that resolves for the content.
pub open spec fn content_candidate(v: JsonValue) -> Option<JsonValue> {
    match v.spec_get2("message"@, "content"@) {
        Some(x) => Some(x),
        None => match v.spec_get("content"@) {
            Some(x) => Some(x),
            None => match v.spec_get2("message"@, "text"@) {
                Some(x) => Some(x),
                None => v.spec_get("text"@),
            },
        },
    }
}

/// The text one element of a content array contributes, if any.
pub open spec fn part_text(item: JsonValue) -> Option<Seq<char>> {
    if item.spec_str() is Some {
        item.spec_str()
    } else {
        let t1 = match item.spec_get("text"@) {
            Some(x) => x.spec_str(),
            None => None,
        };
        if t1 is Some {
            t1
        } else {
            match item.spec_get2("content"@, "text"@) {
                Some(x) => x.spec_str(),
                None => None,
            }
        }
    }
}

pub open spec fn parts_texts(items: Seq<JsonValue>) -> Seq<Seq<char>>
    decreases items.len(),
{
    if items.len() == 0 {
        Seq::empty()
    } else {
        (match part_text(items[0]) {
            Some(t) => seq![t],
            None => Seq::empty(),
        }) + parts_texts(items.drop_first())
    }
}

pub open spec fn join_nl(parts: Seq<Seq<char>>) -> Seq<char>
    decreases parts.len(),
{
    if parts.len() == 0 {
        Seq::empty()
    } else if parts.len() == 1 {
        parts[0]
    } else {
        parts[0] + seq!['\n'] + join_nl(parts.drop_first())
    }
}

/// The flattened content of a candidate value: the string itself, the
/// parts of an array joined with newlines, or an object's `text` member.
pub open spec fn flatten_of(v: JsonValue) -> Option<Seq<char>> {
    if v.spec_str() is Some {
        v.spec_str()
    } else {
        match v {
            JsonValue::Arr(items) => {
                let ps = parts_texts(items@);
                if ps.len() > 0 {
                    Some(join_nl(ps))
                } else {
                    None
                }
            },
            JsonValue::Obj(_) => match v.spec_get("text"@) {
                Some(x) => x.spec_str(),
                None => None,
            },
            _ => None,
        }
    }
}

/// The first JSON location that resolves for the message id.
pub open spec fn id_of(v: JsonValue) -> Option<Seq<char>> {
    match (match v.spec_get2("message"@, "id"@) {
        Some(x) => Some(x),
        None => v.spec_get("id"@),
    }) {
        Some(x) => x.spec_str(),
        None => None,
    }
}

/// The message a single record yields: role and content must resolve and
/// the content must not be blank; content is cut to the byte budget, and
/// the raw record is attached only when its rendering fits that budget.
pub open spec fn extract_single_spec(v: JsonValue, max: u64) -> Option<ChatMessageModel> {
    match role_of(v) {
        None => None,
        Some(role) => match content_candidate(v) {
            None => None,
            Some(cv) => match flatten_of(cv) {
                None => None,
                Some(content) => if trim_spec(content).len() == 0 {
                    None
                } else {
                    Some(
                        ChatMessageModel {
                            role: role,
                            content: truncate_spec(content, max as int),
                            message_id: id_of(v),
                            src: v,
                            raw_ok: byte_len(render_of(v)) <= max as int,
                        },
                    )
                },
            },
        },
    }
}

/// The messages a whole record yields: each element of its `messages`
/// array, or the record itself as a single message.
pub open spec fn extract_list_spec(items: Seq<JsonValue>, max: u64) -> Seq<ChatMessageModel>
    decreases items.len(),
{
    if items.len() == 0 {
        Seq::empty()
    } else {
        (match extract_single_spec(items[0], max) {
            Some(g) => seq![g],
            None => Seq::empty(),
        }) + extract_list_spec(items.drop_first(), max)
    }
}

pub open spec fn extract_messages_spec(v: JsonValue, max: u64) -> Seq<ChatMessageModel> {
    match v.spec_get("messages"@) {
        Some(JsonValue::Arr(items)) => extract_list_spec(items@, max),
        _ => match extract_single_spec(v, max) {
            Some(g) => seq![g],
            None => Seq::empty(),
        },
    }
}

/// An executable message realizes its model.
pub open spec fn msg_matches(m: ChatMessage, g: ChatMessageModel) -> bool {
    &&& m.role@ == g.role
    &&& m.content@ == g.content
    &&& opt_str_view(m.message_id) == g.message_id
    &&& m.raw == (if g.raw_ok {
        Some(g.src)
    } else {
        None::<JsonValue>
    })
}

pub open spec fn msgs_match(ms: Seq<ChatMessage>, gs: Seq<ChatMessageModel>) -> bool {
    ms.len() == gs.len() && (forall|i: int| 0 <= i < ms.len() ==> msg_matches(ms[i], #[trigger] gs[i]))
}

/// Maps one history record to at most one chat message.
pub fn extract_single_chat_message(v: JsonValue, max_event_bytes: u64) -> (r: Option<ChatMessage>)
    ensures
        match (r, extract_single_spec(v, max_event_bytes)) {
            (Some(m), Some(g)) => msg_matches(m, g),
            (None, None) => true,
            _ => false,
        },
{
    let cand = match v.get2("message", "role") {
        Some(x) => Some(x),
        None => match v.get("role") {
            Some(x) => Some(x),
            None => match v.get2("item", "role") {
                Some(x) => Some(x),
                None => v.get("type"),
            },
        },
    };
    let role: &str = match cand {
        None => {
            return None;
        },
        Some(c) => match c.as_str() {
            None => {
                return None;
            },
            Some(s) => {
                let low = lowercase(s.as_str());
                if contains_subslice(low.as_str().as_bytes(), "assistant".as_bytes()) {
                    "assistant"
                } else if contains_subslice(low.as_str().as_bytes(), "user".as_bytes()) {
                    "user"
                } else {
                    return None;
                }
            },
        },
    };
    let cv = match v.get2("message", "content") {
        Some(x) => Some(x),
        None => match v.get("content") {
            Some(x) => Some(x),
            None => match v.get2("message", "text") {
                Some(x) => Some(x),
                None => v.get("text"),
            },
        },
    };
    let cv = match cv {
        Some(x) => x,
        None => {
            return None;
        },
    };
    let content_raw = match flatten_content(cv) {
        Some(c) => c,
        None => {
            return None;
        },
    };
    let tr = trim_str(content_raw.as_str());
    if tr.as_str().is_empty() {
        return None;
    }
    let content = truncate_to_bytes(content_raw.as_str(), max_event_bytes);
    let idc = match v.get2("message", "id") {
        Some(x) => Some(x),
        None => v.get("id"),
    };
    let message_id: Option<String> = match idc {
        Some(x) => match x.as_str() {
            Some(s) => Some(s.clone()),
            None => None,
        },
        None => None,
    };
    let rendered = render_json(&v);
    let rblen = rendered.as_str().as_bytes().len();
    proof {
        lemma_byte_len_is_encode_len(render_of(v));
    }
    let raw = if rblen as u64 <= max_event_bytes {
        Some(v)
    } else {
        None
    };
    Some(ChatMessage { role: role.to_owned(), content, message_id, raw })
}

proof fn lemma_parts_texts_snoc(items: Seq<JsonValue>, x: JsonValue)
    ensures
        parts_texts(items.push(x)) == parts_texts(items) + (match part_text(x) {
            Some(t) => seq![t],
            None => Seq::<Seq<char>>::empty(),
        }),
    decreases items.len(),
{
    let tail = match part_text(x) {
        Some(t) => seq![t],
        None => Seq::<Seq<char>>::empty(),
    };
    let p = items.push(x);
    if items.len() == 0 {
        assert(p[0] == x);
        assert(p.drop_first() =~= Seq::<JsonValue>::empty());
        assert(parts_texts(p.drop_first()) =~= Seq::<Seq<char>>::empty());
        assert(parts_texts(p) == (match part_text(p[0]) {
            Some(t) => seq![t],
            None => Seq::<Seq<char>>::empty(),
        }) + parts_texts(p.drop_first()));
        assert(parts_texts(p) =~= parts_texts(items) + tail);
    } else {
        assert(p[0] == items[0]);
        assert(p.drop_first() =~= items.drop_first().push(x));
        lemma_parts_texts_snoc(items.drop_first(), x);
        assert(parts_texts(p) == (match part_text(p[0]) {
            Some(t) => seq![t],
            None => Seq::<Seq<char>>::empty(),
        }) + parts_texts(p.drop_first()));
        assert(parts_texts(p) =~= parts_texts(items) + tail);
    }
}

proof fn lemma_join_nl_snoc(parts: Seq<Seq<char>>, t: Seq<char>)
    requires
        parts.len() > 0,
    ensures
        join_nl(parts.push(t)) == join_nl(parts) + seq!['\n'] + t,
    decreases parts.len(),
{
    let p = parts.push(t);
    assert(p.len() == parts.len() + 1);
    if parts.len() == 1 {
        assert(p[0] == parts[0]);
        assert(p.drop_first() =~= seq![t]);
        assert(join_nl(p.drop_first()) == t);
        assert(join_nl(p) == p[0] + seq!['\n'] + join_nl(p.drop_first()));
        assert(join_nl(p) =~= join_nl(parts) + seq!['\n'] + t);
    } else {
        assert(p[0] == parts[0]);
        assert(p.drop_first() =~= parts.drop_first().push(t));
        lemma_join_nl_snoc(parts.drop_first(), t);
        assert(join_nl(p) == p[0] + seq!['\n'] + join_nl(p.drop_first()));
        assert(join_nl(parts) == parts[0] + seq!['\n'] + join_nl(parts.drop_first()));
        assert(join_nl(p) =~= join_nl(parts) + seq!['\n'] + t);
    }
}

/// Flattens a content value to text, if it has any.
pub fn flatten_content(value: &JsonValue) -> (r: Option<String>)
    ensures
        match r {
            Some(s) => flatten_of(*value) == Some(s@),
            None => flatten_of(*value) is None,
        },
{
    if let Some(s) = value.as_str() {
        return Some(s.clone());
    }
    match value {
        JsonValue::Arr(items) => {
            let n = items.len();
            let mut out = String::new();
            let mut any = false;
            let mut i: usize = 0;
            proof {
                assert(items@.take(0) =~= Seq::<JsonValue>::empty());
            }
            while i < n
                invariant
                    n == items@.len(),
                    i <= n,
                    *value == JsonValue::Arr(*items),
                    value.spec_str() is None,
                    any == (parts_texts(items@.take(i as int)).len() > 0),
                    any ==> out@ == join_nl(parts_texts(items@.take(i as int))),
                    !any ==> out@ == Seq::<char>::empty(),
                decreases n - i,
            {
                let item = &items[i];
                let t: Option<&String> = match item.as_str() {
                    Some(s) => Some(s),
                    None => match item.get("text") {
                        Some(x) => match x.as_str() {
                            Some(s) => Some(s),
                            None => match item.get2("content", "text") {
                                Some(y) => y.as_str(),
                                None => None,
                            },
                        },
                        None => match item.get2("content", "text") {
                            Some(y) => y.as_str(),
                            None => None,
                        },
                    },
                };
                proof {
                    assert(items@.take(i as int + 1) =~= items@.take(i as int).push(
                        items@[i as int],
                    ));
                    lemma_parts_texts_snoc(items@.take(i as int), items@[i as int]);
                }
                match t {
                    Some(s) => {
                        let ghost out0 = out@;
                        let ghost was_any = any;
                        if any {
                            out.append("\n");
                            proof {
                                reveal_strlit("\n");
                                assert("\n"@ =~= seq!['\n']);
                            }
                        }
                        out.append(s.as_str());
                        any = true;
                        proof {
                            assert(part_text(items@[i as int]) == Some(s@));
                            let ps = parts_texts(items@.take(i as int));
                            let ps2 = parts_texts(items@.take(i as int + 1));
                            assert(ps2 =~= ps.push(s@));
                            if was_any {
                                lemma_join_nl_snoc(ps, s@);
                                reveal_strlit("\n");
                                assert("\n"@ =~= seq!['\n']);
                                assert(join_nl(ps.push(s@)) == join_nl(ps) + seq!['\n'] + s@);
                                assert(join_nl(ps2) == join_nl(ps.push(s@)));
                                assert(out@ == out0 + "\n"@ + s@);
                                assert(out0 == join_nl(ps));
                                assert(out@ == join_nl(ps) + seq!['\n'] + s@);
                                assert(out@ == join_nl(ps2));
                            } else {
                                assert(ps2.len() == 1);
                                assert(join_nl(ps2) == ps2[0]);
                                assert(out@ == out0 + s@);
                                assert(out@ =~= s@);
                                assert(out@ == join_nl(ps2));
                            }
                        }
                    },
                    None => {
                        proof {
                            assert(part_text(items@[i as int]) is None);
                            assert(parts_texts(items@.take(i as int + 1)) =~= parts_texts(
                                items@.take(i as int),
                            ));
                        }
                    },
                }
                i += 1;
            }
            proof {
                assert(items@.take(n as int) =~= items@);
            }
            if any {
                Some(out)
            } else {
                None
            }
        },
        JsonValue::Obj(_) => match value.get("text") {
            Some(x) => match x.as_str() {
                Some(s) => Some(s.clone()),
                None => None,
            },
            None => None,
        },
        _ => None,
    }
}

/// Maps one history record to its chat messages: the elements of a
/// `messages` array, or the record itself as a single message.
pub fn extract_chat_messages(value: JsonValue, max_event_bytes: u64) -> (r: Vec<ChatMessage>)
    ensures
        msgs_match(r@, extract_messages_spec(value, max_event_bytes)),
{
    let ghost gv = value;
    match value {
        JsonValue::Obj(pairs) => {
            match find_messages_idx(&pairs) {
                Some(idx) => {
                    let is_arr = matches!(&pairs[idx].1, JsonValue::Arr(_));
                    if is_arr {
                        let mut pairs = pairs;
                        let p = pairs.remove(idx);
                        match p.1 {
                            JsonValue::Arr(items) => extract_from_list(
                                items,
                                max_event_bytes,
                                Ghost(gv),
                            ),
                            _ => {
                                // ruled out by the check above
                                Vec::new()
                            },
                        }
                    } else {
                        extract_one(JsonValue::Obj(pairs), max_event_bytes, Ghost(gv))
                    }
                },
                None => extract_one(JsonValue::Obj(pairs), max_event_bytes, Ghost(gv)),
            }
        },
        other => extract_one(other, max_event_bytes, Ghost(gv)),
    }
}

fn find_messages_idx(pairs: &Vec<(String, JsonValue)>) -> (r: Option<usize>)
    ensures
        match r {
            Some(i) => i < pairs@.len() && crate::json::pairs_get(pairs@, "messages"@) == Some(
                pairs@[i as int].1,
            ),
            None => crate::json::pairs_get(pairs@, "messages"@) is None,
        },
{
    let n = pairs.len();
    let mut idx: usize = 0;
    proof {
        assert(pairs@.skip(0) =~= pairs@);
    }
    while idx < n
        invariant
            n == pairs@.len(),
            idx <= n,
            crate::json::pairs_get(pairs@, "messages"@) == crate::json::pairs_get(
                pairs@.skip(idx as int),
                "messages"@,
            ),
        decreases n - idx,
    {
        proof {
            assert(pairs@.skip(idx as int)[0] == pairs@[idx as int]);
            assert(pairs@.skip(idx as int).drop_first() =~= pairs@.skip(idx as int + 1));
        }
        if crate::text::str_eq(pairs[idx].0.as_str(), "messages") {
            return Some(idx);
        }
        idx += 1;
    }
    proof {
        assert(pairs@.skip(n as int) =~= Seq::<(String, JsonValue)>::empty());
    }
    None
}

fn extract_one(v: JsonValue, max: u64, Ghost(gv): Ghost<JsonValue>) -> (r: Vec<ChatMessage>)
    requires
        v == gv,
        gv.spec_get("messages"@) matches Some(m) ==> !(m is Arr),
    ensures
        msgs_match(r@, extract_messages_spec(gv, max)),
{
    let mut out: Vec<ChatMessage> = Vec::new();
    match extract_single_chat_message(v, max) {
        Some(m) => {
            out.push(m);
        },
        None => {},
    }
    out
}

fn extract_from_list(items: Vec<JsonValue>, max: u64, Ghost(gv): Ghost<JsonValue>) -> (r: Vec<
    ChatMessage,
>)
    requires
        gv.spec_get("messages"@) == Some(JsonValue::Arr(items)),
    ensures
        msgs_match(r@, extract_messages_spec(gv, max)),
{
    let ghost items0 = items@;
    let mut items = items;
    let mut out: Vec<ChatMessage> = Vec::new();
    let ghost mut gdone: Seq<ChatMessageModel> = Seq::empty();
    proof {
        assert(gdone + extract_list_spec(items@, max) =~= extract_list_spec(items0, max));
    }
    while items.len() > 0
        invariant
            msgs_match(out@, gdone),
            gdone + extract_list_spec(items@, max) == extract_list_spec(items0, max),
        decreases items.len(),
    {
        let ghost pre = items@;
        let item = items.remove(0);
        proof {
            assert(pre.subrange(1, pre.len() as int) =~= pre.drop_first());
        }
        match extract_single_chat_message(item, max) {
            Some(m) => {
                proof {
                    let g = extract_single_spec(item, max)->Some_0;
                    assert(extract_list_spec(pre, max) == seq![g] + extract_list_spec(
                        pre.drop_first(),
                        max,
                    ));
                    gdone = gdone.push(g);
                    assert(gdone + extract_list_spec(items@, max) =~= extract_list_spec(
                        items0,
                        max,
                    ));
                }
                out.push(m);
                proof {
                    assert forall|i: int| 0 <= i < out@.len() implies msg_matches(
                        out@[i],
                        #[trigger] gdone[i],
                    ) by {
                        if i < out@.len() - 1 {
                            assert(msg_matches(out@[i], gdone[i]));
                        }
                    }
                }
            },
            None => {
                proof {
                    assert(extract_list_spec(pre, max) == extract_list_spec(
                        pre.drop_first(),
                        max,
                    ));
                    assert(gdone + extract_list_spec(items@, max) =~= extract_list_spec(
                        items0,
                        max,
                    ));
                }
            },
        }
    }
    proof {
        assert(extract_list_spec(items@, max) =~= Seq::<ChatMessageModel>::empty());
        assert(gdone =~= extract_list_spec(items0, max));
    }
    out
}

} // verus!
