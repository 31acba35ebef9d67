//! The chat-completions exchange: the endpoint URL, the messages sent, the
//! options merged into the request, and what is made of the reply.
use vstd::prelude::*;

use crate::config::{
    find_model, find_prompt, lemma_position_in_range, model_names, prompt_names, json_shape, json_shape_of, model_index, prompt_index, Config,
    Defaults, JsonForm, JsonShape, ModelConfig, entries_view, entry_keys,
};
use crate::text::{chars_of, is_blank, is_blank_seq, join_with, owned, push_chars, push_str, text_eq};
use crate::thinking::{
    copy_delimiters, delims_view, merge_reasoning, merged_content, Delimiter,
};

verus! {

/// The path of the chat-completions endpoint.
pub open spec fn chat_path() -> Seq<char> {
    seq!['/', 'c', 'h', 'a', 't', '/', 'c', 'o', 'm', 'p', 'l', 'e', 't', 'i', 'o', 'n', 's']
}

/// The version segment that precedes it.
pub open spec fn version_path() -> Seq<char> {
    seq!['/', 'v', '1']
}

/// `s` without trailing `c` characters.
pub open spec fn trim_end_char(s: Seq<char>, c: char) -> Seq<char>
    decreases s.len(),
{
    if s.len() > 0 && s.last() == c {
        trim_end_char(s.drop_last(), c)
    } else {
        s
    }
}

/// `s` ends with `suffix`.
pub open spec fn ends_with(s: Seq<char>, suffix: Seq<char>) -> bool {
    &&& suffix.len() <= s.len()
    &&& s.subrange(s.len() - suffix.len(), s.len() as int) == suffix
}

/// The URL that requests go to: the endpoint without trailing slashes, with
/// `/v1/chat/completions` completed as far as it is missing.
pub open spec fn chat_url(endpoint: Seq<char>) -> Seq<char> {
    let t = trim_end_char(endpoint, '/');
    if ends_with(t, chat_path()) {
        t
    } else if ends_with(t, version_path()) {
        t + chat_path()
    } else {
        t + version_path() + chat_path()
    }
}

fn ends_with_chars(v: &Vec<char>, len: usize, suffix: &Vec<char>) -> (r: bool)
    requires
        len <= v.len(),
    ensures
        r == ends_with(v@.take(len as int), suffix@),
{
    if suffix.len() > len {
        return false;
    }
    let base = len - suffix.len();
    let mut j: usize = 0;
    while j < suffix.len()
        invariant
            base + suffix.len() == len <= v.len(),
            j <= suffix.len(),
            forall|t: int| 0 <= t < j ==> v@[base + t] == suffix@[t],
        decreases suffix.len() - j,
    {
        if v[base + j] != suffix[j] {
            assert(v@.take(len as int).subrange(base as int, len as int)[j as int] != suffix@[j as int]);
            return false;
        }
        j = j + 1;
    }
    assert(v@.take(len as int).subrange(base as int, len as int) =~= suffix@);
    true
}

proof fn lemma_trim_end_char_take(s: Seq<char>, c: char, k: int)
    requires
        0 <= k <= s.len(),
        forall|j: int| k <= j < s.len() ==> #[trigger] s[j] == c,
    ensures
        trim_end_char(s, c) == trim_end_char(s.take(k), c),
    decreases s.len() - k,
{
    if k < s.len() {
        assert(s.drop_last().take(k) == s.take(k));
        lemma_trim_end_char_take(s.drop_last(), c, k);
    } else {
        assert(s.take(s.len() as int) == s);
    }
}

/// The chat-completions URL for an endpoint given as `https://host`,
/// `https://host/v1` or the full `.../v1/chat/completions`.
pub fn build_chat_url(endpoint: &str) -> (r: String)
    ensures
        r@ == chat_url(endpoint@),
{
    let v = chars_of(endpoint);
    let mut n = v.len();
    while n > 0 && v[n - 1] == '/'
        invariant
            n <= v.len(),
            v@ == endpoint@,
            forall|j: int| n <= j < v.len() ==> #[trigger] v@[j] == '/',
        decreases n,
    {
        n = n - 1;
    }
    proof {
        lemma_trim_end_char_take(v@, '/', n as int);
        let t = v@.take(n as int);
        if n > 0 {
            assert(t.last() != '/');
        }
        assert(trim_end_char(t, '/') == t);
    }
    let chat = chars_of("/chat/completions");
    let version = chars_of("/v1");
    proof {
        reveal_strlit("/chat/completions");
        reveal_strlit("/v1");
        assert(chat@ == chat_path());
        assert(version@ == version_path());
    }
    let mut out = String::new();
    push_chars(&mut out, &v, 0, n);
    assert(v@.subrange(0, n as int) == v@.take(n as int));
    if ends_with_chars(&v, n, &chat) {
    } else if ends_with_chars(&v, n, &version) {
        push_chars(&mut out, &chat, 0, chat.len());
        assert(chat@.subrange(0, chat.len() as int) == chat@);
    } else {
        push_chars(&mut out, &version, 0, version.len());
        push_chars(&mut out, &chat, 0, chat.len());
        assert(chat@.subrange(0, chat.len() as int) == chat@);
        assert(version@.subrange(0, version.len() as int) == version@);
    }
    out
}

/// Every URL built ends with the chat-completions path.
pub proof fn law_chat_url_ends_with_path(endpoint: Seq<char>)
    ensures
        ends_with(chat_url(endpoint), chat_path()),
{
    let t = trim_end_char(endpoint, '/');
    if !ends_with(t, chat_path()) {
        if ends_with(t, version_path()) {
            assert((t + chat_path()).subrange(t.len() as int, (t + chat_path()).len() as int)
                == chat_path());
        } else {
            let u = t + version_path();
            assert((u + chat_path()).subrange(u.len() as int, (u + chat_path()).len() as int)
                == chat_path());
        }
    }
}

/// Building the URL from a URL built before gives it back unchanged: a full
/// chat-completions URL is accepted as the endpoint.
pub proof fn law_chat_url_idempotent(endpoint: Seq<char>)
    ensures
        chat_url(chat_url(endpoint)) == chat_url(endpoint),
{
    let u = chat_url(endpoint);
    law_chat_url_ends_with_path(endpoint);
    assert(u.subrange(u.len() - 17, u.len() as int) == chat_path());
    assert(u.last() == u.subrange(u.len() - 17, u.len() as int)[16]);
    assert(u.last() == 's');
    assert(trim_end_char(u, '/') == u);
}

/// Why a chat cannot be sent, or its reply not used.
#[derive(Debug)]
pub enum ChatError {
    ModelNotFound(String),
    PresetNotFound(String),
    /// The model's options, named by the model, are not valid JSON.
    OptionsNotJson(String),
    /// The model's options, named by the model, are not a JSON object.
    OptionsNotObject(String),
    /// The model's options try to set a key that the request already has:
    /// the model, then the key.
    OptionOverride(String, String),
    /// The reply holds no choice.
    MissingAssistantMessage,
}

/// A refused chat, with the names it mentions as texts.
pub enum ChatProblem {
    ModelNotFound(Seq<char>),
    PresetNotFound(Seq<char>),
    OptionsNotJson(Seq<char>),
    OptionsNotObject(Seq<char>),
    OptionOverride(Seq<char>, Seq<char>),
    MissingAssistantMessage,
}

impl View for ChatError {
    type V = ChatProblem;

    open spec fn view(&self) -> ChatProblem {
        match self {
            ChatError::ModelNotFound(n) => ChatProblem::ModelNotFound(n@),
            ChatError::PresetNotFound(n) => ChatProblem::PresetNotFound(n@),
            ChatError::OptionsNotJson(n) => ChatProblem::OptionsNotJson(n@),
            ChatError::OptionsNotObject(n) => ChatProblem::OptionsNotObject(n@),
            ChatError::OptionOverride(n, k) => ChatProblem::OptionOverride(n@, k@),
            ChatError::MissingAssistantMessage => ChatProblem::MissingAssistantMessage,
        }
    }
}

/// The configuration of the model called `name`.
pub fn resolve_model<'a>(config: &'a Config, name: &str) -> (r: Result<&'a ModelConfig, ChatError>)
    ensures
        match model_index(config, name@) {
            Some(i) => r == Ok::<&ModelConfig, ChatError>(&config.models@[i].1),
            None => r matches Err(e) && e@ == ChatProblem::ModelNotFound(name@),
        },
{
    proof {
        lemma_position_in_range(model_names(config), name@, 0);
    }
    match find_model(config, name) {
        Some(i) => Ok(&config.models[i].1),
        None => Err(ChatError::ModelNotFound(owned(name))),
    }
}

/// One message of the conversation sent.
#[derive(Debug, Clone)]
pub struct Message {
    pub role: String,
    pub content: String,
}

impl View for Message {
    type V = (Seq<char>, Seq<char>);

    open spec fn view(&self) -> (Seq<char>, Seq<char>) {
        (self.role@, self.content@)
    }
}

pub open spec fn system_role() -> Seq<char> {
    seq!['s', 'y', 's', 't', 'e', 'm']
}

pub open spec fn user_role() -> Seq<char> {
    seq!['u', 's', 'e', 'r']
}

/// The conversation sent: the model's system prompt, then the preset
/// prompt, each only when not blank, then the user's input.
pub open spec fn chat_messages(system_prompt: Option<Seq<char>>, preset: Seq<char>, user: Seq<char>) -> Seq<
    (Seq<char>, Seq<char>),
> {
    let from_model = match system_prompt {
        Some(p) => if is_blank_seq(p) {
            Seq::<(Seq<char>, Seq<char>)>::empty()
        } else {
            seq![(system_role(), p)]
        },
        None => Seq::<(Seq<char>, Seq<char>)>::empty(),
    };
    let from_preset = if is_blank_seq(preset) {
        Seq::<(Seq<char>, Seq<char>)>::empty()
    } else {
        seq![(system_role(), preset)]
    };
    from_model + from_preset + seq![(user_role(), user)]
}

/// The conversation always ends with the user's input, and every message
/// before it is a system message (at most two of them).
pub proof fn law_user_input_comes_last(system_prompt: Option<Seq<char>>, preset: Seq<char>, user: Seq<char>)
    ensures
        ({
            let ms = chat_messages(system_prompt, preset, user);
            &&& 1 <= ms.len() <= 3
            &&& ms.last() == (user_role(), user)
            &&& forall|i: int| 0 <= i < ms.len() - 1 ==> (#[trigger] ms[i]).0 == system_role()
        }),
{
}

/// Whatever the model's own system prompt, a nonblank preset prompt is sent
/// as a system message right before the user's input; a nonblank system
/// prompt of the model is sent first, as a system message; and a blank prompt
/// of either kind is not sent.
pub proof fn law_preset_prompt_is_always_sent(
    system_prompt: Option<Seq<char>>,
    preset: Seq<char>,
    user: Seq<char>,
)
    ensures
        ({
            let ms = chat_messages(system_prompt, preset, user);
            let model_sent = system_prompt matches Some(p) && !is_blank_seq(p);
            &&& ms.len() == 1 + (if model_sent {
                1int
            } else {
                0int
            }) + (if is_blank_seq(preset) {
                0int
            } else {
                1int
            })
            &&& ms[ms.len() - 1] == (seq!['u', 's', 'e', 'r'], user)
            &&& !is_blank_seq(preset) ==> ms[ms.len() - 2] == (
                seq!['s', 'y', 's', 't', 'e', 'm'],
                preset,
            )
            &&& system_prompt matches Some(p) ==> (!is_blank_seq(p) ==> ms[0] == (
                seq!['s', 'y', 's', 't', 'e', 'm'],
                p,
            ))
        }),
{
}

/// The messages as pairs of role and content.
pub open spec fn messages_view(ms: Seq<Message>) -> Seq<(Seq<char>, Seq<char>)> {
    ms.map_values(|m: Message| m@)
}

fn message(role_is_system: bool, content: &str) -> (r: Message)
    ensures
        r@ == (if role_is_system {
            system_role()
        } else {
            user_role()
        }, content@),
{
    let role = if role_is_system {
        proof {
            reveal_strlit("system");
        }
        owned("system")
    } else {
        proof {
            reveal_strlit("user");
        }
        owned("user")
    };
    Message { role, content: owned(content) }
}

/// The conversation for one chat.
pub fn build_messages(model: &ModelConfig, preset_text: &str, user_input: &str) -> (r: Vec<Message>)
    ensures
        messages_view(r@) == chat_messages(
            match model.system_prompt {
                Some(p) => Some(p@),
                None => None,
            },
            preset_text@,
            user_input@,
        ),
{
    let mut messages: Vec<Message> = Vec::new();
    if let Some(p) = &model.system_prompt {
        if !is_blank(p.as_str()) {
            messages.push(message(true, p.as_str()));
        }
    }
    let ghost first = messages@;
    if !is_blank(preset_text) {
        messages.push(message(true, preset_text));
    }
    let ghost second = messages@;
    messages.push(message(false, user_input));
    assert(messages_view(messages@) =~= messages_view(first) + messages_view(second.skip(first.len() as int)) + seq![(user_role(), user_input@)]);
    messages
}

/// The key of the model id in the request body.
pub open spec fn model_key() -> Seq<char> {
    seq!['m', 'o', 'd', 'e', 'l']
}

/// The key of the messages in the request body.
pub open spec fn messages_key() -> Seq<char> {
    seq!['m', 'e', 's', 's', 'a', 'g', 'e', 's']
}

/// The keys that the request holds before the options are merged in.
pub open spec fn reserved_key(k: Seq<char>) -> bool {
    k == model_key() || k == messages_key()
}

/// The first of `keys`, from position `i` on, that the request already holds.
pub open spec fn first_reserved(keys: Seq<Seq<char>>, i: int) -> Option<int>
    decreases keys.len() - i,
{
    if i < 0 || i >= keys.len() {
        None
    } else if reserved_key(keys[i]) {
        Some(i)
    } else {
        first_reserved(keys, i + 1)
    }
}

/// Why a model's options cannot be merged into the request, given how they
/// read as JSON.
pub open spec fn options_problem(model_name: Seq<char>, form: JsonForm) -> Option<ChatProblem> {
    match form {
        JsonForm::Invalid => Some(ChatProblem::OptionsNotJson(model_name)),
        JsonForm::Other => Some(ChatProblem::OptionsNotObject(model_name)),
        JsonForm::Object(entries) => match first_reserved(entry_keys(entries), 0) {
            Some(i) => Some(ChatProblem::OptionOverride(model_name, entries[i].0)),
            None => None,
        },
    }
}

/// Past a position with no reserved key, none of the later keys is reserved.
proof fn lemma_no_reserved_from(keys: Seq<Seq<char>>, i: int, j: int)
    requires
        0 <= i <= j < keys.len(),
        first_reserved(keys, i) is None,
    ensures
        !reserved_key(keys[j]),
    decreases j - i,
{
    if i < j {
        lemma_no_reserved_from(keys, i + 1, j);
    }
}

/// Options that are accepted read as a JSON object none of whose keys is
/// `model` or `messages`: merging them never overrides what the request
/// already holds.
pub proof fn law_accepted_options_override_nothing(model_name: Seq<char>, form: JsonForm)
    requires
        options_problem(model_name, form) is None,
    ensures
        form matches JsonForm::Object(entries) && forall|j: int|
            0 <= j < entries.len() ==> !reserved_key(#[trigger] entries[j].0),
{
    if let JsonForm::Object(entries) = form {
        assert forall|j: int| 0 <= j < entries.len() implies !reserved_key(
            #[trigger] entries[j].0,
        ) by {
            assert(entry_keys(entries)[j] == entries[j].0);
            lemma_no_reserved_from(entry_keys(entries), 0, j);
        }
    }
}

/// With every key from position `i` on not reserved, none is found.
proof fn lemma_none_reserved(keys: Seq<Seq<char>>, i: int)
    requires
        0 <= i,
        forall|j: int| i <= j < keys.len() ==> !reserved_key(#[trigger] keys[j]),
    ensures
        first_reserved(keys, i) is None,
    decreases keys.len() - i,
{
    if i < keys.len() {
        lemma_none_reserved(keys, i + 1);
    }
}

/// A reserved key found is a reserved key of the sequence.
proof fn lemma_first_reserved_found(keys: Seq<Seq<char>>, i: int)
    ensures
        first_reserved(keys, i) matches Some(p) ==> i <= p < keys.len() && reserved_key(keys[p]),
    decreases keys.len() - i,
{
    if 0 <= i < keys.len() && !reserved_key(keys[i]) {
        lemma_first_reserved_found(keys, i + 1);
    }
}

/// Options that read as a JSON object are refused exactly when one of their
/// keys is `model` or `messages`, and then for such a key; every other key is
/// accepted. Accepted options go into the body after the model id and the
/// messages, each entry in order with its value as JSON.
pub proof fn law_only_model_and_messages_keys_are_refused(
    model_name: Seq<char>,
    model_id: Seq<char>,
    options: Seq<char>,
    entries: Seq<(Seq<char>, Seq<char>)>,
)
    requires
        json_shape_of(options) == JsonForm::Object(entries),
    ensures
        (options_problem(model_name, JsonForm::Object(entries)) is None) <==> (forall|j: int|
            0 <= j < entries.len() ==> (#[trigger] entries[j]).0 != seq!['m', 'o', 'd', 'e', 'l']
                && entries[j].0 != seq!['m', 'e', 's', 's', 'a', 'g', 'e', 's']),
        options_problem(model_name, JsonForm::Object(entries)) matches Some(p) ==> (
        p matches ChatProblem::OptionOverride(name, key) && name == model_name && (key == seq![
            'm',
            'o',
            'd',
            'e',
            'l',
        ] || key == seq!['m', 'e', 's', 's', 'a', 'g', 'e', 's']) && exists|j: int|
            0 <= j < entries.len() && (#[trigger] entries[j]).0 == key),
        ({
            let body = body_of(model_id, Some(options));
            &&& body.len() == 2 + entries.len()
            &&& body[0] == (seq!['m', 'o', 'd', 'e', 'l'], BodyValueView::Text(model_id))
            &&& body[1] == (
                seq!['m', 'e', 's', 's', 'a', 'g', 'e', 's'],
                BodyValueView::Messages,
            )
            &&& forall|j: int|
                0 <= j < entries.len() ==> body[2 + j] == (
                    (#[trigger] entries[j]).0,
                    BodyValueView::Json(entries[j].1),
                )
        }),
{
    let keys = entry_keys(entries);
    assert(keys.len() == entries.len());
    assert forall|j: int| 0 <= j < entries.len() implies keys[j] == (#[trigger] entries[j]).0 by {}
    if forall|j: int|
        0 <= j < entries.len() ==> (#[trigger] entries[j]).0 != seq!['m', 'o', 'd', 'e', 'l']
            && entries[j].0 != seq!['m', 'e', 's', 's', 'a', 'g', 'e', 's'] {
        assert forall|j: int| 0 <= j < keys.len() implies !reserved_key(#[trigger] keys[j]) by {
            assert(keys[j] == entries[j].0);
        }
        lemma_none_reserved(keys, 0);
    }
    if options_problem(model_name, JsonForm::Object(entries)) is None {
        assert forall|j: int| 0 <= j < entries.len() implies (#[trigger] entries[j]).0 != seq![
            'm',
            'o',
            'd',
            'e',
            'l',
        ] && entries[j].0 != seq!['m', 'e', 's', 's', 'a', 'g', 'e', 's'] by {
            lemma_no_reserved_from(keys, 0, j);
            assert(keys[j] == entries[j].0);
        }
    }
    lemma_first_reserved_found(keys, 0);
    if first_reserved(keys, 0) is Some {
        let p = first_reserved(keys, 0)->0;
        assert(keys[p] == entries[p].0);
    }
}

/// Checks options given how they read as JSON.
pub fn check_options_shape(model_name: &str, shape: &JsonShape) -> (r: Result<(), ChatError>)
    ensures
        match r {
            Ok(()) => options_problem(model_name@, shape@) is None,
            Err(e) => options_problem(model_name@, shape@) == Some(e@),
        },
{
    match shape {
        JsonShape::Invalid => Err(ChatError::OptionsNotJson(owned(model_name))),
        JsonShape::Other => Err(ChatError::OptionsNotObject(owned(model_name))),
        JsonShape::Object(entries) => {
            let ghost ev = entries_view(entries@);
            let ghost kv = entry_keys(ev);
            assert(shape@ == JsonForm::Object(ev));
            proof {
                reveal_strlit("model");
                reveal_strlit("messages");
            }
            let mut i: usize = 0;
            while i < entries.len()
                invariant
                    i <= entries.len() == kv.len() == ev.len(),
                    ev == entries_view(entries@),
                    kv == entry_keys(ev),
                    shape@ == JsonForm::Object(ev),
                    first_reserved(kv, 0) == first_reserved(kv, i as int),
                    "model"@ == model_key(),
                    "messages"@ == messages_key(),
                decreases entries.len() - i,
            {
                assert(kv[i as int] == entries@[i as int].0@);
                let is_model = text_eq(entries[i].0.as_str(), "model");
                let is_messages = text_eq(entries[i].0.as_str(), "messages");
                if is_model || is_messages {
                    assert(reserved_key(kv[i as int]));
                    assert(first_reserved(kv, i as int) == Some(i as int));
                    let key = owned(entries[i].0.as_str());
                    return Err(ChatError::OptionOverride(owned(model_name), key));
                }
                i = i + 1;
            }
            Ok(())
        },
    }
}

/// Checks a model's options text before it is merged into the request: it
/// must read as a JSON object none of whose keys is `model` or `messages`.
pub fn check_options(model_name: &str, options: &str) -> (r: Result<(), ChatError>)
    ensures
        match r {
            Ok(()) => options_problem(model_name@, json_shape_of(options@)) is None,
            Err(e) => options_problem(model_name@, json_shape_of(options@)) == Some(e@),
        },
{
    check_options_shape(model_name, &json_shape(options))
}

/// A value of the request body.
#[derive(Debug)]
pub enum BodyValue {
    /// A JSON string holding this text.
    Text(String),
    /// The conversation: the request's messages.
    Messages,
    /// A value given as compact JSON text.
    Json(String),
}

/// A body value, its texts as character sequences.
pub enum BodyValueView {
    Text(Seq<char>),
    Messages,
    Json(Seq<char>),
}

impl View for BodyValue {
    type V = BodyValueView;

    open spec fn view(&self) -> BodyValueView {
        match self {
            BodyValue::Text(t) => BodyValueView::Text(t@),
            BodyValue::Messages => BodyValueView::Messages,
            BodyValue::Json(j) => BodyValueView::Json(j@),
        }
    }
}

/// The body entries as pairs of key text and value view.
pub open spec fn body_view(body: Seq<(String, BodyValue)>) -> Seq<(Seq<char>, BodyValueView)> {
    body.map_values(|e: (String, BodyValue)| (e.0@, e.1@))
}

/// The option entries as body entries.
pub open spec fn option_entries(entries: Seq<(Seq<char>, Seq<char>)>) -> Seq<
    (Seq<char>, BodyValueView),
> {
    entries.map_values(|e: (Seq<char>, Seq<char>)| (e.0, BodyValueView::Json(e.1)))
}

/// The request body, in order: the model id, the messages, then each entry
/// of the model's options object with its value (none without options).
pub open spec fn body_of(model_id: Seq<char>, options: Option<Seq<char>>) -> Seq<
    (Seq<char>, BodyValueView),
> {
    seq![(model_key(), BodyValueView::Text(model_id)), (messages_key(), BodyValueView::Messages)]
        + match options {
        Some(o) => match json_shape_of(o) {
            JsonForm::Object(entries) => option_entries(entries),
            _ => Seq::<(Seq<char>, BodyValueView)>::empty(),
        },
        None => Seq::<(Seq<char>, BodyValueView)>::empty(),
    }
}

/// A model's options text, if it has one.
pub open spec fn options_text(m: ModelConfig) -> Option<Seq<char>> {
    match m.options {
        Some(o) => Some(o@),
        None => None,
    }
}

/// What the request is to hold: the URL, the messages, and the entries of
/// its body in order.
#[derive(Debug)]
pub struct ChatRequest {
    pub url: String,
    pub messages: Vec<Message>,
    pub body: Vec<(String, BodyValue)>,
}

/// Prepares the request for a chat with the model and preset prompt named,
/// refusing names that are not configured and options that cannot be
/// merged.
pub fn prepare_chat(config: &Config, model_name: &str, preset_name: &str, user_input: &str) -> (r:
    Result<ChatRequest, ChatError>)
    ensures
        match (model_index(config, model_name@), prompt_index(config, preset_name@)) {
            (None, _) => r matches Err(e) && e@ == ChatProblem::ModelNotFound(model_name@),
            (Some(_), None) => r matches Err(e) && e@ == ChatProblem::PresetNotFound(preset_name@),
            (Some(i), Some(j)) => {
                let m = config.models@[i].1;
                match options_text(m) {
                    Some(o) if options_problem(model_name@, json_shape_of(o)) is Some => r matches Err(e)
                        && options_problem(model_name@, json_shape_of(o)) == Some(e@),
                    _ => r matches Ok(req) && {
                        &&& req.url@ == chat_url(m.endpoint@)
                        &&& messages_view(req.messages@) == chat_messages(
                            match m.system_prompt {
                                Some(p) => Some(p@),
                                None => None,
                            },
                            config.prompts@[j].1.text@,
                            user_input@,
                        )
                        &&& body_view(req.body@) == body_of(m.model@, options_text(m))
                    },
                }
            },
        },
{
    proof {
        lemma_position_in_range(model_names(config), model_name@, 0);
        lemma_position_in_range(prompt_names(config), preset_name@, 0);
    }
    let model = resolve_model(config, model_name)?;
    let preset = match find_prompt(config, preset_name) {
        Some(j) => &config.prompts[j].1,
        None => {
            return Err(ChatError::PresetNotFound(owned(preset_name)));
        },
    };
    let messages = build_messages(model, preset.text.as_str(), user_input);
    proof {
        reveal_strlit("model");
        reveal_strlit("messages");
    }
    assert("model"@ =~= model_key());
    assert("messages"@ =~= messages_key());
    let mut body: Vec<(String, BodyValue)> = Vec::new();
    body.push((owned("model"), BodyValue::Text(model.model.clone())));
    body.push((owned("messages"), BodyValue::Messages));
    assert(body_view(body@) =~= seq![
        (model_key(), BodyValueView::Text(model.model@)),
        (messages_key(), BodyValueView::Messages),
    ]);
    if let Some(options) = &model.options {
        let shape = json_shape(options.as_str());
        check_options_shape(model_name, &shape)?;
        if let JsonShape::Object(entries) = &shape {
            let ghost start = body_view(body@);
            let ghost opts = option_entries(entries_view(entries@));
            let mut i: usize = 0;
            while i < entries.len()
                invariant
                    i <= entries.len() == opts.len(),
                    opts == option_entries(entries_view(entries@)),
                    body_view(body@) == start + opts.take(i as int),
                decreases entries.len() - i,
            {
                let ghost before = body@;
                let key = owned(entries[i].0.as_str());
                let value = owned(entries[i].1.as_str());
                body.push((key, BodyValue::Json(value)));
                assert(opts[i as int] == (entries@[i as int].0@, BodyValueView::Json(
                    entries@[i as int].1@,
                )));
                assert(body_view(body@) =~= body_view(before).push(opts[i as int]));
                assert(opts.take(i + 1) =~= opts.take(i as int).push(opts[i as int]));
                i = i + 1;
            }
            assert(opts.take(entries.len() as int) == opts);
        }
    }
    Ok(ChatRequest { url: build_chat_url(model.endpoint.as_str()), messages, body })
}

/// What an error reply is reported with: the message of its JSON error
/// object when the body reads as one (`parsed_message`), else the body.
pub fn api_error_detail(parsed_message: Option<String>, body: String) -> (r: String)
    ensures
        match parsed_message {
            Some(m) => r@ == m@,
            None => r@ == body@,
        },
{
    match parsed_message {
        Some(m) => m,
        None => body,
    }
}

/// What a reply's separate reasoning field held.
#[derive(Debug)]
pub enum ReasoningValue {
    /// JSON `null`.
    Null,
    /// A JSON string.
    Text(String),
    /// Another JSON value, as JSON text.
    Other(String),
}

/// One element of a reply's reasoning details.
#[derive(Debug)]
pub enum ReasoningDetail {
    /// An object whose `text` field is a string.
    TextField(String),
    /// A bare string.
    Bare(String),
    /// Anything else.
    Other,
}

/// The assistant's message of the first choice of a reply.
#[derive(Debug)]
pub struct AssistantMessage {
    pub content: Option<String>,
    pub reasoning: Option<ReasoningValue>,
    pub reasoning_details: Option<Vec<ReasoningDetail>>,
}

/// The text a reasoning detail carries, if any.
pub open spec fn detail_text(d: ReasoningDetail) -> Option<Seq<char>> {
    match d {
        ReasoningDetail::TextField(t) => Some(t@),
        ReasoningDetail::Bare(t) => Some(t@),
        ReasoningDetail::Other => None,
    }
}

/// The nonblank texts of the details, in order.
pub open spec fn detail_parts(ds: Seq<ReasoningDetail>) -> Seq<Seq<char>>
    decreases ds.len(),
{
    if ds.len() == 0 {
        seq![]
    } else {
        let rest = detail_parts(ds.drop_last());
        match detail_text(ds.last()) {
            Some(t) => if is_blank_seq(t) {
                rest
            } else {
                rest.push(t)
            },
            None => rest,
        }
    }
}

/// The reasoning a reply carries apart from its content: the reasoning
/// field when it is a nonblank string or a nonblank other value, else the
/// nonblank texts of the reasoning details joined by blank lines, if any.
pub open spec fn reasoning_of(m: &AssistantMessage) -> Option<Seq<char>> {
    let from_field = match m.reasoning {
        Some(ReasoningValue::Text(t)) => if is_blank_seq(t@) {
            None
        } else {
            Some(t@)
        },
        Some(ReasoningValue::Other(j)) => if is_blank_seq(j@) {
            None
        } else {
            Some(j@)
        },
        _ => None,
    };
    if from_field is Some {
        from_field
    } else {
        match m.reasoning_details {
            None => None,
            Some(ds) => {
                let parts = detail_parts(ds@);
                if parts.len() == 0 {
                    None
                } else {
                    Some(join_with(parts, seq!['\n', '\n']))
                }
            },
        }
    }
}

/// A reasoning field that holds a nonblank string, or a nonblank other JSON
/// value, is the reasoning, whatever the reasoning details hold; the details
/// are read only when the field holds neither.
pub proof fn law_reasoning_field_wins(m: &AssistantMessage)
    ensures
        m.reasoning matches Some(ReasoningValue::Text(t)) ==> (!is_blank_seq(t@) ==> reasoning_of(m)
            == Some(t@)),
        m.reasoning matches Some(ReasoningValue::Other(j)) ==> (!is_blank_seq(j@) ==> reasoning_of(m)
            == Some(j@)),
{
}

/// Without a reasoning field, the nonblank texts of the reasoning details are
/// the reasoning, in order and joined by a blank line; blank texts are
/// skipped, and with none left there is no reasoning.
pub proof fn law_reasoning_details_joined(m: &AssistantMessage, x: String, y: String)
    requires
        m.reasoning is None,
        m.reasoning_details matches Some(ds) && ds@ == seq![
            ReasoningDetail::TextField(x),
            ReasoningDetail::Bare(y),
        ],
    ensures
        !is_blank_seq(x@) && !is_blank_seq(y@) ==> reasoning_of(m) == Some(
            x@ + seq!['\n', '\n'] + y@,
        ),
        is_blank_seq(x@) && !is_blank_seq(y@) ==> reasoning_of(m) == Some(y@),
        !is_blank_seq(x@) && is_blank_seq(y@) ==> reasoning_of(m) == Some(x@),
        is_blank_seq(x@) && is_blank_seq(y@) ==> reasoning_of(m) is None,
{
    let ds = m.reasoning_details->0@;
    assert(ds.drop_last() == seq![ReasoningDetail::TextField(x)]);
    assert(ds.drop_last().drop_last() == Seq::<ReasoningDetail>::empty());
    let once = detail_parts(ds.drop_last());
    assert(detail_parts(ds.drop_last().drop_last()) == Seq::<Seq<char>>::empty());
    if !is_blank_seq(x@) {
        assert(once == seq![x@]);
        if !is_blank_seq(y@) {
            assert(detail_parts(ds) == seq![x@, y@]);
            assert(seq![x@, y@].drop_last() == seq![x@]);
            assert(join_with(seq![x@], seq!['\n', '\n']) == x@);
            assert(join_with(seq![x@, y@], seq!['\n', '\n']) == x@ + seq!['\n', '\n'] + y@);
        }
    } else {
        assert(once == Seq::<Seq<char>>::empty());
    }
}

/// The reasoning the reply carries apart from its content.
pub fn extract_reasoning(message: &AssistantMessage) -> (r: Option<String>)
    ensures
        match r {
            Some(t) => reasoning_of(message) == Some(t@),
            None => reasoning_of(message) is None,
        },
{
    match &message.reasoning {
        Some(ReasoningValue::Text(t)) => {
            if !is_blank(t.as_str()) {
                return Some(t.clone());
            }
        },
        Some(ReasoningValue::Other(j)) => {
            if !is_blank(j.as_str()) {
                return Some(j.clone());
            }
        },
        _ => {},
    }
    let details = match &message.reasoning_details {
        Some(ds) => ds,
        None => {
            return None;
        },
    };
    let mut joined = String::new();
    let mut count: usize = 0;
    let mut i: usize = 0;
    while i < details.len()
        invariant
            i <= details.len(),
            message.reasoning_details == Some(*details),
            count == detail_parts(details@.take(i as int)).len(),
            count <= i,
            count == 0 ==> joined@ == Seq::<char>::empty(),
            count > 0 ==> joined@ == join_with(
                detail_parts(details@.take(i as int)),
                seq!['\n', '\n'],
            ),
        decreases details.len() - i,
    {
        assert(details@.take(i + 1).drop_last() == details@.take(i as int));
        let text = match &details[i] {
            ReasoningDetail::TextField(t) => Some(t),
            ReasoningDetail::Bare(t) => Some(t),
            ReasoningDetail::Other => None,
        };
        let ghost parts = detail_parts(details@.take(i as int));
        if let Some(t) = text {
            if !is_blank(t.as_str()) {
                let ghost before = joined@;
                if count > 0 {
                    joined.push('\n');
                    joined.push('\n');
                    assert(joined@ == before + seq!['\n', '\n']);
                    assert(parts.push(t@).drop_last() == parts);
                    assert(parts.push(t@).last() == t@);
                } else {
                    assert(parts.push(t@).len() == 1);
                    assert(before + t@ == t@);
                }
                push_str(&mut joined, t.as_str());
                count = count + 1;
            }
        }
        i = i + 1;
    }
    assert(details@.take(details.len() as int) == details@);
    if count == 0 {
        None
    } else {
        Some(joined)
    }
}

/// The delimiters that apply to a model: its own, or the defaults when it
/// has none.
pub open spec fn delimiters_for(model: &ModelConfig, defaults: &Defaults) -> Seq<Delimiter> {
    if model.thinking_delimiters@.len() > 0 {
        model.thinking_delimiters@
    } else {
        defaults.thinking_delimiters@
    }
}

/// The delimiters that apply to a model.
pub fn select_delimiters(model: &ModelConfig, defaults: &Defaults) -> (r: Vec<Delimiter>)
    ensures
        delims_view(r@) == delims_view(delimiters_for(model, defaults)),
{
    if model.thinking_delimiters.len() > 0 {
        copy_delimiters(&model.thinking_delimiters)
    } else {
        copy_delimiters(&defaults.thinking_delimiters)
    }
}

/// A reply made ready for display: its text and the delimiters of its
/// thinking parts.
#[derive(Debug)]
pub struct ChatResult {
    pub content: String,
    pub thinking_delimiters: Vec<Delimiter>,
}

/// What is made of the choices of a reply: the content of the first one
/// (empty when it has none), with its separate reasoning injected in front.
pub fn chat_result(model: &ModelConfig, defaults: &Defaults, choices: Vec<AssistantMessage>) -> (r:
    Result<ChatResult, ChatError>)
    ensures
        choices.len() == 0 ==> (r matches Err(e) && e is MissingAssistantMessage),
        choices.len() > 0 ==> (r matches Ok(res) && {
            let first = choices@[0];
            &&& delims_view(res.thinking_delimiters@) == delims_view(delimiters_for(model, defaults))
            &&& res.content@ == merged_content(
                match first.content {
                    Some(c) => c@,
                    None => Seq::<char>::empty(),
                },
                reasoning_of(&first),
                delims_view(delimiters_for(model, defaults)),
            )
        }),
{
    if choices.len() == 0 {
        return Err(ChatError::MissingAssistantMessage);
    }
    let first = &choices[0];
    let content = match &first.content {
        Some(c) => c.clone(),
        None => String::new(),
    };
    let reasoning = extract_reasoning(first);
    let thinking_delimiters = select_delimiters(model, defaults);
    let content = merge_reasoning(content, reasoning, thinking_delimiters.as_slice());
    Ok(ChatResult { content, thinking_delimiters })
}

} // verus!
