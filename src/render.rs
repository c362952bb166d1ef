//! Rendering conversations into token sequences.
use vstd::prelude::*;
use crate::chat::{Conversation, Message, MessageView, Role, message_wf, opt_view};
use crate::grammar::{
    CALL, CHANNEL, CONSTRAIN, END, MESSAGE, RECIPIENT, START, encode_text, role_marker, role_token,
    text_tokens,
};

verus! {

/// Options of a rendering.
pub struct RenderConfig {
    /// Leave out `analysis` messages that come before the last `final` message.
    pub auto_drop_previous_reasoning: bool,
    /// Channels that must each appear on at least one message.
    pub required_channels: Vec<String>,
    /// The roles that may be asked to speak next; `None` permits every role.
    pub allowed_next_roles: Option<Vec<Role>>,
}

impl RenderConfig {
    /// A configuration with no required channels and no turn-taking policy.
    pub fn new(auto_drop_previous_reasoning: bool) -> (r: RenderConfig)
        ensures
            r.auto_drop_previous_reasoning == auto_drop_previous_reasoning,
            r.required_channels@.len() == 0,
            r.allowed_next_roles is None,
    {
        RenderConfig { auto_drop_previous_reasoning, required_channels: Vec::new(), allowed_next_roles: None }
    }
}

pub open spec fn role_permitted(config: Option<&RenderConfig>, role: Role) -> bool {
    match config {
        Some(c) => match c.allowed_next_roles {
            Some(rs) => rs@.contains(role),
            None => true,
        },
        None => true,
    }
}

#[derive(Clone, Copy, Debug, PartialEq, Eq, Structural)]
pub enum RenderError {
    /// A message is ill formed or a required channel is missing.
    Validation,
}

pub open spec fn analysis_channel() -> Seq<char> {
    "analysis"@
}

pub open spec fn final_channel() -> Seq<char> {
    "final"@
}

pub open spec fn drop_of(config: Option<&RenderConfig>) -> bool {
    match config {
        Some(c) => c.auto_drop_previous_reasoning,
        None => false,
    }
}

pub open spec fn required_of(config: Option<&RenderConfig>) -> Seq<Seq<char>> {
    match config {
        Some(c) => c.required_channels@.map_values(|s: String| s@),
        None => Seq::empty(),
    }
}

pub open spec fn name_tokens(n: Option<Seq<char>>) -> Seq<u32> {
    match n {
        Some(s) => text_tokens(s),
        None => Seq::empty(),
    }
}

pub open spec fn field_tokens(marker: u32, v: Option<Seq<char>>) -> Seq<u32> {
    match v {
        Some(s) => seq![marker] + text_tokens(s),
        None => Seq::empty(),
    }
}

/// A message addressed to a recipient is a tool call and ends with the call
/// marker; any other ends with the end marker.
pub open spec fn terminator(m: MessageView) -> u32 {
    if m.recipient is Some {
        CALL
    } else {
        END
    }
}

pub open spec fn header_tokens(m: MessageView) -> Seq<u32> {
    seq![START, role_token(m.role)] + name_tokens(m.name) + field_tokens(CHANNEL, m.channel)
        + field_tokens(RECIPIENT, m.recipient) + field_tokens(CONSTRAIN, m.content_type)
}

/// The tokens of one message, in the canonical order.
pub open spec fn message_tokens(m: MessageView) -> Seq<u32> {
    header_tokens(m) + seq![MESSAGE] + text_tokens(m.content) + seq![terminator(m)]
}

pub open spec fn has_channel(m: MessageView, ch: Seq<char>) -> bool {
    m.channel == Some(ch)
}

pub open spec fn channel_present(ms: Seq<MessageView>, ch: Seq<char>) -> bool {
    exists|i: int| 0 <= i < ms.len() && #[trigger] has_channel(ms[i], ch)
}

/// Whether the drop policy leaves out message `i`.
pub open spec fn dropped(ms: Seq<MessageView>, drop: bool, i: int) -> bool {
    &&& drop
    &&& has_channel(ms[i], analysis_channel())
    &&& exists|j: int| i < j < ms.len() && #[trigger] has_channel(ms[j], final_channel())
}

/// The tokens of the first `n` messages that the drop policy keeps.
pub open spec fn render_prefix(ms: Seq<MessageView>, drop: bool, n: int) -> Seq<u32>
    decreases n,
{
    if n <= 0 {
        Seq::empty()
    } else if dropped(ms, drop, n - 1) {
        render_prefix(ms, drop, n - 1)
    } else {
        render_prefix(ms, drop, n - 1) + message_tokens(ms[n - 1])
    }
}

pub open spec fn conversation_valid(ms: Seq<MessageView>, required: Seq<Seq<char>>) -> bool {
    &&& forall|i: int| 0 <= i < ms.len() ==> message_wf(#[trigger] ms[i])
    &&& forall|k: int| 0 <= k < required.len() ==> channel_present(ms, #[trigger] required[k])
}

pub open spec fn render_spec(ms: Seq<MessageView>, drop: bool, required: Seq<Seq<char>>) -> Result<
    Seq<u32>,
    RenderError,
> {
    if conversation_valid(ms, required) {
        Ok(render_prefix(ms, drop, ms.len() as int))
    } else {
        Err(RenderError::Validation)
    }
}

fn render_field(marker: u32, v: &Option<String>, out: &mut Vec<u32>)
    ensures
        final(out)@ == old(out)@ + field_tokens(marker, opt_view(*v)),
{
    match v {
        Some(s) => {
            out.push(marker);
            encode_text(s.as_str(), out);
            proof {
                assert(out@ =~= old(out)@ + field_tokens(marker, opt_view(*v)));
            }
        },
        None => {
            proof {
                assert(out@ =~= old(out)@ + field_tokens(marker, opt_view(*v)));
            }
        },
    }
}

/// Appends the tokens of one message to `out`.
pub fn render_message_into(m: &Message, out: &mut Vec<u32>)
    ensures
        final(out)@ == old(out)@ + message_tokens(m@),
{
    out.push(START);
    out.push(role_marker(m.author.role));
    match &m.author.name {
        Some(n) => encode_text(n.as_str(), out),
        None => {},
    }
    let ghost after_name = out@;
    assert(after_name =~= old(out)@ + seq![START, role_token(m@.role)] + name_tokens(m@.name));
    render_field(CHANNEL, &m.channel, out);
    render_field(RECIPIENT, &m.recipient, out);
    render_field(CONSTRAIN, &m.content_type, out);
    assert(out@ =~= old(out)@ + header_tokens(m@));
    out.push(MESSAGE);
    encode_text(m.content.as_str(), out);
    let term = match &m.recipient {
        Some(_) => CALL,
        None => END,
    };
    out.push(term);
    assert(out@ =~= old(out)@ + message_tokens(m@));
}

fn channel_is(m: &Message, ch: &String) -> (r: bool)
    ensures
        r == has_channel(m@, ch@),
{
    match &m.channel {
        Some(c) => *c == *ch,
        None => false,
    }
}

fn message_is_wf(m: &Message) -> (r: bool)
    ensures
        r == message_wf(m@),
{
    let tool_ok = match m.author.role {
        Role::Tool => m.author.name.is_some(),
        _ => true,
    };
    let name_ok = match &m.author.name {
        Some(n) => !n.as_str().is_empty(),
        None => true,
    };
    tool_ok && name_ok
}

fn channel_in(ms: &Vec<Message>, ch: &String) -> (r: bool)
    ensures
        r == channel_present(crate::chat::messages_view(ms@), ch@),
{
    let ghost v = crate::chat::messages_view(ms@);
    let mut i: usize = 0;
    while i < ms.len()
        invariant
            i <= ms.len(),
            v == crate::chat::messages_view(ms@),
            forall|k: int| 0 <= k < i ==> !has_channel(#[trigger] v[k], ch@),
        decreases ms.len() - i,
    {
        if channel_is(&ms[i], ch) {
            assert(has_channel(v[i as int], ch@));
            return true;
        }
        i += 1;
    }
    false
}

fn validate(ms: &Vec<Message>, required: &Vec<String>) -> (r: bool)
    ensures
        r == conversation_valid(
            crate::chat::messages_view(ms@),
            required@.map_values(|s: String| s@),
        ),
{
    let ghost v = crate::chat::messages_view(ms@);
    let ghost req = required@.map_values(|s: String| s@);
    let mut i: usize = 0;
    while i < ms.len()
        invariant
            i <= ms.len(),
            v == crate::chat::messages_view(ms@),
            forall|k: int| 0 <= k < i ==> message_wf(#[trigger] v[k]),
        decreases ms.len() - i,
    {
        if !message_is_wf(&ms[i]) {
            assert(!message_wf(v[i as int]));
            return false;
        }
        i += 1;
    }
    let mut k: usize = 0;
    while k < required.len()
        invariant
            k <= required.len(),
            v == crate::chat::messages_view(ms@),
            req == required@.map_values(|s: String| s@),
            forall|i: int| 0 <= i < v.len() ==> message_wf(#[trigger] v[i]),
            forall|j: int| 0 <= j < k ==> channel_present(v, #[trigger] req[j]),
        decreases required.len() - k,
    {
        if !channel_in(ms, &required[k]) {
            assert(!channel_present(v, req[k as int]));
            return false;
        }
        k += 1;
    }
    true
}

fn last_final_index(ms: &Vec<Message>, fin: &String) -> (r: Option<usize>)
    requires
        fin@ == final_channel(),
    ensures
        match r {
            Some(j) => {
                &&& j < ms.len()
                &&& has_channel(crate::chat::messages_view(ms@)[j as int], final_channel())
                &&& forall|k: int|
                    j < k < ms.len() ==> !has_channel(
                        #[trigger] crate::chat::messages_view(ms@)[k],
                        final_channel(),
                    )
            },
            None => forall|k: int|
                0 <= k < ms.len() ==> !has_channel(
                    #[trigger] crate::chat::messages_view(ms@)[k],
                    final_channel(),
                ),
        },
{
    let ghost v = crate::chat::messages_view(ms@);
    let mut r: Option<usize> = None;
    let mut i: usize = 0;
    while i < ms.len()
        invariant
            i <= ms.len(),
            fin@ == final_channel(),
            v == crate::chat::messages_view(ms@),
            match r {
                Some(j) => {
                    &&& j < i
                    &&& has_channel(v[j as int], final_channel())
                    &&& forall|k: int| j < k < i ==> !has_channel(#[trigger] v[k], final_channel())
                },
                None => forall|k: int| 0 <= k < i ==> !has_channel(#[trigger] v[k], final_channel()),
            },
        decreases ms.len() - i,
    {
        if channel_is(&ms[i], fin) {
            r = Some(i);
        }
        i += 1;
    }
    r
}

fn render_messages(ms: &Vec<Message>, drop: bool) -> (r: Vec<u32>)
    ensures
        r@ == render_prefix(crate::chat::messages_view(ms@), drop, ms@.len() as int),
{
    let ghost v = crate::chat::messages_view(ms@);
    let analysis = "analysis".to_owned();
    let fin = "final".to_owned();
    let last_final = last_final_index(ms, &fin);
    let mut out: Vec<u32> = Vec::new();
    let mut i: usize = 0;
    while i < ms.len()
        invariant
            i <= ms.len(),
            v == crate::chat::messages_view(ms@),
            analysis@ == analysis_channel(),
            out@ == render_prefix(v, drop, i as int),
            match last_final {
                Some(j) => {
                    &&& j < ms.len()
                    &&& has_channel(v[j as int], final_channel())
                    &&& forall|k: int| j < k < ms.len() ==> !has_channel(#[trigger] v[k], final_channel())
                },
                None => forall|k: int| 0 <= k < ms.len() ==> !has_channel(#[trigger] v[k], final_channel()),
            },
        decreases ms.len() - i,
    {
        let before_final = match last_final {
            Some(j) => i < j,
            None => false,
        };
        let skip = drop && channel_is(&ms[i], &analysis) && before_final;
        proof {
            if let Some(j) = last_final {
                if i < j {
                    assert(has_channel(v[j as int], final_channel()));
                }
            }
            assert(skip == dropped(v, drop, i as int));
        }
        if !skip {
            render_message_into(&ms[i], &mut out);
        }
        i += 1;
    }
    out
}

/// Renders every message in order, applying the drop policy of `config`.
pub fn render_conversation(conversation: &Conversation, config: Option<&RenderConfig>) -> (r: Result<
    Vec<u32>,
    RenderError,
>)
    ensures
        match render_spec(conversation@, drop_of(config), required_of(config)) {
            Ok(ts) => r is Ok && r->Ok_0@ == ts,
            Err(e) => r == Err::<Vec<u32>, RenderError>(e),
        },
{
    let (drop, valid) = match config {
        Some(c) => (c.auto_drop_previous_reasoning, validate(&conversation.messages, &c.required_channels)),
        None => {
            let none: Vec<String> = Vec::new();
            let valid = validate(&conversation.messages, &none);
            proof {
                assert(none@.map_values(|s: String| s@) =~= Seq::<Seq<char>>::empty());
            }
            (false, valid)
        },
    };
    if !valid {
        return Err(RenderError::Validation);
    }
    Ok(render_messages(&conversation.messages, drop))
}

fn role_in(roles: &Vec<Role>, role: Role) -> (r: bool)
    ensures
        r == roles@.contains(role),
{
    let mut i: usize = 0;
    while i < roles.len()
        invariant
            i <= roles.len(),
            forall|k: int| 0 <= k < i ==> roles@[k] != role,
        decreases roles.len() - i,
    {
        if roles[i] == role {
            assert(roles@[i as int] == role);
            return true;
        }
        i += 1;
    }
    false
}

/// Renders the conversation and then opens a message of `next_role`: a
/// prompt for a continuation written by that role. Besides the conditions of
/// `render_conversation`, it fails when the configured turn-taking policy
/// does not permit `next_role`.
pub fn render_conversation_for_completion(
    conversation: &Conversation,
    next_role: Role,
    config: Option<&RenderConfig>,
) -> (r: Result<Vec<u32>, RenderError>)
    ensures
        render_spec(conversation@, drop_of(config), required_of(config)) is Ok && role_permitted(
            config,
            next_role,
        ) ==> r is Ok && r->Ok_0@ == render_spec(
            conversation@,
            drop_of(config),
            required_of(config),
        )->Ok_0 + seq![START, role_token(next_role)],
        !(render_spec(conversation@, drop_of(config), required_of(config)) is Ok && role_permitted(
            config,
            next_role,
        )) ==> r == Err::<Vec<u32>, RenderError>(RenderError::Validation),
{
    let permitted = match config {
        Some(c) => match &c.allowed_next_roles {
            Some(rs) => role_in(rs, next_role),
            None => true,
        },
        None => true,
    };
    match render_conversation(conversation, config) {
        Ok(mut out) => {
            if !permitted {
                return Err(RenderError::Validation);
            }
            let ghost ts = out@;
            out.push(START);
            out.push(role_marker(next_role));
            assert(out@ =~= ts + seq![START, role_token(next_role)]);
            Ok(out)
        },
        Err(e) => Err(e),
    }
}

} // verus!
