use harmony_codec::chat::{Author, Conversation, Message, Role};
use harmony_codec::grammar::{
    decode_text, decode_token, encode_text, ASSISTANT, CALL, CHANNEL, CONSTRAIN, END, MESSAGE, RECIPIENT,
    START, TOOL, USER,
};
use harmony_codec::parser::{parse_messages_from_completion_tokens, ParseError, Phase, StreamableParser};
use harmony_codec::render::{
    render_conversation, render_conversation_for_completion, RenderConfig, RenderError,
};

fn text(s: &str) -> Vec<u32> {
    let mut out = Vec::new();
    encode_text(s, &mut out);
    out
}

fn cat(parts: &[&[u32]]) -> Vec<u32> {
    let mut out = Vec::new();
    for p in parts {
        out.extend_from_slice(p);
    }
    out
}

fn weather_call() -> Message {
    Message::from_role_and_content(Role::Assistant, "{\"location\": \"San Francisco\"}".to_string())
        .with_channel("commentary".to_string())
        .with_recipient("functions.lookup_weather".to_string())
        .with_content_type("json".to_string())
}

fn make_tool_conversation() -> Conversation {
    Conversation::from_messages(vec![
        Message::from_role_and_content(Role::User, "What is the weather in SF?".to_string()),
        Message::from_role_and_content(
            Role::Assistant,
            "User asks: \"What is the weather in SF?\" We need to use lookup_weather tool."
                .to_string(),
        )
        .with_channel("analysis".to_string()),
        weather_call(),
        Message::from_author_and_content(
            Author::new(Role::Tool, "functions.lookup_weather".to_string()),
            "{\"temperature\": 20, \"description\": \"sunny\"}".to_string(),
        ),
    ])
}

fn same_message(a: &Message, b: &Message) -> bool {
    a.author.role == b.author.role
        && a.author.name == b.author.name
        && a.channel == b.channel
        && a.recipient == b.recipient
        && a.content_type == b.content_type
        && a.content == b.content
}

fn same_messages(a: &[Message], b: &[Message]) -> bool {
    a.len() == b.len() && a.iter().zip(b.iter()).all(|(x, y)| same_message(x, y))
}

fn stream(tokens: &[u32], role: Option<Role>) -> (StreamableParser, Result<(), ParseError>) {
    let mut p = StreamableParser::new(role);
    for &t in tokens {
        if let Err(e) = p.process(t) {
            return (p, Err(e));
        }
    }
    let r = p.process_eos();
    (p, r)
}

#[test]
fn encode_text_gives_one_token_per_character() {
    assert_eq!(text("hé€"), vec![0x68, 0xe9, 0x20ac]);
    assert_eq!(text(""), Vec::<u32>::new());
}

#[test]
fn decode_token_reads_scalars_only() {
    assert_eq!(decode_token(0x41), Some('A'));
    assert_eq!(decode_token(0x20ac), Some('€'));
    assert_eq!(decode_token(0xd800), None);
    assert_eq!(decode_token(START), None);
}

#[test]
fn renders_a_message_in_canonical_order() {
    let c = Conversation::from_messages(vec![weather_call()]);
    let tokens = render_conversation(&c, None).unwrap();
    let expected = cat(&[
        &[START, ASSISTANT, CHANNEL],
        &text("commentary"),
        &[RECIPIENT],
        &text("functions.lookup_weather"),
        &[CONSTRAIN],
        &text("json"),
        &[MESSAGE],
        &text("{\"location\": \"San Francisco\"}"),
        &[CALL],
    ]);
    assert_eq!(tokens, expected);
}

#[test]
fn renders_tool_author_name_after_role() {
    let c = Conversation::from_messages(vec![Message::from_author_and_content(
        Author::new(Role::Tool, "functions.f".to_string()),
        "ok".to_string(),
    )]);
    let tokens = render_conversation(&c, None).unwrap();
    let expected = cat(&[&[START, TOOL], &text("functions.f"), &[MESSAGE], &text("ok"), &[END]]);
    assert_eq!(tokens, expected);
}

#[test]
fn tool_call_scenario() {
    let c = Conversation::from_messages(vec![weather_call()]);
    let tokens = render_conversation(&c, None).unwrap();
    assert_eq!(*tokens.last().unwrap(), CALL);
    let parsed = parse_messages_from_completion_tokens(&tokens, None).unwrap();
    assert_eq!(parsed.len(), 1);
    assert_eq!(parsed[0].recipient.as_deref(), Some("functions.lookup_weather"));
    assert_eq!(parsed[0].content_type.as_deref(), Some("json"));
    assert_eq!(parsed[0].content, "{\"location\": \"San Francisco\"}");
    assert_eq!(parsed[0].channel.as_deref(), Some("commentary"));
}

#[test]
fn plain_message_ends_with_end_marker() {
    let c = Conversation::from_messages(vec![Message::from_role_and_content(
        Role::User,
        "hi".to_string(),
    )]);
    let tokens = render_conversation(&c, None).unwrap();
    assert_eq!(*tokens.last().unwrap(), END);
}

fn reasoning_conversation() -> Conversation {
    Conversation::from_messages(vec![
        Message::from_role_and_content(Role::Assistant, "first thought".to_string())
            .with_channel("analysis".to_string()),
        Message::from_role_and_content(Role::Assistant, "second thought".to_string())
            .with_channel("analysis".to_string()),
        Message::from_role_and_content(Role::Assistant, "the answer".to_string())
            .with_channel("final".to_string()),
    ])
}

#[test]
fn drop_policy_scenario() {
    let c = reasoning_conversation();
    let drop = RenderConfig::new(true);
    let keep = RenderConfig::new(false);
    let dropped = render_conversation(&c, Some(&drop)).unwrap();
    let final_only = Conversation::from_messages(vec![c.messages[2].clone()]);
    assert_eq!(dropped, render_conversation(&final_only, None).unwrap());
    let all = render_conversation(&c, None).unwrap();
    assert_eq!(all, render_conversation(&c, Some(&keep)).unwrap());
    let parsed = parse_messages_from_completion_tokens(&all, None).unwrap();
    assert!(same_messages(&parsed, &c.messages));
    let parsed_dropped = parse_messages_from_completion_tokens(&dropped, None).unwrap();
    assert_eq!(parsed_dropped.len(), 1);
    assert_eq!(parsed_dropped[0].content, "the answer");
}

#[test]
fn drop_policy_keeps_analysis_after_last_final() {
    let mut msgs = reasoning_conversation().messages;
    msgs.push(
        Message::from_role_and_content(Role::Assistant, "later thought".to_string())
            .with_channel("analysis".to_string()),
    );
    let c = Conversation::from_messages(msgs);
    let drop = RenderConfig::new(true);
    let tokens = render_conversation(&c, Some(&drop)).unwrap();
    let parsed = parse_messages_from_completion_tokens(&tokens, None).unwrap();
    assert_eq!(parsed.len(), 2);
    assert_eq!(parsed[0].content, "the answer");
    assert_eq!(parsed[1].content, "later thought");
}

#[test]
fn drop_policy_without_final_keeps_everything() {
    let c = Conversation::from_messages(vec![
        Message::from_role_and_content(Role::Assistant, "thinking".to_string())
            .with_channel("analysis".to_string()),
    ]);
    let drop = RenderConfig::new(true);
    assert_eq!(
        render_conversation(&c, Some(&drop)).unwrap(),
        render_conversation(&c, None).unwrap()
    );
}

#[test]
fn round_trip_of_tool_conversation() {
    let c = make_tool_conversation();
    let tokens = render_conversation(&c, None).unwrap();
    let parsed = parse_messages_from_completion_tokens(&tokens, None).unwrap();
    assert!(same_messages(&parsed, &c.messages));
}

#[test]
fn round_trip_of_empty_conversation() {
    let c = Conversation::from_messages(vec![]);
    let tokens = render_conversation(&c, None).unwrap();
    assert!(tokens.is_empty());
    let parsed = parse_messages_from_completion_tokens(&tokens, None).unwrap();
    assert!(parsed.is_empty());
}

#[test]
fn streaming_matches_batch_on_tool_conversation() {
    let tokens = render_conversation(&make_tool_conversation(), None).unwrap();
    let batch = parse_messages_from_completion_tokens(&tokens, None).unwrap();
    let (p, r) = stream(&tokens, None);
    assert!(r.is_ok());
    assert!(same_messages(p.messages(), &batch));
    assert_eq!(p.phase(), Phase::Ended);
}

#[test]
fn truncation_tolerance() {
    let tokens = cat(&[&[START, ASSISTANT, CHANNEL], &text("final"), &[MESSAGE], &text("The ans")]);
    let (p, r) = stream(&tokens, None);
    assert!(r.is_ok());
    assert_eq!(p.messages().len(), 1);
    assert_eq!(p.messages()[0].content, "The ans");
    assert_eq!(p.messages()[0].channel.as_deref(), Some("final"));
    assert_eq!(
        parse_messages_from_completion_tokens(&tokens, None).unwrap_err(),
        ParseError::UnterminatedMessage
    );
}

#[test]
fn eos_inside_header_drops_the_partial_header() {
    let tokens = cat(&[&[START, ASSISTANT, CHANNEL], &text("fin")]);
    let (p, r) = stream(&tokens, None);
    assert!(r.is_ok());
    assert!(p.messages().is_empty());
}

#[test]
fn header_order_independence() {
    let a = cat(&[
        &[START, ASSISTANT, CHANNEL],
        &text("commentary"),
        &[RECIPIENT],
        &text("functions.f"),
        &[CONSTRAIN],
        &text("json"),
        &[MESSAGE],
        &text("{}"),
        &[CALL],
    ]);
    let b = cat(&[
        &[START, ASSISTANT, CONSTRAIN],
        &text("json"),
        &[CHANNEL],
        &text("commentary"),
        &[RECIPIENT],
        &text("functions.f"),
        &[MESSAGE],
        &text("{}"),
        &[CALL],
    ]);
    let pa = parse_messages_from_completion_tokens(&a, None).unwrap();
    let pb = parse_messages_from_completion_tokens(&b, None).unwrap();
    assert!(same_messages(&pa, &pb));
    assert_eq!(pa[0].recipient.as_deref(), Some("functions.f"));
}

#[test]
fn malformed_order_scenario() {
    let tokens = cat(&[&[START, ASSISTANT, MESSAGE], &text("x"), &[CONSTRAIN], &text("json")]);
    assert_eq!(
        parse_messages_from_completion_tokens(&tokens, None).unwrap_err(),
        ParseError::MalformedStream(CONSTRAIN)
    );
    let (_, r) = stream(&tokens, None);
    assert_eq!(r, Err(ParseError::MalformedStream(CONSTRAIN)));
}

#[test]
fn repeated_header_field_is_malformed() {
    let tokens = cat(&[&[START, ASSISTANT, CHANNEL], &text("a"), &[CHANNEL]]);
    assert_eq!(
        parse_messages_from_completion_tokens(&tokens, None).unwrap_err(),
        ParseError::MalformedStream(CHANNEL)
    );
}

#[test]
fn text_before_start_is_malformed() {
    let tokens = text("hi");
    assert_eq!(
        parse_messages_from_completion_tokens(&tokens, None).unwrap_err(),
        ParseError::MalformedStream(0x68)
    );
}

#[test]
fn process_after_eos_fails() {
    let mut p = StreamableParser::new(None);
    assert!(p.process_eos().is_ok());
    assert_eq!(p.process(START), Err(ParseError::StreamAlreadyEnded));
    assert!(p.process_eos().is_ok());
}

#[test]
fn parser_state_is_kept_on_error() {
    let mut p = StreamableParser::new(None);
    p.process(START).unwrap();
    assert_eq!(p.process(MESSAGE), Err(ParseError::MalformedStream(MESSAGE)));
    assert_eq!(p.phase(), Phase::ExpectAuthor);
    assert!(p.process(USER).is_ok());
}

#[test]
fn partial_message_is_visible_while_streaming() {
    let mut p = StreamableParser::new(Some(Role::Assistant));
    for t in cat(&[&[CHANNEL], &text("analysis"), &[MESSAGE], &text("Thinking")]) {
        p.process(t).unwrap();
    }
    assert_eq!(p.phase(), Phase::Content);
    assert_eq!(p.current_role(), Role::Assistant);
    assert_eq!(p.current_channel().as_deref(), Some("analysis"));
    assert_eq!(p.current_recipient(), &None);
    assert_eq!(p.current_content_type(), &None);
    assert_eq!(p.current_name(), &None);
    assert_eq!(p.current_content(), "Thinking");
    assert!(p.messages().is_empty());
    p.process(END).unwrap();
    assert_eq!(p.messages().len(), 1);
    assert_eq!(p.current_content(), "");
}

#[test]
fn completion_with_implied_role() {
    let tokens = cat(&[
        &[CHANNEL],
        &text("commentary"),
        &[RECIPIENT],
        &text("functions.get_weather"),
        &[CONSTRAIN],
        &text("json"),
        &[MESSAGE],
        &text("{\"latitude\":48.8566}"),
        &[CALL],
    ]);
    let parsed = parse_messages_from_completion_tokens(&tokens, Some(Role::Assistant)).unwrap();
    assert_eq!(parsed.len(), 1);
    assert_eq!(parsed[0].author.role, Role::Assistant);
    assert_eq!(parsed[0].recipient.as_deref(), Some("functions.get_weather"));
    assert_eq!(parsed[0].content, "{\"latitude\":48.8566}");
}

#[test]
fn completion_prompt_opens_next_role() {
    let c = make_tool_conversation();
    let prompt = render_conversation_for_completion(&c, Role::Assistant, None).unwrap();
    let base = render_conversation(&c, None).unwrap();
    assert_eq!(prompt.len(), base.len() + 2);
    assert_eq!(&prompt[..base.len()], &base[..]);
    assert_eq!(&prompt[base.len()..], &[START, ASSISTANT]);
}

#[test]
fn missing_required_channel_is_rejected() {
    let c = reasoning_conversation();
    let cfg = RenderConfig {
        auto_drop_previous_reasoning: false,
        required_channels: vec!["analysis".to_string(), "commentary".to_string()],
        allowed_next_roles: None,
    };
    assert_eq!(render_conversation(&c, Some(&cfg)), Err(RenderError::Validation));
    assert_eq!(
        render_conversation_for_completion(&c, Role::Assistant, Some(&cfg)),
        Err(RenderError::Validation)
    );
    let ok = RenderConfig {
        auto_drop_previous_reasoning: false,
        required_channels: vec!["analysis".to_string(), "final".to_string()],
        allowed_next_roles: None,
    };
    assert!(render_conversation(&c, Some(&ok)).is_ok());
}

#[test]
fn tool_without_name_is_rejected() {
    let c = Conversation::from_messages(vec![Message::from_role_and_content(
        Role::Tool,
        "result".to_string(),
    )]);
    assert_eq!(render_conversation(&c, None), Err(RenderError::Validation));
}

#[test]
fn empty_name_is_rejected() {
    let c = Conversation::from_messages(vec![Message::from_author_and_content(
        Author::new(Role::User, String::new()),
        "hi".to_string(),
    )]);
    assert_eq!(render_conversation(&c, None), Err(RenderError::Validation));
}

#[test]
fn turn_taking_policy_limits_next_role() {
    let c = make_tool_conversation();
    let cfg = RenderConfig {
        auto_drop_previous_reasoning: false,
        required_channels: vec![],
        allowed_next_roles: Some(vec![Role::Assistant]),
    };
    assert_eq!(
        render_conversation_for_completion(&c, Role::User, Some(&cfg)),
        Err(RenderError::Validation)
    );
    let prompt = render_conversation_for_completion(&c, Role::Assistant, Some(&cfg)).unwrap();
    assert_eq!(&prompt[prompt.len() - 2..], &[START, ASSISTANT]);
}

#[test]
fn process_all_feeds_chunks() {
    let tokens = render_conversation(&make_tool_conversation(), None).unwrap();
    let mut p = StreamableParser::new(None);
    let (a, b) = tokens.split_at(tokens.len() / 2);
    assert!(p.process_all(a).is_ok());
    assert!(p.process_all(b).is_ok());
    assert!(p.process_eos().is_ok());
    let batch = parse_messages_from_completion_tokens(&tokens, None).unwrap();
    assert!(same_messages(p.messages(), &batch));
    let mut q = StreamableParser::new(None);
    assert_eq!(q.process_all(&[START, END]), Err(ParseError::MalformedStream(END)));
}

#[test]
fn decode_text_inverts_encode_text() {
    assert_eq!(decode_text(&text("Grüße, 世界")), Some("Grüße, 世界".to_string()));
    assert_eq!(decode_text(&[]), Some(String::new()));
    assert_eq!(decode_text(&[0x61, MESSAGE]), None);
}
