//! Laws relating the renderer, the batch parser and the streaming parser.
use vstd::prelude::*;
use crate::chat::{MessageView, Role, message_wf};
use crate::grammar::{
    CALL, CHANNEL, CONSTRAIN, END, MESSAGE, RECIPIENT, START, char_of_token, code_of,
    lemma_char_of_code, lemma_code_bound, lemma_marker_not_text, lemma_role_token, role_token, text_tokens,
};
use crate::parser::{
    HeaderField, ParseError, ParserView, Phase, end_of_stream, field_value, fresh_message,
    initial_view, parse_spec, run, set_field, step, stream_spec,
};
use crate::render::{
    conversation_valid, field_tokens, header_tokens, message_tokens, name_tokens, render_prefix,
    render_spec, terminator,
};

verus! {

/// Running two sequences one after the other is running their concatenation.
pub proof fn lemma_run_concat(s: ParserView, a: Seq<u32>, b: Seq<u32>)
    ensures
        run(s, a + b) == (match run(s, a) {
            Ok(s2) => run(s2, b),
            Err(e) => Err(e),
        }),
    decreases b.len(),
{
    if b.len() == 0 {
        assert(a + b =~= a);
    } else {
        lemma_run_concat(s, a, b.drop_last());
        assert((a + b).drop_last() =~= a + b.drop_last());
        assert((a + b).last() == b.last());
    }
}

pub proof fn lemma_run_one(s: ParserView, t: u32)
    ensures
        run(s, seq![t]) == step(s, t),
{
    assert(seq![t].drop_last() =~= Seq::<u32>::empty());
    assert(run(s, Seq::<u32>::empty()) == Ok::<ParserView, ParseError>(s));
}

/// What text does to an optional field: nothing when empty, else it is
/// appended, opening the field if it was absent.
pub open spec fn extend_opt(o: Option<Seq<char>>, text: Seq<char>) -> Option<Seq<char>> {
    if text.len() == 0 {
        o
    } else {
        match o {
            Some(b) => Some(b + text),
            None => Some(text),
        }
    }
}

/// Text in a header goes to the field that is open.
pub proof fn lemma_header_text(s: ParserView, text: Seq<char>)
    requires
        s.phase == Phase::Header,
    ensures
        run(s, text_tokens(text)) == Ok::<ParserView, ParseError>(
            ParserView {
                current: set_field(s.current, s.field, extend_opt(field_value(s.current, s.field), text)),
                ..s
            },
        ),
    decreases text.len(),
{
    if text.len() == 0 {
        assert(text_tokens(text) =~= Seq::<u32>::empty());
    } else {
        let t0 = text.drop_last();
        let c = text.last();
        lemma_header_text(s, t0);
        assert(text_tokens(text).drop_last() =~= text_tokens(t0));
        lemma_char_of_code(c);
        lemma_code_bound(c);
        match field_value(s.current, s.field) {
            Some(b) => {
                if t0.len() == 0 {
                    assert(b.push(c) =~= b + text);
                } else {
                    assert((b + t0).push(c) =~= b + text);
                }
            },
            None => {
                if t0.len() == 0 {
                    assert(seq![c] =~= text);
                } else {
                    assert(t0.push(c) =~= text);
                }
            },
        }
    }
}

/// Text in the body is appended to the content.
pub proof fn lemma_content_text(s: ParserView, text: Seq<char>)
    requires
        s.phase == Phase::Content,
    ensures
        run(s, text_tokens(text)) == Ok::<ParserView, ParseError>(
            ParserView {
                current: MessageView { content: s.current.content + text, ..s.current },
                ..s
            },
        ),
    decreases text.len(),
{
    if text.len() == 0 {
        assert(text_tokens(text) =~= Seq::<u32>::empty());
        assert(s.current.content + text =~= s.current.content);
    } else {
        let t0 = text.drop_last();
        let c = text.last();
        lemma_content_text(s, t0);
        assert(text_tokens(text).drop_last() =~= text_tokens(t0));
        lemma_char_of_code(c);
        lemma_code_bound(c);
        assert((s.current.content + t0).push(c) =~= s.current.content + text);
    }
}

pub open spec fn field_marker(f: HeaderField) -> u32 {
    match f {
        HeaderField::Channel => CHANNEL,
        HeaderField::Recipient => RECIPIENT,
        _ => CONSTRAIN,
    }
}

/// The tokens of one header field: its marker, then its text.
pub open spec fn segment(f: HeaderField, v: Seq<char>) -> Seq<u32> {
    seq![field_marker(f)] + text_tokens(v)
}

/// A header field that is still absent is set by its segment.
pub proof fn lemma_segment(s: ParserView, f: HeaderField, v: Seq<char>)
    requires
        s.phase == Phase::Header,
        f != HeaderField::Name,
        field_value(s.current, f) is None,
    ensures
        run(s, segment(f, v)) == Ok::<ParserView, ParseError>(
            ParserView { field: f, current: set_field(s.current, f, Some(v)), ..s },
        ),
{
    lemma_run_concat(s, seq![field_marker(f)], text_tokens(v));
    lemma_run_one(s, field_marker(f));
    let s1 = ParserView { field: f, current: set_field(s.current, f, Some(Seq::empty())), ..s };
    lemma_header_text(s1, v);
    assert(Seq::<char>::empty() + v =~= v);
}

/// A header field given or left out by its optional value.
proof fn lemma_opt_segment(s: ParserView, f: HeaderField, o: Option<Seq<char>>)
    requires
        s.phase == Phase::Header,
        f != HeaderField::Name,
        field_value(s.current, f) is None,
    ensures
        run(s, field_tokens(field_marker(f), o)) is Ok,
        run(s, field_tokens(field_marker(f), o))->Ok_0.phase == Phase::Header,
        run(s, field_tokens(field_marker(f), o))->Ok_0.messages == s.messages,
        run(s, field_tokens(field_marker(f), o))->Ok_0.current == set_field(s.current, f, o),
{
    match o {
        Some(v) => {
            assert(field_tokens(field_marker(f), o) == segment(f, v));
            lemma_segment(s, f, v);
        },
        None => {
            assert(field_tokens(field_marker(f), o) =~= Seq::<u32>::empty());
            assert(run(s, Seq::<u32>::empty()) == Ok::<ParserView, ParseError>(s));
        },
    }
}

/// The start and role markers open a fresh header.
proof fn lemma_open(s: ParserView, role: Role)
    requires
        s.phase == Phase::ExpectStart,
    ensures
        run(s, seq![START, role_token(role)]) == Ok::<ParserView, ParseError>(
            ParserView {
                phase: Phase::Header,
                field: HeaderField::Name,
                current: fresh_message(role),
                ..s
            },
        ),
{
    lemma_run_concat(s, seq![START], seq![role_token(role)]);
    assert(seq![START] + seq![role_token(role)] =~= seq![START, role_token(role)]);
    lemma_run_one(s, START);
    lemma_run_one(ParserView { phase: Phase::ExpectAuthor, ..s }, role_token(role));
    lemma_role_token(role);
}

/// From the header's end, the body and its terminator complete the message.
proof fn lemma_body(s: ParserView, content: Seq<char>, term: u32)
    requires
        s.phase == Phase::Header,
        term == END || term == CALL,
    ensures
        run(s, seq![MESSAGE] + text_tokens(content) + seq![term]) == Ok::<ParserView, ParseError>(
            ParserView {
                messages: s.messages.push(MessageView { content: s.current.content + content, ..s.current }),
                phase: Phase::ExpectStart,
                current: fresh_message(s.current.role),
                ..s
            },
        ),
{
    let b1 = seq![MESSAGE] + text_tokens(content);
    lemma_run_concat(s, b1, seq![term]);
    lemma_run_concat(s, seq![MESSAGE], text_tokens(content));
    lemma_run_one(s, MESSAGE);
    let s1 = ParserView { phase: Phase::Content, ..s };
    lemma_content_text(s1, content);
    let s2 = ParserView {
        current: MessageView { content: s.current.content + content, ..s.current },
        ..s1
    };
    lemma_run_one(s2, term);
}

/// One well-formed message, rendered, parses back to itself.
pub proof fn lemma_message(s: ParserView, m: MessageView)
    requires
        s.phase == Phase::ExpectStart,
        message_wf(m),
    ensures
        run(s, message_tokens(m)) is Ok,
        run(s, message_tokens(m))->Ok_0.phase == Phase::ExpectStart,
        run(s, message_tokens(m))->Ok_0.messages == s.messages.push(m),
{
    let h0 = seq![START, role_token(m.role)];
    lemma_open(s, m.role);
    let s2 = run(s, h0)->Ok_0;
    let h1 = h0 + name_tokens(m.name);
    lemma_run_concat(s, h0, name_tokens(m.name));
    match m.name {
        Some(n) => {
            lemma_header_text(s2, n);
        },
        None => {
            assert(name_tokens(m.name) =~= Seq::<u32>::empty());
            assert(run(s2, Seq::<u32>::empty()) == Ok::<ParserView, ParseError>(s2));
        },
    }
    let s3 = run(s, h1)->Ok_0;
    assert(s3.current == MessageView { name: m.name, ..fresh_message(m.role) });
    let h2 = h1 + field_tokens(CHANNEL, m.channel);
    lemma_run_concat(s, h1, field_tokens(CHANNEL, m.channel));
    lemma_opt_segment(s3, HeaderField::Channel, m.channel);
    let s4 = run(s, h2)->Ok_0;
    let h3 = h2 + field_tokens(RECIPIENT, m.recipient);
    lemma_run_concat(s, h2, field_tokens(RECIPIENT, m.recipient));
    lemma_opt_segment(s4, HeaderField::Recipient, m.recipient);
    let s5 = run(s, h3)->Ok_0;
    let h4 = h3 + field_tokens(CONSTRAIN, m.content_type);
    lemma_run_concat(s, h3, field_tokens(CONSTRAIN, m.content_type));
    lemma_opt_segment(s5, HeaderField::ContentType, m.content_type);
    let s6 = run(s, h4)->Ok_0;
    assert(h4 == header_tokens(m));
    let body = seq![MESSAGE] + text_tokens(m.content) + seq![terminator(m)];
    lemma_run_concat(s, h4, body);
    lemma_body(s6, m.content, terminator(m));
    assert(Seq::<char>::empty() + m.content =~= m.content);
    assert(h4 + body =~= message_tokens(m));
}

proof fn lemma_render_run(ms: Seq<MessageView>, n: int)
    requires
        0 <= n <= ms.len(),
        forall|i: int| 0 <= i < ms.len() ==> message_wf(#[trigger] ms[i]),
    ensures
        run(initial_view(None), render_prefix(ms, false, n)) is Ok,
        run(initial_view(None), render_prefix(ms, false, n))->Ok_0.phase == Phase::ExpectStart,
        run(initial_view(None), render_prefix(ms, false, n))->Ok_0.messages == ms.subrange(0, n),
    decreases n,
{
    let init = initial_view(None);
    if n == 0 {
        assert(render_prefix(ms, false, 0) =~= Seq::<u32>::empty());
        assert(run(init, Seq::<u32>::empty()) == Ok::<ParserView, ParseError>(init));
        assert(init.messages =~= ms.subrange(0, 0));
    } else {
        lemma_render_run(ms, n - 1);
        let pre = render_prefix(ms, false, n - 1);
        lemma_run_concat(init, pre, message_tokens(ms[n - 1]));
        let r = run(init, pre)->Ok_0;
        lemma_message(r, ms[n - 1]);
        assert(ms.subrange(0, n - 1).push(ms[n - 1]) =~= ms.subrange(0, n));
    }
}

/// Round trip: a valid conversation rendered with nothing dropped parses
/// back to exactly its messages.
pub proof fn round_trip(ms: Seq<MessageView>, required: Seq<Seq<char>>)
    requires
        conversation_valid(ms, required),
    ensures
        render_spec(ms, false, required) is Ok,
        parse_spec(render_spec(ms, false, required)->Ok_0, None) == Ok::<
            Seq<MessageView>,
            ParseError,
        >(ms),
{
    lemma_render_run(ms, ms.len() as int);
    assert(ms.subrange(0, ms.len() as int) =~= ms);
}

/// Streaming and batch parsing agree: wherever the batch parse of `ts`
/// succeeds, feeding `ts` token by token and then ending the stream yields
/// the same messages.
pub proof fn streaming_matches_batch(ts: Seq<u32>, role: Option<Role>)
    requires
        parse_spec(ts, role) is Ok,
    ensures
        stream_spec(ts, role) == parse_spec(ts, role),
{
}

/// Truncation tolerance: a stream cut off inside a message's content and
/// then ended yields, last, that message with exactly the content received.
pub proof fn truncation_tolerance(ts: Seq<u32>, role: Option<Role>, text: Seq<char>)
    requires
        run(initial_view(role), ts) is Ok,
        run(initial_view(role), ts)->Ok_0.phase == Phase::Content,
    ensures
        stream_spec(ts + text_tokens(text), role) == Ok::<Seq<MessageView>, ParseError>(
            run(initial_view(role), ts)->Ok_0.messages.push(
                MessageView {
                    content: run(initial_view(role), ts)->Ok_0.current.content + text,
                    ..run(initial_view(role), ts)->Ok_0.current
                },
            ),
        ),
{
    let s = run(initial_view(role), ts)->Ok_0;
    lemma_run_concat(initial_view(role), ts, text_tokens(text));
    lemma_content_text(s, text);
}

pub open spec fn value_of(m: MessageView, f: HeaderField) -> Seq<char> {
    match field_value(m, f) {
        Some(v) => v,
        None => Seq::empty(),
    }
}

/// The header segments of `m`'s fields, in the given order.
pub open spec fn segments(order: Seq<HeaderField>, m: MessageView) -> Seq<u32>
    decreases order.len(),
{
    if order.len() == 0 {
        Seq::empty()
    } else {
        segments(order.drop_last(), m) + segment(order.last(), value_of(m, order.last()))
    }
}

/// An order of header fields: marker-introduced fields, each at most once.
pub open spec fn header_order_ok(order: Seq<HeaderField>) -> bool {
    &&& order.no_duplicates()
    &&& !order.contains(HeaderField::Name)
}

/// The message whose header holds `m`'s values for the fields in `order`.
pub open spec fn picked(m: MessageView, order: Seq<HeaderField>) -> MessageView {
    MessageView {
        role: m.role,
        name: None,
        channel: if order.contains(HeaderField::Channel) {
            Some(value_of(m, HeaderField::Channel))
        } else {
            None
        },
        recipient: if order.contains(HeaderField::Recipient) {
            Some(value_of(m, HeaderField::Recipient))
        } else {
            None
        },
        content_type: if order.contains(HeaderField::ContentType) {
            Some(value_of(m, HeaderField::ContentType))
        } else {
            None
        },
        content: m.content,
    }
}

/// A whole message whose header fields come in the given order.
pub open spec fn message_with_header(order: Seq<HeaderField>, m: MessageView) -> Seq<u32> {
    seq![START, role_token(m.role)] + segments(order, m) + (seq![MESSAGE] + text_tokens(m.content)
        + seq![END])
}

proof fn lemma_segments(s: ParserView, order: Seq<HeaderField>, m: MessageView)
    requires
        s.phase == Phase::Header,
        s.current == fresh_message(m.role),
        header_order_ok(order),
    ensures
        run(s, segments(order, m)) is Ok,
        run(s, segments(order, m))->Ok_0.phase == Phase::Header,
        run(s, segments(order, m))->Ok_0.messages == s.messages,
        run(s, segments(order, m))->Ok_0.current == (MessageView {
            content: Seq::empty(),
            ..picked(m, order)
        }),
    decreases order.len(),
{
    if order.len() == 0 {
        assert(run(s, Seq::<u32>::empty()) == Ok::<ParserView, ParseError>(s));
        assert(!order.contains(HeaderField::Channel));
        assert(!order.contains(HeaderField::Recipient));
        assert(!order.contains(HeaderField::ContentType));
    } else {
        let o0 = order.drop_last();
        let f = order.last();
        assert forall|i: int, j: int| 0 <= i < o0.len() && 0 <= j < o0.len() && i != j implies o0[i]
            != o0[j] by {
            assert(o0[i] == order[i] && o0[j] == order[j]);
        }
        assert(!o0.contains(HeaderField::Name)) by {
            if o0.contains(HeaderField::Name) {
                let i = choose|i: int| 0 <= i < o0.len() && o0[i] == HeaderField::Name;
                assert(order[i] == HeaderField::Name);
            }
        }
        lemma_segments(s, o0, m);
        lemma_run_concat(s, segments(o0, m), segment(f, value_of(m, f)));
        let r0 = run(s, segments(o0, m))->Ok_0;
        assert(!o0.contains(f)) by {
            if o0.contains(f) {
                let i = choose|i: int| 0 <= i < o0.len() && o0[i] == f;
                assert(order[i] == order[order.len() - 1]);
            }
        }
        assert(order[order.len() - 1] == f);
        assert(f != HeaderField::Name);
        lemma_segment(r0, f, value_of(m, f));
        assert forall|g: HeaderField| order.contains(g) <==> (o0.contains(g) || g == f) by {
            if order.contains(g) {
                let i = choose|i: int| 0 <= i < order.len() && order[i] == g;
                if i < order.len() - 1 {
                    assert(o0[i] == g);
                }
            }
            if o0.contains(g) {
                let i = choose|i: int| 0 <= i < o0.len() && o0[i] == g;
                assert(order[i] == g);
            }
        }
    }
}

proof fn lemma_message_with_header(order: Seq<HeaderField>, m: MessageView)
    requires
        header_order_ok(order),
    ensures
        parse_spec(message_with_header(order, m), None) == Ok::<Seq<MessageView>, ParseError>(
            seq![picked(m, order)],
        ),
{
    let init = initial_view(None);
    let h0 = seq![START, role_token(m.role)];
    let body = seq![MESSAGE] + text_tokens(m.content) + seq![END];
    lemma_open(init, m.role);
    let s1 = run(init, h0)->Ok_0;
    lemma_run_concat(init, h0, segments(order, m));
    lemma_segments(s1, order, m);
    let s2 = run(init, h0 + segments(order, m))->Ok_0;
    lemma_run_concat(init, h0 + segments(order, m), body);
    lemma_body(s2, m.content, END);
    assert(Seq::<char>::empty() + m.content =~= m.content);
    assert(Seq::<MessageView>::empty().push(picked(m, order)) =~= seq![picked(m, order)]);
}

/// Header order independence: the channel, recipient and content-type fields
/// of a header may come in any order, and every order parses to the same
/// message.
pub proof fn header_order_independent(o1: Seq<HeaderField>, o2: Seq<HeaderField>, m: MessageView)
    requires
        header_order_ok(o1),
        header_order_ok(o2),
        forall|f: HeaderField| o1.contains(f) <==> o2.contains(f),
    ensures
        parse_spec(message_with_header(o1, m), None) == parse_spec(message_with_header(o2, m), None),
        parse_spec(message_with_header(o1, m), None) == Ok::<Seq<MessageView>, ParseError>(
            seq![picked(m, o1)],
        ),
{
    lemma_message_with_header(o1, m);
    lemma_message_with_header(o2, m);
    assert(o1.contains(HeaderField::Channel) == o2.contains(HeaderField::Channel));
    assert(o1.contains(HeaderField::Recipient) == o2.contains(HeaderField::Recipient));
    assert(o1.contains(HeaderField::ContentType) == o2.contains(HeaderField::ContentType));
    assert(picked(m, o1) == picked(m, o2));
}

/// Inside a message's body only text and terminators are allowed: a start,
/// message or header marker there is refused as malformed.
pub proof fn marker_in_body_refused(s: ParserView, t: u32)
    requires
        s.phase == Phase::Content,
        t == START || t == MESSAGE || t == CHANNEL || t == RECIPIENT || t == CONSTRAIN,
    ensures
        step(s, t) == Err::<ParserView, ParseError>(ParseError::MalformedStream(t)),
{
    lemma_marker_not_text(t);
}

} // verus!
