//! Parsing token streams back into messages: one state machine, stated as the
//! spec function `step`, driven token by token by `StreamableParser` and over
//! a whole sequence by `parse_messages_from_completion_tokens`.
use vstd::prelude::*;
use crate::chat::{Author, Message, MessageView, Role, messages_view, opt_view};
use crate::grammar::{
    CALL, CHANNEL, CONSTRAIN, END, MESSAGE, RECIPIENT, START, char_of_token, decode_token,
    is_text_token, push_char, role_from_marker, role_of_token,
};

verus! {

/// Where the parser stands in the grammar.
#[derive(Clone, Copy, Debug, PartialEq, Eq, Structural)]
pub enum Phase {
    /// Between messages: only a start marker may come.
    ExpectStart,
    /// After a start marker: only a role marker may come.
    ExpectAuthor,
    /// Collecting the name, channel, recipient and content type.
    Header,
    /// After the message marker: collecting content.
    Content,
    /// After the end of the stream.
    Ended,
}

/// The header field that text tokens are currently appended to.
#[derive(Clone, Copy, Debug, PartialEq, Eq, Structural)]
pub enum HeaderField {
    Name,
    Channel,
    Recipient,
    ContentType,
}

#[derive(Clone, Copy, Debug, PartialEq, Eq, Structural)]
pub enum ParseError {
    /// The token is not allowed where it stands.
    MalformedStream(u32),
    /// The input ended inside a message.
    UnterminatedMessage,
    /// A token came after the end of the stream.
    StreamAlreadyEnded,
}

/// The mathematical state of a parser.
pub struct ParserView {
    pub messages: Seq<MessageView>,
    pub phase: Phase,
    pub field: HeaderField,
    pub current: MessageView,
}

pub open spec fn fresh_message(role: Role) -> MessageView {
    MessageView {
        role,
        name: None,
        channel: None,
        recipient: None,
        content_type: None,
        content: Seq::empty(),
    }
}

/// With `role` given, the stream starts inside that role's header (its start
/// and role markers are implied); otherwise it starts between messages.
pub open spec fn initial_view(role: Option<Role>) -> ParserView {
    match role {
        Some(r) => ParserView {
            messages: Seq::empty(),
            phase: Phase::Header,
            field: HeaderField::Name,
            current: fresh_message(r),
        },
        None => ParserView {
            messages: Seq::empty(),
            phase: Phase::ExpectStart,
            field: HeaderField::Name,
            current: fresh_message(Role::Assistant),
        },
    }
}

pub open spec fn field_value(m: MessageView, f: HeaderField) -> Option<Seq<char>> {
    match f {
        HeaderField::Name => m.name,
        HeaderField::Channel => m.channel,
        HeaderField::Recipient => m.recipient,
        HeaderField::ContentType => m.content_type,
    }
}

pub open spec fn set_field(m: MessageView, f: HeaderField, v: Option<Seq<char>>) -> MessageView {
    match f {
        HeaderField::Name => MessageView { name: v, ..m },
        HeaderField::Channel => MessageView { channel: v, ..m },
        HeaderField::Recipient => MessageView { recipient: v, ..m },
        HeaderField::ContentType => MessageView { content_type: v, ..m },
    }
}

pub open spec fn append_opt(o: Option<Seq<char>>, c: char) -> Option<Seq<char>> {
    match o {
        Some(s) => Some(s.push(c)),
        None => Some(seq![c]),
    }
}

/// The header field a marker opens, if it opens one.
pub open spec fn field_of_marker(t: u32) -> Option<HeaderField> {
    if t == CHANNEL {
        Some(HeaderField::Channel)
    } else if t == RECIPIENT {
        Some(HeaderField::Recipient)
    } else if t == CONSTRAIN {
        Some(HeaderField::ContentType)
    } else {
        None
    }
}

pub open spec fn is_terminator(t: u32) -> bool {
    t == END || t == CALL
}

/// One transition of the grammar's state machine.
pub open spec fn step(s: ParserView, t: u32) -> Result<ParserView, ParseError> {
    match s.phase {
        Phase::Ended => Err(ParseError::StreamAlreadyEnded),
        Phase::ExpectStart => if t == START {
            Ok(ParserView { phase: Phase::ExpectAuthor, ..s })
        } else {
            Err(ParseError::MalformedStream(t))
        },
        Phase::ExpectAuthor => match role_of_token(t) {
            Some(r) => Ok(
                ParserView {
                    phase: Phase::Header,
                    field: HeaderField::Name,
                    current: fresh_message(r),
                    ..s
                },
            ),
            None => Err(ParseError::MalformedStream(t)),
        },
        Phase::Header => if t == MESSAGE {
            Ok(ParserView { phase: Phase::Content, ..s })
        } else if field_of_marker(t) is Some {
            let f = field_of_marker(t)->0;
            if field_value(s.current, f) is Some {
                Err(ParseError::MalformedStream(t))
            } else {
                Ok(ParserView { field: f, current: set_field(s.current, f, Some(Seq::empty())), ..s })
            }
        } else if is_text_token(t) {
            Ok(
                ParserView {
                    current: set_field(
                        s.current,
                        s.field,
                        append_opt(field_value(s.current, s.field), char_of_token(t)),
                    ),
                    ..s
                },
            )
        } else {
            Err(ParseError::MalformedStream(t))
        },
        Phase::Content => if is_terminator(t) {
            Ok(
                ParserView {
                    messages: s.messages.push(s.current),
                    phase: Phase::ExpectStart,
                    current: fresh_message(s.current.role),
                    ..s
                },
            )
        } else if is_text_token(t) {
            Ok(
                ParserView {
                    current: MessageView {
                        content: s.current.content.push(char_of_token(t)),
                        ..s.current
                    },
                    ..s
                },
            )
        } else {
            Err(ParseError::MalformedStream(t))
        },
    }
}

/// Runs the state machine over a token sequence, stopping at the first error.
pub open spec fn run(s: ParserView, ts: Seq<u32>) -> Result<ParserView, ParseError>
    decreases ts.len(),
{
    if ts.len() == 0 {
        Ok(s)
    } else {
        match run(s, ts.drop_last()) {
            Ok(s2) => step(s2, ts.last()),
            Err(e) => Err(e),
        }
    }
}

/// The end of the stream: a message whose content had begun is kept as it
/// stands; an unfinished header is dropped.
pub open spec fn end_of_stream(s: ParserView) -> ParserView {
    if s.phase == Phase::Content {
        ParserView {
            messages: s.messages.push(s.current),
            phase: Phase::Ended,
            current: fresh_message(s.current.role),
            ..s
        }
    } else {
        ParserView { phase: Phase::Ended, ..s }
    }
}

/// What a whole completion parses to: the completed messages when the tokens
/// end between messages.
pub open spec fn parse_spec(ts: Seq<u32>, role: Option<Role>) -> Result<Seq<MessageView>, ParseError> {
    match run(initial_view(role), ts) {
        Ok(s) => if s.phase == Phase::ExpectStart {
            Ok(s.messages)
        } else {
            Err(ParseError::UnterminatedMessage)
        },
        Err(e) => Err(e),
    }
}

/// The messages a stream yields when it is fed whole and then ended.
pub open spec fn stream_spec(ts: Seq<u32>, role: Option<Role>) -> Result<Seq<MessageView>, ParseError> {
    match run(initial_view(role), ts) {
        Ok(s) => Ok(end_of_stream(s).messages),
        Err(e) => Err(e),
    }
}

pub proof fn lemma_run_err_extends(s: ParserView, ts: Seq<u32>, i: int, j: int)
    requires
        0 <= i <= j <= ts.len(),
        run(s, ts.subrange(0, i)) is Err,
    ensures
        run(s, ts.subrange(0, j)) == run(s, ts.subrange(0, i)),
    decreases j - i,
{
    if j > i {
        lemma_run_err_extends(s, ts, i, j - 1);
        assert(ts.subrange(0, j).drop_last() == ts.subrange(0, j - 1));
    }
}

/// An incremental parser: feed it tokens one at a time, then the end of the
/// stream, and read the completed messages and the partial one at any point.
pub struct StreamableParser {
    messages: Vec<Message>,
    phase: Phase,
    field: HeaderField,
    role: Role,
    name: Option<String>,
    channel: Option<String>,
    recipient: Option<String>,
    content_type: Option<String>,
    content: String,
}

impl View for StreamableParser {
    type V = ParserView;

    closed spec fn view(&self) -> ParserView {
        ParserView {
            messages: messages_view(self.messages@),
            phase: self.phase,
            field: self.field,
            current: MessageView {
                role: self.role,
                name: opt_view(self.name),
                channel: opt_view(self.channel),
                recipient: opt_view(self.recipient),
                content_type: opt_view(self.content_type),
                content: self.content@,
            },
        }
    }
}

fn push_opt(o: &mut Option<String>, c: char)
    ensures
        opt_view(*final(o)) == append_opt(opt_view(*old(o)), c),
{
    let mut s = String::new();
    let mut cur: Option<String> = None;
    std::mem::swap(o, &mut cur);
    match cur {
        Some(x) => {
            s = x;
        },
        None => {},
    }
    push_char(&mut s, c);
    proof {
        if opt_view(*old(o)) is None {
            assert(s@ =~= seq![c]);
        }
    }
    *o = Some(s);
}

impl StreamableParser {
    pub fn new(role: Option<Role>) -> (r: StreamableParser)
        ensures
            r@ == initial_view(role),
    {
        let (phase, current) = match role {
            Some(r) => (Phase::Header, r),
            None => (Phase::ExpectStart, Role::Assistant),
        };
        let p = StreamableParser {
            messages: Vec::new(),
            phase,
            field: HeaderField::Name,
            role: current,
            name: None,
            channel: None,
            recipient: None,
            content_type: None,
            content: String::new(),
        };
        proof {
            assert(p@.messages =~= Seq::<MessageView>::empty());
            assert(p@.current.content =~= Seq::<char>::empty());
        }
        p
    }

    fn start_message(&mut self, role: Role)
        ensures
            final(self)@ == (ParserView {
                phase: Phase::Header,
                field: HeaderField::Name,
                current: fresh_message(role),
                ..old(self)@
            }),
    {
        self.phase = Phase::Header;
        self.field = HeaderField::Name;
        self.role = role;
        self.name = None;
        self.channel = None;
        self.recipient = None;
        self.content_type = None;
        self.content = String::new();
        proof {
            assert(self@.current.content =~= Seq::<char>::empty());
        }
    }

    fn has_field(&self, f: HeaderField) -> (r: bool)
        ensures
            r == (field_value(self@.current, f) is Some),
    {
        match f {
            HeaderField::Name => self.name.is_some(),
            HeaderField::Channel => self.channel.is_some(),
            HeaderField::Recipient => self.recipient.is_some(),
            HeaderField::ContentType => self.content_type.is_some(),
        }
    }

    fn open_field(&mut self, f: HeaderField)
        ensures
            final(self)@ == (ParserView {
                field: f,
                current: set_field(old(self)@.current, f, Some(Seq::empty())),
                ..old(self)@
            }),
    {
        let empty = String::new();
        proof {
            assert(empty@ =~= Seq::<char>::empty());
        }
        match f {
            HeaderField::Name => self.name = Some(empty),
            HeaderField::Channel => self.channel = Some(empty),
            HeaderField::Recipient => self.recipient = Some(empty),
            HeaderField::ContentType => self.content_type = Some(empty),
        }
        self.field = f;
    }

    fn push_header_char(&mut self, c: char)
        ensures
            final(self)@ == (ParserView {
                current: set_field(
                    old(self)@.current,
                    old(self)@.field,
                    append_opt(field_value(old(self)@.current, old(self)@.field), c),
                ),
                ..old(self)@
            }),
    {
        match self.field {
            HeaderField::Name => push_opt(&mut self.name, c),
            HeaderField::Channel => push_opt(&mut self.channel, c),
            HeaderField::Recipient => push_opt(&mut self.recipient, c),
            HeaderField::ContentType => push_opt(&mut self.content_type, c),
        }
    }

    /// Moves the partial message to the completed ones and enters `phase`.
    fn complete_message(&mut self, phase: Phase)
        ensures
            final(self)@ == (ParserView {
                messages: old(self)@.messages.push(old(self)@.current),
                phase,
                current: fresh_message(old(self)@.current.role),
                ..old(self)@
            }),
    {
        let mut name: Option<String> = None;
        let mut channel: Option<String> = None;
        let mut recipient: Option<String> = None;
        let mut content_type: Option<String> = None;
        let mut content = String::new();
        std::mem::swap(&mut self.name, &mut name);
        std::mem::swap(&mut self.channel, &mut channel);
        std::mem::swap(&mut self.recipient, &mut recipient);
        std::mem::swap(&mut self.content_type, &mut content_type);
        std::mem::swap(&mut self.content, &mut content);
        let m = Message {
            author: Author { role: self.role, name },
            channel,
            recipient,
            content_type,
            content,
        };
        self.messages.push(m);
        self.phase = phase;
        proof {
            assert(self@.current.content =~= Seq::<char>::empty());
            assert(self@.messages =~= old(self)@.messages.push(old(self)@.current));
        }
    }

    /// Advances the state machine by one token. On an error the parser is
    /// left as it was.
    pub fn process(&mut self, t: u32) -> (r: Result<(), ParseError>)
        ensures
            match step(old(self)@, t) {
                Ok(s) => r is Ok && final(self)@ == s,
                Err(e) => r == Err::<(), ParseError>(e) && final(self)@ == old(self)@,
            },
    {
        match self.phase {
            Phase::Ended => Err(ParseError::StreamAlreadyEnded),
            Phase::ExpectStart => {
                if t == START {
                    self.phase = Phase::ExpectAuthor;
                    Ok(())
                } else {
                    Err(ParseError::MalformedStream(t))
                }
            },
            Phase::ExpectAuthor => match role_from_marker(t) {
                Some(r) => {
                    self.start_message(r);
                    Ok(())
                },
                None => Err(ParseError::MalformedStream(t)),
            },
            Phase::Header => {
                if t == MESSAGE {
                    self.phase = Phase::Content;
                    Ok(())
                } else if t == CHANNEL || t == RECIPIENT || t == CONSTRAIN {
                    let f = if t == CHANNEL {
                        HeaderField::Channel
                    } else if t == RECIPIENT {
                        HeaderField::Recipient
                    } else {
                        HeaderField::ContentType
                    };
                    if self.has_field(f) {
                        Err(ParseError::MalformedStream(t))
                    } else {
                        self.open_field(f);
                        Ok(())
                    }
                } else {
                    match decode_token(t) {
                        Some(c) => {
                            self.push_header_char(c);
                            Ok(())
                        },
                        None => Err(ParseError::MalformedStream(t)),
                    }
                }
            },
            Phase::Content => {
                if t == END || t == CALL {
                    self.complete_message(Phase::ExpectStart);
                    Ok(())
                } else {
                    match decode_token(t) {
                        Some(c) => {
                            push_char(&mut self.content, c);
                            Ok(())
                        },
                        None => Err(ParseError::MalformedStream(t)),
                    }
                }
            },
        }
    }

    /// Feeds a chunk of tokens in order, stopping at the first error.
    pub fn process_all(&mut self, tokens: &[u32]) -> (r: Result<(), ParseError>)
        ensures
            match run(old(self)@, tokens@) {
                Ok(s) => r is Ok && final(self)@ == s,
                Err(e) => r == Err::<(), ParseError>(e),
            },
    {
        let ghost start = self@;
        let mut i: usize = 0;
        proof {
            assert(tokens@.subrange(0, 0) =~= Seq::<u32>::empty());
        }
        while i < tokens.len()
            invariant
                i <= tokens.len(),
                start == old(self)@,
                run(start, tokens@.subrange(0, i as int)) == Ok::<ParserView, ParseError>(self@),
            decreases tokens.len() - i,
        {
            proof {
                assert(tokens@.subrange(0, i + 1).drop_last() =~= tokens@.subrange(0, i as int));
            }
            match self.process(tokens[i]) {
                Ok(()) => {},
                Err(e) => {
                    proof {
                        lemma_run_err_extends(start, tokens@, i + 1, tokens@.len() as int);
                        assert(tokens@.subrange(0, tokens@.len() as int) == tokens@);
                    }
                    return Err(e);
                },
            }
            i += 1;
        }
        proof {
            assert(tokens@.subrange(0, tokens@.len() as int) == tokens@);
        }
        Ok(())
    }

    /// Ends the stream: a message whose content had begun is completed as it
    /// stands. Never fails; a second call changes nothing.
    pub fn process_eos(&mut self) -> (r: Result<(), ParseError>)
        ensures
            r is Ok,
            final(self)@ == (if old(self)@.phase == Phase::Ended {
                old(self)@
            } else {
                end_of_stream(old(self)@)
            }),
    {
        match self.phase {
            Phase::Ended => {},
            Phase::Content => self.complete_message(Phase::Ended),
            _ => self.phase = Phase::Ended,
        }
        Ok(())
    }

    /// The messages completed so far.
    pub fn messages(&self) -> (r: &Vec<Message>)
        ensures
            messages_view(r@) == self@.messages,
    {
        &self.messages
    }

    pub fn into_messages(self) -> (r: Vec<Message>)
        ensures
            messages_view(r@) == self@.messages,
    {
        self.messages
    }

    pub fn phase(&self) -> (r: Phase)
        ensures
            r == self@.phase,
    {
        self.phase
    }

    /// The role of the message in progress (meaningful in the header and
    /// content phases).
    pub fn current_role(&self) -> (r: Role)
        ensures
            r == self@.current.role,
    {
        self.role
    }

    pub fn current_name(&self) -> (r: &Option<String>)
        ensures
            opt_view(*r) == self@.current.name,
    {
        &self.name
    }

    pub fn current_channel(&self) -> (r: &Option<String>)
        ensures
            opt_view(*r) == self@.current.channel,
    {
        &self.channel
    }

    pub fn current_recipient(&self) -> (r: &Option<String>)
        ensures
            opt_view(*r) == self@.current.recipient,
    {
        &self.recipient
    }

    pub fn current_content_type(&self) -> (r: &Option<String>)
        ensures
            opt_view(*r) == self@.current.content_type,
    {
        &self.content_type
    }

    /// The content received so far for the message in progress.
    pub fn current_content(&self) -> (r: &String)
        ensures
            r@ == self@.current.content,
    {
        &self.content
    }
}

/// Parses a whole completion. With `role` given, the tokens continue a
/// message of that role whose start and role markers were already sent.
pub fn parse_messages_from_completion_tokens(tokens: &Vec<u32>, role: Option<Role>) -> (r: Result<
    Vec<Message>,
    ParseError,
>)
    ensures
        match parse_spec(tokens@, role) {
            Ok(ms) => r is Ok && messages_view(r->Ok_0@) == ms,
            Err(e) => r == Err::<Vec<Message>, ParseError>(e),
        },
{
    let mut p = StreamableParser::new(role);
    let mut i: usize = 0;
    proof {
        assert(tokens@.subrange(0, 0) =~= Seq::<u32>::empty());
    }
    while i < tokens.len()
        invariant
            i <= tokens.len(),
            run(initial_view(role), tokens@.subrange(0, i as int)) == Ok::<ParserView, ParseError>(p@),
        decreases tokens.len() - i,
    {
        let t = tokens[i];
        proof {
            assert(tokens@.subrange(0, i + 1).drop_last() =~= tokens@.subrange(0, i as int));
        }
        match p.process(t) {
            Ok(()) => {},
            Err(e) => {
                proof {
                    lemma_run_err_extends(initial_view(role), tokens@, i + 1, tokens@.len() as int);
                    assert(tokens@.subrange(0, tokens@.len() as int) == tokens@);
                }
                return Err(e);
            },
        }
        i += 1;
    }
    proof {
        assert(tokens@.subrange(0, tokens@.len() as int) == tokens@);
    }
    if p.phase() == Phase::ExpectStart {
        Ok(p.into_messages())
    } else {
        Err(ParseError::UnterminatedMessage)
    }
}

} // verus!
