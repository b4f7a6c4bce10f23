use vstd::prelude::*;
use vstd::std_specs::iter::IteratorSpec;
use crate::grammar::{
    first_from, line_prefix, line_tags, params_from, parse_line, prefix_end, scan, tags_end, tags_from, IrcError, RawLine, Stop,
};

verus! {

broadcast use vstd::string::group_string_axioms;

/// Relies on `String::push`: appends one character.
#[verifier::external_body]
fn push_char(s: &mut String, c: char)
    ensures
        final(s)@ == old(s)@.push(c),
{
    s.push(c)
}

/// The characters of `s`, in order.
pub fn chars_of(s: &str) -> (r: Vec<char>)
    ensures
        r@ == s@,
{
    let mut it = s.chars();
    let mut r: Vec<char> = Vec::new();
    loop
        invariant
            r@ + it.remaining() == s@,
            it.decrease() is Some,
        ensures
            r@ == s@,
        decreases it.decrease()->0,
    {
        match it.next() {
            Some(c) => {
                r.push(c);
            },
            None => {
                assert(r@ + it.remaining() =~= r@);
                break;
            },
        }
    }
    r
}

/// The characters of `v` from `a` up to `b`, as a `String`.
pub fn string_of(v: &Vec<char>, a: usize, b: usize) -> (r: String)
    requires
        a <= b <= v@.len(),
    ensures
        r@ == v@.subrange(a as int, b as int),
{
    let mut r = String::new();
    let mut k: usize = a;
    while k < b
        invariant
            a <= k <= b <= v@.len(),
            r@ == v@.subrange(a as int, k as int),
        decreases b - k,
    {
        push_char(&mut r, v[k]);
        k = k + 1;
        assert(r@ =~= v@.subrange(a as int, k as int));
    }
    r
}

/// The characters of each tag pair.
pub open spec fn tags_view(t: Seq<(String, String)>) -> Seq<(Seq<char>, Seq<char>)> {
    t.map_values(|p: (String, String)| (p.0@, p.1@))
}

/// The characters of each string.
pub open spec fn strings_view(t: Seq<String>) -> Seq<Seq<char>> {
    t.map_values(|p: String| p@)
}

/// A parsed but uninterpreted protocol line.
#[derive(Debug, Clone)]
pub struct IrcMessageRaw {
    /// The message tags, as sent and in order; keys may repeat.
    pub tags: Vec<(String, String)>,
    /// The sender's full prefix, without further parsing,
    /// e.g. `user!user@channel.tmi.twitch.tv`.
    pub prefix: Option<String>,
    /// The command: a word of letters or a three-digit reply code.
    pub command_name: String,
    /// The command's parameters.
    pub command_params: Vec<String>,
}

impl View for IrcMessageRaw {
    type V = RawLine;

    open spec fn view(&self) -> RawLine {
        RawLine {
            tags: tags_view(self.tags@),
            prefix: match self.prefix {
                Some(p) => Some(p@),
                None => None,
            },
            command_name: self.command_name@,
            command_params: strings_view(self.command_params@),
        }
    }
}

/// The tag pairs of the blob `b`.
fn parse_tags(b: &Vec<char>) -> (r: Vec<(String, String)>)
    ensures
        tags_view(r@) == tags_from(b@, 0),
{
    let mut tags: Vec<(String, String)> = Vec::new();
    let mut i: usize = 0;
    loop
        invariant
            i <= b@.len(),
            tags_view(tags@) + tags_from(b@, i as int) == tags_from(b@, 0),
        ensures
            tags_view(tags@) == tags_from(b@, 0),
        decreases b@.len() - i,
    {
        let k = scan(b, i, Stop::KeyEnd);
        if k == i || k >= b.len() || b[k] != '=' {
            assert(tags_from(b@, i as int) =~= seq![]);
            assert(tags_view(tags@) + seq![] =~= tags_view(tags@));
            break;
        }
        let vs: usize = k + 1;
        let ve = scan(b, vs, Stop::Semicolon);
        let key = string_of(b, i, k);
        let value = string_of(b, vs, ve);
        let ghost before = tags@;
        tags.push((key, value));
        let next: usize = if ve < b.len() { ve + 1 } else { ve };
        proof {
            assert(tags_view(tags@) =~= tags_view(before).push((key@, value@)));
            assert(tags_from(b@, i as int) == seq![(key@, value@)] + tags_from(b@, next as int));
            assert(tags_view(tags@) + tags_from(b@, next as int) =~= tags_view(before) + tags_from(
                b@,
                i as int,
            ));
        }
        i = next;
    }
    tags
}

/// The parameters of `v` from index `q0` on.
fn parse_params(v: &Vec<char>, q0: usize) -> (r: Vec<String>)
    requires
        q0 <= v@.len(),
    ensures
        strings_view(r@) == params_from(v@, q0 as int),
{
    let mut params: Vec<String> = Vec::new();
    let mut q: usize = q0;
    loop
        invariant_except_break
            q <= v@.len(),
            strings_view(params@) + params_from(v@, q as int) == params_from(v@, q0 as int),
        ensures
            strings_view(params@) == params_from(v@, q0 as int),
        decreases v@.len() - q,
    {
        let ghost before = params@;
        if q >= v.len() {
            assert(params_from(v@, q as int) =~= seq![]);
            assert(strings_view(params@) + seq![] =~= strings_view(params@));
            break;
        }
        if v[q] == ':' {
            let t = scan(v, q + 1, Stop::LineEnd);
            let p = string_of(v, q + 1, t);
            params.push(p);
            assert(strings_view(params@) =~= strings_view(before).push(p@));
            assert(strings_view(params@) =~= strings_view(before) + params_from(v@, q as int));
            break;
        }
        let t = scan(v, q, Stop::Space);
        let p = string_of(v, q, t);
        params.push(p);
        let n: usize = if t < v.len() { t + 1 } else { t };
        let next = scan(v, n, Stop::Content);
        proof {
            assert(strings_view(params@) =~= strings_view(before).push(p@));
            assert(params_from(v@, q as int) == seq![p@] + params_from(v@, next as int));
            assert(strings_view(params@) + params_from(v@, next as int) =~= strings_view(before)
                + params_from(v@, q as int));
        }
        q = next;
    }
    params
}

impl IrcMessageRaw {
    /// Parses one protocol line: optional `@` tags, optional `:` prefix, a
    /// command name and its parameters.
    pub fn parse(input: &str) -> (r: Result<IrcMessageRaw, IrcError>)
        ensures
            match parse_line(input@) {
                Ok(m) => r matches Ok(raw) && raw@ == m,
                Err(e) => r == Err::<IrcMessageRaw, IrcError>(e),
            },
    {
        let v = chars_of(input);
        let mut tags: Vec<(String, String)> = Vec::new();
        let mut pos: usize = 0;
        if v.len() > 0 && v[0] == '@' {
            let e = scan(&v, 1, Stop::Space);
            let mut blob: Vec<char> = Vec::new();
            let mut k: usize = 1;
            while k < e
                invariant
                    1 <= k <= e <= v@.len(),
                    blob@ == v@.subrange(1, k as int),
                decreases e - k,
            {
                blob.push(v[k]);
                k = k + 1;
                assert(blob@ =~= v@.subrange(1, k as int));
            }
            tags = parse_tags(&blob);
            pos = e;
        }
        assert(pos == tags_end(input@));
        assert(tags_view(tags@) == line_tags(input@));
        let p1 = scan(&v, pos, Stop::Text);
        let mut prefix: Option<String> = None;
        let mut pe: usize = p1;
        if p1 < v.len() && v[p1] == ':' {
            pe = scan(&v, p1 + 1, Stop::Space);
            prefix = Some(string_of(&v, p1 + 1, pe));
        }
        assert(pe == prefix_end(input@));
        let c0 = scan(&v, pe, Stop::Text);
        let ce = scan(&v, c0, Stop::Space);
        if c0 == ce {
            return Err(IrcError::MissingCommandName);
        }
        let command_name = string_of(&v, c0, ce);
        let q: usize = if ce < v.len() { ce + 1 } else { ce };
        let command_params = parse_params(&v, q);
        let raw = IrcMessageRaw { tags, prefix, command_name, command_params };
        assert(raw@.prefix == line_prefix(input@));
        Ok(raw)
    }
}

/// A private message sent by a user or bot and received in a channel.
#[derive(Debug, Clone, PartialEq, Eq)]
pub struct PrivMsg {
    /// The username of the sender.
    pub username: String,
    /// The body of the message.
    pub message: String,
}

/// An event that the application is told of.
#[derive(Debug, Clone, PartialEq, Eq)]
pub enum Message {
    /// A private message received in a channel.
    PrivMsg(PrivMsg),
}

/// What a `Message` holds, over character sequences.
pub enum MessageModel {
    PrivMsg { username: Seq<char>, message: Seq<char> },
}

impl View for Message {
    type V = MessageModel;

    open spec fn view(&self) -> MessageModel {
        match self {
            Message::PrivMsg(p) => MessageModel::PrivMsg {
                username: p.username@,
                message: p.message@,
            },
        }
    }
}

pub open spec fn privmsg_word() -> Seq<char> {
    seq!['P', 'R', 'I', 'V', 'M', 'S', 'G']
}

/// The part of a prefix before its first `!` (all of it without one).
pub open spec fn username_of(prefix: Seq<char>) -> Seq<char> {
    prefix.subrange(0, first_from(prefix, 0, Stop::Bang))
}

/// The event that a record maps to: `PRIVMSG` needs a prefix and a second
/// parameter; every other command maps to no event.
pub open spec fn map_raw(raw: RawLine) -> Result<Option<MessageModel>, IrcError> {
    if raw.command_name == privmsg_word() {
        match raw.prefix {
            None => Err(IrcError::MissingPrefix),
            Some(p) => if raw.command_params.len() < 2 {
                Err(IrcError::MissingBody)
            } else {
                Ok(
                    Some(
                        MessageModel::PrivMsg {
                            username: username_of(p),
                            message: raw.command_params[1],
                        },
                    ),
                )
            },
        }
    } else {
        Ok(None)
    }
}

pub open spec fn message_result_view(r: Result<Option<Message>, IrcError>) -> Result<
    Option<MessageModel>,
    IrcError,
> {
    match r {
        Ok(Some(m)) => Ok(Some(m@)),
        Ok(None) => Ok(None),
        Err(e) => Err(e),
    }
}

impl Message {
    /// Turns a record into an event where one is defined for its command,
    /// and into `Ok(None)` where none is.
    pub fn from_raw_msg(raw_msg: IrcMessageRaw) -> (r: Result<Option<Message>, IrcError>)
        ensures
            message_result_view(r) == map_raw(raw_msg@),
    {
        let word = String::from_str("PRIVMSG");
        proof {
            reveal_strlit("PRIVMSG");
            assert(word@ =~= privmsg_word());
        }
        if raw_msg.command_name == word {
            let username = match &raw_msg.prefix {
                Some(prefix) => {
                    let pv = chars_of(prefix.as_str());
                    let end = scan(&pv, 0, Stop::Bang);
                    string_of(&pv, 0, end)
                },
                None => {
                    return Err(IrcError::MissingPrefix);
                },
            };
            if raw_msg.command_params.len() < 2 {
                return Err(IrcError::MissingBody);
            }
            let message = raw_msg.command_params[1].clone();
            Ok(Some(Message::PrivMsg(PrivMsg { username, message })))
        } else {
            Ok(None)
        }
    }
}

/// What the receive loop does after one read.
#[derive(Debug, Clone, PartialEq, Eq)]
pub enum Step {
    /// The stream is closed: report that no message is left.
    Closed,
    /// Hand this message to the caller.
    Deliver(Message),
    /// The line carried nothing to report: read the next one.
    ReadAgain,
}

pub enum StepModel {
    Closed,
    Deliver(MessageModel),
    ReadAgain,
}

pub open spec fn step_result_view(r: Result<Step, IrcError>) -> Result<StepModel, IrcError> {
    match r {
        Ok(Step::Closed) => Ok(StepModel::Closed),
        Ok(Step::Deliver(m)) => Ok(StepModel::Deliver(m@)),
        Ok(Step::ReadAgain) => Ok(StepModel::ReadAgain),
        Err(e) => Err(e),
    }
}

/// The decision after a read of `bytes_read` bytes that gave `line`: a
/// zero-length read means the stream is closed; otherwise the line is
/// parsed and mapped, and its errors end the receive call.
pub open spec fn receive_decision(bytes_read: nat, line: Seq<char>) -> Result<StepModel, IrcError> {
    if bytes_read == 0 {
        Ok(StepModel::Closed)
    } else {
        match parse_line(line) {
            Err(e) => Err(e),
            Ok(raw) => match map_raw(raw) {
                Err(e) => Err(e),
                Ok(None) => Ok(StepModel::ReadAgain),
                Ok(Some(m)) => Ok(StepModel::Deliver(m)),
            },
        }
    }
}

/// Decides what the receive loop does with the outcome of one line read.
pub fn receive_step(bytes_read: usize, line: &str) -> (r: Result<Step, IrcError>)
    ensures
        step_result_view(r) == receive_decision(bytes_read as nat, line@),
{
    if bytes_read == 0 {
        return Ok(Step::Closed);
    }
    match IrcMessageRaw::parse(line) {
        Err(e) => Err(e),
        Ok(raw) => match Message::from_raw_msg(raw) {
            Err(e) => Err(e),
            Ok(None) => Ok(Step::ReadAgain),
            Ok(Some(m)) => Ok(Step::Deliver(m)),
        },
    }
}

/// The command line that joins channel `channel_name` (given without `#`).
pub fn join_command(channel_name: &str) -> (r: String)
    ensures
        r@ == "JOIN #"@ + channel_name@,
{
    String::from_str("JOIN #").concat(channel_name)
}

/// Configuration of a connection, staged before it is opened.
#[derive(Debug, Clone)]
pub struct IrcBuilder {
    password: Option<String>,
    nickname: Option<String>,
    capabilities: Vec<String>,
}

pub struct BuilderModel {
    pub password: Option<Seq<char>>,
    pub nickname: Option<Seq<char>>,
    pub capabilities: Seq<Seq<char>>,
}

pub open spec fn opt_view(o: Option<String>) -> Option<Seq<char>> {
    match o {
        Some(s) => Some(s@),
        None => None,
    }
}

impl View for IrcBuilder {
    type V = BuilderModel;

    closed spec fn view(&self) -> BuilderModel {
        BuilderModel {
            password: opt_view(self.password),
            nickname: opt_view(self.nickname),
            capabilities: strings_view(self.capabilities@),
        }
    }
}

impl Default for IrcBuilder {
    fn default() -> (r: IrcBuilder)
        ensures
            r@.password is None,
            r@.nickname is None,
            r@.capabilities.len() == 0,
    {
        IrcBuilder { password: None, nickname: None, capabilities: Vec::new() }
    }
}

/// Capability names separated by single spaces.
pub open spec fn join_spaced(caps: Seq<Seq<char>>) -> Seq<char>
    decreases caps.len(),
{
    if caps.len() <= 1 {
        if caps.len() == 0 {
            seq![]
        } else {
            caps[0]
        }
    } else {
        join_spaced(caps.drop_last()) + seq![' '] + caps.last()
    }
}

/// The lines sent on connect, in order: a capability request where any
/// capability was added, then `PASS` and `NICK` where those were set.
pub open spec fn handshake_lines(b: BuilderModel) -> Seq<Seq<char>> {
    (if b.capabilities.len() > 0 {
        seq!["CAP REQ :"@ + join_spaced(b.capabilities)]
    } else {
        seq![]
    }) + (match b.password {
        Some(p) => seq!["PASS "@ + p],
        None => seq![],
    }) + (match b.nickname {
        Some(n) => seq!["NICK "@ + n],
        None => seq![],
    })
}

impl IrcBuilder {
    /// Sets the password; a `PASS` line is then sent on connect.
    pub fn with_password(self, password: &str) -> (r: IrcBuilder)
        ensures
            r@.password == Some(password@),
            r@.nickname == self@.nickname,
            r@.capabilities == self@.capabilities,
    {
        IrcBuilder { password: Some(String::from_str(password)), ..self }
    }

    /// Sets the nickname; a `NICK` line is then sent on connect.
    pub fn with_nickname(self, nickname: &str) -> (r: IrcBuilder)
        ensures
            r@.password == self@.password,
            r@.nickname == Some(nickname@),
            r@.capabilities == self@.capabilities,
    {
        IrcBuilder { nickname: Some(String::from_str(nickname)), ..self }
    }

    /// Appends a capability to request on connect; may be called again for
    /// more.
    pub fn with_capability(self, capability_name: &str) -> (r: IrcBuilder)
        ensures
            r@.password == self@.password,
            r@.nickname == self@.nickname,
            r@.capabilities == self@.capabilities.push(capability_name@),
    {
        let mut b = self;
        let ghost before = b.capabilities@;
        b.capabilities.push(String::from_str(capability_name));
        assert(strings_view(b.capabilities@) =~= strings_view(before).push(capability_name@));
        b
    }

    /// The handshake lines to send on connect, without line terminators.
    pub fn handshake(&self) -> (r: Vec<String>)
        ensures
            strings_view(r@) == handshake_lines(self@),
    {
        let mut lines: Vec<String> = Vec::new();
        let n = self.capabilities.len();
        if n > 0 {
            let mut joined = self.capabilities[0].clone();
            let mut i: usize = 1;
            assert(strings_view(self.capabilities@).subrange(0, 1).drop_last() =~= seq![]);
            while i < n
                invariant
                    1 <= i <= n,
                    n == self.capabilities@.len(),
                    joined@ == join_spaced(strings_view(self.capabilities@).subrange(0, i as int)),
                decreases n - i,
            {
                let ghost caps = strings_view(self.capabilities@);
                joined.append(" ");
                joined.append(self.capabilities[i].as_str());
                i = i + 1;
                proof {
                    reveal_strlit(" ");
                    assert(caps.subrange(0, i as int).drop_last() =~= caps.subrange(0, i - 1));
                    assert(caps.subrange(0, i as int).last() == caps[i - 1]);
                }
            }
            assert(strings_view(self.capabilities@).subrange(0, n as int) =~= strings_view(
                self.capabilities@,
            ));
            lines.push(String::from_str("CAP REQ :").concat(joined.as_str()));
        }
        match &self.password {
            Some(p) => lines.push(String::from_str("PASS ").concat(p.as_str())),
            None => {},
        }
        match &self.nickname {
            Some(nk) => lines.push(String::from_str("NICK ").concat(nk.as_str())),
            None => {},
        }
        assert(strings_view(lines@) =~= handshake_lines(self@));
        lines
    }
}

} // verus!
