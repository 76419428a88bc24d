//! The SMTP session: command lines read as commands, the guarded state machine
//! that a connection runs, and the replies it sends.

use crate::mail::{mail_of, Mail};
use crate::text::{chars_of, join_crlf, octets, string_of, views};
use vstd::prelude::*;

verus! {

/// Reply: all is well, go on.
pub const MSG_250_OK: &'static str = "250 OK\r\n";

/// Reply: DATA accepted, the mail content follows.
pub const MSG_354_NEXT_DATA: &'static str = "354 Start mail input; end with <CRLF>.<CRLF>\r\n";

/// Reply: an address or a data line is too long.
pub const MSG_500_LENGTH_TOO_LONG: &'static str = "500 Line too long.\r\n";

/// Reply: the command is not understood.
pub const MSG_502_NOT_IMPLEMENTED: &'static str = "502 Command not implemented\r\n";

/// Reply: the command is not allowed at this point of the session.
pub const MSG_503_BAD_SEQUENCE: &'static str = "503 Bad sequence of commands\r\n";

/// The longest address accepted, in bytes.
pub const MAX_ADDRESS_OCTETS: usize = 64;

/// The longest data line accepted, in bytes.
pub const MAX_DATA_LINE_OCTETS: usize = 1000;

/// An SMTP command, as read from one line.
#[derive(Debug)]
pub enum Command {
    /// HELO, with the client's name
    Hello(String),
    /// EHLO, with the client's name
    Ehllo(String),
    /// STARTTLS
    StartTls,
    /// MAIL FROM:, with the sender mailbox
    From(String),
    /// RCPT TO:, with a recipient mailbox
    Recipient(String),
    /// A line of mail content
    Data(String),
    /// DATA: mail content follows
    DataStart,
    /// The line `.` that ends the mail content
    DataEnd,
    /// NOOP
    Noop,
    /// RSET
    Reset,
    /// QUIT
    Quit,
    /// Anything else, with the line
    Error(String),
}

/// The mathematical form of a command.
pub enum CommandView {
    Hello(Seq<char>),
    Ehllo(Seq<char>),
    StartTls,
    From(Seq<char>),
    Recipient(Seq<char>),
    Data(Seq<char>),
    DataStart,
    DataEnd,
    Noop,
    Reset,
    Quit,
    Error(Seq<char>),
}

impl View for Command {
    type V = CommandView;

    open spec fn view(&self) -> CommandView {
        match self {
            Command::Hello(s) => CommandView::Hello(s@),
            Command::Ehllo(s) => CommandView::Ehllo(s@),
            Command::StartTls => CommandView::StartTls,
            Command::From(s) => CommandView::From(s@),
            Command::Recipient(s) => CommandView::Recipient(s@),
            Command::Data(s) => CommandView::Data(s@),
            Command::DataStart => CommandView::DataStart,
            Command::DataEnd => CommandView::DataEnd,
            Command::Noop => CommandView::Noop,
            Command::Reset => CommandView::Reset,
            Command::Quit => CommandView::Quit,
            Command::Error(s) => CommandView::Error(s@),
        }
    }
}

/// `c` is the lower-case ASCII letter `k`, in either case, or equals `k`.
pub open spec fn same_ci(c: char, k: char) -> bool {
    c == k || ('a' <= k <= 'z' && c as u32 + 32 == k as u32)
}

/// `line` starts with the keyword `kw`, ASCII letters compared without case.
pub open spec fn has_prefix_ci(line: Seq<char>, kw: Seq<char>) -> bool {
    &&& kw.len() <= line.len()
    &&& forall|i: int| 0 <= i < kw.len() ==> #[trigger] same_ci(line[i], kw[i])
}

/// `line` is the keyword `kw`, ASCII letters compared without case.
pub open spec fn is_word_ci(line: Seq<char>, kw: Seq<char>) -> bool {
    line.len() == kw.len() && has_prefix_ci(line, kw)
}

/// `s` without the spaces and tabs that start it.
pub open spec fn trim_blanks(s: Seq<char>) -> Seq<char>
    decreases s.len(),
{
    if s.len() > 0 && (s[0] == ' ' || s[0] == '\t') {
        trim_blanks(s.drop_first())
    } else {
        s
    }
}

/// The mailbox that a MAIL FROM: or RCPT TO: argument gives: the argument
/// without leading blanks, and without the angle brackets that enclose it.
pub open spec fn mailbox(arg: Seq<char>) -> Seq<char> {
    let t = trim_blanks(arg);
    if t.len() >= 2 && t[0] == '<' && t.last() == '>' {
        t.subrange(1, t.len() - 1)
    } else {
        t
    }
}

/// The command that a line names outside mail content.
pub open spec fn parse_command(line: Seq<char>, use_starttls: bool) -> CommandView {
    if is_word_ci(line, "data"@) {
        CommandView::DataStart
    } else if is_word_ci(line, "rset"@) {
        CommandView::Reset
    } else if is_word_ci(line, "quit"@) {
        CommandView::Quit
    } else if use_starttls && is_word_ci(line, "starttls"@) {
        CommandView::StartTls
    } else if line.len() > 5 && has_prefix_ci(line, "helo "@) {
        CommandView::Hello(line.skip(5))
    } else if line.len() > 5 && has_prefix_ci(line, "ehlo "@) {
        CommandView::Ehllo(line.skip(5))
    } else if line.len() > 10 && has_prefix_ci(line, "mail from:"@) {
        CommandView::From(mailbox(line.skip(10)))
    } else if line.len() > 8 && has_prefix_ci(line, "rcpt to:"@) {
        CommandView::Recipient(mailbox(line.skip(8)))
    } else if is_word_ci(line, "noop"@) || has_prefix_ci(line, "noop "@) {
        CommandView::Noop
    } else {
        CommandView::Error(line)
    }
}

/// The command that a line names, inside mail content or outside it.
pub open spec fn command_of(line: Seq<char>, in_data: bool, use_starttls: bool) -> CommandView {
    if in_data {
        if line == seq!['.'] {
            CommandView::DataEnd
        } else {
            CommandView::Data(line)
        }
    } else {
        parse_command(line, use_starttls)
    }
}

/// Whether `line` starts with the keyword `kw`, ASCII letters compared
/// without case.
fn prefix_ci(line: &Vec<char>, kw: &str) -> (r: bool)
    ensures
        r == has_prefix_ci(line@, kw@),
{
    let k = chars_of(kw);
    if k.len() > line.len() {
        return false;
    }
    let mut i: usize = 0;
    while i < k.len()
        invariant
            k@ == kw@,
            k@.len() <= line@.len(),
            i <= k@.len(),
            forall|j: int| 0 <= j < i ==> #[trigger] same_ci(line@[j], kw@[j]),
        decreases k@.len() - i,
    {
        let c = line[i];
        let w = k[i];
        let same = c == w || ('a' <= w && w <= 'z' && (c as u32) == (w as u32) - 32);
        if !same {
            proof {
                assert(!same_ci(line@[i as int], kw@[i as int]));
            }
            return false;
        }
        i += 1;
    }
    true
}

/// Whether `line` is the keyword `kw`, ASCII letters compared without case.
fn word_ci(line: &Vec<char>, kw: &str) -> (r: bool)
    ensures
        r == is_word_ci(line@, kw@),
{
    let p = prefix_ci(line, kw);
    p && line.len() == kw.unicode_len()
}

/// The mailbox of an argument that starts at `from` in `line`.
fn mailbox_at(line: &Vec<char>, from: usize) -> (r: String)
    requires
        from <= line@.len(),
    ensures
        r@ == mailbox(line@.skip(from as int)),
{
    let mut i: usize = from;
    while i < line.len() && (line[i] == ' ' || line[i] == '\t')
        invariant
            from <= i <= line@.len(),
            trim_blanks(line@.skip(from as int)) == trim_blanks(line@.skip(i as int)),
        decreases line@.len() - i,
    {
        proof {
            assert(line@.skip(i as int).drop_first() == line@.skip(i as int + 1));
        }
        i += 1;
    }
    let ghost t = line@.skip(i as int);
    proof {
        assert(trim_blanks(t) == t);
    }
    let n = line.len();
    if n - i >= 2 && line[i] == '<' && line[n - 1] == '>' {
        proof {
            assert(t.subrange(1, t.len() - 1) == line@.subrange(i + 1, n - 1));
        }
        string_of(line, i + 1, n - 1)
    } else {
        proof {
            assert(t == line@.subrange(i as int, n as int));
        }
        string_of(line, i, n)
    }
}

/// Reads a line outside mail content as a command.
pub fn parse_line(line: &str, use_starttls: bool) -> (r: Command)
    ensures
        r@ == parse_command(line@, use_starttls),
{
    let cs = chars_of(line);
    let n = cs.len();
    if word_ci(&cs, "data") {
        Command::DataStart
    } else if word_ci(&cs, "rset") {
        Command::Reset
    } else if word_ci(&cs, "quit") {
        Command::Quit
    } else if use_starttls && word_ci(&cs, "starttls") {
        Command::StartTls
    } else if n > 5 && prefix_ci(&cs, "helo ") {
        proof {
            assert(cs@.subrange(5, n as int) == line@.skip(5));
        }
        Command::Hello(string_of(&cs, 5, n))
    } else if n > 5 && prefix_ci(&cs, "ehlo ") {
        proof {
            assert(cs@.subrange(5, n as int) == line@.skip(5));
        }
        Command::Ehllo(string_of(&cs, 5, n))
    } else if n > 10 && prefix_ci(&cs, "mail from:") {
        Command::From(mailbox_at(&cs, 10))
    } else if n > 8 && prefix_ci(&cs, "rcpt to:") {
        Command::Recipient(mailbox_at(&cs, 8))
    } else if word_ci(&cs, "noop") || prefix_ci(&cs, "noop ") {
        Command::Noop
    } else {
        Command::Error(line.to_owned())
    }
}

/// The mathematical state of a session.
pub struct SessionView {
    pub server_name: Seq<char>,
    pub use_starttls: bool,
    /// The name the client gave in HELO or EHLO
    pub remote_name: Option<Seq<char>>,
    /// The sender of the current transaction
    pub from: Option<Seq<char>>,
    /// The recipients of the current transaction, in order
    pub to: Seq<Seq<char>>,
    /// Whether mail content is being received
    pub in_data: bool,
    /// The content lines accepted so far, dot-unstuffed
    pub lines: Seq<Seq<char>>,
}

/// The state of one SMTP connection.
pub struct Smtp {
    server_name: String,
    use_starttls: bool,
    remote_name: Option<String>,
    addr_from: Option<String>,
    addr_to: Vec<String>,
    receive_data: bool,
    data: String,
    has_data: bool,
    lines: Ghost<Seq<Seq<char>>>,
}

pub open spec fn opt_view(o: Option<String>) -> Option<Seq<char>> {
    match o {
        Some(s) => Some(s@),
        None => None,
    }
}

impl View for Smtp {
    type V = SessionView;

    closed spec fn view(&self) -> SessionView {
        SessionView {
            server_name: self.server_name@,
            use_starttls: self.use_starttls,
            remote_name: opt_view(self.remote_name),
            from: opt_view(self.addr_from),
            to: views(self.addr_to@),
            in_data: self.receive_data,
            lines: self.lines@,
        }
    }
}

/// The session state at connection time.
pub open spec fn initial(server_name: Seq<char>, use_starttls: bool) -> SessionView {
    SessionView {
        server_name,
        use_starttls,
        remote_name: None,
        from: None,
        to: Seq::empty(),
        in_data: false,
        lines: Seq::empty(),
    }
}

/// A session state that the state machine can reach: content is received only
/// for a greeted client with a sender and a recipient, and content lines are
/// kept only while it is received.
pub open spec fn reachable(s: SessionView) -> bool {
    &&& s.in_data ==> s.remote_name is Some && s.from is Some && s.to.len() > 0
    &&& !s.in_data ==> s.lines.len() == 0
}

/// Whether a command is allowed in a state.
pub open spec fn valid(s: SessionView, c: CommandView) -> bool {
    match c {
        CommandView::Hello(_) | CommandView::Ehllo(_) => s.from is None && s.to.len() == 0,
        CommandView::From(_) => s.remote_name is Some && s.to.len() == 0,
        CommandView::Recipient(_) => s.remote_name is Some && s.from is Some,
        CommandView::DataStart | CommandView::Data(_) => s.remote_name is Some && s.from is Some
            && s.to.len() > 0,
        CommandView::StartTls => s.use_starttls,
        CommandView::Noop
        | CommandView::Reset
        | CommandView::Quit
        | CommandView::DataEnd
        | CommandView::Error(_) => true,
    }
}

/// A content line without the dot that stuffs it.
pub open spec fn unstuff(l: Seq<char>) -> Seq<char> {
    if l.len() > 1 && l[0] == '.' {
        l.drop_first()
    } else {
        l
    }
}

/// The reply to HELO or EHLO.
pub open spec fn greeting(s: SessionView) -> Seq<char> {
    if s.use_starttls {
        "250-"@ + s.server_name + "\r\n250 STARTTLS\r\n"@
    } else {
        "250 "@ + s.server_name + "\r\n"@
    }
}

/// The reply to QUIT.
pub open spec fn farewell(s: SessionView) -> Seq<char> {
    "221 "@ + s.server_name + " Service closing transmission channel\r\n"@
}

/// The banner sent when a client connects.
pub open spec fn banner(s: SessionView) -> Seq<char> {
    "220 "@ + s.server_name + " ESMTP\r\n"@
}

/// The state after RSET: no client name, no transaction.
pub open spec fn cleared(s: SessionView) -> SessionView {
    SessionView { remote_name: None, from: None, to: Seq::empty(), in_data: false, lines: Seq::empty(), ..s }
}

/// What one command does to a session.
pub struct Transition {
    pub next: SessionView,
    /// The reply text; empty where nothing is sent
    pub reply: Seq<char>,
    /// Whether the connection closes after the reply
    pub close: bool,
}

/// A content line or the end of content where no content is being received:
/// allowed by the guard, but answered as out of sequence.
pub open spec fn content_outside_data(s: SessionView, c: CommandView) -> bool {
    !s.in_data && (c is Data || c is DataEnd)
}

/// The transition that a command makes from a state.
pub open spec fn step(s: SessionView, c: CommandView) -> Transition {
    if !valid(s, c) || content_outside_data(s, c) {
        Transition { next: s, reply: MSG_503_BAD_SEQUENCE@, close: false }
    } else {
        match c {
            CommandView::Hello(n) | CommandView::Ehllo(n) => Transition {
                next: SessionView { remote_name: Some(n), ..s },
                reply: greeting(s),
                close: false,
            },
            CommandView::From(a) => if octets(a) > MAX_ADDRESS_OCTETS {
                Transition { next: s, reply: MSG_500_LENGTH_TOO_LONG@, close: false }
            } else {
                Transition { next: SessionView { from: Some(a), ..s }, reply: MSG_250_OK@, close: false }
            },
            CommandView::Recipient(a) => if octets(a) > MAX_ADDRESS_OCTETS {
                Transition { next: s, reply: MSG_500_LENGTH_TOO_LONG@, close: false }
            } else {
                Transition {
                    next: SessionView { to: s.to.push(a), ..s },
                    reply: MSG_250_OK@,
                    close: false,
                }
            },
            CommandView::DataStart => Transition {
                next: SessionView { in_data: true, ..s },
                reply: MSG_354_NEXT_DATA@,
                close: false,
            },
            CommandView::Data(l) => if octets(l) > MAX_DATA_LINE_OCTETS {
                Transition { next: s, reply: MSG_500_LENGTH_TOO_LONG@, close: false }
            } else {
                Transition {
                    next: SessionView { lines: s.lines.push(unstuff(l)), ..s },
                    reply: Seq::empty(),
                    close: false,
                }
            },
            CommandView::DataEnd => Transition {
                next: SessionView { from: None, to: Seq::empty(), in_data: false, lines: Seq::empty(), ..s },
                reply: MSG_250_OK@,
                close: false,
            },
            CommandView::Reset => Transition { next: cleared(s), reply: MSG_250_OK@, close: false },
            CommandView::Noop => Transition { next: s, reply: MSG_250_OK@, close: false },
            CommandView::Quit => Transition { next: s, reply: farewell(s), close: true },
            CommandView::StartTls | CommandView::Error(_) => Transition {
                next: s,
                reply: MSG_502_NOT_IMPLEMENTED@,
                close: false,
            },
        }
    }
}

/// Whether a command in a state ends a mail: the end of content while content
/// is received.
pub open spec fn emits(s: SessionView, c: CommandView) -> bool {
    valid(s, c) && c is DataEnd && s.in_data
}

/// The mail content received in a state, as one payload.
pub open spec fn payload(s: SessionView) -> Seq<char> {
    join_crlf(s.lines)
}

/// What the session does with one command: the reply to send, the mail that
/// the command completes, and whether to close the connection.
pub struct Reply {
    pub text: String,
    pub mail: Option<Mail>,
    pub close: bool,
}

impl Smtp {
    /// The stored content matches the accepted lines, and the state is
    /// reachable.
    pub closed spec fn wf(&self) -> bool {
        &&& self.data@ == join_crlf(self.lines@)
        &&& self.has_data == (self.lines@.len() > 0)
        &&& reachable(self@)
    }

    /// A new session for a server of the given name.
    pub fn new(server_name: String, use_starttls: bool) -> (r: Smtp)
        ensures
            r.wf(),
            r@ == initial(server_name@, use_starttls),
    {
        let r = Smtp {
            server_name,
            use_starttls,
            remote_name: None,
            addr_from: None,
            addr_to: Vec::new(),
            receive_data: false,
            data: String::new(),
            has_data: false,
            lines: Ghost(Seq::empty()),
        };
        proof {
            assert(views(r.addr_to@) == Seq::<Seq<char>>::empty());
        }
        r
    }

    /// The banner to send when the client connects.
    pub fn send_server_name(&self) -> (r: String)
        ensures
            r@ == banner(self@),
    {
        let mut r = "220 ".to_owned();
        r.append(self.server_name.as_str());
        r.append(" ESMTP\r\n");
        r
    }

    /// Reads one line from the client as a command: inside mail content every
    /// line is content but the line `.`, which ends it.
    pub fn process_line(&self, command_line: &str) -> (r: Command)
        ensures
            r@ == command_of(command_line@, self@.in_data, self@.use_starttls),
    {
        if !self.receive_data {
            parse_line(command_line, self.use_starttls)
        } else if command_line.unicode_len() == 1 && command_line.get_char(0) == '.' {
            proof {
                assert(command_line@ == seq!['.']);
            }
            Command::DataEnd
        } else {
            Command::Data(command_line.to_owned())
        }
    }

    /// Forgets the client name and the current transaction.
    pub fn reset(&mut self)
        requires
            old(self).wf(),
        ensures
            final(self).wf(),
            final(self)@ == cleared(old(self)@),
    {
        self.data = String::new();
        self.has_data = false;
        self.receive_data = false;
        self.addr_to = Vec::new();
        self.remote_name = None;
        self.addr_from = None;
        self.lines = Ghost(Seq::empty());
        proof {
            assert(views(self.addr_to@) == Seq::<Seq<char>>::empty());
        }
    }

    /// Whether a command is allowed at this point of the session.
    pub fn is_valid(&self, action: &Command) -> (r: bool)
        ensures
            r == valid(self@, action@),
    {
        match action {
            Command::Hello(_) | Command::Ehllo(_) => self.addr_from.is_none() && self.addr_to.len() == 0,
            Command::From(_) => self.remote_name.is_some() && self.addr_to.len() == 0,
            Command::Recipient(_) => self.remote_name.is_some() && self.addr_from.is_some(),
            Command::DataStart | Command::Data(_) => self.remote_name.is_some()
                && self.addr_from.is_some() && self.addr_to.len() > 0,
            Command::StartTls => self.use_starttls,
            Command::Noop | Command::Reset | Command::Quit | Command::DataEnd | Command::Error(_) => true,
        }
    }

    /// Stores a content line, without the dot that stuffs it.
    fn push_data(&mut self, line: &str)
        requires
            old(self).wf(),
            old(self)@.in_data,
        ensures
            final(self).wf(),
            final(self)@ == (SessionView { lines: old(self)@.lines.push(unstuff(line@)), ..old(self)@ }),
    {
        let cs = chars_of(line);
        let start: usize = if cs.len() > 1 && cs[0] == '.' {
            1
        } else {
            0
        };
        let content = string_of(&cs, start, cs.len());
        proof {
            assert(content@ == unstuff(line@));
        }
        if self.has_data {
            self.data.append("\r\n");
            proof {
                reveal_strlit("\r\n");
            }
        }
        let ghost old_lines = self.lines@;
        self.data.append(content.as_str());
        self.lines = Ghost(self.lines@.push(content@));
        self.has_data = true;
        proof {
            assert(self.lines@.drop_last() == old_lines);
            assert(self.lines@.last() == content@);
            if old_lines.len() == 0 {
                assert(self.lines@.len() == 1);
                assert(join_crlf(self.lines@) == content@);
            } else {
                assert(join_crlf(self.lines@) == join_crlf(old_lines) + seq!['\r', '\n'] + content@);
            }
            assert(self.data@ == join_crlf(self.lines@));
            assert(reachable(self@));
        }
    }

    fn text_with_name(&self, before: &str, after: &str) -> (r: String)
        ensures
            r@ == before@ + self.server_name@ + after@,
    {
        let mut r = before.to_owned();
        r.append(self.server_name.as_str());
        r.append(after);
        r
    }

    /// Runs one command: updates the session and tells what to send back.
    pub fn process_command(&mut self, command: &Command) -> (r: Reply)
        requires
            old(self).wf(),
        ensures
            final(self).wf(),
            final(self)@ == step(old(self)@, command@).next,
            r.text@ == step(old(self)@, command@).reply,
            r.close == step(old(self)@, command@).close,
            r.mail is Some <==> emits(old(self)@, command@),
            r.mail is Some ==> exists|received: i64|
                r.mail.unwrap()@ == mail_of(
                    r.mail.unwrap()@.id,
                    received,
                    old(self)@.from.unwrap(),
                    old(self)@.to,
                    payload(old(self)@),
                ),
    {
        if !self.is_valid(command) {
            return Reply { text: MSG_503_BAD_SEQUENCE.to_owned(), mail: None, close: false };
        }
        let is_content = match command {
            Command::Data(_) | Command::DataEnd => true,
            _ => false,
        };
        if is_content && !self.receive_data {
            return Reply { text: MSG_503_BAD_SEQUENCE.to_owned(), mail: None, close: false };
        }
        match command {
            Command::Noop => Reply { text: MSG_250_OK.to_owned(), mail: None, close: false },
            Command::Hello(remote_name) | Command::Ehllo(remote_name) => {
                let text = if self.use_starttls {
                    self.text_with_name("250-", "\r\n250 STARTTLS\r\n")
                } else {
                    self.text_with_name("250 ", "\r\n")
                };
                self.remote_name = Some(remote_name.clone());
                Reply { text, mail: None, close: false }
            },
            Command::StartTls => Reply {
                text: MSG_502_NOT_IMPLEMENTED.to_owned(),
                mail: None,
                close: false,
            },
            Command::Reset => {
                self.reset();
                Reply { text: MSG_250_OK.to_owned(), mail: None, close: false }
            },
            Command::From(from) => {
                if from.as_str().len() > MAX_ADDRESS_OCTETS {
                    Reply { text: MSG_500_LENGTH_TOO_LONG.to_owned(), mail: None, close: false }
                } else {
                    self.addr_from = Some(from.clone());
                    Reply { text: MSG_250_OK.to_owned(), mail: None, close: false }
                }
            },
            Command::Recipient(to) => {
                if to.as_str().len() > MAX_ADDRESS_OCTETS {
                    Reply { text: MSG_500_LENGTH_TOO_LONG.to_owned(), mail: None, close: false }
                } else {
                    let ghost old_to = self.addr_to@;
                    self.addr_to.push(to.clone());
                    proof {
                        assert(views(self.addr_to@) == views(old_to).push(to@));
                    }
                    Reply { text: MSG_250_OK.to_owned(), mail: None, close: false }
                }
            },
            Command::DataStart => {
                self.receive_data = true;
                Reply { text: MSG_354_NEXT_DATA.to_owned(), mail: None, close: false }
            },
            Command::Data(line) => {
                if line.as_str().len() > MAX_DATA_LINE_OCTETS {
                    Reply { text: MSG_500_LENGTH_TOO_LONG.to_owned(), mail: None, close: false }
                } else {
                    self.push_data(line.as_str());
                    Reply { text: String::new(), mail: None, close: false }
                }
            },
            Command::DataEnd => {
                let from = match &self.addr_from {
                    Some(f) => f.clone(),
                    None => String::new(),
                };
                let to = self.addr_to.as_slice();
                let mail = Mail::new(from.as_str(), to, self.data.as_str());
                let ghost t = choose|t: i64| mail@ == mail_of(mail@.id, t, from@, views(to@), self.data@);
                proof {
                    assert(views(to@) == old(self)@.to);
                    assert(mail@ == mail_of(
                        mail@.id,
                        t,
                        old(self)@.from.unwrap(),
                        old(self)@.to,
                        payload(old(self)@),
                    ));
                }
                self.receive_data = false;
                self.addr_from = None;
                self.addr_to = Vec::new();
                self.data = String::new();
                self.has_data = false;
                self.lines = Ghost(Seq::empty());
                proof {
                    assert(views(self.addr_to@) == Seq::<Seq<char>>::empty());
                }
                let r = Reply { text: MSG_250_OK.to_owned(), mail: Some(mail), close: false };
                proof {
                    assert(r.mail.unwrap()@ == mail_of(
                        r.mail.unwrap()@.id,
                        t,
                        old(self)@.from.unwrap(),
                        old(self)@.to,
                        payload(old(self)@),
                    ));
                }
                r
            },
            Command::Quit => {
                let text = self.text_with_name("221 ", " Service closing transmission channel\r\n");
                Reply { text, mail: None, close: true }
            },
            Command::Error(_) => Reply {
                text: MSG_502_NOT_IMPLEMENTED.to_owned(),
                mail: None,
                close: false,
            },
        }
    }
}

/// The state after a sequence of commands.
pub open spec fn run(s: SessionView, cs: Seq<CommandView>) -> SessionView
    decreases cs.len(),
{
    if cs.len() == 0 {
        s
    } else {
        step(run(s, cs.drop_last()), cs.last()).next
    }
}

/// The commands of a whole transaction: a greeting, the sender, the
/// recipients, DATA, and the content lines.
pub open spec fn transaction(
    helo: Seq<char>,
    from: Seq<char>,
    tos: Seq<Seq<char>>,
    body: Seq<Seq<char>>,
) -> Seq<CommandView> {
    seq![CommandView::Hello(helo), CommandView::From(from)] + tos.map_values(
        |t: Seq<char>| CommandView::Recipient(t),
    ) + seq![CommandView::DataStart] + body.map_values(|l: Seq<char>| CommandView::Data(l))
}

/// Without a greeting, MAIL FROM is refused with a 503 reply and leaves the
/// session as it was.
pub proof fn mail_from_needs_greeting(s: SessionView, a: Seq<char>)
    requires
        s.remote_name is None,
    ensures
        step(s, CommandView::From(a)).next == s,
        step(s, CommandView::From(a)).reply == MSG_503_BAD_SEQUENCE@,
        !step(s, CommandView::From(a)).close,
{
}

/// A content line longer than the limit is answered with a 500 reply and is
/// not kept; the session still receives content.
pub proof fn long_data_line_is_dropped(s: SessionView, l: Seq<char>)
    requires
        s.in_data,
        reachable(s),
        octets(l) > MAX_DATA_LINE_OCTETS,
    ensures
        step(s, CommandView::Data(l)).next == s,
        step(s, CommandView::Data(l)).next.in_data,
        step(s, CommandView::Data(l)).reply == MSG_500_LENGTH_TOO_LONG@,
        !step(s, CommandView::Data(l)).close,
{
}

proof fn lemma_run_append(s: SessionView, a: Seq<CommandView>, b: Seq<CommandView>)
    ensures
        run(s, a + b) == run(run(s, a), b),
    decreases b.len(),
{
    if b.len() == 0 {
        assert(a + b == a);
    } else {
        assert((a + b).drop_last() == a + b.drop_last());
        assert((a + b).last() == b.last());
        lemma_run_append(s, a, b.drop_last());
    }
}

proof fn lemma_run_recipients(s: SessionView, tos: Seq<Seq<char>>)
    requires
        s.remote_name is Some,
        s.from is Some,
        forall|i: int| 0 <= i < tos.len() ==> octets(#[trigger] tos[i]) <= MAX_ADDRESS_OCTETS,
    ensures
        run(s, tos.map_values(|t: Seq<char>| CommandView::Recipient(t))) == (SessionView {
            to: s.to + tos,
            ..s
        }),
    decreases tos.len(),
{
    let cs = tos.map_values(|t: Seq<char>| CommandView::Recipient(t));
    if tos.len() == 0 {
        assert(s.to + tos == s.to);
    } else {
        assert(cs.drop_last() == tos.drop_last().map_values(|t: Seq<char>| CommandView::Recipient(t)));
        lemma_run_recipients(s, tos.drop_last());
        assert(octets(tos[tos.len() - 1]) <= MAX_ADDRESS_OCTETS);
        assert(s.to + tos.drop_last() + seq![tos.last()] == s.to + tos);
        assert((s.to + tos.drop_last()).push(tos.last()) == s.to + tos);
    }
}

proof fn lemma_run_content(s: SessionView, body: Seq<Seq<char>>)
    requires
        s.in_data,
        s.remote_name is Some,
        s.from is Some,
        s.to.len() > 0,
        forall|i: int| 0 <= i < body.len() ==> octets(#[trigger] body[i]) <= MAX_DATA_LINE_OCTETS,
    ensures
        run(s, body.map_values(|l: Seq<char>| CommandView::Data(l))) == (SessionView {
            lines: s.lines + body.map_values(|l: Seq<char>| unstuff(l)),
            ..s
        }),
    decreases body.len(),
{
    let cs = body.map_values(|l: Seq<char>| CommandView::Data(l));
    if body.len() == 0 {
        assert(s.lines + body.map_values(|l: Seq<char>| unstuff(l)) == s.lines);
    } else {
        assert(cs.drop_last() == body.drop_last().map_values(|l: Seq<char>| CommandView::Data(l)));
        lemma_run_content(s, body.drop_last());
        assert(octets(body[body.len() - 1]) <= MAX_DATA_LINE_OCTETS);
        assert((s.lines + body.drop_last().map_values(|l: Seq<char>| unstuff(l))).push(
            unstuff(body.last()),
        ) == s.lines + body.map_values(|l: Seq<char>| unstuff(l)));
    }
}

/// A whole transaction from a new connection (greeting, sender, at least one
/// recipient, DATA, content lines within the limits) leaves the session ready
/// to end the content with `.`, which then emits a mail with that sender, those
/// recipients, and the content lines, unstuffed and joined with CRLF.
pub proof fn full_transaction_emits_mail(
    name: Seq<char>,
    use_starttls: bool,
    helo: Seq<char>,
    from: Seq<char>,
    tos: Seq<Seq<char>>,
    body: Seq<Seq<char>>,
)
    requires
        octets(from) <= MAX_ADDRESS_OCTETS,
        tos.len() > 0,
        forall|i: int| 0 <= i < tos.len() ==> octets(#[trigger] tos[i]) <= MAX_ADDRESS_OCTETS,
        forall|i: int| 0 <= i < body.len() ==> octets(#[trigger] body[i]) <= MAX_DATA_LINE_OCTETS,
    ensures
        ({
            let end = run(initial(name, use_starttls), transaction(helo, from, tos, body));
            &&& emits(end, CommandView::DataEnd)
            &&& end.from == Some(from)
            &&& end.to == tos
            &&& payload(end) == join_crlf(body.map_values(|l: Seq<char>| unstuff(l)))
        }),
{
    reveal_with_fuel(run, 3);
    let s0 = initial(name, use_starttls);
    let head = seq![CommandView::Hello(helo), CommandView::From(from)];
    let rcpts = tos.map_values(|t: Seq<char>| CommandView::Recipient(t));
    let content = body.map_values(|l: Seq<char>| CommandView::Data(l));
    assert(head.drop_last() == seq![CommandView::Hello(helo)]);
    assert(seq![CommandView::Hello(helo)].drop_last() == Seq::<CommandView>::empty());
    let s1 = step(s0, CommandView::Hello(helo)).next;
    assert(run(s0, seq![CommandView::Hello(helo)]) == s1);
    assert(s1 == SessionView { remote_name: Some(helo), ..s0 });
    let s2 = run(s0, head);
    assert(s2 == step(s1, CommandView::From(from)).next);
    assert(s2 == SessionView { remote_name: Some(helo), from: Some(from), ..s0 });
    lemma_run_append(s0, head, rcpts);
    lemma_run_recipients(s2, tos);
    let s3 = run(s0, head + rcpts);
    assert(s2.to + tos == tos);
    lemma_run_append(s0, head + rcpts, seq![CommandView::DataStart]);
    assert(seq![CommandView::DataStart].drop_last() == Seq::<CommandView>::empty());
    assert(s3 == SessionView { to: tos, ..s2 });
    let s4 = run(s0, head + rcpts + seq![CommandView::DataStart]);
    assert(run(s3, seq![CommandView::DataStart]) == step(s3, CommandView::DataStart).next);
    assert(s4 == SessionView { in_data: true, ..s3 });
    lemma_run_append(s0, head + rcpts + seq![CommandView::DataStart], content);
    lemma_run_content(s4, body);
    assert(s4.lines + body.map_values(|l: Seq<char>| unstuff(l)) == body.map_values(
        |l: Seq<char>| unstuff(l),
    ));
}

} // verus!
