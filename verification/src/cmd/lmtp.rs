//! The LMTP session: greeting, commands, the framing of a message body and
//! the hand-over of the body for delivery.
//!
//! The session is a machine from a state and a line that was read to the
//! next state and an action. The caller owns the socket: it reads a line,
//! asks [`Context::step`], carries the action out and reads again.

use crate::text::{
    after_word, after_word_of, append, bytes, decimal, ends_with, eq, eq_ignore_case, first_word,
    first_word_of, fold, folded, has_suffix, lemma_one_word, narrow_space, no_space,
    same_ignoring_case, second_word_of, space_before, space_behind, to_decimal, trim, trim_end,
    trim_start, trimmed, utf8, word_len,
};
use crate::utils::{succeeded, Response};
use vstd::prelude::*;
use vstd::string::StringExecFns;
use vstd::utf8::is_ascii_chars_encode_utf8;

verus! {

/// The line that opens a session.
pub const GREETING: &'static str = "220 localhost LMTP server ready\r\n";

/// The answer to a command that was accepted, and to a delivery that
/// succeeded.
pub const OK: &'static str = "250 OK\r\n";

/// The answer to a command that is unknown, malformed or not served.
pub const INVALID: &'static str = "500 Invalid command\r\n";

/// The answer to `DATA`: the body may follow.
pub const START_INPUT: &'static str = "354 Start mail input; end with <CRLF>.<CRLF>\r\n";

/// The answer to `QUIT`.
pub const CLOSING: &'static str = "221 localhost Closing connection\r\n";

/// The seconds that a read may take before the stream counts as ended.
pub const READ_TIMEOUT: u64 = 5;

/// The milliseconds that connecting to the remote endpoint may take when a
/// body is handed over.
pub const CONNECT_TIMEOUT: u64 = 10_000;

/// The mode of the socket file: every user may connect.
pub const SOCKET_MODE: u32 = 0o666;

/// The end of a line.
pub const CRLF: &'static str = "\r\n";

/// The line that ends a message body.
pub const END_OF_DATA: &'static str = ".\r\n";

/// Where a session stands.
#[derive(Clone, Copy, Debug, PartialEq, Eq, Structural)]
pub enum Phase {
    /// Waiting for a command.
    Command,
    /// Collecting the lines of a message body.
    Data,
    /// Over: nothing is read or sent any more.
    Closed,
}

/// The commands that a session tells apart.
#[derive(Clone, Copy, Debug, PartialEq, Eq, Structural)]
pub enum Verb {
    Lhlo,
    Rset,
    Noop,
    Mail,
    Rcpt,
    Quit,
    Vrfy,
    Data,
    Unknown,
}

/// The state of one session, as contracts see it.
pub struct Session {
    /// The body collected so far.
    pub data: Seq<u8>,
    /// Whether the line collected last ended with CRLF.
    pub crlf: bool,
    /// Where the session stands.
    pub phase: Phase,
}

/// What the caller does after a step, as contracts see it.
pub enum Outcome {
    /// Send nothing and read the next line.
    Wait,
    /// Send the text, flush, and read the next line.
    Reply(Seq<u8>),
    /// Send the text, flush, and close the connection.
    ReplyAndClose(Seq<u8>),
    /// Hand the body to the remote endpoint, send the line that
    /// `delivery_reply` gives for its answer, and read the next line.
    Deliver(Seq<u8>),
    /// The body broke off. Keep `partial`, if there is one, for a later
    /// look, send the text, and read the next line.
    Abort { partial: Option<Seq<u8>>, reply: Seq<u8> },
    /// Close the connection without a word.
    Close,
}

/// The state of one session.
pub struct Context {
    data: Vec<u8>,
    crlf: bool,
    phase: Phase,
}

/// What the caller does after a step.
#[derive(Debug, PartialEq, Eq)]
pub enum Action {
    /// Send nothing and read the next line.
    Wait,
    /// Send the text, flush, and read the next line.
    Reply(Vec<u8>),
    /// Send the text, flush, and close the connection.
    ReplyAndClose(Vec<u8>),
    /// Hand the body to the remote endpoint, send the line that
    /// `delivery_reply` gives for its answer, and read the next line.
    Deliver(Vec<u8>),
    /// The body broke off. Keep `partial`, if there is one, for a later
    /// look, send the text, and read the next line.
    Abort { partial: Option<Vec<u8>>, reply: Vec<u8> },
    /// Close the connection without a word.
    Close,
}

impl View for Action {
    type V = Outcome;

    open spec fn view(&self) -> Outcome {
        match self {
            Action::Wait => Outcome::Wait,
            Action::Reply(text) => Outcome::Reply(text@),
            Action::ReplyAndClose(text) => Outcome::ReplyAndClose(text@),
            Action::Deliver(body) => Outcome::Deliver(body@),
            Action::Abort { partial, reply } => Outcome::Abort {
                partial: match partial {
                    Some(p) => Some(p@),
                    None => None,
                },
                reply: reply@,
            },
            Action::Close => Outcome::Close,
        }
    }
}

impl View for Context {
    type V = Session;

    closed spec fn view(&self) -> Session {
        Session { data: self.data@, crlf: self.crlf, phase: self.phase }
    }
}

/// The command that a word names, whatever the case of its letters.
pub open spec fn verb_of(word: Seq<u8>) -> Verb {
    if same_ignoring_case(word, utf8("lhlo"@)) {
        Verb::Lhlo
    } else if same_ignoring_case(word, utf8("rset"@)) {
        Verb::Rset
    } else if same_ignoring_case(word, utf8("noop"@)) {
        Verb::Noop
    } else if same_ignoring_case(word, utf8("mail"@)) {
        Verb::Mail
    } else if same_ignoring_case(word, utf8("rcpt"@)) {
        Verb::Rcpt
    } else if same_ignoring_case(word, utf8("quit"@)) {
        Verb::Quit
    } else if same_ignoring_case(word, utf8("vrfy"@)) {
        Verb::Vrfy
    } else if same_ignoring_case(word, utf8("data"@)) {
        Verb::Data
    } else {
        Verb::Unknown
    }
}

/// The answer to `LHLO` with the domain that was given.
pub open spec fn lhlo_reply(domain: Seq<u8>) -> Seq<u8> {
    utf8("250 "@) + domain + utf8(CRLF@)
}

/// A step while the session waits for a command. White space cuts the
/// line into words: the first word names the command, and the second is
/// the argument of `LHLO`. `DATA` opens a body that is empty.
pub open spec fn command_step(s: Session, line: Seq<u8>) -> (Session, Outcome) {
    let text = trimmed(line);
    match verb_of(first_word_of(text)) {
        Verb::Lhlo => match second_word_of(text) {
            Some(domain) => (s, Outcome::Reply(lhlo_reply(domain))),
            None => (s, Outcome::Reply(utf8(INVALID@))),
        },
        Verb::Rset | Verb::Noop | Verb::Mail | Verb::Rcpt => (s, Outcome::Reply(utf8(OK@))),
        Verb::Quit => (
            Session { phase: Phase::Closed, ..s },
            Outcome::ReplyAndClose(utf8(CLOSING@)),
        ),
        Verb::Data => (
            Session { data: Seq::empty(), phase: Phase::Data, ..s },
            Outcome::Reply(utf8(START_INPUT@)),
        ),
        Verb::Vrfy | Verb::Unknown => (s, Outcome::Reply(utf8(INVALID@))),
    }
}

/// Whether `line` ends the body of a session in state `s`: it is a lone
/// dot with its CRLF, and the line before it ended with CRLF too.
pub open spec fn ends_data(s: Session, line: Seq<u8>) -> bool {
    s.crlf && line == utf8(END_OF_DATA@)
}

/// A step while the session collects a body, on a line that is not empty.
pub open spec fn data_step(s: Session, line: Seq<u8>) -> (Session, Outcome) {
    if ends_data(s, line) {
        (Session { data: Seq::empty(), phase: Phase::Command, ..s }, Outcome::Deliver(s.data))
    } else {
        (
            Session { data: s.data + line, crlf: ends_with(line, utf8(CRLF@)), ..s },
            Outcome::Wait,
        )
    }
}

/// A step while the session collects a body, when the stream has ended or
/// failed. What was collected is given up; with `debug` set, a body that is
/// not empty is handed out to be kept.
pub open spec fn broken_step(s: Session, debug: bool) -> (Session, Outcome) {
    (
        Session { data: Seq::empty(), phase: Phase::Command, ..s },
        Outcome::Abort {
            partial: if debug && s.data.len() > 0 {
                Some(s.data)
            } else {
                None
            },
            reply: utf8(INVALID@),
        },
    )
}

/// One step of a session: the state and the action that follow from state
/// `s` and the line that was read. An empty `line` stands for a stream that
/// has ended, failed or run into its time limit.
pub open spec fn step(s: Session, line: Seq<u8>, debug: bool) -> (Session, Outcome) {
    match s.phase {
        Phase::Closed => (s, Outcome::Close),
        Phase::Command => if line.len() == 0 {
            (Session { phase: Phase::Closed, ..s }, Outcome::Close)
        } else {
            command_step(s, line)
        },
        Phase::Data => if line.len() == 0 {
            broken_step(s, debug)
        } else {
            data_step(s, line)
        },
    }
}

/// The line that tells the client how the delivery of its message went:
/// `250 OK` where the remote endpoint took it, else a `421` line, which asks
/// the client to try again later, with the endpoint's text and, in round
/// brackets, its HTTP status.
pub open spec fn delivery_line(status: u16, body: Seq<char>) -> Seq<u8> {
    if succeeded(status) {
        utf8(OK@)
    } else {
        utf8("421 "@) + utf8(body) + utf8(" ("@) + utf8(decimal(status as nat)) + utf8(")\r\n"@)
    }
}

/// The line to send after a delivery, given the answer of the remote
/// endpoint. An answer whose body could not be read counts as one with an
/// empty body.
pub fn delivery_reply(response: &Response) -> (line: Vec<u8>)
    ensures
        line@ == delivery_line(response.status, response.body@),
{
    if response.ok() {
        bytes(OK)
    } else {
        let mut line = bytes("421 ");
        append(&mut line, response.body.as_str().as_bytes());
        append(&mut line, " (".as_bytes());
        append(&mut line, to_decimal(response.status as u64).as_str().as_bytes());
        append(&mut line, ")\r\n".as_bytes());
        line
    }
}

/// The file that keeps a body which broke off at `seconds` seconds of
/// Unix time.
pub open spec fn dump_file(seconds: u64) -> Seq<char> {
    "/tmp/lmtp_"@ + decimal(seconds as nat)
}

/// The file that keeps a body which broke off at `seconds` seconds of
/// Unix time. Keeping it is for a later look only: where it cannot be
/// written, the session goes on all the same.
pub fn dump_path(seconds: u64) -> (path: String)
    ensures
        path@ == dump_file(seconds),
{
    "/tmp/lmtp_".to_owned().concat(to_decimal(seconds).as_str())
}

/// The command that a word names.
pub fn verb(word: &[u8]) -> (v: Verb)
    ensures
        v == verb_of(word@),
{
    if eq_ignore_case(word, "lhlo".as_bytes()) {
        Verb::Lhlo
    } else if eq_ignore_case(word, "rset".as_bytes()) {
        Verb::Rset
    } else if eq_ignore_case(word, "noop".as_bytes()) {
        Verb::Noop
    } else if eq_ignore_case(word, "mail".as_bytes()) {
        Verb::Mail
    } else if eq_ignore_case(word, "rcpt".as_bytes()) {
        Verb::Rcpt
    } else if eq_ignore_case(word, "quit".as_bytes()) {
        Verb::Quit
    } else if eq_ignore_case(word, "vrfy".as_bytes()) {
        Verb::Vrfy
    } else if eq_ignore_case(word, "data".as_bytes()) {
        Verb::Data
    } else {
        Verb::Unknown
    }
}

/// The line that opens a session, to be sent and flushed before the first
/// line is read.
pub fn greeting() -> (line: Vec<u8>)
    ensures
        line@ == utf8(GREETING@),
{
    bytes(GREETING)
}

impl Context {
    /// A session that waits for its first command, with no body collected.
    pub fn new() -> (c: Context)
        ensures
            c@ == (Session { data: Seq::empty(), crlf: false, phase: Phase::Command }),
    {
        Context { data: Vec::new(), crlf: false, phase: Phase::Command }
    }

    /// Takes the session one step on: `line` is what was read, empty where
    /// the stream has ended, failed or run into its time limit.
    pub fn step(&mut self, line: &[u8], debug: bool) -> (action: Action)
        ensures
            final(self)@ == step(old(self)@, line@, debug).0,
            action@ == step(old(self)@, line@, debug).1,
    {
        match self.phase {
            Phase::Closed => Action::Close,
            Phase::Command => {
                if line.len() == 0 {
                    self.phase = Phase::Closed;
                    Action::Close
                } else {
                    self.command(line)
                }
            },
            Phase::Data => {
                if line.len() == 0 {
                    self.phase = Phase::Command;
                    let mut body: Vec<u8> = Vec::new();
                    std::mem::swap(&mut self.data, &mut body);
                    let partial = if debug && body.len() > 0 {
                        Some(body)
                    } else {
                        None
                    };
                    Action::Abort { partial, reply: bytes(INVALID) }
                } else if self.crlf && eq(line, END_OF_DATA.as_bytes()) {
                    let mut body: Vec<u8> = Vec::new();
                    std::mem::swap(&mut self.data, &mut body);
                    self.phase = Phase::Command;
                    Action::Deliver(body)
                } else {
                    self.crlf = has_suffix(line, CRLF.as_bytes());
                    append(&mut self.data, line);
                    Action::Wait
                }
            },
        }
    }

    /// Ends the session because a reply could not be sent or flushed: the
    /// peer counts as gone, and nothing is read or sent any more.
    pub fn send_failed(&mut self)
        ensures
            final(self)@ == (Session { phase: Phase::Closed, ..old(self)@ }),
    {
        self.phase = Phase::Closed;
    }

    /// Where the session stands.
    pub fn phase(&self) -> (phase: Phase)
        ensures
            phase == self@.phase,
    {
        self.phase
    }

    /// The body collected so far.
    pub fn data(&self) -> (data: &[u8])
        ensures
            data@ == self@.data,
    {
        self.data.as_slice()
    }

    /// Whether the line collected last ended with CRLF.
    pub fn crlf(&self) -> (crlf: bool)
        ensures
            crlf == self@.crlf,
    {
        self.crlf
    }

    /// A step on a command line.
    fn command(&mut self, line: &[u8]) -> (action: Action)
        ensures
            final(self)@ == command_step(old(self)@, line@).0,
            action@ == command_step(old(self)@, line@).1,
    {
        let text = trim(line);
        match verb(first_word(text)) {
            Verb::Lhlo => {
                let rest = after_word(text);
                if rest.len() > 0 {
                    let mut reply = bytes("250 ");
                    append(&mut reply, first_word(rest));
                    append(&mut reply, CRLF.as_bytes());
                    Action::Reply(reply)
                } else {
                    Action::Reply(bytes(INVALID))
                }
            },
            Verb::Rset | Verb::Noop | Verb::Mail | Verb::Rcpt => Action::Reply(bytes(OK)),
            Verb::Quit => {
                self.phase = Phase::Closed;
                Action::ReplyAndClose(bytes(CLOSING))
            },
            Verb::Data => {
                self.data = Vec::new();
                self.phase = Phase::Data;
                Action::Reply(bytes(START_INPUT))
            },
            Verb::Vrfy | Verb::Unknown => Action::Reply(bytes(INVALID)),
        }
    }
}

/// The state of a session that began in state `s` and was taken one step on
/// for each of `lines`, in their order.
pub open spec fn collected(s: Session, lines: Seq<Seq<u8>>, debug: bool) -> Session
    decreases lines.len(),
{
    if lines.len() == 0 {
        s
    } else {
        step(collected(s, lines.drop_last(), debug), lines.last(), debug).0
    }
}

/// The lines one behind the other.
pub open spec fn concat(lines: Seq<Seq<u8>>) -> Seq<u8>
    decreases lines.len(),
{
    if lines.len() == 0 {
        Seq::empty()
    } else {
        concat(lines.drop_last()) + lines.last()
    }
}

/// Whether `lines` are lines of one body for a session in state `s`: none
/// is empty, and none is a lone dot behind a line that ended with CRLF.
pub open spec fn body_lines(s: Session, lines: Seq<Seq<u8>>) -> bool {
    forall|i: int|
        0 <= i < lines.len() ==> (#[trigger] lines[i]).len() > 0 && !(lines[i] == utf8(
            END_OF_DATA@,
        ) && if i == 0 {
            s.crlf
        } else {
            ends_with(lines[i - 1], utf8(CRLF@))
        })
}

/// Whether `word`, `gap` and `domain` make a well-formed `LHLO` line: the
/// word is `LHLO` in any case, the gap is one or more spaces or tabs, and
/// the domain is not empty and holds no white space.
pub open spec fn well_formed_lhlo(word: Seq<u8>, gap: Seq<u8>, domain: Seq<u8>) -> bool {
    &&& same_ignoring_case(word, utf8("lhlo"@))
    &&& gap.len() > 0
    &&& forall|i: int| 0 <= i < gap.len() ==> narrow_space(#[trigger] gap[i])
    &&& domain.len() > 0
    &&& no_space(domain)
}

/// The bytes of the texts that the laws below reason about.
proof fn lemma_marks()
    ensures
        utf8(CRLF@) == seq![0x0du8, 0x0au8],
        utf8(END_OF_DATA@) == seq![0x2eu8, 0x0du8, 0x0au8],
        utf8("lhlo"@) == seq![0x6cu8, 0x68u8, 0x6cu8, 0x6fu8],
{
    reveal_strlit("\r\n");
    reveal_strlit(".\r\n");
    reveal_strlit("lhlo");
    is_ascii_chars_encode_utf8("\r\n"@);
    is_ascii_chars_encode_utf8(".\r\n"@);
    is_ascii_chars_encode_utf8("lhlo"@);
    assert(utf8(CRLF@) =~= seq![0x0du8, 0x0au8]);
    assert(utf8(END_OF_DATA@) =~= seq![0x2eu8, 0x0du8, 0x0au8]);
    assert(utf8("lhlo"@) =~= seq![0x6cu8, 0x68u8, 0x6cu8, 0x6fu8]);
}

/// White space of one byte each, before a text that begins with none, is
/// all that `trim_start` cuts off.
proof fn lemma_gap_is_cut(gap: Seq<u8>, rest: Seq<u8>)
    requires
        forall|i: int| 0 <= i < gap.len() ==> narrow_space(#[trigger] gap[i]),
        space_before(rest) == 0,
    ensures
        trim_start(gap + rest) == rest,
    decreases gap.len(),
{
    if gap.len() == 0 {
        assert(gap + rest =~= rest);
    } else {
        let whole = gap + rest;
        assert(whole[0] == gap[0]);
        assert(space_before(whole) == 1);
        let shorter = gap.skip(1);
        assert(whole.skip(1) =~= shorter + rest);
        assert forall|i: int| 0 <= i < shorter.len() implies narrow_space(
            #[trigger] shorter[i],
        ) by {
            assert(shorter[i] == gap[i + 1]);
        }
        lemma_gap_is_cut(shorter, rest);
    }
}

/// A text that begins with a word of letters, followed by white space of
/// one byte, has that word as its first word.
proof fn lemma_word_before_gap(word: Seq<u8>, rest: Seq<u8>)
    requires
        forall|i: int| 0 <= i < word.len() ==> 0x41 <= #[trigger] word[i] <= 0x7a,
        rest.len() > 0,
        narrow_space(rest[0]),
    ensures
        word_len(word + rest) == word.len(),
    decreases word.len(),
{
    let whole = word + rest;
    if word.len() == 0 {
        assert(whole[0] == rest[0]);
    } else {
        assert(whole[0] == word[0]);
        assert(space_before(whole) == 0);
        let shorter = word.skip(1);
        assert(whole.skip(1) =~= shorter + rest);
        assert forall|i: int| 0 <= i < shorter.len() implies 0x41 <= #[trigger] shorter[i]
            <= 0x7a by {
            assert(shorter[i] == word[i + 1]);
        }
        lemma_word_before_gap(shorter, rest);
    }
}

/// A well-formed `LHLO` line is answered with a `250` line that holds the
/// domain as it was given.
pub proof fn lemma_lhlo_echoes_domain(
    s: Session,
    word: Seq<u8>,
    gap: Seq<u8>,
    domain: Seq<u8>,
    debug: bool,
)
    requires
        s.phase == Phase::Command,
        well_formed_lhlo(word, gap, domain),
    ensures
        step(s, word + gap + domain + utf8(CRLF@), debug) == (
            s,
            Outcome::Reply(utf8("250 "@) + domain + utf8(CRLF@)),
        ),
{
    lemma_marks();
    let key = utf8("lhlo"@);
    let line = word + gap + domain + utf8(CRLF@);
    let text = word + gap + domain;
    assert(folded(word).len() == 4);
    assert forall|i: int| 0 <= i < word.len() implies 0x41 <= #[trigger] word[i] <= 0x7a by {
        assert(folded(word)[i] == fold(word[i]));
        assert(folded(word)[i] == key[i]);
    }
    let n = line.len() as int;
    assert(line[0] == word[0]);
    assert(space_before(line) == 0);
    assert(trim_start(line) == line);
    // The CRLF goes, and nothing more.
    let without_lf = line.take(n - 1);
    assert(line[n - 1] == 0x0a);
    assert(space_behind(line) == 1);
    assert(without_lf[n - 2] == 0x0d);
    assert(space_behind(without_lf) == 1);
    assert(without_lf.take(n - 2) =~= text);
    let m = text.len() as int;
    let d = domain.len() as int;
    let g = gap.len() as int;
    assert(text[m - 1] == domain[d - 1]);
    assert(domain.skip(d - 1)[0] == domain[d - 1]);
    assert(space_before(domain.skip(d - 1)) == 0);
    if d >= 2 {
        assert(text[m - 2] == domain[d - 2]);
        assert(domain.skip(d - 2)[0] == domain[d - 2]);
        assert(domain.skip(d - 2)[1] == domain[d - 1]);
        assert(space_before(domain.skip(d - 2)) == 0);
    } else {
        assert(text[m - 2] == gap[g - 1]);
    }
    if d >= 3 {
        assert(text[m - 3] == domain[d - 3]);
        assert(domain.skip(d - 3)[0] == domain[d - 3]);
        assert(domain.skip(d - 3)[1] == domain[d - 2]);
        assert(domain.skip(d - 3)[2] == domain[d - 1]);
        assert(space_before(domain.skip(d - 3)) == 0);
    } else if d == 2 {
        assert(text[m - 3] == gap[g - 1]);
    } else if g >= 2 {
        assert(text[m - 3] == gap[g - 2]);
    } else {
        assert(text[m - 3] == word[3]);
    }
    assert(space_behind(text) == 0);
    assert(trim_end(text) == text);
    assert(trim_end(without_lf) == text);
    assert(trim_end(line) == text);
    assert(trimmed(line) == text);
    // The first word is the command, the second the domain.
    assert(text =~= word + (gap + domain));
    assert((gap + domain)[0] == gap[0]);
    lemma_word_before_gap(word, gap + domain);
    assert(first_word_of(text) =~= word);
    assert(text.skip(4) =~= gap + domain);
    assert(domain.skip(0) =~= domain);
    lemma_gap_is_cut(gap, domain);
    assert(after_word_of(text) == domain);
    lemma_one_word(domain);
    assert(first_word_of(domain) =~= domain);
    assert(second_word_of(text) == Some(domain));
}

/// The first bytes of the answers, which tell them apart.
proof fn lemma_answers_differ()
    ensures
        utf8(INVALID@).len() > 0 && utf8(INVALID@)[0] == 0x35,
        utf8(OK@).len() > 0 && utf8(OK@)[0] == 0x32,
        utf8(CLOSING@).len() > 0 && utf8(CLOSING@)[0] == 0x32,
        utf8(START_INPUT@).len() > 0 && utf8(START_INPUT@)[0] == 0x33,
        utf8("250 "@).len() > 0 && utf8("250 "@)[0] == 0x32,
{
    reveal_strlit("500 Invalid command\r\n");
    reveal_strlit("250 OK\r\n");
    reveal_strlit("221 localhost Closing connection\r\n");
    reveal_strlit("354 Start mail input; end with <CRLF>.<CRLF>\r\n");
    reveal_strlit("250 ");
    is_ascii_chars_encode_utf8("500 Invalid command\r\n"@);
    is_ascii_chars_encode_utf8("250 OK\r\n"@);
    is_ascii_chars_encode_utf8("221 localhost Closing connection\r\n"@);
    is_ascii_chars_encode_utf8("354 Start mail input; end with <CRLF>.<CRLF>\r\n"@);
    is_ascii_chars_encode_utf8("250 "@);
}

/// A command line is answered with `500 Invalid command` just when its
/// first word is none of the commands that are served, or is `LHLO` with
/// no word behind it. The session goes on waiting for the next command as it
/// did before, and nothing is handed over for delivery.
pub proof fn lemma_invalid_command(s: Session, line: Seq<u8>, debug: bool)
    requires
        s.phase == Phase::Command,
        line.len() > 0,
    ensures
        step(s, line, debug).1 == Outcome::Reply(utf8(INVALID@)) <==> {
            let v = verb_of(first_word_of(trimmed(line)));
            v == Verb::Vrfy || v == Verb::Unknown || (v == Verb::Lhlo && second_word_of(
                trimmed(line),
            ).is_none())
        },
        step(s, line, debug).1 == Outcome::Reply(utf8(INVALID@)) ==> step(s, line, debug).0 == s,
        !(step(s, line, debug).1 is Deliver),
{
    lemma_answers_differ();
    let text = trimmed(line);
    match second_word_of(text) {
        Some(domain) => {
            assert(lhlo_reply(domain)[0] == utf8("250 "@)[0]);
        },
        None => {},
    }
}

/// `DATA` opens a body that is empty, whatever the session held before.
pub proof fn lemma_data_opens_empty_body(s: Session, line: Seq<u8>, debug: bool)
    requires
        s.phase == Phase::Command,
        line.len() > 0,
        verb_of(first_word_of(trimmed(line))) == Verb::Data,
    ensures
        step(s, line, debug) == (
            Session { data: Seq::empty(), crlf: s.crlf, phase: Phase::Data },
            Outcome::Reply(utf8(START_INPUT@)),
        ),
{
}

/// A body that breaks off is given up: the session waits for a command
/// with nothing kept.
pub proof fn lemma_broken_body_is_given_up(s: Session, debug: bool)
    requires
        s.phase == Phase::Data,
    ensures
        step(s, Seq::empty(), debug).0 == (Session {
            data: Seq::empty(),
            crlf: s.crlf,
            phase: Phase::Command,
        }),
{
}

/// A lone dot behind a line that did not end with CRLF does not end the
/// body: it is collected like any other line.
pub proof fn lemma_dot_behind_open_line_is_collected(s: Session, debug: bool)
    requires
        s.phase == Phase::Data,
        !s.crlf,
    ensures
        step(s, utf8(END_OF_DATA@), debug) == (
            Session { data: s.data + utf8(END_OF_DATA@), crlf: true, phase: Phase::Data },
            Outcome::Wait,
        ),
{
    lemma_marks();
    let dot = utf8(END_OF_DATA@);
    assert(dot.skip(1) =~= utf8(CRLF@));
}

/// Body lines leave the session collecting, with all of them behind what
/// it held before, and with the mark of the last line's ending.
pub proof fn lemma_collected(s: Session, lines: Seq<Seq<u8>>, debug: bool)
    requires
        s.phase == Phase::Data,
        body_lines(s, lines),
    ensures
        collected(s, lines, debug) == (Session {
            data: s.data + concat(lines),
            crlf: if lines.len() == 0 {
                s.crlf
            } else {
                ends_with(lines.last(), utf8(CRLF@))
            },
            phase: Phase::Data,
        }),
    decreases lines.len(),
{
    if lines.len() == 0 {
        assert(s.data + concat(lines) =~= s.data);
    } else {
        let front = lines.drop_last();
        assert forall|i: int| 0 <= i < front.len() implies (#[trigger] front[i]).len() > 0 && !(
        front[i] == utf8(END_OF_DATA@) && if i == 0 {
            s.crlf
        } else {
            ends_with(front[i - 1], utf8(CRLF@))
        }) by {
            assert(front[i] == lines[i]);
            if i > 0 {
                assert(front[i - 1] == lines[i - 1]);
            }
        }
        lemma_collected(s, front, debug);
        let before = collected(s, front, debug);
        let last = lines.len() - 1;
        assert(lines[last].len() > 0);
        if last > 0 {
            assert(front.last() == lines[last - 1]);
        }
        assert(!ends_data(before, lines.last()));
        assert(s.data + concat(front) + lines.last() =~= s.data + concat(lines));
    }
}

/// A body that is sent behind `DATA` and closed by a lone dot behind a line
/// that ended with CRLF is handed over for delivery byte for byte as it
/// was sent, whatever went on in the session before, and the session goes
/// back to waiting for a command with nothing kept.
pub proof fn lemma_body_is_delivered_whole(
    s: Session,
    opening: Seq<u8>,
    lines: Seq<Seq<u8>>,
    debug: bool,
)
    requires
        s.phase == Phase::Command,
        opening.len() > 0,
        verb_of(first_word_of(trimmed(opening))) == Verb::Data,
        lines.len() > 0,
        body_lines(s, lines),
        ends_with(lines.last(), utf8(CRLF@)),
    ensures
        step(collected(step(s, opening, debug).0, lines, debug), utf8(END_OF_DATA@), debug) == (
            Session { data: Seq::empty(), crlf: true, phase: Phase::Command },
            Outcome::Deliver(concat(lines)),
        ),
{
    lemma_marks();
    let open = step(s, opening, debug).0;
    assert(open == (Session { data: Seq::empty(), crlf: s.crlf, phase: Phase::Data }));
    assert(body_lines(open, lines));
    lemma_collected(open, lines, debug);
    assert(open.data + concat(lines) =~= concat(lines));
}

} // verus!
