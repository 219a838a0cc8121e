//! The mail envelope and the per-connection protocol state machine.
use vstd::prelude::*;
use vstd::string::StringExecFns;
use vstd::utf8::{encode_utf8, is_ascii_chars};
use crate::text::{
    after, decimal, drop_chars, has_prefix, push_decimal, trim_of, trim_str, upper_str, upper_text,
};

verus! {

/// Where a session stands; it only ever moves forward.
pub enum State {
    New,
    Hello,
    MailFrom,
    RcptTo,
    Data,
    Quit,
}

/// The fields that one session has supplied so far.
pub struct Mail {
    pub helo: Option<String>,
    pub mail_from: Option<String>,
    pub rcpt_to: Vec<String>,
    pub data: Option<String>,
}

/// A `Mail` as plain sequences of characters.
pub struct MailView {
    pub helo: Option<Seq<char>>,
    pub mail_from: Option<Seq<char>>,
    pub rcpt_to: Seq<Seq<char>>,
    pub data: Option<Seq<char>>,
}

/// An optional text as an optional sequence of characters.
pub open spec fn opt_view(o: Option<String>) -> Option<Seq<char>> {
    match o {
        Some(s) => Some(s@),
        None => None,
    }
}

impl View for Mail {
    type V = MailView;

    open spec fn view(&self) -> MailView {
        MailView {
            helo: opt_view(self.helo),
            mail_from: opt_view(self.mail_from),
            rcpt_to: self.rcpt_to@.map_values(|s: String| s@),
            data: opt_view(self.data),
        }
    }
}

/// The envelope of a session that has not begun.
pub open spec fn empty_mail() -> MailView {
    MailView { helo: None, mail_from: None, rcpt_to: Seq::empty(), data: None }
}

/// The body after `chunk` is appended to it, as it stands, with nothing between.
pub open spec fn with_chunk(data: Option<Seq<char>>, chunk: Seq<char>) -> Option<Seq<char>> {
    match data {
        Some(d) => Some(d + chunk),
        None => Some(chunk),
    }
}

impl Mail {
    pub fn new() -> (m: Mail)
        ensures
            m@ == empty_mail(),
    {
        let m = Mail { helo: None, mail_from: None, rcpt_to: Vec::new(), data: None };
        assert(m@.rcpt_to =~= Seq::<Seq<char>>::empty());
        m
    }

    /// Stores the greeting argument, trimmed.
    pub fn add_hello(&mut self, hello: &str)
        ensures
            final(self)@ == (MailView { helo: Some(trim_of(hello@)), ..old(self)@ }),
    {
        self.helo = Some(trim_str(hello).to_owned());
    }

    /// Stores the sender, trimmed.
    pub fn add_mail_from(&mut self, mail_from: &str)
        ensures
            final(self)@ == (MailView { mail_from: Some(trim_of(mail_from@)), ..old(self)@ }),
    {
        self.mail_from = Some(trim_str(mail_from).to_owned());
    }

    /// Appends one recipient, trimmed.
    pub fn add_rcpt_to(&mut self, rcpt_to: &str)
        ensures
            final(self)@ == (MailView {
                rcpt_to: old(self)@.rcpt_to.push(trim_of(rcpt_to@)),
                ..old(self)@
            }),
    {
        self.rcpt_to.push(trim_str(rcpt_to).to_owned());
        assert(self@.rcpt_to =~= old(self)@.rcpt_to.push(trim_of(rcpt_to@)));
    }

    /// Appends a chunk of the body as it stands.
    pub fn add_data_chunk(&mut self, data_chunk: &str)
        ensures
            final(self)@ == (MailView { data: with_chunk(old(self)@.data, data_chunk@), ..old(self)@ }),
    {
        match self.data.take() {
            Some(mut d) => {
                d.append(data_chunk);
                self.data = Some(d);
            },
            None => {
                self.data = Some(data_chunk.to_owned());
            },
        }
    }
}

/// One line per recipient, in order.
pub open spec fn rcpt_lines(rs: Seq<Seq<char>>) -> Seq<char>
    decreases rs.len(),
{
    if rs.len() == 0 {
        Seq::empty()
    } else {
        rcpt_lines(rs.drop_last()) + "RCPT TO: "@ + rs.last() + "\n"@
    }
}

/// The envelope as text: a line for each field that is set, the body after a
/// `DATA` line, and a blank line at the end.
pub open spec fn mail_text(m: MailView) -> Seq<char> {
    let h = match m.helo {
        Some(h) => "HELO "@ + h + "\n"@,
        None => Seq::empty(),
    };
    let f = match m.mail_from {
        Some(f) => "MAIL FROM: "@ + f + "\n"@,
        None => Seq::empty(),
    };
    let d = match m.data {
        Some(d) => "DATA \n"@ + d + "\n"@,
        None => Seq::empty(),
    };
    h + f + rcpt_lines(m.rcpt_to) + d + "\n"@
}

impl Mail {
    /// Writes the envelope out as text.
    pub fn to_text(&self) -> (r: String)
        ensures
            r@ == mail_text(self@),
    {
        let mut out = String::new();
        if let Some(h) = &self.helo {
            out.append("HELO ");
            out.append(h.as_str());
            out.append("\n");
        }
        if let Some(f) = &self.mail_from {
            out.append("MAIL FROM: ");
            out.append(f.as_str());
            out.append("\n");
        }
        let ghost start = out@;
        let mut i: usize = 0;
        while i < self.rcpt_to.len()
            invariant
                i <= self.rcpt_to.len(),
                out@ == start + rcpt_lines(self@.rcpt_to.take(i as int)),
            decreases self.rcpt_to.len() - i,
        {
            out.append("RCPT TO: ");
            out.append(self.rcpt_to[i].as_str());
            out.append("\n");
            assert(self@.rcpt_to.take(i + 1).drop_last() =~= self@.rcpt_to.take(i as int));
            i = i + 1;
        }
        assert(self@.rcpt_to.take(i as int) =~= self@.rcpt_to);
        if let Some(d) = &self.data {
            out.append("DATA \n");
            out.append(d.as_str());
            out.append("\n");
        }
        out.append("\n");
        assert(out@ =~= mail_text(self@));
        out
    }
}

/// The reply to a command that the current state does not accept.
pub open spec fn unknown_reply() -> Seq<char> {
    "Unknown command\n"@
}

/// The reply to `HELO` or `EHLO`.
pub open spec fn hello_reply(server: Seq<char>) -> Seq<char> {
    "250 "@ + server + "\n"@
}

pub open spec fn ok_reply() -> Seq<char> {
    "250 Ok\n"@
}

pub open spec fn data_reply() -> Seq<char> {
    "354 End data with <CR><LF>.<CR><LF>\n"@
}

pub open spec fn bye_reply() -> Seq<char> {
    "221 Bye\n"@
}

/// The length in bytes of the body so far, zero when there is none.
pub open spec fn body_len(data: Option<Seq<char>>) -> nat {
    match data {
        Some(d) => encode_utf8(d).len(),
        None => 0,
    }
}

/// The reply to the line that ends the body: its length as a placeholder id.
pub open spec fn queued_reply(data: Option<Seq<char>>) -> Seq<char> {
    "250 Ok: queued as "@ + decimal(body_len(data) as usize as nat) + "\n"@
}

pub open spec fn greeting_text(server: Seq<char>) -> Seq<char> {
    "220 "@ + server + " simple-smtp\n"@
}

/// One transition, given the line, the line trimmed and that upper-cased.
/// Keywords are matched on `upper`; an argument is cut from `trimmed` after the
/// keyword's characters. Yields the next state, the envelope and the reply.
pub open spec fn step_parsed(
    state: State,
    server: Seq<char>,
    m: MailView,
    line: Seq<char>,
    trimmed: Seq<char>,
    upper: Seq<char>,
) -> (State, MailView, Option<Seq<char>>) {
    match state {
        State::New if "HELO"@.is_prefix_of(upper) || "EHLO"@.is_prefix_of(upper) => (
            State::Hello,
            MailView { helo: Some(trim_of(after(trimmed, 4))), ..m },
            Some(hello_reply(server)),
        ),
        State::Hello if "MAIL FROM:"@.is_prefix_of(upper) => (
            State::MailFrom,
            MailView { mail_from: Some(trim_of(after(trimmed, 10))), ..m },
            Some(ok_reply()),
        ),
        State::MailFrom if "RCPT TO:"@.is_prefix_of(upper) => (
            State::RcptTo,
            MailView { rcpt_to: m.rcpt_to.push(trim_of(after(trimmed, 8))), ..m },
            Some(ok_reply()),
        ),
        State::RcptTo if "RCPT TO:"@.is_prefix_of(upper) => (
            State::RcptTo,
            MailView { rcpt_to: m.rcpt_to.push(trim_of(after(trimmed, 8))), ..m },
            Some(ok_reply()),
        ),
        State::RcptTo if "DATA"@.is_prefix_of(upper) => (
            State::Data,
            MailView { rcpt_to: m.rcpt_to.push(trim_of(after(trimmed, 4))), ..m },
            Some(data_reply()),
        ),
        State::Data if trimmed == "."@ => (State::Data, m, Some(queued_reply(m.data))),
        State::Data if "QUIT"@.is_prefix_of(upper) => (State::Quit, m, Some(bye_reply())),
        State::Data => (State::Data, MailView { data: with_chunk(m.data, line), ..m }, None),
        _ => (state, m, Some(unknown_reply())),
    }
}

/// One transition on a raw line.
pub open spec fn step(state: State, server: Seq<char>, m: MailView, line: Seq<char>) -> (
    State,
    MailView,
    Option<Seq<char>>,
) {
    step_parsed(state, server, m, line, trim_of(line), upper_text(trim_of(line)))
}

/// The protocol state machine of one connection, which owns its envelope.
pub struct MailFSM {
    current_state: State,
    server_name: String,
    pub mail: Mail,
}

impl MailFSM {
    pub closed spec fn state(&self) -> State {
        self.current_state
    }

    pub closed spec fn server(&self) -> Seq<char> {
        self.server_name@
    }

    /// The envelope held in `mail`.
    pub closed spec fn envelope(&self) -> MailView {
        self.mail@
    }

    pub fn new(server_name: String) -> (r: MailFSM)
        ensures
            r.state() == State::New,
            r.server() == server_name@,
            r.envelope() == empty_mail(),
    {
        MailFSM { current_state: State::New, server_name, mail: Mail::new() }
    }

    /// Handles one line of input and returns the reply to send, if any.
    pub fn process_line(&mut self, line: &str) -> (r: Option<String>)
        ensures
            ({
                let (st, m, reply) = step(old(self).state(), old(self).server(), old(self).envelope(), line@);
                &&& final(self).state() == st
                &&& final(self).envelope() == m
                &&& opt_view(r) == reply
            }),
            final(self).server() == old(self).server(),
    {
        let trimmed = trim_str(line);
        let upper = upper_str(trimmed);
        self.process_parsed(line, trimmed, upper.as_str())
    }

    /// Handles one line, given also the line trimmed and that upper-cased.
    pub fn process_parsed(&mut self, line: &str, trimmed: &str, upper: &str) -> (r: Option<String>)
        ensures
            ({
                let (st, m, reply) = step_parsed(
                    old(self).state(),
                    old(self).server(),
                    old(self).envelope(),
                    line@,
                    trimmed@,
                    upper@,
                );
                &&& final(self).state() == st
                &&& final(self).envelope() == m
                &&& opt_view(r) == reply
            }),
            final(self).server() == old(self).server(),
    {
        match self.current_state {
            State::New => {
                if has_prefix(upper, "HELO") || has_prefix(upper, "EHLO") {
                    let arg = drop_chars(trimmed, 4);
                    self.mail.add_hello(arg.as_str());
                    self.current_state = State::Hello;
                    let mut r = "250 ".to_owned();
                    r.append(self.server_name.as_str());
                    r.append("\n");
                    return Some(r);
                }
            },
            State::Hello => {
                if has_prefix(upper, "MAIL FROM:") {
                    let arg = drop_chars(trimmed, 10);
                    self.mail.add_mail_from(arg.as_str());
                    self.current_state = State::MailFrom;
                    return Some("250 Ok\n".to_owned());
                }
            },
            State::MailFrom => {
                if has_prefix(upper, "RCPT TO:") {
                    let arg = drop_chars(trimmed, 8);
                    self.mail.add_rcpt_to(arg.as_str());
                    self.current_state = State::RcptTo;
                    return Some("250 Ok\n".to_owned());
                }
            },
            State::RcptTo => {
                if has_prefix(upper, "RCPT TO:") {
                    let arg = drop_chars(trimmed, 8);
                    self.mail.add_rcpt_to(arg.as_str());
                    return Some("250 Ok\n".to_owned());
                } else if has_prefix(upper, "DATA") {
                    let arg = drop_chars(trimmed, 4);
                    self.mail.add_rcpt_to(arg.as_str());
                    self.current_state = State::Data;
                    return Some("354 End data with <CR><LF>.<CR><LF>\n".to_owned());
                }
            },
            State::Data => {
                if trimmed.to_owned() == ".".to_owned() {
                    let n: usize = match &self.mail.data {
                        Some(d) => d.as_str().len(),
                        None => 0,
                    };
                    let mut r = "250 Ok: queued as ".to_owned();
                    push_decimal(&mut r, n);
                    r.append("\n");
                    return Some(r);
                } else if has_prefix(upper, "QUIT") {
                    self.current_state = State::Quit;
                    return Some("221 Bye\n".to_owned());
                } else {
                    self.mail.add_data_chunk(line);
                    return None;
                }
            },
            State::Quit => {},
        }
        Some("Unknown command\n".to_owned())
    }

    /// True once `QUIT` has been accepted.
    pub fn is_finished(&self) -> (r: bool)
        ensures
            r == (self.state() == State::Quit),
    {
        match self.current_state {
            State::Quit => true,
            _ => false,
        }
    }

    /// The banner sent before any input is read; it leaves the machine as it is.
    pub fn greeting(&self) -> (r: String)
        ensures
            r@ == greeting_text(self.server()),
    {
        let mut r = "220 ".to_owned();
        r.append(self.server_name.as_str());
        r.append(" simple-smtp\n");
        r
    }
}

/// True when `line`, trimmed and upper-cased, begins with the keyword `kw`.
pub open spec fn is_command(line: Seq<char>, kw: Seq<char>) -> bool {
    kw.is_prefix_of(upper_text(trim_of(line)))
}

/// The argument that a line carries after a keyword of `k` characters, trimmed.
pub open spec fn argument(line: Seq<char>, k: nat) -> Seq<char> {
    trim_of(after(trim_of(line), k))
}

/// The state and envelope after the lines are handled one after another.
pub open spec fn run(state: State, server: Seq<char>, m: MailView, lines: Seq<Seq<char>>) -> (
    State,
    MailView,
)
    decreases lines.len(),
{
    if lines.len() == 0 {
        (state, m)
    } else {
        let (s0, m0) = run(state, server, m, lines.drop_last());
        let (s1, m1, _) = step(s0, server, m0, lines.last());
        (s1, m1)
    }
}

/// The body after the lines of the data phase: each line but a lone "." is
/// appended as it stands.
pub open spec fn body_of(data: Option<Seq<char>>, body: Seq<Seq<char>>) -> Option<Seq<char>>
    decreases body.len(),
{
    if body.len() == 0 {
        data
    } else {
        let d = body_of(data, body.drop_last());
        if trim_of(body.last()) == "."@ {
            d
        } else {
            with_chunk(d, body.last())
        }
    }
}

/// Handling two runs of lines one after the other is handling them joined.
pub proof fn lemma_run_append(
    state: State,
    server: Seq<char>,
    m: MailView,
    a: Seq<Seq<char>>,
    b: Seq<Seq<char>>,
)
    ensures
        run(state, server, m, a + b) == ({
            let (s, mm) = run(state, server, m, a);
            run(s, server, mm, b)
        }),
    decreases b.len(),
{
    if b.len() == 0 {
        assert(a + b =~= a);
    } else {
        assert((a + b).drop_last() =~= a + b.drop_last());
        assert((a + b).last() == b.last());
        lemma_run_append(state, server, m, a, b.drop_last());
    }
}

proof fn lemma_recipients(server: Seq<char>, m: MailView, rcpts: Seq<Seq<char>>)
    requires
        forall|i: int| 0 <= i < rcpts.len() ==> is_command(#[trigger] rcpts[i], "RCPT TO:"@),
    ensures
        run(State::RcptTo, server, m, rcpts) == (
            State::RcptTo,
            MailView {
                rcpt_to: m.rcpt_to + rcpts.map_values(|r: Seq<char>| argument(r, 8)),
                ..m
            },
        ),
    decreases rcpts.len(),
{
    if rcpts.len() == 0 {
        assert(m.rcpt_to + rcpts.map_values(|r: Seq<char>| argument(r, 8)) =~= m.rcpt_to);
    } else {
        let init = rcpts.drop_last();
        lemma_recipients(server, m, init);
        assert(is_command(rcpts[rcpts.len() - 1], "RCPT TO:"@));
        assert(m.rcpt_to + rcpts.map_values(|r: Seq<char>| argument(r, 8)) =~= (m.rcpt_to
            + init.map_values(|r: Seq<char>| argument(r, 8))).push(argument(rcpts.last(), 8)));
    }
}

proof fn lemma_body(server: Seq<char>, m: MailView, body: Seq<Seq<char>>)
    requires
        forall|i: int| 0 <= i < body.len() ==> !is_command(#[trigger] body[i], "QUIT"@),
    ensures
        run(State::Data, server, m, body) == (
            State::Data,
            MailView { data: body_of(m.data, body), ..m },
        ),
    decreases body.len(),
{
    if body.len() > 0 {
        lemma_body(server, m, body.drop_last());
        assert(!is_command(body[body.len() - 1], "QUIT"@));
    }
}

/// A machine is finished after a line exactly when it was finished before, or
/// it was in the data phase and the line is `QUIT` rather than a lone ".".
pub proof fn lemma_finished_only_on_quit(
    state: State,
    server: Seq<char>,
    m: MailView,
    line: Seq<char>,
)
    ensures
        (step(state, server, m, line).0 == State::Quit) <==> (state == State::Quit || (state
            == State::Data && trim_of(line) != "."@ && is_command(line, "QUIT"@))),
{
}

/// A session of HELO, MAIL FROM, one or more RCPT TO, DATA, body lines, "."
/// and QUIT ends finished, with an envelope that holds each argument in the
/// order given; just before QUIT it is still in the data phase.
pub proof fn lemma_valid_session(
    server: Seq<char>,
    helo: Seq<char>,
    from: Seq<char>,
    rcpts: Seq<Seq<char>>,
    data: Seq<char>,
    body: Seq<Seq<char>>,
    dot: Seq<char>,
    quit: Seq<char>,
)
    requires
        is_command(helo, "HELO"@) || is_command(helo, "EHLO"@),
        is_command(from, "MAIL FROM:"@),
        rcpts.len() >= 1,
        forall|i: int| 0 <= i < rcpts.len() ==> is_command(#[trigger] rcpts[i], "RCPT TO:"@),
        is_command(data, "DATA"@),
        forall|i: int| 0 <= i < body.len() ==> !is_command(#[trigger] body[i], "QUIT"@),
        trim_of(dot) == "."@,
        is_command(quit, "QUIT"@),
    ensures
        ({
            let head = seq![helo, from] + rcpts + seq![data] + body + seq![dot];
            &&& run(State::New, server, empty_mail(), head).0 == State::Data
            &&& run(State::New, server, empty_mail(), head.push(quit)) == (
                State::Quit,
                MailView {
                    helo: Some(argument(helo, 4)),
                    mail_from: Some(argument(from, 10)),
                    rcpt_to: rcpts.map_values(|r: Seq<char>| argument(r, 8)).push(
                        argument(data, 4),
                    ),
                    data: body_of(None, body),
                },
            )
        }),
{
    reveal_strlit("DATA");
    reveal_strlit("RCPT TO:");
    reveal_with_fuel(run, 3);
    let e = empty_mail();
    let hf = seq![helo, from];
    assert(hf.drop_last() =~= seq![helo]);
    assert(seq![helo].drop_last() =~= Seq::<Seq<char>>::empty());
    let m2 = MailView { helo: Some(argument(helo, 4)), mail_from: Some(argument(from, 10)), ..e };
    assert(run(State::New, server, e, hf) == (State::MailFrom, m2));
    let first = seq![rcpts[0]];
    let rest = rcpts.drop_first();
    assert(first.drop_last() =~= Seq::<Seq<char>>::empty());
    assert(is_command(rcpts[0], "RCPT TO:"@));
    let m3 = MailView { rcpt_to: seq![argument(rcpts[0], 8)], ..m2 };
    assert(m2.rcpt_to.push(argument(rcpts[0], 8)) =~= seq![argument(rcpts[0], 8)]);
    assert(run(State::MailFrom, server, m2, first) == (State::RcptTo, m3));
    assert forall|i: int| 0 <= i < rest.len() implies is_command(#[trigger] rest[i], "RCPT TO:"@) by {
        assert(rest[i] == rcpts[i + 1]);
    }
    lemma_recipients(server, m3, rest);
    let rs = rcpts.map_values(|r: Seq<char>| argument(r, 8));
    assert(m3.rcpt_to + rest.map_values(|r: Seq<char>| argument(r, 8)) =~= rs);
    assert(first + rest =~= rcpts);
    lemma_run_append(State::MailFrom, server, m2, first, rest);
    let m4 = MailView { rcpt_to: rs, ..m2 };
    assert(run(State::MailFrom, server, m2, rcpts) == (State::RcptTo, m4));
    lemma_run_append(State::New, server, e, hf, rcpts);
    // DATA cannot also begin with "RCPT TO:".
    let u = upper_text(trim_of(data));
    assert(u[0] == "DATA"@[0]);
    if "RCPT TO:"@.is_prefix_of(u) {
        assert(u[0] == "RCPT TO:"@[0]);
    }
    let m5 = MailView { rcpt_to: rs.push(argument(data, 4)), ..m4 };
    let dl = seq![data];
    assert(dl.drop_last() =~= Seq::<Seq<char>>::empty());
    assert(run(State::RcptTo, server, m4, dl) == (State::Data, m5));
    lemma_run_append(State::New, server, e, hf + rcpts, dl);
    lemma_body(server, m5, body);
    let m6 = MailView { data: body_of(None, body), ..m5 };
    lemma_run_append(State::New, server, e, hf + rcpts + dl, body);
    let dt = seq![dot];
    assert(dt.drop_last() =~= Seq::<Seq<char>>::empty());
    assert(run(State::Data, server, m6, dt) == (State::Data, m6));
    lemma_run_append(State::New, server, e, hf + rcpts + dl + body, dt);
    let head = hf + rcpts + dl + body + dt;
    assert(head.push(quit).drop_last() =~= head);
    // A lone "." upper-cases to itself, so it is never a QUIT line.
    if trim_of(quit) == "."@ {
        reveal_strlit(".");
        reveal_strlit("QUIT");
        assert(is_ascii_chars("."@));
        assert(upper_text("."@).len() == 1);
    }
}

/// In the recipient phase two `RCPT TO` lines append their arguments in order.
pub proof fn lemma_recipients_in_order(
    server: Seq<char>,
    m: MailView,
    first: Seq<char>,
    second: Seq<char>,
)
    requires
        is_command(first, "RCPT TO:"@),
        is_command(second, "RCPT TO:"@),
    ensures
        run(State::RcptTo, server, m, seq![first, second]) == (
            State::RcptTo,
            MailView { rcpt_to: m.rcpt_to.push(argument(first, 8)).push(argument(second, 8)), ..m },
        ),
{
    reveal_with_fuel(run, 3);
    assert(seq![first, second].drop_last() =~= seq![first]);
    assert(seq![first].drop_last() =~= Seq::<Seq<char>>::empty());
}

/// `MAIL FROM` before any greeting is answered as unknown and changes nothing.
pub proof fn lemma_mail_from_before_helo(server: Seq<char>, m: MailView, line: Seq<char>)
    requires
        is_command(line, "MAIL FROM:"@),
    ensures
        step(State::New, server, m, line) == (State::New, m, Some(unknown_reply())),
{
    reveal_strlit("MAIL FROM:");
    reveal_strlit("HELO");
    reveal_strlit("EHLO");
    let u = upper_text(trim_of(line));
    assert(u[0] == "MAIL FROM:"@[0]);
    if "HELO"@.is_prefix_of(u) {
        assert(u[0] == "HELO"@[0]);
    }
    if "EHLO"@.is_prefix_of(u) {
        assert(u[0] == "EHLO"@[0]);
    }
}

/// After the body lines of the data phase, a lone "." is answered with the
/// length in bytes of the whole body as it then stands, and changes nothing.
pub proof fn lemma_queued_counts_body(
    server: Seq<char>,
    m: MailView,
    body: Seq<Seq<char>>,
    dot: Seq<char>,
)
    requires
        forall|i: int| 0 <= i < body.len() ==> !is_command(#[trigger] body[i], "QUIT"@),
        trim_of(dot) == "."@,
    ensures
        ({
            let (s, mm) = run(State::Data, server, m, body);
            step(s, server, mm, dot) == (State::Data, mm, Some(queued_reply(body_of(m.data, body))))
        }),
{
    lemma_body(server, m, body);
}

/// True when line `i` of `lines` is a `QUIT` that the machine accepts: it
/// comes in the data phase and is not a lone ".".
pub open spec fn quit_accepted_at(server: Seq<char>, lines: Seq<Seq<char>>, i: int) -> bool {
    &&& run(State::New, server, empty_mail(), lines.take(i)).0 == State::Data
    &&& trim_of(lines[i]) != "."@
    &&& is_command(lines[i], "QUIT"@)
}

/// After any lines, a new machine is finished exactly when one of them was a
/// `QUIT` accepted in the data phase.
pub proof fn lemma_finished_iff_quit_accepted(server: Seq<char>, lines: Seq<Seq<char>>)
    ensures
        (run(State::New, server, empty_mail(), lines).0 == State::Quit) <==> exists|i: int|
            0 <= i < lines.len() && #[trigger] quit_accepted_at(server, lines, i),
    decreases lines.len(),
{
    if lines.len() > 0 {
        let init = lines.drop_last();
        let n = lines.len() - 1;
        lemma_finished_iff_quit_accepted(server, init);
        let (s0, m0) = run(State::New, server, empty_mail(), init);
        lemma_finished_only_on_quit(s0, server, m0, lines.last());
        assert forall|i: int| 0 <= i < n implies quit_accepted_at(server, lines, i)
            == quit_accepted_at(server, init, i) by {
            assert(lines.take(i) =~= init.take(i));
        }
        assert(lines.take(n) =~= init);
        if run(State::New, server, empty_mail(), lines).0 == State::Quit {
            if s0 == State::Quit {
                let i = choose|i: int| 0 <= i < n && #[trigger] quit_accepted_at(server, init, i);
                assert(quit_accepted_at(server, lines, i));
            } else {
                assert(quit_accepted_at(server, lines, n));
            }
        } else {
            assert forall|i: int| 0 <= i < lines.len() implies !quit_accepted_at(
                server,
                lines,
                i,
            ) by {
                if i < n {
                    assert(!quit_accepted_at(server, init, i));
                }
            }
        }
    }
}

} // verus!
