use simple_smtp::email::{Mail, MailFSM};

#[test]
fn test_mail() {
    let mut mail = Mail::new();
    mail.add_hello("server");
    assert_eq!(mail.helo, Some(String::from("server")));
    mail.add_mail_from("some@email");
    assert_eq!(mail.mail_from, Some(String::from("some@email")));
    mail.add_rcpt_to("email@some");
    mail.add_rcpt_to("email1@some");
    assert_eq!(mail.rcpt_to, vec!["email@some", "email1@some"]);
    mail.add_data_chunk("abc");
    mail.add_data_chunk("def");
    assert_eq!(mail.data, Some(String::from("abcdef")));
}

#[test]
fn test_mail_fsm() {
    let mut mail_fsm = MailFSM::new(String::from("test.server"));
    assert_eq!(
        mail_fsm.process_line("HELO server\n"),
        Some(String::from("250 test.server\n"))
    );
    assert_eq!(
        mail_fsm.process_line("MAIL FROM: sender@email\n"),
        Some(String::from("250 Ok\n"))
    );
    assert_eq!(
        mail_fsm.process_line("RCPT TO: rcpt1@email\n"),
        Some(String::from("250 Ok\n"))
    );
    assert_eq!(
        mail_fsm.process_line("RCPT TO: rcpt2@email\n"),
        Some(String::from("250 Ok\n"))
    );
    assert_eq!(
        mail_fsm.process_line("DATA\n"),
        Some(String::from("354 End data with <CR><LF>.<CR><LF>\n"))
    );
    assert_eq!(mail_fsm.process_line("qwert\n"), None);
    assert_eq!(
        mail_fsm.process_line(".\n"),
        Some(String::from("250 Ok: queued as 6\n"))
    );
    assert_eq!(
        mail_fsm.process_line("QUIT\n"),
        Some(String::from("221 Bye\n"))
    );
    assert!(mail_fsm.is_finished())
}

fn ok() -> Option<String> {
    Some(String::from("250 Ok\n"))
}

fn unknown() -> Option<String> {
    Some(String::from("Unknown command\n"))
}

fn to_data_phase(fsm: &mut MailFSM) {
    assert_eq!(fsm.process_line("HELO a"), Some(String::from("250 s\n")));
    assert_eq!(fsm.process_line("MAIL FROM: x"), ok());
    assert_eq!(fsm.process_line("RCPT TO: y"), ok());
    assert_eq!(
        fsm.process_line("DATA"),
        Some(String::from("354 End data with <CR><LF>.<CR><LF>\n"))
    );
}

#[test]
fn full_session_fills_envelope_in_order() {
    let mut fsm = MailFSM::new(String::from("s"));
    assert_eq!(fsm.process_line("EHLO  Client.Example \r\n"), Some(String::from("250 s\n")));
    assert!(!fsm.is_finished());
    assert_eq!(fsm.process_line("mail from: <A@B>\n"), ok());
    assert_eq!(fsm.process_line("RCPT TO: one\n"), ok());
    assert_eq!(fsm.process_line("rcpt to:two\n"), ok());
    assert_eq!(fsm.process_line("RCPT TO: three\n"), ok());
    assert_eq!(
        fsm.process_line("DATA\n"),
        Some(String::from("354 End data with <CR><LF>.<CR><LF>\n"))
    );
    assert_eq!(fsm.process_line("line one\n"), None);
    assert_eq!(fsm.process_line("  line two \n"), None);
    assert!(!fsm.is_finished());
    assert_eq!(fsm.process_line(".\n"), Some(String::from("250 Ok: queued as 21\n")));
    assert!(!fsm.is_finished());
    assert_eq!(fsm.process_line("quit\n"), Some(String::from("221 Bye\n")));
    assert!(fsm.is_finished());
    assert_eq!(fsm.mail.helo, Some(String::from("Client.Example")));
    assert_eq!(fsm.mail.mail_from, Some(String::from("<A@B>")));
    assert_eq!(fsm.mail.rcpt_to, vec!["one", "two", "three", ""]);
    assert_eq!(fsm.mail.data, Some(String::from("line one\n  line two \n")));
}

#[test]
fn two_recipients_are_kept_in_order() {
    let mut fsm = MailFSM::new(String::from("s"));
    fsm.process_line("HELO a");
    fsm.process_line("MAIL FROM: x");
    assert_eq!(fsm.process_line("RCPT TO: first"), ok());
    assert_eq!(fsm.process_line("RCPT TO: second"), ok());
    assert_eq!(fsm.process_line("RCPT TO: first"), ok());
    assert_eq!(fsm.mail.rcpt_to, vec!["first", "second", "first"]);
}

#[test]
fn mail_from_before_helo_is_unknown() {
    let mut fsm = MailFSM::new(String::from("s"));
    assert_eq!(fsm.process_line("MAIL FROM: x\n"), unknown());
    assert_eq!(fsm.mail.mail_from, None);
    assert_eq!(fsm.mail.helo, None);
    assert_eq!(fsm.process_line("HELO a\n"), Some(String::from("250 s\n")));
    assert_eq!(fsm.mail.helo, Some(String::from("a")));
}

#[test]
fn out_of_order_commands_change_nothing() {
    let mut fsm = MailFSM::new(String::from("s"));
    fsm.process_line("HELO a");
    assert_eq!(fsm.process_line("HELO b"), unknown());
    assert_eq!(fsm.process_line("DATA"), unknown());
    assert_eq!(fsm.process_line("RCPT TO: y"), unknown());
    assert_eq!(fsm.process_line("QUIT"), unknown());
    assert_eq!(fsm.mail.helo, Some(String::from("a")));
    assert!(fsm.mail.rcpt_to.is_empty());
    assert_eq!(fsm.process_line("MAIL FROM: x"), ok());
    assert_eq!(fsm.process_line("MAIL FROM: z"), unknown());
    assert_eq!(fsm.mail.mail_from, Some(String::from("x")));
    assert_eq!(fsm.process_line("DATA"), unknown());
}

#[test]
fn queued_id_is_body_length() {
    let mut fsm = MailFSM::new(String::from("s"));
    to_data_phase(&mut fsm);
    assert_eq!(fsm.process_line("ab"), None);
    assert_eq!(fsm.process_line("cd"), None);
    assert_eq!(fsm.process_line("."), Some(String::from("250 Ok: queued as 4\n")));
    assert_eq!(fsm.mail.data, Some(String::from("abcd")));
}

#[test]
fn queued_id_without_body_is_zero() {
    let mut fsm = MailFSM::new(String::from("s"));
    to_data_phase(&mut fsm);
    assert_eq!(fsm.process_line(" . \n"), Some(String::from("250 Ok: queued as 0\n")));
    assert_eq!(fsm.mail.data, None);
}

#[test]
fn queued_id_counts_bytes_and_repeats() {
    let mut fsm = MailFSM::new(String::from("s"));
    to_data_phase(&mut fsm);
    assert_eq!(fsm.process_line("\u{e9}\n"), None);
    assert_eq!(fsm.process_line(".\n"), Some(String::from("250 Ok: queued as 3\n")));
    assert_eq!(fsm.process_line("0123456789"), None);
    assert_eq!(fsm.process_line("."), Some(String::from("250 Ok: queued as 13\n")));
    assert!(!fsm.is_finished());
}

#[test]
fn greeting_is_repeatable() {
    let fsm = MailFSM::new(String::from("my.server"));
    let first = fsm.greeting();
    let second = fsm.greeting();
    assert_eq!(first, String::from("220 my.server simple-smtp\n"));
    assert_eq!(first, second);
    let mut fsm = fsm;
    assert_eq!(fsm.process_line("HELO a"), Some(String::from("250 my.server\n")));
    assert_eq!(fsm.greeting(), first);
}

#[test]
fn scenario_session() {
    let mut fsm = MailFSM::new(String::from("srv"));
    let lines = ["HELO a", "MAIL FROM: x", "RCPT TO: y", "DATA", "hi", ".", "QUIT"];
    let expected = [
        Some(String::from("250 srv\n")),
        ok(),
        ok(),
        Some(String::from("354 End data with <CR><LF>.<CR><LF>\n")),
        None,
        Some(String::from("250 Ok: queued as 2\n")),
        Some(String::from("221 Bye\n")),
    ];
    for i in 0..lines.len() {
        assert!(!fsm.is_finished());
        assert_eq!(fsm.process_line(lines[i]), expected[i]);
    }
    assert!(fsm.is_finished());
}

#[test]
fn data_argument_goes_to_recipients() {
    let mut fsm = MailFSM::new(String::from("s"));
    fsm.process_line("HELO a");
    fsm.process_line("MAIL FROM: x");
    fsm.process_line("RCPT TO: y");
    fsm.process_line("data extra");
    assert_eq!(fsm.mail.rcpt_to, vec!["y", "extra"]);
}

#[test]
fn finished_machine_answers_unknown() {
    let mut fsm = MailFSM::new(String::from("s"));
    to_data_phase(&mut fsm);
    assert_eq!(fsm.process_line("QUIT"), Some(String::from("221 Bye\n")));
    assert_eq!(fsm.process_line("QUIT"), unknown());
    assert_eq!(fsm.process_line("more"), unknown());
    assert!(fsm.is_finished());
    assert_eq!(fsm.mail.data, None);
}

#[test]
fn envelope_as_text() {
    let mut mail = Mail::new();
    assert_eq!(mail.to_text(), "\n");
    mail.add_hello(" h ");
    mail.add_mail_from("f");
    mail.add_rcpt_to("r1");
    mail.add_rcpt_to("r2");
    mail.add_data_chunk("body\n");
    assert_eq!(
        mail.to_text(),
        "HELO h\nMAIL FROM: f\nRCPT TO: r1\nRCPT TO: r2\nDATA \nbody\n\n\n"
    );
}
