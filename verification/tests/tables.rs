use odoo_mailer::args::{default_config, default_prefix, Daemon, DEFAULT_PORT};
use odoo_mailer::cmd::{aliases, daemon, pipe, transport};
use odoo_mailer::config::{default_aliases, default_socket, default_transport, Config};
use odoo_mailer::errors::HttpError;
use odoo_mailer::text;
use odoo_mailer::utils::{
    conclude, endpoint, rebuilt, transport_entry, Exit, MapType, RebuildError, Response,
    TableWrite,
};

fn config() -> Config {
    Config {
        host: String::from("odoo.example.com"),
        token: String::from("s3cret"),
        aliases: String::from("/tmp/aliases"),
        transport: String::from("/tmp/transport"),
        socket: String::from("/run/lmtp.sock"),
    }
}

fn response(status: u16, body: &str) -> Response {
    Response { status, body: String::from(body) }
}

#[test]
fn error_codes_fall_into_three_buckets() {
    assert_eq!(HttpError::new(200, "fine").code(), 200);
    assert_eq!(HttpError::new(401, "denied").code(), 421);
    assert_eq!(HttpError::new(500, "broken").code(), 432);
    assert_eq!(HttpError::new(404, "lost").code(), 432);
    assert_eq!(HttpError::new(0, "").code(), 432);
    assert_eq!(HttpError::new(421, "").code(), 432);
}

#[test]
fn error_text_leads_with_the_code() {
    let e = HttpError::new(401, "Unauthorized token");
    assert_eq!(e.description(), "Unauthorized token");
    assert_eq!(e.to_string(), "421 Unauthorized token");
    assert_eq!(HttpError::new(503, "").to_string(), "432 ");
    assert_eq!(HttpError::new(200, "odd").to_string(), "200 odd");
}

#[test]
fn success_is_any_status_from_200_to_299() {
    assert!(!response(199, "").ok());
    assert!(response(200, "").ok());
    assert!(response(299, "").ok());
    assert!(!response(300, "").ok());
    assert!(!response(500, "").ok());
}

#[test]
fn answer_is_the_body_or_the_error_of_the_status() {
    assert_eq!(response(200, "text").into_result(), Ok(String::from("text")));
    assert_eq!(response(401, "denied").into_result(), Err(HttpError::new(401, "denied")));
    assert_eq!(MapType::Aliases.get(response(204, "")), Ok(String::new()));
    assert_eq!(
        MapType::Transport.get(response(502, "bad gateway")),
        Err(HttpError::new(500, "bad gateway"))
    );
}

#[test]
fn tables_are_fetched_from_their_own_addresses() {
    assert_eq!(MapType::Aliases.url(&config()), "https://odoo.example.com/mail_delivery/aliases");
    assert_eq!(
        MapType::Transport.url(&config()),
        "https://odoo.example.com/mail_delivery/transport"
    );
    assert_eq!(endpoint(&config(), pipe::SERVICE), "https://odoo.example.com/mail_delivery/pipe");
}

#[test]
fn write_names_the_table_file_and_the_whole_content() {
    assert_eq!(
        MapType::Aliases.write(&config(), b"a b\nc d"),
        TableWrite { path: String::from("/tmp/aliases"), content: b"a b\nc d".to_vec() }
    );
    assert_eq!(
        MapType::Transport.write(&config(), b""),
        TableWrite { path: String::from("/tmp/transport"), content: Vec::new() }
    );
}

#[test]
fn alias_refresh_writes_what_came() {
    assert_eq!(
        aliases::cmd(&config(), response(200, "x@y z@y\n")),
        Some(TableWrite { path: String::from("/tmp/aliases"), content: b"x@y z@y\n".to_vec() })
    );
    assert_eq!(aliases::cmd(&config(), response(401, "denied")), None);
}

#[test]
fn transport_refresh_writes_one_line_with_the_socket() {
    assert_eq!(
        transport::cmd(&config(), response(200, "example.com")),
        Some(TableWrite {
            path: String::from("/tmp/transport"),
            content: b"example.com lmtp:unix:/run/lmtp.sock".to_vec()
        })
    );
    assert_eq!(transport::cmd(&config(), response(500, "broken")), None);
    assert_eq!(transport_entry(b"", ""), b" lmtp:unix:".to_vec());
}

#[test]
fn pipe_ends_with_the_text_or_the_error() {
    assert_eq!(pipe::cmd(response(200, "queued as 42")), Ok(Some(String::from("queued as 42"))));
    assert_eq!(pipe::cmd(response(401, "no")), Err(HttpError::new(401, "no")));
    assert_eq!(pipe::cmd(response(500, "boom")).unwrap_err().to_string(), "432 boom");
}

#[test]
fn daemon_hands_its_port_and_path_to_the_webhook() {
    let (webhook, lmtp) =
        daemon::cmd(Daemon { port: 9001, prefix: String::from("/hook"), ready_fd: Some(5) });
    assert_eq!(webhook.port, 9001);
    assert_eq!(webhook.prefix, "/hook");
    assert_eq!(webhook.ready_fd, None);
    assert_eq!(lmtp.ready_fd, None);
}

#[test]
fn defaults_are_the_postfix_paths() {
    assert_eq!(default_aliases(), "/etc/postfix/virtual_alias_odoo");
    assert_eq!(default_transport(), "/etc/postfix/transport_odoo");
    assert_eq!(default_socket(), "/var/spool/postfix/private/odoo-lmtp");
    assert_eq!(default_config(), "/etc/postfix/odoo-mailer.yml");
    assert_eq!(default_prefix(), "/aliases");
    assert_eq!(DEFAULT_PORT, 8000);
}

#[test]
fn decimal_has_no_leading_zeros() {
    assert_eq!(text::to_decimal(0), "0");
    assert_eq!(text::to_decimal(9), "9");
    assert_eq!(text::to_decimal(10), "10");
    assert_eq!(text::to_decimal(432), "432");
    assert_eq!(text::to_decimal(65535), "65535");
}

#[test]
fn trim_cuts_every_kind_of_white_space() {
    assert_eq!(text::trim(b"  a b \r\n"), b"a b");
    assert_eq!(text::trim(b"\t\n\x0b\x0c\r x"), b"x");
    assert_eq!(text::trim(b""), b"");
    assert_eq!(text::trim(b" \r\n"), b"");
    let all = "\u{85}\u{a0}\u{1680}\u{2000}\u{200a}\u{2028}\u{2029}\u{202f}\u{205f}\u{3000}";
    let wrapped = format!("{}word{}", all, all);
    assert_eq!(text::trim(wrapped.as_bytes()), b"word");
    assert_eq!(text::trim(wrapped.as_bytes()), wrapped.trim().as_bytes());
}

#[test]
fn trim_leaves_other_characters_alone() {
    for s in ["\u{200b}x\u{200b}", "\u{e9}t\u{e9}", "\u{2060}", "\u{180e}a", "\u{feff}b"] {
        assert_eq!(text::trim(s.as_bytes()), s.as_bytes());
        assert_eq!(text::trim(s.as_bytes()), s.trim().as_bytes());
    }
    assert_eq!(text::trim(b"\xc2"), b"\xc2");
    assert_eq!(text::trim(b"\xe2\x80"), b"\xe2\x80");
}

#[test]
fn texts_are_cut_at_the_first_separator() {
    assert_eq!(text::find(b"a b c", b' '), 1);
    assert_eq!(text::find(b"abc", b' '), 3);
    assert_eq!(text::first_field(b"a b c", b' '), b"a");
    assert_eq!(text::first_field(b" a", b' '), b"");
    assert_eq!(text::after_first(b"a b c", b' '), Some(&b"b c"[..]));
    assert_eq!(text::after_first(b"a ", b' '), Some(&b""[..]));
    assert_eq!(text::after_first(b"abc", b' '), None);
}

#[test]
fn texts_are_compared_with_and_without_case() {
    assert!(text::eq(b"abc", b"abc"));
    assert!(!text::eq(b"abc", b"abC"));
    assert!(!text::eq(b"abc", b"ab"));
    assert!(text::eq_ignore_case(b"LhLo", b"lhlo"));
    assert!(!text::eq_ignore_case(b"[", b"{"));
    assert!(!text::eq_ignore_case(b"@", b"`"));
    assert!(text::same_text("caf\u{e9}", "caf\u{e9}"));
    assert!(!text::same_text("cafe", "caf\u{e9}"));
    assert!(text::same_text_ignoring_case("Content-Type", "content-type"));
    assert!(!text::same_text_ignoring_case("\u{c9}", "\u{e9}"));
    assert!(text::has_suffix(b"x\r\n", b"\r\n"));
    assert!(!text::has_suffix(b"\n", b"\r\n"));
    assert!(text::has_suffix(b"x", b""));
    assert_eq!(text::fold_byte(b'Z'), b'z');
    assert_eq!(text::fold_byte(b'['), b'[');
}

#[test]
fn program_ends_with_a_status_line_or_an_error() {
    assert_eq!(
        conclude(Ok(Some(String::from("queued")))),
        Exit { code: 0, out: Some(String::from("100 queued")), err: None }
    );
    assert_eq!(conclude(Ok(None)), Exit { code: 0, out: None, err: None });
    assert_eq!(
        conclude(Err(HttpError::new(401, "denied").to_string())),
        Exit { code: 1, out: None, err: Some(String::from("421 denied")) }
    );
}

#[test]
fn rebuild_succeeds_only_with_status_zero() {
    assert_eq!(rebuilt(Some(0)), Ok(()));
    assert_eq!(rebuilt(Some(1)), Err(RebuildError::Status(1)));
    assert_eq!(rebuilt(Some(-1)), Err(RebuildError::Status(-1)));
    assert_eq!(rebuilt(Some(255)), Err(RebuildError::Status(255)));
    assert_eq!(rebuilt(None), Err(RebuildError::Signal));
}

#[test]
fn failed_rebuild_has_a_text() {
    assert_eq!(RebuildError::Status(75).to_string(), "postmap failed with status 75");
    assert_eq!(RebuildError::Status(-3).to_string(), "postmap failed with status -3");
    assert_eq!(RebuildError::Signal.to_string(), "postmap was ended by a signal");
}

#[test]
fn signed_decimal_carries_its_sign() {
    assert_eq!(text::to_signed_decimal(0), "0");
    assert_eq!(text::to_signed_decimal(42), "42");
    assert_eq!(text::to_signed_decimal(-7), "-7");
    assert_eq!(text::to_signed_decimal(i32::MAX), "2147483647");
    assert_eq!(text::to_signed_decimal(i32::MIN), "-2147483648");
}
