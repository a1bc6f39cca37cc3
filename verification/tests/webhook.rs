use odoo_mailer::args::Webhook;
use odoo_mailer::cmd::webhook::{
    address, cmd, digest, domain, get_header, is_shallow, read_document, screen, settle,
    update_for, Account, Header, Reply, Request, TableUpdate, MAX_NESTING, TOO_DEEP,
};
use odoo_mailer::config::Config;
use odoo_mailer::utils::TableWrite;

fn config() -> Config {
    Config {
        host: String::from("odoo.example.com"),
        token: String::from("s3cret"),
        aliases: String::from("/tmp/aliases"),
        transport: String::from("/tmp/transport"),
        socket: String::from("/run/lmtp.sock"),
    }
}

fn args() -> Webhook {
    Webhook { port: 8000, prefix: String::from("/aliases"), ready_fd: None }
}

fn header(field: &str, value: &str) -> Header {
    Header { field: String::from(field), value: String::from(value) }
}

fn good_request() -> Request {
    Request {
        post: true,
        url: String::from("/aliases"),
        headers: vec![
            header("Host", "localhost"),
            header("Content-Type", "application/yaml"),
            header("X-Mail-Token", "s3cret"),
        ],
    }
}

fn account(name: &str, aliases: &[&str]) -> Account {
    Account {
        name: String::from(name),
        aliases: aliases.iter().map(|a| String::from(*a)).collect(),
    }
}

#[test]
fn document_for_bob_fills_both_tables() {
    let body = "{\"bob@example.com\": [\"alias1\", \"alias2\"]}";
    let reply = cmd(&config(), &args(), &good_request(), body);
    let expected = TableUpdate {
        aliases: b"alias1@example.com bob@example.com\nalias2@example.com bob@example.com".to_vec(),
        transport: b"bob@example.com lmtp:unix:/run/lmtp.sock".to_vec(),
    };
    assert_eq!(reply, Reply::Updated(expected));
    assert_eq!(reply.status(), Some(200));
    assert_eq!(
        reply.writes(&config()),
        vec![
            TableWrite {
                path: String::from("/tmp/aliases"),
                content: b"alias1@example.com bob@example.com\nalias2@example.com bob@example.com"
                    .to_vec()
            },
            TableWrite {
                path: String::from("/tmp/transport"),
                content: b"bob@example.com lmtp:unix:/run/lmtp.sock".to_vec()
            },
        ]
    );
}

#[test]
fn same_document_twice_gives_the_same_tables() {
    let body = "zoe@b.org: [z]\nann@a.org: [a1, a2]\nmax@c.org: []\n";
    let first = cmd(&config(), &args(), &good_request(), body);
    let second = cmd(&config(), &args(), &good_request(), body);
    assert_eq!(first, second);
    assert!(matches!(first, Reply::Updated(_)));
}

#[test]
fn accounts_come_in_the_order_of_their_names() {
    let reply = digest(&config(), "zoe@b.org: [z]\nann@a.org: [a1, a2]\n");
    let expected = TableUpdate {
        aliases: b"a1@a.org ann@a.org\na2@a.org ann@a.org\nz@b.org zoe@b.org".to_vec(),
        transport: b"ann@a.org lmtp:unix:/run/lmtp.sock\nzoe@b.org lmtp:unix:/run/lmtp.sock"
            .to_vec(),
    };
    assert_eq!(reply, Reply::Updated(expected));
}

#[test]
fn empty_document_empties_both_tables() {
    let reply = digest(&config(), "{}");
    assert_eq!(reply, Reply::Updated(TableUpdate { aliases: Vec::new(), transport: Vec::new() }));
    assert_eq!(reply.writes(&config()).len(), 2);
}

#[test]
fn malformed_document_leaves_the_tables_alone() {
    for body in ["- just\n- a list\n", "bob@example.com: alias", "a: [b\n", "plain text"] {
        let reply = cmd(&config(), &args(), &good_request(), body);
        assert_eq!(reply, Reply::Malformed);
        assert_eq!(reply.status(), Some(200));
        assert!(reply.writes(&config()).is_empty());
    }
}

#[test]
fn wrong_method_or_path_is_not_found() {
    let mut get = good_request();
    get.post = false;
    assert_eq!(screen(&config(), &args(), &get), Some(Reply::NotFound));
    let mut elsewhere = good_request();
    elsewhere.url = String::from("/aliases/");
    let reply = cmd(&config(), &args(), &elsewhere, "a@b: [c]");
    assert_eq!(reply, Reply::NotFound);
    assert_eq!(reply.status(), Some(404));
    assert!(reply.writes(&config()).is_empty());
}

#[test]
fn missing_or_other_content_type_is_ignored() {
    let mut bare = good_request();
    bare.headers.remove(1);
    assert_eq!(screen(&config(), &args(), &bare), Some(Reply::Ignored));
    let mut json = good_request();
    json.headers[1] = header("content-type", "application/json");
    let reply = cmd(&config(), &args(), &json, "a@b: [c]");
    assert_eq!(reply, Reply::Ignored);
    assert_eq!(reply.status(), None);
    assert!(reply.writes(&config()).is_empty());
    let mut upper = good_request();
    upper.headers[1] = header("content-type", "Application/YAML");
    assert_eq!(screen(&config(), &args(), &upper), Some(Reply::Ignored));
}

#[test]
fn missing_or_wrong_token_is_unauthorized() {
    let mut anonymous = good_request();
    anonymous.headers.pop();
    assert_eq!(screen(&config(), &args(), &anonymous), Some(Reply::Unauthorized));
    let mut wrong = good_request();
    wrong.headers[2] = header("x-mail-token", "S3cret");
    let reply = cmd(&config(), &args(), &wrong, "a@b: [c]");
    assert_eq!(reply, Reply::Unauthorized);
    assert_eq!(reply.status(), Some(401));
    assert!(reply.writes(&config()).is_empty());
}

#[test]
fn content_type_is_looked_at_before_the_token() {
    let neither = Request { post: true, url: String::from("/aliases"), headers: Vec::new() };
    assert_eq!(screen(&config(), &args(), &neither), Some(Reply::Ignored));
}

#[test]
fn good_request_is_let_through() {
    assert_eq!(screen(&config(), &args(), &good_request()), None);
}

#[test]
fn header_names_match_in_any_case_and_the_first_wins() {
    let headers =
        vec![header("X-Other", "0"), header("x-MAIL-token", "one"), header("X-Mail-Token", "two")];
    assert_eq!(get_header(&headers, "x-mail-token"), Some("one"));
    assert_eq!(get_header(&headers, "X-OTHER"), Some("0"));
    assert_eq!(get_header(&headers, "x-mail"), None);
    assert_eq!(get_header(&[], "x-mail-token"), None);
}

#[test]
fn domain_is_what_stands_between_the_first_two_at_signs() {
    assert_eq!(domain(b"bob@example.com"), b"example.com");
    assert_eq!(domain(b"bob"), b"");
    assert_eq!(domain(b"bob@"), b"");
    assert_eq!(domain(b"a@b@c"), b"b");
    assert_eq!(domain(b"@x"), b"x");
}

#[test]
fn account_without_domain_or_aliases() {
    let document = vec![
        account("solo", &["s"]),
        account("idle@x.org", &[]),
        account("busy@y.org", &["b"]),
    ];
    let update = update_for(&config(), &document);
    assert_eq!(update.aliases, b"s@ solo\n\nb@y.org busy@y.org".to_vec());
    assert_eq!(
        update.transport,
        [
            &b"solo lmtp:unix:/run/lmtp.sock\n"[..],
            &b"idle@x.org lmtp:unix:/run/lmtp.sock\n"[..],
            &b"busy@y.org lmtp:unix:/run/lmtp.sock"[..],
        ]
        .concat()
    );
}

#[test]
fn listen_address_holds_the_port() {
    assert_eq!(address(&args()), "0.0.0.0:8000");
    let other = Webhook { port: 65535, prefix: String::from("/"), ready_fd: Some(3) };
    assert_eq!(address(&other), "0.0.0.0:65535");
}

#[test]
fn settling_gives_tables_for_a_document_and_none_without() {
    let document = vec![account("bob@example.com", &["b"])];
    assert_eq!(
        settle(&config(), Some(&document)),
        Reply::Updated(TableUpdate {
            aliases: b"b@example.com bob@example.com".to_vec(),
            transport: b"bob@example.com lmtp:unix:/run/lmtp.sock".to_vec(),
        })
    );
    assert_eq!(settle(&config(), None), Reply::Malformed);
}

#[test]
fn two_accounts_of_one_domain() {
    let reply = digest(&config(), "a@x: [one]\nb@x: [two]\n");
    assert_eq!(
        reply,
        Reply::Updated(TableUpdate {
            aliases: b"one@x a@x\ntwo@x b@x".to_vec(),
            transport: b"a@x lmtp:unix:/run/lmtp.sock\nb@x lmtp:unix:/run/lmtp.sock".to_vec(),
        })
    );
}

fn ladder(steps: usize, brackets: usize) -> String {
    let mut body = String::new();
    for i in 0..steps {
        body.push_str(&" ".repeat(i));
        body.push_str("a:\n");
        body.push_str(&" ".repeat(i));
        body.push_str("-\n");
    }
    for _ in 0..brackets {
        body.push_str(&" ".repeat(steps));
        body.push_str("[a:\n");
    }
    body
}

#[test]
fn nesting_is_measured_by_leading_signs_and_brackets() {
    assert!(is_shallow(b""));
    assert!(is_shallow(b"bob@example.com: [alias1, alias2]\n"));
    assert!(is_shallow("x".repeat(100_000).as_bytes()));
    assert!(is_shallow(format!("a: {}", "x - ? : ".repeat(10_000)).as_bytes()));
    assert!(is_shallow(format!("{}x", " ".repeat(MAX_NESTING / 2 - 1)).as_bytes()));
    assert!(!is_shallow(format!("{}x", " ".repeat(MAX_NESTING / 2)).as_bytes()));
    assert!(!is_shallow(format!("ok: 1\n{}x\nmore: 2\n", "- ".repeat(MAX_NESTING / 4)).as_bytes()));
    assert!(is_shallow("[\n".repeat(5000).as_bytes()));
    assert!(is_shallow(format!("{}{}x", "[\n".repeat(5000), " ".repeat(24)).as_bytes()));
    assert!(!is_shallow(format!("{}{}x", "{\n".repeat(255), " ".repeat(25)).as_bytes()));
    assert!(is_shallow(format!("{}{}x", "{\n".repeat(254), " ".repeat(25)).as_bytes()));
    assert!(is_shallow(format!("{}\r\n- x\r\n", "a".repeat(600)).as_bytes()));
    assert!(!is_shallow(format!("{}\r- x\n", "a".repeat(600)).as_bytes()));
}

#[test]
fn body_that_nests_too_deep_never_reaches_the_reader() {
    for body in ["- ".repeat(100_000), ladder(5_000, 0), ladder(280, 0), ladder(25, 255)] {
        assert!(!is_shallow(body.as_bytes()));
        assert_eq!(read_document(&body), Err(String::from(TOO_DEEP)));
        assert_eq!(digest(&config(), &body), Reply::Malformed);
        assert_eq!(cmd(&config(), &args(), &good_request(), &body), Reply::Malformed);
    }
}

#[test]
fn deepest_bodies_that_are_let_through_are_read_safely() {
    for body in [ladder(279, 0), ladder(24, 255), ladder(24, 400), "- ".repeat(139)] {
        assert!(is_shallow(body.as_bytes()));
        let reason = read_document(&body).unwrap_err();
        assert_ne!(reason, TOO_DEEP);
        assert_eq!(digest(&config(), &body), Reply::Malformed);
    }
}

#[test]
fn long_line_of_aliases_is_applied() {
    let aliases: Vec<String> = (1..=40).map(|i| format!("a{:02}", i)).collect();
    let body = format!("bob@example.com: [{}]", aliases.join(", "));
    assert!(body.len() > 200);
    let lines: Vec<String> =
        aliases.iter().map(|a| format!("{}@example.com bob@example.com", a)).collect();
    let expected = TableUpdate {
        aliases: lines.join("\n").into_bytes(),
        transport: b"bob@example.com lmtp:unix:/run/lmtp.sock".to_vec(),
    };
    assert_eq!(cmd(&config(), &args(), &good_request(), &body), Reply::Updated(expected));
}

#[test]
fn large_documents_in_every_style_are_applied() {
    let names: Vec<String> = (0..300).map(|i| format!("user{:03}@example.com", i)).collect();
    let block: String = names.iter().map(|n| format!("{}:\n  - x\n  - y\n", n)).collect();
    let listed: String = names.iter().map(|n| format!("{}: [x, y]\n", n)).collect();
    let inner: Vec<String> = names
        .iter()
        .map(|n| format!("    \"{}\": [\n        \"x\",\n        \"y\"\n    ]", n))
        .collect();
    let pretty = format!("{{\n{}\n}}", inner.join(",\n"));
    let pairs: Vec<String> = names.iter().map(|n| format!("\"{}\":[\"x\",\"y\"]", n)).collect();
    let compact = format!("{{{}}}", pairs.join(","));
    let expected = read_document(&block).unwrap();
    assert_eq!(expected.len(), 300);
    assert_eq!(expected[299], account("user299@example.com", &["x", "y"]));
    for body in [listed, pretty, compact] {
        assert!(is_shallow(body.as_bytes()));
        assert_eq!(read_document(&body).as_ref(), Ok(&expected));
        assert!(matches!(digest(&config(), &body), Reply::Updated(_)));
    }
}

#[test]
fn reader_says_why_a_body_is_no_document() {
    let reason = read_document("- just\n- a list\n").unwrap_err();
    assert!(!reason.is_empty());
    assert_ne!(reason, TOO_DEEP);
    assert_eq!(
        read_document("bob@example.com: [b]"),
        Ok(vec![account("bob@example.com", &["b"])])
    );
}
