use bdredis::client::{i64_to_text, ClientReply, ClientRequest, ClientState, Input, InputOutcome};

fn s(x: &str) -> String {
    x.to_string()
}

fn invalid(m: &str) -> InputOutcome {
    InputOutcome::Invalid(s(m))
}

#[test]
fn parse_commands() {
    let c = ClientState::new();
    assert_eq!(c.parse_input("   \n"), InputOutcome::Skip);
    assert_eq!(c.parse_input("ping"), InputOutcome::Command(Input::Ping(None)));
    assert_eq!(c.parse_input("PING abc"), InputOutcome::Command(Input::Ping(Some(s("abc")))));
    assert_eq!(c.parse_input("ping a b"), invalid("Invalid format of PING"));
    assert_eq!(c.parse_input("Set k v\n"), InputOutcome::Command(Input::Store(s("k"), s("v"))));
    assert_eq!(c.parse_input("set k"), invalid("Invalid format of SET"));
    assert_eq!(c.parse_input("get k"), InputOutcome::Command(Input::Fetch(s("k"))));
    assert_eq!(c.parse_input("get"), invalid("Invalid format of GET"));
    assert_eq!(c.parse_input("del"), invalid("Invalid format of DEL"));
    assert_eq!(
        c.parse_input("del a b"),
        InputOutcome::Command(Input::Del(vec![s("a"), s("b")]))
    );
    assert_eq!(c.parse_input("quit now"), InputOutcome::Quit);
    assert_eq!(c.parse_input("frobnicate"), invalid("Invalid input"));
}

#[test]
fn parse_uses_unicode_uppercase() {
    let c = ClientState::new();
    // U+0131 (dotless i) upper-cases to 'I'.
    assert_eq!(c.parse_input("p\u{131}ng"), InputOutcome::Command(Input::Ping(None)));
}

#[test]
fn parse_transaction_commands() {
    let mut c = ClientState::new();
    assert_eq!(c.parse_input("exec"), invalid("Exec can only be used inside transaction"));
    assert_eq!(c.parse_input("watch k"), invalid("Watch can only be used inside transaction"));
    assert_eq!(c.parse_input("multi"), InputOutcome::Command(Input::Multi));
    assert_eq!(c.parse_input("multi x"), invalid("Invalid format of MULTI"));
    assert_eq!(c.on_reply(ClientReply::Multi(4)), vec![s("Transaction start")]);
    assert!(c.in_tx);
    assert_eq!(c.tx_id, 4);
    assert_eq!(c.parse_input("multi"), invalid("Already inside transaction"));
    assert_eq!(c.parse_input("exec"), InputOutcome::Command(Input::Exec));
    assert_eq!(c.parse_input("exec x"), invalid("Invalid format of EXEC"));
    assert_eq!(c.parse_input("watch k"), InputOutcome::Command(Input::Watch(s("k"))));
    assert_eq!(c.parse_input("watch"), invalid("Invalid format of WATCH"));
}

#[test]
fn requests_follow_transaction_state() {
    let mut c = ClientState::new();
    assert!(!c.can_request(&Input::Exec));
    assert!(c.can_request(&Input::Multi));
    assert_eq!(
        c.request(Input::Store(s("k"), s("v"))),
        ClientRequest::Store { key: s("k"), value: s("v") }
    );
    assert_eq!(c.request(Input::Multi), ClientRequest::Multi { key: s("Start tx"), id: -1 });
    c.on_reply(ClientReply::Multi(2));
    assert!(!c.can_request(&Input::Multi));
    assert_eq!(
        c.request(Input::Store(s("k"), s("v"))),
        ClientRequest::StoreInTx { key: s("k"), value: s("v"), id: 2 }
    );
    assert_eq!(c.request(Input::Fetch(s("k"))), ClientRequest::FetchInTx { key: s("k"), id: 2 });
    assert_eq!(c.request(Input::Watch(s("w"))), ClientRequest::Watch { key: s("w"), id: 2 });
    assert_eq!(c.request(Input::Exec), ClientRequest::Exec { key: s("End tx"), id: 2 });
    assert_eq!(c.request(Input::Del(vec![s("a")])), ClientRequest::Del { keys: vec![s("a")] });
    assert_eq!(c.request(Input::Ping(None)), ClientRequest::Ping { payload: None });
}

#[test]
fn printed_replies() {
    let mut c = ClientState::new();
    assert_eq!(c.on_reply(ClientReply::Ping(s("PONG"))), vec![s("PONG")]);
    assert_eq!(c.on_reply(ClientReply::Store(s("OK"))), vec![s("OK")]);
    assert_eq!(c.on_reply(ClientReply::Fetch(None)), vec![s("{nil}")]);
    assert_eq!(c.on_reply(ClientReply::Fetch(Some(s("v")))), vec![s("v")]);
    assert_eq!(c.on_reply(ClientReply::Del(2)), vec![s("2")]);
    c.on_reply(ClientReply::Multi(0));
    assert_eq!(c.on_reply(ClientReply::Store(s("set"))), Vec::<String>::new());
    assert_eq!(c.on_reply(ClientReply::Fetch(Some(s("Ok")))), Vec::<String>::new());
    assert_eq!(c.on_reply(ClientReply::Watch), Vec::<String>::new());
    assert_eq!(
        c.on_reply(ClientReply::Exec(Ok(vec![s("a"), s("b")]))),
        vec![s("Transaction end"), s("a"), s("b")]
    );
    assert!(!c.in_tx);
    assert_eq!(c.tx_id, -1);
    c.on_reply(ClientReply::Multi(1));
    assert_eq!(
        c.on_reply(ClientReply::Exec(Err(()))),
        vec![s("Watch violated"), s("Transaction interrupted")]
    );
    assert!(!c.in_tx);
}

#[test]
fn decimal_text() {
    assert_eq!(i64_to_text(0), "0");
    assert_eq!(i64_to_text(1234), "1234");
    assert_eq!(i64_to_text(-56), "-56");
    assert_eq!(i64_to_text(i64::MIN), i64::MIN.to_string());
    assert_eq!(i64_to_text(i64::MAX), i64::MAX.to_string());
}

#[test]
fn classify_upper_cased_command() {
    let c = ClientState::new();
    let w = vec![s("Get"), s("k")];
    assert_eq!(c.classify("GET", &w), InputOutcome::Command(Input::Fetch(s("k"))));
    // The command word decides, not how the first word was typed.
    assert_eq!(c.classify("get", &w), invalid("Invalid input"));
    assert_eq!(c.classify("SET", &vec![s("set"), s("a"), s("b")]), InputOutcome::Command(Input::Store(s("a"), s("b"))));
    assert_eq!(c.classify("DEL", &vec![s("del")]), invalid("Invalid format of DEL"));
    assert_eq!(c.classify("QUIT", &vec![s("quit")]), InputOutcome::Quit);
    assert_eq!(c.classify("PING", &vec![]), InputOutcome::Skip);
}
