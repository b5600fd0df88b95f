use miner_factory::credentials::{AuthTable, MinerAuth};
use miner_factory::identify::{
    clone_registry, discovery_commands, find_firmware, get_miner_type_from_command,
    get_miner_type_from_command_catch_unwind, panic_message, CommandReply, Evidence, Firmware,
    Header, MinerCommand, PanicPayload, WebReply,
};

fn rpc(command: &str) -> MinerCommand {
    MinerCommand::Rpc { command: command.to_string(), parameters: String::new() }
}

fn web(command: &str) -> MinerCommand {
    MinerCommand::WebApi { command: command.to_string(), parameters: String::new() }
}

fn header(name: &str, value: Option<&str>) -> Header {
    Header { name: name.to_string(), value: value.map(str::to_string) }
}

#[test]
fn every_request_is_sent_once() {
    let registry = vec![
        Firmware { name: "a".into(), stock: false, commands: vec![rpc("version"), web("/")] },
        Firmware { name: "b".into(), stock: true, commands: vec![web("/"), rpc("stats")] },
        Firmware { name: "c".into(), stock: true, commands: vec![rpc("version")] },
    ];
    let commands = discovery_commands(&registry);
    assert_eq!(commands.len(), 3);
    assert!(commands[0].same_as(&rpc("version")));
    assert!(commands[1].same_as(&web("/")));
    assert!(commands[2].same_as(&rpc("stats")));
    assert!(discovery_commands(&Vec::new()).is_empty());
}

#[test]
fn requests_differ_in_transport_command_and_parameters() {
    let with_parameters =
        MinerCommand::Rpc { command: "version".to_string(), parameters: "x".to_string() };
    let other = MinerCommand::Other { request: "version".to_string() };
    assert!(rpc("version").same_as(&rpc("version").clone()));
    assert!(!rpc("version").same_as(&rpc("stats")));
    assert!(!rpc("version").same_as(&web("version")));
    assert!(!rpc("version").same_as(&with_parameters));
    assert!(!rpc("version").same_as(&other));
    assert!(other.same_as(&other.clone()));
}

#[test]
fn a_registry_can_be_copied() {
    let registry =
        vec![Firmware { name: "a".into(), stock: true, commands: vec![rpc("version"), web("/")] }];
    let copy = clone_registry(&registry);
    assert_eq!(copy.len(), 1);
    assert_eq!(copy[0].name, "a");
    assert!(copy[0].stock);
    assert!(copy[0].commands[1].same_as(&web("/")));
}

#[test]
fn rpc_responses_are_shown_in_upper_case() {
    let reply = CommandReply::Rpc { response: Some("{\"Model\": \"straße\"}".to_string()) };
    match reply.evidence() {
        Some(Evidence::Rpc { text }) => assert_eq!(text, "{\"MODEL\": \"STRASSE\"}"),
        _ => panic!("no evidence"),
    }
}

#[test]
fn web_responses_show_three_headers() {
    let reply = WebReply {
        body: "<html>".to_string(),
        headers: vec![
            header("server", Some("nginx")),
            header("www-authenticate", Some("Digest realm=\"antMiner\"")),
            header("www-authenticate", Some("Basic")),
            header("location", Some("https://example.com/")),
            header("algorithm", None),
        ],
        status: 307,
    };
    let response = reply.response();
    assert_eq!(response.body, "<html>");
    assert_eq!(response.auth_header, "Digest realm=\"antMiner\"");
    assert_eq!(response.algo_header, "");
    assert_eq!(response.redirect_header, "https://example.com/");
    assert_eq!(response.status, 307);
}

#[test]
fn headers_that_are_missing_are_empty() {
    let reply = WebReply { body: String::new(), headers: Vec::new(), status: 200 };
    let response = reply.response();
    assert_eq!(response.auth_header, "");
    assert_eq!(response.algo_header, "");
    assert_eq!(response.redirect_header, "");
}

#[test]
fn the_first_firmware_that_recognises_an_answer_is_found() {
    let words = ["LUXMINER", "MODEL", "M30S"];
    let recognises = |index: usize, evidence: &Evidence| match evidence {
        Evidence::Rpc { text } => text.contains(words[index]),
        Evidence::Web { response } => response.status == 307 && index == 2,
    };
    let reply = CommandReply::Rpc { response: Some("\"Model\": \"m30s+\"".to_string()) };
    assert_eq!(get_miner_type_from_command(&reply, 3, &recognises), Some(1));
    assert_eq!(get_miner_type_from_command(&reply, 1, &recognises), None);

    let redirect = WebReply { body: String::new(), headers: Vec::new(), status: 307 };
    let reply = CommandReply::WebApi { response: Some(redirect) };
    assert_eq!(get_miner_type_from_command(&reply, 3, &recognises), Some(2));

    let evidence = Evidence::Rpc { text: "M30S".to_string() };
    assert_eq!(find_firmware(&recognises, 3, &evidence), Some(2));
}

#[test]
fn no_answer_shows_no_firmware() {
    let recognises = |_: usize, _: &Evidence| true;
    let silent_rpc = CommandReply::Rpc { response: None };
    let silent_web = CommandReply::WebApi { response: None };
    assert_eq!(get_miner_type_from_command(&silent_rpc, 3, &recognises), None);
    assert_eq!(get_miner_type_from_command(&silent_web, 3, &recognises), None);
    assert_eq!(get_miner_type_from_command(&CommandReply::Unsupported, 3, &recognises), None);
}

#[test]
fn panics_say_what_they_can() {
    assert_eq!(panic_message(&PanicPayload::Literal("boom")), "boom");
    assert_eq!(panic_message(&PanicPayload::Text("boom 7".to_string())), "boom 7");
    assert_eq!(panic_message(&PanicPayload::Other), "unknown panic");
}

#[test]
fn a_driver_that_panics_recognises_nothing() {
    assert_eq!(get_miner_type_from_command_catch_unwind(Ok(Some(4))), Some(4));
    assert_eq!(get_miner_type_from_command_catch_unwind(Ok(None)), None);
    assert_eq!(get_miner_type_from_command_catch_unwind(Err(PanicPayload::Other)), None);
}

fn auth(username: &str) -> MinerAuth {
    MinerAuth { username: username.to_string(), password: "p".to_string() }
}

#[test]
fn credentials_are_found_by_name() {
    let mut table = AuthTable::new();
    assert_eq!(table.len(), 0);
    table.insert("a".to_string(), auth("one"));
    table.insert("b".to_string(), auth("two"));
    table.insert("a".to_string(), auth("three"));
    assert_eq!(table.len(), 2);
    assert_eq!(table.get(&"a".to_string()).unwrap().username, "three");
    assert_eq!(table.get(&"b".to_string()).unwrap().username, "two");
    assert!(table.get(&"c".to_string()).is_none());
    let copy = table.clone();
    assert_eq!(copy.len(), 2);
    assert_eq!(copy.get(&"b".to_string()).unwrap().password, "p");
}
