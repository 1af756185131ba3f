use base64::engine::general_purpose::STANDARD;
use base64::Engine;
use flextunnel::endpoint::EndpointId;
use flextunnel::prompt::{
    endpoint_id_answer, fill_answer, fill_client_config, first_question, prompt_endpoint_id,
    prompt_optional_port, ClientConfig, FillStep, Question,
};
use flextunnel::secret::{
    generate_iroh_key, iroh_key_of, iroh_key_output, resolve_secret_key, secret_to_endpoint_id,
    show_iroh_id, write_secret_to_output, KeyOutput, WriteMode,
};

/// The endpoint id of the secret key of 32 zero bytes.
const ZERO_ID: &str = "3b6a27bcceb6a42d62a3a8d02a6f0d73653215771de243a63ac048a18b59da29";

const ZERO_SECRET: &str = "AAAAAAAAAAAAAAAAAAAAAAAAAAAAAAAAAAAAAAAAAAA=";

fn fields(json: &str) -> Vec<(String, String)> {
    let value: serde_json::Value = serde_json::from_str(json).unwrap();
    value
        .as_object()
        .unwrap()
        .iter()
        .map(|(k, v)| (k.clone(), v.as_str().unwrap().to_string()))
        .collect()
}

fn pair(k: &str, v: &str) -> (String, String) {
    (k.to_string(), v.to_string())
}

#[test]
fn ids_are_written_in_hexadecimal() {
    assert_eq!(secret_to_endpoint_id(&[0; 32]).to_text(), ZERO_ID);
    let mut bytes = [0u8; 32];
    bytes[0] = 0x0a;
    bytes[31] = 0xff;
    let text = EndpointId { bytes }.to_text();
    assert!(text.starts_with("0a00") && text.ends_with("00ff"));
    assert_eq!(text.len(), 64);
    // The same text that iroh writes.
    let iroh_id = iroh::SecretKey::from_bytes(&[7; 32]).public();
    assert_eq!(secret_to_endpoint_id(&[7; 32]).to_text(), iroh_id.to_string());
}

#[test]
fn a_generated_key_is_random_and_complete() {
    let mut secrets = Vec::new();
    for _ in 0..2 {
        let KeyOutput::Print(text) = generate_iroh_key("now", "-", false) else { panic!() };
        let lines: Vec<&str> = text.lines().collect();
        assert_eq!(lines.len(), 3);
        assert_eq!(lines[0], "# created: now");
        let bytes = STANDARD.decode(lines[2]).unwrap();
        let secret: [u8; 32] = bytes.try_into().unwrap();
        let id = secret_to_endpoint_id(&secret).to_text();
        assert_eq!(lines[1], format!("# public key: {id}"));
        secrets.push(secret);
    }
    assert_ne!(secrets[0], secrets[1]);
}

#[test]
fn a_key_file_is_printed_or_saved() {
    let contents =
        format!("# created: 2026-01-02T03:04:05Z\n# public key: {ZERO_ID}\n{ZERO_SECRET}\n");
    let created = "2026-01-02T03:04:05Z";
    assert_eq!(
        iroh_key_of(&[0; 32], created, "-", false),
        KeyOutput::Print(contents.clone())
    );
    assert_eq!(
        iroh_key_of(&[0; 32], created, "key", false),
        KeyOutput::Save { contents: contents.clone(), public_info: format!("EndpointId: {ZERO_ID}") }
    );
    match iroh_key_of(&[0; 32], created, "-", true) {
        KeyOutput::Print(text) => {
            assert!(text.ends_with("}\n"));
            let got = fields(&text);
            assert_eq!(got.len(), 3);
            assert!(got.contains(&pair("created", created)));
            assert!(got.contains(&pair("endpoint_id", ZERO_ID)));
            assert!(got.contains(&pair("secret", ZERO_SECRET)));
        }
        other => panic!("{other:?}"),
    }
    match iroh_key_of(&[0; 32], created, "a\"b", true) {
        KeyOutput::Save { contents: saved, public_info } => {
            assert_eq!(saved, contents);
            let got = fields(&public_info);
            assert_eq!(got.len(), 3);
            assert!(got.contains(&pair("secret_file", "a\"b")));
        }
        other => panic!("{other:?}"),
    }
    assert_eq!(
        iroh_key_output("c", "i", "s", "-", false),
        KeyOutput::Print("# created: c\n# public key: i\ns\n".to_string())
    );
}

#[test]
fn only_force_overwrites_a_file() {
    assert_eq!(write_secret_to_output("-", true, false), Ok(WriteMode::Stdout));
    assert_eq!(write_secret_to_output("k", false, false), Ok(WriteMode::CreateNew));
    assert_eq!(write_secret_to_output("k", false, true), Ok(WriteMode::Overwrite));
    assert_eq!(write_secret_to_output("k", true, true), Ok(WriteMode::Overwrite));
    assert_eq!(
        write_secret_to_output("k", true, false),
        Err("File already exists: k. Use --force to overwrite.".to_string())
    );
}

#[test]
fn a_server_needs_a_key_file() {
    assert_eq!(resolve_secret_key(Some("k".to_string())), Ok("k".to_string()));
    let message = resolve_secret_key(None).unwrap_err();
    let lines: Vec<&str> = message.lines().collect();
    assert_eq!(
        lines,
        vec![
            "No secret key configured.",
            "Generate one with: flextunnel generate-iroh-key -o <FILE>",
            "Then pass --secret-file <FILE> or set secret_file in the config.",
        ]
    );
}

#[test]
fn the_id_is_shown_as_text_or_json() {
    assert_eq!(show_iroh_id(&[0; 32], false), ZERO_ID);
    assert_eq!(show_iroh_id(&[0; 32], true), format!("{{\"endpoint_id\":\"{ZERO_ID}\"}}"));
}

#[test]
fn endpoint_id_answers() {
    assert_eq!(prompt_endpoint_id("  \n"), Err("A value is required.".to_string()));
    let id = prompt_endpoint_id(&format!(" {ZERO_ID}\r\n")).unwrap();
    assert_eq!(id.to_text(), ZERO_ID);
    assert_eq!(prompt_endpoint_id(&id.to_text()), Ok(id));
    let e = prompt_endpoint_id("nonsense").unwrap_err();
    assert!(e.starts_with("Invalid EndpointId: "));
    assert!(e.len() > "Invalid EndpointId: ".len());
    assert_eq!(
        endpoint_id_answer("x", Err("bad".to_string())),
        Err("Invalid EndpointId: bad".to_string())
    );
    assert_eq!(endpoint_id_answer("x", Ok(id)), Ok(id));
    assert_eq!(endpoint_id_answer("", Ok(id)), Err("A value is required.".to_string()));
}

#[test]
fn optional_port_answers() {
    assert_eq!(prompt_optional_port(" \n"), Ok(None));
    assert_eq!(prompt_optional_port(" 1080 \n"), Ok(Some(1080)));
    assert_eq!(prompt_optional_port("0"), Ok(Some(0)));
    assert_eq!(prompt_optional_port("65535"), Ok(Some(65535)));
    for bad in ["65536", "-1", "http", "1 2"] {
        assert_eq!(
            prompt_optional_port(bad),
            Err("Enter a port number (1-65535) or leave blank.".to_string())
        );
    }
}

#[test]
fn only_missing_values_are_asked_for() {
    let mut cli = ClientConfig { server_node_id: None, socks_port: None, http_port: None };
    assert_eq!(first_question(&cli), Some(Question::ServerId));
    assert_eq!(
        Question::ServerId.text(),
        "Server EndpointId (shown by `flextunnel server start --quick`)"
    );
    assert_eq!(
        fill_client_config(&mut cli, Question::ServerId, "\n"),
        FillStep::Again("A value is required.".to_string())
    );
    assert_eq!(cli.server_node_id, None);
    assert_eq!(
        fill_client_config(&mut cli, Question::ServerId, ZERO_ID),
        FillStep::Ask(Question::SocksPort)
    );
    assert_eq!(cli.server_node_id.as_deref(), Some(ZERO_ID));
    // A blank port is not asked for again.
    assert_eq!(
        fill_client_config(&mut cli, Question::SocksPort, "\n"),
        FillStep::Ask(Question::HttpPort)
    );
    assert_eq!(cli.socks_port, None);
    assert_eq!(
        fill_client_config(&mut cli, Question::HttpPort, "x"),
        FillStep::Again("Enter a port number (1-65535) or leave blank.".to_string())
    );
    assert_eq!(fill_client_config(&mut cli, Question::HttpPort, "8080"), FillStep::Done);
    assert_eq!(cli.http_port, Some(8080));

    let given = ClientConfig {
        server_node_id: Some("s".to_string()),
        socks_port: Some(1),
        http_port: Some(2),
    };
    assert_eq!(first_question(&given), None);
    let mut partly = ClientConfig { server_node_id: None, socks_port: Some(1), http_port: None };
    assert_eq!(
        fill_answer(&mut partly, Question::ServerId, "x", Ok(EndpointId { bytes: [0x11; 32] })),
        FillStep::Ask(Question::HttpPort)
    );
    assert_eq!(partly.server_node_id, Some("11".repeat(32)));
    assert_eq!(Question::SocksPort.text(), "SOCKS5 port (blank = disabled)");
    assert_eq!(Question::HttpPort.text(), "HTTP proxy port (blank = disabled)");
}
