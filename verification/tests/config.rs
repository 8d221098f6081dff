use memdag::config::{
    check_root, install, install_config, install_message, install_warning, load_json_object,
    make_server_entry, mcp_config_path, uninstall, uninstall_config, uninstall_message, ConfigError, ConfigLocation, DEFAULT_KEY, PROJECT_CONFIG,
};
use memdag::json::{Json, Number};

fn show(j: &Json) -> String {
    format!("{:?}", j)
}

fn entry() -> Json {
    make_server_entry("/bin/memdag", None)
}

#[test]
fn named_files_come_first() {
    assert_eq!(mcp_config_path(true, true), ConfigLocation::Named);
    assert_eq!(mcp_config_path(false, true), ConfigLocation::Named);
    assert_eq!(mcp_config_path(true, false), ConfigLocation::User);
    assert_eq!(mcp_config_path(false, false), ConfigLocation::Project);
    assert_eq!(PROJECT_CONFIG, ".mcp.json");
    assert_eq!(DEFAULT_KEY, "mcpServers");
}

#[test]
fn entries_name_the_program_and_the_database() {
    let plain = Json::object()
        .with("command", Json::text("/bin/memdag"))
        .with("args", Json::array().item(Json::text("serve")));
    assert_eq!(show(&entry()), show(&plain));
    let full = plain.with("env", Json::object().with("MEMDAG_DB", Json::text("/x.db")));
    assert_eq!(show(&make_server_entry("/bin/memdag", Some("/x.db"))), show(&full));
}

#[test]
fn installing_adds_one_entry() {
    let new = install(Json::object(), DEFAULT_KEY, entry()).expect("install");
    let expected = Json::object().with("mcpServers", Json::object().with("memdag", entry()));
    assert_eq!(show(&new), show(&expected));

    let other = || Json::object().with("command", Json::text("other"));
    let shared = Json::object()
        .with("theme", Json::text("dark"))
        .with("servers", Json::object().with("other", other()).with("memdag", Json::Null))
        .with("mcpServers", Json::Bool(true));
    let new = install(shared, "servers", entry()).expect("install");
    let expected = Json::object()
        .with("theme", Json::text("dark"))
        .with("servers", Json::object().with("other", other()).with("memdag", entry()))
        .with("mcpServers", Json::Bool(true));
    assert_eq!(show(&new), show(&expected));

    let again = install(new, "servers", make_server_entry("/new", None)).expect("install");
    let servers = again.get("servers").expect("servers");
    assert_eq!(servers.get("memdag").expect("memdag").text_at("command"), Some("/new"));
    assert_eq!(servers.get("other").expect("other").text_at("command"), Some("other"));
}

#[test]
fn installing_needs_objects() {
    let e = install(Json::array(), DEFAULT_KEY, entry()).expect_err("root");
    assert_eq!(e, ConfigError::RootNotObject);
    assert_eq!(e.message(DEFAULT_KEY, "/x.json"), "/x.json does not contain a JSON object at its root");
    let root = Json::object().with("mcpServers", Json::array());
    let e = install(root, DEFAULT_KEY, entry()).expect_err("key");
    assert_eq!(e, ConfigError::KeyNotObject);
    assert_eq!(e.message(DEFAULT_KEY, "/x.json"), "'mcpServers' in /x.json is not an object");
}

#[test]
fn uninstalling_takes_one_entry_out() {
    let other = || Json::object().with("command", Json::text("other"));
    let root = || {
        Json::object()
            .with("mcpServers", Json::object().with("a", other()).with("b", other()))
            .with("x", Json::Null)
    };
    let installed = install(root(), DEFAULT_KEY, entry()).expect("install");
    let (back, removed) = uninstall(installed, DEFAULT_KEY);
    assert!(removed);
    assert_eq!(show(&back), show(&root()));
    let (back, removed) = uninstall(back, DEFAULT_KEY);
    assert!(!removed);
    assert_eq!(show(&back), show(&root()));
    let (_, removed) = uninstall(Json::object(), DEFAULT_KEY);
    assert!(!removed);
    let odd = Json::object().with("mcpServers", Json::text("memdag"));
    let (back, removed) = uninstall(odd, DEFAULT_KEY);
    assert!(!removed);
    assert_eq!(back.text_at("mcpServers"), Some("memdag"));
    let (back, removed) = uninstall(Json::Null, DEFAULT_KEY);
    assert!(!removed);
    assert_eq!(show(&back), "Null");
}

#[test]
fn users_are_told_what_was_done() {
    assert_eq!(install_message("/c.json"), "Installed memdag MCP server into /c.json");
    assert_eq!(uninstall_message(true, "/c.json"), "Removed memdag MCP server entry from /c.json");
    assert_eq!(uninstall_message(false, "/c.json"), "No memdag MCP server entry found in /c.json");
}

fn texts(parts: &[&str]) -> Vec<String> {
    parts.iter().map(|p| p.to_string()).collect()
}

#[test]
fn passing_places_are_warned_of() {
    let path = texts(&["/usr/bin", "/home/u/.local/bin"]);
    for dirs in [
        ["/", "home", "u", "Downloads"],
        ["/", "tmp", "x", "y"],
        ["/", "src", "target", "release"],
        ["/", "src", "memdag", "build"],
    ] {
        let w = install_warning("/x/memdag", &texts(&dirs), &"/usr/bin".to_string(), &path);
        assert_eq!(
            w.as_deref(),
            Some("Warning: /x/memdag lies in a download, temporary or build directory. Moving or deleting it breaks the registered MCP entry.")
        );
    }
    let dirs = texts(&["/", "home", "u", ".local", "bin"]);
    let dir = "/home/u/.local/bin".to_string();
    assert_eq!(install_warning("/x/memdag", &dirs, &dir, &path), None);
    let elsewhere = "/opt".to_string();
    assert_eq!(
        install_warning("/opt/memdag", &texts(&["/", "opt"]), &elsewhere, &path).as_deref(),
        Some("Warning: /opt/memdag is not on PATH. Moving or deleting it breaks the registered MCP entry.")
    );
}

#[test]
fn files_are_read_as_objects() {
    assert_eq!(show(&load_json_object(None, "/c.json").expect("none")), show(&Json::object()));
    let text = r#" {"b": [null, true, 7, -7, 1.5, 1e300], "a": {"k\u00e9": "x\n"}, "a2": 18446744073709551615} "#;
    let expected = Json::object()
        .with("a", Json::object().with("k\u{e9}", Json::text("x\n")))
        .with("a2", Json::Number(Number::Natural(u64::MAX)))
        .with(
            "b",
            Json::array()
                .item(Json::Null)
                .item(Json::Bool(true))
                .item(Json::Number(Number::Natural(7)))
                .item(Json::Number(Number::Negative(-7)))
                .item(Json::Number(Number::Float("1.5".to_string())))
                .item(Json::Number(Number::Float("1e300".to_string()))),
        );
    let read = load_json_object(Some(text), "/c.json").expect("object");
    assert_eq!(show(&read).replace("1e+300", "1e300"), show(&expected));
}

#[test]
fn files_that_are_no_objects_are_refused() {
    let e = load_json_object(Some("{"), "/c.json").expect_err("broken");
    assert_eq!(
        e,
        "Failed to parse existing JSON at /c.json: EOF while parsing an object at line 1 column 1"
    );
    for text in ["[]", "null", "3", "\"{}\""] {
        let message = "/c.json does not contain a JSON object at its root";
        assert_eq!(load_json_object(Some(text), "/c.json").expect_err("root"), message);
        assert_eq!(
            install_config(Some(text), "/c.json", DEFAULT_KEY, entry()),
            Err(message.to_string())
        );
        assert_eq!(
            uninstall_config(Some(text), "/c.json", DEFAULT_KEY),
            Err(message.to_string())
        );
    }
    assert_eq!(
        check_root(Err("oops".to_string()), "/d").expect_err("parse"),
        "Failed to parse existing JSON at /d: oops"
    );
    assert_eq!(show(&check_root(Ok(Json::object()), "/d").expect("object")), show(&Json::object()));
}

#[test]
fn files_are_written_with_one_entry_more() {
    let text = install_config(None, "/c.json", DEFAULT_KEY, entry()).expect("install");
    assert_eq!(
        text,
        "{\n  \"mcpServers\": {\n    \"memdag\": {\n      \"args\": [\n        \"serve\"\n      ],\n      \"command\": \"/bin/memdag\"\n    }\n  }\n}"
    );
    let shared = r#"{"theme": "dark", "ratio": 0.25, "servers": {"other": {"command": "x"}}}"#;
    let new = install_config(Some(shared), "/c.json", "servers", entry()).expect("install");
    let root = load_json_object(Some(&new), "/c.json").expect("read back");
    assert_eq!(root.text_at("theme"), Some("dark"));
    assert!(new.contains("\"ratio\": 0.25"));
    let servers = root.get("servers").expect("servers");
    assert_eq!(servers.get("other").expect("other").text_at("command"), Some("x"));
    assert_eq!(servers.get("memdag").expect("memdag").text_at("command"), Some("/bin/memdag"));
    assert_eq!(
        install_config(Some(r#"{"mcpServers": 1}"#), "/c.json", DEFAULT_KEY, entry()),
        Err("'mcpServers' in /c.json is not an object".to_string())
    );
}

#[test]
fn files_are_written_with_one_entry_less() {
    let before = "{\n  \"n\": -1.5e-7,\n  \"servers\": {\n    \"other\": {}\n  }\n}";
    let with = install_config(Some(before), "/c.json", "servers", entry()).expect("install");
    assert_ne!(with, before);
    assert_eq!(uninstall_config(Some(&with), "/c.json", "servers"), Ok(Some(before.to_string())));
    assert_eq!(uninstall_config(Some(before), "/c.json", "servers"), Ok(None));
    assert_eq!(uninstall_config(None, "/c.json", "servers"), Ok(None));
}
