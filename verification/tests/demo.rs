use tool_glass::analysis::{build_edges, evaluate_tools};
use tool_glass::config::ConfigValue;
use tool_glass::demo::{
    demo_answer, demo_reply, demo_request, demo_servers, push_demo_tools, tools_for, DemoAnswer, CALL_TEXT,
    WEATHER_DESC,
};
use tool_glass::ir::ExposedTool;

fn demo_tools() -> Vec<ExposedTool> {
    let mut tools = Vec::new();
    for (server, kind) in demo_servers() {
        push_demo_tools(&mut tools, server, tools_for(kind));
    }
    tools
}

#[test]
fn demo_reveals_the_weather_exfiltration_path() {
    let tools = demo_tools();
    assert_eq!(tools.len(), 2);
    assert_eq!(tools[0].client, "demo");
    assert_eq!(tools[0].server, "weather-helper");
    assert_eq!(tools[0].name, "get_weather");
    assert_eq!(tools[0].description.as_deref(), Some(WEATHER_DESC));
    assert_eq!(tools[1].server, "support-chat");
    assert_eq!(tools[1].name, "send_message");

    let findings = evaluate_tools(&tools);
    for id in ["TG-101", "TG-102", "TG-103"] {
        assert!(findings.iter().any(|f| f.rule_id == id && f.server == "weather-helper"), "{id}");
    }
    assert!(findings.iter().all(|f| f.server == "weather-helper"));

    let edges = build_edges(&tools);
    assert!(edges
        .iter()
        .any(|e| e.src == "weather-helper.get_weather" && e.dst == "support-chat.send_message"));
}

#[test]
fn demo_schemas_and_answers() {
    let weather = tools_for("weather");
    match &weather[0].input_schema {
        ConfigValue::Table(es) => {
            assert_eq!(es.len(), 3);
            assert_eq!(es[0].0.as_deref(), Some("type"));
        }
        _ => panic!("schema is an object"),
    }
    assert!(tools_for("other").is_empty());
    assert_eq!(demo_answer("initialize"), DemoAnswer::Initialize);
    assert_eq!(demo_answer("tools/list"), DemoAnswer::ToolsList);
    assert_eq!(demo_answer("tools/call"), DemoAnswer::ToolsCall);
    assert_eq!(demo_answer("notifications/initialized"), DemoAnswer::Ignore);
}

#[test]
fn demo_requests() {
    assert!(demo_request("").is_none());
    assert!(demo_request("garbage").is_none());
    assert!(demo_request("{\"id\": 1}").is_none());
    match demo_request("{\"jsonrpc\":\"2.0\",\"id\":7,\"method\":\"tools/list\"}") {
        Some((DemoAnswer::ToolsList, Some(ConfigValue::Number(n)))) => assert_eq!(n, "7"),
        _ => panic!("a tools/list request"),
    }
    match demo_request("{\"method\":\"notifications/initialized\"}") {
        Some((DemoAnswer::Ignore, None)) => {}
        _ => panic!("a notification"),
    }
}

fn keys(v: &ConfigValue) -> Vec<String> {
    match v {
        ConfigValue::Table(es) => es.iter().map(|(k, _)| k.clone().unwrap_or_default()).collect(),
        _ => panic!("an object"),
    }
}

fn field<'a>(v: &'a ConfigValue, key: &str) -> &'a ConfigValue {
    match v {
        ConfigValue::Table(es) => &es.iter().find(|(k, _)| k.as_deref() == Some(key)).expect("field").1,
        _ => panic!("an object"),
    }
}

fn text_of(v: &ConfigValue) -> &str {
    match v {
        ConfigValue::Str(s) => s,
        _ => panic!("a text"),
    }
}

#[test]
fn demo_replies() {
    assert!(demo_reply(DemoAnswer::Ignore, None, "weather").is_none());

    let init = demo_reply(DemoAnswer::Initialize, Some(ConfigValue::Number("1".into())), "weather").unwrap();
    assert_eq!(keys(&init), vec!["jsonrpc", "id", "result"]);
    assert_eq!(text_of(field(&init, "jsonrpc")), "2.0");
    assert!(matches!(field(&init, "id"), ConfigValue::Number(n) if n == "1"));
    let result = field(&init, "result");
    assert_eq!(keys(result), vec!["protocolVersion", "capabilities", "serverInfo"]);
    assert_eq!(text_of(field(result, "protocolVersion")), "2025-06-18");
    assert_eq!(keys(field(result, "capabilities")), vec!["tools"]);
    assert_eq!(text_of(field(field(result, "serverInfo"), "name")), "weather");
    assert_eq!(text_of(field(field(result, "serverInfo"), "version")), "0.1.0");

    let list = demo_reply(DemoAnswer::ToolsList, None, "weather").unwrap();
    assert!(matches!(field(&list, "id"), ConfigValue::Null));
    match field(field(&list, "result"), "tools") {
        ConfigValue::List(items) => {
            assert_eq!(items.len(), 1);
            assert_eq!(keys(&items[0]), vec!["name", "description", "inputSchema"]);
            assert_eq!(text_of(field(&items[0], "name")), "get_weather");
            assert_eq!(text_of(field(&items[0], "description")), WEATHER_DESC);
            assert_eq!(keys(field(&items[0], "inputSchema")), vec!["type", "properties", "required"]);
        }
        _ => panic!("a list of tools"),
    }
    match field(field(&demo_reply(DemoAnswer::ToolsList, None, "other").unwrap(), "result"), "tools") {
        ConfigValue::List(items) => assert!(items.is_empty()),
        _ => panic!("a list of tools"),
    }

    let call = demo_reply(DemoAnswer::ToolsCall, Some(ConfigValue::Str("x".into())), "support").unwrap();
    assert_eq!(text_of(field(&call, "id")), "x");
    match field(field(&call, "result"), "content") {
        ConfigValue::List(parts) => {
            assert_eq!(parts.len(), 1);
            assert_eq!(text_of(field(&parts[0], "type")), "text");
            assert_eq!(text_of(field(&parts[0], "text")), CALL_TEXT);
        }
        _ => panic!("a content list"),
    }
}
