//! The query tool: its description, the requests it plans and its answer.

use deepseek_tui::rlm_query::{
    extract_text, join_results, read_input, ApprovalRequirement, CacheControl, ChildOutcome,
    ChildRequest, ContentBlock, QueryInput, RlmQueryTool, ToolCapability, ToolError,
    DEFAULT_CHILD_MODEL, DEFAULT_MAX_TOKENS, MAX_PARALLEL,
};
use serde_json::Value;

fn tool_without_client() -> RlmQueryTool<u8> {
    RlmQueryTool::new(None)
}

fn tool_with_client() -> RlmQueryTool<u8> {
    RlmQueryTool::new(Some(1))
}

fn object(members: Vec<(&str, Value)>) -> Value {
    let mut map = serde_json::Map::new();
    for (key, value) in members {
        map.insert(key.to_string(), value);
    }
    Value::Object(map)
}

fn text(s: &str) -> Value {
    Value::String(s.to_string())
}

fn block(s: &str) -> ContentBlock {
    ContentBlock::Text { text: s.to_string(), cache_control: None }
}

fn refusal(r: Result<Vec<ChildRequest>, ToolError>) -> String {
    match r {
        Err(ToolError::InvalidInput { message }) => message,
        other => panic!("unexpected {:?}", other),
    }
}

#[test]
fn schema_advertises_both_shapes() {
    let schema = tool_without_client().input_schema();
    let names: Vec<&str> = schema.properties.iter().map(|p| p.name.as_str()).collect();
    assert!(names.contains(&"prompt"));
    assert!(names.contains(&"prompts"));
    assert!(names.contains(&"model"));
    assert!(names.contains(&"system"));
    assert!(names.contains(&"max_tokens"));
    // Neither prompt nor prompts is required: the tool accepts either.
    assert!(schema.required.is_none());
}

#[test]
fn returns_not_available_without_client() {
    let tool = tool_without_client();
    let err = tool.prepare(&object(vec![("prompt", text("hi"))])).unwrap_err();
    assert!(matches!(err, ToolError::NotAvailable { .. }));
}

#[test]
fn rejects_input_missing_both_prompt_and_prompts() {
    let tool = tool_without_client();
    let err = tool.prepare(&object(vec![])).unwrap_err();
    // Without a client, that is what the caller hears first.
    assert!(matches!(err, ToolError::NotAvailable { .. }));
}

#[test]
fn extract_text_joins_text_blocks_and_skips_others() {
    let blocks = vec![
        ContentBlock::Text { text: "first".to_string(), cache_control: None },
        ContentBlock::Thinking { thinking: "ignored".to_string() },
        ContentBlock::Text { text: "second".to_string(), cache_control: None },
    ];
    assert_eq!(extract_text(&blocks), "first\nsecond");
}

#[test]
fn extract_text_returns_empty_when_no_text_blocks() {
    let blocks = vec![ContentBlock::Thinking { thinking: "no visible text".to_string() }];
    assert_eq!(extract_text(&blocks), "");
}

#[test]
fn default_model_is_flash() {
    let tool = tool_without_client();
    assert_eq!(tool.default_model, DEFAULT_CHILD_MODEL);
    assert_eq!(DEFAULT_CHILD_MODEL, "deepseek-v4-flash");
}

#[test]
fn max_parallel_cap_is_sixteen() {
    assert_eq!(MAX_PARALLEL, 16);
}

#[test]
fn approval_is_auto_so_calls_are_unattended() {
    let tool = tool_without_client();
    assert_eq!(tool.approval_requirement(), ApprovalRequirement::Auto);
}

#[test]
fn supports_parallel_dispatch() {
    let tool = tool_without_client();
    assert!(tool.supports_parallel());
}

#[test]
fn capabilities_mark_network_and_read_only() {
    let tool = tool_without_client();
    let caps = tool.capabilities();
    assert!(caps.contains(&ToolCapability::Network));
    assert!(caps.contains(&ToolCapability::ReadOnly));
}

#[test]
fn the_tool_says_what_it_is() {
    let tool = tool_without_client();
    assert_eq!(tool.name(), "rlm_query");
    assert!(tool.description().starts_with("Run up to 16 prompts concurrently"));
    assert!(tool.description().ends_with("Read-only \u{2014} no file or shell side-effects."));
    let schema = tool.input_schema();
    assert_eq!(schema.kind, "object");
    let prompts = &schema.properties[1];
    assert_eq!(prompts.kind, "array");
    assert_eq!(prompts.items.as_deref(), Some("string"));
    let tokens = &schema.properties[4];
    assert_eq!(tokens.kind, "integer");
    assert_eq!(tokens.description, "Per-child token cap (default: 4096).");
    assert!(tokens.items.is_none());
}

#[test]
fn one_prompt_makes_one_request() {
    let requests = tool_with_client().prepare(&object(vec![("prompt", text("hi"))])).unwrap();
    assert_eq!(requests.len(), 1);
    let request = &requests[0];
    assert_eq!(request.model, "deepseek-v4-flash");
    assert_eq!(request.role, "user");
    assert_eq!(request.prompt, "hi");
    assert_eq!(request.max_tokens, DEFAULT_MAX_TOKENS);
    assert_eq!(request.system, None);
    assert!(!request.stream);
    assert_eq!(request.temperature_tenths, 4);
    assert_eq!(request.top_p_tenths, 9);
}

#[test]
fn a_batch_shares_its_options() {
    let input = object(vec![
        ("prompts", Value::Array(vec![text("a"), Value::from(3), text("b"), Value::Null])),
        ("prompt", text("ignored")),
        ("model", text("other-model")),
        ("system", text("be brief")),
        ("max_tokens", Value::from(10u64)),
    ]);
    let requests = tool_with_client().prepare(&input).unwrap();
    assert_eq!(requests.len(), 2);
    assert_eq!(requests[0].prompt, "a");
    assert_eq!(requests[1].prompt, "b");
    for request in &requests {
        assert_eq!(request.model, "other-model");
        assert_eq!(request.system.as_deref(), Some("be brief"));
        assert_eq!(request.max_tokens, 10);
    }
}

#[test]
fn token_caps_are_cut_to_what_a_request_holds() {
    let cap = |tokens: Value| {
        let input = object(vec![("prompt", text("p")), ("max_tokens", tokens)]);
        tool_with_client().prepare(&input).unwrap()[0].max_tokens
    };
    assert_eq!(cap(Value::from(u64::MAX)), u32::MAX);
    assert_eq!(cap(Value::from(u64::from(u32::MAX))), u32::MAX);
    assert_eq!(cap(Value::from(0u64)), 0);
    assert_eq!(cap(Value::from(-1i64)), DEFAULT_MAX_TOKENS);
    assert_eq!(cap(text("7")), DEFAULT_MAX_TOKENS);
    assert_eq!(cap(Value::from(7.0f64)), DEFAULT_MAX_TOKENS);
}

#[test]
fn each_refusal() {
    let tool = tool_with_client();
    assert_eq!(
        refusal(tool.prepare(&object(vec![]))),
        "rlm_query requires `prompt` (string) or `prompts` (array of strings)"
    );
    assert_eq!(
        refusal(tool.prepare(&Value::Null)),
        "rlm_query requires `prompt` (string) or `prompts` (array of strings)"
    );
    assert_eq!(
        refusal(tool.prepare(&object(vec![("prompt", Value::from(1))]))),
        "rlm_query requires `prompt` (string) or `prompts` (array of strings)"
    );
    assert_eq!(
        refusal(tool.prepare(&object(vec![("prompts", Value::Array(vec![Value::Bool(true)]))]))),
        "rlm_query: prompts list is empty"
    );
    let seventeen: Vec<Value> = (0..17).map(|i| text(&format!("p{i}"))).collect();
    assert_eq!(
        refusal(tool.prepare(&object(vec![("prompts", Value::Array(seventeen))]))),
        "rlm_query: too many prompts (17, max 16)"
    );
    let sixteen: Vec<Value> = (0..16).map(|i| text(&format!("p{i}"))).collect();
    assert_eq!(tool.prepare(&object(vec![("prompts", Value::Array(sixteen))])).unwrap().len(), 16);
    match tool_without_client().prepare(&Value::Null) {
        Err(ToolError::NotAvailable { message }) => {
            assert_eq!(message, "rlm_query requires an active DeepSeek client")
        }
        other => panic!("unexpected {:?}", other),
    }
}

#[test]
fn a_prompts_member_that_is_no_array_counts_for_nothing() {
    let input = object(vec![("prompts", text("x")), ("prompt", text("y"))]);
    assert_eq!(tool_with_client().prepare(&input).unwrap()[0].prompt, "y");
}

#[test]
fn input_is_read_member_by_member() {
    let input = read_input(&object(vec![
        ("prompts", Value::Array(vec![text("a"), Value::Null])),
        ("prompt", text("p")),
        ("model", text("m")),
        ("system", Value::from(1)),
        ("max_tokens", Value::from(5u64)),
    ]));
    assert_eq!(input.prompts, Some(vec![Some("a".to_string()), None]));
    assert_eq!(input.prompt.as_deref(), Some("p"));
    assert_eq!(input.model.as_deref(), Some("m"));
    assert_eq!(input.system, None);
    assert_eq!(input.max_tokens, Some(5));
}

#[test]
fn a_plan_follows_what_was_asked_for() {
    let input = QueryInput {
        prompts: Some(vec![Some("a".to_string()), None, Some("b".to_string())]),
        prompt: None,
        model: None,
        system: None,
        max_tokens: None,
    };
    let requests = tool_with_client().plan(&input).unwrap();
    let prompts: Vec<&str> = requests.iter().map(|r| r.prompt.as_str()).collect();
    assert_eq!(prompts, vec!["a", "b"]);
}

#[test]
fn one_result_is_the_answer() {
    let results = vec![(0, ChildOutcome::Reply(vec![block("a"), ContentBlock::Other, block("b")]))];
    assert_eq!(join_results(&results), "a\nb");
    assert_eq!(join_results(&vec![(0, ChildOutcome::Failed("timeout".to_string()))]), "[error: timeout]");
    assert_eq!(join_results(&Vec::new()), "");
}

#[test]
fn results_are_joined_in_the_order_of_the_prompts() {
    let results = vec![
        (2, ChildOutcome::Reply(vec![block("two")])),
        (0, ChildOutcome::Failed("down".to_string())),
        (1, ChildOutcome::Reply(Vec::new())),
    ];
    assert_eq!(join_results(&results), "[0] [error: down]\n\n---\n\n[1] \n\n---\n\n[2] two");
}

#[test]
fn cached_blocks_are_text_too() {
    let blocks = vec![ContentBlock::Text {
        text: "kept".to_string(),
        cache_control: Some(CacheControl { cache_type: "ephemeral".to_string() }),
    }];
    assert_eq!(extract_text(&blocks), "kept");
}
