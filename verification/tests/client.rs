use parecode::client::{
    api_error, build_messages, ChatStream, Client, ContentPart, Delta, Message, MessageContent,
    ModelResponse, PendingToolCall, StreamChoice, StreamChunk, Tool, UsageStats,
};
use parecode::json::{parse_or_null, Json};

fn field(j: &Json, key: &str) -> String {
    j.text_of(key).unwrap_or_default()
}

#[test]
fn test_model_response() {
    let response = ModelResponse {
        text: "test response".to_string(),
        tool_calls: vec![],
        input_tokens: 100,
        output_tokens: 200,
    };
    assert_eq!(response.text, "test response");
    assert_eq!(response.input_tokens, 100);
    assert_eq!(response.output_tokens, 200);
}

#[test]
fn test_pending_tool_call_default() {
    let pending = PendingToolCall::default();
    assert!(pending.id.is_empty());
    assert!(pending.name.is_empty());
    assert!(pending.arguments.is_empty());
}

#[test]
fn test_message_content_from_str() {
    let content: MessageContent = "hello".into();
    match content {
        MessageContent::Text(text) => assert_eq!(text, "hello"),
        MessageContent::Parts(_) => panic!("Expected Text variant"),
    }
}

#[test]
fn test_message_content_from_string() {
    let content: MessageContent = "world".to_string().into();
    match content {
        MessageContent::Text(text) => assert_eq!(text, "world"),
        MessageContent::Parts(_) => panic!("Expected Text variant"),
    }
}

#[test]
fn test_build_messages_empty_system() {
    let messages = vec![Message {
        role: "user".to_string(),
        content: MessageContent::Text("hello".to_string()),
        ..Default::default()
    }];
    let result = build_messages("", &messages);
    assert_eq!(result.len(), 1);
    assert_eq!(field(&result[0], "role"), "user");
    assert_eq!(field(&result[0], "content"), "hello");
}

#[test]
fn test_build_messages_with_system() {
    let messages = vec![Message {
        role: "user".to_string(),
        content: MessageContent::Text("hello".to_string()),
        ..Default::default()
    }];
    let result = build_messages("You are a helpful assistant", &messages);
    assert_eq!(result.len(), 2);
    assert_eq!(field(&result[0], "role"), "system");
    assert_eq!(field(&result[0], "content"), "You are a helpful assistant");
    assert_eq!(field(&result[1], "role"), "user");
}

#[test]
fn test_build_messages_with_tool_result_parts() {
    let messages = vec![Message {
        role: "assistant".to_string(),
        content: MessageContent::Parts(vec![
            ContentPart::Text { text: "Calling tool".to_string() },
            ContentPart::ToolResult {
                tool_use_id: "call_1".to_string(),
                content: "result".to_string(),
            },
        ]),
        ..Default::default()
    }];
    let result = build_messages("", &messages);
    assert_eq!(result.len(), 2);
    assert_eq!(field(&result[0], "role"), "assistant");
    assert_eq!(field(&result[0], "content"), "Calling tool");
    assert_eq!(field(&result[1], "role"), "tool");
    assert_eq!(field(&result[1], "tool_call_id"), "call_1");
    assert_eq!(field(&result[1], "content"), "result");
}

#[test]
fn test_build_messages_multiple_messages() {
    let messages = vec![
        Message {
            role: "user".to_string(),
            content: MessageContent::Text("first".to_string()),
            ..Default::default()
        },
        Message {
            role: "assistant".to_string(),
            content: MessageContent::Text("second".to_string()),
            ..Default::default()
        },
        Message {
            role: "user".to_string(),
            content: MessageContent::Parts(vec![ContentPart::Text {
                text: "third".to_string(),
            }]),
            ..Default::default()
        },
    ];
    let result = build_messages("system prompt", &messages);
    assert_eq!(result.len(), 4);
    assert_eq!(field(&result[0], "role"), "system");
    assert_eq!(field(&result[1], "role"), "user");
    assert_eq!(field(&result[2], "role"), "assistant");
    assert_eq!(field(&result[3], "role"), "user");
}

#[test]
fn test_model_response_equality() {
    let response1 = ModelResponse {
        text: "test".to_string(),
        tool_calls: vec![],
        input_tokens: 100,
        output_tokens: 200,
    };
    let response2 = ModelResponse {
        text: "test".to_string(),
        tool_calls: vec![],
        input_tokens: 100,
        output_tokens: 200,
    };
    assert_eq!(response1.text, response2.text);
    assert_eq!(response1.input_tokens, response2.input_tokens);
}

#[test]
fn test_client_new() {
    let client = Client::new(
        "https://api.example.com/v1/chat".to_string(),
        "gpt-4".to_string(),
    );
    assert_eq!(client.endpoint, "https://api.example.com/v1/chat");
    assert_eq!(client.model, "gpt-4");
    assert!(client.api_key.is_none());
}

#[test]
fn test_client_set_api_key() {
    let mut client = Client::new(
        "https://api.example.com/v1/chat".to_string(),
        "gpt-4".to_string(),
    );
    assert!(client.api_key.is_none());
    client.set_api_key("sk-test123".to_string());
    assert_eq!(client.api_key, Some("sk-test123".to_string()));
}

#[test]
fn a_key_is_sent_as_a_bearer_token() {
    let mut client = Client::new("e".to_string(), "m".to_string());
    assert!(client.authorization().is_none());
    client.set_api_key("k".to_string());
    assert_eq!(client.authorization().as_deref(), Some("Bearer k"));
}

#[test]
fn a_request_names_the_model_and_the_tools() {
    let client = Client::new("e".to_string(), "gpt-4".to_string());
    let tool = Tool {
        name: "get_weather".to_string(),
        description: "Get weather for a location".to_string(),
        parameters: parse_or_null(r#"{"type":"object"}"#),
    };
    let body = client.chat_body("sys", &[], vec![tool]);
    assert_eq!(field(&body, "model"), "gpt-4");
    match body.get("tools") {
        Some(Json::List(ts)) => {
            let f = ts[0].get("function").unwrap();
            assert_eq!(field(f, "name"), "get_weather");
            assert_eq!(field(f, "description"), "Get weather for a location");
        }
        _ => panic!("expected tools"),
    }
    assert!(client.chat_body("sys", &[], vec![]).get("tools").is_none());
}

#[test]
fn an_error_of_the_server_is_told() {
    let e = api_error("500 Internal Server Error", "boom");
    assert!(e.contains("500 Internal Server Error"));
    assert!(e.contains("boom"));
}

fn content_delta(text: &str) -> Delta {
    Delta {
        content: Some(text.to_string()),
        reasoning_content: None,
        reasoning: None,
        tool_calls: None,
    }
}

#[test]
fn a_stream_adds_up_to_its_text() {
    let mut s = ChatStream::new();
    let lines = s.take_in("data: one\n\ndata: two\ndata: [DONE]\n");
    assert_eq!(lines, vec!["one".to_string(), "two".to_string()]);
    let mut shown = s.delta(content_delta("Hel"));
    shown.extend(s.chunk(StreamChunk {
        choices: Some(vec![StreamChoice { delta: Some(content_delta("lo")) }]),
        usage: Some(UsageStats { prompt_tokens: Some(12), completion_tokens: Some(3) }),
    }));
    let (rest, response) = s.finish();
    shown.extend(rest);
    assert_eq!(shown.concat(), "Hello");
    assert_eq!(response.text, "Hello");
    assert_eq!(response.input_tokens, 12);
    assert_eq!(response.output_tokens, 3);
}

#[test]
fn a_line_cut_in_two_is_read_whole() {
    let mut s = ChatStream::new();
    let mut got = s.take_in("data: he");
    for d in got.clone() {
        assert!(s.event(&d, None).is_empty());
    }
    got = s.take_in("llo\n");
    assert!(got.iter().any(|d| d.contains("llo")));
}
