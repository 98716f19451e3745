use syntaxis::agent::{
    AgentErrorCode, ClientMessage, ImageAttachment, ModelCost, ModelSummary, PromptDelivery,
    ThinkingLevel, MAX_PROMPT_BYTES, PROTOCOL_VERSION,
};

fn prompt(text: &str, images: Vec<ImageAttachment>) -> ClientMessage {
    ClientMessage::Prompt {
        text: text.into(),
        delivery: PromptDelivery::Prompt,
        images,
    }
}

fn image(size: u64, mime_type: &str) -> ImageAttachment {
    ImageAttachment {
        name: "a.png".into(),
        mime_type: mime_type.into(),
        size,
        data: "AAAA".into(),
    }
}

#[test]
fn prompt_validation_rejects_empty_and_unbounded_input() {
    let empty = ClientMessage::Prompt {
        text: "  ".into(),
        delivery: PromptDelivery::Prompt,
        images: Vec::new(),
    };
    assert!(empty.validate().is_err());
    let oversized = ClientMessage::Prompt {
        text: "x".repeat(MAX_PROMPT_BYTES + 1),
        delivery: PromptDelivery::Prompt,
        images: Vec::new(),
    };
    assert!(oversized.validate().is_err());
}

#[test]
fn prompt_bounds_count_bytes_and_images() {
    assert!(prompt(&"x".repeat(MAX_PROMPT_BYTES), Vec::new()).validate().is_ok());
    assert!(prompt(&"é".repeat(MAX_PROMPT_BYTES / 2 + 1), Vec::new()).validate().is_err());
    assert!(prompt("", vec![image(10, "image/png")]).validate().is_ok());
    assert!(prompt("hi", vec![image(10, "text/plain")]).validate().is_err());
    assert!(prompt("hi", vec![image(9 * 1024 * 1024, "image/png")]).validate().is_err());
    let six = (0..6).map(|_| image(1, "image/png")).collect();
    assert!(prompt("hi", six).validate().is_err());
    let heavy = (0..3).map(|_| image(6 * 1024 * 1024, "image/png")).collect();
    let error = prompt("hi", heavy).validate().unwrap_err();
    assert_eq!(error.code, AgentErrorCode::InvalidRequest);
    assert_eq!(error.message, "Attach up to 5 images, 8 MiB each and 16 MiB total");
}

#[test]
fn handshake_requires_the_current_hello() {
    assert!(ClientMessage::Hello { version: PROTOCOL_VERSION }.validate_handshake().is_ok());
    let old = ClientMessage::Hello { version: 7 }.validate_handshake().unwrap_err();
    assert_eq!(old.code, AgentErrorCode::InvalidProtocol);
    let early = ClientMessage::Refresh.validate_handshake().unwrap_err();
    assert_eq!(early.message, "AI protocol handshake required");
}

#[test]
fn session_messages_need_ids_names_and_supported_actions() {
    let blank = ClientMessage::SelectSession { session_id: " ".into() };
    assert_eq!(blank.validate().unwrap_err().message, "A Pi session id is required");
    let long = ClientMessage::RenameSession {
        session_id: "s".into(),
        name: "n".repeat(81),
    };
    assert!(long.validate().is_err());
    let fine = ClientMessage::RenameSession {
        session_id: "s".into(),
        name: format!("  {}  ", "n".repeat(80)),
    };
    assert!(fine.validate().is_ok());
    let nested = ClientMessage::SessionAction {
        session_id: "s".into(),
        action: Box::new(ClientMessage::CreateSession),
    };
    assert_eq!(nested.validate().unwrap_err().message, "Unsupported Pi session action");
    let inner = ClientMessage::SessionAction {
        session_id: "s".into(),
        action: Box::new(prompt(" ", Vec::new())),
    };
    assert!(inner.validate().is_err());
    let model = ClientMessage::SetModel {
        provider: "p".into(),
        model_id: "\t".into(),
    };
    assert!(model.validate().is_err());
}

#[test]
fn model_helpers_format_keys_and_costs() {
    let model = ModelSummary {
        provider: "openai".into(),
        id: "gpt".into(),
        name: "GPT".into(),
        reasoning: false,
        thinking_levels: vec![ThinkingLevel::Off],
        supports_images: false,
        context_window: 1,
        max_tokens: 1,
        cost: ModelCost::default(),
    };
    assert_eq!(model.key(), "openai\u{1f}gpt");
    assert!(model.cost.is_free());
    assert!(!ModelCost { has_paid_tier: true, ..ModelCost::default() }.is_free());
    assert_eq!(image(1, "image/png").data_url(), "data:image/png;base64,AAAA");
    assert_eq!(ThinkingLevel::Xhigh.as_str(), "xhigh");
    assert_eq!(ThinkingLevel::default(), ThinkingLevel::Medium);
    assert_eq!(ThinkingLevel::all().len(), 7);
}
