use aichat_model::{
    LimitExceeded, Message, MessageContent, MessageRole, Model, ModelCapabilities, ModelConfig,
};

fn registry() -> Vec<Model> {
    vec![
        Model::new("openai", "gpt-4")
            .set_max_tokens(Some(8192))
            .set_tokens_count_factors((5, 2)),
        Model::new("openai", "gpt-3.5")
            .set_max_tokens(Some(4096)),
        Model::new("local", "llama")
            .set_capabilities(ModelCapabilities { text: true, vision: true }),
    ]
}

fn text(role: MessageRole, s: &str) -> Message {
    Message::new(role, s.to_string())
}

#[test]
fn new_model_defaults() {
    let m = Model::new("openai", "gpt-4");
    assert_eq!(m.client_name, "openai");
    assert_eq!(m.name, "gpt-4");
    assert_eq!(m.max_tokens, None);
    assert_eq!(m.tokens_count_factors, (0, 0));
    assert_eq!(m.capabilities, ModelCapabilities { text: true, vision: false });
}

#[test]
fn default_model_is_empty() {
    let m = Model::default();
    assert_eq!(m.id(), ":");
    assert_eq!(m.max_tokens, None);
}

#[test]
fn id_joins_backend_and_model() {
    assert_eq!(Model::new("openai", "gpt-4").id(), "openai:gpt-4");
    assert_eq!(Model::new("a", "").id(), "a:");
}

#[test]
fn find_exact_identifier() {
    let r = registry();
    let m = Model::find(&r, "openai:gpt-3.5").unwrap();
    assert_eq!(m.id(), "openai:gpt-3.5");
    assert_eq!(m.max_tokens, Some(4096));
    assert_eq!(m.tokens_count_factors, (0, 0));
}

#[test]
fn find_unknown_model_inherits_first_backend_entry() {
    let r = registry();
    let m = Model::find(&r, "openai:gpt-5").unwrap();
    assert_eq!(m.client_name, "openai");
    assert_eq!(m.name, "gpt-5");
    assert_eq!(m.max_tokens, Some(8192));
    assert_eq!(m.tokens_count_factors, (5, 2));
}

#[test]
fn find_backend_only_takes_first_entry() {
    let r = registry();
    let m = Model::find(&r, "openai").unwrap();
    assert_eq!(m.id(), "openai:gpt-4");
    let l = Model::find(&r, "local").unwrap();
    assert_eq!(l.capabilities, ModelCapabilities { text: true, vision: true });
}

#[test]
fn find_empty_model_part_is_backend_only() {
    let r = registry();
    let a = Model::find(&r, "openai:").unwrap();
    let b = Model::find(&r, "openai").unwrap();
    assert_eq!(a.id(), b.id());
    assert_eq!(a.id(), "openai:gpt-4");
}

#[test]
fn find_unknown_backend_is_none() {
    let r = registry();
    assert!(Model::find(&r, "unknown").is_none());
    assert!(Model::find(&r, "unknown:model").is_none());
    assert!(Model::find(&r, "").is_none());
    assert!(Model::find(&[], "openai:gpt-4").is_none());
}

#[test]
fn find_splits_at_first_colon() {
    let r = registry();
    let m = Model::find(&r, "local:a:b").unwrap();
    assert_eq!(m.client_name, "local");
    assert_eq!(m.name, "a:b");
}

#[test]
fn zero_limit_means_no_limit() {
    let a = Model::new("x", "y").set_max_tokens(Some(0));
    let b = Model::new("x", "y").set_max_tokens(None);
    assert_eq!(a.max_tokens, None);
    assert_eq!(a.max_tokens, b.max_tokens);
    let msgs = vec![text(MessageRole::User, "hi")];
    assert_eq!(a.max_tokens_limit(&msgs, &[1_000_000]), Ok(()));
    assert_eq!(b.max_tokens_limit(&msgs, &[1_000_000]), Ok(()));
    assert_eq!(Model::new("x", "y").set_max_tokens(Some(7)).max_tokens, Some(7));
}

#[test]
fn total_tokens_empty_is_zero() {
    let m = Model::new("x", "y").set_tokens_count_factors((5, 3));
    assert_eq!(m.total_tokens(&[], &[]), 0);
}

#[test]
fn total_tokens_single_user_message() {
    let m = Model::new("x", "y").set_tokens_count_factors((5, 0));
    let msgs = vec![text(MessageRole::User, "hello")];
    assert_eq!(m.total_tokens(&msgs, &[10]), 15);
}

#[test]
fn total_tokens_single_assistant_message() {
    let m = Model::new("x", "y").set_tokens_count_factors((5, 0));
    let msgs = vec![text(MessageRole::Assistant, "hello")];
    assert_eq!(m.total_tokens(&msgs, &[10]), 10);
}

#[test]
fn total_tokens_conversation() {
    let m = Model::new("x", "y").set_tokens_count_factors((3, 0));
    let msgs = vec![
        text(MessageRole::System, "be brief"),
        text(MessageRole::User, "hi"),
        text(MessageRole::Assistant, "hello"),
        text(MessageRole::User, "again"),
    ];
    assert_eq!(m.messages_tokens(&msgs, &[4, 1, 2, 3]), 10);
    assert_eq!(m.total_tokens(&msgs, &[4, 1, 2, 3]), 4 * 3 + 10);
}

#[test]
fn structured_content_counts_nothing() {
    let m = Model::new("x", "y").set_tokens_count_factors((2, 0));
    let msgs = vec![
        Message {
            role: MessageRole::User,
            content: MessageContent::Array(vec!["image".to_string()]),
        },
        text(MessageRole::System, "note"),
    ];
    assert_eq!(m.messages_tokens(&msgs, &[100, 7]), 7);
    assert_eq!(m.total_tokens(&msgs, &[100, 7]), 2 + 7);
}

#[test]
fn limit_reached_exactly_fails() {
    let m = Model::new("x", "y")
        .set_max_tokens(Some(20))
        .set_tokens_count_factors((5, 5));
    let msgs = vec![text(MessageRole::User, "hello")];
    assert_eq!(m.max_tokens_limit(&msgs, &[10]), Err(LimitExceeded));
    assert_eq!(m.max_tokens_limit(&msgs, &[9]), Ok(()));
}

#[test]
fn limit_counts_bias_once() {
    let m = Model::new("x", "y")
        .set_max_tokens(Some(10))
        .set_tokens_count_factors((0, 10));
    assert_eq!(m.max_tokens_limit(&[], &[]), Err(LimitExceeded));
    let n = Model::new("x", "y")
        .set_max_tokens(Some(11))
        .set_tokens_count_factors((0, 10));
    assert_eq!(n.max_tokens_limit(&[], &[]), Ok(()));
}

#[test]
fn no_limit_always_passes() {
    let m = Model::new("x", "y").set_tokens_count_factors((1000, 1000));
    let msgs = vec![text(MessageRole::User, "hello")];
    assert_eq!(m.max_tokens_limit(&msgs, &[usize::MAX / 2]), Ok(()));
}

#[test]
fn limit_check_is_repeatable() {
    let m = Model::new("x", "y").set_max_tokens(Some(12));
    let msgs = vec![text(MessageRole::User, "hello")];
    assert_eq!(m.max_tokens_limit(&msgs, &[12]), Err(LimitExceeded));
    assert_eq!(m.max_tokens_limit(&msgs, &[12]), Err(LimitExceeded));
    assert_eq!(m.max_tokens_limit(&msgs, &[11]), Ok(()));
}

#[test]
fn model_config_holds_entry() {
    let c = ModelConfig {
        name: "gpt-4".to_string(),
        max_tokens: Some(8192),
        capabilities: ModelCapabilities::parse("text,vision"),
    };
    let m = Model::new("openai", &c.name)
        .set_max_tokens(c.max_tokens)
        .set_capabilities(c.capabilities);
    assert_eq!(m.id(), "openai:gpt-4");
    assert_eq!(m.capabilities, ModelCapabilities { text: true, vision: true });
}

#[test]
fn clone_keeps_fields() {
    let m = registry()[0].clone();
    assert_eq!(m.id(), "openai:gpt-4");
    assert_eq!(m.tokens_count_factors, (5, 2));
}

#[test]
fn limit_with_overflowing_estimate_fails() {
    let m = Model::new("x", "y")
        .set_max_tokens(Some(100))
        .set_tokens_count_factors((usize::MAX, 0));
    let msgs = vec![text(MessageRole::User, "a"), text(MessageRole::User, "b")];
    assert_eq!(m.max_tokens_limit(&msgs, &[usize::MAX, 1]), Err(LimitExceeded));
    let free = Model::new("x", "y").set_tokens_count_factors((usize::MAX, 0));
    assert_eq!(free.max_tokens_limit(&msgs, &[usize::MAX, 1]), Ok(()));
}

#[test]
fn limit_with_large_bias_fails() {
    let m = Model::new("x", "y")
        .set_max_tokens(Some(5))
        .set_tokens_count_factors((0, usize::MAX));
    assert_eq!(m.max_tokens_limit(&[], &[]), Err(LimitExceeded));
}
