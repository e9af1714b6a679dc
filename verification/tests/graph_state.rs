use tepora_core::graph::state::{AgentMode, Mode, SupervisorRoute};

#[test]
fn mode_default_is_chat() {
    assert_eq!(Mode::default(), Mode::Chat);
}

#[test]
fn mode_from_str_chat_variants() {
    assert_eq!(Mode::from_str("chat"), Mode::Chat);
    assert_eq!(Mode::from_str("CHAT"), Mode::Chat);
    assert_eq!(Mode::from_str("Chat"), Mode::Chat);
}

#[test]
fn mode_from_str_search() {
    assert_eq!(Mode::from_str("search"), Mode::Search);
    assert_eq!(Mode::from_str("SEARCH"), Mode::Search);
}

#[test]
fn mode_from_str_search_agentic() {
    assert_eq!(Mode::from_str("search_agentic"), Mode::SearchAgentic);
    assert_eq!(Mode::from_str("SEARCH_AGENTIC"), Mode::SearchAgentic);
}

#[test]
fn mode_from_str_agent() {
    assert_eq!(Mode::from_str("agent"), Mode::Agent);
    assert_eq!(Mode::from_str("AGENT"), Mode::Agent);
}

#[test]
fn mode_from_str_unknown_defaults_to_chat() {
    assert_eq!(Mode::from_str("unknown"), Mode::Chat);
    assert_eq!(Mode::from_str(""), Mode::Chat);
    assert_eq!(Mode::from_str("random"), Mode::Chat);
}

#[test]
fn mode_as_str_roundtrip() {
    assert_eq!(Mode::Chat.as_str(), "chat");
    assert_eq!(Mode::Search.as_str(), "search");
    assert_eq!(Mode::SearchAgentic.as_str(), "search_agentic");
    assert_eq!(Mode::Agent.as_str(), "agent");

    for mode in [Mode::Chat, Mode::Search, Mode::SearchAgentic, Mode::Agent] {
        assert_eq!(Mode::from_str(mode.as_str()), mode);
    }
}

#[test]
fn agent_mode_default_is_low() {
    assert_eq!(AgentMode::default(), AgentMode::Low);
}

#[test]
fn agent_mode_from_str_low() {
    assert_eq!(AgentMode::from_str(Some("low")), AgentMode::Low);
    assert_eq!(AgentMode::from_str(Some("LOW")), AgentMode::Low);
}

#[test]
fn agent_mode_from_str_fast_alias() {
    assert_eq!(AgentMode::from_str(Some("fast")), AgentMode::Low);
    assert_eq!(AgentMode::from_str(Some("FAST")), AgentMode::Low);
}

#[test]
fn agent_mode_from_str_high() {
    assert_eq!(AgentMode::from_str(Some("high")), AgentMode::High);
    assert_eq!(AgentMode::from_str(Some("HIGH")), AgentMode::High);
}

#[test]
fn agent_mode_from_str_direct() {
    assert_eq!(AgentMode::from_str(Some("direct")), AgentMode::Direct);
    assert_eq!(AgentMode::from_str(Some("DIRECT")), AgentMode::Direct);
}

#[test]
fn agent_mode_from_str_none_defaults_to_low() {
    assert_eq!(AgentMode::from_str(None), AgentMode::Low);
}

#[test]
fn agent_mode_from_str_unknown_defaults_to_low() {
    assert_eq!(AgentMode::from_str(Some("unknown")), AgentMode::Low);
    assert_eq!(AgentMode::from_str(Some("")), AgentMode::Low);
}

#[test]
fn agent_mode_from_str_trims_whitespace() {
    assert_eq!(AgentMode::from_str(Some("  high  ")), AgentMode::High);
    assert_eq!(AgentMode::from_str(Some(" direct ")), AgentMode::Direct);
}

#[test]
fn agent_mode_as_str_roundtrip() {
    assert_eq!(AgentMode::Low.as_str(), "low");
    assert_eq!(AgentMode::High.as_str(), "high");
    assert_eq!(AgentMode::Direct.as_str(), "direct");

    for mode in [AgentMode::Low, AgentMode::High, AgentMode::Direct] {
        assert_eq!(AgentMode::from_str(Some(mode.as_str())), mode);
    }
}

#[test]
fn supervisor_route_equality() {
    assert_eq!(SupervisorRoute::Planner, SupervisorRoute::Planner);
    assert_eq!(
        SupervisorRoute::Agent("a".to_string()),
        SupervisorRoute::Agent("a".to_string())
    );
    assert_ne!(
        SupervisorRoute::Agent("a".to_string()),
        SupervisorRoute::Agent("b".to_string())
    );
    assert_ne!(
        SupervisorRoute::Planner,
        SupervisorRoute::Agent("planner".to_string())
    );
}

// ---------------------------------------------------------------------------

#[test]
fn mode_from_str_mixed_case_and_padding() {
    assert_eq!(Mode::from_str("Search_Agentic"), Mode::SearchAgentic);
    assert_eq!(Mode::from_str(" search"), Mode::Chat);
}

#[test]
fn agent_mode_from_str_tabs_and_newlines_are_trimmed() {
    assert_eq!(AgentMode::from_str(Some("\thigh\n")), AgentMode::High);
    assert_eq!(AgentMode::from_str(Some(" Fast ")), AgentMode::Low);
}
