use crabbybot_core::cli::{
    classify_chat_input, config_gate, is_channel_ready, lock_pid, ChatInput, ConfigGate,
};

#[test]
fn chat_input_commands() {
    assert_eq!(classify_chat_input("  \n"), ChatInput::Empty);
    assert_eq!(classify_chat_input("/quit\n"), ChatInput::Quit);
    assert_eq!(classify_chat_input(" /exit "), ChatInput::Quit);
    assert_eq!(classify_chat_input("/q"), ChatInput::Quit);
    assert_eq!(classify_chat_input("/clear\n"), ChatInput::Clear);
    assert_eq!(classify_chat_input("/status"), ChatInput::Status);
    assert_eq!(
        classify_chat_input("  hello there \n"),
        ChatInput::Message("hello there".to_string())
    );
    assert_eq!(
        classify_chat_input("/QUIT"),
        ChatInput::Message("/QUIT".to_string())
    );
}

#[test]
fn config_gate_decisions() {
    assert_eq!(config_gate(0, false, false), ConfigGate::Valid);
    assert_eq!(config_gate(2, true, false), ConfigGate::SetupMode);
    assert_eq!(config_gate(1, false, true), ConfigGate::SetupMode);
    assert_eq!(
        config_gate(3, false, false),
        ConfigGate::Invalid("Fix the above 3 error(s) in config.json".to_string())
    );
    assert_eq!(
        config_gate(10, false, false),
        ConfigGate::Invalid("Fix the above 10 error(s) in config.json".to_string())
    );
    assert!(is_channel_ready(true, "tok"));
    assert!(!is_channel_ready(true, ""));
    assert!(!is_channel_ready(false, "tok"));
}

#[test]
fn lock_pid_parses_like_u32() {
    for s in ["1234", " 42\n", "+7", "0", "4294967295", "", "+", "-1", "12a", "4294967296", "99999999999", " 1 2 "] {
        assert_eq!(lock_pid(s), s.trim().parse::<u32>().ok(), "input {:?}", s);
    }
}
