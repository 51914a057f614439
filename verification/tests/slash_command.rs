use codex_apply::slash_command::{built_in_slash_commands, SlashCommand};

#[test]
fn commands_come_in_presentation_order() {
    let commands = built_in_slash_commands();
    let names: Vec<&str> = commands.iter().map(|(name, _)| *name).collect();
    assert_eq!(
        names,
        vec![
            "model", "approvals", "review", "new", "init", "compact", "diff", "mention", "status",
            "limits", "mcp", "logout", "quit",
        ]
    );
    assert_eq!(commands[0].1, SlashCommand::Model);
    assert_eq!(commands[12].1, SlashCommand::Quit);
}

#[test]
fn each_command_is_paired_with_its_own_name() {
    for (name, command) in built_in_slash_commands() {
        assert_eq!(name, command.command());
    }
}

#[test]
fn commands_that_change_the_conversation_wait_for_the_task() {
    assert!(!SlashCommand::New.available_during_task());
    assert!(!SlashCommand::Init.available_during_task());
    assert!(!SlashCommand::Compact.available_during_task());
    assert!(!SlashCommand::Model.available_during_task());
    assert!(!SlashCommand::Approvals.available_during_task());
    assert!(!SlashCommand::Review.available_during_task());
    assert!(!SlashCommand::Logout.available_during_task());
    assert!(SlashCommand::Diff.available_during_task());
    assert!(SlashCommand::Mention.available_during_task());
    assert!(SlashCommand::Status.available_during_task());
    assert!(SlashCommand::Limits.available_during_task());
    assert!(SlashCommand::Mcp.available_during_task());
    assert!(SlashCommand::Quit.available_during_task());
}

#[test]
fn descriptions_are_the_texts_shown_to_the_user() {
    assert_eq!(SlashCommand::Quit.description(), "退出 Codex");
    assert_eq!(SlashCommand::Logout.description(), "登出 Codex");
    assert_eq!(SlashCommand::Mention.description(), "引用/提及一个文件");
    assert_eq!(SlashCommand::Mcp.description(), "列出已配置的 MCP 工具");
}
