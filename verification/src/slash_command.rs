//! The commands that a message can invoke by starting with a slash.

use vstd::prelude::*;

verus! {

/// Commands that can be invoked by starting a message with a leading slash.
///
/// The order of the variants is the order in which the commands are shown,
/// so the more frequently used ones come first.
#[derive(Debug, Clone, Copy, PartialEq, Eq, Hash, Structural)]
pub enum SlashCommand {
    Model,
    Approvals,
    Review,
    New,
    Init,
    Compact,
    Diff,
    Mention,
    Status,
    Limits,
    Mcp,
    Logout,
    Quit,
}

/// All commands, in the order in which they are shown.
pub open spec fn all_commands() -> Seq<SlashCommand> {
    seq![
        SlashCommand::Model,
        SlashCommand::Approvals,
        SlashCommand::Review,
        SlashCommand::New,
        SlashCommand::Init,
        SlashCommand::Compact,
        SlashCommand::Diff,
        SlashCommand::Mention,
        SlashCommand::Status,
        SlashCommand::Limits,
        SlashCommand::Mcp,
        SlashCommand::Logout,
        SlashCommand::Quit,
    ]
}

/// The command's name: its variant's name in lower case.
pub open spec fn command_name(command: SlashCommand) -> Seq<char> {
    match command {
        SlashCommand::Model => "model"@,
        SlashCommand::Approvals => "approvals"@,
        SlashCommand::Review => "review"@,
        SlashCommand::New => "new"@,
        SlashCommand::Init => "init"@,
        SlashCommand::Compact => "compact"@,
        SlashCommand::Diff => "diff"@,
        SlashCommand::Mention => "mention"@,
        SlashCommand::Status => "status"@,
        SlashCommand::Limits => "limits"@,
        SlashCommand::Mcp => "mcp"@,
        SlashCommand::Logout => "logout"@,
        SlashCommand::Quit => "quit"@,
    }
}

/// The text that describes the command to the user.
pub open spec fn description_text(command: SlashCommand) -> Seq<char> {
    match command {
        SlashCommand::New => "在对话中开始一个新的聊天"@,
        SlashCommand::Init => "为 Codex 创建包含指令的 AGENTS.md 文件"@,
        SlashCommand::Compact => "压缩对话以避免达到上下文限制"@,
        SlashCommand::Review => "审查我的更改并查找问题"@,
        SlashCommand::Quit => "退出 Codex"@,
        SlashCommand::Diff => "显示 git diff（包括未跟踪的文件）"@,
        SlashCommand::Mention => "引用/提及一个文件"@,
        SlashCommand::Status => "显示当前会话配置和令牌使用情况"@,
        SlashCommand::Limits => "可视化每周和每小时速率限制"@,
        SlashCommand::Model => "选择使用的模型和推理强度"@,
        SlashCommand::Approvals => "选择 Codex 在无需批准时可执行的操作"@,
        SlashCommand::Mcp => "列出已配置的 MCP 工具"@,
        SlashCommand::Logout => "登出 Codex"@,
    }
}

/// Whether the command starts or changes a conversation, and so has to wait
/// until no task is in progress.
pub open spec fn needs_idle(command: SlashCommand) -> bool {
    ||| command == SlashCommand::New
    ||| command == SlashCommand::Init
    ||| command == SlashCommand::Compact
    ||| command == SlashCommand::Model
    ||| command == SlashCommand::Approvals
    ||| command == SlashCommand::Review
    ||| command == SlashCommand::Logout
}

impl SlashCommand {
    /// User-visible description shown in the popup.
    pub fn description(self) -> (text: &'static str)
        ensures
            text@ == description_text(self),
    {
        match self {
            SlashCommand::New => "在对话中开始一个新的聊天",
            SlashCommand::Init => "为 Codex 创建包含指令的 AGENTS.md 文件",
            SlashCommand::Compact => "压缩对话以避免达到上下文限制",
            SlashCommand::Review => "审查我的更改并查找问题",
            SlashCommand::Quit => "退出 Codex",
            SlashCommand::Diff => "显示 git diff（包括未跟踪的文件）",
            SlashCommand::Mention => "引用/提及一个文件",
            SlashCommand::Status => "显示当前会话配置和令牌使用情况",
            SlashCommand::Limits => "可视化每周和每小时速率限制",
            SlashCommand::Model => "选择使用的模型和推理强度",
            SlashCommand::Approvals => "选择 Codex 在无需批准时可执行的操作",
            SlashCommand::Mcp => "列出已配置的 MCP 工具",
            SlashCommand::Logout => "登出 Codex",
        }
    }

    /// Command string without the leading '/'.
    pub fn command(self) -> (name: &'static str)
        ensures
            name@ == command_name(self),
    {
        match self {
            SlashCommand::Model => "model",
            SlashCommand::Approvals => "approvals",
            SlashCommand::Review => "review",
            SlashCommand::New => "new",
            SlashCommand::Init => "init",
            SlashCommand::Compact => "compact",
            SlashCommand::Diff => "diff",
            SlashCommand::Mention => "mention",
            SlashCommand::Status => "status",
            SlashCommand::Limits => "limits",
            SlashCommand::Mcp => "mcp",
            SlashCommand::Logout => "logout",
            SlashCommand::Quit => "quit",
        }
    }

    /// Whether this command can be run while a task is in progress.
    pub fn available_during_task(self) -> (available: bool)
        ensures
            available == !needs_idle(self),
    {
        match self {
            SlashCommand::New
            | SlashCommand::Init
            | SlashCommand::Compact
            | SlashCommand::Model
            | SlashCommand::Approvals
            | SlashCommand::Review
            | SlashCommand::Logout => false,
            SlashCommand::Diff
            | SlashCommand::Mention
            | SlashCommand::Status
            | SlashCommand::Limits
            | SlashCommand::Mcp
            | SlashCommand::Quit => true,
        }
    }
}

/// Return all built-in commands in a Vec paired with their command string.
pub fn built_in_slash_commands() -> (commands: Vec<(&'static str, SlashCommand)>)
    ensures
        commands@.len() == all_commands().len(),
        forall|i: int|
            0 <= i < commands@.len() ==> (#[trigger] commands@[i]).1 == all_commands()[i]
                && commands@[i].0@ == command_name(all_commands()[i]),
{
    let mut commands: Vec<(&'static str, SlashCommand)> = Vec::new();
    commands.push((SlashCommand::Model.command(), SlashCommand::Model));
    commands.push((SlashCommand::Approvals.command(), SlashCommand::Approvals));
    commands.push((SlashCommand::Review.command(), SlashCommand::Review));
    commands.push((SlashCommand::New.command(), SlashCommand::New));
    commands.push((SlashCommand::Init.command(), SlashCommand::Init));
    commands.push((SlashCommand::Compact.command(), SlashCommand::Compact));
    commands.push((SlashCommand::Diff.command(), SlashCommand::Diff));
    commands.push((SlashCommand::Mention.command(), SlashCommand::Mention));
    commands.push((SlashCommand::Status.command(), SlashCommand::Status));
    commands.push((SlashCommand::Limits.command(), SlashCommand::Limits));
    commands.push((SlashCommand::Mcp.command(), SlashCommand::Mcp));
    commands.push((SlashCommand::Logout.command(), SlashCommand::Logout));
    commands.push((SlashCommand::Quit.command(), SlashCommand::Quit));
    commands
}

/// Every command is in the list of all commands.
pub proof fn lemma_all_commands_complete(command: SlashCommand)
    ensures
        all_commands().contains(command),
{
    let all = all_commands();
    match command {
        SlashCommand::Model => assert(all[0] == command),
        SlashCommand::Approvals => assert(all[1] == command),
        SlashCommand::Review => assert(all[2] == command),
        SlashCommand::New => assert(all[3] == command),
        SlashCommand::Init => assert(all[4] == command),
        SlashCommand::Compact => assert(all[5] == command),
        SlashCommand::Diff => assert(all[6] == command),
        SlashCommand::Mention => assert(all[7] == command),
        SlashCommand::Status => assert(all[8] == command),
        SlashCommand::Limits => assert(all[9] == command),
        SlashCommand::Mcp => assert(all[10] == command),
        SlashCommand::Logout => assert(all[11] == command),
        SlashCommand::Quit => assert(all[12] == command),
    }
}

} // verus!
