//! The built-in pairings of an approval policy with a sandbox policy.

use vstd::prelude::*;

verus! {

/// When the user is asked before a command is run.
#[derive(Debug, Clone, Copy, PartialEq, Eq, Hash, Structural)]
pub enum AskForApproval {
    /// Before every command that is not known to be safe.
    UnlessTrusted,
    /// When a command has failed in the sandbox.
    OnFailure,
    /// When the model asks for it.
    OnRequest,
    /// Never.
    Never,
}

/// What a command may touch.
#[derive(Debug, Clone, Copy, PartialEq, Eq, Hash, Structural)]
pub enum SandboxPolicy {
    /// Everything: no sandbox.
    DangerFullAccess,
    /// The disk, for reading only.
    ReadOnly,
    /// The disk for reading, and the workspace for writing; no network.
    WorkspaceWrite,
}

/// A simple preset pairing an approval policy with a sandbox policy.
#[derive(Debug, Clone)]
pub struct ApprovalPreset {
    /// Stable identifier for the preset.
    pub id: &'static str,
    /// Display label shown in UIs.
    pub label: &'static str,
    /// Short human description shown next to the label in UIs.
    pub description: &'static str,
    /// Approval policy to apply.
    pub approval: AskForApproval,
    /// Sandbox policy to apply.
    pub sandbox: SandboxPolicy,
}

/// What a preset holds.
pub struct ApprovalPresetView {
    pub id: Seq<char>,
    pub label: Seq<char>,
    pub description: Seq<char>,
    pub approval: AskForApproval,
    pub sandbox: SandboxPolicy,
}

impl View for ApprovalPreset {
    type V = ApprovalPresetView;

    open spec fn view(&self) -> ApprovalPresetView {
        ApprovalPresetView {
            id: self.id@,
            label: self.label@,
            description: self.description@,
            approval: self.approval,
            sandbox: self.sandbox,
        }
    }
}

/// The built-in presets, from the most guarded to the least.
pub open spec fn approval_preset_table() -> Seq<ApprovalPresetView> {
    seq![
        ApprovalPresetView {
            id: "read-only"@,
            label: "只读"@,
            description: "Codex可以读取文件并回答问题。Codex需要批准才能进行编辑、运行命令或访问网络"@,
            approval: AskForApproval::OnRequest,
            sandbox: SandboxPolicy::ReadOnly,
        },
        ApprovalPresetView {
            id: "auto"@,
            label: "自动"@,
            description: "Codex可以读取文件、进行编辑和在工作区中运行命令。Codex需要批准才能在工作区外工作或访问网络"@,
            approval: AskForApproval::OnRequest,
            sandbox: SandboxPolicy::WorkspaceWrite,
        },
        ApprovalPresetView {
            id: "full-access"@,
            label: "完全访问"@,
            description: "Codex可以读取文件、进行编辑和运行命令，并且可以访问网络，无需批准。请谨慎使用"@,
            approval: AskForApproval::Never,
            sandbox: SandboxPolicy::DangerFullAccess,
        },
    ]
}

/// What a vector of presets holds.
pub open spec fn approval_presets_view(presets: Seq<ApprovalPreset>) -> Seq<ApprovalPresetView> {
    Seq::new(presets.len(), |i: int| presets[i]@)
}

/// Built-in list of approval presets that pair approval and sandbox policy.
pub fn builtin_approval_presets() -> (presets: Vec<ApprovalPreset>)
    ensures
        approval_presets_view(presets@) == approval_preset_table(),
{
    let mut presets: Vec<ApprovalPreset> = Vec::new();
    presets.push(
        ApprovalPreset {
            id: "read-only",
            label: "只读",
            description: "Codex可以读取文件并回答问题。Codex需要批准才能进行编辑、运行命令或访问网络",
            approval: AskForApproval::OnRequest,
            sandbox: SandboxPolicy::ReadOnly,
        },
    );
    presets.push(
        ApprovalPreset {
            id: "auto",
            label: "自动",
            description: "Codex可以读取文件、进行编辑和在工作区中运行命令。Codex需要批准才能在工作区外工作或访问网络",
            approval: AskForApproval::OnRequest,
            sandbox: SandboxPolicy::WorkspaceWrite,
        },
    );
    presets.push(
        ApprovalPreset {
            id: "full-access",
            label: "完全访问",
            description: "Codex可以读取文件、进行编辑和运行命令，并且可以访问网络，无需批准。请谨慎使用",
            approval: AskForApproval::Never,
            sandbox: SandboxPolicy::DangerFullAccess,
        },
    );
    assert(approval_presets_view(presets@) =~= approval_preset_table());
    presets
}

/// Only the preset that never asks for approval runs without a sandbox.
pub proof fn lemma_unguarded_preset_is_last(i: int)
    requires
        0 <= i < approval_preset_table().len(),
    ensures
        approval_preset_table()[i].sandbox == SandboxPolicy::DangerFullAccess <==> i == 2,
        approval_preset_table()[i].approval == AskForApproval::Never <==> i == 2,
{
}

} // verus!
