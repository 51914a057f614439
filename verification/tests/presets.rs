use codex_apply::approval_presets::{builtin_approval_presets, AskForApproval, SandboxPolicy};
use codex_apply::model_presets::{builtin_model_presets, AuthMode, ReasoningEffort};

#[test]
fn approval_presets_go_from_guarded_to_open() {
    let presets = builtin_approval_presets();
    let ids: Vec<&str> = presets.iter().map(|preset| preset.id).collect();
    assert_eq!(ids, vec!["read-only", "auto", "full-access"]);
    assert_eq!(presets[0].label, "只读");
    assert_eq!(presets[1].label, "自动");
    assert_eq!(presets[2].label, "完全访问");
    assert_eq!(presets[0].approval, AskForApproval::OnRequest);
    assert_eq!(presets[0].sandbox, SandboxPolicy::ReadOnly);
    assert_eq!(presets[1].approval, AskForApproval::OnRequest);
    assert_eq!(presets[1].sandbox, SandboxPolicy::WorkspaceWrite);
    assert_eq!(presets[2].approval, AskForApproval::Never);
    assert_eq!(presets[2].sandbox, SandboxPolicy::DangerFullAccess);
    assert_eq!(
        presets[0].description,
        "Codex可以读取文件并回答问题。Codex需要批准才能进行编辑、运行命令或访问网络"
    );
}

#[test]
fn every_model_preset_is_offered_without_an_api_key() {
    for auth_mode in [None, Some(AuthMode::ChatGPT)] {
        let presets = builtin_model_presets(auth_mode);
        let ids: Vec<&str> = presets.iter().map(|preset| preset.id).collect();
        assert_eq!(
            ids,
            vec![
                "gpt-5-codex-low",
                "gpt-5-codex-medium",
                "gpt-5-codex-high",
                "gpt-5-minimal",
                "gpt-5-low",
                "gpt-5-medium",
                "gpt-5-high",
            ]
        );
        assert_eq!(presets[1].effort, None);
        assert_eq!(presets[3].effort, Some(ReasoningEffort::Minimal));
        assert_eq!(presets[0].description, "");
        assert_eq!(presets[6].description, "— 最大化推理深度以应对复杂或模糊的问题");
    }
}

#[test]
fn an_api_key_leaves_the_codex_model_out() {
    let presets = builtin_model_presets(Some(AuthMode::ApiKey));
    let ids: Vec<&str> = presets.iter().map(|preset| preset.id).collect();
    assert_eq!(ids, vec!["gpt-5-minimal", "gpt-5-low", "gpt-5-medium", "gpt-5-high"]);
    assert!(presets.iter().all(|preset| preset.model == "gpt-5"));
    let labels: Vec<&str> = presets.iter().map(|preset| preset.label).collect();
    assert_eq!(labels, vec!["gpt-5 minimal", "gpt-5 low", "gpt-5 medium", "gpt-5 high"]);
}
