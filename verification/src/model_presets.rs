//! The built-in pairings of a model with a reasoning effort.

use vstd::prelude::*;

verus! {

/// How much a model reasons before it answers.
#[derive(Debug, Clone, Copy, PartialEq, Eq, Hash, Structural)]
pub enum ReasoningEffort {
    Minimal,
    Low,
    Medium,
    High,
}

/// How the user is signed in.
#[derive(Debug, Clone, Copy, PartialEq, Eq, Hash, Structural)]
pub enum AuthMode {
    ApiKey,
    ChatGPT,
}

/// A simple preset pairing a model slug with a reasoning effort.
#[derive(Debug, Clone, Copy)]
pub struct ModelPreset {
    /// Stable identifier for the preset.
    pub id: &'static str,
    /// Display label shown in UIs.
    pub label: &'static str,
    /// Short human description shown next to the label in UIs.
    pub description: &'static str,
    /// Model slug (e.g., "gpt-5").
    pub model: &'static str,
    /// Reasoning effort to apply for this preset.
    pub effort: Option<ReasoningEffort>,
}

/// What a preset holds.
pub struct ModelPresetView {
    pub id: Seq<char>,
    pub label: Seq<char>,
    pub description: Seq<char>,
    pub model: Seq<char>,
    pub effort: Option<ReasoningEffort>,
}

impl View for ModelPreset {
    type V = ModelPresetView;

    open spec fn view(&self) -> ModelPresetView {
        ModelPresetView {
            id: self.id@,
            label: self.label@,
            description: self.description@,
            model: self.model@,
            effort: self.effort,
        }
    }
}

/// The slug of the model that is not offered to a user who signed in with
/// an API key.
pub open spec fn codex_model() -> Seq<char> {
    "gpt-5-codex"@
}

/// The built-in presets, in the order in which they are shown.
pub open spec fn model_preset_table() -> Seq<ModelPresetView> {
    seq![
        ModelPresetView {
            id: "gpt-5-codex-low"@,
            label: "gpt-5-codex low"@,
            description: ""@,
            model: "gpt-5-codex"@,
            effort: Some(ReasoningEffort::Low),
        },
        ModelPresetView {
            id: "gpt-5-codex-medium"@,
            label: "gpt-5-codex medium"@,
            description: ""@,
            model: "gpt-5-codex"@,
            effort: None,
        },
        ModelPresetView {
            id: "gpt-5-codex-high"@,
            label: "gpt-5-codex high"@,
            description: ""@,
            model: "gpt-5-codex"@,
            effort: Some(ReasoningEffort::High),
        },
        ModelPresetView {
            id: "gpt-5-minimal"@,
            label: "gpt-5 minimal"@,
            description: "— 推理能力有限，速度最快；非常适合编程、各种指令或轻量级任务"@,
            model: "gpt-5"@,
            effort: Some(ReasoningEffort::Minimal),
        },
        ModelPresetView {
            id: "gpt-5-low"@,
            label: "gpt-5 low"@,
            description: "— 在速度和推理之间取得平衡；适用于直接的查询和简短的解释"@,
            model: "gpt-5"@,
            effort: Some(ReasoningEffort::Low),
        },
        ModelPresetView {
            id: "gpt-5-medium"@,
            label: "gpt-5 medium"@,
            description: "— 默认设置；为通用任务提供了推理深度和延迟的坚实平衡"@,
            model: "gpt-5"@,
            effort: Some(ReasoningEffort::Medium),
        },
        ModelPresetView {
            id: "gpt-5-high"@,
            label: "gpt-5 high"@,
            description: "— 最大化推理深度以应对复杂或模糊的问题"@,
            model: "gpt-5"@,
            effort: Some(ReasoningEffort::High),
        },
    ]
}

/// Whether a preset is offered to a user who signed in this way.
pub open spec fn offered(preset: ModelPresetView, auth_mode: Option<AuthMode>) -> bool {
    !(auth_mode == Some(AuthMode::ApiKey) && preset.model == codex_model())
}

/// The presets of `table` from index `k` on that are offered, in their
/// order.
pub open spec fn offered_from(
    table: Seq<ModelPresetView>,
    k: int,
    auth_mode: Option<AuthMode>,
) -> Seq<ModelPresetView>
    decreases table.len() - k,
{
    if k < 0 || k >= table.len() {
        Seq::empty()
    } else if offered(table[k], auth_mode) {
        seq![table[k]] + offered_from(table, k + 1, auth_mode)
    } else {
        offered_from(table, k + 1, auth_mode)
    }
}

/// What a vector of presets holds.
pub open spec fn model_presets_view(presets: Seq<ModelPreset>) -> Seq<ModelPresetView> {
    Seq::new(presets.len(), |i: int| presets[i]@)
}

/// The presets for the `gpt-5-codex` model.
fn codex_presets() -> (presets: Vec<ModelPreset>)
    ensures
        model_presets_view(presets@) == model_preset_table().subrange(0, 3),
{
    let mut presets: Vec<ModelPreset> = Vec::new();
    presets.push(
        ModelPreset {
            id: "gpt-5-codex-low",
            label: "gpt-5-codex low",
            description: "",
            model: "gpt-5-codex",
            effort: Some(ReasoningEffort::Low),
        },
    );
    presets.push(
        ModelPreset {
            id: "gpt-5-codex-medium",
            label: "gpt-5-codex medium",
            description: "",
            model: "gpt-5-codex",
            effort: None,
        },
    );
    presets.push(
        ModelPreset {
            id: "gpt-5-codex-high",
            label: "gpt-5-codex high",
            description: "",
            model: "gpt-5-codex",
            effort: Some(ReasoningEffort::High),
        },
    );
    assert(model_presets_view(presets@) =~= model_preset_table().subrange(0, 3));
    presets
}

/// Adds the presets for the `gpt-5` model.
fn push_general_presets(presets: &mut Vec<ModelPreset>)
    ensures
        model_presets_view(final(presets)@) == model_presets_view(old(presets)@)
            + model_preset_table().subrange(3, 7),
{
    presets.push(
        ModelPreset {
            id: "gpt-5-minimal",
            label: "gpt-5 minimal",
            description: "— 推理能力有限，速度最快；非常适合编程、各种指令或轻量级任务",
            model: "gpt-5",
            effort: Some(ReasoningEffort::Minimal),
        },
    );
    presets.push(
        ModelPreset {
            id: "gpt-5-low",
            label: "gpt-5 low",
            description: "— 在速度和推理之间取得平衡；适用于直接的查询和简短的解释",
            model: "gpt-5",
            effort: Some(ReasoningEffort::Low),
        },
    );
    presets.push(
        ModelPreset {
            id: "gpt-5-medium",
            label: "gpt-5 medium",
            description: "— 默认设置；为通用任务提供了推理深度和延迟的坚实平衡",
            model: "gpt-5",
            effort: Some(ReasoningEffort::Medium),
        },
    );
    presets.push(
        ModelPreset {
            id: "gpt-5-high",
            label: "gpt-5 high",
            description: "— 最大化推理深度以应对复杂或模糊的问题",
            model: "gpt-5",
            effort: Some(ReasoningEffort::High),
        },
    );
    assert(model_presets_view(presets@) =~= model_presets_view(old(presets)@)
        + model_preset_table().subrange(3, 7));
}

/// The first three presets of the table are for the `gpt-5-codex` model,
/// the other four are not.
pub proof fn lemma_codex_presets_lead(k: int)
    requires
        0 <= k < model_preset_table().len(),
    ensures
        model_preset_table()[k].model == codex_model() <==> k < 3,
{
    reveal_strlit("gpt-5-codex");
    reveal_strlit("gpt-5");
    if k >= 3 {
        assert(model_preset_table()[k].model.len() == 5);
        assert(codex_model().len() == 11);
    }
}

/// The built-in presets that are offered to a user who signed in as
/// `auth_mode` says: all of them, but for a user with an API key those for
/// the `gpt-5-codex` model are left out.
pub fn builtin_model_presets(auth_mode: Option<AuthMode>) -> (presets: Vec<ModelPreset>)
    ensures
        model_presets_view(presets@) == offered_from(model_preset_table(), 0, auth_mode),
        auth_mode == Some(AuthMode::ApiKey) ==> model_presets_view(presets@)
            == model_preset_table().subrange(3, 7),
        auth_mode != Some(AuthMode::ApiKey) ==> model_presets_view(presets@)
            == model_preset_table(),
{
    let restricted = match auth_mode {
        Some(AuthMode::ApiKey) => true,
        _ => false,
    };
    let mut presets: Vec<ModelPreset> = if restricted {
        Vec::new()
    } else {
        codex_presets()
    };
    let ghost first = model_presets_view(presets@);
    push_general_presets(&mut presets);
    proof {
        let table = model_preset_table();
        assert(model_presets_view(Seq::<ModelPreset>::empty()) =~= Seq::<ModelPresetView>::empty());
        lemma_codex_presets_lead(0);
        lemma_codex_presets_lead(1);
        lemma_codex_presets_lead(2);
        lemma_codex_presets_lead(3);
        lemma_codex_presets_lead(4);
        lemma_codex_presets_lead(5);
        lemma_codex_presets_lead(6);
        reveal_with_fuel(offered_from, 8);
        assert(model_presets_view(presets@) =~= offered_from(table, 0, auth_mode));
        if restricted {
            assert(model_presets_view(presets@) =~= table.subrange(3, 7));
        } else {
            assert(model_presets_view(presets@) =~= table);
        }
    }
    presets
}

} // verus!
