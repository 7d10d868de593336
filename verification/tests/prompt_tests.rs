use rocinante::prompt::{
    brainbox_section, commit_prompt, config_prompt_in, init_prompt, lessons_section, pilot_section,
    remember_prompt_in, system_prompt, LESSONS_SECTION_MARKER, BRAINBOX_SECTION_MARKER,
};
use rocinante::permissions::Mode;

#[test]
fn remember_prompt_and_lessons_section() {
    let p = remember_prompt_in(Some("/home/u"), "always run cargo fmt before committing");
    assert!(p.contains(".rocinante/LESSONS.md") && p.contains("LESSONS.md"));
    assert!(p.contains("always run cargo fmt"));
    assert!(p.contains("Preference") && p.contains("Rule"));
    assert!(p.contains("/home/u/.rocinante/LESSONS.md"));
    assert!(!p.contains("~/"), "must embed the absolute path, not ~");
    let s = lessons_section("## Rules\n- x");
    assert!(s.starts_with(LESSONS_SECTION_MARKER));
    assert!(s.contains("- x"));
}

#[test]
fn brainbox_section_points_to_file() {
    let s = brainbox_section("## Goals\n- ship it");
    assert!(s.contains("- ship it"));
    assert!(s.contains(".rocinante/BRAINBOX.md"));
    assert!(s.contains("read"), "must tell the model to read the full file");
    assert!(s.starts_with(BRAINBOX_SECTION_MARKER));
}

#[test]
fn config_prompt_embeds_path_skill_and_request() {
    let p = config_prompt_in(Some("/home/u"), "add alias kimiko for kimi-k2.7-code:cloud with num_ctx 256000");
    assert!(p.contains("{\"name\": \"rocinante-config\"}"), "skill JSON missing");
    assert!(p.contains(".rocinante") && p.contains("config.toml"), "path missing");
    assert!(p.contains("add alias kimiko"), "request text missing");
    assert!(!p.contains("~/"), "must embed the absolute path, not ~");
}

#[test]
fn bare_config_prompt_is_read_only() {
    let p = config_prompt_in(None, "");
    assert!(p.contains("summarize"), "bare /config should summarize");
    assert!(p.contains("Do not edit"), "bare /config must be read-only");
    assert!(!p.contains("update the Rocinante user config"), "bare /config must not edit");
    assert!(p.contains("~/.rocinante/config.toml"));
}

#[test]
fn system_prompt_names_mode_and_place() {
    let plan = system_prompt("/w", Mode::Plan, "linux");
    assert!(plan.contains("Working directory: /w\nOperating system: linux"));
    assert!(plan.contains("PLAN mode"));
    let normal = system_prompt("/w", Mode::Normal, "linux");
    assert!(!normal.contains("PLAN mode"));
    assert!(normal.contains("Work step by step"));
    assert!(pilot_section("be nice").ends_with("follow these):\nbe nice"));
    assert!(commit_prompt().starts_with("Run `git status`"));
    assert!(init_prompt().contains(".rocinante/PILOT.md"));
}
