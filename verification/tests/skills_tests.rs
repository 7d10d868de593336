use rocinante::skills::{
    add_builtins, add_skill, descend_into, extra_dir_path, find_skill, frontmatter_yaml, preamble, skill_body,
    skill_loaded_message, skill_report, skill_step, sort_by_name, SkillStep, split_frontmatter, unknown_skill_message, Skill,
};

fn skill(name: &str, desc: &str, body: Option<&str>) -> Skill {
    Skill {
        name: name.into(),
        description: desc.into(),
        allowed_tools: None,
        model: None,
        dir: format!("/skills/{name}"),
        body: body.map(String::from),
    }
}

#[test]
fn user_skill_shadows_builtin() {
    let mut skills = Vec::new();
    add_skill(&mut skills, skill("deep-research", "my override", None));
    add_builtins(&mut skills, vec![skill("deep-research", "built in", Some("b")), skill("git-rescue", "g", Some("g"))]);
    let skills = sort_by_name(skills);
    let dr: Vec<_> = skills.iter().filter(|s| s.name == "deep-research").collect();
    assert_eq!(dr.len(), 1, "no duplicate deep-research");
    assert_eq!(dr[0].description, "my override");
    assert!(dr[0].body.is_none(), "user skill reads from disk, not embedded");
    assert!(!dr[0].is_builtin());
    assert!(skills.iter().any(|s| s.name == "git-rescue" && s.is_builtin()));
}

#[test]
fn later_tier_shadows_earlier() {
    let mut skills = Vec::new();
    add_skill(&mut skills, skill("a", "first", None));
    add_skill(&mut skills, skill("b", "b", None));
    add_skill(&mut skills, skill("a", "second", None));
    let names: Vec<(&str, &str)> = skills.iter().map(|s| (s.name.as_str(), s.description.as_str())).collect();
    assert_eq!(names, vec![("b", "b"), ("a", "second")]);
}

#[test]
fn skills_sorted_by_name_stably() {
    let sorted = sort_by_name(vec![skill("zeta", "1", None), skill("Alpha", "2", None), skill("beta", "3", None), skill("beta", "4", None)]);
    let names: Vec<(&str, &str)> = sorted.iter().map(|s| (s.name.as_str(), s.description.as_str())).collect();
    assert_eq!(names, vec![("Alpha", "2"), ("beta", "3"), ("beta", "4"), ("zeta", "1")]);
}

#[test]
fn discovers_project_skills_and_builds_preamble() {
    let mut skills = Vec::new();
    add_skill(&mut skills, skill("migrations", "How we write DB migrations", None));
    add_builtins(&mut skills, vec![skill("deep-research", "Research", Some("body"))]);
    let skills = sort_by_name(skills);
    assert!(skills.iter().any(|s| s.name == "migrations"));
    assert!(skills.iter().any(|s| s.name == "deep-research"));
    let pre = preamble(&skills);
    assert!(pre.contains("migrations: How we write DB migrations"));
    assert_eq!(pre, "\n\nSkills (load one with the `skill` tool when its description matches the task):\n- deep-research: Research\n- migrations: How we write DB migrations\n");
    assert_eq!(preamble(&vec![]), "");
}

#[test]
fn frontmatter_fences_split() {
    let (front, body) = split_frontmatter("---\nname: deploy\ndescription: \"How we deploy\"\n---\nbody").unwrap();
    assert_eq!(front, "\nname: deploy\ndescription: \"How we deploy\"");
    assert_eq!(body, "\nbody");
    assert!(split_frontmatter("no frontmatter at all").is_none());
    assert!(split_frontmatter("---\nname: x\nno closing fence").is_none());
}

#[test]
fn frontmatter_crlf_made_lf() {
    let yaml = frontmatter_yaml("---\r\nname: deploy\r\ndescription: How we deploy\r\n---\r\nbody").unwrap();
    assert_eq!(yaml, "\nname: deploy\ndescription: How we deploy\r");
}

#[test]
fn body_after_fences_trimmed() {
    assert_eq!(skill_body("---\nname: a\n---\n\nDo the thing carefully.\n"), "Do the thing carefully.");
    assert_eq!(skill_body("---\nname: a\n------\nbody\n"), "body");
    assert_eq!(skill_body("---\nname: a\n---\n---\n\n  x\n"), "---\n\n  x");
    assert_eq!(skill_body("plain file"), "plain file");
}

#[test]
fn skill_tool_texts() {
    let mut s = skill("deploy", "d", None);
    s.allowed_tools = Some(vec!["bash".into(), "read".into()]);
    s.model = Some("big-model".into());
    assert_eq!(
        skill_loaded_message(&s, "BODY"),
        "[Skill `deploy` loaded — follow these instructions. Files it mentions live in /skills/deploy]\n[This skill suggests using only these tools: bash, read]\n[This skill suggests model: big-model]\n\nBODY"
    );
    let b = skill("eda", "d", Some("x"));
    assert_eq!(skill_loaded_message(&b, "x"), "[Skill `eda` loaded — follow these instructions. (built-in skill)]\n\nx");
    let all = vec![skill("a", "", None), skill("b", "", None)];
    assert_eq!(unknown_skill_message("zz", &all), "unknown skill `zz`. Available: a, b");
    assert_eq!(find_skill(&all, "b"), Some(1));
    assert_eq!(find_skill(&all, "c"), None);
}

#[test]
fn skill_dirs() {
    assert_eq!(extra_dir_path("~/my/skills", Some("/home/u")).as_deref(), Some("/home/u/my/skills"));
    assert_eq!(extra_dir_path("~/my/skills", None), None);
    assert_eq!(extra_dir_path("/abs", None).as_deref(), Some("/abs"));
    assert!(descend_into(".tools", ".tools"));
    assert!(descend_into("plugins", ".tools"));
    assert!(!descend_into("node_modules", ".tools"));
    assert!(!descend_into(".git", ".tools"));
}

#[test]
fn skill_tool_steps() {
    let all = vec![skill("a", "", None), skill("fresh", "", Some("Do the thing carefully."))];
    match skill_step("{}", &all, true) {
        SkillStep::Done(o) => {
            assert!(o.is_error);
            assert_eq!(o.content, "missing `name`");
        }
        _ => panic!("expected an error"),
    }
    assert!(matches!(skill_step(r#"{"name":"fresh"}"#, &all, false), SkillStep::Load(1)));
    assert!(matches!(skill_step(r#"{"name":"nope"}"#, &all, true), SkillStep::Rescan));
    match skill_step(r#"{"name":"nope"}"#, &all, false) {
        SkillStep::Done(o) => {
            assert!(o.is_error);
            assert_eq!(o.content, "unknown skill `nope`. Available: a, fresh");
        }
        _ => panic!("expected an error"),
    }
    let ok = skill_report(&all[1], &Ok("Do the thing carefully.".to_string()));
    assert!(!ok.is_error && ok.content.contains("Do the thing carefully"));
    let err = skill_report(&all[0], &Err("cannot read skill: gone".to_string()));
    assert!(err.is_error);
    assert_eq!(err.content, "cannot read skill: gone");
}
