use rocinante::config::ProviderConfig;
use rocinante::provider_factory::{
    first_model_name, plan_provider, FactoryError, ModelCatalog, ModelInfo, ModelOrigin, OllamaModel, ProviderKind,
};

fn local_note(size_bytes: u64, parameter_size: Option<&str>) -> String {
    let billions = parameter_size.and_then(|p| {
        let p = p.trim();
        let (num, unit) = p.split_at(p.len().saturating_sub(1));
        let v: f64 = num.trim().parse().ok()?;
        match unit {
            "B" | "b" => Some(v),
            "M" | "m" => Some(v / 1000.0),
            _ => None,
        }
    });
    let tier = match billions {
        Some(b) if b < 8.0 => "fast — simple/exploration tasks",
        Some(b) if b <= 32.0 => "general work",
        Some(_) => "strong — hard reasoning",
        None => "local model",
    };
    let size = match parameter_size {
        Some(p) => format!("{p}, {:.1} GB", size_bytes as f64 / 1e9),
        None => format!("{:.1} GB", size_bytes as f64 / 1e9),
    };
    format!("{size} — {tier}")
}

fn notes(catalog: &ModelCatalog) -> Vec<String> {
    catalog
        .info
        .iter()
        .map(|i| match &i.origin {
            ModelOrigin::Local { size_bytes, parameter_size } => local_note(*size_bytes, parameter_size.as_deref()),
            ModelOrigin::Alias { .. } => String::new(),
        })
        .collect()
}

#[test]
fn delegation_briefing_tiers_and_caps() {
    let mut info: Vec<ModelInfo> = vec![
        ModelInfo {
            name: "tiny:3b".into(),
            origin: ModelOrigin::Local { size_bytes: 2_000_000_000, parameter_size: Some("3.0B".into()) },
        },
        ModelInfo {
            name: "mid:14b".into(),
            origin: ModelOrigin::Local { size_bytes: 9_000_000_000, parameter_size: Some("14B".into()) },
        },
        ModelInfo { name: "oracle".into(), origin: ModelOrigin::Alias { provider: "anthropic".into() } },
    ];
    for i in 0..12 {
        info.push(ModelInfo { name: format!("extra{i}"), origin: ModelOrigin::Alias { provider: "ollama".into() } });
    }
    let catalog = ModelCatalog { entries: vec![], info };
    let brief = catalog.delegation_briefing("mid:14b", &notes(&catalog));
    assert!(brief.contains("tiny:3b: local, 3.0B, 2.0 GB — fast"));
    assert!(brief.contains("mid:14b (current main)"));
    assert!(brief.contains("general work"));
    assert!(brief.contains("oracle: alias via anthropic"));
    assert!(brief.contains("(+3 more"), "cap at 12: {brief}");
    assert!(brief.contains("Pick the SMALLEST model"));
}

#[test]
fn empty_inventory_adds_nothing() {
    let catalog = ModelCatalog { entries: vec![], info: vec![] };
    assert_eq!(catalog.delegation_briefing("x", &vec![]), "");
}

#[test]
fn briefing_exact_lines() {
    let catalog = ModelCatalog {
        entries: vec![],
        info: vec![
            ModelInfo { name: "a".into(), origin: ModelOrigin::Alias { provider: "p".into() } },
            ModelInfo { name: "b".into(), origin: ModelOrigin::Local { size_bytes: 1, parameter_size: None } },
        ],
    };
    let brief = catalog.delegation_briefing("b", &vec![String::new(), "NOTE".into()]);
    assert!(brief.starts_with("\n\nModels available for delegation (task tool `model` parameter):\n- a: alias via p — cloud aliases cost money per token; strong reasoning\n- b (current main): local, NOTE\nWhen delegating"));
    assert!(!brief.contains("more —"));
}

#[test]
fn listing_numbers_and_marks_current() {
    let catalog = ModelCatalog {
        entries: (1..=10).map(|i| format!("m{i}")).collect(),
        info: vec![],
    };
    let l = catalog.listing("m2");
    assert!(l.starts_with("models (switch with /model <number|name>):\n   1. m1\n   2. m2 ← current\n"));
    assert!(l.contains("\n  10. m10\n"));
    assert!(l.ends_with("  (or any provider/model, e.g. anthropic/opus-4-8)"));
}

#[test]
fn pick_by_number_or_name() {
    let catalog = ModelCatalog { entries: vec!["a".into(), "b".into()], info: vec![] };
    assert_eq!(catalog.pick("2"), "b");
    assert_eq!(catalog.pick("+1"), "a");
    assert_eq!(catalog.pick("0"), "0");
    assert_eq!(catalog.pick("3"), "3");
    assert_eq!(catalog.pick("qwen3:8b"), "qwen3:8b");
}

#[test]
fn aliases_then_discovered_tags() {
    let mut catalog = ModelCatalog::from_aliases(&vec![("main".into(), "ollama".into()), ("qwen3:8b".into(), "ollama".into())]);
    catalog.add_discovered(vec![
        OllamaModel { name: "qwen3:8b".into(), size: 5, parameter_size: None, quantization: None },
        OllamaModel { name: "llama3:70b".into(), size: 40, parameter_size: Some("70B".into()), quantization: Some("Q4_K_M".into()) },
    ]);
    assert_eq!(catalog.entries, vec!["main", "qwen3:8b", "llama3:70b"]);
    assert_eq!(catalog.info.len(), 3);
    assert!(matches!(&catalog.info[2].origin, ModelOrigin::Local { size_bytes: 40, parameter_size: Some(p) } if p == "70B"));
    assert!(matches!(&catalog.info[0].origin, ModelOrigin::Alias { provider } if provider == "ollama"));
}

#[test]
fn provider_plans_and_errors() {
    let providers = vec![
        ("ollama".to_string(), ProviderConfig::Ollama { base_url: "http://localhost:11434".into() }),
        ("anthropic".to_string(), ProviderConfig::Anthropic { base_url: "https://api".into(), api_key_env: "ANTHROPIC_API_KEY".into() }),
    ];
    let p = plan_provider(&providers, "ollama", &vec![]).unwrap();
    assert_eq!((p.kind, p.base_url.as_str(), p.key_env.clone(), p.is_local), (ProviderKind::Ollama, "http://localhost:11434", None, true));
    assert_eq!(plan_provider(&providers, "anthropic", &vec![]).unwrap_err(), FactoryError::MissingKey("ANTHROPIC_API_KEY".into()));
    let p = plan_provider(&providers, "anthropic", &vec!["ANTHROPIC_API_KEY".into()]).unwrap();
    assert_eq!(p.kind, ProviderKind::Anthropic);
    assert!(!p.is_local);
    let e = plan_provider(&providers, "nope", &vec![]).unwrap_err();
    assert_eq!(e.message(), "model references undefined provider `nope`");
    assert_eq!(FactoryError::MissingKey("K".into()).message(), "environment variable `K` is not set");
    assert_eq!(FactoryError::UnknownModel("x".into()).message(), "unknown model alias `x`");
}

#[test]
fn first_model_or_unknown() {
    let models = vec![OllamaModel { name: "a:1b".into(), size: 1, parameter_size: None, quantization: None }];
    assert_eq!(first_model_name(&models, "ollama").unwrap(), "a:1b");
    assert_eq!(first_model_name(&vec![], "ollama").unwrap_err(), FactoryError::UnknownModel("ollama".into()));
}
