use ai_memory::config::{
    default_db_path, expand_tilde, is_relative_path, join_path, resolve_db_path, AppConfig,
    EmbeddingModel, FeatureTier, LlmModel,
};

// The environment of the machine that runs the tests is not read: a home
// directory as `HOME` would give it stands in for it.
fn home() -> String {
    "/home/tester".to_string()
}

fn env_default_db_path() -> String {
    default_db_path(None, Some(&home()), None)
}

#[test]
fn tier_roundtrip() {
    for tier in [
        FeatureTier::Keyword,
        FeatureTier::Semantic,
        FeatureTier::Smart,
        FeatureTier::Autonomous,
    ] {
        assert_eq!(FeatureTier::from_str(tier.as_str()), Some(tier));
    }
}

#[test]
fn budget_selection() {
    assert_eq!(FeatureTier::from_memory_budget(0), FeatureTier::Keyword);
    assert_eq!(FeatureTier::from_memory_budget(128), FeatureTier::Keyword);
    assert_eq!(FeatureTier::from_memory_budget(256), FeatureTier::Semantic);
    assert_eq!(FeatureTier::from_memory_budget(512), FeatureTier::Semantic);
    assert_eq!(FeatureTier::from_memory_budget(1024), FeatureTier::Smart);
    assert_eq!(FeatureTier::from_memory_budget(2048), FeatureTier::Smart);
    assert_eq!(
        FeatureTier::from_memory_budget(4096),
        FeatureTier::Autonomous
    );
    assert_eq!(
        FeatureTier::from_memory_budget(8192),
        FeatureTier::Autonomous
    );
}

#[test]
fn embedding_dimensions() {
    assert_eq!(EmbeddingModel::MiniLmL6V2.dim(), 384);
    assert_eq!(EmbeddingModel::NomicEmbedV15.dim(), 768);
}

#[test]
fn autonomous_has_cross_encoder() {
    let cfg = FeatureTier::Autonomous.config();
    assert!(cfg.cross_encoder);
    assert!(cfg.capabilities().features.cross_encoder_reranking);
    assert!(cfg.capabilities().features.memory_reflection);
}

#[test]
fn keyword_has_no_models() {
    let cfg = FeatureTier::Keyword.config();
    assert!(cfg.embedding_model.is_none());
    assert!(cfg.llm_model.is_none());
    assert!(!cfg.cross_encoder);
    assert_eq!(cfg.max_memory_mb, 0);
}

#[test]
fn capabilities_serialize() {
    let caps = FeatureTier::Smart.config().capabilities();
    // The report as JSON, field by field.
    let mut features = serde_json::Map::new();
    features.insert("keyword_search".to_string(), serde_json::Value::Bool(caps.features.keyword_search));
    features.insert("semantic_search".to_string(), serde_json::Value::Bool(caps.features.semantic_search));
    features.insert("hybrid_recall".to_string(), serde_json::Value::Bool(caps.features.hybrid_recall));
    features.insert("query_expansion".to_string(), serde_json::Value::Bool(caps.features.query_expansion));
    features.insert("auto_consolidation".to_string(), serde_json::Value::Bool(caps.features.auto_consolidation));
    features.insert("auto_tagging".to_string(), serde_json::Value::Bool(caps.features.auto_tagging));
    features.insert("contradiction_analysis".to_string(), serde_json::Value::Bool(caps.features.contradiction_analysis));
    features.insert("cross_encoder_reranking".to_string(), serde_json::Value::Bool(caps.features.cross_encoder_reranking));
    features.insert("memory_reflection".to_string(), serde_json::Value::Bool(caps.features.memory_reflection));
    let mut models = serde_json::Map::new();
    models.insert("embedding".to_string(), serde_json::Value::String(caps.models.embedding.clone()));
    models.insert("embedding_dim".to_string(), serde_json::Value::from(caps.models.embedding_dim));
    models.insert("llm".to_string(), serde_json::Value::String(caps.models.llm.clone()));
    models.insert("cross_encoder".to_string(), serde_json::Value::String(caps.models.cross_encoder.clone()));
    let mut top = serde_json::Map::new();
    top.insert("tier".to_string(), serde_json::Value::String(caps.tier.clone()));
    top.insert("version".to_string(), serde_json::Value::String(caps.version.clone()));
    top.insert("features".to_string(), serde_json::Value::Object(features));
    top.insert("models".to_string(), serde_json::Value::Object(models));
    let json = serde_json::to_string_pretty(&serde_json::Value::Object(top)).unwrap();
    assert!(json.contains("\"tier\": \"smart\""));
    assert!(json.contains("nomic"));
    assert!(json.contains("gemma4:e2b"));
}

#[test]
fn config_default_is_empty() {
    let cfg = AppConfig::default();
    assert!(cfg.tier.is_none());
    assert!(cfg.db.is_none());
    assert!(cfg.ollama_url.is_none());
}

#[test]
fn config_effective_tier() {
    let cfg = AppConfig {
        tier: Some("smart".to_string()),
        ..Default::default()
    };
    // CLI override wins
    assert_eq!(
        cfg.effective_tier(Some("autonomous")),
        FeatureTier::Autonomous
    );
    // Config value used when no CLI
    assert_eq!(cfg.effective_tier(None), FeatureTier::Smart);
}

#[test]
fn expand_tilde_home() {
    let home = home();
    let result = expand_tilde("~/foo/bar.db", &home);
    assert_eq!(result, join_path(&home, "foo/bar.db"));
    assert_eq!(expand_tilde("~/foo/bar.db", "/home/u"), "/home/u/foo/bar.db");
}

#[test]
fn expand_tilde_bare() {
    let home = home();
    let result = expand_tilde("~", &home);
    assert_eq!(result, home);
}

#[test]
fn expand_tilde_absolute_unchanged() {
    let result = expand_tilde("/absolute/path.db", &home());
    assert_eq!(result, "/absolute/path.db");
}

#[test]
fn expand_tilde_relative_unchanged() {
    let result = expand_tilde("relative.db", &home());
    assert_eq!(result, "relative.db");
}

#[test]
fn expand_tilde_other_user_unchanged() {
    // ~otheruser should NOT be expanded
    let result = expand_tilde("~otheruser/foo", &home());
    assert_eq!(result, "~otheruser/foo");
}

#[test]
fn default_db_path_is_absolute() {
    let p = env_default_db_path();
    assert!(!is_relative_path(&p), "default_db_path() returned relative path: {}", p);
}

#[test]
fn default_db_path_contains_ai_memory() {
    let p = env_default_db_path();
    assert!(p.contains("ai-memory"), "default path should contain 'ai-memory': {}", p);
}

#[test]
fn resolve_db_path_absolute_passes_through() {
    let p = resolve_db_path("/tmp/test.db", &home());
    assert_eq!(p, "/tmp/test.db");
}

#[test]
fn resolve_db_path_tilde_expanded() {
    let p = resolve_db_path("~/test.db", &home());
    assert!(!is_relative_path(&p), "tilde-expanded path should be absolute: {}", p);
    assert!(p.ends_with("test.db"), "should end with test.db: {}", p);
}

#[test]
fn effective_db_explicit_cli_wins() {
    let cfg = AppConfig {
        db: Some("/config/path.db".to_string()),
        ..Default::default()
    };
    let result = cfg.effective_db("/cli/path.db", true, &env_default_db_path(), &home());
    assert_eq!(result, "/cli/path.db");
}

#[test]
fn effective_db_config_used_when_no_cli() {
    let cfg = AppConfig {
        db: Some("/config/path.db".to_string()),
        ..Default::default()
    };
    let result = cfg.effective_db("ignored-default", false, &env_default_db_path(), &home());
    assert_eq!(result, "/config/path.db");
}

#[test]
fn effective_db_default_when_no_cli_no_config() {
    let cfg = AppConfig::default();
    let result = cfg.effective_db("ignored", false, &env_default_db_path(), &home());
    // Should be the XDG default (absolute)
    assert!(!is_relative_path(&result), "default effective_db should be absolute: {}", result);
}

#[test]
fn effective_db_config_tilde_expanded() {
    let cfg = AppConfig {
        db: Some("~/my-memories.db".to_string()),
        ..Default::default()
    };
    let result = cfg.effective_db("ignored", false, &env_default_db_path(), &home());
    assert!(!is_relative_path(&result), "tilde in config should be expanded: {}", result);
}

// Further cases.

#[test]
fn tier_names_ignore_case() {
    assert_eq!(FeatureTier::from_str("SeMaNtIc"), Some(FeatureTier::Semantic));
    assert_eq!(FeatureTier::from_str("AUTONOMOUS"), Some(FeatureTier::Autonomous));
    assert_eq!(FeatureTier::from_str("smarter"), None);
    assert_eq!(FeatureTier::from_str(""), None);
}

#[test]
fn unknown_tier_falls_back_to_semantic() {
    let cfg = AppConfig { tier: Some("bogus".to_string()), ..Default::default() };
    assert_eq!(cfg.effective_tier(None), FeatureTier::Semantic);
    assert_eq!(AppConfig::default().effective_tier(None), FeatureTier::Semantic);
    assert_eq!(cfg.effective_tier(Some("Keyword")), FeatureTier::Keyword);
}

#[test]
fn budget_choice_fits_and_is_best() {
    for mb in [0usize, 255, 256, 1023, 1024, 4095, 4096, 100000] {
        let chosen = FeatureTier::from_memory_budget(mb);
        assert!(chosen.config().max_memory_mb <= mb);
        for t in [FeatureTier::Keyword, FeatureTier::Semantic, FeatureTier::Smart, FeatureTier::Autonomous] {
            if t.config().max_memory_mb <= mb {
                assert!(t.config().max_memory_mb <= chosen.config().max_memory_mb);
            }
        }
    }
}

#[test]
fn model_identifiers() {
    assert_eq!(EmbeddingModel::MiniLmL6V2.hf_model_id(), "sentence-transformers/all-MiniLM-L6-v2");
    assert_eq!(EmbeddingModel::NomicEmbedV15.hf_model_id(), "nomic-ai/nomic-embed-text-v1.5");
    assert_eq!(LlmModel::Gemma4E2B.ollama_model_id(), "gemma4:e2b");
    assert_eq!(LlmModel::Gemma4E4B.ollama_model_id(), "gemma4:e4b");
    assert_eq!(LlmModel::Gemma4E2B.display_name(), "Gemma 4 Effective 2B (Q4)");
    assert_eq!(LlmModel::Gemma4E4B.display_name(), "Gemma 4 Effective 4B (Q4)");
}

#[test]
fn capabilities_of_each_tier() {
    let k = FeatureTier::Keyword.config().capabilities();
    assert_eq!(k.tier, "keyword");
    assert_eq!(k.version, "0.5.4");
    assert!(k.features.keyword_search && !k.features.semantic_search && !k.features.query_expansion);
    assert_eq!(k.models.embedding, "none");
    assert_eq!(k.models.embedding_dim, 0);
    assert_eq!(k.models.llm, "none");
    assert_eq!(k.models.cross_encoder, "none");
    let s = FeatureTier::Semantic.config().capabilities();
    assert!(s.features.semantic_search && s.features.hybrid_recall && !s.features.auto_tagging);
    assert_eq!(s.models.embedding_dim, 384);
    let a = FeatureTier::Autonomous.config().capabilities();
    assert_eq!(a.models.cross_encoder, "cross-encoder/ms-marco-MiniLM-L-6-v2");
    assert_eq!(a.models.llm, "gemma4:e4b");
    assert_eq!(a.models.embedding_dim, 768);
}

#[test]
fn urls_default_and_fall_back() {
    let cfg = AppConfig::default();
    assert_eq!(cfg.effective_ollama_url(), "http://localhost:11434");
    assert_eq!(cfg.effective_embed_url(), "http://localhost:11434");
    let cfg = AppConfig { ollama_url: Some("http://gpu:11434".to_string()), ..Default::default() };
    assert_eq!(cfg.effective_embed_url(), "http://gpu:11434");
    let cfg = AppConfig {
        ollama_url: Some("http://gpu:11434".to_string()),
        embed_url: Some("http://127.0.0.1:9000".to_string()),
        ..Default::default()
    };
    assert_eq!(cfg.effective_embed_url(), "http://127.0.0.1:9000");
}

#[test]
fn non_localhost_urls_are_reported() {
    let cfg = AppConfig::default();
    let w = cfg.warn_non_localhost_urls();
    assert!(w.ollama_url.is_none() && w.embed_url.is_none());
    let cfg = AppConfig { ollama_url: Some("http://gpu:11434".to_string()), ..Default::default() };
    let w = cfg.warn_non_localhost_urls();
    assert_eq!(w.ollama_url.as_deref(), Some("http://gpu:11434"));
    // The embed URL equals the Ollama URL: reported once only.
    assert!(w.embed_url.is_none());
    let cfg = AppConfig {
        ollama_url: Some("http://[::1]:11434".to_string()),
        embed_url: Some("http://embed.example:80".to_string()),
        ..Default::default()
    };
    let w = cfg.warn_non_localhost_urls();
    assert!(w.ollama_url.is_none());
    assert_eq!(w.embed_url.as_deref(), Some("http://embed.example:80"));
}

#[test]
fn path_join_rules() {
    assert_eq!(join_path("/a", "b"), "/a/b");
    assert_eq!(join_path("/a/", "b"), "/a/b");
    assert_eq!(join_path("/a", "/b"), "/b");
    assert_eq!(join_path("", "b"), "b");
    assert_eq!(join_path("/a", ""), "/a/");
}

#[test]
fn default_location_choices() {
    assert_eq!(default_db_path(Some("/xdg"), Some("/home/u"), None), "/xdg/ai-memory/ai-memory.db");
    assert_eq!(default_db_path(Some(""), Some("/home/u"), None), "/home/u/.local/share/ai-memory/ai-memory.db");
    assert_eq!(default_db_path(None, None, Some("C:/Users/u")), "C:/Users/u/.local/share/ai-memory/ai-memory.db");
    assert_eq!(default_db_path(None, Some(""), None), "ai-memory.db");
}

#[test]
fn tilde_with_unknown_home_is_kept() {
    assert_eq!(expand_tilde("~/x.db", ""), "~/x.db");
    assert!(is_relative_path("~/x.db"));
}

#[test]
fn effective_db_expands_cli_path() {
    let cfg = AppConfig::default();
    assert_eq!(cfg.effective_db("~/cli.db", true, "/d/ai-memory.db", "/home/u"), "/home/u/cli.db");
    assert_eq!(cfg.effective_db("x", false, "/d/ai-memory.db", "/home/u"), "/d/ai-memory.db");
}

#[test]
fn larger_tiers_enable_more_features() {
    let tiers = [FeatureTier::Keyword, FeatureTier::Semantic, FeatureTier::Smart, FeatureTier::Autonomous];
    for i in 0..tiers.len() {
        for j in i..tiers.len() {
            let a = tiers[i].config().capabilities().features;
            let b = tiers[j].config().capabilities().features;
            let fa = [a.keyword_search, a.semantic_search, a.hybrid_recall, a.query_expansion, a.auto_consolidation, a.auto_tagging, a.contradiction_analysis, a.cross_encoder_reranking, a.memory_reflection];
            let fb = [b.keyword_search, b.semantic_search, b.hybrid_recall, b.query_expansion, b.auto_consolidation, b.auto_tagging, b.contradiction_analysis, b.cross_encoder_reranking, b.memory_reflection];
            for k in 0..fa.len() {
                assert!(!fa[k] || fb[k]);
            }
        }
    }
}
