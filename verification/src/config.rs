//! Feature tiers, the models they enable, the capability report, and the
//! resolution of configuration values (tier, database path, service URLs).
//!
//! Reading the environment and the file system is left to the caller: the
//! functions here take the values read (home directory, configuration
//! fields) and decide.

use vstd::prelude::*;

use crate::text::{
    chars_of, contains_chars, eq_ignore_ascii_case, eq_ignore_ascii_case_exec, extend_str,
    has_prefix, has_substring, starts_with_chars, string_from_chars,
};

verus! {

/// Version reported in the capabilities report.
pub const VERSION: &'static str = "0.5.4";

// ---------------------------------------------------------------------------
// Embedding models
// ---------------------------------------------------------------------------
/// Supported embedding models for semantic search.
#[derive(Debug, Clone, Copy, PartialEq, Eq, Structural)]
pub enum EmbeddingModel {
    /// sentence-transformers/all-MiniLM-L6-v2 — 384-dim, ~90 MB
    MiniLmL6V2,
    /// nomic-ai/nomic-embed-text-v1.5 — 768-dim, ~270 MB
    NomicEmbedV15,
}

impl EmbeddingModel {
    /// Dimensionality of the vectors the model produces.
    pub open spec fn dim_of(self) -> usize {
        match self {
            EmbeddingModel::MiniLmL6V2 => 384,
            EmbeddingModel::NomicEmbedV15 => 768,
        }
    }

    /// HuggingFace identifier of the model.
    pub open spec fn hf_id_text(self) -> Seq<char> {
        match self {
            EmbeddingModel::MiniLmL6V2 => "sentence-transformers/all-MiniLM-L6-v2"@,
            EmbeddingModel::NomicEmbedV15 => "nomic-ai/nomic-embed-text-v1.5"@,
        }
    }

    /// Embedding vector dimensionality.
    pub fn dim(&self) -> (r: usize)
        ensures
            r == self.dim_of(),
    {
        match self {
            EmbeddingModel::MiniLmL6V2 => 384,
            EmbeddingModel::NomicEmbedV15 => 768,
        }
    }

    /// HuggingFace model identifier.
    pub fn hf_model_id(&self) -> (r: &str)
        ensures
            r@ == self.hf_id_text(),
    {
        match self {
            EmbeddingModel::MiniLmL6V2 => "sentence-transformers/all-MiniLM-L6-v2",
            EmbeddingModel::NomicEmbedV15 => "nomic-ai/nomic-embed-text-v1.5",
        }
    }
}

// ---------------------------------------------------------------------------
// LLM models
// ---------------------------------------------------------------------------
/// Supported LLM models (served via Ollama).
#[derive(Debug, Clone, Copy, PartialEq, Eq, Structural)]
pub enum LlmModel {
    /// Google Gemma 4 Effective 2B — ~1 GB Q4
    Gemma4E2B,
    /// Google Gemma 4 Effective 4B — ~2.3 GB Q4
    Gemma4E4B,
}

impl LlmModel {
    /// Ollama tag of the model.
    pub open spec fn ollama_id_text(self) -> Seq<char> {
        match self {
            LlmModel::Gemma4E2B => "gemma4:e2b"@,
            LlmModel::Gemma4E4B => "gemma4:e4b"@,
        }
    }

    /// Display name of the model.
    pub open spec fn display_text(self) -> Seq<char> {
        match self {
            LlmModel::Gemma4E2B => "Gemma 4 Effective 2B (Q4)"@,
            LlmModel::Gemma4E4B => "Gemma 4 Effective 4B (Q4)"@,
        }
    }

    /// Ollama model tag used to pull / run this model.
    pub fn ollama_model_id(&self) -> (r: &str)
        ensures
            r@ == self.ollama_id_text(),
    {
        match self {
            LlmModel::Gemma4E2B => "gemma4:e2b",
            LlmModel::Gemma4E4B => "gemma4:e4b",
        }
    }

    /// Human-readable display name.
    pub fn display_name(&self) -> (r: &str)
        ensures
            r@ == self.display_text(),
    {
        match self {
            LlmModel::Gemma4E2B => "Gemma 4 Effective 2B (Q4)",
            LlmModel::Gemma4E4B => "Gemma 4 Effective 4B (Q4)",
        }
    }
}

// ---------------------------------------------------------------------------
// Feature tiers
// ---------------------------------------------------------------------------
/// Feature tiers control which AI capabilities are active based on the
/// available memory budget on the host machine.
#[derive(Debug, Clone, Copy, PartialEq, Eq, Structural)]
pub enum FeatureTier {
    /// FTS5 keyword search only — 0 MB extra.
    Keyword,
    /// MiniLM embeddings + HNSW index — ~256 MB.
    Semantic,
    /// nomic-embed + Gemma 4 E2B via Ollama — ~1 GB.
    Smart,
    /// nomic-embed + Gemma 4 E4B + cross-encoder via Ollama — ~4 GB.
    Autonomous,
}

/// The tier whose name `s` is, ignoring ASCII letter case.
pub open spec fn tier_named(s: Seq<char>) -> Option<FeatureTier> {
    if eq_ignore_ascii_case(s, "keyword"@) {
        Some(FeatureTier::Keyword)
    } else if eq_ignore_ascii_case(s, "semantic"@) {
        Some(FeatureTier::Semantic)
    } else if eq_ignore_ascii_case(s, "smart"@) {
        Some(FeatureTier::Smart)
    } else if eq_ignore_ascii_case(s, "autonomous"@) {
        Some(FeatureTier::Autonomous)
    } else {
        None
    }
}

/// The best tier whose memory needs fit in `mb` megabytes.
pub open spec fn tier_for_budget(mb: usize) -> FeatureTier {
    if mb >= 4096 {
        FeatureTier::Autonomous
    } else if mb >= 1024 {
        FeatureTier::Smart
    } else if mb >= 256 {
        FeatureTier::Semantic
    } else {
        FeatureTier::Keyword
    }
}

impl FeatureTier {
    /// Canonical lowercase name.
    pub open spec fn name_text(self) -> Seq<char> {
        match self {
            FeatureTier::Keyword => "keyword"@,
            FeatureTier::Semantic => "semantic"@,
            FeatureTier::Smart => "smart"@,
            FeatureTier::Autonomous => "autonomous"@,
        }
    }

    /// Position of the tier from the smallest (0) to the largest (3).
    pub open spec fn rank(self) -> int {
        match self {
            FeatureTier::Keyword => 0,
            FeatureTier::Semantic => 1,
            FeatureTier::Smart => 2,
            FeatureTier::Autonomous => 3,
        }
    }

    /// The runtime configuration of the tier.
    pub open spec fn tier_config(self) -> TierConfig {
        match self {
            FeatureTier::Keyword => TierConfig {
                tier: self,
                embedding_model: None,
                llm_model: None,
                cross_encoder: false,
                max_memory_mb: 0,
            },
            FeatureTier::Semantic => TierConfig {
                tier: self,
                embedding_model: Some(EmbeddingModel::MiniLmL6V2),
                llm_model: None,
                cross_encoder: false,
                max_memory_mb: 256,
            },
            FeatureTier::Smart => TierConfig {
                tier: self,
                embedding_model: Some(EmbeddingModel::NomicEmbedV15),
                llm_model: Some(LlmModel::Gemma4E2B),
                cross_encoder: false,
                max_memory_mb: 1024,
            },
            FeatureTier::Autonomous => TierConfig {
                tier: self,
                embedding_model: Some(EmbeddingModel::NomicEmbedV15),
                llm_model: Some(LlmModel::Gemma4E4B),
                cross_encoder: true,
                max_memory_mb: 4096,
            },
        }
    }

    /// Parse a tier name (case-insensitive).
    pub fn from_str(s: &str) -> (r: Option<Self>)
        ensures
            r == tier_named(s@),
    {
        let cs = chars_of(s);
        if eq_ignore_ascii_case_exec(&cs, &chars_of("keyword")) {
            Some(FeatureTier::Keyword)
        } else if eq_ignore_ascii_case_exec(&cs, &chars_of("semantic")) {
            Some(FeatureTier::Semantic)
        } else if eq_ignore_ascii_case_exec(&cs, &chars_of("smart")) {
            Some(FeatureTier::Smart)
        } else if eq_ignore_ascii_case_exec(&cs, &chars_of("autonomous")) {
            Some(FeatureTier::Autonomous)
        } else {
            None
        }
    }

    /// Canonical lowercase name.
    pub fn as_str(&self) -> (r: &str)
        ensures
            r@ == self.name_text(),
    {
        match self {
            FeatureTier::Keyword => "keyword",
            FeatureTier::Semantic => "semantic",
            FeatureTier::Smart => "smart",
            FeatureTier::Autonomous => "autonomous",
        }
    }

    /// Build the full [`TierConfig`] for this tier.
    pub fn config(&self) -> (r: TierConfig)
        ensures
            r == self.tier_config(),
    {
        match self {
            FeatureTier::Keyword => TierConfig {
                tier: *self,
                embedding_model: None,
                llm_model: None,
                cross_encoder: false,
                max_memory_mb: 0,
            },
            FeatureTier::Semantic => TierConfig {
                tier: *self,
                embedding_model: Some(EmbeddingModel::MiniLmL6V2),
                llm_model: None,
                cross_encoder: false,
                max_memory_mb: 256,
            },
            FeatureTier::Smart => TierConfig {
                tier: *self,
                embedding_model: Some(EmbeddingModel::NomicEmbedV15),
                llm_model: Some(LlmModel::Gemma4E2B),
                cross_encoder: false,
                max_memory_mb: 1024,
            },
            FeatureTier::Autonomous => TierConfig {
                tier: *self,
                embedding_model: Some(EmbeddingModel::NomicEmbedV15),
                llm_model: Some(LlmModel::Gemma4E4B),
                cross_encoder: true,
                max_memory_mb: 4096,
            },
        }
    }

    /// Automatically select the best tier that fits within `mb` megabytes.
    pub fn from_memory_budget(mb: usize) -> (r: Self)
        ensures
            r == tier_for_budget(mb),
    {
        if mb >= 4096 {
            FeatureTier::Autonomous
        } else if mb >= 1024 {
            FeatureTier::Smart
        } else if mb >= 256 {
            FeatureTier::Semantic
        } else {
            FeatureTier::Keyword
        }
    }
}

// ---------------------------------------------------------------------------
// Tier configuration
// ---------------------------------------------------------------------------
/// Runtime configuration derived from a [`FeatureTier`].
#[derive(Debug, Clone)]
pub struct TierConfig {
    pub tier: FeatureTier,
    pub embedding_model: Option<EmbeddingModel>,
    pub llm_model: Option<LlmModel>,
    pub cross_encoder: bool,
    pub max_memory_mb: usize,
}

/// Identifier of the cross-encoder used for reranking.
pub open spec fn cross_encoder_text() -> Seq<char> {
    "cross-encoder/ms-marco-MiniLM-L-6-v2"@
}

impl TierConfig {
    /// The feature flags that the configuration enables.
    pub open spec fn features_of(self) -> CapabilityFeatures {
        CapabilityFeatures {
            keyword_search: true,
            semantic_search: self.embedding_model is Some,
            hybrid_recall: self.embedding_model is Some,
            query_expansion: self.llm_model is Some,
            auto_consolidation: self.llm_model is Some,
            auto_tagging: self.llm_model is Some,
            contradiction_analysis: self.llm_model is Some,
            cross_encoder_reranking: self.cross_encoder,
            memory_reflection: self.cross_encoder && self.llm_model is Some,
        }
    }

    /// Produce a [`Capabilities`] report suitable for JSON serialisation.
    pub fn capabilities(&self) -> (r: Capabilities)
        ensures
            r.tier@ == self.tier.name_text(),
            r.version@ == VERSION@,
            r.features == self.features_of(),
            // Keyword search is always on; semantic search and hybrid recall
            // need an embedding model; the LLM features need an LLM;
            // reranking needs the cross-encoder, and reflection needs both the
            // cross-encoder and an LLM.
            r.features.keyword_search,
            r.features.semantic_search == self.embedding_model is Some,
            r.features.hybrid_recall == self.embedding_model is Some,
            r.features.query_expansion == self.llm_model is Some,
            r.features.auto_consolidation == self.llm_model is Some,
            r.features.auto_tagging == self.llm_model is Some,
            r.features.contradiction_analysis == self.llm_model is Some,
            r.features.cross_encoder_reranking == self.cross_encoder,
            r.features.memory_reflection == (self.cross_encoder && self.llm_model is Some),
            r.models.embedding@ == (match self.embedding_model {
                Some(m) => m.hf_id_text(),
                None => "none"@,
            }),
            r.models.embedding_dim == (match self.embedding_model {
                Some(m) => m.dim_of(),
                None => 0,
            }),
            r.models.llm@ == (match self.llm_model {
                Some(m) => m.ollama_id_text(),
                None => "none"@,
            }),
            r.models.cross_encoder@ == (if self.cross_encoder {
                cross_encoder_text()
            } else {
                "none"@
            }),
    {
        let has_embeddings = self.embedding_model.is_some();
        let has_llm = self.llm_model.is_some();
        let embedding = match &self.embedding_model {
            Some(m) => String::from_str(m.hf_model_id()),
            None => String::from_str("none"),
        };
        let embedding_dim = match &self.embedding_model {
            Some(m) => m.dim(),
            None => 0,
        };
        let llm = match &self.llm_model {
            Some(m) => String::from_str(m.ollama_model_id()),
            None => String::from_str("none"),
        };
        let cross_encoder = if self.cross_encoder {
            String::from_str("cross-encoder/ms-marco-MiniLM-L-6-v2")
        } else {
            String::from_str("none")
        };
        Capabilities {
            tier: String::from_str(self.tier.as_str()),
            version: String::from_str(VERSION),
            features: CapabilityFeatures {
                keyword_search: true,
                semantic_search: has_embeddings,
                hybrid_recall: has_embeddings,
                query_expansion: has_llm,
                auto_consolidation: has_llm,
                auto_tagging: has_llm,
                contradiction_analysis: has_llm,
                cross_encoder_reranking: self.cross_encoder,
                memory_reflection: self.cross_encoder && has_llm,
            },
            models: CapabilityModels { embedding, embedding_dim, llm, cross_encoder },
        }
    }
}

// ---------------------------------------------------------------------------
// Capability reporting
// ---------------------------------------------------------------------------
/// Top-level capabilities report for a running instance.
#[derive(Debug, Clone)]
pub struct Capabilities {
    pub tier: String,
    pub version: String,
    pub features: CapabilityFeatures,
    pub models: CapabilityModels,
}

/// Boolean feature flags exposed in the capabilities report.
#[derive(Debug, Clone)]
pub struct CapabilityFeatures {
    pub keyword_search: bool,
    pub semantic_search: bool,
    pub hybrid_recall: bool,
    pub query_expansion: bool,
    pub auto_consolidation: bool,
    pub auto_tagging: bool,
    pub contradiction_analysis: bool,
    pub cross_encoder_reranking: bool,
    pub memory_reflection: bool,
}

/// Model identifiers exposed in the capabilities report.
#[derive(Debug, Clone)]
pub struct CapabilityModels {
    pub embedding: String,
    pub embedding_dim: usize,
    pub llm: String,
    pub cross_encoder: String,
}


// ---------------------------------------------------------------------------
// Database path resolution
// ---------------------------------------------------------------------------
/// `p` is an absolute path: it starts at the root `/`.
pub open spec fn is_absolute_path(p: Seq<char>) -> bool {
    p.len() > 0 && p[0] == '/'
}

/// `base` joined with `rest` as `PathBuf::join` does on Unix: an absolute
/// `rest` replaces `base`; otherwise a `/` goes between them unless `base`
/// is empty or already ends with one.
pub open spec fn path_join(base: Seq<char>, rest: Seq<char>) -> Seq<char> {
    if is_absolute_path(rest) || base.len() == 0 {
        rest
    } else if base.last() == '/' {
        base + rest
    } else {
        base + seq!['/'] + rest
    }
}

/// `p` with a leading `~` or `~/` replaced by `home`; any other path, or
/// any path when `home` is empty, is left as it is (`~user` is not expanded).
pub open spec fn tilde_expanded(p: Seq<char>, home: Seq<char>) -> Seq<char> {
    if !(p.len() > 0 && p[0] == '~') || home.len() == 0 {
        p
    } else if p == seq!['~'] {
        home
    } else if has_prefix(p, seq!['~', '/']) {
        path_join(home, p.skip(2))
    } else {
        p
    }
}

/// `<base>/ai-memory/ai-memory.db` style location under a data directory.
pub open spec fn db_under(base: Seq<char>, sub: Seq<char>) -> Seq<char> {
    path_join(path_join(base, sub), "ai-memory.db"@)
}

/// The default database location for the given environment values:
/// `$XDG_DATA_HOME/ai-memory/ai-memory.db`, else
/// `$HOME/.local/share/ai-memory/ai-memory.db`, else the same under
/// `$USERPROFILE`, else the bare file name `ai-memory.db`.  Unset and empty
/// variables are skipped alike.
pub open spec fn default_db_location(
    xdg_data_home: Option<Seq<char>>,
    home: Option<Seq<char>>,
    user_profile: Option<Seq<char>>,
) -> Seq<char> {
    if xdg_data_home is Some && xdg_data_home->0.len() > 0 {
        db_under(xdg_data_home->0, "ai-memory"@)
    } else if home is Some && home->0.len() > 0 {
        db_under(home->0, ".local/share/ai-memory"@)
    } else if user_profile is Some && user_profile->0.len() > 0 {
        db_under(user_profile->0, ".local/share/ai-memory"@)
    } else {
        "ai-memory.db"@
    }
}

/// Joins two path strings as `PathBuf::join` does on Unix.
pub fn join_path(base: &str, rest: &str) -> (r: String)
    ensures
        r@ == path_join(base@, rest@),
{
    let b = chars_of(base);
    let rs = chars_of(rest);
    if (rs.len() > 0 && rs[0] == '/') || b.len() == 0 {
        return String::from_str(rest);
    }
    let mut out = b;
    if out[out.len() - 1] != '/' {
        out.push('/');
    }
    extend_str(&mut out, rest);
    string_from_chars(&out)
}

/// `true` when `p` does not start at the root, so that it would be resolved
/// against the working directory (such a database path is warned about).
pub fn is_relative_path(p: &str) -> (r: bool)
    ensures
        r == !is_absolute_path(p@),
{
    let cs = chars_of(p);
    !(cs.len() > 0 && cs[0] == '/')
}

/// Compute the platform-appropriate default absolute path for the database
/// from the values of `XDG_DATA_HOME`, `HOME` and `USERPROFILE`.
///
/// Resolution order:
/// 1. `$XDG_DATA_HOME/ai-memory/ai-memory.db` (if `XDG_DATA_HOME` is set)
/// 2. `$HOME/.local/share/ai-memory/ai-memory.db`
/// 3. Falls back to `ai-memory.db` only if `HOME` cannot be determined
pub fn default_db_path(
    xdg_data_home: Option<&str>,
    home: Option<&str>,
    user_profile: Option<&str>,
) -> (r: String)
    ensures
        r@ == default_db_location(
            match xdg_data_home {
                Some(x) => Some(x@),
                None => None,
            },
            match home {
                Some(x) => Some(x@),
                None => None,
            },
            match user_profile {
                Some(x) => Some(x@),
                None => None,
            },
        ),
{
    if let Some(xdg) = xdg_data_home {
        if xdg.unicode_len() > 0 {
            let dir = join_path(xdg, "ai-memory");
            return join_path(dir.as_str(), "ai-memory.db");
        }
    }
    if let Some(h) = home {
        if h.unicode_len() > 0 {
            let dir = join_path(h, ".local/share/ai-memory");
            return join_path(dir.as_str(), "ai-memory.db");
        }
    }
    if let Some(p) = user_profile {
        if p.unicode_len() > 0 {
            let dir = join_path(p, ".local/share/ai-memory");
            return join_path(dir.as_str(), "ai-memory.db");
        }
    }
    String::from_str("ai-memory.db")
}

/// Pure tilde-expansion helper: `~/foo` → `$HOME/foo`, `~` → `$HOME`, where
/// `home` is the home directory (empty when it cannot be determined).
pub fn expand_tilde(p: &str, home: &str) -> (r: String)
    ensures
        r@ == tilde_expanded(p@, home@),
{
    let cs = chars_of(p);
    if !(cs.len() > 0 && cs[0] == '~') || home.unicode_len() == 0 {
        return String::from_str(p);
    }
    if cs.len() == 1 {
        assert(p@ =~= seq!['~']);
        return String::from_str(home);
    }
    assert(p@ != seq!['~']);
    let prefix = vec!['~', '/'];
    if starts_with_chars(&cs, &prefix) {
        let mut rest: Vec<char> = Vec::new();
        let mut i: usize = 2;
        while i < cs.len()
            invariant
                2 <= i <= cs.len(),
                rest@ == cs@.subrange(2, i as int),
            decreases cs.len() - i,
        {
            rest.push(cs[i]);
            i = i + 1;
        }
        assert(rest@ =~= p@.skip(2));
        let rest_s = string_from_chars(&rest);
        return join_path(home, rest_s.as_str());
    }
    String::from_str(p)
}

/// Expand a leading `~` to the home directory.
///
/// Returns the path unchanged if it does not start with `~`.  A relative
/// result causes silent fragmentation across working directories; callers
/// check it with [`is_relative_path`] and warn.
pub fn resolve_db_path(raw: &str, home: &str) -> (r: String)
    ensures
        r@ == tilde_expanded(raw@, home@),
{
    expand_tilde(raw, home)
}

// ---------------------------------------------------------------------------
// Persistent configuration
// ---------------------------------------------------------------------------
/// Persistent configuration loaded from `~/.config/ai-memory/config.toml`.
///
/// All fields are optional — CLI flags override file values, which override
/// compiled defaults.
#[derive(Debug, Clone)]
pub struct AppConfig {
    /// Feature tier: keyword, semantic, smart, autonomous
    pub tier: Option<String>,
    /// Path to the SQLite database file
    pub db: Option<String>,
    /// Ollama base URL for LLM generation (default: http://localhost:11434)
    pub ollama_url: Option<String>,
    /// Separate URL for embedding model (defaults to ollama_url if unset)
    pub embed_url: Option<String>,
    /// Embedding model override: mini_lm_l6_v2 or nomic_embed_v15
    pub embedding_model: Option<String>,
    /// LLM model override (Ollama tag, e.g. "gemma4:e2b")
    pub llm_model: Option<String>,
    /// Enable cross-encoder reranking (true/false)
    pub cross_encoder: Option<bool>,
    /// Default namespace for new memories
    pub default_namespace: Option<String>,
    /// Maximum memory budget in MB (used for auto tier selection)
    pub max_memory_mb: Option<usize>,
}

impl Default for AppConfig {
    fn default() -> (r: Self)
        ensures
            r.tier is None,
            r.db is None,
            r.ollama_url is None,
            r.embed_url is None,
            r.embedding_model is None,
            r.llm_model is None,
            r.cross_encoder is None,
            r.default_namespace is None,
            r.max_memory_mb is None,
    {
        AppConfig {
            tier: None,
            db: None,
            ollama_url: None,
            embed_url: None,
            embedding_model: None,
            llm_model: None,
            cross_encoder: None,
            default_namespace: None,
            max_memory_mb: None,
        }
    }
}

/// The view of an optional string.
pub open spec fn opt_view(s: Option<String>) -> Option<Seq<char>> {
    match s {
        Some(x) => Some(x@),
        None => None,
    }
}

/// URL used when none is configured.
pub open spec fn default_ollama_url() -> Seq<char> {
    "http://localhost:11434"@
}

/// `url` names the local machine: it contains `localhost`, `127.0.0.1` or
/// `[::1]`.
pub open spec fn is_local_url(url: Seq<char>) -> bool {
    has_substring(url, "localhost"@) || has_substring(url, "127.0.0.1"@) || has_substring(
        url,
        "[::1]"@,
    )
}

/// URLs that point away from the local machine and deserve a warning.
#[derive(Debug, Clone)]
pub struct NonLocalUrls {
    /// The Ollama URL, when it is not local.
    pub ollama_url: Option<String>,
    /// The embedding URL, when it differs from the Ollama URL and is not local.
    pub embed_url: Option<String>,
}

fn is_local_url_exec(url: &str) -> (r: bool)
    ensures
        r == is_local_url(url@),
{
    let cs = chars_of(url);
    contains_chars(&cs, &chars_of("localhost")) || contains_chars(&cs, &chars_of("127.0.0.1"))
        || contains_chars(&cs, &chars_of("[::1]"))
}

fn str_eq(a: &str, b: &str) -> (r: bool)
    ensures
        r == (a@ == b@),
{
    let x = chars_of(a);
    let y = chars_of(b);
    if x.len() != y.len() {
        return false;
    }
    for i in 0..x.len()
        invariant
            x@ == a@,
            y@ == b@,
            x.len() == y.len(),
            forall|j: int| 0 <= j < i ==> x@[j] == y@[j],
    {
        if x[i] != y[i] {
            assert(x@[i as int] != y@[i as int]);
            return false;
        }
    }
    assert(x@ =~= y@);
    true
}

impl AppConfig {
    /// The tier name in force: the CLI value, else the configured one, else
    /// `semantic`.
    pub open spec fn chosen_tier_name(self, cli_tier: Option<Seq<char>>) -> Seq<char> {
        match cli_tier {
            Some(t) => t,
            None => match self.tier {
                Some(t) => t@,
                None => "semantic"@,
            },
        }
    }

    /// The database path in force before tilde expansion.
    pub open spec fn chosen_db(self, cli_db: Seq<char>, cli_explicit: bool, default_path: Seq<
        char,
    >) -> Seq<char> {
        if cli_explicit {
            cli_db
        } else {
            match self.db {
                Some(d) => d@,
                None => default_path,
            }
        }
    }

    /// The Ollama URL in force.
    pub open spec fn ollama_url_text(self) -> Seq<char> {
        match self.ollama_url {
            Some(u) => u@,
            None => default_ollama_url(),
        }
    }

    /// The embedding URL in force.
    pub open spec fn embed_url_text(self) -> Seq<char> {
        match self.embed_url {
            Some(u) => u@,
            None => self.ollama_url_text(),
        }
    }

    /// Resolve the effective feature tier from config (CLI flag overrides);
    /// an unknown name falls back to `semantic`.
    pub fn effective_tier(&self, cli_tier: Option<&str>) -> (r: FeatureTier)
        ensures
            r == (match tier_named(
                self.chosen_tier_name(
                    match cli_tier {
                        Some(t) => Some(t@),
                        None => None,
                    },
                ),
            ) {
                Some(t) => t,
                None => FeatureTier::Semantic,
            }),
    {
        let tier_str: &str = match cli_tier {
            Some(t) => t,
            None => match &self.tier {
                Some(t) => t.as_str(),
                None => "semantic",
            },
        };
        match FeatureTier::from_str(tier_str) {
            Some(t) => t,
            None => FeatureTier::Semantic,
        }
    }

    /// Resolve the effective database path.
    ///
    /// Priority (highest wins):
    /// 1. `--db` explicitly passed on the command line (`cli_explicit == true`)
    /// 2. `db` key in `config.toml`
    /// 3. the default location `default_path` (see [`default_db_path`])
    ///
    /// The chosen path goes through [`resolve_db_path`] for tilde expansion
    /// with the home directory `home`.
    pub fn effective_db(&self, cli_db: &str, cli_explicit: bool, default_path: &str, home: &str) -> (r:
        String)
        ensures
            r@ == tilde_expanded(self.chosen_db(cli_db@, cli_explicit, default_path@), home@),
    {
        let raw: &str = if cli_explicit {
            cli_db
        } else {
            match &self.db {
                Some(d) => d.as_str(),
                None => default_path,
            }
        };
        resolve_db_path(raw, home)
    }

    /// Resolve Ollama URL for LLM generation (config or default).
    pub fn effective_ollama_url(&self) -> (r: &str)
        ensures
            r@ == self.ollama_url_text(),
    {
        match &self.ollama_url {
            Some(u) => u.as_str(),
            None => "http://localhost:11434",
        }
    }

    /// Resolve URL for embedding model (falls back to ollama_url).
    pub fn effective_embed_url(&self) -> (r: &str)
        ensures
            r@ == self.embed_url_text(),
    {
        match &self.embed_url {
            Some(u) => u.as_str(),
            None => self.effective_ollama_url(),
        }
    }

    /// The URLs to warn about at startup (SSRF risk): the Ollama URL when it
    /// is not local, and the embedding URL when it differs from the Ollama
    /// URL and is not local.
    pub fn warn_non_localhost_urls(&self) -> (r: NonLocalUrls)
        ensures
            opt_view(r.ollama_url) == (if is_local_url(self.ollama_url_text()) {
                None
            } else {
                Some(self.ollama_url_text())
            }),
            opt_view(r.embed_url) == (if self.embed_url_text() == self.ollama_url_text()
                || is_local_url(self.embed_url_text()) {
                None
            } else {
                Some(self.embed_url_text())
            }),
    {
        let ollama = self.effective_ollama_url();
        let ollama_warn = if !is_local_url_exec(ollama) {
            Some(String::from_str(ollama))
        } else {
            None
        };
        let embed = self.effective_embed_url();
        let embed_warn = if !str_eq(embed, ollama) && !is_local_url_exec(embed) {
            Some(String::from_str(embed))
        } else {
            None
        };
        NonLocalUrls { ollama_url: ollama_warn, embed_url: embed_warn }
    }
}

// ---------------------------------------------------------------------------
// Laws
// ---------------------------------------------------------------------------
/// Parsing the canonical name of a tier gives the tier back.
pub proof fn lemma_tier_name_roundtrip(t: FeatureTier)
    ensures
        tier_named(t.name_text()) == Some(t),
{
    reveal_strlit("keyword");
    reveal_strlit("semantic");
    reveal_strlit("smart");
    reveal_strlit("autonomous");
}

/// A name parses to a tier exactly when it is that tier's canonical name
/// up to ASCII letter case.
pub proof fn lemma_tier_names_ignore_case(s: Seq<char>, t: FeatureTier)
    ensures
        tier_named(s) == Some(t) <==> eq_ignore_ascii_case(s, t.name_text()),
{
    reveal_strlit("keyword");
    reveal_strlit("semantic");
    reveal_strlit("smart");
    reveal_strlit("autonomous");
}

/// The tier chosen for a memory budget fits in it, and every tier that fits
/// is no larger than the chosen one.
pub proof fn lemma_budget_tier_is_best_fit(mb: usize, t: FeatureTier)
    ensures
        tier_for_budget(mb).tier_config().max_memory_mb <= mb,
        t.tier_config().max_memory_mb <= mb ==> t.rank() <= tier_for_budget(mb).rank(),
{
}

/// A larger memory budget never selects a smaller tier.
pub proof fn lemma_budget_tier_monotonic(a: usize, b: usize)
    requires
        a <= b,
    ensures
        tier_for_budget(a).rank() <= tier_for_budget(b).rank(),
{
}

/// Every feature that a tier enables is enabled by every larger tier too.
pub proof fn lemma_larger_tier_has_more_features(t1: FeatureTier, t2: FeatureTier)
    requires
        t1.rank() <= t2.rank(),
    ensures
        ({
            let f1 = t1.tier_config().features_of();
            let f2 = t2.tier_config().features_of();
            &&& f1.keyword_search ==> f2.keyword_search
            &&& f1.semantic_search ==> f2.semantic_search
            &&& f1.hybrid_recall ==> f2.hybrid_recall
            &&& f1.query_expansion ==> f2.query_expansion
            &&& f1.auto_consolidation ==> f2.auto_consolidation
            &&& f1.auto_tagging ==> f2.auto_tagging
            &&& f1.contradiction_analysis ==> f2.contradiction_analysis
            &&& f1.cross_encoder_reranking ==> f2.cross_encoder_reranking
            &&& f1.memory_reflection ==> f2.memory_reflection
        }),
{
}

/// Expanding `~` or `~/...` against an absolute home directory gives an
/// absolute path.
pub proof fn lemma_tilde_expansion_absolute(p: Seq<char>, home: Seq<char>)
    requires
        is_absolute_path(home),
        p == seq!['~'] || has_prefix(p, seq!['~', '/']),
    ensures
        is_absolute_path(tilde_expanded(p, home)),
{
    if p != seq!['~'] {
        assert(p[0] == p.take(2)[0]);
        let rest = p.skip(2);
        if !is_absolute_path(rest) {
            assert(path_join(home, rest)[0] == home[0]);
        }
    }
}

/// A path that does not start with `~` is never changed by tilde expansion.
pub proof fn lemma_tilde_expansion_only_touches_tilde(p: Seq<char>, home: Seq<char>)
    requires
        !(p.len() > 0 && p[0] == '~'),
    ensures
        tilde_expanded(p, home) == p,
{
}

/// With a non-empty absolute `XDG_DATA_HOME`, or else a non-empty absolute
/// `HOME`, the default database location is absolute and is the file
/// `ai-memory.db` in an `ai-memory` directory.
pub proof fn lemma_default_db_location_absolute(
    xdg_data_home: Option<Seq<char>>,
    home: Option<Seq<char>>,
    user_profile: Option<Seq<char>>,
)
    requires
        (xdg_data_home is Some && xdg_data_home->0.len() > 0 && is_absolute_path(xdg_data_home->0))
            || ((xdg_data_home is None || xdg_data_home->0.len() == 0) && home is Some
            && is_absolute_path(home->0)),
    ensures
        is_absolute_path(default_db_location(xdg_data_home, home, user_profile)),
        has_substring(default_db_location(xdg_data_home, home, user_profile), "ai-memory"@),
        ({
            let d = default_db_location(xdg_data_home, home, user_profile);
            d.len() >= 12 && d.skip(d.len() - 12) == "ai-memory.db"@
        }),
{
    reveal_strlit("ai-memory.db");
    reveal_strlit("ai-memory");
    reveal_strlit(".local/share/ai-memory");
    let base = if xdg_data_home is Some && xdg_data_home->0.len() > 0 {
        xdg_data_home->0
    } else {
        home->0
    };
    let sub: Seq<char> = if xdg_data_home is Some && xdg_data_home->0.len() > 0 {
        "ai-memory"@
    } else {
        ".local/share/ai-memory"@
    };
    let dir = path_join(base, sub);
    assert(dir[0] == '/');
    let d = path_join(dir, "ai-memory.db"@);
    assert(d[0] == '/');
    assert(d.skip(d.len() - 12) =~= "ai-memory.db"@);
    assert(d.subrange(d.len() - 12, d.len() - 12 + 9) =~= "ai-memory"@);
}

} // verus!
