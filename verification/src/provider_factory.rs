//! The switchable-model catalog: numbered listing, `/model` argument
//! lookup, the delegation briefing for the system prompt, and how
//! discovered Ollama tags join the configured aliases.
use vstd::prelude::*;

use crate::config::{key_env, ProviderConfig};
use crate::text::{
    decimal, extend, extend_str, from_chars, parse_unsigned, parse_unsigned_exec, push_decimal,
    str_eq, to_chars,
};

verus! {

/// Why a model could not be resolved.
#[derive(Debug, Clone, PartialEq, Eq)]
pub enum FactoryError {
    UnknownModel(String),
    UnknownProvider(String),
    MissingKey(String),
}

pub open spec fn factory_error_text(e: FactoryError) -> Seq<char> {
    match e {
        FactoryError::UnknownModel(a) => "unknown model alias `"@ + a@ + "`"@,
        FactoryError::UnknownProvider(p) => "model references undefined provider `"@ + p@ + "`"@,
        FactoryError::MissingKey(v) => "environment variable `"@ + v@ + "` is not set"@,
    }
}

impl FactoryError {
    /// The message shown for the error.
    pub fn message(&self) -> (r: String)
        ensures
            r@ == factory_error_text(*self),
    {
        let mut v: Vec<char> = Vec::new();
        match self {
            FactoryError::UnknownModel(a) => {
                extend_str(&mut v, "unknown model alias `");
                extend_str(&mut v, a.as_str());
                extend_str(&mut v, "`");
            },
            FactoryError::UnknownProvider(p) => {
                extend_str(&mut v, "model references undefined provider `");
                extend_str(&mut v, p.as_str());
                extend_str(&mut v, "`");
            },
            FactoryError::MissingKey(k) => {
                extend_str(&mut v, "environment variable `");
                extend_str(&mut v, k.as_str());
                extend_str(&mut v, "` is not set");
            },
        }
        from_chars(v.as_slice())
    }
}

/// The kind of client a provider entry calls for.
#[derive(Debug, Clone, Copy, PartialEq, Eq, Structural)]
pub enum ProviderKind {
    Ollama,
    Openai,
    Anthropic,
    Gemini,
}

/// How to build the client for a model's provider: its kind, endpoint,
/// the environment variable holding its key (none for Ollama), and whether
/// the model runs locally.
#[derive(Debug)]
pub struct ProviderPlan {
    pub kind: ProviderKind,
    pub base_url: String,
    pub key_env: Option<String>,
    pub is_local: bool,
}

pub open spec fn kind_of(p: ProviderConfig) -> ProviderKind {
    match p {
        ProviderConfig::Ollama { .. } => ProviderKind::Ollama,
        ProviderConfig::Openai { .. } => ProviderKind::Openai,
        ProviderConfig::Anthropic { .. } => ProviderKind::Anthropic,
        ProviderConfig::Gemini { .. } => ProviderKind::Gemini,
    }
}

pub open spec fn base_url_of(p: ProviderConfig) -> Seq<char> {
    match p {
        ProviderConfig::Ollama { base_url } => base_url@,
        ProviderConfig::Openai { base_url, .. } => base_url@,
        ProviderConfig::Anthropic { base_url, .. } => base_url@,
        ProviderConfig::Gemini { base_url, .. } => base_url@,
    }
}

/// The first provider entry named `name`.
pub open spec fn provider_named(s: Seq<(String, ProviderConfig)>, name: Seq<char>) -> Option<ProviderConfig>
    decreases s.len(),
{
    if s.len() == 0 {
        None
    } else if s[0].0@ == name {
        Some(s[0].1)
    } else {
        provider_named(s.drop_first(), name)
    }
}

/// How a model on provider `provider` is served, given the names of the
/// environment variables that are set: an undefined provider, or a cloud
/// provider whose key variable is unset, is an error.
pub open spec fn provider_plan(s: Seq<(String, ProviderConfig)>, provider: Seq<char>, present: Seq<Seq<char>>) -> Result<(ProviderKind, Seq<char>, Option<Seq<char>>, bool), FactoryErrorView> {
    match provider_named(s, provider) {
        None => Err(FactoryErrorView::UnknownProvider(provider)),
        Some(p) => match key_env(p) {
            Some(k) => if present.contains(k) {
                Ok((kind_of(p), base_url_of(p), Some(k), false))
            } else {
                Err(FactoryErrorView::MissingKey(k))
            },
            None => Ok((kind_of(p), base_url_of(p), None, true)),
        },
    }
}

pub enum FactoryErrorView {
    UnknownModel(Seq<char>),
    UnknownProvider(Seq<char>),
    MissingKey(Seq<char>),
}

impl View for FactoryError {
    type V = FactoryErrorView;

    open spec fn view(&self) -> FactoryErrorView {
        match self {
            FactoryError::UnknownModel(a) => FactoryErrorView::UnknownModel(a@),
            FactoryError::UnknownProvider(p) => FactoryErrorView::UnknownProvider(p@),
            FactoryError::MissingKey(k) => FactoryErrorView::MissingKey(k@),
        }
    }
}

pub open spec fn plan_view(p: ProviderPlan) -> (ProviderKind, Seq<char>, Option<Seq<char>>, bool) {
    (p.kind, p.base_url@, crate::model::opt_view(p.key_env), p.is_local)
}

/// Plan the client for a model on `provider` (see `provider_plan`).
pub fn plan_provider(providers: &Vec<(String, ProviderConfig)>, provider: &str, present: &Vec<String>) -> (r: Result<ProviderPlan, FactoryError>)
    ensures
        match r {
            Ok(p) => provider_plan(providers@, provider@, str_views(present@)) == Ok::<
                (ProviderKind, Seq<char>, Option<Seq<char>>, bool),
                FactoryErrorView,
            >(plan_view(p)),
            Err(e) => provider_plan(providers@, provider@, str_views(present@)) == Err::<
                (ProviderKind, Seq<char>, Option<Seq<char>>, bool),
                FactoryErrorView,
            >(e@),
        },
{
    let mut i: usize = 0;
    assert(providers@.skip(0) =~= providers@);
    while i < providers.len()
        invariant
            i <= providers@.len(),
            provider_named(providers@, provider@) == provider_named(providers@.skip(i as int), provider@),
        decreases providers@.len() - i,
    {
        proof {
            let t = providers@.skip(i as int);
            assert(t[0] == providers@[i as int]);
            assert(t.drop_first() =~= providers@.skip(i + 1));
        }
        if str_eq(providers[i].0.as_str(), provider) {
            let (kind, base_url, key) = match &providers[i].1 {
                ProviderConfig::Ollama { base_url } => (ProviderKind::Ollama, base_url.clone(), None),
                ProviderConfig::Openai { base_url, api_key_env } => (
                    ProviderKind::Openai,
                    base_url.clone(),
                    Some(api_key_env.clone()),
                ),
                ProviderConfig::Anthropic { base_url, api_key_env } => (
                    ProviderKind::Anthropic,
                    base_url.clone(),
                    Some(api_key_env.clone()),
                ),
                ProviderConfig::Gemini { base_url, api_key_env } => (
                    ProviderKind::Gemini,
                    base_url.clone(),
                    Some(api_key_env.clone()),
                ),
            };
            match key {
                Some(k) => {
                    let mut set = false;
                    let ghost pv = str_views(present@);
                    let mut j: usize = 0;
                    while j < present.len()
                        invariant
                            j <= present@.len(),
                            pv == str_views(present@),
                            set == pv.take(j as int).contains(k@),
                        decreases present@.len() - j,
                    {
                        let hit = str_eq(present[j].as_str(), k.as_str());
                        proof {
                            let a = pv.take(j as int);
                            let b = pv.take(j + 1);
                            assert(b =~= a.push(pv[j as int]));
                            assert(pv[j as int] == present@[j as int]@);
                            if hit {
                                assert(b[j as int] == k@);
                            } else if b.contains(k@) {
                                let w = choose|w: int| 0 <= w < b.len() && b[w] == k@;
                                assert(a[w] == k@);
                            }
                            if a.contains(k@) {
                                let w = choose|w: int| 0 <= w < a.len() && a[w] == k@;
                                assert(b[w] == k@);
                            }
                        }
                        if hit {
                            set = true;
                        }
                        j = j + 1;
                    }
                    assert(str_views(present@).take(present@.len() as int) =~= str_views(present@));
                    if set {
                        return Ok(ProviderPlan { kind, base_url, key_env: Some(k), is_local: false });
                    } else {
                        return Err(FactoryError::MissingKey(k));
                    }
                },
                None => {
                    return Ok(ProviderPlan { kind, base_url, key_env: None, is_local: true });
                },
            }
        }
        i = i + 1;
    }
    proof {
        assert(providers@.skip(providers@.len() as int) =~= Seq::<(String, ProviderConfig)>::empty());
    }
    Err(FactoryError::UnknownProvider(provider.to_string()))
}

/// The first tag an Ollama provider reported, for `--model <provider>`;
/// a provider with none is an unknown model.
pub fn first_model_name(models: &Vec<OllamaModel>, provider: &str) -> (r: Result<String, FactoryError>)
    ensures
        match r {
            Ok(n) => models@.len() > 0 && n@ == models@[0].name@,
            Err(e) => models@.len() == 0 && e@ == FactoryErrorView::UnknownModel(provider@),
        },
{
    if models.len() > 0 {
        Ok(models[0].name.clone())
    } else {
        Err(FactoryError::UnknownModel(provider.to_string()))
    }
}

/// Where a switchable model comes from.
#[derive(Debug, Clone)]
pub enum ModelOrigin {
    /// An Ollama tag, with what `/api/tags` reported of it.
    Local { size_bytes: u64, parameter_size: Option<String> },
    /// A `[models]` alias pointing at a provider.
    Alias { provider: String },
}

/// What is known of one switchable model.
#[derive(Debug, Clone)]
pub struct ModelInfo {
    pub name: String,
    pub origin: ModelOrigin,
}

/// The models `/model` can switch to: the configured aliases first, then
/// every tag each Ollama provider reported.
pub struct ModelCatalog {
    pub entries: Vec<String>,
    /// What is known of each model, for the delegation briefing.
    pub info: Vec<ModelInfo>,
}

/// One model an Ollama server reports.
#[derive(Debug, Clone)]
pub struct OllamaModel {
    pub name: String,
    /// On-disk size in bytes.
    pub size: u64,
    /// Such as `8.0B`.
    pub parameter_size: Option<String>,
    /// Such as `Q4_K_M`.
    pub quantization: Option<String>,
}

pub open spec fn str_views(v: Seq<String>) -> Seq<Seq<char>> {
    v.map_values(|s: String| s@)
}

/// `{:>2}` of a number: padded on the left to two characters.
pub open spec fn pad2(n: nat) -> Seq<char> {
    if n < 10 {
        seq![' '] + decimal(n)
    } else {
        decimal(n)
    }
}

pub open spec fn listing_line(i: nat, entry: Seq<char>, current: Seq<char>) -> Seq<char> {
    "  "@ + pad2(i + 1) + ". "@ + entry + (if entry == current {
        " ← current"@
    } else {
        Seq::empty()
    }) + "\n"@
}

pub open spec fn listing_lines(es: Seq<Seq<char>>, current: Seq<char>) -> Seq<char>
    decreases es.len(),
{
    if es.len() == 0 {
        Seq::empty()
    } else {
        listing_lines(es.drop_last(), current) + listing_line(
            (es.len() - 1) as nat,
            es.last(),
            current,
        )
    }
}

pub open spec fn listing_text(es: Seq<Seq<char>>, current: Seq<char>) -> Seq<char> {
    "models (switch with /model <number|name>):\n"@ + listing_lines(es, current)
        + "  (or any provider/model, e.g. anthropic/opus-4-8)"@
}

/// The model to switch to for a `/model` argument: a number from 1 picks
/// that entry of the listing; anything else is taken as a name.
pub open spec fn pick_spec(es: Seq<Seq<char>>, arg: Seq<char>) -> Seq<char> {
    match parse_unsigned(arg, usize::MAX as nat) {
        Some(n) => if 1 <= n <= es.len() {
            es[n - 1]
        } else {
            arg
        },
        None => arg,
    }
}

/// Most models the delegation briefing lists.
pub const BRIEFING_CAP: usize = 12;

pub open spec fn briefing_line(m: ModelInfo, main: Seq<char>, note: Seq<char>) -> Seq<char> {
    "- "@ + m.name@ + (if m.name@ == main {
        " (current main)"@
    } else {
        Seq::empty()
    }) + match m.origin {
        ModelOrigin::Local { .. } => ": local, "@ + note + "\n"@,
        ModelOrigin::Alias { provider } => ": alias via "@ + provider@
            + " — cloud aliases cost money per token; strong reasoning\n"@,
    }
}

pub open spec fn briefing_lines(info: Seq<ModelInfo>, main: Seq<char>, notes: Seq<Seq<char>>, n: nat) -> Seq<char>
    decreases n,
{
    if n == 0 {
        Seq::empty()
    } else {
        briefing_lines(info, main, notes, (n - 1) as nat) + briefing_line(
            info[n - 1],
            main,
            notes[n - 1],
        )
    }
}

pub open spec fn briefing_text(info: Seq<ModelInfo>, main: Seq<char>, notes: Seq<Seq<char>>) -> Seq<char> {
    if info.len() == 0 {
        Seq::empty()
    } else {
        let shown: nat = if info.len() > BRIEFING_CAP {
            BRIEFING_CAP as nat
        } else {
            info.len()
        };
        "\n\nModels available for delegation (task tool `model` parameter):\n"@
            + briefing_lines(info, main, notes, shown) + (if info.len() > BRIEFING_CAP {
            "  (+"@ + decimal((info.len() - BRIEFING_CAP) as nat) + " more — /model lists all)\n"@
        } else {
            Seq::empty()
        }) + BRIEFING_ADVICE@
    }
}

pub const BRIEFING_ADVICE: &'static str = "When delegating with the task tool you may set `model` to any name above. Pick the SMALLEST model adequate for the subtask; omit `model` to use the profile default. Local models cost time only; cloud models cost money.";

/// A catalog whose entries are the configured aliases, each with the
/// provider it points at.
pub open spec fn aliases_catalog(aliases: Seq<(String, String)>) -> (Seq<Seq<char>>, Seq<(Seq<char>, Option<Seq<char>>)>) {
    (
        aliases.map_values(|a: (String, String)| a.0@),
        aliases.map_values(|a: (String, String)| (a.0@, Some(a.1@))),
    )
}

/// What the briefing needs of one model: its name, and the provider of an
/// alias (`None` for a local tag).
pub open spec fn info_key(m: ModelInfo) -> (Seq<char>, Option<Seq<char>>) {
    (
        m.name@,
        match m.origin {
            ModelOrigin::Alias { provider } => Some(provider@),
            ModelOrigin::Local { .. } => None,
        },
    )
}

pub open spec fn info_keys(v: Seq<ModelInfo>) -> Seq<(Seq<char>, Option<Seq<char>>)> {
    v.map_values(|m: ModelInfo| info_key(m))
}

/// A discovered tag as the catalog records it: name, size in bytes and
/// parameter size.
pub type Found = (Seq<char>, u64, Option<Seq<char>>);

pub open spec fn found(m: OllamaModel) -> Found {
    (m.name@, m.size, crate::model::opt_view(m.parameter_size))
}

/// Discovered tags join the entries in order, each unless its name is
/// already there; the second part lists the tags that joined.
pub open spec fn with_discovered(entries: Seq<Seq<char>>, models: Seq<Found>) -> (Seq<Seq<char>>, Seq<Found>)
    decreases models.len(),
{
    if models.len() == 0 {
        (entries, Seq::empty())
    } else {
        let (e, added) = with_discovered(entries, models.drop_last());
        if e.contains(models.last().0) {
            (e, added)
        } else {
            (e.push(models.last().0), added.push(models.last()))
        }
    }
}

pub open spec fn founds(v: Seq<OllamaModel>) -> Seq<Found> {
    v.map_values(|m: OllamaModel| found(m))
}

/// The local models among catalog infos, as `Found`.
pub open spec fn local_found(m: ModelInfo) -> Found {
    match m.origin {
        ModelOrigin::Local { size_bytes, parameter_size } => (
            m.name@,
            size_bytes,
            crate::model::opt_view(parameter_size),
        ),
        ModelOrigin::Alias { .. } => (m.name@, 0, None),
    }
}

pub open spec fn local_founds(v: Seq<ModelInfo>) -> Seq<Found> {
    v.map_values(|m: ModelInfo| local_found(m))
}

impl ModelCatalog {
    /// The catalog of the configured aliases (name and provider of each),
    /// before any discovery.
    pub fn from_aliases(aliases: &Vec<(String, String)>) -> (r: ModelCatalog)
        ensures
            str_views(r.entries@) == aliases_catalog(aliases@).0,
            info_keys(r.info@) == aliases_catalog(aliases@).1,
            r.entries@.len() == r.info@.len(),
    {
        let mut entries: Vec<String> = Vec::new();
        let mut info: Vec<ModelInfo> = Vec::new();
        let mut i: usize = 0;
        while i < aliases.len()
            invariant
                i <= aliases@.len(),
                str_views(entries@) =~= aliases_catalog(aliases@).0.take(i as int),
                info_keys(info@) =~= aliases_catalog(aliases@).1.take(i as int),
                entries@.len() == i,
                info@.len() == i,
            decreases aliases@.len() - i,
        {
            let ghost e0 = entries@;
            let ghost i0 = info@;
            let name = aliases[i].0.clone();
            entries.push(aliases[i].0.clone());
            info.push(ModelInfo { name, origin: ModelOrigin::Alias { provider: aliases[i].1.clone() } });
            assert(str_views(entries@) =~= str_views(e0).push(aliases@[i as int].0@));
            assert(info_keys(info@) =~= info_keys(i0).push((aliases@[i as int].0@, Some(aliases@[i as int].1@))));
            i = i + 1;
        }
        ModelCatalog { entries, info }
    }

    /// Add the tags an Ollama provider reported: each one not already among
    /// the entries joins them, with its size and parameter size.
    pub fn add_discovered(&mut self, models: Vec<OllamaModel>)
        ensures
            str_views(final(self).entries@) == with_discovered(str_views(old(self).entries@), founds(models@)).0,
            final(self).info@.take(old(self).info@.len() as int) == old(self).info@,
            local_founds(final(self).info@.skip(old(self).info@.len() as int)) == with_discovered(
                str_views(old(self).entries@),
                founds(models@),
            ).1,
            forall|i: int| old(self).info@.len() <= i < final(self).info@.len() ==> (#[trigger] final(self).info@[i]).origin is Local,
    {
        let ghost e0 = str_views(self.entries@);
        let ghost n0 = self.info@.len();
        let ghost info0 = self.info@;
        let ghost names = founds(models@);
        proof {
            assert(info0.take(n0 as int) =~= info0);
            assert(info0.skip(n0 as int) =~= Seq::<ModelInfo>::empty());
            assert(local_founds(info0.skip(n0 as int)) =~= Seq::<Found>::empty());
            assert(names.take(0) =~= Seq::<Found>::empty());
        }
        let mut i: usize = 0;
        while i < models.len()
            invariant
                i <= models@.len(),
                names == founds(models@),
                str_views(self.entries@) == with_discovered(e0, names.take(i as int)).0,
                local_founds(self.info@.skip(n0 as int)) == with_discovered(e0, names.take(i as int)).1,
                self.info@.len() >= n0,
                self.info@.take(n0 as int) == info0,
                forall|k: int| n0 <= k < self.info@.len() ==> (#[trigger] self.info@[k]).origin is Local,
            decreases models@.len() - i,
        {
            proof {
                assert(names.take(i + 1).drop_last() =~= names.take(i as int));
                assert(names.take(i + 1).last() == found(models@[i as int]));
            }
            let m = &models[i];
            let mut present = false;
            let mut j: usize = 0;
            while j < self.entries.len()
                invariant
                    j <= self.entries@.len(),
                    present == exists|k: int| 0 <= k < j && (#[trigger] self.entries@[k])@ == m.name@,
                decreases self.entries@.len() - j,
            {
                if str_eq(self.entries[j].as_str(), m.name.as_str()) {
                    present = true;
                }
                j = j + 1;
            }
            proof {
                let ev = str_views(self.entries@);
                if present {
                    let k = choose|k: int| 0 <= k < self.entries@.len() && (#[trigger] self.entries@[k])@ == m.name@;
                    assert(ev[k] == m.name@);
                } else {
                    assert forall|k: int| 0 <= k < ev.len() implies ev[k] != m.name@ by {
                        assert(ev[k] == self.entries@[k]@);
                    }
                }
            }
            if !present {
                let ghost ev0 = str_views(self.entries@);
                let ghost inf0 = self.info@;
                let ghost lf0 = local_founds(self.info@.skip(n0 as int));
                self.entries.push(m.name.clone());
                self.info.push(
                    ModelInfo {
                        name: m.name.clone(),
                        origin: ModelOrigin::Local {
                            size_bytes: m.size,
                            parameter_size: m.parameter_size.clone(),
                        },
                    },
                );
                assert(str_views(self.entries@) =~= ev0.push(m.name@));
                assert(self.info@.take(n0 as int) =~= inf0.take(n0 as int));
                assert(self.info@.skip(n0 as int) =~= inf0.skip(n0 as int).push(self.info@.last()));
                assert(local_founds(self.info@.skip(n0 as int)) =~= lf0.push(found(*m)));
            }
            i = i + 1;
        }
        assert(names.take(models@.len() as int) =~= names);
    }

    /// The "models available for delegation" section of the system prompt:
    /// one line per model, at most twelve. `notes[i]` says, for a local
    /// model `info[i]`, its size and strength tier; it is unused for an
    /// alias.
    pub fn delegation_briefing(&self, main: &str, notes: &Vec<String>) -> (r: String)
        requires
            notes@.len() == self.info@.len(),
        ensures
            r@ == briefing_text(self.info@, main@, str_views(notes@)),
    {
        let n = self.info.len();
        if n == 0 {
            return String::new();
        }
        let ghost nv = str_views(notes@);
        let mut v = to_chars("\n\nModels available for delegation (task tool `model` parameter):\n");
        let ghost head = v@;
        let shown = if n > BRIEFING_CAP {
            BRIEFING_CAP
        } else {
            n
        };
        let mut i: usize = 0;
        while i < shown
            invariant
                i <= shown <= self.info@.len(),
                notes@.len() == self.info@.len(),
                nv == str_views(notes@),
                v@ == head + briefing_lines(self.info@, main@, nv, i as nat),
            decreases shown - i,
        {
            let ghost before = v@;
            let m = &self.info[i];
            extend_str(&mut v, "- ");
            extend_str(&mut v, m.name.as_str());
            if str_eq(m.name.as_str(), main) {
                extend_str(&mut v, " (current main)");
            }
            match &m.origin {
                ModelOrigin::Local { .. } => {
                    extend_str(&mut v, ": local, ");
                    extend_str(&mut v, notes[i].as_str());
                    extend_str(&mut v, "\n");
                },
                ModelOrigin::Alias { provider } => {
                    extend_str(&mut v, ": alias via ");
                    extend_str(&mut v, provider.as_str());
                    extend_str(&mut v, " — cloud aliases cost money per token; strong reasoning\n");
                },
            }
            proof {
                assert(nv[i as int] == notes@[i as int]@);
                assert(v@ =~= before + briefing_line(self.info@[i as int], main@, nv[i as int]));
            }
            i = i + 1;
        }
        if n > BRIEFING_CAP {
            let ghost before = v@;
            extend_str(&mut v, "  (+");
            push_decimal(&mut v, (n - BRIEFING_CAP) as u64);
            extend_str(&mut v, " more — /model lists all)\n");
        }
        extend_str(&mut v, BRIEFING_ADVICE);
        from_chars(v.as_slice())
    }

    /// Numbered listing with the current model marked.
    pub fn listing(&self, current: &str) -> (r: String)
        ensures
            r@ == listing_text(str_views(self.entries@), current@),
    {
        let ghost es = str_views(self.entries@);
        let mut v = to_chars("models (switch with /model <number|name>):\n");
        let ghost head = v@;
        let mut i: usize = 0;
        while i < self.entries.len()
            invariant
                i <= self.entries@.len(),
                es == str_views(self.entries@),
                v@ == head + listing_lines(es.take(i as int), current@),
            decreases self.entries@.len() - i,
        {
            let ghost before = v@;
            let n = i + 1;
            extend_str(&mut v, "  ");
            if n < 10 {
                v.push(' ');
            }
            push_decimal(&mut v, n as u64);
            extend_str(&mut v, ". ");
            extend_str(&mut v, self.entries[i].as_str());
            let is_current = str_eq(self.entries[i].as_str(), current);
            if is_current {
                extend_str(&mut v, " ← current");
            }
            extend_str(&mut v, "\n");
            proof {
                reveal_strlit("  ");
                reveal_strlit(". ");
                reveal_strlit("\n");
                assert(es.take(i + 1).drop_last() =~= es.take(i as int));
                assert(es.take(i + 1).last() == self.entries@[i as int]@);
                let line = listing_line(i as nat, self.entries@[i as int]@, current@);
                if n < 10 {
                    assert(pad2(n as nat) =~= seq![' '] + decimal(n as nat));
                }
                assert(v@ =~= before + line);
            }
            i = i + 1;
        }
        assert(es.take(self.entries@.len() as int) =~= es);
        extend_str(&mut v, "  (or any provider/model, e.g. anthropic/opus-4-8)");
        from_chars(v.as_slice())
    }

    /// Look up a `/model` argument: a 1-based number or a name.
    pub fn pick(&self, arg: &str) -> (r: String)
        ensures
            r@ == pick_spec(str_views(self.entries@), arg@),
    {
        let chars = to_chars(arg);
        match parse_unsigned_exec(chars.as_slice(), usize::MAX as u64) {
            Some(n) => {
                let len = self.entries.len();
                if 1 <= n && n <= len as u64 {
                    let k = (n - 1) as usize;
                    self.entries[k].clone()
                } else {
                    arg.to_string()
                }
            },
            None => arg.to_string(),
        }
    }
}

} // verus!
