//! The user's settings as the GUI edits them: backends, effort, display
//! and voice options, and the Autopilot tab's task. Every control of the
//! settings panel writes its new value through one `apply_*` function,
//! which changes that one setting and nothing else; the voice and
//! Autopilot writers create their block when it is missing, so no change
//! is ever dropped.
use vstd::prelude::*;

verus! {

/// How hard the model is asked to think.
#[derive(Debug, Clone, Copy, PartialEq, Eq, Structural)]
pub enum Effort {
    Off,
    Low,
    Medium,
    High,
    Max,
}

impl Effort {
    /// The level as a small integer, in order from `None` (0) to `Max` (4).
    pub fn to_u8(self) -> (r: u8)
        ensures
            r == effort_rank(self),
    {
        match self {
            Effort::Off => 0,
            Effort::Low => 1,
            Effort::Medium => 2,
            Effort::High => 3,
            Effort::Max => 4,
        }
    }
}

/// The rank of an effort level, `None` lowest.
pub open spec fn effort_rank(e: Effort) -> u8 {
    match e {
        Effort::Off => 0,
        Effort::Low => 1,
        Effort::Medium => 2,
        Effort::High => 3,
        Effort::Max => 4,
    }
}

/// How voice input is started.
#[derive(Debug, Clone, Copy, PartialEq, Eq, Structural)]
pub enum TriggerMode {
    PushToTalk,
    WakeWord,
}

/// Which HTTP API a backend speaks.
#[derive(Debug, Clone, Copy, PartialEq, Eq, Structural)]
pub enum ApiProvider {
    DeepSeek,
    Ollama,
}

/// One backend a conversation can run on.
#[derive(Debug, Clone, PartialEq, Eq)]
pub enum BackendConfig {
    Api {
        provider: ApiProvider,
        model: String,
        base_url: Option<String>,
        api_key: Option<String>,
        models: Option<Vec<String>>,
    },
    ClaudeCli {
        model: String,
        permission_mode: Option<String>,
        env: Option<Vec<(String, String)>>,
        models: Option<Vec<String>>,
    },
}

/// A named backend entry.
#[derive(Debug, Clone, PartialEq, Eq)]
pub struct BackendEntry {
    pub name: String,
    pub config: BackendConfig,
}

/// The voice block of the settings.
#[derive(Debug, Clone, PartialEq, Eq)]
pub struct VoiceConfig {
    pub enabled: bool,
    pub stt_enabled: bool,
    pub tts_enabled: bool,
    pub stt_model_path: Option<String>,
    pub tts_model_path: Option<String>,
    pub tts_voices_path: Option<String>,
    pub trigger_mode: TriggerMode,
    pub wake_phrase: Option<String>,
    pub tts_voice: Option<String>,
}

/// The Autopilot block of the settings.
#[derive(Debug, Clone, PartialEq, Eq)]
pub struct AutopilotConfig {
    pub task: Option<String>,
    pub iterations: Option<u32>,
    pub policy_path: Option<String>,
}

/// The settings the GUI reads and edits. A missing value means "use the
/// default".
#[derive(Debug, Clone, PartialEq, Eq)]
pub struct Settings {
    pub default_backend: Option<String>,
    pub backends: Option<Vec<BackendEntry>>,
    pub effort: Option<Effort>,
    pub show_raw_output: Option<bool>,
    pub voice: Option<VoiceConfig>,
    pub context_budget: Option<usize>,
    pub working_dir: Option<String>,
    pub autopilot: Option<AutopilotConfig>,
}

/// A voice block with every switch off, push-to-talk, and no paths or
/// phrase of its own.
pub open spec fn default_voice() -> VoiceConfig {
    VoiceConfig {
        enabled: false,
        stt_enabled: false,
        tts_enabled: false,
        stt_model_path: None,
        tts_model_path: None,
        tts_voices_path: None,
        trigger_mode: TriggerMode::PushToTalk,
        wake_phrase: None,
        tts_voice: None,
    }
}

/// An Autopilot block with nothing set.
pub open spec fn default_autopilot() -> AutopilotConfig {
    AutopilotConfig { task: None, iterations: None, policy_path: None }
}

/// Settings with nothing set.
pub open spec fn empty_settings() -> Settings {
    Settings {
        default_backend: None,
        backends: None,
        effort: None,
        show_raw_output: None,
        voice: None,
        context_budget: None,
        working_dir: None,
        autopilot: None,
    }
}

impl Default for VoiceConfig {
    fn default() -> (v: VoiceConfig)
        ensures
            v == default_voice(),
    {
        VoiceConfig {
            enabled: false,
            stt_enabled: false,
            tts_enabled: false,
            stt_model_path: None,
            tts_model_path: None,
            tts_voices_path: None,
            trigger_mode: TriggerMode::PushToTalk,
            wake_phrase: None,
            tts_voice: None,
        }
    }
}

impl Default for AutopilotConfig {
    fn default() -> (a: AutopilotConfig)
        ensures
            a == default_autopilot(),
    {
        AutopilotConfig { task: None, iterations: None, policy_path: None }
    }
}

impl Default for Settings {
    fn default() -> (s: Settings)
        ensures
            s == empty_settings(),
    {
        Settings {
            default_backend: None,
            backends: None,
            effort: None,
            show_raw_output: None,
            voice: None,
            context_budget: None,
            working_dir: None,
            autopilot: None,
        }
    }
}

/// `s` with its voice block set to `v`.
pub open spec fn with_voice(s: Settings, v: VoiceConfig) -> Settings {
    Settings { voice: Some(v), ..s }
}

/// `s` with its Autopilot block set to `a`.
pub open spec fn with_autopilot(s: Settings, a: AutopilotConfig) -> Settings {
    Settings { autopilot: Some(a), ..s }
}

/// The voice block, or the default one when there is none.
pub open spec fn voice_or_default(s: Settings) -> VoiceConfig {
    match s.voice {
        Some(v) => v,
        None => default_voice(),
    }
}

/// The Autopilot block, or the default one when there is none.
pub open spec fn autopilot_or_default(s: Settings) -> AutopilotConfig {
    match s.autopilot {
        Some(a) => a,
        None => default_autopilot(),
    }
}

/// The position of the first backend entry named `name`, or -1.
pub open spec fn backend_index(entries: Seq<BackendEntry>, name: Seq<char>) -> int
    decreases entries.len(),
{
    if entries.len() == 0 {
        -1
    } else if entries.last().name@ == name && backend_index(entries.drop_last(), name) == -1 {
        entries.len() - 1
    } else {
        backend_index(entries.drop_last(), name)
    }
}

proof fn lemma_backend_index(entries: Seq<BackendEntry>, name: Seq<char>)
    ensures
        -1 <= backend_index(entries, name) < entries.len(),
        backend_index(entries, name) >= 0 ==> entries[backend_index(entries, name)].name@ == name,
        forall|j: int|
            0 <= j < entries.len() && (j < backend_index(entries, name) || backend_index(
                entries,
                name,
            ) == -1) ==> (#[trigger] entries[j]).name@ != name,
    decreases entries.len(),
{
    if entries.len() > 0 {
        lemma_backend_index(entries.drop_last(), name);
        assert forall|j: int|
            0 <= j < entries.len() - 1 implies #[trigger] entries[j] == entries.drop_last()[j] by {}
    }
}

proof fn lemma_backend_index_unique(entries: Seq<BackendEntry>, name: Seq<char>, k: int)
    requires
        -1 <= k < entries.len(),
        k >= 0 ==> entries[k].name@ == name,
        forall|j: int| 0 <= j < entries.len() && (j < k || k == -1) ==> (#[trigger] entries[j]).name@ != name,
    ensures
        backend_index(entries, name) == k,
{
    lemma_backend_index(entries, name);
    let r = backend_index(entries, name);
    if r >= 0 && k >= 0 {
        if r < k {
            assert(entries[r].name@ != name);
        } else if k < r {
            assert(entries[k].name@ != name);
        }
    } else if r >= 0 {
        assert(entries[r].name@ != name);
    } else if k >= 0 {
        assert(entries[k].name@ != name);
    }
}

/// No two backend entries share a name: the list stands for a map from
/// a backend's name to its configuration.
pub open spec fn names_unique(entries: Seq<BackendEntry>) -> bool {
    forall|i: int, j: int| 0 <= i < j < entries.len() ==> (#[trigger] entries[i]).name@ != (#[trigger] entries[j]).name@
}

/// The backend entries of the settings name each backend once.
pub open spec fn backends_unique(s: Settings) -> bool {
    match s.backends {
        Some(entries) => names_unique(entries@),
        None => true,
    }
}

/// The configuration the entries give the backend `name`, if any.
pub open spec fn backend_lookup(entries: Seq<BackendEntry>, name: Seq<char>) -> Option<BackendConfig> {
    if backend_index(entries, name) >= 0 {
        Some(entries[backend_index(entries, name)].config)
    } else {
        None
    }
}

/// The entries of the settings, none when there are none.
pub open spec fn entries_of(s: Settings) -> Seq<BackendEntry> {
    match s.backends {
        Some(entries) => entries@,
        None => seq![],
    }
}

proof fn lemma_backend_index_same_names(a: Seq<BackendEntry>, b: Seq<BackendEntry>, name: Seq<char>)
    requires
        a.len() == b.len(),
        forall|j: int| 0 <= j < a.len() ==> (#[trigger] a[j]).name@ == b[j].name@,
    ensures
        backend_index(a, name) == backend_index(b, name),
    decreases a.len(),
{
    if a.len() > 0 {
        assert forall|j: int| 0 <= j < a.drop_last().len() implies (#[trigger] a.drop_last()[j]).name@
            == b.drop_last()[j].name@ by {
            assert(a[j].name@ == b[j].name@);
        }
        lemma_backend_index_same_names(a.drop_last(), b.drop_last(), name);
        assert(a.last().name@ == b.last().name@);
    }
}

/// `b` is `a` with, at most, a different model.
pub open spec fn same_but_model(a: BackendConfig, b: BackendConfig) -> bool {
    match (a, b) {
        (
            BackendConfig::Api { provider: p1, base_url: u1, api_key: k1, models: m1, .. },
            BackendConfig::Api { provider: p2, base_url: u2, api_key: k2, models: m2, .. },
        ) => p1 == p2 && u1 == u2 && k1 == k2 && m1 == m2,
        (
            BackendConfig::ClaudeCli { permission_mode: p1, env: e1, models: m1, .. },
            BackendConfig::ClaudeCli { permission_mode: p2, env: e2, models: m2, .. },
        ) => p1 == p2 && e1 == e2 && m1 == m2,
        _ => false,
    }
}

/// `new` is `old` with only entry `k`'s model set to `model`.
pub open spec fn model_set(old: Seq<BackendEntry>, new: Seq<BackendEntry>, k: int, model: Seq<char>) -> bool {
    &&& 0 <= k < old.len()
    &&& new.len() == old.len()
    &&& forall|j: int| 0 <= j < old.len() && j != k ==> #[trigger] new[j] == old[j]
    &&& new[k].name == old[k].name
    &&& same_but_model(old[k].config, new[k].config)
    &&& model_of(new[k].config) == model
}

/// The model a backend entry runs.
pub open spec fn model_of(config: BackendConfig) -> Seq<char> {
    match config {
        BackendConfig::Api { model, .. } => model@,
        BackendConfig::ClaudeCli { model, .. } => model@,
    }
}

impl BackendConfig {
    /// The model this entry runs.
    pub fn model(&self) -> (r: &str)
        ensures
            r@ == model_of(*self),
    {
        match self {
            BackendConfig::Api { model, .. } => model.as_str(),
            BackendConfig::ClaudeCli { model, .. } => model.as_str(),
        }
    }
}

/// The position of the first entry named `name`, if any.
pub fn find_backend(entries: &Vec<BackendEntry>, name: &str) -> (r: Option<usize>)
    ensures
        match r {
            Some(k) => k < entries@.len() && k as int == backend_index(entries@, name@),
            None => backend_index(entries@, name@) == -1,
        },
{
    let mut i: usize = 0;
    while i < entries.len()
        invariant
            i <= entries@.len(),
            forall|j: int| 0 <= j < i ==> (#[trigger] entries@[j]).name@ != name@,
        decreases entries.len() - i,
    {
        if str_eq(entries[i].name.as_str(), name) {
            proof {
                lemma_backend_index_unique(entries@, name@, i as int);
            }
            return Some(i);
        }
        i = i + 1;
    }
    proof {
        lemma_backend_index_unique(entries@, name@, -1);
    }
    None
}

/// Whether two strings hold the same characters.
pub fn str_eq(a: &str, b: &str) -> (r: bool)
    ensures
        r == (a@ == b@),
{
    let x = crate::text::chars_of(a);
    let y = crate::text::chars_of(b);
    if x.len() != y.len() {
        return false;
    }
    let mut i: usize = 0;
    while i < x.len()
        invariant
            i <= x@.len(),
            x@ == a@,
            y@ == b@,
            x@.len() == y@.len(),
            forall|j: int| 0 <= j < i ==> x@[j] == y@[j],
        decreases x.len() - i,
    {
        if x[i] != y[i] {
            return false;
        }
        i = i + 1;
    }
    assert(x@ =~= y@);
    true
}

impl Settings {
    /// The effort level, `None` when unset.
    pub fn effort(&self) -> (r: Effort)
        ensures
            r == match self.effort {
                Some(e) => e,
                None => Effort::Off,
            },
    {
        match self.effort {
            Some(e) => e,
            None => Effort::Off,
        }
    }

    /// The backend entry named `name`, if there is one.
    pub fn resolve_backend(&self, name: &str) -> (r: Option<&BackendConfig>)
        ensures
            match r {
                Some(c) => self.backends is Some && backend_index(self.backends->0@, name@) >= 0
                    && *c == self.backends->0@[backend_index(self.backends->0@, name@)].config,
                None => self.backends is None || backend_index(self.backends->0@, name@) == -1,
            },
    {
        match &self.backends {
            Some(entries) => match find_backend(entries, name) {
                Some(k) => Some(&entries[k].config),
                None => None,
            },
            None => None,
        }
    }

    /// Add the backend `name`, or replace the entry already named so.
    pub fn insert_backend(&mut self, name: &str, config: BackendConfig)
        ensures
            final(self).backends is Some,
            backend_index(final(self).backends->0@, name@) >= 0,
            final(self).backends->0@[backend_index(final(self).backends->0@, name@)].config == config,
            forall|n: Seq<char>| #[trigger] backend_lookup(final(self).backends->0@, n)
                == if n == name@ { Some(config) } else { backend_lookup(entries_of(*old(self)), n) },
            backends_unique(*old(self)) ==> backends_unique(*final(self)),
            *final(self) == (Settings { backends: final(self).backends, ..*old(self) }),
    {
        let ghost e0 = entries_of(*self);
        let mut entries = match self.backends.take() {
            Some(e) => e,
            None => Vec::new(),
        };
        match find_backend(&entries, name) {
            Some(k) => {
                let entry = BackendEntry { name: name.to_owned(), config };
                let ghost before = entries@;
                entries.set(k, entry);
                proof {
                    lemma_backend_index(before, name@);
                    assert forall|j: int| 0 <= j < entries@.len() && j < k implies (#[trigger] entries@[j]).name@ != name@ by {
                        assert(entries@[j] == before[j]);
                    }
                    lemma_backend_index_unique(entries@, name@, k as int);
                    assert forall|n: Seq<char>| n != name@ implies #[trigger] backend_lookup(entries@, n)
                        == backend_lookup(e0, n) by {
                        assert forall|j: int| 0 <= j < before.len() implies (#[trigger] before[j]).name@
                            == entries@[j].name@ by {
                            if j != k {
                                assert(entries@[j] == before[j]);
                            }
                        }
                        lemma_backend_index_same_names(before, entries@, n);
                        lemma_backend_index(before, n);
                    }
                    if names_unique(e0) {
                        assert forall|i: int, j: int| 0 <= i < j < entries@.len() implies (#[trigger] entries@[i]).name@
                            != (#[trigger] entries@[j]).name@ by {
                            assert(before[i].name@ != before[j].name@);
                            if i != k {
                                assert(entries@[i] == before[i]);
                            }
                            if j != k {
                                assert(entries@[j] == before[j]);
                            }
                        }
                    }
                }
            },
            None => {
                let ghost before = entries@;
                entries.push(BackendEntry { name: name.to_owned(), config });
                proof {
                    lemma_backend_index(before, name@);
                    assert forall|j: int| 0 <= j < entries@.len() && j < before.len() implies (#[trigger] entries@[j]).name@ != name@ by {
                        assert(entries@[j] == before[j]);
                    }
                    lemma_backend_index_unique(entries@, name@, before.len() as int);
                    assert forall|n: Seq<char>| n != name@ implies #[trigger] backend_lookup(entries@, n)
                        == backend_lookup(e0, n) by {
                        assert(entries@.drop_last() =~= before);
                        lemma_backend_index(before, n);
                    }
                    if names_unique(e0) {
                        assert forall|i: int, j: int| 0 <= i < j < entries@.len() implies (#[trigger] entries@[i]).name@
                            != (#[trigger] entries@[j]).name@ by {
                            assert(entries@[i] == before[i]);
                            if j < before.len() {
                                assert(entries@[j] == before[j]);
                                assert(before[i].name@ != before[j].name@);
                            }
                        }
                    }
                }
            },
        }
        self.backends = Some(entries);
    }

    /// Whether voice is switched on.
    pub fn voice_enabled(&self) -> (r: bool)
        ensures
            r == voice_or_default(*self).enabled,
    {
        match &self.voice {
            Some(v) => v.enabled,
            None => false,
        }
    }

    /// Whether speech to text is switched on.
    pub fn voice_stt_enabled(&self) -> (r: bool)
        ensures
            r == voice_or_default(*self).stt_enabled,
    {
        match &self.voice {
            Some(v) => v.stt_enabled,
            None => false,
        }
    }

    /// Whether text to speech is on: its own switch and the master voice
    /// switch both, so text to speech alone does not turn it on.
    pub fn voice_tts_enabled(&self) -> (r: bool)
        ensures
            r == (voice_or_default(*self).enabled && voice_or_default(*self).tts_enabled),
    {
        match &self.voice {
            Some(v) => v.enabled && v.tts_enabled,
            None => false,
        }
    }

    /// How voice input is started.
    pub fn voice_trigger_mode(&self) -> (r: TriggerMode)
        ensures
            r == voice_or_default(*self).trigger_mode,
    {
        match &self.voice {
            Some(v) => v.trigger_mode,
            None => TriggerMode::PushToTalk,
        }
    }

    /// The wake phrase, `hey deepseek` when unset.
    pub fn voice_wake_phrase(&self) -> (r: String)
        ensures
            r@ == match voice_or_default(*self).wake_phrase {
                Some(p) => p@,
                None => "hey deepseek"@,
            },
    {
        match &self.voice {
            Some(v) => match &v.wake_phrase {
                Some(p) => p.clone(),
                None => "hey deepseek".to_owned(),
            },
            None => "hey deepseek".to_owned(),
        }
    }

    /// The Kokoro voice id, `af_heart` when unset.
    pub fn voice_tts_voice(&self) -> (r: String)
        ensures
            r@ == match voice_or_default(*self).tts_voice {
                Some(p) => p@,
                None => "af_heart"@,
            },
    {
        match &self.voice {
            Some(v) => match &v.tts_voice {
                Some(p) => p.clone(),
                None => "af_heart".to_owned(),
            },
            None => "af_heart".to_owned(),
        }
    }

    /// The Autopilot task text, if one was stored.
    pub fn autopilot_task(&self) -> (r: Option<String>)
        ensures
            match r {
                Some(t) => autopilot_or_default(*self).task is Some && t@
                    == autopilot_or_default(*self).task->0@,
                None => autopilot_or_default(*self).task is None,
            },
    {
        match &self.autopilot {
            Some(a) => match &a.task {
                Some(t) => Some(t.clone()),
                None => None,
            },
            None => None,
        }
    }

    /// The Autopilot iteration count, 1 when unset.
    pub fn autopilot_iterations(&self) -> (r: u32)
        ensures
            r == match autopilot_or_default(*self).iterations {
                Some(n) => n,
                None => 1,
            },
    {
        match &self.autopilot {
            Some(a) => match a.iterations {
                Some(n) => n,
                None => 1,
            },
            None => 1,
        }
    }
}

// ---------------------------------------------------------------------
// Writers, one per control
// ---------------------------------------------------------------------
/// Store the backend picker's selection.
pub fn apply_default_backend(settings: &mut Settings, name: &str)
    ensures
        final(settings).default_backend is Some,
        final(settings).default_backend->0@ == name@,
        *final(settings) == (Settings { default_backend: final(settings).default_backend, ..*old(settings) }),
{
    settings.default_backend = Some(name.to_owned());
}

/// Store the model dropdown's selection onto the named backend's entry. A
/// name that names no backend changes nothing.
pub fn apply_backend_model(settings: &mut Settings, backend_name: &str, model: &str)
    ensures
        match old(settings).backends {
            Some(entries) => {
                let k = backend_index(entries@, backend_name@);
                if k >= 0 {
                    &&& final(settings).backends is Some
                    &&& model_set(entries@, final(settings).backends->0@, k, model@)
                    &&& *final(settings) == (Settings { backends: final(settings).backends, ..*old(settings) })
                } else {
                    *final(settings) == *old(settings)
                }
            },
            None => *final(settings) == *old(settings),
        },
        backends_unique(*old(settings)) ==> backends_unique(*final(settings)),
{
    let k = match &settings.backends {
        Some(entries) => find_backend(entries, backend_name),
        None => None,
    };
    match k {
        Some(k) => {
            let ghost old_entries = settings.backends->0@;
            let mut entries = match settings.backends.take() {
                Some(e) => e,
                None => Vec::new(),
            };
            assert(entries@ == old_entries);
            let ghost before = entries@;
            let old_entry = entries.remove(k);
            let config = match old_entry.config {
                BackendConfig::Api { provider, base_url, api_key, models, .. } => BackendConfig::Api {
                    provider,
                    model: model.to_owned(),
                    base_url,
                    api_key,
                    models,
                },
                BackendConfig::ClaudeCli { permission_mode, env, models, .. } => BackendConfig::ClaudeCli {
                    model: model.to_owned(),
                    permission_mode,
                    env,
                    models,
                },
            };
            entries.insert(k, BackendEntry { name: old_entry.name, config });
            proof {
                lemma_backend_index(before, backend_name@);
                assert forall|j: int| 0 <= j < before.len() && j != k implies #[trigger] entries@[j] == before[j] by {}
                if names_unique(before) {
                    assert forall|i: int, j: int| 0 <= i < j < entries@.len() implies (#[trigger] entries@[i]).name@
                        != (#[trigger] entries@[j]).name@ by {
                        assert(before[i].name@ != before[j].name@);
                        if i != k {
                            assert(entries@[i] == before[i]);
                        }
                        if j != k {
                            assert(entries@[j] == before[j]);
                        }
                    }
                }
            }
            settings.backends = Some(entries);
        },
        None => {},
    }
}

/// Store the effort combo box's selection.
pub fn apply_effort(settings: &mut Settings, effort: Effort)
    ensures
        *final(settings) == (Settings { effort: Some(effort), ..*old(settings) }),
{
    settings.effort = Some(effort);
}

/// Store the raw-output checkbox's value.
pub fn apply_show_raw_output(settings: &mut Settings, show_raw: bool)
    ensures
        *final(settings) == (Settings { show_raw_output: Some(show_raw), ..*old(settings) }),
{
    settings.show_raw_output = Some(show_raw);
}

/// Store the context budget slider's value.
pub fn apply_context_budget(settings: &mut Settings, budget: usize)
    ensures
        *final(settings) == (Settings { context_budget: Some(budget), ..*old(settings) }),
{
    settings.context_budget = Some(budget);
}

/// Store the working-directory field's value.
pub fn apply_working_dir(settings: &mut Settings, dir: &str)
    ensures
        final(settings).working_dir is Some,
        final(settings).working_dir->0@ == dir@,
        *final(settings) == (Settings { working_dir: final(settings).working_dir, ..*old(settings) }),
{
    settings.working_dir = Some(dir.to_owned());
}

/// Commit the working-directory field: a path that is an existing
/// directory is stored and handed back for the tools to act in; anything
/// else changes nothing (the field keeps the text for the user to fix).
pub fn commit_working_dir(settings: &mut Settings, buffer: &str, is_dir: bool) -> (r: Option<String>)
    ensures
        is_dir ==> (r matches Some(d) && d@ == buffer@),
        is_dir ==> final(settings).working_dir is Some && final(settings).working_dir->0@ == buffer@,
        is_dir ==> *final(settings) == (Settings { working_dir: final(settings).working_dir, ..*old(settings) }),
        !is_dir ==> r is None && *final(settings) == *old(settings),
{
    if !is_dir {
        return None;
    }
    apply_working_dir(settings, buffer);
    Some(buffer.to_owned())
}

/// The share of the context budget the settings panel's caption names: a
/// third of it.
pub fn context_budget_caption_value(budget: usize) -> (r: usize)
    ensures
        r == budget / 3,
{
    budget / 3
}

fn take_voice(settings: &mut Settings) -> (v: VoiceConfig)
    ensures
        v == voice_or_default(*old(settings)),
        *final(settings) == (Settings { voice: None, ..*old(settings) }),
{
    match settings.voice.take() {
        Some(v) => v,
        None => VoiceConfig::default(),
    }
}

/// Store the master voice checkbox's value.
pub fn apply_voice_enabled(settings: &mut Settings, enabled: bool)
    ensures
        *final(settings) == with_voice(
            *old(settings),
            (VoiceConfig { enabled, ..voice_or_default(*old(settings)) }),
        ),
{
    let mut v = take_voice(settings);
    v.enabled = enabled;
    settings.voice = Some(v);
}

/// Store the speech-to-text checkbox's value.
pub fn apply_stt_enabled(settings: &mut Settings, enabled: bool)
    ensures
        *final(settings) == with_voice(
            *old(settings),
            (VoiceConfig { stt_enabled: enabled, ..voice_or_default(*old(settings)) }),
        ),
{
    let mut v = take_voice(settings);
    v.stt_enabled = enabled;
    settings.voice = Some(v);
}

/// Store the text-to-speech checkbox's value.
pub fn apply_tts_enabled(settings: &mut Settings, enabled: bool)
    ensures
        *final(settings) == with_voice(
            *old(settings),
            (VoiceConfig { tts_enabled: enabled, ..voice_or_default(*old(settings)) }),
        ),
{
    let mut v = take_voice(settings);
    v.tts_enabled = enabled;
    settings.voice = Some(v);
}

/// Store the trigger-mode radio pair's selection.
pub fn apply_trigger_mode(settings: &mut Settings, mode: TriggerMode)
    ensures
        *final(settings) == with_voice(
            *old(settings),
            (VoiceConfig { trigger_mode: mode, ..voice_or_default(*old(settings)) }),
        ),
{
    let mut v = take_voice(settings);
    v.trigger_mode = mode;
    settings.voice = Some(v);
}

/// Store the wake-phrase field's text.
pub fn apply_wake_phrase(settings: &mut Settings, phrase: &str)
    ensures
        final(settings).voice is Some,
        final(settings).voice->0.wake_phrase is Some,
        final(settings).voice->0.wake_phrase->0@ == phrase@,
        *final(settings) == with_voice(
            *old(settings),
            (VoiceConfig { wake_phrase: final(settings).voice->0.wake_phrase, ..voice_or_default(*old(settings)) }),
        ),
{
    let mut v = take_voice(settings);
    v.wake_phrase = Some(phrase.to_owned());
    settings.voice = Some(v);
}

/// Store the voice selector's choice.
pub fn apply_tts_voice(settings: &mut Settings, voice_id: &str)
    ensures
        final(settings).voice is Some,
        final(settings).voice->0.tts_voice is Some,
        final(settings).voice->0.tts_voice->0@ == voice_id@,
        *final(settings) == with_voice(
            *old(settings),
            (VoiceConfig { tts_voice: final(settings).voice->0.tts_voice, ..voice_or_default(*old(settings)) }),
        ),
{
    let mut v = take_voice(settings);
    v.tts_voice = Some(voice_id.to_owned());
    settings.voice = Some(v);
}

fn take_autopilot(settings: &mut Settings) -> (a: AutopilotConfig)
    ensures
        a == autopilot_or_default(*old(settings)),
        *final(settings) == (Settings { autopilot: None, ..*old(settings) }),
{
    match settings.autopilot.take() {
        Some(a) => a,
        None => AutopilotConfig::default(),
    }
}

/// Store the Autopilot tab's task text box.
pub fn apply_autopilot_task(settings: &mut Settings, task: &str)
    ensures
        final(settings).autopilot is Some,
        final(settings).autopilot->0.task is Some,
        final(settings).autopilot->0.task->0@ == task@,
        *final(settings) == with_autopilot(
            *old(settings),
            (AutopilotConfig { task: final(settings).autopilot->0.task, ..autopilot_or_default(*old(settings)) }),
        ),
{
    let mut a = take_autopilot(settings);
    a.task = Some(task.to_owned());
    settings.autopilot = Some(a);
}

/// Store the Autopilot tab's iteration count control.
pub fn apply_autopilot_iterations(settings: &mut Settings, iterations: u32)
    ensures
        *final(settings) == with_autopilot(
            *old(settings),
            (AutopilotConfig { iterations: Some(iterations), ..autopilot_or_default(*old(settings)) }),
        ),
{
    let mut a = take_autopilot(settings);
    a.iterations = Some(iterations);
    settings.autopilot = Some(a);
}

} // verus!
