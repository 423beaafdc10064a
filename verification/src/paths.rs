//! Joining a relative path onto a directory, as `std::path` does it.
use vstd::prelude::*;

verus! {

/// `rel` is relative on every platform: it is not empty, does not start
/// at a root, and names no drive.
pub open spec fn plainly_relative(rel: Seq<char>) -> bool {
    &&& rel.len() > 0
    &&& rel[0] != '/'
    &&& rel[0] != '\\'
    &&& !rel.contains(':')
}

/// `base` begins with a verbatim prefix (`\\?\`), under which `PathBuf::push`
/// normalizes the pushed path, dropping `.` and `..`.
pub open spec fn verbatim(base: Seq<char>) -> bool {
    &&& base.len() >= 4
    &&& base[0] == '\\'
    &&& base[1] == '\\'
    &&& base[2] == '?'
    &&& base[3] == '\\'
}

/// What `std::path::Path::new(base).join(rel)` gives as a string on this
/// platform: a function of the two paths and the platform alone.
pub uninterp spec fn joined_path(base: Seq<char>, rel: Seq<char>) -> Seq<char>;

/// `base` followed by `rel`, with or without one separator between them.
pub open spec fn joined(r: Seq<char>, base: Seq<char>, rel: Seq<char>) -> bool {
    ||| r == base + rel
    ||| r == base + seq!['/'] + rel
    ||| r == base + seq!['\\'] + rel
}

/// `std::path::Path::new(base).join(rel)`, as a string
/// (`to_string_lossy`, lossless here since both inputs are UTF-8). Its
/// result is named. Beyond that, only what std documents of
/// `PathBuf::push` is stated: for a plainly relative `rel` and a base
/// without a verbatim prefix, `rel` is appended to `base`, with one
/// separator between them unless `base` is empty, already ends in one, or
/// is a bare drive prefix; which separator is the platform's.
#[verifier::external_body]
pub fn join_path(base: &str, rel: &str) -> (r: String)
    ensures
        r@ == joined_path(base@, rel@),
        plainly_relative(rel@) && !verbatim(base@) ==> joined(r@, base@, rel@),
{
    std::path::Path::new(base).join(rel).to_string_lossy().into_owned()
}

/// `<dir>/models/<filename>`, joined as std joins paths.
pub open spec fn model_path(dir: Seq<char>, filename: Seq<char>) -> Seq<char> {
    joined_path(joined_path(dir, "models"@), filename)
}

/// `<local_app_data>/DeepSeekCustom`, joined as std joins paths.
pub open spec fn app_dir(local_app_data: Seq<char>) -> Seq<char> {
    joined_path(local_app_data, "DeepSeekCustom"@)
}

/// The texts of a list of strings.
pub open spec fn texts(v: Seq<String>) -> Seq<Seq<char>> {
    v.map_values(|s: String| s@)
}

/// A string's text, if there is one.
pub open spec fn opt_text(r: Option<String>) -> Option<Seq<char>> {
    match r {
        Some(s) => Some(s@),
        None => None,
    }
}

/// The places a model file named `filename` is looked for, in order: the
/// configured path, `models/<filename>` under the project root, then
/// `DeepSeekCustom/models/<filename>` under the application data
/// directory, when there is one.
pub open spec fn model_candidate_list(
    configured: Option<&str>,
    project_root: Seq<char>,
    local_app_data: Option<&str>,
    filename: Seq<char>,
) -> Seq<Seq<char>> {
    (match configured {
        Some(c) => seq![c@],
        None => seq![],
    }) + seq![model_path(project_root, filename)] + (match local_app_data {
        Some(d) => seq![model_path(app_dir(d@), filename)],
        None => seq![],
    })
}

/// The places the voice packs directory is looked for, in order: the
/// configured path, `voices` under the project root, then
/// `DeepSeekCustom/voices` under the application data directory.
pub open spec fn voices_candidate_list(configured: Option<&str>, project_root: Seq<char>, local_app_data: Option<&str>) -> Seq<Seq<char>> {
    (match configured {
        Some(c) => seq![c@],
        None => seq![],
    }) + seq![joined_path(project_root, "voices"@)] + (match local_app_data {
        Some(d) => seq![joined_path(app_dir(d@), "voices"@)],
        None => seq![],
    })
}

/// `r` is the first of `candidates` whose probe in `present` found it,
/// and `None` exactly when no probe found anything.
pub open spec fn first_found(candidates: Seq<Seq<char>>, present: Seq<bool>, r: Option<Seq<char>>) -> bool {
    &&& present.len() == candidates.len()
    &&& match r {
        Some(p) => exists|k: int|
            0 <= k < candidates.len() && #[trigger] present[k] && (forall|j: int| 0 <= j < k ==> !present[j])
                && p == candidates[k],
        None => forall|j: int| 0 <= j < present.len() ==> !present[j],
    }
}

/// Where a local model file is looked for, in order: the configured path,
/// `models/<filename>` under the project root, then
/// `DeepSeekCustom/models/<filename>` under the per-user application data
/// directory, when there is one.
pub fn model_candidates(
    configured: Option<&str>,
    project_root: &str,
    local_app_data: Option<&str>,
    filename: &str,
) -> (r: Vec<String>)
    ensures
        r@.len() == (if configured is Some { 1int } else { 0 }) + 1 + (if local_app_data is Some { 1int } else { 0 }),
        configured matches Some(c) ==> r@[0]@ == c@,
        r@[if configured is Some { 1int } else { 0 }]@ == model_path(project_root@, filename@),
        local_app_data matches Some(d) ==> r@.last()@ == model_path(app_dir(d@), filename@),
        texts(r@) == model_candidate_list(configured, project_root@, local_app_data, filename@),
{
    let mut r: Vec<String> = Vec::new();
    match configured {
        Some(c) => r.push(c.to_owned()),
        None => {},
    }
    let models = join_path(project_root, "models");
    let file = join_path(models.as_str(), filename);
    r.push(file);
    match local_app_data {
        Some(d) => {
            let app = join_path(d, "DeepSeekCustom");
            let app_models = join_path(app.as_str(), "models");
            let f = join_path(app_models.as_str(), filename);
            r.push(f);
        },
        None => {},
    }
    proof {
        assert(texts(r@) =~= model_candidate_list(configured, project_root@, local_app_data, filename@));
    }
    r
}

/// Where the voice packs directory is looked for, in order: the configured
/// path, `voices` under the project root (beside `models`, not inside
/// it), then `DeepSeekCustom/voices` under the application data directory.
pub fn voices_candidates(configured: Option<&str>, project_root: &str, local_app_data: Option<&str>) -> (r: Vec<String>)
    ensures
        r@.len() == (if configured is Some { 1int } else { 0 }) + 1 + (if local_app_data is Some { 1int } else { 0 }),
        configured matches Some(c) ==> r@[0]@ == c@,
        r@[if configured is Some { 1int } else { 0 }]@ == joined_path(project_root@, "voices"@),
        local_app_data matches Some(d) ==> r@.last()@ == joined_path(app_dir(d@), "voices"@),
        texts(r@) == voices_candidate_list(configured, project_root@, local_app_data),
{
    let mut r: Vec<String> = Vec::new();
    match configured {
        Some(c) => r.push(c.to_owned()),
        None => {},
    }
    r.push(join_path(project_root, "voices"));
    match local_app_data {
        Some(d) => {
            let app = join_path(d, "DeepSeekCustom");
            let v = join_path(app.as_str(), "voices");
            r.push(v);
        },
        None => {},
    }
    proof {
        assert(texts(r@) =~= voices_candidate_list(configured, project_root@, local_app_data));
    }
    r
}

/// The speech-to-text model's file name under `models/`.
pub fn whisper_model_filename() -> (s: &'static str)
    ensures
        s@ == "ggml-base.en.bin"@,
        plainly_relative(s@),
{
    proof {
        reveal_strlit("ggml-base.en.bin");
    }
    "ggml-base.en.bin"
}

/// The text-to-speech model's file name under `models/`.
pub fn kokoro_model_filename() -> (s: &'static str)
    ensures
        s@ == "model.onnx"@,
        plainly_relative(s@),
{
    proof {
        reveal_strlit("model.onnx");
    }
    "model.onnx"
}

/// The candidate a search settles on: the first one found present, or
/// `None` when none is.
pub fn first_present(present: &[bool]) -> (r: Option<usize>)
    ensures
        match r {
            Some(k) => k < present@.len() && present@[k as int] && forall|j: int| 0 <= j < k ==> !present@[j],
            None => forall|j: int| 0 <= j < present@.len() ==> !present@[j],
        },
{
    let mut i: usize = 0;
    while i < present.len()
        invariant
            i <= present@.len(),
            forall|j: int| 0 <= j < i ==> !present@[j],
        decreases present.len() - i,
    {
        if present[i] {
            return Some(i);
        }
        i = i + 1;
    }
    None
}

/// Text to speech comes up only with both halves found: its model file
/// and its voice packs directory.
pub fn both_found(model: Option<String>, voices: Option<String>) -> (r: Option<(String, String)>)
    ensures
        r == match (model, voices) {
            (Some(m), Some(v)) => Some((m, v)),
            _ => None,
        },
{
    match (model, voices) {
        (Some(m), Some(v)) => Some((m, v)),
        _ => None,
    }
}

/// The first of `candidates` whose probe in `present` found it, if any.
pub fn first_of(candidates: &Vec<String>, present: &[bool]) -> (r: Option<String>)
    requires
        present@.len() == candidates@.len(),
    ensures
        first_found(texts(candidates@), present@, opt_text(r)),
{
    match first_present(present) {
        Some(k) => {
            let p = candidates[k].clone();
            proof {
                assert(present@[k as int] && p@ == texts(candidates@)[k as int]);
            }
            Some(p)
        },
        None => None,
    }
}

/// `std::path::Path::exists`: whether something is at `path` on disk at
/// the moment of the call. Nothing is stated of the answer; it is the
/// disk's.
#[verifier::external_body]
fn path_exists(path: &str) -> bool {
    std::path::Path::new(path).exists()
}

/// Probe each of `candidates` on disk, in order, and settle on the first
/// found. The probes' answers come back beside the result.
fn first_existing(candidates: &Vec<String>) -> (r: (Option<String>, Ghost<Seq<bool>>))
    ensures
        first_found(texts(candidates@), r.1@, opt_text(r.0)),
{
    let mut present: Vec<bool> = Vec::new();
    let mut i: usize = 0;
    while i < candidates.len()
        invariant
            i <= candidates@.len(),
            present@.len() == i,
        decreases candidates.len() - i,
    {
        present.push(path_exists(candidates[i].as_str()));
        i = i + 1;
    }
    let r = first_of(candidates, present.as_slice());
    (r, Ghost(present@))
}

/// The model file found: the first of `model_candidate_list` the disk
/// probes found, or `None` when they found none.
fn find_model(configured: Option<&str>, project_root: &str, local_app_data: Option<&str>, filename: &str) -> (r: Option<String>)
    ensures
        exists|present: Seq<bool>|
            first_found(model_candidate_list(configured, project_root@, local_app_data, filename@), present, #[trigger] opt_text(r)),
{
    let cands = model_candidates(configured, project_root, local_app_data, filename);
    let (r, probes) = first_existing(&cands);
    proof {
        assert(first_found(model_candidate_list(configured, project_root@, local_app_data, filename@), probes@, opt_text(r)));
    }
    r
}

/// Where the speech-to-text model is: the first of its candidate paths
/// (see `model_candidates`) found on disk, or `None` when none is, which
/// leaves speech to text disabled. `local_app_data` is the per-user
/// application data directory, when there is one. The disk's answers to
/// the probes are whatever they were at the time of the call; the result
/// is the first candidate they found.
pub fn resolve_whisper_model_path(configured: Option<&str>, project_root: &str, local_app_data: Option<&str>) -> (r: Option<String>)
    ensures
        exists|present: Seq<bool>|
            first_found(
                model_candidate_list(configured, project_root@, local_app_data, "ggml-base.en.bin"@),
                present,
                #[trigger] opt_text(r),
            ),
{
    let f = whisper_model_filename();
    find_model(configured, project_root, local_app_data, f)
}

/// Text to speech comes up only with both halves found: the model found
/// first and the voices found first, or nothing when either is missing.
pub open spec fn kokoro_pair(m: Option<Seq<char>>, v: Option<Seq<char>>) -> Option<(Seq<char>, Seq<char>)> {
    match (m, v) {
        (Some(a), Some(b)) => Some((a, b)),
        _ => None,
    }
}

/// A pair of strings' texts, if there is one.
pub open spec fn opt_pair_text(r: Option<(String, String)>) -> Option<(Seq<char>, Seq<char>)> {
    match r {
        Some((a, b)) => Some((a@, b@)),
        None => None,
    }
}

/// Where the text-to-speech model and its voice packs are: both found on
/// disk, each the first of its candidate paths the disk probes found, or
/// `None` when either list had none found, which leaves text to speech
/// disabled.
pub fn resolve_kokoro_paths(
    model_configured: Option<&str>,
    voices_configured: Option<&str>,
    project_root: &str,
    local_app_data: Option<&str>,
) -> (r: Option<(String, String)>)
    ensures
        exists|pm: Seq<bool>, pv: Seq<bool>, m: Option<Seq<char>>, v: Option<Seq<char>>| {
            &&& #[trigger] first_found(model_candidate_list(model_configured, project_root@, local_app_data, "model.onnx"@), pm, m)
            &&& #[trigger] first_found(voices_candidate_list(voices_configured, project_root@, local_app_data), pv, v)
            &&& opt_pair_text(r) == kokoro_pair(m, v)
        },
{
    let f = kokoro_model_filename();
    let cands = model_candidates(model_configured, project_root, local_app_data, f);
    let (model, pm) = first_existing(&cands);
    let dirs = voices_candidates(voices_configured, project_root, local_app_data);
    let (voices, pv) = first_existing(&dirs);
    let ghost m = opt_text(model);
    let ghost v = opt_text(voices);
    let r = both_found(model, voices);
    proof {
        assert(opt_pair_text(r) == kokoro_pair(m, v));
        assert(first_found(model_candidate_list(model_configured, project_root@, local_app_data, "model.onnx"@), pm@, m));
    }
    r
}

} // verus!
