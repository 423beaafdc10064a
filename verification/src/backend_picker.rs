//! The backend and model pickers of the settings panel: which entry the
//! sidebar points at, which model it offers, and what a change asks the
//! caller to do (write the model the agent reads each turn, start a model
//! discovery for a backend).
//!
//! The picker's selection and the running session's backend are two
//! different things: a backend switch only takes effect on the next
//! start. So a model change reaches the running agent only while the two
//! still agree, and a model list discovered for a backend the picker has
//! since left is dropped.
use vstd::prelude::*;

use crate::settings::{
    apply_backend_model, apply_default_backend, backend_index, model_of,
    BackendConfig, BackendEntry, Settings,
};
use crate::text::chars_of;

verus! {

// ---------------------------------------------------------------------
// Ordering names
// ---------------------------------------------------------------------
/// Lexicographic order on character sequences, by code point. On UTF-8
/// strings this is the order `str`'s `Ord` gives, which compares bytes.
pub open spec fn lex_le(a: Seq<char>, b: Seq<char>) -> bool
    decreases a.len(),
{
    if a.len() == 0 {
        true
    } else if b.len() == 0 {
        false
    } else if a[0] != b[0] {
        (a[0] as int) < (b[0] as int)
    } else {
        lex_le(a.drop_first(), b.drop_first())
    }
}

/// `s` is in ascending `lex_le` order.
pub open spec fn names_sorted(s: Seq<Seq<char>>) -> bool {
    forall|i: int, j: int| 0 <= i < j < s.len() ==> lex_le(#[trigger] s[i], #[trigger] s[j])
}

/// The contents of a list of strings.
pub open spec fn names_view(v: Seq<String>) -> Seq<Seq<char>> {
    v.map_values(|s: String| s@)
}

/// The entry names, in stored order.
pub open spec fn entry_names(entries: Seq<BackendEntry>) -> Seq<Seq<char>> {
    entries.map_values(|e: BackendEntry| e.name@)
}

/// `lex_le` is a total order.
pub proof fn lemma_lex_le_total(a: Seq<char>, b: Seq<char>)
    ensures
        lex_le(a, b) || lex_le(b, a),
        lex_le(a, b) && lex_le(b, a) ==> a == b,
        lex_le(a, a),
    decreases a.len(),
{
    if a.len() > 0 && b.len() > 0 && a[0] != b[0] {
    }
    if a.len() > 0 && b.len() > 0 && a[0] == b[0] {
        lemma_lex_le_total(a.drop_first(), b.drop_first());
        if lex_le(a, b) && lex_le(b, a) {
            assert(a =~= seq![a[0]] + a.drop_first());
            assert(b =~= seq![b[0]] + b.drop_first());
        }
    }
    if a.len() > 0 {
        lemma_lex_le_total(a.drop_first(), a.drop_first());
    }
}

/// `lex_le` is transitive.
pub proof fn lemma_lex_le_transitive(a: Seq<char>, b: Seq<char>, c: Seq<char>)
    requires
        lex_le(a, b),
        lex_le(b, c),
    ensures
        lex_le(a, c),
    decreases a.len(),
{
    if a.len() > 0 && b.len() > 0 && c.len() > 0 && a[0] == b[0] && b[0] == c[0] {
        lemma_lex_le_transitive(a.drop_first(), b.drop_first(), c.drop_first());
    }
}

/// Whether `a` comes no later than `b`.
pub fn str_le(a: &str, b: &str) -> (r: bool)
    ensures
        r == lex_le(a@, b@),
{
    let x = chars_of(a);
    let y = chars_of(b);
    let mut i: usize = 0;
    assert(x@.skip(0) =~= x@);
    assert(y@.skip(0) =~= y@);
    while i < x.len() && i < y.len()
        invariant
            i <= x@.len(),
            i <= y@.len(),
            x@ == a@,
            y@ == b@,
            lex_le(a@, b@) == lex_le(x@.skip(i as int), y@.skip(i as int)),
        decreases x.len() - i,
    {
        if x[i] != y[i] {
            return x[i] < y[i];
        }
        assert(x@.skip(i as int).drop_first() =~= x@.skip(i + 1));
        assert(y@.skip(i as int).drop_first() =~= y@.skip(i + 1));
        i = i + 1;
    }
    i == x.len()
}

/// The entry names, sorted.
pub fn sorted_names(entries: &Vec<BackendEntry>) -> (r: Vec<String>)
    ensures
        names_sorted(names_view(r@)),
        names_view(r@).to_multiset() == entry_names(entries@).to_multiset(),
{
    broadcast use vstd::seq_lib::to_multiset_insert;
    let mut out: Vec<String> = Vec::new();
    let mut i: usize = 0;
    assert(names_view(out@) =~= seq![]);
    assert(entry_names(entries@).take(0) =~= seq![]);
    while i < entries.len()
        invariant
            i <= entries@.len(),
            names_sorted(names_view(out@)),
            names_view(out@).to_multiset() == entry_names(entries@).take(i as int).to_multiset(),
        decreases entries.len() - i,
    {
        let name = entries[i].name.clone();
        let mut p: usize = 0;
        while p < out.len() && str_le(out[p].as_str(), name.as_str())
            invariant
                p <= out@.len(),
                forall|j: int| 0 <= j < p ==> lex_le(#[trigger] out@[j]@, name@),
            decreases out.len() - p,
        {
            p = p + 1;
        }
        let ghost before = names_view(out@);
        proof {
            assert forall|j: int| p <= j < before.len() implies lex_le(name@, #[trigger] before[j]) by {
                if p < before.len() {
                    lemma_lex_le_total(name@, before[p as int]);
                    if j > p {
                        lemma_lex_le_transitive(name@, before[p as int], before[j]);
                    }
                }
            }
            assert forall|j: int| 0 <= j < p implies lex_le(#[trigger] before[j], name@) by {
                assert(before[j] == out@[j]@);
            }
        }
        out.insert(p, name);
        proof {
            let after = names_view(out@);
            assert(after =~= before.insert(p as int, name@));
            assert forall|a: int, b: int| 0 <= a < b < after.len() implies lex_le(#[trigger] after[a], #[trigger] after[b]) by {
                if a < p && b > p {
                    lemma_lex_le_transitive(after[a], name@, after[b]);
                }
            }
            assert(entry_names(entries@).take(i + 1) =~= entry_names(entries@).take(i as int).push(
                entries@[i as int].name@,
            ));
            vstd::seq_lib::to_multiset_build(entry_names(entries@).take(i as int), entries@[i as int].name@);
            vstd::seq_lib::to_multiset_insert(before, p as int, name@);
        }
        i = i + 1;
    }
    assert(entry_names(entries@).take(entries@.len() as int) =~= entry_names(entries@));
    out
}

// ---------------------------------------------------------------------
// The picker
// ---------------------------------------------------------------------
/// The two dropdowns' state.
#[derive(Debug, Clone, PartialEq, Eq)]
pub struct BackendPicker {
    /// The backend names the settings declare, sorted.
    pub options: Vec<String>,
    /// Which of `options` the picker points at.
    pub selected_idx: usize,
    /// The backend the running session was built on, fixed at startup;
    /// `None` when the settings declare no backend.
    pub active: Option<String>,
    /// The model the status bar shows and a save records.
    pub model: String,
    /// What the model dropdown offers for the selected backend.
    pub model_options: Vec<String>,
}

/// What a picker change asks of the caller.
#[derive(Debug, Clone, PartialEq, Eq)]
pub struct PickerChange {
    /// The settings changed and need saving.
    pub dirty: bool,
    /// Hand this model to the running agent, which reads it each turn.
    pub write_model_flag: Option<String>,
    /// Start discovering the models of this backend.
    pub fetch_models_for: Option<String>,
}

/// The backend entries the settings declare, none when the block is
/// missing.
pub open spec fn declared_entries(s: Settings) -> Seq<BackendEntry> {
    match s.backends {
        Some(entries) => entries@,
        None => Seq::empty(),
    }
}

/// The position of the first option equal to `name`, or -1.
pub open spec fn position_of(options: Seq<Seq<char>>, name: Seq<char>) -> int
    decreases options.len(),
{
    if options.len() == 0 {
        -1
    } else if position_of(options.drop_last(), name) >= 0 {
        position_of(options.drop_last(), name)
    } else if options.last() == name {
        options.len() - 1
    } else {
        -1
    }
}

proof fn lemma_position_of(options: Seq<Seq<char>>, name: Seq<char>)
    ensures
        -1 <= position_of(options, name) < options.len(),
        position_of(options, name) >= 0 ==> options[position_of(options, name)] == name,
        forall|j: int| 0 <= j < options.len() && (j < position_of(options, name) || position_of(options, name) < 0)
            ==> #[trigger] options[j] != name,
    decreases options.len(),
{
    if options.len() > 0 {
        lemma_position_of(options.drop_last(), name);
        assert forall|j: int| 0 <= j < options.len() - 1 implies #[trigger] options[j] == options.drop_last()[j] by {}
    }
}

proof fn lemma_position_of_unique(options: Seq<Seq<char>>, name: Seq<char>, k: int)
    requires
        -1 <= k < options.len(),
        k >= 0 ==> options[k] == name,
        forall|j: int| 0 <= j < options.len() && (j < k || k < 0) ==> #[trigger] options[j] != name,
    ensures
        position_of(options, name) == k,
{
    lemma_position_of(options, name);
    let r = position_of(options, name);
    if r >= 0 && k >= 0 && r != k {
        if r < k {
            assert(options[r] != name);
        } else {
            assert(options[k] != name);
        }
    } else if r >= 0 && k < 0 {
        assert(options[r] != name);
    } else if r < 0 && k >= 0 {
        assert(options[k] != name);
    }
}

/// Where a new picker points: at the default backend when the options
/// hold it, else at the first option.
pub open spec fn initial_index(options: Seq<Seq<char>>, default_backend: Option<String>) -> int {
    match default_backend {
        Some(n) => if position_of(options, n@) >= 0 { position_of(options, n@) } else { 0 },
        None => 0,
    }
}

/// The option at `idx`, if there is one.
pub open spec fn option_at(options: Seq<String>, idx: int) -> Option<String> {
    if 0 <= idx < options.len() {
        Some(options[idx])
    } else {
        None
    }
}

/// The picker's selected name, by its characters.
pub open spec fn selected_view(p: BackendPicker) -> Option<Seq<char>> {
    match option_at(p.options@, p.selected_idx as int) {
        Some(s) => Some(s@),
        None => None,
    }
}

/// The running backend, by its characters.
pub open spec fn active_view(p: BackendPicker) -> Option<Seq<char>> {
    match p.active {
        Some(s) => Some(s@),
        None => None,
    }
}

/// The backend entry named `name`, if the settings have one.
pub open spec fn entry_config(s: Settings, name: Seq<char>) -> Option<BackendConfig> {
    match s.backends {
        Some(entries) => if backend_index(entries@, name) >= 0 {
            Some(entries@[backend_index(entries@, name)].config)
        } else {
            None
        },
        None => None,
    }
}

/// The position of the first option equal to `name`, if any.
pub fn position_in(options: &Vec<String>, name: &str) -> (r: Option<usize>)
    ensures
        match r {
            Some(k) => k as int == position_of(names_view(options@), name@),
            None => position_of(names_view(options@), name@) < 0,
        },
{
    let ghost v = names_view(options@);
    let mut i: usize = 0;
    while i < options.len()
        invariant
            i <= options@.len(),
            v == names_view(options@),
            forall|j: int| 0 <= j < i ==> #[trigger] v[j] != name@,
        decreases options.len() - i,
    {
        if crate::settings::str_eq(options[i].as_str(), name) {
            proof {
                lemma_position_of_unique(v, name@, i as int);
            }
            return Some(i);
        }
        i = i + 1;
    }
    proof {
        lemma_position_of_unique(v, name@, -1);
    }
    None
}

impl BackendPicker {
    /// Seed both dropdowns: the sorted backend names, pointing at the
    /// default backend (the first name when it is unset or unknown), and
    /// a model dropdown holding just the model the agent is running.
    pub fn new(settings: &Settings, running_model: String) -> (p: BackendPicker)
        ensures
            names_sorted(names_view(p.options@)),
            names_view(p.options@).to_multiset() == entry_names(declared_entries(*settings)).to_multiset(),
            p.selected_idx == initial_index(names_view(p.options@), settings.default_backend),
            p.active == option_at(p.options@, p.selected_idx as int),
            p.model == running_model,
            p.model_options@ == seq![running_model],
    {
        let options = match &settings.backends {
            Some(entries) => sorted_names(entries),
            None => {
                let v: Vec<String> = Vec::new();
                assert(names_view(v@) =~= entry_names(declared_entries(*settings)));
                v
            },
        };
        let selected_idx: usize = match &settings.default_backend {
            Some(name) => match position_in(&options, name.as_str()) {
                Some(k) => k,
                None => 0,
            },
            None => 0,
        };
        let active = if selected_idx < options.len() {
            Some(options[selected_idx].clone())
        } else {
            None
        };
        let mut model_options: Vec<String> = Vec::new();
        model_options.push(running_model.clone());
        BackendPicker { options, selected_idx, active, model: running_model, model_options }
    }

    /// The backend the running session is on, empty when there is none.
    pub fn active_backend(&self) -> (r: &str)
        ensures
            r@ == match self.active {
                Some(s) => s@,
                None => Seq::<char>::empty(),
            },
    {
        proof {
            reveal_strlit("");
        }
        match &self.active {
            Some(s) => s.as_str(),
            None => "",
        }
    }

    /// The model the status bar shows and a save records.
    pub fn model(&self) -> (r: &str)
        ensures
            r@ == self.model@,
    {
        self.model.as_str()
    }

    /// The name the picker points at, which may differ from the running
    /// backend until the next start.
    pub fn selected_name(&self) -> (r: Option<&str>)
        ensures
            match r {
                Some(s) => selected_view(*self) == Some(s@),
                None => selected_view(*self) is None,
            },
    {
        if self.selected_idx < self.options.len() {
            Some(self.options[self.selected_idx].as_str())
        } else {
            None
        }
    }

    /// The backend whose models to discover right after startup: the
    /// selected one, when the settings declare it.
    pub fn fetch_for_selected(&self, settings: &Settings) -> (r: Option<String>)
        ensures
            match r {
                Some(name) => selected_view(*self) == Some(name@)
                    && entry_config(*settings, name@) is Some,
                None => selected_view(*self) is None
                    || entry_config(*settings, selected_view(*self)->0) is None,
            },
    {
        let name = match self.selected_name() {
            Some(n) => n,
            None => return None,
        };
        match settings.resolve_backend(name) {
            Some(_) => Some(name.to_owned()),
            None => None,
        }
    }

    /// Point the picker at `new_backend`: adopt that entry's declared
    /// model and reseed the model dropdown with it, discover its models,
    /// and store the choice as the default backend. The running agent is
    /// handed the new model only when `new_backend` is the backend it runs
    /// on. An unknown name only moves the stored default.
    pub fn switch_backend(&mut self, new_backend: &str, settings: &mut Settings) -> (c: PickerChange)
        ensures
            c.dirty,
            final(self).options == old(self).options,
            final(self).selected_idx == old(self).selected_idx,
            final(self).active == old(self).active,
            final(settings).default_backend is Some,
            final(settings).default_backend->0@ == new_backend@,
            *final(settings) == (Settings { default_backend: final(settings).default_backend, ..*old(settings) }),
            match entry_config(*old(settings), new_backend@) {
                Some(cfg) => {
                    &&& final(self).model@ == model_of(cfg)
                    &&& final(self).model_options@ == seq![final(self).model]
                    &&& c.fetch_models_for matches Some(n) && n@ == new_backend@
                    &&& (active_view(*old(self)) == Some(new_backend@) <==> c.write_model_flag is Some)
                    &&& (c.write_model_flag matches Some(m) ==> m == final(self).model)
                },
                None => {
                    &&& final(self).model == old(self).model
                    &&& final(self).model_options == old(self).model_options
                    &&& c.fetch_models_for is None
                    &&& c.write_model_flag is None
                },
            },
    {
        let mut change = PickerChange { dirty: true, write_model_flag: None, fetch_models_for: None };
        let declared = match settings.resolve_backend(new_backend) {
            Some(cfg) => Some(cfg.model().to_owned()),
            None => None,
        };
        match declared {
            Some(new_model) => {
                self.model = new_model.clone();
                let mut options: Vec<String> = Vec::new();
                options.push(new_model.clone());
                self.model_options = options;
                let on_running = match &self.active {
                    Some(a) => crate::settings::str_eq(a.as_str(), new_backend),
                    None => false,
                };
                if on_running {
                    change.write_model_flag = Some(new_model);
                }
                change.fetch_models_for = Some(new_backend.to_owned());
            },
            None => {},
        }
        apply_default_backend(settings, new_backend);
        change
    }

    /// Switch the selected backend's model and store it on that entry. The
    /// running agent is handed it only while the picker points at the
    /// backend it runs on. A picker pointing at nothing changes nothing.
    pub fn switch_model(&mut self, new_model: &str, settings: &mut Settings) -> (c: PickerChange)
        ensures
            c.fetch_models_for is None,
            final(self).options == old(self).options,
            final(self).selected_idx == old(self).selected_idx,
            final(self).active == old(self).active,
            final(self).model_options == old(self).model_options,
            match selected_view(*old(self)) {
                None => {
                    &&& !c.dirty
                    &&& c.write_model_flag is None
                    &&& final(self).model == old(self).model
                    &&& *final(settings) == *old(settings)
                },
                Some(name) => {
                    &&& c.dirty
                    &&& final(self).model@ == new_model@
                    &&& (active_view(*old(self)) == Some(name) <==> c.write_model_flag is Some)
                    &&& (c.write_model_flag matches Some(m) ==> m@ == new_model@)
                    &&& match old(settings).backends {
                        Some(entries) => {
                            let k = backend_index(entries@, name);
                            if k >= 0 {
                                &&& final(settings).backends is Some
                                &&& crate::settings::model_set(entries@, final(settings).backends->0@, k, new_model@)
                                &&& *final(settings) == (Settings { backends: final(settings).backends, ..*old(settings) })
                            } else {
                                *final(settings) == *old(settings)
                            }
                        },
                        None => *final(settings) == *old(settings),
                    }
                },
            },
    {
        let backend_name = match self.selected_name() {
            Some(n) => n.to_owned(),
            None => return PickerChange { dirty: false, write_model_flag: None, fetch_models_for: None },
        };
        self.model = new_model.to_owned();
        let on_running = match &self.active {
            Some(a) => crate::settings::str_eq(a.as_str(), backend_name.as_str()),
            None => false,
        };
        let write_model_flag = if on_running {
            Some(new_model.to_owned())
        } else {
            None
        };
        apply_backend_model(settings, backend_name.as_str(), new_model);
        PickerChange { dirty: true, write_model_flag, fetch_models_for: None }
    }

    /// Install a discovered model list, or drop it when it was found for a
    /// backend the picker no longer points at. The current model is
    /// appended when the list lacks it, so the dropdown always offers its
    /// own selection.
    pub fn apply_fetched_list(&mut self, backend_name: &str, models: Vec<String>)
        ensures
            final(self).options == old(self).options,
            final(self).selected_idx == old(self).selected_idx,
            final(self).active == old(self).active,
            final(self).model == old(self).model,
            selected_view(*old(self)) != Some(backend_name@) ==> final(self).model_options == old(self).model_options,
            selected_view(*old(self)) == Some(backend_name@) ==> {
                &&& names_view(models@).contains(old(self).model@) ==> final(self).model_options@ == models@
                &&& !names_view(models@).contains(old(self).model@)
                    ==> final(self).model_options@ == models@.push(old(self).model)
            },
            selected_view(*old(self)) == Some(backend_name@)
                ==> names_view(final(self).model_options@).contains(final(self).model@),
    {
        let selected = match self.selected_name() {
            Some(n) => crate::settings::str_eq(n, backend_name),
            None => false,
        };
        if !selected {
            return;
        }
        let mut list = models;
        let mut found = false;
        let mut i: usize = 0;
        while i < list.len()
            invariant
                i <= list@.len(),
                list@ == models@,
                found <==> exists|j: int| 0 <= j < i && #[trigger] list@[j]@ == self.model@,
            decreases list.len() - i,
        {
            if crate::settings::str_eq(list[i].as_str(), self.model.as_str()) {
                found = true;
            }
            i = i + 1;
        }
        proof {
            if found {
                let j = choose|j: int| 0 <= j < i && #[trigger] list@[j]@ == self.model@;
                assert(names_view(models@)[j] == self.model@);
            }
            if names_view(models@).contains(self.model@) {
                let j = choose|j: int| 0 <= j < names_view(models@).len() && names_view(models@)[j] == self.model@;
                assert(list@[j]@ == self.model@);
            }
        }
        if !found {
            list.push(self.model.clone());
            proof {
                let n = list@.len() - 1;
                assert(names_view(list@)[n] == self.model@);
            }
        }
        self.model_options = list;
    }
}

} // verus!
