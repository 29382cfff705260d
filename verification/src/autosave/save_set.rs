//! Save sets: their status, the bookkeeping of a restore, and the trigger
//! rule of triggered save sets.
use vstd::prelude::*;
use crate::autosave::save_file::SaveEntry;
use crate::text::string_views;

verus! {

/// Trigger mode for triggered save sets.
#[derive(Debug, Clone, Copy, PartialEq, Eq, Structural)]
pub enum TriggerMode {
    AnyChange,
    NonZero,
}

/// Runtime status of a save set.
#[derive(Debug, Clone, PartialEq, Eq)]
pub enum SaveSetStatus {
    Idle,
    Saving,
    Error(String),
}

impl SaveSetStatus {
    /// How `fdblist` shows the status: `idle`, `saving` or `error: <reason>`.
    pub fn list_text(&self) -> (r: String)
        ensures
            r@ == match *self {
                SaveSetStatus::Idle => "idle"@,
                SaveSetStatus::Saving => "saving"@,
                SaveSetStatus::Error(e) => "error: "@ + e@,
            },
    {
        match self {
            SaveSetStatus::Idle => "idle".to_owned(),
            SaveSetStatus::Saving => "saving".to_owned(),
            SaveSetStatus::Error(e) => {
                let mut v: Vec<char> = Vec::new();
                crate::text::push_str(&mut v, "error: ");
                crate::text::push_str(&mut v, e.as_str());
                crate::text::string_of_vec(&v)
            },
        }
    }

    /// How `asStatus` shows the status: `OK`, `SAVING` or `ERROR`.
    pub fn status_word(&self) -> (r: &'static str)
        ensures
            r@ == match *self {
                SaveSetStatus::Idle => "OK"@,
                SaveSetStatus::Saving => "SAVING"@,
                SaveSetStatus::Error(_) => "ERROR"@,
            },
    {
        match self {
            SaveSetStatus::Idle => "OK",
            SaveSetStatus::Saving => "SAVING",
            SaveSetStatus::Error(_) => "ERROR",
        }
    }
}

/// Error detail for a single PV during restore.
#[derive(Debug, Clone, PartialEq, Eq)]
pub struct PvRestoreError {
    pub pv_name: String,
    pub error: String,
}

/// What became of one saved entry during a restore.
#[derive(Debug, Clone, PartialEq, Eq)]
pub enum RestoreStep {
    /// The entry was saved while its PV was disconnected.
    Disconnected,
    /// The PV is not in the database.
    NotFound,
    /// The saved text does not parse as the PV's type.
    ParseFailed,
    /// The value was written.
    Restored,
    /// Writing the value failed, with the reason.
    PutFailed(String),
}

/// Result of a restore operation.
#[derive(Debug)]
pub struct RestoreResult {
    pub source_file: String,
    pub restored: usize,
    pub failed_puts: Vec<PvRestoreError>,
    pub parse_failed: Vec<String>,
    pub not_found: Vec<String>,
    pub disconnected_skipped: Vec<String>,
}

/// The names and reasons of a list of failed writes.
pub open spec fn failures_view(v: Seq<PvRestoreError>) -> Seq<(Seq<char>, Seq<char>)> {
    Seq::new(v.len(), |i: int| (v[i].pv_name@, v[i].error@))
}

impl RestoreResult {
    /// An empty result for a restore from `source_file`.
    pub fn new(source_file: String) -> (r: Self)
        ensures
            r.source_file@ == source_file@,
            r.restored == 0,
            r.failed_puts@.len() == 0,
            r.parse_failed@.len() == 0,
            r.not_found@.len() == 0,
            r.disconnected_skipped@.len() == 0,
    {
        RestoreResult {
            source_file,
            restored: 0,
            failed_puts: Vec::new(),
            parse_failed: Vec::new(),
            not_found: Vec::new(),
            disconnected_skipped: Vec::new(),
        }
    }

    /// Account for what happened to the entry of `pv_name`: a restored
    /// value is counted, anything else lists the name under its reason.
    pub fn record(&mut self, pv_name: &str, step: RestoreStep)
        requires
            step is Restored ==> old(self).restored < usize::MAX,
        ensures
            final(self).source_file@ == old(self).source_file@,
            final(self).restored == old(self).restored + (if step is Restored { 1int } else { 0int }),
            string_views(final(self).disconnected_skipped@) == string_views(old(self).disconnected_skipped@)
                + (if step is Disconnected { seq![pv_name@] } else { Seq::empty() }),
            string_views(final(self).not_found@) == string_views(old(self).not_found@)
                + (if step is NotFound { seq![pv_name@] } else { Seq::empty() }),
            string_views(final(self).parse_failed@) == string_views(old(self).parse_failed@)
                + (if step is ParseFailed { seq![pv_name@] } else { Seq::empty() }),
            failures_view(final(self).failed_puts@) == failures_view(old(self).failed_puts@)
                + (match step {
                    RestoreStep::PutFailed(e) => seq![(pv_name@, e@)],
                    _ => Seq::empty(),
                }),
    {
        let ghost d0 = string_views(self.disconnected_skipped@);
        let ghost n0 = string_views(self.not_found@);
        let ghost p0 = string_views(self.parse_failed@);
        let ghost f0 = failures_view(self.failed_puts@);
        match step {
            RestoreStep::Disconnected => {
                self.disconnected_skipped.push(pv_name.to_owned());
                assert(string_views(self.disconnected_skipped@) =~= d0 + seq![pv_name@]);
            },
            RestoreStep::NotFound => {
                self.not_found.push(pv_name.to_owned());
                assert(string_views(self.not_found@) =~= n0 + seq![pv_name@]);
            },
            RestoreStep::ParseFailed => {
                self.parse_failed.push(pv_name.to_owned());
                assert(string_views(self.parse_failed@) =~= p0 + seq![pv_name@]);
            },
            RestoreStep::Restored => {
                self.restored = self.restored + 1;
            },
            RestoreStep::PutFailed(e) => {
                let ghost ev = e@;
                self.failed_puts.push(PvRestoreError { pv_name: pv_name.to_owned(), error: e });
                assert(failures_view(self.failed_puts@) =~= f0 + seq![(pv_name@, ev)]);
            },
        }
        assert(string_views(self.disconnected_skipped@) =~= d0 + (if step is Disconnected { seq![pv_name@] } else { Seq::<Seq<char>>::empty() }));
        assert(string_views(self.not_found@) =~= n0 + (if step is NotFound { seq![pv_name@] } else { Seq::<Seq<char>>::empty() }));
        assert(string_views(self.parse_failed@) =~= p0 + (if step is ParseFailed { seq![pv_name@] } else { Seq::<Seq<char>>::empty() }));
    }
}

/// The number of entries saved while connected.
pub open spec fn connected_count(v: Seq<SaveEntry>) -> nat
    decreases v.len(),
{
    if v.len() == 0 {
        0
    } else {
        connected_count(v.drop_last()) + (if v.last().connected { 1nat } else { 0nat })
    }
}

proof fn lemma_connected_count(v: Seq<SaveEntry>)
    ensures
        connected_count(v) <= v.len(),
    decreases v.len(),
{
    if v.len() > 0 {
        lemma_connected_count(v.drop_last());
    }
}

/// The number of entries of a save cycle whose PV answered.
pub fn count_connected(entries: &Vec<SaveEntry>) -> (r: usize)
    ensures
        r == connected_count(entries@),
{
    let mut n: usize = 0;
    let mut i: usize = 0;
    while i < entries.len()
        invariant
            i <= entries@.len(),
            n == connected_count(entries@.subrange(0, i as int)),
        decreases entries.len() - i,
    {
        proof {
            assert(entries@.subrange(0, i + 1).drop_last() =~= entries@.subrange(0, i as int));
            lemma_connected_count(entries@.subrange(0, i as int));
        }
        if entries[i].connected {
            n = n + 1;
        }
        i = i + 1;
    }
    assert(entries@.subrange(0, entries@.len() as int) =~= entries@);
    n
}

/// What a triggered save set remembers between polls of its trigger PV.
#[derive(Debug, Clone, PartialEq, Eq)]
pub struct TriggerState {
    /// The trigger's text at the last poll (`None` before the first poll or
    /// while the PV did not answer).
    pub last_value: Option<String>,
    /// For `NonZero`: whether the trigger was seen at zero since the last save.
    pub armed: bool,
}

impl TriggerState {
    pub fn new() -> (r: Self)
        ensures
            r.last_value is None,
            r.armed,
    {
        TriggerState { last_value: None, armed: true }
    }
}

/// The view of an optional string.
pub open spec fn opt_view(o: Option<String>) -> Option<Seq<char>> {
    match o {
        Some(s) => Some(s@),
        None => None,
    }
}

/// Whether a poll saves: `AnyChange` saves when the trigger's text differs
/// from the previous poll's (not on the first poll); `NonZero` saves on the
/// first non-zero poll after a zero one (not on the first poll).
pub open spec fn trigger_saves(mode: TriggerMode, last: Option<Seq<char>>, armed: bool, current: Option<Seq<char>>, nonzero: bool) -> bool {
    match mode {
        TriggerMode::AnyChange => last != current && last is Some,
        TriggerMode::NonZero => nonzero && armed && last is Some,
    }
}

/// Whether the trigger is armed after a poll.
pub open spec fn trigger_armed(mode: TriggerMode, last: Option<Seq<char>>, armed: bool, nonzero: bool) -> bool {
    match mode {
        TriggerMode::AnyChange => armed,
        TriggerMode::NonZero => if !nonzero { true } else if armed && last is Some { false } else { armed },
    }
}

fn opt_eq(a: &Option<String>, b: &Option<String>) -> (r: bool)
    ensures
        r == (opt_view(*a) == opt_view(*b)),
{
    match (a, b) {
        (Some(x), Some(y)) => crate::text::str_eq(x.as_str(), y.as_str()),
        (None, None) => true,
        _ => false,
    }
}

/// One poll of the trigger PV: `current` is its text (`None` when it did
/// not answer) and `nonzero` whether its value is non-zero.  Returns whether
/// to save now.
pub fn trigger_step(state: &mut TriggerState, mode: TriggerMode, current: Option<String>, nonzero: bool) -> (r: bool)
    ensures
        r == trigger_saves(mode, opt_view(old(state).last_value), old(state).armed, opt_view(current), nonzero),
        final(state).armed == trigger_armed(mode, opt_view(old(state).last_value), old(state).armed, nonzero),
        opt_view(final(state).last_value) == opt_view(current),
{
    let had_last = state.last_value.is_some();
    match mode {
        TriggerMode::AnyChange => {
            let changed = !opt_eq(&state.last_value, &current) && had_last;
            state.last_value = current;
            changed
        },
        TriggerMode::NonZero => {
            if !nonzero {
                state.armed = true;
                state.last_value = current;
                false
            } else if state.armed && had_last {
                state.armed = false;
                state.last_value = current;
                true
            } else {
                state.last_value = current;
                false
            }
        },
    }
}

/// A `NonZero` trigger saves at most once while it stays non-zero: after a
/// save, a non-zero poll does not save again until a zero poll re-arms it.
pub proof fn nonzero_saves_once(last: Option<Seq<char>>, armed: bool, v1: Option<Seq<char>>, v2: Option<Seq<char>>)
    requires
        trigger_saves(TriggerMode::NonZero, last, armed, v1, true),
    ensures
        !trigger_saves(TriggerMode::NonZero, v1, trigger_armed(TriggerMode::NonZero, last, armed, true), v2, true),
        trigger_saves(
            TriggerMode::NonZero,
            v2,
            trigger_armed(TriggerMode::NonZero, v1, trigger_armed(TriggerMode::NonZero, last, armed, true), false),
            v1,
            true,
        ) == v2 is Some,
{
}

/// The first poll never saves, whatever the mode.
pub proof fn first_poll_never_saves(mode: TriggerMode, armed: bool, current: Option<Seq<char>>, nonzero: bool)
    ensures
        !trigger_saves(mode, None, armed, current, nonzero),
{
}

/// An `AnyChange` trigger saves exactly when two successive polls differ.
pub proof fn any_change_saves_on_difference(last: Seq<char>, current: Option<Seq<char>>, armed: bool, nonzero: bool)
    ensures
        trigger_saves(TriggerMode::AnyChange, Some(last), armed, current, nonzero) <==> current != Some(last),
{
}

} // verus!
