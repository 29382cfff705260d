//! Backup policy of save files: which copies are made before a new save,
//! and in which order the copies are tried on restore.  Copying files and
//! reading clocks is the caller's part.
use vstd::prelude::*;
use crate::record::{duration_from_millis, duration_of_millis};
use crate::text::{decimal, push_decimal, push_str, string_of_vec, string_views};

verus! {

#[verifier::external_type_specification]
#[verifier::external_body]
pub struct ExInstant(std::time::Instant);

/// Backup policy configuration.
#[derive(Debug, Clone)]
pub struct BackupConfig {
    /// Enable .savB backup (default: true)
    pub enable_savb: bool,
    /// Number of sequence files .sav0-.savN (default: 3, 0=disable)
    pub num_seq_files: usize,
    /// Sequence rotation period (default: 60s)
    pub seq_period: std::time::Duration,
    /// Enable dated backups .sav_YYMMDD-HHMMSS (default: false)
    pub enable_dated: bool,
    /// Dated backup interval (default: 1h)
    pub dated_interval: std::time::Duration,
}

impl Default for BackupConfig {
    fn default() -> (r: Self)
        ensures
            r.enable_savb,
            r.num_seq_files == 3,
            r.seq_period == duration_of_millis(60_000),
            !r.enable_dated,
            r.dated_interval == duration_of_millis(3_600_000),
    {
        BackupConfig {
            enable_savb: true,
            num_seq_files: 3,
            seq_period: duration_from_millis(60_000),
            enable_dated: false,
            dated_interval: duration_from_millis(3_600_000),
        }
    }
}

/// State for tracking timed backup operations.
#[derive(Debug)]
pub struct BackupState {
    pub last_seq_time: Option<std::time::Instant>,
    pub last_dated_time: Option<std::time::Instant>,
    pub seq_index: usize,
}

impl Default for BackupState {
    fn default() -> (r: Self)
        ensures
            r.last_seq_time is None,
            r.last_dated_time is None,
            r.seq_index == 0,
    {
        BackupState { last_seq_time: None, last_dated_time: None, seq_index: 0 }
    }
}

/// The copies to make of a valid `.sav` file before it is overwritten.
#[derive(Debug, Clone, PartialEq, Eq)]
pub struct RotationPlan {
    /// Copy `.sav` to `.savB`.
    pub copy_savb: bool,
    /// Copy `.sav` to `.sav<N>`, this sequence number.
    pub seq_copy: Option<usize>,
    /// Make a dated copy.
    pub dated: bool,
}

/// Decide the copies for one save.  `seq_due` and `dated_due` tell whether
/// the sequence period and the dated interval have passed since the last
/// such copy (or no such copy was made yet).
pub fn plan_rotation(config: &BackupConfig, state: &BackupState, seq_due: bool, dated_due: bool) -> (r: RotationPlan)
    ensures
        r.copy_savb == config.enable_savb,
        r.seq_copy == (if config.num_seq_files > 0 && seq_due { Some(state.seq_index) } else { None::<usize> }),
        r.dated == (config.enable_dated && dated_due),
{
    RotationPlan {
        copy_savb: config.enable_savb,
        seq_copy: if config.num_seq_files > 0 && seq_due { Some(state.seq_index) } else { None },
        dated: config.enable_dated && dated_due,
    }
}

/// Record a sequence copy made at `now`: the next copy goes to the next
/// sequence number, wrapping after the last.
pub fn advance_seq(state: &mut BackupState, config: &BackupConfig, now: std::time::Instant)
    requires
        config.num_seq_files > 0,
        old(state).seq_index < usize::MAX,
    ensures
        final(state).seq_index == (old(state).seq_index + 1) % (config.num_seq_files as int),
        final(state).last_seq_time == Some(now),
        final(state).last_dated_time == old(state).last_dated_time,
{
    state.seq_index = (state.seq_index + 1) % config.num_seq_files;
    state.last_seq_time = Some(now);
}

/// Record a dated copy made at `now`.
pub fn mark_dated(state: &mut BackupState, now: std::time::Instant)
    ensures
        final(state).last_dated_time == Some(now),
        final(state).last_seq_time == old(state).last_seq_time,
        final(state).seq_index == old(state).seq_index,
{
    state.last_dated_time = Some(now);
}

/// The extension of sequence file `i`: `sav<i>`.
pub open spec fn seq_ext(i: nat) -> Seq<char> {
    "sav"@ + decimal(i)
}

/// The file extension of sequence copy `i`.
pub fn seq_extension(i: usize) -> (r: String)
    ensures
        r@ == seq_ext(i as nat),
{
    let mut v: Vec<char> = Vec::new();
    push_str(&mut v, "sav");
    push_decimal(&mut v, i as u64);
    string_of_vec(&v)
}

/// The extensions of the backup copies, in the order a restore tries them
/// after the `.sav` file itself: `.savB` when enabled, then `.sav0`,
/// `.sav1`, and so on.
pub open spec fn backup_extensions(enable_savb: bool, n: nat) -> Seq<Seq<char>> {
    (if enable_savb { seq!["savB"@] } else { Seq::empty() }) + Seq::new(n, |i: int| seq_ext(i as nat))
}

/// The extensions of the backup copies to try on restore, in order.
pub fn restore_extensions(config: &BackupConfig) -> (r: Vec<String>)
    ensures
        string_views(r@) == backup_extensions(config.enable_savb, config.num_seq_files as nat),
{
    let mut r: Vec<String> = Vec::new();
    if config.enable_savb {
        r.push("savB".to_owned());
    }
    let ghost head = string_views(r@);
    assert(head =~= (if config.enable_savb { seq!["savB"@] } else { Seq::<Seq<char>>::empty() }));
    let mut i: usize = 0;
    while i < config.num_seq_files
        invariant
            i <= config.num_seq_files,
            string_views(r@) == head + Seq::new(i as nat, |k: int| seq_ext(k as nat)),
        decreases config.num_seq_files - i,
    {
        let ghost before = string_views(r@);
        let e = seq_extension(i);
        r.push(e);
        assert(string_views(r@) =~= before.push(e@));
        assert(Seq::new((i + 1) as nat, |k: int| seq_ext(k as nat)) =~= Seq::new(i as nat, |k: int| seq_ext(k as nat)).push(seq_ext(i as nat)));
        i = i + 1;
    }
    r
}

/// The sequence number after `i` among `n` files stays below `n`, and
/// `n` rotations return to the start.
pub proof fn rotation_wraps(i: nat, n: nat)
    requires
        n > 0,
        i < n,
    ensures
        (i + 1) % n < n,
        i + 1 < n ==> (i + 1) % n == i + 1,
        i + 1 == n ==> (i + 1) % n == 0,
{
    vstd::arithmetic::div_mod::lemma_mod_pos_bound((i + 1) as int, n as int);
    if i + 1 < n {
        vstd::arithmetic::div_mod::lemma_small_mod((i + 1) as nat, n);
    } else {
        vstd::arithmetic::div_mod::lemma_mod_self_0(n as int);
    }
}

} // verus!
