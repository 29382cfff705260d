//! The processing chain of the database as a state machine. A chain starts
//! at one record; each record is prepared (disable and simulation checks),
//! its input links are read, it is processed, its output link is written
//! (processing a passive target of a `PP` link), its multi-output links are
//! dispatched (fanout targets processed, dfanout values written, seq
//! values read and then written), its
//! forward link fires to a passive record, the records with a `CP` link
//! from it are processed, each of these one link deeper, and a record that
//! asked for it (`RPRO`) is processed once more before it finishes. A
//! record whose asynchronous processing completes goes on from its output
//! in the same way, without `RPRO`. The caller performs each
//! action on the records and reports what came of it as the next event.
use vstd::prelude::*;
use crate::database::processing::{
    chain_after, chain_stays_bounded, entry_step, enter_chain, link_pv, link_pv_name, ChainStep,
    MAX_LINK_DEPTH, MAX_LINK_OPS,
};
use crate::database::record_db::RecordDb;
use crate::record::{
    link_meaning, parse_link_v2, CommonFields, DbLink, LinkModel, LinkProcessPolicy, ParsedLink,
    ScanType,
};
use crate::text::{str_eq, string_views};

verus! {

/// Where a record stands in its processing.
#[derive(Clone, Copy, Debug, PartialEq, Eq, Structural)]
pub enum Stage {
    /// Waiting for the disable and simulation checks.
    Prepare,
    /// Waiting for its input links to be read.
    Input,
    /// Waiting to be processed.
    Process,
    /// Waiting for its output link to be written.
    Output,
    /// Its output is done; its dispatches from this index on come next,
    /// then its forward link.
    Dispatch(usize),
    /// Waiting for the value of its dispatch at this index to be written.
    DispatchOut(usize),
    /// Waiting for the value of its dispatch at this index to be read.
    DispatchRead(usize),
    /// Its forward link is done; the `CP` targets from this index on come
    /// next.
    Cp(usize),
    /// Waiting for its `RPRO` request to be taken before it is processed
    /// again.
    Rpro,
    /// It was processed once more; it finishes next.
    Reprocessed,
}

/// One multi-output dispatch of a record (fanout, dfanout, seq).
#[derive(Debug)]
pub enum Dispatch {
    /// Process the record (a fanout link).
    Process(String),
    /// Write a value through the database link (dfanout, output links).
    Write(DbLink),
    /// Read a value through the first link and, when there is one, write
    /// it through the database link (seq).
    ReadWrite(String, DbLink),
}

/// A record being processed in the chain.
#[derive(Debug)]
pub struct Frame {
    pub record: String,
    pub depth: usize,
    pub stage: Stage,
    /// Whether the record fires its forward link in this cycle.
    pub fires_forward: bool,
    /// The database link its output is written to in this cycle.
    pub out: Option<DbLink>,
    /// Its multi-output dispatches in this cycle, in order.
    pub dispatch: Vec<Dispatch>,
    /// Whether it is completing an asynchronous processing: it then
    /// neither takes an `RPRO` request nor runs its process actions.
    pub completing: bool,
}

/// The records visited by the chain, and the records being processed, the
/// innermost last.
#[derive(Debug)]
pub struct ChainState {
    pub visited: Vec<String>,
    pub frames: Vec<Frame>,
}

/// What the caller reports.
#[derive(Debug)]
pub enum ChainEvent {
    /// Start a chain at a record.
    Start(String),
    /// The record was checked; `skip` when it is disabled or its
    /// simulation replaced processing.
    Prepared { skip: bool },
    /// The record's input links were read.
    InputRead,
    /// The record was processed: `pending` when it completes later; whether
    /// it fires its forward link; the database link its output goes to; its
    /// multi-output dispatches.
    Processed { pending: bool, fires_forward: bool, out: Option<DbLink>, dispatch: Vec<Dispatch> },
    /// The value asked for was written.
    OutputWritten,
    /// The value asked for was read: `present` when the link gave one.
    ValueRead { present: bool },
    /// The record's `RPRO` request was taken (the flag cleared).
    Reprocessing,
    /// Device support completed the asynchronous processing of a record
    /// (its alarms, time stamp and `PACT` are settled): whether it fires
    /// its forward link, the database link its output goes to, its
    /// multi-output dispatches.
    Complete { record: String, fires_forward: bool, out: Option<DbLink>, dispatch: Vec<Dispatch> },
    /// Go on after a skipped, missing or finished record.
    Continue,
}

/// What the caller does next.
#[derive(Debug, PartialEq)]
pub enum ChainAction {
    /// Check whether the record is disabled or simulated.
    Prepare(String),
    /// Read the record's input links.
    ReadInput(String),
    /// Process the record.
    Process(String),
    /// Write the record's output value to the PV.
    WriteOutput(String),
    /// Read a value through the link.
    ReadValue(String),
    /// The record is not processed, for the reason given.
    Skip(String, ChainStep),
    /// The record does not exist.
    Missing(String),
    /// The record asked to be processed again: clear its `RPRO`.
    Reprocess(String),
    /// The record is done (the caller runs its remaining process actions).
    Finished(String),
    /// The asynchronous completion of the record is done.
    Completed(String),
    /// The chain is done.
    Done,
    /// The event does not fit the state; nothing changes.
    Idle,
}

// ---------------------------------------------------------------------
// Models
// ---------------------------------------------------------------------
pub enum DispatchModel {
    Process(Seq<char>),
    Write((Seq<char>, Seq<char>, LinkProcessPolicy)),
    ReadWrite(Seq<char>, (Seq<char>, Seq<char>, LinkProcessPolicy)),
}

pub struct FrameModel {
    pub record: Seq<char>,
    pub depth: int,
    pub stage: Stage,
    pub fires_forward: bool,
    pub out: Option<(Seq<char>, Seq<char>, LinkProcessPolicy)>,
    pub dispatch: Seq<DispatchModel>,
    pub completing: bool,
}

pub struct StateModel {
    pub visited: Seq<Seq<char>>,
    pub frames: Seq<FrameModel>,
}

pub enum EventModel {
    Start(Seq<char>),
    Prepared(bool),
    InputRead,
    Processed(bool, bool, Option<(Seq<char>, Seq<char>, LinkProcessPolicy)>, Seq<DispatchModel>),
    OutputWritten,
    ValueRead(bool),
    Reprocessing,
    Complete(Seq<char>, bool, Option<(Seq<char>, Seq<char>, LinkProcessPolicy)>, Seq<DispatchModel>),
    Continue,
}

pub enum ActionModel {
    Prepare(Seq<char>),
    ReadInput(Seq<char>),
    Process(Seq<char>),
    WriteOutput(Seq<char>),
    ReadValue(Seq<char>),
    Skip(Seq<char>, ChainStep),
    Missing(Seq<char>),
    Reprocess(Seq<char>),
    Finished(Seq<char>),
    Completed(Seq<char>),
    Done,
    Idle,
}

pub open spec fn link_model(l: Option<DbLink>) -> Option<(Seq<char>, Seq<char>, LinkProcessPolicy)> {
    match l {
        Some(d) => Some((d.record@, d.field@, d.policy)),
        None => None,
    }
}

impl Dispatch {
    pub open spec fn model(&self) -> DispatchModel {
        match self {
            Dispatch::Process(r) => DispatchModel::Process(r@),
            Dispatch::Write(l) => DispatchModel::Write((l.record@, l.field@, l.policy)),
            Dispatch::ReadWrite(d, l) => DispatchModel::ReadWrite(d@, (l.record@, l.field@, l.policy)),
        }
    }
}

pub open spec fn dispatch_model(v: Seq<Dispatch>) -> Seq<DispatchModel> {
    Seq::new(v.len(), |i: int| v[i].model())
}

impl Frame {
    pub open spec fn model(&self) -> FrameModel {
        FrameModel {
            record: self.record@,
            depth: self.depth as int,
            stage: self.stage,
            fires_forward: self.fires_forward,
            out: link_model(self.out),
            dispatch: dispatch_model(self.dispatch@),
            completing: self.completing,
        }
    }
}

pub open spec fn frames_model(v: Seq<Frame>) -> Seq<FrameModel> {
    Seq::new(v.len(), |i: int| v[i].model())
}

impl ChainState {
    pub open spec fn model(&self) -> StateModel {
        StateModel { visited: string_views(self.visited@), frames: frames_model(self.frames@) }
    }

    /// Every record being processed is within the depth limit.
    pub open spec fn wf(&self) -> bool {
        forall|i: int| 0 <= i < self.frames@.len() ==> #[trigger] self.frames@[i].depth < MAX_LINK_DEPTH
    }

    /// A chain that has not started.
    pub fn new() -> (r: Self)
        ensures
            r.wf(),
            r.model().visited.len() == 0,
            r.model().frames.len() == 0,
    {
        ChainState { visited: Vec::new(), frames: Vec::new() }
    }
}

impl ChainEvent {
    pub open spec fn model(&self) -> EventModel {
        match self {
            ChainEvent::Start(n) => EventModel::Start(n@),
            ChainEvent::Prepared { skip } => EventModel::Prepared(*skip),
            ChainEvent::InputRead => EventModel::InputRead,
            ChainEvent::Processed { pending, fires_forward, out, dispatch } => EventModel::Processed(*pending, *fires_forward, link_model(*out), dispatch_model(dispatch@)),
            ChainEvent::OutputWritten => EventModel::OutputWritten,
            ChainEvent::ValueRead { present } => EventModel::ValueRead(*present),
            ChainEvent::Reprocessing => EventModel::Reprocessing,
            ChainEvent::Complete { record, fires_forward, out, dispatch } => EventModel::Complete(record@, *fires_forward, link_model(*out), dispatch_model(dispatch@)),
            ChainEvent::Continue => EventModel::Continue,
        }
    }
}

impl ChainAction {
    pub open spec fn model(&self) -> ActionModel {
        match self {
            ChainAction::Prepare(n) => ActionModel::Prepare(n@),
            ChainAction::ReadInput(n) => ActionModel::ReadInput(n@),
            ChainAction::Process(n) => ActionModel::Process(n@),
            ChainAction::WriteOutput(n) => ActionModel::WriteOutput(n@),
            ChainAction::ReadValue(n) => ActionModel::ReadValue(n@),
            ChainAction::Skip(n, s) => ActionModel::Skip(n@, *s),
            ChainAction::Missing(n) => ActionModel::Missing(n@),
            ChainAction::Reprocess(n) => ActionModel::Reprocess(n@),
            ChainAction::Finished(n) => ActionModel::Finished(n@),
            ChainAction::Completed(n) => ActionModel::Completed(n@),
            ChainAction::Done => ActionModel::Done,
            ChainAction::Idle => ActionModel::Idle,
        }
    }
}

// ---------------------------------------------------------------------
// The transitions
// ---------------------------------------------------------------------
/// A record that exists and is scanned passively.
pub open spec fn passive_record(commons: Map<Seq<char>, CommonFields>, n: Seq<char>) -> bool {
    commons.contains_key(n) && commons[n].scan == ScanType::Passive
}

pub open spec fn with_top(s: StateModel, f: FrameModel) -> StateModel {
    StateModel { frames: s.frames.drop_last().push(f), ..s }
}

pub open spec fn popped(s: StateModel) -> StateModel {
    StateModel { frames: s.frames.drop_last(), ..s }
}

/// The chain reaches record `name` at `depth`: it is processed unless the
/// depth or ops limit is reached or it was visited; a visit is recorded
/// even when the record does not exist.
pub open spec fn enter_next(commons: Map<Seq<char>, CommonFields>, s: StateModel, name: Seq<char>, depth: int) -> (StateModel, ActionModel) {
    let st = entry_step(s.visited, name, depth);
    if st != ChainStep::Enter {
        (s, ActionModel::Skip(name, st))
    } else if !commons.contains_key(name) {
        (StateModel { visited: s.visited.push(name), ..s }, ActionModel::Missing(name))
    } else {
        (
            StateModel {
                visited: s.visited.push(name),
                frames: s.frames.push(FrameModel { record: name, depth: depth, stage: Stage::Prepare, fires_forward: false, out: None, dispatch: seq![], completing: false }),
            },
            ActionModel::Prepare(name),
        )
    }
}

/// The `CP` targets of the innermost record from index `k` on: the next
/// one is reached one link deeper; with none left the record is finished.
pub open spec fn cp_next<R>(db: RecordDb<R>, s: StateModel, k: int) -> (StateModel, ActionModel) {
    let f = s.frames.last();
    let targets = db.cp_of(f.record);
    if k < targets.len() {
        enter_next(db.commons(), with_top(s, FrameModel { stage: Stage::Cp((k + 1) as usize), ..f }), targets[k], f.depth + 1)
    } else if f.completing {
        (popped(s), ActionModel::Completed(f.record))
    } else if db.commons().contains_key(f.record) && db.commons()[f.record].rpro {
        (with_top(s, FrameModel { stage: Stage::Rpro, ..f }), ActionModel::Reprocess(f.record))
    } else {
        (popped(s), ActionModel::Finished(f.record))
    }
}

/// The dispatches of the innermost record from index `k` on: a fanout
/// target is processed one link deeper, a value is written; with none
/// left the forward link comes next.
pub open spec fn dispatch_next<R>(db: RecordDb<R>, s: StateModel, k: int) -> (StateModel, ActionModel) {
    let f = s.frames.last();
    if 0 <= k < f.dispatch.len() {
        match f.dispatch[k] {
            DispatchModel::Process(r) => enter_next(db.commons(), with_top(s, FrameModel { stage: Stage::Dispatch((k + 1) as usize), ..f }), r, f.depth + 1),
            DispatchModel::Write(o) => (with_top(s, FrameModel { stage: Stage::DispatchOut(k as usize), ..f }), ActionModel::WriteOutput(link_pv(o.0, o.1))),
            DispatchModel::ReadWrite(d, _) => (with_top(s, FrameModel { stage: Stage::DispatchRead(k as usize), ..f }), ActionModel::ReadValue(d)),
        }
    } else {
        forward_next(db, s)
    }
}

/// After a value was written through link `o`, a passive target of a `PP`
/// link is processed one link deeper; then the dispatches from `next` on.
pub open spec fn after_write<R>(db: RecordDb<R>, s: StateModel, o: (Seq<char>, Seq<char>, LinkProcessPolicy), next: int) -> (StateModel, ActionModel) {
    let f = s.frames.last();
    if o.2 == LinkProcessPolicy::ProcessPassive && passive_record(db.commons(), o.0) {
        enter_next(db.commons(), with_top(s, FrameModel { stage: Stage::Dispatch(next as usize), ..f }), o.0, f.depth + 1)
    } else {
        dispatch_next(db, s, next)
    }
}

/// `v` without the name `n`.
pub open spec fn without(v: Seq<Seq<char>>, n: Seq<char>) -> Seq<Seq<char>>
    decreases v.len(),
{
    if v.len() == 0 {
        v
    } else if v.last() == n {
        without(v.drop_last(), n)
    } else {
        without(v.drop_last(), n).push(v.last())
    }
}

/// The forward-link target of a record that fires it: the record of a
/// database `FLNK`, when that record is passive.
pub open spec fn forward_target(commons: Map<Seq<char>, CommonFields>, f: FrameModel) -> Option<Seq<char>> {
    if f.fires_forward && commons.contains_key(f.record) {
        match link_meaning(commons[f.record].flnk@) {
            LinkModel::Db(t, _, _) => if passive_record(commons, t) { Some(t) } else { None },
            _ => None,
        }
    } else {
        None
    }
}

/// After its output, the innermost record fires its forward link (one link
/// deeper), then goes on to its `CP` targets.
pub open spec fn forward_next<R>(db: RecordDb<R>, s: StateModel) -> (StateModel, ActionModel) {
    let f = s.frames.last();
    match forward_target(db.commons(), f) {
        Some(t) => enter_next(db.commons(), with_top(s, FrameModel { stage: Stage::Cp(0), ..f }), t, f.depth + 1),
        None => cp_next(db, s, 0),
    }
}

/// The link of the dispatch whose value is being written, with the index
/// of the dispatch that comes after it.
pub open spec fn dispatch_write(f: FrameModel) -> Option<((Seq<char>, Seq<char>, LinkProcessPolicy), int)> {
    match f.stage {
        Stage::DispatchOut(k) => if k < f.dispatch.len() {
            match f.dispatch[k as int] {
                DispatchModel::Write(o) => Some((o, k + 1)),
                DispatchModel::ReadWrite(_, o) => Some((o, k + 1)),
                DispatchModel::Process(_) => None,
            }
        } else {
            None
        },
        _ => None,
    }
}

/// The link of the dispatch whose value is being read, with the index of
/// that dispatch.
pub open spec fn dispatch_read(f: FrameModel) -> Option<((Seq<char>, Seq<char>, LinkProcessPolicy), int)> {
    match f.stage {
        Stage::DispatchRead(k) => if k < f.dispatch.len() {
            match f.dispatch[k as int] {
                DispatchModel::ReadWrite(_, o) => Some((o, k as int)),
                _ => None,
            }
        } else {
            None
        },
        _ => None,
    }
}

/// The innermost record waits, processed once more, to finish; its name
/// is taken off the visited records so that it can be entered again.
pub open spec fn reprocess_state(s: StateModel) -> StateModel {
    let f = s.frames.last();
    StateModel { visited: without(s.visited, f.record), frames: s.frames.drop_last().push(FrameModel { stage: Stage::Reprocessed, ..f }) }
}

/// The next state and action of the chain on an event.
pub open spec fn chain_next<R>(db: RecordDb<R>, s: StateModel, e: EventModel) -> (StateModel, ActionModel) {
    let commons = db.commons();
    let f = s.frames.last();
    match e {
        EventModel::Start(n) => if s.frames.len() == 0 { enter_next(commons, s, n, 0) } else { (s, ActionModel::Idle) },
        EventModel::Continue => if s.frames.len() == 0 {
            (s, ActionModel::Done)
        } else {
            match f.stage {
                Stage::Dispatch(k) => dispatch_next(db, s, k as int),
                Stage::Cp(k) => cp_next(db, s, k as int),
                Stage::Reprocessed => (popped(s), ActionModel::Finished(f.record)),
                _ => (s, ActionModel::Idle),
            }
        },
        EventModel::Prepared(skip) => if s.frames.len() > 0 && f.stage == Stage::Prepare {
            if skip {
                (popped(s), ActionModel::Finished(f.record))
            } else {
                (with_top(s, FrameModel { stage: Stage::Input, ..f }), ActionModel::ReadInput(f.record))
            }
        } else {
            (s, ActionModel::Idle)
        },
        EventModel::InputRead => if s.frames.len() > 0 && f.stage == Stage::Input {
            (with_top(s, FrameModel { stage: Stage::Process, ..f }), ActionModel::Process(f.record))
        } else {
            (s, ActionModel::Idle)
        },
        EventModel::Processed(pending, fires, out, disp) => if s.frames.len() > 0 && f.stage == Stage::Process {
            if pending {
                (popped(s), ActionModel::Finished(f.record))
            } else {
                match out {
                    Some(o) => (
                        with_top(s, FrameModel { stage: Stage::Output, fires_forward: fires, out: out, dispatch: disp, ..f }),
                        ActionModel::WriteOutput(link_pv(o.0, o.1)),
                    ),
                    None => dispatch_next(db, with_top(s, FrameModel { stage: Stage::Dispatch(0), fires_forward: fires, out: out, dispatch: disp, ..f }), 0),
                }
            }
        } else {
            (s, ActionModel::Idle)
        },
        EventModel::OutputWritten => if s.frames.len() > 0 && f.stage == Stage::Output && f.out is Some {
            after_write(db, s, f.out->0, 0)
        } else if s.frames.len() > 0 && dispatch_write(f) is Some {
            let (o, next) = dispatch_write(f)->0;
            after_write(db, s, o, next)
        } else {
            (s, ActionModel::Idle)
        },
        EventModel::ValueRead(present) => if s.frames.len() > 0 && dispatch_read(f) is Some {
            let (o, k) = dispatch_read(f)->0;
            if present {
                (with_top(s, FrameModel { stage: Stage::DispatchOut(k as usize), ..f }), ActionModel::WriteOutput(link_pv(o.0, o.1)))
            } else {
                dispatch_next(db, s, k + 1)
            }
        } else {
            (s, ActionModel::Idle)
        },
        EventModel::Complete(n, fires, out, disp) => if s.frames.len() == 0 {
            if commons.contains_key(n) {
                let g = FrameModel { record: n, depth: 0, stage: Stage::Output, fires_forward: fires, out: out, dispatch: disp, completing: true };
                match out {
                    Some(o) => (StateModel { frames: s.frames.push(g), ..s }, ActionModel::WriteOutput(link_pv(o.0, o.1))),
                    None => dispatch_next(db, StateModel { frames: s.frames.push(FrameModel { stage: Stage::Dispatch(0), ..g }), ..s }, 0),
                }
            } else {
                (s, ActionModel::Missing(n))
            }
        } else {
            (s, ActionModel::Idle)
        },
        EventModel::Reprocessing => if s.frames.len() > 0 && f.stage == Stage::Rpro {
            enter_next(commons, reprocess_state(s), f.record, f.depth + 1)
        } else {
            (s, ActionModel::Idle)
        },
    }
}

proof fn lemma_enter_visited(commons: Map<Seq<char>, CommonFields>, s: StateModel, name: Seq<char>, depth: int)
    requires
        s.visited.no_duplicates(),
        s.visited.len() <= MAX_LINK_OPS,
    ensures
        enter_next(commons, s, name, depth).0.visited.no_duplicates(),
        enter_next(commons, s, name, depth).0.visited.len() <= MAX_LINK_OPS,
{
    chain_stays_bounded(s.visited, name, depth);
    assert(enter_next(commons, s, name, depth).0.visited == chain_after(s.visited, name, depth));
}

proof fn lemma_without(v: Seq<Seq<char>>, n: Seq<char>)
    ensures
        without(v, n).len() <= v.len(),
        forall|x: Seq<char>| #[trigger] without(v, n).contains(x) <==> (v.contains(x) && x != n),
        v.no_duplicates() ==> without(v, n).no_duplicates(),
    decreases v.len(),
{
    if v.len() > 0 {
        let d = v.drop_last();
        lemma_without(d, n);
        assert forall|x: Seq<char>| #[trigger] v.contains(x) <==> (d.contains(x) || x == v.last()) by {
            if v.contains(x) {
                let i = choose|i: int| 0 <= i < v.len() && v[i] == x;
                if i < d.len() {
                    assert(d[i] == x);
                }
            }
            if d.contains(x) {
                let i = choose|i: int| 0 <= i < d.len() && d[i] == x;
                assert(v[i] == x);
            }
            if x == v.last() {
                assert(v[v.len() - 1] == x);
            }
        }
        if v.last() != n {
            let w = without(d, n);
            assert forall|x: Seq<char>| #[trigger] w.push(v.last()).contains(x) <==> (w.contains(x) || x == v.last()) by {
                if w.push(v.last()).contains(x) {
                    let i = choose|i: int| 0 <= i < w.push(v.last()).len() && w.push(v.last())[i] == x;
                    if i < w.len() {
                        assert(w[i] == x);
                    }
                }
                if w.contains(x) {
                    let i = choose|i: int| 0 <= i < w.len() && w[i] == x;
                    assert(w.push(v.last())[i] == x);
                }
                if x == v.last() {
                    assert(w.push(v.last())[w.len() as int] == x);
                }
            }
            if v.no_duplicates() {
                assert(d.no_duplicates()) by {
                    assert forall|i: int, j: int| 0 <= i < d.len() && 0 <= j < d.len() && i != j implies d[i] != d[j] by {
                        assert(v[i] == d[i] && v[j] == d[j]);
                    }
                }
                assert(!d.contains(v.last())) by {
                    if d.contains(v.last()) {
                        let i = choose|i: int| 0 <= i < d.len() && d[i] == v.last();
                        assert(v[i] == v[v.len() - 1]);
                    }
                }
                let u = w.push(v.last());
                assert forall|i: int, j: int| 0 <= i < u.len() && 0 <= j < u.len() && i != j implies u[i] != u[j] by {
                    if i < w.len() && j < w.len() {
                        assert(u[i] == w[i] && u[j] == w[j]);
                    } else if i == w.len() {
                        assert(u[j] == w[j]);
                        assert(w.contains(w[j]));
                    } else {
                        assert(u[i] == w[i]);
                        assert(w.contains(w[i]));
                    }
                }
            }
        } else {
            if v.no_duplicates() {
                assert forall|i: int, j: int| 0 <= i < d.len() && 0 <= j < d.len() && i != j implies d[i] != d[j] by {
                    assert(v[i] == d[i] && v[j] == d[j]);
                }
            }
        }
    }
}

proof fn lemma_cp_visited<R>(db: RecordDb<R>, s: StateModel, k: int)
    requires
        s.frames.len() > 0,
        s.visited.no_duplicates(),
        s.visited.len() <= MAX_LINK_OPS,
    ensures
        cp_next(db, s, k).0.visited.no_duplicates(),
        cp_next(db, s, k).0.visited.len() <= MAX_LINK_OPS,
{
    let f = s.frames.last();
    let targets = db.cp_of(f.record);
    if k < targets.len() {
        lemma_enter_visited(db.commons(), with_top(s, FrameModel { stage: Stage::Cp((k + 1) as usize), ..f }), targets[k], f.depth + 1);
    }
}

proof fn lemma_forward_visited<R>(db: RecordDb<R>, s: StateModel)
    requires
        s.frames.len() > 0,
        s.visited.no_duplicates(),
        s.visited.len() <= MAX_LINK_OPS,
    ensures
        forward_next(db, s).0.visited.no_duplicates(),
        forward_next(db, s).0.visited.len() <= MAX_LINK_OPS,
{
    let f = s.frames.last();
    match forward_target(db.commons(), f) {
        Some(t) => lemma_enter_visited(db.commons(), with_top(s, FrameModel { stage: Stage::Cp(0), ..f }), t, f.depth + 1),
        None => lemma_cp_visited(db, s, 0),
    }
}

proof fn lemma_dispatch_visited<R>(db: RecordDb<R>, s: StateModel, k: int)
    requires
        s.frames.len() > 0,
        s.visited.no_duplicates(),
        s.visited.len() <= MAX_LINK_OPS,
    ensures
        dispatch_next(db, s, k).0.visited.no_duplicates(),
        dispatch_next(db, s, k).0.visited.len() <= MAX_LINK_OPS,
{
    let f = s.frames.last();
    if 0 <= k < f.dispatch.len() {
        match f.dispatch[k] {
            DispatchModel::Process(r) => lemma_enter_visited(db.commons(), with_top(s, FrameModel { stage: Stage::Dispatch((k + 1) as usize), ..f }), r, f.depth + 1),
            _ => {},
        }
    } else {
        lemma_forward_visited(db, s);
    }
}

proof fn lemma_after_write_visited<R>(db: RecordDb<R>, s: StateModel, o: (Seq<char>, Seq<char>, LinkProcessPolicy), next: int)
    requires
        s.frames.len() > 0,
        s.visited.no_duplicates(),
        s.visited.len() <= MAX_LINK_OPS,
    ensures
        after_write(db, s, o, next).0.visited.no_duplicates(),
        after_write(db, s, o, next).0.visited.len() <= MAX_LINK_OPS,
{
    let f = s.frames.last();
    if o.2 == LinkProcessPolicy::ProcessPassive && passive_record(db.commons(), o.0) {
        lemma_enter_visited(db.commons(), with_top(s, FrameModel { stage: Stage::Dispatch(next as usize), ..f }), o.0, f.depth + 1);
    } else {
        lemma_dispatch_visited(db, s, next);
    }
}

/// A processing chain never processes a record twice (but for a record
/// that asked to be processed again) and never touches more records than
/// its budget, whatever happens at each step.
pub proof fn chain_keeps_limits<R>(db: RecordDb<R>, s: StateModel, e: EventModel)
    requires
        s.visited.no_duplicates(),
        s.visited.len() <= MAX_LINK_OPS,
    ensures
        chain_next(db, s, e).0.visited.no_duplicates(),
        chain_next(db, s, e).0.visited.len() <= MAX_LINK_OPS,
{
    let f = s.frames.last();
    match e {
        EventModel::Start(n) => {
            if s.frames.len() == 0 {
                lemma_enter_visited(db.commons(), s, n, 0);
            }
        },
        EventModel::Continue => {
            if s.frames.len() > 0 {
                match f.stage {
                    Stage::Dispatch(k) => lemma_dispatch_visited(db, s, k as int),
                    Stage::Cp(k) => lemma_cp_visited(db, s, k as int),
                    _ => {},
                }
            }
        },
        EventModel::Processed(pending, fires, out, disp) => {
            if s.frames.len() > 0 && f.stage == Stage::Process && !pending && out is None {
                lemma_dispatch_visited(db, with_top(s, FrameModel { stage: Stage::Dispatch(0), fires_forward: fires, out: out, dispatch: disp, ..f }), 0);
            }
        },
        EventModel::OutputWritten => {
            if s.frames.len() > 0 && f.stage == Stage::Output && f.out is Some {
                lemma_after_write_visited(db, s, f.out->0, 0);
            } else if s.frames.len() > 0 && dispatch_write(f) is Some {
                let (o, next) = dispatch_write(f)->0;
                lemma_after_write_visited(db, s, o, next);
            }
        },
        EventModel::ValueRead(present) => {
            if s.frames.len() > 0 && dispatch_read(f) is Some && !present {
                let (o, k) = dispatch_read(f)->0;
                lemma_dispatch_visited(db, s, k + 1);
            }
        },
        EventModel::Complete(n, fires, out, disp) => {
            if s.frames.len() == 0 && db.commons().contains_key(n) && out is None {
                let g = FrameModel { record: n, depth: 0, stage: Stage::Dispatch(0), fires_forward: fires, out: out, dispatch: disp, completing: true };
                lemma_dispatch_visited(db, StateModel { frames: s.frames.push(g), ..s }, 0);
            }
        },
        EventModel::Reprocessing => {
            if s.frames.len() > 0 && f.stage == Stage::Rpro {
                lemma_without(s.visited, f.record);
                lemma_enter_visited(db.commons(), reprocess_state(s), f.record, f.depth + 1);
            }
        },
        _ => {},
    }
}

/// A forward link processes its target only when the record fires it and
/// the target is a passive record, one link deeper; otherwise the record
/// goes on to its `CP` targets.
pub proof fn forward_link_only_to_passive<R>(db: RecordDb<R>, s: StateModel)
    requires
        s.frames.len() > 0,
    ensures
        forward_target(db.commons(), s.frames.last()) matches Some(t) ==> (
            s.frames.last().fires_forward && passive_record(db.commons(), t)
            && forward_next(db, s) == enter_next(db.commons(), with_top(s, FrameModel { stage: Stage::Cp(0), ..s.frames.last() }), t, s.frames.last().depth + 1)),
        forward_target(db.commons(), s.frames.last()) is None ==> forward_next(db, s) == cp_next(db, s, 0),
{
}

/// A record completing its asynchronous processing ends, once its `CP`
/// targets are done, as completed: it takes no `RPRO` request and is not
/// finished a second time.
pub proof fn completion_takes_no_rpro<R>(db: RecordDb<R>, s: StateModel, k: int)
    requires
        s.frames.len() > 0,
        s.frames.last().completing,
        k >= db.cp_of(s.frames.last().record).len(),
    ensures
        cp_next(db, s, k) == (popped(s), ActionModel::Completed(s.frames.last().record)),
{
}

/// Reaching a record at the depth limit, beyond the ops budget or a second
/// time processes nothing and leaves the chain as it was.
pub proof fn chain_stops_at_limits(commons: Map<Seq<char>, CommonFields>, s: StateModel, name: Seq<char>, depth: int)
    ensures
        depth >= MAX_LINK_DEPTH ==> enter_next(commons, s, name, depth) == (s, ActionModel::Skip(name, ChainStep::DepthLimit)),
        depth < MAX_LINK_DEPTH && s.visited.len() >= MAX_LINK_OPS ==> enter_next(commons, s, name, depth) == (s, ActionModel::Skip(name, ChainStep::OpsBudget)),
        depth < MAX_LINK_DEPTH && s.visited.len() < MAX_LINK_OPS && s.visited.contains(name) ==> enter_next(commons, s, name, depth) == (s, ActionModel::Skip(name, ChainStep::Cycle)),
{
}

// ---------------------------------------------------------------------
// Executable steps
// ---------------------------------------------------------------------
fn pop_top(state: &mut ChainState) -> (f: Frame)
    requires
        old(state).frames@.len() > 0,
        old(state).wf(),
    ensures
        final(state).wf(),
        final(state).model() == popped(old(state).model()),
        final(state).visited@ == old(state).visited@,
        final(state).frames@.len() == old(state).frames@.len() - 1,
        f.model() == old(state).model().frames.last(),
        f.depth < MAX_LINK_DEPTH,
{
    let ghost m0 = state.model();
    let f = state.frames.pop().unwrap();
    assert(state.model().frames =~= m0.frames.drop_last());
    f
}

fn push_top(state: &mut ChainState, f: Frame)
    requires
        old(state).wf(),
        f.depth < MAX_LINK_DEPTH,
    ensures
        final(state).wf(),
        final(state).model() == (StateModel { frames: old(state).model().frames.push(f.model()), ..old(state).model() }),
        final(state).frames@.len() == old(state).frames@.len() + 1,
{
    let ghost m0 = state.model();
    let ghost fm = f.model();
    state.frames.push(f);
    assert(state.model().frames =~= m0.frames.push(fm));
}

/// Moves the innermost record to `stage`.
fn restage(state: &mut ChainState, stage: Stage)
    requires
        old(state).wf(),
        old(state).frames@.len() > 0,
    ensures
        final(state).wf(),
        final(state).frames@.len() == old(state).frames@.len(),
        final(state).model() == with_top(old(state).model(), FrameModel { stage: stage, ..old(state).model().frames.last() }),
{
    let f = pop_top(state);
    let g = Frame { record: f.record, depth: f.depth, stage, fires_forward: f.fires_forward, out: f.out, dispatch: f.dispatch, completing: f.completing };
    push_top(state, g);
}

fn remove_name(v: &Vec<String>, n: &str) -> (r: Vec<String>)
    ensures
        string_views(r@) == without(string_views(v@), n@),
{
    let mut r: Vec<String> = Vec::new();
    let mut i: usize = 0;
    while i < v.len()
        invariant
            i <= v@.len(),
            string_views(r@) == without(string_views(v@).subrange(0, i as int), n@),
        decreases v.len() - i,
    {
        let ghost pre = string_views(v@).subrange(0, i as int);
        let ghost next = string_views(v@).subrange(0, i + 1);
        assert(next.drop_last() =~= pre);
        assert(next.last() == v@[i as int]@);
        if !str_eq(v[i].as_str(), n) {
            let ghost before = r@;
            r.push(v[i].clone());
            assert(string_views(r@) =~= string_views(before).push(v@[i as int]@));
        }
        i = i + 1;
    }
    assert(string_views(v@).subrange(0, i as int) =~= string_views(v@));
    r
}

fn enter<R>(db: &RecordDb<R>, state: ChainState, name: String, depth: usize) -> (r: (ChainState, ChainAction))
    requires
        db.wf(),
        state.wf(),
    ensures
        r.0.wf(),
        (r.0.model(), r.1.model()) == enter_next(db.commons(), state.model(), name@, depth as int),
{
    let mut st = state;
    let step = enter_chain(&mut st.visited, name.as_str(), depth);
    if step != ChainStep::Enter {
        return (st, ChainAction::Skip(name, step));
    }
    match db.record(name.as_str()) {
        None => (st, ChainAction::Missing(name)),
        Some(_) => {
            let f = Frame { record: name.clone(), depth, stage: Stage::Prepare, fires_forward: false, out: None, dispatch: Vec::new(), completing: false };
            assert(f.model().dispatch =~= Seq::<DispatchModel>::empty());
            push_top(&mut st, f);
            (st, ChainAction::Prepare(name))
        },
    }
}

fn cp_step<R>(db: &RecordDb<R>, state: ChainState, k: usize) -> (r: (ChainState, ChainAction))
    requires
        db.wf(),
        state.wf(),
        state.frames@.len() > 0,
    ensures
        r.0.wf(),
        (r.0.model(), r.1.model()) == cp_next(*db, state.model(), k as int),
{
    let mut st = state;
    let n = st.frames.len();
    let record = st.frames[n - 1].record.clone();
    let depth = st.frames[n - 1].depth;
    let targets = db.cp_targets(record.as_str());
    if k < targets.len() {
        let next = targets[k].clone();
        restage(&mut st, Stage::Cp(k + 1));
        enter(db, st, next, depth + 1)
    } else if st.frames[n - 1].completing {
        let f = pop_top(&mut st);
        (st, ChainAction::Completed(f.record))
    } else {
        let rpro = match db.record(record.as_str()) {
            Some(slot) => slot.common.rpro,
            None => false,
        };
        if rpro {
            restage(&mut st, Stage::Rpro);
            (st, ChainAction::Reprocess(record))
        } else {
            let f = pop_top(&mut st);
            (st, ChainAction::Finished(f.record))
        }
    }
}

fn forward_step<R>(db: &RecordDb<R>, state: ChainState) -> (r: (ChainState, ChainAction))
    requires
        db.wf(),
        state.wf(),
        state.frames@.len() > 0,
    ensures
        r.0.wf(),
        (r.0.model(), r.1.model()) == forward_next(*db, state.model()),
{
    let ghost m0 = state.model();
    let ghost fm = m0.frames.last();
    let mut target: Option<String> = None;
    let mut depth: usize = 0;
    {
        let f = &state.frames[state.frames.len() - 1];
        assert(f.model() == fm);
        depth = f.depth;
        if f.fires_forward {
            match db.record(f.record.as_str()) {
                Some(slot) => {
                    match parse_link_v2(slot.common.flnk.as_str()) {
                        ParsedLink::Db(d) => {
                            match db.record(d.record.as_str()) {
                                Some(t) => {
                                    if t.common.scan == ScanType::Passive {
                                        target = Some(d.record);
                                    }
                                },
                                None => {},
                            }
                        },
                        _ => {},
                    }
                },
                None => {},
            }
        }
    }
    assert(match target {
        Some(t) => forward_target(db.commons(), fm) == Some(t@),
        None => forward_target(db.commons(), fm) is None,
    });
    match target {
        Some(t) => {
            let mut st = state;
            restage(&mut st, Stage::Cp(0));
            enter(db, st, t, depth + 1)
        },
        None => cp_step(db, state, 0),
    }
}

fn dispatch_step<R>(db: &RecordDb<R>, state: ChainState, k: usize) -> (r: (ChainState, ChainAction))
    requires
        db.wf(),
        state.wf(),
        state.frames@.len() > 0,
    ensures
        r.0.wf(),
        (r.0.model(), r.1.model()) == dispatch_next(*db, state.model(), k as int),
{
    let ghost m0 = state.model();
    let n = state.frames.len();
    let depth = state.frames[n - 1].depth;
    if k < state.frames[n - 1].dispatch.len() {
        let (kind, text): (u8, String) = match &state.frames[n - 1].dispatch[k] {
            Dispatch::Process(r) => (0, r.clone()),
            Dispatch::Write(l) => (1, link_pv_name(l)),
            Dispatch::ReadWrite(d, _) => (2, d.clone()),
        };
        let mut st = state;
        if kind == 0 {
            restage(&mut st, Stage::Dispatch(k + 1));
            enter(db, st, text, depth + 1)
        } else if kind == 1 {
            restage(&mut st, Stage::DispatchOut(k));
            (st, ChainAction::WriteOutput(text))
        } else {
            restage(&mut st, Stage::DispatchRead(k));
            (st, ChainAction::ReadValue(text))
        }
    } else {
        forward_step(db, state)
    }
}

fn after_write_step<R>(db: &RecordDb<R>, state: ChainState, target: String, policy: LinkProcessPolicy, next: usize, Ghost(o): Ghost<(Seq<char>, Seq<char>, LinkProcessPolicy)>) -> (r: (ChainState, ChainAction))
    requires
        db.wf(),
        state.wf(),
        state.frames@.len() > 0,
        o.0 == target@,
        o.2 == policy,
    ensures
        r.0.wf(),
        (r.0.model(), r.1.model()) == after_write(*db, state.model(), o, next as int),
{
    let n = state.frames.len();
    let depth = state.frames[n - 1].depth;
    let mut follow = false;
    if policy == LinkProcessPolicy::ProcessPassive {
        match db.record(target.as_str()) {
            Some(t) => {
                follow = t.common.scan == ScanType::Passive;
            },
            None => {},
        }
    }
    if follow {
        let mut st = state;
        restage(&mut st, Stage::Dispatch(next));
        enter(db, st, target, depth + 1)
    } else {
        dispatch_step(db, state, next)
    }
}

/// One step of the processing chain: the next state and the action for
/// the caller, on the event it reports.
pub fn chain_step<R>(db: &RecordDb<R>, state: ChainState, event: ChainEvent) -> (r: (ChainState, ChainAction))
    requires
        db.wf(),
        state.wf(),
    ensures
        r.0.wf(),
        (r.0.model(), r.1.model()) == chain_next(*db, state.model(), event.model()),
{
    let ghost m0 = state.model();
    let n = state.frames.len();
    match event {
        ChainEvent::Start(name) => {
            if n == 0 {
                enter(db, state, name, 0)
            } else {
                (state, ChainAction::Idle)
            }
        },
        ChainEvent::Continue => {
            if n == 0 {
                (state, ChainAction::Done)
            } else {
                let stage = state.frames[n - 1].stage;
                match stage {
                    Stage::Dispatch(k) => dispatch_step(db, state, k),
                    Stage::Cp(k) => cp_step(db, state, k),
                    Stage::Reprocessed => {
                        let mut st = state;
                        let f = pop_top(&mut st);
                        (st, ChainAction::Finished(f.record))
                    },
                    _ => (state, ChainAction::Idle),
                }
            }
        },
        ChainEvent::Prepared { skip } => {
            if n > 0 && state.frames[n - 1].stage == Stage::Prepare {
                let mut st = state;
                if skip {
                    let f = pop_top(&mut st);
                    (st, ChainAction::Finished(f.record))
                } else {
                    let name = st.frames[n - 1].record.clone();
                    restage(&mut st, Stage::Input);
                    (st, ChainAction::ReadInput(name))
                }
            } else {
                (state, ChainAction::Idle)
            }
        },
        ChainEvent::InputRead => {
            if n > 0 && state.frames[n - 1].stage == Stage::Input {
                let mut st = state;
                let name = st.frames[n - 1].record.clone();
                restage(&mut st, Stage::Process);
                (st, ChainAction::Process(name))
            } else {
                (state, ChainAction::Idle)
            }
        },
        ChainEvent::Processed { pending, fires_forward, out, dispatch } => {
            if n > 0 && state.frames[n - 1].stage == Stage::Process {
                let mut st = state;
                let f = pop_top(&mut st);
                if pending {
                    (st, ChainAction::Finished(f.record))
                } else {
                    let ghost om = link_model(out);
                    let ghost dm = dispatch_model(dispatch@);
                    match out {
                        Some(o) => {
                            let pv = link_pv_name(&o);
                            let g = Frame { record: f.record, depth: f.depth, stage: Stage::Output, fires_forward, out: Some(o), dispatch, completing: f.completing };
                            push_top(&mut st, g);
                            assert(st.model() == with_top(m0, FrameModel { stage: Stage::Output, fires_forward: fires_forward, out: om, dispatch: dm, ..m0.frames.last() }));
                            (st, ChainAction::WriteOutput(pv))
                        },
                        None => {
                            let g = Frame { record: f.record, depth: f.depth, stage: Stage::Dispatch(0), fires_forward, out: None, dispatch, completing: f.completing };
                            push_top(&mut st, g);
                            assert(st.model() == with_top(m0, FrameModel { stage: Stage::Dispatch(0), fires_forward: fires_forward, out: om, dispatch: dm, ..m0.frames.last() }));
                            dispatch_step(db, st, 0)
                        },
                    }
                }
            } else {
                (state, ChainAction::Idle)
            }
        },
        ChainEvent::OutputWritten => {
            if n > 0 && state.frames[n - 1].stage == Stage::Output && state.frames[n - 1].out.is_some() {
                let (target, policy) = match &state.frames[n - 1].out {
                    Some(o) => (o.record.clone(), o.policy),
                    None => (String::new(), LinkProcessPolicy::NoProcess),
                };
                let ghost o = m0.frames.last().out->0;
                after_write_step(db, state, target, policy, 0, Ghost(o))
            } else if n > 0 {
                match state.frames[n - 1].stage {
                    Stage::DispatchOut(k) => {
                        if k < state.frames[n - 1].dispatch.len() {
                            let found: Option<(String, LinkProcessPolicy)> = match &state.frames[n - 1].dispatch[k] {
                                Dispatch::Write(l) => Some((l.record.clone(), l.policy)),
                                Dispatch::ReadWrite(_, l) => Some((l.record.clone(), l.policy)),
                                Dispatch::Process(_) => None,
                            };
                            match found {
                                Some((target, policy)) => {
                                    let ghost w = dispatch_write(m0.frames.last())->0;
                                    let ghost o = w.0;
                                    after_write_step(db, state, target, policy, k + 1, Ghost(o))
                                },
                                None => (state, ChainAction::Idle),
                            }
                        } else {
                            (state, ChainAction::Idle)
                        }
                    },
                    _ => (state, ChainAction::Idle),
                }
            } else {
                (state, ChainAction::Idle)
            }
        },
        ChainEvent::ValueRead { present } => {
            let mut pv: Option<String> = None;
            let mut at: usize = 0;
            if n > 0 {
                match state.frames[n - 1].stage {
                    Stage::DispatchRead(k) => {
                        if k < state.frames[n - 1].dispatch.len() {
                            match &state.frames[n - 1].dispatch[k] {
                                Dispatch::ReadWrite(_, l) => {
                                    pv = Some(link_pv_name(l));
                                    at = k;
                                },
                                _ => {},
                            }
                        }
                    },
                    _ => {},
                }
            }
            assert(pv is Some <==> (n > 0 && dispatch_read(m0.frames.last()) is Some));
            match pv {
                Some(p) => {
                    let ghost rd = dispatch_read(m0.frames.last())->0;
                    assert(rd.1 == at as int);
                    if present {
                        let mut st = state;
                        restage(&mut st, Stage::DispatchOut(at));
                        (st, ChainAction::WriteOutput(p))
                    } else {
                        dispatch_step(db, state, at + 1)
                    }
                },
                None => (state, ChainAction::Idle),
            }
        },
        ChainEvent::Complete { record, fires_forward, out, dispatch } => {
            if n == 0 {
                match db.record(record.as_str()) {
                    None => (state, ChainAction::Missing(record)),
                    Some(_) => {
                        let mut st = state;
                        match out {
                            Some(o) => {
                                let pv = link_pv_name(&o);
                                let g = Frame { record, depth: 0, stage: Stage::Output, fires_forward, out: Some(o), dispatch, completing: true };
                                push_top(&mut st, g);
                                (st, ChainAction::WriteOutput(pv))
                            },
                            None => {
                                let g = Frame { record, depth: 0, stage: Stage::Dispatch(0), fires_forward, out: None, dispatch, completing: true };
                                push_top(&mut st, g);
                                dispatch_step(db, st, 0)
                            },
                        }
                    },
                }
            } else {
                (state, ChainAction::Idle)
            }
        },
        ChainEvent::Reprocessing => {
            if n > 0 && state.frames[n - 1].stage == Stage::Rpro {
                let mut st = state;
                let record = st.frames[n - 1].record.clone();
                let depth = st.frames[n - 1].depth;
                restage(&mut st, Stage::Reprocessed);
                let visited = remove_name(&st.visited, record.as_str());
                let st2 = ChainState { visited, frames: st.frames };
                assert(st2.model() == reprocess_state(m0));
                enter(db, st2, record, depth + 1)
            } else {
                (state, ChainAction::Idle)
            }
        },
    }
}

} // verus!
