//! The reconciliation pass: which migrations to apply or revert, in which
//! order, and what to record after each attempt.
//!
//! A pass is a state machine. Each step hands the caller one action to
//! perform (load a script, run a statement, write the ledger) and takes back
//! the event that performing it produced.
use vstd::prelude::*;

use crate::order::{ascending, descending, ids_of, lemma_lex_le_refl, lex_le, lex_lt, pending, sorted_ids};
use crate::script::{split_statements, statements_of};

verus! {

#[derive(Clone, Copy, Debug, PartialEq, Eq, Structural)]
pub enum Direction {
    Up,
    Down,
}

/// The outcome recorded in the ledger for an apply attempt.
#[derive(Clone, Copy, Debug, PartialEq, Eq, Structural)]
pub enum Status {
    Success,
    Failed,
}

/// What a revert pass selects from the applied migrations.
#[derive(Clone, Copy, Debug, PartialEq, Eq, Structural)]
pub enum RevertMode {
    Latest,
    All,
}

#[derive(Clone, Copy, Debug, PartialEq, Eq, Structural)]
pub enum Failure {
    /// A script could not be read.
    Io,
    /// A statement failed.
    Statement,
    /// The ledger write failed.
    Ledger,
}

/// How a pass ended.
#[derive(Clone, Copy, Debug, PartialEq, Eq, Structural)]
pub enum Report {
    /// Every pending migration was applied; the count.
    Applied(usize),
    /// Nothing was pending.
    UpToDate,
    /// Every selected migration was reverted; the count.
    Reverted(usize),
    /// Nothing was applied, so nothing was reverted.
    NothingToRevert,
    Error(Failure),
}

#[derive(Clone, Copy, Debug, PartialEq, Eq, Structural)]
pub enum Phase {
    /// Waiting for the script of the current migration.
    Load,
    /// Running the statements of that script.
    Run,
    /// Waiting for the ledger write of the current migration.
    Record,
    Done,
}

/// What performing the last action produced.
#[derive(Debug)]
pub enum Event {
    /// The script was read; its text.
    Loaded(String),
    Unreadable,
    Succeeded,
    Failed,
}

pub enum EventView {
    Loaded(Seq<char>),
    Unreadable,
    Succeeded,
    Failed,
}

impl View for Event {
    type V = EventView;

    open spec fn view(&self) -> EventView {
        match self {
            Event::Loaded(t) => EventView::Loaded(t@),
            Event::Unreadable => EventView::Unreadable,
            Event::Succeeded => EventView::Succeeded,
            Event::Failed => EventView::Failed,
        }
    }
}

/// What the caller is asked to do next.
#[derive(Debug)]
pub enum Action {
    /// Read the up or down script of a migration.
    Load(String, Direction),
    /// Run one statement against the target store.
    Execute(String),
    /// Insert or replace the ledger record of a migration.
    Record(String, Status, i64),
    /// Delete the ledger record of a migration.
    Remove(String),
    /// The pass is over.
    Finish(Report),
}

pub enum ActionView {
    Load(Seq<char>, Direction),
    Execute(Seq<char>),
    Record(Seq<char>, Status, i64),
    Remove(Seq<char>),
    Finish(Report),
}

impl View for Action {
    type V = ActionView;

    open spec fn view(&self) -> ActionView {
        match self {
            Action::Load(id, d) => ActionView::Load(id@, *d),
            Action::Execute(s) => ActionView::Execute(s@),
            Action::Record(id, st, at) => ActionView::Record(id@, *st, *at),
            Action::Remove(id) => ActionView::Remove(id@),
            Action::Finish(r) => ActionView::Finish(*r),
        }
    }
}

pub struct PassView {
    pub direction: Direction,
    /// The selected migrations, in processing order.
    pub queue: Seq<Seq<char>>,
    /// The timestamp that every record of the pass carries.
    pub at: i64,
    /// The current migration.
    pub pos: int,
    /// The statements of the current script.
    pub statements: Seq<Seq<char>>,
    /// The statement being run.
    pub next: int,
    /// Whether the current script ran without error.
    pub script_ok: bool,
    pub phase: Phase,
}

pub open spec fn status_of(ok: bool) -> Status {
    if ok {
        Status::Success
    } else {
        Status::Failed
    }
}

pub open spec fn completed(d: Direction, n: int) -> Report {
    match d {
        Direction::Up => Report::Applied(n as usize),
        Direction::Down => Report::Reverted(n as usize),
    }
}

impl PassView {
    pub open spec fn wf(self) -> bool {
        &&& 0 <= self.pos
        &&& 0 <= self.next
        &&& self.phase != Phase::Done ==> self.pos < self.queue.len()
        &&& self.phase == Phase::Run ==> self.next < self.statements.len()
        &&& self.direction == Direction::Up ==> ascending(self.queue)
        &&& self.direction == Direction::Down ==> descending(self.queue)
    }

    /// The events that can answer the pending action.
    pub open spec fn accepts(self, e: EventView) -> bool {
        match self.phase {
            Phase::Load => e is Loaded || e is Unreadable,
            Phase::Run | Phase::Record => e is Succeeded || e is Failed,
            Phase::Done => false,
        }
    }

    pub open spec fn current(self) -> Seq<char> {
        self.queue[self.pos]
    }

    pub open spec fn stop(self, r: Report) -> (PassView, ActionView) {
        (PassView { phase: Phase::Done, ..self }, ActionView::Finish(r))
    }

    /// The script of the current migration has run, with or without error.
    /// An apply records either outcome; a revert deletes the record only
    /// after success and otherwise ends the pass.
    pub open spec fn script_done(self, ok: bool) -> (PassView, ActionView) {
        match self.direction {
            Direction::Up => (
                PassView { phase: Phase::Record, script_ok: ok, ..self },
                ActionView::Record(self.current(), status_of(ok), self.at),
            ),
            Direction::Down => if ok {
                (PassView { phase: Phase::Record, script_ok: true, ..self }, ActionView::Remove(self.current()))
            } else {
                self.stop(Report::Error(Failure::Statement))
            },
        }
    }

    /// One step of a pass.
    pub open spec fn transition(self, e: EventView) -> (PassView, ActionView) {
        match self.phase {
            Phase::Load => match e {
                EventView::Loaded(text) => {
                    let st = statements_of(text);
                    let p = PassView { statements: st, next: 0, script_ok: true, ..self };
                    if st.len() > 0 {
                        (PassView { phase: Phase::Run, ..p }, ActionView::Execute(st[0]))
                    } else {
                        p.script_done(true)
                    }
                },
                _ => self.stop(Report::Error(Failure::Io)),
            },
            Phase::Run => match e {
                EventView::Succeeded => if self.next + 1 < self.statements.len() {
                    (
                        PassView { next: self.next + 1, ..self },
                        ActionView::Execute(self.statements[self.next + 1]),
                    )
                } else {
                    self.script_done(true)
                },
                _ => self.script_done(false),
            },
            Phase::Record => match e {
                EventView::Succeeded => if !self.script_ok {
                    self.stop(Report::Error(Failure::Statement))
                } else if self.pos + 1 < self.queue.len() {
                    (
                        PassView { phase: Phase::Load, pos: self.pos + 1, ..self },
                        ActionView::Load(self.queue[self.pos + 1], self.direction),
                    )
                } else {
                    self.stop(completed(self.direction, self.queue.len() as int))
                },
                _ => self.stop(Report::Error(Failure::Ledger)),
            },
            // Not reached: a finished pass accepts no event.
            Phase::Done => (self, ActionView::Finish(Report::Error(Failure::Statement))),
        }
    }
}

/// A pass in progress.
pub struct Pass {
    direction: Direction,
    queue: Vec<String>,
    at: i64,
    pos: usize,
    statements: Vec<String>,
    next: usize,
    script_ok: bool,
    phase: Phase,
}

impl View for Pass {
    type V = PassView;

    closed spec fn view(&self) -> PassView {
        PassView {
            direction: self.direction,
            queue: ids_of(self.queue@),
            at: self.at,
            pos: self.pos as int,
            statements: ids_of(self.statements@),
            next: self.next as int,
            script_ok: self.script_ok,
            phase: self.phase,
        }
    }
}

/// A step never changes what the pass selected: the queue, its direction and
/// its timestamp stay; the position moves on by at most one, and only with a
/// request to load the script of the migration it reaches. Every record
/// written is for the current migration and carries the pass's timestamp.
/// So the scripts loaded are those of the queue, in its order, one after the
/// other; for `start_apply` that is the pending migrations, strictly ascending.
pub proof fn lemma_attempts_follow_queue(p: PassView, e: EventView)
    requires
        p.wf(),
        p.accepts(e),
    ensures
        ({
            let (q, a) = p.transition(e);
            &&& q.wf()
            &&& q.queue == p.queue
            &&& q.direction == p.direction
            &&& q.at == p.at
            &&& q.pos == p.pos || q.pos == p.pos + 1
            &&& (q.pos == p.pos + 1 <==> a is Load)
            &&& a is Load ==> a == ActionView::Load(q.queue[q.pos], p.direction)
            &&& a is Record ==> a == ActionView::Record(p.current(), a->Record_1, p.at)
            &&& a is Remove ==> a == ActionView::Remove(p.current())
        }),
{
}

/// The ledger is told of a success only when the executor reported one: a
/// `Success` record (apply) or a deletion (revert) comes right after the last
/// statement of the current script succeeded, or after loading a script that
/// holds no statement.
pub proof fn lemma_success_follows_execution(p: PassView, e: EventView)
    requires
        p.wf(),
        p.accepts(e),
    ensures
        ({
            let a = p.transition(e).1;
            (a is Remove || (a is Record && a->Record_1 == Status::Success)) ==> {
                ||| (p.phase == Phase::Run && e is Succeeded && p.next + 1 == p.statements.len())
                ||| (p.phase == Phase::Load && e is Loaded && statements_of(e->Loaded_0).len() == 0)
            }
        }),
{
}

impl Pass {
    fn finish(&mut self, r: Report) -> (a: Action)
        requires
            old(self)@.wf(),
        ensures
            final(self)@.wf(),
            (final(self)@, a@) == old(self)@.stop(r),
    {
        self.phase = Phase::Done;
        Action::Finish(r)
    }

    fn finish_script(&mut self, ok: bool) -> (a: Action)
        requires
            old(self)@.wf(),
            old(self)@.phase != Phase::Done,
        ensures
            final(self)@.wf(),
            (final(self)@, a@) == old(self)@.script_done(ok),
    {
        let id = self.queue[self.pos].clone();
        match self.direction {
            Direction::Up => {
                self.phase = Phase::Record;
                self.script_ok = ok;
                let st = if ok {
                    Status::Success
                } else {
                    Status::Failed
                };
                Action::Record(id, st, self.at)
            },
            Direction::Down => {
                if ok {
                    self.phase = Phase::Record;
                    self.script_ok = true;
                    Action::Remove(id)
                } else {
                    self.finish(Report::Error(Failure::Statement))
                }
            },
        }
    }

    fn start(direction: Direction, queue: Vec<String>, at: i64, empty: Report) -> (r: (Pass, Action))
        requires
            direction == Direction::Up ==> ascending(ids_of(queue@)),
            direction == Direction::Down ==> descending(ids_of(queue@)),
        ensures
            r.0@.wf(),
            r.0@.direction == direction,
            r.0@.queue == ids_of(queue@),
            r.0@.at == at,
            queue@.len() == 0 ==> r.0@.phase == Phase::Done && r.1@ == ActionView::Finish(empty),
            queue@.len() > 0 ==> r.0@.phase == Phase::Load && r.0@.pos == 0 && r.1@ == ActionView::Load(
                ids_of(queue@)[0],
                direction,
            ),
    {
        let n = queue.len();
        let first = if n > 0 {
            Some(queue[0].clone())
        } else {
            None
        };
        let pass = Pass {
            direction,
            queue,
            at,
            pos: 0,
            statements: Vec::new(),
            next: 0,
            script_ok: true,
            phase: if n > 0 {
                Phase::Load
            } else {
                Phase::Done
            },
        };
        match first {
            Some(id) => (pass, Action::Load(id, direction)),
            None => (pass, Action::Finish(empty)),
        }
    }

    /// Starts applying the migrations of an ordered catalog that the ledger
    /// does not list as applied; every record of the pass carries `at`.
    pub fn start_apply(catalog: &Vec<String>, applied: &Vec<String>, at: i64) -> (r: (Pass, Action))
        requires
            ascending(ids_of(catalog@)),
        ensures
            r.0@.wf(),
            r.0@.direction == Direction::Up,
            r.0@.at == at,
            ascending(r.0@.queue),
            forall|x: Seq<char>|
                #[trigger] r.0@.queue.contains(x) <==> (ids_of(catalog@).contains(x) && !ids_of(
                    applied@,
                ).contains(x)),
            r.0@.queue.len() == 0 ==> r.0@.phase == Phase::Done && r.1@ == ActionView::Finish(
                Report::UpToDate,
            ),
            r.0@.queue.len() > 0 ==> r.0@.phase == Phase::Load && r.0@.pos == 0 && r.1@
                == ActionView::Load(r.0@.queue[0], Direction::Up),
            (forall|x: Seq<char>| #[trigger] ids_of(catalog@).contains(x) ==> ids_of(applied@).contains(x))
                ==> r.1@ == ActionView::Finish(Report::UpToDate),
    {
        let queue = pending(catalog, applied);
        let r = Pass::start(Direction::Up, queue, at, Report::UpToDate);
        proof {
            if r.0@.queue.len() > 0 {
                assert(r.0@.queue.contains(r.0@.queue[0]));
            }
        }
        r
    }

    /// Starts reverting applied migrations, the greatest first: only the
    /// greatest one under `Latest`, all of them under `All`.
    pub fn start_revert(applied: Vec<String>, mode: RevertMode) -> (r: (Pass, Action))
        requires
            ids_of(applied@).no_duplicates(),
        ensures
            r.0@.wf(),
            r.0@.direction == Direction::Down,
            descending(r.0@.queue),
            applied@.len() == 0 ==> r.0@.phase == Phase::Done && r.1@ == ActionView::Finish(
                Report::NothingToRevert,
            ),
            applied@.len() > 0 ==> r.0@.phase == Phase::Load && r.0@.pos == 0 && r.1@
                == ActionView::Load(r.0@.queue[0], Direction::Down),
            mode == RevertMode::All ==> forall|x: Seq<char>|
                #[trigger] r.0@.queue.contains(x) <==> ids_of(applied@).contains(x),
            mode == RevertMode::Latest && applied@.len() > 0 ==> r.0@.queue.len() == 1
                && ids_of(applied@).contains(r.0@.queue[0]) && forall|x: Seq<char>|
                #[trigger] ids_of(applied@).contains(x) ==> lex_le(x, r.0@.queue[0]),
    {
        let ghost a = ids_of(applied@);
        let sorted = sorted_ids(applied);
        let ghost s = ids_of(sorted@);
        let n = sorted.len();
        proof {
            a.to_multiset_ensures();
            s.to_multiset_ensures();
        }
        let mut queue: Vec<String> = Vec::new();
        match mode {
            RevertMode::Latest => {
                if n > 0 {
                    queue.push(sorted[n - 1].clone());
                    proof {
                        assert(ids_of(queue@)[0] == s[n - 1]);
                        assert(s.contains(s[n - 1]));
                        assert forall|x: Seq<char>| #[trigger] a.contains(x) implies lex_le(x, s[n - 1]) by {
                            assert(s.contains(x));
                            let k = choose|k: int| 0 <= k < s.len() && s[k] == x;
                            if k < n - 1 {
                                assert(lex_lt(s[k], s[n - 1]));
                            } else {
                                lemma_lex_le_refl(x);
                            }
                        }
                    }
                }
            },
            RevertMode::All => {
                let mut k: usize = 0;
                while k < n
                    invariant
                        n == sorted@.len(),
                        s == ids_of(sorted@),
                        ascending(s),
                        k <= n,
                        queue@.len() == k,
                        forall|j: int| 0 <= j < k ==> #[trigger] ids_of(queue@)[j] == s[n - 1 - j],
                    decreases n - k,
                {
                    let ghost before = queue@;
                    queue.push(sorted[n - 1 - k].clone());
                    assert forall|j: int| 0 <= j < k + 1 implies #[trigger] ids_of(queue@)[j] == s[n - 1 - j] by {
                        if j < k {
                            assert(queue@[j] == before[j]);
                            assert(ids_of(before)[j] == s[n - 1 - j]);
                        }
                    }
                    k = k + 1;
                }
                proof {
                    let q = ids_of(queue@);
                    assert forall|i: int, j: int| 0 <= i < j < q.len() implies lex_lt(#[trigger] q[j], #[trigger] q[i]) by {
                        assert(q[i] == s[n - 1 - i]);
                        assert(q[j] == s[n - 1 - j]);
                    }
                    assert forall|x: Seq<char>| #[trigger] q.contains(x) <==> a.contains(x) by {
                        if q.contains(x) {
                            let j = choose|j: int| 0 <= j < q.len() && q[j] == x;
                            assert(s[n - 1 - j] == x);
                            assert(s.contains(x));
                        }
                        if a.contains(x) {
                            assert(s.contains(x));
                            let j = choose|j: int| 0 <= j < s.len() && s[j] == x;
                            assert(q[n - 1 - j] == x);
                        }
                    }
                }
            },
        }
        Pass::start(Direction::Down, queue, 0, Report::NothingToRevert)
    }

    /// Whether `e` can answer the pending action.
    pub fn accepts(&self, e: &Event) -> (r: bool)
        ensures
            r == self@.accepts(e@),
    {
        match self.phase {
            Phase::Load => matches!(e, Event::Loaded(_)) || matches!(e, Event::Unreadable),
            Phase::Run | Phase::Record => matches!(e, Event::Succeeded) || matches!(e, Event::Failed),
            Phase::Done => false,
        }
    }

    pub fn phase(&self) -> (r: Phase)
        ensures
            r == self@.phase,
    {
        self.phase
    }

    /// Takes the outcome of the pending action and returns the next one.
    pub fn step(&mut self, e: Event) -> (a: Action)
        requires
            old(self)@.wf(),
            old(self)@.accepts(e@),
        ensures
            final(self)@.wf(),
            (final(self)@, a@) == old(self)@.transition(e@),
    {
        match self.phase {
            Phase::Load => match e {
                Event::Loaded(text) => {
                    self.statements = split_statements(text.as_str());
                    self.next = 0;
                    self.script_ok = true;
                    if self.statements.len() > 0 {
                        self.phase = Phase::Run;
                        Action::Execute(self.statements[0].clone())
                    } else {
                        self.finish_script(true)
                    }
                },
                _ => self.finish(Report::Error(Failure::Io)),
            },
            Phase::Run => match e {
                Event::Succeeded => {
                    let n = self.statements.len();
                    if n - self.next > 1 {
                        self.next = self.next + 1;
                        Action::Execute(self.statements[self.next].clone())
                    } else {
                        self.finish_script(true)
                    }
                },
                _ => self.finish_script(false),
            },
            Phase::Record => match e {
                Event::Succeeded => {
                    if !self.script_ok {
                        self.finish(Report::Error(Failure::Statement))
                    } else if self.queue.len() - self.pos > 1 {
                        self.pos = self.pos + 1;
                        self.phase = Phase::Load;
                        Action::Load(self.queue[self.pos].clone(), self.direction)
                    } else {
                        let n = self.queue.len();
                        let r = match self.direction {
                            Direction::Up => Report::Applied(n),
                            Direction::Down => Report::Reverted(n),
                        };
                        self.finish(r)
                    }
                },
                _ => self.finish(Report::Error(Failure::Ledger)),
            },
            // Not reached: a finished pass accepts no event.
            Phase::Done => Action::Finish(Report::Error(Failure::Statement)),
        }
    }
}

} // verus!
