//! Whole passes against a model of the world: the scripts on disk, the
//! statements that the store refuses, and a ledger that takes every write.
use vstd::prelude::*;

use crate::engine::{completed, ActionView, Direction, EventView, Failure, PassView, Phase, Report, Status};
use crate::script::statements_of;

verus! {

/// What the store and the disk would answer.
pub struct World {
    /// The script of each migration that can be read, in the pass's direction.
    pub scripts: Map<Seq<char>, Seq<char>>,
    /// The statements that fail.
    pub refused: Set<Seq<char>>,
}

/// The ledger: a status and a timestamp for each recorded migration.
pub type Ledger = Map<Seq<char>, (Status, i64)>;

pub open spec fn reply(w: World, a: ActionView) -> EventView {
    match a {
        ActionView::Load(id, _) => if w.scripts.contains_key(id) {
            EventView::Loaded(w.scripts[id])
        } else {
            EventView::Unreadable
        },
        ActionView::Execute(s) => if w.refused.contains(s) {
            EventView::Failed
        } else {
            EventView::Succeeded
        },
        _ => EventView::Succeeded,
    }
}

pub open spec fn write(l: Ledger, a: ActionView) -> Ledger {
    match a {
        ActionView::Record(id, st, at) => l.insert(id, (st, at)),
        ActionView::Remove(id) => l.remove(id),
        _ => l,
    }
}

pub open spec fn rank(ph: Phase) -> int {
    match ph {
        Phase::Load => 3,
        Phase::Run => 2,
        Phase::Record => 1,
        Phase::Done => 0,
    }
}

/// Performs `a` and every action after it until the pass finishes; the
/// final action and the ledger then.
pub open spec fn drive(p: PassView, a: ActionView, l: Ledger, w: World) -> (ActionView, Ledger)
    decreases p.queue.len() - p.pos, rank(p.phase), p.statements.len() - p.next,
{
    if !p.wf() || p.phase == Phase::Done || !p.accepts(reply(w, a)) {
        (a, write(l, a))
    } else {
        let (q, b) = p.transition(reply(w, a));
        drive(q, b, write(l, a), w)
    }
}

/// A script that can be read and whose statements all succeed.
pub open spec fn runs_clean(w: World, id: Seq<char>) -> bool {
    &&& w.scripts.contains_key(id)
    &&& forall|k: int|
        0 <= k < statements_of(w.scripts[id]).len() ==> !w.refused.contains(
            #[trigger] statements_of(w.scripts[id])[k],
        )
}

/// The ledger once migration `id` was applied (a success recorded at `at`)
/// or reverted (its record deleted).
pub open spec fn done_with(l: Ledger, d: Direction, id: Seq<char>, at: i64) -> Ledger {
    match d {
        Direction::Up => l.insert(id, (Status::Success, at)),
        Direction::Down => l.remove(id),
    }
}

/// The ledger once migrations `i` to `j - 1` of `q` were applied or
/// reverted in turn.
pub open spec fn committed(l: Ledger, q: Seq<Seq<char>>, d: Direction, at: i64, i: int, j: int) -> Ledger
    decreases j - i,
{
    if i >= j || i < 0 || j > q.len() {
        l
    } else {
        committed(done_with(l, d, q[i], at), q, d, at, i + 1, j)
    }
}

/// Statements from `p.next` on that all succeed take the pass to the end of
/// its script.
pub proof fn lemma_script_runs_to_end(p: PassView, l: Ledger, w: World)
    requires
        p.wf(),
        p.phase == Phase::Run,
        forall|k: int| p.next <= k < p.statements.len() ==> !w.refused.contains(#[trigger] p.statements[k]),
    ensures
        ({
            let (r, b) = PassView { next: p.statements.len() - 1, ..p }.script_done(true);
            drive(p, ActionView::Execute(p.statements[p.next]), l, w) == drive(r, b, l, w)
        }),
    decreases p.statements.len() - p.next,
{
    let a = ActionView::Execute(p.statements[p.next]);
    assert(reply(w, a) == EventView::Succeeded);
    assert(write(l, a) == l);
    if p.next + 1 < p.statements.len() {
        let q = PassView { next: p.next + 1, ..p };
        lemma_script_runs_to_end(q, l, w);
        assert(PassView { next: q.statements.len() - 1, ..q } == PassView { next: p.statements.len() - 1, ..p });
    } else {
        assert(PassView { next: p.statements.len() - 1, ..p } == p);
    }
}

/// The first refused statement of a script ends it: none after it is run.
pub proof fn lemma_script_stops_at_refused(p: PassView, l: Ledger, w: World, m: int)
    requires
        p.wf(),
        p.phase == Phase::Run,
        p.next <= m < p.statements.len(),
        w.refused.contains(p.statements[m]),
        forall|k: int| p.next <= k < m ==> !w.refused.contains(#[trigger] p.statements[k]),
    ensures
        ({
            let (r, b) = PassView { next: m, ..p }.script_done(false);
            drive(p, ActionView::Execute(p.statements[p.next]), l, w) == drive(r, b, l, w)
        }),
    decreases m - p.next,
{
    let a = ActionView::Execute(p.statements[p.next]);
    assert(write(l, a) == l);
    if p.next < m {
        assert(reply(w, a) == EventView::Succeeded);
        let q = PassView { next: p.next + 1, ..p };
        lemma_script_stops_at_refused(q, l, w, m);
        assert(PassView { next: m, ..q } == PassView { next: m, ..p });
    } else {
        assert(reply(w, a) == EventView::Failed);
        assert(PassView { next: m, ..p } == p);
    }
}

/// One migration whose script runs clean: its success is written and the
/// pass moves on to the next migration, or finishes with the count.
pub proof fn lemma_clean_step(p: PassView, l: Ledger, w: World)
    requires
        p.wf(),
        p.phase == Phase::Load,
        runs_clean(w, p.current()),
    ensures
        ({
            let l2 = done_with(l, p.direction, p.current(), p.at);
            let n = PassView { phase: Phase::Load, pos: p.pos + 1, ..p };
            drive(p, ActionView::Load(p.current(), p.direction), l, w) == if p.pos + 1 < p.queue.len() {
                drive(n, ActionView::Load(p.queue[p.pos + 1], p.direction), l2, w)
            } else {
                (ActionView::Finish(completed(p.direction, p.queue.len() as int)), l2)
            }
        }),
{
    let id = p.current();
    let text = w.scripts[id];
    let st = statements_of(text);
    let a = ActionView::Load(id, p.direction);
    assert(reply(w, a) == EventView::Loaded(text));
    assert(write(l, a) == l);
    let p1 = PassView { statements: st, next: 0, script_ok: true, ..p };
    let s = PassView {
        phase: Phase::Record,
        script_ok: true,
        statements: st,
        next: if st.len() > 0 { st.len() - 1 } else { 0 },
        ..p
    };
    let b = match p.direction {
        Direction::Up => ActionView::Record(id, Status::Success, p.at),
        Direction::Down => ActionView::Remove(id),
    };
    if st.len() > 0 {
        let q = PassView { phase: Phase::Run, ..p1 };
        lemma_script_runs_to_end(q, l, w);
        assert(PassView { next: q.statements.len() - 1, ..q }.script_done(true) == (s, b));
    } else {
        assert(p1.script_done(true) == (s, b));
    }
    assert(drive(p, a, l, w) == drive(s, b, l, w));
    let l2 = write(l, b);
    assert(l2 == done_with(l, p.direction, id, p.at));
    assert(reply(w, b) == EventView::Succeeded);
    if p.pos + 1 < p.queue.len() {
        let n = PassView { phase: Phase::Load, pos: p.pos + 1, ..s };
        assert(drive(s, b, l, w) == drive(n, ActionView::Load(n.current(), n.direction), l2, w));
        lemma_drive_ignores_script(n, PassView { phase: Phase::Load, pos: p.pos + 1, ..p }, ActionView::Load(n.current(), n.direction), l2, w);
    } else {
        let f = ActionView::Finish(completed(p.direction, p.queue.len() as int));
        let n = PassView { phase: Phase::Done, ..s };
        assert(drive(s, b, l, w) == drive(n, f, l2, w));
        assert(drive(n, f, l2, w) == (f, l2));
    }
}

/// Waiting for a script, the pass does not depend on the previous script.
proof fn lemma_drive_ignores_script(n: PassView, m: PassView, a: ActionView, l: Ledger, w: World)
    requires
        n.phase == Phase::Load,
        m == (PassView { statements: m.statements, next: m.next, script_ok: m.script_ok, ..n }),
        n.wf() == m.wf(),
        (a is Load),
    ensures
        drive(n, a, l, w) == drive(m, a, l, w),
{
    let e = reply(w, a);
    if e is Loaded {
        assert(n.transition(e) == m.transition(e));
    } else {
        let (x, b) = n.transition(e);
        let (y, c) = m.transition(e);
        assert(b == c);
        assert(drive(x, b, write(l, a), w) == (b, write(write(l, a), b)));
        assert(drive(y, c, write(l, a), w) == (c, write(write(l, a), c)));
    }
}

/// A pass whose remaining migrations all have a readable script whose
/// statements all succeed, with every ledger write succeeding, applies (or
/// reverts) each of them in queue order and finishes with their count; every
/// record it leaves carries the pass's single timestamp.
pub proof fn lemma_clean_pass(p: PassView, l: Ledger, w: World)
    requires
        p.wf(),
        p.phase == Phase::Load,
        forall|i: int| p.pos <= i < p.queue.len() ==> runs_clean(w, #[trigger] p.queue[i]),
    ensures
        drive(p, ActionView::Load(p.current(), p.direction), l, w) == (
            ActionView::Finish(completed(p.direction, p.queue.len() as int)),
            committed(l, p.queue, p.direction, p.at, p.pos, p.queue.len() as int),
        ),
    decreases p.queue.len() - p.pos,
{
    assert(runs_clean(w, p.queue[p.pos]));
    lemma_clean_step(p, l, w);
    let l2 = done_with(l, p.direction, p.current(), p.at);
    if p.pos + 1 < p.queue.len() {
        let n = PassView { phase: Phase::Load, pos: p.pos + 1, ..p };
        lemma_clean_pass(n, l2, w);
    } else {
        assert(committed(l2, p.queue, p.direction, p.at, p.pos + 1, p.queue.len() as int) == l2);
    }
}

/// A pass that meets a refused statement in the script of migration `k`,
/// after the earlier migrations of the queue ran clean, finishes with a
/// statement error. Those earlier ones are applied (or reverted); on apply
/// `k` is recorded as failed, on revert its record is left as it was; no
/// migration after `k` is tried.
pub proof fn lemma_pass_stops_at_refused(p: PassView, l: Ledger, w: World, k: int, m: int)
    requires
        p.wf(),
        p.phase == Phase::Load,
        p.pos <= k < p.queue.len(),
        forall|i: int| p.pos <= i < k ==> runs_clean(w, #[trigger] p.queue[i]),
        w.scripts.contains_key(p.queue[k]),
        0 <= m < statements_of(w.scripts[p.queue[k]]).len(),
        w.refused.contains(statements_of(w.scripts[p.queue[k]])[m]),
        forall|j: int| 0 <= j < m ==> !w.refused.contains(#[trigger] statements_of(w.scripts[p.queue[k]])[j]),
    ensures
        ({
            let lk = committed(l, p.queue, p.direction, p.at, p.pos, k);
            drive(p, ActionView::Load(p.current(), p.direction), l, w) == (
                ActionView::Finish(Report::Error(Failure::Statement)),
                match p.direction {
                    Direction::Up => lk.insert(p.queue[k], (Status::Failed, p.at)),
                    Direction::Down => lk,
                },
            )
        }),
    decreases k - p.pos,
{
    if p.pos < k {
        assert(runs_clean(w, p.queue[p.pos]));
        lemma_clean_step(p, l, w);
        let l2 = done_with(l, p.direction, p.current(), p.at);
        let n = PassView { phase: Phase::Load, pos: p.pos + 1, ..p };
        lemma_pass_stops_at_refused(n, l2, w, k, m);
    } else {
        let id = p.current();
        let text = w.scripts[id];
        let st = statements_of(text);
        let a = ActionView::Load(id, p.direction);
        assert(reply(w, a) == EventView::Loaded(text));
        assert(write(l, a) == l);
        let q = PassView { phase: Phase::Run, statements: st, next: 0, script_ok: true, ..p };
        lemma_script_stops_at_refused(q, l, w, m);
        let r = PassView { next: m, ..q };
        let err = ActionView::Finish(Report::Error(Failure::Statement));
        match p.direction {
            Direction::Up => {
                let b = ActionView::Record(id, Status::Failed, p.at);
                let s = PassView { phase: Phase::Record, script_ok: false, ..r };
                assert(r.script_done(false) == (s, b));
                let l2 = write(l, b);
                assert(reply(w, b) == EventView::Succeeded);
                let d = PassView { phase: Phase::Done, ..s };
                assert(drive(s, b, l, w) == drive(d, err, l2, w));
            },
            Direction::Down => {
                let d = PassView { phase: Phase::Done, ..r };
                assert(r.script_done(false) == (d, err));
                assert(drive(d, err, l, w) == (err, l));
            },
        }
    }
}

/// A pass that cannot read the script of migration `k`, after the earlier
/// migrations of the queue ran clean, finishes with an I/O error: those
/// earlier ones are applied (or reverted), and `k` and the migrations after
/// it leave the ledger as it was.
pub proof fn lemma_pass_stops_at_unreadable(p: PassView, l: Ledger, w: World, k: int)
    requires
        p.wf(),
        p.phase == Phase::Load,
        p.pos <= k < p.queue.len(),
        forall|i: int| p.pos <= i < k ==> runs_clean(w, #[trigger] p.queue[i]),
        !w.scripts.contains_key(p.queue[k]),
    ensures
        drive(p, ActionView::Load(p.current(), p.direction), l, w) == (
            ActionView::Finish(Report::Error(Failure::Io)),
            committed(l, p.queue, p.direction, p.at, p.pos, k),
        ),
    decreases k - p.pos,
{
    if p.pos < k {
        assert(runs_clean(w, p.queue[p.pos]));
        lemma_clean_step(p, l, w);
        let l2 = done_with(l, p.direction, p.current(), p.at);
        let n = PassView { phase: Phase::Load, pos: p.pos + 1, ..p };
        lemma_pass_stops_at_unreadable(n, l2, w, k);
    } else {
        let a = ActionView::Load(p.current(), p.direction);
        assert(reply(w, a) == EventView::Unreadable);
        assert(write(l, a) == l);
        let err = ActionView::Finish(Report::Error(Failure::Io));
        let d = PassView { phase: Phase::Done, ..p };
        assert(drive(d, err, l, w) == (err, l));
    }
}

} // verus!
