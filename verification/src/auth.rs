//! The authentication flow engine.
//!
//! A registration attempt must complete one of the server's configured
//! acceptable stage combinations ("flows") before an account is provisioned.
//! The engine is a state machine per in-progress attempt, keyed by an opaque
//! session id: a submitted stage whose proof checked out is added to the
//! session's completed set; once any acceptable flow is covered the session
//! is complete and discarded. A failed proof leaves the session as it was.
//! Sessions expire after [`SESSION_TTL`] clock units; an expired or unknown
//! session is treated as not started. Validating a stage's proof itself
//! (checking a password, verifying a captcha) belongs to per-stage verifiers
//! outside this engine, which receive the verdict in a [`StageAttempt`].

use vstd::prelude::*;

use crate::assoc::{
    assoc_map, lemma_assoc_absent, lemma_assoc_index, lemma_assoc_push, lemma_assoc_remove,
    unique_keys,
};
use crate::errors::ErrorKind;

verus! {

/// One verification stage a flow may demand.
#[derive(Clone, Copy, PartialEq, Eq, Structural, Debug)]
pub enum Stage {
    /// A password was set and checked.
    Password,
    /// A captcha was solved.
    Recaptcha,
    /// An email address was verified.
    EmailIdentity,
    /// Terms of service were accepted.
    Terms,
    /// The trivial stage.
    Dummy,
}

/// A submitted stage proof, carrying the per-stage verifier's verdict.
#[derive(Clone, Copy, PartialEq, Eq, Structural, Debug)]
pub struct StageAttempt {
    /// The stage the client claims to have completed.
    pub stage: Stage,
    /// Whether the stage's own verifier accepted the proof.
    pub proof_valid: bool,
}

/// How long a session stays usable without completing, in the unit of the
/// caller's clock.
pub const SESSION_TTL: u64 = 600;

/// The server's acceptable flows: a registration completes when every stage
/// of any one flow is completed.
pub struct FlowConfig {
    /// The acceptable stage combinations.
    pub flows: Vec<Vec<Stage>>,
}

impl FlowConfig {
    /// The flows as sequences of stages.
    pub open spec fn flows_seq(&self) -> Seq<Seq<Stage>> {
        self.flows@.map_values(|f: Vec<Stage>| f@)
    }
}

/// The set of stages a sequence holds.
pub open spec fn stage_set(s: Seq<Stage>) -> Set<Stage> {
    Set::new(|x: Stage| s.contains(x))
}

/// Every stage of `flow` is in `done`.
pub open spec fn flow_satisfied(flow: Seq<Stage>, done: Set<Stage>) -> bool {
    forall|i: int| 0 <= i < flow.len() ==> done.contains(#[trigger] flow[i])
}

/// Some acceptable flow is fully covered by `done`.
pub open spec fn any_flow_satisfied(flows: Seq<Seq<Stage>>, done: Set<Stage>) -> bool {
    exists|i: int| 0 <= i < flows.len() && flow_satisfied(#[trigger] flows[i], done)
}

/// `rem` holds exactly the stages of `flow` still missing from `done`.
pub open spec fn is_remaining(flow: Seq<Stage>, done: Set<Stage>, rem: Seq<Stage>) -> bool {
    (forall|k: int|
        0 <= k < rem.len() ==> flow.contains(#[trigger] rem[k]) && !done.contains(rem[k]))
    && (forall|k: int| 0 <= k < flow.len() ==> done.contains(#[trigger] flow[k]) || rem.contains(flow[k]))
}

/// The expiry instant of a session created at `now`.
pub open spec fn spec_expiry(now: u64) -> u64 {
    if now + SESSION_TTL <= u64::MAX {
        (now + SESSION_TTL) as u64
    } else {
        u64::MAX
    }
}

/// A `Some(sid)` naming a live (present, unexpired or not) session resumes
/// it; anything else asks for a fresh session id.
pub open spec fn uses_fresh_sid(m: Map<u64, (Seq<Stage>, u64)>, session_id: Option<u64>) -> bool {
    match session_id {
        Some(sid) => !m.dom().contains(sid),
        None => true,
    }
}

/// The session id a step works under: the client's if the table knows it,
/// else the freshly allocated `fresh`.
pub open spec fn target_sid(m: Map<u64, (Seq<Stage>, u64)>, session_id: Option<u64>, fresh: u64) -> u64 {
    match session_id {
        Some(sid) => if m.dom().contains(sid) { sid } else { fresh },
        None => fresh,
    }
}

/// The completed set a step starts from: the live session's, or empty when
/// the session is absent or expired.
pub open spec fn resolved_base(m: Map<u64, (Seq<Stage>, u64)>, session_id: Option<u64>, now: u64) -> Set<Stage> {
    match session_id {
        Some(sid) => if m.dom().contains(sid) && now <= m[sid].1 {
            stage_set(m[sid].0)
        } else {
            Set::empty()
        },
        None => Set::empty(),
    }
}

/// The expiry the step's session carries on: the live session's own, or a
/// fresh one measured from `now`.
pub open spec fn target_expiry(m: Map<u64, (Seq<Stage>, u64)>, session_id: Option<u64>, now: u64) -> u64 {
    match session_id {
        Some(sid) => if m.dom().contains(sid) && now <= m[sid].1 {
            m[sid].1
        } else {
            spec_expiry(now)
        },
        None => spec_expiry(now),
    }
}

/// The completed set after one step: the base, plus the submitted stage if
/// its proof was accepted.
pub open spec fn step_done(
    m: Map<u64, (Seq<Stage>, u64)>,
    session_id: Option<u64>,
    submission: Option<StageAttempt>,
    now: u64,
) -> Set<Stage> {
    let base = resolved_base(m, session_id, now);
    match submission {
        Some(att) => if att.proof_valid { base.insert(att.stage) } else { base },
        None => base,
    }
}

/// What one engine step reports.
pub enum AuthProgress {
    /// Some acceptable flow is fully completed; the session is gone.
    Completed,
    /// More stages are owed; retry with this session id.
    Incomplete {
        /// The session to quote on the next attempt.
        session_id: u64,
        /// Per acceptable flow, the stages still missing.
        remaining: Vec<Vec<Stage>>,
    },
}

/// One in-progress registration attempt.
struct AuthSession {
    completed: Vec<Stage>,
    expires_at: u64,
}

/// The shared table of in-progress attempts.
pub struct SessionTable {
    entries: Vec<(u64, AuthSession)>,
    next_id: u64,
}

impl SessionTable {
    /// The entries, as views.
    closed spec fn entries_seq(&self) -> Seq<(u64, (Seq<Stage>, u64))> {
        self.entries@.map_values(|p: (u64, AuthSession)| (p.0, (p.1.completed@, p.1.expires_at)))
    }

    /// The table as a map: session id to (completed stages, expiry).
    pub closed spec fn sessions(&self) -> Map<u64, (Seq<Stage>, u64)> {
        assoc_map(self.entries_seq())
    }

    /// The id the next fresh session will get.
    pub closed spec fn next_sid(&self) -> u64 {
        self.next_id
    }

    /// Ids unique, and every id below the allocator's next.
    pub closed spec fn wf(&self) -> bool {
        unique_keys(self.entries_seq()) && (forall|j: int|
            0 <= j < self.entries_seq().len() ==> (#[trigger] self.entries_seq()[j]).0
                < self.next_id)
    }

    /// An empty table.
    pub fn new() -> (s: Self)
        ensures
            s.wf(),
            s.sessions() == Map::<u64, (Seq<Stage>, u64)>::empty(),
            s.next_sid() == 0,
    {
        let s = SessionTable { entries: Vec::new(), next_id: 0 };
        proof {
            assert(s.entries_seq() =~= Seq::<(u64, (Seq<Stage>, u64))>::empty());
        }
        s
    }

    /// Index of the entry for `sid`, if any.
    fn find_session(&self, sid: u64) -> (r: Option<usize>)
        ensures
            match r {
                Some(i) => i < self.entries_seq().len() && self.entries_seq()[i as int].0 == sid,
                None => forall|j: int|
                    0 <= j < self.entries_seq().len() ==> (#[trigger] self.entries_seq()[j]).0
                        != sid,
            },
    {
        let n = self.entries.len();
        let mut i: usize = 0;
        while i < n
            invariant
                n == self.entries@.len(),
                i <= n,
                forall|j: int| 0 <= j < i ==> (#[trigger] self.entries_seq()[j]).0 != sid,
            decreases n - i,
        {
            if self.entries[i].0 == sid {
                return Some(i);
            }
            i += 1;
        }
        None
    }
}

/// `stage_set` turns a push into an insert.
proof fn lemma_stage_set_push(v: Seq<Stage>, s: Stage)
    ensures
        stage_set(v.push(s)) == stage_set(v).insert(s),
{
    assert forall|x: Stage| stage_set(v.push(s)).contains(x) implies stage_set(v).insert(
        s,
    ).contains(x) by {
        let i = choose|i: int| 0 <= i < v.push(s).len() && v.push(s)[i] == x;
        if i < v.len() {
            assert(v[i] == x);
        }
    }
    assert forall|x: Stage| stage_set(v).insert(s).contains(x) implies stage_set(
        v.push(s),
    ).contains(x) by {
        if x == s {
            assert(v.push(s)[v.len() as int] == x);
        } else {
            let i = choose|i: int| 0 <= i < v.len() && v[i] == x;
            assert(v.push(s)[i] == x);
        }
    }
    assert(stage_set(v.push(s)) =~= stage_set(v).insert(s));
}

/// Decides whether `done` holds `s`.
fn has_stage(done: &Vec<Stage>, s: Stage) -> (b: bool)
    ensures
        b == stage_set(done@).contains(s),
{
    let n = done.len();
    let mut i: usize = 0;
    while i < n
        invariant
            n == done@.len(),
            i <= n,
            forall|j: int| 0 <= j < i ==> done@[j] != s,
        decreases n - i,
    {
        if done[i] == s {
            return true;
        }
        i += 1;
    }
    false
}

/// Decides whether every stage of `flow` is completed.
fn flow_done(flow: &Vec<Stage>, done: &Vec<Stage>) -> (b: bool)
    ensures
        b == flow_satisfied(flow@, stage_set(done@)),
{
    let n = flow.len();
    let mut i: usize = 0;
    while i < n
        invariant
            n == flow@.len(),
            i <= n,
            forall|j: int| 0 <= j < i ==> stage_set(done@).contains(#[trigger] flow@[j]),
        decreases n - i,
    {
        if !has_stage(done, flow[i]) {
            return false;
        }
        i += 1;
    }
    true
}

/// Decides whether some acceptable flow is fully completed.
fn any_flow_done(cfg: &FlowConfig, done: &Vec<Stage>) -> (b: bool)
    ensures
        b == any_flow_satisfied(cfg.flows_seq(), stage_set(done@)),
{
    let n = cfg.flows.len();
    let mut i: usize = 0;
    while i < n
        invariant
            n == cfg.flows@.len(),
            i <= n,
            forall|j: int| 0 <= j < i ==> !flow_satisfied(#[trigger] cfg.flows_seq()[j], stage_set(done@)),
        decreases n - i,
    {
        if flow_done(&cfg.flows[i], done) {
            proof {
                assert(cfg.flows_seq()[i as int] == cfg.flows@[i as int]@);
                assert(flow_satisfied(cfg.flows_seq()[i as int], stage_set(done@)));
            }
            return true;
        }
        i += 1;
    }
    false
}

/// The stages of `flow` still missing from `done`, in flow order.
fn remaining_of(flow: &Vec<Stage>, done: &Vec<Stage>) -> (r: Vec<Stage>)
    ensures
        is_remaining(flow@, stage_set(done@), r@),
{
    let n = flow.len();
    let mut r: Vec<Stage> = Vec::new();
    let mut i: usize = 0;
    while i < n
        invariant
            n == flow@.len(),
            i <= n,
            forall|k: int|
                0 <= k < r@.len() ==> flow@.contains(#[trigger] r@[k]) && !stage_set(
                    done@,
                ).contains(r@[k]),
            forall|k: int|
                0 <= k < i ==> stage_set(done@).contains(#[trigger] flow@[k]) || r@.contains(
                    flow@[k],
                ),
        decreases n - i,
    {
        let st = flow[i];
        if !has_stage(done, st) {
            let ghost prefix = r@;
            r.push(st);
            proof {
                assert(r@[prefix.len() as int] == st);
                assert(flow@[i as int] == st);
                assert(flow@.contains(st));
                assert forall|k: int|
                    0 <= k < i + 1 implies stage_set(done@).contains(#[trigger] flow@[k])
                    || r@.contains(flow@[k]) by {
                    if k < i {
                        if !stage_set(done@).contains(flow@[k]) {
                            let idx = choose|idx: int|
                                0 <= idx < prefix.len() && prefix[idx] == flow@[k];
                            assert(r@[idx] == flow@[k]);
                        }
                    } else {
                        assert(r@[prefix.len() as int] == flow@[k]);
                    }
                }
            }
        }
        i += 1;
    }
    r
}

/// Per acceptable flow, the stages still missing from `done`.
fn remaining_flows(cfg: &FlowConfig, done: &Vec<Stage>) -> (r: Vec<Vec<Stage>>)
    ensures
        r@.len() == cfg.flows_seq().len(),
        forall|i: int|
            0 <= i < r@.len() ==> is_remaining(
                cfg.flows_seq()[i],
                stage_set(done@),
                (#[trigger] r@[i])@,
            ),
{
    let n = cfg.flows.len();
    let mut r: Vec<Vec<Stage>> = Vec::new();
    let mut i: usize = 0;
    while i < n
        invariant
            n == cfg.flows@.len(),
            i <= n,
            r@.len() == i,
            forall|j: int|
                0 <= j < i ==> is_remaining(
                    cfg.flows_seq()[j],
                    stage_set(done@),
                    (#[trigger] r@[j])@,
                ),
        decreases n - i,
    {
        let rem = remaining_of(&cfg.flows[i], done);
        r.push(rem);
        i += 1;
    }
    r
}

/// The expiry instant of a session created at `now`.
fn expiry_for(now: u64) -> (r: u64)
    ensures
        r == spec_expiry(now),
{
    if now <= u64::MAX - SESSION_TTL {
        now + SESSION_TTL
    } else {
        u64::MAX
    }
}

impl SessionTable {
    /// One engine step: resolve the session (live, reset when expired, fresh
    /// when absent), apply at most one accepted stage, and report either
    /// completion (the session is discarded) or the remaining flows under
    /// the session id to retry with.
    ///
    /// The only failure is exhaustion of the id allocator.
    pub fn step(
        &mut self,
        cfg: &FlowConfig,
        session_id: Option<u64>,
        submission: Option<StageAttempt>,
        now: u64,
    ) -> (r: Result<AuthProgress, ErrorKind>)
        requires
            old(self).wf(),
        ensures
            final(self).wf(),
            r is Err <==> uses_fresh_sid(old(self).sessions(), session_id) && old(self).next_sid()
                == u64::MAX,
            r is Err ==> r == Err::<AuthProgress, ErrorKind>(ErrorKind::StorageFailure)
                && final(self).sessions() == old(self).sessions(),
            r matches Ok(p) ==> {
                let m = old(self).sessions();
                let sid = target_sid(m, session_id, old(self).next_sid());
                let done = step_done(m, session_id, submission, now);
                &&& (p is Completed <==> any_flow_satisfied(cfg.flows_seq(), done))
                &&& (p is Completed ==> final(self).sessions() == m.remove(sid))
                &&& (p matches AuthProgress::Incomplete { session_id: s, remaining } ==> {
                    &&& s == sid
                    &&& final(self).sessions().dom() == m.dom().insert(sid)
                    &&& stage_set(final(self).sessions()[sid].0) == done
                    &&& final(self).sessions()[sid].1 == target_expiry(m, session_id, now)
                    &&& (forall|k: u64|
                        m.dom().contains(k) && k != sid ==> final(self).sessions()[k] == m[k])
                    &&& remaining@.len() == cfg.flows_seq().len()
                    &&& (forall|i: int|
                        0 <= i < remaining@.len() ==> is_remaining(
                            cfg.flows_seq()[i],
                            done,
                            (#[trigger] remaining@[i])@,
                        ))
                })
            },
    {
        let ghost m = self.sessions();
        let ghost pre = *self;
        let mut work: AuthSession;
        let sid: u64;
        let mut found: Option<(u64, usize)> = None;
        if let Some(s) = session_id {
            if let Some(i) = self.find_session(s) {
                found = Some((s, i));
            }
        }
        if let Some((s, i)) = found {
            proof {
                lemma_assoc_index(pre.entries_seq(), i as int);
            }
            let entry = self.entries.remove(i);
            proof {
                assert(self.entries_seq() =~= pre.entries_seq().remove(i as int));
                lemma_assoc_remove(pre.entries_seq(), i as int);
                assert forall|x: int, y: int|
                    0 <= x < y < self.entries_seq().len() implies (#[trigger] self.entries_seq()[
                    x]).0 != (#[trigger] self.entries_seq()[y]).0 by {
                    let sq = pre.entries_seq();
                    let xx: int = if x < i { x } else { x + 1 };
                    let yy: int = if y < i { y } else { y + 1 };
                    assert(self.entries_seq()[x] == sq[xx]);
                    assert(self.entries_seq()[y] == sq[yy]);
                }
                assert forall|j: int|
                    0 <= j < self.entries_seq().len() implies (#[trigger] self.entries_seq()[
                    j]).0 != s by {
                    let sq = pre.entries_seq();
                    let jj: int = if j < i as int { j } else { j + 1 };
                    assert(self.entries_seq()[j] == sq[jj]);
                }
                assert forall|j: int|
                    0 <= j < self.entries_seq().len() implies (#[trigger] self.entries_seq()[
                    j]).0 < self.next_id by {
                    let sq = pre.entries_seq();
                    let jj: int = if j < i as int { j } else { j + 1 };
                    assert(self.entries_seq()[j] == sq[jj]);
                }
            }
            sid = s;
            if now <= entry.1.expires_at {
                work = entry.1;
            } else {
                work = AuthSession { completed: Vec::new(), expires_at: expiry_for(now) };
                proof {
                    assert(stage_set(work.completed@) =~= Set::<Stage>::empty());
                    assert(stage_set(work.completed@) == resolved_base(m, session_id, now));
                }
            }
        } else {
            proof {
                match session_id {
                    Some(s2) => {
                        lemma_assoc_absent(pre.entries_seq(), s2);
                    },
                    None => {},
                }
                assert(uses_fresh_sid(m, session_id));
            }
            if self.next_id == u64::MAX {
                return Err(ErrorKind::StorageFailure);
            }
            sid = self.next_id;
            self.next_id = self.next_id + 1;
            work = AuthSession { completed: Vec::new(), expires_at: expiry_for(now) };
            proof {
                assert(stage_set(work.completed@) =~= Set::<Stage>::empty());
            }
        }
        let ghost base_vec = work.completed@;
        proof {
            assert(stage_set(base_vec) == resolved_base(m, session_id, now));
        }
        if let Some(att) = submission {
            if att.proof_valid {
                if !has_stage(&work.completed, att.stage) {
                    proof {
                        lemma_stage_set_push(base_vec, att.stage);
                    }
                    work.completed.push(att.stage);
                } else {
                    proof {
                        assert(stage_set(base_vec).insert(att.stage) =~= stage_set(base_vec));
                    }
                }
            }
        }
        proof {
            assert(stage_set(work.completed@) == step_done(m, session_id, submission, now));
        }
        if any_flow_done(cfg, &work.completed) {
            proof {
                if uses_fresh_sid(m, session_id) {
                    lemma_assoc_absent(pre.entries_seq(), sid);
                    assert(self.sessions() =~= m.remove(sid));
                }
            }
            Ok(AuthProgress::Completed)
        } else {
            let rem = remaining_flows(cfg, &work.completed);
            let ghost mid = *self;
            proof {
                assert forall|j: int|
                    0 <= j < mid.entries_seq().len() implies (#[trigger] mid.entries_seq()[j]).0
                    != sid by {
                    if uses_fresh_sid(m, session_id) {
                        assert(mid.entries_seq()[j].0 < mid.next_id);
                    }
                }
            }
            self.entries.push((sid, work));
            proof {
                let ws = (work.completed@, work.expires_at);
                let ps = mid.entries_seq().push((sid, ws));
                assert(self.entries_seq() =~= ps);
                assert forall|x: int, y: int|
                    0 <= x < y < ps.len() implies (#[trigger] ps[x]).0 != (#[trigger] ps[y]).0 by {
                    if y < ps.len() - 1 {
                        assert(ps[x] == mid.entries_seq()[x]);
                        assert(ps[y] == mid.entries_seq()[y]);
                    } else {
                        assert(ps[x] == mid.entries_seq()[x]);
                        assert(ps[y].0 == sid);
                    }
                }
                assert forall|j: int|
                    0 <= j < ps.len() implies (#[trigger] ps[j]).0 < self.next_id by {
                    if j < ps.len() - 1 {
                        assert(ps[j] == mid.entries_seq()[j]);
                    } else {
                        assert(ps[j].0 == sid);
                    }
                }
                lemma_assoc_push(mid.entries_seq(), (sid, ws));
                assert(self.sessions().dom() =~= m.dom().insert(sid));
                assert forall|k: u64|
                    m.dom().contains(k) && k != sid implies self.sessions()[k] == m[k] by {
                }
            }
            Ok(AuthProgress::Incomplete { session_id: sid, remaining: rem })
        }
    }
}

impl SessionTable {
    /// Discards every session whose expiry lies before `now`, keeping the
    /// rest untouched. Abandoned attempts thus stop occupying memory; a
    /// request quoting a discarded session starts over, exactly as it would
    /// against a lazily expired one.
    pub fn purge_expired(&mut self, now: u64)
        requires
            old(self).wf(),
        ensures
            final(self).wf(),
            final(self).next_sid() == old(self).next_sid(),
            forall|sid: u64| #[trigger] final(self).sessions().dom().contains(sid) <==> old(self).sessions().dom().contains(sid) && now <= old(self).sessions()[sid].1,
            forall|sid: u64| #[trigger] final(self).sessions().dom().contains(sid) ==> final(self).sessions()[sid] == old(self).sessions()[sid],
    {
        let ghost m = self.sessions();
        let mut i: usize = 0;
        while i < self.entries.len()
            invariant
                self.wf(),
                i <= self.entries@.len(),
                self.next_sid() == old(self).next_sid(),
                forall|sid: u64| #[trigger] self.sessions().dom().contains(sid) ==> m.dom().contains(
                    sid,
                ) && self.sessions()[sid] == m[sid],
                forall|sid: u64|
                    m.dom().contains(sid) && now <= m[sid].1 ==> #[trigger] self.sessions().dom().contains(
                        sid,
                    ),
                forall|j: int| 0 <= j < i ==> now <= (#[trigger] self.entries_seq()[j]).1.1,
            decreases self.entries@.len() - i,
        {
            if self.entries[i].1.expires_at < now {
                let ghost pre = *self;
                let ghost key = pre.entries_seq()[i as int].0;
                proof {
                    lemma_assoc_index(pre.entries_seq(), i as int);
                }
                self.entries.remove(i);
                proof {
                    assert(self.entries_seq() =~= pre.entries_seq().remove(i as int));
                    lemma_assoc_remove(pre.entries_seq(), i as int);
                    assert forall|x: int, y: int|
                        0 <= x < y < self.entries_seq().len() implies (
                    #[trigger] self.entries_seq()[x]).0 != (#[trigger] self.entries_seq()[y]).0 by {
                        let sq = pre.entries_seq();
                        let xx: int = if x < i { x } else { x + 1 };
                        let yy: int = if y < i { y } else { y + 1 };
                        assert(self.entries_seq()[x] == sq[xx]);
                        assert(self.entries_seq()[y] == sq[yy]);
                    }
                    assert forall|j: int|
                        0 <= j < self.entries_seq().len() implies (#[trigger] self.entries_seq()[
                    j]).0 < self.next_id by {
                        let sq = pre.entries_seq();
                        let jj: int = if j < i as int { j } else { j + 1 };
                        assert(self.entries_seq()[j] == sq[jj]);
                    }
                    assert forall|j: int|
                        0 <= j < i implies now <= (#[trigger] self.entries_seq()[j]).1.1 by {
                        assert(self.entries_seq()[j] == pre.entries_seq()[j]);
                    }
                    assert forall|sid: u64|
                        m.dom().contains(sid) && now <= m[sid].1 implies #[trigger] self.sessions().dom().contains(
                        sid,
                    ) by {
                        assert(pre.sessions()[key].1 < now);
                        assert(sid != key);
                    }
                    assert forall|sid: u64|
                        #[trigger] self.sessions().dom().contains(sid) implies m.dom().contains(
                        sid,
                    ) && self.sessions()[sid] == m[sid] by {
                        assert(self.sessions() == pre.sessions().remove(key));
                        assert(pre.sessions().dom().contains(sid));
                    }
                }
            } else {
                i += 1;
            }
        }
        proof {
            assert forall|sid: u64| #[trigger] self.sessions().dom().contains(sid) implies now
                <= self.sessions()[sid].1 by {
                assert(exists|j: int|
                    0 <= j < self.entries_seq().len() && (#[trigger] self.entries_seq()[j]).0
                        == sid) by {
                    if forall|j: int|
                        0 <= j < self.entries_seq().len() ==> (#[trigger] self.entries_seq()[j]).0
                            != sid {
                        lemma_assoc_absent(self.entries_seq(), sid);
                    }
                }
                let j = choose|j: int|
                    0 <= j < self.entries_seq().len() && (#[trigger] self.entries_seq()[j]).0
                        == sid;
                lemma_assoc_index(self.entries_seq(), j);
            }
        }
    }
}

/// Folding a run of accepted submissions into a completed set.
pub open spec fn fold_stages(base: Set<Stage>, subs: Seq<Stage>) -> Set<Stage>
    decreases subs.len(),
{
    if subs.len() == 0 {
        base
    } else {
        fold_stages(base, subs.drop_last()).insert(subs.last())
    }
}

/// Accepted submissions accumulate as a plain union, so the order in which
/// stages are submitted, one at a time, never matters.
pub proof fn lemma_fold_stages_is_union(base: Set<Stage>, subs: Seq<Stage>)
    ensures
        fold_stages(base, subs) == base.union(stage_set(subs)),
    decreases subs.len(),
{
    if subs.len() == 0 {
        assert(stage_set(subs) =~= Set::<Stage>::empty());
        assert(fold_stages(base, subs) =~= base.union(stage_set(subs)));
    } else {
        lemma_fold_stages_is_union(base, subs.drop_last());
        lemma_stage_set_push(subs.drop_last(), subs.last());
        assert(subs.drop_last().push(subs.last()) =~= subs);
        assert(fold_stages(base, subs) =~= base.union(stage_set(subs)));
    }
}

/// Submitting accepted stage proofs one at a time, in any order, reaches
/// completion as soon as the submissions cover any acceptable flow.
pub proof fn lemma_submissions_reach_completion(
    flows: Seq<Seq<Stage>>,
    base: Set<Stage>,
    subs: Seq<Stage>,
    i: int,
)
    requires
        0 <= i < flows.len(),
        forall|k: int|
            0 <= k < flows[i].len() ==> base.contains(#[trigger] flows[i][k]) || subs.contains(
                flows[i][k],
            ),
    ensures
        any_flow_satisfied(flows, fold_stages(base, subs)),
{
    lemma_fold_stages_is_union(base, subs);
    assert(flow_satisfied(flows[i], fold_stages(base, subs)));
}

/// Re-submitting an already-completed stage is a no-op: the completed set,
/// and with it every flow's verdict, is unchanged.
pub proof fn lemma_resubmit_noop(flows: Seq<Seq<Stage>>, done: Set<Stage>, s: Stage)
    requires
        done.contains(s),
    ensures
        done.insert(s) == done,
        any_flow_satisfied(flows, done.insert(s)) == any_flow_satisfied(flows, done),
{
    assert(done.insert(s) =~= done);
}

} // verus!
