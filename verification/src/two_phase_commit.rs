//! Two-phase commit coordinator.
//!
//! The coordinator keeps a registry of participants and of transactions. A
//! transaction names the participants it spans; `prepare`, `commit` and
//! `abort_transaction` walk that list in order, asking each participant to
//! change state. The participant answer is emulated locally: a step succeeds
//! or fails according to the participant's current state, and the first
//! failing step stops the walk.

use vstd::prelude::*;
use crate::strmap::StrMap;
use crate::clock::get_timestamp_ms;

verus! {

/// Timing and retry settings of the coordinator.
pub struct TwoPCConfig {
    pub prepare_timeout_secs: u64,
    pub commit_timeout_secs: u64,
    pub max_retries: u32,
}

impl TwoPCConfig {
    /// 30 s for each phase and 3 retries.
    pub fn default() -> (c: Self)
        ensures
            c.prepare_timeout_secs == 30,
            c.commit_timeout_secs == 30,
            c.max_retries == 3,
    {
        TwoPCConfig { prepare_timeout_secs: 30, commit_timeout_secs: 30, max_retries: 3 }
    }
}

#[derive(Clone, Copy, Debug, PartialEq, Eq, Structural)]
enum CoordinatorState {
    Initial,
    Preparing,
    Prepared,
    Committing,
    Committed,
    Aborting,
    Aborted,
    Failed,
}

/// State of one participant as seen by the coordinator.
#[derive(Clone, Copy, Debug, PartialEq, Eq, Structural)]
pub enum ParticipantState {
    Initial,
    Prepared,
    Committed,
    Aborted,
    Failed,
}

/// Status of a transaction.
#[derive(Clone, Copy, Debug, PartialEq, Eq, Structural)]
pub enum TransactionStatus {
    Pending,
    Preparing,
    Prepared,
    Committing,
    Committed,
    Aborting,
    Aborted,
    Failed,
}

#[derive(Clone, Copy, Debug, PartialEq, Eq, Structural)]
pub enum OperationType {
    Insert,
    Update,
    Delete,
}

/// One write carried by a transaction.
#[derive(Debug)]
pub struct Operation {
    pub op_type: OperationType,
    pub table: String,
    pub key: String,
    pub value: Option<Vec<u8>>,
}

/// A registered participant.
#[derive(Debug)]
pub struct Participant {
    pub id: String,
    pub endpoint: String,
    pub state: ParticipantState,
    /// Time (ms since the epoch) of the last emulated answer.
    pub last_response: Option<u64>,
}

/// A transaction and its bookkeeping.
#[derive(Debug)]
pub struct TwoPCTransaction {
    pub id: String,
    pub participants: Vec<String>,
    pub status: TransactionStatus,
    /// Creation time, ms since the epoch.
    pub created_at: u64,
    /// Time of the last change, ms since the epoch.
    pub updated_at: u64,
    pub operations: Vec<Operation>,
}

/// Abstract value of an [`Operation`].
pub struct OperationView {
    pub op_type: OperationType,
    pub table: Seq<char>,
    pub key: Seq<char>,
    pub value: Option<Seq<u8>>,
}

impl View for Operation {
    type V = OperationView;

    open spec fn view(&self) -> OperationView {
        OperationView {
            op_type: self.op_type,
            table: self.table@,
            key: self.key@,
            value: match self.value {
                Some(v) => Some(v@),
                None => None,
            },
        }
    }
}

/// Abstract value of a [`TwoPCTransaction`].
pub struct TxView {
    pub id: Seq<char>,
    pub participants: Seq<Seq<char>>,
    pub status: TransactionStatus,
    pub created_at: u64,
    pub updated_at: u64,
    pub operations: Seq<OperationView>,
}

impl View for TwoPCTransaction {
    type V = TxView;

    open spec fn view(&self) -> TxView {
        TxView {
            id: self.id@,
            participants: self.participants@.map_values(|s: String| s@),
            status: self.status,
            created_at: self.created_at,
            updated_at: self.updated_at,
            operations: self.operations@.map_values(|o: Operation| o@),
        }
    }
}

#[derive(Clone, Copy, Debug, PartialEq, Eq, Structural)]
pub enum TwoPCError {
    TransactionNotFound,
    Timeout,
    ParticipantFailed,
    CoordinatorFailed,
    InvalidState,
}

impl TwoPCError {
    /// Human-readable message.
    pub fn message(&self) -> (s: &'static str)
        ensures
            *self == TwoPCError::TransactionNotFound ==> s@ == "Transaction not found"@,
            *self == TwoPCError::Timeout ==> s@ == "Operation timed out"@,
            *self == TwoPCError::ParticipantFailed ==> s@ == "Participant failed"@,
            *self == TwoPCError::CoordinatorFailed ==> s@ == "Coordinator failed"@,
            *self == TwoPCError::InvalidState ==> s@ == "Invalid transaction state"@,
    {
        match self {
            TwoPCError::TransactionNotFound => "Transaction not found",
            TwoPCError::Timeout => "Operation timed out",
            TwoPCError::ParticipantFailed => "Participant failed",
            TwoPCError::CoordinatorFailed => "Coordinator failed",
            TwoPCError::InvalidState => "Invalid transaction state",
        }
    }
}

fn clone_string_vec(v: &Vec<String>) -> (r: Vec<String>)
    ensures
        r@ == v@,
{
    let r = v.clone();
    assert(r@ =~= v@) by {
        assert forall|i: int| 0 <= i < v.len() implies r@[i] == v@[i] by {
            assert(vstd::pervasive::cloned::<String>(v[i], r[i]));
        }
    }
    r
}

impl Operation {
    /// Copies the operation.
    pub fn clone_op(&self) -> (r: Self)
        ensures
            r@ == self@,
    {
        let value = match &self.value {
            Some(bytes) => {
                let b = bytes.clone();
                assert(b@ =~= bytes@);
                Some(b)
            },
            None => None,
        };
        Operation { op_type: self.op_type, table: self.table.clone(), key: self.key.clone(), value }
    }
}

impl TwoPCTransaction {
    /// Copies the transaction.
    pub fn clone_tx(&self) -> (r: Self)
        ensures
            r@ == self@,
    {
        let mut ops: Vec<Operation> = Vec::new();
        let mut i: usize = 0;
        while i < self.operations.len()
            invariant
                i <= self.operations@.len(),
                ops@.len() == i,
                forall|j: int| 0 <= j < i ==> #[trigger] ops@[j]@ == self.operations@[j]@,
            decreases self.operations@.len() - i,
        {
            ops.push(self.operations[i].clone_op());
            i = i + 1;
        }
        assert(ops@.map_values(|o: Operation| o@) =~= self.operations@.map_values(|o: Operation| o@));
        TwoPCTransaction {
            id: self.id.clone(),
            participants: clone_string_vec(&self.participants),
            status: self.status,
            created_at: self.created_at,
            updated_at: self.updated_at,
            operations: ops,
        }
    }
}

/// The three walks over a transaction's participants.
#[derive(Clone, Copy, Debug, PartialEq, Eq, Structural)]
pub enum Phase {
    Prepare,
    Commit,
    Abort,
}

/// One emulated participant answer in `phase`: the participant's new state,
/// or the error that stops the walk.
pub open spec fn phase_step(phase: Phase, ps: Map<Seq<char>, ParticipantState>, id: Seq<char>)
    -> Result<Map<Seq<char>, ParticipantState>, TwoPCError>
{
    if !ps.contains_key(id) {
        Err(TwoPCError::ParticipantFailed)
    } else {
        match phase {
            Phase::Prepare => if ps[id] == ParticipantState::Failed {
                Err(TwoPCError::ParticipantFailed)
            } else {
                Ok(ps.insert(id, ParticipantState::Prepared))
            },
            Phase::Commit => if ps[id] != ParticipantState::Prepared && ps[id] != ParticipantState::Initial {
                Err(TwoPCError::InvalidState)
            } else {
                Ok(ps.insert(id, ParticipantState::Committed))
            },
            Phase::Abort => if ps[id] == ParticipantState::Committed {
                Err(TwoPCError::InvalidState)
            } else {
                Ok(ps.insert(id, ParticipantState::Aborted))
            },
        }
    }
}

/// Walks `ids` in order applying `phase_step`; returns the participant states
/// reached and the error that stopped the walk, if one did.
pub open spec fn run_phase(phase: Phase, ps: Map<Seq<char>, ParticipantState>, ids: Seq<Seq<char>>)
    -> (Map<Seq<char>, ParticipantState>, Option<TwoPCError>)
    decreases ids.len(),
{
    if ids.len() == 0 {
        (ps, None)
    } else {
        let (m, e) = run_phase(phase, ps, ids.drop_last());
        if e is Some {
            (m, e)
        } else {
            match phase_step(phase, m, ids.last()) {
                Ok(m2) => (m2, None),
                Err(err) => (m, Some(err)),
            }
        }
    }
}

/// Once a walk has stopped on an error, later participants change nothing.
pub proof fn lemma_run_phase_stops(phase: Phase, ps: Map<Seq<char>, ParticipantState>, ids: Seq<Seq<char>>, k: int)
    requires
        0 <= k <= ids.len(),
        run_phase(phase, ps, ids.take(k)).1 is Some,
    ensures
        run_phase(phase, ps, ids) == run_phase(phase, ps, ids.take(k)),
    decreases ids.len(),
{
    if k == ids.len() {
        assert(ids.take(k) =~= ids);
    } else {
        assert(ids.drop_last().take(k) =~= ids.take(k));
        lemma_run_phase_stops(phase, ps, ids.drop_last(), k);
    }
}

/// The state a participant reaches when it accepts `phase`.
pub open spec fn phase_target(phase: Phase) -> ParticipantState {
    match phase {
        Phase::Prepare => ParticipantState::Prepared,
        Phase::Commit => ParticipantState::Committed,
        Phase::Abort => ParticipantState::Aborted,
    }
}

/// A walk never adds or drops participants, and a walk that ends without
/// error met only registered participants.
pub proof fn lemma_run_phase_dom(phase: Phase, ps: Map<Seq<char>, ParticipantState>, ids: Seq<Seq<char>>)
    ensures
        run_phase(phase, ps, ids).0.dom() == ps.dom(),
        run_phase(phase, ps, ids).1 is None ==> forall|i: int| 0 <= i < ids.len() ==> ps.contains_key(#[trigger] ids[i]),
    decreases ids.len(),
{
    if ids.len() > 0 {
        lemma_run_phase_dom(phase, ps, ids.drop_last());
        let m = run_phase(phase, ps, ids.drop_last()).0;
        if let Ok(m2) = phase_step(phase, m, ids.last()) {
            assert(m2.dom() =~= m.dom());
        }
        assert forall|i: int| 0 <= i < ids.len() && run_phase(phase, ps, ids).1 is None implies ps.contains_key(#[trigger] ids[i]) by {
            if i < ids.len() - 1 {
                assert(ids.drop_last()[i] == ids[i]);
            }
        }
    }
}

/// A walk over distinct participants that each accept the phase ends without
/// error, every one of them in the phase's target state.
pub proof fn lemma_run_phase_all_accept(phase: Phase, ps: Map<Seq<char>, ParticipantState>, ids: Seq<Seq<char>>)
    requires
        ids.no_duplicates(),
        forall|i: int| 0 <= i < ids.len() ==> #[trigger] phase_step(phase, ps, ids[i]) is Ok,
    ensures
        run_phase(phase, ps, ids).1 is None,
        run_phase(phase, ps, ids).0 == Map::new(
            |k: Seq<char>| ps.contains_key(k),
            |k: Seq<char>| if ids.contains(k) { phase_target(phase) } else { ps[k] },
        ),
    decreases ids.len(),
{
    if ids.len() > 0 {
        let front = ids.drop_last();
        assert forall|i: int| 0 <= i < front.len() implies #[trigger] phase_step(phase, ps, front[i]) is Ok by {
            assert(front[i] == ids[i]);
        }
        lemma_run_phase_all_accept(phase, ps, front);
        let m = run_phase(phase, ps, front).0;
        let x = ids.last();
        assert(phase_step(phase, ps, ids[ids.len() - 1]) is Ok);
        assert(!front.contains(x)) by {
            if front.contains(x) {
                let j = choose|j: int| 0 <= j < front.len() && front[j] == x;
                assert(ids[j] == ids[ids.len() - 1]);
            }
        }
        assert(m[x] == ps[x]);
        let goal = Map::new(
            |k: Seq<char>| ps.contains_key(k),
            |k: Seq<char>| if ids.contains(k) { phase_target(phase) } else { ps[k] },
        );
        assert forall|k: Seq<char>| #[trigger] ps.contains_key(k) implies (ids.contains(k) <==> (front.contains(k) || k == x)) by {
            if ids.contains(k) {
                let j = choose|j: int| 0 <= j < ids.len() && ids[j] == k;
                if j < ids.len() - 1 {
                    assert(front[j] == k);
                }
            }
            if front.contains(k) {
                let j = choose|j: int| 0 <= j < front.len() && front[j] == k;
                assert(ids[j] == k);
            }
        }
        assert(run_phase(phase, ps, ids).0 =~= goal);
    }
}

/// A transaction whose participants are registered, none failed and each
/// named once, prepares without error, and a commit right after the prepare
/// also completes without error.
pub proof fn law_prepare_then_commit(ps: Map<Seq<char>, ParticipantState>, ids: Seq<Seq<char>>)
    requires
        ids.no_duplicates(),
        forall|i: int| 0 <= i < ids.len() ==> ps.contains_key(#[trigger] ids[i]) && ps[ids[i]] != ParticipantState::Failed,
    ensures
        run_phase(Phase::Prepare, ps, ids).1 is None,
        run_phase(Phase::Commit, run_phase(Phase::Prepare, ps, ids).0, ids).1 is None,
{
    assert forall|i: int| 0 <= i < ids.len() implies #[trigger] phase_step(Phase::Prepare, ps, ids[i]) is Ok by {}
    lemma_run_phase_all_accept(Phase::Prepare, ps, ids);
    let m = run_phase(Phase::Prepare, ps, ids).0;
    assert forall|i: int| 0 <= i < ids.len() implies #[trigger] phase_step(Phase::Commit, m, ids[i]) is Ok by {
        assert(ids.contains(ids[i]));
    }
    lemma_run_phase_all_accept(Phase::Commit, m, ids);
}

/// A commit is final: once a commit of a transaction with at least one
/// participant has completed, aborting that transaction fails with
/// `InvalidState` and changes no participant.
pub proof fn law_no_abort_after_commit(ps: Map<Seq<char>, ParticipantState>, ids: Seq<Seq<char>>)
    requires
        ids.len() > 0,
        run_phase(Phase::Commit, ps, ids).1 is None,
    ensures
        ({
            let committed = all_committed(run_phase(Phase::Commit, ps, ids).0);
            run_phase(Phase::Abort, committed, ids) == (committed, Some(TwoPCError::InvalidState))
        }),
{
    lemma_run_phase_dom(Phase::Commit, ps, ids);
    let committed = all_committed(run_phase(Phase::Commit, ps, ids).0);
    assert(ps.contains_key(ids[0]));
    assert(ids.take(1).drop_last() =~= Seq::<Seq<char>>::empty());
    assert(ids.take(1).last() == ids[0]);
    assert(committed.contains_key(ids[0]) && committed[ids[0]] == ParticipantState::Committed);
    assert(run_phase(Phase::Abort, committed, Seq::<Seq<char>>::empty()) == (committed, None::<TwoPCError>));
    assert(run_phase(Phase::Abort, committed, ids.take(1)) == (committed, Some(TwoPCError::InvalidState)));
    lemma_run_phase_stops(Phase::Abort, committed, ids, 1);
}

proof fn lemma_abort_run_aborts_all(ps: Map<Seq<char>, ParticipantState>, ids: Seq<Seq<char>>)
    requires
        run_phase(Phase::Abort, ps, ids).1 is None,
    ensures
        forall|i: int| 0 <= i < ids.len() ==> run_phase(Phase::Abort, ps, ids).0.contains_key(#[trigger] ids[i])
            && run_phase(Phase::Abort, ps, ids).0[ids[i]] == ParticipantState::Aborted,
    decreases ids.len(),
{
    if ids.len() > 0 {
        let front = ids.drop_last();
        lemma_abort_run_aborts_all(ps, front);
        assert forall|i: int| 0 <= i < ids.len() implies run_phase(Phase::Abort, ps, ids).0.contains_key(#[trigger] ids[i])
            && run_phase(Phase::Abort, ps, ids).0[ids[i]] == ParticipantState::Aborted by {
            if i < ids.len() - 1 {
                assert(front[i] == ids[i]);
            }
        }
    }
}

/// An abort is final: once an abort of a transaction with at least one
/// participant has completed, committing that transaction fails with
/// `InvalidState` and changes no participant, so none of them, and not the
/// transaction, ever becomes committed.
pub proof fn law_no_commit_after_abort(ps: Map<Seq<char>, ParticipantState>, ids: Seq<Seq<char>>)
    requires
        ids.len() > 0,
        run_phase(Phase::Abort, ps, ids).1 is None,
    ensures
        ({
            let aborted = run_phase(Phase::Abort, ps, ids).0;
            &&& forall|i: int| 0 <= i < ids.len() ==> aborted[#[trigger] ids[i]] == ParticipantState::Aborted
            &&& run_phase(Phase::Commit, aborted, ids) == (aborted, Some(TwoPCError::InvalidState))
        }),
{
    lemma_abort_run_aborts_all(ps, ids);
    let aborted = run_phase(Phase::Abort, ps, ids).0;
    assert(aborted.contains_key(ids[0]) && aborted[ids[0]] == ParticipantState::Aborted);
    assert(ids.take(1).drop_last() =~= Seq::<Seq<char>>::empty());
    assert(ids.take(1).last() == ids[0]);
    assert(run_phase(Phase::Commit, aborted, Seq::<Seq<char>>::empty()) == (aborted, None::<TwoPCError>));
    assert(run_phase(Phase::Commit, aborted, ids.take(1)) == (aborted, Some(TwoPCError::InvalidState)));
    lemma_run_phase_stops(Phase::Commit, aborted, ids, 1);
}

/// A participant accepts the commit phase only from `Prepared` or `Initial`;
/// from `Aborted`, `Committed` or `Failed` it answers `InvalidState`, and
/// an unknown participant fails.
pub proof fn law_commit_step_states(ps: Map<Seq<char>, ParticipantState>, id: Seq<char>)
    ensures
        !ps.contains_key(id) ==> phase_step(Phase::Commit, ps, id) == Err::<Map<Seq<char>, ParticipantState>, TwoPCError>(TwoPCError::ParticipantFailed),
        ps.contains_key(id) && (ps[id] == ParticipantState::Aborted || ps[id] == ParticipantState::Committed
            || ps[id] == ParticipantState::Failed)
            ==> phase_step(Phase::Commit, ps, id) == Err::<Map<Seq<char>, ParticipantState>, TwoPCError>(TwoPCError::InvalidState),
        ps.contains_key(id) && (ps[id] == ParticipantState::Prepared || ps[id] == ParticipantState::Initial)
            ==> phase_step(Phase::Commit, ps, id) == Ok::<Map<Seq<char>, ParticipantState>, TwoPCError>(ps.insert(id, ParticipantState::Committed)),
{
}

/// States after a transaction begins: every registered participant named in
/// `ids` is reset to `Initial`.
pub open spec fn reset_states(ps: Map<Seq<char>, ParticipantState>, ids: Seq<Seq<char>>) -> Map<Seq<char>, ParticipantState> {
    Map::new(
        |k: Seq<char>| ps.contains_key(k),
        |k: Seq<char>| if ids.contains(k) { ParticipantState::Initial } else { ps[k] },
    )
}

/// States after a successful commit: every registered participant is committed.
pub open spec fn all_committed(ps: Map<Seq<char>, ParticipantState>) -> Map<Seq<char>, ParticipantState> {
    Map::new(|k: Seq<char>| ps.contains_key(k), |k: Seq<char>| ParticipantState::Committed)
}

/// Two transactions agree on everything but status and update time.
pub open spec fn same_but_status(a: TxView, b: TxView) -> bool {
    &&& a.id == b.id
    &&& a.participants == b.participants
    &&& a.operations == b.operations
    &&& a.created_at == b.created_at
}

/// The participant names of a transaction, as character sequences.
pub open spec fn participant_ids(tx: TxView) -> Seq<Seq<char>> {
    tx.participants
}

/// Two-phase commit coordinator.
pub struct TwoPhaseCommit {
    transactions: StrMap<TwoPCTransaction>,
    state: CoordinatorState,
    participants: StrMap<Participant>,
    config: TwoPCConfig,
}

impl TwoPhaseCommit {
    /// All transactions by id.
    pub closed spec fn spec_transactions(self) -> Map<Seq<char>, TxView> {
        self.transactions.spec_map().map_values(|t: TwoPCTransaction| t@)
    }

    /// All participants by id.
    pub closed spec fn spec_participants(self) -> Map<Seq<char>, Participant> {
        self.participants.spec_map()
    }

    /// The timeouts and retry limit the coordinator was made with.
    pub closed spec fn spec_config(self) -> TwoPCConfig {
        self.config
    }

    /// Participant states by id.
    pub open spec fn participant_states(self) -> Map<Seq<char>, ParticipantState> {
        self.spec_participants().map_values(|p: Participant| p.state)
    }

    /// Participant endpoints by id.
    pub open spec fn participant_endpoints(self) -> Map<Seq<char>, Seq<char>> {
        self.spec_participants().map_values(|p: Participant| p.endpoint@)
    }

    /// The well-formedness kept by every operation: a participant is stored
    /// under its own id.
    pub open spec fn wf(self) -> bool {
        forall|k: Seq<char>| #[trigger] self.spec_participants().contains_key(k) ==> self.spec_participants()[k].id@ == k
    }

    /// A coordinator with no participants and no transactions, keeping
    /// `config`.
    pub fn new(config: TwoPCConfig) -> (r: Self)
        ensures
            r.wf(),
            r.spec_config() == config,
            r.spec_transactions() == Map::<Seq<char>, TxView>::empty(),
            r.spec_participants() == Map::<Seq<char>, Participant>::empty(),
    {
        TwoPhaseCommit {
            transactions: StrMap::new(),
            state: CoordinatorState::Initial,
            participants: StrMap::new(),
            config,
        }
    }

    /// Registers (or re-registers) participant `id` at `endpoint`, in state
    /// `Initial` and with no answer recorded.
    pub fn register_participant(&mut self, id: &str, endpoint: &str)
        requires
            old(self).wf(),
        ensures
            final(self).wf(),
            final(self).spec_transactions() == old(self).spec_transactions(),
            final(self).spec_participants().dom() == old(self).spec_participants().dom().insert(id@),
            final(self).spec_participants()[id@].id@ == id@,
            final(self).spec_participants()[id@].endpoint@ == endpoint@,
            final(self).spec_participants()[id@].state == ParticipantState::Initial,
            final(self).spec_participants()[id@].last_response is None,
            forall|k: Seq<char>| k != id@ && #[trigger] old(self).spec_participants().contains_key(k)
                ==> final(self).spec_participants()[k] == old(self).spec_participants()[k],
    {
        let key = id.to_string();
        let pid = id.to_string();
        let ep = endpoint.to_string();
        proof {
            vstd::string::to_string_from_display_ensures_for_str(id, key);
            vstd::string::to_string_from_display_ensures_for_str(id, pid);
            vstd::string::to_string_from_display_ensures_for_str(endpoint, ep);
        }
        self.participants.insert(
            key,
            Participant { id: pid, endpoint: ep, state: ParticipantState::Initial, last_response: None },
        );
    }

    /// Sets the state of registered participant `id`, recording an answer at `now`.
    fn set_participant_state(&mut self, id: &str, state: ParticipantState, now: Option<u64>)
        requires
            old(self).wf(),
            old(self).spec_participants().contains_key(id@),
        ensures
            final(self).wf(),
            final(self).spec_transactions() == old(self).spec_transactions(),
            final(self).participant_states() == old(self).participant_states().insert(id@, state),
            final(self).participant_endpoints() == old(self).participant_endpoints(),
    {
        let (pid, ep, last) = match self.participants.get(id) {
            Some(p) => (p.id.clone(), p.endpoint.clone(), p.last_response),
            None => {
                assert(false);
                return;
            },
        };
        let last = match now {
            Some(t) => Some(t),
            None => last,
        };
        let key = pid.clone();
        let ghost old_ps = old(self).spec_participants();
        self.participants.insert(key, Participant { id: pid, endpoint: ep, state, last_response: last });
        proof {
            let new_ps = self.spec_participants();
            assert(new_ps.dom() =~= old_ps.dom());
            assert(self.participant_states() =~= old(self).participant_states().insert(id@, state));
            assert(self.participant_endpoints() =~= old(self).participant_endpoints());
        }
    }

    /// Sets the status of transaction `tid` and stamps its update time.
    fn set_status(&mut self, tid: &str, status: TransactionStatus)
        requires
            old(self).spec_transactions().contains_key(tid@),
        ensures
            final(self).spec_participants() == old(self).spec_participants(),
            final(self).spec_transactions().dom() == old(self).spec_transactions().dom(),
            final(self).spec_transactions()[tid@].status == status,
            same_but_status(final(self).spec_transactions()[tid@], old(self).spec_transactions()[tid@]),
            forall|k: Seq<char>| k != tid@ && #[trigger] old(self).spec_transactions().contains_key(k)
                ==> final(self).spec_transactions()[k] == old(self).spec_transactions()[k],
    {
        let mut tx = match self.transactions.get(tid) {
            Some(t) => t.clone_tx(),
            None => {
                assert(false);
                return;
            },
        };
        tx.status = status;
        tx.updated_at = get_timestamp_ms();
        let key = tid.to_string();
        proof {
            vstd::string::to_string_from_display_ensures_for_str(tid, key);
        }
        self.transactions.insert(key, tx);
        assert(self.spec_transactions().dom() =~= old(self).spec_transactions().dom());
    }

    /// Starts a transaction over `participant_ids`: stores it as `Pending`
    /// with no operations under a fresh id, resets the named registered
    /// participants to `Initial`, and returns the id.
    pub fn begin_transaction(&mut self, participant_ids: Vec<String>) -> (r: Result<String, TwoPCError>)
        requires
            old(self).wf(),
        ensures
            final(self).wf(),
            r is Ok,
            r matches Ok(id) ==> {
                &&& crate::ids::is_v4_uuid_text(id@)
                &&& final(self).spec_transactions() == old(self).spec_transactions().insert(id@, final(self).spec_transactions()[id@])
                &&& final(self).spec_transactions()[id@].id == id@
                &&& final(self).spec_transactions()[id@].participants == participant_ids@.map_values(|s: String| s@)
                &&& final(self).spec_transactions()[id@].status == TransactionStatus::Pending
                &&& final(self).spec_transactions()[id@].operations.len() == 0
                &&& final(self).participant_states() == reset_states(
                    old(self).participant_states(),
                    participant_ids@.map_values(|s: String| s@),
                )
                &&& final(self).participant_endpoints() == old(self).participant_endpoints()
            },
    {
        let transaction_id = crate::ids::new_uuid();
        let now = get_timestamp_ms();
        let tx = TwoPCTransaction {
            id: transaction_id.clone(),
            participants: clone_string_vec(&participant_ids),
            status: TransactionStatus::Pending,
            created_at: now,
            updated_at: now,
            operations: Vec::new(),
        };
        self.transactions.insert(transaction_id.clone(), tx);
        let ghost ids = participant_ids@.map_values(|s: String| s@);
        let ghost start = self.participant_states();
        let ghost start_ep = self.participant_endpoints();
        let mut i: usize = 0;
        while i < participant_ids.len()
            invariant
                self.wf(),
                i <= participant_ids@.len(),
                ids == participant_ids@.map_values(|s: String| s@),
                self.participant_states() == reset_states(start, ids.take(i as int)),
                self.participant_endpoints() == start_ep,
                self.spec_transactions() == old(self).spec_transactions().insert(transaction_id@, self.spec_transactions()[transaction_id@]),
                self.spec_transactions()[transaction_id@].id == transaction_id@,
                self.spec_transactions()[transaction_id@].participants == ids,
                self.spec_transactions()[transaction_id@].status == TransactionStatus::Pending,
                self.spec_transactions()[transaction_id@].operations.len() == 0,
            decreases participant_ids@.len() - i,
        {
            let pid = participant_ids[i].as_str();
            let ghost before = self.participant_states();
            if self.participants.contains_key(pid) {
                self.set_participant_state(pid, ParticipantState::Initial, None);
            }
            proof {
                assert(ids.take(i + 1) =~= ids.take(i as int).push(pid@));
                assert(ids[i as int] == pid@);
                assert forall|k: Seq<char>| start.contains_key(k) implies
                    (ids.take(i + 1).contains(k) <==> (ids.take(i as int).contains(k) || k == pid@)) by {
                    if ids.take(i as int).contains(k) {
                        let j = choose|j: int| 0 <= j < i && ids.take(i as int)[j] == k;
                        assert(ids.take(i + 1)[j] == k);
                    }
                    if k == pid@ {
                        assert(ids.take(i + 1)[i as int] == k);
                    }
                }
                assert(self.participant_states() =~= reset_states(start, ids.take(i + 1)));
            }
            i = i + 1;
        }
        proof {
            assert(ids.take(participant_ids@.len() as int) =~= ids);
        }
        Ok(transaction_id)
    }

    /// Appends `operation` to transaction `transaction_id`.
    pub fn add_operation(&mut self, transaction_id: &str, operation: Operation) -> (r: Result<(), TwoPCError>)
        ensures
            final(self).spec_participants() == old(self).spec_participants(),
            final(self).spec_transactions().dom() == old(self).spec_transactions().dom(),
            r is Ok <==> old(self).spec_transactions().contains_key(transaction_id@),
            r is Err ==> r == Err::<(), TwoPCError>(TwoPCError::TransactionNotFound)
                && final(self).spec_transactions() == old(self).spec_transactions(),
            r is Ok ==> {
                let o = old(self).spec_transactions()[transaction_id@];
                let n = final(self).spec_transactions()[transaction_id@];
                &&& n.operations == o.operations.push(operation@)
                &&& n.id == o.id
                &&& n.participants == o.participants
                &&& n.status == o.status
                &&& n.created_at == o.created_at
            },
            forall|k: Seq<char>| k != transaction_id@ && #[trigger] old(self).spec_transactions().contains_key(k)
                ==> final(self).spec_transactions()[k] == old(self).spec_transactions()[k],
    {
        let mut tx = match self.transactions.get(transaction_id) {
            Some(t) => t.clone_tx(),
            None => return Err(TwoPCError::TransactionNotFound),
        };
        tx.operations.push(operation);
        tx.updated_at = get_timestamp_ms();
        let key = transaction_id.to_string();
        proof {
            vstd::string::to_string_from_display_ensures_for_str(transaction_id, key);
        }
        self.transactions.insert(key, tx);
        assert(self.spec_transactions().dom() =~= old(self).spec_transactions().dom());
        Ok(())
    }

    /// Emulated prepare answer of one participant.
    fn simulate_prepare(&mut self, participant_id: &str) -> (r: Result<bool, TwoPCError>)
        requires
            old(self).wf(),
        ensures
            final(self).wf(),
            final(self).spec_transactions() == old(self).spec_transactions(),
            final(self).participant_endpoints() == old(self).participant_endpoints(),
            match phase_step(Phase::Prepare, old(self).participant_states(), participant_id@) {
                Ok(m) => r == Ok::<bool, TwoPCError>(true) && final(self).participant_states() == m,
                Err(e) => r == Err::<bool, TwoPCError>(e) && final(self).participant_states() == old(self).participant_states(),
            },
    {
        let st = match self.participants.get(participant_id) {
            Some(p) => p.state,
            None => return Err(TwoPCError::ParticipantFailed),
        };
        if st == ParticipantState::Failed {
            return Err(TwoPCError::ParticipantFailed);
        }
        let now = get_timestamp_ms();
        self.set_participant_state(participant_id, ParticipantState::Prepared, Some(now));
        Ok(true)
    }

    /// Emulated commit answer of one participant.
    fn simulate_commit(&mut self, participant_id: &str) -> (r: Result<bool, TwoPCError>)
        requires
            old(self).wf(),
        ensures
            final(self).wf(),
            final(self).spec_transactions() == old(self).spec_transactions(),
            final(self).participant_endpoints() == old(self).participant_endpoints(),
            match phase_step(Phase::Commit, old(self).participant_states(), participant_id@) {
                Ok(m) => r == Ok::<bool, TwoPCError>(true) && final(self).participant_states() == m,
                Err(e) => r == Err::<bool, TwoPCError>(e) && final(self).participant_states() == old(self).participant_states(),
            },
    {
        let st = match self.participants.get(participant_id) {
            Some(p) => p.state,
            None => return Err(TwoPCError::ParticipantFailed),
        };
        if st != ParticipantState::Prepared && st != ParticipantState::Initial {
            return Err(TwoPCError::InvalidState);
        }
        let now = get_timestamp_ms();
        self.set_participant_state(participant_id, ParticipantState::Committed, Some(now));
        Ok(true)
    }

    /// Emulated abort answer of one participant.
    fn simulate_abort(&mut self, participant_id: &str) -> (r: Result<(), TwoPCError>)
        requires
            old(self).wf(),
        ensures
            final(self).wf(),
            final(self).spec_transactions() == old(self).spec_transactions(),
            final(self).participant_endpoints() == old(self).participant_endpoints(),
            match phase_step(Phase::Abort, old(self).participant_states(), participant_id@) {
                Ok(m) => r == Ok::<(), TwoPCError>(()) && final(self).participant_states() == m,
                Err(e) => r == Err::<(), TwoPCError>(e) && final(self).participant_states() == old(self).participant_states(),
            },
    {
        let st = match self.participants.get(participant_id) {
            Some(p) => p.state,
            None => return Err(TwoPCError::ParticipantFailed),
        };
        if st == ParticipantState::Committed {
            return Err(TwoPCError::InvalidState);
        }
        let now = get_timestamp_ms();
        self.set_participant_state(participant_id, ParticipantState::Aborted, Some(now));
        Ok(())
    }

    /// The participant list of an existing transaction.
    fn tx_participants(&self, tid: &str) -> (r: Vec<String>)
        requires
            self.spec_transactions().contains_key(tid@),
        ensures
            r@.map_values(|s: String| s@) == self.spec_transactions()[tid@].participants,
    {
        match self.transactions.get(tid) {
            Some(t) => clone_string_vec(&t.participants),
            None => {
                assert(false);
                Vec::new()
            },
        }
    }

    /// Runs one phase over `ids` in order, stopping at the first failure.
    fn walk(&mut self, phase: Phase, ids: &Vec<String>) -> (r: Option<TwoPCError>)
        requires
            old(self).wf(),
        ensures
            final(self).wf(),
            final(self).spec_transactions() == old(self).spec_transactions(),
            final(self).participant_endpoints() == old(self).participant_endpoints(),
            run_phase(phase, old(self).participant_states(), ids@.map_values(|s: String| s@))
                == (final(self).participant_states(), r),
    {
        let ghost sids = ids@.map_values(|s: String| s@);
        let ghost start = self.participant_states();
        let mut i: usize = 0;
        while i < ids.len()
            invariant
                self.wf(),
                i <= ids@.len(),
                sids == ids@.map_values(|s: String| s@),
                start == old(self).participant_states(),
                self.spec_transactions() == old(self).spec_transactions(),
                self.participant_endpoints() == old(self).participant_endpoints(),
                run_phase(phase, start, sids.take(i as int)) == (self.participant_states(), None::<TwoPCError>),
            decreases ids@.len() - i,
        {
            let pid = ids[i].as_str();
            proof {
                assert(sids.take(i + 1).drop_last() =~= sids.take(i as int));
                assert(sids.take(i + 1).last() == pid@);
            }
            let res = match phase {
                Phase::Prepare => match self.simulate_prepare(pid) {
                    Ok(_) => None,
                    Err(e) => Some(e),
                },
                Phase::Commit => match self.simulate_commit(pid) {
                    Ok(_) => None,
                    Err(e) => Some(e),
                },
                Phase::Abort => match self.simulate_abort(pid) {
                    Ok(_) => None,
                    Err(e) => Some(e),
                },
            };
            if res.is_some() {
                proof {
                    assert(run_phase(phase, start, sids.take(i + 1)) == (self.participant_states(), res));
                    lemma_run_phase_stops(phase, start, sids, i + 1);
                }
                return res;
            }
            i = i + 1;
        }
        proof {
            assert(sids.take(ids@.len() as int) =~= sids);
        }
        None
    }

    /// Phase one: marks the transaction `Preparing`, asks each of its
    /// participants in order to prepare and, when all answer, marks it
    /// `Prepared` and returns `Ok(true)`. The first failing participant's
    /// error is returned, leaving the transaction `Preparing`.
    pub fn prepare(&mut self, transaction_id: &str) -> (r: Result<bool, TwoPCError>)
        requires
            old(self).wf(),
        ensures
            final(self).wf(),
            final(self).participant_endpoints() == old(self).participant_endpoints(),
            final(self).spec_transactions().dom() == old(self).spec_transactions().dom(),
            !old(self).spec_transactions().contains_key(transaction_id@) ==> r == Err::<bool, TwoPCError>(TwoPCError::TransactionNotFound)
                && final(self).spec_transactions() == old(self).spec_transactions()
                && final(self).spec_participants() == old(self).spec_participants(),
            old(self).spec_transactions().contains_key(transaction_id@) ==> {
                let o = old(self).spec_transactions()[transaction_id@];
                let n = final(self).spec_transactions()[transaction_id@];
                let (states, err) = run_phase(Phase::Prepare, old(self).participant_states(), participant_ids(o));
                &&& final(self).participant_states() == states
                &&& same_but_status(n, o)
                &&& match err {
                    None => r == Ok::<bool, TwoPCError>(true) && n.status == TransactionStatus::Prepared,
                    Some(e) => r == Err::<bool, TwoPCError>(e) && n.status == TransactionStatus::Preparing,
                }
            },
            forall|k: Seq<char>| k != transaction_id@ && #[trigger] old(self).spec_transactions().contains_key(k)
                ==> final(self).spec_transactions()[k] == old(self).spec_transactions()[k],
    {
        if !self.transactions.contains_key(transaction_id) {
            return Err(TwoPCError::TransactionNotFound);
        }
        self.set_status(transaction_id, TransactionStatus::Preparing);
        let parts = self.tx_participants(transaction_id);
        match self.walk(Phase::Prepare, &parts) {
            Some(e) => Err(e),
            None => {
                self.set_status(transaction_id, TransactionStatus::Prepared);
                Ok(true)
            },
        }
    }

    /// Marks every registered participant committed.
    fn commit_all_participants(&mut self)
        requires
            old(self).wf(),
        ensures
            final(self).wf(),
            final(self).spec_transactions() == old(self).spec_transactions(),
            final(self).participant_endpoints() == old(self).participant_endpoints(),
            final(self).participant_states() == all_committed(old(self).participant_states()),
    {
        let keys = self.participants.keys();
        let ghost ks = keys@.map_values(|s: String| s@);
        let ghost start = self.participant_states();
        let mut i: usize = 0;
        while i < keys.len()
            invariant
                self.wf(),
                i <= keys@.len(),
                ks == keys@.map_values(|s: String| s@),
                ks.to_set() == start.dom(),
                self.spec_transactions() == old(self).spec_transactions(),
                self.participant_endpoints() == old(self).participant_endpoints(),
                self.participant_states().dom() == start.dom(),
                forall|k: Seq<char>| #[trigger] start.contains_key(k) ==> self.participant_states()[k] == if ks.take(i as int).contains(k) {
                    ParticipantState::Committed
                } else {
                    start[k]
                },
            decreases keys@.len() - i,
        {
            let ghost before = self.participant_states();
            assert(ks.to_set().contains(ks[i as int]));
            self.set_participant_state(keys[i].as_str(), ParticipantState::Committed, None);
            proof {
                assert(ks.take(i + 1) =~= ks.take(i as int).push(ks[i as int]));
                assert(self.participant_states().dom() =~= start.dom());
                assert forall|k: Seq<char>| #[trigger] start.contains_key(k) implies
                    (ks.take(i + 1).contains(k) <==> (ks.take(i as int).contains(k) || k == ks[i as int])) by {
                    if ks.take(i as int).contains(k) {
                        let j = choose|j: int| 0 <= j < i && ks.take(i as int)[j] == k;
                        assert(ks.take(i + 1)[j] == k);
                    }
                    if k == ks[i as int] {
                        assert(ks.take(i + 1)[i as int] == k);
                    }
                }
            }
            i = i + 1;
        }
        proof {
            assert(ks.take(keys@.len() as int) =~= ks);
            assert forall|k: Seq<char>| #[trigger] start.contains_key(k) implies ks.contains(k) by {
                assert(ks.to_set().contains(k));
            }
            assert(self.participant_states() =~= all_committed(start));
        }
    }

    /// Phase two: marks the transaction `Committing` and asks each of its
    /// participants in order to commit. When all answer, the transaction is
    /// `Committed` and every registered participant is marked committed. The
    /// first failing participant's error is returned, leaving the transaction
    /// `Committing`.
    pub fn commit(&mut self, transaction_id: &str) -> (r: Result<(), TwoPCError>)
        requires
            old(self).wf(),
        ensures
            final(self).wf(),
            final(self).participant_endpoints() == old(self).participant_endpoints(),
            final(self).spec_transactions().dom() == old(self).spec_transactions().dom(),
            !old(self).spec_transactions().contains_key(transaction_id@) ==> r == Err::<(), TwoPCError>(TwoPCError::TransactionNotFound)
                && final(self).spec_transactions() == old(self).spec_transactions()
                && final(self).spec_participants() == old(self).spec_participants(),
            old(self).spec_transactions().contains_key(transaction_id@) ==> {
                let o = old(self).spec_transactions()[transaction_id@];
                let n = final(self).spec_transactions()[transaction_id@];
                let (states, err) = run_phase(Phase::Commit, old(self).participant_states(), participant_ids(o));
                &&& same_but_status(n, o)
                &&& match err {
                    None => r == Ok::<(), TwoPCError>(()) && n.status == TransactionStatus::Committed
                        && final(self).participant_states() == all_committed(states),
                    Some(e) => r == Err::<(), TwoPCError>(e) && n.status == TransactionStatus::Committing
                        && final(self).participant_states() == states,
                }
            },
            forall|k: Seq<char>| k != transaction_id@ && #[trigger] old(self).spec_transactions().contains_key(k)
                ==> final(self).spec_transactions()[k] == old(self).spec_transactions()[k],
    {
        if !self.transactions.contains_key(transaction_id) {
            return Err(TwoPCError::TransactionNotFound);
        }
        self.set_status(transaction_id, TransactionStatus::Committing);
        let parts = self.tx_participants(transaction_id);
        match self.walk(Phase::Commit, &parts) {
            Some(e) => Err(e),
            None => {
                self.set_status(transaction_id, TransactionStatus::Committed);
                self.commit_all_participants();
                Ok(())
            },
        }
    }

    /// Marks the transaction `Aborting`, asks each of its participants in
    /// order to abort and, when all answer, marks it `Aborted`. The first
    /// failing participant's error is returned, leaving it `Aborting`.
    pub fn abort_transaction(&mut self, transaction_id: &str) -> (r: Result<(), TwoPCError>)
        requires
            old(self).wf(),
        ensures
            final(self).wf(),
            final(self).participant_endpoints() == old(self).participant_endpoints(),
            final(self).spec_transactions().dom() == old(self).spec_transactions().dom(),
            !old(self).spec_transactions().contains_key(transaction_id@) ==> r == Err::<(), TwoPCError>(TwoPCError::TransactionNotFound)
                && final(self).spec_transactions() == old(self).spec_transactions()
                && final(self).spec_participants() == old(self).spec_participants(),
            old(self).spec_transactions().contains_key(transaction_id@) ==> {
                let o = old(self).spec_transactions()[transaction_id@];
                let n = final(self).spec_transactions()[transaction_id@];
                let (states, err) = run_phase(Phase::Abort, old(self).participant_states(), participant_ids(o));
                &&& final(self).participant_states() == states
                &&& same_but_status(n, o)
                &&& match err {
                    None => r == Ok::<(), TwoPCError>(()) && n.status == TransactionStatus::Aborted,
                    Some(e) => r == Err::<(), TwoPCError>(e) && n.status == TransactionStatus::Aborting,
                }
            },
            forall|k: Seq<char>| k != transaction_id@ && #[trigger] old(self).spec_transactions().contains_key(k)
                ==> final(self).spec_transactions()[k] == old(self).spec_transactions()[k],
    {
        if !self.transactions.contains_key(transaction_id) {
            return Err(TwoPCError::TransactionNotFound);
        }
        self.set_status(transaction_id, TransactionStatus::Aborting);
        let parts = self.tx_participants(transaction_id);
        match self.walk(Phase::Abort, &parts) {
            Some(e) => Err(e),
            None => {
                self.set_status(transaction_id, TransactionStatus::Aborted);
                Ok(())
            },
        }
    }

    /// Status of transaction `transaction_id`, if it exists.
    pub fn get_status(&self, transaction_id: &str) -> (r: Option<TransactionStatus>)
        ensures
            match r {
                Some(s) => self.spec_transactions().contains_key(transaction_id@)
                    && s == self.spec_transactions()[transaction_id@].status,
                None => !self.spec_transactions().contains_key(transaction_id@),
            },
    {
        match self.transactions.get(transaction_id) {
            Some(t) => Some(t.status),
            None => None,
        }
    }

    /// A copy of transaction `transaction_id`, if it exists.
    pub fn get_transaction(&self, transaction_id: &str) -> (r: Option<TwoPCTransaction>)
        ensures
            match r {
                Some(t) => self.spec_transactions().contains_key(transaction_id@)
                    && t@ == self.spec_transactions()[transaction_id@],
                None => !self.spec_transactions().contains_key(transaction_id@),
            },
    {
        match self.transactions.get(transaction_id) {
            Some(t) => Some(t.clone_tx()),
            None => None,
        }
    }

    /// State of participant `participant_id`, if registered.
    pub fn participant_state(&self, participant_id: &str) -> (r: Option<ParticipantState>)
        ensures
            match r {
                Some(s) => self.participant_states().contains_key(participant_id@)
                    && s == self.participant_states()[participant_id@],
                None => !self.participant_states().contains_key(participant_id@),
            },
    {
        match self.participants.get(participant_id) {
            Some(p) => Some(p.state),
            None => None,
        }
    }
}

} // verus!
