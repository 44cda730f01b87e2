//! The stored workload: programs, the log of their executions, and how both
//! are kept within bounds.

use vstd::prelude::*;

use crate::scheduler::identity;
use crate::scheduler::identity::decode_hash;
use crate::scheduler::planner::CorpusMaintenanceStats;
use crate::scheduler::records;
use crate::scheduler::records::{
    copy_bytes, copy_outcomes, same_bytes, OutcomeView, ProgramStatementOutcome,
};

verus! {

/// The version of canonical programs.
pub const CANONICAL_FORMAT_VERSION: u64 = 1;

/// How much of the workload is kept. The age is in microseconds.
#[derive(Clone, Copy, Debug, PartialEq, Eq, Structural)]
pub struct CorpusPolicy {
    pub max_executions: usize,
    pub max_bytes: usize,
    pub max_age: u64,
}

impl Default for CorpusPolicy {
    fn default() -> (policy: CorpusPolicy)
        ensures
            policy == (CorpusPolicy {
                max_executions: 10_000,
                max_bytes: 67_108_864,
                max_age: 604_800_000_000,
            }),
    {
        CorpusPolicy { max_executions: 10_000, max_bytes: 67_108_864, max_age: 604_800_000_000 }
    }
}

/// A stored program under its key. A key that cannot be read has no identity.
#[derive(Debug, PartialEq)]
pub struct ProgramEntry {
    pub identity: Option<(u64, Vec<u8>)>,
    pub bytes: Vec<u8>,
}

/// The value of a [`ProgramEntry`].
#[verifier::ext_equal]
pub struct ProgramEntryView {
    pub identity: Option<(u64, Seq<u8>)>,
    pub bytes: Seq<u8>,
}

pub open spec fn identity_view(identity: Option<(u64, Vec<u8>)>) -> Option<(u64, Seq<u8>)> {
    match identity {
        Some(identity) => Some((identity.0, identity.1@)),
        None => None,
    }
}

impl View for ProgramEntry {
    type V = ProgramEntryView;

    open spec fn view(&self) -> ProgramEntryView {
        ProgramEntryView { identity: identity_view(self.identity), bytes: self.bytes@ }
    }
}

pub open spec fn entry_views(programs: Seq<ProgramEntry>) -> Seq<ProgramEntryView> {
    Seq::new(programs.len(), |i: int| programs[i]@)
}

/// What is logged of an execution.
#[derive(Debug, PartialEq)]
pub struct StoredCorpusExecution {
    pub program: String,
    pub canonical_version: u64,
    pub statements: u32,
    pub outcomes: Vec<ProgramStatementOutcome>,
}

/// The value of a [`StoredCorpusExecution`].
#[verifier::ext_equal]
pub struct LoggedView {
    pub program: Seq<char>,
    pub canonical_version: u64,
    pub statements: u32,
    pub outcomes: Seq<OutcomeView>,
}

impl View for StoredCorpusExecution {
    type V = LoggedView;

    open spec fn view(&self) -> LoggedView {
        LoggedView {
            program: self.program@,
            canonical_version: self.canonical_version,
            statements: self.statements,
            outcomes: records::outcome_views(self.outcomes@),
        }
    }
}

/// A log entry under its key. A key or an entry that cannot be read is none.
#[derive(Debug, PartialEq)]
pub struct ExecutionEntry {
    pub at: Option<u64>,
    pub sequence: u64,
    pub stored: Option<StoredCorpusExecution>,
}

/// The value of an [`ExecutionEntry`].
#[verifier::ext_equal]
pub struct ExecutionView {
    pub at: Option<u64>,
    pub sequence: u64,
    pub stored: Option<LoggedView>,
}

impl View for ExecutionEntry {
    type V = ExecutionView;

    open spec fn view(&self) -> ExecutionView {
        ExecutionView {
            at: self.at,
            sequence: self.sequence,
            stored: match self.stored {
                Some(stored) => Some(stored@),
                None => None,
            },
        }
    }
}

pub open spec fn execution_views(executions: Seq<ExecutionEntry>) -> Seq<ExecutionView> {
    Seq::new(executions.len(), |i: int| executions[i]@)
}

/// What became of the workload in one pass.
#[derive(Clone, Copy, Debug, PartialEq, Eq, Structural)]
pub struct CorpusRetention {
    pub expired_executions: u64,
    pub pruned_executions: u64,
    pub invalid_executions: u64,
    pub pruned_programs: u64,
    pub invalid_programs: u64,
    pub retained_executions: u64,
    pub retained_programs: u64,
    pub retained_program_bytes: u64,
}

pub open spec fn no_retention() -> CorpusRetention {
    CorpusRetention {
        expired_executions: 0,
        pruned_executions: 0,
        invalid_executions: 0,
        pruned_programs: 0,
        invalid_programs: 0,
        retained_executions: 0,
        retained_programs: 0,
        retained_program_bytes: 0,
    }
}

// ---- programs by identity ----

/// Where a program is stored, from a place on; the end where it is not.
pub open spec fn program_place(
    programs: Seq<ProgramEntryView>,
    identity: (u64, Seq<u8>),
    from: nat,
) -> nat
    decreases programs.len() - from,
{
    if from < programs.len() && programs[from as int].identity != Some(identity) {
        program_place(programs, identity, from + 1)
    } else {
        from
    }
}

/// Whether a program is stored.
pub open spec fn has_program(programs: Seq<ProgramEntryView>, identity: (u64, Seq<u8>)) -> bool {
    program_place(programs, identity, 0) < programs.len()
}

/// How large a stored program is.
pub open spec fn program_size(programs: Seq<ProgramEntryView>, identity: (u64, Seq<u8>)) -> nat {
    programs[program_place(programs, identity, 0) as int].bytes.len()
}

fn is_program(entry: &ProgramEntry, version: u64, hash: &Vec<u8>) -> (is: bool)
    ensures
        is == (entry@.identity == Some((version, hash@))),
{
    match &entry.identity {
        Some(identity) => identity.0 == version && same_bytes(&identity.1, hash),
        None => false,
    }
}

pub fn find_program(programs: &Vec<ProgramEntry>, version: u64, hash: &Vec<u8>) -> (place: usize)
    ensures
        place == program_place(entry_views(programs@), (version, hash@), 0),
        place <= programs.len(),
        place < programs.len() ==> programs@[place as int]@.identity == Some((version, hash@)),
{
    let ghost all = entry_views(programs@);
    let mut i: usize = 0;
    while i < programs.len() && !is_program(&programs[i], version, hash)
        invariant
            i <= programs.len(),
            all == entry_views(programs@),
            program_place(all, (version, hash@), 0) == program_place(
                all,
                (version, hash@),
                i as nat,
            ),
        decreases programs.len() - i,
    {
        assert(all[i as int] == programs@[i as int]@);
        i += 1;
    }
    if i < programs.len() {
        assert(all[i as int] == programs@[i as int]@);
    }
    i
}

// ---- retention ----

/// What is to become of a log entry.
pub enum Verdict {
    Candidate((u64, Seq<u8>)),
    Expired,
    Invalid,
}

/// What is to become of a log entry: one that is too old expires, and one whose
/// program is not stored is invalid.
pub open spec fn judged(
    programs: Seq<ProgramEntryView>,
    execution: ExecutionView,
    cutoff: u64,
) -> Verdict {
    match execution.at {
        Some(at) => if at < cutoff {
            Verdict::Expired
        } else {
            match execution.stored {
                Some(stored) => match identity::unhex(stored.program) {
                    Some(hash) => if has_program(programs, (stored.canonical_version, hash)) {
                        Verdict::Candidate((stored.canonical_version, hash))
                    } else {
                        Verdict::Invalid
                    },
                    None => Verdict::Invalid,
                },
                None => Verdict::Invalid,
            }
        },
        None => Verdict::Invalid,
    }
}

/// How many of the first log entries could be kept.
pub open spec fn candidates(
    programs: Seq<ProgramEntryView>,
    executions: Seq<ExecutionView>,
    cutoff: u64,
    length: nat,
) -> nat
    decreases length,
{
    if length == 0 {
        0
    } else {
        candidates(programs, executions, cutoff, (length - 1) as nat) + (if judged(
            programs,
            executions[length - 1],
            cutoff,
        ) is Candidate {
            1nat
        } else {
            0nat
        })
    }
}

/// What is known in the first pass: how many more have to leave, which stay,
/// and the report.
#[verifier::ext_equal]
pub struct FirstPass {
    pub surplus: nat,
    pub kept: Seq<int>,
    pub report: CorpusRetention,
}

/// The first pass over the first log entries: the oldest candidates leave where
/// there are too many, and so does what expired or is invalid.
pub open spec fn first_pass(
    programs: Seq<ProgramEntryView>,
    executions: Seq<ExecutionView>,
    cutoff: u64,
    surplus: nat,
    length: nat,
) -> FirstPass
    decreases length,
{
    if length == 0 {
        FirstPass { surplus, kept: Seq::empty(), report: no_retention() }
    } else {
        let before = first_pass(programs, executions, cutoff, surplus, (length - 1) as nat);
        let report = before.report;
        match judged(programs, executions[length - 1], cutoff) {
            Verdict::Candidate(_) => if before.surplus == 0 {
                FirstPass { kept: before.kept.push(length - 1), ..before }
            } else {
                FirstPass {
                    surplus: (before.surplus - 1) as nat,
                    report: CorpusRetention {
                        pruned_executions: report.pruned_executions.saturating_add(1),
                        ..report
                    },
                    ..before
                }
            },
            Verdict::Expired => FirstPass {
                report: CorpusRetention {
                    expired_executions: report.expired_executions.saturating_add(1),
                    ..report
                },
                ..before
            },
            Verdict::Invalid => FirstPass {
                report: CorpusRetention {
                    invalid_executions: report.invalid_executions.saturating_add(1),
                    ..report
                },
                ..before
            },
        }
    }
}

/// What is known in the second pass: which programs stay, how large they are,
/// which entries stay, and the report.
#[verifier::ext_equal]
pub struct SecondPass {
    pub programs: Seq<(u64, Seq<u8>)>,
    pub bytes: nat,
    pub kept: Seq<int>,
    pub report: CorpusRetention,
}

/// The program of a log entry that could be kept.
pub open spec fn program_of(
    programs: Seq<ProgramEntryView>,
    execution: ExecutionView,
    cutoff: u64,
) -> (u64, Seq<u8>) {
    judged(programs, execution, cutoff)->Candidate_0
}

/// The second pass over log entries from the newest back: programs stay while
/// there is room for their bytes.
pub open spec fn second_pass(
    programs: Seq<ProgramEntryView>,
    executions: Seq<ExecutionView>,
    cutoff: u64,
    max_bytes: nat,
    start: SecondPass,
    entries: Seq<int>,
) -> SecondPass
    decreases entries.len(),
{
    if entries.len() == 0 {
        start
    } else {
        let entry = entries.last();
        let program = program_of(programs, executions[entry], cutoff);
        let size = program_size(programs, program);
        let report = start.report;
        let next = if start.programs.contains(program) {
            SecondPass {
                kept: seq![entry] + start.kept,
                report: CorpusRetention {
                    retained_executions: report.retained_executions.saturating_add(1),
                    ..report
                },
                ..start
            }
        } else if start.bytes + size > max_bytes {
            SecondPass {
                report: CorpusRetention {
                    pruned_executions: report.pruned_executions.saturating_add(1),
                    ..report
                },
                ..start
            }
        } else {
            SecondPass {
                programs: start.programs.push(program),
                bytes: start.bytes + size,
                kept: seq![entry] + start.kept,
                report: CorpusRetention {
                    retained_executions: report.retained_executions.saturating_add(1),
                    ..report
                },
            }
        };
        second_pass(programs, executions, cutoff, max_bytes, next, entries.drop_last())
    }
}

/// What is known in the third pass: which programs stay, which of them are
/// found by their hash alone, and the report.
#[verifier::ext_equal]
pub struct ThirdPass {
    pub kept: Seq<ProgramEntryView>,
    pub hashes: Seq<u128>,
    pub report: CorpusRetention,
}

/// The third pass over the first stored programs: what no entry needs leaves.
pub open spec fn third_pass(
    programs: Seq<ProgramEntryView>,
    retained: Seq<(u64, Seq<u8>)>,
    report: CorpusRetention,
    length: nat,
) -> ThirdPass
    decreases length,
{
    if length == 0 {
        ThirdPass { kept: Seq::empty(), hashes: Seq::empty(), report }
    } else {
        let before = third_pass(programs, retained, report, (length - 1) as nat);
        let entry = programs[length - 1];
        let known = before.report;
        match entry.identity {
            None => ThirdPass {
                report: CorpusRetention {
                    invalid_programs: known.invalid_programs.saturating_add(1),
                    ..known
                },
                ..before
            },
            Some(identity) => if !retained.contains(identity) {
                ThirdPass {
                    report: CorpusRetention {
                        pruned_programs: known.pruned_programs.saturating_add(1),
                        ..known
                    },
                    ..before
                }
            } else {
                ThirdPass {
                    kept: before.kept.push(entry),
                    hashes: if identity.0 == CANONICAL_FORMAT_VERSION && identity.1.len() == 16 {
                        before.hashes.push(identity::number(identity.1) as u128)
                    } else {
                        before.hashes
                    },
                    report: CorpusRetention {
                        retained_programs: known.retained_programs.saturating_add(1),
                        retained_program_bytes: known.retained_program_bytes.saturating_add(
                            entry.bytes.len() as u64,
                        ),
                        ..known
                    },
                }
            },
        }
    }
}

/// The stored workload after a pass.
#[verifier::ext_equal]
pub struct Retained {
    pub programs: Seq<ProgramEntryView>,
    pub executions: Seq<ExecutionView>,
    pub hashes: Seq<u128>,
    pub report: CorpusRetention,
}

/// What is kept of a run of things.
pub open spec fn chosen<A>(items: Seq<A>, kept: Seq<int>) -> Seq<A> {
    Seq::new(kept.len(), |i: int| items[kept[i]])
}

/// The time before which executions expire.
pub open spec fn cutoff_of(now: u64, policy: CorpusPolicy) -> u64 {
    now.saturating_sub(policy.max_age)
}

/// Both passes over the log.
pub open spec fn log_passes(
    programs: Seq<ProgramEntryView>,
    executions: Seq<ExecutionView>,
    now: u64,
    policy: CorpusPolicy,
) -> SecondPass {
    let cutoff = cutoff_of(now, policy);
    let valid = candidates(programs, executions, cutoff, executions.len());
    let surplus = if valid > policy.max_executions {
        (valid - policy.max_executions) as nat
    } else {
        0
    };
    let first = first_pass(programs, executions, cutoff, surplus, executions.len());
    second_pass(
        programs,
        executions,
        cutoff,
        policy.max_bytes as nat,
        SecondPass {
            programs: Seq::empty(),
            bytes: 0,
            kept: Seq::empty(),
            report: first.report,
        },
        first.kept,
    )
}

/// The stored workload within bounds.
pub open spec fn retained(
    programs: Seq<ProgramEntryView>,
    executions: Seq<ExecutionView>,
    now: u64,
    policy: CorpusPolicy,
) -> Retained {
    let second = log_passes(programs, executions, now, policy);
    let third = third_pass(programs, second.programs, second.report, programs.len());
    Retained {
        programs: third.kept,
        executions: chosen(executions, second.kept),
        hashes: third.hashes,
        report: third.report,
    }
}

/// What is to become of a log entry, in exec code. A candidate names where its
/// program is stored.
enum Judgement {
    Candidate(usize),
    Expired,
    Invalid,
}

fn judge(programs: &Vec<ProgramEntry>, execution: &ExecutionEntry, cutoff: u64) -> (judgement:
    Judgement)
    ensures
        match judgement {
            Judgement::Candidate(place) => place < programs.len() && (judged(
                entry_views(programs@),
                execution@,
                cutoff,
            ) matches Verdict::Candidate(identity) && programs@[place as int]@.identity == Some(
                identity,
            ) && place == program_place(entry_views(programs@), identity, 0)),
            Judgement::Expired => judged(entry_views(programs@), execution@, cutoff) is Expired,
            Judgement::Invalid => judged(entry_views(programs@), execution@, cutoff) is Invalid,
        },
{
    let at: u64 = match execution.at {
        Some(at) => at,
        None => {
            return Judgement::Invalid;
        },
    };
    if at < cutoff {
        return Judgement::Expired;
    }
    match &execution.stored {
        Some(stored) => match decode_hash(stored.program.as_str()) {
            Some(hash) => {
                let place: usize = find_program(programs, stored.canonical_version, &hash);
                if place < programs.len() {
                    Judgement::Candidate(place)
                } else {
                    Judgement::Invalid
                }
            },
            None => Judgement::Invalid,
        },
        None => Judgement::Invalid,
    }
}

fn holds_identity(identities: &Vec<(u64, Vec<u8>)>, version: u64, hash: &Vec<u8>) -> (found: bool)
    ensures
        found == identity_views(identities@).contains((version, hash@)),
{
    let ghost all = identity_views(identities@);
    let mut i: usize = 0;
    while i < identities.len()
        invariant
            i <= identities.len(),
            all == identity_views(identities@),
            forall|k: int| 0 <= k < i ==> #[trigger] all[k] != (version, hash@),
        decreases identities.len() - i,
    {
        assert(all[i as int] == (identities@[i as int].0, identities@[i as int].1@));
        if identities[i].0 == version && same_bytes(&identities[i].1, hash) {
            assert(all[i as int] == (version, hash@));
            return true;
        }
        i += 1;
    }
    false
}

pub open spec fn identity_views(identities: Seq<(u64, Vec<u8>)>) -> Seq<(u64, Seq<u8>)> {
    Seq::new(identities.len(), |i: int| (identities[i].0, identities[i].1@))
}

/// The number that the last bytes give, most significant first.
pub fn hash_number(bytes: &Vec<u8>) -> (value: u128)
    requires
        bytes.len() == 16,
    ensures
        value == identity::number(bytes@),
{
    let mut value: u128 = 0;
    let mut i: usize = 0;
    assert(bytes@.take(0) =~= Seq::empty());
    assert(identity::bound(0) == 1);
    while i < bytes.len()
        invariant
            i <= bytes.len(),
            bytes.len() == 16,
            value == identity::number(bytes@.take(i as int)),
            value < identity::bound(i as nat),
        decreases bytes.len() - i,
    {
        proof {
            assert(bytes@.take(i + 1).drop_last() =~= bytes@.take(i as int));
            lemma_bounds_grow((i + 1) as nat, 16);
            lemma_bound();
            assert(identity::bound((i + 1) as nat) == 256 * identity::bound(i as nat));
            assert(value * 256 + 256 <= identity::bound((i + 1) as nat));
        }
        value = value * 256 + bytes[i] as u128;
        i += 1;
    }
    assert(bytes@.take(i as int) =~= bytes@);
    value
}

proof fn lemma_bounds_grow(low: nat, high: nat)
    requires
        low <= high,
    ensures
        identity::bound(low) <= identity::bound(high),
    decreases high,
{
    if low < high {
        lemma_bounds_grow(low, (high - 1) as nat);
    }
}

proof fn lemma_bound()
    ensures
        identity::bound(16) == 0x1_0000_0000_0000_0000_0000_0000_0000_0000,
{
    reveal_with_fuel(identity::bound, 17);
}

fn run_first_pass(
    programs: &Vec<ProgramEntry>,
    executions: &Vec<ExecutionEntry>,
    cutoff: u64,
    max_executions: usize,
) -> (result: (Vec<usize>, Vec<usize>, CorpusRetention))
    ensures
        ({
            let (stored, logged) = (entry_views(programs@), execution_views(executions@));
            let valid = candidates(stored, logged, cutoff, logged.len());
            let surplus = if valid > max_executions {
                (valid - max_executions) as nat
            } else {
                0
            };
            let expected = first_pass(stored, logged, cutoff, surplus, logged.len());
            &&& indices(result.0@) == expected.kept
            &&& result.2 == expected.report
            &&& result.1.len() == result.0.len()
            &&& forall|i: int|
                0 <= i < result.0.len() ==> result.0@[i] < executions.len() && (
                #[trigger] result.1@[i]) < programs.len() && stored[result.1@[i] as int].identity
                    == Some(program_of(stored, logged[result.0@[i] as int], cutoff))
                    && result.1@[i] == program_place(
                    stored,
                    program_of(stored, logged[result.0@[i] as int], cutoff),
                    0,
                )
        }),
{
    let ghost stored = entry_views(programs@);
    let ghost logged = execution_views(executions@);
    let mut valid: usize = 0;
    let mut i: usize = 0;
    while i < executions.len()
        invariant
            i <= executions.len(),
            valid <= i,
            stored == entry_views(programs@),
            logged == execution_views(executions@),
            valid == candidates(stored, logged, cutoff, i as nat),
        decreases executions.len() - i,
    {
        assert(logged[i as int] == executions@[i as int]@);
        if let Judgement::Candidate(_) = judge(programs, &executions[i], cutoff) {
            valid += 1;
        }
        i += 1;
    }
    let ghost surplus = if valid > max_executions {
        (valid - max_executions) as nat
    } else {
        0
    };
    let mut left: usize = valid.saturating_sub(max_executions);
    let mut kept: Vec<usize> = Vec::new();
    let mut places: Vec<usize> = Vec::new();
    let mut report = CorpusRetention {
        expired_executions: 0,
        pruned_executions: 0,
        invalid_executions: 0,
        pruned_programs: 0,
        invalid_programs: 0,
        retained_executions: 0,
        retained_programs: 0,
        retained_program_bytes: 0,
    };
    let mut k: usize = 0;
    assert(indices(kept@) =~= Seq::empty());
    while k < executions.len()
        invariant
            k <= executions.len(),
            stored == entry_views(programs@),
            logged == execution_views(executions@),
            first_pass(stored, logged, cutoff, surplus, k as nat) == (FirstPass {
                surplus: left as nat,
                kept: indices(kept@),
                report,
            }),
            places.len() == kept.len(),
            forall|i: int|
                0 <= i < kept.len() ==> kept@[i] < executions.len() && (#[trigger] places@[i])
                    < programs.len() && stored[places@[i] as int].identity == Some(
                    program_of(stored, logged[kept@[i] as int], cutoff),
                ) && places@[i] == program_place(
                    stored,
                    program_of(stored, logged[kept@[i] as int], cutoff),
                    0,
                ),
        decreases executions.len() - k,
    {
        let ghost before = indices(kept@);
        assert(logged[k as int] == executions@[k as int]@);
        match judge(programs, &executions[k], cutoff) {
            Judgement::Candidate(place) => {
                if left == 0 {
                    assert(stored[place as int] == programs@[place as int]@);
                    kept.push(k);
                    places.push(place);
                    assert(indices(kept@) =~= before.push(k as int));
                } else {
                    left -= 1;
                    report.pruned_executions = report.pruned_executions.saturating_add(1);
                }
            },
            Judgement::Expired => {
                report.expired_executions = report.expired_executions.saturating_add(1);
            },
            Judgement::Invalid => {
                report.invalid_executions = report.invalid_executions.saturating_add(1);
            },
        }
        k += 1;
    }
    (kept, places, report)
}

pub open spec fn indices(values: Seq<usize>) -> Seq<int> {
    Seq::new(values.len(), |i: int| values[i] as int)
}

fn run_second_pass(
    programs: &Vec<ProgramEntry>,
    executions: &Vec<ExecutionEntry>,
    cutoff: u64,
    max_bytes: usize,
    entries: &Vec<usize>,
    places: &Vec<usize>,
    first: CorpusRetention,
) -> (result: (Vec<(u64, Vec<u8>)>, Vec<usize>, CorpusRetention))
    requires
        places.len() == entries.len(),
        forall|i: int|
            0 <= i < entries.len() ==> entries@[i] < executions.len() && (#[trigger] places@[i])
                < programs.len() && entry_views(programs@)[places@[i] as int].identity == Some(
                program_of(
                    entry_views(programs@),
                    execution_views(executions@)[entries@[i] as int],
                    cutoff,
                ),
            ) && places@[i] == program_place(
                entry_views(programs@),
                program_of(
                    entry_views(programs@),
                    execution_views(executions@)[entries@[i] as int],
                    cutoff,
                ),
                0,
            ),
    ensures
        ({
            let expected = second_pass(
                entry_views(programs@),
                execution_views(executions@),
                cutoff,
                max_bytes as nat,
                SecondPass {
                    programs: Seq::empty(),
                    bytes: 0,
                    kept: Seq::empty(),
                    report: first,
                },
                indices(entries@),
            );
            &&& identity_views(result.0@) == expected.programs
            &&& indices(result.1@) == expected.kept
            &&& result.2 == expected.report
        }),
        forall|i: int| 0 <= i < result.1.len() ==> (#[trigger] result.1@[i]) < executions.len(),
{
    let ghost stored = entry_views(programs@);
    let ghost logged = execution_views(executions@);
    let ghost all = indices(entries@);
    let ghost start = SecondPass {
        programs: Seq::empty(),
        bytes: 0,
        kept: Seq::empty(),
        report: first,
    };
    let mut retained: Vec<(u64, Vec<u8>)> = Vec::new();
    let mut bytes: usize = 0;
    let mut kept: Vec<usize> = Vec::new();
    let mut report = first;
    let mut left: usize = entries.len();
    assert(all.take(left as int) =~= all);
    assert(identity_views(retained@) =~= Seq::empty());
    assert(indices(kept@) =~= Seq::empty());
    while left > 0
        invariant
            left <= entries.len(),
            stored == entry_views(programs@),
            logged == execution_views(executions@),
            all == indices(entries@),
            places.len() == entries.len(),
            bytes <= max_bytes,
            second_pass(stored, logged, cutoff, max_bytes as nat, start, all) == second_pass(
                stored,
                logged,
                cutoff,
                max_bytes as nat,
                SecondPass {
                    programs: identity_views(retained@),
                    bytes: bytes as nat,
                    kept: indices(kept@),
                    report,
                },
                all.take(left as int),
            ),
            forall|i: int|
                0 <= i < entries.len() ==> entries@[i] < executions.len() && (
                #[trigger] places@[i]) < programs.len() && stored[places@[i] as int].identity
                    == Some(program_of(stored, logged[entries@[i] as int], cutoff)) && places@[i]
                    == program_place(
                    stored,
                    program_of(stored, logged[entries@[i] as int], cutoff),
                    0,
                ),
            forall|i: int| 0 <= i < kept.len() ==> (#[trigger] kept@[i]) < executions.len(),
        decreases left,
    {
        let ghost some = all.take(left as int);
        let ghost before_kept = indices(kept@);
        let ghost before_retained = identity_views(retained@);
        proof {
            assert(some.drop_last() =~= all.take(left - 1));
            assert(some.last() == entries@[left - 1]);
        }
        left -= 1;
        let entry: usize = entries[left];
        let place: usize = places[left];
        assert(stored[place as int] == programs@[place as int]@);
        if let Some(identity) = &programs[place].identity {
            if holds_identity(&retained, identity.0, &identity.1) {
                kept.insert(0, entry);
                report.retained_executions = report.retained_executions.saturating_add(1);
                assert(indices(kept@) =~= seq![entry as int] + before_kept);
            } else if programs[place].bytes.len() > max_bytes - bytes {
                report.pruned_executions = report.pruned_executions.saturating_add(1);
            } else {
                bytes = bytes + programs[place].bytes.len();
                retained.push((identity.0, copy_bytes(&identity.1)));
                kept.insert(0, entry);
                report.retained_executions = report.retained_executions.saturating_add(1);
                assert(indices(kept@) =~= seq![entry as int] + before_kept);
                assert(identity_views(retained@) =~= before_retained.push(
                    (identity.0, identity.1@),
                ));
            }
        }
    }
    assert(all.take(0) =~= Seq::empty());
    (retained, kept, report)
}

fn run_third_pass(
    programs: &Vec<ProgramEntry>,
    retained: &Vec<(u64, Vec<u8>)>,
    second: CorpusRetention,
) -> (result: (Vec<ProgramEntry>, Vec<u128>, CorpusRetention))
    ensures
        ({
            let expected = third_pass(
                entry_views(programs@),
                identity_views(retained@),
                second,
                programs@.len(),
            );
            &&& entry_views(result.0@) == expected.kept
            &&& result.1@ == expected.hashes
            &&& result.2 == expected.report
        }),
{
    let ghost stored = entry_views(programs@);
    let ghost needed = identity_views(retained@);
    let mut kept: Vec<ProgramEntry> = Vec::new();
    let mut hashes: Vec<u128> = Vec::new();
    let mut report = second;
    let mut i: usize = 0;
    assert(entry_views(kept@) =~= Seq::empty());
    while i < programs.len()
        invariant
            i <= programs.len(),
            stored == entry_views(programs@),
            needed == identity_views(retained@),
            third_pass(stored, needed, second, i as nat) == (ThirdPass {
                kept: entry_views(kept@),
                hashes: hashes@,
                report,
            }),
        decreases programs.len() - i,
    {
        let ghost before = entry_views(kept@);
        assert(stored[i as int] == programs@[i as int]@);
        match &programs[i].identity {
            None => {
                report.invalid_programs = report.invalid_programs.saturating_add(1);
            },
            Some(identity) => if !holds_identity(retained, identity.0, &identity.1) {
                report.pruned_programs = report.pruned_programs.saturating_add(1);
            } else {
                report.retained_programs = report.retained_programs.saturating_add(1);
                report.retained_program_bytes = report.retained_program_bytes.saturating_add(
                    programs[i].bytes.len() as u64,
                );
                if identity.0 == CANONICAL_FORMAT_VERSION && identity.1.len() == 16 {
                    hashes.push(hash_number(&identity.1));
                }
                let entry = ProgramEntry {
                    identity: Some((identity.0, copy_bytes(&identity.1))),
                    bytes: copy_bytes(&programs[i].bytes),
                };
                assert(entry@ == stored[i as int]);
                kept.push(entry);
                assert(entry_views(kept@) =~= before.push(stored[i as int]));
            },
        }
        i += 1;
    }
    (kept, hashes, report)
}

impl ExecutionEntry {
    /// A copy of a log entry.
    pub fn copy(&self) -> (entry: ExecutionEntry)
        ensures
            entry@ == self@,
    {
        ExecutionEntry {
            at: self.at,
            sequence: self.sequence,
            stored: match &self.stored {
                Some(stored) => Some(
                    StoredCorpusExecution {
                        program: stored.program.clone(),
                        canonical_version: stored.canonical_version,
                        statements: stored.statements,
                        outcomes: copy_outcomes(&stored.outcomes),
                    },
                ),
                None => None,
            },
        }
    }
}

/// Brings the stored workload within bounds: programs, log, the hashes of the
/// programs that stay, and what became of the rest.
pub fn retain_corpus(
    programs: &Vec<ProgramEntry>,
    executions: &Vec<ExecutionEntry>,
    now: u64,
    policy: CorpusPolicy,
) -> (result: (Vec<ProgramEntry>, Vec<ExecutionEntry>, Vec<u128>, CorpusRetention))
    ensures
        (Retained {
            programs: entry_views(result.0@),
            executions: execution_views(result.1@),
            hashes: result.2@,
            report: result.3,
        }) == retained(entry_views(programs@), execution_views(executions@), now, policy),
{
    let ghost logged = execution_views(executions@);
    let cutoff: u64 = now.saturating_sub(policy.max_age);
    let (entries, places, first) = run_first_pass(
        programs,
        executions,
        cutoff,
        policy.max_executions,
    );
    let (needed, kept, second) = run_second_pass(
        programs,
        executions,
        cutoff,
        policy.max_bytes,
        &entries,
        &places,
        first,
    );
    let (stored, hashes, report) = run_third_pass(programs, &needed, second);
    let mut log: Vec<ExecutionEntry> = Vec::new();
    let mut i: usize = 0;
    while i < kept.len()
        invariant
            i <= kept.len(),
            logged == execution_views(executions@),
            log.len() == i,
            forall|k: int| 0 <= k < kept.len() ==> (#[trigger] kept@[k]) < executions.len(),
            forall|k: int|
                0 <= k < i ==> (#[trigger] log@[k])@ == logged[kept@[k] as int],
        decreases kept.len() - i,
    {
        assert(logged[kept@[i as int] as int] == executions@[kept@[i as int] as int]@);
        log.push(executions[kept[i]].copy());
        i += 1;
    }
    assert(execution_views(log@) =~= chosen(logged, indices(kept@)));
    (stored, log, hashes, report)
}

/// What was erased of the workload.
#[derive(Clone, Copy, Debug, PartialEq, Eq, Structural)]
pub struct CorpusErasure {
    pub executions: u64,
    pub programs: u64,
}

impl CorpusErasure {
    /// How much was erased.
    pub fn total(self) -> (total: u64)
        ensures
            total == self.executions.saturating_add(self.programs),
    {
        self.executions.saturating_add(self.programs)
    }
}

/// The report on the workload after a pass.
pub open spec fn retention_reported(
    report: Option<CorpusMaintenanceStats>,
    retention: CorpusRetention,
) -> CorpusMaintenanceStats {
    let known = known_report(report);
    CorpusMaintenanceStats {
        expired_executions: known.expired_executions.saturating_add(retention.expired_executions),
        pruned_executions: known.pruned_executions.saturating_add(retention.pruned_executions),
        invalid_executions: known.invalid_executions.saturating_add(retention.invalid_executions),
        pruned_programs: known.pruned_programs.saturating_add(retention.pruned_programs),
        invalid_programs: known.invalid_programs.saturating_add(retention.invalid_programs),
        retained_executions: retention.retained_executions,
        retained_programs: retention.retained_programs,
        retained_program_bytes: retention.retained_program_bytes,
        erased_executions: known.erased_executions,
        erased_programs: known.erased_programs,
    }
}

/// The report so far, empty where there is none.
pub open spec fn known_report(report: Option<CorpusMaintenanceStats>) -> CorpusMaintenanceStats {
    match report {
        Some(report) => report,
        None => CorpusMaintenanceStats {
            expired_executions: 0,
            pruned_executions: 0,
            invalid_executions: 0,
            pruned_programs: 0,
            invalid_programs: 0,
            retained_executions: 0,
            retained_programs: 0,
            retained_program_bytes: 0,
            erased_executions: 0,
            erased_programs: 0,
        },
    }
}

/// The report on the workload after it was erased.
pub open spec fn erasure_reported(
    report: Option<CorpusMaintenanceStats>,
    erasure: CorpusErasure,
) -> CorpusMaintenanceStats {
    let known = known_report(report);
    CorpusMaintenanceStats {
        erased_executions: known.erased_executions.saturating_add(erasure.executions),
        erased_programs: known.erased_programs.saturating_add(erasure.programs),
        retained_executions: 0,
        retained_programs: 0,
        retained_program_bytes: 0,
        ..known
    }
}

/// Adds a pass to the report.
pub fn record_corpus_retention(
    report: Option<CorpusMaintenanceStats>,
    retention: CorpusRetention,
) -> (next: CorpusMaintenanceStats)
    ensures
        next == retention_reported(report, retention),
{
    let known = match report {
        Some(report) => report,
        None => CorpusMaintenanceStats::default(),
    };
    CorpusMaintenanceStats {
        expired_executions: known.expired_executions.saturating_add(retention.expired_executions),
        pruned_executions: known.pruned_executions.saturating_add(retention.pruned_executions),
        invalid_executions: known.invalid_executions.saturating_add(retention.invalid_executions),
        pruned_programs: known.pruned_programs.saturating_add(retention.pruned_programs),
        invalid_programs: known.invalid_programs.saturating_add(retention.invalid_programs),
        retained_executions: retention.retained_executions,
        retained_programs: retention.retained_programs,
        retained_program_bytes: retention.retained_program_bytes,
        erased_executions: known.erased_executions,
        erased_programs: known.erased_programs,
    }
}

/// Adds an erasure to the report.
pub fn record_corpus_erasure(
    report: Option<CorpusMaintenanceStats>,
    erasure: CorpusErasure,
) -> (next: CorpusMaintenanceStats)
    ensures
        next == erasure_reported(report, erasure),
{
    let mut known = match report {
        Some(report) => report,
        None => CorpusMaintenanceStats::default(),
    };
    known.erased_executions = known.erased_executions.saturating_add(erasure.executions);
    known.erased_programs = known.erased_programs.saturating_add(erasure.programs);
    known.retained_executions = 0;
    known.retained_programs = 0;
    known.retained_program_bytes = 0;
    known
}

// ---- what retention promises ----

proof fn lemma_first_pass(
    programs: Seq<ProgramEntryView>,
    executions: Seq<ExecutionView>,
    cutoff: u64,
    surplus: nat,
    length: nat,
)
    requires
        length <= executions.len(),
    ensures
        ({
            let pass = first_pass(programs, executions, cutoff, surplus, length);
            let valid = candidates(programs, executions, cutoff, length);
            &&& pass.surplus == (if surplus > valid {
                (surplus - valid) as nat
            } else {
                0nat
            })
            &&& pass.kept.len() == (if valid > surplus {
                (valid - surplus) as nat
            } else {
                0nat
            })
            &&& forall|i: int|
                0 <= i < pass.kept.len() ==> 0 <= #[trigger] pass.kept[i] < length && judged(
                    programs,
                    executions[pass.kept[i]],
                    cutoff,
                ) is Candidate
        }),
    decreases length,
{
    if length > 0 {
        lemma_first_pass(programs, executions, cutoff, surplus, (length - 1) as nat);
    }
}

/// Whether every entry that stays could be kept, and its program stays too.
pub open spec fn is_sound(
    programs: Seq<ProgramEntryView>,
    executions: Seq<ExecutionView>,
    cutoff: u64,
    pass: SecondPass,
) -> bool {
    forall|i: int|
        0 <= i < pass.kept.len() ==> 0 <= #[trigger] pass.kept[i] < executions.len() && judged(
            programs,
            executions[pass.kept[i]],
            cutoff,
        ) is Candidate && pass.programs.contains(
            program_of(programs, executions[pass.kept[i]], cutoff),
        )
}

proof fn lemma_second_pass(
    programs: Seq<ProgramEntryView>,
    executions: Seq<ExecutionView>,
    cutoff: u64,
    max_bytes: nat,
    start: SecondPass,
    entries: Seq<int>,
)
    requires
        start.bytes <= max_bytes,
        is_sound(programs, executions, cutoff, start),
        forall|i: int|
            0 <= i < entries.len() ==> 0 <= #[trigger] entries[i] < executions.len() && judged(
                programs,
                executions[entries[i]],
                cutoff,
            ) is Candidate,
    ensures
        ({
            let pass = second_pass(programs, executions, cutoff, max_bytes, start, entries);
            &&& pass.bytes <= max_bytes
            &&& pass.kept.len() <= start.kept.len() + entries.len()
            &&& is_sound(programs, executions, cutoff, pass)
        }),
    decreases entries.len(),
{
    if entries.len() > 0 {
        let entry = entries.last();
        let program = program_of(programs, executions[entry], cutoff);
        let size = program_size(programs, program);
        let report = start.report;
        assert(entries[entries.len() - 1] == entry);
        let more = CorpusRetention {
            retained_executions: report.retained_executions.saturating_add(1),
            ..report
        };
        let next = if start.programs.contains(program) {
            SecondPass { kept: seq![entry] + start.kept, report: more, ..start }
        } else if start.bytes + size > max_bytes {
            SecondPass {
                report: CorpusRetention {
                    pruned_executions: report.pruned_executions.saturating_add(1),
                    ..report
                },
                ..start
            }
        } else {
            SecondPass {
                programs: start.programs.push(program),
                bytes: start.bytes + size,
                kept: seq![entry] + start.kept,
                report: more,
            }
        };
        assert forall|i: int| 0 <= i < next.kept.len() implies 0 <= #[trigger] next.kept[i]
            < executions.len() && judged(
            programs,
            executions[next.kept[i]],
            cutoff,
        ) is Candidate && next.programs.contains(
            program_of(programs, executions[next.kept[i]], cutoff),
        ) by {
            if next.kept.len() == start.kept.len() {
                assert(next.kept[i] == start.kept[i]);
            } else if i == 0 {
                assert(next.kept[0] == entry);
                if !start.programs.contains(program) {
                    assert(next.programs[next.programs.len() - 1] == program);
                }
            } else {
                assert(next.kept[i] == start.kept[i - 1]);
                let other = program_of(programs, executions[start.kept[i - 1]], cutoff);
                assert(start.programs.contains(other));
                let k = choose|k: int| 0 <= k < start.programs.len() && start.programs[k] == other;
                assert(next.programs[k] == other);
            }
        }
        let shorter = entries.drop_last();
        assert forall|i: int| 0 <= i < shorter.len() implies 0 <= #[trigger] shorter[i]
            < executions.len() && judged(
            programs,
            executions[shorter[i]],
            cutoff,
        ) is Candidate by {
            assert(entries[i] == shorter[i]);
        }
        lemma_second_pass(programs, executions, cutoff, max_bytes, next, shorter);
    }
}

/// The workload stays within its bounds: no more executions than allowed, no
/// more bytes of programs that they need, and no execution that is too old or
/// whose program was not stored.
pub proof fn retention_stays_within_bounds(
    programs: Seq<ProgramEntryView>,
    executions: Seq<ExecutionView>,
    now: u64,
    policy: CorpusPolicy,
)
    ensures
        retained(programs, executions, now, policy).executions.len() <= policy.max_executions,
        log_passes(programs, executions, now, policy).bytes <= policy.max_bytes,
        forall|i: int|
            0 <= i < retained(programs, executions, now, policy).executions.len() ==> {
                let kept = #[trigger] retained(programs, executions, now, policy).executions[i];
                &&& kept.at is Some
                &&& kept.at->0 >= cutoff_of(now, policy)
                &&& judged(programs, kept, cutoff_of(now, policy)) is Candidate
                &&& log_passes(programs, executions, now, policy).programs.contains(
                    program_of(programs, kept, cutoff_of(now, policy)),
                )
            },
{
    let cutoff = cutoff_of(now, policy);
    let valid = candidates(programs, executions, cutoff, executions.len());
    let surplus = if valid > policy.max_executions {
        (valid - policy.max_executions) as nat
    } else {
        0
    };
    lemma_first_pass(programs, executions, cutoff, surplus, executions.len());
    let first = first_pass(programs, executions, cutoff, surplus, executions.len());
    let start = SecondPass {
        programs: Seq::empty(),
        bytes: 0,
        kept: Seq::empty(),
        report: first.report,
    };
    lemma_second_pass(
        programs,
        executions,
        cutoff,
        policy.max_bytes as nat,
        start,
        first.kept,
    );
    let second = log_passes(programs, executions, now, policy);
    assert forall|i: int| 0 <= i < retained(
        programs,
        executions,
        now,
        policy,
    ).executions.len() implies {
        let kept = #[trigger] retained(programs, executions, now, policy).executions[i];
        &&& kept.at is Some
        &&& kept.at->0 >= cutoff
        &&& judged(programs, kept, cutoff) is Candidate
        &&& second.programs.contains(program_of(programs, kept, cutoff))
    } by {
        assert(retained(programs, executions, now, policy).executions[i]
            == executions[second.kept[i]]);
    }
}

proof fn lemma_third_pass(
    programs: Seq<ProgramEntryView>,
    needed: Seq<(u64, Seq<u8>)>,
    report: CorpusRetention,
    length: nat,
)
    requires
        length <= programs.len(),
    ensures
        forall|i: int|
            0 <= i < third_pass(programs, needed, report, length).kept.len() ==> (
            #[trigger] third_pass(programs, needed, report, length).kept[i]).identity is Some
                && needed.contains(
                third_pass(programs, needed, report, length).kept[i].identity->0,
            ),
    decreases length,
{
    if length > 0 {
        lemma_third_pass(programs, needed, report, (length - 1) as nat);
    }
}

/// No program stays that no execution needs.
pub proof fn kept_programs_are_needed(
    programs: Seq<ProgramEntryView>,
    executions: Seq<ExecutionView>,
    now: u64,
    policy: CorpusPolicy,
)
    ensures
        forall|i: int|
            0 <= i < retained(programs, executions, now, policy).programs.len() ==> {
                let kept = #[trigger] retained(programs, executions, now, policy).programs[i];
                kept.identity is Some && log_passes(
                    programs,
                    executions,
                    now,
                    policy,
                ).programs.contains(kept.identity->0)
            },
{
    let second = log_passes(programs, executions, now, policy);
    lemma_third_pass(programs, second.programs, second.report, programs.len());
}

/// How many log entries a report accounts for as gone.
pub open spec fn executions_gone(report: CorpusRetention) -> int {
    report.expired_executions + report.pruned_executions + report.invalid_executions
}

proof fn lemma_first_report(
    programs: Seq<ProgramEntryView>,
    executions: Seq<ExecutionView>,
    cutoff: u64,
    surplus: nat,
    length: nat,
)
    requires
        length <= u64::MAX,
    ensures
        ({
            let pass = first_pass(programs, executions, cutoff, surplus, length);
            &&& pass.kept.len() + executions_gone(pass.report) == length
            &&& pass.report.retained_executions == 0
            &&& pass.report.retained_programs == 0
            &&& pass.report.pruned_programs == 0
            &&& pass.report.invalid_programs == 0
        }),
    decreases length,
{
    if length > 0 {
        lemma_first_report(programs, executions, cutoff, surplus, (length - 1) as nat);
    }
}

proof fn lemma_second_report(
    programs: Seq<ProgramEntryView>,
    executions: Seq<ExecutionView>,
    cutoff: u64,
    max_bytes: nat,
    start: SecondPass,
    entries: Seq<int>,
)
    requires
        start.report.retained_executions == start.kept.len(),
        start.kept.len() + executions_gone(start.report) + entries.len() <= u64::MAX,
    ensures
        ({
            let pass = second_pass(programs, executions, cutoff, max_bytes, start, entries);
            &&& pass.report.retained_executions == pass.kept.len()
            &&& pass.kept.len() + executions_gone(pass.report) == start.kept.len()
                + executions_gone(start.report) + entries.len()
            &&& pass.report.retained_programs == start.report.retained_programs
            &&& pass.report.pruned_programs == start.report.pruned_programs
            &&& pass.report.invalid_programs == start.report.invalid_programs
        }),
    decreases entries.len(),
{
    if entries.len() > 0 {
        let entry = entries.last();
        let program = program_of(programs, executions[entry], cutoff);
        let size = program_size(programs, program);
        let report = start.report;
        let more = CorpusRetention {
            retained_executions: report.retained_executions.saturating_add(1),
            ..report
        };
        let next = if start.programs.contains(program) {
            SecondPass { kept: seq![entry] + start.kept, report: more, ..start }
        } else if start.bytes + size > max_bytes {
            SecondPass {
                report: CorpusRetention {
                    pruned_executions: report.pruned_executions.saturating_add(1),
                    ..report
                },
                ..start
            }
        } else {
            SecondPass {
                programs: start.programs.push(program),
                bytes: start.bytes + size,
                kept: seq![entry] + start.kept,
                report: more,
            }
        };
        lemma_second_report(programs, executions, cutoff, max_bytes, next, entries.drop_last());
    }
}

proof fn lemma_third_report(
    programs: Seq<ProgramEntryView>,
    needed: Seq<(u64, Seq<u8>)>,
    report: CorpusRetention,
    length: nat,
)
    requires
        length <= u64::MAX,
        report.retained_programs == 0,
        report.pruned_programs == 0,
        report.invalid_programs == 0,
    ensures
        ({
            let pass = third_pass(programs, needed, report, length);
            &&& pass.report.retained_programs == pass.kept.len()
            &&& pass.report.retained_programs + pass.report.pruned_programs
                + pass.report.invalid_programs == length
            &&& pass.report.retained_executions == report.retained_executions
            &&& executions_gone(pass.report) == executions_gone(report)
        }),
    decreases length,
{
    if length > 0 {
        lemma_third_report(programs, needed, report, (length - 1) as nat);
    }
}

/// The report of a retention accounts for all that was stored: every execution is
/// retained, expired, pruned or invalid, and every program is retained, pruned or
/// invalid; what counts as retained is what stays.
pub proof fn retention_accounts_for_everything(
    programs: Seq<ProgramEntryView>,
    executions: Seq<ExecutionView>,
    now: u64,
    policy: CorpusPolicy,
)
    requires
        executions.len() <= u64::MAX,
        programs.len() <= u64::MAX,
    ensures
        ({
            let kept = retained(programs, executions, now, policy);
            let report = kept.report;
            &&& report.retained_executions == kept.executions.len()
            &&& report.retained_executions + report.expired_executions + report.pruned_executions
                + report.invalid_executions == executions.len()
            &&& report.retained_programs == kept.programs.len()
            &&& report.retained_programs + report.pruned_programs + report.invalid_programs
                == programs.len()
        }),
{
    let cutoff = cutoff_of(now, policy);
    let valid = candidates(programs, executions, cutoff, executions.len());
    let surplus = if valid > policy.max_executions {
        (valid - policy.max_executions) as nat
    } else {
        0
    };
    lemma_first_report(programs, executions, cutoff, surplus, executions.len());
    let first = first_pass(programs, executions, cutoff, surplus, executions.len());
    let start = SecondPass {
        programs: Seq::empty(),
        bytes: 0,
        kept: Seq::empty(),
        report: first.report,
    };
    lemma_second_report(
        programs,
        executions,
        cutoff,
        policy.max_bytes as nat,
        start,
        first.kept,
    );
    let second = log_passes(programs, executions, now, policy);
    lemma_third_report(programs, second.programs, second.report, programs.len());
}

} // verus!
