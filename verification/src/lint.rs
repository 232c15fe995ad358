//! The lint capability model and runner.
//!
//! Every concrete lint offers one or both of two capabilities: *check*
//! (read-only validation) and *fix* (a computed correction, applied only when
//! the run persists).  Concrete lints scan the tree and hand their findings
//! in as plain data; this module selects which lints run, aggregates every
//! violation found into one list, decides overall success, and plans which
//! corrective writes a fix run performs.  A check run only ever produces
//! data, so it cannot mutate the tree; a dry fix run computes the same
//! corrections as a persisting one but withholds every write.

use vstd::prelude::*;

verus! {

/// The closed set of concrete lints.
#[derive(Clone, Copy, Debug, PartialEq, Eq, Structural)]
pub enum LintKind {
    ReadmesExist,
    ReadmesHaveFooters,
    CrateAuthor,
    CrateLicense,
    DocsRs,
    CopyrightHeader,
    ChangelogNext,
    TodosHaveContext,
}

/// Whether a fix run persists its corrective writes or only reports them.
#[derive(Clone, Copy, Debug, PartialEq, Eq, Structural)]
pub enum ExecutionMode {
    DryRun,
    Persist,
}

/// One reported instance of a lint rule being unmet.
#[derive(Debug)]
pub struct LintViolation {
    /// The lint that found the problem.
    pub lint: LintKind,
    /// The file the problem was found in.
    pub path: Vec<u8>,
    /// A description of the problem.
    pub message: Vec<u8>,
    /// The corrected file content, for violations a fix run can correct.
    pub suggested_fix: Option<Vec<u8>>,
}

/// The mathematical value of a [`LintViolation`].
pub ghost struct LintViolationView {
    pub lint: LintKind,
    pub path: Seq<u8>,
    pub message: Seq<u8>,
    pub suggested_fix: Option<Seq<u8>>,
}

impl View for LintViolation {
    type V = LintViolationView;

    open spec fn view(&self) -> LintViolationView {
        LintViolationView {
            lint: self.lint,
            path: self.path@,
            message: self.message@,
            suggested_fix: match self.suggested_fix {
                Option::Some(c) => Some(c@),
                Option::None => None,
            },
        }
    }
}

impl DeepView for LintViolation {
    type V = LintViolationView;

    open spec fn deep_view(&self) -> LintViolationView {
        self.view()
    }
}

/// The failure a lint run signals when violations remain.
#[derive(Clone, Copy, Debug, PartialEq, Eq, Structural)]
pub enum LintError {
    ViolationsFound,
}

/// Overall result of a run: success exactly when no violation was collected.
/// A non-empty aggregate is a hard failure, not a warning.
pub fn ok<T>(errors: Vec<T>) -> (r: Result<(), LintError>)
    ensures
        r is Ok <==> errors@.len() == 0,
        errors@.len() > 0 ==> r == Result::<(), LintError>::Err(LintError::ViolationsFound),
{
    if errors.len() == 0 {
        Ok(())
    } else {
        Err(LintError::ViolationsFound)
    }
}

/// The check categories a caller can select.
#[derive(Clone, Copy, Debug, PartialEq, Eq, Structural)]
pub struct CheckArgs {
    pub all: bool,
    pub readme: bool,
    pub cargo_toml: bool,
    pub docsrs_metadata: bool,
    pub changelog: bool,
    pub license: bool,
    pub todos: bool,
}

/// The checks a selection runs, in their fixed order.
pub open spec fn spec_selected_checks(a: CheckArgs) -> Seq<LintKind> {
    (if a.readme || a.all {
        seq![LintKind::ReadmesExist, LintKind::ReadmesHaveFooters]
    } else {
        Seq::empty()
    }) + (if a.cargo_toml || a.all {
        seq![LintKind::CrateAuthor, LintKind::CrateLicense]
    } else {
        Seq::empty()
    }) + (if a.docsrs_metadata || a.all {
        seq![LintKind::DocsRs]
    } else {
        Seq::empty()
    }) + (if a.license || a.all {
        seq![LintKind::CopyrightHeader]
    } else {
        Seq::empty()
    }) + (if a.changelog || a.all {
        seq![LintKind::ChangelogNext]
    } else {
        Seq::empty()
    }) + (if a.todos || a.all {
        seq![LintKind::TodosHaveContext]
    } else {
        Seq::empty()
    })
}

/// Resolves a check selection to the lints that will run.
pub fn selected_checks(a: &CheckArgs) -> (r: Vec<LintKind>)
    ensures
        r@ == spec_selected_checks(*a),
{
    let mut r: Vec<LintKind> = Vec::new();
    if a.readme || a.all {
        r.push(LintKind::ReadmesExist);
        r.push(LintKind::ReadmesHaveFooters);
    }
    if a.cargo_toml || a.all {
        r.push(LintKind::CrateAuthor);
        r.push(LintKind::CrateLicense);
    }
    if a.docsrs_metadata || a.all {
        r.push(LintKind::DocsRs);
    }
    if a.license || a.all {
        r.push(LintKind::CopyrightHeader);
    }
    if a.changelog || a.all {
        r.push(LintKind::ChangelogNext);
    }
    if a.todos || a.all {
        r.push(LintKind::TodosHaveContext);
    }
    proof {
        assert(r@ =~= spec_selected_checks(*a));
    }
    r
}

/// The fix categories a caller can select.
#[derive(Clone, Copy, Debug, PartialEq, Eq)]
pub struct FixArgs {
    pub all: bool,
    pub readme: bool,
    pub docsrs_metadata: bool,
    pub dry_run: Option<bool>,
}

/// The correctable lints a fix selection runs, in their fixed order.
pub open spec fn spec_selected_fixes(a: FixArgs) -> Seq<LintKind> {
    (if a.readme || a.all {
        seq![LintKind::ReadmesHaveFooters]
    } else {
        Seq::empty()
    }) + (if a.docsrs_metadata || a.all {
        seq![LintKind::DocsRs]
    } else {
        Seq::empty()
    })
}

/// Resolves a fix selection to the lints that will run.
pub fn selected_fixes(a: &FixArgs) -> (r: Vec<LintKind>)
    ensures
        r@ == spec_selected_fixes(*a),
{
    let mut r: Vec<LintKind> = Vec::new();
    if a.readme || a.all {
        r.push(LintKind::ReadmesHaveFooters);
    }
    if a.docsrs_metadata || a.all {
        r.push(LintKind::DocsRs);
    }
    proof {
        assert(r@ =~= spec_selected_fixes(*a));
    }
    r
}

/// The mode a fix run uses: a dry run only when asked for explicitly.
pub open spec fn spec_execution_mode(dry_run: Option<bool>) -> ExecutionMode {
    match dry_run {
        Option::Some(true) => ExecutionMode::DryRun,
        _ => ExecutionMode::Persist,
    }
}

/// Resolves the dry-run flag; its absence means the run persists.
pub fn execution_mode(dry_run: Option<bool>) -> (m: ExecutionMode)
    ensures
        m == spec_execution_mode(dry_run),
{
    match dry_run {
        Some(true) => ExecutionMode::DryRun,
        _ => ExecutionMode::Persist,
    }
}

/// Concatenates per-lint violation lists into the aggregate the run reports,
/// keeping every violation and the order the lints ran in.
pub fn aggregate_violations(results: Vec<Vec<LintViolation>>) -> (r: Vec<LintViolation>)
    ensures
        r.deep_view() == results.deep_view().flatten(),
{
    let ghost all = results.deep_view();
    let mut rest = results;
    let mut agg: Vec<LintViolation> = Vec::new();
    let mut k: usize = 0;
    proof {
        assert(all.take(0) =~= Seq::<Seq<LintViolationView>>::empty());
        assert(Seq::<Seq<LintViolationView>>::empty().flatten() =~= Seq::<
            LintViolationView,
        >::empty());
        assert(agg.deep_view() =~= all.take(0).flatten());
        assert(rest.deep_view() == all);
        assert forall|i: int| 0 <= i < rest@.len() implies #[trigger] rest@[i].deep_view()
            == all[i] by {
            assert(rest.deep_view()[i] == rest@[i].deep_view());
        }
    }
    let n_total = rest.len();
    while rest.len() > 0
        invariant
            0 <= k <= all.len(),
            all.len() == n_total,
            rest@.len() == all.len() - k,
            forall|i: int| 0 <= i < rest@.len() ==> #[trigger] rest@[i].deep_view() == all[k + i],
            agg.deep_view() == all.take(k as int).flatten(),
        decreases rest@.len(),
    {
        let ghost prev_agg = agg.deep_view();
        let ghost pre = rest@;
        let mut v = rest.remove(0);
        let ghost moved = v.deep_view();
        proof {
            assert(moved == all[k as int]);
            assert forall|i: int| 0 <= i < rest@.len() implies #[trigger] rest@[i].deep_view()
                == all[k + 1 + i] by {
                assert(rest@[i] == pre[i + 1]);
                assert(pre[i + 1].deep_view() == all[k + (i + 1)]);
            }
        }
        agg.append(&mut v);
        proof {
            assert(agg.deep_view() =~~= prev_agg + moved);
            assert(all.take(k + 1) =~= all.take(k as int).push(all[k as int]));
            all.take(k as int).lemma_flatten_push(all[k as int]);
            assert(agg.deep_view() =~= all.take(k + 1).flatten());
        }
        k += 1;
    }
    proof {
        assert(all.take(all.len() as int) =~= all);
    }
    agg
}

/// What one concrete lint computed for one file during a fix run: the
/// violations it found there, and the corrected content when it could
/// auto-correct them.
#[derive(Debug)]
pub struct FixOutcome {
    pub path: Vec<u8>,
    pub violations: Vec<LintViolation>,
    pub corrected: Option<Vec<u8>>,
}

/// The mathematical value of a [`FixOutcome`].
pub ghost struct FixOutcomeView {
    pub path: Seq<u8>,
    pub violations: Seq<LintViolationView>,
    pub corrected: Option<Seq<u8>>,
}

impl View for FixOutcome {
    type V = FixOutcomeView;

    open spec fn view(&self) -> FixOutcomeView {
        FixOutcomeView {
            path: self.path@,
            violations: self.violations.deep_view(),
            corrected: match self.corrected {
                Option::Some(c) => Some(c@),
                Option::None => None,
            },
        }
    }
}

impl DeepView for FixOutcome {
    type V = FixOutcomeView;

    open spec fn deep_view(&self) -> FixOutcomeView {
        self.view()
    }
}

/// One corrective write a persisting fix run performs.
#[derive(Debug)]
pub struct FileWrite {
    pub path: Vec<u8>,
    pub content: Vec<u8>,
}

/// The mathematical value of a [`FileWrite`].
pub ghost struct FileWriteView {
    pub path: Seq<u8>,
    pub content: Seq<u8>,
}

impl View for FileWrite {
    type V = FileWriteView;

    open spec fn view(&self) -> FileWriteView {
        FileWriteView { path: self.path@, content: self.content@ }
    }
}

impl DeepView for FileWrite {
    type V = FileWriteView;

    open spec fn deep_view(&self) -> FileWriteView {
        self.view()
    }
}

/// What a fix run does: the violations it reports and the writes it performs.
#[derive(Debug)]
pub struct FixPlan {
    pub violations: Vec<LintViolation>,
    pub writes: Vec<FileWrite>,
}

/// The mathematical value of a [`FixPlan`].
pub ghost struct FixPlanView {
    pub violations: Seq<LintViolationView>,
    pub writes: Seq<FileWriteView>,
}

impl View for FixPlan {
    type V = FixPlanView;

    open spec fn view(&self) -> FixPlanView {
        FixPlanView { violations: self.violations.deep_view(), writes: self.writes.deep_view() }
    }
}

/// The violations one outcome contributes to the report.
pub open spec fn outcome_violations() -> spec_fn(FixOutcomeView) -> Seq<LintViolationView> {
    |o: FixOutcomeView| o.violations
}

/// The write one outcome contributes to a persisting run.
pub open spec fn outcome_write() -> spec_fn(FixOutcomeView) -> Seq<FileWriteView> {
    |o: FixOutcomeView|
        match o.corrected {
            Option::Some(c) => seq![FileWriteView { path: o.path, content: c }],
            Option::None => Seq::empty(),
        }
}

/// The violations a fix run reports: all of them, whatever the mode.
pub open spec fn spec_fix_violations(os: Seq<FixOutcomeView>) -> Seq<LintViolationView> {
    os.flat_map(outcome_violations())
}

/// The writes a fix run performs: none under a dry run, every computed
/// correction under a persisting run.
pub open spec fn spec_fix_writes(os: Seq<FixOutcomeView>, mode: ExecutionMode) -> Seq<
    FileWriteView,
> {
    if mode == ExecutionMode::DryRun {
        Seq::empty()
    } else {
        os.flat_map(outcome_write())
    }
}

/// What a fix run with the given outcomes does under the given mode.
pub open spec fn spec_plan(os: Seq<FixOutcomeView>, mode: ExecutionMode) -> FixPlanView {
    FixPlanView { violations: spec_fix_violations(os), writes: spec_fix_writes(os, mode) }
}

/// Turns the computed outcomes of the selected lints into the run's plan.
pub fn plan_fixes(outcomes: Vec<FixOutcome>, mode: ExecutionMode) -> (r: FixPlan)
    ensures
        r@ == spec_plan(outcomes.deep_view(), mode),
{
    let ghost all = outcomes.deep_view();
    let mut rest = outcomes;
    let mut violations: Vec<LintViolation> = Vec::new();
    let mut writes: Vec<FileWrite> = Vec::new();
    let mut k: usize = 0;
    proof {
        assert(all.take(0) =~= Seq::<FixOutcomeView>::empty());
        assert(Seq::<FixOutcomeView>::empty().flat_map(outcome_violations()) =~= Seq::<
            LintViolationView,
        >::empty());
        assert(Seq::<FixOutcomeView>::empty().flat_map(outcome_write()) =~= Seq::<
            FileWriteView,
        >::empty());
        assert(violations.deep_view() =~= all.take(0).flat_map(outcome_violations()));
        assert(writes.deep_view() =~= all.take(0).flat_map(outcome_write()));
        assert(rest.deep_view() == all);
        assert forall|i: int| 0 <= i < rest@.len() implies #[trigger] rest@[i].deep_view()
            == all[i] by {
            assert(rest.deep_view()[i] == rest@[i].deep_view());
        }
    }
    let n_total = rest.len();
    while rest.len() > 0
        invariant
            0 <= k <= all.len(),
            all.len() == n_total,
            rest@.len() == all.len() - k,
            forall|i: int| 0 <= i < rest@.len() ==> #[trigger] rest@[i].deep_view() == all[k + i],
            violations.deep_view() == all.take(k as int).flat_map(outcome_violations()),
            writes.deep_view() == (if mode == ExecutionMode::DryRun {
                Seq::<FileWriteView>::empty()
            } else {
                all.take(k as int).flat_map(outcome_write())
            }),
        decreases rest@.len(),
    {
        let ghost prev_violations = violations.deep_view();
        let ghost prev_writes = writes.deep_view();
        let ghost pre = rest@;
        let o = rest.remove(0);
        let ghost ov = o.deep_view();
        proof {
            assert(ov == all[k as int]);
            assert forall|i: int| 0 <= i < rest@.len() implies #[trigger] rest@[i].deep_view()
                == all[k + 1 + i] by {
                assert(rest@[i] == pre[i + 1]);
                assert(pre[i + 1].deep_view() == all[k + (i + 1)]);
            }
            all.lemma_flat_map_take_append(outcome_violations(), k as int);
            all.lemma_flat_map_take_append(outcome_write(), k as int);
        }
        let mut vs = o.violations;
        violations.append(&mut vs);
        proof {
            assert(violations.deep_view() =~~= prev_violations + ov.violations);
            assert(outcome_violations()(all[k as int]) == all[k as int].violations);
            assert(violations.deep_view() =~= all.take(k + 1).flat_map(outcome_violations()));
        }
        match (o.corrected, mode) {
            (Some(c), ExecutionMode::Persist) => {
                let ghost cv = c@;
                writes.push(FileWrite { path: o.path, content: c });
                proof {
                    assert(writes.deep_view() =~~= prev_writes.push(
                        FileWriteView { path: ov.path, content: cv },
                    ));
                    assert(outcome_write()(all[k as int]) == seq![
                        FileWriteView { path: ov.path, content: cv },
                    ]);
                    assert(writes.deep_view() =~= all.take(k + 1).flat_map(outcome_write()));
                }
            },
            _ => {
                proof {
                    if mode == ExecutionMode::Persist {
                        assert(outcome_write()(all[k as int]) == Seq::<FileWriteView>::empty());
                        assert(prev_writes + Seq::<FileWriteView>::empty() =~= prev_writes);
                        assert(writes.deep_view() =~= all.take(k + 1).flat_map(outcome_write()));
                    }
                }
            },
        }
        k += 1;
    }
    proof {
        assert(all.take(all.len() as int) =~= all);
    }
    FixPlan { violations, writes }
}

/// Dry-run parity: for one and the same set of computed fix outcomes, a dry
/// run reports exactly the violations a persisting run reports, and differs
/// only in performing no write at all.
pub proof fn lemma_dry_run_parity(outcomes: Seq<FixOutcomeView>)
    ensures
        spec_plan(outcomes, ExecutionMode::DryRun).violations == spec_plan(
            outcomes,
            ExecutionMode::Persist,
        ).violations,
        spec_plan(outcomes, ExecutionMode::DryRun).writes == Seq::<FileWriteView>::empty(),
{
}

} // verus!
