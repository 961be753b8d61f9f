//! Decisions of a compile run: full or sparse, what to do with the toolchain's
//! answer, how a run ends, and how a single target is compiled.
use vstd::prelude::*;
use crate::filter::{SkipBuildFilter, SkipBuildFilters};
use crate::size::{some_over_limit, SizeReport};

verus! {

/// How to configure a compile run.
pub struct ProjectCompiler {
    /// whether to also print the contract names
    pub print_names: bool,
    /// whether to also print the contract sizes
    pub print_sizes: bool,
    /// files to exclude
    pub filters: Vec<SkipBuildFilter>,
}

/// What the toolchain is asked for.
#[derive(Debug, Clone, PartialEq, Eq)]
pub enum CompileMode {
    /// Full artifacts for every file.
    Full,
    /// Full artifacts only for the files that the filters keep.
    Sparse(SkipBuildFilters),
}

/// The first step of a run.
#[derive(Debug, Clone, PartialEq, Eq)]
pub enum CompileStep {
    /// The project has no input files: the run ends successfully at once.
    NothingToCompile,
    /// Hand the project to the toolchain.
    Run(CompileMode),
}

/// What to do with the toolchain's output.
#[derive(Debug, Clone, Copy, PartialEq, Eq)]
pub enum OutputAction {
    /// The output holds compiler errors: fail with its diagnostics.
    Fail,
    /// Nothing was recompiled: say so, then post-process.
    Unchanged,
    /// Print the output and its warnings, then post-process.
    Print,
}

/// How a run ends after a successful compile.
#[derive(Debug, Clone, Copy, PartialEq, Eq)]
pub enum CompileOutcome {
    Success,
    /// A non-dev contract is over the size limit: the caller must end unsuccessfully.
    SizeLimitExceeded,
}

/// Full when there are no filters, else sparse with exactly those filters.
pub open spec fn mode_for(filters: Seq<SkipBuildFilter>, m: CompileMode) -> bool {
    match m {
        CompileMode::Full => filters.len() == 0,
        CompileMode::Sparse(s) => filters.len() > 0 && s.0@ == filters,
    }
}

/// Chooses full or sparse compilation for a list of filters.
pub fn compile_mode(filters: Vec<SkipBuildFilter>) -> (r: CompileMode)
    ensures
        mode_for(filters@, r),
{
    if filters.len() == 0 {
        CompileMode::Full
    } else {
        CompileMode::Sparse(SkipBuildFilters(filters))
    }
}

/// Compiler errors fail the run; otherwise an unchanged output skips printing.
pub fn output_action(has_compiler_errors: bool, is_unchanged: bool) -> (r: OutputAction)
    ensures
        r == (if has_compiler_errors {
            OutputAction::Fail
        } else if is_unchanged {
            OutputAction::Unchanged
        } else {
            OutputAction::Print
        }),
{
    if has_compiler_errors {
        OutputAction::Fail
    } else if is_unchanged {
        OutputAction::Unchanged
    } else {
        OutputAction::Print
    }
}

impl ProjectCompiler {
    /// Create a new instance with the settings.
    pub fn new(print_names: bool, print_sizes: bool) -> (r: ProjectCompiler)
        ensures
            r.print_names == print_names,
            r.print_sizes == print_sizes,
            r.filters@.len() == 0,
    {
        ProjectCompiler::with_filter(print_names, print_sizes, Vec::new())
    }

    /// Create a new instance with all settings.
    pub fn with_filter(print_names: bool, print_sizes: bool, filters: Vec<SkipBuildFilter>) -> (r:
        ProjectCompiler)
        ensures
            r.print_names == print_names,
            r.print_sizes == print_sizes,
            r.filters == filters,
    {
        ProjectCompiler { print_names, print_sizes, filters }
    }

    /// The first step of a run: stop when there is nothing to compile, else
    /// compile fully or sparsely as the filters say.
    pub fn compile_step(self, has_input_files: bool) -> (r: CompileStep)
        ensures
            !has_input_files <==> r is NothingToCompile,
            r matches CompileStep::Run(m) ==> mode_for(self.filters@, m),
    {
        if !has_input_files {
            CompileStep::NothingToCompile
        } else {
            CompileStep::Run(compile_mode(self.filters))
        }
    }

    /// How a successful run ends once post-processing is done: over the limit
    /// only when sizes were asked for and the report exceeds the limit.
    pub fn outcome(&self, report: &SizeReport) -> (r: CompileOutcome)
        ensures
            r == (if self.print_sizes && some_over_limit(report.contracts@) {
                CompileOutcome::SizeLimitExceeded
            } else {
                CompileOutcome::Success
            }),
    {
        if self.print_sizes && report.exceeds_size_limit() {
            CompileOutcome::SizeLimitExceeded
        } else {
            CompileOutcome::Success
        }
    }
}

impl Default for ProjectCompiler {
    /// Prints neither names nor sizes, and filters nothing.
    fn default() -> (r: ProjectCompiler)
        ensures
            !r.print_names,
            !r.print_sizes,
            r.filters@.len() == 0,
    {
        ProjectCompiler::new(false, false)
    }
}

/// Why a compile failed.
#[derive(Debug, Clone, PartialEq, Eq)]
pub enum CompileError {
    /// The target is not part of the project, and verification was asked for.
    StandaloneVerifyRejected,
    /// The toolchain reported errors; this is its full diagnostic text.
    CompilerDiagnostics(String),
}

/// How a target file is compiled.
#[derive(Debug, Clone, PartialEq, Eq)]
pub enum TargetPlan {
    /// A standalone file: compile that file alone, without filters.
    CompileFiles { silent: bool },
    /// A project member, silently: compile the project without any output.
    SuppressCompile(CompileMode),
    /// A project member: compile the project, printing neither names nor sizes.
    Compile { filters: Vec<SkipBuildFilter> },
}

/// Decides how to compile `target`, given whether it belongs to the project's
/// dependency graph. A standalone target cannot be verified.
pub fn compile_target_plan(is_member: bool, silent: bool, verify: bool, skip: Vec<
    SkipBuildFilter,
>) -> (r: Result<TargetPlan, CompileError>)
    ensures
        !is_member && verify <==> r == Err::<TargetPlan, CompileError>(
            CompileError::StandaloneVerifyRejected,
        ),
        !is_member && !verify ==> r == Ok::<TargetPlan, CompileError>(
            TargetPlan::CompileFiles { silent },
        ),
        is_member && silent ==> (r matches Ok(TargetPlan::SuppressCompile(m)) && mode_for(skip@, m)),
        is_member && !silent ==> r == Ok::<TargetPlan, CompileError>(
            TargetPlan::Compile { filters: skip },
        ),
{
    if !is_member {
        if verify {
            return Err(CompileError::StandaloneVerifyRejected);
        }
        return Ok(TargetPlan::CompileFiles { silent });
    }
    if silent {
        Ok(TargetPlan::SuppressCompile(compile_mode(skip)))
    } else {
        Ok(TargetPlan::Compile { filters: skip })
    }
}

/// A compiler version: major, minor, patch.
pub type Version = (u64, u64, u64);

/// Versions ordered by major, then minor, then patch.
pub open spec fn version_lt(a: Version, b: Version) -> bool {
    a.0 < b.0 || (a.0 == b.0 && (a.1 < b.1 || (a.1 == b.1 && a.2 < b.2)))
}

/// The names of the artifacts compiled with version `v`, in order.
pub open spec fn names_with(arts: Seq<(String, Version)>, v: Version) -> Seq<String>
    decreases arts.len(),
{
    if arts.len() == 0 {
        Seq::empty()
    } else {
        let prev = names_with(arts.drop_last(), v);
        if arts.last().1 == v {
            prev.push(arts.last().0)
        } else {
            prev
        }
    }
}

/// The groups list each version of the artifacts once, in increasing order, with
/// the (never empty) names compiled by it.
pub open spec fn groups_by_version(groups: Seq<(Version, Vec<String>)>, arts: Seq<(String, Version)>) -> bool {
    &&& forall|i: int, j: int| 0 <= i < j < groups.len() ==> version_lt(#[trigger] groups[i].0, #[trigger] groups[j].0)
    &&& forall|i: int| 0 <= i < groups.len() ==> (#[trigger] groups[i]).1@ == names_with(arts, groups[i].0)
        && groups[i].1@.len() > 0
    &&& forall|k: int| 0 <= k < arts.len() ==> exists|i: int| 0 <= i < groups.len() && #[trigger] groups[i].0 == (#[trigger] arts[k]).1
}

/// Compares two versions.
fn version_less(a: Version, b: Version) -> (r: bool)
    ensures
        r == version_lt(a, b),
{
    a.0 < b.0 || (a.0 == b.0 && (a.1 < b.1 || (a.1 == b.1 && a.2 < b.2)))
}

/// Groups contract names by the compiler version that built them, versions in
/// increasing order, names in the order given.
pub fn names_by_version(artifacts: &Vec<(String, Version)>) -> (r: Vec<(Version, Vec<String>)>)
    ensures
        groups_by_version(r@, artifacts@),
{
    let mut groups: Vec<(Version, Vec<String>)> = Vec::new();
    let mut k: usize = 0;
    while k < artifacts.len()
        invariant
            k <= artifacts@.len(),
            groups_by_version(groups@, artifacts@.subrange(0, k as int)),
        decreases artifacts@.len() - k,
    {
        let ghost prev = artifacts@.subrange(0, k as int);
        let ghost next = artifacts@.subrange(0, k + 1);
        let ghost old_groups = groups@;
        proof {
            assert(next.drop_last() =~= prev);
        }
        let v = artifacts[k].1;
        let name = artifacts[k].0.clone();
        let mut p: usize = 0;
        while p < groups.len() && version_less(groups[p].0, v)
            invariant
                groups@ == old_groups,
                p <= groups@.len(),
                forall|i: int| 0 <= i < p ==> version_lt(#[trigger] groups@[i].0, v),
            decreases groups@.len() - p,
        {
            p = p + 1;
        }
        if p < groups.len() && !version_less(v, groups[p].0) {
            let mut entry = groups.remove(p);
            entry.1.push(name);
            groups.insert(p, entry);
            proof {
                assert forall|i: int| 0 <= i < groups@.len() && i != p implies #[trigger] groups@[i] == old_groups[i] by {}
                assert(groups@[p as int].1@ == names_with(next, v));
                assert forall|i: int| 0 <= i < groups@.len() implies (#[trigger] groups@[i]).1@ == names_with(next, groups@[i].0) by {
                    if i != p {
                        assert(groups@[i] == old_groups[i]);
                    }
                }
                assert forall|kk: int| 0 <= kk < next.len() implies exists|i: int| 0 <= i < groups@.len() && #[trigger] groups@[i].0 == (#[trigger] next[kk]).1 by {
                    if kk < k {
                        assert(next[kk] == prev[kk]);
                        let i = choose|i: int| 0 <= i < old_groups.len() && #[trigger] old_groups[i].0 == (#[trigger] prev[kk]).1;
                        assert(groups@[i].0 == old_groups[i].0);
                    } else {
                        assert(groups@[p as int].0 == next[kk].1);
                    }
                }
                assert forall|i: int, j: int| 0 <= i < j < groups@.len() implies version_lt(#[trigger] groups@[i].0, #[trigger] groups@[j].0) by {
                    assert(groups@[i].0 == old_groups[i].0);
                    assert(groups@[j].0 == old_groups[j].0);
                }
            }
        } else {
            let mut names: Vec<String> = Vec::new();
            names.push(name);
            groups.insert(p, (v, names));
            proof {
                assert(groups@ == old_groups.insert(p as int, (v, names)));
                assert forall|vv: Version| vv != v implies #[trigger] names_with(next, vv) == names_with(prev, vv) by {}
                assert forall|i: int| 0 <= i < old_groups.len() implies old_groups[i].0 != v by {
                    if i >= p {
                        if i > p {
                            assert(version_lt(old_groups[p as int].0, old_groups[i].0));
                        }
                    }
                }
                assert(names_with(prev, v) == Seq::<String>::empty()) by {
                    if names_with(prev, v).len() > 0 {
                        lemma_names_with_nonempty(prev, v);
                        let kk = choose|kk: int| 0 <= kk < prev.len() && #[trigger] prev[kk].1 == v;
                        let i = choose|i: int| 0 <= i < old_groups.len() && #[trigger] old_groups[i].0 == (#[trigger] prev[kk]).1;
                    }
                }
                assert(groups@[p as int].1@ =~= names_with(next, v));
                assert forall|i: int| 0 <= i < groups@.len() implies (#[trigger] groups@[i]).1@ == names_with(next, groups@[i].0) by {
                    if i < p {
                        assert(groups@[i] == old_groups[i]);
                    } else if i > p {
                        assert(groups@[i] == old_groups[i - 1]);
                    }
                }
                assert forall|kk: int| 0 <= kk < next.len() implies exists|i: int| 0 <= i < groups@.len() && #[trigger] groups@[i].0 == (#[trigger] next[kk]).1 by {
                    if kk < k {
                        assert(next[kk] == prev[kk]);
                        let i = choose|i: int| 0 <= i < old_groups.len() && #[trigger] old_groups[i].0 == (#[trigger] prev[kk]).1;
                        if i < p {
                            assert(groups@[i] == old_groups[i]);
                        } else {
                            assert(groups@[i + 1] == old_groups[i]);
                        }
                    } else {
                        assert(groups@[p as int].0 == next[kk].1);
                    }
                }
                assert forall|i: int, j: int| 0 <= i < j < groups@.len() implies version_lt(#[trigger] groups@[i].0, #[trigger] groups@[j].0) by {
                    if j < p {
                        assert(groups@[i] == old_groups[i]);
                        assert(groups@[j] == old_groups[j]);
                    } else if j == p {
                        assert(groups@[i] == old_groups[i]);
                    } else if i < p {
                        assert(groups@[i] == old_groups[i]);
                        assert(groups@[j] == old_groups[j - 1]);
                        assert(version_lt(old_groups[i].0, v));
                        assert(version_lt(v, old_groups[p as int].0) || old_groups[p as int].0 == v);
                        if j - 1 > p {
                            assert(version_lt(old_groups[p as int].0, old_groups[j - 1].0));
                        }
                    } else if i == p {
                        assert(groups@[j] == old_groups[j - 1]);
                        if j - 1 > p {
                            assert(version_lt(old_groups[p as int].0, old_groups[j - 1].0));
                        }
                    } else {
                        assert(groups@[i] == old_groups[i - 1]);
                        assert(groups@[j] == old_groups[j - 1]);
                    }
                }
            }
        }
        k = k + 1;
    }
    assert(artifacts@.subrange(0, k as int) =~= artifacts@);
    groups
}

/// A version that has names was used by some artifact.
proof fn lemma_names_with_nonempty(arts: Seq<(String, Version)>, v: Version)
    requires
        names_with(arts, v).len() > 0,
    ensures
        exists|k: int| 0 <= k < arts.len() && #[trigger] arts[k].1 == v,
    decreases arts.len(),
{
    if arts.last().1 == v {
        assert(arts[arts.len() - 1].1 == v);
    } else {
        lemma_names_with_nonempty(arts.drop_last(), v);
        let k = choose|k: int| 0 <= k < arts.drop_last().len() && #[trigger] arts.drop_last()[k].1 == v;
        assert(arts[k] == arts.drop_last()[k]);
    }
}

} // verus!
