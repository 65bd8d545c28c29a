//! Batch orchestration decisions: grouping jobs and picking a strategy.
//!
//! A batch is grouped font by font, and within a font instance by instance
//! — one instance being one coordinate set — so that workers sharing a font
//! or an instance never load or configure it twice. The parallelization
//! strategy follows the shape of the distribution: many fonts split by
//! font, few fonts with many instances split by instance, few of both with
//! long text lists split by text, and balanced loads split hierarchically.
//! The driver that actually fans groups out across threads lives outside
//! the library; these functions make every decision it acts on.

use vstd::prelude::*;

use crate::batch::{Job, VariationSetting};
use crate::strutil::str_eq;

verus! {

/// How a batch is split across workers.
#[derive(Clone, Copy, Debug, PartialEq, Eq, Structural)]
pub enum ParallelizationStrategy {
    /// Many fonts: one work unit per font.
    FontLevel,
    /// Few fonts, many instances: one work unit per instance.
    InstanceLevel,
    /// Few fonts and instances, many texts: one work unit per text.
    TextLevel,
    /// Balanced distribution: split large fonts by instance, keep the rest
    /// whole.
    Hierarchical,
}

/// Pick the strategy for a distribution: `fonts` distinct fonts,
/// `instances` distinct instances, the largest text count per instance, and
/// the worker count.
pub fn determine_strategy(fonts: usize, instances: usize, max_texts: usize, cores: usize) -> (r:
    ParallelizationStrategy)
    requires
        cores >= 1,
    ensures
        r == (if fonts >= 2 * cores {
            ParallelizationStrategy::FontLevel
        } else if fonts < cores / 2 && instances >= 2 * cores {
            ParallelizationStrategy::InstanceLevel
        } else if instances < cores && max_texts >= 100 {
            ParallelizationStrategy::TextLevel
        } else {
            ParallelizationStrategy::Hierarchical
        }),
{
    let fonts = fonts as u128;
    let instances = instances as u128;
    let cores128 = cores as u128;
    if fonts >= 2 * cores128 {
        ParallelizationStrategy::FontLevel
    } else if fonts < cores128 / 2 && instances >= 2 * cores128 {
        ParallelizationStrategy::InstanceLevel
    } else if instances < cores128 && max_texts >= 100 {
        ParallelizationStrategy::TextLevel
    } else {
        ParallelizationStrategy::Hierarchical
    }
}

/// Two coordinate lists request the same instance: the same tags with the
/// same values, in the same order.
pub open spec fn variations_match(a: Seq<VariationSetting>, b: Seq<VariationSetting>) -> bool {
    &&& a.len() == b.len()
    &&& forall|i: int|
        0 <= i < a.len() ==> (#[trigger] a[i]).tag@ == b[i].tag@ && a[i].value == b[i].value
}

/// Compare two coordinate lists.
pub fn variations_eq(a: &Vec<VariationSetting>, b: &Vec<VariationSetting>) -> (r: bool)
    ensures
        r == variations_match(a@, b@),
{
    let n = a.len();
    if n != b.len() {
        return false;
    }
    let mut i: usize = 0;
    while i < n
        invariant
            i <= n,
            n == a@.len(),
            n == b@.len(),
            forall|j: int|
                0 <= j < i ==> (#[trigger] a@[j]).tag@ == b@[j].tag@ && a@[j].value == b@[j].value,
        decreases n - i,
    {
        if !str_eq(a[i].tag.as_str(), b[i].tag.as_str()) || a[i].value != b[i].value {
            return false;
        }
        i = i + 1;
    }
    true
}

/// Two jobs belong to the same work group under a grouping mode.
pub open spec fn same_group(by_instance: bool, a: Job, b: Job) -> bool {
    &&& a.font.path@ == b.font.path@
    &&& (by_instance ==> variations_match(a.font.variations@, b.font.variations@))
}

/// One work group: the indices of the batch's jobs that share a font (and,
/// when grouping by instance, a coordinate set). The first index is the
/// group's representative.
pub struct WorkGroup {
    /// Indices into the batch, in input order.
    pub members: Vec<usize>,
}

/// The groups partition the batch: every group is non-empty with strictly
/// increasing in-range indices, two indices land in the same group exactly
/// when their jobs match, and every job is in some group.
pub open spec fn groups_partition(jobs: Seq<Job>, by_instance: bool, gs: Seq<WorkGroup>) -> bool {
    &&& forall|g: int| 0 <= g < gs.len() ==> (#[trigger] gs[g]).members@.len() > 0
    &&& forall|g: int, k: int|
        0 <= g < gs.len() && 0 <= k < (#[trigger] gs[g]).members@.len() ==> (#[trigger] gs[g].members@[k]) < jobs.len()
    &&& forall|g: int, k: int|
        0 <= g < gs.len() && 0 < k < (#[trigger] gs[g]).members@.len() ==> gs[g].members@[k - 1]
            < (#[trigger] gs[g].members@[k])
    &&& forall|g: int, k: int|
        0 <= g < gs.len() && 0 <= k < (#[trigger] gs[g]).members@.len() ==> same_group(
            by_instance,
            jobs[gs[g].members@[0] as int],
            jobs[(#[trigger] gs[g].members@[k]) as int],
        )
    &&& forall|g1: int, g2: int|
        0 <= g1 < g2 < gs.len() ==> !same_group(
            by_instance,
            jobs[(#[trigger] gs[g1]).members@[0] as int],
            jobs[(#[trigger] gs[g2]).members@[0] as int],
        )
    &&& forall|i: int|
        0 <= i < jobs.len() ==> covered_by_some_group(gs, i)
}

/// Some group member names this job index.
pub open spec fn covered_by_some_group(gs: Seq<WorkGroup>, i: int) -> bool {
    exists|g: int, k: int|
        0 <= g < gs.len() && 0 <= k < gs[g].members@.len() && (#[trigger] gs[g].members@[k]) == i
}

/// Whether a job matches a group's representative.
fn job_matches(by_instance: bool, a: &Job, b: &Job) -> (r: bool)
    ensures
        r == same_group(by_instance, *a, *b),
{
    if !str_eq(a.font.path.as_str(), b.font.path.as_str()) {
        return false;
    }
    if by_instance {
        variations_eq(&a.font.variations, &b.font.variations)
    } else {
        true
    }
}

/// Find the group whose representative a job matches.
fn find_group(groups: &Vec<WorkGroup>, jobs: &Vec<Job>, i: usize, by_instance: bool) -> (r: Option<
    usize,
>)
    requires
        i < jobs@.len(),
        forall|g: int| 0 <= g < groups@.len() ==> (#[trigger] groups@[g]).members@.len() > 0,
        forall|g: int, k: int|
            0 <= g < groups@.len() && 0 <= k < (#[trigger] groups@[g]).members@.len() ==> (
            #[trigger] groups@[g].members@[k]) < jobs@.len(),
    ensures
        r matches Some(g) ==> g < groups@.len() && same_group(
            by_instance,
            jobs@[groups@[g as int].members@[0] as int],
            jobs@[i as int],
        ),
        r is None ==> forall|h: int|
            0 <= h < groups@.len() ==> !same_group(
                by_instance,
                jobs@[(#[trigger] groups@[h]).members@[0] as int],
                jobs@[i as int],
            ),
{
    let m = groups.len();
    let mut g: usize = 0;
    while g < m
        invariant
            g <= m,
            i < jobs@.len(),
            m == groups@.len(),
            forall|h: int| 0 <= h < m ==> (#[trigger] groups@[h]).members@.len() > 0,
            forall|h: int, k: int|
                0 <= h < m && 0 <= k < (#[trigger] groups@[h]).members@.len() ==> (
                #[trigger] groups@[h].members@[k]) < jobs@.len(),
            forall|h: int|
                0 <= h < g ==> !same_group(
                    by_instance,
                    jobs@[(#[trigger] groups@[h]).members@[0] as int],
                    jobs@[i as int],
                ),
        decreases m - g,
    {
        let leader = groups[g].members[0];
        if job_matches(by_instance, &jobs[leader], &jobs[i]) {
            return Some(g);
        }
        g = g + 1;
    }
    None
}

/// Group a batch's jobs by font, or by font instance. The result is a
/// partition: each job lands in exactly the group whose representative it
/// matches, groups keep input order, and no two groups share a font (or
/// instance).
pub fn group_jobs(jobs: &Vec<Job>, by_instance: bool) -> (r: Vec<WorkGroup>)
    ensures
        groups_partition(jobs@, by_instance, r@),
{
    let n = jobs.len();
    let mut groups: Vec<WorkGroup> = Vec::new();
    let mut i: usize = 0;
    while i < n
        invariant
            i <= n,
            n == jobs@.len(),
            forall|g: int| 0 <= g < groups@.len() ==> (#[trigger] groups@[g]).members@.len() > 0,
            forall|g: int, k: int|
                0 <= g < groups@.len() && 0 <= k < (#[trigger] groups@[g]).members@.len() ==> (
                #[trigger] groups@[g].members@[k]) < i,
            forall|g: int, k: int|
                0 <= g < groups@.len() && 0 < k < (#[trigger] groups@[g]).members@.len()
                    ==> groups@[g].members@[k - 1] < (#[trigger] groups@[g].members@[k]),
            forall|g: int, k: int|
                0 <= g < groups@.len() && 0 <= k < (#[trigger] groups@[g]).members@.len()
                    ==> same_group(
                    by_instance,
                    jobs@[groups@[g].members@[0] as int],
                    jobs@[(#[trigger] groups@[g].members@[k]) as int],
                ),
            forall|g1: int, g2: int|
                0 <= g1 < g2 < groups@.len() ==> !same_group(
                    by_instance,
                    jobs@[(#[trigger] groups@[g1]).members@[0] as int],
                    jobs@[(#[trigger] groups@[g2]).members@[0] as int],
                ),
            forall|j: int| 0 <= j < i ==> covered_by_some_group(groups@, j),
        decreases n - i,
    {
        let ghost pre = groups@;
        match find_group(&groups, jobs, i, by_instance) {
            Some(g) => {
                let mut grp = groups.remove(g);
                grp.members.push(i);
                let ghost newmem = grp.members@;
                groups.insert(g, grp);
                proof {
                    lemma_same_group_symmetric_transitive(by_instance);
                    assert(newmem == pre[g as int].members@.push(i));
                    assert(groups@.len() == pre.len());
                    assert(groups@[g as int].members@ == newmem);
                    assert forall|h: int|
                        0 <= h < pre.len() && h != g as int implies groups@[h] == pre[h] by {
                        if h < g as int {
                            assert(groups@[h] == pre.remove(g as int)[h]);
                        } else {
                            assert(groups@[h] == pre.remove(g as int)[h - 1]);
                        }
                    }
                    assert forall|h: int, k: int|
                        0 <= h < groups@.len() && 0 <= k < (
                        #[trigger] groups@[h]).members@.len() implies same_group(
                        by_instance,
                        jobs@[groups@[h].members@[0] as int],
                        jobs@[(#[trigger] groups@[h].members@[k]) as int],
                    ) by {
                        if h == g as int {
                            assert(groups@[h].members@[0] == pre[h].members@[0]);
                            if k < groups@[h].members@.len() - 1 {
                                assert(groups@[h].members@[k] == pre[h].members@[k]);
                            } else {
                                assert(groups@[h].members@[k] == i);
                            }
                        }
                    }
                    assert forall|j: int| 0 <= j < i + 1 implies covered_by_some_group(
                        groups@,
                        j,
                    ) by {
                        if j == i as int {
                            assert(groups@[g as int].members@[groups@[g as int].members@.len() - 1]
                                == i);
                        } else {
                            assert(covered_by_some_group(pre, j));
                            let (h, k) = choose|h: int, k: int|
                                0 <= h < pre.len() && 0 <= k < pre[h].members@.len() && (
                                #[trigger] pre[h].members@[k]) == j;
                            if h == g as int {
                                assert(groups@[h].members@[k] == pre[h].members@[k]);
                            } else {
                                assert(groups@[h] == pre[h]);
                            }
                            assert(groups@[h].members@[k] == j);
                        }
                    }
                }
            },
            None => {
                let mut members: Vec<usize> = Vec::new();
                members.push(i);
                groups.push(WorkGroup { members });
                proof {
                    assert(groups@ =~= pre.push(WorkGroup { members: members }));
                    assert forall|j: int| 0 <= j < i + 1 implies covered_by_some_group(
                        groups@,
                        j,
                    ) by {
                        if j == i as int {
                            assert(groups@[groups@.len() - 1].members@[0] == i);
                        } else {
                            assert(covered_by_some_group(pre, j));
                            let (h, k) = choose|h: int, k: int|
                                0 <= h < pre.len() && 0 <= k < pre[h].members@.len() && (
                                #[trigger] pre[h].members@[k]) == j;
                            assert(groups@[h] == pre[h]);
                            assert(groups@[h].members@[k] == j);
                        }
                    }
                }
            },
        }
        i = i + 1;
    }
    groups
}

/// Group matching is symmetric and transitive: matching the representative
/// means matching every member.
proof fn lemma_same_group_symmetric_transitive(by_instance: bool)
    ensures
        forall|a: Job, b: Job| #[trigger] same_group(by_instance, a, b) ==> same_group(by_instance, b, a),
        forall|a: Job, b: Job, c: Job|
            #[trigger] same_group(by_instance, a, b) && #[trigger] same_group(by_instance, b, c)
                ==> same_group(by_instance, a, c),
{
}

/// Statistics about a batch's distribution.
#[derive(Clone, Copy, Debug, PartialEq, Eq, Structural)]
pub struct JobStats {
    /// Jobs in the batch.
    pub total_jobs: usize,
    /// Distinct fonts.
    pub unique_fonts: usize,
    /// Distinct font instances.
    pub unique_instances: usize,
    /// Largest number of texts sharing one instance.
    pub max_texts_per_instance: usize,
    /// The strategy the distribution selects.
    pub parallelization_strategy: ParallelizationStrategy,
}

/// Analyze a batch: count distinct fonts and instances, find the heaviest
/// instance, and pick the strategy for the given worker count.
pub fn analyze_jobs(jobs: &Vec<Job>, cores: usize) -> (r: JobStats)
    requires
        cores >= 1,
    ensures
        r.total_jobs == jobs@.len(),
        exists|gs: Seq<WorkGroup>|
            groups_partition(jobs@, false, gs) && r.unique_fonts == gs.len(),
        exists|gs: Seq<WorkGroup>|
            groups_partition(jobs@, true, gs) && r.unique_instances == gs.len(),
{
    let font_groups = group_jobs(jobs, false);
    let instance_groups = group_jobs(jobs, true);
    let mut max_texts: usize = 0;
    let m = instance_groups.len();
    let mut g: usize = 0;
    while g < m
        invariant
            g <= m,
            m == instance_groups@.len(),
        decreases m - g,
    {
        let size = instance_groups[g].members.len();
        if size > max_texts {
            max_texts = size;
        }
        g = g + 1;
    }
    let strategy = determine_strategy(font_groups.len(), instance_groups.len(), max_texts, cores);
    proof {
        assert(groups_partition(jobs@, false, font_groups@));
        assert(groups_partition(jobs@, true, instance_groups@));
    }
    JobStats {
        total_jobs: jobs.len(),
        unique_fonts: font_groups.len(),
        unique_instances: instance_groups.len(),
        max_texts_per_instance: max_texts,
        parallelization_strategy: strategy,
    }
}

} // verus!
