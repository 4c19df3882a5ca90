//! The scheduler: a priority-ordered ready queue over the mesh with
//! selectable ranking policies, duration estimates from a bounded
//! history of samples, and a `next` operation that returns the best
//! eligible task.

use vstd::prelude::*;
use crate::mesh::TaskMesh;
use crate::types::{Task, TaskDefinition, TaskId};

verus! {

broadcast use vstd::seq_lib::group_seq_properties;

/// The scale on which scores live; early-arrival and short-job scores
/// count down from here.
pub const SCORE_BASE: u64 = 0x4000_0000_0000;

/// The base ranking policies a hybrid policy can combine.
#[derive(Debug, Clone, Copy, PartialEq, Eq, Structural)]
pub enum BasePolicy {
    FIFO,
    LIFO,
    Priority,
    ShortestJobFirst,
    EarliestDeadlineFirst,
    CriticalRatio,
}

/// Ranking policies. The adaptive genetic policy is out of the core's
/// scope and ranks like the static priority policy.
#[derive(Debug, Clone, PartialEq)]
pub enum SchedulingHeuristic {
    FIFO,
    LIFO,
    Priority,
    ShortestJobFirst,
    EarliestDeadlineFirst,
    CriticalRatio,
    Genetic { population_size: usize, mutation_permille: u32, crossover_permille: u32 },
    Hybrid { primary: BasePolicy, secondary: BasePolicy, confidence_threshold_tenths: u8 },
}

/// The base policy that ranks like a top-level policy: the genetic and
/// hybrid policies themselves rank like the static priority policy when
/// nested.
pub open spec fn base_of(h: SchedulingHeuristic) -> BasePolicy {
    match h {
        SchedulingHeuristic::FIFO => BasePolicy::FIFO,
        SchedulingHeuristic::LIFO => BasePolicy::LIFO,
        SchedulingHeuristic::Priority => BasePolicy::Priority,
        SchedulingHeuristic::ShortestJobFirst => BasePolicy::ShortestJobFirst,
        SchedulingHeuristic::EarliestDeadlineFirst => BasePolicy::EarliestDeadlineFirst,
        SchedulingHeuristic::CriticalRatio => BasePolicy::CriticalRatio,
        SchedulingHeuristic::Genetic { .. } => BasePolicy::Priority,
        SchedulingHeuristic::Hybrid { .. } => BasePolicy::Priority,
    }
}

/// One entry of the ready queue.
#[derive(Debug, Clone, PartialEq)]
pub struct ScheduleItem {
    pub task_id: TaskId,
    pub priority: u8,
    pub estimated_ms: u64,
    pub confidence_tenths: u8,
    pub deadline_ms: Option<u64>,
    pub cpu_millicores: u64,
    pub memory_bytes: u64,
    pub created_at_ms: u64,
}

/// The score of an item under a base policy.
pub open spec fn spec_flat_score(h: BasePolicy, it: ScheduleItem, now_ms: u64) -> int {
    let base = SCORE_BASE as int;
    match h {
        BasePolicy::FIFO => {
            let created_s = it.created_at_ms as int / 1000;
            if created_s >= base {
                0
            } else {
                base - created_s
            }
        },
        BasePolicy::LIFO => {
            let created_s = it.created_at_ms as int / 1000;
            if created_s >= base {
                base
            } else {
                created_s
            }
        },
        BasePolicy::Priority => it.priority as int,
        BasePolicy::ShortestJobFirst => {
            let est_s = it.estimated_ms as int / 1000;
            if est_s >= base {
                0
            } else {
                base - est_s
            }
        },
        BasePolicy::EarliestDeadlineFirst => {
            match it.deadline_ms {
                None => it.priority as int,
                Some(d) => {
                    let slack_s = if d > now_ms {
                        (d - now_ms) as int / 1000
                    } else {
                        0
                    };
                    if slack_s >= base {
                        0
                    } else {
                        base - slack_s
                    }
                },
            }
        },
        BasePolicy::CriticalRatio => {
            match it.deadline_ms {
                None => it.priority as int,
                Some(d) => {
                    let slack = if d > now_ms {
                        (d - now_ms) as int
                    } else {
                        0
                    };
                    let ratio = slack * 1000 / (it.estimated_ms as int + 1);
                    if ratio >= base {
                        base
                    } else {
                        ratio
                    }
                },
            }
        },
    }
}

/// The score of an item: a hybrid policy follows its primary when the
/// estimate's confidence reaches the threshold and otherwise blends the
/// two scores by the confidence.
pub open spec fn spec_score(h: SchedulingHeuristic, it: ScheduleItem, now_ms: u64) -> int {
    match h {
        SchedulingHeuristic::Hybrid { primary, secondary, confidence_threshold_tenths } => {
            let ps = spec_flat_score(primary, it, now_ms);
            let ss = spec_flat_score(secondary, it, now_ms);
            let conf = if it.confidence_tenths > 10 {
                10int
            } else {
                it.confidence_tenths as int
            };
            if it.confidence_tenths >= confidence_threshold_tenths {
                ps
            } else {
                (ps * conf + ss * (10 - conf)) / 10
            }
        },
        _ => spec_flat_score(base_of(h), it, now_ms),
    }
}

/// Flat scores are within the score scale.
pub proof fn lemma_flat_score_bounds(h: BasePolicy, it: ScheduleItem, now_ms: u64)
    ensures
        0 <= spec_flat_score(h, it, now_ms) <= SCORE_BASE,
{
    match h {
        BasePolicy::CriticalRatio => {
            match it.deadline_ms {
                None => {},
                Some(d) => {
                    let slack = if d > now_ms {
                        (d - now_ms) as int
                    } else {
                        0
                    };
                    vstd::arithmetic::div_mod::lemma_div_is_ordered(
                        0,
                        slack * 1000,
                        it.estimated_ms as int + 1,
                    );
                    assert(slack * 1000 >= 0) by (nonlinear_arith)
                        requires
                            slack >= 0,
                    ;
                },
            }
        },
        _ => {},
    }
}

/// Computes the flat score.
fn flat_score(h: &BasePolicy, it: &ScheduleItem, now_ms: u64) -> (r: u64)
    ensures
        r == spec_flat_score(*h, *it, now_ms),
        r <= SCORE_BASE,
{
    proof {
        lemma_flat_score_bounds(*h, *it, now_ms);
    }
    match h {
        BasePolicy::FIFO => {
            let created_s = it.created_at_ms / 1000;
            if created_s >= SCORE_BASE {
                0
            } else {
                SCORE_BASE - created_s
            }
        },
        BasePolicy::LIFO => {
            let created_s = it.created_at_ms / 1000;
            if created_s >= SCORE_BASE {
                SCORE_BASE
            } else {
                created_s
            }
        },
        BasePolicy::Priority => it.priority as u64,
        BasePolicy::ShortestJobFirst => {
            let est_s = it.estimated_ms / 1000;
            if est_s >= SCORE_BASE {
                0
            } else {
                SCORE_BASE - est_s
            }
        },
        BasePolicy::EarliestDeadlineFirst => {
            match &it.deadline_ms {
                None => it.priority as u64,
                Some(d) => {
                    let slack_s = if *d > now_ms {
                        (*d - now_ms) / 1000
                    } else {
                        0
                    };
                    if slack_s >= SCORE_BASE {
                        0
                    } else {
                        SCORE_BASE - slack_s
                    }
                },
            }
        },
        BasePolicy::CriticalRatio => {
            match &it.deadline_ms {
                None => it.priority as u64,
                Some(d) => {
                    let slack = if *d > now_ms {
                        *d - now_ms
                    } else {
                        0
                    };
                    let wide: u128 = (slack as u128) * 1000 / (it.estimated_ms as u128 + 1);
                    proof {
                        assert((slack as int) * 1000 == (slack as u128) as int * 1000) by (
                        nonlinear_arith);
                    }
                    if wide >= SCORE_BASE as u128 {
                        SCORE_BASE
                    } else {
                        wide as u64
                    }
                },
            }
        },
    }
}

/// Computes the score of an item under the active policy.
pub fn score_of(h: &SchedulingHeuristic, it: &ScheduleItem, now_ms: u64) -> (r: u64)
    ensures
        r == spec_score(*h, *it, now_ms),
{
    match h {
        SchedulingHeuristic::Hybrid { primary, secondary, confidence_threshold_tenths } => {
            let ps = flat_score(primary, it, now_ms);
            let ss = flat_score(secondary, it, now_ms);
            if it.confidence_tenths >= *confidence_threshold_tenths {
                ps
            } else {
                let conf: u64 = if it.confidence_tenths > 10 {
                    10
                } else {
                    it.confidence_tenths as u64
                };
                proof {
                    lemma_flat_score_bounds(*primary, *it, now_ms);
                    lemma_flat_score_bounds(*secondary, *it, now_ms);
                    vstd::arithmetic::mul::lemma_mul_upper_bound(
                        ps as int,
                        SCORE_BASE as int,
                        conf as int,
                        10,
                    );
                    vstd::arithmetic::mul::lemma_mul_upper_bound(
                        ss as int,
                        SCORE_BASE as int,
                        (10 - conf) as int,
                        10,
                    );
                }
                (ps * conf + ss * (10 - conf)) / 10
            }
        },
        SchedulingHeuristic::FIFO => flat_score(&BasePolicy::FIFO, it, now_ms),
        SchedulingHeuristic::LIFO => flat_score(&BasePolicy::LIFO, it, now_ms),
        SchedulingHeuristic::Priority => flat_score(&BasePolicy::Priority, it, now_ms),
        SchedulingHeuristic::ShortestJobFirst => flat_score(
            &BasePolicy::ShortestJobFirst,
            it,
            now_ms,
        ),
        SchedulingHeuristic::EarliestDeadlineFirst => flat_score(
            &BasePolicy::EarliestDeadlineFirst,
            it,
            now_ms,
        ),
        SchedulingHeuristic::CriticalRatio => flat_score(&BasePolicy::CriticalRatio, it, now_ms),
        SchedulingHeuristic::Genetic { .. } => flat_score(&BasePolicy::Priority, it, now_ms),
    }
}

/// Whether `a` is strictly preferred over `b`: by score, then by
/// declared priority, then by earlier creation, then by identifier.
pub open spec fn spec_prefer(
    h: SchedulingHeuristic,
    a: ScheduleItem,
    b: ScheduleItem,
    now_ms: u64,
) -> bool {
    let sa = spec_score(h, a, now_ms);
    let sb = spec_score(h, b, now_ms);
    ||| sa > sb
    ||| (sa == sb && a.priority > b.priority)
    ||| (sa == sb && a.priority == b.priority && a.created_at_ms < b.created_at_ms)
    ||| (sa == sb && a.priority == b.priority && a.created_at_ms == b.created_at_ms && a.task_id
        < b.task_id)
}

/// Decides the preference order.
pub fn prefer(h: &SchedulingHeuristic, a: &ScheduleItem, b: &ScheduleItem, now_ms: u64) -> (r:
    bool)
    ensures
        r == spec_prefer(*h, *a, *b, now_ms),
{
    let sa = score_of(h, a, now_ms);
    let sb = score_of(h, b, now_ms);
    if sa != sb {
        sa > sb
    } else if a.priority != b.priority {
        a.priority > b.priority
    } else if a.created_at_ms != b.created_at_ms {
        a.created_at_ms < b.created_at_ms
    } else {
        a.task_id < b.task_id
    }
}

/// A bounded history of observed durations: the last hundred samples.
#[derive(Debug, Clone, PartialEq)]
pub struct DurationHistory {
    pub samples: Vec<u64>,
}

/// The sum of a sample sequence.
pub open spec fn spec_sum(s: Seq<u64>) -> int
    decreases s.len(),
{
    if s.len() == 0 {
        0
    } else {
        spec_sum(s.drop_last()) + s.last()
    }
}

/// Samples are clipped to this bound so that sums and scaled means stay
/// within range.
pub const SAMPLE_CAP_MS: u64 = 0x100_0000_0000;

impl DurationHistory {
    /// Every stored sample is within the cap and at most one hundred
    /// samples are kept.
    pub open spec fn wf(self) -> bool {
        self.samples@.len() <= 100 && forall|i: int|
            0 <= i < self.samples@.len() ==> #[trigger] self.samples@[i] <= SAMPLE_CAP_MS
    }

    /// An empty history.
    pub fn new() -> (r: DurationHistory)
        ensures
            r.wf(),
            r.samples@.len() == 0,
    {
        DurationHistory { samples: Vec::new() }
    }

    /// Records one observed duration, clipped to the cap; when the
    /// history is full the oldest sample leaves.
    pub fn record(&mut self, duration_ms: u64)
        requires
            old(self).wf(),
        ensures
            final(self).wf(),
            final(self).samples@ == (if old(self).samples@.len() < 100 {
                old(self).samples@
            } else {
                old(self).samples@.drop_first()
            }).push(
                if duration_ms > SAMPLE_CAP_MS {
                    SAMPLE_CAP_MS
                } else {
                    duration_ms
                },
            ),
    {
        let clipped = if duration_ms > SAMPLE_CAP_MS {
            SAMPLE_CAP_MS
        } else {
            duration_ms
        };
        if self.samples.len() >= 100 {
            let ghost before = self.samples@;
            self.samples.remove(0);
            proof {
                assert(self.samples@ =~= before.drop_first());
            }
        }
        self.samples.push(clipped);
    }

    /// The sum of the stored samples.
    fn sum(&self) -> (r: u64)
        requires
            self.wf(),
        ensures
            r == spec_sum(self.samples@),
    {
        let mut acc: u64 = 0;
        let mut i: usize = 0;
        proof {
            lemma_sum_bounds(self.samples@.take(0));
        }
        while i < self.samples.len()
            invariant
                self.wf(),
                i <= self.samples@.len(),
                acc == spec_sum(self.samples@.take(i as int)),
                acc <= i * (SAMPLE_CAP_MS as int),
            decreases self.samples@.len() - i,
        {
            proof {
                assert(self.samples@.take(i + 1).drop_last() =~= self.samples@.take(i as int));
                assert(self.samples@.take(i + 1).last() == self.samples@[i as int]);
                assert((i + 1) * (SAMPLE_CAP_MS as int) == i * (SAMPLE_CAP_MS as int)
                    + SAMPLE_CAP_MS) by (nonlinear_arith);
                assert(i * (SAMPLE_CAP_MS as int) <= 100 * (SAMPLE_CAP_MS as int)) by (
                nonlinear_arith)
                    requires
                        0 <= i <= 100,
            ;
            }
            acc = acc + self.samples[i];
            i = i + 1;
        }
        proof {
            assert(self.samples@.take(self.samples@.len() as int) =~= self.samples@);
        }
        acc
    }

    /// The point estimate over this history with the given per-mille
    /// safety factor: the mean scaled by the factor. With no samples the
    /// given fallback is scaled instead. The confidence is one tenth per
    /// sample, at most one.
    pub fn estimate(&self, fallback_ms: u64, safety_permille: u32) -> (r: (u64, u8))
        requires
            self.wf(),
            fallback_ms <= SAMPLE_CAP_MS,
            safety_permille <= 10_000,
        ensures
            self.samples@.len() == 0 ==> r.0 == fallback_ms as int * safety_permille as int / 1000
                && r.1 == 3,
            self.samples@.len() > 0 ==> r.0 == (spec_sum(self.samples@) / self.samples@.len()
                as int) * safety_permille as int / 1000 && r.1 == (if self.samples@.len() >= 10 {
                10int
            } else {
                self.samples@.len() as int
            }),
    {
        if self.samples.len() == 0 {
            proof {
                vstd::arithmetic::mul::lemma_mul_upper_bound(
                    fallback_ms as int,
                    SAMPLE_CAP_MS as int,
                    safety_permille as int,
                    10_000,
                );
                vstd::arithmetic::div_mod::lemma_div_is_ordered(
                    fallback_ms as int * safety_permille as int,
                    SAMPLE_CAP_MS as int * 10_000,
                    1000,
                );
            }
            let scaled: u128 = (fallback_ms as u128) * (safety_permille as u128) / 1000;
            (scaled as u64, 3)
        } else {
            let s = self.sum();
            let mean = s / (self.samples.len() as u64);
            proof {
                lemma_sum_bounds(self.samples@);
                vstd::arithmetic::div_mod::lemma_div_is_ordered(
                    s as int,
                    100 * (SAMPLE_CAP_MS as int),
                    self.samples@.len() as int,
                );
                vstd::arithmetic::mul::lemma_mul_upper_bound(
                    mean as int,
                    100 * (SAMPLE_CAP_MS as int),
                    safety_permille as int,
                    10_000,
                );
            }
            proof {
                vstd::arithmetic::div_mod::lemma_div_is_ordered(
                    mean as int * safety_permille as int,
                    100 * (SAMPLE_CAP_MS as int) * 10_000,
                    1000,
                );
            }
            let scaled: u128 = (mean as u128) * (safety_permille as u128) / 1000;
            let conf: u8 = if self.samples.len() >= 10 {
                10
            } else {
                self.samples.len() as u8
            };
            (scaled as u64, conf)
        }
    }
}

/// Sample sums are bounded by the sample cap times the length.
pub proof fn lemma_sum_bounds(s: Seq<u64>)
    requires
        forall|i: int| 0 <= i < s.len() ==> #[trigger] s[i] <= SAMPLE_CAP_MS,
    ensures
        0 <= spec_sum(s) <= s.len() * (SAMPLE_CAP_MS as int),
    decreases s.len(),
{
    if s.len() > 0 {
        lemma_sum_bounds(s.drop_last());
        assert(s.len() * (SAMPLE_CAP_MS as int) == (s.len() - 1) * (SAMPLE_CAP_MS as int)
            + SAMPLE_CAP_MS) by (nonlinear_arith);
    }
}

/// The default duration estimate for a definition kind, in
/// milliseconds.
pub fn default_estimate_for(definition: &TaskDefinition) -> (r: u64)
    ensures
        r == match definition {
            TaskDefinition::Command(_) => 30_000int,
            TaskDefinition::PythonScript { .. } => 60_000int,
            TaskDefinition::RustFunction { .. } => 10_000int,
            TaskDefinition::HttpRequest { .. } => 5_000int,
            TaskDefinition::Workflow { .. } => 300_000int,
        },
        r <= SAMPLE_CAP_MS,
{
    match definition {
        TaskDefinition::Command(_) => 30_000,
        TaskDefinition::PythonScript { .. } => 60_000,
        TaskDefinition::RustFunction { .. } => 10_000,
        TaskDefinition::HttpRequest { .. } => 5_000,
        TaskDefinition::Workflow { .. } => 300_000,
    }
}

/// The scheduler: the active policy, the ready queue, and per-kind
/// duration histories.
#[derive(Debug, Clone)]
pub struct Scheduler {
    pub heuristic: SchedulingHeuristic,
    pub queue: Vec<ScheduleItem>,
    pub command_history: DurationHistory,
    pub script_history: DurationHistory,
    pub function_history: DurationHistory,
    pub request_history: DurationHistory,
    pub workflow_history: DurationHistory,
    pub safety_permille: u32,
}

/// Whether an item may be handed out: its task is ready for dispatch
/// and its resource need fits what is available.
pub open spec fn spec_eligible(
    mesh: TaskMesh,
    it: ScheduleItem,
    cpu_millicores: u64,
    memory_bytes: u64,
) -> bool {
    &&& mesh.is_ready_for_dispatch(it.task_id)
    &&& it.cpu_millicores <= cpu_millicores
    &&& it.memory_bytes <= memory_bytes
}

impl Scheduler {
    /// Structural validity of the histories and the safety factor.
    pub open spec fn wf(self) -> bool {
        &&& self.command_history.wf()
        &&& self.script_history.wf()
        &&& self.function_history.wf()
        &&& self.request_history.wf()
        &&& self.workflow_history.wf()
        &&& self.safety_permille <= 10_000
    }

    /// Creates a scheduler with the given policy, an empty queue and a
    /// twenty percent safety margin on estimates.
    pub fn new(heuristic: SchedulingHeuristic) -> (r: Scheduler)
        ensures
            r.wf(),
            r.heuristic == heuristic,
            r.queue@.len() == 0,
            r.safety_permille == 1200,
    {
        Scheduler {
            heuristic,
            queue: Vec::new(),
            command_history: DurationHistory::new(),
            script_history: DurationHistory::new(),
            function_history: DurationHistory::new(),
            request_history: DurationHistory::new(),
            workflow_history: DurationHistory::new(),
            safety_permille: 1200,
        }
    }

    /// Enqueues a task: its estimate comes from the history of its
    /// definition kind, its deadline from its creation time plus its
    /// timeout.
    pub fn schedule_task(&mut self, task: &Task) -> (r: ())
        requires
            old(self).wf(),
        ensures
            final(self).wf(),
            final(self).queue@.len() == old(self).queue@.len() + 1,
            forall|j: int|
                0 <= j < old(self).queue@.len() ==> final(self).queue@[j] == old(self).queue@[j],
            ({
                let it = final(self).queue@.last();
                &&& it.task_id == task.id
                &&& it.priority == task.priority
                &&& it.created_at_ms == task.created_at_ms
                &&& it.deadline_ms == (match task.timeout_ms {
                    Some(t) => Some(
                        (if task.created_at_ms + t > u64::MAX {
                            u64::MAX as int
                        } else {
                            task.created_at_ms + t
                        }) as u64,
                    ),
                    None => None::<u64>,
                })
            }),
            final(self).heuristic == old(self).heuristic,
            final(self).command_history == old(self).command_history,
            final(self).script_history == old(self).script_history,
            final(self).function_history == old(self).function_history,
            final(self).request_history == old(self).request_history,
            final(self).workflow_history == old(self).workflow_history,
    {
        let fallback = default_estimate_for(&task.definition);
        let est = match &task.definition {
            TaskDefinition::Command(_) => self.command_history.estimate(
                fallback,
                self.safety_permille,
            ),
            TaskDefinition::PythonScript { .. } => self.script_history.estimate(
                fallback,
                self.safety_permille,
            ),
            TaskDefinition::RustFunction { .. } => self.function_history.estimate(
                fallback,
                self.safety_permille,
            ),
            TaskDefinition::HttpRequest { .. } => self.request_history.estimate(
                fallback,
                self.safety_permille,
            ),
            TaskDefinition::Workflow { .. } => self.workflow_history.estimate(
                fallback,
                self.safety_permille,
            ),
        };
        let deadline = match &task.timeout_ms {
            Some(t) => {
                let d = if task.created_at_ms > u64::MAX - *t {
                    u64::MAX
                } else {
                    task.created_at_ms + *t
                };
                Some(d)
            },
            None => None,
        };
        let item = ScheduleItem {
            task_id: task.id,
            priority: task.priority,
            estimated_ms: est.0,
            confidence_tenths: est.1,
            deadline_ms: deadline,
            cpu_millicores: 1000,
            memory_bytes: 0x4000_0000,
            created_at_ms: task.created_at_ms,
        };
        let ghost before = self.queue@;
        self.queue.push(item);
        proof {
            assert(self.queue@ =~= before.push(item));
        }
    }

    /// Records an observed duration in the history of a definition
    /// kind.
    pub fn report_task_completion(&mut self, definition: &TaskDefinition, duration_ms: u64)
        requires
            old(self).wf(),
        ensures
            final(self).wf(),
            final(self).queue == old(self).queue,
            final(self).heuristic == old(self).heuristic,
    {
        match definition {
            TaskDefinition::Command(_) => self.command_history.record(duration_ms),
            TaskDefinition::PythonScript { .. } => self.script_history.record(duration_ms),
            TaskDefinition::RustFunction { .. } => self.function_history.record(duration_ms),
            TaskDefinition::HttpRequest { .. } => self.request_history.record(duration_ms),
            TaskDefinition::Workflow { .. } => self.workflow_history.record(duration_ms),
        }
    }

    /// Hands out the best eligible task: among the queued items whose
    /// hard predecessors are completed and whose resource need fits,
    /// the one the policy prefers. Items that are not eligible stay
    /// queued.
    pub fn next(
        &mut self,
        mesh: &TaskMesh,
        cpu_millicores: u64,
        memory_bytes: u64,
        now_ms: u64,
    ) -> (r: Option<TaskId>)
        requires
            old(self).wf(),
            mesh.wf(),
        ensures
            final(self).wf(),
            final(self).heuristic == old(self).heuristic,
            match r {
                Some(id) => exists|pos: int|
                    {
                        &&& 0 <= pos < old(self).queue@.len()
                        &&& (#[trigger] old(self).queue@[pos]).task_id == id
                        &&& spec_eligible(*mesh, old(self).queue@[pos], cpu_millicores, memory_bytes)
                        &&& final(self).queue@ == old(self).queue@.remove(pos)
                        &&& forall|j: int|
                            0 <= j < old(self).queue@.len() && j != pos && spec_eligible(
                                *mesh,
                                #[trigger] old(self).queue@[j],
                                cpu_millicores,
                                memory_bytes,
                            ) ==> !spec_prefer(
                                old(self).heuristic,
                                old(self).queue@[j],
                                old(self).queue@[pos],
                                now_ms,
                            )
                    },
                None => final(self).queue@ == old(self).queue@ && forall|j: int|
                    0 <= j < old(self).queue@.len() ==> !spec_eligible(
                        *mesh,
                        #[trigger] old(self).queue@[j],
                        cpu_millicores,
                        memory_bytes,
                    ),
            },
    {
        let mut best: Option<usize> = None;
        let mut i: usize = 0;
        while i < self.queue.len()
            invariant
                self.wf(),
                mesh.wf(),
                *self == *old(self),
                i <= self.queue@.len(),
                match best {
                    Some(b) => {
                        &&& b < i
                        &&& spec_eligible(*mesh, self.queue@[b as int], cpu_millicores, memory_bytes)
                        &&& forall|j: int|
                            0 <= j < i && j != b && spec_eligible(
                                *mesh,
                                #[trigger] self.queue@[j],
                                cpu_millicores,
                                memory_bytes,
                            ) ==> !spec_prefer(
                                self.heuristic,
                                self.queue@[j],
                                self.queue@[b as int],
                                now_ms,
                            )
                    },
                    None => forall|j: int|
                        0 <= j < i ==> !spec_eligible(
                            *mesh,
                            #[trigger] self.queue@[j],
                            cpu_millicores,
                            memory_bytes,
                        ),
                },
            decreases self.queue@.len() - i,
        {
            let it = &self.queue[i];
            let kind_ok = match mesh.get_status(it.task_id) {
                Some(st) => {
                    let k = st.kind();
                    k == crate::types::StatusKind::Pending || k == crate::types::StatusKind::Ready
                },
                None => false,
            };
            let elig = kind_ok && mesh.hard_deps_ok(it.task_id) && it.cpu_millicores
                <= cpu_millicores && it.memory_bytes <= memory_bytes;
            if elig {
                match best {
                    None => {
                        best = Some(i);
                    },
                    Some(b) => {
                        let better = prefer(
                            &self.heuristic,
                            &self.queue[i],
                            &self.queue[b],
                            now_ms,
                        );
                        if better {
                            proof {
                                // Nothing seen so far is preferred over
                                // the new best: its key dominates the
                                // old best's, which dominated theirs.
                                assert forall|j: int|
                                    0 <= j < i && spec_eligible(
                                        *mesh,
                                        #[trigger] self.queue@[j],
                                        cpu_millicores,
                                        memory_bytes,
                                    ) implies !spec_prefer(
                                    self.heuristic,
                                    self.queue@[j],
                                    self.queue@[i as int],
                                    now_ms,
                                ) by {
                                    if j != b {
                                        assert(!spec_prefer(
                                            self.heuristic,
                                            self.queue@[j],
                                            self.queue@[b as int],
                                            now_ms,
                                        ));
                                    }
                                };
                            }
                            best = Some(i);
                        }
                    },
                }
            }
            i = i + 1;
        }
        match best {
            Some(b) => {
                let id = self.queue[b].task_id;
                let ghost before = self.queue@;
                self.queue.remove(b);
                proof {
                    assert(self.queue@ =~= before.remove(b as int));
                }
                Some(id)
            },
            None => None,
        }
    }
}

/// An execution plan over the whole mesh: a topological order and its
/// bounded parallel groups.
#[derive(Debug, Clone, PartialEq)]
pub struct ExecutionPlan {
    pub execution_order: Vec<TaskId>,
    pub parallel_groups: Vec<Vec<TaskId>>,
    pub sync_points: Vec<usize>,
}

impl Scheduler {
    /// Generates an execution plan: a topological order of the mesh,
    /// chunked into groups of at most `max_parallel` tasks. A
    /// synchronization point follows each group.
    pub fn generate_execution_plan(&self, mesh: &TaskMesh, max_parallel: usize) -> (r:
        ExecutionPlan)
        requires
            mesh.wf(),
            max_parallel >= 1,
        ensures
            r.execution_order@.len() == mesh.nodes@.len(),
            r.execution_order@.no_duplicates(),
            forall|x: TaskId| #[trigger] r.execution_order@.contains(x) <==> mesh.has_task(x),
            forall|k: int, i: int, j: int|
                0 <= k < mesh.edges@.len() && 0 <= i < r.execution_order@.len() && 0 <= j
                    < r.execution_order@.len() && #[trigger] r.execution_order@[i] == (
                #[trigger] mesh.edges@[k]).source && #[trigger] r.execution_order@[j]
                    == mesh.edges@[k].target ==> i < j,
            forall|g: int|
                0 <= g < r.parallel_groups@.len() ==> (#[trigger] r.parallel_groups@[g])@
                    == r.execution_order@.subrange(
                    g * max_parallel,
                    if (g + 1) * max_parallel <= r.execution_order@.len() {
                        (g + 1) * max_parallel
                    } else {
                        r.execution_order@.len() as int
                    },
                ),
            r.parallel_groups@.len() * max_parallel >= r.execution_order@.len(),
            r.sync_points@.len() == r.parallel_groups@.len(),
    {
        let order = mesh.topological_order();
        let mut groups: Vec<Vec<TaskId>> = Vec::new();
        let mut sync_points: Vec<usize> = Vec::new();
        let mut pos: usize = 0;
        while pos < order.len()
            invariant
                max_parallel >= 1,
                pos <= order@.len(),
                groups@.len() * max_parallel >= pos,
                pos == 0 || groups@.len() * max_parallel < pos + max_parallel,
                pos == groups@.len() * max_parallel || pos == order@.len(),
                sync_points@.len() == groups@.len(),
                forall|g: int|
                    0 <= g < groups@.len() ==> (#[trigger] groups@[g])@ == order@.subrange(
                        g * max_parallel,
                        if (g + 1) * max_parallel <= order@.len() {
                            (g + 1) * max_parallel
                        } else {
                            order@.len() as int
                        },
                    ),
            decreases order@.len() - pos,
        {
            let remaining = order.len() - pos;
            let take = if remaining < max_parallel {
                remaining
            } else {
                max_parallel
            };
            let ghost gstart = pos as int;
            let olen = order.len();
            let mut group: Vec<TaskId> = Vec::new();
            let mut t: usize = 0;
            while t < take
                invariant
                    order@.len() == olen,
                    pos + take <= order@.len(),
                    t <= take,
                    group@ == order@.subrange(gstart, gstart + t),
                    gstart == pos,
                decreases take - t,
            {
                group.push(order[pos + t]);
                proof {
                    assert(group@ =~= order@.subrange(gstart, gstart + t + 1));
                }
                t = t + 1;
            }
            let ghost old_groups = groups@;
            groups.push(group);
            sync_points.push(pos + take);
            proof {
                assert(groups@ =~= old_groups.push(groups@.last()));
                assert((groups@.last())@ == order@.subrange(gstart, gstart + take as int));
                assert(old_groups.len() * max_parallel >= pos || pos == 0);
                assert((old_groups.len() + 1) * max_parallel == old_groups.len() * max_parallel
                    + max_parallel) by (nonlinear_arith);
                assert(forall|g: int| 0 <= g < old_groups.len() ==> groups@[g] == old_groups[g]);
            }
            pos = pos + take;
        }
        proof {
            assert(pos == order@.len());
        }
        ExecutionPlan { execution_order: order, parallel_groups: groups, sync_points }
    }
}

} // verus!
