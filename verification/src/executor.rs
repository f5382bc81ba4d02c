//! Task-executor rules: lane routing, per-kind deadlines and batch sizes,
//! backpressure admission over a bounded permit count, and the counters the
//! workers update. The asynchronous runtime and the worker threads live
//! outside; every scheduling decision is made here.

use vstd::prelude::*;
use crate::parser::{sat_add, usize_sat_add};

verus! {

/// Kinds of work the executor schedules.
#[derive(Clone, Copy, Debug, PartialEq, Eq)]
pub enum TaskType {
    /// File mapping, disk and network reads.
    IoIntensive,
    /// Decompression, decoding, computation.
    CpuIntensive,
    /// Parsing and conversion that does both.
    Mixed,
    /// Short, latency-critical work.
    HighPriority,
    /// A caller-defined kind with its own weight.
    Custom(u32),
}

/// Task priority; larger is more urgent.
#[derive(Clone, Copy, Debug, PartialEq, Eq)]
pub enum Priority {
    /// Background work.
    Low,
    /// Ordinary work.
    Normal,
    /// Urgent work.
    High,
    /// Work that must not wait.
    Critical,
}

impl Priority {
    /// The rank of a priority, for comparisons.
    pub open spec fn spec_rank(self) -> int {
        match self {
            Priority::Low => 0,
            Priority::Normal => 1,
            Priority::High => 2,
            Priority::Critical => 3,
        }
    }

    /// The rank of a priority.
    pub fn rank(self) -> (r: u32)
        ensures
            r == self.spec_rank(),
    {
        match self {
            Priority::Low => 0,
            Priority::Normal => 1,
            Priority::High => 2,
            Priority::Critical => 3,
        }
    }
}

/// The lanes work is routed to.
#[derive(Clone, Copy, Debug, PartialEq, Eq)]
pub enum Lane {
    /// The asynchronous lane for reads and writes.
    Io,
    /// The thread-pool lane for computation.
    Cpu,
    /// The dedicated lane for urgent work.
    PriorityLane,
}

impl TaskType {
    /// The lane a kind of work prefers.
    pub fn suggested_pool(self) -> (r: Lane)
        ensures
            r == (match self {
                TaskType::IoIntensive => Lane::Io,
                TaskType::CpuIntensive => Lane::Cpu,
                TaskType::Mixed => Lane::Cpu,
                TaskType::HighPriority => Lane::PriorityLane,
                TaskType::Custom(_) => Lane::Io,
            }),
    {
        match self {
            TaskType::IoIntensive => Lane::Io,
            TaskType::CpuIntensive => Lane::Cpu,
            TaskType::Mixed => Lane::Cpu,
            TaskType::HighPriority => Lane::PriorityLane,
            TaskType::Custom(_) => Lane::Io,
        }
    }

    /// The weight of a kind of work, for load balancing.
    pub fn weight(self) -> (r: u32)
        ensures
            r == (match self {
                TaskType::IoIntensive => 1u32,
                TaskType::CpuIntensive => 2u32,
                TaskType::Mixed => 3u32,
                TaskType::HighPriority => 10u32,
                TaskType::Custom(w) => w,
            }),
    {
        match self {
            TaskType::IoIntensive => 1,
            TaskType::CpuIntensive => 2,
            TaskType::Mixed => 3,
            TaskType::HighPriority => 10,
            TaskType::Custom(w) => w,
        }
    }

    /// The deadline of a kind of work, in seconds: urgent work 60, reads
    /// and writes 300, computation 600, mixed work 450, custom kinds 300.
    pub fn suggested_timeout_secs(self) -> (r: u64)
        ensures
            r == (match self {
                TaskType::HighPriority => 60u64,
                TaskType::IoIntensive => 300u64,
                TaskType::CpuIntensive => 600u64,
                TaskType::Mixed => 450u64,
                TaskType::Custom(_) => 300u64,
            }),
    {
        match self {
            TaskType::HighPriority => 60,
            TaskType::IoIntensive => 300,
            TaskType::CpuIntensive => 600,
            TaskType::Mixed => 450,
            TaskType::Custom(_) => 300,
        }
    }

    /// How many tasks of a kind a worker batches at once.
    pub fn suggested_batch_size(self) -> (r: usize)
        ensures
            r == (match self {
                TaskType::HighPriority => 5usize,
                TaskType::CpuIntensive => 15usize,
                TaskType::Mixed => 10usize,
                TaskType::IoIntensive => 8usize,
                TaskType::Custom(_) => 10usize,
            }),
    {
        match self {
            TaskType::HighPriority => 5,
            TaskType::CpuIntensive => 15,
            TaskType::Mixed => 10,
            TaskType::IoIntensive => 8,
            TaskType::Custom(_) => 10,
        }
    }
}

/// The lane a submitted task is routed to: priorities of rank `High` and
/// above go to the priority lane; other asynchronous work goes to the
/// reads-and-writes lane; blocking work always goes to the computation lane.
pub fn route_io_task(priority: Priority) -> (r: Lane)
    ensures
        priority.spec_rank() >= 2 ==> r == Lane::PriorityLane,
        priority.spec_rank() < 2 ==> r == Lane::Io,
{
    if priority.rank() >= 2 {
        Lane::PriorityLane
    } else {
        Lane::Io
    }
}

/// The capacity of a bounded lane: the priority lane gets a quarter of the
/// configured queue capacity, at least one slot; other lanes the whole.
pub fn lane_capacity(queue_capacity: usize, lane: Lane) -> (r: usize)
    ensures
        lane == Lane::PriorityLane ==> r == (if queue_capacity / 4 > 1 {
            queue_capacity / 4
        } else {
            1usize
        }),
        lane != Lane::PriorityLane ==> r == queue_capacity,
{
    match lane {
        Lane::PriorityLane => {
            let q = queue_capacity / 4;
            if q > 1 {
                q
            } else {
                1
            }
        },
        _ => queue_capacity,
    }
}

/// Executor configuration.
#[derive(Clone, Copy, Debug, PartialEq, Eq)]
pub struct ExecutorConfig {
    /// Worker tasks on the asynchronous lane.
    pub io_worker_threads: usize,
    /// Worker threads on the computation lane.
    pub cpu_worker_threads: usize,
    /// Backpressure permits: tasks admitted but not yet finished.
    pub max_queue_length: usize,
    /// Default deadline, seconds.
    pub task_timeout_secs: u64,
    /// Seconds between counter snapshots.
    pub stats_update_interval_secs: u64,
    /// Whether the computation pool steals work.
    pub enable_work_stealing: bool,
    /// Tasks a computation worker drains per batch.
    pub cpu_batch_size: usize,
}

impl Default for ExecutorConfig {
    /// The default configuration: twice the processors on the asynchronous
    /// lane, one worker per processor on the computation lane, 10000
    /// permits, a 5-minute deadline, 10-second snapshots, work stealing on,
    /// 100-task batches.
    fn default() -> (r: ExecutorConfig)
        ensures
            r.io_worker_threads >= 2,
            r.cpu_worker_threads >= 1,
            r.max_queue_length == 10000,
            r.task_timeout_secs == 300,
            r.stats_update_interval_secs == 10,
            r.enable_work_stealing,
            r.cpu_batch_size == 100,
    {
        let cpus = num_cpus::get();
        let io = if cpus > usize::MAX / 2 {
            usize::MAX
        } else {
            cpus * 2
        };
        ExecutorConfig {
            io_worker_threads: io,
            cpu_worker_threads: cpus,
            max_queue_length: 10000,
            task_timeout_secs: 300,
            stats_update_interval_secs: 10,
            enable_work_stealing: true,
            cpu_batch_size: 100,
        }
    }
}

/// Counters the executor keeps.
#[derive(Clone, Copy, Debug, PartialEq, Eq)]
pub struct ExecutorStats {
    /// Tasks admitted.
    pub total_tasks: usize,
    /// Tasks finished successfully.
    pub completed_tasks: usize,
    /// Tasks that failed or timed out.
    pub failed_tasks: usize,
    /// Tasks routed to the asynchronous lane.
    pub io_tasks: usize,
    /// Tasks routed to the computation lane.
    pub cpu_tasks: usize,
    /// Tasks of the mixed kind.
    pub mixed_tasks: usize,
    /// Tasks routed to the priority lane.
    pub high_priority_tasks: usize,
    /// Tasks that exceeded their deadline.
    pub timeout_tasks: usize,
    /// Submissions refused by a full bounded queue.
    pub queue_full_rejections: usize,
}

impl ExecutorStats {
    /// All counters zero.
    pub open spec fn spec_zero() -> ExecutorStats {
        ExecutorStats {
            total_tasks: 0,
            completed_tasks: 0,
            failed_tasks: 0,
            io_tasks: 0,
            cpu_tasks: 0,
            mixed_tasks: 0,
            high_priority_tasks: 0,
            timeout_tasks: 0,
            queue_full_rejections: 0,
        }
    }

    /// Fresh counters, all zero.
    pub fn zero() -> (r: ExecutorStats)
        ensures
            r == ExecutorStats::spec_zero(),
    {
        ExecutorStats {
            total_tasks: 0,
            completed_tasks: 0,
            failed_tasks: 0,
            io_tasks: 0,
            cpu_tasks: 0,
            mixed_tasks: 0,
            high_priority_tasks: 0,
            timeout_tasks: 0,
            queue_full_rejections: 0,
        }
    }

    /// Whether at least one task was taken in and every one of them has
    /// finished, one way or the other; a fresh executor is not complete.
    pub fn is_complete(&self) -> (r: bool)
        ensures
            r == (self.total_tasks > 0 && self.completed_tasks + self.failed_tasks
                >= self.total_tasks),
    {
        if self.total_tasks == 0 {
            false
        } else if self.completed_tasks > usize::MAX - self.failed_tasks {
            true
        } else {
            self.completed_tasks + self.failed_tasks >= self.total_tasks
        }
    }
}

/// The backpressure and admission state of the executor: how many permits
/// exist and how many tasks hold one. The semaphore itself lives outside;
/// this state decides admission and keeps the counters honest.
pub struct AdmissionState {
    /// Permits configured.
    pub max_queue_length: usize,
    /// Tasks admitted and not yet finished.
    pub in_flight: usize,
    /// Counters.
    pub stats: ExecutorStats,
    /// Identifier for the next task.
    pub next_task_id: u64,
}

impl AdmissionState {
    /// A fresh admission state with no task in flight.
    pub fn new(max_queue_length: usize) -> (r: AdmissionState)
        ensures
            r.max_queue_length == max_queue_length,
            r.in_flight == 0,
            r.stats == ExecutorStats::spec_zero(),
            r.next_task_id == 1,
    {
        AdmissionState {
            max_queue_length,
            in_flight: 0,
            stats: ExecutorStats::zero(),
            next_task_id: 1,
        }
    }

    /// Takes in a task of a kind at a priority, or refuses it when every
    /// permit is taken. An admitted task gets a fresh, strictly increasing
    /// identifier, takes a permit, and is counted on its lane; a refused
    /// task only counts a queue-full rejection.
    pub fn try_admit(&mut self, task_type: TaskType, priority: Priority) -> (r: Option<u64>)
        requires
            old(self).next_task_id < u64::MAX,
        ensures
            final(self).max_queue_length == old(self).max_queue_length,
            old(self).in_flight >= old(self).max_queue_length ==> (r is None && final(self).in_flight == old(self).in_flight && final(self).stats.queue_full_rejections
                == sat_add(old(self).stats.queue_full_rejections as int, 1) && final(self).next_task_id == old(self).next_task_id),
            old(self).in_flight < old(self).max_queue_length ==> (r == Some(old(self).next_task_id)
                && final(self).in_flight == old(self).in_flight + 1 && final(self).next_task_id
                == old(self).next_task_id + 1 && final(self).stats.total_tasks == sat_add(
                old(self).stats.total_tasks as int,
                1,
            ) && ({
                let lane = if task_type == TaskType::HighPriority || priority.spec_rank() >= 2 {
                    Lane::PriorityLane
                } else if task_type == TaskType::CpuIntensive || task_type == TaskType::Mixed {
                    Lane::Cpu
                } else {
                    Lane::Io
                };
                &&& (lane == Lane::PriorityLane ==> final(self).stats.high_priority_tasks
                    == sat_add(old(self).stats.high_priority_tasks as int, 1))
                &&& (lane == Lane::Cpu ==> final(self).stats.cpu_tasks == sat_add(
                    old(self).stats.cpu_tasks as int,
                    1,
                ))
                &&& (lane == Lane::Io ==> final(self).stats.io_tasks == sat_add(
                    old(self).stats.io_tasks as int,
                    1,
                ))
            })),
    {
        if self.in_flight >= self.max_queue_length {
            self.stats.queue_full_rejections = usize_sat_add(self.stats.queue_full_rejections, 1);
            return None;
        }
        let id = self.next_task_id;
        self.next_task_id = self.next_task_id + 1;
        self.in_flight = self.in_flight + 1;
        self.stats.total_tasks = usize_sat_add(self.stats.total_tasks, 1);
        let is_priority = match task_type {
            TaskType::HighPriority => true,
            _ => priority.rank() >= 2,
        };
        if is_priority {
            self.stats.high_priority_tasks = usize_sat_add(self.stats.high_priority_tasks, 1);
        } else {
            match task_type {
                TaskType::CpuIntensive | TaskType::Mixed => {
                    self.stats.cpu_tasks = usize_sat_add(self.stats.cpu_tasks, 1);
                },
                _ => {
                    self.stats.io_tasks = usize_sat_add(self.stats.io_tasks, 1);
                },
            }
        }
        Some(id)
    }

    /// Finishes a task: its permit returns and the outcome is counted; a
    /// deadline overrun counts both as a failure and as a timeout.
    pub fn finish(&mut self, succeeded: bool, timed_out: bool)
        requires
            old(self).in_flight > 0,
        ensures
            final(self).max_queue_length == old(self).max_queue_length,
            final(self).next_task_id == old(self).next_task_id,
            final(self).in_flight == old(self).in_flight - 1,
            succeeded && !timed_out ==> final(self).stats.completed_tasks == sat_add(
                old(self).stats.completed_tasks as int,
                1,
            ) && final(self).stats.failed_tasks == old(self).stats.failed_tasks,
            !succeeded || timed_out ==> final(self).stats.failed_tasks == sat_add(
                old(self).stats.failed_tasks as int,
                1,
            ) && final(self).stats.completed_tasks == old(self).stats.completed_tasks,
            timed_out ==> final(self).stats.timeout_tasks == sat_add(
                old(self).stats.timeout_tasks as int,
                1,
            ),
            !timed_out ==> final(self).stats.timeout_tasks == old(self).stats.timeout_tasks,
    {
        self.in_flight = self.in_flight - 1;
        if succeeded && !timed_out {
            self.stats.completed_tasks = usize_sat_add(self.stats.completed_tasks, 1);
        } else {
            self.stats.failed_tasks = usize_sat_add(self.stats.failed_tasks, 1);
        }
        if timed_out {
            self.stats.timeout_tasks = usize_sat_add(self.stats.timeout_tasks, 1);
        }
    }
}

} // verus!
