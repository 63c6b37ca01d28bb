use vstd::prelude::*;

pub mod order;
pub mod heap;
pub mod scheduler;
pub mod update_queue;
pub mod hooks;
pub mod event;
pub mod child_fiber;
pub mod lanes;
pub mod flags;
pub mod work_tags;
pub mod thenable;
pub mod batch_config;
pub mod host_config;
pub mod suspense_context;
pub mod fiber_context;
pub mod sync_task_queue;
pub mod fiber_hooks;
pub mod complete_work;
pub mod commit_work;
pub mod work_loop;
pub mod begin_work;
pub mod element;
pub mod lazy;
pub mod fiber_throw;
pub mod noop_host;

verus! {
}
