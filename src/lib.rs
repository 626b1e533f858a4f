//! Cooperative cancellation and event multiplexing for a preemptive real-time
//! task scheduler.
//!
//! Everything here is a deterministic model of the runtime's bookkeeping: the
//! caller feeds in the clock and the identity of the running task, and carries
//! out the blocking and the task notifications that the library asks for.
pub mod context;
pub mod error;
pub mod event;
pub mod hardware;
pub mod period;
pub mod select;
pub mod shared_set;
pub mod sleep;
pub mod task;

pub use context::{Context, ContextView, Done, Runtime, RuntimeView};
pub use error::{from_errno, Error};
pub use event::{handle_event, Event, EventHandle};
pub use hardware::{Gearset, Motor, Peripherals, SmartPort, PORT_COUNT};
pub use period::{Loop, LoopSelect};
pub use select::{
    select_either, select_map, select_match, select_sleep, EitherSelect, MapSelect, Selectable,
};
pub use shared_set::{insert, Owner, SharedSet, SharedSetHandle};
pub use sleep::{GenericSleep, SleepAction, TIMEOUT_MAX};
pub use task::{NotifyAction, Task, TaskState};
