//! An asynchronous effect runtime: computations that are described first and
//! run as fibers, which can wait, be killed, hold resources and run in parallel.
//!
//! The runtime does no work of its own on threads. It is a system that is moved
//! from task to task ([`step`]); where a task needs the embedding program, it
//! says what has to be done, and the reply is the next task. `H` stands for the
//! values of that program throughout: data, functions and effects alike.
//!
//! * Descriptions are in [`value`] and [`effect`], the interpreter of one fiber
//!   in [`machine`], [`driver`] and [`fiber`].
//! * Parallel descriptions are in [`layout`], [`parallel`], [`run`] and
//!   [`branches`].
//! * What all fibers share is in [`runtime`], [`timer`], [`pool`],
//!   [`supervisor`], [`waiting`] and [`system`]; the way in and out in [`record`]
//!   and [`entry`].
//! * What holds of all of it is in [`resources`], [`cancellation`], [`ticks`],
//!   [`races`], [`course`], [`evaluation`] and [`lifetime`].
//! * What each operation is for is in [`interpretation`] and [`rounds`] for one
//!   fiber, in [`ancestry`] and [`placement`] for parallel runs, in
//!   [`observation`], [`offspring`], [`dealings`] and [`consequence`] for all
//!   fibers together, and in [`surroundings`] for what surrounds them;
//!   [`promises`] ties it to the functions.
pub mod ancestry;
pub mod branches;
pub mod cancellation;
pub mod consequence;
pub mod course;
pub mod dealings;
pub mod driver;
pub mod effect;
pub mod entry;
pub mod evaluation;
pub mod fault;
pub mod fiber;
pub mod interpretation;
pub mod killing;
pub mod layout;
pub mod lifetime;
pub mod machine;
pub mod meeting;
pub mod moved;
pub mod observation;
pub mod offspring;
pub mod ordered;
pub mod parallel;
pub mod placement;
pub mod pool;
pub mod promises;
pub mod races;
pub mod record;
pub mod resources;
pub mod rounds;
pub mod run;
pub mod runtime;
pub mod step;
pub mod supervisor;
pub mod surroundings;
pub mod system;
pub mod table;
pub mod target;
pub mod task;
pub mod ticks;
pub mod timer;
pub mod util;
pub mod value;
pub mod waiting;
