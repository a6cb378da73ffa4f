//! Reconstructs the live state of the async tasks of an embedded firmware from
//! its debug information and from raw bytes read out of the target.
//!
//! The work is done in three steps:
//!
//! - The debug records of the object file are held as plain values
//!   ([`dwarf`]). From them the model of the program is built ([`model`]):
//!   the shape of its types ([`ty`]), the layouts of the futures of its
//!   `async` functions ([`async_fn`]) and of its select and join futures
//!   ([`future`]), its task pools ([`task_pool`]) and the addresses at which
//!   the tasks can be read in a coherent state ([`safepoint`]).
//! - The bytes of a task pool are decoded against these layouts into a tree
//!   of values ([`value`], [`task_pool`]). Decoding is a function of the
//!   layouts and the bytes alone.
//! - The controller ([`inspector`]) decides for every event of the backend
//!   whether a new snapshot is taken and whether the target is resumed, and
//!   keeps the formatted values of a snapshot ([`cache`]).
//!
//! For showing the values there is the await point backtrace in words
//! ([`backtrace`]), the layout of a future as a table ([`table`]), the
//! values of primitive types ([`primitive`]) and the placing of scrolled
//! content on the screen ([`screen`]). A future of the running program
//! itself is found by the name of its type ([`names`]).
//!
//! What holds of all layouts, values and snapshots is stated in [`laws`].
pub mod error;
pub mod text;
pub mod seqs;
pub mod bytes;
pub mod names;
pub mod dwarf;
pub mod ty;
pub mod async_fn;
pub mod future;
pub mod value;
pub mod primitive;
pub mod task_pool;
pub mod safepoint;
pub mod model;
pub mod cache;
pub mod inspector;
pub mod backtrace;
pub mod table;
pub mod screen;
pub mod laws;
