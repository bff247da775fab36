//! Reconciles locally tracked time intervals with the project and task
//! taxonomy of a remote work-management service.
//!
//! Intervals are read from the tracker, grouped by their tags and by day,
//! bound group by group to a task, and turned into the hours of each day that
//! the service takes. The library reads, groups, decides and formats; it
//! leaves the terminal, the disk and the network to whoever drives it.
//!
//! * [`entry`] and [`export`] read intervals, from a line of the tracker's
//!   data and from its JSON export.
//! * [`tagkey`], [`grouping`] and [`grouping_laws`] group them and say what
//!   holds of every grouping.
//! * [`durations`] and [`assignment`] add minutes up and bind groups to a
//!   task.
//! * [`labels`] and [`workflow`] are the menus and the course of the
//!   dialogue with the user.
//! * [`celoxis`] holds the records of the service, the cache of its
//!   reference data and the decisions of its client.
//! * [`files`] knows the tracker's files and directories.
//! * [`calendar`] and [`text`] are what the others stand on: instants and
//!   days, and characters.

pub mod assignment;
pub mod calendar;
pub mod celoxis;
pub mod durations;
pub mod entry;
pub mod export;
pub mod files;
pub mod grouping;
pub mod grouping_laws;
pub mod labels;
pub mod tagkey;
pub mod text;
pub mod workflow;
