//! A frecency-ranked item database for a desktop application launcher.
//!
//! The library indexes items a user can invoke, ranks them against typed
//! search text by blending a textual relevance score with a decaying
//! usage-history ("frecency") score, reconciles the stored set against a
//! fresh scan without losing learned preferences, and persists the whole
//! store as a single binary blob.
//!
//! Scores are kept in fixed-point millipoints (one launch of weight 1 adds
//! [`score::SCALE`] millipoints), so that all arithmetic is exact integer
//! arithmetic.

pub mod codec;
pub mod entry;
pub mod frecency;
pub mod item;
pub mod rank;
pub mod run;
pub mod score;

use vstd::prelude::*;

use std::io::Write;

pub use crate::codec::AppDBError;
pub use crate::entry::EntryParseError;
pub use crate::frecency::{Container, FrecencyDB, FrecencyDBError, Record};
pub use crate::item::{App, DBItem, File};

verus! {

/// The apps database: a frecency store of desktop applications.
pub type AppsDB = FrecencyDB<App>;

/// One row handed to a launcher front end: what to display and the
/// identity to launch by.
#[derive(Debug, Clone)]
pub struct ListItem {
    /// Display name of the item.
    pub name: String,
    /// Icon name of the item.
    pub icon: String,
    /// The stable identity to hand back on launch.
    pub id: u64,
}

impl From<Container<App>> for ListItem {
    /// A display row for a ranked app: its name, its icon, its identity.
    fn from(cont: Container<App>) -> (r: ListItem) {
        ListItem { name: cont.item.name, icon: cont.item.icon, id: cont.id }
    }
}

impl vstd::std_specs::convert::FromSpecImpl<Container<App>> for ListItem {
    open spec fn obeys_from_spec() -> bool {
        true
    }

    open spec fn from_spec(cont: Container<App>) -> ListItem {
        ListItem { name: cont.item.name, icon: cont.item.icon, id: cont.id }
    }
}

/// Relies on `writeln` to standard error: reports one message line.
#[verifier::external_body]
fn log_line(msg: &str) {
    let _ = writeln!(std::io::stderr(), "{}", msg);
}

/// Report a list of collected error messages, one line each: a single bad
/// file or entry is reported, never allowed to stop the rest of a scan.
pub fn log_errs(errs: &[String]) {
    let mut i: usize = 0;
    while i < errs.len()
        decreases errs@.len() - i,
    {
        log_line(vstd::slice::slice_index_get(errs, i).as_str());
        i = i + 1;
    }
}


} // verus!
