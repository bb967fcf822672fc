//! Reading, editing and writing GNU gettext catalogs: the textual PO form
//! and the compiled binary MO form.

pub mod bitwise;
pub mod text;
pub mod errors;
pub mod escaping;
pub mod values;
pub mod entry;
pub mod twrapper;
pub mod natsort;
pub mod lines;
pub mod poformat;
pub mod file;
pub mod pofile;
pub mod potoken;
pub mod popieces;
pub mod poparser;
pub mod mowriter;
pub mod moparser;
pub mod mofile;
pub mod testing;
pub mod molaws;

pub use crate::entry::{Entry, MOEntry, Merge, POEntry, Translated as TranslatedEntry};
pub use crate::file::{AsBytes, Options as FileOptions};
pub use crate::pofile::{pofile, POFile};
pub use crate::mofile::{mofile, MOFile};
pub use crate::mowriter::{MAGIC, MAGIC_SWAPPED};
