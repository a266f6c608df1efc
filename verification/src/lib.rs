//! A portable model of filesystem Access Control List (ACL) entries and the
//! logic that translates between the portable model and the native,
//! platform-specific ACL representations (the POSIX.1e class model with a
//! derived mask, and the richer allow/deny model with per-principal
//! qualifiers), together with the textual codecs for both.

pub mod acl;
pub mod builder;
pub mod codec;
pub mod entry;
pub mod error;
pub mod flag;
pub mod laws;
pub mod native;
pub mod numtext;
pub mod perm;
pub mod portable;

pub use acl::Acl;
pub use acl::AclOption;
pub use acl::FsObject;
pub use entry::AclEntry;
pub use entry::AclKind;
pub use error::AclError;
pub use error::ErrorKind;
pub use flag::Flag;
pub use native::Platform;
pub use perm::Perm;
pub use portable::from_portable_text;
pub use portable::to_portable_text;
