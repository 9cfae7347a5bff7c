//! Software Heritage persistent identifiers (SWHIDs): the identifier type and
//! its string grammar, the object hash, and the manifests of contents,
//! directories, revisions, releases and snapshots.
//!
//! Every function of this crate carries a contract that Verus proves. The
//! contracts are stated over sequences of bytes and of characters.

pub mod content;
pub mod digits;
pub mod directory;
pub mod error;
pub mod git;
pub mod hash;
pub mod header_roundtrip;
pub mod hexstr;
pub mod identifier;
pub mod injective;
pub mod lex;
pub mod perm;
pub mod permissions;
pub mod qualifier;
pub mod qualifier_roundtrip;
pub mod qualifier_written;
pub mod release;
pub mod revision;
pub mod seqs;
pub mod sidecar;
pub mod snapshot;
pub mod sorting;
pub mod text;
pub mod utils;
pub mod walk;

pub use content::Content;
pub use directory::{Directory, Entry};
pub use identifier::{ObjectType, Swhid};
pub use qualifier::{ByteRange, LineRange, QualifiedSwhid};
pub use release::{Release, ReleaseTargetType};
pub use revision::Revision;
pub use snapshot::{Branch, BranchTarget, Snapshot};
pub use walk::WalkOptions;
