//! Permissions of directory entries: the modes, what is known of the
//! executable bit of a file, and what is made of it where it is not known.

use vstd::prelude::*;
use vstd::string::*;
use crate::digits::{ascii, octal, push_octal};
use crate::error::{SwhidError, SwhidErrorView};
use crate::seqs::{has_tail, head, lemma_tail_shorter, split_chars, tail};
use crate::text::{chars_of, push_ascii, string_of};

verus! {

/// The permissions of an entry of a directory, one for each mode.
#[derive(Debug, Clone, Copy, PartialEq, Eq, Hash, Structural)]
pub enum EntryPerms {
    /// A file, executable or not.
    File { executable: bool },
    /// A directory.
    Directory,
    /// A symbolic link.
    Symlink,
    /// A reference to a revision: a submodule.
    RevisionRef,
}

/// What a probe says of the executable bit of a file.
#[derive(Debug, Clone, Copy, PartialEq, Eq, Structural)]
pub enum EntryExec {
    /// The bit is known.
    Known(bool),
    /// The bit cannot be determined.
    Unknown,
}

/// What to make of an executable bit that is not known.
#[derive(Debug, Clone, Copy, PartialEq, Eq, Structural)]
pub enum PermissionPolicy {
    /// It is an error.
    Strict,
    /// The file counts as not executable.
    BestEffort,
}

/// Where the executable bit is looked up.
#[derive(Debug, Clone, Copy, PartialEq, Eq, Structural)]
pub enum PermissionsSourceKind {
    /// In the index of the repository that holds the root, where there is
    /// one, and else in the file system.
    Auto,
    /// In the file system.
    Filesystem,
    /// In the index of a repository.
    GitIndex,
    /// In the tree of the commit that a repository is at.
    GitTree,
    /// In a table beside the files.
    Manifest,
    /// Kept for later: for now, in the file system.
    Heuristic,
}

/// Something that says whether a file is executable.
pub trait PermissionsSource {
    /// Whether the file at `path` is executable, as far as it is known.
    fn executable_of(&self, path: &str) -> Result<EntryExec, SwhidError>;
}

impl EntryPerms {
    /// The mode of the permissions.
    pub open spec fn mode(self) -> u32 {
        match self {
            EntryPerms::File { executable: false } => 0o100644,
            EntryPerms::File { executable: true } => 0o100755,
            EntryPerms::Directory => 0o040000,
            EntryPerms::Symlink => 0o120000,
            EntryPerms::RevisionRef => 0o160000,
        }
    }

    /// The permissions that have the mode `mode`, where there are any.
    pub open spec fn of_mode(mode: u32) -> Option<EntryPerms> {
        if mode == 0o100644 {
            Some(EntryPerms::File { executable: false })
        } else if mode == 0o100755 {
            Some(EntryPerms::File { executable: true })
        } else if mode == 0o040000 {
            Some(EntryPerms::Directory)
        } else if mode == 0o120000 {
            Some(EntryPerms::Symlink)
        } else if mode == 0o160000 {
            Some(EntryPerms::RevisionRef)
        } else {
            None
        }
    }

    /// The mode in six octal digits, as Git writes it.
    pub open spec fn mode_text(self) -> Seq<char> {
        match self {
            EntryPerms::File { executable: false } => seq!['1', '0', '0', '6', '4', '4'],
            EntryPerms::File { executable: true } => seq!['1', '0', '0', '7', '5', '5'],
            EntryPerms::Directory => seq!['0', '4', '0', '0', '0', '0'],
            EntryPerms::Symlink => seq!['1', '2', '0', '0', '0', '0'],
            EntryPerms::RevisionRef => seq!['1', '6', '0', '0', '0', '0'],
        }
    }

    /// Permissions and modes stand one for one.
    pub proof fn lemma_mode_of_mode(self)
        ensures
            EntryPerms::of_mode(self.mode()) == Some(self),
    {
    }

    /// No mode stands for two permissions.
    pub proof fn lemma_of_mode_mode(mode: u32)
        ensures
            EntryPerms::of_mode(mode) matches Some(p) ==> p.mode() == mode,
    {
    }

    /// The six digits are the mode in octal, with a zero in front of that
    /// of a directory, which has five.
    pub proof fn lemma_mode_text(self)
        ensures
            self.mode_text() == if self == EntryPerms::Directory {
                seq!['0'] + ascii(octal(self.mode() as nat))
            } else {
                ascii(octal(self.mode() as nat))
            },
    {
        reveal_with_fuel(octal, 7);
        let t = ascii(octal(self.mode() as nat));
        match self {
            EntryPerms::Directory => {
                assert(t =~= seq!['4', '0', '0', '0', '0']);
                assert(self.mode_text() =~= seq!['0'] + t);
            },
            _ => {
                assert(self.mode_text() =~= t);
            },
        }
    }

    /// The mode in six octal digits, as Git writes it.
    pub fn to_git_mode_string(&self) -> (r: &'static str)
        ensures
            r@ == self.mode_text(),
    {
        proof {
            reveal_strlit("100644");
            reveal_strlit("100755");
            reveal_strlit("040000");
            reveal_strlit("120000");
            reveal_strlit("160000");
        }
        let r = match self {
            EntryPerms::File { executable: false } => "100644",
            EntryPerms::File { executable: true } => "100755",
            EntryPerms::Directory => "040000",
            EntryPerms::Symlink => "120000",
            EntryPerms::RevisionRef => "160000",
        };
        assert(r@ =~= self.mode_text());
        r
    }

    /// The mode of the permissions.
    pub fn to_swh_mode_u32(&self) -> (r: u32)
        ensures
            r == self.mode(),
    {
        match self {
            EntryPerms::File { executable: false } => 0o100644,
            EntryPerms::File { executable: true } => 0o100755,
            EntryPerms::Directory => 0o040000,
            EntryPerms::Symlink => 0o120000,
            EntryPerms::RevisionRef => 0o160000,
        }
    }

    /// The permissions that have the mode `mode`. Any other mode is refused
    /// as a format error, with the mode in octal in the message.
    pub fn from_mode(mode: u32) -> (r: Result<EntryPerms, SwhidError>)
        ensures
            match r {
                Ok(p) => EntryPerms::of_mode(mode) == Some(p),
                Err(e) => EntryPerms::of_mode(mode) is None && e@ == SwhidErrorView::InvalidFormat(
                    "Invalid entry mode: "@ + ascii(octal(mode as nat)),
                ),
            },
    {
        if mode == 0o100644 {
            Ok(EntryPerms::File { executable: false })
        } else if mode == 0o100755 {
            Ok(EntryPerms::File { executable: true })
        } else if mode == 0o040000 {
            Ok(EntryPerms::Directory)
        } else if mode == 0o120000 {
            Ok(EntryPerms::Symlink)
        } else if mode == 0o160000 {
            Ok(EntryPerms::RevisionRef)
        } else {
            let mut digits: Vec<u8> = Vec::new();
            push_octal(&mut digits, mode);
            let mut message = String::from_str("Invalid entry mode: ");
            push_ascii(&mut message, digits.as_slice());
            Err(SwhidError::InvalidFormat(message))
        }
    }
}

/// What a mode of the file system or of Git says of the executable bit: the
/// file is executable where any of the three bits is set.
pub open spec fn mode_is_executable(mode: u32) -> bool {
    mode & 0o111 != 0
}

/// What a mode of the file system or of Git says of the executable bit.
pub fn executable_from_mode(mode: u32) -> (r: EntryExec)
    ensures
        r == EntryExec::Known(mode_is_executable(mode)),
{
    EntryExec::Known(mode & 0o111 != 0)
}

/// The message for a file whose executable bit is not known, under the
/// strict policy.
pub open spec fn unknown_message(path: Seq<char>) -> Seq<char> {
    "Cannot determine executable bit for "@ + path
        + " on this platform. Options: use --permissions-source git-index, provide a permission manifest, or use --permissions-policy best-effort"@
}

/// The permissions of the file at `path`, from what a probe says of its
/// executable bit. A bit that is known decides. One that is not is a format
/// error under the strict policy, and under the other the file counts as
/// not executable.
pub fn resolve_file_permissions(exec: EntryExec, policy: PermissionPolicy, path: &str) -> (r:
    Result<EntryPerms, SwhidError>)
    ensures
        match exec {
            EntryExec::Known(executable) => r matches Ok(p) && p == (EntryPerms::File {
                executable,
            }),
            EntryExec::Unknown => match policy {
                PermissionPolicy::Strict => r matches Err(e) && e@
                    == SwhidErrorView::InvalidFormat(unknown_message(path@)),
                PermissionPolicy::BestEffort => r matches Ok(p) && p == (EntryPerms::File {
                    executable: false,
                }),
            },
        },
{
    match exec {
        EntryExec::Known(executable) => Ok(EntryPerms::File { executable }),
        EntryExec::Unknown => match policy {
            PermissionPolicy::Strict => {
                let message = String::from_str("Cannot determine executable bit for ").concat(
                    path,
                ).concat(
                    " on this platform. Options: use --permissions-source git-index, provide a permission manifest, or use --permissions-policy best-effort",
                );
                Err(SwhidError::InvalidFormat(message))
            },
            PermissionPolicy::BestEffort => Ok(EntryPerms::File { executable: false }),
        },
    }
}

/// The source that is used for `kind`: the index of the repository or the
/// file system for `Auto`, as a repository was found or not; the file system
/// for `Heuristic`; and `kind` itself for the others.
pub fn effective_source(kind: PermissionsSourceKind, repository_found: bool) -> (r:
    PermissionsSourceKind)
    ensures
        r == match kind {
            PermissionsSourceKind::Auto => if repository_found {
                PermissionsSourceKind::GitIndex
            } else {
                PermissionsSourceKind::Filesystem
            },
            PermissionsSourceKind::Heuristic => PermissionsSourceKind::Filesystem,
            other => other,
        },
        r != PermissionsSourceKind::Auto,
        r != PermissionsSourceKind::Heuristic,
{
    match kind {
        PermissionsSourceKind::Auto => if repository_found {
            PermissionsSourceKind::GitIndex
        } else {
            PermissionsSourceKind::Filesystem
        },
        PermissionsSourceKind::Heuristic => PermissionsSourceKind::Filesystem,
        PermissionsSourceKind::Filesystem => PermissionsSourceKind::Filesystem,
        PermissionsSourceKind::GitIndex => PermissionsSourceKind::GitIndex,
        PermissionsSourceKind::GitTree => PermissionsSourceKind::GitTree,
        PermissionsSourceKind::Manifest => PermissionsSourceKind::Manifest,
    }
}

/// What the index of a repository says of a file: the bit of its entry, and
/// nothing where the index has no entry for it.
pub fn index_answer(mode: Option<u32>) -> (r: EntryExec)
    ensures
        r == match mode {
            Some(m) => EntryExec::Known(mode_is_executable(m)),
            None => EntryExec::Unknown,
        },
{
    match mode {
        Some(m) => executable_from_mode(m),
        None => EntryExec::Unknown,
    }
}

/// What is done at a segment of a path in the tree of a commit.
#[derive(Debug, Clone, Copy, PartialEq, Eq, Structural)]
pub enum TreeStep {
    /// The answer is found.
    Answer(EntryExec),
    /// The segment names a tree, which is looked into.
    Descend,
}

/// What is done at a segment of a path, from the mode of the entry that
/// the tree has for it, where it has one, and from whether the segment is the
/// last. A segment without an entry ends the search with no answer. The
/// entry of the last segment gives the bit. Any other entry is looked into.
pub fn tree_step(mode: Option<u32>, last: bool) -> (r: TreeStep)
    ensures
        r == match mode {
            None => TreeStep::Answer(EntryExec::Unknown),
            Some(m) => if last {
                TreeStep::Answer(EntryExec::Known(mode_is_executable(m)))
            } else {
                TreeStep::Descend
            },
        },
{
    match mode {
        None => TreeStep::Answer(EntryExec::Unknown),
        Some(m) => if last {
            TreeStep::Answer(executable_from_mode(m))
        } else {
            TreeStep::Descend
        },
    }
}

/// The segments of a path, which `/` parts; empty ones are left out.
pub open spec fn segments(path: Seq<char>) -> Seq<Seq<char>>
    decreases path.len(),
    via segments_decreases
{
    let first = if head(path, '/').len() > 0 {
        seq![head(path, '/')]
    } else {
        Seq::empty()
    };
    if has_tail(path, '/') {
        first + segments(tail(path, '/'))
    } else {
        first
    }
}

#[via_fn]
proof fn segments_decreases(path: Seq<char>) {
    if has_tail(path, '/') {
        lemma_tail_shorter(path, '/');
    }
}

/// The views of texts.
pub open spec fn texts_view(texts: Seq<String>) -> Seq<Seq<char>> {
    texts.map_values(|t: String| t@)
}

/// The segments of a path, which `/` parts; empty ones are left out.
pub fn path_segments(path: &str) -> (r: Vec<String>)
    ensures
        texts_view(r@) == segments(path@),
{
    let chars = chars_of(path);
    let mut r: Vec<String> = Vec::new();
    let mut rest = chars.as_slice();
    assert(texts_view(r@) + segments(rest@) =~= segments(path@));
    loop
        invariant_except_break
            texts_view(r@) + segments(rest@) == segments(path@),
        ensures
            texts_view(r@) == segments(path@),
        decreases rest@.len(),
    {
        let ghost before = texts_view(r@);
        let (segment, next) = split_chars(rest, '/');
        if segment.len() > 0 {
            r.push(string_of(segment));
            assert(texts_view(r@) =~= before.push(segment@));
        }
        match next {
            Some(more) => {
                proof {
                    lemma_tail_shorter(rest@, '/');
                    assert(texts_view(r@) + segments(more@) =~= before + segments(rest@));
                }
                rest = more;
            },
            None => {
                assert(texts_view(r@) =~= before + segments(rest@));
                break ;
            },
        }
    }
    r
}

} // verus!
