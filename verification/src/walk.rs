//! Walking a directory tree: what is done for each child, and how the
//! directories are put together from the leaves up. The file system itself
//! is read elsewhere; here its answers come as plain values.

use vstd::prelude::*;
use vstd::string::*;
use vstd::utf8::encode_utf8;
use crate::directory::{
    canonical, manifest, refused, symlink_mode, Directory, Entry, EntryView, DIRECTORY_MODE,
    EXECUTABLE_FILE_MODE, FILE_MODE, SYMLINK_MODE,
};
use crate::error::{DirectoryError, SwhidError, SwhidErrorView};
use crate::hash::{
    blob_label, hash_content, hash_swhid_object, lemma_labels, object_bytes, object_digest,
    tree_label,
};
use crate::injective::{decodable, lemma_executable_bit_changes_bytes};
use crate::lex::bytes_eq;
use crate::permissions::{
    resolve_file_permissions, unknown_message, EntryExec, EntryPerms, PermissionPolicy,
};
use crate::sorting::views;

verus! {

/// How a directory tree is walked.
#[derive(Debug, Clone)]
pub struct WalkOptions {
    /// Whether a symbolic link counts as what it points to.
    pub follow_symlinks: bool,
    /// The children whose name ends in one of these are left out.
    pub exclude_suffixes: Vec<String>,
}

impl Default for WalkOptions {
    fn default() -> (r: WalkOptions)
        ensures
            !r.follow_symlinks,
            r.exclude_suffixes@.len() == 0,
    {
        WalkOptions { follow_symlinks: false, exclude_suffixes: Vec::new() }
    }
}

/// Whether `s` ends in `suffix`.
pub open spec fn ends_with(s: Seq<u8>, suffix: Seq<u8>) -> bool {
    suffix.len() <= s.len() && s.skip(s.len() - suffix.len()) == suffix
}

/// Whether a child named `name` is left out: its name ends in the bytes of
/// one of the suffixes.
pub open spec fn excluded(name: Seq<u8>, suffixes: Seq<String>) -> bool {
    exists|k: int| 0 <= k < suffixes.len() && ends_with(name, encode_utf8(#[trigger] suffixes[k]@))
}

/// Whether `s` ends in `suffix`.
fn bytes_end_with(s: &[u8], suffix: &[u8]) -> (r: bool)
    ensures
        r == ends_with(s@, suffix@),
{
    if suffix.len() > s.len() {
        return false;
    }
    let start = s.len() - suffix.len();
    let mut i: usize = 0;
    while i < suffix.len()
        invariant
            i <= suffix.len(),
            start + suffix.len() == s.len(),
            forall|j: int| 0 <= j < i ==> s@[start + j] == suffix@[j],
        decreases suffix.len() - i,
    {
        if s[start + i] != suffix[i] {
            assert(s@.skip(start as int)[i as int] != suffix@[i as int]);
            return false;
        }
        i += 1;
    }
    assert(s@.skip(start as int) =~= suffix@);
    true
}

/// Whether a child named `name` is left out.
pub fn is_excluded(name: &[u8], opts: &WalkOptions) -> (r: bool)
    ensures
        r == excluded(name@, opts.exclude_suffixes@),
{
    let mut k: usize = 0;
    while k < opts.exclude_suffixes.len()
        invariant
            k <= opts.exclude_suffixes.len(),
            forall|j: int|
                0 <= j < k ==> !ends_with(name@, encode_utf8(#[trigger] opts.exclude_suffixes@[j]@)),
        decreases opts.exclude_suffixes.len() - k,
    {
        if bytes_end_with(name, opts.exclude_suffixes[k].as_str().as_bytes()) {
            return true;
        }
        k += 1;
    }
    false
}

/// What is asked of the file system for a child of a directory.
#[derive(Debug, Clone, Copy, PartialEq, Eq, Structural)]
pub enum Probe {
    /// Nothing: the child is left out, and nothing of it is read.
    Skip,
    /// What the child is; where `follow` is set, a symbolic link is taken
    /// for what it points to.
    Stat { follow: bool },
}

/// What is asked of the file system for a child named `name`: nothing where
/// the child is left out, and else what it is, with symbolic links followed
/// where the options say so.
pub fn probe_for(name: &[u8], opts: &WalkOptions) -> (r: Probe)
    ensures
        r == if excluded(name@, opts.exclude_suffixes@) {
            Probe::Skip
        } else {
            Probe::Stat { follow: opts.follow_symlinks }
        },
{
    if is_excluded(name, opts) {
        Probe::Skip
    } else {
        Probe::Stat { follow: opts.follow_symlinks }
    }
}

/// What the file system says a child of a directory is.
#[derive(Debug, Clone, Copy, PartialEq, Eq, Structural)]
pub enum FileKind {
    Directory,
    Symlink,
    File,
    /// A device, a socket, a pipe: anything else.
    Other,
}

/// What is done for a child of a directory.
#[derive(Debug, Clone, Copy, PartialEq, Eq, Structural)]
pub enum WalkAction {
    /// Nothing: the child is left out.
    Skip,
    /// The child is a directory: it is walked before its parent goes on.
    Descend,
    /// The child is a symbolic link: the path it holds is read.
    ReadLink,
    /// The child is a file: its contents and its executable bit are read.
    ReadFile,
}

/// What is done for a child of the kind `kind`.
pub fn action_for(kind: FileKind) -> (r: WalkAction)
    ensures
        r == match kind {
            FileKind::Directory => WalkAction::Descend,
            FileKind::Symlink => WalkAction::ReadLink,
            FileKind::File => WalkAction::ReadFile,
            FileKind::Other => WalkAction::Skip,
        },
{
    match kind {
        FileKind::Directory => WalkAction::Descend,
        FileKind::Symlink => WalkAction::ReadLink,
        FileKind::File => WalkAction::ReadFile,
        FileKind::Other => WalkAction::Skip,
    }
}

/// The entry for a file named `name`, with the contents `content` and the
/// permissions `perms`.
pub open spec fn file_entry(name: Seq<u8>, content: Seq<u8>, perms: EntryPerms) -> EntryView {
    EntryView { name, mode: perms.mode(), id: object_digest(blob_label(), content) }
}

/// The entries of a file that is executable and of one that is not, with
/// the same name and contents, differ in their mode and in nothing else.
pub proof fn lemma_executable_file_entry(name: Seq<u8>, content: Seq<u8>)
    ensures
        file_entry(name, content, EntryPerms::File { executable: false }).mode == FILE_MODE,
        file_entry(name, content, EntryPerms::File { executable: true }) == (EntryView {
            mode: EXECUTABLE_FILE_MODE,
            ..file_entry(name, content, EntryPerms::File { executable: false })
        }),
{
}

/// Two walks that found the same entries and then the same file, once
/// executable and once not, hold directories with manifests that differ,
/// which are hashed from bytes that differ.
pub proof fn lemma_added_file_bit_matters(found: Seq<EntryView>, name: Seq<u8>, content: Seq<u8>)
    requires
        decodable(found.push(file_entry(name, content, EntryPerms::File { executable: false }))),
    ensures
        manifest(found.push(file_entry(name, content, EntryPerms::File { executable: false })))
            != manifest(
            found.push(file_entry(name, content, EntryPerms::File { executable: true })),
        ),
        object_bytes(
            tree_label(),
            manifest(found.push(file_entry(name, content, EntryPerms::File { executable: false }))),
        ) != object_bytes(
            tree_label(),
            manifest(found.push(file_entry(name, content, EntryPerms::File { executable: true }))),
        ),
{
    let plain = file_entry(name, content, EntryPerms::File { executable: false });
    let before = found.push(plain);
    let after = found.push(file_entry(name, content, EntryPerms::File { executable: true }));
    lemma_executable_file_entry(name, content);
    assert(after =~= before.update(
        found.len() as int,
        EntryView { mode: EXECUTABLE_FILE_MODE, ..before[found.len() as int] },
    ));
    lemma_executable_bit_changes_bytes(before, after, found.len() as int);
}

/// The entry for a symbolic link named `name` that holds the path `target`:
/// the path is hashed as a content.
pub open spec fn symlink_entry(name: Seq<u8>, target: Seq<u8>) -> EntryView {
    EntryView { name, mode: SYMLINK_MODE, id: object_digest(blob_label(), target) }
}

/// The entry for a directory named `name` whose entries stand in the order
/// `order`.
pub open spec fn directory_entry(name: Seq<u8>, order: Seq<EntryView>) -> EntryView {
    EntryView { name, mode: DIRECTORY_MODE, id: object_digest(tree_label(), manifest(order)) }
}

/// A directory that is being walked: its name, what tells it from every
/// other directory, and the entries that were found in it so far.
pub struct Frame {
    name: Vec<u8>,
    identity: Vec<u8>,
    entries: Vec<Entry>,
}

/// A directory that is being walked, with its bytes as sequences.
pub struct FrameView {
    pub name: Seq<u8>,
    pub identity: Seq<u8>,
    pub entries: Seq<EntryView>,
}

impl View for Frame {
    type V = FrameView;

    closed spec fn view(&self) -> FrameView {
        FrameView { name: self.name@, identity: self.identity@, entries: views(self.entries@) }
    }
}

/// The state of a walk: the directory that is being walked, and above it
/// the directories that wait for it, the root first.
pub struct DirectoryWalker {
    policy: PermissionPolicy,
    parents: Vec<Frame>,
    current: Frame,
}

/// The state of a walk, with its bytes as sequences.
pub struct WalkerView {
    pub policy: PermissionPolicy,
    pub parents: Seq<FrameView>,
    pub current: FrameView,
}

impl View for DirectoryWalker {
    type V = WalkerView;

    closed spec fn view(&self) -> WalkerView {
        WalkerView { policy: self.policy, parents: views(self.parents@), current: self.current@ }
    }
}

impl WalkerView {
    /// The state with one more entry in the directory that is being walked.
    pub open spec fn with_entry(self, entry: EntryView) -> WalkerView {
        WalkerView {
            current: FrameView { entries: self.current.entries.push(entry), ..self.current },
            ..self
        }
    }

    /// Whether the directory with the identity `identity` is being walked
    /// or waits for one that is: going down into it again would never end.
    pub open spec fn on_the_way(self, identity: Seq<u8>) -> bool {
        self.current.identity == identity || exists|i: int|
            0 <= i < self.parents.len() && (#[trigger] self.parents[i]).identity == identity
    }
}

impl DirectoryWalker {
    /// A walk that is at its root, with nothing found yet. `identity` tells
    /// the root from every other directory: two directories with one
    /// identity are one directory, whatever path leads to them.
    pub fn new(policy: PermissionPolicy, identity: Vec<u8>) -> (r: DirectoryWalker)
        ensures
            r@ == (WalkerView {
                policy,
                parents: Seq::empty(),
                current: FrameView {
                    name: Seq::empty(),
                    identity: identity@,
                    entries: Seq::empty(),
                },
            }),
    {
        let r = DirectoryWalker {
            policy,
            parents: Vec::new(),
            current: Frame { name: Vec::new(), identity, entries: Vec::new() },
        };
        assert(r@.parents =~= Seq::empty());
        assert(r@.current.entries =~= Seq::empty());
        r
    }

    /// How many directories wait for the one that is being walked.
    pub fn depth(&self) -> (r: usize)
        ensures
            r == self@.parents.len(),
    {
        self.parents.len()
    }

    /// Whether the directory with the identity `identity` is being walked
    /// or waits for one that is. Where symbolic links are followed, going
    /// down into such a directory would never end.
    pub fn on_the_way(&self, identity: &[u8]) -> (r: bool)
        ensures
            r == self@.on_the_way(identity@),
    {
        if bytes_eq(self.current.identity.as_slice(), identity) {
            return true;
        }
        let mut i: usize = 0;
        while i < self.parents.len()
            invariant
                i <= self.parents.len(),
                self@.current.identity != identity@,
                forall|j: int| 0 <= j < i ==> (#[trigger] self@.parents[j]).identity != identity@,
            decreases self.parents.len() - i,
        {
            assert(self@.parents[i as int] == self.parents@[i as int]@);
            if bytes_eq(self.parents[i].identity.as_slice(), identity) {
                return true;
            }
            i += 1;
        }
        false
    }

    /// Goes down into the directory named `name`, a child of the one that
    /// is being walked, which has the identity `identity`.
    pub fn enter(&mut self, name: Vec<u8>, identity: Vec<u8>)
        ensures
            final(self)@ == (WalkerView {
                policy: old(self)@.policy,
                parents: old(self)@.parents.push(old(self)@.current),
                current: FrameView { name: name@, identity: identity@, entries: Seq::empty() },
            }),
    {
        let mut frame = Frame { name, identity, entries: Vec::new() };
        assert(frame@.entries =~= Seq::empty());
        std::mem::swap(&mut self.current, &mut frame);
        self.parents.push(frame);
        assert(self@.parents =~= old(self)@.parents.push(old(self)@.current));
    }

    /// Adds the file named `name`, with the contents `content`, to the
    /// directory that is being walked. `exec` is what is known of its
    /// executable bit; where that is nothing, the policy decides, and under
    /// the strict one the file is refused and nothing changes.
    pub fn add_file(&mut self, name: Vec<u8>, content: &[u8], exec: EntryExec, path: &str) -> (r:
        Result<(), SwhidError>)
        ensures
            match r {
                Ok(()) => !(exec == EntryExec::Unknown && old(self)@.policy
                    == PermissionPolicy::Strict) && final(self)@ == old(self)@.with_entry(
                    file_entry(
                        name@,
                        content@,
                        EntryPerms::File {
                            executable: match exec {
                                EntryExec::Known(x) => x,
                                EntryExec::Unknown => false,
                            },
                        },
                    ),
                ),
                Err(e) => exec == EntryExec::Unknown && old(self)@.policy
                    == PermissionPolicy::Strict && e@ == SwhidErrorView::InvalidFormat(
                    unknown_message(path@),
                ) && final(self)@ == old(self)@,
            },
    {
        let perms = match resolve_file_permissions(exec, self.policy, path) {
            Ok(p) => p,
            Err(e) => { return Err(e); },
        };
        let id = hash_content(content);
        let ghost before = self.current@.entries;
        self.current.entries.push(Entry::new(name, perms.to_swh_mode_u32(), id));
        assert(self.current@.entries =~= before.push(file_entry(name@, content@, perms)));
        Ok(())
    }

    /// Adds the symbolic link named `name`, which holds the path `target`,
    /// to the directory that is being walked.
    pub fn add_symlink(&mut self, name: Vec<u8>, target: &[u8])
        ensures
            final(self)@ == old(self)@.with_entry(symlink_entry(name@, target@)),
    {
        let id = hash_content(target);
        let ghost before = self.current@.entries;
        self.current.entries.push(Entry::new(name, symlink_mode(), id));
        assert(self.current@.entries =~= before.push(symlink_entry(name@, target@)));
    }

    /// Comes back up from the directory that is being walked, which is
    /// complete: it becomes an entry of the directory that waited for it,
    /// with the digest of its own entries in their canonical order. At the
    /// root there is nowhere to come back to, and nothing changes. Entries
    /// that no directory can hold are refused: the directory is then left
    /// all the same, and is no entry of the one that waited for it.
    pub fn leave(&mut self) -> (r: Result<bool, DirectoryError>)
        ensures
            match r {
                Ok(true) => old(self)@.parents.len() > 0 && exists|order: Seq<EntryView>|
                    canonical(order) && order.to_multiset() == old(self)@.current.entries.to_multiset()
                        && final(self)@ == (WalkerView {
                        policy: old(self)@.policy,
                        parents: old(self)@.parents.drop_last(),
                        current: FrameView {
                            entries: old(self)@.parents.last().entries.push(
                                directory_entry(old(self)@.current.name, order),
                            ),
                            ..old(self)@.parents.last()
                        },
                    }),
                Ok(false) => old(self)@.parents.len() == 0 && final(self)@ == old(self)@,
                Err(e) => old(self)@.parents.len() > 0 && refused(old(self)@.current.entries, e)
                    && final(self)@ == (WalkerView {
                    policy: old(self)@.policy,
                    parents: old(self)@.parents.drop_last(),
                    current: old(self)@.parents.last(),
                }),
            },
    {
        let mut parent = match self.parents.pop() {
            Some(frame) => frame,
            None => { return Ok(false); },
        };
        let ghost waiting = parent@;
        assert(waiting == old(self)@.parents.last());
        std::mem::swap(&mut self.current, &mut parent);
        let done = parent;
        assert(self@.parents =~= old(self)@.parents.drop_last());
        let directory = match Directory::new(done.entries) {
            Ok(d) => d,
            Err(e) => { return Err(e); },
        };
        let listing = directory.manifest();
        proof {
            lemma_labels();
        }
        let id = hash_swhid_object("tree", listing.as_slice());
        let ghost order = directory@;
        let ghost before = self.current@.entries;
        self.current.entries.push(Entry::new(done.name, DIRECTORY_MODE, id));
        proof {
            assert(self.current@.entries =~= before.push(directory_entry(done.name@, order)));
            assert(self@.parents =~= old(self)@.parents.drop_last());
        }
        Ok(true)
    }

    /// Ends the walk: gives the directory that is being walked, with the
    /// entries that were found in it. Entries that no directory can hold are
    /// refused.
    pub fn finish(self) -> (r: Result<Directory, DirectoryError>)
        ensures
            match r {
                Ok(d) => canonical(d@) && d@.to_multiset() == self@.current.entries.to_multiset(),
                Err(e) => refused(self@.current.entries, e),
            },
    {
        Directory::new(self.current.entries)
    }
}

} // verus!
