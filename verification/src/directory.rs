//! Directories: entries in their canonical order, the manifest, and the
//! identifier.

use vstd::prelude::*;
use crate::digits::{octal, push_octal};
use crate::error::{DirectoryError, SwhidError};
use crate::hash::{object_digest, tree_label};
use crate::identifier::{ObjectType, Swhid, SwhidView};
use crate::lex::{bytes_le, lemma_lex_le_antisymmetric, lex_le};
use crate::perm::{
    lemma_contains_same_values, lemma_map_same_values, lemma_no_duplicates_same_values,
    lemma_two_places,
};
use crate::permissions::EntryPerms;
use crate::seqs::extend_bytes;
use crate::sorting::{
    ascending, distinct_keys, lemma_ascending_unique, sort_by_key, views, SortKey,
};
use crate::utils::{check_unique, lemma_first_duplicate_is_smallest, lemma_no_repeat_distinct};

verus! {

/// The mode of a directory.
pub const DIRECTORY_MODE: u32 = 0o040000;

/// The mode of a file that is not executable.
pub const FILE_MODE: u32 = 0o100644;

/// The mode of a file that is executable.
pub const EXECUTABLE_FILE_MODE: u32 = 0o100755;

/// The mode of a symbolic link.
pub const SYMLINK_MODE: u32 = 0o120000;

/// An entry of a directory: a name, which is any bytes, a mode, and the
/// digest of what the entry names.
#[derive(Debug, Clone, PartialEq, Eq, Hash)]
pub struct Entry {
    name: Vec<u8>,
    mode: u32,
    id: [u8; 20],
}

/// An entry with its name and digest as sequences of bytes.
pub struct EntryView {
    pub name: Seq<u8>,
    pub mode: u32,
    pub id: Seq<u8>,
}

impl View for Entry {
    type V = EntryView;

    closed spec fn view(&self) -> EntryView {
        EntryView { name: self.name@, mode: self.mode, id: self.id@ }
    }
}

impl EntryView {
    /// Whether the entry is a directory: its mode is that of a directory.
    /// A file, a symbolic link and a reference to a revision are none.
    pub open spec fn is_dir(self) -> bool {
        self.mode == DIRECTORY_MODE
    }

    /// The key by which entries are ordered: the name, with a `/` behind it
    /// where the entry is a directory, and the name alone where it is not.
    pub open spec fn sort_key(self) -> Seq<u8> {
        if self.is_dir() {
            self.name.push(47u8)
        } else {
            self.name
        }
    }

    /// The bytes of the entry in a manifest: the mode in octal, a space, the
    /// name, a NUL byte, and the digest.
    pub open spec fn manifest(self) -> Seq<u8> {
        octal(self.mode as nat) + seq![32u8] + self.name + seq![0u8] + self.id
    }
}

/// Whether `name` may name an entry: it holds no NUL byte and no `/`.
pub open spec fn valid_name(name: Seq<u8>) -> bool {
    !name.contains(0u8) && !name.contains(47u8)
}

/// The byte that is reported for a name that is not valid: NUL where the
/// name holds one, and else `/`.
pub open spec fn invalid_byte(name: Seq<u8>) -> u8 {
    if name.contains(0u8) {
        0u8
    } else {
        47u8
    }
}

/// The names of the entries.
pub open spec fn names(s: Seq<EntryView>) -> Seq<Seq<u8>> {
    s.map_values(|e: EntryView| e.name)
}

/// Whether no two entries have the same name.
pub open spec fn names_distinct(s: Seq<EntryView>) -> bool {
    names(s).no_duplicates()
}

/// Whether the name of every entry is valid.
pub open spec fn names_valid(s: Seq<EntryView>) -> bool {
    forall|i: int| 0 <= i < s.len() ==> valid_name(#[trigger] s[i].name)
}

/// Whether the entries stand in the order of a directory: by sort key, with
/// names that are valid and differ.
pub open spec fn canonical(s: Seq<EntryView>) -> bool {
    ascending::<Entry>(s) && names_distinct(s) && names_valid(s)
}

/// Whether `a` comes before `b` and differs from it.
pub open spec fn strictly_before(a: Seq<u8>, b: Seq<u8>) -> bool {
    lex_le(a, b) && a != b
}

/// The manifest of a directory: the bytes of its entries, one after the
/// other, with nothing between them.
pub open spec fn manifest(entries: Seq<EntryView>) -> Seq<u8>
    decreases entries.len(),
{
    if entries.len() == 0 {
        Seq::empty()
    } else {
        manifest(entries.drop_last()) + entries.last().manifest()
    }
}

/// Whether `e` is the error for `input`. A name that two entries have is a
/// duplicate, and the smallest such name is reported. Where no name is a
/// duplicate, an entry whose name is not valid is reported with its byte,
/// and no entry with a smaller sort key has such a name.
pub open spec fn refused(input: Seq<EntryView>, e: DirectoryError) -> bool {
    match e {
        DirectoryError::DuplicateEntryName(n) => !names_distinct(input) && names(
            input,
        ).to_multiset().count(n@) >= 2 && forall|other: Seq<u8>|
            #[trigger] names(input).to_multiset().count(other) >= 2 ==> lex_le(n@, other),
        DirectoryError::InvalidByteInName { byte, name } => names_distinct(input) && !names_valid(
            input,
        ) && !valid_name(name@) && byte == invalid_byte(name@) && exists|i: int|
            0 <= i < input.len() && (#[trigger] input[i]).name == name@ && forall|j: int|
                0 <= j < input.len() && strictly_before(
                    (#[trigger] input[j]).sort_key(),
                    input[i].sort_key(),
                ) ==> valid_name(input[j].name),
    }
}

impl SortKey for Entry {
    open spec fn key(v: EntryView) -> Seq<u8> {
        v.sort_key()
    }

    fn key_le(&self, other: &Self) -> (r: bool) {
        if !self.is_dir() && !other.is_dir() {
            bytes_le(self.name.as_slice(), other.name.as_slice())
        } else {
            let a = self.name_for_sort();
            let b = other.name_for_sort();
            bytes_le(a.as_slice(), b.as_slice())
        }
    }
}

/// A name, ordered as it stands.
struct RawName {
    bytes: Vec<u8>,
}

impl View for RawName {
    type V = Seq<u8>;

    closed spec fn view(&self) -> Seq<u8> {
        self.bytes@
    }
}

impl SortKey for RawName {
    open spec fn key(v: Seq<u8>) -> Seq<u8> {
        v
    }

    fn key_le(&self, other: &Self) -> (r: bool) {
        bytes_le(self.bytes.as_slice(), other.bytes.as_slice())
    }
}

impl Entry {
    /// The entry named `name`, with the mode `mode`, of the object with the
    /// digest `id`.
    pub fn new(name: Vec<u8>, mode: u32, id: [u8; 20]) -> (r: Entry)
        ensures
            r@ == (EntryView { name: name@, mode, id: id@ }),
    {
        Entry { name, mode, id }
    }

    /// The name of the entry.
    pub fn name(&self) -> (r: &[u8])
        ensures
            r@ == self@.name,
    {
        self.name.as_slice()
    }

    /// The mode of the entry.
    pub fn mode(&self) -> (r: u32)
        ensures
            r == self@.mode,
    {
        self.mode
    }

    /// The digest of what the entry names.
    pub fn id(&self) -> (r: &[u8; 20])
        ensures
            r@ == self@.id,
    {
        &self.id
    }

    /// The digest of an entry has twenty bytes.
    pub proof fn lemma_id_len(self)
        ensures
            self@.id.len() == 20,
    {
    }

    /// Whether the entry is a directory.
    pub fn is_dir(&self) -> (r: bool)
        ensures
            r == self@.is_dir(),
    {
        self.mode == DIRECTORY_MODE
    }

    /// The key by which the entry is ordered.
    pub fn name_for_sort(&self) -> (r: Vec<u8>)
        ensures
            r@ == self@.sort_key(),
    {
        let mut r: Vec<u8> = Vec::new();
        extend_bytes(&mut r, self.name.as_slice());
        if self.is_dir() {
            r.push(47u8);
        }
        assert(r@ =~= self@.sort_key());
        r
    }
}

/// The mode of a symbolic link.
pub fn symlink_mode() -> (r: u32)
    ensures
        r == SYMLINK_MODE,
{
    SYMLINK_MODE
}

/// The byte for which `name` is not valid, where there is one.
fn find_invalid_byte(name: &[u8]) -> (r: Option<u8>)
    ensures
        match r {
            Some(b) => !valid_name(name@) && b == invalid_byte(name@),
            None => valid_name(name@),
        },
{
    let mut slash = false;
    let mut i: usize = 0;
    while i < name.len()
        invariant
            i <= name.len(),
            forall|j: int| 0 <= j < i ==> name@[j] != 0u8,
            slash == exists|j: int| 0 <= j < i && name@[j] == 47u8,
        decreases name.len() - i,
    {
        if name[i] == 0u8 {
            return Some(0u8);
        }
        if name[i] == 47u8 {
            slash = true;
        }
        i += 1;
    }
    if slash {
        Some(47u8)
    } else {
        None
    }
}

/// Two entries with one name, whatever else they differ in, are entries
/// whose names do not differ: no directory holds them.
pub proof fn lemma_shared_name(s: Seq<EntryView>, i: int, j: int)
    requires
        0 <= i < j < s.len(),
        s[i].name == s[j].name,
    ensures
        !names_distinct(s),
{
    assert(names(s)[i] == names(s)[j]);
}

/// Entries with valid names that differ have sort keys that differ.
pub proof fn lemma_keys_differ(a: EntryView, b: EntryView)
    requires
        valid_name(a.name),
        valid_name(b.name),
        a.name != b.name,
    ensures
        a.sort_key() != b.sort_key(),
{
    let ka = a.sort_key();
    let kb = b.sort_key();
    if ka == kb {
        if a.is_dir() == b.is_dir() {
            if a.is_dir() {
                assert(a.name =~= ka.drop_last());
                assert(b.name =~= kb.drop_last());
            }
        } else if a.is_dir() {
            assert(b.name[b.name.len() - 1] == 47u8);
        } else {
            assert(a.name[a.name.len() - 1] == 47u8);
        }
    }
}

/// In a canonical order no two entries have the same sort key.
pub proof fn lemma_canonical_distinct_keys(s: Seq<EntryView>)
    requires
        names_distinct(s),
        names_valid(s),
    ensures
        distinct_keys::<Entry>(s),
{
    assert forall|i: int, j: int| 0 <= i < j < s.len() implies Entry::key(s[i]) != Entry::key(
        s[j],
    ) by {
        assert(names(s)[i] != names(s)[j]);
        assert(valid_name(s[i].name) && valid_name(s[j].name));
        lemma_keys_differ(s[i], s[j]);
    }
}

/// Whether the names are valid and differ is a matter of the entries, not
/// of their order.
pub proof fn lemma_names_same_values(a: Seq<EntryView>, b: Seq<EntryView>)
    requires
        a.to_multiset() == b.to_multiset(),
    ensures
        names_distinct(a) == names_distinct(b),
        names_valid(a) == names_valid(b),
        names(a).to_multiset() == names(b).to_multiset(),
{
    lemma_map_same_values(a, b, |e: EntryView| e.name);
    lemma_no_duplicates_same_values(names(a), names(b));
    if names_valid(a) {
        assert forall|i: int| 0 <= i < b.len() implies valid_name(#[trigger] b[i].name) by {
            assert(b.contains(b[i]));
            lemma_contains_same_values(b, a, b[i]);
            let k = choose|k: int| 0 <= k < a.len() && a[k] == b[i];
            assert(valid_name(a[k].name));
        }
    }
    if names_valid(b) {
        assert forall|i: int| 0 <= i < a.len() implies valid_name(#[trigger] a[i].name) by {
            assert(a.contains(a[i]));
            lemma_contains_same_values(a, b, a[i]);
            let k = choose|k: int| 0 <= k < b.len() && b[k] == a[i];
            assert(valid_name(b[k].name));
        }
    }
}

/// The same entries, given in any order, make the same directory: where
/// `first` and `second` hold the same entries, the canonical orders of both
/// are one order, with one manifest and one digest.
pub proof fn lemma_order_independent(
    first: Seq<EntryView>,
    second: Seq<EntryView>,
    a: Seq<EntryView>,
    b: Seq<EntryView>,
)
    requires
        first.to_multiset() == second.to_multiset(),
        canonical(a),
        a.to_multiset() == first.to_multiset(),
        canonical(b),
        b.to_multiset() == second.to_multiset(),
    ensures
        a == b,
        manifest(a) == manifest(b),
        object_digest(tree_label(), manifest(a)) == object_digest(tree_label(), manifest(b)),
{
    lemma_canonical_distinct_keys(a);
    lemma_ascending_unique::<Entry>(a, b);
}

/// Copies of the names of the entries, in their order.
fn copy_names(children: &Vec<Entry>) -> (r: Vec<RawName>)
    ensures
        views(r@) == names(views(children@)),
{
    let mut r: Vec<RawName> = Vec::new();
    let mut i: usize = 0;
    while i < children.len()
        invariant
            i <= children.len(),
            views(r@) == names(views(children@)).take(i as int),
        decreases children.len() - i,
    {
        let mut bytes: Vec<u8> = Vec::new();
        extend_bytes(&mut bytes, children[i].name.as_slice());
        let ghost before = views(r@);
        r.push(RawName { bytes });
        i += 1;
        proof {
            let all = names(views(children@));
            assert(bytes@ =~= all[i - 1]);
            assert(views(r@) =~= before.push(bytes@));
            assert(all.take(i as int) =~= all.take(i - 1).push(all[i - 1]));
        }
    }
    assert(names(views(children@)).take(children.len() as int) =~= names(views(children@)));
    r
}

/// A name that stands twice in `sorted`, where there is one.
fn find_duplicate(sorted: Vec<RawName>) -> (r: Option<Vec<u8>>)
    requires
        ascending::<RawName>(views(sorted@)),
    ensures
        match r {
            Some(n) => views(sorted@).to_multiset().count(n@) >= 2 && forall|other: Seq<u8>|
                #[trigger] views(sorted@).to_multiset().count(other) >= 2 ==> lex_le(n@, other),
            None => views(sorted@).no_duplicates(),
        },
{
    let ghost all = views(sorted@);
    match check_unique(&sorted) {
        Some(k) => {
            proof {
                assert(all[k - 1] == sorted@[k - 1]@);
                assert(all[k as int] == sorted@[k as int]@);
                lemma_two_places(all, k - 1, k as int);
                assert forall|i: int, j: int| 0 <= i < j < all.len() implies lex_le(
                    all[i],
                    all[j],
                ) by {
                    assert(lex_le(RawName::key(all[i]), RawName::key(all[j])));
                }
                assert forall|j: int| 0 <= j && j + 1 < k implies #[trigger] all[j] != all[j
                    + 1] by {
                    assert(all.take(k as int)[j] == all[j] && all.take(k as int)[j + 1] == all[j
                        + 1]);
                    assert(RawName::key(all.take(k as int)[j]) != RawName::key(
                        all.take(k as int)[j + 1],
                    ));
                }
                assert forall|other: Seq<u8>| #[trigger]
                    all.to_multiset().count(other) >= 2 implies lex_le(all[k as int], other) by {
                    lemma_first_duplicate_is_smallest(all, k as int, other);
                }
            }
            let mut sorted = sorted;
            let name = sorted.swap_remove(k);
            Some(name.bytes)
        },
        None => {
            proof {
                lemma_no_repeat_distinct::<RawName>(all);
                assert forall|p: int, q: int|
                    0 <= p < all.len() && 0 <= q < all.len() && p != q implies all[p] != all[q] by {
                    if p < q {
                        assert(RawName::key(all[p]) != RawName::key(all[q]));
                    } else {
                        assert(RawName::key(all[q]) != RawName::key(all[p]));
                    }
                }
            }
            None
        },
    }
}

/// The place of the first entry whose name is not valid, with the byte for
/// which it is not, where there is such an entry.
fn find_invalid(sorted: &Vec<Entry>) -> (r: Option<(usize, u8)>)
    ensures
        match r {
            Some((k, byte)) => k < sorted@.len() && !valid_name(sorted@[k as int]@.name) && byte
                == invalid_byte(sorted@[k as int]@.name) && forall|j: int|
                0 <= j < k ==> valid_name(#[trigger] sorted@[j]@.name),
            None => forall|j: int| 0 <= j < sorted@.len() ==> valid_name(#[trigger] sorted@[j]@.name),
        },
{
    let mut i: usize = 0;
    while i < sorted.len()
        invariant
            i <= sorted.len(),
            forall|j: int| 0 <= j < i ==> valid_name(#[trigger] sorted@[j]@.name),
        decreases sorted.len() - i,
    {
        match find_invalid_byte(sorted[i].name.as_slice()) {
            Some(byte) => {
                return Some((i, byte));
            },
            None => {},
        }
        i += 1;
    }
    None
}

/// Puts the entries in their canonical order, or says why they have none.
fn sort_and_check_children(children: Vec<Entry>) -> (r: Result<Vec<Entry>, DirectoryError>)
    ensures
        match r {
            Ok(sorted) => canonical(views(sorted@)) && views(sorted@).to_multiset() == views(
                children@,
            ).to_multiset() && names_distinct(views(children@)) && names_valid(views(children@)),
            Err(e) => refused(views(children@), e),
        },
{
    let ghost input = views(children@);
    let all_names = sort_by_key(copy_names(&children));
    proof {
        lemma_no_duplicates_same_values(views(all_names@), names(input));
    }
    match find_duplicate(all_names) {
        Some(name) => {
            proof {
                if names(input).no_duplicates() {
                    names(input).lemma_multiset_has_no_duplicates();
                }
            }
            return Err(DirectoryError::DuplicateEntryName(name));
        },
        None => {},
    }
    let mut sorted = sort_by_key(children);
    let ghost order = views(sorted@);
    proof {
        lemma_names_same_values(input, order);
    }
    match find_invalid(&sorted) {
        Some((i, byte)) => {
            let ghost bad = order[i as int];
            proof {
                assert(bad == sorted@[i as int]@);
                assert(order.contains(bad));
                lemma_contains_same_values(order, input, bad);
                let k = choose|k: int| 0 <= k < input.len() && input[k] == bad;
                assert forall|j: int|
                    0 <= j < input.len() && strictly_before(
                        (#[trigger] input[j]).sort_key(),
                        input[k].sort_key(),
                    ) implies valid_name(input[j].name) by {
                    assert(input.contains(input[j]));
                    lemma_contains_same_values(input, order, input[j]);
                    let p = choose|p: int| 0 <= p < order.len() && order[p] == input[j];
                    if p > i {
                        assert(lex_le(Entry::key(order[i as int]), Entry::key(order[p])));
                        lemma_lex_le_antisymmetric(input[j].sort_key(), bad.sort_key());
                    } else {
                        assert(order[p] == sorted@[p]@);
                    }
                }
                assert(!names_valid(input)) by {
                    assert(!valid_name(input[k].name));
                }
            }
            let entry = sorted.swap_remove(i);
            Err(DirectoryError::InvalidByteInName { byte, name: entry.name })
        },
        None => {
            proof {
                assert forall|j: int| 0 <= j < order.len() implies valid_name(
                    #[trigger] order[j].name,
                ) by {
                    assert(order[j] == sorted@[j]@);
                }
            }
            Ok(sorted)
        },
    }
}

/// The manifest of entries that stand in their canonical order.
fn dir_manifest_unchecked(children: &[Entry]) -> (r: Vec<u8>)
    ensures
        r@ == manifest(views(children@)),
{
    let mut out: Vec<u8> = Vec::new();
    let mut i: usize = 0;
    while i < children.len()
        invariant
            i <= children.len(),
            out@ == manifest(views(children@).take(i as int)),
        decreases children.len() - i,
    {
        let e = &children[i];
        let ghost before = out@;
        push_octal(&mut out, e.mode);
        out.push(32u8);
        extend_bytes(&mut out, e.name.as_slice());
        out.push(0u8);
        extend_bytes(&mut out, e.id.as_slice());
        i += 1;
        proof {
            let done = views(children@).take(i as int);
            assert(done.drop_last() =~= views(children@).take(i - 1));
            assert(done.last() == e@);
            assert(out@ =~= before + e@.manifest());
        }
    }
    assert(views(children@).take(children.len() as int) =~= views(children@));
    out
}

/// The manifest of the directory with the entries `children`, which may
/// come in any order. Entries with a name that is not valid, or with the
/// same name, are refused.
pub fn dir_manifest(children: Vec<Entry>) -> (r: Result<Vec<u8>, DirectoryError>)
    ensures
        match r {
            Ok(m) => names_distinct(views(children@)) && names_valid(views(children@)) && exists|
                order: Seq<EntryView>,
            |
                canonical(order) && order.to_multiset() == views(children@).to_multiset() && m@
                    == manifest(order),
            Err(e) => refused(views(children@), e),
        },
{
    match sort_and_check_children(children) {
        Ok(sorted) => {
            let m = dir_manifest_unchecked(sorted.as_slice());
            assert(canonical(views(sorted@)) && m@ == manifest(views(sorted@)));
            Ok(m)
        },
        Err(e) => Err(e),
    }
}

/// A directory: entries in their canonical order.
#[derive(Debug, PartialEq, Eq, Hash)]
pub struct Directory {
    entries: Vec<Entry>,
}

impl View for Directory {
    type V = Seq<EntryView>;

    closed spec fn view(&self) -> Seq<EntryView> {
        views(self.entries@)
    }
}

impl Directory {
    #[verifier::type_invariant]
    spec fn well_formed(self) -> bool {
        canonical(views(self.entries@))
    }

    /// The directory with the entries `entries`, which may come in any
    /// order. Entries with a name that is not valid, or with the same name,
    /// are refused.
    pub fn new(entries: Vec<Entry>) -> (r: Result<Directory, DirectoryError>)
        ensures
            match r {
                Ok(d) => names_distinct(views(entries@)) && names_valid(views(entries@))
                    && canonical(d@) && d@.to_multiset() == views(entries@).to_multiset(),
                Err(e) => refused(views(entries@), e),
            },
    {
        match sort_and_check_children(entries) {
            Ok(sorted) => Ok(Directory { entries: sorted }),
            Err(e) => Err(e),
        }
    }

    /// The entries, in their canonical order.
    pub fn entries(&self) -> (r: &[Entry])
        ensures
            views(r@) == self@,
            canonical(self@),
    {
        proof {
            use_type_invariant(self);
        }
        self.entries.as_slice()
    }

    /// The manifest of the directory.
    pub fn manifest(&self) -> (r: Vec<u8>)
        ensures
            r@ == manifest(self@),
    {
        dir_manifest_unchecked(self.entries.as_slice())
    }

    /// The identifier of the directory: its type is `Directory`, its digest
    /// that of the object `tree` with the manifest as payload.
    pub fn swhid(&self) -> (r: Result<Swhid, SwhidError>)
        ensures
            r matches Ok(id) && id@ == (SwhidView {
                object_type: ObjectType::Directory,
                digest: object_digest(tree_label(), manifest(self@)),
            }),
    {
        let m = dir_manifest_unchecked(self.entries.as_slice());
        Ok(Swhid::of_object(ObjectType::Directory, m.as_slice()))
    }
}

impl Default for Directory {
    fn default() -> (r: Directory)
        ensures
            r@ == Seq::<EntryView>::empty(),
    {
        let entries: Vec<Entry> = Vec::new();
        assert(views(entries@) =~= Seq::<EntryView>::empty());
        assert(names(views(entries@)) =~= Seq::<Seq<u8>>::empty());
        Directory { entries }
    }
}

/// An entry as it is given where nothing is read from a file system: a
/// name, the permissions, and the digest of what the entry names.
#[derive(Debug, Clone, PartialEq, Eq, Hash)]
pub struct ManifestEntry {
    pub name: Vec<u8>,
    pub perms: EntryPerms,
    pub target: [u8; 20],
}

impl ManifestEntry {
    /// The entry that this stands for: its mode is that of the permissions.
    pub open spec fn entry(self) -> EntryView {
        EntryView { name: self.name@, mode: self.perms.mode(), id: self.target@ }
    }
}

/// The entries that explicit entries stand for.
pub open spec fn manifest_entries(given: Seq<ManifestEntry>) -> Seq<EntryView> {
    given.map_values(|e: ManifestEntry| e.entry())
}

impl Directory {
    /// The directory with the entries `given`, which may come in any order.
    /// No file system is asked: names, permissions and digests are all
    /// given. Entries with a name that is not valid, or with the same name,
    /// are refused.
    pub fn from_manifest(given: Vec<ManifestEntry>) -> (r: Result<Directory, DirectoryError>)
        ensures
            match r {
                Ok(d) => names_distinct(manifest_entries(given@)) && names_valid(
                    manifest_entries(given@),
                ) && canonical(d@) && d@.to_multiset() == manifest_entries(given@).to_multiset(),
                Err(e) => refused(manifest_entries(given@), e),
            },
    {
        let ghost all = manifest_entries(given@);
        let ghost total = given@.len();
        // turned round, so that the first entry is taken first
        let mut rest = given;
        let mut turned: Vec<ManifestEntry> = Vec::new();
        while rest.len() > 0
            invariant
                rest@ == given@.take(rest@.len() as int),
                rest@.len() + turned@.len() == total,
                total == given@.len(),
                forall|i: int| 0 <= i < turned@.len() ==> turned@[i] == given@[total - 1 - i],
            decreases rest.len(),
        {
            let e = rest.pop().unwrap();
            turned.push(e);
            assert(rest@ =~= given@.take(rest@.len() as int));
        }
        let ghost backwards = turned@;
        let mut entries: Vec<Entry> = Vec::new();
        assert(views(entries@) =~= all.take(0));
        while turned.len() > 0
            invariant
                turned@ == backwards.take(turned@.len() as int),
                backwards.len() == total,
                total == given@.len(),
                all == manifest_entries(given@),
                forall|i: int| 0 <= i < total ==> backwards[i] == given@[total - 1 - i],
                entries@.len() + turned@.len() == total,
                views(entries@) == all.take(entries@.len() as int),
            decreases turned.len(),
        {
            let ghost k = entries@.len();
            let ghost before = views(entries@);
            let e = turned.pop().unwrap();
            assert(e == given@[k as int]);
            entries.push(Entry { name: e.name, mode: e.perms.to_swh_mode_u32(), id: e.target });
            proof {
                assert(turned@ =~= backwards.take(turned@.len() as int));
                assert(views(entries@) =~= before.push(all[k as int]));
                assert(all.take(k as int + 1) =~= all.take(k as int).push(all[k as int]));
            }
        }
        assert(all.take(total as int) =~= all);
        Directory::new(entries)
    }
}

} // verus!
