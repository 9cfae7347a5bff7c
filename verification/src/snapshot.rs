//! Snapshots: branches in their canonical order, the manifest, and the
//! identifier.

use vstd::prelude::*;
use vstd::string::*;
use crate::digits::{decimal, push_decimal};
use crate::error::SnapshotError;
use crate::hash::{object_digest, snapshot_label};
use crate::identifier::{ObjectType, Swhid, SwhidView};
use crate::lex::bytes_le;
use crate::perm::{
    lemma_contains_same_values, lemma_map_same_values, lemma_no_duplicates_same_values,
    lemma_two_places,
};
use crate::seqs::{extend_bytes, find_byte, lemma_first_index};
use crate::sorting::{
    ascending, distinct_keys, lemma_ascending_unique, sort_by_key, views, SortKey,
};
use crate::utils::{check_unique, lemma_first_duplicate_is_smallest, lemma_no_repeat_distinct};

verus! {

/// What a branch points to: an object of one of five kinds, by its digest,
/// or another branch, by its name. Where the digest or the name is absent,
/// the branch dangles.
#[derive(Debug, Clone, PartialEq, Eq, Hash)]
pub enum BranchTarget {
    Content(Option<[u8; 20]>),
    Directory(Option<[u8; 20]>),
    Revision(Option<[u8; 20]>),
    Release(Option<[u8; 20]>),
    Snapshot(Option<[u8; 20]>),
    Alias(Option<Vec<u8>>),
}

/// The kinds of target.
pub enum TargetKind {
    Content,
    Directory,
    Revision,
    Release,
    Snapshot,
    Alias,
}

/// A target as its kind and its bytes, where it has any.
pub struct BranchTargetView {
    pub kind: TargetKind,
    pub id: Option<Seq<u8>>,
}

impl View for BranchTarget {
    type V = BranchTargetView;

    open spec fn view(&self) -> BranchTargetView {
        match self {
            BranchTarget::Content(id) => BranchTargetView {
                kind: TargetKind::Content,
                id: digest_view(*id),
            },
            BranchTarget::Directory(id) => BranchTargetView {
                kind: TargetKind::Directory,
                id: digest_view(*id),
            },
            BranchTarget::Revision(id) => BranchTargetView {
                kind: TargetKind::Revision,
                id: digest_view(*id),
            },
            BranchTarget::Release(id) => BranchTargetView {
                kind: TargetKind::Release,
                id: digest_view(*id),
            },
            BranchTarget::Snapshot(id) => BranchTargetView {
                kind: TargetKind::Snapshot,
                id: digest_view(*id),
            },
            BranchTarget::Alias(name) => BranchTargetView {
                kind: TargetKind::Alias,
                id: match name {
                    Some(n) => Some(n@),
                    None => None,
                },
            },
        }
    }
}

/// The view of a digest that may be absent.
pub open spec fn digest_view(id: Option<[u8; 20]>) -> Option<Seq<u8>> {
    match id {
        Some(d) => Some(d@),
        None => None,
    }
}

impl TargetKind {
    /// The label of the kind in a manifest.
    pub open spec fn label(self) -> Seq<u8> {
        match self {
            TargetKind::Content => seq![99u8, 111u8, 110u8, 116u8, 101u8, 110u8, 116u8],
            TargetKind::Directory => seq![
                100u8,
                105u8,
                114u8,
                101u8,
                99u8,
                116u8,
                111u8,
                114u8,
                121u8,
            ],
            TargetKind::Revision => seq![114u8, 101u8, 118u8, 105u8, 115u8, 105u8, 111u8, 110u8],
            TargetKind::Release => seq![114u8, 101u8, 108u8, 101u8, 97u8, 115u8, 101u8],
            TargetKind::Snapshot => seq![115u8, 110u8, 97u8, 112u8, 115u8, 104u8, 111u8, 116u8],
            TargetKind::Alias => seq![97u8, 108u8, 105u8, 97u8, 115u8],
        }
    }
}

impl BranchTargetView {
    /// The bytes of the target: the digest or the name, and nothing where
    /// the branch dangles.
    pub open spec fn target_id(self) -> Seq<u8> {
        match self.id {
            Some(id) => id,
            None => Seq::empty(),
        }
    }
}

impl BranchTarget {
    /// The bytes of the target: the digest or the name, and nothing where
    /// the branch dangles.
    pub fn target_id(&self) -> (r: &[u8])
        ensures
            r@ == self@.target_id(),
    {
        match self {
            BranchTarget::Content(id) | BranchTarget::Directory(id) | BranchTarget::Revision(id)
            | BranchTarget::Release(id) | BranchTarget::Snapshot(id) => match id {
                Some(d) => d.as_slice(),
                None => {
                    let empty: &[u8] = &[];
                    empty
                },
            },
            BranchTarget::Alias(name) => match name {
                Some(n) => n.as_slice(),
                None => {
                    let empty: &[u8] = &[];
                    empty
                },
            },
        }
    }

    /// The label of the kind of the target in a manifest.
    pub fn label(&self) -> (r: &'static str)
        ensures
            r.spec_bytes() == self@.kind.label(),
    {
        proof {
            lemma_kind_labels();
        }
        match self {
            BranchTarget::Content(_) => "content",
            BranchTarget::Directory(_) => "directory",
            BranchTarget::Revision(_) => "revision",
            BranchTarget::Release(_) => "release",
            BranchTarget::Snapshot(_) => "snapshot",
            BranchTarget::Alias(_) => "alias",
        }
    }
}

/// The bytes of the six labels.
proof fn lemma_kind_labels()
    ensures
        "content".spec_bytes() == TargetKind::Content.label(),
        "directory".spec_bytes() == TargetKind::Directory.label(),
        "revision".spec_bytes() == TargetKind::Revision.label(),
        "release".spec_bytes() == TargetKind::Release.label(),
        "snapshot".spec_bytes() == TargetKind::Snapshot.label(),
        "alias".spec_bytes() == TargetKind::Alias.label(),
{
    broadcast use is_ascii_spec_bytes;

    reveal_strlit("content");
    reveal_strlit("directory");
    reveal_strlit("revision");
    reveal_strlit("release");
    reveal_strlit("snapshot");
    reveal_strlit("alias");
    assert(is_ascii("content"));
    assert(is_ascii("directory"));
    assert(is_ascii("revision"));
    assert(is_ascii("release"));
    assert(is_ascii("snapshot"));
    assert(is_ascii("alias"));
    assert("content".spec_bytes() =~= TargetKind::Content.label());
    assert("directory".spec_bytes() =~= TargetKind::Directory.label());
    assert("revision".spec_bytes() =~= TargetKind::Revision.label());
    assert("release".spec_bytes() =~= TargetKind::Release.label());
    assert("snapshot".spec_bytes() =~= TargetKind::Snapshot.label());
    assert("alias".spec_bytes() =~= TargetKind::Alias.label());
}

/// A branch: a name, which is any bytes, and what it points to.
#[derive(Debug, Clone, PartialEq, Eq, Hash)]
pub struct Branch {
    pub name: Vec<u8>,
    pub target: BranchTarget,
}

/// A branch with its name as a sequence of bytes.
pub struct BranchView {
    pub name: Seq<u8>,
    pub target: BranchTargetView,
}

impl View for Branch {
    type V = BranchView;

    open spec fn view(&self) -> BranchView {
        BranchView { name: self.name@, target: self.target@ }
    }
}

impl BranchView {
    /// The bytes of the branch in a manifest: the label of its target, a
    /// space, the name, a NUL byte, the length of the target's bytes in
    /// decimal, a colon, and those bytes.
    pub open spec fn manifest(self) -> Seq<u8> {
        self.target.kind.label() + seq![32u8] + self.name + seq![0u8] + decimal(
            self.target.target_id().len(),
        ) + seq![58u8] + self.target.target_id()
    }
}

impl SortKey for Branch {
    open spec fn key(v: BranchView) -> Seq<u8> {
        v.name
    }

    fn key_le(&self, other: &Self) -> (r: bool) {
        bytes_le(self.name.as_slice(), other.name.as_slice())
    }
}

impl Branch {
    /// The branch named `name` that points to `target`.
    pub fn new(name: Vec<u8>, target: BranchTarget) -> (r: Branch)
        ensures
            r.name == name,
            r.target == target,
    {
        Branch { name, target }
    }
}

/// The names of the branches.
pub open spec fn branch_names(s: Seq<BranchView>) -> Seq<Seq<u8>> {
    s.map_values(|b: BranchView| b.name)
}

/// Whether no two branches have the same name.
pub open spec fn branch_names_distinct(s: Seq<BranchView>) -> bool {
    branch_names(s).no_duplicates()
}

/// Whether no name of a branch holds a NUL byte.
pub open spec fn branch_names_valid(s: Seq<BranchView>) -> bool {
    forall|i: int| 0 <= i < s.len() ==> !(#[trigger] s[i].name).contains(0u8)
}

/// Whether the branches stand in the order of a snapshot: by name, with
/// names that differ and hold no NUL byte.
pub open spec fn canonical_branches(s: Seq<BranchView>) -> bool {
    ascending::<Branch>(s) && branch_names_distinct(s) && branch_names_valid(s)
}

/// The manifest of a snapshot: the bytes of its branches, one after the
/// other, with nothing between them.
pub open spec fn snapshot_manifest(branches: Seq<BranchView>) -> Seq<u8>
    decreases branches.len(),
{
    if branches.len() == 0 {
        Seq::empty()
    } else {
        snapshot_manifest(branches.drop_last()) + branches.last().manifest()
    }
}

/// Whether `e` is the error for `input`. A name that two branches have is a
/// duplicate, and the smallest such name is reported. Where no name is a
/// duplicate, the smallest name that holds a NUL byte is reported.
pub open spec fn refused_branches(input: Seq<BranchView>, e: SnapshotError) -> bool {
    match e {
        SnapshotError::DuplicateBranchName(n) => !branch_names_distinct(input) && branch_names(
            input,
        ).to_multiset().count(n@) >= 2 && forall|other: Seq<u8>|
            #[trigger] branch_names(input).to_multiset().count(other) >= 2 ==> crate::lex::lex_le(
                n@,
                other,
            ),
        SnapshotError::InvalidByteInName { byte, name } => branch_names_distinct(input)
            && !branch_names_valid(input) && byte == 0u8 && name@.contains(0u8) && branch_names(
            input,
        ).contains(name@) && forall|j: int|
            0 <= j < input.len() && (#[trigger] input[j]).name.contains(0u8) ==> crate::lex::lex_le(
                name@,
                input[j].name,
            ),
    }
}

/// Two branches with one name, whatever they point to, are branches whose
/// names do not differ: no snapshot holds them.
pub proof fn lemma_shared_branch_name(s: Seq<BranchView>, i: int, j: int)
    requires
        0 <= i < j < s.len(),
        s[i].name == s[j].name,
    ensures
        !branch_names_distinct(s),
{
    assert(branch_names(s)[i] == branch_names(s)[j]);
}

/// Whether the names differ and are valid is a matter of the branches, not
/// of their order.
pub proof fn lemma_branch_names_same_values(a: Seq<BranchView>, b: Seq<BranchView>)
    requires
        a.to_multiset() == b.to_multiset(),
    ensures
        branch_names_distinct(a) == branch_names_distinct(b),
        branch_names_valid(a) == branch_names_valid(b),
        branch_names(a).to_multiset() == branch_names(b).to_multiset(),
{
    lemma_map_same_values(a, b, |e: BranchView| e.name);
    lemma_no_duplicates_same_values(branch_names(a), branch_names(b));
    if branch_names_valid(a) {
        assert forall|i: int| 0 <= i < b.len() implies !(#[trigger] b[i].name).contains(0u8) by {
            assert(b.contains(b[i]));
            lemma_contains_same_values(b, a, b[i]);
            let k = choose|k: int| 0 <= k < a.len() && a[k] == b[i];
            assert(!a[k].name.contains(0u8));
        }
    }
    if branch_names_valid(b) {
        assert forall|i: int| 0 <= i < a.len() implies !(#[trigger] a[i].name).contains(0u8) by {
            assert(a.contains(a[i]));
            lemma_contains_same_values(a, b, a[i]);
            let k = choose|k: int| 0 <= k < b.len() && b[k] == a[i];
            assert(!b[k].name.contains(0u8));
        }
    }
}

/// The same branches, given in any order, make the same snapshot: where
/// `first` and `second` hold the same branches, the canonical orders of both
/// are one order, with one manifest and one digest.
pub proof fn lemma_branch_order_independent(
    first: Seq<BranchView>,
    second: Seq<BranchView>,
    a: Seq<BranchView>,
    b: Seq<BranchView>,
)
    requires
        first.to_multiset() == second.to_multiset(),
        canonical_branches(a),
        a.to_multiset() == first.to_multiset(),
        canonical_branches(b),
        b.to_multiset() == second.to_multiset(),
    ensures
        a == b,
        snapshot_manifest(a) == snapshot_manifest(b),
        object_digest(snapshot_label(), snapshot_manifest(a)) == object_digest(
            snapshot_label(),
            snapshot_manifest(b),
        ),
{
    assert(distinct_keys::<Branch>(a)) by {
        assert forall|i: int, j: int| 0 <= i < j < a.len() implies Branch::key(a[i]) != Branch::key(
            a[j],
        ) by {
            assert(branch_names(a)[i] != branch_names(a)[j]);
        }
    }
    lemma_ascending_unique::<Branch>(a, b);
}

/// The place of the first branch whose name holds a NUL byte, where there
/// is one.
fn find_invalid(sorted: &Vec<Branch>) -> (r: Option<usize>)
    ensures
        match r {
            Some(k) => k < sorted@.len() && sorted@[k as int]@.name.contains(0u8) && forall|j: int|
                0 <= j < k ==> !(#[trigger] sorted@[j]@.name).contains(0u8),
            None => forall|j: int|
                0 <= j < sorted@.len() ==> !(#[trigger] sorted@[j]@.name).contains(0u8),
        },
{
    let mut i: usize = 0;
    while i < sorted.len()
        invariant
            i <= sorted.len(),
            forall|j: int| 0 <= j < i ==> !(#[trigger] sorted@[j]@.name).contains(0u8),
        decreases sorted.len() - i,
    {
        let name = sorted[i].name.as_slice();
        proof {
            lemma_first_index(name@, 0u8);
        }
        if find_byte(name, 0u8) < name.len() {
            return Some(i);
        }
        i += 1;
    }
    None
}

/// Puts the branches in their canonical order, or says why they have none.
fn sort_and_check_branches(branches: Vec<Branch>) -> (r: Result<Vec<Branch>, SnapshotError>)
    ensures
        match r {
            Ok(sorted) => canonical_branches(views(sorted@)) && views(sorted@).to_multiset()
                == views(branches@).to_multiset() && branch_names_distinct(views(branches@))
                && branch_names_valid(views(branches@)),
            Err(e) => refused_branches(views(branches@), e),
        },
{
    let ghost input = views(branches@);
    let mut sorted = sort_by_key(branches);
    let ghost order = views(sorted@);
    proof {
        lemma_branch_names_same_values(input, order);
    }
    match check_unique(&sorted) {
        Some(k) => {
            proof {
                let all = branch_names(order);
                assert(all[k - 1] == sorted@[k - 1]@.name);
                assert(all[k as int] == sorted@[k as int]@.name);
                lemma_two_places(all, k - 1, k as int);
                if all.no_duplicates() {
                    all.lemma_multiset_has_no_duplicates();
                }
                assert forall|i: int, j: int| 0 <= i < j < all.len() implies crate::lex::lex_le(
                    all[i],
                    all[j],
                ) by {
                    assert(crate::lex::lex_le(Branch::key(order[i]), Branch::key(order[j])));
                }
                assert forall|j: int| 0 <= j && j + 1 < k implies #[trigger] all[j] != all[j
                    + 1] by {
                    assert(order.take(k as int)[j] == order[j] && order.take(k as int)[j + 1]
                        == order[j + 1]);
                    assert(Branch::key(order.take(k as int)[j]) != Branch::key(
                        order.take(k as int)[j + 1],
                    ));
                }
                assert forall|other: Seq<u8>| #[trigger]
                    all.to_multiset().count(other) >= 2 implies crate::lex::lex_le(
                    all[k as int],
                    other,
                ) by {
                    lemma_first_duplicate_is_smallest(all, k as int, other);
                }
            }
            let branch = sorted.swap_remove(k);
            return Err(SnapshotError::DuplicateBranchName(branch.name));
        },
        None => {},
    }
    proof {
        let all = branch_names(order);
        lemma_no_repeat_distinct::<Branch>(order);
        assert forall|p: int, q: int|
            0 <= p < all.len() && 0 <= q < all.len() && p != q implies all[p] != all[q] by {
            if p < q {
                assert(Branch::key(order[p]) != Branch::key(order[q]));
            } else {
                assert(Branch::key(order[q]) != Branch::key(order[p]));
            }
        }
    }
    match find_invalid(&sorted) {
        Some(k) => {
            proof {
                let bad = order[k as int];
                assert(bad == sorted@[k as int]@);
                assert(branch_names(order)[k as int] == bad.name);
                assert(order.contains(bad));
                lemma_contains_same_values(order, input, bad);
                let i = choose|i: int| 0 <= i < input.len() && input[i] == bad;
                assert(branch_names(input)[i] == bad.name);
                assert forall|j: int|
                    0 <= j < input.len() && (#[trigger] input[j]).name.contains(
                        0u8,
                    ) implies crate::lex::lex_le(bad.name, input[j].name) by {
                    assert(input.contains(input[j]));
                    lemma_contains_same_values(input, order, input[j]);
                    let p = choose|p: int| 0 <= p < order.len() && order[p] == input[j];
                    assert(order[p] == sorted@[p]@);
                    if p > k {
                        assert(crate::lex::lex_le(Branch::key(order[k as int]), Branch::key(order[p])));
                    } else if p == k {
                        crate::lex::lemma_lex_le_reflexive(bad.name);
                    }
                }
            }
            let branch = sorted.swap_remove(k);
            Err(SnapshotError::InvalidByteInName { byte: 0u8, name: branch.name })
        },
        None => {
            proof {
                assert forall|j: int| 0 <= j < order.len() implies !(#[trigger] order[j].name).contains(
                    0u8,
                ) by {
                    assert(order[j] == sorted@[j]@);
                }
            }
            Ok(sorted)
        },
    }
}

/// The manifest of branches that stand in their canonical order.
fn snp_manifest_unchecked(branches: &[Branch]) -> (r: Vec<u8>)
    ensures
        r@ == snapshot_manifest(views(branches@)),
{
    let mut out: Vec<u8> = Vec::new();
    let mut i: usize = 0;
    while i < branches.len()
        invariant
            i <= branches.len(),
            out@ == snapshot_manifest(views(branches@).take(i as int)),
        decreases branches.len() - i,
    {
        let branch = &branches[i];
        let ghost before = out@;
        let id = branch.target.target_id();
        extend_bytes(&mut out, branch.target.label().as_bytes());
        out.push(32u8);
        extend_bytes(&mut out, branch.name.as_slice());
        out.push(0u8);
        push_decimal(&mut out, id.len() as u64);
        out.push(58u8);
        extend_bytes(&mut out, id);
        i += 1;
        proof {
            let done = views(branches@).take(i as int);
            assert(done.drop_last() =~= views(branches@).take(i - 1));
            assert(done.last() == branch@);
            assert(out@ =~= before + branch@.manifest());
        }
    }
    assert(views(branches@).take(branches.len() as int) =~= views(branches@));
    out
}

/// The manifest of the snapshot with the branches `branches`, which may come
/// in any order. Branches with the same name, or with a NUL byte in their
/// name, are refused.
pub fn snp_manifest(branches: Vec<Branch>) -> (r: Result<Vec<u8>, SnapshotError>)
    ensures
        match r {
            Ok(m) => branch_names_distinct(views(branches@)) && branch_names_valid(
                views(branches@),
            ) && exists|order: Seq<BranchView>|
                canonical_branches(order) && order.to_multiset() == views(branches@).to_multiset()
                    && m@ == snapshot_manifest(order),
            Err(e) => refused_branches(views(branches@), e),
        },
{
    match sort_and_check_branches(branches) {
        Ok(sorted) => {
            let m = snp_manifest_unchecked(sorted.as_slice());
            assert(canonical_branches(views(sorted@)) && m@ == snapshot_manifest(views(sorted@)));
            Ok(m)
        },
        Err(e) => Err(e),
    }
}

/// A snapshot: branches in their canonical order.
#[derive(Debug, PartialEq, Eq, Hash)]
pub struct Snapshot {
    branches: Vec<Branch>,
}

impl View for Snapshot {
    type V = Seq<BranchView>;

    closed spec fn view(&self) -> Seq<BranchView> {
        views(self.branches@)
    }
}

impl Snapshot {
    #[verifier::type_invariant]
    spec fn well_formed(self) -> bool {
        canonical_branches(views(self.branches@))
    }

    /// The snapshot with the branches `branches`, which may come in any
    /// order. Branches with the same name, or with a NUL byte in their name,
    /// are refused.
    pub fn new(branches: Vec<Branch>) -> (r: Result<Snapshot, SnapshotError>)
        ensures
            match r {
                Ok(s) => branch_names_distinct(views(branches@)) && branch_names_valid(
                    views(branches@),
                ) && canonical_branches(s@) && s@.to_multiset() == views(branches@).to_multiset(),
                Err(e) => refused_branches(views(branches@), e),
            },
    {
        match sort_and_check_branches(branches) {
            Ok(sorted) => Ok(Snapshot { branches: sorted }),
            Err(e) => Err(e),
        }
    }

    /// The branches, in their canonical order.
    pub fn branches(&self) -> (r: &[Branch])
        ensures
            views(r@) == self@,
            canonical_branches(self@),
    {
        proof {
            use_type_invariant(self);
        }
        self.branches.as_slice()
    }

    /// The manifest of the snapshot.
    pub fn manifest(&self) -> (r: Vec<u8>)
        ensures
            r@ == snapshot_manifest(self@),
    {
        snp_manifest_unchecked(self.branches.as_slice())
    }

    /// The identifier of the snapshot: its type is `Snapshot`, its digest
    /// that of the object `snapshot` with the manifest as payload.
    pub fn swhid(&self) -> (r: Swhid)
        ensures
            r@ == (SwhidView {
                object_type: ObjectType::Snapshot,
                digest: object_digest(snapshot_label(), snapshot_manifest(self@)),
            }),
    {
        let m = snp_manifest_unchecked(self.branches.as_slice());
        Swhid::of_object(ObjectType::Snapshot, m.as_slice())
    }
}

impl Default for Snapshot {
    fn default() -> (r: Snapshot)
        ensures
            r@ == Seq::<BranchView>::empty(),
    {
        let branches: Vec<Branch> = Vec::new();
        assert(views(branches@) =~= Seq::<BranchView>::empty());
        assert(branch_names(views(branches@)) =~= Seq::<Seq<u8>>::empty());
        Snapshot { branches }
    }
}

} // verus!
