//! The union-find table behind a substitution: which variables stand for the same type, and what
//! is known of each class of such variables.
use vstd::prelude::*;
use crate::fnv_map::fnv_extend;
use fnv::FnvHashMap;
use union_find::{QuickFindUf, Union, UnionByRank, UnionFind, UnionResult};
use vstd::arithmetic::power2;

verus! {

/// `union_find::QuickFindUf`.
#[verifier::external_type_specification]
#[verifier::external_body]
#[verifier::reject_recursive_types(V)]
pub struct ExQuickFindUf<V>(QuickFindUf<V>);

/// `union_find::UnionByRank`.
#[verifier::external_type_specification]
#[verifier::external_body]
pub struct ExUnionByRank(UnionByRank);

/// `union_find::UnionResult`: its two variants, `Left` and `Right`, are public.
#[verifier::external_type_specification]
#[verifier::reject_recursive_types(T)]
pub struct ExUnionResult<T>(UnionResult<T>);

/// The rank that a `union_find::UnionByRank` holds.
pub uninterp spec fn rank_of(rank: UnionByRank) -> u8;

/// For each key of the table the key that stands for its class.
pub uninterp spec fn uf_roots(table: QuickFindUf<UnionByLevel>) -> Seq<usize>;

/// What is stored for each class, under the key that stands for it.
pub uninterp spec fn uf_classes(table: QuickFindUf<UnionByLevel>) -> Map<usize, ClassData>;

/// What is known of a class of variables.
///
/// Unions make sure that a class with a higher level always points to the variable of the class
/// with the lower level. Constraints are kept as positions in a list of constraints that lives
/// next to the table; they are found by the id of the symbol that names them.
pub struct UnionByLevel {
    pub rank: UnionByRank,
    pub level: u32,
    pub constraints: FnvHashMap<u64, usize>,
}

/// The contents of a [`UnionByLevel`].
#[verifier::ext_equal]
pub struct ClassData {
    pub rank: u8,
    pub level: u32,
    pub constraints: Map<u64, usize>,
}

impl View for UnionByLevel {
    type V = ClassData;

    open spec fn view(&self) -> ClassData {
        ClassData {
            rank: rank_of(self.rank),
            level: self.level,
            constraints: self.constraints@,
        }
    }
}

/// The outcome of joining two classes: whether the left key goes on to stand for both, and what
/// is then known of them.
pub struct Joined {
    pub left: bool,
    pub data: ClassData,
}

/// Joining by rank: the class of the higher rank wins, the left one on a tie, which costs a rank.
pub open spec fn joined_rank(left: u8, right: u8) -> (bool, int) {
    if left < right {
        (false, right as int)
    } else if right < left {
        (true, left as int)
    } else {
        (true, left + 1)
    }
}

/// Joining by level: the class of the lower level wins; on a tie the ranks decide. Constraints of
/// both classes are kept, those of the right class where both have one of the same name.
pub open spec fn joined(left: ClassData, right: ClassData) -> Joined {
    let (left_by_rank, rank) = joined_rank(left.rank, right.rank);
    Joined {
        left: left.level < right.level || left.level == right.level && left_by_rank,
        data: ClassData {
            rank: rank as u8,
            level: if right.level < left.level {
                right.level
            } else {
                left.level
            },
            constraints: left.constraints.union_prefer_right(right.constraints),
        },
    }
}

/// `<UnionByRank as Default>::default`: the rank is 0.
#[verifier::external_body]
fn rank_default() -> (rank: UnionByRank)
    ensures
        rank_of(rank) == 0,
{
    UnionByRank::default()
}

/// `<UnionByRank as Union>::union`: the higher rank wins; two equal ranks give the left one, one
/// rank higher, which has to fit in a `u8`.
#[verifier::external_body]
fn rank_union(left: UnionByRank, right: UnionByRank) -> (result: UnionResult<UnionByRank>)
    requires
        joined_rank(rank_of(left), rank_of(right)).1 <= u8::MAX,
    ensures
        match result {
            UnionResult::Left(rank) => joined_rank(rank_of(left), rank_of(right)) == (
                true,
                rank_of(rank) as int,
            ),
            UnionResult::Right(rank) => joined_rank(rank_of(left), rank_of(right)) == (
                false,
                rank_of(rank) as int,
            ),
        },
{
    Union::union(left, right)
}

impl UnionByLevel {
    /// A class of one variable whose level has not been asked for yet, and on which nothing is
    /// demanded but `constraints`.
    pub fn with_constraints(constraints: FnvHashMap<u64, usize>) -> (class: UnionByLevel)
        ensures
            class@ == (ClassData { rank: 0, level: u32::MAX, constraints: constraints@ }),
    {
        UnionByLevel { rank: rank_default(), level: u32::MAX, constraints }
    }
}

impl Default for UnionByLevel {
    fn default() -> (class: UnionByLevel)
        ensures
            class@ == (ClassData { rank: 0, level: u32::MAX, constraints: Map::empty() }),
    {
        UnionByLevel::with_constraints(FnvHashMap::default())
    }
}

impl Union for UnionByLevel {
    fn union(left: UnionByLevel, right: UnionByLevel) -> (result: UnionResult<UnionByLevel>)
        requires
            joined_rank(left@.rank, right@.rank).1 <= u8::MAX,
        ensures
            match result {
                UnionResult::Left(class) => joined(left@, right@) == (Joined {
                    left: true,
                    data: class@,
                }),
                UnionResult::Right(class) => joined(left@, right@) == (Joined {
                    left: false,
                    data: class@,
                }),
            },
    {
        let mut constraints = left.constraints;
        fnv_extend(&mut constraints, right.constraints);
        let (left_by_rank, rank) = match rank_union(left.rank, right.rank) {
            UnionResult::Left(rank) => (true, rank),
            UnionResult::Right(rank) => (false, rank),
        };
        if left.level < right.level {
            UnionResult::Left(UnionByLevel { rank, level: left.level, constraints })
        } else if right.level < left.level {
            UnionResult::Right(UnionByLevel { rank, level: right.level, constraints })
        } else if left_by_rank {
            UnionResult::Left(UnionByLevel { rank, level: left.level, constraints })
        } else {
            UnionResult::Right(UnionByLevel { rank, level: left.level, constraints })
        }
    }
}

/// The contents of a union-find table.
#[verifier::ext_equal]
pub struct Table {
    pub roots: Seq<usize>,
    pub classes: Map<usize, ClassData>,
}

/// The contents of `table`.
pub open spec fn table_of(table: QuickFindUf<UnionByLevel>) -> Table {
    Table { roots: uf_roots(table), classes: uf_classes(table) }
}

/// The sum of two to the power of the rank, over the classes below the key `n`.
pub open spec fn weight(t: Table, n: nat) -> nat
    decreases n,
{
    if n == 0 {
        0
    } else {
        let k = (n - 1) as usize;
        weight(t, (n - 1) as nat) + if t.roots[k as int] == k {
            power2::pow2(t.classes[k].rank as nat)
        } else {
            0
        }
    }
}

/// The most keys that a table may hold: variables are numbered with a `u32`.
pub open spec fn max_keys() -> nat {
    if usize::MAX < 0x1_0000_0000 {
        usize::MAX as nat
    } else {
        0x1_0000_0000
    }
}

impl Table {
    /// The table without keys.
    pub open spec fn empty() -> Table {
        Table { roots: Seq::empty(), classes: Map::empty() }
    }

    /// Every key has a root, which is its own root, and exactly the roots have class data. Ranks
    /// stay logarithmic in the number of keys.
    pub open spec fn wf(self) -> bool {
        &&& self.roots.len() <= max_keys()
        &&& forall|i: int|
            #![trigger self.roots[i]]
            0 <= i < self.roots.len() ==> self.roots[i] < self.roots.len()
                && self.roots[self.roots[i] as int] == self.roots[i]
        &&& forall|k: usize| #[trigger]
            self.classes.contains_key(k) <==> k < self.roots.len() && self.roots[k as int] == k
        &&& weight(self, self.roots.len()) <= self.roots.len()
    }

    /// What is known of the class that the key belongs to.
    pub open spec fn class(self, key: usize) -> ClassData {
        self.classes[self.roots[key as int]]
    }

    /// The table with a new class of one key.
    pub open spec fn inserted(self, data: ClassData) -> Table {
        let key = self.roots.len() as usize;
        Table { roots: self.roots.push(key), classes: self.classes.insert(key, data) }
    }

    /// The table with `data` in place of what was known of the class of `key`.
    pub open spec fn with_class(self, key: usize, data: ClassData) -> Table {
        Table { roots: self.roots, classes: self.classes.insert(self.roots[key as int], data) }
    }

    /// The table in which the class of `child` has been absorbed by that of `root`.
    pub open spec fn absorbed(self, root: usize, child: usize, data: ClassData) -> Table {
        Table {
            roots: Seq::new(
                self.roots.len(),
                |i: int|
                    if self.roots[i] == child {
                        root
                    } else {
                        self.roots[i]
                    },
            ),
            classes: self.classes.remove(child).insert(root, data),
        }
    }

    /// The table in which the classes of the two keys are one.
    pub open spec fn united(self, key0: usize, key1: usize) -> Table {
        let k0 = self.roots[key0 as int];
        let k1 = self.roots[key1 as int];
        let join = joined(self.classes[k0], self.classes[k1]);
        if k0 == k1 {
            self
        } else if join.left {
            self.absorbed(k0, k1, join.data)
        } else {
            self.absorbed(k1, k0, join.data)
        }
    }
}

/// `QuickFindUf::new` (of the trait `UnionFind`), asked for an empty table.
#[verifier::external_body]
pub(crate) fn uf_new() -> (table: QuickFindUf<UnionByLevel>)
    ensures
        uf_roots(table) == Table::empty().roots,
        uf_classes(table) == Table::empty().classes,
{
    QuickFindUf::new(0)
}

/// `QuickFindUf::size`: the number of keys.
#[verifier::external_body]
pub(crate) fn uf_size(table: &QuickFindUf<UnionByLevel>) -> (size: usize)
    ensures
        size == uf_roots(*table).len(),
{
    table.size()
}

/// `QuickFindUf::insert`: the new key is the number of keys there were; it stands for itself.
#[verifier::external_body]
pub(crate) fn uf_insert(table: &mut QuickFindUf<UnionByLevel>, data: UnionByLevel) -> (key: usize)
    ensures
        key == uf_roots(*old(table)).len(),
        table_of(*final(table)) == table_of(*old(table)).inserted(data@),
{
    table.insert(data)
}

/// `QuickFindUf::union`: where the keys are of two classes, `UnionByLevel::union` says which of
/// their roots stands for both from then on, and what is stored there. Says whether there were
/// two classes.
#[verifier::external_body]
pub(crate) fn uf_union(table: &mut QuickFindUf<UnionByLevel>, key0: usize, key1: usize) -> (merged:
    bool)
    requires
        key0 < uf_roots(*old(table)).len(),
        key1 < uf_roots(*old(table)).len(),
        joined_rank(
            table_of(*old(table)).class(key0).rank,
            table_of(*old(table)).class(key1).rank,
        ).1 <= u8::MAX,
    ensures
        merged == (uf_roots(*old(table))[key0 as int] != uf_roots(*old(table))[key1 as int]),
        table_of(*final(table)) == table_of(*old(table)).united(key0, key1),
{
    table.union(key0, key1)
}

/// `QuickFindUf::find`: the root of the key. Nothing in the table changes.
#[verifier::external_body]
pub(crate) fn uf_find(table: &mut QuickFindUf<UnionByLevel>, key: usize) -> (root: usize)
    requires
        key < uf_roots(*old(table)).len(),
    ensures
        root == uf_roots(*old(table))[key as int],
        table_of(*final(table)) == table_of(*old(table)),
{
    table.find(key)
}

/// `QuickFindUf::get`: what is stored at the root of the key. Nothing in the table changes.
#[verifier::external_body]
pub(crate) fn uf_get(table: &mut QuickFindUf<UnionByLevel>, key: usize) -> (class: &UnionByLevel)
    requires
        key < uf_roots(*old(table)).len(),
    ensures
        class@ == table_of(*old(table)).class(key),
        table_of(*final(table)) == table_of(*old(table)),
{
    table.get(key)
}

/// `QuickFindUf::get_mut`: what is stored at the root of the key, to be changed in place.
#[verifier::external_body]
pub(crate) fn uf_get_mut(table: &mut QuickFindUf<UnionByLevel>, key: usize) -> (class:
    &mut UnionByLevel)
    requires
        key < uf_roots(*old(table)).len(),
    ensures
        class@ == table_of(*old(table)).class(key),
        table_of(*final(table)) == table_of(*old(table)).with_class(key, final(class)@),
{
    table.get_mut(key)
}

/// The weight below `n` after the class of `root` has absorbed that of `child`.
proof fn lemma_weight_absorbed(t: Table, root: usize, child: usize, data: ClassData, n: nat)
    requires
        t.wf(),
        t.classes.contains_key(root),
        t.classes.contains_key(child),
        root != child,
        n <= t.roots.len(),
    ensures
        weight(t.absorbed(root, child, data), n) == weight(t, n) + (if root < n {
            power2::pow2(data.rank as nat) - power2::pow2(t.classes[root].rank as nat)
        } else {
            0
        }) - (if child < n {
            power2::pow2(t.classes[child].rank as nat) as int
        } else {
            0
        }),
    decreases n,
{
    if n > 0 {
        lemma_weight_absorbed(t, root, child, data, (n - 1) as nat);
        let k = (n - 1) as usize;
        let after = t.absorbed(root, child, data);
        assert(after.roots[k as int] == (if t.roots[k as int] == child {
            root
        } else {
            t.roots[k as int]
        }));
    }
}

/// The weight below `n` does not depend on keys from `n` on.
proof fn lemma_weight_prefix(t: Table, u: Table, n: nat)
    requires
        n <= usize::MAX,
        n <= t.roots.len(),
        n <= u.roots.len(),
        forall|i: int| 0 <= i < n ==> t.roots[i] == u.roots[i],
        forall|k: usize| k < n && t.roots[k as int] == k ==> t.classes[k].rank == u.classes[k].rank,
    ensures
        weight(t, n) == weight(u, n),
    decreases n,
{
    if n > 0 {
        lemma_weight_prefix(t, u, (n - 1) as nat);
        let k = (n - 1) as usize;
        assert(t.roots[k as int] == u.roots[k as int]);
    }
}

/// The weight of one class is part of the whole.
proof fn lemma_weight_of_class(t: Table, k: usize, n: nat)
    requires
        k < n <= t.roots.len(),
        n <= usize::MAX,
        t.roots[k as int] == k,
    ensures
        power2::pow2(t.classes[k].rank as nat) <= weight(t, n),
    decreases n,
{
    if k < n - 1 {
        lemma_weight_of_class(t, k, (n - 1) as nat);
    }
}

/// A rank never passes 32, so that ranks fit in a byte with room to spare.
pub proof fn lemma_rank_bound(t: Table, key: usize)
    requires
        t.wf(),
        key < t.roots.len(),
    ensures
        t.class(key).rank <= 32,
{
    let k = t.roots[key as int];
    lemma_weight_of_class(t, k, t.roots.len());
    let rank = t.classes[k].rank as nat;
    if rank > 32 {
        power2::lemma_pow2_strictly_increases(32, rank);
        power2::lemma2_to64();
    }
}

/// An empty table is well-formed.
pub proof fn lemma_empty_wf()
    ensures
        Table::empty().wf(),
{
}

/// A new class of rank 0 keeps the table well-formed.
pub proof fn lemma_inserted_wf(t: Table, data: ClassData)
    requires
        t.wf(),
        t.roots.len() < max_keys(),
        data.rank == 0,
    ensures
        t.inserted(data).wf(),
{
    let after = t.inserted(data);
    lemma_weight_prefix(t, after, t.roots.len());
    power2::lemma2_to64();
    assert(weight(after, after.roots.len()) == weight(t, t.roots.len()) + 1);
}

/// A change of level or constraints keeps the table well-formed.
pub proof fn lemma_with_class_wf(t: Table, key: usize, data: ClassData)
    requires
        t.wf(),
        key < t.roots.len(),
        data.rank == t.class(key).rank,
    ensures
        t.with_class(key, data).wf(),
{
    lemma_weight_prefix(t, t.with_class(key, data), t.roots.len());
}

/// Joining two classes keeps the table well-formed.
pub proof fn lemma_united_wf(t: Table, key0: usize, key1: usize)
    requires
        t.wf(),
        key0 < t.roots.len(),
        key1 < t.roots.len(),
    ensures
        t.united(key0, key1).wf(),
{
    let k0 = t.roots[key0 as int];
    let k1 = t.roots[key1 as int];
    if k0 != k1 {
        lemma_rank_bound(t, key0);
        lemma_rank_bound(t, key1);
        let r0 = t.classes[k0].rank as nat;
        let r1 = t.classes[k1].rank as nat;
        let join = joined(t.classes[k0], t.classes[k1]);
        let (root, child) = if join.left {
            (k0, k1)
        } else {
            (k1, k0)
        };
        lemma_weight_absorbed(t, root, child, join.data, t.roots.len());
        if r0 == r1 {
            power2::lemma_pow2_unfold(r0 + 1);
        }
        let after = t.absorbed(root, child, join.data);
        assert forall|i: int| #![trigger after.roots[i]] 0 <= i < after.roots.len() implies
            after.roots[i] < after.roots.len() && after.roots[after.roots[i] as int]
            == after.roots[i] by {
            assert(t.roots[i] < t.roots.len());
        }
    }
}

} // verus!
