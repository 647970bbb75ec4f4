//! The mathematical model of a substitution, and what its operations compute.
use vstd::prelude::*;
use crate::term::Term;
use crate::union_table;
use crate::union_table::{ClassData, Table};

verus! {

/// What a substitution knows.
#[verifier::ext_equal]
pub struct Subs<O> {
    /// Which variables stand for the same type.
    pub table: Table,
    /// The variables that were created, each as a term.
    pub vars: Seq<Term<O>>,
    /// The types of the variables that have one.
    pub types: Map<u32, Term<O>>,
    /// The lists of candidate types that constraints refer to.
    pub lists: Seq<Seq<Term<O>>>,
}

/// The smaller of two levels.
pub open spec fn min_level(a: u32, b: u32) -> u32 {
    if a <= b {
        a
    } else {
        b
    }
}

impl<O> Subs<O> {
    /// The substitution that knows nothing.
    pub open spec fn empty() -> Subs<O> {
        Subs {
            table: Table::empty(),
            vars: Seq::empty(),
            types: Map::empty(),
            lists: Seq::empty(),
        }
    }

    /// The number of variables that can be asked for.
    pub open spec fn size(self) -> nat {
        self.table.roots.len()
    }

    /// The table is well-formed, variables are numbered in the order of their creation, no
    /// variable has a variable for a type, and constraints refer to lists that exist.
    pub open spec fn wf(self) -> bool {
        &&& self.table.wf()
        &&& self.vars.len() <= self.size()
        &&& forall|i: int| 0 <= i < self.vars.len() ==> #[trigger] self.vars[i] == Term::<O>::Var(i as u32)
        &&& forall|v: u32| #[trigger] self.types.contains_key(v) ==> self.types[v] is Node
        &&& forall|k: usize, name: u64|
            self.table.classes.contains_key(k) && #[trigger] self.table.classes[k].constraints.contains_key(name)
                ==> self.table.classes[k].constraints[name] < self.lists.len()
    }

    /// The variable that stands for the class of `var`.
    pub open spec fn root(self, var: u32) -> u32 {
        self.table.roots[var as int] as u32
    }

    /// The type of `var` can be asked for: where it has been joined with a variable without a
    /// type, that variable is at hand.
    pub open spec fn resolvable(self, var: u32) -> bool {
        var < self.size() ==> {
            ||| self.types.contains_key(self.root(var))
            ||| self.root(var) == var
            ||| self.root(var) < self.vars.len()
        }
    }

    /// What `t` stands for can be asked for.
    pub open spec fn askable(self, t: Term<O>) -> bool {
        t matches Term::Var(var) ==> self.resolvable(var)
    }

    /// What is known of `var`: the type of its class; failing that, the variable that stands for
    /// its class; nothing where that is `var` itself.
    pub open spec fn find(self, var: u32) -> Option<Term<O>> {
        if var >= self.size() {
            None
        } else if self.types.contains_key(self.root(var)) {
            Some(self.types[self.root(var)])
        } else if self.root(var) == var {
            None
        } else {
            Some(self.vars[self.root(var) as int])
        }
    }

    /// What a term stands for: what is known of a variable, any other term itself.
    pub open spec fn actual(self, t: Term<O>) -> Term<O> {
        match t {
            Term::Var(var) => match self.find(var) {
                Some(found) => found,
                None => t,
            },
            Term::Node(..) => t,
        }
    }

    /// The variable whose number bounds the level of `var`: the one that stands for it, or `var`
    /// itself where it has a type.
    pub open spec fn level_var(self, var: u32) -> u32 {
        match self.find(var) {
            Some(Term::Var(v)) => v,
            _ => var,
        }
    }

    /// The level of `var`.
    pub open spec fn level(self, var: u32) -> u32 {
        min_level(self.table.class(self.level_var(var) as usize).level, self.level_var(var))
    }

    /// The substitution in which the class of `var` has this level.
    pub open spec fn with_level(self, var: u32, level: u32) -> Subs<O> {
        let class = self.table.class(var as usize);
        Subs {
            table: self.table.with_class(
                var as usize,
                ClassData { rank: class.rank, level, constraints: class.constraints },
            ),
            ..self
        }
    }

    /// The substitution after the level of `var` was asked for: the answer is remembered.
    pub open spec fn level_asked(self, var: u32) -> Subs<O> {
        self.with_level(self.level_var(var), self.level(var))
    }

    /// The substitution after the level of `other` was lowered to that of `var`.
    pub open spec fn level_updated(self, var: u32, other: u32) -> Subs<O> {
        let s1 = self.level_asked(var);
        let s2 = s1.level_asked(other);
        s2.with_level(other, min_level(self.level(var), s1.level(other)))
    }

    /// The substitution with one more variable, on which the candidates of `constraint` are
    /// demanded under its name.
    pub open spec fn with_var(self, constraint: Option<(u64, Seq<Term<O>>)>) -> Subs<O> {
        let constraints = match constraint {
            Some((name, _)) => Map::<u64, usize>::empty().insert(name, self.lists.len() as usize),
            None => Map::<u64, usize>::empty(),
        };
        Subs {
            table: self.table.inserted(ClassData { rank: 0, level: u32::MAX, constraints }),
            vars: self.vars.push(Term::Var(self.vars.len() as u32)),
            types: self.types,
            lists: match constraint {
                Some((_, candidates)) => self.lists.push(candidates),
                None => self.lists,
            },
        }
    }

    /// The substitution in which `var` has a type.
    pub open spec fn with_type(self, var: u32, t: Term<O>) -> Subs<O> {
        Subs { types: self.types.insert(var, t), ..self }
    }

    /// The substitution in which the two variables stand for the same type.
    pub open spec fn united(self, a: u32, b: u32) -> Subs<O> {
        Subs { table: self.table.united(a as usize, b as usize), ..self }
    }

    /// What is demanded of the class of `var`: lists of candidates by name.
    pub open spec fn constraints_of(self, var: u32) -> Map<u64, Seq<Term<O>>> {
        self.table.class(var as usize).constraints.map_values(
            |position: usize| self.lists[position as int],
        )
    }

    /// The substitution in which the candidates are demanded of the class of `var`, under this
    /// name.
    pub open spec fn with_constraint(
        self,
        var: u32,
        name: u64,
        candidates: Seq<Term<O>>,
    ) -> Subs<O> {
        let class = self.table.class(var as usize);
        Subs {
            table: self.table.with_class(
                var as usize,
                ClassData {
                    rank: class.rank,
                    level: class.level,
                    constraints: class.constraints.insert(name, self.lists.len() as usize),
                },
            ),
            lists: self.lists.push(candidates),
            ..self
        }
    }

    /// The substitution in which nothing is demanded of the class of `var` under this name.
    pub open spec fn without_constraint(self, var: u32, name: u64) -> Subs<O> {
        let class = self.table.class(var as usize);
        Subs {
            table: self.table.with_class(
                var as usize,
                ClassData {
                    rank: class.rank,
                    level: class.level,
                    constraints: class.constraints.remove(name),
                },
            ),
            ..self
        }
    }

    /// `self` is `before` with more variables and more candidate lists: nothing else changed.
    pub open spec fn extends(self, before: Subs<O>) -> bool {
        &&& self.wf()
        &&& self.types == before.types
        &&& before.size() <= self.size()
        &&& before.vars.len() <= self.vars.len()
        &&& before.lists.len() <= self.lists.len()
        &&& self.size() - self.vars.len() == before.size() - before.vars.len()
        &&& forall|i: int| 0 <= i < before.size() ==> #[trigger] self.table.roots[i] == before.table.roots[i]
        &&& forall|i: int|
            before.size() <= i < self.size() ==> #[trigger] self.table.roots[i] == i as usize
        &&& forall|k: usize| #[trigger]
            before.table.classes.contains_key(k) ==> self.table.classes[k] == before.table.classes[k]
        &&& forall|i: int| 0 <= i < before.lists.len() ==> #[trigger] self.lists[i] == before.lists[i]
    }

    /// `self` is `before` with other levels: nothing else changed.
    pub open spec fn relevelled(self, before: Subs<O>) -> bool {
        &&& self.wf()
        &&& self.types == before.types
        &&& self.vars == before.vars
        &&& self.lists == before.lists
        &&& self.table.roots == before.table.roots
        &&& self.table.classes.dom() == before.table.classes.dom()
        &&& forall|k: usize| #[trigger]
            before.table.classes.contains_key(k) ==> self.table.classes[k].constraints
                == before.table.classes[k].constraints && self.table.classes[k].rank
                == before.table.classes[k].rank
    }

    /// The walk over what `t` stands for that looks for the variable `id`: what the substitution
    /// is afterwards, and whether the variable was found. On its way the walk lowers the level of
    /// every other variable to that of `id`; it ends where it finds `id`.
    ///
    /// There is no outcome where the walk would go deeper than `fuel` or meets a variable that
    /// does not exist or cannot be asked for.
    pub open spec fn occurs_walk(self, id: u32, t: Term<O>, fuel: nat) -> Option<(Subs<O>, bool)>
        decreases fuel, 0nat,
    {
        if fuel == 0 || !self.askable(t) {
            None
        } else {
            match self.actual(t) {
                Term::Var(other) => if other == id {
                    Some((self, true))
                } else if other < self.size() && id < self.size() && self.resolvable(id) {
                    Some((self.level_updated(id, other), false))
                } else {
                    None
                },
                Term::Node(_, kids) => self.occurs_list(id, kids, (fuel - 1) as nat),
            }
        }
    }

    /// The walk over several terms, one after the other.
    pub open spec fn occurs_list(self, id: u32, kids: Seq<Term<O>>, fuel: nat) -> Option<
        (Subs<O>, bool),
    >
        decreases fuel, 1 + kids.len(),
    {
        if kids.len() == 0 {
            Some((self, false))
        } else {
            match self.occurs_walk(id, kids[0], fuel) {
                Some((after, false)) => after.occurs_list(id, kids.drop_first(), fuel),
                outcome => outcome,
            }
        }
    }

    /// The walk over what `t` stands for comes to an end.
    pub open spec fn walk_ends(self, id: u32, t: Term<O>) -> bool {
        exists|fuel: nat| (#[trigger] self.occurs_walk(id, t, fuel)) is Some
    }

    /// The outcome of the walk, where it comes to an end.
    pub open spec fn occurs(self, id: u32, t: Term<O>) -> (Subs<O>, bool) {
        let fuel = choose|fuel: nat| (#[trigger] self.occurs_walk(id, t, fuel)) is Some;
        self.occurs_walk(id, t, fuel).unwrap()
    }
}

/// A change of level keeps the substitution well-formed.
pub proof fn lemma_with_level<O>(s: Subs<O>, var: u32, level: u32)
    requires
        s.wf(),
        var < s.size(),
    ensures
        s.with_level(var, level).relevelled(s),
{
    let class = s.table.class(var as usize);
    union_table::lemma_with_class_wf(
        s.table,
        var as usize,
        ClassData { rank: class.rank, level, constraints: class.constraints },
    );
    assert(s.table.classes.contains_key(s.table.roots[var as int]));
    assert(s.with_level(var, level).table.classes.dom() =~= s.table.classes.dom());
}

/// A change of what is demanded of a class keeps the substitution well-formed, and what is
/// demanded of other classes.
pub proof fn lemma_with_constraints<O>(
    s: Subs<O>,
    var: u32,
    constraints: Map<u64, usize>,
    more: Seq<Seq<Term<O>>>,
    after: Subs<O>,
)
    requires
        s.wf(),
        var < s.size(),
        after == (Subs {
            table: s.table.with_class(
                var as usize,
                ClassData {
                    rank: s.table.class(var as usize).rank,
                    level: s.table.class(var as usize).level,
                    constraints,
                },
            ),
            lists: s.lists + more,
            ..s
        }),
        forall|name: u64| #[trigger]
            constraints.contains_key(name) ==> constraints[name] < after.lists.len(),
    ensures
        after.wf(),
        forall|v: u32|
            v < s.size() && s.root(v) != s.root(var) ==> #[trigger] after.constraints_of(v)
                == s.constraints_of(v),
        forall|v: u32| #[trigger] after.find(v) == s.find(v),
{
    let class = s.table.class(var as usize);
    union_table::lemma_with_class_wf(
        s.table,
        var as usize,
        ClassData { rank: class.rank, level: class.level, constraints },
    );
    assert(s.table.roots[var as int] < s.size());
    assert(s.table.classes.contains_key(s.table.roots[var as int]));
    assert forall|k: usize, name: u64|
        after.table.classes.contains_key(k) && #[trigger] after.table.classes[k].constraints.contains_key(name)
        implies after.table.classes[k].constraints[name] < after.lists.len() by {
        if k != s.table.roots[var as int] {
            assert(s.table.classes.contains_key(k));
            assert(s.table.classes[k].constraints.contains_key(name));
        }
    }
    assert forall|v: u32| v < s.size() && s.root(v) != s.root(var) implies #[trigger] after.constraints_of(
        v,
    ) == s.constraints_of(v) by {
        assert(s.table.roots[v as int] < s.size());
        assert(s.table.classes.contains_key(s.table.roots[v as int]));
        assert forall|name: u64|
            s.table.class(v as usize).constraints.contains_key(name) implies #[trigger]
            after.constraints_of(v)[name] == s.constraints_of(v)[name] by {}
        assert(after.constraints_of(v) =~= s.constraints_of(v));
    }
}

/// Levels do not decide what variables stand for.
pub proof fn lemma_relevelled_find<O>(before: Subs<O>, after: Subs<O>, var: u32)
    requires
        after.relevelled(before),
    ensures
        after.find(var) == before.find(var),
        after.resolvable(var) == before.resolvable(var),
        after.size() == before.size(),
{
}

/// Levels can be changed in steps.
pub proof fn lemma_relevelled_trans<O>(a: Subs<O>, b: Subs<O>, c: Subs<O>)
    requires
        b.relevelled(a),
        c.relevelled(b),
    ensures
        c.relevelled(a),
{
}

/// The variable whose number bounds a level exists.
pub proof fn lemma_level_var<O>(s: Subs<O>, var: u32)
    requires
        s.wf(),
        var < s.size(),
        s.resolvable(var),
    ensures
        s.level_var(var) < s.size(),
{
    assert(s.table.roots[var as int] < s.size());
}

/// A variable that another one stands for stands for itself.
pub proof fn lemma_actual_var<O>(s: Subs<O>, t: Term<O>)
    requires
        s.wf(),
        s.askable(t),
        s.actual(t) is Var,
    ensures
        s.resolvable(s.actual(t)->Var_0),
        s.find(s.actual(t)->Var_0) is None,
{
    let var = t->Var_0;
    if var < s.size() {
        assert(s.table.roots[var as int] < s.size());
        assert(s.table.roots[s.root(var) as int] == s.root(var));
    }
}

/// Lowering a level changes levels only.
pub proof fn lemma_level_updated<O>(s: Subs<O>, var: u32, other: u32)
    requires
        s.wf(),
        var < s.size(),
        other < s.size(),
        s.resolvable(var),
        s.resolvable(other),
    ensures
        s.level_updated(var, other).relevelled(s),
{
    lemma_level_var(s, var);
    lemma_with_level(s, s.level_var(var), s.level(var));
    let s1 = s.level_asked(var);
    lemma_relevelled_find(s, s1, other);
    lemma_level_var(s1, other);
    lemma_with_level(s1, s1.level_var(other), s1.level(other));
    let s2 = s1.level_asked(other);
    lemma_with_level(s2, other, min_level(s.level(var), s1.level(other)));
    lemma_relevelled_trans(s, s1, s2);
    lemma_relevelled_trans(s, s2, s.level_updated(var, other));
}

/// The walk that looks for a variable changes levels only.
pub proof fn lemma_walk_relevels<O>(s: Subs<O>, id: u32, t: Term<O>, fuel: nat)
    requires
        s.wf(),
        s.occurs_walk(id, t, fuel) is Some,
    ensures
        s.occurs_walk(id, t, fuel).unwrap().0.relevelled(s),
    decreases fuel, 0nat,
{
    match s.actual(t) {
        Term::Var(other) => {
            lemma_actual_var(s, t);
            if other != id {
                lemma_level_updated(s, id, other);
            }
        },
        Term::Node(_, kids) => {
            lemma_list_relevels(s, id, kids, (fuel - 1) as nat);
        },
    }
}

proof fn lemma_list_relevels<O>(s: Subs<O>, id: u32, kids: Seq<Term<O>>, fuel: nat)
    requires
        s.wf(),
        s.occurs_list(id, kids, fuel) is Some,
    ensures
        s.occurs_list(id, kids, fuel).unwrap().0.relevelled(s),
    decreases fuel, 1 + kids.len(),
{
    if kids.len() > 0 {
        lemma_walk_relevels(s, id, kids[0], fuel);
        let (after, found) = s.occurs_walk(id, kids[0], fuel).unwrap();
        if !found {
            lemma_list_relevels(after, id, kids.drop_first(), fuel);
            lemma_relevelled_trans(s, after, s.occurs_list(id, kids, fuel).unwrap().0);
        }
    }
}

/// A walk that comes to an end has the same outcome however deep it might have gone.
pub proof fn lemma_walk_fuel<O>(s: Subs<O>, id: u32, t: Term<O>, fuel: nat, more: nat)
    requires
        s.occurs_walk(id, t, fuel) is Some,
        fuel <= more,
    ensures
        s.occurs_walk(id, t, more) == s.occurs_walk(id, t, fuel),
    decreases fuel, 0nat,
{
    match s.actual(t) {
        Term::Var(other) => {},
        Term::Node(_, kids) => {
            lemma_list_fuel(s, id, kids, (fuel - 1) as nat, (more - 1) as nat);
        },
    }
}

pub proof fn lemma_list_fuel<O>(s: Subs<O>, id: u32, kids: Seq<Term<O>>, fuel: nat, more: nat)
    requires
        s.occurs_list(id, kids, fuel) is Some,
        fuel <= more,
    ensures
        s.occurs_list(id, kids, more) == s.occurs_list(id, kids, fuel),
    decreases fuel, 1 + kids.len(),
{
    if kids.len() > 0 {
        lemma_walk_fuel(s, id, kids[0], fuel, more);
        let (after, found) = s.occurs_walk(id, kids[0], fuel).unwrap();
        if !found {
            lemma_list_fuel(after, id, kids.drop_first(), fuel, more);
        }
    }
}

/// Any depth at which the walk comes to an end gives its outcome.
pub proof fn lemma_occurs_fuel<O>(s: Subs<O>, id: u32, t: Term<O>, fuel: nat)
    requires
        s.occurs_walk(id, t, fuel) is Some,
    ensures
        s.walk_ends(id, t),
        s.occurs_walk(id, t, fuel) == Some(s.occurs(id, t)),
{
    let chosen = choose|fuel: nat| (#[trigger] s.occurs_walk(id, t, fuel)) is Some;
    if fuel <= chosen {
        lemma_walk_fuel(s, id, t, fuel, chosen);
    } else {
        lemma_walk_fuel(s, id, t, chosen, fuel);
    }
}

/// Variables can be created in steps.
pub proof fn lemma_extends_trans<O>(a: Subs<O>, b: Subs<O>, c: Subs<O>)
    requires
        a.wf(),
        b.extends(a),
        c.extends(b),
    ensures
        c.extends(a),
{
    assert forall|i: int| 0 <= i < a.size() implies #[trigger] c.table.roots[i] == a.table.roots[i] by {
        assert(b.table.roots[i] == a.table.roots[i]);
    }
    assert forall|i: int| a.size() <= i < c.size() implies #[trigger] c.table.roots[i] == i as usize by {
        if i < b.size() {
            assert(b.table.roots[i] == i as usize);
        }
    }
    assert forall|k: usize| #[trigger] a.table.classes.contains_key(k) implies c.table.classes[k]
        == a.table.classes[k] by {
        assert(b.table.roots[k as int] == a.table.roots[k as int]);
        assert(b.table.classes.contains_key(k));
    }
    assert forall|i: int| 0 <= i < a.lists.len() implies #[trigger] c.lists[i] == a.lists[i] by {
        assert(b.lists[i] == a.lists[i]);
    }
}

/// Joining two classes keeps the substitution well-formed.
pub proof fn lemma_united_wf<O>(s: Subs<O>, a: u32, b: u32)
    requires
        s.wf(),
        a < s.size(),
        b < s.size(),
    ensures
        s.united(a, b).wf(),
        s.united(a, b).size() == s.size(),
{
    union_table::lemma_united_wf(s.table, a as usize, b as usize);
    let after = s.united(a, b);
    let k0 = s.table.roots[a as int];
    let k1 = s.table.roots[b as int];
    assert(s.table.classes.contains_key(k0));
    assert(s.table.classes.contains_key(k1));
    assert forall|k: usize, name: u64|
        after.table.classes.contains_key(k) && #[trigger] after.table.classes[k].constraints.contains_key(name)
        implies after.table.classes[k].constraints[name] < after.lists.len() by {
        assert(s.table.classes.contains_key(k));
        if s.table.classes[k0].constraints.contains_key(name) {
        }
        if s.table.classes[k1].constraints.contains_key(name) {
        }
        if s.table.classes[k].constraints.contains_key(name) {
        }
    }
}

/// A new variable is all that is new.
pub proof fn lemma_with_var_extends<O>(s: Subs<O>, constraint: Option<(u64, Seq<Term<O>>)>)
    requires
        s.wf(),
        s.vars.len() == s.size() < union_table::max_keys(),
    ensures
        s.with_var(constraint).extends(s),
        s.with_var(constraint).vars.len() == s.vars.len() + 1,
        s.with_var(constraint).size() == s.size() + 1,
{
    let after = s.with_var(constraint);
    union_table::lemma_inserted_wf(s.table, after.table.classes[s.size() as usize]);
    assert(after.table.classes[s.size() as usize].rank == 0);
    assert forall|k: usize, name: u64|
        after.table.classes.contains_key(k) && #[trigger] after.table.classes[k].constraints.contains_key(name)
        implies after.table.classes[k].constraints[name] < after.lists.len() by {
        if k != s.size() as usize {
            assert(s.table.classes.contains_key(k));
            assert(s.table.classes[k].constraints.contains_key(name));
        }
    }
}

} // verus!
