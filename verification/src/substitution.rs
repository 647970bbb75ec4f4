//! Substitutions: what is known of the variables of a type inference.
use vstd::prelude::*;
use crate::fnv_map;
use crate::fnv_map::{fnv_entries, fnv_insert, fnv_remove};
use crate::subs;
use crate::subs::Subs;
use crate::symbol::Symbol;
use crate::term::Term;
use crate::text::Show;
use crate::union_table;
use crate::union_table::{
    uf_find, uf_get, uf_get_mut, uf_insert, uf_new, uf_size, uf_union, ClassData, UnionByLevel,
};
use fnv::FnvHashMap;
use std::collections::HashMap;
use std::sync::Arc;
use union_find::QuickFindUf;
use vstd::string::StringExecFns;

verus! {

/// Why two types cannot be made the same.
#[derive(Debug, PartialEq)]
pub enum Error<T> {
    /// A variable occurs in the type that it would have to stand for.
    Occurs(T, T),
    /// None of the candidates that a constraint allows fits the type.
    Constraint(T, Constraints<T>),
}

/// Each of the types on a line of its own.
pub open spec fn lines_of<T: Show>(types: Seq<T>) -> Seq<char>
    decreases types.len(),
{
    if types.len() == 0 {
        Seq::empty()
    } else {
        lines_of(types.drop_last()) + types.last().text() + "\n"@
    }
}

impl<T: Show> Error<T> {
    /// The error as it is shown to a user.
    pub open spec fn explained(&self) -> Seq<char> {
        match self {
            Error::Occurs(var, typ) => "Variable `"@ + var.text() + "` occurs in `"@ + typ.text()
                + "`."@,
            Error::Constraint(typ, constraints) => "Type `"@ + typ.text()
                + "` could not fullfill a constraint.\nPossible resolves:\n"@ + lines_of(
                constraints@,
            ),
        }
    }

    /// Says what went wrong.
    pub fn message(&self) -> (message: String)
        ensures
            message@ == self.explained(),
    {
        let mut message = String::new();
        match self {
            Error::Occurs(var, typ) => {
                message.append("Variable `");
                message.append(var.show().as_str());
                message.append("` occurs in `");
                message.append(typ.show().as_str());
                message.append("`.");
                assert(message@ =~= self.explained());
            },
            Error::Constraint(typ, constraints) => {
                message.append("Type `");
                message.append(typ.show().as_str());
                message.append("` could not fullfill a constraint.\nPossible resolves:\n");
                let ghost header = "Type `"@ + typ.text()
                    + "` could not fullfill a constraint.\nPossible resolves:\n"@;
                assert(message@ =~= header);
                let mut i: usize = 0;
                assert(message@ =~= header + lines_of(constraints@.take(0)));
                while i < constraints.len()
                    invariant
                        i <= constraints@.len(),
                        message@ == header + lines_of(constraints@.take(i as int)),
                    decreases constraints@.len() - i,
                {
                    let ghost before = constraints@.take(i as int);
                    message.append(constraints[i].show().as_str());
                    message.append("\n");
                    i = i + 1;
                    assert(constraints@.take(i as int).drop_last() =~= before);
                    assert(message@ =~= header + lines_of(constraints@.take(i as int)));
                }
                assert(constraints@.take(i as int) =~= constraints@);
            },
        }
        message
    }
}

/// The types that a constrained variable may stand for.
pub type Constraints<T> = Arc<Vec<T>>;

/// Trait which variables need to implement to allow the substitution to get to the u32 identifying
/// the variable
pub trait Variable: Sized {
    /// The number of the variable.
    spec fn id(&self) -> u32;

    fn get_id(&self) -> (id: u32)
        ensures
            id == self.id(),
    ;

    /// The same variable once more.
    fn duplicate(&self) -> (var: Self)
        ensures
            var.id() == self.id(),
    ;
}

impl Variable for u32 {
    open spec fn id(&self) -> u32 {
        *self
    }

    fn get_id(&self) -> (id: u32) {
        *self
    }

    fn duplicate(&self) -> (var: u32) {
        *self
    }
}

/// Trait which makes variables from their numbers.
pub trait VariableFactory {
    type Variable: Variable;

    fn new(&self, x: u32) -> (var: Self::Variable)
        ensures
            var.id() == x,
    ;
}

impl VariableFactory for () {
    type Variable = u32;

    fn new(&self, x: u32) -> (var: u32) {
        x
    }
}

/// Trait implemented on types which may contain substitutable variables
pub trait Substitutable: Sized {
    /// The operators of the terms that model the types.
    type Op;

    type Variable: Variable;

    type Factory: VariableFactory<Variable = Self::Variable>;

    /// The type as a term.
    spec fn term(&self) -> Term<Self::Op>;

    /// Constructs a new object from its variable type
    fn from_variable(x: Self::Variable) -> (typ: Self)
        ensures
            typ.term() == Term::<Self::Op>::Var(x.id()),
    ;

    /// Retrieves the variable if `self` is a variable otherwise returns `None`
    fn get_var(&self) -> (var: Option<&Self::Variable>)
        ensures
            match var {
                Some(v) => self.term() == Term::<Self::Op>::Var(v.id()),
                None => self.term() is Node,
            },
    ;

    /// The types that `self` is directly made of, from left to right.
    fn traverse(&self) -> (kids: Vec<Self>)
        ensures
            match self.term() {
                Term::Var(_) => kids@.len() == 0,
                Term::Node(_, terms) => {
                    &&& kids@.len() == terms.len()
                    &&& forall|i: int| 0 <= i < terms.len() ==> (#[trigger] kids@[i]).term() == terms[i]
                },
            },
    ;

    /// The same type once more.
    fn duplicate(&self) -> (typ: Self)
        ensures
            typ.term() == self.term(),
    ;

    /// Whether the two types are the same.
    fn same(&self, other: &Self) -> (same: bool)
        ensures
            same == (self.term() == other.term()),
    ;
}

/// Several types as terms.
pub open spec fn terms_of<T: Substitutable>(types: Seq<T>) -> Seq<Term<T::Op>> {
    Seq::new(types.len(), |i: int| types[i].term())
}

/// Several lists of types as terms.
pub open spec fn lists_of<T: Substitutable>(lists: Seq<Constraints<T>>) -> Seq<Seq<Term<T::Op>>> {
    Seq::new(lists.len(), |i: int| terms_of(lists[i]@))
}

/// A constraint as the id of its name and its candidates as terms.
pub open spec fn constraint_of<T: Substitutable>(
    constraint: Option<(Symbol, Constraints<T>)>,
) -> Option<(u64, Seq<Term<T::Op>>)> {
    match constraint {
        Some((name, candidates)) => Some((name.id, terms_of(candidates@))),
        None => None,
    }
}

/// A substitution: the variables that were created and what is known of them.
pub struct Substitution<T: Substitutable> {
    /// Union-find data structure used to store the relationships of all variables in the
    /// substitution
    union: QuickFindUf<UnionByLevel>,
    /// The candidate types that the constraints in `union` refer to.
    constraints: Vec<Constraints<T>>,
    /// Vector containing all created variables for this substitution.
    variables: Vec<T>,
    /// For variables which have been infered to have a real type (not a variable) their types are
    /// stored here.
    types: HashMap<u32, T>,
    factory: T::Factory,
}

/// The factory is no part of it: of the variables that it makes only the numbers count.
impl<T: Substitutable> View for Substitution<T> {
    type V = Subs<T::Op>;

    closed spec fn view(&self) -> Subs<T::Op> {
        Subs {
            table: union_table::table_of(self.union),
            vars: terms_of(self.variables@),
            types: self.types@.map_values(|t: T| t.term()),
            lists: lists_of(self.constraints@),
        }
    }
}

impl<T: Substitutable> Default for Substitution<T> where T::Factory: Default {
    fn default() -> (subs: Substitution<T>)
        ensures
            subs.wf(),
            subs@ == Subs::<T::Op>::empty(),
    {
        Substitution::new(Default::default())
    }
}

impl<T: Substitutable> Substitution<T> {
    /// What every operation of a substitution keeps.
    pub open spec fn wf(&self) -> bool {
        self@.wf()
    }

    pub fn new(factory: T::Factory) -> (subs: Substitution<T>)
        ensures
            subs.wf(),
            subs@ == Subs::<T::Op>::empty(),
    {
        let subs = Substitution {
            union: uf_new(),
            constraints: Vec::new(),
            variables: Vec::new(),
            types: HashMap::new(),
            factory,
        };
        proof {
            union_table::lemma_empty_wf();
            assert(subs@ =~= Subs::<T::Op>::empty());
        }
        subs
    }

    /// The number of the variable that will be created next.
    pub fn var_id(&self) -> (id: u32)
        requires
            self@.vars.len() <= u32::MAX,
        ensures
            id == self@.vars.len(),
    {
        self.variables.len() as u32
    }

    /// Forgets the types and the variables; which variables stand for the same type stays known.
    pub fn clear(&mut self)
        requires
            old(self).wf(),
        ensures
            final(self).wf(),
            final(self)@ == (Subs {
                vars: Seq::empty(),
                types: Map::empty(),
                ..old(self)@
            }),
    {
        self.types.clear();
        self.variables.clear();
        assert(self@ =~= (Subs { vars: Seq::empty(), types: Map::empty(), ..old(self)@ }));
    }

    /// Says that `var`, which has no type yet, has the type `t`, which is not a variable.
    pub fn insert(&mut self, var: u32, t: T)
        requires
            old(self).wf(),
            t.term() is Node,
            !old(self)@.types.contains_key(var),
        ensures
            final(self).wf(),
            final(self)@ == old(self)@.with_type(var, t.term()),
    {
        self.types.insert(var, t);
        assert(self@ =~= old(self)@.with_type(var, t.term()));
    }

    /// Creates a new variable
    pub fn new_var(&mut self) -> (var: T)
        requires
            old(self).wf(),
            old(self)@.vars.len() == old(self)@.size() < union_table::max_keys(),
        ensures
            final(self).wf(),
            var.term() == Term::<T::Op>::Var(old(self)@.vars.len() as u32),
            final(self)@ == old(self)@.with_var(None),
            final(self)@.constraints_of(old(self)@.vars.len() as u32).is_empty(),
    {
        self.new_constrained_var(None)
    }

    /// Creates a new variable that may only stand for one of the candidates.
    pub fn new_constrained_var(&mut self, constraint: Option<(Symbol, Constraints<T>)>) -> (var: T)
        requires
            old(self).wf(),
            old(self)@.vars.len() == old(self)@.size() < union_table::max_keys(),
        ensures
            final(self).wf(),
            var.term() == Term::<T::Op>::Var(old(self)@.vars.len() as u32),
            final(self)@ == old(self)@.with_var(constraint_of(constraint)),
            final(self)@.constraints_of(old(self)@.vars.len() as u32) == (match constraint_of(
                constraint,
            ) {
                Some((name, candidates)) => Map::<u64, Seq<Term<T::Op>>>::empty().insert(
                    name,
                    candidates,
                ),
                None => Map::<u64, Seq<Term<T::Op>>>::empty(),
            }),
    {
        let ghost demanded = constraint_of(constraint);
        let position: usize = self.constraints.len();
        let var_id = self.variables.len() as u32;
        let mut constraints: FnvHashMap<u64, usize> = FnvHashMap::default();
        if let Some((name, candidates)) = constraint {
            fnv_insert(&mut constraints, name.id, position);
            self.constraints.push(candidates);
        }
        uf_insert(&mut self.union, UnionByLevel::with_constraints(constraints));
        let var = T::from_variable(self.factory.new(var_id));
        self.variables.push(var.duplicate());
        proof {
            let expected = old(self)@.with_var(demanded);
            union_table::lemma_inserted_wf(
                old(self)@.table,
                ClassData { rank: 0, level: u32::MAX, constraints: constraints@ },
            );
            assert(self@.vars =~= expected.vars);
            assert(self@.lists =~= expected.lists);
            assert(self@.table =~= expected.table);
            assert(self@ =~= expected);
            assert(position == old(self)@.lists.len());
            let found = self@.constraints_of(old(self)@.vars.len() as u32);
            match demanded {
                Some((name, candidates)) => {
                    assert(found =~= Map::<u64, Seq<Term<T::Op>>>::empty().insert(name, candidates));
                },
                None => {
                    assert(found =~= Map::<u64, Seq<Term<T::Op>>>::empty());
                },
            }
        }
        var
    }

    /// If `typ` is a variable this returns the real unified value of that variable. Otherwise it
    /// just returns the type itself. Note that the returned type may contain terms which also need
    /// to have `real_type` called on them.
    pub fn real_type<'r>(&'r mut self, typ: &'r T) -> (found: &'r T)
        requires
            old(self).wf(),
            old(self)@.askable(typ.term()),
        ensures
            final(self)@ == old(self)@,
            found.term() == old(self)@.actual(typ.term()),
    {
        match typ.get_var() {
            Some(var) => match self.find_type_for_var(var.get_id()) {
                Some(t) => t,
                None => typ,
            },
            None => typ,
        }
    }

    /// What is known of the variable: its type, or another variable that stands for it.
    pub fn find_type_for_var(&mut self, var: u32) -> (found: Option<&T>)
        requires
            old(self).wf(),
            old(self)@.resolvable(var),
        ensures
            final(self)@ == old(self)@,
            match found {
                Some(t) => old(self)@.find(var) == Some(t.term()),
                None => old(self)@.find(var) is None,
            },
    {
        if var as usize >= uf_size(&self.union) {
            return None;
        }
        let index = uf_find(&mut self.union, var as usize) as u32;
        assert(self@ =~= old(self)@);
        match self.types.get(&index) {
            Some(t) => Some(t),
            None => if var == index {
                None
            } else {
                assert(self@.vars[index as int] == self.variables@[index as int].term());
                Some(&self.variables[index as usize])
            },
        }
    }

    /// Updates the level of `other` to be the minimum level value of `var` and `other`
    pub fn update_level(&mut self, var: u32, other: u32)
        requires
            old(self).wf(),
            var < old(self)@.size(),
            other < old(self)@.size(),
            old(self)@.resolvable(var),
            old(self)@.resolvable(other),
        ensures
            final(self)@ == old(self)@.level_updated(var, other),
            final(self)@.relevelled(old(self)@),
    {
        let level_var = self.get_level(var);
        proof {
            subs::lemma_relevelled_find(old(self)@, self@, other);
        }
        let ghost s1 = self@;
        let level_other = self.get_level(other);
        let level = if level_var <= level_other {
            level_var
        } else {
            level_other
        };
        let ghost s2 = self@;
        let class = uf_get_mut(&mut self.union, other as usize);
        class.level = level;
        proof {
            assert(self@ =~= s2.with_level(other, level));
            subs::lemma_with_level(s2, other, level);
            subs::lemma_relevelled_trans(old(self)@, s1, s2);
            subs::lemma_relevelled_trans(old(self)@, s2, self@);
        }
    }

    /// The level of the variable: the lowest of those of the variables that stand for the same
    /// type.
    pub fn get_level(&mut self, var: u32) -> (level: u32)
        requires
            old(self).wf(),
            var < old(self)@.size(),
            old(self)@.resolvable(var),
        ensures
            level == old(self)@.level(var),
            final(self)@ == old(self)@.level_asked(var),
            final(self)@.relevelled(old(self)@),
    {
        let mut asked = var;
        if let Some(found) = self.find_type_for_var(var) {
            if let Some(v) = found.get_var() {
                asked = v.get_id();
            }
        }
        proof {
            subs::lemma_level_var(old(self)@, var);
        }
        let class = uf_get_mut(&mut self.union, asked as usize);
        if asked < class.level {
            class.level = asked;
        }
        let level = class.level;
        proof {
            assert(level == old(self)@.level(var));
            assert(self@ =~= old(self)@.with_level(asked, level));
            subs::lemma_with_level(old(self)@, asked, level);
        }
        level
    }

    /// The candidates that are demanded of the variable, by the ids of their names; `None` where
    /// nothing is. [`Substitution::insert_constraint`] and [`Substitution::remove_constraint`]
    /// change them.
    pub fn get_constraints(&mut self, var: u32) -> (constraints: Option<
        FnvHashMap<u64, Constraints<T>>,
    >)
        requires
            old(self).wf(),
            var < old(self)@.size(),
        ensures
            final(self)@ == old(self)@,
            match constraints {
                Some(map) => {
                    &&& !old(self)@.constraints_of(var).is_empty()
                    &&& map@.dom() == old(self)@.constraints_of(var).dom()
                    &&& forall|name: u64| #[trigger]
                        map@.contains_key(name) ==> terms_of(map@[name]@)
                            == old(self)@.constraints_of(var)[name]
                },
                None => old(self)@.constraints_of(var).is_empty(),
            },
    {
        let positions = uf_get(&mut self.union, var as usize).constraints.clone();
        assert(self@ =~= old(self)@);
        if positions.is_empty() {
            return None;
        }
        let entries = fnv_entries(&positions);
        let mut map: FnvHashMap<u64, Constraints<T>> = FnvHashMap::default();
        let mut i: usize = 0;
        while i < entries.len()
            invariant
                self.wf(),
                self@ == old(self)@,
                var < self@.size(),
                positions@ == self@.table.class(var as usize).constraints,
                fnv_map::enumerates(entries@, positions@),
                i <= entries.len(),
                forall|name: u64|
                    map@.contains_key(name) <==> exists|j: int|
                        0 <= j < i && (#[trigger] entries@[j]).0 == name,
                forall|name: u64| #[trigger]
                    map@.contains_key(name) ==> terms_of(map@[name]@) == self@.constraints_of(
                        var,
                    )[name],
            decreases entries.len() - i,
        {
            let (name, position) = entries[i];
            assert(self@.table.classes.contains_key(self@.table.roots[var as int]));
            assert(self@.table.class(var as usize).constraints.contains_key(name));
            assert(self@.lists[position as int] == terms_of(self.constraints@[position as int]@));
            fnv_insert(&mut map, name, share(&self.constraints[position]));
            i = i + 1;
        }
        assert(map@.dom() =~= self@.constraints_of(var).dom()) by {
            assert forall|name: u64| positions@.contains_key(name) implies map@.contains_key(name) by {
                assert(entries@.contains((name, positions@[name])));
                let j = entries@.index_of((name, positions@[name]));
                assert(entries@[j].0 == name);
            }
        }
        Some(map)
    }

    /// Demands the candidates of the variable, under the name with this id and in place of those
    /// that were demanded under it.
    pub fn insert_constraint(&mut self, var: u32, name: u64, candidates: Constraints<T>)
        requires
            old(self).wf(),
            var < old(self)@.size(),
        ensures
            final(self).wf(),
            final(self)@ == old(self)@.with_constraint(var, name, terms_of(candidates@)),
            final(self)@.constraints_of(var) == old(self)@.constraints_of(var).insert(
                name,
                terms_of(candidates@),
            ),
            forall|v: u32|
                v < old(self)@.size() && old(self)@.root(v) != old(self)@.root(var)
                    ==> #[trigger] final(self)@.constraints_of(v) == old(self)@.constraints_of(v),
            forall|v: u32| #[trigger] final(self)@.find(v) == old(self)@.find(v),
    {
        let ghost before = self@;
        let ghost terms = terms_of(candidates@);
        let position: usize = self.constraints.len();
        self.constraints.push(candidates);
        let class = uf_get_mut(&mut self.union, var as usize);
        fnv_insert(&mut class.constraints, name, position);
        proof {
            let after = before.with_constraint(var, name, terms);
            assert(self@.lists =~= before.lists.push(terms));
            assert(self@ =~= after);
            assert(before.lists + seq![terms] =~= before.lists.push(terms));
            let constraints = before.table.class(var as usize).constraints;
            assert(before.table.roots[var as int] < before.size());
            assert(before.table.classes.contains_key(before.table.roots[var as int]));
            assert forall|other: u64| #[trigger]
                constraints.insert(name, position).contains_key(other) implies constraints.insert(
                name,
                position,
            )[other] < after.lists.len() by {
                if other != name {
                    assert(constraints.contains_key(other));
                }
            }
            subs::lemma_with_constraints(
                before,
                var,
                constraints.insert(name, position),
                seq![terms],
                after,
            );
            assert forall|other: u64| constraints.contains_key(other) implies constraints[other]
                < before.lists.len() by {}
            assert(after.constraints_of(var) =~= before.constraints_of(var).insert(name, terms));
        }
    }

    /// Demands nothing of the variable any more under the name with this id.
    pub fn remove_constraint(&mut self, var: u32, name: u64)
        requires
            old(self).wf(),
            var < old(self)@.size(),
        ensures
            final(self).wf(),
            final(self)@ == old(self)@.without_constraint(var, name),
            final(self)@.constraints_of(var) == old(self)@.constraints_of(var).remove(name),
            forall|v: u32|
                v < old(self)@.size() && old(self)@.root(v) != old(self)@.root(var)
                    ==> #[trigger] final(self)@.constraints_of(v) == old(self)@.constraints_of(v),
            forall|v: u32| #[trigger] final(self)@.find(v) == old(self)@.find(v),
    {
        let ghost before = self@;
        let class = uf_get_mut(&mut self.union, var as usize);
        fnv_remove(&mut class.constraints, name);
        proof {
            let after = before.without_constraint(var, name);
            assert(self@ =~= after);
            let none = Seq::<Seq<Term<T::Op>>>::empty();
            assert(before.lists + none =~= before.lists);
            let constraints = before.table.class(var as usize).constraints;
            assert(before.table.roots[var as int] < before.size());
            assert(before.table.classes.contains_key(before.table.roots[var as int]));
            subs::lemma_with_constraints(before, var, constraints.remove(name), none, after);
            assert(after.constraints_of(var) =~= before.constraints_of(var).remove(name));
        }
    }

    /// The constraints on the variable, each with the position of its candidates, in some order.
    pub(crate) fn constraint_entries(&mut self, var: u32) -> (entries: Vec<(u64, usize)>)
        requires
            old(self).wf(),
            var < old(self)@.size(),
        ensures
            final(self)@ == old(self)@,
            fnv_map::enumerates(
                entries@,
                old(self)@.table.class(var as usize).constraints,
            ),
    {
        let entries = fnv_entries(&uf_get(&mut self.union, var as usize).constraints);
        assert(self@ =~= old(self)@);
        entries
    }

    /// The candidates at a position.
    pub(crate) fn candidates(&self, position: usize) -> (candidates: Constraints<T>)
        requires
            position < self@.lists.len(),
        ensures
            terms_of(candidates@) == self@.lists[position as int],
    {
        share(&self.constraints[position])
    }

    /// Says that the two variables stand for the same type.
    pub(crate) fn unite(&mut self, a: u32, b: u32)
        requires
            old(self).wf(),
            a < old(self)@.size(),
            b < old(self)@.size(),
        ensures
            final(self).wf(),
            final(self)@ == old(self)@.united(a, b),
    {
        proof {
            union_table::lemma_rank_bound(self@.table, a as usize);
            union_table::lemma_rank_bound(self@.table, b as usize);
            subs::lemma_united_wf(self@, a, b);
        }
        uf_union(&mut self.union, a as usize, b as usize);
        assert(self@ =~= old(self)@.united(a, b));
    }

    /// What is known of `typ` where it is a variable; `None` where nothing is known, or it is not
    /// a variable.
    pub fn replace_variable(&mut self, typ: &T) -> (found: Option<T>)
        requires
            old(self).wf(),
            old(self)@.askable(typ.term()),
        ensures
            final(self)@ == old(self)@,
            match found {
                Some(t) => typ.term() is Var && old(self)@.find(typ.term()->Var_0) == Some(t.term()),
                None => typ.term() is Var ==> old(self)@.find(typ.term()->Var_0) is None,
            },
    {
        match typ.get_var() {
            Some(id) => match self.find_type_for_var(id.get_id()) {
                Some(t) => Some(t.duplicate()),
                None => None,
            },
            None => None,
        }
    }

    /// Replaces a variable by what it stands for.
    pub fn make_real(&mut self, typ: &mut T)
        requires
            old(self).wf(),
            old(self)@.askable(old(typ).term()),
        ensures
            final(self)@ == old(self)@,
            final(typ).term() == old(self)@.actual(old(typ).term()),
    {
        let found = self.real_type(typ).duplicate();
        *typ = found;
    }
}

/// `Arc::clone`: another pointer to the same value.
#[verifier::external_body]
pub(crate) fn share<T>(shared: &Arc<T>) -> (pointer: Arc<T>)
    ensures
        pointer == *shared,
{
    Arc::clone(shared)
}

/// Whether the variable occurs in what `typ` stands for. On the way the levels of the other
/// variables are lowered to that of `var`.
pub fn occurs<T: Substitutable>(typ: &T, subs: &mut Substitution<T>, var: &T::Variable) -> (found:
    bool)
    requires
        old(subs).wf(),
        old(subs)@.walk_ends(var.id(), typ.term()),
    ensures
        (final(subs)@, found) == old(subs)@.occurs(var.id(), typ.term()),
        final(subs)@.relevelled(old(subs)@),
{
    let ghost fuel = choose|fuel: nat|
        (#[trigger] subs@.occurs_walk(var.id(), typ.term(), fuel)) is Some;
    proof {
        subs::lemma_occurs_fuel(subs@, var.id(), typ.term(), fuel);
    }
    occurs_walk(typ, subs, var.get_id(), Ghost(fuel))
}

fn occurs_walk<T: Substitutable>(
    typ: &T,
    subs: &mut Substitution<T>,
    id: u32,
    Ghost(fuel): Ghost<nat>,
) -> (found: bool)
    requires
        old(subs).wf(),
        old(subs)@.occurs_walk(id, typ.term(), fuel) is Some,
    ensures
        Some((final(subs)@, found)) == old(subs)@.occurs_walk(id, typ.term(), fuel),
        final(subs)@.relevelled(old(subs)@),
    decreases fuel,
{
    proof {
        subs::lemma_walk_relevels(subs@, id, typ.term(), fuel);
    }
    let found = subs.real_type(typ).duplicate();
    match found.get_var() {
        Some(other) => {
            let other = other.get_id();
            if other == id {
                true
            } else {
                proof {
                    subs::lemma_actual_var(old(subs)@, typ.term());
                }
                subs.update_level(id, other);
                false
            }
        },
        None => {
            let kids = found.traverse();
            let ghost terms = terms_of(kids@);
            let ghost depth = (fuel - 1) as nat;
            assert(found.term()->Node_1 =~= terms);
            assert(terms.skip(0) =~= terms);
            let mut i: usize = 0;
            while i < kids.len()
                invariant
                    i <= kids.len(),
                    terms == terms_of(kids@),
                    depth < fuel,
                    subs.wf(),
                    subs@.relevelled(old(subs)@),
                    old(subs)@.occurs_list(id, terms, depth) is Some,
                    old(subs)@.occurs_walk(id, typ.term(), fuel) == old(subs)@.occurs_list(
                        id,
                        terms,
                        depth,
                    ),
                    subs@.occurs_list(id, terms.skip(i as int), depth) == old(subs)@.occurs_list(
                        id,
                        terms,
                        depth,
                    ),
                decreases kids.len() - i,
            {
                let ghost before = subs@;
                assert(terms.skip(i as int)[0] == kids@[i as int].term());
                let found = occurs_walk(&kids[i], subs, id, Ghost(depth));
                proof {
                    subs::lemma_relevelled_trans(old(subs)@, before, subs@);
                    assert(terms.skip(i as int).drop_first() =~= terms.skip(i + 1));
                }
                if found {
                    return true;
                }
                i = i + 1;
            }
            false
        },
    }
}

} // verus!
