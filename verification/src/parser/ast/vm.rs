//! The symbol table: what each declared identifier stands for.
use vstd::prelude::*;
use vstd::string::StringExecFns;
use koopa::ir::Value;

verus! {

/// What an identifier was declared as.
#[derive(Clone, Copy, Debug)]
pub enum Decl {
    /// A constant, with its value.  Each use is a new integer of the IR.
    Const(i32),
    /// A variable, with the handle of its slot in the IR.
    Var(Value),
}

/// The declarations in force: what each declared name stands for.
pub type Scope = Map<Seq<char>, Decl>;

/// The declarations in force without the slots of the variables: the value
/// of each constant, and nothing for a variable.
pub type Names = Map<Seq<char>, Option<i32>>;

/// What is left of a declaration when the slot is forgotten.
pub open spec fn kind(decl: Decl) -> Option<i32> {
    match decl {
        Decl::Const(c) => Some(c),
        Decl::Var(_) => None,
    }
}

/// The names of a scope.
pub open spec fn kinds(scope: Scope) -> Names {
    Map::new(|name: Seq<char>| scope.contains_key(name), |name: Seq<char>| kind(scope[name]))
}

/// Declaring a name in a scope declares it in the names of the scope.
pub proof fn lemma_kinds_insert(scope: Scope, name: Seq<char>, decl: Decl)
    ensures
        kinds(scope.insert(name, decl)) == kinds(scope).insert(name, kind(decl)),
{
    assert(kinds(scope.insert(name, decl)) =~= kinds(scope).insert(name, kind(decl)));
}

/// The map that a list of named entries stands for: a later entry of a
/// name hides an earlier one.
pub open spec fn table(s: Seq<(String, Decl)>) -> Map<Seq<char>, Decl>
    decreases s.len(),
{
    if s.len() == 0 {
        Map::empty()
    } else {
        table(s.drop_last()).insert(s.last().0@, s.last().1)
    }
}

/// The symbol table of one compilation.
pub struct ValueManager {
    vm: Vec<(String, Decl)>,
}

impl View for ValueManager {
    type V = Map<Seq<char>, Decl>;

    closed spec fn view(&self) -> Map<Seq<char>, Decl> {
        table(self.vm@)
    }
}

impl ValueManager {
    /// A table without entries.
    pub fn new() -> (t: Self)
        ensures
            t@ == Map::<Seq<char>, Decl>::empty(),
    {
        ValueManager { vm: Vec::new() }
    }

    /// The position of the entry that `name` stands for.
    fn find(&self, name: &str) -> (at: Option<usize>)
        ensures
            match at {
                Some(i) => i < self.vm@.len() && self@.contains_key(name@) && self@[name@]
                    == self.vm@[i as int].1,
                None => !self@.contains_key(name@),
            },
    {
        let key = String::from_str(name);
        let mut i: usize = self.vm.len();
        assert(self.vm@.take(i as int) =~= self.vm@);
        while i > 0
            invariant
                i <= self.vm@.len(),
                key@ == name@,
                self@.contains_key(name@) == table(self.vm@.take(i as int)).contains_key(name@),
                self@.contains_key(name@) ==> self@[name@] == table(self.vm@.take(i as int))[name@],
            decreases i,
        {
            proof {
                assert(self.vm@.take(i as int).drop_last() =~= self.vm@.take(i as int - 1));
            }
            i = i - 1;
            if self.vm[i].0 == key {
                return Some(i);
            }
        }
        None
    }

    /// Enters `decl` under `name`, in place of what was there.
    fn insert(&mut self, name: &str, decl: Decl)
        ensures
            final(self)@ == old(self)@.insert(name@, decl),
    {
        self.vm.push((String::from_str(name), decl));
        assert(self.vm@.drop_last() =~= old(self).vm@);
    }

    /// Whether `name` is declared.
    pub fn exist(&self, name: &str) -> (b: bool)
        ensures
            b == self@.contains_key(name@),
    {
        self.find(name).is_some()
    }

    /// Declares `name` as a constant of the given value.
    pub fn insert_const(&mut self, name: &str, value: i32)
        ensures
            final(self)@ == old(self)@.insert(name@, Decl::Const(value)),
    {
        self.insert(name, Decl::Const(value));
    }

    /// The value of `name`, if it is declared as a constant.
    pub fn get_const(&self, name: &str) -> (c: Option<i32>)
        ensures
            c == const_of(self@, name@),
    {
        match self.find(name) {
            Some(i) => match self.vm[i].1 {
                Decl::Const(value) => Some(value),
                Decl::Var(_) => None,
            },
            None => None,
        }
    }

    /// Declares `name` as a variable kept in the slot `value`.
    pub fn insert_var(&mut self, name: &str, value: Value)
        ensures
            final(self)@ == old(self)@.insert(name@, Decl::Var(value)),
    {
        self.insert(name, Decl::Var(value));
    }

    /// What `name` is declared as, if it is declared.
    pub fn get(&self, name: &str) -> (d: Option<&Decl>)
        ensures
            match d {
                Some(decl) => self@.contains_key(name@) && *decl == self@[name@],
                None => !self@.contains_key(name@),
            },
    {
        match self.find(name) {
            Some(i) => Some(&self.vm[i].1),
            None => None,
        }
    }
}

/// The value of the constant `name` in a table, if `name` is one.
pub open spec fn const_of(table: Map<Seq<char>, Decl>, name: Seq<char>) -> Option<i32> {
    if table.contains_key(name) {
        match table[name] {
            Decl::Const(c) => Some(c),
            Decl::Var(_) => None,
        }
    } else {
        None
    }
}

} // verus!
