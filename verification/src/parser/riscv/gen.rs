//! The register pool and the record of where each IR value lives.
use vstd::prelude::*;
use vstd::string::StringExecFns;
use koopa::ir::Value;
use crate::parser::error::CompileError;
use crate::parser::ir::program::same_value;
use crate::parser::riscv::inst::{Instr, Unary};
use crate::parser::riscv::text::decimal_string;

verus! {

/// A register of the pool, by its number.
pub type Reg = u8;

/// How many registers the pool has.
pub const POOL_SIZE: u8 = 16;

/// The hard-wired zero register.  It reads as zero and holds no value.
pub const ZERO_REG: Reg = 0;

/// The register a function's result is returned in.  It has the highest
/// number, so the scan for a free register reaches it last.
pub const RETURN_REG: Reg = 15;

/// Where an IR value is kept.
#[derive(Copy, Clone, Debug, PartialEq, Eq, Structural)]
pub enum ValueStore {
    /// The value is known at compile time.
    Const(i32),
    /// The value is in a register.
    Reg(Reg),
}

/// The symbolic name of each register of the pool: the zero register, the
/// temporaries `t0` to `t6`, then the argument registers with `a0` last.
pub open spec fn reg_name(r: Reg) -> Seq<char> {
    if r == 0 {
        "x0"@
    } else if r == 1 {
        "t0"@
    } else if r == 2 {
        "t1"@
    } else if r == 3 {
        "t2"@
    } else if r == 4 {
        "t3"@
    } else if r == 5 {
        "t4"@
    } else if r == 6 {
        "t5"@
    } else if r == 7 {
        "t6"@
    } else if r == 8 {
        "a7"@
    } else if r == 9 {
        "a1"@
    } else if r == 10 {
        "a2"@
    } else if r == 11 {
        "a3"@
    } else if r == 12 {
        "a4"@
    } else if r == 13 {
        "a5"@
    } else if r == 14 {
        "a6"@
    } else {
        "a0"@
    }
}

/// The symbolic name of register `r`.
pub fn name_of(r: Reg) -> (name: &'static str)
    requires
        r < POOL_SIZE,
    ensures
        name@ == reg_name(r),
{
    if r == 0 {
        "x0"
    } else if r == 1 {
        "t0"
    } else if r == 2 {
        "t1"
    } else if r == 3 {
        "t2"
    } else if r == 4 {
        "t3"
    } else if r == 5 {
        "t4"
    } else if r == 6 {
        "t5"
    } else if r == 7 {
        "t6"
    } else if r == 8 {
        "a7"
    } else if r == 9 {
        "a1"
    } else if r == 10 {
        "a2"
    } else if r == 11 {
        "a3"
    } else if r == 12 {
        "a4"
    } else if r == 13 {
        "a5"
    } else if r == 14 {
        "a6"
    } else {
        "a0"
    }
}

/// One register of the pool: the value it holds, if any, and its name.
pub struct RegNode {
    pub value: Option<Value>,
    pub name: &'static str,
}

/// The allocation as the contracts see it: for each register the value it
/// holds, and for each known value where it is kept.
pub struct Allocation {
    pub regs: Seq<Option<Value>>,
    pub values: Map<Value, ValueStore>,
}

/// The pool and the value table agree.  The zero register holds nothing; a
/// register that holds a value is that value's store; a value stored in a
/// register is the one that register holds.  So no value is in two
/// registers.
pub open spec fn consistent(a: Allocation) -> bool {
    &&& a.regs.len() == POOL_SIZE
    &&& a.regs[ZERO_REG as int] is None
    &&& forall|r: int|
        0 <= r < POOL_SIZE ==> (#[trigger] a.regs[r] matches Some(v) ==> a.values.contains_key(v)
            && a.values[v] == ValueStore::Reg(r as Reg))
    &&& forall|v: Value| #[trigger]
        a.values.contains_key(v) ==> (a.values[v] matches ValueStore::Reg(r) ==> 0 < r < POOL_SIZE
            && a.regs[r as int] == Some(v))
}

/// The first register at or after `from` that holds no value.
pub open spec fn first_free(regs: Seq<Option<Value>>, from: int) -> Option<Reg>
    decreases regs.len() - from,
{
    if from < 0 || from >= regs.len() {
        None
    } else if regs[from] is None {
        Some(from as Reg)
    } else {
        first_free(regs, from + 1)
    }
}

/// The register a new value gets: the free one with the lowest number.  The
/// zero register is never handed out.
pub open spec fn next_free(a: Allocation) -> Option<Reg> {
    first_free(a.regs, ZERO_REG + 1)
}

/// The register that holds `v`, if `v` is kept in one.
pub open spec fn home(a: Allocation, v: Value) -> Option<Reg> {
    if a.values.contains_key(v) {
        match a.values[v] {
            ValueStore::Reg(r) => Some(r),
            ValueStore::Const(_) => None,
        }
    } else {
        None
    }
}

/// The pool once `v` has left the register it was in.
pub open spec fn vacate(a: Allocation, v: Value) -> Seq<Option<Value>> {
    match home(a, v) {
        Some(r) => a.regs.update(r as int, None),
        None => a.regs,
    }
}

/// The allocation after `v` is recorded in `store`.  The register `v` was
/// in before is freed; a register store becomes the holder of `v`.
pub open spec fn bind(a: Allocation, v: Value, store: ValueStore) -> Allocation {
    Allocation {
        regs: match store {
            ValueStore::Reg(r) => vacate(a, v).update(r as int, Some(v)),
            ValueStore::Const(_) => vacate(a, v),
        },
        values: a.values.insert(v, store),
    }
}

/// `store` may become the store of `v`: a register store names a register
/// of the pool other than zero that is free or already holds `v`.
pub open spec fn can_bind(a: Allocation, v: Value, store: ValueStore) -> bool {
    store matches ValueStore::Reg(r) ==> 0 < r < POOL_SIZE && (a.regs[r as int] is None
        || a.regs[r as int] == Some(v))
}

/// Freeing register `reg`.  An empty register stays as it is and nothing is
/// emitted.  A live value moves to the next free register, with one move
/// instruction from `reg` to it; with no free register the eviction fails.
pub open spec fn evict(a: Allocation, reg: Reg) -> Result<(Allocation, Option<Instr>), CompileError> {
    match a.regs[reg as int] {
        None => Ok((a, None)),
        Some(v) => match next_free(a) {
            None => Err(CompileError::AllocatorExhaustion),
            Some(to) => Ok((bind(a, v, ValueStore::Reg(to)), Some(Instr::Un(Unary::Mv, to, reg)))),
        },
    }
}

/// Bringing `v` into a register.  A constant gets the next free register
/// and one load-immediate; a value already in a register stays there.
pub open spec fn load(a: Allocation, v: Value) -> Result<(Allocation, Option<Instr>), CompileError> {
    match a.values[v] {
        ValueStore::Reg(_) => Ok((a, None)),
        ValueStore::Const(c) => match next_free(a) {
            None => Err(CompileError::AllocatorExhaustion),
            Some(to) => Ok((bind(a, v, ValueStore::Reg(to)), Some(Instr::Li(to, c)))),
        },
    }
}

/// The text of a store: the numeral of a constant, the name of a register.
pub open spec fn store_name(store: ValueStore) -> Seq<char> {
    match store {
        ValueStore::Const(c) => crate::parser::riscv::text::decimal(c as int),
        ValueStore::Reg(r) => reg_name(r),
    }
}

/// The text of an instruction that may be absent.
pub open spec fn text_of(code: Option<Instr>) -> Option<Seq<char>> {
    match code {
        Some(i) => Some(i.text()),
        None => None,
    }
}

/// The view of a string that may be absent.
pub open spec fn view_of(s: Option<String>) -> Option<Seq<char>> {
    match s {
        Some(s) => Some(s@),
        None => None,
    }
}

/// The map that a list of pairs with distinct keys stands for.
pub open spec fn table(s: Seq<(Value, ValueStore)>) -> Map<Value, ValueStore>
    decreases s.len(),
{
    if s.len() == 0 {
        Map::empty()
    } else {
        table(s.drop_last()).insert(s.last().0, s.last().1)
    }
}

/// No key occurs twice in the list.
pub open spec fn distinct_keys(s: Seq<(Value, ValueStore)>) -> bool {
    forall|i: int, j: int| 0 <= i < j < s.len() ==> s[i].0 != s[j].0
}

proof fn lemma_table_absent(s: Seq<(Value, ValueStore)>, k: Value)
    requires
        forall|i: int| 0 <= i < s.len() ==> s[i].0 != k,
    ensures
        !table(s).contains_key(k),
    decreases s.len(),
{
    if s.len() > 0 {
        lemma_table_absent(s.drop_last(), k);
    }
}

proof fn lemma_table_present(s: Seq<(Value, ValueStore)>, i: int)
    requires
        distinct_keys(s),
        0 <= i < s.len(),
    ensures
        table(s).contains_key(s[i].0),
        table(s)[s[i].0] == s[i].1,
    decreases s.len(),
{
    if i < s.len() - 1 {
        lemma_table_present(s.drop_last(), i);
    }
}

proof fn lemma_table_update(s: Seq<(Value, ValueStore)>, i: int, store: ValueStore)
    requires
        distinct_keys(s),
        0 <= i < s.len(),
    ensures
        distinct_keys(s.update(i, (s[i].0, store))),
        table(s.update(i, (s[i].0, store))) == table(s).insert(s[i].0, store),
    decreases s.len(),
{
    let k = s[i].0;
    let t = s.update(i, (k, store));
    if i == s.len() - 1 {
        assert(t.drop_last() =~= s.drop_last());
        assert(table(t) =~= table(s).insert(k, store));
    } else {
        lemma_table_update(s.drop_last(), i, store);
        assert(t.drop_last() =~= s.drop_last().update(i, (k, store)));
        assert(t.last() == s.last());
        assert(table(t) =~= table(s).insert(k, store));
    }
}

proof fn lemma_table_push(s: Seq<(Value, ValueStore)>, k: Value, store: ValueStore)
    requires
        distinct_keys(s),
        forall|i: int| 0 <= i < s.len() ==> s[i].0 != k,
    ensures
        distinct_keys(s.push((k, store))),
        table(s.push((k, store))) == table(s).insert(k, store),
{
    assert(s.push((k, store)).drop_last() =~= s);
}

/// The register allocator: the pool of registers and, for every IR value
/// met so far, the place where it is kept.
pub struct ValueManager {
    regs: Vec<RegNode>,
    values: Vec<(Value, ValueStore)>,
}

impl View for ValueManager {
    type V = Allocation;

    closed spec fn view(&self) -> Allocation {
        Allocation {
            regs: Seq::new(self.regs@.len(), |r: int| self.regs@[r].value),
            values: table(self.values@),
        }
    }
}

impl ValueManager {
    /// The pool is complete, each register carries its own name, and the
    /// value table lists no value twice.
    pub closed spec fn inv(&self) -> bool {
        &&& self.regs@.len() == POOL_SIZE
        &&& forall|r: int|
            0 <= r < POOL_SIZE ==> (#[trigger] self.regs@[r]).name@ == reg_name(r as Reg)
        &&& distinct_keys(self.values@)
    }

    /// The manager is in order: see [`consistent`].
    pub open spec fn wf(&self) -> bool {
        self.inv() && consistent(self@)
    }

    /// A pool of sixteen empty registers and an empty value table.
    pub fn new() -> (vm: ValueManager)
        ensures
            vm.wf(),
            vm@.values == Map::<Value, ValueStore>::empty(),
            forall|r: int| 0 <= r < POOL_SIZE ==> vm@.regs[r] is None,
    {
        let mut regs: Vec<RegNode> = Vec::new();
        let mut r: Reg = 0;
        while r < POOL_SIZE
            invariant
                r <= POOL_SIZE,
                regs@.len() == r,
                forall|q: int|
                    0 <= q < r ==> (#[trigger] regs@[q]).name@ == reg_name(q as Reg)
                        && regs@[q].value is None,
            decreases POOL_SIZE - r,
        {
            regs.push(RegNode { value: None, name: name_of(r) });
            r = r + 1;
        }
        ValueManager { regs, values: Vec::new() }
    }

    /// The node of register `reg`, if the pool has such a register.
    pub fn get_reg(&self, reg: Reg) -> (node: Option<&RegNode>)
        requires
            self.wf(),
        ensures
            reg >= POOL_SIZE ==> node is None,
            reg < POOL_SIZE ==> node is Some && node->Some_0.value == self@.regs[reg as int]
                && node->Some_0.name@ == reg_name(reg),
    {
        if reg < POOL_SIZE {
            Some(&self.regs[reg as usize])
        } else {
            None
        }
    }

    /// The name of register `reg`.
    pub fn get_reg_name(&self, reg: Reg) -> (name: &'static str)
        requires
            self.wf(),
            reg < POOL_SIZE,
        ensures
            name@ == reg_name(reg),
    {
        self.regs[reg as usize].name
    }

    /// The node of register `reg`, to be changed in place.  The caller who
    /// writes to the node answers for the agreement of pool and table, and
    /// must leave the name alone.
    pub fn get_reg_mut(&mut self, reg: Reg) -> (node: Option<&mut RegNode>)
        requires
            old(self).wf(),
        ensures
            match node {
                Some(n) => {
                    &&& reg < POOL_SIZE
                    &&& n.value == old(self)@.regs[reg as int]
                    &&& n.name@ == reg_name(reg)
                    &&& final(self)@.regs == old(self)@.regs.update(reg as int, final(n).value)
                    &&& final(self)@.values == old(self)@.values
                    &&& final(self).inv() <==> final(n).name@ == reg_name(reg)
                },
                None => reg >= POOL_SIZE && *final(self) == *old(self),
            },
    {
        if reg < POOL_SIZE {
            Some(&mut self.regs[reg as usize])
        } else {
            None
        }
    }

    /// The free register with the lowest number, the zero register left
    /// out.  The register is not reserved: it is taken once a value is
    /// bound to it.
    pub fn alloc_reg(&mut self) -> (r: Result<Reg, CompileError>)
        requires
            old(self).wf(),
        ensures
            *final(self) == *old(self),
            match next_free(old(self)@) {
                Some(reg) => r == Ok::<Reg, CompileError>(reg),
                None => r == Err::<Reg, CompileError>(CompileError::AllocatorExhaustion),
            },
    {
        let mut reg: Reg = 1;
        while reg < POOL_SIZE
            invariant
                1 <= reg <= POOL_SIZE,
                self.wf(),
                *self == *old(self),
                first_free(self@.regs, 1) == first_free(self@.regs, reg as int),
            decreases POOL_SIZE - reg,
        {
            if self.regs[reg as usize].value.is_none() {
                return Ok(reg);
            }
            reg = reg + 1;
        }
        Err(CompileError::AllocatorExhaustion)
    }

    /// Where `value` is kept, if it is known.
    pub fn get_value(&self, value: Value) -> (store: Option<&ValueStore>)
        requires
            self.wf(),
        ensures
            match store {
                Some(s) => self@.values.contains_key(value) && *s == self@.values[value],
                None => !self@.values.contains_key(value),
            },
    {
        match self.find(value) {
            Some(i) => Some(&self.values[i].1),
            None => None,
        }
    }

    /// The position of `value` in the table.
    fn find(&self, value: Value) -> (at: Option<usize>)
        requires
            self.inv(),
        ensures
            match at {
                Some(i) => i < self.values@.len() && self.values@[i as int].0 == value
                    && self@.values.contains_key(value) && self@.values[value]
                    == self.values@[i as int].1,
                None => !self@.values.contains_key(value) && forall|j: int|
                    0 <= j < self.values@.len() ==> self.values@[j].0 != value,
            },
    {
        let mut i: usize = 0;
        while i < self.values.len()
            invariant
                i <= self.values@.len(),
                self.inv(),
                forall|j: int| 0 <= j < i ==> self.values@[j].0 != value,
            decreases self.values@.len() - i,
        {
            if same_value(self.values[i].0, value) {
                proof {
                    lemma_table_present(self.values@, i as int);
                }
                return Some(i);
            }
            i = i + 1;
        }
        proof {
            lemma_table_absent(self.values@, value);
        }
        None
    }

    /// Records `store` as the place of `value`.  A register the value was in
    /// before is freed, and a register store becomes the holder of the
    /// value.
    pub fn set_value(&mut self, value: Value, store: ValueStore)
        requires
            old(self).wf(),
            can_bind(old(self)@, value, store),
        ensures
            final(self).wf(),
            final(self)@ == bind(old(self)@, value, store),
    {
        let ghost before = self@;
        match self.find(value) {
            Some(i) => {
                if let ValueStore::Reg(was) = self.values[i].1 {
                    self.regs[was as usize].value = None;
                }
                proof {
                    lemma_table_update(self.values@, i as int, store);
                }
                self.values[i] = (value, store);
            },
            None => {
                proof {
                    lemma_table_push(self.values@, value, store);
                }
                self.values.push((value, store));
            },
        }
        if let ValueStore::Reg(r) = store {
            self.regs[r as usize].value = Some(value);
        }
        proof {
            assert(self@.regs =~= bind(before, value, store).regs);
            lemma_bind_consistent(before, value, store);
        }
    }

    /// The text of a store: a constant as its decimal numeral, a register
    /// by its name.
    pub fn get_store_name(&self, store: ValueStore) -> (name: String)
        requires
            self.wf(),
            store matches ValueStore::Reg(r) ==> r < POOL_SIZE,
        ensures
            name@ == store_name(store),
    {
        match store {
            ValueStore::Const(c) => decimal_string(c),
            ValueStore::Reg(r) => String::from_str(self.get_reg_name(r)),
        }
    }

    /// Frees register `reg`.  If it holds a live value, the value moves to
    /// the next free register and the move instruction that carries it
    /// there is returned, to be emitted before `reg` is written.
    pub fn reset_reg(&mut self, reg: Reg) -> (r: Result<Option<String>, CompileError>)
        requires
            old(self).wf(),
            reg < POOL_SIZE,
        ensures
            final(self).wf(),
            match evict(old(self)@, reg) {
                Ok((after, code)) => r is Ok && view_of(r->Ok_0) == text_of(code) && final(self)@
                    == after,
                Err(e) => r == Err::<Option<String>, CompileError>(e) && *final(self) == *old(
                    self,
                ),
            },
    {
        match self.regs[reg as usize].value {
            None => Ok(None),
            Some(v) => {
                let to = self.alloc_reg()?;
                proof {
                    lemma_first_free(self@.regs, 1);
                }
                self.set_value(v, ValueStore::Reg(to));
                Ok(Some(Instr::Un(Unary::Mv, to, reg).render()))
            },
        }
    }

    /// Brings `value` into a register.  A constant gets the next free
    /// register and the load-immediate that fills it is returned; a value
    /// already in a register needs nothing.
    pub fn load_reg(&mut self, value: Value) -> (r: Result<Option<String>, CompileError>)
        requires
            old(self).wf(),
            old(self)@.values.contains_key(value),
        ensures
            final(self).wf(),
            match load(old(self)@, value) {
                Ok((after, code)) => r is Ok && view_of(r->Ok_0) == text_of(code) && final(self)@
                    == after,
                Err(e) => r == Err::<Option<String>, CompileError>(e) && *final(self) == *old(
                    self,
                ),
            },
    {
        let store = match self.get_value(value) {
            Some(s) => *s,
            None => {
                return Ok(None);
            },
        };
        match store {
            ValueStore::Const(c) => {
                let to = self.alloc_reg()?;
                proof {
                    lemma_first_free(self@.regs, 1);
                }
                self.set_value(value, ValueStore::Reg(to));
                Ok(Some(Instr::Li(to, c).render()))
            },
            ValueStore::Reg(_) => Ok(None),
        }
    }
}

/// The next free register is free, is not the zero register, and every
/// register before it, but for zero, is taken.  If there is none, every
/// register but zero is taken.
pub proof fn lemma_first_free(regs: Seq<Option<Value>>, from: int)
    requires
        0 <= from,
        regs.len() <= POOL_SIZE,
    ensures
        match first_free(regs, from) {
            Some(r) => from <= r < regs.len() && regs[r as int] is None && forall|q: int|
                from <= q < r ==> regs[q] is Some,
            None => forall|q: int| from <= q < regs.len() ==> regs[q] is Some,
        },
    decreases regs.len() - from,
{
    if from < regs.len() && regs[from] is Some {
        lemma_first_free(regs, from + 1);
    }
}

/// Recording a store that may be bound keeps the pool and the table in
/// agreement.
pub proof fn lemma_bind_consistent(a: Allocation, v: Value, store: ValueStore)
    requires
        consistent(a),
        can_bind(a, v, store),
    ensures
        consistent(bind(a, v, store)),
{
    let b = bind(a, v, store);
    assert forall|r: int| 0 <= r < POOL_SIZE implies (#[trigger] b.regs[r] matches Some(w)
        ==> b.values.contains_key(w) && b.values[w] == ValueStore::Reg(r as Reg)) by {
        if b.regs[r] is Some {
            let w = b.regs[r]->Some_0;
            if w != v {
                assert(a.regs[r] == Some(w));
            }
        }
    }
    assert forall|w: Value| #[trigger] b.values.contains_key(w) implies (b.values[w] matches ValueStore::Reg(
        r,
    ) ==> 0 < r < POOL_SIZE && b.regs[r as int] == Some(w)) by {
        if w != v {
            assert(a.values.contains_key(w));
        }
    }
}

/// No value is in two registers, and the register that holds a value is the
/// one the table records for it.
pub proof fn lemma_single_register(a: Allocation, v: Value, r1: int, r2: int)
    requires
        consistent(a),
        0 <= r1 < POOL_SIZE,
        0 <= r2 < POOL_SIZE,
        a.regs[r1] == Some(v),
        a.regs[r2] == Some(v),
    ensures
        r1 == r2,
        a.values.contains_key(v),
        a.values[v] == ValueStore::Reg(r1 as Reg),
{
}

/// Evicting a live value emits exactly one move, out of the freed register
/// into another one, and the value's store is that other register.
pub proof fn lemma_evict_relocates(a: Allocation, reg: Reg, v: Value)
    requires
        consistent(a),
        reg < POOL_SIZE,
        a.regs[reg as int] == Some(v),
        evict(a, reg) is Ok,
    ensures
        ({
            let (b, code) = evict(a, reg)->Ok_0;
            &&& code matches Some(Instr::Un(Unary::Mv, to, from)) && from == reg && to != reg && 0
                < to < POOL_SIZE && b.values[v] == ValueStore::Reg(to) && b.regs[to as int]
                == Some(v)
            &&& b.regs[reg as int] is None
            &&& consistent(b)
        }),
{
    lemma_first_free(a.regs, 1);
    let to = next_free(a)->Some_0;
    lemma_bind_consistent(a, v, ValueStore::Reg(to));
}

} // verus!
