//! Koopa's in-memory program, as far as the compiler builds and reads it.
//!
//! The program itself is koopa's.  What the compiler knows of it is stated
//! over a model, [`IrModel`]: the functions in layout order, and for each of
//! them its values, its blocks and the instructions of each block.  Every
//! function of this file that is marked `external_body` makes one call into
//! koopa; its contract is what the rest of the crate assumes of that call.
use vstd::prelude::*;
use koopa::ir::builder_traits::{BasicBlockBuilder, LocalInstBuilder, ValueBuilder};
use koopa::ir::{BasicBlock, BinaryOp, Function, Program, Type, Value, ValueKind};

verus! {

/// `koopa::ir::Program`, opaque: what it holds is [`ir_model`].
#[verifier::external_type_specification]
#[verifier::external_body]
pub struct ExProgram(Program);

/// `koopa::ir::Function`, the handle of a function, opaque.
#[verifier::external_type_specification]
#[verifier::external_body]
pub struct ExFunction(Function);

/// `koopa::ir::BasicBlock`, the handle of a block, opaque.
#[verifier::external_type_specification]
#[verifier::external_body]
pub struct ExBasicBlock(BasicBlock);

/// `koopa::ir::Value`, the handle of a value, opaque.
#[verifier::external_type_specification]
#[verifier::external_body]
pub struct ExValue(Value);

/// `koopa::ir::BinaryOp`, with its variants: an enum without fields, which
/// the compiler matches on.
#[verifier::external_type_specification]
pub struct ExBinaryOp(BinaryOp);

/// What a value of a data-flow graph is.  Operands are the handles of other
/// values of the same graph.
#[derive(Clone, Copy, Debug)]
pub enum Inst {
    /// An integer constant.
    Integer(i32),
    /// A local memory slot.
    Alloc,
    /// The content of a slot.
    Load(Value),
    /// A value written to a slot: the value, then the slot.
    Store(Value, Value),
    Binary(BinaryOp, Value, Value),
    Return(Option<Value>),
    /// Anything else koopa can hold.
    Other,
}

/// The type of a value, as far as the builders of koopa test it.
pub enum Ty {
    /// A 32-bit integer.
    Int,
    /// A pointer to a 32-bit integer.
    IntPtr,
    /// Any other type, the unit type of stores and returns among them.
    Other,
}

/// A value and its type.
pub struct ValueEntry {
    pub inst: Inst,
    pub ty: Ty,
}

/// One function of the program.
pub struct FuncModel {
    pub name: Seq<char>,
    /// The function returns a 32-bit integer and takes no parameter.
    pub returns_int: bool,
    /// The function was made by the program it is in, so that its builders
    /// can look up the types of values.
    pub linked: bool,
    /// The data-flow graph: every value by its handle.
    pub values: Map<Value, ValueEntry>,
    /// The blocks the data-flow graph knows, each with its name.
    pub blocks: Map<BasicBlock, Option<Seq<char>>>,
    /// The blocks in the order of the layout.
    pub layout: Seq<BasicBlock>,
    /// The instructions of each block of the layout, in order.
    pub insts: Map<BasicBlock, Seq<Value>>,
}

/// A program: its functions by handle, and the order they are laid out in.
pub struct IrModel {
    pub funcs: Map<Function, FuncModel>,
    pub layout: Seq<Function>,
}

/// What a koopa program holds.
pub uninterp spec fn ir_model(p: &Program) -> IrModel;

/// A name koopa accepts for a function or a block: a sigil, `@` or `%`, and
/// at least one character after it.
pub open spec fn valid_name(name: Seq<char>) -> bool {
    name.len() > 1 && (name[0] == '@' || name[0] == '%')
}

/// A function that was just made: it has nothing but its name.
pub open spec fn fresh_function(name: Seq<char>) -> FuncModel {
    FuncModel {
        name,
        returns_int: true,
        linked: true,
        values: Map::empty(),
        blocks: Map::empty(),
        layout: Seq::empty(),
        insts: Map::empty(),
    }
}

/// The program without any function.
pub open spec fn empty_model() -> IrModel {
    IrModel { funcs: Map::empty(), layout: Seq::empty() }
}

/// `f` is a function of the program and `bb` a block of its layout.
pub open spec fn has_block(m: IrModel, f: Function, bb: BasicBlock) -> bool {
    m.funcs.contains_key(f) && m.funcs[f].layout.contains(bb)
}

/// `v` is a value of function `f` of the program.
pub open spec fn has_value(m: IrModel, f: Function, v: Value) -> bool {
    m.funcs.contains_key(f) && m.funcs[f].values.contains_key(v)
}

/// The model with function `f` replaced.
pub open spec fn with_func(m: IrModel, f: Function, func: FuncModel) -> IrModel {
    IrModel { funcs: m.funcs.insert(f, func), layout: m.layout }
}

/// The model with one more value in the data-flow graph of `f`.
pub open spec fn with_value(m: IrModel, f: Function, v: Value, inst: Inst, ty: Ty) -> IrModel {
    with_func(
        m,
        f,
        FuncModel { values: m.funcs[f].values.insert(v, ValueEntry { inst, ty }), ..m.funcs[f] },
    )
}

/// `v` is a value of `f` of the given type.
pub open spec fn has_type(m: IrModel, f: Function, v: Value, ty: Ty) -> bool {
    m.funcs.contains_key(f) && m.funcs[f].values.contains_key(v) && m.funcs[f].values[v].ty == ty
}

/// A list of instructions after `more` is appended to it, handle by handle:
/// a handle the list already has is skipped.
pub open spec fn appended(list: Seq<Value>, more: Seq<Value>) -> Seq<Value>
    decreases more.len(),
{
    if more.len() == 0 {
        list
    } else if list.contains(more[0]) {
        appended(list, more.skip(1))
    } else {
        appended(list.push(more[0]), more.skip(1))
    }
}

/// `Program::new`: a program with no function.
#[verifier::external_body]
pub(crate) fn new_program() -> (p: Program)
    ensures
        ir_model(&p) == empty_model(),
{
    Program::new()
}

/// `Program::new_func_def`, for a function without parameters that returns
/// an integer: the function gets a handle no function of the program has,
/// is empty, and comes last in the layout.
#[verifier::external_body]
pub(crate) fn new_int_function(p: &mut Program, name: String) -> (f: Function)
    requires
        valid_name(name@),
    ensures
        !ir_model(old(p)).funcs.contains_key(f),
        ir_model(final(p)).funcs == ir_model(old(p)).funcs.insert(f, fresh_function(name@)),
        ir_model(final(p)).layout == ir_model(old(p)).layout.push(f),
{
    p.new_func_def(name, Vec::new(), Type::get_i32())
}

/// `BasicBlockBuilder::basic_block` on the data-flow graph of `f`: the graph
/// gets a block of that name under a handle that is new to the function.
/// The layout is not touched.
#[verifier::external_body]
pub(crate) fn new_block(p: &mut Program, f: Function, name: String) -> (bb: BasicBlock)
    requires
        ir_model(old(p)).funcs.contains_key(f),
        valid_name(name@),
    ensures
        !ir_model(old(p)).funcs[f].blocks.contains_key(bb),
        !ir_model(old(p)).funcs[f].layout.contains(bb),
        ir_model(final(p)) == with_func(
            ir_model(old(p)),
            f,
            (FuncModel {
                blocks: ir_model(old(p)).funcs[f].blocks.insert(bb, Some(name@)),
                ..ir_model(old(p)).funcs[f]
            }),
        ),
{
    p.func_mut(f).dfg_mut().new_bb().basic_block(Some(name))
}

/// `KeyNodeList::push_key_back` on the block list of `f`: a block that is
/// not in the layout comes last in it, with no instruction.
#[verifier::external_body]
pub(crate) fn push_block(p: &mut Program, f: Function, bb: BasicBlock)
    requires
        ir_model(old(p)).funcs.contains_key(f),
        !ir_model(old(p)).funcs[f].layout.contains(bb),
    ensures
        ir_model(final(p)) == with_func(
            ir_model(old(p)),
            f,
            (FuncModel {
                layout: ir_model(old(p)).funcs[f].layout.push(bb),
                insts: ir_model(old(p)).funcs[f].insts.insert(bb, Seq::empty()),
                ..ir_model(old(p)).funcs[f]
            }),
        ),
{
    let _ = p.func_mut(f).layout_mut().bbs_mut().push_key_back(bb);
}

/// `ValueBuilder::integer` on the data-flow graph of `f`: the graph gets an
/// integer constant under a new handle.
#[verifier::external_body]
pub(crate) fn new_integer(p: &mut Program, f: Function, n: i32) -> (v: Value)
    requires
        ir_model(old(p)).funcs.contains_key(f),
    ensures
        !ir_model(old(p)).funcs[f].values.contains_key(v),
        ir_model(final(p)) == with_value(ir_model(old(p)), f, v, Inst::Integer(n), Ty::Int),
{
    p.func_mut(f).dfg_mut().new_value().integer(n)
}

/// `LocalInstBuilder::alloc` for an integer: the graph gets a slot, a
/// pointer to an integer, under a new handle.
#[verifier::external_body]
pub(crate) fn new_alloc(p: &mut Program, f: Function) -> (v: Value)
    requires
        ir_model(old(p)).funcs.contains_key(f),
    ensures
        !ir_model(old(p)).funcs[f].values.contains_key(v),
        ir_model(final(p)) == with_value(ir_model(old(p)), f, v, Inst::Alloc, Ty::IntPtr),
{
    p.func_mut(f).dfg_mut().new_value().alloc(Type::get_i32())
}

/// `LocalInstBuilder::load` from a pointer to an integer: the graph gets
/// the load, an integer, under a new handle.
#[verifier::external_body]
pub(crate) fn new_load(p: &mut Program, f: Function, src: Value) -> (v: Value)
    requires
        ir_model(old(p)).funcs.contains_key(f),
        ir_model(old(p)).funcs[f].linked,
        has_type(ir_model(old(p)), f, src, Ty::IntPtr),
    ensures
        !ir_model(old(p)).funcs[f].values.contains_key(v),
        ir_model(final(p)) == with_value(ir_model(old(p)), f, v, Inst::Load(src), Ty::Int),
{
    p.func_mut(f).dfg_mut().new_value().load(src)
}

/// `LocalInstBuilder::store` of an integer to a pointer to an integer: the
/// graph gets the store under a new handle.
#[verifier::external_body]
pub(crate) fn new_store(p: &mut Program, f: Function, value: Value, dest: Value) -> (v: Value)
    requires
        ir_model(old(p)).funcs.contains_key(f),
        ir_model(old(p)).funcs[f].linked,
        has_type(ir_model(old(p)), f, value, Ty::Int),
        has_type(ir_model(old(p)), f, dest, Ty::IntPtr),
    ensures
        !ir_model(old(p)).funcs[f].values.contains_key(v),
        ir_model(final(p)) == with_value(
            ir_model(old(p)),
            f,
            v,
            Inst::Store(value, dest),
            Ty::Other,
        ),
{
    p.func_mut(f).dfg_mut().new_value().store(value, dest)
}

/// `LocalInstBuilder::binary` on two integers: the graph gets the
/// operation, an integer, under a new handle.
#[verifier::external_body]
pub(crate) fn new_binary(p: &mut Program, f: Function, op: BinaryOp, lhs: Value, rhs: Value) -> (v:
    Value)
    requires
        ir_model(old(p)).funcs.contains_key(f),
        ir_model(old(p)).funcs[f].linked,
        has_type(ir_model(old(p)), f, lhs, Ty::Int),
        has_type(ir_model(old(p)), f, rhs, Ty::Int),
    ensures
        !ir_model(old(p)).funcs[f].values.contains_key(v),
        ir_model(final(p)) == with_value(
            ir_model(old(p)),
            f,
            v,
            Inst::Binary(op, lhs, rhs),
            Ty::Int,
        ),
{
    p.func_mut(f).dfg_mut().new_value().binary(op, lhs, rhs)
}

/// `LocalInstBuilder::ret` of an integer, or of nothing: the graph gets the
/// return under a new handle.
#[verifier::external_body]
pub(crate) fn new_return(p: &mut Program, f: Function, value: Option<Value>) -> (v: Value)
    requires
        ir_model(old(p)).funcs.contains_key(f),
        value matches Some(x) ==> ir_model(old(p)).funcs[f].linked && has_type(
            ir_model(old(p)),
            f,
            x,
            Ty::Int,
        ),
    ensures
        !ir_model(old(p)).funcs[f].values.contains_key(v),
        ir_model(final(p)) == with_value(ir_model(old(p)), f, v, Inst::Return(value), Ty::Other),
{
    p.func_mut(f).dfg_mut().new_value().ret(value)
}

/// `Extend::extend` on the instruction list of block `bb` of `f`: each
/// handle is appended in turn, unless the list has it already.
#[verifier::external_body]
pub(crate) fn extend_insts(p: &mut Program, f: Function, bb: BasicBlock, more: Vec<Value>)
    requires
        has_block(ir_model(old(p)), f, bb),
    ensures
        ir_model(final(p)) == with_func(
            ir_model(old(p)),
            f,
            (FuncModel {
                insts: ir_model(old(p)).funcs[f].insts.insert(
                    bb,
                    appended(ir_model(old(p)).funcs[f].insts[bb], more@),
                ),
                ..ir_model(old(p)).funcs[f]
            }),
        ),
{
    p.func_mut(f).layout_mut().bb_mut(bb).insts_mut().extend(more)
}

/// `Program::func_layout`: the functions in layout order.
#[verifier::external_body]
pub(crate) fn func_layout(p: &Program) -> (funcs: Vec<Function>)
    ensures
        funcs@ == ir_model(p).layout,
{
    p.func_layout().to_vec()
}

/// `FunctionData::name` of function `f`, if the program has it.
#[verifier::external_body]
pub(crate) fn func_name(p: &Program, f: Function) -> (name: Option<String>)
    ensures
        name is Some == ir_model(p).funcs.contains_key(f),
        name matches Some(s) ==> s@ == ir_model(p).funcs[f].name,
{
    p.funcs().get(&f).map(|data| data.name().to_string())
}

/// `KeyNodeList::keys` of the block list of `f`, if the program has `f`:
/// the blocks in layout order.
#[verifier::external_body]
pub(crate) fn block_layout(p: &Program, f: Function) -> (blocks: Option<Vec<BasicBlock>>)
    ensures
        blocks is Some == ir_model(p).funcs.contains_key(f),
        blocks matches Some(b) ==> b@ == ir_model(p).funcs[f].layout,
{
    p.funcs().get(&f).map(|data| data.layout().bbs().keys().copied().collect())
}

/// `KeyNodeList::keys` of the instruction list of block `bb` of `f`, if `f`
/// is in the program and `bb` in its layout: the instructions in order.
#[verifier::external_body]
pub(crate) fn block_insts(p: &Program, f: Function, bb: BasicBlock) -> (insts: Option<Vec<Value>>)
    ensures
        insts is Some == has_block(ir_model(p), f, bb),
        insts matches Some(i) ==> i@ == ir_model(p).funcs[f].insts[bb],
{
    let node = p.funcs().get(&f)?.layout().bbs().node(&bb)?;
    Some(node.insts().keys().copied().collect())
}

/// `ValueData::kind` of value `v` of `f`, if the data-flow graph of `f` has
/// it, with the operands moved over.
#[verifier::external_body]
pub(crate) fn value_inst(p: &Program, f: Function, v: Value) -> (inst: Option<Inst>)
    ensures
        inst is Some == has_value(ir_model(p), f, v),
        inst matches Some(i) ==> i == ir_model(p).funcs[f].values[v].inst,
{
    Some(match p.funcs().get(&f)?.dfg().values().get(&v)?.kind() {
        ValueKind::Integer(i) => Inst::Integer(i.value()),
        ValueKind::Alloc(_) => Inst::Alloc,
        ValueKind::Load(l) => Inst::Load(l.src()),
        ValueKind::Store(s) => Inst::Store(s.value(), s.dest()),
        ValueKind::Binary(b) => Inst::Binary(b.op(), b.lhs(), b.rhs()),
        ValueKind::Return(r) => Inst::Return(r.value()),
        _ => Inst::Other,
    })
}

/// `==` on value handles: two handles are equal when they are the same
/// handle.
#[verifier::external_body]
pub(crate) fn same_value(a: Value, b: Value) -> (r: bool)
    ensures
        r == (a == b),
{
    a == b
}

} // verus!
