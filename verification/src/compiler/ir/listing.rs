//! The textual listing of a module.
//!
//! Globals come first, then functions, each in the order of declaration. A
//! builtin is one `declare` line. A defined function lists its blocks in
//! layout order, each under a label, one instruction to a line.

use crate::compiler::ir::arena::{BBId, InstId};
use crate::compiler::ir::text::{decimal, decimal_text, join, join_texts};
use crate::compiler::ir::value::constant::const_text;
use crate::compiler::ir::value::func::Func;
use crate::compiler::ir::value::global::Global;
use crate::compiler::ir::value::inst::{BinaryOp, Inst, InstKind, UnaryOp};
use crate::compiler::ir::value::module::Module;
use crate::compiler::ir::value::ty::ty_text;
use crate::compiler::ir::value::value::Operand;
use vstd::prelude::*;
use vstd::string::*;

verus! {

/// How the listing names a block.
pub open spec fn label_text(bb: BBId) -> Seq<char> {
    "bb"@ + decimal_text(bb.number() as int)
}

/// How the listing writes an operand: `%` and the number of an instruction,
/// `%p` and the position of a parameter, `@g` and the number of a global, or
/// a constant in full.
pub open spec fn operand_text(op: Operand) -> Seq<char> {
    match op {
        Operand::Inst(i) => "%"@ + decimal_text(i.number() as int),
        Operand::Param(p) => "%p"@ + decimal_text(p.position as int),
        Operand::Global(g) => "@g"@ + decimal_text(g.number() as int),
        Operand::Const(c) => const_text(c@),
    }
}

/// The name of an operation on two operands.
pub open spec fn binary_text(op: BinaryOp) -> Seq<char> {
    match op {
        BinaryOp::Add => "add"@,
        BinaryOp::Sub => "sub"@,
        BinaryOp::Mul => "mul"@,
        BinaryOp::Div => "div"@,
        BinaryOp::Mod => "mod"@,
        BinaryOp::Lt => "lt"@,
        BinaryOp::Le => "le"@,
        BinaryOp::Gt => "gt"@,
        BinaryOp::Ge => "ge"@,
        BinaryOp::Eq => "eq"@,
        BinaryOp::Ne => "ne"@,
        BinaryOp::And => "and"@,
        BinaryOp::Or => "or"@,
    }
}

/// What an instruction does, with the function or the blocks that it names.
pub open spec fn mnemonic_text(kind: InstKind) -> Seq<char> {
    match kind {
        InstKind::Binary { op, .. } => binary_text(op),
        InstKind::Unary { op, .. } => match op {
            UnaryOp::Neg => "neg"@,
            UnaryOp::Not => "not"@,
        },
        InstKind::Alloca => "alloca"@,
        InstKind::Load { .. } => "load"@,
        InstKind::Store { .. } => "store"@,
        InstKind::Call { func, .. } => "call @f"@ + decimal_text(func.number() as int),
        InstKind::Jump { target } => "jump "@ + label_text(target),
        InstKind::Branch { then_bb, else_bb, .. } => "br "@ + label_text(then_bb) + ", "@
            + label_text(else_bb),
        InstKind::Ret { .. } => "ret"@,
    }
}

/// The texts of the operands of an instruction, in order.
pub open spec fn operand_texts(kind: InstKind) -> Seq<Seq<char>> {
    Seq::new(kind.arity(), |i: int| operand_text(kind.operand(i)))
}

/// One instruction: `%`, its number, ` = `, its type, what it does, and its
/// operands separated by a comma and a space.
pub open spec fn inst_text(id: InstId, inst: Inst) -> Seq<char> {
    let head = "%"@ + decimal_text(id.number() as int) + " = "@ + ty_text(inst.ty@) + " "@
        + mnemonic_text(inst.kind);
    if inst.kind.arity() == 0 {
        head
    } else {
        head + " "@ + join_texts(operand_texts(inst.kind), ", "@)
    }
}

/// The lines of a block: each instruction indented, with a line end.
pub open spec fn line_texts(f: Func, bb: BBId) -> Seq<Seq<char>> {
    Seq::new(
        f.code(bb).len(),
        |i: int| "    "@ + inst_text(f.code(bb)[i], f.insts()[f.code(bb)[i]]) + "\n"@,
    )
}

/// A block: its label, a colon, and its lines.
pub open spec fn block_text(f: Func, bb: BBId) -> Seq<char> {
    label_text(bb) + ":\n"@ + join_texts(line_texts(f, bb), Seq::empty())
}

/// The blocks of a function, in layout order.
pub open spec fn block_texts(f: Func) -> Seq<Seq<char>> {
    Seq::new(f.layout@.len(), |i: int| block_text(f, f.layout@[i]))
}

/// A function: `declare`, its type and its name for a builtin; else
/// `define`, its type, its name and its blocks between braces.
pub open spec fn func_text(f: Func) -> Seq<char> {
    if f.is_builtin {
        "declare "@ + ty_text(f.ty@) + " @"@ + f.name@ + "\n"@
    } else {
        "define "@ + ty_text(f.ty@) + " @"@ + f.name@ + " {\n"@ + join_texts(
            block_texts(f),
            Seq::empty(),
        ) + "}\n"@
    }
}

/// A global: its name, its type, and its initial value if it has one.
pub open spec fn global_text(g: Global) -> Seq<char> {
    let head = "@"@ + g.name@ + " = global "@ + ty_text(g.ty@);
    match g.init {
        Some(c) => head + " = "@ + const_text(c@) + "\n"@,
        None => head + "\n"@,
    }
}

/// The globals of a module, in the order of declaration.
pub open spec fn global_texts(m: Module) -> Seq<Seq<char>> {
    Seq::new(m.global_order@.len(), |i: int| global_text(m.globals()[m.global_order@[i]]))
}

/// The functions of a module, in the order of declaration.
pub open spec fn func_texts(m: Module) -> Seq<Seq<char>> {
    Seq::new(m.func_order@.len(), |i: int| func_text(m.funcs()[m.func_order@[i]]))
}

/// The listing of a module: its globals, then its functions.
pub open spec fn module_text(m: Module) -> Seq<char> {
    join_texts(global_texts(m), Seq::empty()) + join_texts(func_texts(m), Seq::empty())
}

/// Puts texts one behind the other.
fn concat(parts: &Vec<String>) -> (r: String)
    ensures
        r@ == join_texts(Seq::new(parts@.len(), |i: int| parts@[i]@), Seq::empty()),
{
    proof {
        reveal_strlit("");
        assert(""@ =~= Seq::<char>::empty());
    }
    join(parts, "")
}

fn label(bb: BBId) -> (r: String)
    ensures
        r@ == label_text(bb),
{
    let mut r = String::from_str("bb");
    r.append(decimal(bb.index() as i128).as_str());
    r
}

impl Operand {
    /// Renders the operand as the listing writes it.
    pub fn to_string(&self) -> (r: String)
        ensures
            r@ == operand_text(*self),
    {
        match self {
            Operand::Inst(i) => {
                let mut r = String::from_str("%");
                r.append(decimal(i.index() as i128).as_str());
                r
            },
            Operand::Param(p) => {
                let mut r = String::from_str("%p");
                r.append(decimal(p.position as i128).as_str());
                r
            },
            Operand::Global(g) => {
                let mut r = String::from_str("@g");
                r.append(decimal(g.index() as i128).as_str());
                r
            },
            Operand::Const(c) => c.to_string(),
        }
    }
}

impl BinaryOp {
    /// The name of the operation in the listing.
    pub fn name(&self) -> (r: &'static str)
        ensures
            r@ == binary_text(*self),
    {
        match self {
            BinaryOp::Add => "add",
            BinaryOp::Sub => "sub",
            BinaryOp::Mul => "mul",
            BinaryOp::Div => "div",
            BinaryOp::Mod => "mod",
            BinaryOp::Lt => "lt",
            BinaryOp::Le => "le",
            BinaryOp::Gt => "gt",
            BinaryOp::Ge => "ge",
            BinaryOp::Eq => "eq",
            BinaryOp::Ne => "ne",
            BinaryOp::And => "and",
            BinaryOp::Or => "or",
        }
    }
}

impl InstKind {
    /// What the instruction does, as the listing writes it.
    pub fn mnemonic(&self) -> (r: String)
        ensures
            r@ == mnemonic_text(*self),
    {
        match self {
            InstKind::Binary { op, .. } => String::from_str(op.name()),
            InstKind::Unary { op, .. } => match op {
                UnaryOp::Neg => String::from_str("neg"),
                UnaryOp::Not => String::from_str("not"),
            },
            InstKind::Alloca => String::from_str("alloca"),
            InstKind::Load { .. } => String::from_str("load"),
            InstKind::Store { .. } => String::from_str("store"),
            InstKind::Call { func, .. } => {
                let mut r = String::from_str("call @f");
                r.append(decimal(func.index() as i128).as_str());
                r
            },
            InstKind::Jump { target } => {
                let mut r = String::from_str("jump ");
                r.append(label(*target).as_str());
                r
            },
            InstKind::Branch { then_bb, else_bb, .. } => {
                let mut r = String::from_str("br ");
                r.append(label(*then_bb).as_str());
                r.append(", ");
                r.append(label(*else_bb).as_str());
                r
            },
            InstKind::Ret { .. } => String::from_str("ret"),
        }
    }
}

impl Inst {
    /// Renders the instruction, under the key that names it, as one line of
    /// the listing without indentation or line end.
    pub fn to_string(&self, id: InstId) -> (r: String)
        ensures
            r@ == inst_text(id, *self),
    {
        let mut r = String::from_str("%");
        r.append(decimal(id.index() as i128).as_str());
        r.append(" = ");
        r.append(self.ty.to_string().as_str());
        r.append(" ");
        r.append(self.kind.mnemonic().as_str());
        let operands = self.kind.operands();
        if operands.len() > 0 {
            let mut texts: Vec<String> = Vec::new();
            let mut i: usize = 0;
            while i < operands.len()
                invariant
                    i <= operands@.len(),
                    texts@.len() == i,
                    operands@.len() == self.kind.arity(),
                    forall|j: int| 0 <= j < operands@.len() ==> *operands@[j] == self.kind.operand(j),
                    forall|j: int| 0 <= j < i ==> texts@[j]@ == operand_text(self.kind.operand(j)),
                decreases operands@.len() - i,
            {
                texts.push(operands[i].to_string());
                i += 1;
            }
            r.append(" ");
            r.append(join(&texts, ", ").as_str());
            proof {
                assert(Seq::new(texts@.len(), |i: int| texts@[i]@) =~= operand_texts(self.kind));
            }
        }
        r
    }
}

impl Func {
    /// Renders a block of the function: its label and its instructions.
    pub fn block_to_string(&self, bb: BBId) -> (r: String)
        requires
            self.wf(),
            self.blocks().contains_key(bb),
        ensures
            r@ == block_text(*self, bb),
    {
        let mut r = label(bb);
        r.append(":\n");
        let mut lines: Vec<String> = Vec::new();
        match self.get_bb(bb) {
            Some(block) => {
                let mut i: usize = 0;
                while i < block.insts.len()
                    invariant
                        self.wf(),
                        self.blocks().contains_key(bb),
                        *block == self.blocks()[bb],
                        i <= block.insts@.len(),
                        lines@.len() == i,
                        forall|j: int| 0 <= j < i ==> lines@[j]@ == line_texts(*self, bb)[j],
                    decreases block.insts@.len() - i,
                {
                    let id = block.insts[i];
                    assert(self.insts().contains_key(self.code(bb)[i as int]));
                    let mut line = String::from_str("    ");
                    match self.get_inst(id) {
                        Some(inst) => {
                            line.append(inst.to_string(id).as_str());
                        },
                        None => {},
                    }
                    line.append("\n");
                    lines.push(line);
                    i += 1;
                }
            },
            None => {},
        }
        proof {
            assert(Seq::new(lines@.len(), |i: int| lines@[i]@) =~= line_texts(*self, bb));
        }
        r.append(concat(&lines).as_str());
        r
    }

    /// Renders the function as the listing writes it.
    pub fn to_string(&self) -> (r: String)
        requires
            self.wf(),
        ensures
            r@ == func_text(*self),
    {
        let mut r = String::from_str(if self.is_builtin {
            "declare "
        } else {
            "define "
        });
        r.append(self.ty.to_string().as_str());
        r.append(" @");
        r.append(self.name.as_str());
        if self.is_builtin {
            r.append("\n");
            return r;
        }
        r.append(" {\n");
        let mut blocks: Vec<String> = Vec::new();
        let mut i: usize = 0;
        while i < self.layout.len()
            invariant
                self.wf(),
                i <= self.layout@.len(),
                blocks@.len() == i,
                forall|j: int| 0 <= j < i ==> blocks@[j]@ == block_texts(*self)[j],
            decreases self.layout@.len() - i,
        {
            assert(self.layout@.contains(self.layout@[i as int]));
            blocks.push(self.block_to_string(self.layout[i]));
            i += 1;
        }
        proof {
            assert(Seq::new(blocks@.len(), |i: int| blocks@[i]@) =~= block_texts(*self));
        }
        r.append(concat(&blocks).as_str());
        r.append("}\n");
        r
    }
}

impl Global {
    /// Renders the global as the listing writes it.
    pub fn to_string(&self) -> (r: String)
        ensures
            r@ == global_text(*self),
    {
        let mut r = String::from_str("@");
        r.append(self.name.as_str());
        r.append(" = global ");
        r.append(self.ty.to_string().as_str());
        match &self.init {
            Some(c) => {
                r.append(" = ");
                r.append(c.to_string().as_str());
            },
            None => {},
        }
        r.append("\n");
        r
    }
}

impl Module {
    /// Renders the module as its listing.
    pub fn to_string(&self) -> (r: String)
        requires
            self.wf(),
        ensures
            r@ == module_text(*self),
    {
        let mut globals: Vec<String> = Vec::new();
        let mut i: usize = 0;
        while i < self.global_order.len()
            invariant
                self.wf(),
                i <= self.global_order@.len(),
                globals@.len() == i,
                forall|j: int| 0 <= j < i ==> globals@[j]@ == global_texts(*self)[j],
            decreases self.global_order@.len() - i,
        {
            assert(self.global_order@.contains(self.global_order@[i as int]));
            match self.get_global(self.global_order[i]) {
                Some(g) => {
                    globals.push(g.to_string());
                },
                None => {
                    globals.push(String::new());
                },
            }
            i += 1;
        }
        let mut funcs: Vec<String> = Vec::new();
        let mut k: usize = 0;
        while k < self.func_order.len()
            invariant
                self.wf(),
                k <= self.func_order@.len(),
                funcs@.len() == k,
                forall|j: int| 0 <= j < k ==> funcs@[j]@ == func_texts(*self)[j],
            decreases self.func_order@.len() - k,
        {
            assert(self.func_order@.contains(self.func_order@[k as int]));
            match self.get_func(self.func_order[k]) {
                Some(f) => {
                    funcs.push(f.to_string());
                },
                None => {
                    funcs.push(String::new());
                },
            }
            k += 1;
        }
        proof {
            assert(Seq::new(globals@.len(), |i: int| globals@[i]@) =~= global_texts(*self));
            assert(Seq::new(funcs@.len(), |i: int| funcs@[i]@) =~= func_texts(*self));
        }
        let mut r = concat(&globals);
        r.append(concat(&funcs).as_str());
        r
    }
}

} // verus!
