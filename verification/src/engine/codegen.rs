use vstd::prelude::*;
use crate::engine::well_formed;
use crate::engine::Instruction;
use crate::engine::parser::AST;
use crate::helper::safe_add;

verus! {

/// Failures of code generation. `PCOverFlow` means the address counter left
/// the native range; the `Fail*` kinds mark a backpatch slot that did not
/// hold the instruction the named rule had just written, one per rule.
#[derive(Clone, Copy, Debug, PartialEq, Eq, Structural)]
pub enum CodeGenError {
    PCOverFlow,
    FailStar,
    FailOr,
    FailQuestion,
    FailPlus,
}

/// How many instructions the generator emits for `a`. The final `Match` of
/// a whole program is not counted here.
pub open spec fn code_len(a: AST) -> nat
    decreases a, 0int,
{
    match a {
        AST::Char(_) => 1,
        AST::Dot => 1,
        AST::Or(l, r) => 2 + code_len(*l) + code_len(*r),
        AST::Question(e) => 1 + code_len(*e),
        AST::Plus(e) => 1 + code_len(*e),
        AST::Star(e) => 2 + code_len(*e),
        AST::Sequence(v) => seq_code_len(v, v.len() as int),
    }
}

/// How many instructions the first `n` children of a sequence node emit.
pub open spec fn seq_code_len(v: Vec<AST>, n: int) -> nat
    decreases v, n,
        when n <= v.len()
{
    if n <= 0 {
        0
    } else {
        seq_code_len(v, n - 1) + code_len(v[n - 1])
    }
}

/// The exact code the generator emits for `a` when the node's first
/// instruction stands at address `pos`.
pub open spec fn gen(a: AST, pos: nat) -> Seq<Instruction>
    decreases a, 0int,
{
    match a {
        AST::Char(c) => seq![Instruction::Char(c)],
        AST::Dot => seq![Instruction::Dot],
        AST::Or(l, r) => ({
            let c1 = gen(*l, pos + 1);
            let c2 = gen(*r, pos + 2 + c1.len());
            seq![Instruction::Split((pos + 1) as usize, (pos + 2 + c1.len()) as usize)] + c1
                + seq![Instruction::Jump((pos + 2 + c1.len() + c2.len()) as usize)] + c2
        }),
        AST::Question(e) => ({
            let c = gen(*e, pos + 1);
            seq![Instruction::Split((pos + 1) as usize, (pos + 1 + c.len()) as usize)] + c
        }),
        AST::Plus(e) => ({
            let c = gen(*e, pos);
            c + seq![Instruction::Split(pos as usize, (pos + c.len() + 1) as usize)]
        }),
        AST::Star(e) => ({
            let c = gen(*e, pos + 1);
            seq![Instruction::Split((pos + 1) as usize, (pos + 2 + c.len()) as usize)] + c
                + seq![Instruction::Jump(pos as usize)]
        }),
        AST::Sequence(v) => gen_seq_code(v, v.len() as int, pos),
    }
}

/// The code the first `n` children of a sequence node emit, laid out one
/// after the other starting at address `pos`.
pub open spec fn gen_seq_code(v: Vec<AST>, n: int, pos: nat) -> Seq<Instruction>
    decreases v, n,
        when n <= v.len()
{
    if n <= 0 {
        Seq::empty()
    } else {
        gen_seq_code(v, n - 1, pos) + gen(v[n - 1], pos + seq_code_len(v, n - 1))
    }
}

proof fn lemma_gen_len(a: AST, pos: nat)
    ensures
        gen(a, pos).len() == code_len(a),
    decreases a, 0int,
{
    match a {
        AST::Char(_) => {},
        AST::Dot => {},
        AST::Or(l, r) => {
            lemma_gen_len(*l, pos + 1);
            lemma_gen_len(*r, pos + 2 + gen(*l, pos + 1).len());
        },
        AST::Question(e) => {
            lemma_gen_len(*e, pos + 1);
        },
        AST::Plus(e) => {
            lemma_gen_len(*e, pos);
        },
        AST::Star(e) => {
            lemma_gen_len(*e, pos + 1);
        },
        AST::Sequence(v) => {
            lemma_gen_seq_len(v, v.len() as int, pos);
        },
    }
}

proof fn lemma_gen_seq_len(v: Vec<AST>, n: int, pos: nat)
    requires
        n <= v.len(),
    ensures
        gen_seq_code(v, n, pos).len() == seq_code_len(v, n),
    decreases v, n,
{
    if n > 0 {
        lemma_gen_seq_len(v, n - 1, pos);
        lemma_gen_len(v[n - 1], pos + seq_code_len(v, n - 1));
    }
}

/// One instruction's control targets all lie within `[lo, hi]`, and the
/// instruction is not `Match`.
pub open spec fn target_ok(inst: Instruction, lo: nat, hi: nat) -> bool {
    match inst {
        Instruction::Jump(t) => lo <= t <= hi,
        Instruction::Split(x, y) => lo <= x <= hi && lo <= y <= hi,
        Instruction::Match => false,
        _ => true,
    }
}

/// Every control target in `code` lies within `[lo, hi]`, and `code` holds
/// no `Match`.
pub open spec fn targets_in(code: Seq<Instruction>, lo: nat, hi: nat) -> bool {
    forall|i: int| 0 <= i < code.len() ==> target_ok(#[trigger] code[i], lo, hi)
}

proof fn lemma_targets_widen(code: Seq<Instruction>, lo: nat, hi: nat, lo2: nat, hi2: nat)
    requires
        targets_in(code, lo, hi),
        lo2 <= lo,
        hi <= hi2,
    ensures
        targets_in(code, lo2, hi2),
{
    assert forall|i: int| 0 <= i < code.len() implies target_ok(#[trigger] code[i], lo2, hi2) by {
        assert(target_ok(code[i], lo, hi));
    }
}

proof fn lemma_targets_add(c1: Seq<Instruction>, c2: Seq<Instruction>, lo: nat, hi: nat)
    requires
        targets_in(c1, lo, hi),
        targets_in(c2, lo, hi),
    ensures
        targets_in(c1 + c2, lo, hi),
{
    assert forall|i: int| 0 <= i < (c1 + c2).len() implies target_ok(#[trigger] (c1 + c2)[i], lo, hi) by {
        if i < c1.len() {
            assert((c1 + c2)[i] == c1[i]);
        } else {
            assert((c1 + c2)[i] == c2[i - c1.len()]);
        }
    }
}

proof fn lemma_gen_targets(a: AST, pos: nat)
    requires
        pos + code_len(a) <= usize::MAX,
    ensures
        targets_in(gen(a, pos), pos, pos + code_len(a)),
    decreases a, 0int,
{
    let n = code_len(a);
    lemma_gen_len(a, pos);
    match a {
        AST::Char(_) => {},
        AST::Dot => {},
        AST::Or(l, r) => {
            let n1 = code_len(*l);
            let n2 = code_len(*r);
            let c1 = gen(*l, pos + 1);
            let c2 = gen(*r, pos + 2 + n1);
            lemma_gen_len(*l, pos + 1);
            lemma_gen_len(*r, pos + 2 + n1);
            lemma_gen_targets(*l, pos + 1);
            lemma_gen_targets(*r, pos + 2 + n1);
            let s1 = seq![Instruction::Split((pos + 1) as usize, (pos + 2 + n1) as usize)];
            let s2 = seq![Instruction::Jump((pos + 2 + n1 + n2) as usize)];
            assert(gen(a, pos) == s1 + c1 + s2 + c2);
            assert(target_ok(s1[0], pos, pos + n));
            assert(targets_in(s1, pos, pos + n));
            assert(target_ok(s2[0], pos, pos + n));
            assert(targets_in(s2, pos, pos + n));
            lemma_targets_widen(c1, pos + 1, pos + 1 + n1, pos, pos + n);
            lemma_targets_widen(c2, pos + 2 + n1, pos + 2 + n1 + n2, pos, pos + n);
            lemma_targets_add(s1, c1, pos, pos + n);
            lemma_targets_add(s1 + c1, s2, pos, pos + n);
            lemma_targets_add(s1 + c1 + s2, c2, pos, pos + n);
        },
        AST::Question(e) => {
            let n1 = code_len(*e);
            let c = gen(*e, pos + 1);
            lemma_gen_len(*e, pos + 1);
            lemma_gen_targets(*e, pos + 1);
            let s1 = seq![Instruction::Split((pos + 1) as usize, (pos + 1 + n1) as usize)];
            assert(gen(a, pos) == s1 + c);
            assert(target_ok(s1[0], pos, pos + n));
            assert(targets_in(s1, pos, pos + n));
            lemma_targets_widen(c, pos + 1, pos + 1 + n1, pos, pos + n);
            lemma_targets_add(s1, c, pos, pos + n);
        },
        AST::Plus(e) => {
            let n1 = code_len(*e);
            let c = gen(*e, pos);
            lemma_gen_len(*e, pos);
            lemma_gen_targets(*e, pos);
            let s1 = seq![Instruction::Split(pos as usize, (pos + n1 + 1) as usize)];
            assert(gen(a, pos) == c + s1);
            assert(target_ok(s1[0], pos, pos + n));
            assert(targets_in(s1, pos, pos + n));
            lemma_targets_widen(c, pos, pos + n1, pos, pos + n);
            lemma_targets_add(c, s1, pos, pos + n);
        },
        AST::Star(e) => {
            let n1 = code_len(*e);
            let c = gen(*e, pos + 1);
            lemma_gen_len(*e, pos + 1);
            lemma_gen_targets(*e, pos + 1);
            let s1 = seq![Instruction::Split((pos + 1) as usize, (pos + 2 + n1) as usize)];
            let s2 = seq![Instruction::Jump(pos as usize)];
            assert(gen(a, pos) == s1 + c + s2);
            assert(target_ok(s1[0], pos, pos + n));
            assert(targets_in(s1, pos, pos + n));
            assert(target_ok(s2[0], pos, pos + n));
            assert(targets_in(s2, pos, pos + n));
            lemma_targets_widen(c, pos + 1, pos + 1 + n1, pos, pos + n);
            lemma_targets_add(s1, c, pos, pos + n);
            lemma_targets_add(s1 + c, s2, pos, pos + n);
        },
        AST::Sequence(v) => {
            lemma_gen_seq_targets(v, v.len() as int, pos);
        },
    }
}

proof fn lemma_gen_seq_targets(v: Vec<AST>, n: int, pos: nat)
    requires
        n <= v.len(),
        pos + seq_code_len(v, n) <= usize::MAX,
    ensures
        targets_in(gen_seq_code(v, n, pos), pos, pos + seq_code_len(v, n)),
    decreases v, n,
{
    if n > 0 {
        let front = seq_code_len(v, n - 1);
        let c1 = gen_seq_code(v, n - 1, pos);
        let c2 = gen(v[n - 1], pos + front);
        lemma_gen_seq_targets(v, n - 1, pos);
        lemma_gen_targets(v[n - 1], pos + front);
        lemma_targets_widen(c1, pos, pos + front, pos, pos + seq_code_len(v, n));
        lemma_targets_widen(
            c2,
            pos + front,
            pos + front + code_len(v[n - 1]),
            pos,
            pos + seq_code_len(v, n),
        );
        lemma_targets_add(c1, c2, pos, pos + seq_code_len(v, n));
    }
}

/// The number of nodes of an expression tree: the termination measure of
/// the generator's recursion.
spec fn ast_size(a: AST) -> nat
    decreases a, 0int,
{
    match a {
        AST::Char(_) => 1,
        AST::Dot => 1,
        AST::Or(l, r) => 1 + ast_size(*l) + ast_size(*r),
        AST::Question(e) => 1 + ast_size(*e),
        AST::Plus(e) => 1 + ast_size(*e),
        AST::Star(e) => 1 + ast_size(*e),
        AST::Sequence(v) => 1 + seq_ast_size(v, v.len() as int),
    }
}

spec fn seq_ast_size(v: Vec<AST>, n: int) -> nat
    decreases v, n,
        when n <= v.len()
{
    if n <= 0 {
        0
    } else {
        seq_ast_size(v, n - 1) + ast_size(v[n - 1])
    }
}

proof fn lemma_ast_size_pos(a: AST)
    ensures
        ast_size(a) >= 1,
{
    match a {
        AST::Char(_) => {},
        AST::Dot => {},
        AST::Or(_, _) => {},
        AST::Question(_) => {},
        AST::Plus(_) => {},
        AST::Star(_) => {},
        AST::Sequence(_) => {},
    }
}

proof fn lemma_elem_size_le(v: Vec<AST>, i: int, n: int)
    requires
        0 <= i < n <= v.len(),
    ensures
        ast_size(v[i]) <= seq_ast_size(v, n),
    decreases n,
{
    if i < n - 1 {
        lemma_elem_size_le(v, i, n - 1);
    }
}

proof fn lemma_seq_code_len_mono(v: Vec<AST>, i: int, n: int)
    requires
        0 <= i <= n <= v.len(),
    ensures
        seq_code_len(v, i) <= seq_code_len(v, n),
    decreases n,
{
    if i < n {
        lemma_seq_code_len_mono(v, i, n - 1);
    }
}

spec fn or_code(l: AST, r: AST, pos: nat) -> Seq<Instruction> {
    let c1 = gen(l, pos + 1);
    let c2 = gen(r, pos + 2 + c1.len());
    seq![Instruction::Split((pos + 1) as usize, (pos + 2 + c1.len()) as usize)] + c1
        + seq![Instruction::Jump((pos + 2 + c1.len() + c2.len()) as usize)] + c2
}

spec fn question_code(e: AST, pos: nat) -> Seq<Instruction> {
    let c = gen(e, pos + 1);
    seq![Instruction::Split((pos + 1) as usize, (pos + 1 + c.len()) as usize)] + c
}

spec fn plus_code(e: AST, pos: nat) -> Seq<Instruction> {
    let c = gen(e, pos);
    c + seq![Instruction::Split(pos as usize, (pos + c.len() + 1) as usize)]
}

spec fn star_code(e: AST, pos: nat) -> Seq<Instruction> {
    let c = gen(e, pos + 1);
    seq![Instruction::Split((pos + 1) as usize, (pos + 2 + c.len()) as usize)] + c
        + seq![Instruction::Jump(pos as usize)]
}

/// The code generator: an address counter and the instructions emitted so
/// far. The counter always equals the number of emitted instructions.
#[derive(Debug)]
struct Generator {
    pc: usize,
    insts: Vec<Instruction>,
}

impl Generator {
    spec fn wf(self) -> bool {
        self.pc == self.insts.len()
    }
}

/// The contract every generation rule meets: on success exactly the code
/// `gen` gives for the handled node is appended and the counter advances
/// over it; the only failure is address-space overflow.
spec fn gen_post(pre: Generator, post: Generator, r: Result<(), Box<CodeGenError>>, a: AST) -> bool {
    match r {
        Ok(_) => ({
            &&& post.wf()
            &&& pre.pc + code_len(a) <= usize::MAX
            &&& post.pc == pre.pc + code_len(a)
            &&& post.insts@ == pre.insts@ + gen(a, pre.pc as nat)
        }),
        Err(e) => *e == CodeGenError::PCOverFlow && pre.pc + code_len(a) > usize::MAX,
    }
}

impl Generator {
    /// Entry of code generation: the expression's code, then the final
    /// `Match`.
    fn gen_code(&mut self, ast: &AST) -> (r: Result<(), Box<CodeGenError>>)
        requires
            old(self).wf(),
            old(self).pc == 0,
            old(self).insts@.len() == 0,
        ensures
            match r {
                Ok(_) => ({
                    &&& code_len(*ast) + 1 <= usize::MAX
                    &&& final(self).insts@ == gen(*ast, 0).push(Instruction::Match)
                }),
                Err(e) => *e == CodeGenError::PCOverFlow && code_len(*ast) + 1 > usize::MAX,
            },
    {
        if let Err(e) = self.gen_expr(ast) {
            return Err(e);
        }
        if let Err(e) = self.inc_pc() {
            return Err(e);
        }
        self.insts.push(Instruction::Match);
        proof {
            assert(self.insts@ =~= gen(*ast, 0).push(Instruction::Match));
        }
        Ok(())
    }

    /// Dispatches on the node kind.
    fn gen_expr(&mut self, ast: &AST) -> (r: Result<(), Box<CodeGenError>>)
        requires
            old(self).wf(),
        ensures
            gen_post(*old(self), *final(self), r, *ast),
        decreases ast_size(*ast), 1int,
    {
        let ghost pos = self.pc as nat;
        match ast {
            AST::Char(c) => self.gen_char(*c),
            AST::Dot => self.gen_dot(),
            AST::Or(e1, e2) => {
                let r = self.gen_or(&**e1, &**e2);
                proof {
                    assert(gen(*ast, pos) == or_code(**e1, **e2, pos));
                }
                r
            },
            AST::Plus(e) => {
                let r = self.gen_plus(&**e);
                proof {
                    assert(gen(*ast, pos) == plus_code(**e, pos));
                }
                r
            },
            AST::Star(e) => {
                let r = self.gen_star(&**e);
                proof {
                    assert(gen(*ast, pos) == star_code(**e, pos));
                }
                r
            },
            AST::Question(e) => {
                let r = self.gen_question(&**e);
                proof {
                    assert(gen(*ast, pos) == question_code(**e, pos));
                }
                r
            },
            AST::Sequence(v) => {
                let r = self.gen_seq(v);
                proof {
                    assert(gen(*ast, pos) == gen_seq_code(*v, v.len() as int, pos));
                }
                r
            },
        }
    }

    /// Emits the consume-one-character instruction for a literal.
    fn gen_char(&mut self, c: char) -> (r: Result<(), Box<CodeGenError>>)
        requires
            old(self).wf(),
        ensures
            gen_post(*old(self), *final(self), r, AST::Char(c)),
    {
        let inst = Instruction::Char(c);
        self.insts.push(inst);
        if let Err(e) = self.inc_pc() {
            return Err(e);
        }
        proof {
            assert(self.insts@ =~= old(self).insts@ + gen(AST::Char(c), old(self).pc as nat));
        }
        Ok(())
    }

    /// Emits the consume-any-character instruction for the wildcard.
    fn gen_dot(&mut self) -> (r: Result<(), Box<CodeGenError>>)
        requires
            old(self).wf(),
        ensures
            gen_post(*old(self), *final(self), r, AST::Dot),
    {
        let inst = Instruction::Dot;
        self.insts.push(inst);
        if let Err(e) = self.inc_pc() {
            return Err(e);
        }
        proof {
            assert(self.insts@ =~= old(self).insts@ + gen(AST::Dot, old(self).pc as nat));
        }
        Ok(())
    }

    /// Alternation:
    ///
    /// ```text
    ///     split L1, L2
    /// L1: code of e1
    ///     jmp L3
    /// L2: code of e2
    /// L3:
    /// ```
    fn gen_or(&mut self, e1: &AST, e2: &AST) -> (r: Result<(), Box<CodeGenError>>)
        requires
            old(self).wf(),
        ensures
            match r {
                Ok(_) => ({
                    &&& final(self).wf()
                    &&& old(self).pc + 2 + code_len(*e1) + code_len(*e2) <= usize::MAX
                    &&& final(self).pc == old(self).pc + 2 + code_len(*e1) + code_len(*e2)
                    &&& final(self).insts@ == old(self).insts@
                        + or_code(*e1, *e2, old(self).pc as nat)
                }),
                Err(e) => *e == CodeGenError::PCOverFlow
                    && old(self).pc + 2 + code_len(*e1) + code_len(*e2) > usize::MAX,
            },
        decreases ast_size(*e1) + ast_size(*e2), 2int,
    {
        let ghost pre = *self;
        let ghost pos = self.pc as nat;
        proof {
            lemma_ast_size_pos(*e1);
            lemma_ast_size_pos(*e2);
            lemma_gen_len(*e1, pos + 1);
            lemma_gen_len(*e2, pos + 2 + code_len(*e1));
        }

        // split L1, L2 (L2 is patched once it is known)
        let split_addr = self.pc;
        if let Err(e) = self.inc_pc() {
            return Err(e);
        }
        let split = Instruction::Split(self.pc, 0);
        self.insts.push(split);

        // L1: code of e1
        if let Err(e) = self.gen_expr(e1) {
            return Err(e);
        }

        // jmp L3 (L3 is patched once it is known)
        let jmp_addr = self.pc;
        self.insts.push(Instruction::Jump(0));
        if let Err(e) = self.inc_pc() {
            return Err(e);
        }

        // set L2
        if split_addr >= self.insts.len() {
            return Err(Box::new(CodeGenError::FailOr));
        }
        let l1 = match self.insts[split_addr] {
            Instruction::Split(l1, _) => l1,
            _ => {
                return Err(Box::new(CodeGenError::FailOr));
            },
        };
        self.insts[split_addr] = Instruction::Split(l1, self.pc);

        // L2: code of e2
        if let Err(e) = self.gen_expr(e2) {
            return Err(e);
        }

        // set L3
        if jmp_addr >= self.insts.len() {
            return Err(Box::new(CodeGenError::FailOr));
        }
        match self.insts[jmp_addr] {
            Instruction::Jump(_) => {
                self.insts[jmp_addr] = Instruction::Jump(self.pc);
            },
            _ => {
                return Err(Box::new(CodeGenError::FailOr));
            },
        }
        proof {
            assert(self.insts@ =~= pre.insts@ + or_code(*e1, *e2, pos));
        }
        Ok(())
    }

    /// The `?` quantifier; taking the expression is preferred over skipping
    /// it, which makes the quantifier greedy:
    ///
    /// ```text
    ///     split L1, L2
    /// L1: code of e
    /// L2:
    /// ```
    fn gen_question(&mut self, e: &AST) -> (r: Result<(), Box<CodeGenError>>)
        requires
            old(self).wf(),
        ensures
            match r {
                Ok(_) => ({
                    &&& final(self).wf()
                    &&& old(self).pc + 1 + code_len(*e) <= usize::MAX
                    &&& final(self).pc == old(self).pc + 1 + code_len(*e)
                    &&& final(self).insts@ == old(self).insts@
                        + question_code(*e, old(self).pc as nat)
                }),
                Err(err) => *err == CodeGenError::PCOverFlow
                    && old(self).pc + 1 + code_len(*e) > usize::MAX,
            },
        decreases ast_size(*e), 2int,
    {
        let ghost pre = *self;
        let ghost pos = self.pc as nat;
        proof {
            lemma_gen_len(*e, pos + 1);
        }

        // split L1, L2 (L2 is patched once it is known)
        let split_addr = self.pc;
        if let Err(err) = self.inc_pc() {
            return Err(err);
        }
        let split = Instruction::Split(self.pc, 0);
        self.insts.push(split);

        // L1: code of e
        if let Err(err) = self.gen_expr(e) {
            return Err(err);
        }

        // set L2
        if split_addr >= self.insts.len() {
            return Err(Box::new(CodeGenError::FailQuestion));
        }
        let l1 = match self.insts[split_addr] {
            Instruction::Split(l1, _) => l1,
            _ => {
                return Err(Box::new(CodeGenError::FailQuestion));
            },
        };
        self.insts[split_addr] = Instruction::Split(l1, self.pc);
        proof {
            assert(self.insts@ =~= pre.insts@ + question_code(*e, pos));
        }
        Ok(())
    }

    /// The `+` quantifier; looping back is preferred over leaving, which
    /// makes the quantifier greedy:
    ///
    /// ```text
    /// L1: code of e
    ///     split L1, L2
    /// L2:
    /// ```
    fn gen_plus(&mut self, e: &AST) -> (r: Result<(), Box<CodeGenError>>)
        requires
            old(self).wf(),
        ensures
            match r {
                Ok(_) => ({
                    &&& final(self).wf()
                    &&& old(self).pc + 1 + code_len(*e) <= usize::MAX
                    &&& final(self).pc == old(self).pc + 1 + code_len(*e)
                    &&& final(self).insts@ == old(self).insts@ + plus_code(*e, old(self).pc as nat)
                }),
                Err(err) => *err == CodeGenError::PCOverFlow
                    && old(self).pc + 1 + code_len(*e) > usize::MAX,
            },
        decreases ast_size(*e), 2int,
    {
        let ghost pre = *self;
        let ghost pos = self.pc as nat;
        proof {
            lemma_gen_len(*e, pos);
        }

        // L1: code of e
        let l1_addr = self.pc;
        if let Err(err) = self.gen_expr(e) {
            return Err(err);
        }

        // split L1, L2 (L2 is patched once it is known)
        let split_addr = self.pc;
        if let Err(err) = self.inc_pc() {
            return Err(err);
        }
        let split = Instruction::Split(l1_addr, 0);
        self.insts.push(split);

        // set L2
        if split_addr >= self.insts.len() {
            return Err(Box::new(CodeGenError::FailPlus));
        }
        let l1 = match self.insts[split_addr] {
            Instruction::Split(l1, _) => l1,
            _ => {
                return Err(Box::new(CodeGenError::FailPlus));
            },
        };
        self.insts[split_addr] = Instruction::Split(l1, self.pc);
        proof {
            assert(self.insts@ =~= pre.insts@ + plus_code(*e, pos));
        }
        Ok(())
    }

    /// The `*` quantifier; entering the body is preferred over leaving,
    /// which makes the quantifier greedy:
    ///
    /// ```text
    /// L1: split L2, L3
    /// L2: code of e
    ///     jump L1
    /// L3:
    /// ```
    fn gen_star(&mut self, e: &AST) -> (r: Result<(), Box<CodeGenError>>)
        requires
            old(self).wf(),
        ensures
            match r {
                Ok(_) => ({
                    &&& final(self).wf()
                    &&& old(self).pc + 2 + code_len(*e) <= usize::MAX
                    &&& final(self).pc == old(self).pc + 2 + code_len(*e)
                    &&& final(self).insts@ == old(self).insts@ + star_code(*e, old(self).pc as nat)
                }),
                Err(err) => *err == CodeGenError::PCOverFlow
                    && old(self).pc + 2 + code_len(*e) > usize::MAX,
            },
        decreases ast_size(*e), 2int,
    {
        let ghost pre = *self;
        let ghost pos = self.pc as nat;
        proof {
            lemma_gen_len(*e, pos + 1);
        }

        // L1: split L2, L3 (L3 is patched once it is known)
        let l1_addr = self.pc;
        if let Err(err) = self.inc_pc() {
            return Err(err);
        }
        let split = Instruction::Split(self.pc, 0);
        self.insts.push(split);

        // L2: code of e
        if let Err(err) = self.gen_expr(e) {
            return Err(err);
        }

        // jump L1
        self.insts.push(Instruction::Jump(l1_addr));
        if let Err(err) = self.inc_pc() {
            return Err(err);
        }

        // set L3
        if l1_addr >= self.insts.len() {
            return Err(Box::new(CodeGenError::FailStar));
        }
        let l2 = match self.insts[l1_addr] {
            Instruction::Split(l2, _) => l2,
            _ => {
                return Err(Box::new(CodeGenError::FailStar));
            },
        };
        self.insts[l1_addr] = Instruction::Split(l2, self.pc);
        proof {
            assert(self.insts@ =~= pre.insts@ + star_code(*e, pos));
        }
        Ok(())
    }

    /// Concatenation: the children's code laid out in order, nothing more.
    fn gen_seq(&mut self, exprs: &Vec<AST>) -> (r: Result<(), Box<CodeGenError>>)
        requires
            old(self).wf(),
        ensures
            match r {
                Ok(_) => ({
                    &&& final(self).wf()
                    &&& old(self).pc + seq_code_len(*exprs, exprs.len() as int) <= usize::MAX
                    &&& final(self).pc == old(self).pc + seq_code_len(*exprs, exprs.len() as int)
                    &&& final(self).insts@ == old(self).insts@
                        + gen_seq_code(*exprs, exprs.len() as int, old(self).pc as nat)
                }),
                Err(e) => *e == CodeGenError::PCOverFlow
                    && old(self).pc + seq_code_len(*exprs, exprs.len() as int) > usize::MAX,
            },
        decreases seq_ast_size(*exprs, exprs.len() as int), 2int,
    {
        let ghost pre = *self;
        let ghost pos = self.pc as nat;
        let n = exprs.len();
        let mut i: usize = 0;
        while i < n
            invariant
                pre == *old(self),
                pre.wf(),
                self.wf(),
                n == exprs.len(),
                i <= n,
                pos == pre.pc as nat,
                self.pc == pos + seq_code_len(*exprs, i as int),
                self.insts@ == pre.insts@ + gen_seq_code(*exprs, i as int, pos),
            decreases n - i,
        {
            proof {
                lemma_elem_size_le(*exprs, i as int, n as int);
                lemma_seq_code_len_mono(*exprs, i as int + 1, n as int);
            }
            if let Err(e) = self.gen_expr(&exprs[i]) {
                return Err(e);
            }
            proof {
                assert(self.insts@ =~= pre.insts@ + gen_seq_code(*exprs, i as int + 1, pos));
            }
            i = i + 1;
        }
        Ok(())
    }

    /// Advances the address counter; fails when it would leave the native
    /// range.
    fn inc_pc(&mut self) -> (r: Result<(), Box<CodeGenError>>)
        ensures
            match r {
                Ok(_) => ({
                    &&& old(self).pc + 1 <= usize::MAX
                    &&& final(self).pc == old(self).pc + 1
                    &&& final(self).insts == old(self).insts
                }),
                Err(e) => ({
                    &&& *e == CodeGenError::PCOverFlow
                    &&& old(self).pc == usize::MAX
                    &&& *final(self) == *old(self)
                }),
            },
    {
        safe_add(
            &mut self.pc,
            &1,
            (|| -> (e: Box<CodeGenError>)
                ensures
                    *e == CodeGenError::PCOverFlow,
                { Box::new(CodeGenError::PCOverFlow) }),
        )
    }
}

/// Compiles an expression tree to bytecode. On success the program is
/// exactly the code of `gen` followed by one final `Match`, and it is well
/// formed; the only failure is exhaustion of the native address space, and
/// no partial program escapes.
pub fn get_code(ast: &AST) -> (r: Result<Vec<Instruction>, Box<CodeGenError>>)
    ensures
        match r {
            Ok(code) => ({
                &&& code_len(*ast) + 1 <= usize::MAX
                &&& code@ == gen(*ast, 0).push(Instruction::Match)
                &&& code@.len() == code_len(*ast) + 1
                &&& well_formed(code@)
            }),
            Err(e) => *e == CodeGenError::PCOverFlow && code_len(*ast) + 1 > usize::MAX,
        },
{
    let mut generator = Generator { pc: 0, insts: Vec::new() };
    if let Err(e) = generator.gen_code(ast) {
        return Err(e);
    }
    proof {
        lemma_gen_len(*ast, 0);
        lemma_gen_targets(*ast, 0);
        let code = generator.insts@;
        let body = gen(*ast, 0);
        assert forall|i: int| 0 <= i < code.len() implies (match #[trigger] code[i] {
            Instruction::Jump(t) => t < code.len(),
            Instruction::Split(a, b) => a < code.len() && b < code.len(),
            _ => true,
        }) by {
            if i < body.len() {
                assert(code[i] == body[i]);
                assert(target_ok(body[i], 0, code_len(*ast)));
            } else {
                assert(code[i] == Instruction::Match);
            }
        }
        assert(well_formed(generator.insts@));
    }
    Ok(generator.insts)
}

} // verus!
