use vstd::prelude::*;
use crate::error::BfError;
use crate::text::int_text;
use crate::token::{deep_seq, Tok, Token};

verus! {

/// One include line of the generated translation unit.
pub struct Import {
    pub name: String,
}

/// A literal value in generated code.
pub enum Value {
    Str(String),
    Int(i32),
    Bool(bool),
}

/// An index expression: a literal or a variable.
pub enum Index {
    Int(i32),
    VarRef(String),
}

/// An array element selected by an index expression.
pub struct ListIndex {
    pub name: String,
    pub index: Index,
}

/// A reference to something assignable or readable: an array element, a
/// plain variable, or a literal.
pub enum ObjectRef {
    ListIndex(ListIndex),
    VarRef(String),
    Value(Value),
}

/// A loop guard.
pub enum Condition {
    NotEq(ObjectRef, ObjectRef),
    Eq(ObjectRef, ObjectRef),
}

/// One generated statement; a `While` owns its nested scope, so statements
/// form a strict tree.
pub enum Line {
    VarDef { name: String, var_type: String, value: Value },
    ArrDef { name: String, var_type: String, len: i32 },
    VarInc { name: ObjectRef, by: i32 },
    VarSet { name: ObjectRef, to: Value },
    FuncCall { name: String, params: Vec<ObjectRef> },
    While { condition: Condition, scope: Scope },
}

/// The ordered statements of one scope.
pub struct Code {
    pub lines: Vec<Line>,
}

/// A brace-delimited scope, rendered one indentation level deeper than its
/// surroundings.
pub struct Scope {
    pub code: Code,
}

/// One generated function: a name, a return type, and its body.
pub struct Function {
    pub name: String,
    pub return_type: String,
    pub scope: Scope,
}

/// A whole translation unit: include lines, then functions.
pub struct CodeGen {
    pub imports: Vec<Import>,
    pub functions: Vec<Function>,
}

/// The text of a literal value.
pub open spec fn emit_value(v: Value) -> Seq<char> {
    match v {
        Value::Str(s) => "\""@ + s@ + "\""@,
        Value::Int(i) => int_text(i as int),
        Value::Bool(b) => if b {
            "true"@
        } else {
            "false"@
        },
    }
}

/// The text of an index expression.
pub open spec fn emit_index(ix: Index) -> Seq<char> {
    match ix {
        Index::Int(i) => int_text(i as int),
        Index::VarRef(s) => s@,
    }
}

/// The text of an object reference.
pub open spec fn emit_objref(o: ObjectRef) -> Seq<char> {
    match o {
        ObjectRef::VarRef(s) => s@,
        ObjectRef::ListIndex(li) => li.name@ + "["@ + emit_index(li.index) + "]"@,
        ObjectRef::Value(v) => emit_value(v),
    }
}

/// The text of a loop guard.
pub open spec fn emit_cond(c: Condition) -> Seq<char> {
    match c {
        Condition::Eq(a, b) => emit_objref(a) + " == "@ + emit_objref(b),
        Condition::NotEq(a, b) => emit_objref(a) + " != "@ + emit_objref(b),
    }
}

/// The text of a call's arguments, separated by comma and space.
pub open spec fn emit_params(ps: Seq<ObjectRef>) -> Seq<char>
    decreases ps.len(),
{
    if ps.len() == 0 {
        Seq::empty()
    } else if ps.len() == 1 {
        emit_objref(ps[0])
    } else {
        emit_params(ps.drop_last()) + ", "@ + emit_objref(ps.last())
    }
}

/// Indentation: every line break gains one tab after it.
pub open spec fn indent_nl(s: Seq<char>) -> Seq<char>
    decreases s.len(),
{
    if s.len() == 0 {
        Seq::empty()
    } else {
        indent_nl(s.drop_last()) + (if s.last() == '\n' {
            seq!['\n', '\t']
        } else {
            seq![s.last()]
        })
    }
}

/// The text of one statement.
pub open spec fn emit_line(l: Line) -> Seq<char>
    decreases l, 0int,
{
    match l {
        Line::VarDef { name, var_type, value } => var_type@ + " "@ + name@ + " = "@ + emit_value(
            value,
        ) + ";"@,
        Line::ArrDef { name, var_type, len } => var_type@ + " "@ + name@ + "["@ + int_text(
            len as int,
        ) + "];"@,
        Line::VarInc { name, by } => emit_objref(name) + " += "@ + int_text(by as int) + ";"@,
        Line::VarSet { name, to } => emit_objref(name) + " = "@ + emit_value(to) + ";"@,
        Line::FuncCall { name, params } => name@ + "("@ + emit_params(params@) + ");"@,
        Line::While { condition, scope } => "while ("@ + emit_cond(condition) + ") {\n"@
            + emit_scope(scope) + "\n}"@,
    }
}

/// The text of a statement list, one statement per line.
pub open spec fn emit_lines(ls: Seq<Line>) -> Seq<char>
    decreases ls, 1int,
{
    if ls.len() == 0 {
        Seq::empty()
    } else if ls.len() == 1 {
        emit_line(ls[0])
    } else {
        emit_lines(ls.drop_last()) + "\n"@ + emit_line(ls.last())
    }
}

/// The text of a scope's statements.
pub open spec fn emit_code(c: Code) -> Seq<char>
    decreases c, 2int,
{
    emit_lines(c.lines@)
}

/// The text of a scope: a leading tab, and a tab after every line break.
pub open spec fn emit_scope(sc: Scope) -> Seq<char>
    decreases sc, 3int,
{
    seq!['\t'] + indent_nl(emit_code(sc.code))
}

/// The text of one include line.
pub open spec fn emit_import(im: Import) -> Seq<char> {
    "#include <"@ + im.name@ + ">"@
}

/// The include lines, one per line.
pub open spec fn emit_imports(ims: Seq<Import>) -> Seq<char>
    decreases ims.len(),
{
    if ims.len() == 0 {
        Seq::empty()
    } else if ims.len() == 1 {
        emit_import(ims[0])
    } else {
        emit_imports(ims.drop_last()) + "\n"@ + emit_import(ims.last())
    }
}

/// The text of one function.
pub open spec fn emit_function(f: Function) -> Seq<char> {
    f.return_type@ + " "@ + f.name@ + "() {\n"@ + emit_scope(f.scope) + "\n}"@
}

/// The functions, one per line.
pub open spec fn emit_functions(fs: Seq<Function>) -> Seq<char>
    decreases fs.len(),
{
    if fs.len() == 0 {
        Seq::empty()
    } else if fs.len() == 1 {
        emit_function(fs[0])
    } else {
        emit_functions(fs.drop_last()) + "\n"@ + emit_function(fs.last())
    }
}

/// The text of the whole translation unit: includes, a line break, then the
/// functions.
pub open spec fn emit_codegen(cg: CodeGen) -> Seq<char> {
    emit_imports(cg.imports@) + "\n"@ + emit_functions(cg.functions@)
}

/// Whether a token holds console input anywhere inside it; translation has
/// no lowering for input and must refuse such a program.
pub open spec fn tok_has_input(t: Tok) -> bool
    decreases t, 0int,
{
    match t {
        Tok::Input => true,
        Tok::Loop(body) => seq_has_input(body),
        _ => false,
    }
}

/// Whether a token sequence holds console input anywhere inside it.
pub open spec fn seq_has_input(s: Seq<Tok>) -> bool
    decreases s, 1int,
{
    if s.len() == 0 {
        false
    } else {
        tok_has_input(s[0]) || seq_has_input(s.drop_first())
    }
}

/// The array element the generated program is always working on:
/// `memory[memPointer]`.
pub open spec fn is_mem_cell(o: ObjectRef) -> bool {
    match o {
        ObjectRef::ListIndex(li) => li.name@ == "memory"@ && match li.index {
            Index::VarRef(p) => p@ == "memPointer"@,
            _ => false,
        },
        _ => false,
    }
}

/// The statement a single token lowers to, per the translation table: a cell
/// increment, a cell assignment, a pointer increment, an output call, or a
/// while over the translated body.
pub open spec fn line_matches(t: Tok, l: Line) -> bool
    decreases t, 0int,
{
    match t {
        Tok::ChangeMem(n) => match l {
            Line::VarInc { name, by } => is_mem_cell(name) && by == n,
            _ => false,
        },
        Tok::SetMemTo(n) => match l {
            Line::VarSet { name, to } => is_mem_cell(name) && to == Value::Int(n),
            _ => false,
        },
        Tok::MovePointer(n) => match l {
            Line::VarInc { name, by } => by == n && match name {
                ObjectRef::VarRef(p) => p@ == "memPointer"@,
                _ => false,
            },
            _ => false,
        },
        Tok::Print => match l {
            Line::FuncCall { name, params } => name@ == "putchar"@ && params@.len() == 1
                && is_mem_cell(params@[0]),
            _ => false,
        },
        Tok::Loop(body) => match l {
            Line::While { condition, scope } => match condition {
                Condition::NotEq(a, z) => is_mem_cell(a) && z == ObjectRef::Value(Value::Int(0))
                    && lines_match(body, scope.code.lines@),
                _ => false,
            },
            _ => false,
        },
        _ => false,
    }
}

/// The statement list a token sequence lowers to: one statement per token,
/// in order, except that `NoOp` yields none.
pub open spec fn lines_match(toks: Seq<Tok>, lines: Seq<Line>) -> bool
    decreases toks, 1int,
{
    if toks.len() == 0 {
        lines.len() == 0
    } else if toks[0] is NoOp {
        lines_match(toks.drop_first(), lines)
    } else {
        &&& lines.len() > 0
        &&& line_matches(toks[0], lines[0])
        &&& lines_match(toks.drop_first(), lines.drop_first())
    }
}

/// The whole translation unit built for a program: one include of the I/O
/// header, one `main` returning `int`, whose body declares the tape and the
/// pointer and then lowers every token in order.
pub open spec fn cg_shape(cg: CodeGen, toks: Seq<Tok>) -> bool {
    &&& cg.imports@.len() == 1
    &&& cg.imports@[0].name@ == "stdio.h"@
    &&& cg.functions@.len() == 1
    &&& cg.functions@[0].name@ == "main"@
    &&& cg.functions@[0].return_type@ == "int"@
    &&& ({
        let lines = cg.functions@[0].scope.code.lines@;
        &&& lines.len() >= 2
        &&& match lines[0] {
            Line::ArrDef { name, var_type, len } => name@ == "memory"@ && var_type@ == "int"@
                && len == crate::interp::TAPE_LEN as i32,
            _ => false,
        }
        &&& match lines[1] {
            Line::VarDef { name, var_type, value } => name@ == "memPointer"@ && var_type@ == "int"@
                && value == Value::Int(0i32),
            _ => false,
        }
        &&& lines_match(toks, lines.skip(2))
    })
}

/// `memory[memPointer]`, as an object reference.
fn mem_cell() -> (o: ObjectRef)
    ensures
        is_mem_cell(o),
{
    ObjectRef::ListIndex(
        ListIndex { name: "memory".to_owned(), index: Index::VarRef("memPointer".to_owned()) },
    )
}

/// A matched pair extends a matching: appending a non-`NoOp` token and its
/// statement keeps the lists matching.
proof fn lemma_lines_match_snoc(toks: Seq<Tok>, lines: Seq<Line>, t: Tok, l: Line)
    requires
        lines_match(toks, lines),
        line_matches(t, l),
        !(t is NoOp),
    ensures
        lines_match(toks.push(t), lines.push(l)),
    decreases toks.len(),
{
    if toks.len() == 0 {
        assert(toks.push(t).drop_first() =~= toks);
        assert(lines.push(l).drop_first() =~= lines);
    } else {
        assert(toks.push(t).drop_first() =~= toks.drop_first().push(t));
        if toks[0] is NoOp {
            lemma_lines_match_snoc(toks.drop_first(), lines, t, l);
        } else {
            lemma_lines_match_snoc(toks.drop_first(), lines.drop_first(), t, l);
            assert(lines.push(l).drop_first() =~= lines.drop_first().push(l));
        }
    }
}

/// Appending a `NoOp` token adds no statement and keeps the lists matching.
proof fn lemma_lines_match_snoc_noop(toks: Seq<Tok>, lines: Seq<Line>, t: Tok)
    requires
        lines_match(toks, lines),
        t is NoOp,
    ensures
        lines_match(toks.push(t), lines),
    decreases toks.len(),
{
    if toks.len() == 0 {
        assert(toks.push(t).drop_first() =~= toks);
    } else {
        assert(toks.push(t).drop_first() =~= toks.drop_first().push(t));
        if toks[0] is NoOp {
            lemma_lines_match_snoc_noop(toks.drop_first(), lines, t);
        } else {
            lemma_lines_match_snoc_noop(toks.drop_first(), lines.drop_first(), t);
        }
    }
}

/// Appending one token: the sequence holds input exactly when one side does.
proof fn lemma_has_input_snoc(s: Seq<Tok>, t: Tok)
    ensures
        seq_has_input(s.push(t)) == (seq_has_input(s) || tok_has_input(t)),
    decreases s.len(),
{
    if s.len() == 0 {
        assert(s.push(t).drop_first() =~= s);
    } else {
        lemma_has_input_snoc(s.drop_first(), t);
        assert(s.push(t).drop_first() =~= s.drop_first().push(t));
    }
}

/// A sequence holds input as soon as any one of its tokens does.
proof fn lemma_has_input_at(s: Seq<Tok>, i: int)
    requires
        0 <= i < s.len(),
        tok_has_input(s[i]),
    ensures
        seq_has_input(s),
    decreases i,
{
    if i > 0 {
        lemma_has_input_at(s.drop_first(), i - 1);
    }
}

/// Lowers every token of `input` into `scope`, one statement per token in
/// the translation table, recursing into loop bodies; reports failure at the
/// first `Input` token, which has no translation.
#[verifier::rlimit(100)]
#[verifier::loop_isolation(false)]
fn brainfuck_codegen_rec(input: &Vec<Token>, scope: &mut Scope) -> (ok: bool)
    ensures
        ok == !seq_has_input(deep_seq(input@)),
        ok ==> final(scope).code.lines@.len() >= old(scope).code.lines@.len(),
        ok ==> final(scope).code.lines@.take(old(scope).code.lines@.len() as int) == old(
            scope,
        ).code.lines@,
        ok ==> lines_match(
            deep_seq(input@),
            final(scope).code.lines@.skip(old(scope).code.lines@.len() as int),
        ),
    decreases crate::token::seq_height(deep_seq(input@)),
{
    let ghost toks: Seq<Tok> = deep_seq(input@);
    let ghost lines0: Seq<Line> = scope.code.lines@;
    let ghost b: int = lines0.len() as int;
    let n = input.len();
    let mut i: usize = 0;
    proof {
        crate::token::lemma_deep_seq_len(input@);
        assert(toks.take(0) =~= Seq::<Tok>::empty());
        assert(scope.code.lines@.take(b) =~= lines0);
        assert(scope.code.lines@.skip(b) =~= Seq::<Line>::empty());
    }
    while i < n
        invariant
            i <= n,
            scope.code.lines@.len() >= b,
            scope.code.lines@.take(b) == lines0,
            !seq_has_input(toks.take(i as int)),
            lines_match(toks.take(i as int), scope.code.lines@.skip(b)),
        decreases n - i,
    {
        let ghost added: Seq<Line> = scope.code.lines@.skip(b);
        let ghost t: Tok = toks[i as int];
        proof {
            assert(toks.take(i + 1) =~= toks.take(i as int).push(t));
        }
        match &input[i] {
            Token::ChangeMem(by) => {
                let l = Line::new_varinc(mem_cell(), *by);
                scope.add_line(l);
                proof {
                    assert(scope.code.lines@.take(b) =~= lines0);
                    assert(scope.code.lines@.skip(b) =~= added.push(l));
                    lemma_lines_match_snoc(toks.take(i as int), added, t, l);
                    lemma_has_input_snoc(toks.take(i as int), t);
                }
            },
            Token::SetMemTo(to) => {
                let l = Line::VarSet { name: mem_cell(), to: Value::Int(*to) };
                scope.add_line(l);
                proof {
                    assert(scope.code.lines@.take(b) =~= lines0);
                    assert(scope.code.lines@.skip(b) =~= added.push(l));
                    lemma_lines_match_snoc(toks.take(i as int), added, t, l);
                    lemma_has_input_snoc(toks.take(i as int), t);
                }
            },
            Token::MovePointer(by) => {
                let l = Line::new_varinc(ObjectRef::VarRef("memPointer".to_owned()), *by);
                scope.add_line(l);
                proof {
                    assert(scope.code.lines@.take(b) =~= lines0);
                    assert(scope.code.lines@.skip(b) =~= added.push(l));
                    lemma_lines_match_snoc(toks.take(i as int), added, t, l);
                    lemma_has_input_snoc(toks.take(i as int), t);
                }
            },
            Token::Print => {
                let mut params: Vec<ObjectRef> = Vec::new();
                params.push(mem_cell());
                let l = Line::new_funccall("putchar", params);
                scope.add_line(l);
                proof {
                    assert(scope.code.lines@.take(b) =~= lines0);
                    assert(scope.code.lines@.skip(b) =~= added.push(l));
                    lemma_lines_match_snoc(toks.take(i as int), added, t, l);
                    lemma_has_input_snoc(toks.take(i as int), t);
                }
            },
            Token::Loop(body) => {
                proof {
                    crate::token::lemma_seq_height_elem(toks, i as int);
                    assert(t == Tok::Loop(deep_seq(body@)));
                    assert(crate::token::seq_height(deep_seq(body@)) < crate::token::tok_height(t));
                }
                let mut nscope = Scope::new();
                let okb = brainfuck_codegen_rec(body, &mut nscope);
                if !okb {
                    proof {
                        lemma_has_input_at(toks, i as int);
                    }
                    return false;
                }
                let l = Line::While {
                    condition: Condition::NotEq(mem_cell(), ObjectRef::Value(Value::Int(0))),
                    scope: nscope,
                };
                scope.add_line(l);
                proof {
                    assert(l->While_scope.code.lines@.skip(0) =~= l->While_scope.code.lines@);
                    assert(line_matches(t, l));
                    assert(scope.code.lines@.take(b) =~= lines0);
                    assert(scope.code.lines@.skip(b) =~= added.push(l));
                    lemma_lines_match_snoc(toks.take(i as int), added, t, l);
                    lemma_has_input_snoc(toks.take(i as int), t);
                }
            },
            Token::Input => {
                proof {
                    lemma_has_input_at(toks, i as int);
                }
                return false;
            },
            Token::NoOp => {
                proof {
                    lemma_lines_match_snoc_noop(toks.take(i as int), added, t);
                    lemma_has_input_snoc(toks.take(i as int), t);
                }
            },
        }
        i = i + 1;
    }
    proof {
        assert(toks.take(n as int) =~= toks);
    }
    true
}

/// Translates an optimized token tree into C source text: one include of the
/// I/O header, one `main` whose body declares the 30000-cell tape and the
/// pointer and then carries one statement per token. A program holding an
/// `Input` token is refused whole, since input has no translation.
#[verifier::loop_isolation(false)]
pub fn brainfuck_codegen(input: &Vec<Token>) -> (r: Result<String, BfError>)
    ensures
        r is Err <==> seq_has_input(deep_seq(input@)),
        r matches Err(e) ==> e == BfError::UnsupportedOperation,
        r matches Ok(s) ==> exists|cg: CodeGen|
            #[trigger] cg_shape(cg, deep_seq(input@)) && s@ == emit_codegen(cg),
{
    let mut codegen = CodeGen::new();
    codegen.add_import("stdio.h");
    let mut scope = Scope::new();
    scope.add_line(Line::new_arrdef("memory", "int", crate::interp::TAPE_LEN as i32));
    scope.add_line(Line::new_vardef("memPointer", "int", Value::Int(0)));
    let ghost prelude: Seq<Line> = scope.code.lines@;
    let ok = brainfuck_codegen_rec(input, &mut scope);
    if !ok {
        return Err(BfError::UnsupportedOperation);
    }
    let mut main_func = Function::new("main", "int");
    main_func.scope = scope;
    codegen.add_function(main_func);
    let text = codegen.render();
    proof {
        let lines = codegen.functions@[0].scope.code.lines@;
        assert(lines[0] == prelude[0]);
        assert(lines[1] == prelude[1]);
        assert(cg_shape(codegen, deep_seq(input@)));
    }
    Ok(text)
}

impl Import {
    pub fn new(name: &str) -> (im: Import)
        ensures
            im.name@ == name@,
    {
        Import { name: name.to_owned() }
    }

    fn render_into(&self, out: &mut Vec<char>)
        ensures
            final(out)@ == old(out)@ + emit_import(*self),
    {
        crate::text::push_str_chars(out, "#include <");
        crate::text::push_str_chars(out, self.name.as_str());
        crate::text::push_str_chars(out, ">");
    }
}

impl Value {
    fn render_into(&self, out: &mut Vec<char>)
        ensures
            final(out)@ == old(out)@ + emit_value(*self),
    {
        match self {
            Value::Str(s) => {
                crate::text::push_str_chars(out, "\"");
                crate::text::push_str_chars(out, s.as_str());
                crate::text::push_str_chars(out, "\"");
            },
            Value::Int(i) => {
                crate::text::push_i32(out, *i);
            },
            Value::Bool(b) => {
                if *b {
                    crate::text::push_str_chars(out, "true");
                } else {
                    crate::text::push_str_chars(out, "false");
                }
            },
        }
    }
}

impl Index {
    fn render_into(&self, out: &mut Vec<char>)
        ensures
            final(out)@ == old(out)@ + emit_index(*self),
    {
        match self {
            Index::Int(i) => crate::text::push_i32(out, *i),
            Index::VarRef(s) => crate::text::push_str_chars(out, s.as_str()),
        }
    }
}

impl ObjectRef {
    fn render_into(&self, out: &mut Vec<char>)
        ensures
            final(out)@ == old(out)@ + emit_objref(*self),
    {
        match self {
            ObjectRef::VarRef(s) => crate::text::push_str_chars(out, s.as_str()),
            ObjectRef::ListIndex(li) => {
                crate::text::push_str_chars(out, li.name.as_str());
                crate::text::push_str_chars(out, "[");
                li.index.render_into(out);
                crate::text::push_str_chars(out, "]");
            },
            ObjectRef::Value(v) => v.render_into(out),
        }
    }
}

impl Condition {
    fn render_into(&self, out: &mut Vec<char>)
        ensures
            final(out)@ == old(out)@ + emit_cond(*self),
    {
        match self {
            Condition::Eq(a, b) => {
                a.render_into(out);
                crate::text::push_str_chars(out, " == ");
                b.render_into(out);
            },
            Condition::NotEq(a, b) => {
                a.render_into(out);
                crate::text::push_str_chars(out, " != ");
                b.render_into(out);
            },
        }
    }
}

impl Line {
    pub fn new_vardef(name: &str, var_type: &str, value: Value) -> (l: Line)
        ensures
            l matches Line::VarDef { name: n, var_type: t, value: v } && n@ == name@ && t@
                == var_type@ && v == value,
    {
        Line::VarDef { name: name.to_owned(), var_type: var_type.to_owned(), value }
    }

    pub fn new_arrdef(name: &str, var_type: &str, len: i32) -> (l: Line)
        ensures
            l matches Line::ArrDef { name: n, var_type: t, len: k } && n@ == name@ && t@
                == var_type@ && k == len,
    {
        Line::ArrDef { name: name.to_owned(), var_type: var_type.to_owned(), len }
    }

    pub fn new_varinc(name: ObjectRef, by: i32) -> (l: Line)
        ensures
            l matches Line::VarInc { name: n, by: b } && n == name && b == by,
    {
        Line::VarInc { name, by }
    }

    pub fn new_funccall(name: &str, params: Vec<ObjectRef>) -> (l: Line)
        ensures
            l matches Line::FuncCall { name: n, params: p } && n@ == name@ && p == params,
    {
        Line::FuncCall { name: name.to_owned(), params }
    }

    #[verifier::loop_isolation(false)]
    fn render_into(&self, out: &mut Vec<char>)
        ensures
            final(out)@ == old(out)@ + emit_line(*self),
        decreases self, 0int,
    {
        match self {
            Line::VarDef { name, var_type, value } => {
                crate::text::push_str_chars(out, var_type.as_str());
                crate::text::push_str_chars(out, " ");
                crate::text::push_str_chars(out, name.as_str());
                crate::text::push_str_chars(out, " = ");
                value.render_into(out);
                crate::text::push_str_chars(out, ";");
            },
            Line::ArrDef { name, var_type, len } => {
                crate::text::push_str_chars(out, var_type.as_str());
                crate::text::push_str_chars(out, " ");
                crate::text::push_str_chars(out, name.as_str());
                crate::text::push_str_chars(out, "[");
                crate::text::push_i32(out, *len);
                crate::text::push_str_chars(out, "];");
            },
            Line::VarInc { name, by } => {
                name.render_into(out);
                crate::text::push_str_chars(out, " += ");
                crate::text::push_i32(out, *by);
                crate::text::push_str_chars(out, ";");
            },
            Line::VarSet { name, to } => {
                name.render_into(out);
                crate::text::push_str_chars(out, " = ");
                to.render_into(out);
                crate::text::push_str_chars(out, ";");
            },
            Line::FuncCall { name, params } => {
                crate::text::push_str_chars(out, name.as_str());
                crate::text::push_str_chars(out, "(");
                let ghost base: Seq<char> = out@;
                let n = params.len();
                let mut i: usize = 0;
                proof {
                    assert(params@.take(0) =~= Seq::<ObjectRef>::empty());
                }
                while i < n
                    invariant
                        i <= n,
                        out@ == base + emit_params(params@.take(i as int)),
                    decreases n - i,
                {
                    if i > 0 {
                        crate::text::push_str_chars(out, ", ");
                    }
                    params[i].render_into(out);
                    proof {
                        assert(params@.take(i + 1).drop_last() =~= params@.take(i as int));
                        assert(params@.take(i + 1).last() == params@[i as int]);
                    }
                    i = i + 1;
                }
                proof {
                    assert(params@.take(n as int) =~= params@);
                }
                crate::text::push_str_chars(out, ");");
            },
            Line::While { condition, scope } => {
                crate::text::push_str_chars(out, "while (");
                condition.render_into(out);
                crate::text::push_str_chars(out, ") {\n");
                scope.render_into(out);
                crate::text::push_str_chars(out, "\n}");
            },
        }
    }
}

impl Code {
    pub fn new() -> (c: Code)
        ensures
            c.lines@ == Seq::<Line>::empty(),
    {
        Code { lines: Vec::new() }
    }

    #[verifier::loop_isolation(false)]
    fn render_into(&self, out: &mut Vec<char>)
        ensures
            final(out)@ == old(out)@ + emit_code(*self),
        decreases self, 2int,
    {
        let ghost base: Seq<char> = out@;
        let n = self.lines.len();
        let mut i: usize = 0;
        proof {
            assert(self.lines@.take(0) =~= Seq::<Line>::empty());
        }
        while i < n
            invariant
                i <= n,
                out@ == base + emit_lines(self.lines@.take(i as int)),
            decreases n - i,
        {
            if i > 0 {
                crate::text::push_str_chars(out, "\n");
            }
            self.lines[i].render_into(out);
            proof {
                assert(self.lines@.take(i + 1).drop_last() =~= self.lines@.take(i as int));
                assert(self.lines@.take(i + 1).last() == self.lines@[i as int]);
            }
            i = i + 1;
        }
        proof {
            assert(self.lines@.take(n as int) =~= self.lines@);
        }
    }
}

impl Scope {
    pub fn new() -> (sc: Scope)
        ensures
            sc.code.lines@ == Seq::<Line>::empty(),
    {
        Scope { code: Code::new() }
    }

    pub fn add_line(&mut self, line: Line)
        ensures
            final(self).code.lines@ == old(self).code.lines@.push(line),
    {
        self.code.lines.push(line);
    }

    #[verifier::loop_isolation(false)]
    fn render_into(&self, out: &mut Vec<char>)
        ensures
            final(out)@ == old(out)@ + emit_scope(*self),
        decreases self, 3int,
    {
        let mut tmp: Vec<char> = Vec::new();
        self.code.render_into(&mut tmp);
        out.push('\t');
        let ghost base: Seq<char> = out@;
        let n = tmp.len();
        let mut i: usize = 0;
        proof {
            assert(indent_nl(tmp@.take(0)) =~= Seq::<char>::empty());
            assert(out@ =~= base + indent_nl(tmp@.take(0)));
        }
        while i < n
            invariant
                i <= n,
                out@ == base + indent_nl(tmp@.take(i as int)),
            decreases n - i,
        {
            let c = tmp[i];
            out.push(c);
            if c == '\n' {
                out.push('\t');
            }
            proof {
                assert(tmp@.take(i + 1).drop_last() =~= tmp@.take(i as int));
                assert(tmp@.take(i + 1).last() == tmp@[i as int]);
                assert(out@ =~= base + indent_nl(tmp@.take(i + 1)));
            }
            i = i + 1;
        }
        proof {
            assert(tmp@.take(n as int) =~= tmp@);
        }
    }
}

impl Function {
    pub fn new(name: &str, return_type: &str) -> (f: Function)
        ensures
            f.name@ == name@,
            f.return_type@ == return_type@,
            f.scope.code.lines@ == Seq::<Line>::empty(),
    {
        Function { name: name.to_owned(), return_type: return_type.to_owned(), scope: Scope::new() }
    }

    fn render_into(&self, out: &mut Vec<char>)
        ensures
            final(out)@ == old(out)@ + emit_function(*self),
    {
        crate::text::push_str_chars(out, self.return_type.as_str());
        crate::text::push_str_chars(out, " ");
        crate::text::push_str_chars(out, self.name.as_str());
        crate::text::push_str_chars(out, "() {\n");
        self.scope.render_into(out);
        crate::text::push_str_chars(out, "\n}");
    }
}

impl CodeGen {
    pub fn new() -> (cg: CodeGen)
        ensures
            cg.imports@ == Seq::<Import>::empty(),
            cg.functions@ == Seq::<Function>::empty(),
    {
        CodeGen { functions: Vec::new(), imports: Vec::new() }
    }

    pub fn add_function(&mut self, f: Function)
        ensures
            final(self).functions@ == old(self).functions@.push(f),
            final(self).imports@ == old(self).imports@,
    {
        self.functions.push(f);
    }

    pub fn add_import(&mut self, name: &str)
        ensures
            final(self).functions@ == old(self).functions@,
            final(self).imports@.len() == old(self).imports@.len() + 1,
            final(self).imports@.drop_last() == old(self).imports@,
            final(self).imports@.last().name@ == name@,
    {
        self.imports.push(Import::new(name));
        proof {
            assert(self.imports@.drop_last() =~= old(self).imports@);
        }
    }

    /// Renders the translation unit as one text.
    #[verifier::loop_isolation(false)]
    pub fn render(&self) -> (r: String)
        ensures
            r@ == emit_codegen(*self),
    {
        let mut out: Vec<char> = Vec::new();
        let ghost base: Seq<char> = out@;
        let ni = self.imports.len();
        let mut i: usize = 0;
        proof {
            assert(self.imports@.take(0) =~= Seq::<Import>::empty());
            assert(out@ =~= emit_imports(self.imports@.take(0)));
        }
        while i < ni
            invariant
                i <= ni,
                out@ == emit_imports(self.imports@.take(i as int)),
            decreases ni - i,
        {
            if i > 0 {
                crate::text::push_str_chars(&mut out, "\n");
            }
            self.imports[i].render_into(&mut out);
            proof {
                assert(self.imports@.take(i + 1).drop_last() =~= self.imports@.take(i as int));
                assert(self.imports@.take(i + 1).last() == self.imports@[i as int]);
            }
            i = i + 1;
        }
        proof {
            assert(self.imports@.take(ni as int) =~= self.imports@);
        }
        crate::text::push_str_chars(&mut out, "\n");
        let ghost mid: Seq<char> = out@;
        let nf = self.functions.len();
        let mut k: usize = 0;
        proof {
            assert(self.functions@.take(0) =~= Seq::<Function>::empty());
            assert(out@ =~= mid + emit_functions(self.functions@.take(0)));
        }
        while k < nf
            invariant
                k <= nf,
                out@ == mid + emit_functions(self.functions@.take(k as int)),
            decreases nf - k,
        {
            if k > 0 {
                crate::text::push_str_chars(&mut out, "\n");
            }
            self.functions[k].render_into(&mut out);
            proof {
                assert(self.functions@.take(k + 1).drop_last() =~= self.functions@.take(k as int));
                assert(self.functions@.take(k + 1).last() == self.functions@[k as int]);
            }
            k = k + 1;
        }
        proof {
            assert(self.functions@.take(nf as int) =~= self.functions@);
        }
        crate::text::chars_to_string(&out)
    }
}

} // verus!
