use vstd::prelude::*;
use vstd::string::StrSliceExecFns;
use crate::text::{string_push, string_push_str, decimal, decimal_u64};
use super::annotation::TypeAnnotation;
use super::def::{Definition, Def, DefKind, Par, TDef, Constr};
use super::expr::{Expr, ExprKind, Clause, Pattern, PatternKind, UnopKind, BinopKind};
use super::Program;

verus! {

/// A reference to a node of a syntax tree, of any kind.
#[derive(Clone, Copy)]
pub enum NodeRef<'a> {
    Program(&'a Program),
    Definition(&'a Definition),
    Def(&'a Def),
    TDef(&'a TDef),
    Constr(&'a Constr),
    Type(&'a TypeAnnotation),
    Par(&'a Par),
    Expr(&'a Expr),
    Clause(&'a Clause),
    Pattern(&'a Pattern),
}

/// References to the Definition items, in order.
pub open spec fn definition_nodes<'a>(xs: Seq<Definition>) -> Seq<NodeRef<'a>> {
    Seq::new(xs.len(), |i: int| NodeRef::Definition(&xs[i]))
}

/// Appends references to the items, in order.
fn push_definition_nodes<'a>(v: &mut Vec<NodeRef<'a>>, xs: &'a Vec<Definition>)
    ensures
        final(v)@ == old(v)@ + definition_nodes(xs@),
{
    let ghost start = v@;
    let mut i: usize = 0;
    while i < xs.len()
        invariant
            i <= xs.len(),
            v@ == start + definition_nodes(xs@).take(i as int),
        decreases xs.len() - i,
    {
        v.push(NodeRef::Definition(&xs[i]));
        i += 1;
        proof {
            assert(v@ =~= start + definition_nodes(xs@).take(i as int));
        }
    }
    proof {
        assert(definition_nodes(xs@).take(xs.len() as int) =~= definition_nodes(xs@));
    }
}

/// References to the Def items, in order.
pub open spec fn def_nodes<'a>(xs: Seq<Def>) -> Seq<NodeRef<'a>> {
    Seq::new(xs.len(), |i: int| NodeRef::Def(&xs[i]))
}

/// Appends references to the items, in order.
fn push_def_nodes<'a>(v: &mut Vec<NodeRef<'a>>, xs: &'a Vec<Def>)
    ensures
        final(v)@ == old(v)@ + def_nodes(xs@),
{
    let ghost start = v@;
    let mut i: usize = 0;
    while i < xs.len()
        invariant
            i <= xs.len(),
            v@ == start + def_nodes(xs@).take(i as int),
        decreases xs.len() - i,
    {
        v.push(NodeRef::Def(&xs[i]));
        i += 1;
        proof {
            assert(v@ =~= start + def_nodes(xs@).take(i as int));
        }
    }
    proof {
        assert(def_nodes(xs@).take(xs.len() as int) =~= def_nodes(xs@));
    }
}

/// References to the TDef items, in order.
pub open spec fn tdef_nodes<'a>(xs: Seq<TDef>) -> Seq<NodeRef<'a>> {
    Seq::new(xs.len(), |i: int| NodeRef::TDef(&xs[i]))
}

/// Appends references to the items, in order.
fn push_tdef_nodes<'a>(v: &mut Vec<NodeRef<'a>>, xs: &'a Vec<TDef>)
    ensures
        final(v)@ == old(v)@ + tdef_nodes(xs@),
{
    let ghost start = v@;
    let mut i: usize = 0;
    while i < xs.len()
        invariant
            i <= xs.len(),
            v@ == start + tdef_nodes(xs@).take(i as int),
        decreases xs.len() - i,
    {
        v.push(NodeRef::TDef(&xs[i]));
        i += 1;
        proof {
            assert(v@ =~= start + tdef_nodes(xs@).take(i as int));
        }
    }
    proof {
        assert(tdef_nodes(xs@).take(xs.len() as int) =~= tdef_nodes(xs@));
    }
}

/// References to the Constr items, in order.
pub open spec fn constr_nodes<'a>(xs: Seq<Constr>) -> Seq<NodeRef<'a>> {
    Seq::new(xs.len(), |i: int| NodeRef::Constr(&xs[i]))
}

/// Appends references to the items, in order.
fn push_constr_nodes<'a>(v: &mut Vec<NodeRef<'a>>, xs: &'a Vec<Constr>)
    ensures
        final(v)@ == old(v)@ + constr_nodes(xs@),
{
    let ghost start = v@;
    let mut i: usize = 0;
    while i < xs.len()
        invariant
            i <= xs.len(),
            v@ == start + constr_nodes(xs@).take(i as int),
        decreases xs.len() - i,
    {
        v.push(NodeRef::Constr(&xs[i]));
        i += 1;
        proof {
            assert(v@ =~= start + constr_nodes(xs@).take(i as int));
        }
    }
    proof {
        assert(constr_nodes(xs@).take(xs.len() as int) =~= constr_nodes(xs@));
    }
}

/// References to the TypeAnnotation items, in order.
pub open spec fn type_nodes<'a>(xs: Seq<TypeAnnotation>) -> Seq<NodeRef<'a>> {
    Seq::new(xs.len(), |i: int| NodeRef::Type(&xs[i]))
}

/// Appends references to the items, in order.
fn push_type_nodes<'a>(v: &mut Vec<NodeRef<'a>>, xs: &'a Vec<TypeAnnotation>)
    ensures
        final(v)@ == old(v)@ + type_nodes(xs@),
{
    let ghost start = v@;
    let mut i: usize = 0;
    while i < xs.len()
        invariant
            i <= xs.len(),
            v@ == start + type_nodes(xs@).take(i as int),
        decreases xs.len() - i,
    {
        v.push(NodeRef::Type(&xs[i]));
        i += 1;
        proof {
            assert(v@ =~= start + type_nodes(xs@).take(i as int));
        }
    }
    proof {
        assert(type_nodes(xs@).take(xs.len() as int) =~= type_nodes(xs@));
    }
}

/// References to the Par items, in order.
pub open spec fn par_nodes<'a>(xs: Seq<Par>) -> Seq<NodeRef<'a>> {
    Seq::new(xs.len(), |i: int| NodeRef::Par(&xs[i]))
}

/// Appends references to the items, in order.
fn push_par_nodes<'a>(v: &mut Vec<NodeRef<'a>>, xs: &'a Vec<Par>)
    ensures
        final(v)@ == old(v)@ + par_nodes(xs@),
{
    let ghost start = v@;
    let mut i: usize = 0;
    while i < xs.len()
        invariant
            i <= xs.len(),
            v@ == start + par_nodes(xs@).take(i as int),
        decreases xs.len() - i,
    {
        v.push(NodeRef::Par(&xs[i]));
        i += 1;
        proof {
            assert(v@ =~= start + par_nodes(xs@).take(i as int));
        }
    }
    proof {
        assert(par_nodes(xs@).take(xs.len() as int) =~= par_nodes(xs@));
    }
}

/// References to the Expr items, in order.
pub open spec fn expr_nodes<'a>(xs: Seq<Expr>) -> Seq<NodeRef<'a>> {
    Seq::new(xs.len(), |i: int| NodeRef::Expr(&xs[i]))
}

/// Appends references to the items, in order.
fn push_expr_nodes<'a>(v: &mut Vec<NodeRef<'a>>, xs: &'a Vec<Expr>)
    ensures
        final(v)@ == old(v)@ + expr_nodes(xs@),
{
    let ghost start = v@;
    let mut i: usize = 0;
    while i < xs.len()
        invariant
            i <= xs.len(),
            v@ == start + expr_nodes(xs@).take(i as int),
        decreases xs.len() - i,
    {
        v.push(NodeRef::Expr(&xs[i]));
        i += 1;
        proof {
            assert(v@ =~= start + expr_nodes(xs@).take(i as int));
        }
    }
    proof {
        assert(expr_nodes(xs@).take(xs.len() as int) =~= expr_nodes(xs@));
    }
}

/// References to the Clause items, in order.
pub open spec fn clause_nodes<'a>(xs: Seq<Clause>) -> Seq<NodeRef<'a>> {
    Seq::new(xs.len(), |i: int| NodeRef::Clause(&xs[i]))
}

/// Appends references to the items, in order.
fn push_clause_nodes<'a>(v: &mut Vec<NodeRef<'a>>, xs: &'a Vec<Clause>)
    ensures
        final(v)@ == old(v)@ + clause_nodes(xs@),
{
    let ghost start = v@;
    let mut i: usize = 0;
    while i < xs.len()
        invariant
            i <= xs.len(),
            v@ == start + clause_nodes(xs@).take(i as int),
        decreases xs.len() - i,
    {
        v.push(NodeRef::Clause(&xs[i]));
        i += 1;
        proof {
            assert(v@ =~= start + clause_nodes(xs@).take(i as int));
        }
    }
    proof {
        assert(clause_nodes(xs@).take(xs.len() as int) =~= clause_nodes(xs@));
    }
}

/// References to the Pattern items, in order.
pub open spec fn pattern_nodes<'a>(xs: Seq<Pattern>) -> Seq<NodeRef<'a>> {
    Seq::new(xs.len(), |i: int| NodeRef::Pattern(&xs[i]))
}

/// Appends references to the items, in order.
fn push_pattern_nodes<'a>(v: &mut Vec<NodeRef<'a>>, xs: &'a Vec<Pattern>)
    ensures
        final(v)@ == old(v)@ + pattern_nodes(xs@),
{
    let ghost start = v@;
    let mut i: usize = 0;
    while i < xs.len()
        invariant
            i <= xs.len(),
            v@ == start + pattern_nodes(xs@).take(i as int),
        decreases xs.len() - i,
    {
        v.push(NodeRef::Pattern(&xs[i]));
        i += 1;
        proof {
            assert(v@ =~= start + pattern_nodes(xs@).take(i as int));
        }
    }
    proof {
        assert(pattern_nodes(xs@).take(xs.len() as int) =~= pattern_nodes(xs@));
    }
}

/// A reference to the written type, if there is one.
pub open spec fn type_node<'a>(t: Option<TypeAnnotation>) -> Seq<NodeRef<'a>> {
    match t {
        Some(t) => seq![NodeRef::Type(&t)],
        None => Seq::empty(),
    }
}

/// The nodes below a node, in order, where it has any.
pub open spec fn children_spec<'a>(n: NodeRef<'a>) -> Option<Seq<NodeRef<'a>>> {
    match n {
        NodeRef::Program(p) => Some(definition_nodes(p.definitions@)),
        NodeRef::Definition(d) => match *d {
            Definition::Let(l) => Some(def_nodes(l.defs@)),
            Definition::Type(t) => Some(tdef_nodes(t.tdefs@)),
        },
        NodeRef::Def(d) => match d.kind {
            DefKind::Const { expr } => Some(type_node(d.type_) + seq![NodeRef::Expr(&expr)]),
            DefKind::Variable => match d.type_ {
                Some(t) => Some(seq![NodeRef::Type(&t)]),
                None => None,
            },
            DefKind::Array { dims } => Some(type_node(d.type_) + expr_nodes(dims@)),
            DefKind::Function { pars, expr } => Some(type_node(d.type_) + par_nodes(pars@) + seq![NodeRef::Expr(&expr)]),
        },
        NodeRef::TDef(t) => Some(constr_nodes(t.constrs@)),
        NodeRef::Constr(c) => Some(type_nodes(c.types@)),
        NodeRef::Type(t) => match *t {
            TypeAnnotation::Func { lhs, rhs } => Some(seq![NodeRef::Type(&*lhs), NodeRef::Type(&*rhs)]),
            TypeAnnotation::Ref(inner) => Some(seq![NodeRef::Type(&*inner)]),
            TypeAnnotation::Array { inner, .. } => Some(seq![NodeRef::Type(&*inner)]),
            TypeAnnotation::Tuple(ts) => Some(type_nodes(ts@)),
            _ => None,
        },
        NodeRef::Par(p) => match p.type_ {
            Some(t) => Some(seq![NodeRef::Type(&t)]),
            None => None,
        },
        NodeRef::Expr(e) => match e.kind {
            ExprKind::Tuple(es) => Some(expr_nodes(es@)),
            ExprKind::Unop(u) => Some(seq![NodeRef::Expr(&*u.operand)]),
            ExprKind::Binop(b) => Some(seq![NodeRef::Expr(&*b.lhs), NodeRef::Expr(&*b.rhs)]),
            ExprKind::Call(c) => Some(expr_nodes(c.args@)),
            ExprKind::ConstrCall(c) => Some(expr_nodes(c.args@)),
            ExprKind::ArrayAccess(a) => Some(expr_nodes(a.indexes@)),
            ExprKind::New(t) => Some(seq![NodeRef::Type(&t)]),
            ExprKind::LetIn(l) => Some(def_nodes(l.letdef.defs@) + seq![NodeRef::Expr(&*l.expr)]),
            ExprKind::If(i) => Some(seq![NodeRef::Expr(&*i.cond), NodeRef::Expr(&*i.then_body)] + match i.else_body {
                Some(e) => seq![NodeRef::Expr(&*e)],
                None => Seq::empty(),
            }),
            ExprKind::While(w) => Some(seq![NodeRef::Expr(&*w.cond), NodeRef::Expr(&*w.body)]),
            ExprKind::For(f) => Some(seq![NodeRef::Expr(&*f.from), NodeRef::Expr(&*f.to), NodeRef::Expr(&*f.body)]),
            ExprKind::Match(m) => Some(seq![NodeRef::Expr(&*m.to_match)] + clause_nodes(m.clauses@)),
            _ => None,
        },
        NodeRef::Clause(c) => Some(seq![NodeRef::Pattern(&c.pattern), NodeRef::Expr(&c.expr)]),
        NodeRef::Pattern(p) => match p.kind {
            PatternKind::IdUpper { args, .. } => Some(pattern_nodes(args@)),
            PatternKind::Tuple(ps) => Some(pattern_nodes(ps@)),
            _ => None,
        },
    }
}

/// Whether a node is a written type; a printed tree leaves these out.
pub open spec fn is_type_node(n: NodeRef) -> bool {
    n is Type
}

/// The nodes printed below a node: its children that are no written types.
pub open spec fn shown_children_spec<'a>(n: NodeRef<'a>) -> Seq<NodeRef<'a>> {
    match children_spec(n) {
        Some(cs) => cs.filter(|c: NodeRef<'a>| !is_type_node(c)),
        None => Seq::empty(),
    }
}

/// `s` when `n` is not one.
pub open spec fn plural(n: nat) -> Seq<char> {
    if n == 1 {
        Seq::empty()
    } else {
        "s"@
    }
}

/// The stars of the dimensions of an array type, separated by commas.
pub open spec fn stars(n: nat) -> Seq<char>
    decreases n,
{
    if n == 0 {
        Seq::empty()
    } else if n == 1 {
        "*"@
    } else {
        stars((n - 1) as nat) + ", *"@
    }
}

/// How a written type reads.
pub open spec fn annotation_text(t: TypeAnnotation) -> Seq<char>
    decreases t,
{
    match t {
        TypeAnnotation::Unit => "unit"@,
        TypeAnnotation::Int => "int"@,
        TypeAnnotation::Char => "char"@,
        TypeAnnotation::Bool => "bool"@,
        TypeAnnotation::Float => "float"@,
        TypeAnnotation::Func { lhs, rhs } => annotation_text(*lhs) + " -> ("@ + annotation_text(*rhs) + ")"@,
        TypeAnnotation::Ref(inner) => "("@ + annotation_text(*inner) + " ref)"@,
        TypeAnnotation::Array { inner, dim_cnt } => annotation_text(*inner) + "["@ + stars(dim_cnt as nat) + "]"@,
        TypeAnnotation::Tuple(ts) => "("@ + annotation_texts(ts@) + ")"@,
        TypeAnnotation::Custom { id } => id@,
    }
}

/// How written types read, separated by commas.
pub open spec fn annotation_texts(ts: Seq<TypeAnnotation>) -> Seq<char>
    decreases ts,
{
    if ts.len() == 0 {
        Seq::empty()
    } else if ts.len() == 1 {
        annotation_text(ts[0])
    } else {
        proof {
            assert(decreases_to!(ts => ts.subrange(0, ts.len() - 1)));
        }
        annotation_texts(ts.drop_last()) + ", "@ + annotation_text(ts[ts.len() - 1])
    }
}

/// An integer in decimal, with its sign.
pub open spec fn int_text(i: int) -> Seq<char> {
    if i < 0 {
        "-"@ + decimal((-i) as nat)
    } else {
        decimal(i as nat)
    }
}

/// A truth value in words.
pub open spec fn bool_text(b: bool) -> Seq<char> {
    if b {
        "true"@
    } else {
        "false"@
    }
}

/// The text with each line break written as a backslash and `n`.
pub open spec fn escape_newlines(s: Seq<char>) -> Seq<char>
    decreases s.len(),
{
    if s.len() == 0 {
        Seq::empty()
    } else {
        escape_newlines(s.drop_last()) + if s.last() == '\n' {
            "\\n"@
        } else {
            seq![s.last()]
        }
    }
}

/// The name of a unary operator.
pub open spec fn unop_text(op: UnopKind) -> Seq<char> {
    match op {
        UnopKind::Plus => "Plus"@,
        UnopKind::Minus => "Minus"@,
        UnopKind::Deref => "Deref"@,
        UnopKind::Not => "Not"@,
        UnopKind::Delete => "Delete"@,
    }
}

/// The name of a binary operator.
pub open spec fn binop_text(op: BinopKind) -> Seq<char> {
    match op {
        BinopKind::Add => "Add"@,
        BinopKind::Sub => "Sub"@,
        BinopKind::Mul => "Mul"@,
        BinopKind::Div => "Div"@,
        BinopKind::Mod => "Mod"@,
        BinopKind::Pow => "Pow"@,
        BinopKind::StrEq => "StrEq"@,
        BinopKind::StrNotEq => "StrNotEq"@,
        BinopKind::NatEq => "NatEq"@,
        BinopKind::NatNotEq => "NatNotEq"@,
        BinopKind::Lt => "Lt"@,
        BinopKind::Gt => "Gt"@,
        BinopKind::LEq => "LEq"@,
        BinopKind::GEq => "GEq"@,
        BinopKind::And => "And"@,
        BinopKind::Or => "Or"@,
        BinopKind::Semicolon => "Semicolon"@,
        BinopKind::Assign => "Assign"@,
    }
}

/// ` annotated 'type'` when a type is written.
pub open spec fn annotated_text(t: Option<TypeAnnotation>) -> Seq<char> {
    match t {
        Some(t) => " annotated '"@ + annotation_text(t) + "'"@,
        None => Seq::empty(),
    }
}

/// What a node says of itself in a printed tree.
pub open spec fn label_spec(n: NodeRef) -> Seq<char> {
    match n {
        NodeRef::Program(p) => "Program with "@ + decimal(p.definitions@.len()) + " statement"@
            + plural(p.definitions@.len()),
        NodeRef::Definition(d) => match *d {
            Definition::Let(l) => (if l.rec { "Recursive "@ } else { Seq::empty() }) + "let statement with "@
                + decimal(l.defs@.len()) + " definition"@ + plural(l.defs@.len()),
            Definition::Type(t) => "type statement with "@ + decimal(t.tdefs@.len()) + " type definition"@
                + plural(t.tdefs@.len()),
        },
        NodeRef::Def(d) => (match d.kind {
            DefKind::Const { .. } => "Constant "@,
            DefKind::Variable => "Variable "@,
            DefKind::Array { .. } => "Array "@,
            DefKind::Function { .. } => "Function "@,
        }) + d.id@ + annotated_text(d.type_),
        NodeRef::TDef(t) => "Type "@ + t.id@,
        NodeRef::Constr(c) => "Constructor "@ + c.id@,
        NodeRef::Type(t) => annotation_text(*t),
        NodeRef::Par(p) => "Parameter "@ + p.id@ + annotated_text(p.type_),
        NodeRef::Expr(e) => match e.kind {
            ExprKind::UnitLiteral => "Unit Literal"@,
            ExprKind::IntLiteral(i) => "Int Literal '"@ + int_text(i as int) + "'"@,
            ExprKind::FloatLiteral(f) => "Float Literal '"@ + f@ + "'"@,
            ExprKind::CharLiteral(c) => "Char Literal '"@ + decimal(c as nat) + "'"@,
            ExprKind::StringLiteral(s) => "String Literal '"@ + escape_newlines(s@) + "'"@,
            ExprKind::BoolLiteral(b) => "Bool Literal '"@ + bool_text(b) + "'"@,
            ExprKind::Tuple(es) => "Tuple with "@ + decimal(es@.len()) + " element"@ + plural(es@.len()),
            ExprKind::Unop(u) => "Unary Operation '"@ + unop_text(u.op) + "'"@,
            ExprKind::Binop(b) => "Binary Operation '"@ + binop_text(b.op) + "'"@,
            ExprKind::Call(c) => "Call to "@ + c.id@ + " with "@ + decimal(c.args@.len()) + " argument"@
                + plural(c.args@.len()),
            ExprKind::ConstrCall(c) => "Constructor call to "@ + c.id@ + " with "@ + decimal(c.args@.len())
                + " argument"@ + plural(c.args@.len()),
            ExprKind::ArrayAccess(a) => "Array access to "@ + a.id@ + " with "@ + decimal(a.indexes@.len())
                + " argument"@ + plural(a.indexes@.len()),
            ExprKind::Dim(d) => "dim call for id "@ + d.id@ + " and dimension "@ + int_text(d.dim as int),
            ExprKind::New(t) => "New on type "@ + annotation_text(t),
            ExprKind::LetIn(_) => "Let In expression"@,
            ExprKind::If(_) => "If expression"@,
            ExprKind::While(_) => "While expression"@,
            ExprKind::For(f) => "For expression with id "@ + f.id@ + " and "@ + (if f.ascending {
                "ascending order"@
            } else {
                "descending order"@
            }),
            ExprKind::Match(m) => "Match expression with "@ + decimal(m.clauses@.len()) + " clause"@
                + plural(m.clauses@.len()),
        },
        NodeRef::Clause(_) => "Clause"@,
        NodeRef::Pattern(p) => match p.kind {
            PatternKind::IntLiteral(i) => "Int Literal '"@ + int_text(i as int) + "'"@,
            PatternKind::FloatLiteral(f) => "Float Literal '"@ + f@ + "'"@,
            PatternKind::CharLiteral(c) => "Char Literal '"@ + decimal(c as nat) + "'"@,
            PatternKind::StringLiteral(s) => "String Literal '"@ + s@ + "'"@,
            PatternKind::BoolLiteral(b) => "Bool Literal '"@ + bool_text(b) + "'"@,
            PatternKind::IdLower(id) => "Name binding on '"@ + id@ + "'"@,
            PatternKind::IdUpper { id, args } => "Pattern matching on constructor '"@ + id@ + "' with "@
                + decimal(args@.len()) + " argument"@ + plural(args@.len()),
            PatternKind::Tuple(ps) => "Tuple with "@ + decimal(ps@.len()) + " element"@ + plural(ps@.len()),
        },
    }
}

/// Appends ` annotated 'type'` when a type is written.
fn push_annotated(s: &mut String, t: &Option<TypeAnnotation>)
    ensures
        final(s)@ == old(s)@ + annotated_text(*t),
{
    match t {
        Some(t) => {
            string_push_str(s, " annotated '");
            let text = type_text(t);
            string_push_str(s, text.as_str());
            string_push_str(s, "'");
        },
        None => {
            proof {
                assert(old(s)@ + Seq::<char>::empty() =~= old(s)@);
            }
        },
    }
}

/// Appends `s` when `n` is not one.
fn push_plural(s: &mut String, n: usize)
    ensures
        final(s)@ == old(s)@ + plural(n as nat),
{
    if n != 1 {
        string_push_str(s, "s");
    } else {
        proof {
            assert(old(s)@ + Seq::<char>::empty() =~= old(s)@);
        }
    }
}

/// Appends a count in decimal.
fn push_count(s: &mut String, n: usize)
    ensures
        final(s)@ == old(s)@ + decimal(n as nat),
{
    let text = decimal_u64(n as u64);
    string_push_str(s, text.as_str());
}

/// Appends an integer in decimal, with its sign.
fn push_int(s: &mut String, i: i32)
    ensures
        final(s)@ == old(s)@ + int_text(i as int),
{
    if i < 0 {
        let text = decimal_u64((0 - (i as i64)) as u64);
        string_push_str(s, "-");
        string_push_str(s, text.as_str());
        proof {
            assert(final(s)@ =~= old(s)@ + ("-"@ + decimal((-(i as int)) as nat)));
        }
    } else {
        let text = decimal_u64(i as u64);
        string_push_str(s, text.as_str());
    }
}

/// The stars of the dimensions of an array type, separated by commas.
fn stars_text(n: u32) -> (r: String)
    ensures
        r@ == stars(n as nat),
{
    let mut s = String::new();
    let mut i: u32 = 0;
    while i < n
        invariant
            i <= n,
            s@ == stars(i as nat),
        decreases n - i,
    {
        if i == 0 {
            string_push_str(&mut s, "*");
            proof {
                assert(s@ =~= "*"@);
            }
        } else {
            string_push_str(&mut s, ", *");
        }
        i = i + 1;
    }
    s
}

/// How a written type reads.
pub fn type_text(t: &TypeAnnotation) -> (r: String)
    ensures
        r@ == annotation_text(*t),
    decreases t,
{
    let mut s = String::new();
    match t {
        TypeAnnotation::Unit => string_push_str(&mut s, "unit"),
        TypeAnnotation::Int => string_push_str(&mut s, "int"),
        TypeAnnotation::Char => string_push_str(&mut s, "char"),
        TypeAnnotation::Bool => string_push_str(&mut s, "bool"),
        TypeAnnotation::Float => string_push_str(&mut s, "float"),
        TypeAnnotation::Func { lhs, rhs } => {
            let l = type_text(lhs);
            let r = type_text(rhs);
            string_push_str(&mut s, l.as_str());
            string_push_str(&mut s, " -> (");
            string_push_str(&mut s, r.as_str());
            string_push_str(&mut s, ")");
        },
        TypeAnnotation::Ref(inner) => {
            let i = type_text(inner);
            string_push_str(&mut s, "(");
            string_push_str(&mut s, i.as_str());
            string_push_str(&mut s, " ref)");
        },
        TypeAnnotation::Array { inner, dim_cnt } => {
            let i = type_text(inner);
            let st = stars_text(*dim_cnt);
            string_push_str(&mut s, i.as_str());
            string_push_str(&mut s, "[");
            string_push_str(&mut s, st.as_str());
            string_push_str(&mut s, "]");
        },
        TypeAnnotation::Tuple(ts) => {
            string_push_str(&mut s, "(");
            let ghost open_paren = s@;
            let mut i: usize = 0;
            while i < ts.len()
                invariant
                    i <= ts.len(),
                    s@ == open_paren + annotation_texts(ts@.take(i as int)),
                    *t == TypeAnnotation::Tuple(*ts),
                decreases ts.len() - i,
            {
                proof {
                    vstd::std_specs::vec::axiom_vec_index_decreases(*ts, i as int);
                    assert(decreases_to!(*t => (*t)->Tuple_0));
                }
                let text = type_text(&ts[i]);
                let ghost before = s@;
                if i > 0 {
                    string_push_str(&mut s, ", ");
                }
                string_push_str(&mut s, text.as_str());
                proof {
                    assert(ts@.take(i + 1).drop_last() =~= ts@.take(i as int));
                    if i == 0 {
                        assert(annotation_texts(ts@.take(0)) =~= Seq::<char>::empty());
                        assert(s@ =~= open_paren + annotation_texts(ts@.take(1)));
                    } else {
                        assert(s@ =~= open_paren + annotation_texts(ts@.take(i + 1)));
                    }
                }
                i += 1;
            }
            proof {
                assert(ts@.take(ts.len() as int) =~= ts@);
            }
            string_push_str(&mut s, ")");
        },
        TypeAnnotation::Custom { id } => string_push_str(&mut s, id.as_str()),
    }
    proof {
        assert(s@ =~= annotation_text(*t));
    }
    s
}

/// The text with each line break written as a backslash and `n`.
fn escaped(text: &String) -> (r: String)
    ensures
        r@ == escape_newlines(text@),
{
    let t = text.as_str();
    let n = t.unicode_len();
    let mut s = String::new();
    let mut i: usize = 0;
    while i < n
        invariant
            i <= n,
            n == t@.len(),
            t@ == text@,
            s@ == escape_newlines(t@.take(i as int)),
        decreases n - i,
    {
        let c = t.get_char(i);
        if c == '\n' {
            string_push_str(&mut s, "\\n");
        } else {
            string_push(&mut s, c);
        }
        proof {
            assert(t@.take(i + 1).drop_last() =~= t@.take(i as int));
            assert(s@ =~= escape_newlines(t@.take(i + 1)));
        }
        i += 1;
    }
    proof {
        assert(t@.take(n as int) =~= t@);
    }
    s
}

/// The name of a unary operator.
fn unop_name(op: UnopKind) -> (r: &'static str)
    ensures
        r@ == unop_text(op),
{
    match op {
        UnopKind::Plus => "Plus",
        UnopKind::Minus => "Minus",
        UnopKind::Deref => "Deref",
        UnopKind::Not => "Not",
        UnopKind::Delete => "Delete",
    }
}

/// The name of a binary operator.
fn binop_name(op: BinopKind) -> (r: &'static str)
    ensures
        r@ == binop_text(op),
{
    match op {
        BinopKind::Add => "Add",
        BinopKind::Sub => "Sub",
        BinopKind::Mul => "Mul",
        BinopKind::Div => "Div",
        BinopKind::Mod => "Mod",
        BinopKind::Pow => "Pow",
        BinopKind::StrEq => "StrEq",
        BinopKind::StrNotEq => "StrNotEq",
        BinopKind::NatEq => "NatEq",
        BinopKind::NatNotEq => "NatNotEq",
        BinopKind::Lt => "Lt",
        BinopKind::Gt => "Gt",
        BinopKind::LEq => "LEq",
        BinopKind::GEq => "GEq",
        BinopKind::And => "And",
        BinopKind::Or => "Or",
        BinopKind::Semicolon => "Semicolon",
        BinopKind::Assign => "Assign",
    }
}

impl<'a> NodeRef<'a> {
    /// The nodes below this one, in order, where it has any.
    pub fn children(&self) -> (r: Option<Vec<NodeRef<'a>>>)
        ensures
            match r {
                Some(v) => children_spec(*self) == Some(v@),
                None => children_spec(*self) is None,
            },
    {
        let mut v: Vec<NodeRef<'a>> = Vec::new();
        match self {
            NodeRef::Program(p) => {
                push_definition_nodes(&mut v, &p.definitions);
            },
            NodeRef::Definition(d) => match d {
                Definition::Let(l) => push_def_nodes(&mut v, &l.defs),
                Definition::Type(t) => push_tdef_nodes(&mut v, &t.tdefs),
            },
            NodeRef::Def(d) => {
                match &d.type_ {
                    Some(t) => v.push(NodeRef::Type(t)),
                    None => {},
                }
                match &d.kind {
                    DefKind::Const { expr } => v.push(NodeRef::Expr(expr)),
                    DefKind::Variable => {
                        if d.type_.is_none() {
                            return None;
                        }
                    },
                    DefKind::Array { dims } => push_expr_nodes(&mut v, dims),
                    DefKind::Function { pars, expr } => {
                        push_par_nodes(&mut v, pars);
                        v.push(NodeRef::Expr(expr));
                    },
                }
            },
            NodeRef::TDef(t) => push_constr_nodes(&mut v, &t.constrs),
            NodeRef::Constr(c) => push_type_nodes(&mut v, &c.types),
            NodeRef::Type(t) => match t {
                TypeAnnotation::Func { lhs, rhs } => {
                    v.push(NodeRef::Type(&**lhs));
                    v.push(NodeRef::Type(&**rhs));
                },
                TypeAnnotation::Ref(inner) => v.push(NodeRef::Type(&**inner)),
                TypeAnnotation::Array { inner, .. } => v.push(NodeRef::Type(&**inner)),
                TypeAnnotation::Tuple(ts) => push_type_nodes(&mut v, ts),
                _ => {
                    return None;
                },
            },
            NodeRef::Par(p) => match &p.type_ {
                Some(t) => v.push(NodeRef::Type(t)),
                None => {
                    return None;
                },
            },
            NodeRef::Expr(e) => match &e.kind {
                ExprKind::Tuple(es) => push_expr_nodes(&mut v, es),
                ExprKind::Unop(u) => v.push(NodeRef::Expr(&*u.operand)),
                ExprKind::Binop(b) => {
                    v.push(NodeRef::Expr(&*b.lhs));
                    v.push(NodeRef::Expr(&*b.rhs));
                },
                ExprKind::Call(c) => push_expr_nodes(&mut v, &c.args),
                ExprKind::ConstrCall(c) => push_expr_nodes(&mut v, &c.args),
                ExprKind::ArrayAccess(a) => push_expr_nodes(&mut v, &a.indexes),
                ExprKind::New(t) => v.push(NodeRef::Type(t)),
                ExprKind::LetIn(l) => {
                    push_def_nodes(&mut v, &l.letdef.defs);
                    v.push(NodeRef::Expr(&*l.expr));
                },
                ExprKind::If(i) => {
                    v.push(NodeRef::Expr(&*i.cond));
                    v.push(NodeRef::Expr(&*i.then_body));
                    match &i.else_body {
                        Some(e) => v.push(NodeRef::Expr(&**e)),
                        None => {},
                    }
                },
                ExprKind::While(w) => {
                    v.push(NodeRef::Expr(&*w.cond));
                    v.push(NodeRef::Expr(&*w.body));
                },
                ExprKind::For(f) => {
                    v.push(NodeRef::Expr(&*f.from));
                    v.push(NodeRef::Expr(&*f.to));
                    v.push(NodeRef::Expr(&*f.body));
                },
                ExprKind::Match(m) => {
                    v.push(NodeRef::Expr(&*m.to_match));
                    push_clause_nodes(&mut v, &m.clauses);
                },
                _ => {
                    return None;
                },
            },
            NodeRef::Clause(c) => {
                v.push(NodeRef::Pattern(&c.pattern));
                v.push(NodeRef::Expr(&c.expr));
            },
            NodeRef::Pattern(p) => match &p.kind {
                PatternKind::IdUpper { args, .. } => push_pattern_nodes(&mut v, args),
                PatternKind::Tuple(ps) => push_pattern_nodes(&mut v, ps),
                _ => {
                    return None;
                },
            },
        }
        proof {
            assert(Some(v@) =~= children_spec(*self));
        }
        Some(v)
    }

    /// The nodes printed below this one: its children that are no written
    /// types.
    pub fn shown_children(&self) -> (r: Vec<NodeRef<'a>>)
        ensures
            r@ == shown_children_spec(*self),
    {
        let cs = match self.children() {
            Some(cs) => cs,
            None => {
                return Vec::new();
            },
        };
        let mut out: Vec<NodeRef<'a>> = Vec::new();
        let mut i: usize = 0;
        while i < cs.len()
            invariant
                i <= cs.len(),
                out@ == cs@.take(i as int).filter(|c: NodeRef<'a>| !is_type_node(c)),
            decreases cs.len() - i,
        {
            let c = cs[i];
            proof {
                assert(cs@.take(i + 1).drop_last() =~= cs@.take(i as int));
                reveal_with_fuel(Seq::filter, 1);
            }
            match c {
                NodeRef::Type(_) => {},
                _ => out.push(c),
            }
            i += 1;
        }
        proof {
            assert(cs@.take(cs.len() as int) =~= cs@);
        }
        out
    }

    /// What this node says of itself in a printed tree.
    #[verifier::spinoff_prover]
    pub fn label(&self) -> (r: String)
        ensures
            r@ == label_spec(*self),
    {
        let mut s = String::new();
        match self {
            NodeRef::Program(p) => {
                string_push_str(&mut s, "Program with ");
                push_count(&mut s, p.definitions.len());
                string_push_str(&mut s, " statement");
                push_plural(&mut s, p.definitions.len());
            },
            NodeRef::Definition(d) => match d {
                Definition::Let(l) => {
                    if l.rec {
                        string_push_str(&mut s, "Recursive ");
                    }
                    string_push_str(&mut s, "let statement with ");
                    push_count(&mut s, l.defs.len());
                    string_push_str(&mut s, " definition");
                    push_plural(&mut s, l.defs.len());
                },
                Definition::Type(t) => {
                    string_push_str(&mut s, "type statement with ");
                    push_count(&mut s, t.tdefs.len());
                    string_push_str(&mut s, " type definition");
                    push_plural(&mut s, t.tdefs.len());
                },
            },
            NodeRef::Def(d) => {
                match &d.kind {
                    DefKind::Const { .. } => string_push_str(&mut s, "Constant "),
                    DefKind::Variable => string_push_str(&mut s, "Variable "),
                    DefKind::Array { .. } => string_push_str(&mut s, "Array "),
                    DefKind::Function { .. } => string_push_str(&mut s, "Function "),
                }
                string_push_str(&mut s, d.id.as_str());
                push_annotated(&mut s, &d.type_);
            },
            NodeRef::TDef(t) => {
                string_push_str(&mut s, "Type ");
                string_push_str(&mut s, t.id.as_str());
            },
            NodeRef::Constr(c) => {
                string_push_str(&mut s, "Constructor ");
                string_push_str(&mut s, c.id.as_str());
            },
            NodeRef::Type(t) => {
                let text = type_text(t);
                string_push_str(&mut s, text.as_str());
            },
            NodeRef::Par(p) => {
                string_push_str(&mut s, "Parameter ");
                string_push_str(&mut s, p.id.as_str());
                push_annotated(&mut s, &p.type_);
            },
            NodeRef::Expr(e) => self.push_expr_label(&mut s, e),
            NodeRef::Clause(_) => string_push_str(&mut s, "Clause"),
            NodeRef::Pattern(p) => match &p.kind {
                PatternKind::IntLiteral(i) => {
                    string_push_str(&mut s, "Int Literal '");
                    push_int(&mut s, *i);
                    string_push_str(&mut s, "'");
                },
                PatternKind::FloatLiteral(f) => {
                    string_push_str(&mut s, "Float Literal '");
                    string_push_str(&mut s, f.as_str());
                    string_push_str(&mut s, "'");
                },
                PatternKind::CharLiteral(c) => {
                    string_push_str(&mut s, "Char Literal '");
                    push_count(&mut s, *c as usize);
                    string_push_str(&mut s, "'");
                },
                PatternKind::StringLiteral(t) => {
                    string_push_str(&mut s, "String Literal '");
                    string_push_str(&mut s, t.as_str());
                    string_push_str(&mut s, "'");
                },
                PatternKind::BoolLiteral(b) => {
                    string_push_str(&mut s, "Bool Literal '");
                    string_push_str(&mut s, if *b { "true" } else { "false" });
                    string_push_str(&mut s, "'");
                },
                PatternKind::IdLower(id) => {
                    string_push_str(&mut s, "Name binding on '");
                    string_push_str(&mut s, id.as_str());
                    string_push_str(&mut s, "'");
                },
                PatternKind::IdUpper { id, args } => {
                    string_push_str(&mut s, "Pattern matching on constructor '");
                    string_push_str(&mut s, id.as_str());
                    string_push_str(&mut s, "' with ");
                    push_count(&mut s, args.len());
                    string_push_str(&mut s, " argument");
                    push_plural(&mut s, args.len());
                },
                PatternKind::Tuple(ps) => {
                    string_push_str(&mut s, "Tuple with ");
                    push_count(&mut s, ps.len());
                    string_push_str(&mut s, " element");
                    push_plural(&mut s, ps.len());
                },
            },
        }
        proof {
            assert(s@ =~= label_spec(*self));
        }
        s
    }

    /// Appends what an expression node says of itself.
    #[verifier::spinoff_prover]
    fn push_expr_label(&self, s: &mut String, e: &Expr)
        requires
            *self == NodeRef::Expr(e),
        ensures
            final(s)@ == old(s)@ + label_spec(*self),
    {
        let ghost start = s@;
        match &e.kind {
            ExprKind::UnitLiteral => string_push_str(s, "Unit Literal"),
            ExprKind::IntLiteral(i) => {
                string_push_str(s, "Int Literal '");
                push_int(s, *i);
                string_push_str(s, "'");
            },
            ExprKind::FloatLiteral(f) => {
                string_push_str(s, "Float Literal '");
                string_push_str(s, f.as_str());
                string_push_str(s, "'");
            },
            ExprKind::CharLiteral(c) => {
                string_push_str(s, "Char Literal '");
                push_count(s, *c as usize);
                string_push_str(s, "'");
            },
            ExprKind::StringLiteral(t) => {
                string_push_str(s, "String Literal '");
                let text = escaped(t);
                string_push_str(s, text.as_str());
                string_push_str(s, "'");
            },
            ExprKind::BoolLiteral(b) => {
                string_push_str(s, "Bool Literal '");
                string_push_str(s, if *b { "true" } else { "false" });
                string_push_str(s, "'");
            },
            ExprKind::Tuple(es) => {
                string_push_str(s, "Tuple with ");
                push_count(s, es.len());
                string_push_str(s, " element");
                push_plural(s, es.len());
            },
            ExprKind::Unop(u) => {
                string_push_str(s, "Unary Operation '");
                string_push_str(s, unop_name(u.op));
                string_push_str(s, "'");
            },
            ExprKind::Binop(b) => {
                string_push_str(s, "Binary Operation '");
                string_push_str(s, binop_name(b.op));
                string_push_str(s, "'");
            },
            ExprKind::Call(c) => {
                string_push_str(s, "Call to ");
                string_push_str(s, c.id.as_str());
                string_push_str(s, " with ");
                push_count(s, c.args.len());
                string_push_str(s, " argument");
                push_plural(s, c.args.len());
            },
            ExprKind::ConstrCall(c) => {
                string_push_str(s, "Constructor call to ");
                string_push_str(s, c.id.as_str());
                string_push_str(s, " with ");
                push_count(s, c.args.len());
                string_push_str(s, " argument");
                push_plural(s, c.args.len());
            },
            ExprKind::ArrayAccess(a) => {
                string_push_str(s, "Array access to ");
                string_push_str(s, a.id.as_str());
                string_push_str(s, " with ");
                push_count(s, a.indexes.len());
                string_push_str(s, " argument");
                push_plural(s, a.indexes.len());
            },
            ExprKind::Dim(d) => {
                string_push_str(s, "dim call for id ");
                string_push_str(s, d.id.as_str());
                string_push_str(s, " and dimension ");
                push_int(s, d.dim);
            },
            ExprKind::New(t) => {
                string_push_str(s, "New on type ");
                let text = type_text(t);
                string_push_str(s, text.as_str());
            },
            ExprKind::LetIn(_) => string_push_str(s, "Let In expression"),
            ExprKind::If(_) => string_push_str(s, "If expression"),
            ExprKind::While(_) => string_push_str(s, "While expression"),
            ExprKind::For(f) => {
                string_push_str(s, "For expression with id ");
                string_push_str(s, f.id.as_str());
                string_push_str(s, " and ");
                string_push_str(s, if f.ascending { "ascending order" } else { "descending order" });
            },
            ExprKind::Match(m) => {
                string_push_str(s, "Match expression with ");
                push_count(s, m.clauses.len());
                string_push_str(s, " clause");
                push_plural(s, m.clauses.len());
            },
        }
        proof {
            assert(s@ =~= start + label_spec(*self));
        }
    }
}

} // verus!

verus! {

/// `s` ends with `t`.
pub open spec fn ends_with(s: Seq<char>, t: Seq<char>) -> bool {
    s.len() >= t.len() && s.subrange(s.len() - t.len(), s.len() as int) == t
}

/// A `for` loop's label says which way it counts: it ends with "ascending
/// order" for a loop that counts up (written with `to`) and with
/// "descending order" for one that counts down (written with `downto`),
/// never the other.
pub proof fn law_for_label_order(e: &Expr)
    requires
        e.kind is For,
    ensures
        e.kind->For_0.ascending <==> ends_with(label_spec(NodeRef::Expr(e)), "ascending order"@),
        !e.kind->For_0.ascending <==> ends_with(label_spec(NodeRef::Expr(e)), "descending order"@),
{
    reveal_strlit("ascending order");
    reveal_strlit("descending order");
    reveal_strlit("For expression with id ");
    reveal_strlit(" and ");
    let f = e.kind->For_0;
    let head = "For expression with id "@ + f.id@ + " and "@;
    let l = label_spec(NodeRef::Expr(e));
    let asc = "ascending order"@;
    let desc = "descending order"@;
    if f.ascending {
        assert(l == head + asc);
        assert(l.subrange(l.len() - asc.len(), l.len() as int) =~= asc);
        assert(l[l.len() - asc.len()] == asc[0]);
        assert(l.subrange(l.len() - desc.len(), l.len() as int)[1] == asc[0]);
        assert(desc[1] != asc[0]);
    } else {
        assert(l == head + desc);
        assert(l.subrange(l.len() - desc.len(), l.len() as int) =~= desc);
        assert(l[l.len() - asc.len()] == desc[1]);
        assert(l.subrange(l.len() - asc.len(), l.len() as int)[0] == desc[1]);
        assert(desc[1] != asc[0]);
    }
}

} // verus!
