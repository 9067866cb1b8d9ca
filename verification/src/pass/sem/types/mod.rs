pub mod inference;
pub mod subst;
pub mod parts;
pub mod type_map;

use vstd::prelude::*;
use self::inference::ArrayDims;

verus! {

broadcast use vstd::std_specs::vec::group_vec_axioms;

/// A type of the language, as the type checker sees it.
///
/// An unknown type is named by its id; the constraints on it are kept by the
/// type map that made it.
#[derive(Debug)]
pub enum Type {
    Unknown(u32),
    Unit,
    Int,
    Char,
    Bool,
    Float,
    Func { lhs: Box<Type>, rhs: Box<Type> },
    Ref(Box<Type>),
    Array { inner: Box<Type>, dim_cnt: ArrayDims },
    Tuple(Vec<Type>),
    Custom { id: String },
}

/// The mathematical value of a [`Type`].
pub enum TypeV {
    Unknown(u32),
    Unit,
    Int,
    Char,
    Bool,
    Float,
    Func(Box<TypeV>, Box<TypeV>),
    Ref(Box<TypeV>),
    Array(Box<TypeV>, ArrayDims),
    Tuple(Seq<TypeV>),
    Custom(Seq<char>),
}

pub open spec fn view_type(t: Type) -> TypeV
    decreases t,
{
    match t {
        Type::Unknown(id) => TypeV::Unknown(id),
        Type::Unit => TypeV::Unit,
        Type::Int => TypeV::Int,
        Type::Char => TypeV::Char,
        Type::Bool => TypeV::Bool,
        Type::Float => TypeV::Float,
        Type::Func { lhs, rhs } => TypeV::Func(Box::new(view_type(*lhs)), Box::new(view_type(*rhs))),
        Type::Ref(inner) => TypeV::Ref(Box::new(view_type(*inner))),
        Type::Array { inner, dim_cnt } => TypeV::Array(Box::new(view_type(*inner)), dim_cnt),
        Type::Tuple(types) => TypeV::Tuple(view_types(types@)),
        Type::Custom { id } => TypeV::Custom(id@),
    }
}

pub open spec fn view_types(ts: Seq<Type>) -> Seq<TypeV>
    decreases ts,
{
    if ts.len() == 0 {
        Seq::empty()
    } else {
        proof {
            assert(decreases_to!(ts => ts.subrange(0, ts.len() - 1)));
        }
        view_types(ts.drop_last()).push(view_type(ts[ts.len() - 1]))
    }
}

impl View for Type {
    type V = TypeV;

    open spec fn view(&self) -> TypeV {
        view_type(*self)
    }
}

pub proof fn lemma_view_types(ts: Seq<Type>)
    ensures
        view_types(ts).len() == ts.len(),
        forall|i: int| 0 <= i < ts.len() ==> #[trigger] view_types(ts)[i] == view_type(ts[i]),
    decreases ts.len(),
{
    if ts.len() > 0 {
        lemma_view_types(ts.drop_last());
    }
}

/// The function type that takes `args` one at a time and then gives `ret`.
pub open spec fn curried(args: Seq<TypeV>, ret: TypeV) -> TypeV
    decreases args.len(),
{
    if args.len() == 0 {
        ret
    } else {
        curried(args.drop_last(), TypeV::Func(Box::new(args.last()), Box::new(ret)))
    }
}

/// Whether no unknown type and no array of unknown dimensions is left in `t`.
pub open spec fn fully_known(t: TypeV) -> bool
    decreases t,
{
    match t {
        TypeV::Unknown(_) => false,
        TypeV::Func(lhs, rhs) => fully_known(*lhs) && fully_known(*rhs),
        TypeV::Ref(inner) => fully_known(*inner),
        TypeV::Array(inner, dims) => fully_known(*inner) && dims is Known,
        TypeV::Tuple(ts) => all_fully_known(ts),
        _ => true,
    }
}

pub open spec fn all_fully_known(ts: Seq<TypeV>) -> bool
    decreases ts,
{
    if ts.len() == 0 {
        true
    } else {
        proof {
            assert(decreases_to!(ts => ts.subrange(0, ts.len() - 1)));
        }
        all_fully_known(ts.drop_last()) && fully_known(ts[ts.len() - 1])
    }
}

pub proof fn lemma_all_fully_known(ts: Seq<TypeV>)
    ensures
        all_fully_known(ts) <==> forall|i: int| 0 <= i < ts.len() ==> #[trigger] fully_known(ts[i]),
    decreases ts.len(),
{
    if ts.len() > 0 {
        let p = ts.drop_last();
        lemma_all_fully_known(p);
        if all_fully_known(ts) {
            assert forall|i: int| 0 <= i < ts.len() implies #[trigger] fully_known(ts[i]) by {
                if i < ts.len() - 1 {
                    assert(p[i] == ts[i]);
                    assert(fully_known(p[i]));
                }
            }
        }
        if forall|i: int| 0 <= i < ts.len() ==> #[trigger] fully_known(ts[i]) {
            assert forall|i: int| 0 <= i < p.len() implies #[trigger] fully_known(p[i]) by {
                assert(p[i] == ts[i]);
                assert(fully_known(ts[i]));
            }
            assert(fully_known(ts[ts.len() - 1]));
        }
    }
}

/// The letters of an unknown type's name, last letter first: `a` plus the
/// id modulo 26, then, for each further base-26 digit of the id, one less
/// than `a` plus that digit.
pub open spec fn name_letters(v: nat, first: bool) -> Seq<u8>
    decreases v,
{
    let c = ((v % 26) + 97) as u8;
    let d = if first { c } else { (c - 1) as u8 };
    if v < 26 {
        seq![d]
    } else {
        seq![d] + name_letters(v / 26, false)
    }
}

/// The name the `u`-th unknown type is shown with: `a` to `z`, then `aa`,
/// `ab` and so on.
pub open spec fn unknown_name(u: nat) -> Seq<char> {
    name_letters(u, true).reverse().map_values(|b: u8| b as char)
}

proof fn lemma_name_letters_injective(u: nat, v: nat, first: bool)
    requires
        first || (u >= 1 && v >= 1),
        name_letters(u, first) == name_letters(v, first),
    ensures
        u == v,
    decreases u,
{
    let lu = name_letters(u, first);
    let lv = name_letters(v, first);
    let cu = ((u % 26) + 97) as u8;
    let cv = ((v % 26) + 97) as u8;
    assert(97 <= cu <= 122 && 97 <= cv <= 122);
    assert(lu[0] == if first { cu } else { (cu - 1) as u8 });
    assert(lv[0] == if first { cv } else { (cv - 1) as u8 });
    assert(lu[0] == lv[0]);
    assert(cu == cv);
    assert(u % 26 == v % 26);
    if u < 26 && v >= 26 {
        assert(lv.len() == 1 + name_letters(v / 26, false).len());
        assert(name_letters(v / 26, false).len() > 0) by {
            reveal_with_fuel(name_letters, 2);
        }
    } else if v < 26 && u >= 26 {
        assert(lu.len() == 1 + name_letters(u / 26, false).len());
        assert(name_letters(u / 26, false).len() > 0) by {
            reveal_with_fuel(name_letters, 2);
        }
    } else if u >= 26 && v >= 26 {
        assert(name_letters(u / 26, false) =~= lu.subrange(1, lu.len() as int));
        assert(name_letters(v / 26, false) =~= lv.subrange(1, lv.len() as int));
        lemma_name_letters_injective(u / 26, v / 26, false);
    }
}

/// Different unknown types are shown with different names.
pub proof fn law_unknown_names_distinct(u: nat, v: nat)
    requires
        u != v,
    ensures
        unknown_name(u) != unknown_name(v),
{
    if unknown_name(u) == unknown_name(v) {
        let lu = name_letters(u, true);
        let lv = name_letters(v, true);
        lemma_name_letters_range(u, true);
        lemma_name_letters_range(v, true);
        assert(unknown_name(u).len() == lu.len());
        assert(unknown_name(v).len() == lv.len());
        assert(lu.len() == lv.len());
        assert forall|k: int| 0 <= k < lu.len() implies lu[k] == lv[k] by {
            let j = lu.len() - 1 - k;
            assert(unknown_name(u)[j] == unknown_name(v)[j]);
            assert(lu.reverse()[j] == lu[k]);
            assert(lv.reverse()[j] == lv[k]);
            assert((lu[k] as char) == (lv[k] as char));
        }
        assert(lu =~= lv);
        lemma_name_letters_injective(u, v, true);
    }
}

proof fn lemma_name_letters_range(v: nat, first: bool)
    ensures
        forall|k: int| 0 <= k < name_letters(v, first).len() ==> 96 <= #[trigger] name_letters(v, first)[k] <= 122,
    decreases v,
{
    let c = ((v % 26) + 97) as u8;
    assert(97 <= c <= 122);
    if v >= 26 {
        lemma_name_letters_range(v / 26, false);
        let rest = name_letters(v / 26, false);
        let d = if first { c } else { (c - 1) as u8 };
        assert(name_letters(v, first) == seq![d] + rest);
        assert forall|k: int| 0 <= k < name_letters(v, first).len() implies 96 <= #[trigger] name_letters(v, first)[k] <= 122 by {
            if k > 0 {
                assert(name_letters(v, first)[k] == rest[k - 1]);
            }
        }
    }
}

fn clone_type(t: &Type) -> (r: Type)
    ensures
        r@ == t@,
    decreases t,
{
    match t {
        Type::Unknown(id) => Type::Unknown(*id),
        Type::Unit => Type::Unit,
        Type::Int => Type::Int,
        Type::Char => Type::Char,
        Type::Bool => Type::Bool,
        Type::Float => Type::Float,
        Type::Func { lhs, rhs } => Type::Func {
            lhs: Box::new(clone_type(lhs)),
            rhs: Box::new(clone_type(rhs)),
        },
        Type::Ref(inner) => Type::Ref(Box::new(clone_type(inner))),
        Type::Array { inner, dim_cnt } => Type::Array {
            inner: Box::new(clone_type(inner)),
            dim_cnt: *dim_cnt,
        },
        Type::Tuple(types) => {
            let mut out: Vec<Type> = Vec::new();
            let mut i: usize = 0;
            while i < types.len()
                invariant
                    *t == Type::Tuple(*types),
                    i <= types.len(),
                    out.len() == i,
                    forall|k: int| 0 <= k < i ==> #[trigger] view_type(out@[k]) == view_type(types@[k]),
                decreases types.len() - i,
            {
                proof {
                    assert(decreases_to!(*types => types@[i as int]));
                    assert(decreases_to!(*t => t->0));
                    assert(t->0 == *types);
                    assert(decreases_to!(*t => types@[i as int]));
                }
                let c = clone_type(&types[i]);
                out.push(c);
                i += 1;
            }
            proof {
                lemma_view_types(out@);
                lemma_view_types(types@);
                assert(view_types(out@) =~= view_types(types@));
            }
            Type::Tuple(out)
        },
        Type::Custom { id } => Type::Custom { id: id.clone() },
    }
}

impl Clone for Type {
    fn clone(&self) -> (r: Self)
        ensures
            r@ == self@,
    {
        clone_type(self)
    }
}

/// Whether two types are the same: unknown types by their ids, arrays by
/// their element types and dimensions, the others part by part.
pub fn same_type(a: &Type, b: &Type) -> (r: bool)
    ensures
        r == (a@ == b@),
    decreases a,
{
    match (a, b) {
        (Type::Unknown(x), Type::Unknown(y)) => *x == *y,
        (Type::Unit, Type::Unit) => true,
        (Type::Int, Type::Int) => true,
        (Type::Char, Type::Char) => true,
        (Type::Bool, Type::Bool) => true,
        (Type::Float, Type::Float) => true,
        (Type::Func { lhs: l1, rhs: r1 }, Type::Func { lhs: l2, rhs: r2 }) => {
            same_type(l1, l2) && same_type(r1, r2)
        },
        (Type::Ref(i1), Type::Ref(i2)) => same_type(i1, i2),
        (Type::Array { inner: i1, dim_cnt: d1 }, Type::Array { inner: i2, dim_cnt: d2 }) => {
            same_type(i1, i2) && *d1 == *d2
        },
        (Type::Tuple(t1), Type::Tuple(t2)) => {
            proof {
                lemma_view_types(t1@);
                lemma_view_types(t2@);
            }
            if t1.len() != t2.len() {
                return false;
            }
            let mut i: usize = 0;
            while i < t1.len()
                invariant
                    *a == Type::Tuple(*t1),
                    *b == Type::Tuple(*t2),
                    i <= t1.len(),
                    t1.len() == t2.len(),
                    forall|k: int| 0 <= k < i ==> #[trigger] view_type(t1@[k]) == view_type(t2@[k]),
                decreases t1.len() - i,
            {
                proof {
                    assert(decreases_to!(*t1 => t1@[i as int]));
                    assert(decreases_to!(*a => a->0));
                    assert(a->0 == *t1);
                    assert(decreases_to!(*a => t1@[i as int]));
                }
                if !same_type(&t1[i], &t2[i]) {
                    proof {
                        lemma_view_types(t1@);
                        lemma_view_types(t2@);
                        assert(view_types(t1@)[i as int] != view_types(t2@)[i as int]);
                    }
                    return false;
                }
                i += 1;
            }
            proof {
                lemma_view_types(t1@);
                lemma_view_types(t2@);
                assert(view_types(t1@) =~= view_types(t2@));
            }
            true
        },
        (Type::Custom { id: x }, Type::Custom { id: y }) => {
            crate::text::str_equal(x.as_str(), y.as_str())
        },
        _ => false,
    }
}

impl Type {
    /// The name an unknown type is shown with.
    pub fn unknown_id_to_name(u: u32) -> (r: String)
        ensures
            r@ == unknown_name(u as nat),
    {
        let mut acc: Vec<u8> = Vec::new();
        let mut v: u32 = u;
        loop
            invariant_except_break
                v <= u,
                acc@ + name_letters(v as nat, acc.len() == 0) == name_letters(u as nat, true),
            ensures
                acc@ == name_letters(u as nat, true),
            decreases v,
        {
            let c = (v % 26) as u8 + 97;
            let first = acc.len() == 0;
            acc.push(if first { c } else { c - 1 });
            if v < 26 {
                assert(acc@ =~= name_letters(u as nat, true));
                break;
            }
            assert(acc@ + name_letters((v / 26) as nat, false) =~= name_letters(u as nat, true));
            v = v / 26;
        }
        proof {
            lemma_name_letters_range(u as nat, true);
        }
        let mut rev: Vec<u8> = Vec::new();
        let mut i = acc.len();
        while i > 0
            invariant
                i <= acc.len(),
                acc@ == name_letters(u as nat, true),
                rev@ =~= acc@.subrange(i as int, acc.len() as int).reverse(),
                forall|k: int| 0 <= k < acc.len() ==> 96 <= #[trigger] acc@[k] <= 122,
            decreases i,
        {
            i -= 1;
            rev.push(acc[i]);
            assert(rev@ =~= acc@.subrange(i as int, acc.len() as int).reverse());
        }
        assert(acc@.subrange(0, acc.len() as int) =~= acc@);
        proof {
            assert(crate::text::is_ascii_bytes(rev@)) by {
                assert forall|k: int| 0 <= k < rev@.len() implies #[trigger] rev@[k] < 0x80 by {
                    assert(rev@[k] == acc@[acc.len() - 1 - k]);
                }
            }
        }
        crate::text::ascii_to_string(rev)
    }
}

impl Type {
    pub fn new_ref(inner: Type) -> (r: Type)
        ensures
            r@ == TypeV::Ref(Box::new(inner@)),
    {
        Type::Ref(Box::new(inner))
    }

    pub fn new_array(inner: Type, dim_cnt: ArrayDims) -> (r: Type)
        ensures
            r@ == TypeV::Array(Box::new(inner@), dim_cnt),
    {
        Type::Array { inner: Box::new(inner), dim_cnt }
    }

    pub fn new_known_array(inner: Type, dim_cnt: u32) -> (r: Type)
        ensures
            r@ == TypeV::Array(Box::new(inner@), ArrayDims::Known(dim_cnt)),
    {
        Self::new_array(inner, ArrayDims::Known(dim_cnt))
    }

    pub fn new_bounded_array(inner: Type, bound: u32) -> (r: Type)
        ensures
            r@ == TypeV::Array(Box::new(inner@), ArrayDims::LowerBounded(bound)),
    {
        Self::new_array(inner, ArrayDims::LowerBounded(bound))
    }

    pub fn new_func(lhs: Type, rhs: Type) -> (r: Type)
        ensures
            r@ == TypeV::Func(Box::new(lhs@), Box::new(rhs@)),
    {
        Type::Func { lhs: Box::new(lhs), rhs: Box::new(rhs) }
    }

    /// The function type that takes the arguments one at a time, in order,
    /// and then gives `ret`.
    pub fn new_multi_arg_func(args: Vec<Type>, ret: Type) -> (r: Type)
        ensures
            r@ == curried(view_types(args@), ret@),
    {
        let mut args = args;
        let ghost all = view_types(args@);
        let mut acc = ret;
        proof {
            lemma_view_types(args@);
        }
        while args.len() > 0
            invariant
                curried(view_types(args@), acc@) == curried(all, ret@),
            decreases args.len(),
        {
            let ghost before = args@;
            let arg = args.pop().unwrap();
            proof {
                assert(args@ =~= before.drop_last());
                assert(view_types(before) == view_types(args@).push(view_type(arg)));
                assert(view_types(before).drop_last() =~= view_types(args@));
            }
            acc = Type::new_func(arg, acc);
        }
        acc
    }

    pub fn new_tuple(types: Vec<Type>) -> (r: Type)
        ensures
            r@ == TypeV::Tuple(view_types(types@)),
    {
        Type::Tuple(types)
    }

    /// Whether the type holds no unknown type and no array whose number of
    /// dimensions is not known exactly.
    pub fn is_fully_known(&self) -> (r: bool)
        ensures
            r == fully_known(self@),
        decreases self,
    {
        match self {
            Type::Unknown(_) => false,
            Type::Func { lhs, rhs } => lhs.is_fully_known() && rhs.is_fully_known(),
            Type::Ref(inner) => inner.is_fully_known(),
            Type::Array { inner, dim_cnt } => inner.is_fully_known() && matches!(dim_cnt, ArrayDims::Known(_)),
            Type::Tuple(types) => {
                proof {
                    lemma_view_types(types@);
                    lemma_all_fully_known(view_types(types@));
                }
                let mut i: usize = 0;
                while i < types.len()
                    invariant
                        *self == Type::Tuple(*types),
                        i <= types.len(),
                        view_types(types@).len() == types.len(),
                        forall|k: int| 0 <= k < types.len() ==> #[trigger] view_types(types@)[k] == view_type(types@[k]),
                        all_fully_known(view_types(types@)) <==> forall|k: int| 0 <= k < types.len() ==> #[trigger] fully_known(view_types(types@)[k]),
                        forall|k: int| 0 <= k < i ==> #[trigger] fully_known(view_type(types@[k])),
                    decreases types.len() - i,
                {
                    proof {
                        assert(decreases_to!(*types => types@[i as int]));
                        assert(decreases_to!(*self => self->0));
                        assert(self->0 == *types);
                    }
                    if !types[i].is_fully_known() {
                        proof {
                            assert(!fully_known(view_types(types@)[i as int]));
                        }
                        return false;
                    }
                    i += 1;
                }
                proof {
                    assert forall|k: int| 0 <= k < types.len() implies #[trigger] fully_known(view_types(types@)[k]) by {
                        assert(fully_known(view_type(types@[k])));
                    }
                }
                true
            },
            _ => true,
        }
    }
}

} // verus!
