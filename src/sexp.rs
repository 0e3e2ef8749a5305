use vstd::prelude::*;

verus! {

/// The mathematical value of an S-expression: an atom holding a byte string,
/// or an ordered pair of two values.
pub enum Value {
    Atom(Seq<u8>),
    Pair(Box<Value>, Box<Value>),
}

/// A node as it is stored by the arena.
pub enum Obj {
    Atom(Vec<u8>),
    Pair(Box<Obj>, Box<Obj>),
}

pub open spec fn obj_value(o: Obj) -> Value
    decreases o,
{
    match o {
        Obj::Atom(v) => Value::Atom(v@),
        Obj::Pair(l, r) => Value::Pair(Box::new(obj_value(*l)), Box::new(obj_value(*r))),
    }
}

impl View for Obj {
    type V = Value;

    open spec fn view(&self) -> Value {
        obj_value(*self)
    }
}

/// The empty atom: false, nil, and the list terminator.
pub open spec fn is_nil(v: Value) -> bool {
    match v {
        Value::Atom(b) => b.len() == 0,
        Value::Pair(_, _) => false,
    }
}

/// Every value but the empty atom is true.
pub open spec fn truthy(v: Value) -> bool {
    !is_nil(v)
}

/// After exactly `n` steps to the right child the remaining value is nil.
pub open spec fn spine_length_is(v: Value, n: nat) -> bool
    decreases n,
{
    if n == 0 {
        is_nil(v)
    } else {
        match v {
            Value::Pair(_, r) => spine_length_is(*r, (n - 1) as nat),
            Value::Atom(_) => false,
        }
    }
}

/// The left children met while walking right along the spine, up to the first non-pair.
pub open spec fn spine_items(v: Value) -> Seq<Value>
    decreases v,
{
    match v {
        Value::Pair(l, r) => seq![*l].add(spine_items(*r)),
        Value::Atom(_) => Seq::empty(),
    }
}

/// What a node is: an atom with its bytes, or a pair with its two children.
pub enum SExp {
    Atom(Vec<u8>),
    Pair(Obj, Obj),
}

fn copy_bytes(v: &Vec<u8>) -> (r: Vec<u8>)
    ensures
        r@ == v@,
{
    let mut r: Vec<u8> = Vec::new();
    let mut i: usize = 0;
    while i < v.len()
        invariant
            i <= v.len(),
            r@ == v@.subrange(0, i as int),
        decreases v.len() - i,
    {
        r.push(v[i]);
        i = i + 1;
        assert(r@ =~= v@.subrange(0, i as int));
    }
    assert(r@ =~= v@);
    r
}

fn copy_obj(o: &Obj) -> (r: Obj)
    ensures
        r@ == o@,
    decreases o,
{
    match o {
        Obj::Atom(v) => Obj::Atom(copy_bytes(v)),
        Obj::Pair(l, r) => {
            let a = copy_obj(&**l);
            let b = copy_obj(&**r);
            Obj::Pair(Box::new(a), Box::new(b))
        },
    }
}

/// A heap arena: every node it hands out owns its storage, so building a node
/// never disturbs nodes built before. The price is that building a pair,
/// classifying a pair and cloning copy the subtrees involved.
pub struct Arena {}

impl Arena {
    pub fn new() -> (r: Arena) {
        Arena {}
    }

    pub fn new_atom(&self, v: &[u8]) -> (r: Obj)
        ensures
            r@ == Value::Atom(v@),
    {
        let mut b: Vec<u8> = Vec::new();
        let mut i: usize = 0;
        while i < v.len()
            invariant
                i <= v@.len(),
                b@ == v@.subrange(0, i as int),
            decreases v@.len() - i,
        {
            b.push(v[i]);
            i = i + 1;
            assert(b@ =~= v@.subrange(0, i as int));
        }
        assert(b@ =~= v@);
        Obj::Atom(b)
    }

    pub fn new_pair(&self, left: &Obj, right: &Obj) -> (r: Obj)
        ensures
            r@ == Value::Pair(Box::new(left@), Box::new(right@)),
    {
        Obj::Pair(Box::new(copy_obj(left)), Box::new(copy_obj(right)))
    }

    pub fn sexp(&self, p: &Obj) -> (r: SExp)
        ensures
            match p@ {
                Value::Atom(b) => r matches SExp::Atom(v) && v@ == b,
                Value::Pair(l, rt) => r matches SExp::Pair(x, y) && x@ == *l && y@ == *rt,
            },
    {
        match p {
            Obj::Atom(v) => SExp::Atom(copy_bytes(v)),
            Obj::Pair(l, r) => SExp::Pair(copy_obj(&**l), copy_obj(&**r)),
        }
    }

    pub fn make_clone(&self, p: &Obj) -> (r: Obj)
        ensures
            r@ == p@,
    {
        copy_obj(p)
    }

    pub fn null(&self) -> (r: Obj)
        ensures
            r@ == Value::Atom(Seq::empty()),
    {
        let r = Obj::Atom(Vec::new());
        assert(r@->Atom_0 =~= Seq::empty());
        r
    }

    pub fn one(&self) -> (r: Obj)
        ensures
            r@ == Value::Atom(seq![1u8]),
    {
        let mut v: Vec<u8> = Vec::new();
        v.push(1);
        let r = Obj::Atom(v);
        assert(r@->Atom_0 =~= seq![1u8]);
        r
    }
}

} // verus!
