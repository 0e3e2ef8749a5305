use vstd::prelude::*;

use crate::sexp::{is_nil, spine_items, spine_length_is, truthy, Arena, Obj, SExp, Value};

verus! {

/// A view of one node together with the arena it belongs to.
pub struct Node<'a> {
    pub allocator: &'a Arena,
    pub node: Obj,
}

impl<'a> Node<'a> {
    pub fn new(allocator: &'a Arena, node: Obj) -> (r: Self)
        ensures
            r.allocator == allocator,
            r.node == node,
    {
        Node { allocator, node }
    }

    pub fn new_atom(&self, v: &[u8]) -> (r: Self)
        ensures
            r.allocator == self.allocator,
            r.node@ == Value::Atom(v@),
    {
        self.with_node(self.allocator.new_atom(v))
    }

    /// A pair of this node (left) and `right` (right).
    pub fn cons(&self, right: &Self) -> (r: Self)
        ensures
            r.allocator == self.allocator,
            r.node@ == Value::Pair(Box::new(self.node@), Box::new(right.node@)),
    {
        self.with_node(self.allocator.new_pair(&self.node, &right.node))
    }

    pub fn with_node(&self, node: Obj) -> (r: Self)
        ensures
            r.allocator == self.allocator,
            r.node == node,
    {
        Node::new(self.allocator, node)
    }

    pub fn sexp(&self) -> (r: SExp)
        ensures
            match self.node@ {
                Value::Atom(b) => r matches SExp::Atom(v) && v@ == b,
                Value::Pair(l, rt) => r matches SExp::Pair(x, y) && x@ == *l && y@ == *rt,
            },
    {
        self.allocator.sexp(&self.node)
    }

    /// The bytes of an atom; `None` for a pair.
    pub fn atom(&self) -> (r: Option<&[u8]>)
        ensures
            match self.node@ {
                Value::Atom(b) => r matches Some(a) && a@ == b,
                Value::Pair(_, _) => r is None,
            },
    {
        match &self.node {
            Obj::Atom(a) => Some(a.as_slice()),
            _ => None,
        }
    }

    /// The two children of a pair; `None` for an atom.
    pub fn pair(&self) -> (r: Option<(Node<'a>, Node<'a>)>)
        ensures
            match self.node@ {
                Value::Pair(l, rt) => r matches Some(p) && p.0.node@ == *l && p.1.node@ == *rt
                    && p.0.allocator == self.allocator && p.1.allocator == self.allocator,
                Value::Atom(_) => r is None,
            },
    {
        match self.sexp() {
            SExp::Pair(left, right) => Some((self.with_node(left), self.with_node(right))),
            _ => None,
        }
    }

    pub fn make_clone(&self) -> (r: Self)
        ensures
            r.allocator == self.allocator,
            r.node@ == self.node@,
    {
        self.with_node(self.allocator.make_clone(&self.node))
    }

    /// Whether this node is the empty atom.
    pub fn nullp(&self) -> (r: bool)
        ensures
            r == is_nil(self.node@),
    {
        match &self.node {
            Obj::Atom(a) => a.len() == 0,
            _ => false,
        }
    }

    /// Whether exactly `count` steps along the right spine lead to the empty atom.
    pub fn arg_count_is(&self, count: usize) -> (r: bool)
        ensures
            r == spine_length_is(self.node@, count as nat),
    {
        let mut left: usize = count;
        let mut ptr = self.make_clone();
        loop
            invariant
                spine_length_is(ptr.node@, left as nat) == spine_length_is(self.node@, count as nat),
            decreases left,
        {
            if left == 0 {
                return ptr.nullp();
            }
            match ptr.sexp() {
                SExp::Pair(_, new_ptr) => {
                    ptr = ptr.with_node(new_ptr);
                },
                _ => return false,
            }
            left = left - 1;
        }
    }

    pub fn null(&self) -> (r: Self)
        ensures
            r.allocator == self.allocator,
            r.node@ == Value::Atom(Seq::empty()),
    {
        self.with_node(self.allocator.null())
    }

    pub fn one(&self) -> (r: Self)
        ensures
            r.allocator == self.allocator,
            r.node@ == Value::Atom(seq![1u8]),
    {
        self.with_node(self.allocator.one())
    }

    /// False for the empty atom, true for every other node.
    pub fn as_bool(&self) -> (r: bool)
        ensures
            r == truthy(self.node@),
    {
        match self.atom() {
            Some(v0) => v0.len() != 0,
            _ => true,
        }
    }

    /// The arena's canonical node for `b`: the atom `1` or the empty atom.
    pub fn from_bool(&self, b: bool) -> (r: Self)
        ensures
            r.allocator == self.allocator,
            r.node@ == (if b { Value::Atom(seq![1u8]) } else { Value::Atom(Seq::empty()) }),
            truthy(r.node@) == b,
    {
        if b {
            self.one()
        } else {
            self.null()
        }
    }

    /// A fresh cursor over the right spine of this node.
    pub fn into_iter(&self) -> (r: Self)
        ensures
            r.allocator == self.allocator,
            r.node@ == self.node@,
    {
        self.make_clone()
    }

    /// Steps the cursor: the left child of a pair comes out and the cursor moves
    /// to the right child; at anything but a pair nothing comes out and the
    /// cursor stays.
    pub fn next(&mut self) -> (r: Option<Node<'a>>)
        ensures
            final(self).allocator == old(self).allocator,
            match old(self).node@ {
                Value::Pair(l, rt) => r matches Some(n) && n.node@ == *l && final(self).node@
                    == *rt && n.allocator == old(self).allocator,
                Value::Atom(_) => r is None && final(self).node@ == old(self).node@,
            },
    {
        match self.pair() {
            Some((first, rest)) => {
                self.node = rest.node;
                Some(first)
            },
            _ => None,
        }
    }

    /// Everything that the cursor hands out, in order, up to the first non-pair.
    pub fn items(&self) -> (r: Vec<Node<'a>>)
        ensures
            r@.len() == spine_items(self.node@).len(),
            forall|i: int|
                0 <= i < r@.len() ==> (#[trigger] r@[i]).node@ == spine_items(self.node@)[i]
                    && r@[i].allocator == self.allocator,
    {
        let mut out: Vec<Node<'a>> = Vec::new();
        let mut cur = self.into_iter();
        loop
            invariant
                cur.allocator == self.allocator,
                spine_items(self.node@) == out@.map_values(|n: Node<'a>| n.node@).add(
                    spine_items(cur.node@),
                ),
                forall|i: int| 0 <= i < out@.len() ==> (#[trigger] out@[i]).allocator == self.allocator,
            decreases cur.node@,
        {
            let ghost before = cur.node@;
            let ghost prev = out@;
            match cur.next() {
                Some(n) => {
                    proof {
                        let l = before->Pair_0;
                        let rt = before->Pair_1;
                        assert(spine_items(before) == seq![*l].add(spine_items(*rt)));
                    }
                    out.push(n);
                    assert(out@.map_values(|n: Node<'a>| n.node@) =~= prev.map_values(
                        |n: Node<'a>| n.node@,
                    ).push(*before->Pair_0));
                    assert(spine_items(self.node@) =~= out@.map_values(|n: Node<'a>| n.node@).add(
                        spine_items(cur.node@),
                    ));
                },
                None => {
                    assert(spine_items(cur.node@) =~= Seq::empty());
                    assert(spine_items(self.node@) =~= out@.map_values(|n: Node<'a>| n.node@));
                    return out;
                },
            }
        }
    }
}

} // verus!
