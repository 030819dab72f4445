//! A binary tree node container.
//!
//! Each [`BinTree`] owns a value and, optionally, a left and a right child
//! node, recursively forming a tree. Ownership of children is exclusive and
//! tree-shaped, so no aliasing or cycles can arise. "Left" and "right" are
//! purely positional labels; no ordering of values is implied.

use vstd::prelude::*;
use vstd::std_specs::iter::IteratorSpec;

verus! {

/// A binary tree.
pub struct BinTree<T> {
    inner: T,
    left: Option<Box<BinTree<T>>>,
    right: Option<Box<BinTree<T>>>,
}

/// The subtree stored in a child slot, with the owning box stripped.
pub open spec fn child_tree<T>(c: Option<Box<BinTree<T>>>) -> Option<BinTree<T>> {
    match c {
        Some(b) => Some(*b),
        None => None,
    }
}

/// The node count of an optional subtree: zero for an empty slot.
pub open spec fn child_len<T>(c: Option<BinTree<T>>) -> nat {
    match c {
        Some(t) => t.spec_len(),
        None => 0,
    }
}

/// The nodes an optional subtree contributes to a traversal: the child
/// itself first, then all of its own descendants; nothing for an empty slot.
pub open spec fn child_nodes<T>(c: Option<BinTree<T>>) -> Seq<BinTree<T>> {
    match c {
        Some(t) => seq![t] + t.descendants(),
        None => Seq::empty(),
    }
}

/// The trees behind a sequence of node references.
pub open spec fn deref_nodes<T>(s: Seq<&BinTree<T>>) -> Seq<BinTree<T>> {
    s.map_values(|n: &BinTree<T>| *n)
}

/// The values behind a sequence of value references.
pub open spec fn deref_values<T>(s: Seq<&T>) -> Seq<T> {
    s.map_values(|v: &T| *v)
}

/// Appends every element of `src` to `dst`, in order.
fn extend_refs<'a, T>(dst: &mut Vec<&'a BinTree<T>>, src: Vec<&'a BinTree<T>>)
    ensures
        final(dst)@ == old(dst)@ + src@,
{
    let ghost pre = dst@;
    let mut i: usize = 0;
    while i < src.len()
        invariant
            i <= src.len(),
            dst@ == pre + src@.subrange(0, i as int),
        decreases src.len() - i,
    {
        dst.push(src[i]);
        proof {
            assert(pre + src@.subrange(0, i as int) + seq![src@[i as int]] =~= pre
                + src@.subrange(0, i + 1));
        }
        i += 1;
    }
    proof {
        assert(src@.subrange(0, src@.len() as int) =~= src@);
    }
}

impl<T> BinTree<T> {
    /// The value held by this node.
    pub closed spec fn spec_inner(self) -> T {
        self.inner
    }

    /// The left subtree, if any.
    pub closed spec fn spec_left(self) -> Option<BinTree<T>> {
        child_tree(self.left)
    }

    /// The right subtree, if any.
    pub closed spec fn spec_right(self) -> Option<BinTree<T>> {
        child_tree(self.right)
    }

    /// A node holding `v` with both child slots empty.
    pub closed spec fn spec_leaf(v: T) -> BinTree<T> {
        BinTree { inner: v, left: None, right: None }
    }

    /// Total node count of the subtree rooted here, this node included.
    pub closed spec fn spec_len(self) -> nat
        decreases self,
    {
        1 + (match self.left {
            Some(l) => l.spec_len(),
            None => 0,
        }) + (match self.right {
            Some(r) => r.spec_len(),
            None => 0,
        })
    }

    /// Every node strictly below this one, in traversal order: the whole
    /// left subtree (child first), then the whole right subtree (child first).
    pub closed spec fn descendants(self) -> Seq<BinTree<T>>
        decreases self,
    {
        (match self.left {
            Some(l) => seq![*l] + l.descendants(),
            None => Seq::empty(),
        }) + (match self.right {
            Some(r) => seq![*r] + r.descendants(),
            None => Seq::empty(),
        })
    }

    /// This node's value followed by the values of `descendants`, in order.
    pub closed spec fn all_values(self) -> Seq<T> {
        seq![self.inner] + self.descendants().map_values(|n: BinTree<T>| n.spec_inner())
    }

    /// The node reached by following left children until a node has none.
    pub closed spec fn spec_leftmost(self) -> BinTree<T>
        decreases self,
    {
        match self.left {
            Some(l) => l.spec_leftmost(),
            None => self,
        }
    }

    /// The node reached by following right children until a node has none.
    pub closed spec fn spec_rightmost(self) -> BinTree<T>
        decreases self,
    {
        match self.right {
            Some(r) => r.spec_rightmost(),
            None => self,
        }
    }

    /// Creates a new binary tree root node.
    /// Left and right nodes are automatically set to `None`.
    pub fn new(inner: T) -> (r: Self)
        ensures
            r == Self::spec_leaf(inner),
            r.spec_inner() == inner,
            r.spec_left() is None,
            r.spec_right() is None,
            r.spec_len() == 1,
    {
        Self { inner, left: None, right: None }
    }

    /// Creates a new binary tree root node, but also allows immediately setting
    /// the left and right nodes, each as a freshly constructed leaf.
    pub fn new_with_nodes(inner: T, left: T, right: T) -> (r: Self)
        ensures
            r.spec_inner() == inner,
            r.spec_left() == Some(Self::spec_leaf(left)),
            r.spec_right() == Some(Self::spec_leaf(right)),
            r.spec_len() == 3,
            r.descendants() == seq![Self::spec_leaf(left), Self::spec_leaf(right)],
            r.all_values() == seq![inner, left, right],
    {
        let left_node = Self::new(left);
        let right_node = Self::new(right);

        let r = Self { inner, left: Some(Box::new(left_node)), right: Some(Box::new(right_node)) };
        proof {
            Self::lemma_leaf_parts(left);
            Self::lemma_leaf_parts(right);
            assert(r.descendants() =~= seq![Self::spec_leaf(left), Self::spec_leaf(right)]);
            assert(r.all_values() =~= seq![inner, left, right]);
        }
        r
    }

    /// Returns a boxed version of the node itself.
    pub fn boxed(self) -> (r: Box<Self>)
        ensures
            *r == self,
    {
        Box::new(self)
    }

    /// Sets the inner value of the node.
    pub fn set_inner(&mut self, value: T)
        ensures
            final(self).spec_inner() == value,
            final(self).spec_left() == old(self).spec_left(),
            final(self).spec_right() == old(self).spec_right(),
    {
        self.inner = value;
    }

    /// Sets the left child of the node: a freshly constructed leaf holding the
    /// given value, or an empty slot for `None`. Whatever subtree occupied the
    /// slot before is dropped.
    pub fn set_left(&mut self, value: Option<T>)
        ensures
            final(self).spec_inner() == old(self).spec_inner(),
            final(self).spec_right() == old(self).spec_right(),
            final(self).spec_left() == (match value {
                Some(v) => Some(Self::spec_leaf(v)),
                None => None,
            }),
    {
        if let Some(value) = value {
            self.left = Some(Self::new(value).boxed());
        } else {
            self.clear_left();
        }
    }

    /// Clears the node's left child, dropping any subtree that was there.
    /// This is the same as calling `set_left(None)` but it's more clear.
    pub fn clear_left(&mut self)
        ensures
            final(self).spec_inner() == old(self).spec_inner(),
            final(self).spec_right() == old(self).spec_right(),
            final(self).spec_left() is None,
    {
        self.left = None;
    }

    /// Sets the right child of the node: a freshly constructed leaf holding the
    /// given value, or an empty slot for `None`. Whatever subtree occupied the
    /// slot before is dropped.
    pub fn set_right(&mut self, value: Option<T>)
        ensures
            final(self).spec_inner() == old(self).spec_inner(),
            final(self).spec_left() == old(self).spec_left(),
            final(self).spec_right() == (match value {
                Some(v) => Some(Self::spec_leaf(v)),
                None => None,
            }),
    {
        if let Some(value) = value {
            self.right = Some(Self::new(value).boxed());
        } else {
            self.clear_right();
        }
    }

    /// Clears the node's right child, dropping any subtree that was there.
    /// This is the same as calling `set_right(None)` but it's more clear.
    pub fn clear_right(&mut self)
        ensures
            final(self).spec_inner() == old(self).spec_inner(),
            final(self).spec_left() == old(self).spec_left(),
            final(self).spec_right() is None,
    {
        self.right = None;
    }

    /// Returns a borrowed reference to the inner value of the node.
    pub fn get_inner(&self) -> (r: &T)
        ensures
            *r == self.spec_inner(),
    {
        &self.inner
    }

    /// Returns a borrowed mutable reference to the inner value of the node.
    pub fn get_inner_mut(&mut self) -> (r: &mut T)
        ensures
            *r == old(self).spec_inner(),
            final(self).spec_inner() == *final(r),
            final(self).spec_left() == old(self).spec_left(),
            final(self).spec_right() == old(self).spec_right(),
    {
        &mut self.inner
    }

    /// Returns the inner value of the node while also consuming the node
    /// itself; its children are dropped with it.
    pub fn take_inner(self) -> (r: T)
        ensures
            r == self.spec_inner(),
    {
        self.inner
    }

    /// Returns the left child of the node, or `None` if the slot is empty.
    pub fn get_left(&self) -> (r: Option<&Self>)
        ensures
            (match r {
                Some(l) => self.spec_left() == Some(*l),
                None => self.spec_left() is None,
            }),
    {
        match &self.left {
            Some(b) => Some(&**b),
            None => None,
        }
    }

    /// Returns a mutable reference to the left child of the node.
    pub fn get_left_mut(&mut self) -> (r: Option<&mut Self>)
        ensures
            (match r {
                Some(m) => old(self).spec_left() == Some(*m)
                    && final(self).spec_inner() == old(self).spec_inner()
                    && final(self).spec_right() == old(self).spec_right()
                    && final(self).spec_left() == Some(*final(m)),
                None => old(self).spec_left() is None && *final(self) == *old(self),
            }),
    {
        match &mut self.left {
            Some(b) => Some(&mut **b),
            None => None,
        }
    }

    /// Returns the left child's whole subtree while also consuming the node
    /// itself; the right child and the node's own value are dropped.
    pub fn take_left(self) -> (r: Option<Box<Self>>)
        ensures
            child_tree(r) == self.spec_left(),
    {
        self.left
    }

    /// Detaches and returns the left child's whole subtree, leaving `None` in
    /// its place; the node stays intact and usable.
    pub fn pop_left(&mut self) -> (r: Option<Box<Self>>)
        ensures
            child_tree(r) == old(self).spec_left(),
            final(self).spec_inner() == old(self).spec_inner(),
            final(self).spec_right() == old(self).spec_right(),
            final(self).spec_left() is None,
    {
        self.left.take()
    }

    /// Returns the right child of the node, or `None` if the slot is empty.
    pub fn get_right(&self) -> (r: Option<&Self>)
        ensures
            (match r {
                Some(n) => self.spec_right() == Some(*n),
                None => self.spec_right() is None,
            }),
    {
        match &self.right {
            Some(b) => Some(&**b),
            None => None,
        }
    }

    /// Returns a mutable reference to the right child of the node.
    pub fn get_right_mut(&mut self) -> (r: Option<&mut Self>)
        ensures
            (match r {
                Some(m) => old(self).spec_right() == Some(*m)
                    && final(self).spec_inner() == old(self).spec_inner()
                    && final(self).spec_left() == old(self).spec_left()
                    && final(self).spec_right() == Some(*final(m)),
                None => old(self).spec_right() is None && *final(self) == *old(self),
            }),
    {
        match &mut self.right {
            Some(b) => Some(&mut **b),
            None => None,
        }
    }

    /// Returns the right child's whole subtree while also consuming the node
    /// itself; the left child and the node's own value are dropped.
    pub fn take_right(self) -> (r: Option<Box<Self>>)
        ensures
            child_tree(r) == self.spec_right(),
    {
        self.right
    }

    /// Detaches and returns the right child's whole subtree, leaving `None` in
    /// its place; the node stays intact and usable.
    pub fn pop_right(&mut self) -> (r: Option<Box<Self>>)
        ensures
            child_tree(r) == old(self).spec_right(),
            final(self).spec_inner() == old(self).spec_inner(),
            final(self).spec_left() == old(self).spec_left(),
            final(self).spec_right() is None,
    {
        self.right.take()
    }

    /// Returns a tuple containing the inner value and, for each side, the
    /// immediate child's value only; the node and any grandchildren are
    /// dropped.
    pub fn collect_values(self) -> (r: (T, Option<T>, Option<T>))
        ensures
            r.0 == self.spec_inner(),
            r.1 == (match self.spec_left() {
                Some(l) => Some(l.spec_inner()),
                None => None,
            }),
            r.2 == (match self.spec_right() {
                Some(n) => Some(n.spec_inner()),
                None => None,
            }),
    {
        (
            self.inner,
            match self.left {
                Some(boxed) => Some(boxed.inner),
                None => None,
            },
            match self.right {
                Some(boxed) => Some(boxed.inner),
                None => None,
            },
        )
    }

    /// A fresh leaf holds exactly the value it was built from: both child
    /// slots are empty, it is its own single node, and its one collected
    /// value is that value.
    pub proof fn lemma_leaf_parts(v: T)
        ensures
            Self::spec_leaf(v).spec_inner() == v,
            Self::spec_leaf(v).spec_left() is None,
            Self::spec_leaf(v).spec_right() is None,
            Self::spec_leaf(v).spec_len() == 1,
            Self::spec_leaf(v).descendants() == Seq::<BinTree<T>>::empty(),
            Self::spec_leaf(v).all_values() == seq![v],
    {
        assert(Self::spec_leaf(v).descendants() =~= Seq::<BinTree<T>>::empty());
        assert(Self::spec_leaf(v).all_values() =~= seq![v]);
    }

    /// Two trees whose values and whose child subtrees are equal are the
    /// same tree.
    pub proof fn lemma_eq_from_parts(a: BinTree<T>, b: BinTree<T>)
        requires
            a.spec_inner() == b.spec_inner(),
            a.spec_left() == b.spec_left(),
            a.spec_right() == b.spec_right(),
        ensures
            a == b,
    {
    }

    /// Law: setting a child and then clearing it returns the child slot to
    /// empty; if the slot was empty to begin with, the whole tree is back in
    /// its original state.
    ///
    /// `t1` is `t` after `set_left(Some(x))`, as that call's contract
    /// describes it; `t2` is `t1` after `clear_left()`.
    pub proof fn lemma_set_then_clear_left(t: BinTree<T>, t1: BinTree<T>, t2: BinTree<T>, x: T)
        requires
            t1.spec_inner() == t.spec_inner(),
            t1.spec_right() == t.spec_right(),
            t1.spec_left() == Some(BinTree::spec_leaf(x)),
            t2.spec_inner() == t1.spec_inner(),
            t2.spec_right() == t1.spec_right(),
            t2.spec_left() is None,
        ensures
            t2.spec_left() is None,
            t.spec_left() is None ==> t2 == t,
    {
        if t.spec_left() is None {
            Self::lemma_eq_from_parts(t2, t);
        }
    }

    /// Law: setting a child and then clearing it returns the child slot to
    /// empty; if the slot was empty to begin with, the whole tree is back in
    /// its original state.
    ///
    /// `t1` is `t` after `set_right(Some(x))`, as that call's contract
    /// describes it; `t2` is `t1` after `clear_right()`.
    pub proof fn lemma_set_then_clear_right(t: BinTree<T>, t1: BinTree<T>, t2: BinTree<T>, x: T)
        requires
            t1.spec_inner() == t.spec_inner(),
            t1.spec_left() == t.spec_left(),
            t1.spec_right() == Some(BinTree::spec_leaf(x)),
            t2.spec_inner() == t1.spec_inner(),
            t2.spec_left() == t1.spec_left(),
            t2.spec_right() is None,
        ensures
            t2.spec_right() is None,
            t.spec_right() is None ==> t2 == t,
    {
        if t.spec_right() is None {
            Self::lemma_eq_from_parts(t2, t);
        }
    }

    /// Law: popping a child and then setting a fresh leaf in its place is,
    /// for subsequent reads, the same as setting the leaf directly on the
    /// original tree -- except that the detached subtree is gone: the total
    /// node count shrinks by the size of whatever subtree was popped and
    /// grows by the one new leaf.
    ///
    /// `t1` is `t` after `pop_left()`, as that call's contract describes it;
    /// `t2` is `t1` after `set_left(Some(v))`.
    pub proof fn lemma_pop_then_set_left(t: BinTree<T>, t1: BinTree<T>, t2: BinTree<T>, v: T)
        requires
            t1.spec_inner() == t.spec_inner(),
            t1.spec_right() == t.spec_right(),
            t1.spec_left() is None,
            t2.spec_inner() == t1.spec_inner(),
            t2.spec_right() == t1.spec_right(),
            t2.spec_left() == Some(BinTree::spec_leaf(v)),
        ensures
            t2.spec_inner() == t.spec_inner(),
            t2.spec_right() == t.spec_right(),
            t2.spec_left() == Some(BinTree::spec_leaf(v)),
            t2.spec_len() + child_len(t.spec_left()) == t.spec_len() + 1,
            t.spec_left() == Some(BinTree::spec_leaf(v)) ==> t2 == t,
    {
        t.lemma_len_parts();
        t2.lemma_len_parts();
        Self::lemma_leaf_parts(v);
        if t.spec_left() == Some(BinTree::spec_leaf(v)) {
            Self::lemma_eq_from_parts(t2, t);
        }
    }

    /// Law: popping a child and then setting a fresh leaf in its place is,
    /// for subsequent reads, the same as setting the leaf directly on the
    /// original tree -- except that the detached subtree is gone: the total
    /// node count shrinks by the size of whatever subtree was popped and
    /// grows by the one new leaf.
    ///
    /// `t1` is `t` after `pop_right()`, as that call's contract describes
    /// it; `t2` is `t1` after `set_right(Some(v))`.
    pub proof fn lemma_pop_then_set_right(t: BinTree<T>, t1: BinTree<T>, t2: BinTree<T>, v: T)
        requires
            t1.spec_inner() == t.spec_inner(),
            t1.spec_left() == t.spec_left(),
            t1.spec_right() is None,
            t2.spec_inner() == t1.spec_inner(),
            t2.spec_left() == t1.spec_left(),
            t2.spec_right() == Some(BinTree::spec_leaf(v)),
        ensures
            t2.spec_inner() == t.spec_inner(),
            t2.spec_left() == t.spec_left(),
            t2.spec_right() == Some(BinTree::spec_leaf(v)),
            t2.spec_len() + child_len(t.spec_right()) == t.spec_len() + 1,
            t.spec_right() == Some(BinTree::spec_leaf(v)) ==> t2 == t,
    {
        t.lemma_len_parts();
        t2.lemma_len_parts();
        Self::lemma_leaf_parts(v);
        if t.spec_right() == Some(BinTree::spec_leaf(v)) {
            Self::lemma_eq_from_parts(t2, t);
        }
    }

    /// Law: the descendants of a node are exactly the nodes of its left
    /// subtree -- the direct child before any of its own descendants --
    /// followed by the nodes of its right subtree in the same shape, so
    /// every left-subtree entry precedes every right-subtree entry; their
    /// number is the two subtree sizes added together.
    pub proof fn lemma_descendants_order(self)
        ensures
            self.descendants() == child_nodes(self.spec_left()) + child_nodes(self.spec_right()),
            self.descendants().len() == child_len(self.spec_left()) + child_len(
                self.spec_right(),
            ),
    {
        match self.left {
            Some(l) => l.lemma_len_descendants(),
            None => {},
        }
        match self.right {
            Some(r) => r.lemma_len_descendants(),
            None => {},
        }
        assert(self.descendants() =~= child_nodes(self.spec_left()) + child_nodes(
            self.spec_right(),
        ));
    }

    /// Law: the collected values are one per node -- as many as the tree's
    /// size -- and the first is always the root's own value.
    pub proof fn lemma_all_values_parts(self)
        ensures
            self.all_values().len() == self.spec_len(),
            self.all_values()[0] == self.spec_inner(),
    {
        self.lemma_len_descendants();
    }

    /// Law: on a tree with no left child the leftmost node is the root
    /// itself; otherwise it is the leftmost node of the left subtree, one
    /// step further down the chain.
    pub proof fn lemma_leftmost_step(self)
        ensures
            self.spec_left() is None ==> self.spec_leftmost() == self,
            self.spec_left() matches Some(l) ==> self.spec_leftmost() == l.spec_leftmost(),
    {
    }

    /// Law: on a tree with no right child the rightmost node is the root
    /// itself; otherwise it is the rightmost node of the right subtree, one
    /// step further down the chain.
    pub proof fn lemma_rightmost_step(self)
        ensures
            self.spec_right() is None ==> self.spec_rightmost() == self,
            self.spec_right() matches Some(r) ==> self.spec_rightmost() == r.spec_rightmost(),
    {
    }

    /// The subtree's node count is one more than the number of its
    /// descendants.
    pub proof fn lemma_len_descendants(self)
        ensures
            self.descendants().len() + 1 == self.spec_len(),
        decreases self,
    {
        match self.left {
            Some(l) => l.lemma_len_descendants(),
            None => {},
        }
        match self.right {
            Some(r) => r.lemma_len_descendants(),
            None => {},
        }
    }

    /// The subtree's node count is one for this node, plus the counts of the
    /// two child subtrees.
    pub proof fn lemma_len_parts(self)
        ensures
            self.spec_len() == 1 + child_len(self.spec_left()) + child_len(self.spec_right()),
    {
    }

    /// Calculate the amount of values the binary tree is holding.
    /// This method also counts the head node.
    pub fn len(&self) -> (r: usize)
        requires
            self.spec_len() <= usize::MAX,
        ensures
            r == self.spec_len(),
    {
        proof {
            self.lemma_len_descendants();
        }
        self.collect_nodes().len() + 1
    }

    /// Returns a `Vec` of references to all nodes strictly below this one.
    /// This allows browsing the tree as if it was an array.
    ///
    /// This method is recursive. Traveling left is prioritized: the whole left
    /// subtree comes before any node of the right subtree.
    pub fn collect_nodes(&self) -> (r: Vec<&BinTree<T>>)
        ensures
            deref_nodes(r@) == self.descendants(),
        decreases *self,
    {
        let mut values: Vec<&BinTree<T>> = Vec::new();

        match &self.left {
            Some(node) => {
                values.push(&**node);
                extend_refs(&mut values, node.collect_nodes());
            },
            None => {},
        }

        match &self.right {
            Some(node) => {
                values.push(&**node);
                extend_refs(&mut values, node.collect_nodes());
            },
            None => {},
        }

        proof {
            assert(deref_nodes(values@) =~= self.descendants());
        }
        values
    }

    /// Returns a `Vec` of references to all values the binary tree is holding.
    /// The returned array will always start with the head node's value.
    pub fn collect_all_values(&self) -> (r: Vec<&T>)
        ensures
            deref_values(r@) == self.all_values(),
    {
        let mut values: Vec<&T> = Vec::new();
        values.push(self.get_inner());
        let nodes = self.collect_nodes();
        let mut i: usize = 0;
        while i < nodes.len()
            invariant
                i <= nodes.len(),
                deref_nodes(nodes@) == self.descendants(),
                values@.len() == i + 1,
                *values@[0] == self.spec_inner(),
                forall|j: int|
                    1 <= j <= i ==> *(#[trigger] values@[j]) == self.descendants()[j - 1].spec_inner(),
            decreases nodes.len() - i,
        {
            values.push(nodes[i].get_inner());
            i += 1;
        }
        proof {
            assert(deref_values(values@) =~= self.all_values());
        }
        values
    }

    /// Creates a very simple `Vec` iterator by collecting all values using
    /// `collect_all_values`.
    ///
    /// This is equivalent to `collect_all_values().into_iter()`.
    ///
    /// Creating this kind of iterator may be slow, as the tree needs to be
    /// iterated to collect all the values first. Since `collect_all_values`
    /// returns references, not copies, the memory usage by the iterator should
    /// be roughly `size_of::<&T>() * tree.len()`.
    pub fn into_fast_iter(&self) -> (r: std::vec::IntoIter<&T>)
        ensures
            deref_values(r.remaining()) == self.all_values(),
    {
        self.collect_all_values().into_iter()
    }

    /// Returns the leftmost node in the tree: the root itself if it has no
    /// left child, else the end of the chain of left children.
    pub fn leftmost(&self) -> (r: &Self)
        ensures
            *r == self.spec_leftmost(),
    {
        let mut node: &Self = self;

        loop
            invariant
                node.spec_leftmost() == self.spec_leftmost(),
            decreases node.spec_len(),
        {
            match node.get_left() {
                Some(next) => {
                    proof {
                        node.lemma_len_parts();
                    }
                    node = next;
                },
                None => {
                    return node;
                },
            }
        }
    }

    /// Returns the rightmost node in the tree: the root itself if it has no
    /// right child, else the end of the chain of right children.
    pub fn rightmost(&self) -> (r: &Self)
        ensures
            *r == self.spec_rightmost(),
    {
        let mut node: &Self = self;

        loop
            invariant
                node.spec_rightmost() == self.spec_rightmost(),
            decreases node.spec_len(),
        {
            match node.get_right() {
                Some(next) => {
                    proof {
                        node.lemma_len_parts();
                    }
                    node = next;
                },
                None => {
                    return node;
                },
            }
        }
    }
}

impl<T: Clone> BinTree<T> {
    /// Whether this tree was obtained from `src` by deep-cloning: the two
    /// trees have exactly the same shape, and each value of this tree is a
    /// possible result of calling `T::clone` on the corresponding value of
    /// `src`.
    pub closed spec fn tree_cloned(self, src: BinTree<T>) -> bool
        decreases src,
    {
        &&& cloned::<T>(src.inner, self.inner)
        &&& (match (src.left, self.left) {
            (Some(a), Some(b)) => b.tree_cloned(*a),
            (None, None) => true,
            _ => false,
        })
        &&& (match (src.right, self.right) {
            (Some(a), Some(b)) => b.tree_cloned(*a),
            (None, None) => true,
            _ => false,
        })
    }

    /// Law: a deep clone has exactly the shape of its source -- the same
    /// size, the same slots filled, with clones of the source's subtrees in
    /// them -- and each of its values is a possible `T::clone` result of the
    /// corresponding source value. The clone owns all of its nodes, so
    /// mutating it cannot affect the source tree.
    pub proof fn lemma_cloned_shape(self, src: BinTree<T>)
        requires
            self.tree_cloned(src),
        ensures
            self.spec_len() == src.spec_len(),
            cloned::<T>(src.spec_inner(), self.spec_inner()),
            self.spec_left() is Some <==> src.spec_left() is Some,
            self.spec_right() is Some <==> src.spec_right() is Some,
            self.spec_left() matches Some(cl) ==> (src.spec_left() matches Some(sl)
                ==> cl.tree_cloned(sl)),
            self.spec_right() matches Some(cr) ==> (src.spec_right() matches Some(sr)
                ==> cr.tree_cloned(sr)),
        decreases src,
    {
        match (src.left, self.left) {
            (Some(a), Some(b)) => b.lemma_cloned_shape(*a),
            _ => {},
        }
        match (src.right, self.right) {
            (Some(a), Some(b)) => b.lemma_cloned_shape(*a),
            _ => {},
        }
    }

    /// Returns a cloned copy of the node's inner value.
    pub fn clone_inner(&self) -> (r: T)
        ensures
            cloned::<T>(self.spec_inner(), r),
    {
        self.inner.clone()
    }

    /// Returns a cloned copy of the left child's value, if there is one.
    pub fn clone_left(&self) -> (r: Option<T>)
        ensures
            (match r {
                Some(v) => self.spec_left() matches Some(l) && cloned::<T>(l.spec_inner(), v),
                None => self.spec_left() is None,
            }),
    {
        match &self.left {
            Some(boxed) => Some(boxed.clone_inner()),
            None => None,
        }
    }

    /// Returns a cloned copy of the right child's value, if there is one.
    pub fn clone_right(&self) -> (r: Option<T>)
        ensures
            (match r {
                Some(v) => self.spec_right() matches Some(n) && cloned::<T>(n.spec_inner(), v),
                None => self.spec_right() is None,
            }),
    {
        match &self.right {
            Some(boxed) => Some(boxed.clone_inner()),
            None => None,
        }
    }
}

impl<T: Clone> Clone for BinTree<T> {
    /// Deep-clones the value and both child subtrees, producing a fully
    /// independent tree that shares no ownership with the original.
    fn clone(&self) -> (res: Self)
        ensures
            res.tree_cloned(*self),
        decreases self,
    {
        BinTree {
            inner: self.inner.clone(),
            left: (match &self.left {
                Some(node) => Some(Box::new((&**node).clone())),
                None => None,
            }),
            right: (match &self.right {
                Some(node) => Some(Box::new((&**node).clone())),
                None => None,
            }),
        }
    }
}

} // verus!
