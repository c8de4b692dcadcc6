//! The quadtree as a mathematical tree: what a tree is, what inserting does
//! to it, and what holds of every tree that was built by inserting.

use crate::ecs::{Entity, Position};
use crate::quadtree::rect::{
    lemma_cut_line_goes_west, lemma_quarters_tile, Quadrant, Rectangle,
};
use vstd::multiset::Multiset;
use vstd::prelude::*;

verus! {

/// The deepest level of a tree; the root is at level 0. A leaf above this
/// level holds one entity at most and splits when a second arrives. A leaf
/// at this level never splits: it keeps every entity that reaches it, so
/// that entities at one and the same position end in one leaf.
pub const MAX_LEVEL: usize = 20;

/// A node with everything below it.
pub enum Tree {
    /// A node that holds entities itself, in the order of their arrival.
    Leaf { bounds: Rectangle, level: nat, held: Seq<Entity> },
    /// A node that holds four children and no entity.
    Inner {
        bounds: Rectangle,
        level: nat,
        nw: Box<Tree>,
        ne: Box<Tree>,
        sw: Box<Tree>,
        se: Box<Tree>,
    },
}

impl Tree {
    /// The region of the node.
    pub open spec fn bounds(self) -> Rectangle {
        match self {
            Tree::Leaf { bounds, .. } => bounds,
            Tree::Inner { bounds, .. } => bounds,
        }
    }

    /// The depth of the node below the root.
    pub open spec fn level(self) -> nat {
        match self {
            Tree::Leaf { level, .. } => level,
            Tree::Inner { level, .. } => level,
        }
    }

    /// 1 for a leaf and 0 for an inner node: a leaf that splits becomes an
    /// inner node at the same level.
    pub open spec fn rank(self) -> nat {
        if self is Leaf {
            1
        } else {
            0
        }
    }

    /// The child in quarter `q` of an inner node.
    pub open spec fn child(self, q: Quadrant) -> Tree
        recommends
            self is Inner,
    {
        match self {
            Tree::Leaf { .. } => self,
            Tree::Inner { nw, ne, sw, se, .. } => match q {
                Quadrant::NW => *nw,
                Quadrant::NE => *ne,
                Quadrant::SW => *sw,
                Quadrant::SE => *se,
            },
        }
    }

    /// A leaf that holds nothing.
    pub open spec fn empty(bounds: Rectangle, level: nat) -> Tree {
        Tree::Leaf { bounds, level, held: Seq::empty() }
    }

    /// A leaf that holds `e` alone.
    pub open spec fn single(bounds: Rectangle, level: nat, e: Entity) -> Tree {
        Tree::Leaf { bounds, level, held: seq![e] }
    }

    /// The shape is that of a quadtree: regions are valid, no node lies
    /// below the deepest level, a leaf above that level holds one entity at
    /// most, and the children of a node are one level down, each on its
    /// quarter of the node's region.
    pub open spec fn wf(self) -> bool
        decreases self,
    {
        match self {
            Tree::Leaf { bounds, level, held } => {
                &&& bounds.valid()
                &&& level <= MAX_LEVEL
                &&& level < MAX_LEVEL ==> held.len() <= 1
            },
            Tree::Inner { bounds, level, nw, ne, sw, se } => {
                &&& bounds.valid()
                &&& level < MAX_LEVEL
                &&& nw.fits(bounds, level, Quadrant::NW)
                &&& ne.fits(bounds, level, Quadrant::NE)
                &&& sw.fits(bounds, level, Quadrant::SW)
                &&& se.fits(bounds, level, Quadrant::SE)
                &&& nw.wf()
                &&& ne.wf()
                &&& sw.wf()
                &&& se.wf()
            },
        }
    }

    /// Whether the node can be the child in quarter `q` of a node with the
    /// given region and level.
    pub open spec fn fits(self, parent: Rectangle, parent_level: nat, q: Quadrant) -> bool {
        &&& self.bounds() == parent.quarter(q)
        &&& self.level() == parent_level + 1
    }

    /// The entities of the tree: those of a leaf in the order of their
    /// arrival, those of an inner node quarter by quarter, `NW`, `NE`, `SW`,
    /// `SE`.
    pub open spec fn flatten(self) -> Seq<Entity>
        decreases self,
    {
        match self {
            Tree::Leaf { held, .. } => held,
            Tree::Inner { nw, ne, sw, se, .. } => nw.flatten() + ne.flatten() + sw.flatten()
                + se.flatten(),
        }
    }

    /// The regions to outline: for every inner node those of its four
    /// children, then what its children give, quarter by quarter.
    pub open spec fn outlines(self) -> Seq<Rectangle>
        decreases self,
    {
        match self {
            Tree::Leaf { .. } => Seq::empty(),
            Tree::Inner { nw, ne, sw, se, .. } => seq![
                nw.bounds(),
                ne.bounds(),
                sw.bounds(),
                se.bounds(),
            ] + nw.outlines() + ne.outlines() + sw.outlines() + se.outlines(),
        }
    }

    /// Every entity of the tree is where its position sends it: it has a
    /// position, the region of its leaf contains that position, and at every
    /// inner node above it the entity is in the quarter that takes the
    /// position.
    pub open spec fn placed(self, positions: Map<Entity, Position>) -> bool
        decreases self,
    {
        match self {
            Tree::Leaf { bounds, held, .. } => forall|i: int|
                0 <= i < held.len() ==> positions.contains_key(#[trigger] held[i])
                    && bounds.contains(positions[held[i]]),
            Tree::Inner { bounds, nw, ne, sw, se, .. } => {
                &&& nw.placed(positions)
                &&& ne.placed(positions)
                &&& sw.placed(positions)
                &&& se.placed(positions)
                &&& nw.sent_to(bounds, Quadrant::NW, positions)
                &&& ne.sent_to(bounds, Quadrant::NE, positions)
                &&& sw.sent_to(bounds, Quadrant::SW, positions)
                &&& se.sent_to(bounds, Quadrant::SE, positions)
            },
        }
    }

    /// Every entity of the tree has a position that a node with region
    /// `parent` sends to quarter `q`.
    pub open spec fn sent_to(
        self,
        parent: Rectangle,
        q: Quadrant,
        positions: Map<Entity, Position>,
    ) -> bool {
        forall|e: Entity| #[trigger]
            self.flatten().contains(e) ==> positions.contains_key(e) && parent.route(positions[e])
                == Some(q)
    }

    /// The node after a split: an inner node on the same region whose four
    /// children are empty leaves. A node at the deepest level does not split.
    pub open spec fn split(self) -> Tree {
        if self.level() >= MAX_LEVEL {
            self
        } else {
            Tree::Inner {
                bounds: self.bounds(),
                level: self.level(),
                nw: Box::new(Tree::empty(self.bounds().quarter(Quadrant::NW), self.level() + 1)),
                ne: Box::new(Tree::empty(self.bounds().quarter(Quadrant::NE), self.level() + 1)),
                sw: Box::new(Tree::empty(self.bounds().quarter(Quadrant::SW), self.level() + 1)),
                se: Box::new(Tree::empty(self.bounds().quarter(Quadrant::SE), self.level() + 1)),
            }
        }
    }

    /// What quarter `q` of a leaf holds once the leaf has split and both its
    /// `resident` and the `incoming` entity have been sent down: one of them,
    /// none, or `both`, the subtree in which the two met again.
    pub open spec fn quarter_after_split(
        parent: Rectangle,
        parent_level: nat,
        q: Quadrant,
        resident: Entity,
        incoming: Entity,
        positions: Map<Entity, Position>,
        both: Tree,
    ) -> Tree {
        let takes_incoming = positions.contains_key(incoming) && parent.route(positions[incoming])
            == Some(q);
        let takes_resident = positions.contains_key(resident) && parent.route(positions[resident])
            == Some(q);
        if takes_incoming && takes_resident {
            both
        } else if takes_incoming {
            Tree::single(parent.quarter(q), parent_level + 1, incoming)
        } else if takes_resident {
            Tree::single(parent.quarter(q), parent_level + 1, resident)
        } else {
            Tree::empty(parent.quarter(q), parent_level + 1)
        }
    }

    /// The tree that a leaf with the given region and level becomes when it
    /// holds `resident` and `incoming` arrives. At the deepest level it
    /// keeps both. Above it the leaf splits; the incoming entity is sent
    /// down first, then the resident. Where both go to the same quarter, the
    /// same happens there, one level down, with the incoming entity as the
    /// resident. An entity without a position is dropped.
    pub open spec fn collide(
        bounds: Rectangle,
        level: nat,
        resident: Entity,
        incoming: Entity,
        positions: Map<Entity, Position>,
    ) -> Tree
        decreases MAX_LEVEL - level,
    {
        if level >= MAX_LEVEL {
            Tree::Leaf { bounds, level, held: seq![resident, incoming] }
        } else {
            Tree::Inner {
                bounds,
                level,
                nw: Box::new(
                    Self::quarter_after_split(
                        bounds,
                        level,
                        Quadrant::NW,
                        resident,
                        incoming,
                        positions,
                        Self::collide(
                            bounds.quarter(Quadrant::NW),
                            level + 1,
                            incoming,
                            resident,
                            positions,
                        ),
                    ),
                ),
                ne: Box::new(
                    Self::quarter_after_split(
                        bounds,
                        level,
                        Quadrant::NE,
                        resident,
                        incoming,
                        positions,
                        Self::collide(
                            bounds.quarter(Quadrant::NE),
                            level + 1,
                            incoming,
                            resident,
                            positions,
                        ),
                    ),
                ),
                sw: Box::new(
                    Self::quarter_after_split(
                        bounds,
                        level,
                        Quadrant::SW,
                        resident,
                        incoming,
                        positions,
                        Self::collide(
                            bounds.quarter(Quadrant::SW),
                            level + 1,
                            incoming,
                            resident,
                            positions,
                        ),
                    ),
                ),
                se: Box::new(
                    Self::quarter_after_split(
                        bounds,
                        level,
                        Quadrant::SE,
                        resident,
                        incoming,
                        positions,
                        Self::collide(
                            bounds.quarter(Quadrant::SE),
                            level + 1,
                            incoming,
                            resident,
                            positions,
                        ),
                    ),
                ),
            }
        }
    }

    /// The tree after `e` was inserted. An entity without a position leaves
    /// the tree as it is. At an inner node the entity goes to the quarter
    /// that takes its position, and nowhere if none does. An empty leaf
    /// takes it, and so does a leaf at the deepest level; any other leaf
    /// splits, see `collide`.
    pub open spec fn insert(self, positions: Map<Entity, Position>, e: Entity) -> Tree
        decreases self,
    {
        if !positions.contains_key(e) {
            self
        } else {
            match self {
                Tree::Leaf { bounds, level, held } => {
                    if held.len() == 0 || level >= MAX_LEVEL {
                        Tree::Leaf { bounds, level, held: held.push(e) }
                    } else {
                        Self::collide(bounds, level, held[0], e, positions)
                    }
                },
                Tree::Inner { bounds, level, nw, ne, sw, se } => {
                    match bounds.route(positions[e]) {
                        Some(Quadrant::NW) => Tree::Inner {
                            bounds,
                            level,
                            nw: Box::new(nw.insert(positions, e)),
                            ne,
                            sw,
                            se,
                        },
                        Some(Quadrant::NE) => Tree::Inner {
                            bounds,
                            level,
                            nw,
                            ne: Box::new(ne.insert(positions, e)),
                            sw,
                            se,
                        },
                        Some(Quadrant::SW) => Tree::Inner {
                            bounds,
                            level,
                            nw,
                            ne,
                            sw: Box::new(sw.insert(positions, e)),
                            se,
                        },
                        Some(Quadrant::SE) => Tree::Inner {
                            bounds,
                            level,
                            nw,
                            ne,
                            sw,
                            se: Box::new(se.insert(positions, e)),
                        },
                        None => self,
                    }
                },
            }
        }
    }

    /// The tree after the entities of `es` were inserted one by one, first
    /// to last.
    pub open spec fn insert_all(self, positions: Map<Entity, Position>, es: Seq<Entity>) -> Tree
        decreases es.len(),
    {
        if es.len() == 0 {
            self
        } else {
            self.insert_all(positions, es.drop_last()).insert(positions, es.last())
        }
    }

    /// The tree built anew: an empty leaf on the same region, into which
    /// the entities of the old tree were inserted in the order of `flatten`.
    pub open spec fn rebuilt(self, positions: Map<Entity, Position>) -> Tree {
        Tree::empty(self.bounds(), self.level()).insert_all(positions, self.flatten())
    }
}

/// A split keeps the shape, and leaves no entity in the node.
pub proof fn lemma_split(t: Tree)
    requires
        t.wf(),
    ensures
        t.split().wf(),
        t.split().bounds() == t.bounds(),
        t.split().level() == t.level(),
        t.level() < MAX_LEVEL ==> t.split().flatten() == Seq::<Entity>::empty(),
{
    lemma_quarters_tile(t.bounds(), Position { x: 0, y: 0 });
    if t.level() < MAX_LEVEL {
        let b = t.bounds();
        let l = t.level() + 1;
        assert(Tree::empty(b.quarter(Quadrant::NW), l as nat).wf());
        assert(Tree::empty(b.quarter(Quadrant::NE), l as nat).wf());
        assert(Tree::empty(b.quarter(Quadrant::SW), l as nat).wf());
        assert(Tree::empty(b.quarter(Quadrant::SE), l as nat).wf());
        assert(Tree::empty(b.quarter(Quadrant::NW), l as nat).flatten() =~= Seq::empty());
        assert(Tree::empty(b.quarter(Quadrant::NE), l as nat).flatten() =~= Seq::empty());
        assert(Tree::empty(b.quarter(Quadrant::SW), l as nat).flatten() =~= Seq::empty());
        assert(Tree::empty(b.quarter(Quadrant::SE), l as nat).flatten() =~= Seq::empty());
    }
}

/// Whatever a quarter holds after a split has the shape of a child there.
proof fn lemma_quarter_after_split_shape(
    parent: Rectangle,
    parent_level: nat,
    q: Quadrant,
    resident: Entity,
    incoming: Entity,
    positions: Map<Entity, Position>,
    both: Tree,
)
    requires
        parent.valid(),
        parent_level < MAX_LEVEL,
        both.wf(),
        both.fits(parent, parent_level, q),
    ensures
        Tree::quarter_after_split(parent, parent_level, q, resident, incoming, positions, both).wf(),
        Tree::quarter_after_split(
            parent,
            parent_level,
            q,
            resident,
            incoming,
            positions,
            both,
        ).fits(parent, parent_level, q),
{
    lemma_quarters_tile(parent, Position { x: 0, y: 0 });
}

/// What a collision leaves has the shape of a quadtree, on the region and at
/// the level of the leaf.
pub proof fn lemma_collide_shape(
    bounds: Rectangle,
    level: nat,
    resident: Entity,
    incoming: Entity,
    positions: Map<Entity, Position>,
)
    requires
        bounds.valid(),
        level <= MAX_LEVEL,
    ensures
        Tree::collide(bounds, level, resident, incoming, positions).wf(),
        Tree::collide(bounds, level, resident, incoming, positions).bounds() == bounds,
        Tree::collide(bounds, level, resident, incoming, positions).level() == level,
    decreases MAX_LEVEL - level,
{
    if level < MAX_LEVEL {
        lemma_quarters_tile(bounds, Position { x: 0, y: 0 });
        let below = (level + 1) as nat;
        lemma_collide_shape(bounds.quarter(Quadrant::NW), below, incoming, resident, positions);
        lemma_collide_shape(bounds.quarter(Quadrant::NE), below, incoming, resident, positions);
        lemma_collide_shape(bounds.quarter(Quadrant::SW), below, incoming, resident, positions);
        lemma_collide_shape(bounds.quarter(Quadrant::SE), below, incoming, resident, positions);
        lemma_quarter_after_split_shape(
            bounds,
            level,
            Quadrant::NW,
            resident,
            incoming,
            positions,
            Tree::collide(bounds.quarter(Quadrant::NW), below, incoming, resident, positions),
        );
        lemma_quarter_after_split_shape(
            bounds,
            level,
            Quadrant::NE,
            resident,
            incoming,
            positions,
            Tree::collide(bounds.quarter(Quadrant::NE), below, incoming, resident, positions),
        );
        lemma_quarter_after_split_shape(
            bounds,
            level,
            Quadrant::SW,
            resident,
            incoming,
            positions,
            Tree::collide(bounds.quarter(Quadrant::SW), below, incoming, resident, positions),
        );
        lemma_quarter_after_split_shape(
            bounds,
            level,
            Quadrant::SE,
            resident,
            incoming,
            positions,
            Tree::collide(bounds.quarter(Quadrant::SE), below, incoming, resident, positions),
        );
    }
}

/// Inserting keeps the shape of a quadtree, and the region and level of the
/// root.
pub proof fn lemma_insert_shape(t: Tree, positions: Map<Entity, Position>, e: Entity)
    requires
        t.wf(),
    ensures
        t.insert(positions, e).wf(),
        t.insert(positions, e).bounds() == t.bounds(),
        t.insert(positions, e).level() == t.level(),
        t is Inner ==> t.insert(positions, e) is Inner,
    decreases t,
{
    if positions.contains_key(e) {
        match t {
            Tree::Leaf { bounds, level, held } => {
                if !(held.len() == 0 || level >= MAX_LEVEL) {
                    lemma_collide_shape(bounds, level, held[0], e, positions);
                }
            },
            Tree::Inner { bounds, level, nw, ne, sw, se } => {
                match bounds.route(positions[e]) {
                    Some(Quadrant::NW) => lemma_insert_shape(*nw, positions, e),
                    Some(Quadrant::NE) => lemma_insert_shape(*ne, positions, e),
                    Some(Quadrant::SW) => lemma_insert_shape(*sw, positions, e),
                    Some(Quadrant::SE) => lemma_insert_shape(*se, positions, e),
                    None => {},
                }
            },
        }
    }
}

/// Inserting at an inner node changes the child that takes the position of
/// the entity, and nothing else.
pub proof fn lemma_insert_at_inner(t: Tree, positions: Map<Entity, Position>, e: Entity)
    requires
        t is Inner,
    ensures
        t.insert(positions, e) is Inner,
        t.insert(positions, e).bounds() == t.bounds(),
        t.insert(positions, e).level() == t.level(),
        forall|q: Quadrant| #[trigger]
            t.insert(positions, e).child(q) == if positions.contains_key(e) && t.bounds().route(
                positions[e],
            ) == Some(q) {
                t.child(q).insert(positions, e)
            } else {
                t.child(q)
            },
{
}

/// An inner node is its region, its level and its four children.
pub proof fn lemma_inner_by_children(a: Tree, b: Tree)
    requires
        a is Inner,
        b is Inner,
        a.bounds() == b.bounds(),
        a.level() == b.level(),
        forall|q: Quadrant| #[trigger] a.child(q) == b.child(q),
    ensures
        a == b,
{
    assert(a.child(Quadrant::NW) == b.child(Quadrant::NW));
    assert(a.child(Quadrant::NE) == b.child(Quadrant::NE));
    assert(a.child(Quadrant::SW) == b.child(Quadrant::SW));
    assert(a.child(Quadrant::SE) == b.child(Quadrant::SE));
}

/// A leaf that holds one entity and takes a second above the deepest level
/// ends as if it had split and then taken the second and the first, in this
/// order.
pub proof fn lemma_collide_is_split_then_insert(
    leaf: Tree,
    positions: Map<Entity, Position>,
    incoming: Entity,
)
    requires
        leaf is Leaf,
        leaf.level() < MAX_LEVEL,
        leaf->held.len() > 0,
        positions.contains_key(incoming),
    ensures
        leaf.insert(positions, incoming) == leaf.split().insert(positions, incoming).insert(
            positions,
            leaf->held[0],
        ),
{
    let bounds = leaf.bounds();
    let below = (leaf.level() + 1) as nat;
    let resident = leaf->held[0];
    let first = leaf.split().insert(positions, incoming);
    let second = first.insert(positions, resident);
    let target = Tree::collide(bounds, leaf.level(), resident, incoming, positions);
    lemma_insert_at_inner(leaf.split(), positions, incoming);
    lemma_insert_at_inner(first, positions, resident);
    assert forall|q: Quadrant| #[trigger] second.child(q) == target.child(q) by {
        assert(seq![incoming].push(resident) =~= seq![incoming, resident]);
    }
    lemma_inner_by_children(second, target);
}

/// The entities of an inner node are those of its four children together.
pub proof fn lemma_members_of_inner(t: Tree)
    requires
        t is Inner,
    ensures
        t.flatten().to_multiset() =~= t.child(Quadrant::NW).flatten().to_multiset().add(
            t.child(Quadrant::NE).flatten().to_multiset(),
        ).add(t.child(Quadrant::SW).flatten().to_multiset()).add(
            t.child(Quadrant::SE).flatten().to_multiset(),
        ),
{
    let nw = t.child(Quadrant::NW).flatten();
    let ne = t.child(Quadrant::NE).flatten();
    let sw = t.child(Quadrant::SW).flatten();
    let se = t.child(Quadrant::SE).flatten();
    vstd::seq_lib::lemma_multiset_commutative(nw, ne);
    vstd::seq_lib::lemma_multiset_commutative(nw + ne, sw);
    vstd::seq_lib::lemma_multiset_commutative(nw + ne + sw, se);
}

/// The entities that quarter `q` takes of the two given ones.
pub open spec fn taken(
    parent: Rectangle,
    q: Quadrant,
    first: Entity,
    second: Entity,
    positions: Map<Entity, Position>,
) -> Multiset<Entity> {
    let of_first = if parent.route(positions[first]) == Some(q) {
        Multiset::singleton(first)
    } else {
        Multiset::empty()
    };
    let of_second = if parent.route(positions[second]) == Some(q) {
        Multiset::singleton(second)
    } else {
        Multiset::empty()
    };
    of_first.add(of_second)
}

/// After a split each quarter holds what it takes of the two entities, each
/// in its place.
proof fn lemma_quarter_after_split_conserves(
    parent: Rectangle,
    parent_level: nat,
    q: Quadrant,
    resident: Entity,
    incoming: Entity,
    positions: Map<Entity, Position>,
    both: Tree,
)
    requires
        parent.valid(),
        positions.contains_key(resident),
        positions.contains_key(incoming),
        parent.route(positions[resident]) == Some(q) && parent.route(positions[incoming]) == Some(
            q,
        ) ==> both.placed(positions) && both.flatten().to_multiset()
            =~= Multiset::singleton(incoming).add(Multiset::singleton(resident)),
    ensures
        Tree::quarter_after_split(
            parent,
            parent_level,
            q,
            resident,
            incoming,
            positions,
            both,
        ).placed(positions),
        Tree::quarter_after_split(
            parent,
            parent_level,
            q,
            resident,
            incoming,
            positions,
            both,
        ).sent_to(parent, q, positions),
        Tree::quarter_after_split(
            parent,
            parent_level,
            q,
            resident,
            incoming,
            positions,
            both,
        ).flatten().to_multiset() =~= taken(parent, q, incoming, resident, positions),
{
    let c = Tree::quarter_after_split(parent, parent_level, q, resident, incoming, positions, both);
    lemma_quarters_tile(parent, positions[resident]);
    lemma_quarters_tile(parent, positions[incoming]);
    vstd::seq_lib::to_multiset_build(Seq::<Entity>::empty(), incoming);
    vstd::seq_lib::to_multiset_build(Seq::<Entity>::empty(), resident);
    assert(Seq::<Entity>::empty().to_multiset() =~= Multiset::empty()) by {
        Seq::<Entity>::empty().to_multiset_ensures();
    }
    assert forall|e: Entity| #[trigger] c.flatten().contains(e) implies positions.contains_key(e)
        && parent.route(positions[e]) == Some(q) by {
        vstd::seq_lib::to_multiset_contains(c.flatten(), e);
    }
}

/// A collision loses nothing and adds nothing: what it leaves holds the two
/// entities, each once (twice, where they are one and the same), each in its
/// place.
pub proof fn lemma_collide_conserves(
    bounds: Rectangle,
    level: nat,
    resident: Entity,
    incoming: Entity,
    positions: Map<Entity, Position>,
)
    requires
        bounds.valid(),
        level <= MAX_LEVEL,
        positions.contains_key(resident),
        positions.contains_key(incoming),
        bounds.contains(positions[resident]),
        bounds.contains(positions[incoming]),
    ensures
        Tree::collide(bounds, level, resident, incoming, positions).placed(positions),
        Tree::collide(bounds, level, resident, incoming, positions).flatten().to_multiset()
            =~= Multiset::singleton(resident).add(Multiset::singleton(incoming)),
    decreases MAX_LEVEL - level,
{
    let t = Tree::collide(bounds, level, resident, incoming, positions);
    if level >= MAX_LEVEL {
        assert(t.flatten() =~= Seq::<Entity>::empty().push(resident).push(incoming));
        vstd::seq_lib::to_multiset_build(Seq::<Entity>::empty(), resident);
        vstd::seq_lib::to_multiset_build(Seq::<Entity>::empty().push(resident), incoming);
        Seq::<Entity>::empty().to_multiset_ensures();
    } else {
        let below = (level + 1) as nat;
        lemma_quarters_tile(bounds, positions[resident]);
        lemma_quarters_tile(bounds, positions[incoming]);
        assert forall|q: Quadrant|
            {
                let c = #[trigger] t.child(q);
                &&& c.placed(positions)
                &&& c.sent_to(bounds, q, positions)
                &&& c.flatten().to_multiset() =~= taken(bounds, q, incoming, resident, positions)
            } by {
            let both = Tree::collide(bounds.quarter(q), below, incoming, resident, positions);
            if bounds.route(positions[resident]) == Some(q) && bounds.route(positions[incoming])
                == Some(q) {
                lemma_collide_conserves(bounds.quarter(q), below, incoming, resident, positions);
            }
            lemma_quarter_after_split_conserves(
                bounds,
                level,
                q,
                resident,
                incoming,
                positions,
                both,
            );
        }
        lemma_members_of_inner(t);
    }
}

/// Inserting an entity whose position lies in the region of a tree loses
/// nothing and adds that entity once; and where every entity of the tree was
/// in its place, every entity still is.
pub proof fn lemma_insert_conserves(t: Tree, positions: Map<Entity, Position>, e: Entity)
    requires
        t.wf(),
        t.placed(positions),
        positions.contains_key(e),
        t.bounds().contains(positions[e]),
    ensures
        t.insert(positions, e).placed(positions),
        t.insert(positions, e).flatten().to_multiset() =~= t.flatten().to_multiset().insert(e),
    decreases t,
{
    let after = t.insert(positions, e);
    match t {
        Tree::Leaf { bounds, level, held } => {
            if held.len() == 0 || level >= MAX_LEVEL {
                vstd::seq_lib::to_multiset_build(held, e);
            } else {
                assert(held =~= Seq::<Entity>::empty().push(held[0]));
                vstd::seq_lib::to_multiset_build(Seq::<Entity>::empty(), held[0]);
                Seq::<Entity>::empty().to_multiset_ensures();
                lemma_collide_conserves(bounds, level, held[0], e, positions);
            }
        },
        Tree::Inner { bounds, level, nw, ne, sw, se } => {
            lemma_quarters_tile(bounds, positions[e]);
            lemma_insert_at_inner(t, positions, e);
            lemma_members_of_inner(t);
            lemma_members_of_inner(after);
            let q = bounds.route(positions[e]).unwrap();
            let child = t.child(q);
            lemma_insert_conserves(child, positions, e);
            assert forall|x: Entity| #[trigger]
                after.child(q).flatten().contains(x) implies positions.contains_key(x)
                && bounds.route(positions[x]) == Some(q) by {
                vstd::seq_lib::to_multiset_contains(after.child(q).flatten(), x);
                vstd::seq_lib::to_multiset_contains(child.flatten(), x);
            }
        },
    }
}

/// Inserting one entity after another keeps the shape of a quadtree, and
/// the region and level of the root.
pub proof fn lemma_insert_all_shape(t: Tree, positions: Map<Entity, Position>, es: Seq<Entity>)
    requires
        t.wf(),
    ensures
        t.insert_all(positions, es).wf(),
        t.insert_all(positions, es).bounds() == t.bounds(),
        t.insert_all(positions, es).level() == t.level(),
    decreases es.len(),
{
    if es.len() > 0 {
        lemma_insert_all_shape(t, positions, es.drop_last());
        lemma_insert_shape(t.insert_all(positions, es.drop_last()), positions, es.last());
    }
}

/// Inserting entities whose positions lie in the region of a tree loses
/// nothing and adds each of them once; and where every entity of the tree
/// was in its place, every entity still is.
pub proof fn lemma_insert_all_conserves(
    t: Tree,
    positions: Map<Entity, Position>,
    es: Seq<Entity>,
)
    requires
        t.wf(),
        t.placed(positions),
        forall|i: int|
            0 <= i < es.len() ==> positions.contains_key(#[trigger] es[i]) && t.bounds().contains(
                positions[es[i]],
            ),
    ensures
        t.insert_all(positions, es).placed(positions),
        t.insert_all(positions, es).flatten().to_multiset() =~= t.flatten().to_multiset().add(
            es.to_multiset(),
        ),
    decreases es.len(),
{
    if es.len() == 0 {
        es.to_multiset_ensures();
    } else {
        let before = t.insert_all(positions, es.drop_last());
        lemma_insert_all_shape(t, positions, es.drop_last());
        lemma_insert_all_conserves(t, positions, es.drop_last());
        lemma_insert_conserves(before, positions, es.last());
        assert(es =~= es.drop_last().push(es.last()));
        vstd::seq_lib::to_multiset_build(es.drop_last(), es.last());
    }
}

/// A tree that is built anew holds the entities that it held, each as often
/// as before, and each in its place: provided that each has a position in
/// the region of the tree.
pub proof fn lemma_rebuilt_conserves(t: Tree, positions: Map<Entity, Position>)
    requires
        t.wf(),
        forall|e: Entity| #[trigger]
            t.flatten().contains(e) ==> positions.contains_key(e) && t.bounds().contains(
                positions[e],
            ),
    ensures
        t.rebuilt(positions).wf(),
        t.rebuilt(positions).bounds() == t.bounds(),
        t.rebuilt(positions).level() == t.level(),
        t.rebuilt(positions).placed(positions),
        t.rebuilt(positions).flatten().to_multiset() =~= t.flatten().to_multiset(),
{
    let start = Tree::empty(t.bounds(), t.level());
    let es = t.flatten();
    assert forall|i: int| 0 <= i < es.len() implies positions.contains_key(#[trigger] es[i])
        && start.bounds().contains(positions[es[i]]) by {
        assert(es.contains(es[i]));
    }
    lemma_insert_all_shape(start, positions, es);
    lemma_insert_all_conserves(start, positions, es);
    start.flatten().to_multiset_ensures();
}

/// An entity on the vertical cut line of an inner node is inserted into a
/// western child, `NW` down to the horizontal cut line and `SW` below it,
/// whatever the tree holds; the eastern children stay as they are.
pub proof fn lemma_insert_on_cut_line(t: Tree, positions: Map<Entity, Position>, e: Entity)
    requires
        t.wf(),
        t is Inner,
        positions.contains_key(e),
        t.bounds().contains(positions[e]),
        positions[e].x == t.bounds().x + t.bounds().width / 2,
    ensures
        t.insert(positions, e).child(Quadrant::NE) == t.child(Quadrant::NE),
        t.insert(positions, e).child(Quadrant::SE) == t.child(Quadrant::SE),
        positions[e].y <= t.bounds().y + t.bounds().height / 2 ==> {
            &&& t.insert(positions, e).child(Quadrant::NW) == t.child(Quadrant::NW).insert(
                positions,
                e,
            )
            &&& t.insert(positions, e).child(Quadrant::SW) == t.child(Quadrant::SW)
        },
        positions[e].y > t.bounds().y + t.bounds().height / 2 ==> {
            &&& t.insert(positions, e).child(Quadrant::SW) == t.child(Quadrant::SW).insert(
                positions,
                e,
            )
            &&& t.insert(positions, e).child(Quadrant::NW) == t.child(Quadrant::NW)
        },
{
    lemma_cut_line_goes_west(t.bounds(), positions[e]);
    lemma_insert_at_inner(t, positions, e);
}

/// Where every entity of a tree is in its place, an entity on the vertical
/// cut line of the root is found in a western child and in no eastern one.
pub proof fn lemma_placed_on_cut_line(t: Tree, positions: Map<Entity, Position>, e: Entity)
    requires
        t.wf(),
        t is Inner,
        t.placed(positions),
        t.flatten().contains(e),
        positions[e].x == t.bounds().x + t.bounds().width / 2,
    ensures
        !t.child(Quadrant::NE).flatten().contains(e),
        !t.child(Quadrant::SE).flatten().contains(e),
        t.child(Quadrant::NW).flatten().contains(e) || t.child(Quadrant::SW).flatten().contains(e),
{
    let nw = t.child(Quadrant::NW).flatten();
    let ne = t.child(Quadrant::NE).flatten();
    let sw = t.child(Quadrant::SW).flatten();
    let se = t.child(Quadrant::SE).flatten();
    assert(nw.contains(e) || ne.contains(e) || sw.contains(e) || se.contains(e)) by {
        let i = choose|i: int| 0 <= i < t.flatten().len() && t.flatten()[i] == e;
        assert(t.flatten() == nw + ne + sw + se);
    }
    lemma_quarters_tile(t.bounds(), positions[e]);
    lemma_cut_line_goes_west(t.bounds(), positions[e]);
}

} // verus!
