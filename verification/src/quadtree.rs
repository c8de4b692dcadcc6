//! A quadtree over the positions of the entities of a store.

use crate::ecs::{Entity, Position, ECS};
use crate::quadtree::model::{
    lemma_collide_is_split_then_insert, lemma_insert_all_shape, lemma_insert_conserves,
    lemma_insert_shape, lemma_rebuilt_conserves, lemma_split, Tree, MAX_LEVEL,
};
use crate::quadtree::rect::{lemma_quarters_tile, Quadrant, Rectangle};
use vstd::prelude::*;

pub mod model;
pub mod rect;

verus! {

/// The four children of an inner node: `NW`, `NE`, `SW`, `SE`.
struct Children(Quadtree, Quadtree, Quadtree, Quadtree);

/// A node of the tree with everything below it. A node owns its children,
/// and nothing points upwards.
pub struct Quadtree {
    level: usize,
    bounds: Rectangle,
    children: Option<Box<Children>>,
    entities: Vec<Entity>,
}

impl View for Quadtree {
    type V = Tree;

    /// The tree that the node stands for.
    closed spec fn view(&self) -> Tree
        decreases self,
    {
        match self.children {
            None => Tree::Leaf {
                bounds: self.bounds,
                level: self.level as nat,
                held: self.entities@,
            },
            Some(children) => Tree::Inner {
                bounds: self.bounds,
                level: self.level as nat,
                nw: Box::new(children.0@),
                ne: Box::new(children.1@),
                sw: Box::new(children.2@),
                se: Box::new(children.3@),
            },
        }
    }
}

impl Quadtree {
    /// The tree has the shape of a quadtree.
    pub open spec fn wf(&self) -> bool {
        self@.wf()
    }

    /// An empty tree on the region `bounds`.
    pub fn new(bounds: Rectangle) -> (tree: Self)
        requires
            bounds.valid(),
        ensures
            tree.wf(),
            tree@ == Tree::empty(bounds, 0),
    {
        Quadtree { level: 0, bounds, children: None, entities: Vec::new() }
    }

    /// The region of the node.
    pub fn bounds(&self) -> (bounds: Rectangle)
        ensures
            bounds == self@.bounds(),
    {
        self.bounds
    }

    /// The depth of the node below the root.
    pub fn level(&self) -> (level: usize)
        ensures
            level == self@.level(),
    {
        self.level
    }

    /// The child in quarter `q`, if the node is an inner node.
    pub fn child(&self, q: Quadrant) -> (child: Option<&Quadtree>)
        ensures
            match child {
                Some(node) => self@ is Inner && node@ == self@.child(q) && (self.wf()
                    ==> node.wf()),
                None => self@ is Leaf,
            },
    {
        match &self.children {
            Some(children) => Some(
                match q {
                    Quadrant::NW => &children.0,
                    Quadrant::NE => &children.1,
                    Quadrant::SW => &children.2,
                    Quadrant::SE => &children.3,
                },
            ),
            None => None,
        }
    }

    /// The same leaf at another level.
    fn set_level(self, level: usize) -> (tree: Self)
        requires
            self@ is Leaf,
        ensures
            tree@ == (Tree::Leaf { bounds: self@.bounds(), level: level as nat, held: self@->held }),
    {
        let mut tree = self;
        tree.level = level;
        tree
    }

    /// Whether the region of the node contains `p`, edges included.
    pub fn is_overlapping(&self, p: &Position) -> (inside: bool)
        requires
            self.wf(),
        ensures
            inside == self@.bounds().contains(*p),
    {
        if p.x < self.bounds.x {
            return false;
        } else if p.x > self.bounds.x + self.bounds.width {
            return false;
        } else if p.y < self.bounds.y {
            return false;
        } else if p.y > self.bounds.y + self.bounds.height {
            return false;
        }
        true
    }

    /// Replaces what the node holds by four empty leaves, one on each
    /// quarter of its region. A node at the deepest level stays as it is.
    pub fn split(&mut self)
        requires
            old(self).wf(),
        ensures
            final(self).wf(),
            final(self)@ == old(self)@.split(),
    {
        if self.level >= MAX_LEVEL {
            return ;
        }
        let x: i32 = self.bounds.x;
        let y: i32 = self.bounds.y;
        let width: i32 = self.bounds.width / 2;
        let height: i32 = self.bounds.height / 2;
        let x_off: i32 = self.bounds.x + width;
        let y_off: i32 = self.bounds.y + height;
        let rest_width: i32 = self.bounds.width - width;
        let rest_height: i32 = self.bounds.height - height;

        self.children = Some(
            Box::new(
                Children(
                    Quadtree::new(Rectangle { x, y, width, height }).set_level(self.level + 1),
                    Quadtree::new(Rectangle { x: x_off, y, width: rest_width, height }).set_level(
                        self.level + 1,
                    ),
                    Quadtree::new(Rectangle { x, y: y_off, width, height: rest_height }).set_level(
                        self.level + 1,
                    ),
                    Quadtree::new(
                        Rectangle { x: x_off, y: y_off, width: rest_width, height: rest_height },
                    ).set_level(self.level + 1),
                ),
            ),
        );
        self.entities.clear();
        proof {
            lemma_quarters_tile(self.bounds, Position { x: 0, y: 0 });
            lemma_split(old(self)@);
        }
    }

    /// Inserts `entity` at the position that it has in `ecs`. An entity
    /// without a position is not inserted.
    pub fn add_entity(&mut self, ecs: &ECS, entity: &Entity)
        requires
            old(self).wf(),
            ecs.wf(),
        ensures
            final(self).wf(),
            final(self)@ == old(self)@.insert(ecs.positions(), *entity),
            final(self)@.bounds() == old(self)@.bounds(),
            final(self)@.level() == old(self)@.level(),
            !ecs.positions().contains_key(*entity) ==> final(self)@ == old(self)@,
            old(self)@.placed(ecs.positions()) && ecs.positions().contains_key(*entity) && old(
                self,
            )@.bounds().contains(ecs.positions()[*entity]) ==> {
                &&& final(self)@.placed(ecs.positions())
                &&& final(self)@.flatten().to_multiset() == old(self)@.flatten().to_multiset().insert(
                    *entity,
                )
            },
        decreases MAX_LEVEL - old(self)@.level(), old(self)@.rank(),
    {
        let p: Position = match ecs.get_position(*entity) {
            Some(p) => *p,
            None => {
                return ;
            },
        };
        proof {
            lemma_insert_shape(old(self)@, ecs.positions(), *entity);
            lemma_quarters_tile(self.bounds, p);
            if old(self)@.placed(ecs.positions()) && self.bounds.contains(p) {
                lemma_insert_conserves(old(self)@, ecs.positions(), *entity);
            }
        }
        match &mut self.children {
            Some(children) => {
                if children.0.is_overlapping(&p) {
                    children.0.add_entity(ecs, entity);
                } else if children.1.is_overlapping(&p) {
                    children.1.add_entity(ecs, entity);
                } else if children.2.is_overlapping(&p) {
                    children.2.add_entity(ecs, entity);
                } else if children.3.is_overlapping(&p) {
                    children.3.add_entity(ecs, entity);
                }
            },
            None => {
                if self.entities.len() > 0 && self.level < MAX_LEVEL {
                    let resident: Entity = self.entities[0];
                    self.split();
                    self.add_entity(ecs, entity);
                    self.add_entity(ecs, &resident);
                    proof {
                        lemma_collide_is_split_then_insert(old(self)@, ecs.positions(), *entity);
                    }
                } else {
                    self.entities.push(*entity);
                }
            },
        }
    }

    /// The entities of the tree, quarter by quarter: `NW`, `NE`, `SW`, `SE`.
    pub fn get_all_entities(&self) -> (entities: Vec<Entity>)
        ensures
            entities@ == self@.flatten(),
        decreases self,
    {
        let Some(children) = &self.children else {
            return self.entities.clone();
        };

        let mut entities: Vec<Entity> = Vec::new();

        entities.append(&mut children.0.get_all_entities());
        entities.append(&mut children.1.get_all_entities());
        entities.append(&mut children.2.get_all_entities());
        entities.append(&mut children.3.get_all_entities());

        return entities;
    }

    /// Builds the tree anew from the positions that its entities have now:
    /// the tree becomes one empty leaf on its region, and the entities that
    /// it held are inserted again, in the order of `get_all_entities`.
    pub fn update(&mut self, ecs: &ECS)
        requires
            old(self).wf(),
            ecs.wf(),
        ensures
            final(self).wf(),
            final(self)@ == old(self)@.rebuilt(ecs.positions()),
            final(self)@.bounds() == old(self)@.bounds(),
            final(self)@.level() == old(self)@.level(),
            (forall|e: Entity| #[trigger]
                old(self)@.flatten().contains(e) ==> ecs.positions().contains_key(e) && old(
                    self,
                )@.bounds().contains(ecs.positions()[e])) ==> {
                &&& final(self)@.placed(ecs.positions())
                &&& final(self)@.flatten().to_multiset() == old(self)@.flatten().to_multiset()
            },
    {
        proof {
            lemma_insert_all_shape(
                Tree::empty(old(self)@.bounds(), old(self)@.level()),
                ecs.positions(),
                old(self)@.flatten(),
            );
            if forall|e: Entity| #[trigger]
                old(self)@.flatten().contains(e) ==> ecs.positions().contains_key(e) && old(
                    self,
                )@.bounds().contains(ecs.positions()[e]) {
                lemma_rebuilt_conserves(old(self)@, ecs.positions());
            }
        }
        let entities = self.get_all_entities();

        self.children = None;
        self.entities.clear();

        let mut i: usize = 0;
        while i < entities.len()
            invariant
                i <= entities.len(),
                ecs.wf(),
                self.wf(),
                entities@ == old(self)@.flatten(),
                self@ == Tree::empty(old(self)@.bounds(), old(self)@.level()).insert_all(
                    ecs.positions(),
                    entities@.take(i as int),
                ),
            decreases entities.len() - i,
        {
            self.add_entity(ecs, &entities[i]);
            proof {
                assert(entities@.take(i + 1).drop_last() == entities@.take(i as int));
            }
            i += 1;
        }
        proof {
            assert(entities@.take(i as int) == entities@);
        }
    }

    /// The regions to outline when the tree is drawn: for every inner node
    /// those of its four children. The tree stays as it is.
    pub fn draw(&self) -> (outlines: Vec<Rectangle>)
        ensures
            outlines@ == self@.outlines(),
        decreases self,
    {
        let mut outlines: Vec<Rectangle> = Vec::new();
        let Some(children) = &self.children else {
            return outlines;
        };

        outlines.push(children.0.bounds);
        outlines.push(children.1.bounds);
        outlines.push(children.2.bounds);
        outlines.push(children.3.bounds);

        outlines.append(&mut children.0.draw());
        outlines.append(&mut children.1.draw());
        outlines.append(&mut children.2.draw());
        outlines.append(&mut children.3.draw());

        outlines
    }
}

} // verus!
