//! Components that the engine attaches to the entities of containers and
//! that hold plain values: what a container displays, its drawing order,
//! and the quad-tree layers it is registered in.

use vstd::prelude::*;
use std::collections::HashSet;
use crate::ids::LibraryId;
use crate::resources::{Library, QuadTreeLayer};

verus! {

broadcast use vstd::std_specs::hash::group_hash_axioms;

/// Whether a library item is drawn from a bitmap or from vector shapes.
#[derive(Clone, Copy, Debug, PartialEq, Eq, Structural)]
pub enum DisplayKind {
    Raster,
    Vector,
}

/// The library item a container displays, and its kind.
#[derive(Clone, Copy, Debug, PartialEq, Eq, Structural)]
pub struct Display(pub LibraryId, pub DisplayKind);

/// The display of the library item `id`: vector when the library holds a
/// shape of that id, raster when it holds only a texture, none otherwise.
pub open spec fn display_of(shapes: Set<u128>, textures: Set<u128>, id: LibraryId) -> Option<
    Display,
> {
    if shapes.contains(id.0) {
        Some(Display(id, DisplayKind::Vector))
    } else if textures.contains(id.0) {
        Some(Display(id, DisplayKind::Raster))
    } else {
        None
    }
}

impl Display {
    /// How the library item `id` is displayed: a shape of that id wins over a
    /// texture; `None` when the library holds neither.
    pub fn for_item<S, P>(library: &Library<S, P>, id: &LibraryId) -> (r: Option<Display>)
        ensures
            r == display_of(library@.shapes.dom(), library@.textures.dom(), *id),
    {
        if library.contains_shape(id) {
            Some(Display(*id, DisplayKind::Vector))
        } else if library.contains_texture(id) {
            Some(Display(*id, DisplayKind::Raster))
        } else {
            None
        }
    }
}

/// The drawing order of a container among its siblings.
#[derive(Clone, Copy, Debug, PartialEq, Eq, Structural)]
pub struct Order(pub i8);

impl Default for Order {
    fn default() -> (r: Order)
        ensures
            r.0 == 0,
    {
        Order(0)
    }
}

/// The quad-tree layers a container is registered in.
#[derive(Debug)]
pub struct Layer {
    quad_trees: HashSet<u32>,
}

impl View for Layer {
    type V = Set<u32>;

    closed spec fn view(&self) -> Set<u32> {
        self.quad_trees@
    }
}

/// The numbers of the layers in `layers`.
pub open spec fn layer_numbers(layers: Seq<QuadTreeLayer>) -> Set<u32> {
    layers.map_values(|l: QuadTreeLayer| l.0).to_set()
}

impl Layer {
    /// No layers.
    pub fn new() -> (r: Layer)
        ensures
            r@ == Set::<u32>::empty(),
    {
        Layer { quad_trees: HashSet::new() }
    }

    /// The layers named in `layers`, each once; `None` when `layers` is empty,
    /// since a container with no layer gets no layer component.
    pub fn from_layers(layers: &Vec<QuadTreeLayer>) -> (r: Option<Layer>)
        ensures
            layers@.len() == 0 ==> r is None,
            layers@.len() > 0 ==> r is Some && r->0@ == layer_numbers(layers@),
    {
        if layers.len() == 0 {
            return None;
        }
        let mut quad_trees: HashSet<u32> = HashSet::new();
        let mut i: usize = 0;
        while i < layers.len()
            invariant
                0 <= i <= layers@.len(),
                quad_trees@ == layer_numbers(layers@.take(i as int)),
            decreases layers@.len() - i,
        {
            proof {
                let f = |l: QuadTreeLayer| l.0;
                assert(layers@.take(i + 1) =~= layers@.take(i as int).push(layers@[i as int]));
                assert(layers@.take(i + 1).map_values(f) =~= layers@.take(i as int).map_values(
                    f,
                ).push(layers@[i as int].0));
                layers@.take(i as int).map_values(f).lemma_push_to_set_commute(layers@[i as int].0);
            }
            quad_trees.insert(layers[i].0);
            i = i + 1;
        }
        assert(layers@.take(layers@.len() as int) =~= layers@);
        Some(Layer { quad_trees })
    }

    /// Whether the container is registered in `layer`.
    pub fn contains(&self, layer: &QuadTreeLayer) -> (r: bool)
        ensures
            r == self@.contains(layer.0),
    {
        self.quad_trees.contains(&layer.0)
    }

    /// Registers the container in `layer` (no change when it already is).
    pub fn add(&mut self, layer: QuadTreeLayer)
        ensures
            final(self)@ == old(self)@.insert(layer.0),
    {
        if !self.quad_trees.contains(&layer.0) {
            self.quad_trees.insert(layer.0);
        }
        assert(self@ =~= old(self)@.insert(layer.0));
    }

    /// Takes the container out of `layer`; whether it was registered there,
    /// in which case the quad tree of that layer must drop it too.
    pub fn remove(&mut self, layer: &QuadTreeLayer) -> (r: bool)
        ensures
            r == old(self)@.contains(layer.0),
            final(self)@ == old(self)@.remove(layer.0),
    {
        self.quad_trees.remove(&layer.0)
    }
}

/// A container is in a layer after it was added to it, and no longer after it
/// was taken out; adding twice is the same as adding once.
pub proof fn law_layer_add_remove(layers: Set<u32>, layer: QuadTreeLayer)
    ensures
        layers.insert(layer.0).contains(layer.0),
        !layers.remove(layer.0).contains(layer.0),
        layers.insert(layer.0).insert(layer.0) == layers.insert(layer.0),
{
    assert(layers.insert(layer.0).insert(layer.0) =~= layers.insert(layer.0));
}

} // verus!
