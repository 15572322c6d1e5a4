//! Layer tags and sets of them.
use vstd::prelude::*;

verus! {

/// What kind of thing an object is.
#[derive(Clone, Copy, Debug, PartialEq, Eq, Structural, Hash)]
pub enum Layer {
    Garden,
    Parent,
    Child,
    Tool,
}

/// A set of layers: one membership flag per tag.
#[derive(Clone, Copy, Debug, PartialEq, Eq, Structural)]
pub struct LayerSet {
    pub garden: bool,
    pub parent: bool,
    pub child: bool,
    pub tool: bool,
}

impl View for LayerSet {
    type V = Set<Layer>;

    open spec fn view(&self) -> Set<Layer> {
        Set::new(|l: Layer| self.has(l))
    }
}

impl LayerSet {
    pub open spec fn has(self, l: Layer) -> bool {
        match l {
            Layer::Garden => self.garden,
            Layer::Parent => self.parent,
            Layer::Child => self.child,
            Layer::Tool => self.tool,
        }
    }

    /// Some layer lies in both sets.
    pub open spec fn meets(self, other: LayerSet) -> bool {
        exists|l: Layer| self@.contains(l) && other@.contains(l)
    }

    pub fn empty() -> (r: LayerSet)
        ensures
            r@ == Set::<Layer>::empty(),
    {
        let r = LayerSet { garden: false, parent: false, child: false, tool: false };
        assert(r@ =~= Set::<Layer>::empty());
        r
    }

    pub fn all() -> (r: LayerSet)
        ensures
            r@ == Set::<Layer>::full(),
    {
        let r = LayerSet { garden: true, parent: true, child: true, tool: true };
        assert(r@ =~= Set::<Layer>::full());
        r
    }

    pub fn only(layer: Layer) -> (r: LayerSet)
        ensures
            r@ == set![layer],
    {
        let r = LayerSet::empty().with(layer);
        assert(r@ =~= set![layer]);
        r
    }

    /// This set with `layer` added.
    pub fn with(self, layer: Layer) -> (r: LayerSet)
        ensures
            r@ == self@.insert(layer),
    {
        let mut r = self;
        match layer {
            Layer::Garden => r.garden = true,
            Layer::Parent => r.parent = true,
            Layer::Child => r.child = true,
            Layer::Tool => r.tool = true,
        }
        assert(r@ =~= self@.insert(layer));
        r
    }

    pub fn contains(&self, layer: Layer) -> (r: bool)
        ensures
            r == self@.contains(layer),
    {
        match layer {
            Layer::Garden => self.garden,
            Layer::Parent => self.parent,
            Layer::Child => self.child,
            Layer::Tool => self.tool,
        }
    }

    /// Whether no layer lies in both sets.
    pub fn is_disjoint(&self, other: &LayerSet) -> (r: bool)
        ensures
            r == !self.meets(*other),
    {
        let r = !((self.garden && other.garden) || (self.parent && other.parent) || (self.child
            && other.child) || (self.tool && other.tool));
        proof {
            if self.garden && other.garden {
                assert(self@.contains(Layer::Garden) && other@.contains(Layer::Garden));
            } else if self.parent && other.parent {
                assert(self@.contains(Layer::Parent) && other@.contains(Layer::Parent));
            } else if self.child && other.child {
                assert(self@.contains(Layer::Child) && other@.contains(Layer::Child));
            } else if self.tool && other.tool {
                assert(self@.contains(Layer::Tool) && other@.contains(Layer::Tool));
            }
        }
        r
    }
}

/// The layers an object is tagged with.
#[derive(Clone, Copy, Debug, PartialEq, Eq, Structural)]
pub struct InLayers {
    pub layers: LayerSet,
}

impl InLayers {
    pub fn new(layers: LayerSet) -> (r: InLayers)
        ensures
            r.layers == layers,
    {
        InLayers { layers }
    }

    pub fn new_single(layer: Layer) -> (r: InLayers)
        ensures
            r.layers@ == set![layer],
    {
        InLayers { layers: LayerSet::only(layer) }
    }

    pub fn new_empty() -> (r: InLayers)
        ensures
            r.layers@ == Set::<Layer>::empty(),
    {
        InLayers { layers: LayerSet::empty() }
    }

    pub fn new_all() -> (r: InLayers)
        ensures
            r.layers@ == Set::<Layer>::full(),
    {
        InLayers { layers: LayerSet::all() }
    }

    pub fn contains(&self, layer: Layer) -> (r: bool)
        ensures
            r == self.layers@.contains(layer),
    {
        self.layers.contains(layer)
    }

    /// Whether the two objects share a layer.
    pub fn intersects(&self, other: &InLayers) -> (r: bool)
        ensures
            r == self.layers.meets(other.layers),
    {
        !self.layers.is_disjoint(&other.layers)
    }

    /// Whether the object has a layer of `other`.
    pub fn intersects_layer_set(&self, other: LayerSet) -> (r: bool)
        ensures
            r == self.layers.meets(other),
    {
        !self.layers.is_disjoint(&other)
    }
}

} // verus!
