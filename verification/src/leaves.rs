//! The leaves of a document, and what drawing does with them.
//!
//! A leaf is a geometry that is not a collection. Drawing a document comes to
//! drawing its leaves one after another, each of them once, in the order in
//! which the document holds them.

use vstd::prelude::*;
use crate::canvas::ShapeView;
use crate::geometry::{Feature, GeoJson, Geometry, GeometryKind};
use crate::render::{
    document_kinds, document_shapes, feature_kinds, feature_shapes, features_kinds,
    features_shapes, geometry_kinds, geometry_shapes, kinds_of_first, shapes_of_first,
};

verus! {

/// Whether the geometry is anything but a collection.
pub open spec fn is_leaf(geometry: Geometry) -> bool {
    !(geometry is GeometryCollection)
}

/// Whether the kind is that of a leaf.
pub open spec fn is_leaf_kind(kind: GeometryKind) -> bool {
    kind != GeometryKind::GeometryCollection
}

/// The leaves of a geometry, depth first: the geometry itself, or for a
/// collection the leaves of its members, member by member.
pub open spec fn geometry_leaves(geometry: Geometry) -> Seq<Geometry>
    decreases geometry, 0nat,
{
    match geometry {
        Geometry::GeometryCollection(members) => leaves_of_first(members@, members@.len()),
        _ => seq![geometry],
    }
}

/// The leaves of the first `count` geometries of a sequence.
pub open spec fn leaves_of_first(geometries: Seq<Geometry>, count: nat) -> Seq<Geometry>
    decreases geometries, count,
{
    if count == 0 || count > geometries.len() {
        Seq::empty()
    } else {
        leaves_of_first(geometries, (count - 1) as nat) + geometry_leaves(geometries[count - 1])
    }
}

/// The leaves of a feature: those of its geometry, if it has one.
pub open spec fn feature_leaves(feature: Feature) -> Seq<Geometry> {
    match feature.geometry {
        Some(geometry) => geometry_leaves(geometry),
        None => Seq::empty(),
    }
}

/// The leaves of the first `count` features of a collection.
pub open spec fn features_leaves(features: Seq<Feature>, count: nat) -> Seq<Geometry>
    decreases count,
{
    if count == 0 || count > features.len() {
        Seq::empty()
    } else {
        features_leaves(features, (count - 1) as nat) + feature_leaves(features[count - 1])
    }
}

/// The leaves of a document, in the order in which the document holds them.
pub open spec fn document_leaves(document: GeoJson) -> Seq<Geometry> {
    match document {
        GeoJson::Geometry(geometry) => geometry_leaves(geometry),
        GeoJson::Feature(feature) => feature_leaves(feature),
        GeoJson::FeatureCollection(features) => features_leaves(features@, features@.len()),
    }
}

/// The kinds of the geometries of a sequence, one for one.
pub open spec fn kinds_of(geometries: Seq<Geometry>) -> Seq<GeometryKind> {
    geometries.map_values(|geometry: Geometry| geometry.kind_of())
}

/// That `shapes` and `kinds` are what drawing the run `leaves` paints and
/// matches, each leaf drawn once and in order: none of the leaves is a
/// collection, the shapes are those of the leaves one after another, and the
/// leaf kinds among `kinds` are the kinds of the leaves.
pub open spec fn drawn_leaf_by_leaf(
    leaves: Seq<Geometry>,
    shapes: Seq<ShapeView>,
    kinds: Seq<GeometryKind>,
) -> bool {
    &&& forall|i: int| 0 <= i < leaves.len() ==> is_leaf(#[trigger] leaves[i])
    &&& shapes == shapes_of_first(leaves, leaves.len())
    &&& kinds.filter(|kind: GeometryKind| is_leaf_kind(kind)) == kinds_of(leaves)
}

/// The first geometries of a sequence are drawn alike whatever follows them.
proof fn lemma_shapes_of_prefix(front: Seq<Geometry>, back: Seq<Geometry>, count: nat)
    requires
        count <= front.len(),
    ensures
        shapes_of_first(front + back, count) == shapes_of_first(front, count),
    decreases count,
{
    if count > 0 {
        lemma_shapes_of_prefix(front, back, (count - 1) as nat);
        assert((front + back)[count - 1] == front[count - 1]);
    }
}

/// Drawing two runs of geometries joined is drawing the one, then the other.
proof fn lemma_shapes_of_joined(front: Seq<Geometry>, back: Seq<Geometry>, count: nat)
    requires
        count <= back.len(),
    ensures
        shapes_of_first(front + back, front.len() + count) == shapes_of_first(
            front,
            front.len(),
        ) + shapes_of_first(back, count),
    decreases count,
{
    if count == 0 {
        lemma_shapes_of_prefix(front, back, front.len());
        assert(shapes_of_first(front, front.len()) + Seq::<ShapeView>::empty()
            =~= shapes_of_first(front, front.len()));
    } else {
        lemma_shapes_of_joined(front, back, (count - 1) as nat);
        assert((front + back)[front.len() + count - 1] == back[count - 1]);
        assert(shapes_of_first(front + back, front.len() + count) =~= shapes_of_first(
            front,
            front.len(),
        ) + shapes_of_first(back, count));
    }
}

/// Where the leaf kinds of two runs of kinds are the kinds of two runs of
/// leaves, the same holds of the runs joined.
proof fn lemma_leaf_kinds_joined(
    kinds: Seq<GeometryKind>,
    more: Seq<GeometryKind>,
    leaves: Seq<Geometry>,
    others: Seq<Geometry>,
)
    requires
        kinds.filter(|kind: GeometryKind| is_leaf_kind(kind)) == kinds_of(leaves),
        more.filter(|kind: GeometryKind| is_leaf_kind(kind)) == kinds_of(others),
    ensures
        (kinds + more).filter(|kind: GeometryKind| is_leaf_kind(kind)) == kinds_of(
            leaves + others,
        ),
{
    Seq::filter_distributes_over_add(kinds, more, |kind: GeometryKind| is_leaf_kind(kind));
    assert(kinds_of(leaves + others) =~= kinds_of(leaves) + kinds_of(others));
}

/// A run of one kind keeps it if it is a leaf kind, and is empty if not.
proof fn lemma_leaf_kinds_of_one(kind: GeometryKind)
    ensures
        seq![kind].filter(|kind: GeometryKind| is_leaf_kind(kind)) == if is_leaf_kind(kind) {
            seq![kind]
        } else {
            Seq::empty()
        },
{
    reveal_with_fuel(Seq::filter, 2);
    let keep = |kind: GeometryKind| is_leaf_kind(kind);
    assert(seq![kind].drop_last() =~= Seq::empty());
    assert(seq![kind].filter(keep) =~= if is_leaf_kind(kind) {
        seq![kind]
    } else {
        Seq::empty()
    });
}

/// Drawing a geometry draws its leaves, each of them once and in order: the
/// shapes painted are those of the leaves one after another, and the leaf
/// kinds matched are the kinds of the leaves.
pub proof fn lemma_geometry_drawn_leaf_by_leaf(geometry: Geometry)
    ensures
        drawn_leaf_by_leaf(
            geometry_leaves(geometry),
            geometry_shapes(geometry),
            geometry_kinds(geometry),
        ),
    decreases geometry, 0nat,
{
    match geometry {
        Geometry::GeometryCollection(members) => {
            lemma_first_drawn_leaf_by_leaf(members@, members@.len());
            lemma_leaf_kinds_of_one(GeometryKind::GeometryCollection);
            Seq::filter_distributes_over_add(
                seq![GeometryKind::GeometryCollection],
                kinds_of_first(members@, members@.len()),
                |kind: GeometryKind| is_leaf_kind(kind),
            );
            assert(Seq::<GeometryKind>::empty() + kinds_of(geometry_leaves(geometry)) =~= kinds_of(
                geometry_leaves(geometry),
            ));
        },
        _ => {
            let leaves = seq![geometry];
            assert(shapes_of_first(leaves, 0) =~= Seq::empty());
            assert(shapes_of_first(leaves, 1) =~= geometry_shapes(geometry));
            lemma_leaf_kinds_of_one(geometry.kind_of());
            assert(kinds_of(leaves) =~= seq![geometry.kind_of()]);
        },
    }
}

/// Drawing the first geometries of a sequence draws their leaves, each of
/// them once and in order.
pub proof fn lemma_first_drawn_leaf_by_leaf(geometries: Seq<Geometry>, count: nat)
    requires
        count <= geometries.len(),
    ensures
        drawn_leaf_by_leaf(
            leaves_of_first(geometries, count),
            shapes_of_first(geometries, count),
            kinds_of_first(geometries, count),
        ),
    decreases geometries, count,
{
    if count == 0 {
        lemma_nothing_drawn_leaf_by_leaf();
    } else {
        let before = (count - 1) as nat;
        let last = geometries[count - 1];
        lemma_first_drawn_leaf_by_leaf(geometries, before);
        lemma_geometry_drawn_leaf_by_leaf(last);
        lemma_shapes_of_joined(
            leaves_of_first(geometries, before),
            geometry_leaves(last),
            geometry_leaves(last).len(),
        );
        lemma_leaf_kinds_joined(
            kinds_of_first(geometries, before),
            geometry_kinds(last),
            leaves_of_first(geometries, before),
            geometry_leaves(last),
        );
    }
}

/// Nothing drawn is the empty run of leaves drawn.
proof fn lemma_nothing_drawn_leaf_by_leaf()
    ensures
        drawn_leaf_by_leaf(Seq::empty(), Seq::empty(), Seq::empty()),
{
    assert(Seq::<GeometryKind>::empty().filter(|kind: GeometryKind| is_leaf_kind(kind))
        =~= Seq::empty()) by {
        reveal_with_fuel(Seq::filter, 1);
    }
    assert(kinds_of(Seq::empty()) =~= Seq::empty());
}

/// Drawing a feature draws the leaves of its geometry, each of them once and
/// in order.
pub proof fn lemma_feature_drawn_leaf_by_leaf(feature: Feature)
    ensures
        drawn_leaf_by_leaf(
            feature_leaves(feature),
            feature_shapes(feature),
            feature_kinds(feature),
        ),
{
    match feature.geometry {
        Some(geometry) => lemma_geometry_drawn_leaf_by_leaf(geometry),
        None => lemma_nothing_drawn_leaf_by_leaf(),
    }
}

/// Drawing the first features of a collection draws their leaves, each of
/// them once and in order.
pub proof fn lemma_features_drawn_leaf_by_leaf(features: Seq<Feature>, count: nat)
    requires
        count <= features.len(),
    ensures
        drawn_leaf_by_leaf(
            features_leaves(features, count),
            features_shapes(features, count),
            features_kinds(features, count),
        ),
    decreases count,
{
    if count == 0 {
        lemma_nothing_drawn_leaf_by_leaf();
    } else {
        let before = (count - 1) as nat;
        let last = features[count - 1];
        lemma_features_drawn_leaf_by_leaf(features, before);
        lemma_feature_drawn_leaf_by_leaf(last);
        lemma_shapes_of_joined(
            features_leaves(features, before),
            feature_leaves(last),
            feature_leaves(last).len(),
        );
        lemma_leaf_kinds_joined(
            features_kinds(features, before),
            feature_kinds(last),
            features_leaves(features, before),
            feature_leaves(last),
        );
    }
}

/// Drawing a document draws every leaf that is reached through its feature
/// collection, its features and its geometry collections: each of them once,
/// in the order in which the document holds them.
pub proof fn lemma_document_drawn_leaf_by_leaf(document: GeoJson)
    ensures
        drawn_leaf_by_leaf(
            document_leaves(document),
            document_shapes(document),
            document_kinds(document),
        ),
{
    match document {
        GeoJson::Geometry(geometry) => lemma_geometry_drawn_leaf_by_leaf(geometry),
        GeoJson::Feature(feature) => lemma_feature_drawn_leaf_by_leaf(feature),
        GeoJson::FeatureCollection(features) => lemma_features_drawn_leaf_by_leaf(
            features@,
            features@.len(),
        ),
    }
}

} // verus!
