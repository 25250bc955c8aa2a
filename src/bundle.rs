//! [`RenderBundle`] collects the primitives of one render pass and sorts
//! them by how they are anchored: to the map, or to a fixed place on screen.
use std::sync::Arc;
use vstd::prelude::*;
use crate::geometry::{Contour, Geom, Polygon, points_of};
use crate::image::DecodedImage;

verus! {

/// Primitives stored in map coordinates; they move and scale with the view.
pub struct WorldRenderSet<P, S> {
    /// Points, each with its paint.
    pub points: Vec<(P, S)>,
    /// Lines, each with its paint.
    pub lines: Vec<(Contour<P>, S)>,
    /// Polygons, each with its paint.
    pub polygons: Vec<(Polygon<P>, S)>,
    /// Images, each with the map positions of its four corners and its paint.
    pub images: Vec<(Arc<DecodedImage>, [P; 4], S)>,
    /// Labels attached to the map: position, text and style.
    pub labels: Vec<(P, String, S)>,
}

/// What a screen-anchored set draws.
pub enum ScreenContent<S> {
    /// A text label with its style.
    Label { text: String, style: S },
    /// A marker with its style.
    Marker { style: S },
}

/// One primitive anchored at a map position but drawn at a fixed size on
/// screen, whatever the zoom.
pub struct ScreenRenderSet<P, S> {
    /// The map position the primitive is pinned to.
    pub anchor: P,
    /// What is drawn there.
    pub content: ScreenContent<S>,
}

/// Render bundle is used to store render primitives and prepare them to be
/// rendered with the rendering backend.
///
/// `P` is the type of a position and `S` that of a paint or style.
pub struct RenderBundle<P, S> {
    world_set: WorldRenderSet<P, S>,
    screen_sets: Vec<ScreenRenderSet<P, S>>,
}

impl<P, S> RenderBundle<P, S> {
    /// The world-anchored primitives.
    pub closed spec fn world(&self) -> WorldRenderSet<P, S> {
        self.world_set
    }

    /// The screen-anchored sets, in the order they were added.
    pub closed spec fn screens(&self) -> Seq<ScreenRenderSet<P, S>> {
        self.screen_sets@
    }

    /// An empty bundle.
    pub fn new() -> (r: RenderBundle<P, S>)
        ensures
            r.world().points@.len() == 0,
            r.world().lines@.len() == 0,
            r.world().polygons@.len() == 0,
            r.world().images@.len() == 0,
            r.world().labels@.len() == 0,
            r.screens().len() == 0,
    {
        RenderBundle {
            world_set: WorldRenderSet {
                points: Vec::new(),
                lines: Vec::new(),
                polygons: Vec::new(),
                images: Vec::new(),
                labels: Vec::new(),
            },
            screen_sets: Vec::new(),
        }
    }

    /// The world-anchored primitives, for the renderer.
    pub fn world_set(&self) -> (r: &WorldRenderSet<P, S>)
        ensures
            *r == self.world(),
    {
        &self.world_set
    }

    /// The screen-anchored sets, for the renderer.
    pub fn screen_sets(&self) -> (r: &Vec<ScreenRenderSet<P, S>>)
        ensures
            r@ == self.screens(),
    {
        &self.screen_sets
    }

    /// Adds an image to the bundle.
    pub fn add_image(&mut self, image: Arc<DecodedImage>, vertices: [P; 4], paint: S)
        ensures
            final(self).world().images@ == old(self).world().images@.push((image, vertices, paint)),
            final(self).world().points == old(self).world().points,
            final(self).world().lines == old(self).world().lines,
            final(self).world().polygons == old(self).world().polygons,
            final(self).world().labels == old(self).world().labels,
            final(self).screens() == old(self).screens(),
    {
        self.world_set.images.push((image, vertices, paint));
    }

    /// Adds an image to the bundle, taking ownership of it.
    pub fn add_image_owned(&mut self, image: DecodedImage, vertices: [P; 4], paint: S)
        ensures
            final(self).world().images@.len() == old(self).world().images@.len() + 1,
            *final(self).world().images@.last().0 == image,
            final(self).world().images@.last().1 == vertices,
            final(self).world().images@.last().2 == paint,
            final(self).world().images@.drop_last() == old(self).world().images@,
            final(self).world().points == old(self).world().points,
            final(self).world().lines == old(self).world().lines,
            final(self).world().polygons == old(self).world().polygons,
            final(self).world().labels == old(self).world().labels,
            final(self).screens() == old(self).screens(),
    {
        self.add_image(Arc::new(image), vertices, paint);
        assert(self.world().images@.drop_last() =~= old(self).world().images@);
    }

    /// Adds a line to the bundle.
    pub fn add_line(&mut self, line: Contour<P>, paint: S)
        ensures
            final(self).world().lines@ == old(self).world().lines@.push((line, paint)),
            final(self).world().points == old(self).world().points,
            final(self).world().polygons == old(self).world().polygons,
            final(self).world().images == old(self).world().images,
            final(self).world().labels == old(self).world().labels,
            final(self).screens() == old(self).screens(),
    {
        self.world_set.lines.push((line, paint));
    }

    /// Adds a polygon to the bundle.
    pub fn add_polygon(&mut self, polygon: Polygon<P>, paint: S)
        ensures
            final(self).world().polygons@ == old(self).world().polygons@.push((polygon, paint)),
            final(self).world().points == old(self).world().points,
            final(self).world().lines == old(self).world().lines,
            final(self).world().images == old(self).world().images,
            final(self).world().labels == old(self).world().labels,
            final(self).screens() == old(self).screens(),
    {
        self.world_set.polygons.push((polygon, paint));
    }

    /// Adds a label. Attached to the map, it joins the world set and scales
    /// with the zoom; otherwise it becomes a new screen set of its own.
    pub fn add_label(&mut self, position: P, text: String, style: S, attach_to_map: bool)
        ensures
            attach_to_map ==> final(self).world().labels@ == old(self).world().labels@.push(
                (position, text, style),
            ),
            attach_to_map ==> final(self).screens() == old(self).screens(),
            !attach_to_map ==> final(self).screens() == old(self).screens().push(
                (ScreenRenderSet { anchor: position, content: ScreenContent::Label { text, style } }),
            ),
            !attach_to_map ==> final(self).world().labels == old(self).world().labels,
            final(self).world().points == old(self).world().points,
            final(self).world().lines == old(self).world().lines,
            final(self).world().polygons == old(self).world().polygons,
            final(self).world().images == old(self).world().images,
    {
        if attach_to_map {
            self.world_set.labels.push((position, text, style));
        } else {
            self.screen_sets.push(
                ScreenRenderSet { anchor: position, content: ScreenContent::Label { text, style } },
            );
        }
    }

    /// Adds a marker, as a new screen set of its own.
    pub fn add_marker(&mut self, position: P, style: S)
        ensures
            final(self).screens() == old(self).screens().push(
                (ScreenRenderSet { anchor: position, content: ScreenContent::Marker { style } }),
            ),
            final(self).world() == old(self).world(),
    {
        self.screen_sets.push(
            ScreenRenderSet { anchor: position, content: ScreenContent::Marker { style } },
        );
    }
}

impl<P: Copy, S> RenderBundle<P, S> {
    /// Adds a point to the bundle.
    pub fn add_point(&mut self, point: &P, paint: S)
        ensures
            final(self).world().points@ == old(self).world().points@.push((*point, paint)),
            final(self).world().lines == old(self).world().lines,
            final(self).world().polygons == old(self).world().polygons,
            final(self).world().images == old(self).world().images,
            final(self).world().labels == old(self).world().labels,
            final(self).screens() == old(self).screens(),
    {
        self.world_set.points.push((*point, paint));
    }
}

/// `after` is `before` followed by one entry for each of `pts`, in order,
/// each holding its point and a clone of `paint`.
pub open spec fn points_appended<P, S: Clone>(
    before: Seq<(P, S)>,
    after: Seq<(P, S)>,
    pts: Seq<P>,
    paint: S,
) -> bool {
    &&& after.len() == before.len() + pts.len()
    &&& after.take(before.len() as int) == before
    &&& forall|i: int|
        0 <= i < pts.len() ==> (#[trigger] after[before.len() + i]).0 == pts[i] && cloned(
            paint,
            after[before.len() + i].1,
        )
}

/// `after` is `before` followed by one marker set for each of `pts`, in
/// order, each anchored at its point with a clone of `style`.
pub open spec fn markers_appended<P, S: Clone>(
    before: Seq<ScreenRenderSet<P, S>>,
    after: Seq<ScreenRenderSet<P, S>>,
    pts: Seq<P>,
    style: S,
) -> bool {
    &&& after.len() == before.len() + pts.len()
    &&& after.take(before.len() as int) == before
    &&& forall|i: int|
        0 <= i < pts.len() ==> (#[trigger] after[before.len() + i]).anchor == pts[i] && (match after[before.len() + i].content {
            ScreenContent::Marker { style: s } => cloned(style, s),
            _ => false,
        })
}

/// `after` is `before` followed by two entries for each of `pts`, in order:
/// the point with a clone of `first`, then the point with a clone of `second`.
pub open spec fn point_pairs_appended<P, S: Clone>(
    before: Seq<(P, S)>,
    after: Seq<(P, S)>,
    pts: Seq<P>,
    first: S,
    second: S,
) -> bool {
    &&& after.len() == before.len() + 2 * pts.len()
    &&& after.take(before.len() as int) == before
    &&& forall|i: int|
        0 <= i < pts.len() ==> (#[trigger] after[before.len() + 2 * i]).0 == pts[i] && cloned(
            first,
            after[before.len() + 2 * i].1,
        ) && after[before.len() + 2 * i + 1].0 == pts[i] && cloned(
            second,
            after[before.len() + 2 * i + 1].1,
        )
}

impl<P: Copy, S: Clone> RenderBundle<P, S> {
    /// Adds one world point for each point of a point or multi-point
    /// geometry, each with its own clone of `paint`; other geometries add
    /// nothing.
    pub fn add_geometry_points(&mut self, geometry: &Geom<P>, paint: &S)
        ensures
            points_appended(
                old(self).world().points@,
                final(self).world().points@,
                points_of(*geometry),
                *paint,
            ),
            final(self).world().lines == old(self).world().lines,
            final(self).world().polygons == old(self).world().polygons,
            final(self).world().images == old(self).world().images,
            final(self).world().labels == old(self).world().labels,
            final(self).screens() == old(self).screens(),
    {
        let ghost before = self.world().points@;
        match geometry {
            Geom::Point(p) => {
                self.add_point(p, paint.clone());
                assert(self.world().points@.take(before.len() as int) =~= before);
            },
            Geom::MultiPoint(ps) => {
                let mut i: usize = 0;
                assert(self.world().points@.take(before.len() as int) =~= before);
                while i < ps.len()
                    invariant
                        i <= ps.len(),
                        points_appended(before, self.world().points@, ps@.take(i as int), *paint),
                        self.world().lines == old(self).world().lines,
                        self.world().polygons == old(self).world().polygons,
                        self.world().images == old(self).world().images,
                        self.world().labels == old(self).world().labels,
                        self.screens() == old(self).screens(),
                    decreases ps.len() - i,
                {
                    let ghost mid = self.world().points@;
                    self.add_point(&ps[i], paint.clone());
                    assert(self.world().points@.take(before.len() as int) =~= mid.take(
                        before.len() as int,
                    ));
                    assert forall|j: int| 0 <= j < i + 1 implies (#[trigger] self.world().points@[before.len() + j]).0
                        == ps@.take(i + 1)[j] && cloned(*paint, self.world().points@[before.len() + j].1) by {
                        if j < i {
                            assert(self.world().points@[before.len() + j] == mid[before.len() + j]);
                        }
                    }
                    i = i + 1;
                }
                assert(ps@.take(ps.len() as int) =~= ps@);
            },
            _ => {
                assert(self.world().points@.take(before.len() as int) =~= before);
            },
        }
    }

    /// Adds two world points for each point of a point or multi-point
    /// geometry: first one painted with `first`, then one painted with
    /// `second` (a background, then what stands on it).
    pub fn add_geometry_point_pairs(&mut self, geometry: &Geom<P>, first: &S, second: &S)
        ensures
            point_pairs_appended(
                old(self).world().points@,
                final(self).world().points@,
                points_of(*geometry),
                *first,
                *second,
            ),
            final(self).world().lines == old(self).world().lines,
            final(self).world().polygons == old(self).world().polygons,
            final(self).world().images == old(self).world().images,
            final(self).world().labels == old(self).world().labels,
            final(self).screens() == old(self).screens(),
    {
        let ghost before = self.world().points@;
        let ghost pts = points_of(*geometry);
        let single: Vec<P>;
        let ps: &Vec<P> = match geometry {
            Geom::Point(p) => {
                single = vec![*p];
                &single
            },
            Geom::MultiPoint(ps) => ps,
            _ => {
                single = Vec::new();
                &single
            },
        };
        assert(ps@ =~= pts);
        let mut i: usize = 0;
        assert(self.world().points@.take(before.len() as int) =~= before);
        while i < ps.len()
            invariant
                i <= ps.len(),
                point_pairs_appended(before, self.world().points@, ps@.take(i as int), *first, *second),
                self.world().lines == old(self).world().lines,
                self.world().polygons == old(self).world().polygons,
                self.world().images == old(self).world().images,
                self.world().labels == old(self).world().labels,
                self.screens() == old(self).screens(),
            decreases ps.len() - i,
        {
            let ghost mid = self.world().points@;
            self.add_point(&ps[i], first.clone());
            self.add_point(&ps[i], second.clone());
            assert(self.world().points@.take(before.len() as int) =~= mid.take(before.len() as int));
            assert forall|j: int| 0 <= j < i + 1 implies (#[trigger] self.world().points@[before.len() + 2 * j]).0
                == ps@.take(i + 1)[j] && cloned(*first, self.world().points@[before.len() + 2 * j].1)
                && self.world().points@[before.len() + 2 * j + 1].0 == ps@.take(i + 1)[j] && cloned(
                *second,
                self.world().points@[before.len() + 2 * j + 1].1,
            ) by {
                if j < i {
                    assert(self.world().points@[before.len() + 2 * j] == mid[before.len() + 2 * j]);
                    assert(self.world().points@[before.len() + 2 * j + 1] == mid[before.len() + 2 * j
                        + 1]);
                }
            }
            i = i + 1;
        }
        assert(ps@.take(ps.len() as int) =~= ps@);
    }

    /// Adds one screen-anchored marker for each point of a point or
    /// multi-point geometry, each with its own clone of `style`.
    pub fn add_geometry_markers(&mut self, geometry: &Geom<P>, style: &S)
        ensures
            markers_appended(old(self).screens(), final(self).screens(), points_of(*geometry), *style),
            final(self).world() == old(self).world(),
    {
        let ghost before = self.screens();
        let ghost pts = points_of(*geometry);
        let single: Vec<P>;
        let ps: &Vec<P> = match geometry {
            Geom::Point(p) => {
                single = vec![*p];
                &single
            },
            Geom::MultiPoint(ps) => ps,
            _ => {
                single = Vec::new();
                &single
            },
        };
        assert(ps@ =~= pts);
        let mut i: usize = 0;
        assert(self.screens().take(before.len() as int) =~= before);
        while i < ps.len()
            invariant
                i <= ps.len(),
                markers_appended(before, self.screens(), ps@.take(i as int), *style),
                self.world() == old(self).world(),
            decreases ps.len() - i,
        {
            let ghost mid = self.screens();
            self.add_marker(ps[i], style.clone());
            assert(self.screens().take(before.len() as int) =~= mid.take(before.len() as int));
            assert forall|j: int| 0 <= j < i + 1 implies (#[trigger] self.screens()[before.len() + j]).anchor
                == ps@.take(i + 1)[j] && (match self.screens()[before.len() + j].content {
                ScreenContent::Marker { style: s } => cloned(*style, s),
                _ => false,
            }) by {
                if j < i {
                    assert(self.screens()[before.len() + j] == mid[before.len() + j]);
                }
            }
            i = i + 1;
        }
        assert(ps@.take(ps.len() as int) =~= ps@);
    }
}

} // verus!
