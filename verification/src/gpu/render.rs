//! What the particle renderer draws in each of its modes:
//!
//! - dots: a disc for each particle,
//! - metaballs: soft blobs added up in a field, which is then cut off at a
//!   threshold,
//! - marching squares: the contour of the same field as lines, or its inside as
//!   triangles.

use crate::gpu::sim::GpuSim;
use crate::scalar::Scalar;
#[allow(unused_imports)]
use crate::gpu::sim::GpuSimModel;
use vstd::prelude::*;

verus! {

/// Which way to draw the fluid.
#[derive(Clone, Copy, PartialEq, Eq, Debug, Structural)]
pub enum RenderMode {
    Dots,
    Metaballs,
    MarchingSquares,
    MarchingSquaresFill,
}

impl Default for RenderMode {
    fn default() -> (mode: Self)
        ensures
            mode == RenderMode::Metaballs,
    {
        RenderMode::Metaballs
    }
}

impl RenderMode {
    /// The mode that follows `self` in the cycle.
    pub open spec fn following(self) -> RenderMode {
        match self {
            RenderMode::Dots => RenderMode::Metaballs,
            RenderMode::Metaballs => RenderMode::MarchingSquares,
            RenderMode::MarchingSquares => RenderMode::MarchingSquaresFill,
            RenderMode::MarchingSquaresFill => RenderMode::Dots,
        }
    }

    /// What the mode is called.
    pub open spec fn title(self) -> Seq<char> {
        match self {
            RenderMode::Dots => "dots"@,
            RenderMode::Metaballs => "metaballs"@,
            RenderMode::MarchingSquares => "marching squares (lines)"@,
            RenderMode::MarchingSquaresFill => "marching squares (fill)"@,
        }
    }

    /// The next mode of the cycle.
    pub fn next(self) -> (mode: Self)
        ensures
            mode == self.following(),
    {
        match self {
            RenderMode::Dots => RenderMode::Metaballs,
            RenderMode::Metaballs => RenderMode::MarchingSquares,
            RenderMode::MarchingSquares => RenderMode::MarchingSquaresFill,
            RenderMode::MarchingSquaresFill => RenderMode::Dots,
        }
    }

    /// Display name of the mode.
    pub fn name(self) -> (name: &'static str)
        ensures
            name@ == self.title(),
    {
        match self {
            RenderMode::Dots => "dots",
            RenderMode::Metaballs => "metaballs",
            RenderMode::MarchingSquares => "marching squares (lines)",
            RenderMode::MarchingSquaresFill => "marching squares (fill)",
        }
    }
}

/// Texels along a side of a square of the contour.
pub const MC_STEP: u32 = 8;

/// A pipeline of the renderer.
#[derive(Clone, Copy, PartialEq, Eq, Debug, Structural)]
pub enum DrawStage {
    Dots,
    Blobs,
    Composite,
    Contour,
    Fill,
}

/// What is drawn into.
#[derive(Clone, Copy, PartialEq, Eq, Debug, Structural)]
pub enum DrawTarget {
    /// The field that the blobs are added up in, cleared to nothing.
    Field,
    /// The surface of the window, cleared to its background.
    Surface,
}

/// How what is drawn goes together with what is there.
#[derive(Clone, Copy, PartialEq, Eq, Debug, Structural)]
pub enum Blend {
    /// Over it, as far as it is opaque.
    Over,
    /// Added to it, in all channels.
    Add,
}

/// What the vertices are the corners of.
#[derive(Clone, Copy, PartialEq, Eq, Debug, Structural)]
pub enum Topology {
    Triangles,
    Lines,
}

/// What the shaders of a pipeline read.
#[derive(Clone, Copy, PartialEq, Eq, Debug, Structural)]
pub enum Reads {
    /// The parameters, the positions and the velocities, in the vertex shader.
    Particles,
    /// The field through a sampler, in the fragment shader.
    SampledField,
    /// The texels of the field, in the vertex shader.
    FieldTexels,
}

/// How a pipeline draws.
#[derive(Clone, Copy, PartialEq, Eq, Debug, Structural)]
pub struct Style {
    pub target: DrawTarget,
    pub blend: Blend,
    pub topology: Topology,
    pub reads: Reads,
}

impl DrawStage {
    /// How the pipeline draws: the blobs are added up in the field, everything else
    /// lies over the background of the surface, and the contour is made of lines.
    pub open spec fn manner(self) -> Style {
        Style {
            target: if self == DrawStage::Blobs {
                DrawTarget::Field
            } else {
                DrawTarget::Surface
            },
            blend: if self == DrawStage::Blobs {
                Blend::Add
            } else {
                Blend::Over
            },
            topology: if self == DrawStage::Contour {
                Topology::Lines
            } else {
                Topology::Triangles
            },
            reads: match self {
                DrawStage::Dots => Reads::Particles,
                DrawStage::Blobs => Reads::Particles,
                DrawStage::Composite => Reads::SampledField,
                DrawStage::Contour => Reads::FieldTexels,
                DrawStage::Fill => Reads::FieldTexels,
            },
        }
    }

    /// Entry points of the vertex shader and of the fragment shader.
    pub open spec fn entry_names(self) -> (Seq<char>, Seq<char>) {
        match self {
            DrawStage::Dots => ("vs"@, "fs"@),
            DrawStage::Blobs => ("vs_blob"@, "fs_blob"@),
            DrawStage::Composite => ("vs_full"@, "fs_threshold"@),
            DrawStage::Contour => ("vs_contour"@, "fs_contour"@),
            DrawStage::Fill => ("vs_fill"@, "fs_fill"@),
        }
    }

    /// How the pipeline draws.
    pub fn style(self) -> (style: Style)
        ensures
            style == self.manner(),
    {
        let (target, blend, topology): (DrawTarget, Blend, Topology) = (
            DrawTarget::Surface,
            Blend::Over,
            Topology::Triangles,
        );
        match self {
            DrawStage::Dots => Style { target, blend, topology, reads: Reads::Particles },
            DrawStage::Blobs => Style {
                target: DrawTarget::Field,
                blend: Blend::Add,
                topology,
                reads: Reads::Particles,
            },
            DrawStage::Composite => Style { target, blend, topology, reads: Reads::SampledField },
            DrawStage::Contour => Style {
                target,
                blend,
                topology: Topology::Lines,
                reads: Reads::FieldTexels,
            },
            DrawStage::Fill => Style { target, blend, topology, reads: Reads::FieldTexels },
        }
    }

    /// Entry points of the vertex shader and of the fragment shader.
    pub fn entries(self) -> (names: (&'static str, &'static str))
        ensures
            names.0@ == self.entry_names().0,
            names.1@ == self.entry_names().1,
    {
        match self {
            DrawStage::Dots => ("vs", "fs"),
            DrawStage::Blobs => ("vs_blob", "fs_blob"),
            DrawStage::Composite => ("vs_full", "fs_threshold"),
            DrawStage::Contour => ("vs_contour", "fs_contour"),
            DrawStage::Fill => ("vs_fill", "fs_fill"),
        }
    }
}

/// One render pass.
#[derive(Clone, Copy, PartialEq, Eq, Debug, Structural)]
pub struct Draw {
    pub stage: DrawStage,
    pub target: DrawTarget,
    pub vertices: u32,
    pub instances: u32,
}

/// What the shaders of the particles are told.
#[derive(Clone, Copy)]
pub struct RenderParams<T> {
    pub domain_w: T,
    pub domain_h: T,
    pub radius: T,
    pub max_speed: T,
}

/// The renderer: its particles, and the size of its field.
pub struct RendererModel<T> {
    pub num: u32,
    pub params: RenderParams<T>,
    pub field_w: u32,
    pub field_h: u32,
}

/// A side of the field, which has at least one texel.
pub open spec fn texels(side: u32) -> u32 {
    if side >= 1 {
        side
    } else {
        1
    }
}

impl<T: Scalar> RendererModel<T> {
    /// The renderer of a fluid on a surface of the given size.
    pub open spec fn of(sim: GpuSimModel<T>, width: u32, height: u32) -> RendererModel<T> {
        RendererModel {
            num: sim.params.num,
            params: RenderParams {
                domain_w: sim.domain.0,
                domain_h: sim.domain.1,
                radius: sim.params.particle_radius,
                max_speed: sim.params.max_speed,
            },
            field_w: texels(width),
            field_h: texels(height),
        }
    }

    /// The field fitted to a surface of the given size.
    pub open spec fn resized(self, width: u32, height: u32) -> RendererModel<T> {
        RendererModel { field_w: texels(width), field_h: texels(height), ..self }
    }

    /// Squares of the contour.
    pub open spec fn squares(self) -> int {
        (self.field_w / MC_STEP) * (self.field_h / MC_STEP)
    }

    /// Vertices of the last pass of a mode: the corners of the discs, of the
    /// surface, of two lines in each square, or of three triangles in each.
    pub open spec fn vertices(self, mode: RenderMode) -> int {
        match mode {
            RenderMode::Dots => 6,
            RenderMode::Metaballs => 3,
            RenderMode::MarchingSquares => self.squares() * 4,
            RenderMode::MarchingSquaresFill => self.squares() * 9,
        }
    }

    /// The vertices of the mode can be counted.
    pub open spec fn can_draw(self, mode: RenderMode) -> bool {
        self.vertices(mode) <= u32::MAX
    }

    /// The pass that adds the blobs up in the field.
    pub open spec fn blobs(self) -> Draw {
        Draw {
            stage: DrawStage::Blobs,
            target: DrawTarget::Field,
            vertices: 6,
            instances: self.num,
        }
    }

    /// The pass that draws the fluid on the surface.
    pub open spec fn finish(self, mode: RenderMode) -> Draw {
        Draw {
            stage: match mode {
                RenderMode::Dots => DrawStage::Dots,
                RenderMode::Metaballs => DrawStage::Composite,
                RenderMode::MarchingSquares => DrawStage::Contour,
                RenderMode::MarchingSquaresFill => DrawStage::Fill,
            },
            target: DrawTarget::Surface,
            vertices: self.vertices(mode) as u32,
            instances: if mode == RenderMode::Dots {
                self.num
            } else {
                1
            },
        }
    }

    /// The passes of a mode.
    pub open spec fn passes(self, mode: RenderMode) -> Seq<Draw> {
        if mode == RenderMode::Dots {
            seq![self.finish(mode)]
        } else {
            seq![self.blobs(), self.finish(mode)]
        }
    }
}

/// The renderer of the particles.
pub struct Renderer<T> {
    num: u32,
    params: RenderParams<T>,
    field_w: u32,
    field_h: u32,
}

impl<T: Scalar> View for Renderer<T> {
    type V = RendererModel<T>;

    closed spec fn view(&self) -> RendererModel<T> {
        RendererModel {
            num: self.num,
            params: self.params,
            field_w: self.field_w,
            field_h: self.field_h,
        }
    }
}

impl<T: Scalar> Renderer<T> {
    /// Renderer of a fluid on a surface of the given size.
    pub fn new(sim: &GpuSim<T>, width: u32, height: u32) -> (r: Self)
        requires
            sim.valid(),
        ensures
            r@ == RendererModel::of(sim@, width, height),
    {
        let (w, h): (T, T) = sim.domain();
        Renderer {
            num: sim.num(),
            params: RenderParams {
                domain_w: w,
                domain_h: h,
                radius: sim.particle_radius(),
                max_speed: sim.max_speed(),
            },
            field_w: at_least_one(width),
            field_h: at_least_one(height),
        }
    }

    /// What the shaders of the particles are to be told.
    pub fn params(&self) -> (params: RenderParams<T>)
        ensures
            params == self@.params,
    {
        self.params
    }

    /// Size of the field.
    pub fn field_size(&self) -> (size: (u32, u32))
        ensures
            size == (self@.field_w, self@.field_h),
    {
        (self.field_w, self.field_h)
    }

    /// Fit the field to a new size of the surface.
    pub fn resize(&mut self, width: u32, height: u32)
        ensures
            final(self)@ == old(self)@.resized(width, height),
    {
        self.field_w = at_least_one(width);
        self.field_h = at_least_one(height);
    }

    /// Whether the vertices of a mode can be counted.
    pub fn drawable(&self, mode: RenderMode) -> (ok: bool)
        ensures
            ok == self@.can_draw(mode),
    {
        proof {
            assert(0 <= self@.squares()) by (nonlinear_arith)
                requires
                    self@.squares() == (self.field_w / MC_STEP) * (self.field_h / MC_STEP),
                    0 <= self.field_w / MC_STEP,
                    0 <= self.field_h / MC_STEP,
            ;
        }
        match mode {
            RenderMode::Dots | RenderMode::Metaballs => true,
            RenderMode::MarchingSquares => {
                match (self.field_w / MC_STEP).checked_mul(self.field_h / MC_STEP) {
                    Some(cells) => cells.checked_mul(4).is_some(),
                    None => false,
                }
            },
            RenderMode::MarchingSquaresFill => {
                match (self.field_w / MC_STEP).checked_mul(self.field_h / MC_STEP) {
                    Some(cells) => cells.checked_mul(9).is_some(),
                    None => false,
                }
            },
        }
    }

    /// The passes that draw the fluid in the given mode.
    pub fn render(&self, mode: RenderMode) -> (plan: Vec<Draw>)
        requires
            self@.can_draw(mode),
        ensures
            plan@ == self@.passes(mode),
    {
        proof {
            assert(0 <= self@.squares()) by (nonlinear_arith)
                requires
                    self@.squares() == (self.field_w / MC_STEP) * (self.field_h / MC_STEP),
                    0 <= self.field_w / MC_STEP,
                    0 <= self.field_h / MC_STEP,
            ;
        }
        let target: DrawTarget = DrawTarget::Surface;
        let mut plan: Vec<Draw> = Vec::new();
        match mode {
            RenderMode::Dots => {
                plan.push(
                    Draw { stage: DrawStage::Dots, target, vertices: 6, instances: self.num },
                );
            },
            RenderMode::Metaballs => {
                plan.push(self.record_blobs());
                plan.push(
                    Draw { stage: DrawStage::Composite, target, vertices: 3, instances: 1 },
                );
            },
            RenderMode::MarchingSquares => {
                plan.push(self.record_blobs());
                let cells: u32 = (self.field_w / MC_STEP) * (self.field_h / MC_STEP);
                plan.push(
                    Draw { stage: DrawStage::Contour, target, vertices: cells * 4, instances: 1 },
                );
            },
            RenderMode::MarchingSquaresFill => {
                plan.push(self.record_blobs());
                let cells: u32 = (self.field_w / MC_STEP) * (self.field_h / MC_STEP);
                plan.push(
                    Draw { stage: DrawStage::Fill, target, vertices: cells * 9, instances: 1 },
                );
            },
        }
        assert(plan@ =~= self@.passes(mode));
        plan
    }

    /// The pass that adds the blobs up in the field.
    fn record_blobs(&self) -> (draw: Draw)
        ensures
            draw == self@.blobs(),
    {
        Draw {
            stage: DrawStage::Blobs,
            target: DrawTarget::Field,
            vertices: 6,
            instances: self.num,
        }
    }
}

/// `side`, or one where it is zero.
fn at_least_one(side: u32) -> (n: u32)
    ensures
        n == texels(side),
{
    if side >= 1 {
        side
    } else {
        1
    }
}

/// Going on from mode to mode visits all four and comes back to the first.
pub proof fn law_modes_cycle(mode: RenderMode)
    ensures
        mode.following() != mode,
        mode.following().following() != mode,
        mode.following().following().following() != mode,
        mode.following().following().following().following() == mode,
{
}

/// No two modes have the same name.
pub proof fn law_mode_names_differ(a: RenderMode, b: RenderMode)
    requires
        a.title() == b.title(),
    ensures
        a == b,
{
    reveal_strlit("dots");
    reveal_strlit("metaballs");
    reveal_strlit("marching squares (lines)");
    reveal_strlit("marching squares (fill)");
    assert(RenderMode::Dots.title().len() == 4);
    assert(RenderMode::Metaballs.title().len() == 9);
    assert(RenderMode::MarchingSquares.title().len() == 24);
    assert(RenderMode::MarchingSquaresFill.title().len() == 23);
}

/// Every mode draws on the surface once, and last. The modes that go by the field
/// fill it first.
pub proof fn law_surface_is_drawn_last<T: Scalar>(r: RendererModel<T>, mode: RenderMode)
    ensures
        r.passes(mode).last().target == DrawTarget::Surface,
        mode == RenderMode::Dots ==> r.passes(mode).len() == 1,
        mode != RenderMode::Dots ==> r.passes(mode).len() == 2,
        mode != RenderMode::Dots ==> r.passes(mode)[0].target == DrawTarget::Field,
{
}

/// Every pass draws into what its pipeline is made for, and a pipeline that reads
/// the field runs after the one that fills it.
pub proof fn law_passes_fit_their_pipelines<T: Scalar>(
    r: RendererModel<T>,
    mode: RenderMode,
    k: int,
)
    requires
        0 <= k < r.passes(mode).len(),
    ensures
        r.passes(mode)[k].target == r.passes(mode)[k].stage.manner().target,
        r.passes(mode)[k].stage.manner().reads != Reads::Particles ==> k == 1
            && r.passes(mode)[0].stage == DrawStage::Blobs,
{
}

} // verus!
