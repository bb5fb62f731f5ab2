use vstd::prelude::*;

verus! {

/// How the renderer draws the triangles of a frame.
#[derive(Clone, Copy, Debug, PartialEq, Eq, Structural)]
pub enum RenderMode {
    Wireframe,
    WireframeVertices,
    FilledTriangles,
    WireframeFilledTriangles,
    TexturedTriangles,
    WireframeTexturedTriangles,
}

/// Whether faces turned away from the camera are dropped.
#[derive(Clone, Copy, Debug, PartialEq, Eq, Structural)]
pub enum BackfaceCullingMode {
    Enabled,
    Disabled,
}

/// The drawing passes of one frame, in the order the renderer runs them:
/// flat-filled triangles, textured triangles, triangle outlines, and a small
/// square on each corner.
#[derive(Clone, Copy, Debug, PartialEq, Eq, Structural)]
pub struct RenderPasses {
    pub filled: bool,
    pub textured: bool,
    pub wireframe: bool,
    pub vertices: bool,
}

/// The passes that `mode` draws: filled triangles in the two filled modes,
/// textured triangles in the two textured modes, outlines in every mode but
/// plain filled and plain textured, and corner squares in the vertices mode.
pub open spec fn passes_of(mode: RenderMode) -> RenderPasses {
    let filled = mode == RenderMode::FilledTriangles || mode == RenderMode::WireframeFilledTriangles;
    let textured = mode == RenderMode::TexturedTriangles || mode
        == RenderMode::WireframeTexturedTriangles;
    RenderPasses {
        filled,
        textured: !filled && textured,
        wireframe: !(mode == RenderMode::FilledTriangles || mode == RenderMode::TexturedTriangles),
        vertices: mode == RenderMode::WireframeVertices,
    }
}

/// Returns the drawing passes of a frame drawn in `mode`.
pub fn render_passes(mode: RenderMode) -> (passes: RenderPasses)
    ensures
        passes == passes_of(mode),
{
    let filled = mode == RenderMode::FilledTriangles || mode == RenderMode::WireframeFilledTriangles;
    let textured = !filled && (mode == RenderMode::TexturedTriangles || mode
        == RenderMode::WireframeTexturedTriangles);
    RenderPasses {
        filled,
        textured,
        wireframe: !(mode == RenderMode::FilledTriangles || mode == RenderMode::TexturedTriangles),
        vertices: mode == RenderMode::WireframeVertices,
    }
}

/// The render mode that number key `n` selects: 1 outlines with corner
/// squares, 2 outlines, 3 filled, 4 filled with outlines, 5 textured,
/// 6 textured with outlines; other numbers select none.
pub open spec fn mode_for_number(n: u32) -> Option<RenderMode> {
    if n == 1 {
        Some(RenderMode::WireframeVertices)
    } else if n == 2 {
        Some(RenderMode::Wireframe)
    } else if n == 3 {
        Some(RenderMode::FilledTriangles)
    } else if n == 4 {
        Some(RenderMode::WireframeFilledTriangles)
    } else if n == 5 {
        Some(RenderMode::TexturedTriangles)
    } else if n == 6 {
        Some(RenderMode::WireframeTexturedTriangles)
    } else {
        None
    }
}

/// Returns the render mode that number key `n` selects, if any.
pub fn render_mode_for_number_key(n: u32) -> (mode: Option<RenderMode>)
    ensures
        mode == mode_for_number(n),
{
    match n {
        1 => Some(RenderMode::WireframeVertices),
        2 => Some(RenderMode::Wireframe),
        3 => Some(RenderMode::FilledTriangles),
        4 => Some(RenderMode::WireframeFilledTriangles),
        5 => Some(RenderMode::TexturedTriangles),
        6 => Some(RenderMode::WireframeTexturedTriangles),
        _ => None,
    }
}

/// Every render mode is selected by exactly one number key, and the key
/// selects it again after any other mode: a mode's key brings it back.
pub proof fn lemma_number_keys_select_each_mode(mode: RenderMode)
    ensures
        exists|n: u32| 1 <= n <= 6 && #[trigger] mode_for_number(n) == Some(mode),
        forall|n: u32, m: u32|
            #![trigger mode_for_number(n), mode_for_number(m)]
            mode_for_number(n) == Some(mode) && mode_for_number(m) == Some(mode) ==> n == m,
{
    match mode {
        RenderMode::WireframeVertices => assert(mode_for_number(1) == Some(mode)),
        RenderMode::Wireframe => assert(mode_for_number(2) == Some(mode)),
        RenderMode::FilledTriangles => assert(mode_for_number(3) == Some(mode)),
        RenderMode::WireframeFilledTriangles => assert(mode_for_number(4) == Some(mode)),
        RenderMode::TexturedTriangles => assert(mode_for_number(5) == Some(mode)),
        RenderMode::WireframeTexturedTriangles => assert(mode_for_number(6) == Some(mode)),
    }
}

} // verus!
