use threed_from_scratch::controls::{render_mode_for_number_key, render_passes, RenderMode};

#[test]
fn passes_of_each_mode() {
    let table = [
        (RenderMode::Wireframe, (false, false, true, false)),
        (RenderMode::WireframeVertices, (false, false, true, true)),
        (RenderMode::FilledTriangles, (true, false, false, false)),
        (RenderMode::WireframeFilledTriangles, (true, false, true, false)),
        (RenderMode::TexturedTriangles, (false, true, false, false)),
        (RenderMode::WireframeTexturedTriangles, (false, true, true, false)),
    ];
    for (mode, (filled, textured, wireframe, vertices)) in table {
        let passes = render_passes(mode);
        assert_eq!(passes.filled, filled, "{:?}", mode);
        assert_eq!(passes.textured, textured, "{:?}", mode);
        assert_eq!(passes.wireframe, wireframe, "{:?}", mode);
        assert_eq!(passes.vertices, vertices, "{:?}", mode);
    }
}

#[test]
fn number_keys_select_modes() {
    assert_eq!(render_mode_for_number_key(1), Some(RenderMode::WireframeVertices));
    assert_eq!(render_mode_for_number_key(2), Some(RenderMode::Wireframe));
    assert_eq!(render_mode_for_number_key(3), Some(RenderMode::FilledTriangles));
    assert_eq!(render_mode_for_number_key(4), Some(RenderMode::WireframeFilledTriangles));
    assert_eq!(render_mode_for_number_key(5), Some(RenderMode::TexturedTriangles));
    assert_eq!(render_mode_for_number_key(6), Some(RenderMode::WireframeTexturedTriangles));
    assert_eq!(render_mode_for_number_key(0), None);
    assert_eq!(render_mode_for_number_key(7), None);
}
