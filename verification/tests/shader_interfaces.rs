use feo_oop_engine::graphics::three_vertex_buffers_definition::ThreeBuffersDefinition;
use feo_oop_engine::shaders::{fs_draw, fs_lighting_ambient, fs_lighting_directional,
    fs_lighting_point, vs_draw, vs_lighting, AttributeFormat};

#[test]
fn draw_vertex_inputs_walk_in_declaration_order() {
    let mut it = vs_draw::VertInput.elements();
    assert_eq!(it.size_hint(), (3, Some(3)));
    let e = it.next().unwrap();
    assert_eq!(e.name, "texture_index");
    assert_eq!((e.location_start, e.location_end), (2, 3));
    assert_eq!(e.format, AttributeFormat::R32G32Sfloat);
    let e = it.next().unwrap();
    assert_eq!(e.name, "normal");
    assert_eq!(e.format, AttributeFormat::R32G32B32Sfloat);
    let e = it.next().unwrap();
    assert_eq!(e.name, "position");
    assert_eq!((e.location_start, e.location_end), (0, 1));
    assert!(it.next().is_none());
    assert_eq!(it.size_hint(), (0, Some(0)));
}

#[test]
fn draw_vertex_outputs_expose_three_varyings() {
    let mut it = vs_draw::VertOutput.elements();
    let names: Vec<&str> = [it.next(), it.next(), it.next()]
        .into_iter()
        .map(|e| e.unwrap().name)
        .collect();
    assert_eq!(names, vec!["v_camspace_xy", "v_texture_index", "v_normal"]);
    assert!(it.next().is_none());
}

#[test]
fn draw_fragment_interface_matches_the_vertex_outputs() {
    let mut it = fs_draw::FragInput.elements();
    let e = it.next().unwrap();
    assert_eq!(e.name, "v_normal");
    assert_eq!(e.format, AttributeFormat::R32G32B32Sfloat);
    let mut out = fs_draw::FragOutput.elements();
    assert_eq!(out.size_hint(), (4, Some(4)));
    let e = out.next().unwrap();
    assert_eq!(e.name, "f_specular");
    assert_eq!((e.location_start, e.location_end), (3, 4));
    assert_eq!(e.format, AttributeFormat::R32G32B32A32Sfloat);
}

#[test]
fn lighting_vertex_shader_takes_positions_only() {
    let mut it = vs_lighting::VertInput.elements();
    assert_eq!(it.size_hint(), (1, Some(1)));
    let e = it.next().unwrap();
    assert_eq!(e.name, "position");
    assert_eq!(e.format, AttributeFormat::R32G32Sfloat);
    assert!(it.next().is_none());
    let mut out = vs_lighting::VertOutput.elements();
    assert_eq!(out.size_hint(), (0, Some(0)));
    assert!(out.next().is_none());
}

#[test]
fn lighting_fragment_shaders_emit_one_color() {
    let mut p = fs_lighting_point::FragOutput.elements();
    let mut d = fs_lighting_directional::FragOutput.elements();
    let mut a = fs_lighting_ambient::FragOutput.elements();
    for it_next in [p.next(), d.next(), a.next()] {
        let e = it_next.unwrap();
        assert_eq!(e.name, "f_color");
        assert_eq!((e.location_start, e.location_end), (0, 1));
        assert_eq!(e.format, AttributeFormat::R32G32B32A32Sfloat);
    }
    assert!(p.next().is_none());
    assert!(fs_lighting_point::FragInput.elements().next().is_none());
}

#[test]
fn three_buffers_definition_is_constructible() {
    let _d: ThreeBuffersDefinition<u8, u16, u32> = ThreeBuffersDefinition::new();
}
