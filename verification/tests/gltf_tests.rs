use raytracer::gltf::{
    accessor_kind, gltf_accessors_to_data, gltf_buffer_views_to_bytes, gltf_buffers_to_bytes,
    gltf_materials_to_materials, gltf_meshes_to_hittables, AccessorKind, Corner, DataType,
    GLTFAccessor, GLTFBuffer, GLTFBufferView, GLTFMaterial, GLTFMesh, GLTFMeshPrimitive,
    MeshTriangle, PBRMetallicRoughness, SurfaceKind,
};
use raytracer::ordinal::key_of_bits;
use raytracer::vec3::Vec3;

fn key(x: f32) -> i32 {
    key_of_bits(x.to_bits()).unwrap()
}

fn buffer(uri: &str) -> GLTFBuffer {
    GLTFBuffer { byte_length: 0, uri: uri.to_string() }
}

#[test]
fn payload_of_a_data_uri_is_decoded() {
    let out = gltf_buffers_to_bytes(&[buffer("data:application/octet-stream;base64,aGVsbG8gd29ybGQ=")]);
    assert_eq!(out, vec![b"hello world".to_vec()]);
}

#[test]
fn payload_ends_at_the_next_comma() {
    let out = gltf_buffers_to_bytes(&[buffer("x,AAEC,aGVsbG8=")]);
    assert_eq!(out, vec![vec![0u8, 1, 2]]);
    let out = gltf_buffers_to_bytes(&[buffer(",AAEC")]);
    assert_eq!(out, vec![vec![0u8, 1, 2]]);
}

#[test]
fn empty_payload_gives_no_bytes() {
    let out = gltf_buffers_to_bytes(&[buffer("data:,"), buffer("data:,,AAEC")]);
    assert_eq!(out, vec![Vec::<u8>::new(), Vec::<u8>::new()]);
}

#[test]
fn buffer_that_is_no_base64_text_is_left_out() {
    let out = gltf_buffers_to_bytes(&[
        buffer("data:a,AAEC"),
        buffer("data:b,not base64!"),
        buffer("data:c,AQ=="),
        buffer("data:d,A"),
        buffer("data:\u{e9}\u{4e16},/w=="),
    ]);
    assert_eq!(out, vec![vec![0u8, 1, 2], vec![1u8], vec![255u8]]);
    assert_eq!(gltf_buffers_to_bytes(&[]), Vec::<Vec<u8>>::new());
}

#[test]
fn view_shows_its_window_of_its_buffer() {
    let buffers = vec![vec![0u8, 1, 2, 3, 4, 5, 6, 7], vec![10u8, 11, 12]];
    let views = [
        GLTFBufferView { buffer: 0, byte_length: 3, byte_offset: 2 },
        GLTFBufferView { buffer: 1, byte_length: 3, byte_offset: 0 },
        GLTFBufferView { buffer: 0, byte_length: 0, byte_offset: 8 },
        GLTFBufferView { buffer: 1, byte_length: 1, byte_offset: 2 },
        GLTFBufferView { buffer: 0, byte_length: 8, byte_offset: 0 },
    ];
    let out = gltf_buffer_views_to_bytes(&views, &buffers);
    assert_eq!(
        out,
        vec![vec![2u8, 3, 4], vec![10u8, 11, 12], vec![], vec![12u8], vec![0u8, 1, 2, 3, 4, 5, 6, 7]]
    );
    assert_eq!(gltf_buffer_views_to_bytes(&[], &buffers), Vec::<Vec<u8>>::new());
}

#[test]
fn type_names_are_read_letter_for_letter() {
    assert_eq!(accessor_kind("VEC3"), AccessorKind::Vec3);
    assert_eq!(accessor_kind("VEC2"), AccessorKind::Vec2);
    assert_eq!(accessor_kind("SCALAR"), AccessorKind::Scalar);
    assert_eq!(accessor_kind("vec3"), AccessorKind::Other);
    assert_eq!(accessor_kind("VEC4"), AccessorKind::Other);
    assert_eq!(accessor_kind("VEC"), AccessorKind::Other);
    assert_eq!(accessor_kind("VEC33"), AccessorKind::Other);
    assert_eq!(accessor_kind(""), AccessorKind::Other);
    assert_eq!(accessor_kind("MAT4"), AccessorKind::Other);
}

fn accessor(view: usize, count: usize, kind: &str) -> GLTFAccessor {
    GLTFAccessor { buffer_view: view, count, type_: kind.to_string() }
}

#[test]
fn accessors_read_numbers_with_the_least_byte_first() {
    let mut positions = Vec::new();
    for x in [1.0f32, 2.0, 3.0, -4.5, 0.0, 1e-4] {
        positions.extend_from_slice(&x.to_le_bytes());
    }
    let scalars = vec![1u8, 0, 0, 1, 255, 255, 9];
    let views = vec![positions, scalars];
    let out = gltf_accessors_to_data(
        &[
            accessor(0, 2, "VEC3"),
            accessor(0, 3, "VEC2"),
            accessor(1, 3, "SCALAR"),
            accessor(1, 700, "MAT4"),
            accessor(0, 0, "VEC3"),
            accessor(0, 1, "VEC3"),
        ],
        &views,
    );
    let bits = |x: f32| x.to_bits();
    assert_eq!(
        out[0],
        vec![
            DataType::Vec3(bits(1.0), bits(2.0), bits(3.0)),
            DataType::Vec3(bits(-4.5), bits(0.0), bits(1e-4)),
        ]
    );
    assert_eq!(
        out[1],
        vec![
            DataType::Vec2(bits(1.0), bits(2.0)),
            DataType::Vec2(bits(3.0), bits(-4.5)),
            DataType::Vec2(bits(0.0), bits(1e-4)),
        ]
    );
    assert_eq!(out[2], vec![DataType::Scalar(1), DataType::Scalar(256), DataType::Scalar(65535)]);
    assert_eq!(out[3], vec![]);
    assert_eq!(out[4], vec![]);
    assert_eq!(out[5], vec![DataType::Vec3(bits(1.0), bits(2.0), bits(3.0))]);
    assert_eq!(out.len(), 6);
}

#[test]
fn meshes_give_a_triangle_for_every_three_corner_numbers() {
    let corner = |k: u32| DataType::Vec3(k, k + 100, k + 200);
    let at = |k: u32| Corner { x: k, y: k + 100, z: k + 200 };
    let accessors = vec![
        vec![corner(0), corner(1), corner(2), corner(3)],
        vec![0u16, 1, 2, 2, 1, 3, 0, 3].into_iter().map(DataType::Scalar).collect(),
        vec![DataType::Scalar(3), DataType::Vec2(7, 7), DataType::Scalar(1)],
        vec![DataType::Vec2(1, 2), corner(8), DataType::Scalar(4), corner(9)],
    ];
    let mesh = |position: usize, indices: usize, material: usize| GLTFMesh {
        name: "mesh".to_string(),
        primitives: vec![
            GLTFMeshPrimitive { position, indices, material },
            GLTFMeshPrimitive { position: 99, indices: 99, material: 99 },
        ],
    };
    let out = gltf_meshes_to_hittables(&[mesh(0, 1, 1), mesh(3, 2, 0)], &accessors, 2);
    assert_eq!(
        out,
        vec![
            MeshTriangle { v0: at(0), v1: at(1), v2: at(2), material: 1 },
            MeshTriangle { v0: at(2), v1: at(1), v2: at(3), material: 1 },
            // What is no scalar counts as corner 0, and what is no vector as the origin.
            MeshTriangle {
                v0: at(9),
                v1: Corner { x: 0, y: 0, z: 0 },
                v2: at(8),
                material: 0,
            },
        ]
    );
    assert_eq!(gltf_meshes_to_hittables(&[], &accessors, 2), vec![]);
}

#[test]
fn corner_numbers_beyond_the_last_triangle_are_not_read() {
    let corner = |k: u32| DataType::Vec3(k, k + 100, k + 200);
    let at = |k: u32| Corner { x: k, y: k + 100, z: k + 200 };
    let accessors = vec![
        vec![corner(0), corner(1), corner(2)],
        vec![2u16, 0, 1, 500, 600].into_iter().map(DataType::Scalar).collect(),
        vec![DataType::Scalar(700), DataType::Scalar(800)],
    ];
    let mesh = |position: usize, indices: usize, material: usize| GLTFMesh {
        name: "mesh".to_string(),
        primitives: vec![GLTFMeshPrimitive { position, indices, material }],
    };
    // The second mesh has no triangle: neither its corner numbers nor its
    // material are read.
    let meshes = [mesh(0, 1, 0), mesh(0, 2, 99)];
    assert!(meshes.iter().all(|m| m.fits_in(&accessors, 1)));
    assert_eq!(
        gltf_meshes_to_hittables(&meshes, &accessors, 1),
        vec![MeshTriangle { v0: at(2), v1: at(0), v2: at(1), material: 0 }]
    );
}

fn material(color: [f32; 4], metallic: f32, roughness: f32) -> GLTFMaterial {
    GLTFMaterial {
        double_sided: false,
        name: "material".to_string(),
        pbr_metallic_roughness: PBRMetallicRoughness {
            base_color_factor: color.iter().map(|c| key(*c)).collect(),
            metallic_factor: key(metallic),
            roughness_factor: key(roughness),
        },
    }
}

#[test]
fn material_is_a_metal_from_the_metallic_threshold_on() {
    let red = [0.8, 0.1, 0.2, 1.0];
    let color = Vec3::new(key(0.8), key(0.1), key(0.2));
    let out = gltf_materials_to_materials(&[
        material(red, 0.0, 0.5),
        material(red, 1.0, 0.5),
        material(red, 9e-6, 0.5),
        material(red, -9e-6, 0.5),
        material(red, 1e-5, 0.25),
        material(red, -1e-5, 0.25),
        material(red, -0.5, 0.0),
    ]);
    let matte = SurfaceKind::Lambertian { color };
    assert_eq!(
        out,
        vec![
            matte,
            SurfaceKind::Metal { albedo: color, fuzziness: key(0.5) },
            matte,
            matte,
            SurfaceKind::Metal { albedo: color, fuzziness: key(0.25) },
            SurfaceKind::Metal { albedo: color, fuzziness: key(0.25) },
            SurfaceKind::Metal { albedo: color, fuzziness: key(0.0) },
        ]
    );
}

#[test]
fn uri_without_a_comma_has_no_payload() {
    assert!(buffer("data:application/octet-stream;base64,AAEC").has_payload());
    assert!(buffer(",").has_payload());
    assert!(buffer("a,b,c").has_payload());
    assert!(!buffer("data:application/octet-stream;base64").has_payload());
    assert!(!buffer("").has_payload());
    assert!(!buffer("\u{e9}\u{4e16}").has_payload());
}

#[test]
fn view_fits_when_it_ends_within_its_buffer() {
    let buffers = vec![vec![0u8; 8], vec![]];
    let view = |buffer, byte_offset, byte_length| GLTFBufferView { buffer, byte_length, byte_offset };
    assert!(view(0, 0, 8).fits_in(&buffers));
    assert!(view(0, 8, 0).fits_in(&buffers));
    assert!(view(0, 3, 5).fits_in(&buffers));
    assert!(view(1, 0, 0).fits_in(&buffers));
    assert!(!view(0, 3, 6).fits_in(&buffers));
    assert!(!view(0, 9, 0).fits_in(&buffers));
    assert!(!view(1, 0, 1).fits_in(&buffers));
    assert!(!view(2, 0, 0).fits_in(&buffers));
    assert!(!view(0, usize::MAX, 2).fits_in(&buffers));
    assert!(!view(0, 2, usize::MAX).fits_in(&buffers));
}

#[test]
fn accessor_fits_when_its_view_holds_all_its_items() {
    let views = vec![vec![0u8; 25], vec![]];
    assert!(accessor(0, 2, "VEC3").fits_in(&views));
    assert!(!accessor(0, 3, "VEC3").fits_in(&views));
    assert!(accessor(0, 3, "VEC2").fits_in(&views));
    assert!(!accessor(0, 4, "VEC2").fits_in(&views));
    assert!(accessor(0, 12, "SCALAR").fits_in(&views));
    assert!(!accessor(0, 13, "SCALAR").fits_in(&views));
    assert!(accessor(0, usize::MAX, "MAT4").fits_in(&views));
    assert!(!accessor(0, usize::MAX, "SCALAR").fits_in(&views));
    assert!(accessor(1, 0, "VEC3").fits_in(&views));
    assert!(!accessor(1, 1, "SCALAR").fits_in(&views));
    assert!(!accessor(2, 0, "VEC3").fits_in(&views));
}

#[test]
fn mesh_fits_when_its_first_group_names_what_there_is() {
    let corner = DataType::Vec3(0, 0, 0);
    let accessors = vec![
        vec![corner, corner, corner],
        vec![DataType::Scalar(0), DataType::Scalar(2), DataType::Vec2(9, 9)],
        vec![DataType::Scalar(3)],
        vec![],
        vec![DataType::Scalar(0), DataType::Scalar(1), DataType::Scalar(3)],
        vec![
            DataType::Scalar(2),
            DataType::Scalar(1),
            DataType::Scalar(0),
            DataType::Scalar(9),
            DataType::Scalar(9),
        ],
    ];
    let mesh = |position: usize, indices: usize, material: usize| GLTFMesh {
        name: "mesh".to_string(),
        primitives: vec![GLTFMeshPrimitive { position, indices, material }],
    };
    assert!(mesh(0, 1, 0).fits_in(&accessors, 1));
    assert!(mesh(0, 3, 4).fits_in(&accessors, 5));
    assert!(mesh(3, 3, 0).fits_in(&accessors, 1));
    // Corner numbers after the last full three stand in no triangle and are
    // not read; without a triangle the material is not read either.
    assert!(mesh(0, 2, 0).fits_in(&accessors, 1));
    assert!(mesh(0, 2, 7).fits_in(&accessors, 0));
    assert!(mesh(0, 3, 7).fits_in(&accessors, 0));
    assert!(mesh(0, 5, 0).fits_in(&accessors, 1));
    // A corner number in a triangle has to name a position.
    assert!(!mesh(0, 4, 0).fits_in(&accessors, 1));
    assert!(!mesh(3, 1, 0).fits_in(&accessors, 1));
    assert!(!mesh(3, 5, 0).fits_in(&accessors, 1));
    // The material of a triangle has to be in the table.
    assert!(!mesh(0, 1, 1).fits_in(&accessors, 1));
    assert!(!mesh(0, 5, 0).fits_in(&accessors, 0));
    // The accessors have to be there.
    assert!(!mesh(6, 1, 0).fits_in(&accessors, 1));
    assert!(!mesh(0, 6, 0).fits_in(&accessors, 1));
    let empty = GLTFMesh { name: "mesh".to_string(), primitives: vec![] };
    assert!(!empty.fits_in(&accessors, 1));
}

#[test]
fn material_needs_three_components_of_colour() {
    let mut m = material([0.1, 0.2, 0.3, 1.0], 0.0, 0.0);
    assert!(m.is_colored());
    m.pbr_metallic_roughness.base_color_factor.truncate(3);
    assert!(m.is_colored());
    m.pbr_metallic_roughness.base_color_factor.truncate(2);
    assert!(!m.is_colored());
}
