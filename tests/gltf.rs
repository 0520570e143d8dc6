use three_d_asset::assets::RawAssets;
use three_d_asset::buffers::{BufferDesc, BufferSource};
use three_d_asset::document::{
    ComponentType, Document, ImageSource, IndexAccessor, MaterialDesc, Mesh, Node, Primitive,
};
use three_d_asset::material::TextureSource;
use three_d_asset::mesh::Indices;

fn uri_buffer(uri: &str, length: usize) -> BufferDesc {
    BufferDesc { source: BufferSource::Uri(uri.to_string()), length }
}

fn triangle_primitive(material: Option<usize>) -> Primitive {
    Primitive {
        positions: Some(0),
        normals: None,
        tangents: None,
        colors: None,
        uvs: None,
        indices: Some(IndexAccessor { buffer: 0, offset: 0, count: 3, component: ComponentType::U16 }),
        material,
    }
}

fn leaf(mesh: usize) -> Node {
    Node { mesh: Some(mesh), children: vec![], singular: false }
}

fn material(name: Option<&str>, albedo: Option<usize>, metallic_roughness: Option<usize>) -> MaterialDesc {
    MaterialDesc {
        name: name.map(|s| s.to_string()),
        albedo_texture: albedo,
        metallic_roughness_texture: metallic_roughness,
        normal_texture: None,
        occlusion_texture: None,
        emissive_texture: None,
        transmission_texture: None,
    }
}

fn triangle_bytes() -> Vec<u8> {
    vec![0, 0, 1, 0, 2, 0]
}

fn cube_document() -> Document {
    Document {
        buffers: vec![uri_buffer("Cube.bin", 6)],
        textures: vec![
            ImageSource::Uri("Cube_BaseColor.png".to_string()),
            ImageSource::Uri("Cube_MetallicRoughness.png".to_string()),
        ],
        materials: vec![material(Some("Cube"), Some(0), Some(1))],
        meshes: vec![Mesh { name: Some("Cube".to_string()), primitives: vec![triangle_primitive(Some(0))] }],
        nodes: vec![leaf(0)],
        scenes: vec![vec![0]],
    }
}

fn texture_path(t: &Option<TextureSource>) -> Option<String> {
    match t {
        Some(TextureSource::Fetched { name, .. }) => Some(name.clone()),
        _ => None,
    }
}

#[test]
fn load_gltf() {
    let doc = cube_document();
    let mut assets = RawAssets::new()
        .insert("test_data/Cube.bin", triangle_bytes())
        .insert("test_data/Cube_BaseColor.png", vec![1, 2, 3])
        .insert("test_data/Cube_MetallicRoughness.png", vec![4, 5, 6]);
    let model =
        three_d_asset::import::deserialize_gltf(&doc, "test_data/Cube.gltf", None, &mut assets, true).unwrap();
    assert_eq!(
        texture_path(&model.materials[0].albedo_texture),
        Some("test_data/Cube_BaseColor.png".to_string())
    );
    assert_eq!(
        texture_path(&model.materials[0].metallic_roughness_texture),
        Some("test_data/Cube_MetallicRoughness.png".to_string())
    );
}

#[test]
fn deserialize_gltf() {
    let doc = cube_document();
    let mut assets = RawAssets::new()
        .insert("Cube.bin", triangle_bytes())
        .insert("Cube_BaseColor.png", vec![1, 2, 3])
        .insert("Cube_MetallicRoughness.png", vec![4, 5, 6]);
    let model = three_d_asset::import::deserialize_gltf(&doc, "Cube.gltf", None, &mut assets, true).unwrap();
    assert_eq!(model.geometries.len(), 1);
    assert_eq!(model.materials.len(), 1);
    assert_eq!(texture_path(&model.materials[0].albedo_texture), Some("Cube_BaseColor.png".to_string()));
    assert_eq!(
        texture_path(&model.materials[0].metallic_roughness_texture),
        Some("Cube_MetallicRoughness.png".to_string())
    );
    // the buffer and the textures were taken out of the store
    assert!(assets.get("Cube.bin").is_none());
    assert!(assets.get("Cube_BaseColor.png").is_none());
    assert_eq!(assets.len(), 0);
    assert_eq!(
        model.materials[0].albedo_texture,
        Some(TextureSource::Fetched { name: "Cube_BaseColor.png".to_string(), bytes: vec![1, 2, 3] })
    );
}

#[test]
fn deserialize_gltf_with_data_url() {
    let url = "data:application/octet-stream;base64,AAABAAIA";
    let mut doc = cube_document();
    doc.buffers = vec![uri_buffer(url, 6)];
    doc.textures = vec![];
    doc.materials = vec![material(None, None, None)];
    let mut assets = RawAssets::new().insert(url, triangle_bytes());
    let model = three_d_asset::import::deserialize_gltf(&doc, "test_data/data_url.gltf", None, &mut assets, true)
        .unwrap();
    assert_eq!(model.geometries.len(), 1);
    assert_eq!(model.materials.len(), 1);
}

#[test]
fn deserialize_gltf_with_animations() {
    let doc = Document {
        buffers: vec![uri_buffer("animation.bin", 6)],
        textures: vec![],
        materials: vec![material(None, None, None)],
        meshes: vec![Mesh {
            name: None,
            primitives: vec![triangle_primitive(Some(0)), triangle_primitive(None)],
        }],
        nodes: vec![leaf(0)],
        scenes: vec![vec![0]],
    };
    let mut assets = RawAssets::new().insert("test_data/animation.bin", triangle_bytes());
    let model =
        three_d_asset::import::deserialize_gltf(&doc, "test_data/AnimatedTriangle.gltf", None, &mut assets, true)
            .unwrap();
    assert_eq!(model.geometries.len(), 2);
    assert_eq!(model.materials.len(), 1);
    // every primitive of one mesh shares the mesh's name
    assert_eq!(model.geometries[0].name, "index 0");
    assert_eq!(model.geometries[1].name, "index 0");
    assert_eq!(model.geometries[0].material_name, "index 0");
    assert_eq!(model.geometries[1].material_name, "default");
}
