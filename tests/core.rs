use three_d_asset::assets::RawAssets;
use three_d_asset::buffers::{pad_to_four, resolve_buffer, resolve_buffers, BufferDesc, BufferSource};
use three_d_asset::document::{
    ComponentType, Document, ImageSource, IndexAccessor, MaterialDesc, Mesh, Node, Primitive,
};
use three_d_asset::error::{Capability, Error};
use three_d_asset::import::{dependencies, deserialize_gltf};
use three_d_asset::material::{
    material_name, parse_material, parse_texture, GeometryFunction, LightingModel, NormalDistributionFunction,
    TextureSource,
};
use three_d_asset::mesh::{read_indices, Indices};
use three_d_asset::names::{decimal_string, index_name};
use three_d_asset::paths::{is_data_url, join_path, parent_dir, resolve_uri};
use three_d_asset::scene::{mesh_nodes, node_parents};

fn node(mesh: Option<usize>, children: Vec<usize>, singular: bool) -> Node {
    Node { mesh, children, singular }
}

fn plain_material(name: Option<&str>) -> MaterialDesc {
    MaterialDesc {
        name: name.map(|s| s.to_string()),
        albedo_texture: None,
        metallic_roughness_texture: None,
        normal_texture: None,
        occlusion_texture: None,
        emissive_texture: None,
        transmission_texture: None,
    }
}

fn unindexed(material: Option<usize>) -> Primitive {
    Primitive { positions: Some(0), normals: Some(1), tangents: None, colors: None, uvs: Some(2), indices: None, material }
}

fn doc_with(nodes: Vec<Node>, scenes: Vec<Vec<usize>>, meshes: usize) -> Document {
    Document {
        buffers: vec![],
        textures: vec![],
        materials: vec![],
        meshes: (0..meshes).map(|_| Mesh { name: None, primitives: vec![unindexed(None)] }).collect(),
        nodes,
        scenes,
    }
}

#[test]
fn padding_rounds_up_with_zeros() {
    let mut v = vec![7u8, 7, 7, 7, 7];
    pad_to_four(&mut v);
    assert_eq!(v, vec![7, 7, 7, 7, 7, 0, 0, 0]);
    let mut w = vec![1u8, 2, 3, 4];
    pad_to_four(&mut w);
    assert_eq!(w, vec![1, 2, 3, 4]);
    let mut e: Vec<u8> = vec![];
    pad_to_four(&mut e);
    assert!(e.is_empty());
}

#[test]
fn resolved_buffer_is_padded() {
    let desc = BufferDesc { source: BufferSource::Uri("a.bin".to_string()), length: 5 };
    let mut assets = RawAssets::new().insert("dir/a.bin", vec![9, 9, 9, 9, 9]);
    let mut blob = None;
    let r = resolve_buffer(&desc, "dir", &mut blob, &mut assets).unwrap();
    assert_eq!(r, vec![9, 9, 9, 9, 9, 0, 0, 0]);
    assert_eq!(assets.len(), 0);
}

#[test]
fn short_buffer_is_corrupt() {
    let desc = BufferDesc { source: BufferSource::Uri("a.bin".to_string()), length: 8 };
    let mut assets = RawAssets::new().insert("a.bin", vec![1, 2, 3]);
    let mut blob = None;
    assert_eq!(resolve_buffer(&desc, "", &mut blob, &mut assets), Err(Error::CorruptBufferData));
}

#[test]
fn blob_is_taken_once() {
    let descs = vec![
        BufferDesc { source: BufferSource::Bin, length: 2 },
        BufferDesc { source: BufferSource::Bin, length: 2 },
    ];
    let mut assets = RawAssets::new();
    let mut blob = Some(vec![1u8, 2]);
    assert_eq!(resolve_buffers(&descs, "", &mut blob, &mut assets), Err(Error::MissingEmbeddedData));
    assert!(blob.is_none());
    let mut blob = Some(vec![1u8, 2]);
    let one = vec![BufferDesc { source: BufferSource::Bin, length: 2 }];
    assert_eq!(resolve_buffers(&one, "", &mut blob, &mut assets), Ok(vec![vec![1, 2, 0, 0]]));
}

#[test]
fn missing_asset_is_reported() {
    let desc = BufferDesc { source: BufferSource::Uri("gone.bin".to_string()), length: 0 };
    let mut assets = RawAssets::new().insert("other.bin", vec![]);
    let mut blob = None;
    assert_eq!(resolve_buffer(&desc, "", &mut blob, &mut assets), Err(Error::AssetNotFound));
    assert_eq!(assets.len(), 1);
}

#[test]
fn data_url_is_its_own_key() {
    assert!(is_data_url("data:abc"));
    assert!(!is_data_url("dat"));
    assert!(!is_data_url("images/data:x"));
    assert_eq!(resolve_uri("models", "data:xyz"), "data:xyz");
    assert_eq!(resolve_uri("models", "tex.png"), "models/tex.png");
    assert_eq!(resolve_uri("", "tex.png"), "tex.png");
}

#[test]
fn paths_split_and_join() {
    assert_eq!(parent_dir("test_data/Cube.gltf"), "test_data");
    assert_eq!(parent_dir("a/b/c.gltf"), "a/b");
    assert_eq!(parent_dir("Cube.gltf"), "");
    assert_eq!(join_path("a/b", "c.bin"), "a/b/c.bin");
    assert_eq!(join_path("", "c.bin"), "c.bin");
}

#[test]
fn store_insert_get_remove() {
    let assets = RawAssets::new().insert("x", vec![1]).insert("y", vec![2]).insert("x", vec![3]);
    assert_eq!(assets.len(), 2);
    assert_eq!(assets.get("x"), Some(&vec![3]));
    let mut assets = assets;
    assert_eq!(assets.remove("y"), Ok(vec![2]));
    assert_eq!(assets.remove("y"), Err(Error::AssetNotFound));
    assert_eq!(assets.get("y"), None);
}

#[test]
fn decimal_names() {
    assert_eq!(decimal_string(0), "0");
    assert_eq!(decimal_string(907), "907");
    assert_eq!(decimal_string(usize::MAX), usize::MAX.to_string());
    assert_eq!(index_name(12), "index 12");
}

#[test]
fn sixteen_bit_indices_keep_values() {
    let buffers = vec![vec![1u8, 0, 0x34, 0x12, 0xff, 0xff, 0, 0]];
    let acc = IndexAccessor { buffer: 0, offset: 0, count: 3, component: ComponentType::U16 };
    assert_eq!(read_indices(&acc, &buffers), Ok(Indices::U16(vec![1, 0x1234, 0xffff])));
}

#[test]
fn eight_and_thirty_two_bit_indices() {
    let buffers = vec![vec![5u8, 6, 0x78, 0x56, 0x34, 0x12]];
    let a8 = IndexAccessor { buffer: 0, offset: 0, count: 2, component: ComponentType::U8 };
    assert_eq!(read_indices(&a8, &buffers), Ok(Indices::U8(vec![5, 6])));
    let a32 = IndexAccessor { buffer: 0, offset: 2, count: 1, component: ComponentType::U32 };
    assert_eq!(read_indices(&a32, &buffers), Ok(Indices::U32(vec![0x12345678])));
    let too_long = IndexAccessor { buffer: 0, offset: 4, count: 1, component: ComponentType::U32 };
    assert_eq!(read_indices(&too_long, &buffers), Err(Error::DocumentParseError));
    let no_buffer = IndexAccessor { buffer: 1, offset: 0, count: 0, component: ComponentType::U8 };
    assert_eq!(read_indices(&no_buffer, &buffers), Err(Error::DocumentParseError));
}

#[test]
fn roots_keep_declared_order() {
    let doc = doc_with(
        vec![node(Some(2), vec![], false), node(Some(0), vec![], false), node(Some(1), vec![], false)],
        vec![vec![2, 0, 1]],
        3,
    );
    assert_eq!(mesh_nodes(&doc), Ok(vec![2, 0, 1]));
    let mut assets = RawAssets::new();
    let model = deserialize_gltf(&doc, "s.gltf", None, &mut assets, true).unwrap();
    let order: Vec<usize> = model.geometries.iter().map(|g| g.node).collect();
    assert_eq!(order, vec![2, 0, 1]);
    assert_eq!(model.geometries[0].name, "index 1");
}

#[test]
fn depth_first_traversal() {
    let doc = doc_with(
        vec![
            node(Some(0), vec![1, 3], false),
            node(Some(0), vec![2], false),
            node(Some(0), vec![], false),
            node(None, vec![4], false),
            node(Some(0), vec![], false),
        ],
        vec![vec![0]],
        1,
    );
    assert_eq!(mesh_nodes(&doc), Ok(vec![0, 1, 2, 4]));
}

#[test]
fn singular_node_is_culled() {
    let doc = doc_with(
        vec![node(None, vec![1], true), node(Some(0), vec![], false), node(Some(0), vec![], false)],
        vec![vec![0, 2]],
        1,
    );
    assert_eq!(mesh_nodes(&doc), Ok(vec![2]));
    let lone = doc_with(vec![node(Some(0), vec![1], true), node(Some(0), vec![], false)], vec![vec![0]], 1);
    let mut assets = RawAssets::new();
    let model = deserialize_gltf(&lone, "s.gltf", None, &mut assets, true).unwrap();
    assert_eq!(model.geometries.len(), 0);
}

#[test]
fn cyclic_hierarchy_is_malformed() {
    let doc = doc_with(vec![node(Some(0), vec![1], false), node(None, vec![0], false)], vec![vec![0]], 1);
    assert_eq!(mesh_nodes(&doc), Err(Error::DocumentParseError));
    let bad_mesh = doc_with(vec![node(Some(4), vec![], false)], vec![vec![0]], 1);
    assert_eq!(mesh_nodes(&bad_mesh), Err(Error::DocumentParseError));
}

#[test]
fn primitive_without_positions_fails() {
    let mut doc = doc_with(vec![node(Some(0), vec![], false)], vec![vec![0]], 1);
    doc.meshes[0].primitives.push(Primitive {
        positions: None,
        normals: None,
        tangents: None,
        colors: None,
        uvs: None,
        indices: None,
        material: None,
    });
    let mut assets = RawAssets::new();
    assert_eq!(
        deserialize_gltf(&doc, "s.gltf", None, &mut assets, true).map(|m| m.geometries.len()),
        Err(Error::PrimitiveMissingPositions)
    );
}

#[test]
fn material_names_fall_back() {
    let mut doc = doc_with(vec![], vec![], 0);
    doc.materials = vec![plain_material(Some("Gold")), plain_material(None)];
    assert_eq!(material_name(&doc, Some(0)), "Gold");
    assert_eq!(material_name(&doc, Some(1)), "index 1");
    assert_eq!(material_name(&doc, None), "default");
}

#[test]
fn view_textures() {
    let buffers = vec![vec![10u8, 11, 12, 13, 14, 15, 16, 17]];
    let mut assets = RawAssets::new();
    let view = ImageSource::View { buffer: 0, offset: 2, length: 3, stride: None };
    assert_eq!(parse_texture(&view, "", &buffers, true, &mut assets), Ok(TextureSource::Bytes(vec![12, 13, 14])));
    assert_eq!(
        parse_texture(&view, "", &buffers, false, &mut assets),
        Err(Error::CapabilityMissing(Capability::Image))
    );
    let strided = ImageSource::View { buffer: 0, offset: 0, length: 4, stride: Some(8) };
    assert_eq!(parse_texture(&strided, "", &buffers, true, &mut assets), Err(Error::UnsupportedStridedImage));
    let outside = ImageSource::View { buffer: 0, offset: 6, length: 3, stride: None };
    assert_eq!(parse_texture(&outside, "", &buffers, true, &mut assets), Err(Error::DocumentParseError));
    // without image decoding every view fails the same way, even a bad one
    assert_eq!(
        parse_texture(&outside, "", &buffers, false, &mut assets),
        Err(Error::CapabilityMissing(Capability::Image))
    );
    assert_eq!(Capability::Image.name(), "image");
}

#[test]
fn uri_textures_come_from_the_store() {
    let buffers: Vec<Vec<u8>> = vec![];
    let mut assets = RawAssets::new().insert("m/t.png", vec![1, 2]).insert("data:image/png;base64,AA", vec![0]);
    let uri = ImageSource::Uri("t.png".to_string());
    assert_eq!(
        parse_texture(&uri, "m", &buffers, false, &mut assets),
        Ok(TextureSource::Fetched { name: "m/t.png".to_string(), bytes: vec![1, 2] })
    );
    assert_eq!(parse_texture(&uri, "m", &buffers, false, &mut assets), Err(Error::AssetNotFound));
    let data = ImageSource::Uri("data:image/png;base64,AA".to_string());
    assert_eq!(
        parse_texture(&data, "m", &buffers, true, &mut assets),
        Ok(TextureSource::Fetched { name: "data:image/png;base64,AA".to_string(), bytes: vec![0] })
    );
    assert_eq!(assets.len(), 0);
}

#[test]
fn material_slots_resolve_in_order() {
    let mut doc = doc_with(vec![], vec![], 0);
    doc.textures = vec![
        ImageSource::Uri("n.png".to_string()),
        ImageSource::View { buffer: 0, offset: 0, length: 1, stride: Some(4) },
    ];
    let mut m = plain_material(Some("M"));
    m.normal_texture = Some(0);
    doc.materials = vec![m];
    let buffers = vec![vec![0u8; 4]];
    let mut assets = RawAssets::new().insert("dir/n.png", vec![5]);
    let plan = parse_material(&doc, 0, "dir", &buffers, true, &mut assets).unwrap();
    assert_eq!(plan.name, "M");
    assert_eq!(plan.normal_texture, Some(TextureSource::Fetched { name: "dir/n.png".to_string(), bytes: vec![5] }));
    assert_eq!(plan.albedo_texture, None);
    assert_eq!(
        plan.lighting_model,
        LightingModel::Cook(NormalDistributionFunction::TrowbridgeReitzGGX, GeometryFunction::SmithSchlickGGX)
    );
    // the entry is gone now
    assert_eq!(parse_material(&doc, 0, "dir", &buffers, true, &mut assets).map(|p| p.name), Err(Error::AssetNotFound));
    let mut assets = RawAssets::new().insert("dir/n.png", vec![5]);
    doc.materials[0].emissive_texture = Some(1);
    assert_eq!(
        parse_material(&doc, 0, "dir", &buffers, true, &mut assets).map(|p| p.name),
        Err(Error::UnsupportedStridedImage)
    );
    let mut assets = RawAssets::new().insert("dir/n.png", vec![5]);
    doc.materials[0].albedo_texture = Some(9);
    assert_eq!(
        parse_material(&doc, 0, "dir", &buffers, true, &mut assets).map(|p| p.name),
        Err(Error::DocumentParseError)
    );
    // the failing first slot stops the work before the store is touched
    assert_eq!(assets.len(), 1);
}

#[test]
fn dependencies_are_distinct() {
    let mut doc = doc_with(vec![], vec![], 0);
    doc.buffers = vec![
        BufferDesc { source: BufferSource::Uri("a.bin".to_string()), length: 0 },
        BufferDesc { source: BufferSource::Bin, length: 0 },
        BufferDesc { source: BufferSource::Uri("data:,xy".to_string()), length: 0 },
    ];
    doc.textures = vec![
        ImageSource::Uri("a.bin".to_string()),
        ImageSource::Uri("t.png".to_string()),
        ImageSource::View { buffer: 0, offset: 0, length: 0, stride: None },
    ];
    let mut deps = dependencies(&doc, "scenes/x.gltf");
    deps.sort();
    assert_eq!(deps, vec!["data:,xy".to_string(), "scenes/a.bin".to_string(), "scenes/t.png".to_string()]);
}

#[test]
fn import_twice_is_identical() {
    let mut doc = doc_with(vec![node(Some(0), vec![], false)], vec![vec![0]], 1);
    doc.buffers = vec![BufferDesc { source: BufferSource::Bin, length: 2 }];
    doc.meshes[0].primitives[0].indices =
        Some(IndexAccessor { buffer: 0, offset: 0, count: 2, component: ComponentType::U8 });
    let mut a1 = RawAssets::new();
    let mut a2 = RawAssets::new();
    let m1 = deserialize_gltf(&doc, "x.gltf", Some(vec![3, 4]), &mut a1, true).unwrap();
    let m2 = deserialize_gltf(&doc, "x.gltf", Some(vec![3, 4]), &mut a2, true).unwrap();
    assert_eq!(m1.buffers, m2.buffers);
    assert_eq!(m1.geometries.len(), m2.geometries.len());
    assert_eq!(m1.geometries[0].indices, m2.geometries[0].indices);
    assert_eq!(m1.geometries[0].indices, Indices::U8(vec![3, 4]));
    assert_eq!(m1.buffers, vec![vec![3, 4, 0, 0]]);
}

#[test]
fn parents_are_first_listers() {
    let doc = doc_with(
        vec![
            node(None, vec![1, 3], false),
            node(None, vec![2], false),
            node(None, vec![], false),
            node(None, vec![2, 7], false),
        ],
        vec![vec![0]],
        0,
    );
    assert_eq!(node_parents(&doc), vec![None, Some(0), Some(1), Some(0)]);
}

#[test]
fn attributes_are_carried() {
    let doc = doc_with(vec![node(Some(0), vec![], false)], vec![vec![0]], 1);
    let mut assets = RawAssets::new();
    let model = deserialize_gltf(&doc, "s.gltf", None, &mut assets, true).unwrap();
    assert_eq!(model.geometries[0].normals, Some(1));
    assert_eq!(model.geometries[0].tangents, None);
    assert_eq!(model.geometries[0].colors, None);
    assert_eq!(model.geometries[0].uvs, Some(2));
}

#[test]
fn store_keeps_keys_unique() {
    let mut assets = RawAssets::new().insert("k", vec![1]).insert("k", vec![2]);
    assert_eq!(assets.len(), 1);
    assert_eq!(assets.remove("k"), Ok(vec![2]));
    assert_eq!(assets.get("k"), None);
}
