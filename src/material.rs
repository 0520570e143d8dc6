use vstd::prelude::*;
use crate::assets::{RawAssets, removed};
use crate::document::{Document, ImageSource};
use crate::error::{Capability, Error};
use crate::mesh::buffer_views;
use crate::names::{index_label, index_name};
use crate::paths::{resolve_uri, resolved};

verus! {

/// The encoded image of a texture, ready for decoding.
#[derive(Debug, Clone, PartialEq, Eq)]
pub enum TextureSource {
    /// Taken from the asset store under `name` (a data URL, or a path beside
    /// the document), which also names the texture.
    Fetched { name: String, bytes: Vec<u8> },
    /// Cut out of a resolved buffer.
    Bytes(Vec<u8>),
}

/// The model of a `TextureSource`.
pub enum TextureSourceView {
    Fetched(Seq<char>, Seq<u8>),
    Bytes(Seq<u8>),
}

impl View for TextureSource {
    type V = TextureSourceView;

    open spec fn view(&self) -> TextureSourceView {
        match self {
            TextureSource::Fetched { name, bytes } => TextureSourceView::Fetched(name@, bytes@),
            TextureSource::Bytes(b) => TextureSourceView::Bytes(b@),
        }
    }
}

/// The view of an optional texture source.
pub open spec fn source_of(t: Option<TextureSource>) -> Option<TextureSourceView> {
    match t {
        Some(s) => Some(s@),
        None => None,
    }
}

/// The store's entries as they stand.
pub type Entries = Seq<(Seq<char>, Seq<u8>)>;

/// What an image source resolves to, and the store entries left: a URI takes
/// its entry out of the store; a buffer range needs image decoding, no
/// stride, and to lie inside its buffer.
pub open spec fn image_outcome(
    img: ImageSource,
    base: Seq<char>,
    buffers: Seq<Seq<u8>>,
    can_decode: bool,
    entries: Entries,
) -> (Result<TextureSourceView, Error>, Entries) {
    match img {
        ImageSource::Uri(u) => {
            let key = resolved(base, u@);
            let (res, rest) = removed(entries, key);
            match res {
                Ok(b) => (Ok(TextureSourceView::Fetched(key, b)), rest),
                Err(e) => (Err(e), rest),
            }
        },
        ImageSource::View { buffer, offset, length, stride } => (
            if stride is Some {
                Err(Error::UnsupportedStridedImage)
            } else if !can_decode {
                Err(Error::CapabilityMissing(Capability::Image))
            } else if buffer >= buffers.len() || offset + length > buffers[buffer as int].len() {
                Err(Error::DocumentParseError)
            } else {
                Ok(TextureSourceView::Bytes(buffers[buffer as int].subrange(offset as int, offset + length)))
            },
            entries,
        ),
    }
}

/// What a material's texture slot resolves to, and the store entries left.
pub open spec fn slot_outcome(
    doc: Document,
    slot: Option<usize>,
    base: Seq<char>,
    buffers: Seq<Seq<u8>>,
    can_decode: bool,
    entries: Entries,
) -> (Result<Option<TextureSourceView>, Error>, Entries) {
    match slot {
        None => (Ok(None), entries),
        Some(t) => if t >= doc.textures@.len() {
            (Err(Error::DocumentParseError), entries)
        } else {
            let (r, rest) = image_outcome(doc.textures@[t as int], base, buffers, can_decode, entries);
            match r {
                Ok(v) => (Ok(Some(v)), rest),
                Err(e) => (Err(e), rest),
            }
        },
    }
}

/// One more slot resolved after `prev`, unless `prev` already failed.
pub open spec fn then_slot(
    prev: (Result<Seq<Option<TextureSourceView>>, Error>, Entries),
    doc: Document,
    slot: Option<usize>,
    base: Seq<char>,
    buffers: Seq<Seq<u8>>,
    can_decode: bool,
) -> (Result<Seq<Option<TextureSourceView>>, Error>, Entries) {
    match prev.0 {
        Err(e) => (Err(e), prev.1),
        Ok(done) => {
            let (r, rest) = slot_outcome(doc, slot, base, buffers, can_decode, prev.1);
            match r {
                Ok(v) => (Ok(done.push(v)), rest),
                Err(e) => (Err(e), rest),
            }
        },
    }
}

/// The name of the material at `index` (absent for the default material):
/// its declared name, else "index i", else "default".
pub open spec fn material_label(doc: Document, index: Option<usize>) -> Seq<char> {
    match index {
        None => seq!['d', 'e', 'f', 'a', 'u', 'l', 't'],
        Some(i) => if i < doc.materials@.len() && doc.materials@[i as int].name is Some {
            doc.materials@[i as int].name->Some_0@
        } else {
            index_label(i as nat)
        },
    }
}

/// A material with its textures fetched or cut out, ready for decoding.
#[derive(Debug, Clone)]
pub struct MaterialPlan {
    pub name: String,
    pub albedo_texture: Option<TextureSource>,
    pub metallic_roughness_texture: Option<TextureSource>,
    pub normal_texture: Option<TextureSource>,
    pub occlusion_texture: Option<TextureSource>,
    pub emissive_texture: Option<TextureSource>,
    pub transmission_texture: Option<TextureSource>,
    pub lighting_model: LightingModel,
}

/// The microfacet normal distribution a lighting model uses.
#[derive(Debug, Clone, Copy, PartialEq, Eq)]
pub enum NormalDistributionFunction {
    Blinn,
    Beckmann,
    TrowbridgeReitzGGX,
}

/// The geometry term a lighting model uses.
#[derive(Debug, Clone, Copy, PartialEq, Eq)]
pub enum GeometryFunction {
    SmithSchlickGGX,
}

/// How a material is lit.
#[derive(Debug, Clone, Copy, PartialEq, Eq)]
pub enum LightingModel {
    Phong,
    Blinn,
    Cook(NormalDistributionFunction, GeometryFunction),
}

/// The lighting model every translated material gets.
pub open spec fn imported_lighting() -> LightingModel {
    LightingModel::Cook(NormalDistributionFunction::TrowbridgeReitzGGX, GeometryFunction::SmithSchlickGGX)
}

/// The texture sources of a plan, in slot order.
pub open spec fn plan_sources(p: MaterialPlan) -> Seq<Option<TextureSourceView>> {
    seq![
        source_of(p.albedo_texture),
        source_of(p.metallic_roughness_texture),
        source_of(p.normal_texture),
        source_of(p.occlusion_texture),
        source_of(p.emissive_texture),
        source_of(p.transmission_texture),
    ]
}

/// Resolving the texture slots of material `i` in order (albedo,
/// metallic-roughness, normal, occlusion, emissive, transmission), stopping
/// at the first failure; with the store entries left.
pub open spec fn material_run(
    doc: Document,
    i: int,
    base: Seq<char>,
    buffers: Seq<Seq<u8>>,
    can_decode: bool,
    entries: Entries,
) -> (Result<Seq<Option<TextureSourceView>>, Error>, Entries) {
    let m = doc.materials@[i];
    let s0 = (Ok(Seq::<Option<TextureSourceView>>::empty()), entries);
    let s1 = then_slot(s0, doc, m.albedo_texture, base, buffers, can_decode);
    let s2 = then_slot(s1, doc, m.metallic_roughness_texture, base, buffers, can_decode);
    let s3 = then_slot(s2, doc, m.normal_texture, base, buffers, can_decode);
    let s4 = then_slot(s3, doc, m.occlusion_texture, base, buffers, can_decode);
    let s5 = then_slot(s4, doc, m.emissive_texture, base, buffers, can_decode);
    then_slot(s5, doc, m.transmission_texture, base, buffers, can_decode)
}

/// The name of the material at `index`.
pub fn material_name(doc: &Document, index: Option<usize>) -> (r: String)
    ensures
        r@ == material_label(*doc, index),
{
    match index {
        None => {
            proof {
                reveal_strlit("default");
            }
            "default".to_owned()
        },
        Some(i) => {
            if i < doc.materials.len() {
                match &doc.materials[i].name {
                    Some(n) => {
                        return n.clone();
                    },
                    None => {},
                }
            }
            index_name(i)
        },
    }
}

/// Resolves an image source: a URI takes its entry out of the store (keyed
/// by the data URL itself, or by the path beside the document); a buffer
/// range is cut out of its buffer. A strided range is refused, and so is any
/// range when images cannot be decoded.
pub fn parse_texture(
    img: &ImageSource,
    base: &str,
    buffers: &Vec<Vec<u8>>,
    can_decode: bool,
    assets: &mut RawAssets,
) -> (r: Result<TextureSource, Error>)
    ensures
        ({
            let (res, rest) = image_outcome(*img, base@, buffer_views(buffers@), can_decode, old(assets)@);
            &&& final(assets)@ == rest
            &&& match r {
                Ok(t) => res == Ok::<TextureSourceView, Error>(t@),
                Err(e) => res == Err::<TextureSourceView, Error>(e),
            }
        }),
{
    let ghost bs = buffer_views(buffers@);
    match img {
        ImageSource::Uri(u) => {
            let key = resolve_uri(base, u.as_str());
            match assets.remove(key.as_str()) {
                Ok(bytes) => Ok(TextureSource::Fetched { name: key, bytes }),
                Err(e) => Err(e),
            }
        },
        ImageSource::View { buffer, offset, length, stride } => {
            if stride.is_some() {
                return Err(Error::UnsupportedStridedImage);
            }
            if !can_decode {
                return Err(Error::CapabilityMissing(Capability::Image));
            }
            if *buffer >= buffers.len() {
                return Err(Error::DocumentParseError);
            }
            let b = &buffers[*buffer];
            assert(bs[*buffer as int] == b@);
            if *offset > b.len() || *length > b.len() - *offset {
                return Err(Error::DocumentParseError);
            }
            let mut bytes: Vec<u8> = Vec::new();
            let mut k: usize = 0;
            let blen: usize = b.len();
            while k < *length
                invariant
                    b@.len() == blen,
                    k <= *length,
                    *offset + *length <= b@.len(),
                    bytes@ == b@.subrange(*offset as int, *offset + k),
                decreases *length - k,
            {
                bytes.push(b[*offset + k]);
                k = k + 1;
                assert(bytes@ =~= b@.subrange(*offset as int, *offset + k));
            }
            Ok(TextureSource::Bytes(bytes))
        },
    }
}

fn parse_slot(
    doc: &Document,
    slot: Option<usize>,
    base: &str,
    buffers: &Vec<Vec<u8>>,
    can_decode: bool,
    assets: &mut RawAssets,
) -> (r: Result<Option<TextureSource>, Error>)
    ensures
        ({
            let (res, rest) = slot_outcome(*doc, slot, base@, buffer_views(buffers@), can_decode, old(assets)@);
            &&& final(assets)@ == rest
            &&& match r {
                Ok(t) => res == Ok::<Option<TextureSourceView>, Error>(source_of(t)),
                Err(e) => res == Err::<Option<TextureSourceView>, Error>(e),
            }
        }),
{
    match slot {
        None => Ok(None),
        Some(t) => {
            if t >= doc.textures.len() {
                return Err(Error::DocumentParseError);
            }
            match parse_texture(&doc.textures[t], base, buffers, can_decode, assets) {
                Ok(s) => Ok(Some(s)),
                Err(e) => Err(e),
            }
        },
    }
}

/// Translates material `i`: its name, the fixed lighting model, and each
/// texture slot resolved in order; the first slot that fails ends the work.
pub fn parse_material(
    doc: &Document,
    i: usize,
    base: &str,
    buffers: &Vec<Vec<u8>>,
    can_decode: bool,
    assets: &mut RawAssets,
) -> (r: Result<MaterialPlan, Error>)
    requires
        i < doc.materials@.len(),
    ensures
        ({
            let (res, rest) = material_run(*doc, i as int, base@, buffer_views(buffers@), can_decode, old(assets)@);
            &&& final(assets)@ == rest
            &&& match r {
                Ok(p) => {
                    &&& res == Ok::<Seq<Option<TextureSourceView>>, Error>(plan_sources(p))
                    &&& p.name@ == material_label(*doc, Some(i))
                    &&& p.lighting_model == imported_lighting()
                },
                Err(e) => res == Err::<Seq<Option<TextureSourceView>>, Error>(e),
            }
        }),
{
    let ghost bs = buffer_views(buffers@);
    let m = &doc.materials[i];
    let ghost st0: (Result<Seq<Option<TextureSourceView>>, Error>, Entries) = (Ok(Seq::empty()), assets@);
    assert(st0.1 == old(assets)@);
    let ghost st1 = then_slot(st0, *doc, m.albedo_texture, base@, bs, can_decode);
    let albedo_texture = match parse_slot(doc, m.albedo_texture, base, buffers, can_decode, assets) {
        Ok(t) => t,
        Err(e) => {
            proof {
                assert(st1 == (Err::<Seq<Option<TextureSourceView>>, Error>(e), assets@));
            }
            return Err(e);
        },
    };
    assert(st1.1 == assets@);
    assert(st1.0 == Ok::<Seq<Option<TextureSourceView>>, Error>(st0.0->Ok_0.push(source_of(albedo_texture))));
    let ghost st2 = then_slot(st1, *doc, m.metallic_roughness_texture, base@, bs, can_decode);
    let metallic_roughness_texture = match parse_slot(doc, m.metallic_roughness_texture, base, buffers, can_decode, assets) {
        Ok(t) => t,
        Err(e) => {
            proof {
                assert(st2 == (Err::<Seq<Option<TextureSourceView>>, Error>(e), assets@));
            }
            return Err(e);
        },
    };
    assert(st2.1 == assets@);
    assert(st2.0 == Ok::<Seq<Option<TextureSourceView>>, Error>(st1.0->Ok_0.push(source_of(metallic_roughness_texture))));
    let ghost st3 = then_slot(st2, *doc, m.normal_texture, base@, bs, can_decode);
    let normal_texture = match parse_slot(doc, m.normal_texture, base, buffers, can_decode, assets) {
        Ok(t) => t,
        Err(e) => {
            proof {
                assert(st3 == (Err::<Seq<Option<TextureSourceView>>, Error>(e), assets@));
            }
            return Err(e);
        },
    };
    assert(st3.1 == assets@);
    assert(st3.0 == Ok::<Seq<Option<TextureSourceView>>, Error>(st2.0->Ok_0.push(source_of(normal_texture))));
    let ghost st4 = then_slot(st3, *doc, m.occlusion_texture, base@, bs, can_decode);
    let occlusion_texture = match parse_slot(doc, m.occlusion_texture, base, buffers, can_decode, assets) {
        Ok(t) => t,
        Err(e) => {
            proof {
                assert(st4 == (Err::<Seq<Option<TextureSourceView>>, Error>(e), assets@));
            }
            return Err(e);
        },
    };
    assert(st4.1 == assets@);
    assert(st4.0 == Ok::<Seq<Option<TextureSourceView>>, Error>(st3.0->Ok_0.push(source_of(occlusion_texture))));
    let ghost st5 = then_slot(st4, *doc, m.emissive_texture, base@, bs, can_decode);
    let emissive_texture = match parse_slot(doc, m.emissive_texture, base, buffers, can_decode, assets) {
        Ok(t) => t,
        Err(e) => {
            proof {
                assert(st5 == (Err::<Seq<Option<TextureSourceView>>, Error>(e), assets@));
            }
            return Err(e);
        },
    };
    assert(st5.1 == assets@);
    assert(st5.0 == Ok::<Seq<Option<TextureSourceView>>, Error>(st4.0->Ok_0.push(source_of(emissive_texture))));
    let ghost st6 = then_slot(st5, *doc, m.transmission_texture, base@, bs, can_decode);
    let transmission_texture = match parse_slot(doc, m.transmission_texture, base, buffers, can_decode, assets) {
        Ok(t) => t,
        Err(e) => {
            proof {
                assert(st6 == (Err::<Seq<Option<TextureSourceView>>, Error>(e), assets@));
            }
            return Err(e);
        },
    };
    assert(st6.1 == assets@);
    assert(st6.0 == Ok::<Seq<Option<TextureSourceView>>, Error>(st5.0->Ok_0.push(source_of(transmission_texture))));
    assert(st6 == material_run(*doc, i as int, base@, bs, can_decode, old(assets)@));
    let p = MaterialPlan {
        name: material_name(doc, Some(i)),
        albedo_texture,
        metallic_roughness_texture,
        normal_texture,
        occlusion_texture,
        emissive_texture,
        transmission_texture,
        lighting_model: LightingModel::Cook(
            NormalDistributionFunction::TrowbridgeReitzGGX,
            GeometryFunction::SmithSchlickGGX,
        ),
    };
    assert(st6.0->Ok_0 =~= plan_sources(p));
    assert(plan_sources(p) =~= seq![
        source_of(p.albedo_texture),
        source_of(p.metallic_roughness_texture),
        source_of(p.normal_texture),
        source_of(p.occlusion_texture),
        source_of(p.emissive_texture),
        source_of(p.transmission_texture),
    ]);
    Ok(p)
}

} // verus!
