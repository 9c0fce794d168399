//! Material definitions: a named shader plus the textures it samples.
//! Texture image bytes are decoded into plain RGBA pixel data.

use vstd::prelude::*;

verus! {

/// A shader definition: which shader program a material is drawn with, and
/// the entry points of its two stages.
#[derive(Clone, Debug)]
pub struct ShaderDef {
    pub name: String,
    pub vertex_entry: String,
    pub fragment_entry: String,
}

/// The fixed shader definition simple materials use.
pub fn simple_shader_def() -> (r: ShaderDef)
    ensures
        r.name@ == "simple"@,
        r.vertex_entry@ == "main"@,
        r.fragment_entry@ == "main"@,
{
    ShaderDef {
        name: "simple".to_owned(),
        vertex_entry: "main".to_owned(),
        fragment_entry: "main".to_owned(),
    }
}

/// Decoded RGBA pixels of a texture: four bytes per pixel.
pub struct ImagePixels {
    pub width: u32,
    pub height: u32,
    pub pixels: Vec<u8>,
}

/// A texture definition: decoded image pixels, where decoding succeeded.
pub enum TextureDef {
    ImageTextureDef(Option<ImagePixels>),
}

/// A renderable material.
pub trait Material {

}

/// A material definition: a name, a shader, and the textures it samples.
pub struct MaterialDef {
    pub name: String,
    pub shader: ShaderDef,
    pub textures: Vec<TextureDef>,
}

impl MaterialDef {
    pub fn new(name: &str, shader: ShaderDef, textures: Vec<TextureDef>) -> (r: MaterialDef)
        ensures
            r.name@ == name@,
            r.shader == shader,
            r.textures == textures,
    {
        MaterialDef { name: name.to_owned(), textures, shader }
    }

    pub fn name(&self) -> (r: &str)
        ensures
            r@ == self.name@,
    {
        self.name.as_str()
    }

    pub fn shader(&self) -> (r: &ShaderDef)
        ensures
            r == self.shader,
    {
        &self.shader
    }

    pub fn textures(&self) -> (r: &[TextureDef])
        ensures
            r@ == self.textures@,
    {
        self.textures.as_slice()
    }
}

/// What decoding a PNG byte stream yields: the RGBA dimensions and pixels,
/// or nothing for bytes that are no PNG image. The result depends on the
/// bytes alone.
pub uninterp spec fn decoded_rgba(bytes: Seq<u8>) -> Option<(u32, u32, Seq<u8>)>;

/// Relies on image::load_from_memory_with_format with the format pinned to
/// PNG (so the call goes through the built-in PNG decoder and consults no
/// process-global decoder registry), and on DynamicImage::to_rgba8 /
/// ImageBuffer::into_raw: decoding is then a function of the input bytes,
/// yielding the image's dimensions and its raw RGBA buffer.
#[verifier::external_body]
fn decode_rgba(bytes: &Vec<u8>) -> (r: Option<ImagePixels>)
    ensures
        (r matches Some(img) ==> (decoded_rgba(bytes@) matches Some(d) && img.width == d.0
            && img.height == d.1 && img.pixels@ == d.2)),
        (r is None <==> decoded_rgba(bytes@) is None),
{
    match image::load_from_memory_with_format(bytes.as_slice(), image::ImageFormat::Png) {
        Ok(decoded) => {
            let rgba = decoded.to_rgba8();
            let width = rgba.width();
            let height = rgba.height();
            Some(ImagePixels { width, height, pixels: rgba.into_raw() })
        },
        Err(_) => None,
    }
}

/// Builder for the fixed "simple" material.
pub struct SimpleMaterialDef;

impl SimpleMaterialDef {
    /// Build the simple material from an image byte stream: the single
    /// texture holds the decoded RGBA pixels, or nothing when the bytes do
    /// not decode as a PNG image.
    pub fn create(data: &Vec<u8>) -> (r: MaterialDef)
        ensures
            r.name@ == "simple_material"@,
            r.shader.name@ == "simple"@,
            r.shader.vertex_entry@ == "main"@,
            r.shader.fragment_entry@ == "main"@,
            r.textures@.len() == 1,
            (r.textures@[0] matches TextureDef::ImageTextureDef(p) && (p matches Some(img) ==> (
            decoded_rgba(data@) matches Some(d) && img.width == d.0 && img.height == d.1
                && img.pixels@ == d.2)) && (p is None <==> decoded_rgba(data@) is None)),
    {
        let pixels = decode_rgba(data);
        let mut textures: Vec<TextureDef> = Vec::new();
        textures.push(TextureDef::ImageTextureDef(pixels));
        MaterialDef::new("simple_material", simple_shader_def(), textures)
    }
}

} // verus!
