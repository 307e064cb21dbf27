//! Wavefront material libraries: a line-by-line reader.
//!
//! Loading a texture is the caller's work. A texture line whose file was not
//! loaded before hands back the file's path; the caller loads it and reports
//! the handle with [`MtlParser::texture_loaded`], or reports nothing where
//! loading failed, and the material goes without that texture.
use vstd::prelude::*;
use vstd::string::StringSliceAdditionalSpecFns;
use crate::importer::{
    copy_bytes, material_views, ImportError, Material, MaterialView, Texture, TextureType,
};
use crate::scalar::{Scalar, Value, Vec3, ONE_BITS};
use crate::text::{
    blank, bytes_eq, has_words, is_blank, is_word, numbers_at, read_numbers, token_views, Token,
    TokenView,
};

verus! {

/// The directives of a material library.
#[derive(Clone, Copy, Debug, PartialEq, Eq, Structural)]
pub enum MtlToken {
    NewMaterial,
    AmbientColor,
    DiffuseColor,
    SpecularColor,
    Emissive,
    SpecularExponent,
    Refraction,
    Opacity,
    Transparency,
    AmbientTexture,
    DiffuseTexture,
    SpecularTexture,
    SpecularHighlightTexture,
    EmissiveTexture,
    BumpTexture,
    DisplacementTexture,
    DecalTexture,
    ReflectionTexture,
}

impl MtlToken {
    /// The directive that a line's first word stands for.
    pub open spec fn of_keyword(s: Seq<u8>) -> Option<MtlToken> {
        if s == "newmtl".spec_bytes() {
            Some(MtlToken::NewMaterial)
        } else if s == "Ka".spec_bytes() {
            Some(MtlToken::AmbientColor)
        } else if s == "Kd".spec_bytes() {
            Some(MtlToken::DiffuseColor)
        } else if s == "Ks".spec_bytes() {
            Some(MtlToken::SpecularColor)
        } else if s == "Ke".spec_bytes() {
            Some(MtlToken::Emissive)
        } else if s == "Ns".spec_bytes() {
            Some(MtlToken::SpecularExponent)
        } else if s == "Ni".spec_bytes() {
            Some(MtlToken::Refraction)
        } else if s == "d".spec_bytes() {
            Some(MtlToken::Opacity)
        } else if s == "Tr".spec_bytes() {
            Some(MtlToken::Transparency)
        } else if s == "map_Ka".spec_bytes() {
            Some(MtlToken::AmbientTexture)
        } else if s == "map_Kd".spec_bytes() {
            Some(MtlToken::DiffuseTexture)
        } else if s == "map_Ks".spec_bytes() {
            Some(MtlToken::SpecularTexture)
        } else if s == "map_Ns".spec_bytes() {
            Some(MtlToken::SpecularHighlightTexture)
        } else if s == "map_Ke".spec_bytes() {
            Some(MtlToken::EmissiveTexture)
        } else if s == "map_Bump".spec_bytes() || s == "bump".spec_bytes() || s
            == "norm".spec_bytes() {
            Some(MtlToken::BumpTexture)
        } else if s == "map_d".spec_bytes() {
            Some(MtlToken::DisplacementTexture)
        } else if s == "decal".spec_bytes() {
            Some(MtlToken::DecalTexture)
        } else if s == "refl".spec_bytes() {
            Some(MtlToken::ReflectionTexture)
        } else {
            None
        }
    }

    /// The role of the texture that a texture directive names; none for a
    /// directive that names no texture or whose textures are not used.
    pub open spec fn texture_role(self) -> Option<TextureType> {
        match self {
            MtlToken::AmbientTexture => Some(TextureType::Ambient),
            MtlToken::DiffuseTexture => Some(TextureType::Diffuse),
            MtlToken::SpecularTexture => Some(TextureType::Specular),
            MtlToken::EmissiveTexture => Some(TextureType::Emissive),
            MtlToken::BumpTexture => Some(TextureType::Bump),
            MtlToken::DisplacementTexture => Some(TextureType::Displacement),
            MtlToken::DecalTexture => Some(TextureType::Decal),
            MtlToken::ReflectionTexture => Some(TextureType::Reflection),
            _ => None,
        }
    }

    /// The directive that a word stands for, the word given by its bytes.
    pub fn from_word(s: &[u8]) -> (r: Option<MtlToken>)
        ensures
            r == MtlToken::of_keyword(s@),
    {
        if is_word(s, "newmtl") {
            Some(MtlToken::NewMaterial)
        } else if is_word(s, "Ka") {
            Some(MtlToken::AmbientColor)
        } else if is_word(s, "Kd") {
            Some(MtlToken::DiffuseColor)
        } else if is_word(s, "Ks") {
            Some(MtlToken::SpecularColor)
        } else if is_word(s, "Ke") {
            Some(MtlToken::Emissive)
        } else if is_word(s, "Ns") {
            Some(MtlToken::SpecularExponent)
        } else if is_word(s, "Ni") {
            Some(MtlToken::Refraction)
        } else if is_word(s, "d") {
            Some(MtlToken::Opacity)
        } else if is_word(s, "Tr") {
            Some(MtlToken::Transparency)
        } else if is_word(s, "map_Ka") {
            Some(MtlToken::AmbientTexture)
        } else if is_word(s, "map_Kd") {
            Some(MtlToken::DiffuseTexture)
        } else if is_word(s, "map_Ks") {
            Some(MtlToken::SpecularTexture)
        } else if is_word(s, "map_Ns") {
            Some(MtlToken::SpecularHighlightTexture)
        } else if is_word(s, "map_Ke") {
            Some(MtlToken::EmissiveTexture)
        } else if is_word(s, "map_Bump") || is_word(s, "bump") || is_word(s, "norm") {
            Some(MtlToken::BumpTexture)
        } else if is_word(s, "map_d") {
            Some(MtlToken::DisplacementTexture)
        } else if is_word(s, "decal") {
            Some(MtlToken::DecalTexture)
        } else if is_word(s, "refl") {
            Some(MtlToken::ReflectionTexture)
        } else {
            None
        }
    }

    /// The directive that a word stands for.
    pub fn from_str(s: &str) -> (r: Option<MtlToken>)
        ensures
            r == MtlToken::of_keyword(s.spec_bytes()),
    {
        MtlToken::from_word(s.as_bytes())
    }

    /// The role of the texture that a texture directive names.
    pub fn role(self) -> (r: Option<TextureType>)
        ensures
            r == self.texture_role(),
    {
        match self {
            MtlToken::AmbientTexture => Some(TextureType::Ambient),
            MtlToken::DiffuseTexture => Some(TextureType::Diffuse),
            MtlToken::SpecularTexture => Some(TextureType::Specular),
            MtlToken::EmissiveTexture => Some(TextureType::Emissive),
            MtlToken::BumpTexture => Some(TextureType::Bump),
            MtlToken::DisplacementTexture => Some(TextureType::Displacement),
            MtlToken::DecalTexture => Some(TextureType::Decal),
            MtlToken::ReflectionTexture => Some(TextureType::Reflection),
            _ => None,
        }
    }
}

/// The path of a file named in a library that lies in `directory`: the name
/// itself where it starts at the root or the directory is empty, else the
/// directory, a `/` unless the directory ends in one, and the name.
pub open spec fn path_in(directory: Seq<u8>, name: Seq<u8>) -> Seq<u8> {
    if (name.len() > 0 && name[0] == 47) || directory.len() == 0 {
        name
    } else if directory.last() == 47 {
        directory + name
    } else {
        directory.push(47) + name
    }
}

/// The path of a file named in a library that lies in `directory`.
pub fn resolve_path(directory: &Vec<u8>, name: &Vec<u8>) -> (r: Vec<u8>)
    ensures
        r@ == path_in(directory@, name@),
{
    if (name.len() > 0 && name[0] == 47) || directory.len() == 0 {
        copy_bytes(name)
    } else {
        let mut out = copy_bytes(directory);
        if directory[directory.len() - 1] != 47 {
            out.push(47);
        }
        let mut tail = copy_bytes(name);
        out.append(&mut tail);
        out
    }
}

/// The handle under which a path was last entered in a list of loaded
/// textures.
pub open spec fn cached(entries: Seq<(Seq<u8>, u32)>, path: Seq<u8>) -> Option<u32>
    decreases entries.len(),
{
    if entries.len() == 0 {
        None
    } else if entries.last().0 == path {
        Some(entries.last().1)
    } else {
        cached(entries.drop_last(), path)
    }
}

/// A texture that was loaded is found under its path.
pub proof fn lemma_cached_after_insert(entries: Seq<(Seq<u8>, u32)>, path: Seq<u8>, id: u32)
    ensures
        cached(entries.push((path, id)), path) == Some(id),
{
}

/// A texture that is found stays found whatever is loaded afterwards.
pub proof fn lemma_cached_stays(entries: Seq<(Seq<u8>, u32)>, path: Seq<u8>, other: (Seq<u8>, u32))
    requires
        cached(entries, path) is Some,
    ensures
        cached(entries.push(other), path) is Some,
{
    assert(entries.push(other).drop_last() =~= entries);
}

/// A loaded texture: the path it was loaded from and its handle.
struct CacheEntry {
    path: Vec<u8>,
    id: u32,
}

/// The textures loaded during one import, by path.
pub struct TextureCache {
    entries: Vec<CacheEntry>,
}

impl View for TextureCache {
    type V = Seq<(Seq<u8>, u32)>;

    closed spec fn view(&self) -> Seq<(Seq<u8>, u32)> {
        Seq::new(self.entries@.len(), |i: int| (self.entries@[i].path@, self.entries@[i].id))
    }
}

impl TextureCache {
    /// A cache without textures.
    pub fn new() -> (r: TextureCache)
        ensures
            r@ == Seq::<(Seq<u8>, u32)>::empty(),
    {
        let r = TextureCache { entries: Vec::new() };
        assert(r@ =~= Seq::<(Seq<u8>, u32)>::empty());
        r
    }

    /// The handle of the texture loaded from `path`, if one was.
    pub fn lookup(&self, path: &Vec<u8>) -> (r: Option<u32>)
        ensures
            r == cached(self@, path@),
    {
        let ghost all = self@;
        let mut i: usize = self.entries.len();
        assert(all.take(i as int) =~= all);
        while i > 0
            invariant
                i <= self.entries@.len(),
                all == self@,
                cached(all, path@) == cached(all.take(i as int), path@),
            decreases i,
        {
            i -= 1;
            assert(all.take(i + 1).last() == (self.entries@[i as int].path@, self.entries@[i as int].id));
            assert(all.take(i + 1).drop_last() =~= all.take(i as int));
            if bytes_eq(self.entries[i].path.as_slice(), path.as_slice()) {
                return Some(self.entries[i].id);
            }
        }
        None
    }

    /// Enters the handle of the texture loaded from `path`.
    pub fn insert(&mut self, path: Vec<u8>, id: u32)
        ensures
            final(self)@ == old(self)@.push((path@, id)),
    {
        let ghost before = self@;
        self.entries.push(CacheEntry { path, id });
        assert(self@ =~= before.push((path@, id)));
    }
}

/// What a reader of material lines holds.
pub struct MtlState {
    /// The directory of the library, for the paths of its textures.
    pub directory: Seq<u8>,
    /// The material in progress: its name, empty before the first
    /// `newmtl`, and its attributes.
    pub name: Seq<u8>,
    pub ambient: Vec3,
    pub diffuse: Vec3,
    pub specular: Vec3,
    pub shininess: Scalar,
    pub opacity: Value,
    pub textures: Seq<Texture>,
    /// The materials that are complete.
    pub materials: Seq<MaterialView>,
}

/// What a line asks of the caller.
#[derive(Debug)]
pub enum MtlOutcome {
    /// Nothing: the line was taken in.
    Done,
    /// Nothing: the line's first word is no directive that is used, and the
    /// line was passed over.
    Unknown,
    /// The line names a texture that was not loaded yet: its path and role.
    Texture(Vec<u8>, TextureType),
}

/// What a [`MtlOutcome`] holds.
pub enum MtlOutcomeView {
    Done,
    Unknown,
    Texture(Seq<u8>, TextureType),
}

impl View for MtlOutcome {
    type V = MtlOutcomeView;

    open spec fn view(&self) -> MtlOutcomeView {
        match self {
            MtlOutcome::Done => MtlOutcomeView::Done,
            MtlOutcome::Unknown => MtlOutcomeView::Unknown,
            MtlOutcome::Texture(path, typ) => MtlOutcomeView::Texture(path@, *typ),
        }
    }
}

/// What the result of feeding a line holds.
pub open spec fn mtl_outcome_view(r: Result<MtlOutcome, ImportError>) -> Result<
    MtlOutcomeView,
    ImportError,
> {
    match r {
        Ok(o) => Ok(o@),
        Err(e) => Err(e),
    }
}

impl MtlState {
    /// The state before the first line of a library in `directory`: black,
    /// exponent 32, opaque.
    pub open spec fn initial(directory: Seq<u8>) -> MtlState {
        MtlState {
            directory,
            name: Seq::empty(),
            ambient: Vec3::spec_zero(),
            diffuse: Vec3::spec_zero(),
            specular: Vec3::spec_zero(),
            shininess: Scalar { bits: 0x4200_0000 },
            opacity: Value::Plain(Scalar { bits: ONE_BITS }),
            textures: Seq::empty(),
            materials: Seq::empty(),
        }
    }

    /// The material in progress.
    pub open spec fn current(self) -> MaterialView {
        MaterialView {
            name: self.name,
            ambient_color: self.ambient,
            diffuse_color: self.diffuse,
            specular_color: self.specular,
            specular_exponent: self.shininess,
            opacity: self.opacity,
            textures: self.textures,
        }
    }

    /// The numbers that a line has to hold after its first word.
    pub open spec fn values(line: Seq<TokenView>, count: int) -> Result<Seq<Scalar>, ImportError> {
        if !has_words(line, 1, count) {
            Err(ImportError::IncompleteData)
        } else {
            match numbers_at(line, 1, count) {
                Some(n) => Ok(n),
                None => Err(ImportError::MalformedNumber),
            }
        }
    }

    /// The file that a texture line names. A bump line may give a factor
    /// after `-bm`, before or after the file's name; the factor has to be a
    /// number and is not used.
    pub open spec fn texture_name(line: Seq<TokenView>, bump: bool) -> Result<Seq<u8>, ImportError> {
        if line.len() < 2 {
            Err(ImportError::IncompleteData)
        } else if bump && line[1].text == "-bm".spec_bytes() {
            if line.len() < 3 {
                Err(ImportError::IncompleteData)
            } else if line[2].number is None {
                Err(ImportError::MalformedNumber)
            } else if line.len() < 4 {
                Err(ImportError::IncompleteData)
            } else {
                Ok(line[3].text)
            }
        } else if bump && line.len() >= 3 && line[2].text == "-bm".spec_bytes() {
            if line.len() < 4 {
                Err(ImportError::IncompleteData)
            } else if line[3].number is None {
                Err(ImportError::MalformedNumber)
            } else {
                Ok(line[1].text)
            }
        } else {
            Ok(line[1].text)
        }
    }

    /// The state after a line, and what the line gives, `cache` being the
    /// textures loaded so far. An empty line and a comment change nothing;
    /// a line that fails, or that names a texture that is not loaded,
    /// leaves the state as it was.
    pub open spec fn step(self, cache: Seq<(Seq<u8>, u32)>, line: Seq<TokenView>) -> (
        MtlState,
        Result<MtlOutcomeView, ImportError>,
    ) {
        if is_blank(line) {
            (self, Ok(MtlOutcomeView::Done))
        } else {
            match MtlToken::of_keyword(line[0].text) {
                None => (self, Ok(MtlOutcomeView::Unknown)),
                Some(MtlToken::NewMaterial) => if line.len() < 2 {
                    (self, Err(ImportError::IncompleteData))
                } else if self.name.len() > 0 {
                    (
                        MtlState {
                            name: line[1].text,
                            textures: Seq::empty(),
                            materials: self.materials.push(self.current()),
                            ..self
                        },
                        Ok(MtlOutcomeView::Done),
                    )
                } else {
                    (MtlState { name: line[1].text, ..self }, Ok(MtlOutcomeView::Done))
                },
                Some(MtlToken::AmbientColor) => match MtlState::values(line, 3) {
                    Ok(n) => (
                        MtlState { ambient: Vec3 { x: n[0], y: n[1], z: n[2] }, ..self },
                        Ok(MtlOutcomeView::Done),
                    ),
                    Err(e) => (self, Err(e)),
                },
                Some(MtlToken::DiffuseColor) => match MtlState::values(line, 3) {
                    Ok(n) => (
                        MtlState { diffuse: Vec3 { x: n[0], y: n[1], z: n[2] }, ..self },
                        Ok(MtlOutcomeView::Done),
                    ),
                    Err(e) => (self, Err(e)),
                },
                Some(MtlToken::SpecularColor) => match MtlState::values(line, 3) {
                    Ok(n) => (
                        MtlState { specular: Vec3 { x: n[0], y: n[1], z: n[2] }, ..self },
                        Ok(MtlOutcomeView::Done),
                    ),
                    Err(e) => (self, Err(e)),
                },
                Some(MtlToken::SpecularExponent) => match MtlState::values(line, 1) {
                    Ok(n) => (MtlState { shininess: n[0], ..self }, Ok(MtlOutcomeView::Done)),
                    Err(e) => (self, Err(e)),
                },
                Some(MtlToken::Opacity) => match MtlState::values(line, 1) {
                    Ok(n) => (
                        MtlState { opacity: Value::Plain(n[0]), ..self },
                        Ok(MtlOutcomeView::Done),
                    ),
                    Err(e) => (self, Err(e)),
                },
                Some(MtlToken::Transparency) => match MtlState::values(line, 1) {
                    Ok(n) => (
                        MtlState { opacity: Value::OneMinus(n[0]), ..self },
                        Ok(MtlOutcomeView::Done),
                    ),
                    Err(e) => (self, Err(e)),
                },
                Some(token) => match token.texture_role() {
                    None => (self, Ok(MtlOutcomeView::Unknown)),
                    Some(typ) => match MtlState::texture_name(
                        line,
                        token == MtlToken::BumpTexture,
                    ) {
                        Err(e) => (self, Err(e)),
                        Ok(name) => {
                            let path = path_in(self.directory, name);
                            match cached(cache, path) {
                                Some(id) => (
                                    self.with_texture(Texture { id, typ }),
                                    Ok(MtlOutcomeView::Done),
                                ),
                                None => (self, Ok(MtlOutcomeView::Texture(path, typ))),
                            }
                        },
                    },
                },
            }
        }
    }

    /// The state with one more texture on the material in progress.
    pub open spec fn with_texture(self, texture: Texture) -> MtlState {
        MtlState { textures: self.textures.push(texture), ..self }
    }

    /// The materials of the library once its last line was read: the
    /// complete ones and the one in progress.
    pub open spec fn finished(self) -> Seq<MaterialView> {
        self.materials.push(self.current())
    }
}

/// A texture line asks for a texture only while its path is not among the
/// loaded ones: once a path was loaded, no line in any library of the same
/// import asks for it again.
pub proof fn lemma_texture_loaded_once(
    s: MtlState,
    cache: Seq<(Seq<u8>, u32)>,
    line: Seq<TokenView>,
)
    ensures
        s.step(cache, line).1 matches Ok(MtlOutcomeView::Texture(path, _)) ==> cached(cache, path)
            is None,
{
}

/// A texture line whose file was loaded before asks for nothing: the
/// material in progress takes the handle that the file was loaded under,
/// with the role that the line gives.
pub proof fn lemma_loaded_texture_is_reused(
    s: MtlState,
    cache: Seq<(Seq<u8>, u32)>,
    line: Seq<TokenView>,
    token: MtlToken,
    typ: TextureType,
    name: Seq<u8>,
    id: u32,
)
    requires
        !is_blank(line),
        MtlToken::of_keyword(line[0].text) == Some(token),
        token.texture_role() == Some(typ),
        MtlState::texture_name(line, token == MtlToken::BumpTexture) == Ok::<Seq<u8>, ImportError>(
            name,
        ),
        cached(cache, path_in(s.directory, name)) == Some(id),
    ensures
        s.step(cache, line).0 == s.with_texture(Texture { id, typ }),
        s.step(cache, line).1 == Ok::<MtlOutcomeView, ImportError>(MtlOutcomeView::Done),
{
}

/// A reader of material lines.
pub struct MtlParser {
    directory: Vec<u8>,
    name: Vec<u8>,
    ambient: Vec3,
    diffuse: Vec3,
    specular: Vec3,
    shininess: Scalar,
    opacity: Value,
    textures: Vec<Texture>,
    materials: Vec<Material>,
}

impl View for MtlParser {
    type V = MtlState;

    closed spec fn view(&self) -> MtlState {
        MtlState {
            directory: self.directory@,
            name: self.name@,
            ambient: self.ambient,
            diffuse: self.diffuse,
            specular: self.specular,
            shininess: self.shininess,
            opacity: self.opacity,
            textures: self.textures@,
            materials: material_views(self.materials@),
        }
    }
}

impl MtlParser {
    /// A reader for a library that lies in `directory`.
    pub fn new(directory: Vec<u8>) -> (r: MtlParser)
        ensures
            r@ == MtlState::initial(directory@),
    {
        let r = MtlParser {
            directory,
            name: Vec::new(),
            ambient: Vec3::zero(),
            diffuse: Vec3::zero(),
            specular: Vec3::zero(),
            shininess: Scalar { bits: 0x4200_0000 },
            opacity: Value::Plain(Scalar { bits: ONE_BITS }),
            textures: Vec::new(),
            materials: Vec::new(),
        };
        assert(r@.materials =~= Seq::empty());
        r
    }

    fn values(line: &Vec<Token>, count: usize) -> (r: Result<Vec<Scalar>, ImportError>)
        requires
            count <= 3,
        ensures
            match r {
                Ok(v) => MtlState::values(token_views(line@), count as int) == Ok::<
                    Seq<Scalar>,
                    ImportError,
                >(v@),
                Err(e) => MtlState::values(token_views(line@), count as int) == Err::<
                    Seq<Scalar>,
                    ImportError,
                >(e),
            },
    {
        if line.len() < count + 1 {
            return Err(ImportError::IncompleteData);
        }
        match read_numbers(line, 1, count) {
            Some(v) => Ok(v),
            None => Err(ImportError::MalformedNumber),
        }
    }

    fn texture_name(line: &Vec<Token>, bump: bool) -> (r: Result<Vec<u8>, ImportError>)
        ensures
            match r {
                Ok(v) => MtlState::texture_name(token_views(line@), bump) == Ok::<
                    Seq<u8>,
                    ImportError,
                >(v@),
                Err(e) => MtlState::texture_name(token_views(line@), bump) == Err::<
                    Seq<u8>,
                    ImportError,
                >(e),
            },
    {
        let ghost tv = token_views(line@);
        if line.len() < 2 {
            return Err(ImportError::IncompleteData);
        }
        assert(tv[1].text == line@[1].text@);
        if bump && is_word(line[1].text.as_slice(), "-bm") {
            if line.len() < 3 {
                return Err(ImportError::IncompleteData);
            }
            assert(tv[2].number == line@[2].number);
            if line[2].number.is_none() {
                return Err(ImportError::MalformedNumber);
            }
            if line.len() < 4 {
                return Err(ImportError::IncompleteData);
            }
            assert(tv[3].text == line@[3].text@);
            return Ok(copy_bytes(&line[3].text));
        }
        if bump && line.len() >= 3 {
            assert(tv[2].text == line@[2].text@);
            if is_word(line[2].text.as_slice(), "-bm") {
                if line.len() < 4 {
                    return Err(ImportError::IncompleteData);
                }
                assert(tv[3].number == line@[3].number);
                if line[3].number.is_none() {
                    return Err(ImportError::MalformedNumber);
                }
                return Ok(copy_bytes(&line[1].text));
            }
        }
        Ok(copy_bytes(&line[1].text))
    }

    fn current(&self) -> (r: Material)
        ensures
            r@ == self@.current(),
    {
        Material {
            name: copy_bytes(&self.name),
            ambient_color: self.ambient,
            diffuse_color: self.diffuse,
            specular_color: self.specular,
            specular_exponent: self.shininess,
            opacity: self.opacity,
            textures: vstd::slice::slice_to_vec(self.textures.as_slice()),
        }
    }

    /// Takes in one line, given as its words. `cache` holds the textures
    /// loaded so far in this import.
    pub fn feed(&mut self, cache: &TextureCache, line: &Vec<Token>) -> (r: Result<
        MtlOutcome,
        ImportError,
    >)
        ensures
            final(self)@ == old(self)@.step(cache@, token_views(line@)).0,
            mtl_outcome_view(r) == old(self)@.step(cache@, token_views(line@)).1,
    {
        let ghost tv = token_views(line@);
        if blank(line) {
            return Ok(MtlOutcome::Done);
        }
        assert(tv[0].text == line@[0].text@);
        let token = match MtlToken::from_word(line[0].text.as_slice()) {
            None => {
                return Ok(MtlOutcome::Unknown);
            },
            Some(t) => t,
        };
        match token {
            MtlToken::NewMaterial => {
                if line.len() < 2 {
                    return Err(ImportError::IncompleteData);
                }
                assert(tv[1].text == line@[1].text@);
                if self.name.len() > 0 {
                    let done = self.current();
                    let ghost before = material_views(self.materials@);
                    self.materials.push(done);
                    assert(material_views(self.materials@) =~= before.push(done@));
                    self.textures = Vec::new();
                }
                self.name = copy_bytes(&line[1].text);
                Ok(MtlOutcome::Done)
            },
            MtlToken::AmbientColor => match MtlParser::values(line, 3) {
                Ok(n) => {
                    self.ambient = Vec3 { x: n[0], y: n[1], z: n[2] };
                    Ok(MtlOutcome::Done)
                },
                Err(e) => Err(e),
            },
            MtlToken::DiffuseColor => match MtlParser::values(line, 3) {
                Ok(n) => {
                    self.diffuse = Vec3 { x: n[0], y: n[1], z: n[2] };
                    Ok(MtlOutcome::Done)
                },
                Err(e) => Err(e),
            },
            MtlToken::SpecularColor => match MtlParser::values(line, 3) {
                Ok(n) => {
                    self.specular = Vec3 { x: n[0], y: n[1], z: n[2] };
                    Ok(MtlOutcome::Done)
                },
                Err(e) => Err(e),
            },
            MtlToken::SpecularExponent => match MtlParser::values(line, 1) {
                Ok(n) => {
                    self.shininess = n[0];
                    Ok(MtlOutcome::Done)
                },
                Err(e) => Err(e),
            },
            MtlToken::Opacity => match MtlParser::values(line, 1) {
                Ok(n) => {
                    self.opacity = Value::Plain(n[0]);
                    Ok(MtlOutcome::Done)
                },
                Err(e) => Err(e),
            },
            MtlToken::Transparency => match MtlParser::values(line, 1) {
                Ok(n) => {
                    self.opacity = Value::OneMinus(n[0]);
                    Ok(MtlOutcome::Done)
                },
                Err(e) => Err(e),
            },
            _ => match token.role() {
                None => Ok(MtlOutcome::Unknown),
                Some(typ) => {
                    let bump: bool = token == MtlToken::BumpTexture;
                    match MtlParser::texture_name(line, bump) {
                        Err(e) => Err(e),
                        Ok(name) => {
                            let path = resolve_path(&self.directory, &name);
                            match cache.lookup(&path) {
                                Some(id) => {
                                    self.textures.push(Texture { id, typ });
                                    Ok(MtlOutcome::Done)
                                },
                                None => Ok(MtlOutcome::Texture(path, typ)),
                            }
                        },
                    }
                },
            },
        }
    }

    /// Takes in the handle of a texture that a line asked for: the texture
    /// joins the material in progress and the loaded textures.
    pub fn texture_loaded(&mut self, cache: &mut TextureCache, path: Vec<u8>, typ: TextureType, id: u32)
        ensures
            final(self)@ == old(self)@.with_texture(Texture { id, typ }),
            final(cache)@ == old(cache)@.push((path@, id)),
            cached(final(cache)@, path@) == Some(id),
    {
        cache.insert(path, id);
        self.textures.push(Texture { id, typ });
    }

    /// Ends the library and gives its materials, in the order in which the
    /// file names them.
    pub fn finish(self) -> (r: Vec<Material>)
        ensures
            material_views(r@) == self@.finished(),
    {
        let last = self.current();
        let mut materials = self.materials;
        let ghost before = material_views(materials@);
        materials.push(last);
        assert(material_views(materials@) =~= before.push(last@));
        materials
    }
}

} // verus!
