use threedobs::importer::mtl::{resolve_path, MtlOutcome, MtlParser, MtlToken, TextureCache};
use threedobs::importer::{ImportError, Material, Texture, TextureType};
use threedobs::scalar::{Scalar, Value, Vec3};
use threedobs::text::{split_ascii_whitespace, split_lines, Token};

fn num(v: f32) -> Scalar {
    Scalar::from_bits(v.to_bits())
}

fn words(line: &[u8]) -> Vec<Token> {
    split_ascii_whitespace(line)
        .into_iter()
        .map(|w| {
            let number = std::str::from_utf8(&w)
                .ok()
                .and_then(|s| s.parse::<f32>().ok())
                .map(|v| Scalar::from_bits(v.to_bits()));
            Token::new(w, number)
        })
        .collect()
}

/// Runs a library through the reader with a loader that counts its calls
/// and fails for names that hold "missing".
fn load(text: &str, cache: &mut TextureCache, loaded: &mut Vec<Vec<u8>>) -> Vec<Material> {
    let mut parser = MtlParser::new(b"models".to_vec());
    for line in split_lines(text.as_bytes()) {
        match parser.feed(cache, &words(&line)).unwrap() {
            MtlOutcome::Texture(path, typ) => {
                loaded.push(path.clone());
                if !path.windows(7).any(|w| w == b"missing") {
                    let id = 100 + loaded.len() as u32;
                    parser.texture_loaded(cache, path, typ, id);
                }
            }
            _ => {}
        }
    }
    parser.finish()
}

#[test]
fn same_texture_in_two_materials_is_loaded_once() {
    let text = "newmtl a\nmap_Kd wood.png\nnewmtl b\nmap_Ka wood.png\nmap_Kd wood.png\n";
    let mut cache = TextureCache::new();
    let mut loaded = Vec::new();
    let materials = load(text, &mut cache, &mut loaded);
    assert_eq!(loaded, vec![b"models/wood.png".to_vec()]);
    assert_eq!(materials.len(), 2);
    assert_eq!(materials[0].textures, vec![Texture::new(101, TextureType::Diffuse)]);
    assert_eq!(
        materials[1].textures,
        vec![Texture::new(101, TextureType::Ambient), Texture::new(101, TextureType::Diffuse)]
    );
    assert_eq!(cache.lookup(&b"models/wood.png".to_vec()), Some(101));
    assert_eq!(cache.lookup(&b"wood.png".to_vec()), None);
    let again = load("newmtl c\nmap_Ks wood.png\n", &mut cache, &mut loaded);
    assert_eq!(loaded.len(), 1);
    assert_eq!(again[0].textures, vec![Texture::new(101, TextureType::Specular)]);
}

#[test]
fn texture_that_fails_to_load_is_left_out_and_asked_for_again() {
    let text = "newmtl a\nmap_Kd missing.png\nmap_Kd missing.png\nmap_Ks ok.png\n";
    let mut cache = TextureCache::new();
    let mut loaded = Vec::new();
    let materials = load(text, &mut cache, &mut loaded);
    assert_eq!(loaded.len(), 3);
    assert_eq!(materials[0].textures, vec![Texture::new(103, TextureType::Specular)]);
}

#[test]
fn colors_exponent_and_opacity() {
    let text = "# comment\nnewmtl m\nKa 0.1 0.2 0.3\nKd 0.4 0.5 0.6\nKs 0.7 0.8 0.9\nNs 12.5\nd 0.25\n";
    let mut cache = TextureCache::new();
    let m = load(text, &mut cache, &mut Vec::new());
    assert_eq!(m.len(), 1);
    assert_eq!(m[0].name, b"m".to_vec());
    assert_eq!(m[0].ambient_color, Vec3 { x: num(0.1), y: num(0.2), z: num(0.3) });
    assert_eq!(m[0].diffuse_color, Vec3 { x: num(0.4), y: num(0.5), z: num(0.6) });
    assert_eq!(m[0].specular_color, Vec3 { x: num(0.7), y: num(0.8), z: num(0.9) });
    assert_eq!(m[0].specular_exponent, num(12.5));
    assert_eq!(m[0].opacity, Value::Plain(num(0.25)));
    assert!(m[0].textures.is_empty());
}

#[test]
fn transparency_is_one_minus_opacity() {
    let mut cache = TextureCache::new();
    let m = load("newmtl m\nTr 0.25\n", &mut cache, &mut Vec::new());
    assert_eq!(m[0].opacity, Value::OneMinus(num(0.25)));
    match m[0].opacity {
        Value::OneMinus(t) => assert_eq!(1.0 - f32::from_bits(t.bits), 0.75),
        _ => panic!("not a transparency"),
    }
}

#[test]
fn defaults_and_the_material_without_a_name() {
    let mut cache = TextureCache::new();
    let m = load("", &mut cache, &mut Vec::new());
    assert_eq!(m.len(), 1);
    assert_eq!(m[0].name, Vec::<u8>::new());
    assert_eq!(m[0].ambient_color, Vec3::zero());
    assert_eq!(m[0].specular_exponent, num(32.0));
    assert_eq!(m[0].opacity, Value::Plain(num(1.0)));
}

#[test]
fn attributes_carry_over_to_the_next_material() {
    let mut cache = TextureCache::new();
    let m = load("newmtl a\nNs 5\nmap_Kd t.png\nnewmtl b\n", &mut cache, &mut Vec::new());
    assert_eq!(m.len(), 2);
    assert_eq!(m[0].name, b"a".to_vec());
    assert_eq!(m[1].name, b"b".to_vec());
    assert_eq!(m[1].specular_exponent, num(5.0));
    assert_eq!(m[0].textures.len(), 1);
    assert!(m[1].textures.is_empty());
}

#[test]
fn bump_textures_take_a_factor_before_or_after_the_name() {
    let cache = TextureCache::new();
    for (line, want) in [
        ("map_Bump -bm 0.5 bumps.png", "models/bumps.png"),
        ("bump bumps.png -bm 0.5", "models/bumps.png"),
        ("norm bumps.png", "models/bumps.png"),
        ("bump bumps.png other", "models/bumps.png"),
    ] {
        let mut p = MtlParser::new(b"models".to_vec());
        match p.feed(&cache, &words(line.as_bytes())).unwrap() {
            MtlOutcome::Texture(path, typ) => {
                assert_eq!(path, want.as_bytes().to_vec());
                assert_eq!(typ, TextureType::Bump);
            }
            _ => panic!("no texture asked for by {}", line),
        }
    }
    let mut p = MtlParser::new(Vec::new());
    for (line, want) in [
        ("bump", ImportError::IncompleteData),
        ("bump -bm", ImportError::IncompleteData),
        ("bump -bm x", ImportError::MalformedNumber),
        ("bump -bm 1.0", ImportError::IncompleteData),
        ("bump a.png -bm", ImportError::IncompleteData),
        ("bump a.png -bm x", ImportError::MalformedNumber),
        ("map_Kd", ImportError::IncompleteData),
        ("newmtl", ImportError::IncompleteData),
        ("Ka 1 2", ImportError::IncompleteData),
        ("Kd 1 2 z", ImportError::MalformedNumber),
        ("Ns", ImportError::IncompleteData),
        ("d x", ImportError::MalformedNumber),
        ("Tr", ImportError::IncompleteData),
    ] {
        assert_eq!(p.feed(&cache, &words(line.as_bytes())).unwrap_err(), want, "{}", line);
    }
}

#[test]
fn other_texture_roles_and_unused_directives() {
    let cache = TextureCache::new();
    let mut p = MtlParser::new(Vec::new());
    for (line, want) in [
        ("map_Ka a", TextureType::Ambient),
        ("map_Kd a", TextureType::Diffuse),
        ("map_Ks a", TextureType::Specular),
        ("map_Ke a", TextureType::Emissive),
        ("map_d a", TextureType::Displacement),
        ("decal a", TextureType::Decal),
        ("refl a", TextureType::Reflection),
    ] {
        match p.feed(&cache, &words(line.as_bytes())).unwrap() {
            MtlOutcome::Texture(path, typ) => {
                assert_eq!(path, b"a".to_vec());
                assert_eq!(typ, want);
            }
            _ => panic!("no texture asked for by {}", line),
        }
    }
    assert!(matches!(p.feed(&cache, &words(b"#newmtl x")), Ok(MtlOutcome::Done)));
    for line in ["Ke 1 1 1", "Ni 1.5", "map_Ns spec.png", "illum 2"] {
        assert!(matches!(p.feed(&cache, &words(line.as_bytes())), Ok(MtlOutcome::Unknown)));
    }
    assert!(matches!(p.feed(&cache, &words(b"")), Ok(MtlOutcome::Done)));
}

#[test]
fn paths_of_textures() {
    assert_eq!(resolve_path(&b"a/b".to_vec(), &b"c.png".to_vec()), b"a/b/c.png".to_vec());
    assert_eq!(resolve_path(&b"a/b/".to_vec(), &b"c.png".to_vec()), b"a/b/c.png".to_vec());
    assert_eq!(resolve_path(&b"".to_vec(), &b"c.png".to_vec()), b"c.png".to_vec());
    assert_eq!(resolve_path(&b"a".to_vec(), &b"/c.png".to_vec()), b"/c.png".to_vec());
    assert_eq!(resolve_path(&b"a".to_vec(), &b"".to_vec()), b"a/".to_vec());
    let check = |dir: &str, name: &str| {
        let want = std::path::Path::new(dir).join(name);
        assert_eq!(
            resolve_path(&dir.as_bytes().to_vec(), &name.as_bytes().to_vec()),
            want.to_str().unwrap().as_bytes().to_vec()
        );
    };
    check("a/b", "c.png");
    check("a/b/", "c.png");
    check("", "c.png");
    check("a", "/c.png");
    check("/", "c.png");
}

#[test]
fn directive_words_of_a_library() {
    assert_eq!(MtlToken::from_str("newmtl"), Some(MtlToken::NewMaterial));
    assert_eq!(MtlToken::from_str("Ka"), Some(MtlToken::AmbientColor));
    assert_eq!(MtlToken::from_str("Kd"), Some(MtlToken::DiffuseColor));
    assert_eq!(MtlToken::from_str("Ks"), Some(MtlToken::SpecularColor));
    assert_eq!(MtlToken::from_str("Ke"), Some(MtlToken::Emissive));
    assert_eq!(MtlToken::from_str("Ns"), Some(MtlToken::SpecularExponent));
    assert_eq!(MtlToken::from_str("Ni"), Some(MtlToken::Refraction));
    assert_eq!(MtlToken::from_str("d"), Some(MtlToken::Opacity));
    assert_eq!(MtlToken::from_str("Tr"), Some(MtlToken::Transparency));
    assert_eq!(MtlToken::from_str("map_Ka"), Some(MtlToken::AmbientTexture));
    assert_eq!(MtlToken::from_str("map_Kd"), Some(MtlToken::DiffuseTexture));
    assert_eq!(MtlToken::from_str("map_Ks"), Some(MtlToken::SpecularTexture));
    assert_eq!(MtlToken::from_str("map_Ns"), Some(MtlToken::SpecularHighlightTexture));
    assert_eq!(MtlToken::from_str("map_Ke"), Some(MtlToken::EmissiveTexture));
    assert_eq!(MtlToken::from_str("map_Bump"), Some(MtlToken::BumpTexture));
    assert_eq!(MtlToken::from_str("bump"), Some(MtlToken::BumpTexture));
    assert_eq!(MtlToken::from_str("norm"), Some(MtlToken::BumpTexture));
    assert_eq!(MtlToken::from_str("map_d"), Some(MtlToken::DisplacementTexture));
    assert_eq!(MtlToken::from_str("decal"), Some(MtlToken::DecalTexture));
    assert_eq!(MtlToken::from_str("refl"), Some(MtlToken::ReflectionTexture));
    assert_eq!(MtlToken::from_str("map_Kn"), None);
    assert_eq!(MtlToken::SpecularHighlightTexture.role(), None);
    assert_eq!(MtlToken::BumpTexture.role(), Some(TextureType::Bump));
    assert_eq!(MtlToken::NewMaterial.role(), None);
}

#[test]
fn texture_roles_by_keyword() {
    assert_eq!(TextureType::from_material_str("map_Ka"), Some(TextureType::Ambient));
    assert_eq!(TextureType::from_material_str("map_Kd"), Some(TextureType::Diffuse));
    assert_eq!(TextureType::from_material_str("map_Ks"), Some(TextureType::Specular));
    assert_eq!(TextureType::from_material_str("map_Ns"), Some(TextureType::SpecularHighlight));
    assert_eq!(TextureType::from_material_str("map_bump"), Some(TextureType::Bump));
    assert_eq!(TextureType::from_material_str("map_d"), Some(TextureType::Displacement));
    assert_eq!(TextureType::from_material_str("decal"), Some(TextureType::Decal));
    assert_eq!(TextureType::from_material_str("refl"), Some(TextureType::Reflection));
    assert_eq!(TextureType::from_material_str("map_Ke"), Some(TextureType::Emissive));
    assert_eq!(TextureType::from_material_str("map_Bump"), None);
    assert_eq!(TextureType::from_material_str(""), None);
}

#[test]
fn default_material() {
    let m = Material::default();
    assert_eq!(m.name, b"default_mat".to_vec());
    assert_eq!(m.ambient_color, Vec3 { x: num(0.4), y: num(0.4), z: num(0.4) });
    assert_eq!(m.diffuse_color, Vec3 { x: num(0.7), y: num(0.7), z: num(0.7) });
    assert_eq!(m.specular_color, Vec3 { x: num(0.1), y: num(0.1), z: num(0.1) });
    assert_eq!(m.specular_exponent, num(32.0));
    assert_eq!(m.opacity, Value::Plain(num(1.0)));
    assert!(m.textures.is_empty());
    let copy = m.duplicate();
    assert_eq!(copy.name, m.name);
    assert_eq!(copy.ambient_color, m.ambient_color);
    let made = Material::new(
        b"x".to_vec(),
        Vec3::zero(),
        m.diffuse_color,
        m.specular_color,
        num(2.0),
        Value::OneMinus(num(0.5)),
        vec![Texture::new(3, TextureType::Decal)],
    );
    assert_eq!(made.name, b"x".to_vec());
    assert_eq!(made.specular_exponent, num(2.0));
    assert_eq!(made.opacity, Value::OneMinus(num(0.5)));
    assert_eq!(made.textures, vec![Texture { id: 3, typ: TextureType::Decal }]);
}
