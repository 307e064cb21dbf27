use threedobs::importer::ImportError;
use threedobs::log::{Log, LogLevel, LogMessage};
use threedobs::mesh::{push_fan, Normal, TexCoords, Vertex};
use threedobs::scalar::Vec3;
use threedobs::utils::{
    import_models_from_paths, select_format, ImportDecision, PathEntry, SupportedFileExtensions,
};

#[test]
fn formats_by_extension() {
    assert_eq!(SupportedFileExtensions::from_str("obj"), Some(SupportedFileExtensions::OBJ));
    assert_eq!(SupportedFileExtensions::from_str("OBJ"), Some(SupportedFileExtensions::OBJ));
    assert_eq!(SupportedFileExtensions::from_str("Stl"), Some(SupportedFileExtensions::STL));
    assert_eq!(SupportedFileExtensions::from_str("dAe"), Some(SupportedFileExtensions::COLLADA));
    assert_eq!(SupportedFileExtensions::from_str("fbx"), None);
    assert_eq!(SupportedFileExtensions::from_str(""), None);
    assert_eq!(SupportedFileExtensions::from_str("obj "), None);
    assert_eq!(select_format(Some("STL")), Ok(SupportedFileExtensions::STL));
    assert_eq!(select_format(Some("png")), Err(ImportError::UnsupportedFormat));
    assert_eq!(select_format(None), Err(ImportError::UnsupportedFormat));
}

#[test]
fn paths_that_are_imported_or_passed_over() {
    let entry = |is_dir: bool, e: Option<&str>| PathEntry { is_dir, extension: e.map(|s| s.to_string()) };
    let paths = vec![
        entry(true, Some("obj")),
        entry(false, None),
        entry(false, Some("txt")),
        entry(false, Some("DAE")),
        entry(false, Some("stl")),
    ];
    assert_eq!(
        import_models_from_paths(&paths),
        vec![
            ImportDecision::SkipDirectory,
            ImportDecision::SkipNoExtension,
            ImportDecision::SkipUnsupported,
            ImportDecision::Import(SupportedFileExtensions::COLLADA),
            ImportDecision::Import(SupportedFileExtensions::STL),
        ]
    );
    assert!(import_models_from_paths(&vec![]).is_empty());
    assert_eq!(paths[3].decide(), ImportDecision::Import(SupportedFileExtensions::COLLADA));
}

#[test]
fn fans_of_polygons() {
    let mut indices = vec![9];
    push_fan(&mut indices, 4, 3);
    assert_eq!(indices, vec![9, 4, 5, 6]);
    let mut indices = Vec::new();
    push_fan(&mut indices, 0, 6);
    assert_eq!(indices.len(), 3 * (6 - 2));
    assert_eq!(indices, vec![0, 1, 2, 0, 2, 3, 0, 3, 4, 0, 4, 5]);
    let mut indices = Vec::new();
    push_fan(&mut indices, u32::MAX - 3, 4);
    assert_eq!(indices, vec![u32::MAX - 3, u32::MAX - 2, u32::MAX - 1, u32::MAX - 3, u32::MAX - 1, u32::MAX]);
}

#[test]
fn vertex_holds_its_attributes() {
    let v = Vertex::new(Vec3::zero(), Normal::Given(Vec3::zero()), TexCoords::zero());
    assert_eq!(v.position, Vec3::zero());
    assert_eq!(v.normal, Normal::Given(Vec3::zero()));
    assert_eq!(v.tex_coords, TexCoords::zero());
}

#[test]
fn console_log_writes_the_level_in_front() {
    let m = LogMessage::new(LogLevel::Warning, "low memory");
    assert_eq!(m.message, "[WARNING]: low memory");
    assert_eq!(m.level, LogLevel::Warning);
    assert_eq!(LogMessage::new(LogLevel::Debug, "").message, "[DEBUG]: ");
    assert_eq!(LogMessage::new(LogLevel::Info, "x").message, "[INFO]: x");
    assert_eq!(LogMessage::new(LogLevel::Error, "y").message, "[ERROR]: y");
    let mut log = Log::default();
    assert!(log.history.is_empty());
    log.log("one", LogLevel::Info);
    log.log("two", LogLevel::Error);
    assert_eq!(log.history.len(), 2);
    assert_eq!(log.history[0].message, "[INFO]: one");
    assert_eq!(log.history[1].message, "[ERROR]: two");
    assert_eq!(log.history[1].level, LogLevel::Error);
    log.clear();
    assert!(log.history.is_empty());
}

