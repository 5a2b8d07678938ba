use bozzard::menu::{game_menu, GamePhase, LabelRole, MenuItem, Shadow};
use bozzard::package::{
    dependency_name, gltf_sources, image_extension, place_resources, resource_list, resource_origin, sources_of,
    GltfDocument, GltfImage, Origin, PackageError, PathPart, Resource,
};

fn texts(items: &[MenuItem]) -> Vec<(String, LabelRole, Option<Shadow>)> {
    items.iter().map(|m| (m.text.clone(), m.role, m.shadow)).collect()
}

#[test]
fn ready_menu_shows_title_instructions_and_buttons() {
    let buttons = vec!["Start".to_string()];
    let items = game_menu(GamePhase::Ready, "Flap Woods", "Space to flap", "ignored", &buttons);
    assert_eq!(items.len(), 15);
    let t = texts(&items);
    assert_eq!(t[0], ("Flap Woods".into(), LabelRole::Title, Some(Shadow::Left)));
    assert_eq!(t[3], ("Flap Woods".into(), LabelRole::Title, Some(Shadow::Down)));
    assert_eq!(t[4], ("Flap Woods".into(), LabelRole::Title, None));
    assert_eq!(t[9], ("Space to flap".into(), LabelRole::Message, None));
    assert_eq!(t[14], ("Start".into(), LabelRole::Button(0), None));
}

#[test]
fn paused_and_game_over_titles() {
    let none: Vec<String> = vec![];
    let paused = game_menu(GamePhase::Paused, "T", "I", "Resume with Escape", &none);
    assert_eq!(paused[4].text, "Paused");
    assert_eq!(paused[9].text, "Resume with Escape");
    let over = game_menu(GamePhase::GameOver, "T", "I", "Score: 3", &none);
    assert_eq!(over[4].text, "Game over");
    assert_eq!(over[9].text, "Score: 3");
}

#[test]
fn playing_and_quit_show_only_buttons() {
    let buttons = vec!["Pause".to_string(), "Quit".to_string()];
    for phase in [GamePhase::Playing, GamePhase::Quit] {
        let items = game_menu(phase, "T", "I", "M", &buttons);
        assert_eq!(items.len(), 10);
        assert_eq!(items[4].role, LabelRole::Button(0));
        assert_eq!(items[9].text, "Quit");
        assert_eq!(items[9].role, LabelRole::Button(1));
    }
    assert!(game_menu(GamePhase::Playing, "T", "I", "M", &vec![]).is_empty());
}

#[test]
fn dependency_names_stay_inside_the_export() {
    let normal = vec![PathPart::Normal, PathPart::Normal];
    assert_eq!(dependency_name("textures\\wood.png", &normal), Ok("textures/wood.png".to_string()));
    assert_eq!(dependency_name("a\\b\\c", &vec![PathPart::Normal; 3]), Ok("a/b/c".to_string()));
    assert_eq!(dependency_name("./x.bin", &vec![PathPart::CurDir, PathPart::Normal]), Ok("./x.bin".to_string()));
    assert_eq!(dependency_name("../x.bin", &vec![PathPart::ParentDir, PathPart::Normal]), Err(PackageError::Escapes));
    assert_eq!(dependency_name("/x.bin", &vec![PathPart::RootDir, PathPart::Normal]), Err(PackageError::Escapes));
}

#[test]
fn image_extensions() {
    assert_eq!(image_extension("image/jpeg", "photo"), "jpg");
    assert_eq!(image_extension("image/png", "data:image/jpeg;base64,AAAA"), "jpg");
    assert_eq!(image_extension("image/png", "photo.jpg"), "png");
    assert_eq!(image_extension("", "data:image/jpeg"), "png");
}

#[test]
fn shared_resources_get_one_file() {
    let res = resource_list(
        &vec![None, Some("shared.bin".into()), Some("shared.bin".into())],
        &vec![Some(("tex.png".into(), "image/png".into())), None, Some(("shared.bin".into(), "image/jpeg".into()))],
    );
    assert_eq!(
        res,
        vec![
            Resource::Buffer { index: 0, key: "glb:bin".into(), chunk: true },
            Resource::Buffer { index: 1, key: "shared.bin".into(), chunk: false },
            Resource::Buffer { index: 2, key: "shared.bin".into(), chunk: false },
            Resource::Image { index: 0, key: "tex.png".into(), extension: "png".into() },
            Resource::Image { index: 2, key: "shared.bin".into(), extension: "jpg".into() },
        ]
    );
    let placed = place_resources(&res);
    let names: Vec<(String, bool)> = placed.into_iter().map(|p| (p.name, p.fresh)).collect();
    assert_eq!(
        names,
        vec![
            ("buffer-0.bin".into(), true),
            ("buffer-1.bin".into(), true),
            ("buffer-1.bin".into(), false),
            ("image-0.png".into(), true),
            ("buffer-1.bin".into(), false),
        ]
    );
}

#[test]
fn invalid_gltf_is_refused() {
    assert_eq!(gltf_sources(b"not a model").err(), Some(PackageError::InvalidGltf));
    let doc = br#"{"asset":{"version":"2.0"},"buffers":[{"byteLength":4,"uri":"data.bin"}],"images":[{"uri":"a.jpg"}]}"#;
    let sources = gltf_sources(doc).ok().unwrap();
    assert_eq!(sources.buffers, vec![Some("data.bin".to_string())]);
    assert_eq!(sources.images, vec![Some(("a.jpg".to_string(), None))]);
    assert_eq!(sources.blob, None);
}

#[test]
fn gltf_sources_read_views_mime_types_and_uris() {
    let doc = br#"{"asset":{"version":"2.0"},
        "buffers":[{"byteLength":8,"uri":"data:application/octet-stream;base64,AAAAAAAAAAA="},{"byteLength":4,"uri":"mesh.bin"}],
        "bufferViews":[{"buffer":0,"byteLength":4}],
        "images":[{"bufferView":0,"mimeType":"image/png"},{"uri":"t.png","mimeType":"image/jpeg"}]}"#;
    let sources = gltf_sources(doc).ok().unwrap();
    assert_eq!(
        sources.buffers,
        vec![Some("data:application/octet-stream;base64,AAAAAAAAAAA=".to_string()), Some("mesh.bin".to_string())]
    );
    assert_eq!(sources.images, vec![None, Some(("t.png".to_string(), Some("image/jpeg".to_string())))]);
}

#[test]
fn images_without_a_source_are_refused() {
    // A buffer-view image must declare its MIME type.
    let doc = br#"{"asset":{"version":"2.0"},"buffers":[{"byteLength":4,"uri":"b.bin"}],
        "bufferViews":[{"buffer":0,"byteLength":4}],"images":[{"bufferView":0}]}"#;
    assert_eq!(gltf_sources(doc).err(), Some(PackageError::InvalidGltf));
    // An image needs a URI or a buffer view.
    let doc = br#"{"asset":{"version":"2.0"},"images":[{"name":"nothing"}]}"#;
    assert_eq!(gltf_sources(doc).err(), Some(PackageError::InvalidGltf));
    let image = |uri: Option<&str>, view: Option<usize>, mime: Option<&str>| GltfImage {
        uri: uri.map(String::from),
        view,
        mime: mime.map(String::from),
    };
    let document = |images| GltfDocument { buffers: vec![None], images, blob: Some(vec![1, 2, 3]) };
    assert_eq!(sources_of(document(vec![image(None, Some(0), None)])).err(), Some(PackageError::InvalidGltf));
    assert_eq!(sources_of(document(vec![image(None, None, Some("image/png"))])).err(), Some(PackageError::InvalidGltf));
    let sources = sources_of(document(vec![image(Some("x.png"), Some(0), Some("image/png")), image(Some("y"), None, None)]))
        .ok()
        .unwrap();
    assert_eq!(sources.buffers, vec![None]);
    assert_eq!(sources.images, vec![None, Some(("y".to_string(), None))]);
    assert_eq!(sources.blob, Some(vec![1, 2, 3]));
}

#[test]
fn glb_headers_shorter_than_themselves_are_refused() {
    let mut glb = b"glTF".to_vec();
    glb.extend_from_slice(&2u32.to_le_bytes());
    glb.extend_from_slice(&4u32.to_le_bytes());
    glb.extend_from_slice(&[0; 16]);
    assert_eq!(gltf_sources(&glb).err(), Some(PackageError::InvalidGltf));
    // A declared length that exceeds the data is refused by the reader itself.
    let mut glb = b"glTF".to_vec();
    glb.extend_from_slice(&2u32.to_le_bytes());
    glb.extend_from_slice(&400u32.to_le_bytes());
    assert_eq!(gltf_sources(&glb).err(), Some(PackageError::InvalidGltf));
}

#[test]
fn resource_origins() {
    let bin = Resource::Buffer { index: 0, key: "glb:bin".into(), chunk: true };
    assert_eq!(resource_origin(&bin), Origin::Blob);
    // A buffer whose URI happens to read `glb:bin` is still a file.
    let named = Resource::Buffer { index: 3, key: "glb:bin".into(), chunk: false };
    assert_eq!(resource_origin(&named), Origin::File);
    let data = Resource::Image { index: 1, key: "data:image/png;base64,AA".into(), extension: "png".into() };
    assert_eq!(resource_origin(&data), Origin::DataUri);
    let file = Resource::Buffer { index: 2, key: "mesh.bin".into(), chunk: false };
    assert_eq!(resource_origin(&file), Origin::File);
}
