use open_cad::dialog::NewItemDialog;
use open_cad::overlay::DxfDrawData;
use open_cad::viewer::DxfViewer;

#[test]
fn the_dialog_opens_for_a_target_and_resets_clean() {
    let mut d = NewItemDialog::new();
    assert!(!d.is_open);
    d.begin(true, String::from("/proj/src"));
    assert!(d.is_open);
    assert!(d.is_folder);
    assert!(!d.can_create());
    d.name = String::from("models");
    assert!(d.can_create());
    assert_eq!(d.target_path(), "/proj/src/models");
    d.reset();
    assert!(!d.is_open);
    assert!(d.name.is_empty());
}

#[test]
fn the_viewer_reports_a_load_failure_as_a_parse_error() {
    let mut v = DxfViewer::new();
    v.present(String::from("/proj/broken.dxf"), Err(String::from("bad header")));
    assert!(v.is_open);
    assert_eq!(v.file_path, "/proj/broken.dxf");
    assert_eq!(v.error.as_deref(), Some("DXF parse failed: bad header"));
}

#[test]
fn the_viewer_renders_a_parsed_drawing_as_json() {
    let drawing = dxf::Drawing::new();
    let mut v = DxfViewer::new();
    v.present(String::from("/proj/ok.dxf"), Ok(&drawing));
    assert!(v.is_open);
    assert!(v.error.is_none());
    assert!(!v.json_content.is_empty());
    assert!(v.json_content.contains("{"));
}

#[test]
fn a_successful_rendering_clears_an_earlier_error() {
    let drawing = dxf::Drawing::new();
    let mut v = DxfViewer::new();
    v.present(String::from("/proj/broken.dxf"), Err(String::from("bad header")));
    assert!(v.error.is_some());
    v.present(String::from("/proj/ok.dxf"), Ok(&drawing));
    assert!(v.error.is_none());
    assert!(!v.json_content.is_empty());
    assert_eq!(v.file_path, "/proj/ok.dxf");
}

#[test]
fn clearing_the_overlay_empties_every_bucket() {
    let mut d = DxfDrawData::new();
    d.push_line((
        open_cad::fixed::Vec3Fx { x: 0, y: 0, z: 0 },
        open_cad::fixed::Vec3Fx { x: 1, y: 1, z: 1 },
        open_cad::entity::DisplayColor::White,
    ));
    assert_eq!(d.lines.len(), 1);
    d.clear();
    assert!(d.lines.is_empty());
    assert!(d.circles.is_empty());
    assert!(d.arcs.is_empty());
    assert!(d.polylines.is_empty());
}
