use folish_store::errors::StoreError;
use folish_store::model::{Camera, CanvasState, Layer, Num, Point, Stroke};
use folish_store::store::{
    canvas_file_path, is_project_file, list_canvases, load_canvas, project_extension,
    save_canvas, strip_project_extension,
};

fn num(s: &str) -> Num {
    Num { text: s.to_string() }
}

fn doc() -> CanvasState {
    CanvasState {
        layers: vec![Layer {
            id: "l1".to_string(),
            name: "base".to_string(),
            visible: true,
            locked: false,
            opacity: num("1"),
            stroke_ids: vec!["s1".to_string()],
        }],
        strokes: vec![(
            "s1".to_string(),
            Stroke {
                id: "s1".to_string(),
                points: vec![Point { x: num("0"), y: num("0.5") }],
                color: "#123456".to_string(),
                width: num("2"),
                layer_id: "l1".to_string(),
                timestamp: 1700000000123,
            },
        )],
        camera: Camera { x: num("0"), y: num("0"), zoom: num("1") },
        active_layer_id: "l1".to_string(),
        active_tool: "pen".to_string(),
        active_color: "#123456".to_string(),
        active_width: num("2"),
    }
}

fn empty_doc() -> CanvasState {
    CanvasState {
        layers: vec![],
        strokes: vec![],
        camera: Camera { x: num("0"), y: num("0"), zoom: num("1") },
        active_layer_id: String::new(),
        active_tool: "pen".to_string(),
        active_color: "#000000".to_string(),
        active_width: num("3"),
    }
}

#[test]
fn save_then_load_returns_what_was_saved() {
    let d = doc();
    let (path, bytes) = save_canvas("/tmp/canvases", "mydoc", &d);
    assert_eq!(path, "/tmp/canvases/mydoc.fsk");
    assert_eq!(load_canvas(Some(&bytes)).unwrap(), d);
}

#[test]
fn save_then_load_with_empty_collections() {
    let d = empty_doc();
    let (_, bytes) = save_canvas("/base", "empty", &d);
    assert_eq!(load_canvas(Some(&bytes)).unwrap(), d);
}

#[test]
fn load_missing_file_is_not_found() {
    assert_eq!(load_canvas(None), Err(StoreError::NotFound));
}

#[test]
fn load_corrupt_bytes_is_codec_error() {
    let (_, mut bytes) = save_canvas("/base", "x", &doc());
    bytes.truncate(bytes.len() - 1);
    assert_eq!(load_canvas(Some(&bytes)), Err(StoreError::Codec));
}

#[test]
fn list_sorts_names_and_skips_other_files() {
    let entries = vec!["b.fsk".to_string(), "a.fsk".to_string(), "c.fsk".to_string()];
    let names = list_canvases(&entries);
    assert_eq!(names, vec!["a".to_string(), "b".to_string(), "c".to_string()]);
    let with_noise = vec![
        "b.fsk".to_string(),
        "a.fsk".to_string(),
        "c.fsk".to_string(),
        "notes.txt".to_string(),
    ];
    assert_eq!(list_canvases(&with_noise), names);
}

#[test]
fn list_of_empty_directory_is_empty() {
    assert_eq!(list_canvases(&vec![]), Vec::<String>::new());
}

#[test]
fn extension_rules() {
    assert_eq!(project_extension(), "fsk");
    assert!(is_project_file("x.fsk"));
    assert!(!is_project_file("notes.txt"));
    assert!(!is_project_file("fsk"));
    assert_eq!(strip_project_extension("a.fsk"), "a");
    assert_eq!(strip_project_extension("a.fsk.fsk"), "a.fsk");
    assert_eq!(strip_project_extension("plain"), "plain");
    assert_eq!(canvas_file_path("/base/dir", "doc"), "/base/dir/doc.fsk");
}
