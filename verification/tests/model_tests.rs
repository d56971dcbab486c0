use folish_store::encode::encode_canvas;
use folish_store::errors::StoreError;
use folish_store::model::{Camera, CanvasState, Layer, Num, Point, Stroke};
use folish_store::parse::decode_canvas;
use folish_store::text::is_number_token;

fn num(s: &str) -> Num {
    Num { text: s.to_string() }
}

fn empty_doc() -> CanvasState {
    CanvasState {
        layers: vec![],
        strokes: vec![],
        camera: Camera { x: num("0"), y: num("0"), zoom: num("1") },
        active_layer_id: String::new(),
        active_tool: "pen".to_string(),
        active_color: "#000000".to_string(),
        active_width: num("3"),
    }
}

fn rich_doc() -> CanvasState {
    let stroke = Stroke {
        id: "s1".to_string(),
        points: vec![
            Point { x: num("1.5"), y: num("-2.25") },
            Point { x: num("3e2"), y: num("0.125") },
        ],
        color: "#ff0000".to_string(),
        width: num("2.50"),
        layer_id: "l1".to_string(),
        timestamp: -1700000000123,
    };
    CanvasState {
        layers: vec![Layer {
            id: "l1".to_string(),
            name: "quote \" back \\ slash\nnewline é€".to_string(),
            visible: true,
            locked: false,
            opacity: num("0.75"),
            stroke_ids: vec!["s1".to_string()],
        }],
        strokes: vec![("s1".to_string(), stroke)],
        camera: Camera { x: num("10"), y: num("-20"), zoom: num("1.25") },
        active_layer_id: "l1".to_string(),
        active_tool: "brush".to_string(),
        active_color: "#00ff00".to_string(),
        active_width: num("4"),
    }
}

#[test]
fn encode_empty_doc_exact_text() {
    let text = encode_canvas(&empty_doc());
    assert_eq!(
        text,
        "{\"layers\":[],\"strokes\":{},\"camera\":{\"x\":0,\"y\":0,\"zoom\":1},\
         \"activeLayerId\":\"\",\"activeTool\":\"pen\",\"activeColor\":\"#000000\",\
         \"activeWidth\":3"
            .to_owned()
            + "}"
    );
}

#[test]
fn decode_undoes_encode_empty() {
    let d = empty_doc();
    assert_eq!(decode_canvas(&encode_canvas(&d)).unwrap(), d);
}

#[test]
fn decode_undoes_encode_rich() {
    let d = rich_doc();
    assert_eq!(decode_canvas(&encode_canvas(&d)).unwrap(), d);
}

#[test]
fn missing_camera_is_format_error() {
    let text = "{\"layers\":[],\"strokes\":{},\"activeLayerId\":\"a\",\"activeTool\":\"pen\",\"activeColor\":\"#fff\",\"activeWidth\":2}";
    assert_eq!(decode_canvas(text), Err(StoreError::Format));
}

#[test]
fn unknown_fields_are_ignored() {
    let text = "{\"layers\":[],\"strokes\":{},\"extra\":{\"a\":[1,2,\"x\"]},\"camera\":{\"x\":0,\"y\":0,\"zoom\":1},\"activeLayerId\":\"\",\"activeTool\":\"pen\",\"activeColor\":\"#000000\",\"activeWidth\":3}";
    let d = decode_canvas(text).unwrap();
    assert_eq!(d, empty_doc());
}

#[test]
fn reordered_fields_decode() {
    let text = "{\"activeWidth\":3,\"camera\":{\"zoom\":1,\"x\":0,\"y\":0},\"layers\":[],\"strokes\":{},\"activeLayerId\":\"\",\"activeTool\":\"pen\",\"activeColor\":\"#000000\"}";
    let d = decode_canvas(text).unwrap();
    assert_eq!(d, empty_doc());
}

#[test]
fn duplicate_field_is_format_error() {
    let text = "{\"layers\":[],\"layers\":[],\"strokes\":{},\"camera\":{\"x\":0,\"y\":0,\"zoom\":1},\"activeLayerId\":\"\",\"activeTool\":\"pen\",\"activeColor\":\"#000000\",\"activeWidth\":3}";
    assert_eq!(decode_canvas(text), Err(StoreError::Format));
}

#[test]
fn trailing_garbage_is_format_error() {
    let mut text = encode_canvas(&empty_doc());
    text.push('x');
    assert_eq!(decode_canvas(&text), Err(StoreError::Format));
}

#[test]
fn number_tokens_are_preserved_verbatim() {
    let mut d = empty_doc();
    d.active_width = num("2.50");
    let back = decode_canvas(&encode_canvas(&d)).unwrap();
    assert_eq!(back.active_width.text, "2.50");
}

#[test]
fn unicode_escape_decodes() {
    let text = "{\"layers\":[],\"strokes\":{},\"camera\":{\"x\":0,\"y\":0,\"zoom\":1},\"activeLayerId\":\"\",\"activeTool\":\"\\u0041\\n\\t\",\"activeColor\":\"#000000\",\"activeWidth\":3}";
    let d = decode_canvas(text).unwrap();
    assert_eq!(d.active_tool, "A\n\t");
}

#[test]
fn huge_timestamp_is_format_error() {
    let text = "{\"layers\":[],\"strokes\":{\"s\":{\"id\":\"s\",\"points\":[],\"color\":\"c\",\"width\":1,\"layerId\":\"l\",\"timestamp\":99999999999999999999}},\"camera\":{\"x\":0,\"y\":0,\"zoom\":1},\"activeLayerId\":\"\",\"activeTool\":\"p\",\"activeColor\":\"c\",\"activeWidth\":3}";
    assert_eq!(decode_canvas(text), Err(StoreError::Format));
}

#[test]
fn number_token_grammar() {
    assert!(is_number_token("0"));
    assert!(is_number_token("-12.5e-3"));
    assert!(is_number_token("1.5"));
    assert!(!is_number_token("01"));
    assert!(!is_number_token("--1"));
    assert!(!is_number_token(""));
    assert!(!is_number_token("1."));
    assert!(!is_number_token("+1"));
}

#[test]
fn error_messages_name_the_stage() {
    assert!(StoreError::Codec.message().contains("stream"));
    assert!(StoreError::NotFound.message().contains("not found"));
}
