//! The canvas document model: the data shape that one saved drawing takes.
//! Numeric drawing quantities (coordinates, widths, opacity, zoom) are held
//! as their number tokens — the exact text that stands for them in the
//! document — so a document comes back from a save and load cycle with every
//! value unchanged, token for token.
use crate::text::num_token;
use vstd::prelude::*;

verus! {

/// A numeric value, held as its number token. The token must satisfy the
/// number grammar (`num_token`) for the document to be well formed.
#[derive(Debug, Clone, PartialEq)]
pub struct Num {
    pub text: String,
}

impl View for Num {
    type V = Seq<char>;

    open spec fn view(&self) -> Seq<char> {
        self.text@
    }
}

/// An immutable coordinate pair.
#[derive(Debug, Clone, PartialEq)]
pub struct Point {
    pub x: Num,
    pub y: Num,
}

/// The mathematical value of a point: its two number tokens.
pub ghost struct PointV {
    pub x: Seq<char>,
    pub y: Seq<char>,
}

impl View for Point {
    type V = PointV;

    open spec fn view(&self) -> PointV {
        PointV { x: self.x@, y: self.y@ }
    }
}

/// One freehand mark: an ordered sequence of points, drawn in order.
#[derive(Debug, Clone, PartialEq)]
pub struct Stroke {
    pub id: String,
    pub points: Vec<Point>,
    pub color: String,
    pub width: Num,
    pub layer_id: String,
    pub timestamp: i64,
}

pub ghost struct StrokeV {
    pub id: Seq<char>,
    pub points: Seq<PointV>,
    pub color: Seq<char>,
    pub width: Seq<char>,
    pub layer_id: Seq<char>,
    pub timestamp: int,
}

impl View for Stroke {
    type V = StrokeV;

    open spec fn view(&self) -> StrokeV {
        StrokeV {
            id: self.id@,
            points: self.points@.map_values(|p: Point| p@),
            color: self.color@,
            width: self.width@,
            layer_id: self.layer_id@,
            timestamp: self.timestamp as int,
        }
    }
}

/// An ordered, independently visible and lockable group of strokes. The
/// order of `stroke_ids` is the paint order and is meaningful.
#[derive(Debug, Clone, PartialEq)]
pub struct Layer {
    pub id: String,
    pub name: String,
    pub visible: bool,
    pub locked: bool,
    pub opacity: Num,
    pub stroke_ids: Vec<String>,
}

pub ghost struct LayerV {
    pub id: Seq<char>,
    pub name: Seq<char>,
    pub visible: bool,
    pub locked: bool,
    pub opacity: Seq<char>,
    pub stroke_ids: Seq<Seq<char>>,
}

impl View for Layer {
    type V = LayerV;

    open spec fn view(&self) -> LayerV {
        LayerV {
            id: self.id@,
            name: self.name@,
            visible: self.visible,
            locked: self.locked,
            opacity: self.opacity@,
            stroke_ids: self.stroke_ids@.map_values(|s: String| s@),
        }
    }
}

/// The viewport: position and zoom.
#[derive(Debug, Clone, PartialEq)]
pub struct Camera {
    pub x: Num,
    pub y: Num,
    pub zoom: Num,
}

pub ghost struct CameraV {
    pub x: Seq<char>,
    pub y: Seq<char>,
    pub zoom: Seq<char>,
}

impl View for Camera {
    type V = CameraV;

    open spec fn view(&self) -> CameraV {
        CameraV { x: self.x@, y: self.y@, zoom: self.zoom@ }
    }
}

/// The persisted document: the ordered layers, the mapping from stroke id to
/// stroke (held as key-stroke pairs; key uniqueness is the map invariant the
/// editing layer maintains, and iteration order carries no meaning), the
/// camera, and the active tool state.
#[derive(Debug, Clone, PartialEq)]
pub struct CanvasState {
    pub layers: Vec<Layer>,
    pub strokes: Vec<(String, Stroke)>,
    pub camera: Camera,
    pub active_layer_id: String,
    pub active_tool: String,
    pub active_color: String,
    pub active_width: Num,
}

pub ghost struct CanvasV {
    pub layers: Seq<LayerV>,
    pub strokes: Seq<(Seq<char>, StrokeV)>,
    pub camera: CameraV,
    pub active_layer_id: Seq<char>,
    pub active_tool: Seq<char>,
    pub active_color: Seq<char>,
    pub active_width: Seq<char>,
}

impl View for CanvasState {
    type V = CanvasV;

    open spec fn view(&self) -> CanvasV {
        CanvasV {
            layers: self.layers@.map_values(|l: Layer| l@),
            strokes: self.strokes@.map_values(|kv: (String, Stroke)| (kv.0@, kv.1@)),
            camera: self.camera@,
            active_layer_id: self.active_layer_id@,
            active_tool: self.active_tool@,
            active_color: self.active_color@,
            active_width: self.active_width@,
        }
    }
}

/// Well-formedness of a point: both coordinates are number tokens.
pub open spec fn point_wf(p: PointV) -> bool {
    num_token(p.x) && num_token(p.y)
}

/// The timestamp must fit the signed 64-bit integer the model holds.
pub open spec fn timestamp_wf(t: int) -> bool {
    -9223372036854775808 <= t <= 9223372036854775807
}

/// Well-formedness of a stroke: its width is a number token, its timestamp
/// fits, and all its points are well formed.
pub open spec fn stroke_wf(s: StrokeV) -> bool {
    &&& num_token(s.width)
    &&& timestamp_wf(s.timestamp)
    &&& forall|i: int| 0 <= i < s.points.len() ==> point_wf(#[trigger] s.points[i])
}

/// Well-formedness of a layer: its opacity is a number token.
pub open spec fn layer_wf(l: LayerV) -> bool {
    num_token(l.opacity)
}

/// Well-formedness of the camera: all three fields are number tokens.
pub open spec fn camera_wf(c: CameraV) -> bool {
    num_token(c.x) && num_token(c.y) && num_token(c.zoom)
}

/// Well-formedness of a whole document: every numeric field holds a number
/// token, every timestamp fits its integer type, and the stroke mapping's
/// keys are unique — the map invariant the editing layer maintains. A
/// document built from the executable model types satisfies this whenever
/// its `Num` fields hold well-formed tokens and its stroke ids differ.
pub open spec fn canvas_wf(c: CanvasV) -> bool {
    &&& forall|i: int| 0 <= i < c.layers.len() ==> layer_wf(#[trigger] c.layers[i])
    &&& forall|i: int| 0 <= i < c.strokes.len() ==> stroke_wf(#[trigger] c.strokes[i].1)
    &&& forall|i: int, j: int|
        0 <= i < j < c.strokes.len() ==> (#[trigger] c.strokes[i]).0 != (#[trigger] c.strokes[j]).0
    &&& camera_wf(c.camera)
    &&& num_token(c.active_width)
}

} // verus!
