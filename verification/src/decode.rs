//! The decoder of the document text. The spec functions here define, step
//! by step, what text the document grammar accepts and what value it
//! denotes; the executable parser returns exactly that value. Field order
//! inside an object is free, unknown fields are skipped for forward
//! compatibility, and a missing or duplicated required field is an error.
use crate::errors::StoreError;
use crate::model::Camera;
use crate::model::CameraV;
use crate::model::CanvasState;
use crate::model::CanvasV;
use crate::model::Layer;
use crate::model::LayerV;
use crate::model::Num;
use crate::model::Point;
use crate::model::PointV;
use crate::model::Stroke;
use crate::model::StrokeV;
use crate::model::timestamp_wf;
use crate::encode::key_active_color;
use crate::encode::key_active_layer_id;
use crate::encode::key_active_tool;
use crate::encode::key_active_width;
use crate::encode::key_camera;
use crate::encode::key_color;
use crate::encode::key_id;
use crate::encode::key_layer_id;
use crate::encode::key_layers;
use crate::encode::key_locked;
use crate::encode::key_name;
use crate::encode::key_opacity;
use crate::encode::key_points;
use crate::encode::key_stroke_ids;
use crate::encode::key_strokes;
use crate::encode::key_timestamp;
use crate::encode::key_visible;
use crate::encode::key_width;
use crate::encode::key_x;
use crate::encode::key_y;
use crate::encode::key_zoom;
use crate::text::chars_to_string;
use crate::text::digit_val;
use crate::text::digits_end;
use crate::text::hex_val;
use crate::text::int_token;
use crate::text::is_digit;
use crate::text::is_num_char;
use crate::text::lemma_digits_end;
use crate::text::lemma_num_chars_end;
use crate::text::num_chars_end;
use crate::text::num_token;
use crate::text::str_chars;
use vstd::prelude::*;

verus! {

broadcast use vstd::utf8::char_u32_cast;

use vstd::string::StringExecFns;
use vstd::utf8::is_scalar;

/// A quoted string value: its unescaped characters and the position after
/// the closing quote.
pub open spec fn sp_string(t: Seq<char>, i: int) -> Option<(Seq<char>, int)> {
    if 0 <= i && i < t.len() && t[i] == '"' {
        sp_str_chars(t, i + 1, Seq::empty())
    } else {
        None
    }
}

pub open spec fn sp_str_chars(t: Seq<char>, i: int, acc: Seq<char>) -> Option<(Seq<char>, int)>
    decreases t.len() - i when 0 <= i <= t.len()
{
    if i >= t.len() {
        None
    } else if t[i] == '"' {
        Some((acc, i + 1))
    } else if t[i] == '\\' {
        if i + 1 >= t.len() {
            None
        } else {
            let e = t[i + 1];
            if e == '"' {
                sp_str_chars(t, i + 2, acc.push('"'))
            } else if e == '\\' {
                sp_str_chars(t, i + 2, acc.push('\\'))
            } else if e == '/' {
                sp_str_chars(t, i + 2, acc.push('/'))
            } else if e == 'b' {
                sp_str_chars(t, i + 2, acc.push('\u{8}'))
            } else if e == 'f' {
                sp_str_chars(t, i + 2, acc.push('\u{c}'))
            } else if e == 'n' {
                sp_str_chars(t, i + 2, acc.push('\n'))
            } else if e == 'r' {
                sp_str_chars(t, i + 2, acc.push('\r'))
            } else if e == 't' {
                sp_str_chars(t, i + 2, acc.push('\t'))
            } else if e == 'u' {
                if i + 5 >= t.len() {
                    None
                } else {
                    let v = hex_val(t[i + 2]) * 4096 + hex_val(t[i + 3]) * 256 + hex_val(
                        t[i + 4],
                    ) * 16 + hex_val(t[i + 5]);
                    if hex_val(t[i + 2]) >= 0 && hex_val(t[i + 3]) >= 0 && hex_val(t[i + 4]) >= 0
                        && hex_val(t[i + 5]) >= 0 && is_scalar(v as u32) {
                        sp_str_chars(t, i + 6, acc.push((v as u32) as char))
                    } else {
                        None
                    }
                }
            } else {
                None
            }
        }
    } else {
        sp_str_chars(t, i + 1, acc.push(t[i]))
    }
}

/// A number value: its token and the position after it.
pub open spec fn sp_num(t: Seq<char>, i: int) -> Option<(Seq<char>, int)> {
    if 0 <= i <= t.len() {
        let j = num_chars_end(t, i);
        if i < j && num_token(t.subrange(i, j)) {
            Some((t.subrange(i, j), j))
        } else {
            None
        }
    } else {
        None
    }
}

/// The value of a run of decimal digits, most significant first.
pub open spec fn dec_val(s: Seq<char>) -> int
    decreases s.len(),
{
    if s.len() == 0 {
        0
    } else {
        dec_val(s.drop_last()) * 10 + digit_val(s.last())
    }
}

/// The value of an integer token.
pub open spec fn int_val(tok: Seq<char>) -> int {
    if tok.len() > 0 && tok[0] == '-' {
        -dec_val(tok.skip(1))
    } else {
        dec_val(tok)
    }
}

/// An integer value: the token must satisfy the integer grammar and its
/// value must fit the timestamp type.
pub open spec fn sp_int(t: Seq<char>, i: int) -> Option<(int, int)> {
    if 0 <= i <= t.len() {
        let j = num_chars_end(t, i);
        let tok = t.subrange(i, j);
        if i < j && int_token(tok) && timestamp_wf(int_val(tok)) {
            Some((int_val(tok), j))
        } else {
            None
        }
    } else {
        None
    }
}

/// A boolean value.
pub open spec fn sp_bool(t: Seq<char>, i: int) -> Option<(bool, int)> {
    if 0 <= i && i + 3 < t.len() && t[i] == 't' && t[i + 1] == 'r' && t[i + 2] == 'u' && t[i + 3]
        == 'e' {
        Some((true, i + 4))
    } else if 0 <= i && i + 4 < t.len() && t[i] == 'f' && t[i + 1] == 'a' && t[i + 2] == 'l' && t[i
        + 3] == 's' && t[i + 4] == 'e' {
        Some((false, i + 5))
    } else {
        None
    }
}

/// Skipping an unknown field's value: brackets and braces are matched,
/// strings are passed over with their escapes, and the skip ends before the
/// first comma or closer at nesting depth zero. The value is not otherwise
/// validated.
pub open spec fn sp_skip(t: Seq<char>, i: int, depth: int, instr: bool, esc: bool) -> Option<int>
    decreases t.len() - i when 0 <= i <= t.len()
{
    if instr {
        if i >= t.len() {
            None
        } else if esc {
            sp_skip(t, i + 1, depth, true, false)
        } else if t[i] == '\\' {
            sp_skip(t, i + 1, depth, true, true)
        } else if t[i] == '"' {
            sp_skip(t, i + 1, depth, false, false)
        } else {
            sp_skip(t, i + 1, depth, true, false)
        }
    } else if depth == 0 && (i >= t.len() || t[i] == ',' || t[i] == ']' || t[i] == '}') {
        Some(i)
    } else if i >= t.len() {
        None
    } else if t[i] == '"' {
        sp_skip(t, i + 1, depth, true, false)
    } else if t[i] == '{' || t[i] == '[' {
        sp_skip(t, i + 1, depth + 1, false, false)
    } else if t[i] == '}' || t[i] == ']' {
        sp_skip(t, i + 1, depth - 1, false, false)
    } else {
        sp_skip(t, i + 1, depth, false, false)
    }
}

pub open spec fn sp_skip_value(t: Seq<char>, i: int) -> Option<int> {
    if 0 <= i && i < t.len() && t[i] != ',' && t[i] != ']' && t[i] != '}' {
        sp_skip(t, i, 0, false, false)
    } else {
        None
    }
}

pub open spec fn sp_point(t: Seq<char>, i: int) -> Option<(PointV, int)> {
    if 0 <= i && i + 1 < t.len() && t[i] == '{' {
        if t[i + 1] == '}' {
            None
        } else {
            sp_point_fields(t, i + 1, None, None)
        }
    } else {
        None
    }
}

pub open spec fn sp_point_fields(
    t: Seq<char>,
    i: int,
    x: Option<Seq<char>>,
    y: Option<Seq<char>>,
) -> Option<(PointV, int)>
    decreases t.len() - i, 1int when 0 <= i <= t.len()
{
    match sp_string(t, i) {
        None => None,
        Some((k, j)) => if j <= i || j >= t.len() || t[j] != ':' {
            None
        } else if k == key_x() {
            if x is Some {
                None
            } else {
                match sp_num(t, j + 1) {
                    None => None,
                    Some((v, m)) => if m <= j || m > t.len() {
                        None
                    } else {
                        sp_point_next(t, m, Some(v), y)
                    },
                }
            }
        } else if k == key_y() {
            if y is Some {
                None
            } else {
                match sp_num(t, j + 1) {
                    None => None,
                    Some((v, m)) => if m <= j || m > t.len() {
                        None
                    } else {
                        sp_point_next(t, m, x, Some(v))
                    },
                }
            }
        } else {
            match sp_skip_value(t, j + 1) {
                None => None,
                Some(m) => if m <= j || m > t.len() {
                    None
                } else {
                    sp_point_next(t, m, x, y)
                },
            }
        },
    }
}

pub open spec fn sp_point_next(
    t: Seq<char>,
    m: int,
    x: Option<Seq<char>>,
    y: Option<Seq<char>>,
) -> Option<(PointV, int)>
    decreases t.len() - m, 0int when 0 <= m <= t.len()
{
    if m >= t.len() {
        None
    } else if t[m] == ',' {
        sp_point_fields(t, m + 1, x, y)
    } else if t[m] == '}' {
        if x is Some && y is Some {
            Some((PointV { x: x->0, y: y->0 }, m + 1))
        } else {
            None
        }
    } else {
        None
    }
}

pub open spec fn sp_camera(t: Seq<char>, i: int) -> Option<(CameraV, int)> {
    if 0 <= i && i + 1 < t.len() && t[i] == '{' {
        if t[i + 1] == '}' {
            None
        } else {
            sp_camera_fields(t, i + 1, None, None, None)
        }
    } else {
        None
    }
}

pub open spec fn sp_camera_fields(
    t: Seq<char>,
    i: int,
    x: Option<Seq<char>>,
    y: Option<Seq<char>>,
    zoom: Option<Seq<char>>,
) -> Option<(CameraV, int)>
    decreases t.len() - i, 1int when 0 <= i <= t.len()
{
    match sp_string(t, i) {
        None => None,
        Some((k, j)) => if j <= i || j >= t.len() || t[j] != ':' {
            None
        } else if k == key_x() {
            if x is Some {
                None
            } else {
                match sp_num(t, j + 1) {
                    None => None,
                    Some((v, m)) => if m <= j || m > t.len() {
                        None
                    } else {
                        sp_camera_next(t, m, Some(v), y, zoom)
                    },
                }
            }
        } else if k == key_y() {
            if y is Some {
                None
            } else {
                match sp_num(t, j + 1) {
                    None => None,
                    Some((v, m)) => if m <= j || m > t.len() {
                        None
                    } else {
                        sp_camera_next(t, m, x, Some(v), zoom)
                    },
                }
            }
        } else if k == key_zoom() {
            if zoom is Some {
                None
            } else {
                match sp_num(t, j + 1) {
                    None => None,
                    Some((v, m)) => if m <= j || m > t.len() {
                        None
                    } else {
                        sp_camera_next(t, m, x, y, Some(v))
                    },
                }
            }
        } else {
            match sp_skip_value(t, j + 1) {
                None => None,
                Some(m) => if m <= j || m > t.len() {
                    None
                } else {
                    sp_camera_next(t, m, x, y, zoom)
                },
            }
        },
    }
}

pub open spec fn sp_camera_next(
    t: Seq<char>,
    m: int,
    x: Option<Seq<char>>,
    y: Option<Seq<char>>,
    zoom: Option<Seq<char>>,
) -> Option<(CameraV, int)>
    decreases t.len() - m, 0int when 0 <= m <= t.len()
{
    if m >= t.len() {
        None
    } else if t[m] == ',' {
        sp_camera_fields(t, m + 1, x, y, zoom)
    } else if t[m] == '}' {
        if x is Some && y is Some && zoom is Some {
            Some((CameraV { x: x->0, y: y->0, zoom: zoom->0 }, m + 1))
        } else {
            None
        }
    } else {
        None
    }
}

pub open spec fn sp_points(t: Seq<char>, i: int) -> Option<(Seq<PointV>, int)> {
    if 0 <= i && i + 1 < t.len() && t[i] == '[' {
        if t[i + 1] == ']' {
            Some((Seq::empty(), i + 2))
        } else {
            sp_points_items(t, i + 1, Seq::empty())
        }
    } else {
        None
    }
}

pub open spec fn sp_points_items(t: Seq<char>, i: int, acc: Seq<PointV>) -> Option<
    (Seq<PointV>, int),
>
    decreases t.len() - i when 0 <= i <= t.len()
{
    match sp_point(t, i) {
        None => None,
        Some((p, j)) => if j <= i || j >= t.len() {
            None
        } else if t[j] == ',' {
            sp_points_items(t, j + 1, acc.push(p))
        } else if t[j] == ']' {
            Some((acc.push(p), j + 1))
        } else {
            None
        },
    }
}

pub open spec fn sp_ids(t: Seq<char>, i: int) -> Option<(Seq<Seq<char>>, int)> {
    if 0 <= i && i + 1 < t.len() && t[i] == '[' {
        if t[i + 1] == ']' {
            Some((Seq::empty(), i + 2))
        } else {
            sp_ids_items(t, i + 1, Seq::empty())
        }
    } else {
        None
    }
}

pub open spec fn sp_ids_items(t: Seq<char>, i: int, acc: Seq<Seq<char>>) -> Option<
    (Seq<Seq<char>>, int),
>
    decreases t.len() - i when 0 <= i <= t.len()
{
    match sp_string(t, i) {
        None => None,
        Some((s, j)) => if j <= i || j >= t.len() {
            None
        } else if t[j] == ',' {
            sp_ids_items(t, j + 1, acc.push(s))
        } else if t[j] == ']' {
            Some((acc.push(s), j + 1))
        } else {
            None
        },
    }
}

pub open spec fn sp_stroke(t: Seq<char>, i: int) -> Option<(StrokeV, int)> {
    if 0 <= i && i + 1 < t.len() && t[i] == '{' {
        if t[i + 1] == '}' {
            None
        } else {
            sp_stroke_fields(t, i + 1, None, None, None, None, None, None)
        }
    } else {
        None
    }
}

#[verifier::rlimit(100)]
pub open spec fn sp_stroke_fields(
    t: Seq<char>,
    i: int,
    id: Option<Seq<char>>,
    points: Option<Seq<PointV>>,
    color: Option<Seq<char>>,
    width: Option<Seq<char>>,
    layer_id: Option<Seq<char>>,
    timestamp: Option<int>,
) -> Option<(StrokeV, int)>
    decreases t.len() - i, 1int when 0 <= i <= t.len()
{
    match sp_string(t, i) {
        None => None,
        Some((k, j)) => if j <= i || j >= t.len() || t[j] != ':' {
            None
        } else if k == key_id() {
            if id is Some {
                None
            } else {
                match sp_string(t, j + 1) {
                    None => None,
                    Some((v, m)) => if m <= j || m > t.len() {
                        None
                    } else {
                        sp_stroke_next(t, m, Some(v), points, color, width, layer_id, timestamp)
                    },
                }
            }
        } else if k == key_points() {
            if points is Some {
                None
            } else {
                match sp_points(t, j + 1) {
                    None => None,
                    Some((v, m)) => if m <= j || m > t.len() {
                        None
                    } else {
                        sp_stroke_next(t, m, id, Some(v), color, width, layer_id, timestamp)
                    },
                }
            }
        } else if k == key_color() {
            if color is Some {
                None
            } else {
                match sp_string(t, j + 1) {
                    None => None,
                    Some((v, m)) => if m <= j || m > t.len() {
                        None
                    } else {
                        sp_stroke_next(t, m, id, points, Some(v), width, layer_id, timestamp)
                    },
                }
            }
        } else if k == key_width() {
            if width is Some {
                None
            } else {
                match sp_num(t, j + 1) {
                    None => None,
                    Some((v, m)) => if m <= j || m > t.len() {
                        None
                    } else {
                        sp_stroke_next(t, m, id, points, color, Some(v), layer_id, timestamp)
                    },
                }
            }
        } else if k == key_layer_id() {
            if layer_id is Some {
                None
            } else {
                match sp_string(t, j + 1) {
                    None => None,
                    Some((v, m)) => if m <= j || m > t.len() {
                        None
                    } else {
                        sp_stroke_next(t, m, id, points, color, width, Some(v), timestamp)
                    },
                }
            }
        } else if k == key_timestamp() {
            if timestamp is Some {
                None
            } else {
                match sp_int(t, j + 1) {
                    None => None,
                    Some((v, m)) => if m <= j || m > t.len() {
                        None
                    } else {
                        sp_stroke_next(t, m, id, points, color, width, layer_id, Some(v))
                    },
                }
            }
        } else {
            match sp_skip_value(t, j + 1) {
                None => None,
                Some(m) => if m <= j || m > t.len() {
                    None
                } else {
                    sp_stroke_next(t, m, id, points, color, width, layer_id, timestamp)
                },
            }
        },
    }
}

pub open spec fn sp_stroke_next(
    t: Seq<char>,
    m: int,
    id: Option<Seq<char>>,
    points: Option<Seq<PointV>>,
    color: Option<Seq<char>>,
    width: Option<Seq<char>>,
    layer_id: Option<Seq<char>>,
    timestamp: Option<int>,
) -> Option<(StrokeV, int)>
    decreases t.len() - m, 0int when 0 <= m <= t.len()
{
    if m >= t.len() {
        None
    } else if t[m] == ',' {
        sp_stroke_fields(t, m + 1, id, points, color, width, layer_id, timestamp)
    } else if t[m] == '}' {
        if id is Some && points is Some && color is Some && width is Some && layer_id is Some
            && timestamp is Some {
            Some(
                (
                    StrokeV {
                        id: id->0,
                        points: points->0,
                        color: color->0,
                        width: width->0,
                        layer_id: layer_id->0,
                        timestamp: timestamp->0,
                    },
                    m + 1,
                ),
            )
        } else {
            None
        }
    } else {
        None
    }
}

pub open spec fn sp_layer(t: Seq<char>, i: int) -> Option<(LayerV, int)> {
    if 0 <= i && i + 1 < t.len() && t[i] == '{' {
        if t[i + 1] == '}' {
            None
        } else {
            sp_layer_fields(t, i + 1, None, None, None, None, None, None)
        }
    } else {
        None
    }
}

#[verifier::rlimit(100)]
pub open spec fn sp_layer_fields(
    t: Seq<char>,
    i: int,
    id: Option<Seq<char>>,
    name: Option<Seq<char>>,
    visible: Option<bool>,
    locked: Option<bool>,
    opacity: Option<Seq<char>>,
    stroke_ids: Option<Seq<Seq<char>>>,
) -> Option<(LayerV, int)>
    decreases t.len() - i, 1int when 0 <= i <= t.len()
{
    match sp_string(t, i) {
        None => None,
        Some((k, j)) => if j <= i || j >= t.len() || t[j] != ':' {
            None
        } else if k == key_id() {
            if id is Some {
                None
            } else {
                match sp_string(t, j + 1) {
                    None => None,
                    Some((v, m)) => if m <= j || m > t.len() {
                        None
                    } else {
                        sp_layer_next(t, m, Some(v), name, visible, locked, opacity, stroke_ids)
                    },
                }
            }
        } else if k == key_name() {
            if name is Some {
                None
            } else {
                match sp_string(t, j + 1) {
                    None => None,
                    Some((v, m)) => if m <= j || m > t.len() {
                        None
                    } else {
                        sp_layer_next(t, m, id, Some(v), visible, locked, opacity, stroke_ids)
                    },
                }
            }
        } else if k == key_visible() {
            if visible is Some {
                None
            } else {
                match sp_bool(t, j + 1) {
                    None => None,
                    Some((v, m)) => if m <= j || m > t.len() {
                        None
                    } else {
                        sp_layer_next(t, m, id, name, Some(v), locked, opacity, stroke_ids)
                    },
                }
            }
        } else if k == key_locked() {
            if locked is Some {
                None
            } else {
                match sp_bool(t, j + 1) {
                    None => None,
                    Some((v, m)) => if m <= j || m > t.len() {
                        None
                    } else {
                        sp_layer_next(t, m, id, name, visible, Some(v), opacity, stroke_ids)
                    },
                }
            }
        } else if k == key_opacity() {
            if opacity is Some {
                None
            } else {
                match sp_num(t, j + 1) {
                    None => None,
                    Some((v, m)) => if m <= j || m > t.len() {
                        None
                    } else {
                        sp_layer_next(t, m, id, name, visible, locked, Some(v), stroke_ids)
                    },
                }
            }
        } else if k == key_stroke_ids() {
            if stroke_ids is Some {
                None
            } else {
                match sp_ids(t, j + 1) {
                    None => None,
                    Some((v, m)) => if m <= j || m > t.len() {
                        None
                    } else {
                        sp_layer_next(t, m, id, name, visible, locked, opacity, Some(v))
                    },
                }
            }
        } else {
            match sp_skip_value(t, j + 1) {
                None => None,
                Some(m) => if m <= j || m > t.len() {
                    None
                } else {
                    sp_layer_next(t, m, id, name, visible, locked, opacity, stroke_ids)
                },
            }
        },
    }
}

pub open spec fn sp_layer_next(
    t: Seq<char>,
    m: int,
    id: Option<Seq<char>>,
    name: Option<Seq<char>>,
    visible: Option<bool>,
    locked: Option<bool>,
    opacity: Option<Seq<char>>,
    stroke_ids: Option<Seq<Seq<char>>>,
) -> Option<(LayerV, int)>
    decreases t.len() - m, 0int when 0 <= m <= t.len()
{
    if m >= t.len() {
        None
    } else if t[m] == ',' {
        sp_layer_fields(t, m + 1, id, name, visible, locked, opacity, stroke_ids)
    } else if t[m] == '}' {
        if id is Some && name is Some && visible is Some && locked is Some && opacity is Some
            && stroke_ids is Some {
            Some(
                (
                    LayerV {
                        id: id->0,
                        name: name->0,
                        visible: visible->0,
                        locked: locked->0,
                        opacity: opacity->0,
                        stroke_ids: stroke_ids->0,
                    },
                    m + 1,
                ),
            )
        } else {
            None
        }
    } else {
        None
    }
}

pub open spec fn sp_layers(t: Seq<char>, i: int) -> Option<(Seq<LayerV>, int)> {
    if 0 <= i && i + 1 < t.len() && t[i] == '[' {
        if t[i + 1] == ']' {
            Some((Seq::empty(), i + 2))
        } else {
            sp_layers_items(t, i + 1, Seq::empty())
        }
    } else {
        None
    }
}

pub open spec fn sp_layers_items(t: Seq<char>, i: int, acc: Seq<LayerV>) -> Option<
    (Seq<LayerV>, int),
>
    decreases t.len() - i when 0 <= i <= t.len()
{
    match sp_layer(t, i) {
        None => None,
        Some((l, j)) => if j <= i || j >= t.len() {
            None
        } else if t[j] == ',' {
            sp_layers_items(t, j + 1, acc.push(l))
        } else if t[j] == ']' {
            Some((acc.push(l), j + 1))
        } else {
            None
        },
    }
}

pub open spec fn sp_strokes(t: Seq<char>, i: int) -> Option<(Seq<(Seq<char>, StrokeV)>, int)> {
    if 0 <= i && i + 1 < t.len() && t[i] == '{' {
        if t[i + 1] == '}' {
            Some((Seq::empty(), i + 2))
        } else {
            sp_strokes_items(t, i + 1, Seq::empty())
        }
    } else {
        None
    }
}

pub open spec fn sp_strokes_items(t: Seq<char>, i: int, acc: Seq<(Seq<char>, StrokeV)>) -> Option<
    (Seq<(Seq<char>, StrokeV)>, int),
>
    decreases t.len() - i when 0 <= i <= t.len()
{
    match sp_string(t, i) {
        None => None,
        Some((k, j)) => if j <= i || j >= t.len() || t[j] != ':' {
            None
        } else {
            match sp_stroke(t, j + 1) {
                None => None,
                Some((s, m)) => if m <= j || m >= t.len() {
                    None
                } else if t[m] == ',' {
                    sp_strokes_items(t, m + 1, acc.push((k, s)))
                } else if t[m] == '}' {
                    Some((acc.push((k, s)), m + 1))
                } else {
                    None
                },
            }
        },
    }
}

pub open spec fn sp_canvas(t: Seq<char>, i: int) -> Option<(CanvasV, int)> {
    if 0 <= i && i + 1 < t.len() && t[i] == '{' {
        if t[i + 1] == '}' {
            None
        } else {
            sp_canvas_fields(t, i + 1, None, None, None, None, None, None, None)
        }
    } else {
        None
    }
}

#[verifier::rlimit(100)]
pub open spec fn sp_canvas_fields(
    t: Seq<char>,
    i: int,
    layers: Option<Seq<LayerV>>,
    strokes: Option<Seq<(Seq<char>, StrokeV)>>,
    camera: Option<CameraV>,
    active_layer_id: Option<Seq<char>>,
    active_tool: Option<Seq<char>>,
    active_color: Option<Seq<char>>,
    active_width: Option<Seq<char>>,
) -> Option<(CanvasV, int)>
    decreases t.len() - i, 1int when 0 <= i <= t.len()
{
    match sp_string(t, i) {
        None => None,
        Some((k, j)) => if j <= i || j >= t.len() || t[j] != ':' {
            None
        } else if k == key_layers() {
            if layers is Some {
                None
            } else {
                match sp_layers(t, j + 1) {
                    None => None,
                    Some((v, m)) => if m <= j || m > t.len() {
                        None
                    } else {
                        sp_canvas_next(
                            t,
                            m,
                            Some(v),
                            strokes,
                            camera,
                            active_layer_id,
                            active_tool,
                            active_color,
                            active_width,
                        )
                    },
                }
            }
        } else if k == key_strokes() {
            if strokes is Some {
                None
            } else {
                match sp_strokes(t, j + 1) {
                    None => None,
                    Some((v, m)) => if m <= j || m > t.len() {
                        None
                    } else {
                        sp_canvas_next(
                            t,
                            m,
                            layers,
                            Some(v),
                            camera,
                            active_layer_id,
                            active_tool,
                            active_color,
                            active_width,
                        )
                    },
                }
            }
        } else if k == key_camera() {
            if camera is Some {
                None
            } else {
                match sp_camera(t, j + 1) {
                    None => None,
                    Some((v, m)) => if m <= j || m > t.len() {
                        None
                    } else {
                        sp_canvas_next(
                            t,
                            m,
                            layers,
                            strokes,
                            Some(v),
                            active_layer_id,
                            active_tool,
                            active_color,
                            active_width,
                        )
                    },
                }
            }
        } else if k == key_active_layer_id() {
            if active_layer_id is Some {
                None
            } else {
                match sp_string(t, j + 1) {
                    None => None,
                    Some((v, m)) => if m <= j || m > t.len() {
                        None
                    } else {
                        sp_canvas_next(
                            t,
                            m,
                            layers,
                            strokes,
                            camera,
                            Some(v),
                            active_tool,
                            active_color,
                            active_width,
                        )
                    },
                }
            }
        } else if k == key_active_tool() {
            if active_tool is Some {
                None
            } else {
                match sp_string(t, j + 1) {
                    None => None,
                    Some((v, m)) => if m <= j || m > t.len() {
                        None
                    } else {
                        sp_canvas_next(
                            t,
                            m,
                            layers,
                            strokes,
                            camera,
                            active_layer_id,
                            Some(v),
                            active_color,
                            active_width,
                        )
                    },
                }
            }
        } else if k == key_active_color() {
            if active_color is Some {
                None
            } else {
                match sp_string(t, j + 1) {
                    None => None,
                    Some((v, m)) => if m <= j || m > t.len() {
                        None
                    } else {
                        sp_canvas_next(
                            t,
                            m,
                            layers,
                            strokes,
                            camera,
                            active_layer_id,
                            active_tool,
                            Some(v),
                            active_width,
                        )
                    },
                }
            }
        } else if k == key_active_width() {
            if active_width is Some {
                None
            } else {
                match sp_num(t, j + 1) {
                    None => None,
                    Some((v, m)) => if m <= j || m > t.len() {
                        None
                    } else {
                        sp_canvas_next(
                            t,
                            m,
                            layers,
                            strokes,
                            camera,
                            active_layer_id,
                            active_tool,
                            active_color,
                            Some(v),
                        )
                    },
                }
            }
        } else {
            match sp_skip_value(t, j + 1) {
                None => None,
                Some(m) => if m <= j || m > t.len() {
                    None
                } else {
                    sp_canvas_next(
                        t,
                        m,
                        layers,
                        strokes,
                        camera,
                        active_layer_id,
                        active_tool,
                        active_color,
                        active_width,
                    )
                },
            }
        },
    }
}

pub open spec fn sp_canvas_next(
    t: Seq<char>,
    m: int,
    layers: Option<Seq<LayerV>>,
    strokes: Option<Seq<(Seq<char>, StrokeV)>>,
    camera: Option<CameraV>,
    active_layer_id: Option<Seq<char>>,
    active_tool: Option<Seq<char>>,
    active_color: Option<Seq<char>>,
    active_width: Option<Seq<char>>,
) -> Option<(CanvasV, int)>
    decreases t.len() - m, 0int when 0 <= m <= t.len()
{
    if m >= t.len() {
        None
    } else if t[m] == ',' {
        sp_canvas_fields(
            t,
            m + 1,
            layers,
            strokes,
            camera,
            active_layer_id,
            active_tool,
            active_color,
            active_width,
        )
    } else if t[m] == '}' {
        if layers is Some && strokes is Some && camera is Some && active_layer_id is Some
            && active_tool is Some && active_color is Some && active_width is Some {
            Some(
                (
                    CanvasV {
                        layers: layers->0,
                        strokes: strokes->0,
                        camera: camera->0,
                        active_layer_id: active_layer_id->0,
                        active_tool: active_tool->0,
                        active_color: active_color->0,
                        active_width: active_width->0,
                    },
                    m + 1,
                ),
            )
        } else {
            None
        }
    } else {
        None
    }
}

/// What a whole document text denotes: the document value, provided the
/// grammar accepts the text and nothing follows it.
pub open spec fn sp_canvas_doc(t: Seq<char>) -> Option<CanvasV> {
    match sp_canvas(t, 0) {
        None => None,
        Some((v, j)) => if j == t.len() {
            Some(v)
        } else {
            None
        },
    }
}

} // verus!
