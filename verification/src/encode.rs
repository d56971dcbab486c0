//! The textual encoding of a canvas document: a structured, self-describing
//! text with a fixed external vocabulary of field names. The spec functions
//! here define the encoding character by character; the executable writer
//! produces exactly that text.
use crate::model::Camera;
use crate::model::CameraV;
use crate::model::CanvasState;
use crate::model::CanvasV;
use crate::model::Layer;
use crate::model::LayerV;
use crate::model::Num;
use crate::model::Point;
use crate::model::PointV;
use crate::model::Stroke;
use crate::model::StrokeV;
use crate::text::chars_to_string;
use crate::text::digit_char;
use crate::text::hex_char;
use crate::text::push_str_chars;
use vstd::prelude::*;

verus! {

use vstd::string::StrSliceExecFns;

/// The escape of one character inside a quoted string: quotes and
/// backslashes get a backslash, control characters a four-digit escape,
/// and every other character stands for itself.
pub open spec fn esc_char(c: char) -> Seq<char> {
    if c == '"' {
        seq!['\\', '"']
    } else if c == '\\' {
        seq!['\\', '\\']
    } else if (c as u32) < 32 {
        seq!['\\', 'u', '0', '0', hex_char(c as u32 as int / 16), hex_char(c as u32 as int % 16)]
    } else {
        seq![c]
    }
}

/// The escaped body of a quoted string.
pub open spec fn esc_string(s: Seq<char>) -> Seq<char>
    decreases s.len(),
{
    if s.len() == 0 {
        Seq::empty()
    } else {
        esc_char(s[0]) + esc_string(s.skip(1))
    }
}

pub proof fn lemma_esc_append(s: Seq<char>, c: char)
    ensures
        esc_string(s.push(c)) == esc_string(s) + esc_char(c),
    decreases s.len(),
{
    if s.len() == 0 {
        assert(s.push(c).skip(1) =~= Seq::<char>::empty());
        assert(esc_string(Seq::<char>::empty()) == Seq::<char>::empty());
        assert(esc_string(s.push(c)) == esc_char(s.push(c)[0]) + esc_string(s.push(c).skip(1)));
        assert(s.push(c)[0] == c);
        assert(esc_string(s.push(c)) =~= esc_string(s) + esc_char(c));
    } else {
        assert(s.push(c).skip(1) =~= s.skip(1).push(c));
        lemma_esc_append(s.skip(1), c);
        assert(esc_string(s.push(c)) == esc_char(s.push(c)[0]) + esc_string(s.push(c).skip(1)));
        assert(s.push(c)[0] == s[0]);
        assert(esc_string(s) == esc_char(s[0]) + esc_string(s.skip(1)));
        assert(esc_string(s.push(c)) =~= esc_string(s) + esc_char(c));
    }
}

/// A quoted, escaped string value.
pub open spec fn enc_string(s: Seq<char>) -> Seq<char> {
    seq!['"'] + esc_string(s) + seq!['"']
}

/// A field key: the quoted key name followed by its colon.
pub open spec fn enc_key(k: Seq<char>) -> Seq<char> {
    enc_string(k) + seq![':']
}

/// A boolean value.
pub open spec fn enc_bool(b: bool) -> Seq<char> {
    if b {
        seq!['t', 'r', 'u', 'e']
    } else {
        seq!['f', 'a', 'l', 's', 'e']
    }
}

/// The decimal digits of a non-negative integer, most significant first.
pub open spec fn dec_digits(n: int) -> Seq<char>
    decreases n when n >= 0
{
    if n < 10 {
        seq![digit_char(n)]
    } else {
        dec_digits(n / 10).push(digit_char(n % 10))
    }
}

/// A signed integer value in decimal.
pub open spec fn enc_i64(n: int) -> Seq<char> {
    if n < 0 {
        seq!['-'] + dec_digits(-n)
    } else {
        dec_digits(n)
    }
}

/// Values joined by commas.
pub open spec fn join_comma(xs: Seq<Seq<char>>) -> Seq<char>
    decreases xs.len(),
{
    if xs.len() == 0 {
        Seq::empty()
    } else if xs.len() == 1 {
        xs[0]
    } else {
        xs[0] + seq![','] + join_comma(xs.skip(1))
    }
}

pub proof fn lemma_join_push(xs: Seq<Seq<char>>, x: Seq<char>)
    ensures
        join_comma(xs.push(x)) == if xs.len() == 0 {
            x
        } else {
            join_comma(xs) + seq![','] + x
        },
    decreases xs.len(),
{
    if xs.len() == 0 {
        assert(join_comma(xs.push(x)) =~= x);
    } else if xs.len() == 1 {
        assert(xs.push(x).skip(1) =~= seq![x]);
        assert(join_comma(seq![x]) == x);
        assert(join_comma(xs.push(x)) == xs.push(x)[0] + seq![','] + join_comma(
            xs.push(x).skip(1),
        ));
        assert(xs.push(x)[0] == xs[0]);
        assert(join_comma(xs.push(x)) =~= join_comma(xs) + seq![','] + x);
    } else {
        assert(xs.push(x).skip(1) =~= xs.skip(1).push(x));
        lemma_join_push(xs.skip(1), x);
        assert(join_comma(xs.push(x)) == xs.push(x)[0] + seq![','] + join_comma(
            xs.push(x).skip(1),
        ));
        assert(xs.push(x)[0] == xs[0]);
        assert(join_comma(xs) == xs[0] + seq![','] + join_comma(xs.skip(1)));
        assert(join_comma(xs.push(x)) =~= join_comma(xs) + seq![','] + x);
    }
}

pub open spec fn key_x() -> Seq<char> {
    seq!['x']
}

pub open spec fn key_y() -> Seq<char> {
    seq!['y']
}

pub open spec fn key_zoom() -> Seq<char> {
    seq!['z', 'o', 'o', 'm']
}

pub open spec fn key_id() -> Seq<char> {
    seq!['i', 'd']
}

pub open spec fn key_points() -> Seq<char> {
    seq!['p', 'o', 'i', 'n', 't', 's']
}

pub open spec fn key_color() -> Seq<char> {
    seq!['c', 'o', 'l', 'o', 'r']
}

pub open spec fn key_width() -> Seq<char> {
    seq!['w', 'i', 'd', 't', 'h']
}

pub open spec fn key_layer_id() -> Seq<char> {
    seq!['l', 'a', 'y', 'e', 'r', 'I', 'd']
}

pub open spec fn key_timestamp() -> Seq<char> {
    seq!['t', 'i', 'm', 'e', 's', 't', 'a', 'm', 'p']
}

pub open spec fn key_name() -> Seq<char> {
    seq!['n', 'a', 'm', 'e']
}

pub open spec fn key_visible() -> Seq<char> {
    seq!['v', 'i', 's', 'i', 'b', 'l', 'e']
}

pub open spec fn key_locked() -> Seq<char> {
    seq!['l', 'o', 'c', 'k', 'e', 'd']
}

pub open spec fn key_opacity() -> Seq<char> {
    seq!['o', 'p', 'a', 'c', 'i', 't', 'y']
}

pub open spec fn key_stroke_ids() -> Seq<char> {
    seq!['s', 't', 'r', 'o', 'k', 'e', 'I', 'd', 's']
}

pub open spec fn key_layers() -> Seq<char> {
    seq!['l', 'a', 'y', 'e', 'r', 's']
}

pub open spec fn key_strokes() -> Seq<char> {
    seq!['s', 't', 'r', 'o', 'k', 'e', 's']
}

pub open spec fn key_camera() -> Seq<char> {
    seq!['c', 'a', 'm', 'e', 'r', 'a']
}

pub open spec fn key_active_layer_id() -> Seq<char> {
    seq!['a', 'c', 't', 'i', 'v', 'e', 'L', 'a', 'y', 'e', 'r', 'I', 'd']
}

pub open spec fn key_active_tool() -> Seq<char> {
    seq!['a', 'c', 't', 'i', 'v', 'e', 'T', 'o', 'o', 'l']
}

pub open spec fn key_active_color() -> Seq<char> {
    seq!['a', 'c', 't', 'i', 'v', 'e', 'C', 'o', 'l', 'o', 'r']
}

pub open spec fn key_active_width() -> Seq<char> {
    seq!['a', 'c', 't', 'i', 'v', 'e', 'W', 'i', 'd', 't', 'h']
}

pub open spec fn enc_point(p: PointV) -> Seq<char> {
    seq!['{'] + enc_key(key_x()) + p.x + seq![','] + enc_key(key_y()) + p.y + seq!['}']
}

pub open spec fn enc_points(ps: Seq<PointV>) -> Seq<char> {
    seq!['['] + join_comma(ps.map_values(|p: PointV| enc_point(p))) + seq![']']
}

pub open spec fn enc_ids(ids: Seq<Seq<char>>) -> Seq<char> {
    seq!['['] + join_comma(ids.map_values(|s: Seq<char>| enc_string(s))) + seq![']']
}

#[verifier::opaque]
pub open spec fn enc_camera(c: CameraV) -> Seq<char> {
    seq!['{'] + enc_key(key_x()) + c.x + seq![','] + enc_key(key_y()) + c.y + seq![','] + enc_key(
        key_zoom(),
    ) + c.zoom + seq!['}']
}

#[verifier::opaque]
pub open spec fn enc_stroke(s: StrokeV) -> Seq<char> {
    seq!['{'] + enc_key(key_id()) + enc_string(s.id) + seq![','] + enc_key(key_points())
        + enc_points(s.points) + seq![','] + enc_key(key_color()) + enc_string(s.color) + seq![',']
        + enc_key(key_width()) + s.width + seq![','] + enc_key(key_layer_id()) + enc_string(
        s.layer_id,
    ) + seq![','] + enc_key(key_timestamp()) + enc_i64(s.timestamp) + seq!['}']
}

#[verifier::opaque]
pub open spec fn enc_layer(l: LayerV) -> Seq<char> {
    seq!['{'] + enc_key(key_id()) + enc_string(l.id) + seq![','] + enc_key(key_name()) + enc_string(
        l.name,
    ) + seq![','] + enc_key(key_visible()) + enc_bool(l.visible) + seq![','] + enc_key(key_locked())
        + enc_bool(l.locked) + seq![','] + enc_key(key_opacity()) + l.opacity + seq![','] + enc_key(
        key_stroke_ids(),
    ) + enc_ids(l.stroke_ids) + seq!['}']
}

#[verifier::opaque]
pub open spec fn enc_layers(ls: Seq<LayerV>) -> Seq<char> {
    seq!['['] + join_comma(ls.map_values(|l: LayerV| enc_layer(l))) + seq![']']
}

pub open spec fn enc_pair(kv: (Seq<char>, StrokeV)) -> Seq<char> {
    enc_string(kv.0) + seq![':'] + enc_stroke(kv.1)
}

#[verifier::opaque]
pub open spec fn enc_strokes(ss: Seq<(Seq<char>, StrokeV)>) -> Seq<char> {
    seq!['{'] + join_comma(ss.map_values(|kv: (Seq<char>, StrokeV)| enc_pair(kv))) + seq!['}']
}

/// The whole document text.
#[verifier::opaque]
pub open spec fn enc_canvas(c: CanvasV) -> Seq<char> {
    seq!['{'] + enc_key(key_layers()) + enc_layers(c.layers) + seq![','] + enc_key(key_strokes())
        + enc_strokes(c.strokes) + seq![','] + enc_key(key_camera()) + enc_camera(c.camera)
        + seq![','] + enc_key(key_active_layer_id()) + enc_string(c.active_layer_id) + seq![',']
        + enc_key(key_active_tool()) + enc_string(c.active_tool) + seq![','] + enc_key(
        key_active_color(),
    ) + enc_string(c.active_color) + seq![','] + enc_key(key_active_width()) + c.active_width
        + seq!['}']
}

/// The lower-case hexadecimal character of a value below sixteen.
fn hex_char_of(v: u32) -> (c: char)
    requires
        v < 16,
    ensures
        c == hex_char(v as int),
{
    if v < 10 {
        (48 + v as u8) as char
    } else {
        (87 + v as u8) as char
    }
}

/// Writes a quoted, escaped string value.
fn write_quoted(out: &mut Vec<char>, s: &str)
    ensures
        final(out)@ == old(out)@ + enc_string(s@),
{
    out.push('"');
    let n = s.unicode_len();
    let mut i: usize = 0;
    proof {
        assert(esc_string(s@.take(0)) =~= Seq::<char>::empty());
        assert(out@ =~= old(out)@ + seq!['"'] + esc_string(s@.take(0)));
    }
    while i < n
        invariant
            n == s@.len(),
            i <= n,
            out@ == old(out)@ + seq!['"'] + esc_string(s@.take(i as int)),
        decreases n - i,
    {
        let c = s.get_char(i);
        if c == '"' {
            out.push('\\');
            out.push('"');
        } else if c == '\\' {
            out.push('\\');
            out.push('\\');
        } else if (c as u32) < 32 {
            out.push('\\');
            out.push('u');
            out.push('0');
            out.push('0');
            out.push(hex_char_of((c as u32) / 16));
            out.push(hex_char_of((c as u32) % 16));
        } else {
            out.push(c);
        }
        proof {
            lemma_esc_append(s@.take(i as int), s@[i as int]);
            assert(s@.take(i + 1) =~= s@.take(i as int).push(s@[i as int]));
            assert(out@ =~= old(out)@ + seq!['"'] + esc_string(s@.take(i + 1)));
        }
        i = i + 1;
    }
    out.push('"');
    proof {
        assert(s@.take(n as int) =~= s@);
        assert(out@ =~= old(out)@ + enc_string(s@));
    }
}

/// Writes a field key: the quoted key name and its colon.
fn write_key(out: &mut Vec<char>, k: &str)
    ensures
        final(out)@ == old(out)@ + enc_key(k@),
{
    write_quoted(out, k);
    out.push(':');
    proof {
        assert(out@ =~= old(out)@ + enc_key(k@));
    }
}

/// Writes a number token verbatim.
fn write_num(out: &mut Vec<char>, v: &Num)
    ensures
        final(out)@ == old(out)@ + v@,
{
    push_str_chars(out, v.text.as_str());
}

/// Writes a boolean value.
fn write_bool(out: &mut Vec<char>, b: bool)
    ensures
        final(out)@ == old(out)@ + enc_bool(b),
{
    if b {
        push_str_chars(out, "true");
        proof {
            reveal_strlit("true");
            assert("true"@ =~= enc_bool(true));
        }
    } else {
        push_str_chars(out, "false");
        proof {
            reveal_strlit("false");
            assert("false"@ =~= enc_bool(false));
        }
    }
}

/// Writes the decimal digits of a non-negative integer.
fn write_u64(out: &mut Vec<char>, n: u64)
    ensures
        final(out)@ == old(out)@ + dec_digits(n as int),
    decreases n,
{
    if n < 10 {
        out.push((48 + n as u8) as char);
        proof {
            assert(out@ =~= old(out)@ + dec_digits(n as int));
        }
    } else {
        write_u64(out, n / 10);
        out.push((48 + (n % 10) as u8) as char);
        proof {
            assert(out@ =~= old(out)@ + dec_digits(n as int));
        }
    }
}

/// Writes a signed integer value in decimal.
fn write_i64(out: &mut Vec<char>, v: i64)
    ensures
        final(out)@ == old(out)@ + enc_i64(v as int),
{
    if v < 0 {
        out.push('-');
        let m: u64 = if v == i64::MIN {
            9223372036854775808u64
        } else {
            (-v) as u64
        };
        write_u64(out, m);
        proof {
            assert(out@ =~= old(out)@ + enc_i64(v as int));
        }
    } else {
        write_u64(out, v as u64);
    }
}

fn write_point(out: &mut Vec<char>, p: &Point)
    ensures
        final(out)@ == old(out)@ + enc_point(p@),
{
    out.push('{');
    write_key(out, "x");
    write_num(out, &p.x);
    out.push(',');
    write_key(out, "y");
    write_num(out, &p.y);
    out.push('}');
    proof {
        reveal_strlit("x");
        reveal_strlit("y");
        assert("x"@ =~= key_x());
        assert("y"@ =~= key_y());
        assert(out@ =~= old(out)@ + enc_point(p@));
    }
}

fn write_points(out: &mut Vec<char>, ps: &Vec<Point>)
    ensures
        final(out)@ == old(out)@ + enc_points(ps@.map_values(|p: Point| p@)),
{
    let ghost vs = ps@.map_values(|p: Point| p@);
    let ghost es = vs.map_values(|p: PointV| enc_point(p));
    out.push('[');
    let mut i: usize = 0;
    proof {
        assert(es.take(0) =~= Seq::<Seq<char>>::empty());
        assert(out@ =~= old(out)@ + seq!['['] + join_comma(es.take(0)));
    }
    while i < ps.len()
        invariant
            vs == ps@.map_values(|p: Point| p@),
            es == vs.map_values(|p: PointV| enc_point(p)),
            i <= ps@.len(),
            out@ == old(out)@ + seq!['['] + join_comma(es.take(i as int)),
        decreases ps@.len() - i,
    {
        if i > 0 {
            out.push(',');
        }
        write_point(out, &ps[i]);
        proof {
            lemma_join_push(es.take(i as int), es[i as int]);
            assert(es.take(i + 1) =~= es.take(i as int).push(es[i as int]));
            assert(es[i as int] == enc_point(vs[i as int]));
            assert(out@ =~= old(out)@ + seq!['['] + join_comma(es.take(i + 1)));
        }
        i = i + 1;
    }
    out.push(']');
    proof {
        assert(es.take(ps@.len() as int) =~= es);
        assert(out@ =~= old(out)@ + enc_points(vs));
    }
}

fn write_ids(out: &mut Vec<char>, ids: &Vec<String>)
    ensures
        final(out)@ == old(out)@ + enc_ids(ids@.map_values(|s: String| s@)),
{
    let ghost vs = ids@.map_values(|s: String| s@);
    let ghost es = vs.map_values(|s: Seq<char>| enc_string(s));
    out.push('[');
    let mut i: usize = 0;
    proof {
        assert(es.take(0) =~= Seq::<Seq<char>>::empty());
        assert(out@ =~= old(out)@ + seq!['['] + join_comma(es.take(0)));
    }
    while i < ids.len()
        invariant
            vs == ids@.map_values(|s: String| s@),
            es == vs.map_values(|s: Seq<char>| enc_string(s)),
            i <= ids@.len(),
            out@ == old(out)@ + seq!['['] + join_comma(es.take(i as int)),
        decreases ids@.len() - i,
    {
        if i > 0 {
            out.push(',');
        }
        write_quoted(out, ids[i].as_str());
        proof {
            lemma_join_push(es.take(i as int), es[i as int]);
            assert(es.take(i + 1) =~= es.take(i as int).push(es[i as int]));
            assert(es[i as int] == enc_string(vs[i as int]));
            assert(out@ =~= old(out)@ + seq!['['] + join_comma(es.take(i + 1)));
        }
        i = i + 1;
    }
    out.push(']');
    proof {
        assert(es.take(ids@.len() as int) =~= es);
        assert(out@ =~= old(out)@ + enc_ids(vs));
    }
}

fn write_camera(out: &mut Vec<char>, c: &Camera)
    ensures
        final(out)@ == old(out)@ + enc_camera(c@),
{
    out.push('{');
    write_key(out, "x");
    write_num(out, &c.x);
    out.push(',');
    write_key(out, "y");
    write_num(out, &c.y);
    out.push(',');
    write_key(out, "zoom");
    write_num(out, &c.zoom);
    out.push('}');
    proof {
        reveal(enc_camera);
        reveal_strlit("x");
        reveal_strlit("y");
        reveal_strlit("zoom");
        assert("x"@ =~= key_x());
        assert("y"@ =~= key_y());
        assert("zoom"@ =~= key_zoom());
        assert(out@ =~= old(out)@ + enc_camera(c@));
    }
}

#[verifier::rlimit(100)]
fn write_stroke(out: &mut Vec<char>, s: &Stroke)
    ensures
        final(out)@ == old(out)@ + enc_stroke(s@),
{
    out.push('{');
    write_key(out, "id");
    write_quoted(out, s.id.as_str());
    out.push(',');
    write_key(out, "points");
    write_points(out, &s.points);
    out.push(',');
    write_key(out, "color");
    write_quoted(out, s.color.as_str());
    out.push(',');
    write_key(out, "width");
    write_num(out, &s.width);
    out.push(',');
    write_key(out, "layerId");
    write_quoted(out, s.layer_id.as_str());
    out.push(',');
    write_key(out, "timestamp");
    write_i64(out, s.timestamp);
    out.push('}');
    proof {
        reveal(enc_stroke);
        reveal_strlit("id");
        reveal_strlit("points");
        reveal_strlit("color");
        reveal_strlit("width");
        reveal_strlit("layerId");
        reveal_strlit("timestamp");
        assert("id"@ =~= key_id());
        assert("points"@ =~= key_points());
        assert("color"@ =~= key_color());
        assert("width"@ =~= key_width());
        assert("layerId"@ =~= key_layer_id());
        assert("timestamp"@ =~= key_timestamp());
        assert(out@ =~= old(out)@ + enc_stroke(s@));
    }
}

#[verifier::rlimit(100)]
fn write_layer(out: &mut Vec<char>, l: &Layer)
    ensures
        final(out)@ == old(out)@ + enc_layer(l@),
{
    out.push('{');
    write_key(out, "id");
    write_quoted(out, l.id.as_str());
    out.push(',');
    write_key(out, "name");
    write_quoted(out, l.name.as_str());
    out.push(',');
    write_key(out, "visible");
    write_bool(out, l.visible);
    out.push(',');
    write_key(out, "locked");
    write_bool(out, l.locked);
    out.push(',');
    write_key(out, "opacity");
    write_num(out, &l.opacity);
    out.push(',');
    write_key(out, "strokeIds");
    write_ids(out, &l.stroke_ids);
    out.push('}');
    proof {
        reveal(enc_layer);
        reveal_strlit("id");
        reveal_strlit("name");
        reveal_strlit("visible");
        reveal_strlit("locked");
        reveal_strlit("opacity");
        reveal_strlit("strokeIds");
        assert("id"@ =~= key_id());
        assert("name"@ =~= key_name());
        assert("visible"@ =~= key_visible());
        assert("locked"@ =~= key_locked());
        assert("opacity"@ =~= key_opacity());
        assert("strokeIds"@ =~= key_stroke_ids());
        assert(out@ =~= old(out)@ + enc_layer(l@));
    }
}

fn write_layers(out: &mut Vec<char>, ls: &Vec<Layer>)
    ensures
        final(out)@ == old(out)@ + enc_layers(ls@.map_values(|l: Layer| l@)),
{
    let ghost vs = ls@.map_values(|l: Layer| l@);
    let ghost es = vs.map_values(|l: LayerV| enc_layer(l));
    out.push('[');
    let mut i: usize = 0;
    proof {
        assert(es.take(0) =~= Seq::<Seq<char>>::empty());
        assert(out@ =~= old(out)@ + seq!['['] + join_comma(es.take(0)));
    }
    while i < ls.len()
        invariant
            vs == ls@.map_values(|l: Layer| l@),
            es == vs.map_values(|l: LayerV| enc_layer(l)),
            i <= ls@.len(),
            out@ == old(out)@ + seq!['['] + join_comma(es.take(i as int)),
        decreases ls@.len() - i,
    {
        if i > 0 {
            out.push(',');
        }
        write_layer(out, &ls[i]);
        proof {
            lemma_join_push(es.take(i as int), es[i as int]);
            assert(es.take(i + 1) =~= es.take(i as int).push(es[i as int]));
            assert(es[i as int] == enc_layer(vs[i as int]));
            assert(out@ =~= old(out)@ + seq!['['] + join_comma(es.take(i + 1)));
        }
        i = i + 1;
    }
    out.push(']');
    proof {
        reveal(enc_layers);
        assert(es.take(ls@.len() as int) =~= es);
        assert(out@ =~= old(out)@ + enc_layers(vs));
    }
}

fn write_strokes(out: &mut Vec<char>, ss: &Vec<(String, Stroke)>)
    ensures
        final(out)@ == old(out)@ + enc_strokes(
            ss@.map_values(|kv: (String, Stroke)| (kv.0@, kv.1@)),
        ),
{
    let ghost vs = ss@.map_values(|kv: (String, Stroke)| (kv.0@, kv.1@));
    let ghost es = vs.map_values(|kv: (Seq<char>, StrokeV)| enc_pair(kv));
    out.push('{');
    let mut i: usize = 0;
    proof {
        assert(es.take(0) =~= Seq::<Seq<char>>::empty());
        assert(out@ =~= old(out)@ + seq!['{'] + join_comma(es.take(0)));
    }
    while i < ss.len()
        invariant
            vs == ss@.map_values(|kv: (String, Stroke)| (kv.0@, kv.1@)),
            es == vs.map_values(|kv: (Seq<char>, StrokeV)| enc_pair(kv)),
            i <= ss@.len(),
            out@ == old(out)@ + seq!['{'] + join_comma(es.take(i as int)),
        decreases ss@.len() - i,
    {
        if i > 0 {
            out.push(',');
        }
        write_quoted(out, ss[i].0.as_str());
        out.push(':');
        write_stroke(out, &ss[i].1);
        proof {
            lemma_join_push(es.take(i as int), es[i as int]);
            assert(es.take(i + 1) =~= es.take(i as int).push(es[i as int]));
            assert(es[i as int] == enc_pair(vs[i as int]));
            assert(out@ =~= old(out)@ + seq!['{'] + join_comma(es.take(i + 1)));
        }
        i = i + 1;
    }
    out.push('}');
    proof {
        reveal(enc_strokes);
        assert(es.take(ss@.len() as int) =~= es);
        assert(out@ =~= old(out)@ + enc_strokes(vs));
    }
}

/// Encodes a whole document to its text. The result is exactly the
/// specified encoding of the document's value.
#[verifier::rlimit(100)]
pub fn encode_canvas(c: &CanvasState) -> (r: String)
    ensures
        r@ == enc_canvas(c@),
{
    let mut out: Vec<char> = Vec::new();
    proof {
        reveal_strlit("layers");
        reveal_strlit("strokes");
        reveal_strlit("camera");
        reveal_strlit("activeLayerId");
        reveal_strlit("activeTool");
        reveal_strlit("activeColor");
        reveal_strlit("activeWidth");
        assert("layers"@ =~= key_layers());
        assert("strokes"@ =~= key_strokes());
        assert("camera"@ =~= key_camera());
        assert("activeLayerId"@ =~= key_active_layer_id());
        assert("activeTool"@ =~= key_active_tool());
        assert("activeColor"@ =~= key_active_color());
        assert("activeWidth"@ =~= key_active_width());
    }
    out.push('{');
    proof {
        assert(out@ =~= seq!['{']);
    }
    write_key(&mut out, "layers");
    write_layers(&mut out, &c.layers);
    proof {
        assert(out@ == seq!['{'] + enc_key(key_layers()) + enc_layers(c@.layers));
    }
    out.push(',');
    write_key(&mut out, "strokes");
    write_strokes(&mut out, &c.strokes);
    proof {
        assert(out@ == seq!['{'] + enc_key(key_layers()) + enc_layers(c@.layers) + seq![',']
            + enc_key(key_strokes()) + enc_strokes(c@.strokes));
    }
    out.push(',');
    write_key(&mut out, "camera");
    write_camera(&mut out, &c.camera);
    proof {
        assert(out@ == seq!['{'] + enc_key(key_layers()) + enc_layers(c@.layers) + seq![',']
            + enc_key(key_strokes()) + enc_strokes(c@.strokes) + seq![','] + enc_key(key_camera())
            + enc_camera(c@.camera));
    }
    out.push(',');
    write_key(&mut out, "activeLayerId");
    write_quoted(&mut out, c.active_layer_id.as_str());
    out.push(',');
    write_key(&mut out, "activeTool");
    write_quoted(&mut out, c.active_tool.as_str());
    proof {
        assert(out@ == seq!['{'] + enc_key(key_layers()) + enc_layers(c@.layers) + seq![',']
            + enc_key(key_strokes()) + enc_strokes(c@.strokes) + seq![','] + enc_key(key_camera())
            + enc_camera(c@.camera) + seq![','] + enc_key(key_active_layer_id()) + enc_string(
            c@.active_layer_id,
        ) + seq![','] + enc_key(key_active_tool()) + enc_string(c@.active_tool));
    }
    out.push(',');
    write_key(&mut out, "activeColor");
    write_quoted(&mut out, c.active_color.as_str());
    out.push(',');
    write_key(&mut out, "activeWidth");
    write_num(&mut out, &c.active_width);
    out.push('}');
    proof {
        reveal(enc_canvas);
        assert(out@ == enc_canvas(c@));
    }
    chars_to_string(&out)
}

} // verus!
