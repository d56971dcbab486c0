//! The executable parser of the document text. Each function returns
//! exactly what the corresponding grammar spec function (`sp_...` in the
//! decoder module) denotes, so every property of the grammar carries over
//! to the running code.
use crate::decode::dec_val;
use crate::decode::int_val;
use crate::decode::sp_bool;
use crate::decode::sp_camera;
use crate::decode::sp_camera_fields;
use crate::decode::sp_camera_next;
use crate::decode::sp_canvas;
use crate::decode::sp_canvas_doc;
use crate::decode::sp_canvas_fields;
use crate::decode::sp_canvas_next;
use crate::decode::sp_ids;
use crate::decode::sp_ids_items;
use crate::decode::sp_int;
use crate::decode::sp_layer;
use crate::decode::sp_layer_fields;
use crate::decode::sp_layer_next;
use crate::decode::sp_layers;
use crate::decode::sp_layers_items;
use crate::decode::sp_num;
use crate::decode::sp_point;
use crate::decode::sp_point_fields;
use crate::decode::sp_point_next;
use crate::decode::sp_points;
use crate::decode::sp_points_items;
use crate::decode::sp_skip;
use crate::decode::sp_skip_value;
use crate::decode::sp_str_chars;
use crate::decode::sp_string;
use crate::decode::sp_stroke;
use crate::decode::sp_stroke_fields;
use crate::decode::sp_stroke_next;
use crate::decode::sp_strokes;
use crate::decode::sp_strokes_items;
use crate::errors::StoreError;
use crate::model::Camera;
use crate::model::CameraV;
use crate::model::CanvasState;
use crate::model::CanvasV;
use crate::model::Layer;
use crate::model::LayerV;
use crate::model::Num;
use crate::model::Point;
use crate::model::PointV;
use crate::model::Stroke;
use crate::model::StrokeV;
use crate::text::chars_to_string;
use crate::text::digits_end;
use crate::text::hex_val;
use crate::text::int_token;
use crate::text::is_digit;
use crate::text::is_num_char;
use crate::text::lemma_digits_end;
use crate::text::lemma_digits_scan_exact;
use crate::text::lemma_num_chars_end;
use crate::text::num_chars_end;
use crate::text::num_token_chars;
use crate::text::str_chars;
use vstd::prelude::*;

verus! {

broadcast use vstd::utf8::char_u32_cast;

use vstd::string::StringExecFns;
use vstd::utf8::is_scalar;

/// Relies on `char::from_u32`: succeeds exactly on Unicode scalar values,
/// returning the character with that value.
#[verifier::external_body]
fn char_from_u32(v: u32) -> (r: Option<char>)
    ensures
        match r {
            Some(c) => is_scalar(v) && c as u32 == v,
            None => !is_scalar(v),
        },
{
    char::from_u32(v)
}

fn is_digit_x(c: char) -> (r: bool)
    ensures
        r == is_digit(c),
{
    let v = c as u32;
    48 <= v && v <= 57
}

fn is_num_char_x(c: char) -> (r: bool)
    ensures
        r == is_num_char(c),
{
    is_digit_x(c) || c == '-' || c == '+' || c == '.' || c == 'e' || c == 'E'
}

fn hex_digit(c: char) -> (r: i32)
    ensures
        r as int == hex_val(c),
{
    let v = c as u32;
    if 48 <= v && v <= 57 {
        (v - 48) as i32
    } else if 97 <= v && v <= 102 {
        (v - 87) as i32
    } else if 65 <= v && v <= 70 {
        (v - 55) as i32
    } else {
        -1
    }
}

/// True when the parsed key equals the given field name.
fn is_key(k: &String, lit: &str) -> (r: bool)
    ensures
        r == (k@ == lit@),
{
    let s = String::from_str(lit);
    s.eq(k)
}

/// Parses a quoted string value.
#[verifier::rlimit(100)]
fn p_string(t: &Vec<char>, i: usize) -> (r: Option<(String, usize)>)
    requires
        i <= t@.len(),
    ensures
        match r {
            Some(v) => sp_string(t@, i as int) == Some((v.0@, v.1 as int)) && i < v.1 <= t@.len(),
            None => sp_string(t@, i as int) is None,
        },
{
    if i >= t.len() || t[i] != '"' {
        return None;
    }
    let mut acc: Vec<char> = Vec::new();
    let mut j: usize = i + 1;
    proof {
        assert(acc@ =~= Seq::<char>::empty());
    }
    loop
        invariant
            i + 1 <= j <= t@.len(),
            t@[i as int] == '"',
            sp_string(t@, i as int) == sp_str_chars(t@, j as int, acc@),
        decreases t@.len() - j,
    {
        let ghost j0 = j as int;
        let ghost a0 = acc@;
        if j >= t.len() {
            return None;
        }
        let c = t[j];
        if c == '"' {
            let s = chars_to_string(&acc);
            return Some((s, j + 1));
        }
        if c == '\\' {
            if j + 1 >= t.len() {
                return None;
            }
            let e = t[j + 1];
            if e == '"' {
                acc.push('"');
                j = j + 2;
            } else if e == '\\' {
                acc.push('\\');
                j = j + 2;
            } else if e == '/' {
                acc.push('/');
                j = j + 2;
            } else if e == 'b' {
                acc.push('\u{8}');
                j = j + 2;
            } else if e == 'f' {
                acc.push('\u{c}');
                j = j + 2;
            } else if e == 'n' {
                acc.push('\n');
                j = j + 2;
            } else if e == 'r' {
                acc.push('\r');
                j = j + 2;
            } else if e == 't' {
                acc.push('\t');
                j = j + 2;
            } else if e == 'u' {
                if t.len() - (j + 1) < 5 {
                    return None;
                }
                let h1 = hex_digit(t[j + 2]);
                let h2 = hex_digit(t[j + 3]);
                let h3 = hex_digit(t[j + 4]);
                let h4 = hex_digit(t[j + 5]);
                if h1 < 0 || h2 < 0 || h3 < 0 || h4 < 0 {
                    return None;
                }
                let v: u32 = (h1 * 4096 + h2 * 256 + h3 * 16 + h4) as u32;
                proof {
                    assert(v as int == hex_val(t@[j0 + 2]) * 4096 + hex_val(t@[j0 + 3]) * 256
                        + hex_val(t@[j0 + 4]) * 16 + hex_val(t@[j0 + 5]));
                }
                match char_from_u32(v) {
                    None => {
                        return None;
                    },
                    Some(c2) => {
                        proof {
                            vstd::utf8::char_u32_cast(c2, v);
                        }
                        acc.push(c2);
                        j = j + 6;
                    },
                }
            } else {
                return None;
            }
        } else {
            acc.push(c);
            j = j + 1;
        }
        proof {
            assert(sp_str_chars(t@, j0, a0) == sp_str_chars(t@, j as int, acc@));
        }
    }
}

/// Parses a number value into its token.
fn p_num(t: &Vec<char>, i: usize) -> (r: Option<(Num, usize)>)
    requires
        i <= t@.len(),
    ensures
        match r {
            Some(v) => sp_num(t@, i as int) == Some((v.0@, v.1 as int)) && i < v.1 <= t@.len(),
            None => sp_num(t@, i as int) is None,
        },
{
    let mut j: usize = i;
    while j < t.len() && is_num_char_x(t[j])
        invariant
            i <= j <= t@.len(),
            num_chars_end(t@, i as int) == num_chars_end(t@, j as int),
        decreases t@.len() - j,
    {
        j = j + 1;
    }
    proof {
        assert(num_chars_end(t@, j as int) == j as int);
    }
    if j == i {
        return None;
    }
    let mut buf: Vec<char> = Vec::new();
    let mut k: usize = i;
    proof {
        assert(buf@ =~= t@.subrange(i as int, i as int));
    }
    while k < j
        invariant
            i <= k <= j <= t@.len(),
            buf@ == t@.subrange(i as int, k as int),
        decreases j - k,
    {
        buf.push(t[k]);
        k = k + 1;
        proof {
            assert(buf@ =~= t@.subrange(i as int, k as int));
        }
    }
    if !num_token_chars(&buf) {
        return None;
    }
    let text = chars_to_string(&buf);
    Some((Num { text }, j))
}

spec fn pow10(n: int) -> int
    decreases n when n >= 0
{
    if n <= 0 {
        1
    } else {
        10 * pow10(n - 1)
    }
}

proof fn lemma_pow10_le(a: int, b: int)
    requires
        0 <= a <= b,
    ensures
        1 <= pow10(a) <= pow10(b),
    decreases b,
{
    if b == 0 {
    } else if a == b {
        lemma_pow10_le(a - 1, b - 1);
    } else {
        lemma_pow10_le(a, b - 1);
    }
}

proof fn lemma_dec_val_bounds(s: Seq<char>)
    requires
        forall|k: int| 0 <= k < s.len() ==> is_digit(s[k]),
    ensures
        0 <= dec_val(s) < pow10(s.len() as int),
    decreases s.len(),
{
    if s.len() == 0 {
    } else {
        assert(forall|k: int| 0 <= k < s.drop_last().len() ==> is_digit(#[trigger] s.drop_last()[k]));
        lemma_dec_val_bounds(s.drop_last());
        assert(is_digit(s.last()));
    }
}

proof fn lemma_dec_val_lower(s: Seq<char>)
    requires
        s.len() > 0,
        forall|k: int| 0 <= k < s.len() ==> is_digit(s[k]),
        s[0] != '0',
    ensures
        dec_val(s) >= pow10(s.len() - 1),
    decreases s.len(),
{
    if s.len() == 1 {
        assert(dec_val(s) == dec_val(s.drop_last()) * 10 + crate::text::digit_val(s.last()));
        assert(s.last() == s[0]);
        assert('0' as u32 == 48);
        if s[0] as u32 == 48 {
            vstd::utf8::char_u32_cast(s[0], 48u32);
            vstd::utf8::char_u32_cast('0', 48u32);
            assert(false);
        }
        assert(crate::text::digit_val(s[0]) >= 1);
    } else {
        assert(forall|k: int| 0 <= k < s.drop_last().len() ==> is_digit(#[trigger] s.drop_last()[k]));
        assert(s.drop_last()[0] == s[0]);
        lemma_dec_val_lower(s.drop_last());
        lemma_dec_val_bounds(s.drop_last());
        assert(crate::text::digit_val(s.last()) >= 0);
    }
}

/// Parses an integer value; the token must satisfy the integer grammar and
/// fit the timestamp type.
#[verifier::rlimit(100)]
fn p_int(t: &Vec<char>, i: usize) -> (r: Option<(i64, usize)>)
    requires
        i <= t@.len(),
    ensures
        match r {
            Some(v) => sp_int(t@, i as int) == Some((v.0 as int, v.1 as int)) && i < v.1
                <= t@.len(),
            None => sp_int(t@, i as int) is None,
        },
{
    let mut j: usize = i;
    while j < t.len() && is_num_char_x(t[j])
        invariant
            i <= j <= t@.len(),
            num_chars_end(t@, i as int) == num_chars_end(t@, j as int),
        decreases t@.len() - j,
    {
        j = j + 1;
    }
    proof {
        assert(num_chars_end(t@, j as int) == j as int);
    }
    let ghost tok = t@.subrange(i as int, j as int);
    if j == i {
        return None;
    }
    let neg = t[i] == '-';
    let p: usize = if neg {
        i + 1
    } else {
        i
    };
    proof {
        assert(tok.len() == j - i);
        assert forall|q: int| i <= q < j implies tok[q - i] == t@[q] by {}
    }
    if p >= j {
        return None;
    }
    let c0 = t[p];
    if !is_digit_x(c0) {
        return None;
    }
    if c0 == '0' && p + 1 < j {
        return None;
    }
    let mut q: usize = p;
    while q < j && is_digit_x(t[q])
        invariant
            p <= q <= j <= t@.len(),
            forall|w: int| p <= w < q ==> is_digit(t@[w]),
        decreases j - q,
    {
        q = q + 1;
    }
    if q < j {
        proof {
            lemma_digits_scan_exact(tok, (p - i) as int, (q - i) as int);
            assert(!int_token(tok));
        }
        return None;
    }
    proof {
        lemma_digits_scan_exact(tok, (p - i) as int, (j - i) as int);
        assert(int_token(tok));
    }
    let ghost digits = tok.skip((p - i) as int);
    proof {
        assert(digits =~= t@.subrange(p as int, j as int));
        assert(forall|w: int| 0 <= w < digits.len() ==> is_digit(#[trigger] digits[w]));
    }
    let count = j - p;
    if count > 19 {
        proof {
            assert(digits[0] == t@[p as int]);
            lemma_dec_val_lower(digits);
            lemma_pow10_le(19, digits.len() - 1);
            reveal_with_fuel(pow10, 21);
            assert(pow10(19) == 10000000000000000000);
            assert(dec_val(digits) >= 10000000000000000000);
            if neg {
                assert(int_val(tok) == -dec_val(digits));
            } else {
                assert(tok =~= digits);
                assert(int_val(tok) == dec_val(digits));
            }
        }
        return None;
    }
    let mut acc: u64 = 0;
    let mut w: usize = p;
    proof {
        assert(t@.subrange(p as int, p as int) =~= Seq::<char>::empty());
    }
    while w < j
        invariant
            p <= w <= j <= t@.len(),
            j - p <= 19,
            forall|z: int| p <= z < j ==> is_digit(t@[z]),
            acc == dec_val(t@.subrange(p as int, w as int)),
            acc < pow10((w - p) as int),
        decreases j - w,
    {
        let d = (t[w] as u32) - 48;
        proof {
            lemma_pow10_le((w - p) as int, 18);
            reveal_with_fuel(pow10, 21);
            assert(pow10(18) == 1000000000000000000);
            assert(acc * 10 + d <= (pow10(18) - 1) * 10 + 9) by (nonlinear_arith)
                requires
                    acc <= pow10(18) - 1,
                    d <= 9,
            ;
        }
        acc = acc * 10 + (d as u64);
        w = w + 1;
        proof {
            assert(t@.subrange(p as int, w as int).drop_last() =~= t@.subrange(
                p as int,
                w - 1,
            ));
            assert(t@.subrange(p as int, w as int).last() == t@[w - 1]);
            assert(pow10((w - p) as int) == 10 * pow10((w - p) - 1));
            assert(acc < pow10((w - p) as int)) by (nonlinear_arith)
                requires
                    acc == dec_val(t@.subrange(p as int, w as int)),
                    dec_val(t@.subrange(p as int, w - 1)) < pow10((w - p) - 1),
                    acc == dec_val(t@.subrange(p as int, w - 1)) * 10 + (t@[w - 1] as u32 - 48),
                    t@[w - 1] as u32 - 48 <= 9,
                    pow10((w - p) as int) == 10 * pow10((w - p) - 1),
                    dec_val(t@.subrange(p as int, w - 1)) >= 0,
            ;
        }
    }
    proof {
        assert(t@.subrange(p as int, j as int) =~= digits);
        if !neg {
            assert(tok =~= digits);
            assert(int_val(tok) == dec_val(digits));
        } else {
            assert(int_val(tok) == -dec_val(digits));
        }
    }
    if neg {
        if acc > 9223372036854775808u64 {
            return None;
        }
        if acc == 9223372036854775808u64 {
            return Some((i64::MIN, j));
        }
        let v: i64 = -(acc as i64);
        Some((v, j))
    } else {
        if acc > 9223372036854775807u64 {
            return None;
        }
        Some((acc as i64, j))
    }
}

/// Parses a boolean value.
fn p_bool(t: &Vec<char>, i: usize) -> (r: Option<(bool, usize)>)
    requires
        i <= t@.len(),
    ensures
        match r {
            Some(v) => sp_bool(t@, i as int) == Some((v.0, v.1 as int)) && i < v.1 <= t@.len(),
            None => sp_bool(t@, i as int) is None,
        },
{
    if i < t.len() && t.len() - i > 3 && t[i] == 't' && t[i + 1] == 'r' && t[i + 2] == 'u' && t[i
        + 3] == 'e' {
        Some((true, i + 4))
    } else if i < t.len() && t.len() - i > 4 && t[i] == 'f' && t[i + 1] == 'a' && t[i + 2] == 'l'
        && t[i + 3] == 's' && t[i + 4] == 'e' {
        Some((false, i + 5))
    } else {
        None
    }
}

/// Skips an unknown field's value by bracket matching.
fn p_skip_value(t: &Vec<char>, i: usize) -> (r: Option<usize>)
    requires
        i <= t@.len(),
    ensures
        match r {
            Some(j) => sp_skip_value(t@, i as int) == Some(j as int) && i < j <= t@.len(),
            None => sp_skip_value(t@, i as int) is None,
        },
{
    if i >= t.len() {
        return None;
    }
    let c = t[i];
    if c == ',' || c == ']' || c == '}' {
        return None;
    }
    let mut j: usize = i;
    let mut depth: usize = 0;
    let mut instr = false;
    let mut esc = false;
    loop
        invariant
            i <= j <= t@.len(),
            i < t@.len(),
            t@[i as int] != ',' && t@[i as int] != ']' && t@[i as int] != '}',
            depth <= j - i,
            j == i ==> depth == 0 && !instr && !esc,
            !instr ==> !esc,
            sp_skip_value(t@, i as int) == sp_skip(t@, j as int, depth as int, instr, esc),
        decreases t@.len() - j,
    {
        let ghost j0 = j as int;
        let ghost d0 = depth as int;
        let ghost in0 = instr;
        let ghost e0 = esc;
        if instr {
            if j >= t.len() {
                return None;
            }
            let c2 = t[j];
            if esc {
                esc = false;
            } else if c2 == '\\' {
                esc = true;
            } else if c2 == '"' {
                instr = false;
            }
            j = j + 1;
        } else {
            if depth == 0 {
                if j >= t.len() {
                    return Some(j);
                }
                let c2 = t[j];
                if c2 == ',' || c2 == ']' || c2 == '}' {
                    return Some(j);
                }
            }
            if j >= t.len() {
                return None;
            }
            let c2 = t[j];
            if c2 == '"' {
                instr = true;
                esc = false;
                j = j + 1;
            } else if c2 == '{' || c2 == '[' {
                depth = depth + 1;
                j = j + 1;
            } else if c2 == '}' || c2 == ']' {
                depth = depth - 1;
                j = j + 1;
            } else {
                j = j + 1;
            }
        }
        proof {
            assert(sp_skip(t@, j0, d0, in0, e0) == sp_skip(t@, j as int, depth as int, instr, esc));
        }
    }
}

pub open spec fn onum(o: Option<Num>) -> Option<Seq<char>> {
    match o {
        Some(n) => Some(n@),
        None => None,
    }
}

pub open spec fn ostr(o: Option<String>) -> Option<Seq<char>> {
    match o {
        Some(s) => Some(s@),
        None => None,
    }
}

pub open spec fn oint(o: Option<i64>) -> Option<int> {
    match o {
        Some(v) => Some(v as int),
        None => None,
    }
}

pub open spec fn opts(o: Option<Vec<Point>>) -> Option<Seq<PointV>> {
    match o {
        Some(v) => Some(v@.map_values(|p: Point| p@)),
        None => None,
    }
}

pub open spec fn oids(o: Option<Vec<String>>) -> Option<Seq<Seq<char>>> {
    match o {
        Some(v) => Some(v@.map_values(|s: String| s@)),
        None => None,
    }
}

pub open spec fn ocam(o: Option<Camera>) -> Option<CameraV> {
    match o {
        Some(c) => Some(c@),
        None => None,
    }
}

pub open spec fn olays(o: Option<Vec<Layer>>) -> Option<Seq<LayerV>> {
    match o {
        Some(v) => Some(v@.map_values(|l: Layer| l@)),
        None => None,
    }
}

pub open spec fn ostks(o: Option<Vec<(String, Stroke)>>) -> Option<Seq<(Seq<char>, StrokeV)>> {
    match o {
        Some(v) => Some(v@.map_values(|kv: (String, Stroke)| (kv.0@, kv.1@))),
        None => None,
    }
}

/// Parses a point object.
#[verifier::rlimit(100)]
fn p_point(t: &Vec<char>, i: usize) -> (r: Option<(Point, usize)>)
    requires
        i <= t@.len(),
    ensures
        match r {
            Some(v) => sp_point(t@, i as int) == Some((v.0@, v.1 as int)) && i < v.1 <= t@.len(),
            None => sp_point(t@, i as int) is None,
        },
{
    if i >= t.len() || t[i] != '{' {
        return None;
    }
    if i + 1 >= t.len() {
        return None;
    }
    if t[i + 1] == '}' {
        return None;
    }
    let mut x: Option<Num> = None;
    let mut y: Option<Num> = None;
    let mut j: usize = i + 1;
    loop
        invariant
            i + 1 <= j <= t@.len(),
            sp_point(t@, i as int) == sp_point_fields(t@, j as int, onum(x), onum(y)),
        decreases t@.len() - j,
    {
        proof {
            reveal_strlit("x");
            reveal_strlit("y");
            assert("x"@ =~= crate::encode::key_x());
            assert("y"@ =~= crate::encode::key_y());
        }
        let ghost j0 = j as int;
        let ghost x0 = onum(x);
        let ghost y0 = onum(y);
        let kj = match p_string(t, j) {
            None => {
                return None;
            },
            Some(kj) => kj,
        };
        let k = kj.0;
        let j2 = kj.1;
        if j2 >= t.len() || t[j2] != ':' {
            return None;
        }
        let m: usize;
        if is_key(&k, "x") {
            if x.is_some() {
                return None;
            }
            let vm = match p_num(t, j2 + 1) {
                None => {
                    return None;
                },
                Some(vm) => vm,
            };
            x = Some(vm.0);
            m = vm.1;
        } else if is_key(&k, "y") {
            if y.is_some() {
                return None;
            }
            let vm = match p_num(t, j2 + 1) {
                None => {
                    return None;
                },
                Some(vm) => vm,
            };
            y = Some(vm.0);
            m = vm.1;
        } else {
            m = match p_skip_value(t, j2 + 1) {
                None => {
                    return None;
                },
                Some(mm) => mm,
            };
        }
        proof {
            assert(sp_point_fields(t@, j0, x0, y0) == sp_point_next(
                t@,
                m as int,
                onum(x),
                onum(y),
            ));
        }
        if m >= t.len() {
            return None;
        }
        if t[m] == ',' {
            j = m + 1;
        } else if t[m] == '}' {
            if x.is_some() && y.is_some() {
                let p = Point { x: x.unwrap(), y: y.unwrap() };
                return Some((p, m + 1));
            }
            return None;
        } else {
            return None;
        }
    }
}

/// Parses a camera object.
#[verifier::rlimit(100)]
fn p_camera(t: &Vec<char>, i: usize) -> (r: Option<(Camera, usize)>)
    requires
        i <= t@.len(),
    ensures
        match r {
            Some(v) => sp_camera(t@, i as int) == Some((v.0@, v.1 as int)) && i < v.1 <= t@.len(),
            None => sp_camera(t@, i as int) is None,
        },
{
    if i >= t.len() || t[i] != '{' {
        return None;
    }
    if i + 1 >= t.len() {
        return None;
    }
    if t[i + 1] == '}' {
        return None;
    }
    let mut x: Option<Num> = None;
    let mut y: Option<Num> = None;
    let mut zoom: Option<Num> = None;
    let mut j: usize = i + 1;
    loop
        invariant
            i + 1 <= j <= t@.len(),
            sp_camera(t@, i as int) == sp_camera_fields(t@, j as int, onum(x), onum(y), onum(zoom)),
        decreases t@.len() - j,
    {
        proof {
            reveal_strlit("x");
            reveal_strlit("y");
            reveal_strlit("zoom");
            assert("x"@ =~= crate::encode::key_x());
            assert("y"@ =~= crate::encode::key_y());
            assert("zoom"@ =~= crate::encode::key_zoom());
        }
        let ghost j0 = j as int;
        let ghost x0 = onum(x);
        let ghost y0 = onum(y);
        let ghost z0 = onum(zoom);
        let kj = match p_string(t, j) {
            None => {
                return None;
            },
            Some(kj) => kj,
        };
        let k = kj.0;
        let j2 = kj.1;
        if j2 >= t.len() || t[j2] != ':' {
            return None;
        }
        let m: usize;
        if is_key(&k, "x") {
            if x.is_some() {
                return None;
            }
            let vm = match p_num(t, j2 + 1) {
                None => {
                    return None;
                },
                Some(vm) => vm,
            };
            x = Some(vm.0);
            m = vm.1;
        } else if is_key(&k, "y") {
            if y.is_some() {
                return None;
            }
            let vm = match p_num(t, j2 + 1) {
                None => {
                    return None;
                },
                Some(vm) => vm,
            };
            y = Some(vm.0);
            m = vm.1;
        } else if is_key(&k, "zoom") {
            if zoom.is_some() {
                return None;
            }
            let vm = match p_num(t, j2 + 1) {
                None => {
                    return None;
                },
                Some(vm) => vm,
            };
            zoom = Some(vm.0);
            m = vm.1;
        } else {
            m = match p_skip_value(t, j2 + 1) {
                None => {
                    return None;
                },
                Some(mm) => mm,
            };
        }
        proof {
            assert(sp_camera_fields(t@, j0, x0, y0, z0) == sp_camera_next(
                t@,
                m as int,
                onum(x),
                onum(y),
                onum(zoom),
            ));
        }
        if m >= t.len() {
            return None;
        }
        if t[m] == ',' {
            j = m + 1;
        } else if t[m] == '}' {
            if x.is_some() && y.is_some() && zoom.is_some() {
                let c = Camera { x: x.unwrap(), y: y.unwrap(), zoom: zoom.unwrap() };
                return Some((c, m + 1));
            }
            return None;
        } else {
            return None;
        }
    }
}

/// Parses an array of points.
fn p_points(t: &Vec<char>, i: usize) -> (r: Option<(Vec<Point>, usize)>)
    requires
        i <= t@.len(),
    ensures
        match r {
            Some(v) => sp_points(t@, i as int) == Some(
                (v.0@.map_values(|p: Point| p@), v.1 as int),
            ) && i < v.1 <= t@.len(),
            None => sp_points(t@, i as int) is None,
        },
{
    if i >= t.len() || t[i] != '[' {
        return None;
    }
    if i + 1 >= t.len() {
        return None;
    }
    if t[i + 1] == ']' {
        let empty: Vec<Point> = Vec::new();
        proof {
            assert(empty@.map_values(|p: Point| p@) =~= Seq::<PointV>::empty());
        }
        return Some((empty, i + 2));
    }
    let mut acc: Vec<Point> = Vec::new();
    let mut j: usize = i + 1;
    proof {
        assert(acc@.map_values(|p: Point| p@) =~= Seq::<PointV>::empty());
    }
    loop
        invariant
            i + 1 <= j <= t@.len(),
            sp_points(t@, i as int) == sp_points_items(
                t@,
                j as int,
                acc@.map_values(|p: Point| p@),
            ),
        decreases t@.len() - j,
    {
        let ghost j0 = j as int;
        let ghost a0 = acc@.map_values(|p: Point| p@);
        let pj = match p_point(t, j) {
            None => {
                return None;
            },
            Some(pj) => pj,
        };
        let j2 = pj.1;
        acc.push(pj.0);
        proof {
            assert(acc@.map_values(|p: Point| p@) =~= a0.push(acc@.last()@));
        }
        if j2 >= t.len() {
            return None;
        }
        if t[j2] == ',' {
            j = j2 + 1;
        } else if t[j2] == ']' {
            return Some((acc, j2 + 1));
        } else {
            return None;
        }
    }
}

/// Parses an array of strings.
fn p_ids(t: &Vec<char>, i: usize) -> (r: Option<(Vec<String>, usize)>)
    requires
        i <= t@.len(),
    ensures
        match r {
            Some(v) => sp_ids(t@, i as int) == Some((v.0@.map_values(|s: String| s@), v.1 as int))
                && i < v.1 <= t@.len(),
            None => sp_ids(t@, i as int) is None,
        },
{
    if i >= t.len() || t[i] != '[' {
        return None;
    }
    if i + 1 >= t.len() {
        return None;
    }
    if t[i + 1] == ']' {
        let empty: Vec<String> = Vec::new();
        proof {
            assert(empty@.map_values(|s: String| s@) =~= Seq::<Seq<char>>::empty());
        }
        return Some((empty, i + 2));
    }
    let mut acc: Vec<String> = Vec::new();
    let mut j: usize = i + 1;
    proof {
        assert(acc@.map_values(|s: String| s@) =~= Seq::<Seq<char>>::empty());
    }
    loop
        invariant
            i + 1 <= j <= t@.len(),
            sp_ids(t@, i as int) == sp_ids_items(t@, j as int, acc@.map_values(|s: String| s@)),
        decreases t@.len() - j,
    {
        let ghost j0 = j as int;
        let ghost a0 = acc@.map_values(|s: String| s@);
        let pj = match p_string(t, j) {
            None => {
                return None;
            },
            Some(pj) => pj,
        };
        let j2 = pj.1;
        acc.push(pj.0);
        proof {
            assert(acc@.map_values(|s: String| s@) =~= a0.push(acc@.last()@));
        }
        if j2 >= t.len() {
            return None;
        }
        if t[j2] == ',' {
            j = j2 + 1;
        } else if t[j2] == ']' {
            return Some((acc, j2 + 1));
        } else {
            return None;
        }
    }
}

/// Parses a stroke object.
#[verifier::rlimit(100)]
#[verifier::spinoff_prover]
fn p_stroke(t: &Vec<char>, i: usize) -> (r: Option<(Stroke, usize)>)
    requires
        i <= t@.len(),
    ensures
        match r {
            Some(v) => sp_stroke(t@, i as int) == Some((v.0@, v.1 as int)) && i < v.1 <= t@.len(),
            None => sp_stroke(t@, i as int) is None,
        },
{
    if i >= t.len() || t[i] != '{' {
        return None;
    }
    if i + 1 >= t.len() {
        return None;
    }
    if t[i + 1] == '}' {
        return None;
    }
    let mut id: Option<String> = None;
    let mut points: Option<Vec<Point>> = None;
    let mut color: Option<String> = None;
    let mut width: Option<Num> = None;
    let mut layer_id: Option<String> = None;
    let mut timestamp: Option<i64> = None;
    let mut j: usize = i + 1;
    loop
        invariant
            i + 1 <= j <= t@.len(),
            sp_stroke(t@, i as int) == sp_stroke_fields(
                t@,
                j as int,
                ostr(id),
                opts(points),
                ostr(color),
                onum(width),
                ostr(layer_id),
                oint(timestamp),
            ),
        decreases t@.len() - j,
    {
        proof {
            reveal_strlit("id");
            reveal_strlit("points");
            reveal_strlit("color");
            reveal_strlit("width");
            reveal_strlit("layerId");
            reveal_strlit("timestamp");
            assert("id"@ =~= crate::encode::key_id());
            assert("points"@ =~= crate::encode::key_points());
            assert("color"@ =~= crate::encode::key_color());
            assert("width"@ =~= crate::encode::key_width());
            assert("layerId"@ =~= crate::encode::key_layer_id());
            assert("timestamp"@ =~= crate::encode::key_timestamp());
        }
        let ghost j0 = j as int;
        let ghost s1 = ostr(id);
        let ghost s2 = opts(points);
        let ghost s3 = ostr(color);
        let ghost s4 = onum(width);
        let ghost s5 = ostr(layer_id);
        let ghost s6 = oint(timestamp);
        let kj = match p_string(t, j) {
            None => {
                return None;
            },
            Some(kj) => kj,
        };
        let k = kj.0;
        let j2 = kj.1;
        if j2 >= t.len() || t[j2] != ':' {
            return None;
        }
        let m: usize;
        if is_key(&k, "id") {
            if id.is_some() {
                return None;
            }
            let vm = match p_string(t, j2 + 1) {
                None => {
                    return None;
                },
                Some(vm) => vm,
            };
            id = Some(vm.0);
            m = vm.1;
        } else if is_key(&k, "points") {
            if points.is_some() {
                return None;
            }
            let vm = match p_points(t, j2 + 1) {
                None => {
                    return None;
                },
                Some(vm) => vm,
            };
            points = Some(vm.0);
            m = vm.1;
        } else if is_key(&k, "color") {
            if color.is_some() {
                return None;
            }
            let vm = match p_string(t, j2 + 1) {
                None => {
                    return None;
                },
                Some(vm) => vm,
            };
            color = Some(vm.0);
            m = vm.1;
        } else if is_key(&k, "width") {
            if width.is_some() {
                return None;
            }
            let vm = match p_num(t, j2 + 1) {
                None => {
                    return None;
                },
                Some(vm) => vm,
            };
            width = Some(vm.0);
            m = vm.1;
        } else if is_key(&k, "layerId") {
            if layer_id.is_some() {
                return None;
            }
            let vm = match p_string(t, j2 + 1) {
                None => {
                    return None;
                },
                Some(vm) => vm,
            };
            layer_id = Some(vm.0);
            m = vm.1;
        } else if is_key(&k, "timestamp") {
            if timestamp.is_some() {
                return None;
            }
            let vm = match p_int(t, j2 + 1) {
                None => {
                    return None;
                },
                Some(vm) => vm,
            };
            timestamp = Some(vm.0);
            m = vm.1;
        } else {
            m = match p_skip_value(t, j2 + 1) {
                None => {
                    return None;
                },
                Some(mm) => mm,
            };
        }
        proof {
            assert(sp_stroke_fields(t@, j0, s1, s2, s3, s4, s5, s6) == sp_stroke_next(
                t@,
                m as int,
                ostr(id),
                opts(points),
                ostr(color),
                onum(width),
                ostr(layer_id),
                oint(timestamp),
            ));
        }
        if m >= t.len() {
            return None;
        }
        if t[m] == ',' {
            j = m + 1;
        } else if t[m] == '}' {
            if id.is_some() && points.is_some() && color.is_some() && width.is_some()
                && layer_id.is_some() && timestamp.is_some() {
                let s = Stroke {
                    id: id.unwrap(),
                    points: points.unwrap(),
                    color: color.unwrap(),
                    width: width.unwrap(),
                    layer_id: layer_id.unwrap(),
                    timestamp: timestamp.unwrap(),
                };
                return Some((s, m + 1));
            }
            return None;
        } else {
            return None;
        }
    }
}

/// Parses a layer object.
#[verifier::rlimit(100)]
fn p_layer(t: &Vec<char>, i: usize) -> (r: Option<(Layer, usize)>)
    requires
        i <= t@.len(),
    ensures
        match r {
            Some(v) => sp_layer(t@, i as int) == Some((v.0@, v.1 as int)) && i < v.1 <= t@.len(),
            None => sp_layer(t@, i as int) is None,
        },
{
    if i >= t.len() || t[i] != '{' {
        return None;
    }
    if i + 1 >= t.len() {
        return None;
    }
    if t[i + 1] == '}' {
        return None;
    }
    let mut id: Option<String> = None;
    let mut name: Option<String> = None;
    let mut visible: Option<bool> = None;
    let mut locked: Option<bool> = None;
    let mut opacity: Option<Num> = None;
    let mut stroke_ids: Option<Vec<String>> = None;
    let mut j: usize = i + 1;
    loop
        invariant
            i + 1 <= j <= t@.len(),
            sp_layer(t@, i as int) == sp_layer_fields(
                t@,
                j as int,
                ostr(id),
                ostr(name),
                visible,
                locked,
                onum(opacity),
                oids(stroke_ids),
            ),
        decreases t@.len() - j,
    {
        proof {
            reveal_strlit("id");
            reveal_strlit("name");
            reveal_strlit("visible");
            reveal_strlit("locked");
            reveal_strlit("opacity");
            reveal_strlit("strokeIds");
            assert("id"@ =~= crate::encode::key_id());
            assert("name"@ =~= crate::encode::key_name());
            assert("visible"@ =~= crate::encode::key_visible());
            assert("locked"@ =~= crate::encode::key_locked());
            assert("opacity"@ =~= crate::encode::key_opacity());
            assert("strokeIds"@ =~= crate::encode::key_stroke_ids());
        }
        let ghost j0 = j as int;
        let ghost s1 = ostr(id);
        let ghost s2 = ostr(name);
        let ghost s3 = visible;
        let ghost s4 = locked;
        let ghost s5 = onum(opacity);
        let ghost s6 = oids(stroke_ids);
        let kj = match p_string(t, j) {
            None => {
                return None;
            },
            Some(kj) => kj,
        };
        let k = kj.0;
        let j2 = kj.1;
        if j2 >= t.len() || t[j2] != ':' {
            return None;
        }
        let m: usize;
        if is_key(&k, "id") {
            if id.is_some() {
                return None;
            }
            let vm = match p_string(t, j2 + 1) {
                None => {
                    return None;
                },
                Some(vm) => vm,
            };
            id = Some(vm.0);
            m = vm.1;
        } else if is_key(&k, "name") {
            if name.is_some() {
                return None;
            }
            let vm = match p_string(t, j2 + 1) {
                None => {
                    return None;
                },
                Some(vm) => vm,
            };
            name = Some(vm.0);
            m = vm.1;
        } else if is_key(&k, "visible") {
            if visible.is_some() {
                return None;
            }
            let vm = match p_bool(t, j2 + 1) {
                None => {
                    return None;
                },
                Some(vm) => vm,
            };
            visible = Some(vm.0);
            m = vm.1;
        } else if is_key(&k, "locked") {
            if locked.is_some() {
                return None;
            }
            let vm = match p_bool(t, j2 + 1) {
                None => {
                    return None;
                },
                Some(vm) => vm,
            };
            locked = Some(vm.0);
            m = vm.1;
        } else if is_key(&k, "opacity") {
            if opacity.is_some() {
                return None;
            }
            let vm = match p_num(t, j2 + 1) {
                None => {
                    return None;
                },
                Some(vm) => vm,
            };
            opacity = Some(vm.0);
            m = vm.1;
        } else if is_key(&k, "strokeIds") {
            if stroke_ids.is_some() {
                return None;
            }
            let vm = match p_ids(t, j2 + 1) {
                None => {
                    return None;
                },
                Some(vm) => vm,
            };
            stroke_ids = Some(vm.0);
            m = vm.1;
        } else {
            m = match p_skip_value(t, j2 + 1) {
                None => {
                    return None;
                },
                Some(mm) => mm,
            };
        }
        proof {
            assert(sp_layer_fields(t@, j0, s1, s2, s3, s4, s5, s6) == sp_layer_next(
                t@,
                m as int,
                ostr(id),
                ostr(name),
                visible,
                locked,
                onum(opacity),
                oids(stroke_ids),
            ));
        }
        if m >= t.len() {
            return None;
        }
        if t[m] == ',' {
            j = m + 1;
        } else if t[m] == '}' {
            if id.is_some() && name.is_some() && visible.is_some() && locked.is_some()
                && opacity.is_some() && stroke_ids.is_some() {
                let l = Layer {
                    id: id.unwrap(),
                    name: name.unwrap(),
                    visible: visible.unwrap(),
                    locked: locked.unwrap(),
                    opacity: opacity.unwrap(),
                    stroke_ids: stroke_ids.unwrap(),
                };
                return Some((l, m + 1));
            }
            return None;
        } else {
            return None;
        }
    }
}

/// Parses an array of layers.
fn p_layers(t: &Vec<char>, i: usize) -> (r: Option<(Vec<Layer>, usize)>)
    requires
        i <= t@.len(),
    ensures
        match r {
            Some(v) => sp_layers(t@, i as int) == Some(
                (v.0@.map_values(|l: Layer| l@), v.1 as int),
            ) && i < v.1 <= t@.len(),
            None => sp_layers(t@, i as int) is None,
        },
{
    if i >= t.len() || t[i] != '[' {
        return None;
    }
    if i + 1 >= t.len() {
        return None;
    }
    if t[i + 1] == ']' {
        let empty: Vec<Layer> = Vec::new();
        proof {
            assert(empty@.map_values(|l: Layer| l@) =~= Seq::<LayerV>::empty());
        }
        return Some((empty, i + 2));
    }
    let mut acc: Vec<Layer> = Vec::new();
    let mut j: usize = i + 1;
    proof {
        assert(acc@.map_values(|l: Layer| l@) =~= Seq::<LayerV>::empty());
    }
    loop
        invariant
            i + 1 <= j <= t@.len(),
            sp_layers(t@, i as int) == sp_layers_items(
                t@,
                j as int,
                acc@.map_values(|l: Layer| l@),
            ),
        decreases t@.len() - j,
    {
        let ghost j0 = j as int;
        let ghost a0 = acc@.map_values(|l: Layer| l@);
        let pj = match p_layer(t, j) {
            None => {
                return None;
            },
            Some(pj) => pj,
        };
        let j2 = pj.1;
        acc.push(pj.0);
        proof {
            assert(acc@.map_values(|l: Layer| l@) =~= a0.push(acc@.last()@));
        }
        if j2 >= t.len() {
            return None;
        }
        if t[j2] == ',' {
            j = j2 + 1;
        } else if t[j2] == ']' {
            return Some((acc, j2 + 1));
        } else {
            return None;
        }
    }
}

/// Parses the stroke mapping: an object of stroke ids to strokes, kept in
/// the order the text gives them.
fn p_strokes(t: &Vec<char>, i: usize) -> (r: Option<(Vec<(String, Stroke)>, usize)>)
    requires
        i <= t@.len(),
    ensures
        match r {
            Some(v) => sp_strokes(t@, i as int) == Some(
                (v.0@.map_values(|kv: (String, Stroke)| (kv.0@, kv.1@)), v.1 as int),
            ) && i < v.1 <= t@.len(),
            None => sp_strokes(t@, i as int) is None,
        },
{
    if i >= t.len() || t[i] != '{' {
        return None;
    }
    if i + 1 >= t.len() {
        return None;
    }
    if t[i + 1] == '}' {
        let empty: Vec<(String, Stroke)> = Vec::new();
        proof {
            assert(empty@.map_values(|kv: (String, Stroke)| (kv.0@, kv.1@)) =~= Seq::<
                (Seq<char>, StrokeV),
            >::empty());
        }
        return Some((empty, i + 2));
    }
    let mut acc: Vec<(String, Stroke)> = Vec::new();
    let mut j: usize = i + 1;
    proof {
        assert(acc@.map_values(|kv: (String, Stroke)| (kv.0@, kv.1@)) =~= Seq::<
            (Seq<char>, StrokeV),
        >::empty());
    }
    loop
        invariant
            i + 1 <= j <= t@.len(),
            sp_strokes(t@, i as int) == sp_strokes_items(
                t@,
                j as int,
                acc@.map_values(|kv: (String, Stroke)| (kv.0@, kv.1@)),
            ),
        decreases t@.len() - j,
    {
        let ghost j0 = j as int;
        let ghost a0 = acc@.map_values(|kv: (String, Stroke)| (kv.0@, kv.1@));
        let kj = match p_string(t, j) {
            None => {
                return None;
            },
            Some(kj) => kj,
        };
        let k = kj.0;
        let j2 = kj.1;
        if j2 >= t.len() || t[j2] != ':' {
            return None;
        }
        let sm = match p_stroke(t, j2 + 1) {
            None => {
                return None;
            },
            Some(sm) => sm,
        };
        let m = sm.1;
        acc.push((k, sm.0));
        proof {
            assert(acc@.map_values(|kv: (String, Stroke)| (kv.0@, kv.1@)) =~= a0.push(
                (acc@.last().0@, acc@.last().1@),
            ));
        }
        if m >= t.len() {
            return None;
        }
        if t[m] == ',' {
            j = m + 1;
        } else if t[m] == '}' {
            return Some((acc, m + 1));
        } else {
            return None;
        }
    }
}

/// The partly gathered fields of a document object while its members are
/// read.
struct CanvasSlots {
    layers: Option<Vec<Layer>>,
    strokes: Option<Vec<(String, Stroke)>>,
    camera: Option<Camera>,
    active_layer_id: Option<String>,
    active_tool: Option<String>,
    active_color: Option<String>,
    active_width: Option<Num>,
}

/// Parses one member of the document object: a key, its colon, and its
/// value, filling the slot the key names or skipping an unknown value.
#[verifier::rlimit(100)]
#[verifier::spinoff_prover]
fn p_canvas_member(t: &Vec<char>, j: usize, s: CanvasSlots) -> (r: Option<(CanvasSlots, usize)>)
    requires
        j <= t@.len(),
    ensures
        match r {
            Some(v) => sp_canvas_fields(
                t@,
                j as int,
                olays(s.layers),
                ostks(s.strokes),
                ocam(s.camera),
                ostr(s.active_layer_id),
                ostr(s.active_tool),
                ostr(s.active_color),
                onum(s.active_width),
            ) == sp_canvas_next(
                t@,
                v.1 as int,
                olays(v.0.layers),
                ostks(v.0.strokes),
                ocam(v.0.camera),
                ostr(v.0.active_layer_id),
                ostr(v.0.active_tool),
                ostr(v.0.active_color),
                onum(v.0.active_width),
            ) && j < v.1 <= t@.len(),
            None => sp_canvas_fields(
                t@,
                j as int,
                olays(s.layers),
                ostks(s.strokes),
                ocam(s.camera),
                ostr(s.active_layer_id),
                ostr(s.active_tool),
                ostr(s.active_color),
                onum(s.active_width),
            ) is None,
        },
{
    proof {
        reveal_strlit("layers");
        reveal_strlit("strokes");
        reveal_strlit("camera");
        reveal_strlit("activeLayerId");
        reveal_strlit("activeTool");
        reveal_strlit("activeColor");
        reveal_strlit("activeWidth");
        assert("layers"@ =~= crate::encode::key_layers());
        assert("strokes"@ =~= crate::encode::key_strokes());
        assert("camera"@ =~= crate::encode::key_camera());
        assert("activeLayerId"@ =~= crate::encode::key_active_layer_id());
        assert("activeTool"@ =~= crate::encode::key_active_tool());
        assert("activeColor"@ =~= crate::encode::key_active_color());
        assert("activeWidth"@ =~= crate::encode::key_active_width());
    }
    let mut s = s;
    let kj = match p_string(t, j) {
        None => {
            return None;
        },
        Some(kj) => kj,
    };
    let k = kj.0;
    let j2 = kj.1;
    if j2 >= t.len() || t[j2] != ':' {
        return None;
    }
    let m: usize;
    if is_key(&k, "layers") {
        if s.layers.is_some() {
            return None;
        }
        let vm = match p_layers(t, j2 + 1) {
            None => {
                return None;
            },
            Some(vm) => vm,
        };
        s.layers = Some(vm.0);
        m = vm.1;
    } else if is_key(&k, "strokes") {
        if s.strokes.is_some() {
            return None;
        }
        let vm = match p_strokes(t, j2 + 1) {
            None => {
                return None;
            },
            Some(vm) => vm,
        };
        s.strokes = Some(vm.0);
        m = vm.1;
    } else if is_key(&k, "camera") {
        if s.camera.is_some() {
            return None;
        }
        let vm = match p_camera(t, j2 + 1) {
            None => {
                return None;
            },
            Some(vm) => vm,
        };
        s.camera = Some(vm.0);
        m = vm.1;
    } else if is_key(&k, "activeLayerId") {
        if s.active_layer_id.is_some() {
            return None;
        }
        let vm = match p_string(t, j2 + 1) {
            None => {
                return None;
            },
            Some(vm) => vm,
        };
        s.active_layer_id = Some(vm.0);
        m = vm.1;
    } else if is_key(&k, "activeTool") {
        if s.active_tool.is_some() {
            return None;
        }
        let vm = match p_string(t, j2 + 1) {
            None => {
                return None;
            },
            Some(vm) => vm,
        };
        s.active_tool = Some(vm.0);
        m = vm.1;
    } else if is_key(&k, "activeColor") {
        if s.active_color.is_some() {
            return None;
        }
        let vm = match p_string(t, j2 + 1) {
            None => {
                return None;
            },
            Some(vm) => vm,
        };
        s.active_color = Some(vm.0);
        m = vm.1;
    } else if is_key(&k, "activeWidth") {
        if s.active_width.is_some() {
            return None;
        }
        let vm = match p_num(t, j2 + 1) {
            None => {
                return None;
            },
            Some(vm) => vm,
        };
        s.active_width = Some(vm.0);
        m = vm.1;
    } else {
        m = match p_skip_value(t, j2 + 1) {
            None => {
                return None;
            },
            Some(mm) => mm,
        };
    }
    Some((s, m))
}

/// Parses a whole document object.
#[verifier::rlimit(100)]
#[verifier::spinoff_prover]
fn p_canvas(t: &Vec<char>, i: usize) -> (r: Option<(CanvasState, usize)>)
    requires
        i <= t@.len(),
    ensures
        match r {
            Some(v) => sp_canvas(t@, i as int) == Some((v.0@, v.1 as int)) && i < v.1 <= t@.len(),
            None => sp_canvas(t@, i as int) is None,
        },
{
    if i >= t.len() || t[i] != '{' {
        return None;
    }
    if i + 1 >= t.len() {
        return None;
    }
    if t[i + 1] == '}' {
        return None;
    }
    let mut s = CanvasSlots {
        layers: None,
        strokes: None,
        camera: None,
        active_layer_id: None,
        active_tool: None,
        active_color: None,
        active_width: None,
    };
    let mut j: usize = i + 1;
    loop
        invariant
            i + 1 <= j <= t@.len(),
            sp_canvas(t@, i as int) == sp_canvas_fields(
                t@,
                j as int,
                olays(s.layers),
                ostks(s.strokes),
                ocam(s.camera),
                ostr(s.active_layer_id),
                ostr(s.active_tool),
                ostr(s.active_color),
                onum(s.active_width),
            ),
        decreases t@.len() - j,
    {
        let sm = match p_canvas_member(t, j, s) {
            None => {
                return None;
            },
            Some(sm) => sm,
        };
        s = sm.0;
        let m = sm.1;
        if m >= t.len() {
            return None;
        }
        if t[m] == ',' {
            j = m + 1;
        } else if t[m] == '}' {
            if s.layers.is_some() && s.strokes.is_some() && s.camera.is_some()
                && s.active_layer_id.is_some() && s.active_tool.is_some()
                && s.active_color.is_some() && s.active_width.is_some() {
                let c = CanvasState {
                    layers: s.layers.unwrap(),
                    strokes: s.strokes.unwrap(),
                    camera: s.camera.unwrap(),
                    active_layer_id: s.active_layer_id.unwrap(),
                    active_tool: s.active_tool.unwrap(),
                    active_color: s.active_color.unwrap(),
                    active_width: s.active_width.unwrap(),
                };
                return Some((c, m + 1));
            }
            return None;
        } else {
            return None;
        }
    }
}

/// Decodes a document text. Succeeds exactly when the grammar accepts the
/// whole text, returning the document value it denotes; any other text is
/// a `Format` error, and no partially populated document is ever returned.
pub fn decode_canvas(text: &str) -> (r: Result<CanvasState, StoreError>)
    ensures
        match r {
            Ok(d) => sp_canvas_doc(text@) == Some(d@),
            Err(e) => sp_canvas_doc(text@) is None && e == StoreError::Format,
        },
{
    let t = str_chars(text);
    match p_canvas(&t, 0) {
        None => Err(StoreError::Format),
        Some(dj) => {
            if dj.1 == t.len() {
                Ok(dj.0)
            } else {
                Err(StoreError::Format)
            }
        },
    }
}

} // verus!
