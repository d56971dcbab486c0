//! The round-trip laws of the document format: the decoder recovers, from
//! the text the encoder wrote, exactly the document that was encoded. The
//! lemmas walk the grammar one production at a time and culminate in
//! `lemma_canvas_round_trip` and the save-then-load law `lemma_save_load`.
use crate::decode::dec_val;
use crate::decode::int_val;
use crate::decode::sp_bool;
use crate::codec::decompressed_of;
use crate::decode::sp_camera;
use crate::decode::sp_canvas;
use crate::decode::sp_canvas_doc;
use crate::decode::sp_canvas_fields;
use crate::decode::sp_canvas_next;
use crate::decode::sp_layer;
use crate::decode::sp_layer_fields;
use crate::decode::sp_layer_next;
use crate::decode::sp_layers;
use crate::decode::sp_layers_items;
use crate::decode::sp_stroke;
use crate::decode::sp_stroke_fields;
use crate::decode::sp_stroke_next;
use crate::decode::sp_strokes;
use crate::decode::sp_strokes_items;
use crate::decode::sp_camera_fields;
use crate::decode::sp_camera_next;
use crate::decode::sp_ids;
use crate::decode::sp_ids_items;
use crate::decode::sp_int;
use crate::decode::sp_num;
use crate::decode::sp_point;
use crate::decode::sp_point_fields;
use crate::decode::sp_point_next;
use crate::decode::sp_points;
use crate::decode::sp_points_items;
use crate::decode::sp_str_chars;
use crate::decode::sp_string;
use crate::encode::enc_camera;
use crate::encode::enc_canvas;
use crate::encode::enc_layer;
use crate::encode::enc_layers;
use crate::encode::enc_pair;
use crate::encode::enc_stroke;
use crate::encode::enc_strokes;
use crate::encode::key_active_color;
use crate::encode::key_active_layer_id;
use crate::encode::key_active_tool;
use crate::encode::key_active_width;
use crate::encode::key_camera;
use crate::encode::key_color;
use crate::encode::key_id;
use crate::encode::key_layer_id;
use crate::encode::key_layers;
use crate::encode::key_locked;
use crate::encode::key_name;
use crate::encode::key_opacity;
use crate::encode::key_points;
use crate::encode::key_stroke_ids;
use crate::encode::key_strokes;
use crate::encode::key_timestamp;
use crate::encode::key_visible;
use crate::encode::key_width;
use crate::encode::enc_ids;
use crate::encode::enc_key;
use crate::encode::join_comma;
use crate::encode::enc_point;
use crate::encode::enc_points;
use crate::encode::key_x;
use crate::encode::key_y;
use crate::encode::key_zoom;
use crate::errors::StoreError;
use crate::model::CameraV;
use crate::model::CanvasV;
use crate::model::LayerV;
use crate::model::StrokeV;
use crate::model::canvas_wf;
use crate::model::layer_wf;
use crate::model::stroke_wf;
use crate::store::spec_load;
use crate::model::PointV;
use crate::model::camera_wf;
use crate::model::point_wf;
use crate::encode::dec_digits;
use crate::encode::enc_bool;
use crate::encode::enc_i64;
use crate::encode::enc_string;
use crate::encode::esc_char;
use crate::encode::esc_string;
use crate::model::timestamp_wf;
use crate::text::digit_val;
use crate::text::hex_val;
use crate::text::int_token;
use crate::text::is_digit;
use crate::text::is_num_char;
use crate::text::lemma_digits_scan_exact;
use crate::text::lemma_num_scan_exact;
use crate::text::lemma_num_token_chars;
use crate::text::num_token;
use vstd::prelude::*;

verus! {

broadcast use {
    vstd::utf8::char_u32_cast,
    vstd::utf8::char_is_scalar,
    vstd::seq::group_seq_axioms,
    vstd::seq_lib::group_seq_lib_default,
};

/// Splitting a suffix of the text: what stands after a known leading piece.
proof fn lemma_skip_split(t: Seq<char>, i: int, a: Seq<char>, b: Seq<char>)
    requires
        0 <= i <= t.len(),
        t.skip(i) == a + b,
    ensures
        i + a.len() <= t.len(),
        t.skip(i + a.len()) == b,
{
    assert(t.skip(i).len() == t.len() - i);
    assert(t.skip(i + a.len()).len() == t.len() - (i + a.len()));
    assert(t.skip(i + a.len()) =~= b) by {
        assert forall|k: int| 0 <= k < b.len() implies t.skip(i + a.len())[k] == b[k] by {
            assert(t.skip(i)[a.len() + k] == (a + b)[a.len() + k]);
            assert((a + b)[a.len() + k] == b[k]);
            assert(t.skip(i)[a.len() + k] == t[i + a.len() + k]);
            assert(t.skip(i + a.len())[k] == t[i + a.len() + k]);
        }
    }
}

/// Reading the string body back: unescaping undoes the escaping.
proof fn lemma_str_chars_inv(t: Seq<char>, i: int, acc: Seq<char>, s: Seq<char>, rest: Seq<char>)
    requires
        0 <= i <= t.len(),
        t.skip(i) == esc_string(s) + seq!['"'] + rest,
    ensures
        sp_str_chars(t, i, acc) == Some((acc + s, i + esc_string(s).len() + 1)),
    decreases s.len(),
{
    assert(t.skip(i).len() == t.len() - i);
    if s.len() == 0 {
        assert(esc_string(s) == Seq::<char>::empty());
        assert(t.skip(i)[0] == (esc_string(s) + seq!['"'] + rest)[0]);
        assert((esc_string(s) + seq!['"'] + rest)[0] == '"');
        assert(t.skip(i)[0] == t[i]);
        assert(t[i] == '"');
        assert(acc + s =~= acc);
    } else {
        let c = s[0];
        let tail = s.skip(1);
        let e = esc_char(c);
        let after = esc_string(tail) + seq!['"'] + rest;
        assert(esc_string(s) == e + esc_string(tail));
        assert(t.skip(i) =~= e + after);
        lemma_skip_split(t, i, e, after);
        assert forall|k: int| 0 <= k < e.len() implies t[i + k] == e[k] by {
            assert(t.skip(i)[k] == (e + after)[k]);
            assert((e + after)[k] == e[k]);
            assert(t.skip(i)[k] == t[i + k]);
        }
        if c == '"' {
            assert(t[i] == '\\' && t[i + 1] == '"');
            lemma_str_chars_inv(t, i + 2, acc.push('"'), tail, rest);
            assert(acc.push(c) + tail =~= acc + s);
        } else if c == '\\' {
            assert(t[i] == '\\' && t[i + 1] == '\\');
            lemma_str_chars_inv(t, i + 2, acc.push('\\'), tail, rest);
            assert(acc.push(c) + tail =~= acc + s);
        } else if (c as u32) < 32 {
            assert(t[i] == '\\' && t[i + 1] == 'u' && t[i + 2] == '0' && t[i + 3] == '0');
            assert(t[i + 4] == crate::text::hex_char(c as u32 as int / 16));
            assert(t[i + 5] == crate::text::hex_char(c as u32 as int % 16));
            assert(hex_val(t[i + 2]) == 0 && hex_val(t[i + 3]) == 0);
            assert(hex_val(t[i + 4]) == c as u32 as int / 16 && hex_val(t[i + 5]) == c as u32
                as int % 16);
            let v = hex_val(t[i + 2]) * 4096 + hex_val(t[i + 3]) * 256 + hex_val(t[i + 4]) * 16
                + hex_val(t[i + 5]);
            assert(v == c as u32);
            vstd::utf8::char_u32_cast(c, v as u32);
            assert((v as u32) as char == c);
            lemma_str_chars_inv(t, i + 6, acc.push(c), tail, rest);
            assert(acc.push(c) + tail =~= acc + s);
        } else {
            assert(e == seq![c]);
            assert(t[i + 0] == e[0]);
            assert(t[i] == c);
            lemma_str_chars_inv(t, i + 1, acc.push(c), tail, rest);
            assert(acc.push(c) + tail =~= acc + s);
        }
    }
}

/// Reading a whole quoted string back.
pub proof fn lemma_string_inv(t: Seq<char>, i: int, s: Seq<char>, rest: Seq<char>)
    requires
        0 <= i <= t.len(),
        t.skip(i) == enc_string(s) + rest,
    ensures
        sp_string(t, i) == Some((s, i + enc_string(s).len())),
        i + enc_string(s).len() <= t.len(),
        enc_string(s).len() >= 2,
        t.skip(i + enc_string(s).len()) == rest,
        t[i] == '"',
{
    assert(t.skip(i).len() == t.len() - i);
    let after = esc_string(s) + seq!['"'] + rest;
    assert(t.skip(i) =~= seq!['"'] + after);
    assert(t.skip(i)[0] == t[i]);
    assert(t[i] == '"');
    lemma_skip_split(t, i, seq!['"'], after);
    lemma_str_chars_inv(t, i + 1, Seq::empty(), s, rest);
    assert(Seq::empty() + s =~= s);
    lemma_skip_split(t, i, enc_string(s), rest);
}

/// Reading a number token back: the greedy scan takes it whole.
pub proof fn lemma_num_inv(t: Seq<char>, i: int, tok: Seq<char>, rest: Seq<char>)
    requires
        0 <= i <= t.len(),
        num_token(tok),
        t.skip(i) == tok + rest,
        rest.len() > 0,
        !is_num_char(rest[0]),
    ensures
        sp_num(t, i) == Some((tok, i + tok.len())),
        i + tok.len() < t.len(),
        tok.len() >= 1,
        t.skip(i + tok.len()) == rest,
{
    assert(t.skip(i).len() == t.len() - i);
    lemma_num_token_chars(tok);
    assert forall|k: int| i <= k < i + tok.len() implies is_num_char(t[k]) by {
        assert(t.skip(i)[k - i] == (tok + rest)[k - i]);
        assert((tok + rest)[k - i] == tok[k - i]);
        assert(t.skip(i)[k - i] == t[k]);
    }
    assert(t.skip(i)[tok.len() as int] == (tok + rest)[tok.len() as int]);
    assert((tok + rest)[tok.len() as int] == rest[0]);
    assert(t.skip(i)[tok.len() as int] == t[i + tok.len()]);
    assert(t[i + tok.len()] == rest[0]);
    lemma_num_scan_exact(t, i, i + tok.len());
    assert(t.subrange(i, i + tok.len()) =~= tok);
    lemma_skip_split(t, i, tok, rest);
}

/// The decimal digits of a value are digits, and only zero starts with one.
proof fn lemma_dec_digits_digits(n: int)
    requires
        n >= 0,
    ensures
        dec_digits(n).len() >= 1,
        forall|k: int| 0 <= k < dec_digits(n).len() ==> is_digit(#[trigger] dec_digits(n)[k]),
        n >= 1 ==> dec_digits(n)[0] != '0',
    decreases n,
{
    if n < 10 {
        let c = crate::text::digit_char(n);
        assert(c as u32 == 48 + n);
        if n >= 1 && c == '0' {
            assert('0' as u32 == 48);
            assert(false);
        }
    } else {
        lemma_dec_digits_digits(n / 10);
        let c = crate::text::digit_char(n % 10);
        assert(c as u32 == 48 + n % 10);
        assert(dec_digits(n) == dec_digits(n / 10).push(c));
        assert(forall|k: int|
            0 <= k < dec_digits(n / 10).len() ==> dec_digits(n)[k] == dec_digits(n / 10)[k]);
        assert(dec_digits(n)[dec_digits(n).len() - 1] == c);
    }
}

/// Reading the decimal digits of a value gives the value back.
proof fn lemma_dec_val_digits(n: int)
    requires
        n >= 0,
    ensures
        dec_val(dec_digits(n)) == n,
    decreases n,
{
    if n < 10 {
        let c = crate::text::digit_char(n);
        assert(c as u32 == 48 + n);
        assert(dec_digits(n) == seq![c]);
        assert(dec_digits(n).drop_last() =~= Seq::<char>::empty());
        assert(dec_val(Seq::<char>::empty()) == 0);
        assert(dec_val(dec_digits(n).drop_last()) == 0);
        assert(dec_digits(n).last() == c);
        assert(dec_val(dec_digits(n)) == digit_val(c));
    } else {
        lemma_dec_val_digits(n / 10);
        let c = crate::text::digit_char(n % 10);
        assert(c as u32 == 48 + n % 10);
        assert(dec_digits(n) == dec_digits(n / 10).push(c));
        assert(dec_digits(n).drop_last() =~= dec_digits(n / 10));
        assert(dec_digits(n).last() == c);
        assert(dec_val(dec_digits(n)) == n / 10 * 10 + n % 10);
    }
}

/// The encoded integer satisfies the integer grammar and keeps its value.
proof fn lemma_enc_i64_token(n: int)
    requires
        timestamp_wf(n),
    ensures
        int_token(enc_i64(n)),
        num_token(enc_i64(n)),
        int_val(enc_i64(n)) == n,
        enc_i64(n).len() >= 1,
        forall|k: int| 0 <= k < enc_i64(n).len() ==> is_num_char(#[trigger] enc_i64(n)[k]),
{
    let e = enc_i64(n);
    if n < 0 {
        lemma_dec_digits_digits(-n);
        lemma_dec_val_digits(-n);
        assert(e == seq!['-'] + dec_digits(-n));
        assert(e[0] == '-');
        assert(forall|k: int| 1 <= k < e.len() ==> e[k] == dec_digits(-n)[k - 1]);
        assert(is_digit(e[1]));
        assert(e[1] != '0');
        lemma_digits_scan_exact(e, 1, e.len() as int);
        assert(e.skip(1) =~= dec_digits(-n));
        assert(int_val(e) == -dec_val(dec_digits(-n)));
    } else {
        lemma_dec_digits_digits(n);
        lemma_dec_val_digits(n);
        assert(e == dec_digits(n));
        if n >= 1 && n < 10 {
            assert(e[0] != '0');
        }
        if e[0] == '0' {
            assert(n == 0);
            assert(dec_digits(0) == seq![crate::text::digit_char(0)]);
            assert(e.len() == 1);
        } else {
            lemma_digits_scan_exact(e, 0, e.len() as int);
        }
        assert(int_val(e) == dec_val(dec_digits(n)));
    }
    lemma_num_token_int(e);
}

/// An integer token is also a number token.
proof fn lemma_num_token_int(e: Seq<char>)
    requires
        int_token(e),
    ensures
        num_token(e),
        forall|k: int| 0 <= k < e.len() ==> is_num_char(#[trigger] e[k]),
{
    let n = e.len() as int;
    let s: int = if n > 0 && e[0] == '-' {
        1
    } else {
        0
    };
    crate::text::lemma_digits_end(e, s);
    assert(num_token(e));
    lemma_num_token_chars(e);
}

/// Reading an encoded integer back gives the integer.
pub proof fn lemma_int_inv(t: Seq<char>, i: int, n: int, rest: Seq<char>)
    requires
        0 <= i <= t.len(),
        timestamp_wf(n),
        t.skip(i) == enc_i64(n) + rest,
        rest.len() > 0,
        !is_num_char(rest[0]),
    ensures
        sp_int(t, i) == Some((n, i + enc_i64(n).len())),
        i + enc_i64(n).len() < t.len(),
        t.skip(i + enc_i64(n).len()) == rest,
{
    assert(t.skip(i).len() == t.len() - i);
    lemma_enc_i64_token(n);
    let tok = enc_i64(n);
    assert forall|k: int| i <= k < i + tok.len() implies is_num_char(t[k]) by {
        assert(t.skip(i)[k - i] == (tok + rest)[k - i]);
        assert((tok + rest)[k - i] == tok[k - i]);
        assert(t.skip(i)[k - i] == t[k]);
    }
    assert(t.skip(i)[tok.len() as int] == (tok + rest)[tok.len() as int]);
    assert((tok + rest)[tok.len() as int] == rest[0]);
    assert(t.skip(i)[tok.len() as int] == t[i + tok.len()]);
    assert(t[i + tok.len()] == rest[0]);
    lemma_num_scan_exact(t, i, i + tok.len());
    assert(t.subrange(i, i + tok.len()) =~= tok);
    lemma_skip_split(t, i, tok, rest);
}

/// Reading an encoded boolean back gives the boolean.
pub proof fn lemma_bool_inv(t: Seq<char>, i: int, b: bool, rest: Seq<char>)
    requires
        0 <= i <= t.len(),
        t.skip(i) == enc_bool(b) + rest,
        rest.len() > 0,
    ensures
        sp_bool(t, i) == Some((b, i + enc_bool(b).len())),
        i + enc_bool(b).len() < t.len(),
        t.skip(i + enc_bool(b).len()) == rest,
{
    assert(t.skip(i).len() == t.len() - i);
    let e = enc_bool(b);
    assert forall|k: int| 0 <= k < e.len() implies t[i + k] == e[k] by {
        assert(t.skip(i)[k] == (e + rest)[k]);
        assert((e + rest)[k] == e[k]);
        assert(t.skip(i)[k] == t[i + k]);
    }
    if b {
        assert(t[i] == 't' && t[i + 1] == 'r' && t[i + 2] == 'u' && t[i + 3] == 'e');
    } else {
        assert(t[i] == 'f' && t[i + 1] == 'a' && t[i + 2] == 'l' && t[i + 3] == 's' && t[i + 4]
            == 'e');
    }
    lemma_skip_split(t, i, e, rest);
}

/// Reading a field key back: the quoted key name and its colon.
proof fn lemma_key_step(t: Seq<char>, i: int, k: Seq<char>, rest: Seq<char>)
    requires
        0 <= i <= t.len(),
        t.skip(i) == enc_key(k) + rest,
    ensures
        sp_string(t, i) == Some((k, i + enc_string(k).len())),
        i < i + enc_string(k).len() < i + enc_key(k).len() <= t.len(),
        t[i + enc_string(k).len()] == ':',
        t.skip(i + enc_key(k).len()) == rest,
        t[i] == '"',
{
    assert(t.skip(i).len() == t.len() - i);
    assert(t.skip(i) =~= enc_string(k) + (seq![':'] + rest));
    lemma_string_inv(t, i, k, seq![':'] + rest);
    let j = i + enc_string(k).len();
    assert(t.skip(j) == seq![':'] + rest);
    assert(t.skip(j)[0] == (seq![':'] + rest)[0]);
    assert((seq![':'] + rest)[0] == ':');
    assert(t.skip(j)[0] == t[j]);
    lemma_skip_split(t, j, seq![':'], rest);
}

/// Reading a point object back.
#[verifier::rlimit(100)]
pub proof fn lemma_point_inv(t: Seq<char>, i: int, p: PointV, rest: Seq<char>)
    requires
        0 <= i <= t.len(),
        point_wf(p),
        t.skip(i) == enc_point(p) + rest,
    ensures
        sp_point(t, i) == Some((p, i + enc_point(p).len())),
        i + enc_point(p).len() <= t.len(),
        t.skip(i + enc_point(p).len()) == rest,
        enc_point(p).len() >= 2,
{
    assert(t.skip(i).len() == t.len() - i);
    let r5 = seq!['}'] + rest;
    let r4 = p.y + r5;
    let r3k = enc_key(key_y()) + r4;
    let r3 = seq![','] + r3k;
    let r2 = p.x + r3;
    let r1 = enc_key(key_x()) + r2;
    assert(t.skip(i) =~= seq!['{'] + r1);
    assert(t.skip(i)[0] == (seq!['{'] + r1)[0]);
    assert(t.skip(i)[0] == t[i]);
    assert(t[i] == '{');
    lemma_skip_split(t, i, seq!['{'], r1);
    let i1 = i + 1;
    lemma_key_step(t, i1, key_x(), r2);
    let v1 = i1 + enc_key(key_x()).len();
    assert(r3[0] == ',');
    assert(!is_num_char(','));
    lemma_num_inv(t, v1, p.x, r3);
    let m1 = v1 + p.x.len();
    assert(t.skip(m1)[0] == t[m1]);
    assert(t[m1] == ',');
    lemma_skip_split(t, m1, seq![','], r3k);
    let i2 = m1 + 1;
    lemma_key_step(t, i2, key_y(), r4);
    let v2 = i2 + enc_key(key_y()).len();
    assert(r5[0] == '}');
    assert(!is_num_char('}'));
    lemma_num_inv(t, v2, p.y, r5);
    let m2 = v2 + p.y.len();
    assert(t.skip(m2)[0] == t[m2]);
    assert(t[m2] == '}');
    lemma_skip_split(t, m2, seq!['}'], rest);
    assert(t.skip(i1)[0] == t[i1]);
    assert(t[i1] == '"');
    assert(key_y() != key_x()) by {
        assert(key_y()[0] == 'y' && key_x()[0] == 'x');
    }
    assert(key_zoom() != key_x()) by {
        assert(key_zoom().len() != key_x().len());
    }
    assert(key_zoom() != key_y()) by {
        assert(key_zoom().len() != key_y().len());
    }
    assert(sp_point(t, i) == sp_point_fields(t, i1, None::<Seq<char>>, None::<Seq<char>>));
    assert(sp_point_fields(t, i1, None::<Seq<char>>, None::<Seq<char>>) == sp_point_next(
        t,
        m1,
        Some(p.x),
        None::<Seq<char>>,
    ));
    assert(sp_point_next(t, m1, Some(p.x), None::<Seq<char>>) == sp_point_fields(
        t,
        i2,
        Some(p.x),
        None::<Seq<char>>,
    ));
    assert(sp_point_fields(t, i2, Some(p.x), None::<Seq<char>>) == sp_point_next(
        t,
        m2,
        Some(p.x),
        Some(p.y),
    ));
    assert(sp_point_next(t, m2, Some(p.x), Some(p.y)) == Some((PointV { x: p.x, y: p.y }, m2 + 1)));
    assert(PointV { x: p.x, y: p.y } == p);
}

/// Reading a camera object back.
#[verifier::rlimit(100)]
pub proof fn lemma_camera_inv(t: Seq<char>, i: int, c: CameraV, rest: Seq<char>)
    requires
        0 <= i <= t.len(),
        camera_wf(c),
        t.skip(i) == enc_camera(c) + rest,
    ensures
        sp_camera(t, i) == Some((c, i + enc_camera(c).len())),
        i + enc_camera(c).len() <= t.len(),
        t.skip(i + enc_camera(c).len()) == rest,
        enc_camera(c).len() >= 2,
{
    reveal(crate::encode::enc_camera);
    assert(t.skip(i).len() == t.len() - i);
    let r7 = seq!['}'] + rest;
    let r6 = c.zoom + r7;
    let r5k = enc_key(key_zoom()) + r6;
    let r5 = seq![','] + r5k;
    let r4 = c.y + r5;
    let r3k = enc_key(key_y()) + r4;
    let r3 = seq![','] + r3k;
    let r2 = c.x + r3;
    let r1 = enc_key(key_x()) + r2;
    assert(t.skip(i) =~= seq!['{'] + r1);
    assert(t.skip(i)[0] == t[i]);
    assert(t[i] == '{');
    lemma_skip_split(t, i, seq!['{'], r1);
    let i1 = i + 1;
    lemma_key_step(t, i1, key_x(), r2);
    let v1 = i1 + enc_key(key_x()).len();
    assert(r3[0] == ',');
    assert(!is_num_char(','));
    lemma_num_inv(t, v1, c.x, r3);
    let m1 = v1 + c.x.len();
    assert(t.skip(m1)[0] == t[m1]);
    assert(t[m1] == ',');
    lemma_skip_split(t, m1, seq![','], r3k);
    let i2 = m1 + 1;
    lemma_key_step(t, i2, key_y(), r4);
    let v2 = i2 + enc_key(key_y()).len();
    assert(r5[0] == ',');
    lemma_num_inv(t, v2, c.y, r5);
    let m2 = v2 + c.y.len();
    assert(t.skip(m2)[0] == t[m2]);
    assert(t[m2] == ',');
    lemma_skip_split(t, m2, seq![','], r5k);
    let i3 = m2 + 1;
    lemma_key_step(t, i3, key_zoom(), r6);
    let v3 = i3 + enc_key(key_zoom()).len();
    assert(r7[0] == '}');
    assert(!is_num_char('}'));
    lemma_num_inv(t, v3, c.zoom, r7);
    let m3 = v3 + c.zoom.len();
    assert(t.skip(m3)[0] == t[m3]);
    assert(t[m3] == '}');
    lemma_skip_split(t, m3, seq!['}'], rest);
    assert(t.skip(i1)[0] == t[i1]);
    assert(t[i1] == '"');
    assert(key_y() != key_x()) by {
        assert(key_y()[0] == 'y' && key_x()[0] == 'x');
    }
    assert(key_zoom() != key_x()) by {
        assert(key_zoom().len() != key_x().len());
    }
    assert(key_zoom() != key_y()) by {
        assert(key_zoom().len() != key_y().len());
    }
    assert(sp_camera(t, i) == sp_camera_fields(
        t,
        i1,
        None::<Seq<char>>,
        None::<Seq<char>>,
        None::<Seq<char>>,
    ));
    assert(sp_camera_fields(t, i1, None::<Seq<char>>, None::<Seq<char>>, None::<Seq<char>>)
        == sp_camera_next(t, m1, Some(c.x), None::<Seq<char>>, None::<Seq<char>>));
    assert(sp_camera_next(t, m1, Some(c.x), None::<Seq<char>>, None::<Seq<char>>)
        == sp_camera_fields(t, i2, Some(c.x), None::<Seq<char>>, None::<Seq<char>>));
    assert(sp_camera_fields(t, i2, Some(c.x), None::<Seq<char>>, None::<Seq<char>>)
        == sp_camera_next(t, m2, Some(c.x), Some(c.y), None::<Seq<char>>));
    assert(sp_camera_next(t, m2, Some(c.x), Some(c.y), None::<Seq<char>>) == sp_camera_fields(
        t,
        i3,
        Some(c.x),
        Some(c.y),
        None::<Seq<char>>,
    ));
    assert(sp_camera_fields(t, i3, Some(c.x), Some(c.y), None::<Seq<char>>) == sp_camera_next(
        t,
        m3,
        Some(c.x),
        Some(c.y),
        Some(c.zoom),
    ));
    assert(sp_camera_next(t, m3, Some(c.x), Some(c.y), Some(c.zoom)) == Some(
        (CameraV { x: c.x, y: c.y, zoom: c.zoom }, m3 + 1),
    ));
    assert(CameraV { x: c.x, y: c.y, zoom: c.zoom } == c);
}

/// Reading the items of a point array back.
proof fn lemma_points_items_inv(
    t: Seq<char>,
    i: int,
    acc: Seq<PointV>,
    ps: Seq<PointV>,
    rest: Seq<char>,
)
    requires
        0 <= i <= t.len(),
        ps.len() >= 1,
        forall|k: int| 0 <= k < ps.len() ==> point_wf(#[trigger] ps[k]),
        t.skip(i) == join_comma(ps.map_values(|p: PointV| enc_point(p))) + (seq![']'] + rest),
    ensures
        sp_points_items(t, i, acc) == Some(
            (acc + ps, i + join_comma(ps.map_values(|p: PointV| enc_point(p))).len() + 1),
        ),
        i + join_comma(ps.map_values(|p: PointV| enc_point(p))).len() + 1 <= t.len(),
        t.skip(i + join_comma(ps.map_values(|p: PointV| enc_point(p))).len() + 1) == rest,
    decreases ps.len(),
{
    assert(t.skip(i).len() == t.len() - i);
    let es = ps.map_values(|p: PointV| enc_point(p));
    if ps.len() == 1 {
        assert(join_comma(es) == es[0]);
        assert(es[0] == enc_point(ps[0]));
        assert(t.skip(i) =~= enc_point(ps[0]) + (seq![']'] + rest));
        lemma_point_inv(t, i, ps[0], seq![']'] + rest);
        let j = i + enc_point(ps[0]).len();
        assert(t.skip(j)[0] == t[j]);
        assert(t[j] == ']');
        lemma_skip_split(t, j, seq![']'], rest);
        assert(sp_points_items(t, i, acc) == Some((acc.push(ps[0]), j + 1)));
        assert(acc.push(ps[0]) =~= acc + ps);
    } else {
        assert(join_comma(es) == es[0] + seq![','] + join_comma(es.skip(1)));
        assert(es[0] == enc_point(ps[0]));
        assert(es.skip(1) =~= ps.skip(1).map_values(|p: PointV| enc_point(p)));
        let tail_join = join_comma(ps.skip(1).map_values(|p: PointV| enc_point(p)));
        let r2 = tail_join + (seq![']'] + rest);
        let r1 = seq![','] + r2;
        assert(t.skip(i) =~= enc_point(ps[0]) + r1);
        lemma_point_inv(t, i, ps[0], r1);
        let j = i + enc_point(ps[0]).len();
        assert(t.skip(j)[0] == t[j]);
        assert(t[j] == ',');
        lemma_skip_split(t, j, seq![','], r2);
        assert(forall|k: int| 0 <= k < ps.skip(1).len() ==> point_wf(#[trigger] ps.skip(1)[k]));
        assert(t.skip(j + 1) =~= tail_join + (seq![']'] + rest));
        lemma_points_items_inv(t, j + 1, acc.push(ps[0]), ps.skip(1), rest);
        assert(acc.push(ps[0]) + ps.skip(1) =~= acc + ps);
        assert(sp_points_items(t, i, acc) == sp_points_items(t, j + 1, acc.push(ps[0])));
    }
}

/// Reading a point array back.
pub proof fn lemma_points_inv(t: Seq<char>, i: int, ps: Seq<PointV>, rest: Seq<char>)
    requires
        0 <= i <= t.len(),
        forall|k: int| 0 <= k < ps.len() ==> point_wf(#[trigger] ps[k]),
        t.skip(i) == enc_points(ps) + rest,
    ensures
        sp_points(t, i) == Some((ps, i + enc_points(ps).len())),
        i + enc_points(ps).len() <= t.len(),
        t.skip(i + enc_points(ps).len()) == rest,
        enc_points(ps).len() >= 2,
{
    assert(t.skip(i).len() == t.len() - i);
    let es = ps.map_values(|p: PointV| enc_point(p));
    let r1 = join_comma(es) + (seq![']'] + rest);
    assert(t.skip(i) =~= seq!['['] + r1);
    assert(t.skip(i)[0] == t[i]);
    assert(t[i] == '[');
    lemma_skip_split(t, i, seq!['['], r1);
    if ps.len() == 0 {
        assert(join_comma(es) == Seq::<char>::empty());
        assert(t.skip(i + 1) =~= seq![']'] + rest);
        assert(t.skip(i + 1)[0] == t[i + 1]);
        assert(t[i + 1] == ']');
        lemma_skip_split(t, i + 1, seq![']'], rest);
        assert(sp_points(t, i) == Some((Seq::<PointV>::empty(), i + 2)));
        assert(ps =~= Seq::<PointV>::empty());
    } else {
        assert(t.skip(i + 1) == r1);
        assert(es[0] == enc_point(ps[0]));
        assert(join_comma(es)[0] == enc_point(ps[0])[0]) by {
            if es.len() == 1 {
            } else {
                assert(join_comma(es) == es[0] + seq![','] + join_comma(es.skip(1)));
                assert(enc_point(ps[0]).len() >= 1);
            }
        }
        assert(enc_point(ps[0])[0] == '{');
        assert(t.skip(i + 1)[0] == t[i + 1]);
        assert(t[i + 1] == '{');
        lemma_points_items_inv(t, i + 1, Seq::empty(), ps, rest);
        assert(Seq::empty() + ps =~= ps);
    }
}

/// Reading the items of a string array back.
proof fn lemma_ids_items_inv(
    t: Seq<char>,
    i: int,
    acc: Seq<Seq<char>>,
    ids: Seq<Seq<char>>,
    rest: Seq<char>,
)
    requires
        0 <= i <= t.len(),
        ids.len() >= 1,
        t.skip(i) == join_comma(ids.map_values(|s: Seq<char>| enc_string(s))) + (seq![']'] + rest),
    ensures
        sp_ids_items(t, i, acc) == Some(
            (acc + ids, i + join_comma(ids.map_values(|s: Seq<char>| enc_string(s))).len() + 1),
        ),
        i + join_comma(ids.map_values(|s: Seq<char>| enc_string(s))).len() + 1 <= t.len(),
        t.skip(i + join_comma(ids.map_values(|s: Seq<char>| enc_string(s))).len() + 1) == rest,
    decreases ids.len(),
{
    assert(t.skip(i).len() == t.len() - i);
    let es = ids.map_values(|s: Seq<char>| enc_string(s));
    if ids.len() == 1 {
        assert(join_comma(es) == es[0]);
        assert(es[0] == enc_string(ids[0]));
        assert(t.skip(i) =~= enc_string(ids[0]) + (seq![']'] + rest));
        lemma_string_inv(t, i, ids[0], seq![']'] + rest);
        let j = i + enc_string(ids[0]).len();
        assert(t.skip(j)[0] == t[j]);
        assert(t[j] == ']');
        lemma_skip_split(t, j, seq![']'], rest);
        assert(sp_ids_items(t, i, acc) == Some((acc.push(ids[0]), j + 1)));
        assert(acc.push(ids[0]) =~= acc + ids);
    } else {
        assert(join_comma(es) == es[0] + seq![','] + join_comma(es.skip(1)));
        assert(es[0] == enc_string(ids[0]));
        assert(es.skip(1) =~= ids.skip(1).map_values(|s: Seq<char>| enc_string(s)));
        let tail_join = join_comma(ids.skip(1).map_values(|s: Seq<char>| enc_string(s)));
        let r2 = tail_join + (seq![']'] + rest);
        let r1 = seq![','] + r2;
        assert(t.skip(i) =~= enc_string(ids[0]) + r1);
        lemma_string_inv(t, i, ids[0], r1);
        let j = i + enc_string(ids[0]).len();
        assert(t.skip(j)[0] == t[j]);
        assert(t[j] == ',');
        lemma_skip_split(t, j, seq![','], r2);
        assert(t.skip(j + 1) =~= tail_join + (seq![']'] + rest));
        lemma_ids_items_inv(t, j + 1, acc.push(ids[0]), ids.skip(1), rest);
        assert(acc.push(ids[0]) + ids.skip(1) =~= acc + ids);
        assert(sp_ids_items(t, i, acc) == sp_ids_items(t, j + 1, acc.push(ids[0])));
    }
}

/// Reading a string array back.
pub proof fn lemma_ids_inv(t: Seq<char>, i: int, ids: Seq<Seq<char>>, rest: Seq<char>)
    requires
        0 <= i <= t.len(),
        t.skip(i) == enc_ids(ids) + rest,
    ensures
        sp_ids(t, i) == Some((ids, i + enc_ids(ids).len())),
        i + enc_ids(ids).len() <= t.len(),
        t.skip(i + enc_ids(ids).len()) == rest,
        enc_ids(ids).len() >= 2,
{
    assert(t.skip(i).len() == t.len() - i);
    let es = ids.map_values(|s: Seq<char>| enc_string(s));
    let r1 = join_comma(es) + (seq![']'] + rest);
    assert(t.skip(i) =~= seq!['['] + r1);
    assert(t.skip(i)[0] == t[i]);
    assert(t[i] == '[');
    lemma_skip_split(t, i, seq!['['], r1);
    if ids.len() == 0 {
        assert(join_comma(es) == Seq::<char>::empty());
        assert(t.skip(i + 1) =~= seq![']'] + rest);
        assert(t.skip(i + 1)[0] == t[i + 1]);
        assert(t[i + 1] == ']');
        lemma_skip_split(t, i + 1, seq![']'], rest);
        assert(sp_ids(t, i) == Some((Seq::<Seq<char>>::empty(), i + 2)));
        assert(ids =~= Seq::<Seq<char>>::empty());
    } else {
        assert(t.skip(i + 1) == r1);
        assert(es[0] == enc_string(ids[0]));
        assert(join_comma(es)[0] == enc_string(ids[0])[0]) by {
            if es.len() == 1 {
            } else {
                assert(join_comma(es) == es[0] + seq![','] + join_comma(es.skip(1)));
                assert(enc_string(ids[0]).len() >= 1);
            }
        }
        assert(enc_string(ids[0])[0] == '"');
        assert(t.skip(i + 1)[0] == t[i + 1]);
        assert(t[i + 1] == '"');
        lemma_ids_items_inv(t, i + 1, Seq::empty(), ids, rest);
        assert(Seq::empty() + ids =~= ids);
    }
}

/// The field names of the document vocabulary are pairwise distinct
/// wherever the decoder has to tell them apart.
#[verifier::rlimit(100)]
proof fn lemma_keys_distinct()
    ensures
        key_points() != key_id(),
        key_color() != key_id(),
        key_color() != key_points(),
        key_width() != key_id(),
        key_width() != key_points(),
        key_width() != key_color(),
        key_layer_id() != key_id(),
        key_layer_id() != key_points(),
        key_layer_id() != key_color(),
        key_layer_id() != key_width(),
        key_timestamp() != key_id(),
        key_timestamp() != key_points(),
        key_timestamp() != key_color(),
        key_timestamp() != key_width(),
        key_timestamp() != key_layer_id(),
        key_name() != key_id(),
        key_visible() != key_id(),
        key_visible() != key_name(),
        key_locked() != key_id(),
        key_locked() != key_name(),
        key_locked() != key_visible(),
        key_opacity() != key_id(),
        key_opacity() != key_name(),
        key_opacity() != key_visible(),
        key_opacity() != key_locked(),
        key_stroke_ids() != key_id(),
        key_stroke_ids() != key_name(),
        key_stroke_ids() != key_visible(),
        key_stroke_ids() != key_locked(),
        key_stroke_ids() != key_opacity(),
        key_strokes() != key_layers(),
        key_camera() != key_layers(),
        key_camera() != key_strokes(),
        key_active_layer_id() != key_layers(),
        key_active_layer_id() != key_strokes(),
        key_active_layer_id() != key_camera(),
        key_active_tool() != key_layers(),
        key_active_tool() != key_strokes(),
        key_active_tool() != key_camera(),
        key_active_tool() != key_active_layer_id(),
        key_active_color() != key_layers(),
        key_active_color() != key_strokes(),
        key_active_color() != key_camera(),
        key_active_color() != key_active_layer_id(),
        key_active_color() != key_active_tool(),
        key_active_width() != key_layers(),
        key_active_width() != key_strokes(),
        key_active_width() != key_camera(),
        key_active_width() != key_active_layer_id(),
        key_active_width() != key_active_tool(),
        key_active_width() != key_active_color(),
{
    assert(key_width() != key_color()) by {
        assert(key_width()[0] == 'w' && key_color()[0] == 'c');
    }
    assert(key_opacity() != key_visible()) by {
        assert(key_opacity()[0] == 'o' && key_visible()[0] == 'v');
    }
    assert(key_camera() != key_layers()) by {
        assert(key_camera()[0] == 'c' && key_layers()[0] == 'l');
    }
    assert(key_active_width() != key_active_color()) by {
        assert(key_active_width()[6] == 'W' && key_active_color()[6] == 'C');
    }
}

/// The decoder's member loop, stepped through a stroke object whose six
/// fields stand in canonical order at the given positions.
#[verifier::rlimit(100)]
#[verifier::spinoff_prover]
proof fn lemma_stroke_eval(
    t: Seq<char>,
    i: int,
    s: StrokeV,
    k1: int,
    m1: int,
    k2: int,
    m2: int,
    k3: int,
    m3: int,
    k4: int,
    m4: int,
    k5: int,
    m5: int,
    k6: int,
    m6: int,
)
    requires
        0 <= i && i + 1 < t.len() && t[i] == '{' && t[i + 1] == '"',
        sp_string(t, i + 1) == Some((key_id(), k1)),
        i + 1 < k1 < t.len() && t[k1] == ':',
        sp_string(t, k1 + 1) == Some((s.id, m1)),
        k1 < m1 < t.len() && t[m1] == ',',
        sp_string(t, m1 + 1) == Some((key_points(), k2)),
        m1 + 1 < k2 < t.len() && t[k2] == ':',
        sp_points(t, k2 + 1) == Some((s.points, m2)),
        k2 < m2 < t.len() && t[m2] == ',',
        sp_string(t, m2 + 1) == Some((key_color(), k3)),
        m2 + 1 < k3 < t.len() && t[k3] == ':',
        sp_string(t, k3 + 1) == Some((s.color, m3)),
        k3 < m3 < t.len() && t[m3] == ',',
        sp_string(t, m3 + 1) == Some((key_width(), k4)),
        m3 + 1 < k4 < t.len() && t[k4] == ':',
        sp_num(t, k4 + 1) == Some((s.width, m4)),
        k4 < m4 < t.len() && t[m4] == ',',
        sp_string(t, m4 + 1) == Some((key_layer_id(), k5)),
        m4 + 1 < k5 < t.len() && t[k5] == ':',
        sp_string(t, k5 + 1) == Some((s.layer_id, m5)),
        k5 < m5 < t.len() && t[m5] == ',',
        sp_string(t, m5 + 1) == Some((key_timestamp(), k6)),
        m5 + 1 < k6 < t.len() && t[k6] == ':',
        sp_int(t, k6 + 1) == Some((s.timestamp, m6)),
        k6 < m6 < t.len() && t[m6] == '}',
    ensures
        sp_stroke(t, i) == Some((s, m6 + 1)),
{
    lemma_keys_distinct();
    let i1 = i + 1;
    let i2 = m1 + 1;
    let i3 = m2 + 1;
    let i4 = m3 + 1;
    let i5 = m4 + 1;
    let i6 = m5 + 1;
    let n0: Option<Seq<char>> = None;
    let np: Option<Seq<PointV>> = None;
    let ni: Option<int> = None;
    assert(sp_stroke(t, i) == sp_stroke_fields(t, i1, n0, np, n0, n0, n0, ni));
    assert(sp_stroke_fields(t, i1, n0, np, n0, n0, n0, ni) == sp_stroke_next(
        t, m1, Some(s.id), np, n0, n0, n0, ni));
    assert(sp_stroke_next(t, m1, Some(s.id), np, n0, n0, n0, ni) == sp_stroke_fields(
        t, i2, Some(s.id), np, n0, n0, n0, ni));
    assert(sp_stroke_fields(t, i2, Some(s.id), np, n0, n0, n0, ni) == sp_stroke_next(
        t, m2, Some(s.id), Some(s.points), n0, n0, n0, ni));
    assert(sp_stroke_next(t, m2, Some(s.id), Some(s.points), n0, n0, n0, ni) == sp_stroke_fields(
        t, i3, Some(s.id), Some(s.points), n0, n0, n0, ni));
    assert(sp_stroke_fields(t, i3, Some(s.id), Some(s.points), n0, n0, n0, ni) == sp_stroke_next(
        t, m3, Some(s.id), Some(s.points), Some(s.color), n0, n0, ni));
    assert(sp_stroke_next(t, m3, Some(s.id), Some(s.points), Some(s.color), n0, n0, ni)
        == sp_stroke_fields(t, i4, Some(s.id), Some(s.points), Some(s.color), n0, n0, ni));
    assert(sp_stroke_fields(t, i4, Some(s.id), Some(s.points), Some(s.color), n0, n0, ni)
        == sp_stroke_next(t, m4, Some(s.id), Some(s.points), Some(s.color), Some(s.width), n0, ni));
    assert(sp_stroke_next(t, m4, Some(s.id), Some(s.points), Some(s.color), Some(s.width), n0, ni)
        == sp_stroke_fields(t, i5, Some(s.id), Some(s.points), Some(s.color), Some(s.width), n0, ni));
    assert(sp_stroke_fields(t, i5, Some(s.id), Some(s.points), Some(s.color), Some(s.width), n0, ni)
        == sp_stroke_next(t, m5, Some(s.id), Some(s.points), Some(s.color), Some(s.width),
            Some(s.layer_id), ni));
    assert(sp_stroke_next(t, m5, Some(s.id), Some(s.points), Some(s.color), Some(s.width),
        Some(s.layer_id), ni) == sp_stroke_fields(t, i6, Some(s.id), Some(s.points), Some(s.color),
        Some(s.width), Some(s.layer_id), ni));
    assert(sp_stroke_fields(t, i6, Some(s.id), Some(s.points), Some(s.color), Some(s.width),
        Some(s.layer_id), ni) == sp_stroke_next(t, m6, Some(s.id), Some(s.points), Some(s.color),
        Some(s.width), Some(s.layer_id), Some(s.timestamp)));
    assert(sp_stroke_next(t, m6, Some(s.id), Some(s.points), Some(s.color), Some(s.width),
        Some(s.layer_id), Some(s.timestamp)) == Some((StrokeV {
        id: s.id,
        points: s.points,
        color: s.color,
        width: s.width,
        layer_id: s.layer_id,
        timestamp: s.timestamp,
    }, m6 + 1)));
    assert(StrokeV {
        id: s.id,
        points: s.points,
        color: s.color,
        width: s.width,
        layer_id: s.layer_id,
        timestamp: s.timestamp,
    } == s);
}

/// Concatenation associates: the one rewriting step the walk needs.
proof fn lemma_assoc(a: Seq<char>, b: Seq<char>, c: Seq<char>)
    ensures
        (a + b) + c == a + (b + c),
{
    assert((a + b) + c =~= a + (b + c));
}

/// One object member whose value is of the `string` kind: the key, its
/// colon, and the value, read back at their positions.
#[verifier::rlimit(100)]
proof fn lemma_member_string(t: Seq<char>, j: int, k: Seq<char>, v: Seq<char>, after: Seq<char>)
    requires
        0 <= j <= t.len(),
        t.skip(j) == enc_key(k) + (enc_string(v) + after),
    ensures
        sp_string(t, j) == Some((k, j + enc_string(k).len())),
        j < j + enc_string(k).len() < t.len(),
        t[j + enc_string(k).len()] == ':',
        sp_string(t, j + enc_key(k).len()) == Some((v, j + enc_key(k).len() + (enc_string(v)).len())),
        j + enc_string(k).len() < j + enc_key(k).len() + (enc_string(v)).len() <= t.len(),
        t.skip(j + enc_key(k).len() + (enc_string(v)).len()) == after,
        t[j] == '"',
{
    assert(t.skip(j).len() == t.len() - j);
    lemma_key_step(t, j, k, enc_string(v) + after);
    let c = j + enc_string(k).len();
    lemma_string_inv(t, c + 1, v, after);
    lemma_skip_split(t, c + 1, enc_string(v), after);
}

/// One object member whose value is of the `num` kind: the key, its
/// colon, and the value, read back at their positions.
#[verifier::rlimit(100)]
proof fn lemma_member_num(t: Seq<char>, j: int, k: Seq<char>, v: Seq<char>, after: Seq<char>)
    requires
        0 <= j <= t.len(),
        num_token(v),
        after.len() > 0,
        !is_num_char(after[0]),
        t.skip(j) == enc_key(k) + (v + after),
    ensures
        sp_string(t, j) == Some((k, j + enc_string(k).len())),
        j < j + enc_string(k).len() < t.len(),
        t[j + enc_string(k).len()] == ':',
        sp_num(t, j + enc_key(k).len()) == Some((v, j + enc_key(k).len() + (v).len())),
        j + enc_string(k).len() < j + enc_key(k).len() + (v).len() <= t.len(),
        t.skip(j + enc_key(k).len() + (v).len()) == after,
        t[j] == '"',
{
    assert(t.skip(j).len() == t.len() - j);
    lemma_key_step(t, j, k, v + after);
    let c = j + enc_string(k).len();
    lemma_num_inv(t, c + 1, v, after);
    lemma_skip_split(t, c + 1, v, after);
}

/// One object member whose value is of the `int` kind: the key, its
/// colon, and the value, read back at their positions.
#[verifier::rlimit(100)]
proof fn lemma_member_int(t: Seq<char>, j: int, k: Seq<char>, v: int, after: Seq<char>)
    requires
        0 <= j <= t.len(),
        timestamp_wf(v),
        after.len() > 0,
        !is_num_char(after[0]),
        t.skip(j) == enc_key(k) + (enc_i64(v) + after),
    ensures
        sp_string(t, j) == Some((k, j + enc_string(k).len())),
        j < j + enc_string(k).len() < t.len(),
        t[j + enc_string(k).len()] == ':',
        sp_int(t, j + enc_key(k).len()) == Some((v, j + enc_key(k).len() + (enc_i64(v)).len())),
        j + enc_string(k).len() < j + enc_key(k).len() + (enc_i64(v)).len() <= t.len(),
        t.skip(j + enc_key(k).len() + (enc_i64(v)).len()) == after,
        t[j] == '"',
{
    assert(t.skip(j).len() == t.len() - j);
    lemma_key_step(t, j, k, enc_i64(v) + after);
    let c = j + enc_string(k).len();
    lemma_int_inv(t, c + 1, v, after);
    lemma_skip_split(t, c + 1, enc_i64(v), after);
}

/// One object member whose value is of the `bool` kind: the key, its
/// colon, and the value, read back at their positions.
#[verifier::rlimit(100)]
proof fn lemma_member_bool(t: Seq<char>, j: int, k: Seq<char>, v: bool, after: Seq<char>)
    requires
        0 <= j <= t.len(),
        after.len() > 0,
        t.skip(j) == enc_key(k) + (enc_bool(v) + after),
    ensures
        sp_string(t, j) == Some((k, j + enc_string(k).len())),
        j < j + enc_string(k).len() < t.len(),
        t[j + enc_string(k).len()] == ':',
        sp_bool(t, j + enc_key(k).len()) == Some((v, j + enc_key(k).len() + (enc_bool(v)).len())),
        j + enc_string(k).len() < j + enc_key(k).len() + (enc_bool(v)).len() <= t.len(),
        t.skip(j + enc_key(k).len() + (enc_bool(v)).len()) == after,
        t[j] == '"',
{
    assert(t.skip(j).len() == t.len() - j);
    lemma_key_step(t, j, k, enc_bool(v) + after);
    let c = j + enc_string(k).len();
    lemma_bool_inv(t, c + 1, v, after);
    lemma_skip_split(t, c + 1, enc_bool(v), after);
}

/// One object member whose value is of the `points` kind: the key, its
/// colon, and the value, read back at their positions.
#[verifier::rlimit(100)]
proof fn lemma_member_points(t: Seq<char>, j: int, k: Seq<char>, v: Seq<PointV>, after: Seq<char>)
    requires
        0 <= j <= t.len(),
        forall|q: int| 0 <= q < v.len() ==> point_wf(#[trigger] v[q]),
        t.skip(j) == enc_key(k) + (enc_points(v) + after),
    ensures
        sp_string(t, j) == Some((k, j + enc_string(k).len())),
        j < j + enc_string(k).len() < t.len(),
        t[j + enc_string(k).len()] == ':',
        sp_points(t, j + enc_key(k).len()) == Some((v, j + enc_key(k).len() + (enc_points(v)).len())),
        j + enc_string(k).len() < j + enc_key(k).len() + (enc_points(v)).len() <= t.len(),
        t.skip(j + enc_key(k).len() + (enc_points(v)).len()) == after,
        t[j] == '"',
{
    assert(t.skip(j).len() == t.len() - j);
    lemma_key_step(t, j, k, enc_points(v) + after);
    let c = j + enc_string(k).len();
    lemma_points_inv(t, c + 1, v, after);
    lemma_skip_split(t, c + 1, enc_points(v), after);
}

/// One object member whose value is of the `ids` kind: the key, its
/// colon, and the value, read back at their positions.
#[verifier::rlimit(100)]
proof fn lemma_member_ids(t: Seq<char>, j: int, k: Seq<char>, v: Seq<Seq<char>>, after: Seq<char>)
    requires
        0 <= j <= t.len(),
        t.skip(j) == enc_key(k) + (enc_ids(v) + after),
    ensures
        sp_string(t, j) == Some((k, j + enc_string(k).len())),
        j < j + enc_string(k).len() < t.len(),
        t[j + enc_string(k).len()] == ':',
        sp_ids(t, j + enc_key(k).len()) == Some((v, j + enc_key(k).len() + (enc_ids(v)).len())),
        j + enc_string(k).len() < j + enc_key(k).len() + (enc_ids(v)).len() <= t.len(),
        t.skip(j + enc_key(k).len() + (enc_ids(v)).len()) == after,
        t[j] == '"',
{
    assert(t.skip(j).len() == t.len() - j);
    lemma_key_step(t, j, k, enc_ids(v) + after);
    let c = j + enc_string(k).len();
    lemma_ids_inv(t, c + 1, v, after);
    lemma_skip_split(t, c + 1, enc_ids(v), after);
}



/// The stroke encoding, reassociated into the walk's shape.
#[verifier::rlimit(100)]
#[verifier::spinoff_prover]
proof fn lemma_stroke_shape(t: Seq<char>, i: int, s: StrokeV, rest: Seq<char>)
    requires
        0 <= i <= t.len(),
        t.skip(i) == enc_stroke(s) + rest,
    ensures
        t.skip(i) == seq!['{'] + (enc_key(key_id()) + (enc_string(s.id) + (seq![','] + (enc_key(key_points()) + (enc_points(s.points) + (seq![','] + (enc_key(key_color()) + (enc_string(s.color) + (seq![','] + (enc_key(key_width()) + (s.width + (seq![','] + (enc_key(key_layer_id()) + (enc_string(s.layer_id) + (seq![','] + (enc_key(key_timestamp()) + (enc_i64(s.timestamp) + (seq!['}'] + rest)))))))))))))))))),
{
    let p1 = seq!['{'];
    let p2 = enc_key(key_id());
    let p3 = enc_string(s.id);
    let p4 = seq![','];
    let p5 = enc_key(key_points());
    let p6 = enc_points(s.points);
    let p7 = seq![','];
    let p8 = enc_key(key_color());
    let p9 = enc_string(s.color);
    let p10 = seq![','];
    let p11 = enc_key(key_width());
    let p12 = s.width;
    let p13 = seq![','];
    let p14 = enc_key(key_layer_id());
    let p15 = enc_string(s.layer_id);
    let p16 = seq![','];
    let p17 = enc_key(key_timestamp());
    let p18 = enc_i64(s.timestamp);
    let p19 = seq!['}'];
    let a1 = p1;
    let a2 = a1 + p2;
    let a3 = a2 + p3;
    let a4 = a3 + p4;
    let a5 = a4 + p5;
    let a6 = a5 + p6;
    let a7 = a6 + p7;
    let a8 = a7 + p8;
    let a9 = a8 + p9;
    let a10 = a9 + p10;
    let a11 = a10 + p11;
    let a12 = a11 + p12;
    let a13 = a12 + p13;
    let a14 = a13 + p14;
    let a15 = a14 + p15;
    let a16 = a15 + p16;
    let a17 = a16 + p17;
    let a18 = a17 + p18;
    let a19 = a18 + p19;
    let w20 = rest;
    let w19 = p19 + w20;
    let w18 = p18 + w19;
    let w17 = p17 + w18;
    let w16 = p16 + w17;
    let w15 = p15 + w16;
    let w14 = p14 + w15;
    let w13 = p13 + w14;
    let w12 = p12 + w13;
    let w11 = p11 + w12;
    let w10 = p10 + w11;
    let w9 = p9 + w10;
    let w8 = p8 + w9;
    let w7 = p7 + w8;
    let w6 = p6 + w7;
    let w5 = p5 + w6;
    let w4 = p4 + w5;
    let w3 = p3 + w4;
    let w2 = p2 + w3;
    assert(enc_stroke(s) == a19) by {
        reveal(crate::encode::enc_stroke);
    }
    lemma_assoc(a18, p19, w20);
    lemma_assoc(a17, p18, w19);
    lemma_assoc(a16, p17, w18);
    lemma_assoc(a15, p16, w17);
    lemma_assoc(a14, p15, w16);
    lemma_assoc(a13, p14, w15);
    lemma_assoc(a12, p13, w14);
    lemma_assoc(a11, p12, w13);
    lemma_assoc(a10, p11, w12);
    lemma_assoc(a9, p10, w11);
    lemma_assoc(a8, p9, w10);
    lemma_assoc(a7, p8, w9);
    lemma_assoc(a6, p7, w8);
    lemma_assoc(a5, p6, w7);
    lemma_assoc(a4, p5, w6);
    lemma_assoc(a3, p4, w5);
    lemma_assoc(a2, p3, w4);
    lemma_assoc(a1, p2, w3);
    assert(t.skip(i) == p1 + w2);
}


/// The first members of a stroke object, read at their positions.
#[verifier::rlimit(100)]
#[verifier::spinoff_prover]
proof fn lemma_stroke_front(t: Seq<char>, i: int, s: StrokeV, rest: Seq<char>)
    requires
        0 <= i <= t.len(),
        stroke_wf(s),
        t.skip(i) == enc_stroke(s) + rest,
    ensures
        i + 1 < t.len() && t[i] == '{' && t[i + 1] == '\"',
        sp_string(t, (i + 1)) == Some((key_id(), (i + 1) + enc_string(key_id()).len())),
        (i + 1) < (i + 1) + enc_string(key_id()).len() < t.len(),
        t[(i + 1) + enc_string(key_id()).len()] == ':',
        sp_string(t, (i + 1) + enc_string(key_id()).len() + 1) == Some((s.id, (i + 1) + enc_key(key_id()).len() + (enc_string(s.id)).len())),
        (i + 1) + enc_string(key_id()).len() < (i + 1) + enc_key(key_id()).len() + (enc_string(s.id)).len() <= t.len(),
        (i + 1) + enc_key(key_id()).len() + (enc_string(s.id)).len() < t.len() && t[(i + 1) + enc_key(key_id()).len() + (enc_string(s.id)).len()] == ',',
        sp_string(t, (i + 1) + enc_key(key_id()).len() + (enc_string(s.id)).len() + 1) == Some((key_points(), (i + 1) + enc_key(key_id()).len() + (enc_string(s.id)).len() + 1 + enc_string(key_points()).len())),
        (i + 1) + enc_key(key_id()).len() + (enc_string(s.id)).len() + 1 < (i + 1) + enc_key(key_id()).len() + (enc_string(s.id)).len() + 1 + enc_string(key_points()).len() < t.len(),
        t[(i + 1) + enc_key(key_id()).len() + (enc_string(s.id)).len() + 1 + enc_string(key_points()).len()] == ':',
        sp_points(t, (i + 1) + enc_key(key_id()).len() + (enc_string(s.id)).len() + 1 + enc_string(key_points()).len() + 1) == Some((s.points, (i + 1) + enc_key(key_id()).len() + (enc_string(s.id)).len() + 1 + enc_key(key_points()).len() + (enc_points(s.points)).len())),
        (i + 1) + enc_key(key_id()).len() + (enc_string(s.id)).len() + 1 + enc_string(key_points()).len() < (i + 1) + enc_key(key_id()).len() + (enc_string(s.id)).len() + 1 + enc_key(key_points()).len() + (enc_points(s.points)).len() <= t.len(),
        (i + 1) + enc_key(key_id()).len() + (enc_string(s.id)).len() + 1 + enc_key(key_points()).len() + (enc_points(s.points)).len() < t.len() && t[(i + 1) + enc_key(key_id()).len() + (enc_string(s.id)).len() + 1 + enc_key(key_points()).len() + (enc_points(s.points)).len()] == ',',
        sp_string(t, (i + 1) + enc_key(key_id()).len() + (enc_string(s.id)).len() + 1 + enc_key(key_points()).len() + (enc_points(s.points)).len() + 1) == Some((key_color(), (i + 1) + enc_key(key_id()).len() + (enc_string(s.id)).len() + 1 + enc_key(key_points()).len() + (enc_points(s.points)).len() + 1 + enc_string(key_color()).len())),
        (i + 1) + enc_key(key_id()).len() + (enc_string(s.id)).len() + 1 + enc_key(key_points()).len() + (enc_points(s.points)).len() + 1 < (i + 1) + enc_key(key_id()).len() + (enc_string(s.id)).len() + 1 + enc_key(key_points()).len() + (enc_points(s.points)).len() + 1 + enc_string(key_color()).len() < t.len(),
        t[(i + 1) + enc_key(key_id()).len() + (enc_string(s.id)).len() + 1 + enc_key(key_points()).len() + (enc_points(s.points)).len() + 1 + enc_string(key_color()).len()] == ':',
        sp_string(t, (i + 1) + enc_key(key_id()).len() + (enc_string(s.id)).len() + 1 + enc_key(key_points()).len() + (enc_points(s.points)).len() + 1 + enc_string(key_color()).len() + 1) == Some((s.color, (i + 1) + enc_key(key_id()).len() + (enc_string(s.id)).len() + 1 + enc_key(key_points()).len() + (enc_points(s.points)).len() + 1 + enc_key(key_color()).len() + (enc_string(s.color)).len())),
        (i + 1) + enc_key(key_id()).len() + (enc_string(s.id)).len() + 1 + enc_key(key_points()).len() + (enc_points(s.points)).len() + 1 + enc_string(key_color()).len() < (i + 1) + enc_key(key_id()).len() + (enc_string(s.id)).len() + 1 + enc_key(key_points()).len() + (enc_points(s.points)).len() + 1 + enc_key(key_color()).len() + (enc_string(s.color)).len() <= t.len(),
        (i + 1) + enc_key(key_id()).len() + (enc_string(s.id)).len() + 1 + enc_key(key_points()).len() + (enc_points(s.points)).len() + 1 + enc_key(key_color()).len() + (enc_string(s.color)).len() < t.len() && t[(i + 1) + enc_key(key_id()).len() + (enc_string(s.id)).len() + 1 + enc_key(key_points()).len() + (enc_points(s.points)).len() + 1 + enc_key(key_color()).len() + (enc_string(s.color)).len()] == ',',
        t.skip((i + 1) + enc_key(key_id()).len() + (enc_string(s.id)).len() + 1 + enc_key(key_points()).len() + (enc_points(s.points)).len() + 1 + enc_key(key_color()).len() + (enc_string(s.color)).len() + 1) == (enc_key(key_width()) + (s.width + (seq![','] + (enc_key(key_layer_id()) + (enc_string(s.layer_id) + (seq![','] + (enc_key(key_timestamp()) + (enc_i64(s.timestamp) + (seq!['}'] + rest))))))))),
{
    assert(t.skip(i).len() == t.len() - i);
    lemma_stroke_shape(t, i, s, rest);
    assert(t.skip(i) == seq!['{'] + (enc_key(key_id()) + (enc_string(s.id) + (seq![','] + (enc_key(key_points()) + (enc_points(s.points) + (seq![','] + (enc_key(key_color()) + (enc_string(s.color) + (seq![','] + (enc_key(key_width()) + (s.width + (seq![','] + (enc_key(key_layer_id()) + (enc_string(s.layer_id) + (seq![','] + (enc_key(key_timestamp()) + (enc_i64(s.timestamp) + (seq!['}'] + rest)))))))))))))))))));
    assert(t.skip(i)[0] == t[i]);
    assert(t[i] == '{');
    lemma_skip_split(t, i, seq!['{'], (enc_key(key_id()) + (enc_string(s.id) + (seq![','] + (enc_key(key_points()) + (enc_points(s.points) + (seq![','] + (enc_key(key_color()) + (enc_string(s.color) + (seq![','] + (enc_key(key_width()) + (s.width + (seq![','] + (enc_key(key_layer_id()) + (enc_string(s.layer_id) + (seq![','] + (enc_key(key_timestamp()) + (enc_i64(s.timestamp) + (seq!['}'] + rest)))))))))))))))))));
    lemma_member_string(t, (i + 1), key_id(), s.id, (seq![','] + (enc_key(key_points()) + (enc_points(s.points) + (seq![','] + (enc_key(key_color()) + (enc_string(s.color) + (seq![','] + (enc_key(key_width()) + (s.width + (seq![','] + (enc_key(key_layer_id()) + (enc_string(s.layer_id) + (seq![','] + (enc_key(key_timestamp()) + (enc_i64(s.timestamp) + (seq!['}'] + rest)))))))))))))))));
    assert(t.skip((i + 1) + enc_key(key_id()).len() + (enc_string(s.id)).len())[0] == t[(i + 1) + enc_key(key_id()).len() + (enc_string(s.id)).len()]);
    assert(t[(i + 1) + enc_key(key_id()).len() + (enc_string(s.id)).len()] == ',');
    lemma_skip_split(t, (i + 1) + enc_key(key_id()).len() + (enc_string(s.id)).len(), seq![','], (enc_key(key_points()) + (enc_points(s.points) + (seq![','] + (enc_key(key_color()) + (enc_string(s.color) + (seq![','] + (enc_key(key_width()) + (s.width + (seq![','] + (enc_key(key_layer_id()) + (enc_string(s.layer_id) + (seq![','] + (enc_key(key_timestamp()) + (enc_i64(s.timestamp) + (seq!['}'] + rest))))))))))))))));
    lemma_member_points(t, (i + 1) + enc_key(key_id()).len() + (enc_string(s.id)).len() + 1, key_points(), s.points, (seq![','] + (enc_key(key_color()) + (enc_string(s.color) + (seq![','] + (enc_key(key_width()) + (s.width + (seq![','] + (enc_key(key_layer_id()) + (enc_string(s.layer_id) + (seq![','] + (enc_key(key_timestamp()) + (enc_i64(s.timestamp) + (seq!['}'] + rest))))))))))))));
    assert(t.skip((i + 1) + enc_key(key_id()).len() + (enc_string(s.id)).len() + 1 + enc_key(key_points()).len() + (enc_points(s.points)).len())[0] == t[(i + 1) + enc_key(key_id()).len() + (enc_string(s.id)).len() + 1 + enc_key(key_points()).len() + (enc_points(s.points)).len()]);
    assert(t[(i + 1) + enc_key(key_id()).len() + (enc_string(s.id)).len() + 1 + enc_key(key_points()).len() + (enc_points(s.points)).len()] == ',');
    lemma_skip_split(t, (i + 1) + enc_key(key_id()).len() + (enc_string(s.id)).len() + 1 + enc_key(key_points()).len() + (enc_points(s.points)).len(), seq![','], (enc_key(key_color()) + (enc_string(s.color) + (seq![','] + (enc_key(key_width()) + (s.width + (seq![','] + (enc_key(key_layer_id()) + (enc_string(s.layer_id) + (seq![','] + (enc_key(key_timestamp()) + (enc_i64(s.timestamp) + (seq!['}'] + rest)))))))))))));
    lemma_member_string(t, (i + 1) + enc_key(key_id()).len() + (enc_string(s.id)).len() + 1 + enc_key(key_points()).len() + (enc_points(s.points)).len() + 1, key_color(), s.color, (seq![','] + (enc_key(key_width()) + (s.width + (seq![','] + (enc_key(key_layer_id()) + (enc_string(s.layer_id) + (seq![','] + (enc_key(key_timestamp()) + (enc_i64(s.timestamp) + (seq!['}'] + rest)))))))))));
    assert(t.skip((i + 1) + enc_key(key_id()).len() + (enc_string(s.id)).len() + 1 + enc_key(key_points()).len() + (enc_points(s.points)).len() + 1 + enc_key(key_color()).len() + (enc_string(s.color)).len())[0] == t[(i + 1) + enc_key(key_id()).len() + (enc_string(s.id)).len() + 1 + enc_key(key_points()).len() + (enc_points(s.points)).len() + 1 + enc_key(key_color()).len() + (enc_string(s.color)).len()]);
    assert(t[(i + 1) + enc_key(key_id()).len() + (enc_string(s.id)).len() + 1 + enc_key(key_points()).len() + (enc_points(s.points)).len() + 1 + enc_key(key_color()).len() + (enc_string(s.color)).len()] == ',');
    lemma_skip_split(t, (i + 1) + enc_key(key_id()).len() + (enc_string(s.id)).len() + 1 + enc_key(key_points()).len() + (enc_points(s.points)).len() + 1 + enc_key(key_color()).len() + (enc_string(s.color)).len(), seq![','], (enc_key(key_width()) + (s.width + (seq![','] + (enc_key(key_layer_id()) + (enc_string(s.layer_id) + (seq![','] + (enc_key(key_timestamp()) + (enc_i64(s.timestamp) + (seq!['}'] + rest))))))))));
    assert(t[i + 1] == '\"');
}

/// The remaining members of a stroke object, from the given position.
#[verifier::rlimit(100)]
#[verifier::spinoff_prover]
proof fn lemma_stroke_back(t: Seq<char>, j: int, s: StrokeV, rest: Seq<char>)
    requires
        0 <= j <= t.len(),
        stroke_wf(s),
        t.skip(j) == (enc_key(key_width()) + (s.width + (seq![','] + (enc_key(key_layer_id()) + (enc_string(s.layer_id) + (seq![','] + (enc_key(key_timestamp()) + (enc_i64(s.timestamp) + (seq!['}'] + rest))))))))),
    ensures
        sp_string(t, j) == Some((key_width(), j + enc_string(key_width()).len())),
        j < j + enc_string(key_width()).len() < t.len(),
        t[j + enc_string(key_width()).len()] == ':',
        sp_num(t, j + enc_string(key_width()).len() + 1) == Some((s.width, j + enc_key(key_width()).len() + (s.width).len())),
        j + enc_string(key_width()).len() < j + enc_key(key_width()).len() + (s.width).len() <= t.len(),
        j + enc_key(key_width()).len() + (s.width).len() < t.len() && t[j + enc_key(key_width()).len() + (s.width).len()] == ',',
        sp_string(t, j + enc_key(key_width()).len() + (s.width).len() + 1) == Some((key_layer_id(), j + enc_key(key_width()).len() + (s.width).len() + 1 + enc_string(key_layer_id()).len())),
        j + enc_key(key_width()).len() + (s.width).len() + 1 < j + enc_key(key_width()).len() + (s.width).len() + 1 + enc_string(key_layer_id()).len() < t.len(),
        t[j + enc_key(key_width()).len() + (s.width).len() + 1 + enc_string(key_layer_id()).len()] == ':',
        sp_string(t, j + enc_key(key_width()).len() + (s.width).len() + 1 + enc_string(key_layer_id()).len() + 1) == Some((s.layer_id, j + enc_key(key_width()).len() + (s.width).len() + 1 + enc_key(key_layer_id()).len() + (enc_string(s.layer_id)).len())),
        j + enc_key(key_width()).len() + (s.width).len() + 1 + enc_string(key_layer_id()).len() < j + enc_key(key_width()).len() + (s.width).len() + 1 + enc_key(key_layer_id()).len() + (enc_string(s.layer_id)).len() <= t.len(),
        j + enc_key(key_width()).len() + (s.width).len() + 1 + enc_key(key_layer_id()).len() + (enc_string(s.layer_id)).len() < t.len() && t[j + enc_key(key_width()).len() + (s.width).len() + 1 + enc_key(key_layer_id()).len() + (enc_string(s.layer_id)).len()] == ',',
        sp_string(t, j + enc_key(key_width()).len() + (s.width).len() + 1 + enc_key(key_layer_id()).len() + (enc_string(s.layer_id)).len() + 1) == Some((key_timestamp(), j + enc_key(key_width()).len() + (s.width).len() + 1 + enc_key(key_layer_id()).len() + (enc_string(s.layer_id)).len() + 1 + enc_string(key_timestamp()).len())),
        j + enc_key(key_width()).len() + (s.width).len() + 1 + enc_key(key_layer_id()).len() + (enc_string(s.layer_id)).len() + 1 < j + enc_key(key_width()).len() + (s.width).len() + 1 + enc_key(key_layer_id()).len() + (enc_string(s.layer_id)).len() + 1 + enc_string(key_timestamp()).len() < t.len(),
        t[j + enc_key(key_width()).len() + (s.width).len() + 1 + enc_key(key_layer_id()).len() + (enc_string(s.layer_id)).len() + 1 + enc_string(key_timestamp()).len()] == ':',
        sp_int(t, j + enc_key(key_width()).len() + (s.width).len() + 1 + enc_key(key_layer_id()).len() + (enc_string(s.layer_id)).len() + 1 + enc_string(key_timestamp()).len() + 1) == Some((s.timestamp, j + enc_key(key_width()).len() + (s.width).len() + 1 + enc_key(key_layer_id()).len() + (enc_string(s.layer_id)).len() + 1 + enc_key(key_timestamp()).len() + (enc_i64(s.timestamp)).len())),
        j + enc_key(key_width()).len() + (s.width).len() + 1 + enc_key(key_layer_id()).len() + (enc_string(s.layer_id)).len() + 1 + enc_string(key_timestamp()).len() < j + enc_key(key_width()).len() + (s.width).len() + 1 + enc_key(key_layer_id()).len() + (enc_string(s.layer_id)).len() + 1 + enc_key(key_timestamp()).len() + (enc_i64(s.timestamp)).len() <= t.len(),
        j + enc_key(key_width()).len() + (s.width).len() + 1 + enc_key(key_layer_id()).len() + (enc_string(s.layer_id)).len() + 1 + enc_key(key_timestamp()).len() + (enc_i64(s.timestamp)).len() < t.len() && t[j + enc_key(key_width()).len() + (s.width).len() + 1 + enc_key(key_layer_id()).len() + (enc_string(s.layer_id)).len() + 1 + enc_key(key_timestamp()).len() + (enc_i64(s.timestamp)).len()] == '}',
        t.skip(j + enc_key(key_width()).len() + (s.width).len() + 1 + enc_key(key_layer_id()).len() + (enc_string(s.layer_id)).len() + 1 + enc_key(key_timestamp()).len() + (enc_i64(s.timestamp)).len() + 1) == rest,
{
    assert(t.skip(j).len() == t.len() - j);
    assert(((seq![','] + (enc_key(key_layer_id()) + (enc_string(s.layer_id) + (seq![','] + (enc_key(key_timestamp()) + (enc_i64(s.timestamp) + (seq!['}'] + rest))))))))[0] == ',');
    assert(!is_num_char(','));
    lemma_member_num(t, j, key_width(), s.width, (seq![','] + (enc_key(key_layer_id()) + (enc_string(s.layer_id) + (seq![','] + (enc_key(key_timestamp()) + (enc_i64(s.timestamp) + (seq!['}'] + rest))))))));
    assert(t.skip(j + enc_key(key_width()).len() + (s.width).len())[0] == t[j + enc_key(key_width()).len() + (s.width).len()]);
    assert(t[j + enc_key(key_width()).len() + (s.width).len()] == ',');
    lemma_skip_split(t, j + enc_key(key_width()).len() + (s.width).len(), seq![','], (enc_key(key_layer_id()) + (enc_string(s.layer_id) + (seq![','] + (enc_key(key_timestamp()) + (enc_i64(s.timestamp) + (seq!['}'] + rest)))))));
    lemma_member_string(t, j + enc_key(key_width()).len() + (s.width).len() + 1, key_layer_id(), s.layer_id, (seq![','] + (enc_key(key_timestamp()) + (enc_i64(s.timestamp) + (seq!['}'] + rest)))));
    assert(t.skip(j + enc_key(key_width()).len() + (s.width).len() + 1 + enc_key(key_layer_id()).len() + (enc_string(s.layer_id)).len())[0] == t[j + enc_key(key_width()).len() + (s.width).len() + 1 + enc_key(key_layer_id()).len() + (enc_string(s.layer_id)).len()]);
    assert(t[j + enc_key(key_width()).len() + (s.width).len() + 1 + enc_key(key_layer_id()).len() + (enc_string(s.layer_id)).len()] == ',');
    lemma_skip_split(t, j + enc_key(key_width()).len() + (s.width).len() + 1 + enc_key(key_layer_id()).len() + (enc_string(s.layer_id)).len(), seq![','], (enc_key(key_timestamp()) + (enc_i64(s.timestamp) + (seq!['}'] + rest))));
    assert(((seq!['}'] + rest))[0] == '}');
    assert(!is_num_char('}'));
    lemma_member_int(t, j + enc_key(key_width()).len() + (s.width).len() + 1 + enc_key(key_layer_id()).len() + (enc_string(s.layer_id)).len() + 1, key_timestamp(), s.timestamp, (seq!['}'] + rest));
    assert(t.skip(j + enc_key(key_width()).len() + (s.width).len() + 1 + enc_key(key_layer_id()).len() + (enc_string(s.layer_id)).len() + 1 + enc_key(key_timestamp()).len() + (enc_i64(s.timestamp)).len())[0] == t[j + enc_key(key_width()).len() + (s.width).len() + 1 + enc_key(key_layer_id()).len() + (enc_string(s.layer_id)).len() + 1 + enc_key(key_timestamp()).len() + (enc_i64(s.timestamp)).len()]);
    assert(t[j + enc_key(key_width()).len() + (s.width).len() + 1 + enc_key(key_layer_id()).len() + (enc_string(s.layer_id)).len() + 1 + enc_key(key_timestamp()).len() + (enc_i64(s.timestamp)).len()] == '}');
    lemma_skip_split(t, j + enc_key(key_width()).len() + (s.width).len() + 1 + enc_key(key_layer_id()).len() + (enc_string(s.layer_id)).len() + 1 + enc_key(key_timestamp()).len() + (enc_i64(s.timestamp)).len(), seq!['}'], rest);
}

/// Reading a stroke object back.
#[verifier::rlimit(100)]
#[verifier::spinoff_prover]
pub proof fn lemma_stroke_inv(t: Seq<char>, i: int, s: StrokeV, rest: Seq<char>)
    requires
        0 <= i <= t.len(),
        stroke_wf(s),
        t.skip(i) == enc_stroke(s) + rest,
    ensures
        sp_stroke(t, i) == Some((s, i + enc_stroke(s).len())),
        i + enc_stroke(s).len() <= t.len(),
        t.skip(i + enc_stroke(s).len()) == rest,
        enc_stroke(s).len() >= 2,
{
    assert(t.skip(i).len() == t.len() - i);
    lemma_stroke_front(t, i, s, rest);
    let j4 = (i + 1) + enc_key(key_id()).len() + (enc_string(s.id)).len() + 1 + enc_key(key_points()).len() + (enc_points(s.points)).len() + 1 + enc_key(key_color()).len() + (enc_string(s.color)).len() + 1;
    lemma_stroke_back(t, j4, s, rest);
    lemma_stroke_eval(
        t,
        i,
        s,
        (i + 1) + enc_string(key_id()).len(),
        (i + 1) + enc_key(key_id()).len() + (enc_string(s.id)).len(),
        (i + 1) + enc_key(key_id()).len() + (enc_string(s.id)).len() + 1 + enc_string(key_points()).len(),
        (i + 1) + enc_key(key_id()).len() + (enc_string(s.id)).len() + 1 + enc_key(key_points()).len() + (enc_points(s.points)).len(),
        (i + 1) + enc_key(key_id()).len() + (enc_string(s.id)).len() + 1 + enc_key(key_points()).len() + (enc_points(s.points)).len() + 1 + enc_string(key_color()).len(),
        (i + 1) + enc_key(key_id()).len() + (enc_string(s.id)).len() + 1 + enc_key(key_points()).len() + (enc_points(s.points)).len() + 1 + enc_key(key_color()).len() + (enc_string(s.color)).len(),
        j4 + enc_string(key_width()).len(),
        j4 + enc_key(key_width()).len() + (s.width).len(),
        j4 + enc_key(key_width()).len() + (s.width).len() + 1 + enc_string(key_layer_id()).len(),
        j4 + enc_key(key_width()).len() + (s.width).len() + 1 + enc_key(key_layer_id()).len() + (enc_string(s.layer_id)).len(),
        j4 + enc_key(key_width()).len() + (s.width).len() + 1 + enc_key(key_layer_id()).len() + (enc_string(s.layer_id)).len() + 1 + enc_string(key_timestamp()).len(),
        j4 + enc_key(key_width()).len() + (s.width).len() + 1 + enc_key(key_layer_id()).len() + (enc_string(s.layer_id)).len() + 1 + enc_key(key_timestamp()).len() + (enc_i64(s.timestamp)).len(),
    );
    let endpos = (j4 + enc_key(key_width()).len() + (s.width).len() + 1 + enc_key(key_layer_id()).len() + (enc_string(s.layer_id)).len() + 1 + enc_key(key_timestamp()).len() + (enc_i64(s.timestamp)).len()) + 1;
    assert(t.skip(endpos).len() == rest.len());
    assert(t.skip(i).len() == enc_stroke(s).len() + rest.len());
    assert(endpos == i + enc_stroke(s).len());
    assert(sp_stroke(t, i) == Some((s, i + enc_stroke(s).len())));
}

/// The decoder's member loop, stepped through a layer object whose
/// fields stand in canonical order at the given positions.
#[verifier::rlimit(100)]
#[verifier::spinoff_prover]
proof fn lemma_layer_eval(t: Seq<char>, i: int, l: LayerV, k1: int, m1: int, k2: int, m2: int, k3: int, m3: int, k4: int, m4: int, k5: int, m5: int, k6: int, m6: int)
    requires
        0 <= i && i + 1 < t.len() && t[i] == '{' && t[i + 1] == '\"',
        sp_string(t, i + 1) == Some((key_id(), k1)),
        i + 1 < k1 < t.len() && t[k1] == ':',
        sp_string(t, k1 + 1) == Some((l.id, m1)),
        k1 < m1 < t.len() && t[m1] == ',',
        sp_string(t, m1 + 1) == Some((key_name(), k2)),
        m1 + 1 < k2 < t.len() && t[k2] == ':',
        sp_string(t, k2 + 1) == Some((l.name, m2)),
        k2 < m2 < t.len() && t[m2] == ',',
        sp_string(t, m2 + 1) == Some((key_visible(), k3)),
        m2 + 1 < k3 < t.len() && t[k3] == ':',
        sp_bool(t, k3 + 1) == Some((l.visible, m3)),
        k3 < m3 < t.len() && t[m3] == ',',
        sp_string(t, m3 + 1) == Some((key_locked(), k4)),
        m3 + 1 < k4 < t.len() && t[k4] == ':',
        sp_bool(t, k4 + 1) == Some((l.locked, m4)),
        k4 < m4 < t.len() && t[m4] == ',',
        sp_string(t, m4 + 1) == Some((key_opacity(), k5)),
        m4 + 1 < k5 < t.len() && t[k5] == ':',
        sp_num(t, k5 + 1) == Some((l.opacity, m5)),
        k5 < m5 < t.len() && t[m5] == ',',
        sp_string(t, m5 + 1) == Some((key_stroke_ids(), k6)),
        m5 + 1 < k6 < t.len() && t[k6] == ':',
        sp_ids(t, k6 + 1) == Some((l.stroke_ids, m6)),
        k6 < m6 < t.len() && t[m6] == '}',
    ensures
        sp_layer(t, i) == Some((l, m6 + 1)),
{
    lemma_keys_distinct();
    let n0: Option<Seq<char>> = None;
    let nb: Option<bool> = None;
    let nv: Option<Seq<Seq<char>>> = None;
    assert(sp_layer(t, i) == sp_layer_fields(t, i + 1, n0, n0, nb, nb, n0, nv));
    assert(sp_layer_fields(t, i + 1, n0, n0, nb, nb, n0, nv) == sp_layer_next(t, m1, Some(l.id), n0, nb, nb, n0, nv));
    assert(sp_layer_next(t, m1, Some(l.id), n0, nb, nb, n0, nv) == sp_layer_fields(t, m1 + 1, Some(l.id), n0, nb, nb, n0, nv));
    assert(sp_layer_fields(t, m1 + 1, Some(l.id), n0, nb, nb, n0, nv) == sp_layer_next(t, m2, Some(l.id), Some(l.name), nb, nb, n0, nv));
    assert(sp_layer_next(t, m2, Some(l.id), Some(l.name), nb, nb, n0, nv) == sp_layer_fields(t, m2 + 1, Some(l.id), Some(l.name), nb, nb, n0, nv));
    assert(sp_layer_fields(t, m2 + 1, Some(l.id), Some(l.name), nb, nb, n0, nv) == sp_layer_next(t, m3, Some(l.id), Some(l.name), Some(l.visible), nb, n0, nv));
    assert(sp_layer_next(t, m3, Some(l.id), Some(l.name), Some(l.visible), nb, n0, nv) == sp_layer_fields(t, m3 + 1, Some(l.id), Some(l.name), Some(l.visible), nb, n0, nv));
    assert(sp_layer_fields(t, m3 + 1, Some(l.id), Some(l.name), Some(l.visible), nb, n0, nv) == sp_layer_next(t, m4, Some(l.id), Some(l.name), Some(l.visible), Some(l.locked), n0, nv));
    assert(sp_layer_next(t, m4, Some(l.id), Some(l.name), Some(l.visible), Some(l.locked), n0, nv) == sp_layer_fields(t, m4 + 1, Some(l.id), Some(l.name), Some(l.visible), Some(l.locked), n0, nv));
    assert(sp_layer_fields(t, m4 + 1, Some(l.id), Some(l.name), Some(l.visible), Some(l.locked), n0, nv) == sp_layer_next(t, m5, Some(l.id), Some(l.name), Some(l.visible), Some(l.locked), Some(l.opacity), nv));
    assert(sp_layer_next(t, m5, Some(l.id), Some(l.name), Some(l.visible), Some(l.locked), Some(l.opacity), nv) == sp_layer_fields(t, m5 + 1, Some(l.id), Some(l.name), Some(l.visible), Some(l.locked), Some(l.opacity), nv));
    assert(sp_layer_fields(t, m5 + 1, Some(l.id), Some(l.name), Some(l.visible), Some(l.locked), Some(l.opacity), nv) == sp_layer_next(t, m6, Some(l.id), Some(l.name), Some(l.visible), Some(l.locked), Some(l.opacity), Some(l.stroke_ids)));
    assert(sp_layer_next(t, m6, Some(l.id), Some(l.name), Some(l.visible), Some(l.locked), Some(l.opacity), Some(l.stroke_ids)) == Some((LayerV { id: l.id, name: l.name, visible: l.visible, locked: l.locked, opacity: l.opacity, stroke_ids: l.stroke_ids }, m6 + 1)));
    assert(LayerV { id: l.id, name: l.name, visible: l.visible, locked: l.locked, opacity: l.opacity, stroke_ids: l.stroke_ids } == l);
}

/// The layer encoding, reassociated into the walk's shape.
#[verifier::rlimit(100)]
#[verifier::spinoff_prover]
proof fn lemma_layer_shape(t: Seq<char>, i: int, l: LayerV, rest: Seq<char>)
    requires
        0 <= i <= t.len(),
        t.skip(i) == enc_layer(l) + rest,
    ensures
        t.skip(i) == seq!['{'] + (enc_key(key_id()) + (enc_string(l.id) + (seq![','] + (enc_key(key_name()) + (enc_string(l.name) + (seq![','] + (enc_key(key_visible()) + (enc_bool(l.visible) + (seq![','] + (enc_key(key_locked()) + (enc_bool(l.locked) + (seq![','] + (enc_key(key_opacity()) + (l.opacity + (seq![','] + (enc_key(key_stroke_ids()) + (enc_ids(l.stroke_ids) + (seq!['}'] + rest)))))))))))))))))),
{
    let p1 = seq!['{'];
    let p2 = enc_key(key_id());
    let p3 = enc_string(l.id);
    let p4 = seq![','];
    let p5 = enc_key(key_name());
    let p6 = enc_string(l.name);
    let p7 = seq![','];
    let p8 = enc_key(key_visible());
    let p9 = enc_bool(l.visible);
    let p10 = seq![','];
    let p11 = enc_key(key_locked());
    let p12 = enc_bool(l.locked);
    let p13 = seq![','];
    let p14 = enc_key(key_opacity());
    let p15 = l.opacity;
    let p16 = seq![','];
    let p17 = enc_key(key_stroke_ids());
    let p18 = enc_ids(l.stroke_ids);
    let p19 = seq!['}'];
    let a1 = p1;
    let a2 = a1 + p2;
    let a3 = a2 + p3;
    let a4 = a3 + p4;
    let a5 = a4 + p5;
    let a6 = a5 + p6;
    let a7 = a6 + p7;
    let a8 = a7 + p8;
    let a9 = a8 + p9;
    let a10 = a9 + p10;
    let a11 = a10 + p11;
    let a12 = a11 + p12;
    let a13 = a12 + p13;
    let a14 = a13 + p14;
    let a15 = a14 + p15;
    let a16 = a15 + p16;
    let a17 = a16 + p17;
    let a18 = a17 + p18;
    let a19 = a18 + p19;
    let w20 = rest;
    let w19 = p19 + w20;
    let w18 = p18 + w19;
    let w17 = p17 + w18;
    let w16 = p16 + w17;
    let w15 = p15 + w16;
    let w14 = p14 + w15;
    let w13 = p13 + w14;
    let w12 = p12 + w13;
    let w11 = p11 + w12;
    let w10 = p10 + w11;
    let w9 = p9 + w10;
    let w8 = p8 + w9;
    let w7 = p7 + w8;
    let w6 = p6 + w7;
    let w5 = p5 + w6;
    let w4 = p4 + w5;
    let w3 = p3 + w4;
    let w2 = p2 + w3;
    assert(enc_layer(l) == a19) by {
        reveal(crate::encode::enc_layer);
    }
    lemma_assoc(a18, p19, w20);
    lemma_assoc(a17, p18, w19);
    lemma_assoc(a16, p17, w18);
    lemma_assoc(a15, p16, w17);
    lemma_assoc(a14, p15, w16);
    lemma_assoc(a13, p14, w15);
    lemma_assoc(a12, p13, w14);
    lemma_assoc(a11, p12, w13);
    lemma_assoc(a10, p11, w12);
    lemma_assoc(a9, p10, w11);
    lemma_assoc(a8, p9, w10);
    lemma_assoc(a7, p8, w9);
    lemma_assoc(a6, p7, w8);
    lemma_assoc(a5, p6, w7);
    lemma_assoc(a4, p5, w6);
    lemma_assoc(a3, p4, w5);
    lemma_assoc(a2, p3, w4);
    lemma_assoc(a1, p2, w3);
    assert(t.skip(i) == p1 + w2);
}

/// The first members of a layer object, read at their positions.
#[verifier::rlimit(100)]
#[verifier::spinoff_prover]
proof fn lemma_layer_front(t: Seq<char>, i: int, l: LayerV, rest: Seq<char>)
    requires
        0 <= i <= t.len(),
        layer_wf(l),
        t.skip(i) == enc_layer(l) + rest,
    ensures
        i + 1 < t.len() && t[i] == '{' && t[i + 1] == '\"',
        sp_string(t, (i + 1)) == Some((key_id(), (i + 1) + enc_string(key_id()).len())),
        (i + 1) < (i + 1) + enc_string(key_id()).len() < t.len(),
        t[(i + 1) + enc_string(key_id()).len()] == ':',
        sp_string(t, (i + 1) + enc_string(key_id()).len() + 1) == Some((l.id, (i + 1) + enc_key(key_id()).len() + (enc_string(l.id)).len())),
        (i + 1) + enc_string(key_id()).len() < (i + 1) + enc_key(key_id()).len() + (enc_string(l.id)).len() <= t.len(),
        (i + 1) + enc_key(key_id()).len() + (enc_string(l.id)).len() < t.len() && t[(i + 1) + enc_key(key_id()).len() + (enc_string(l.id)).len()] == ',',
        sp_string(t, (i + 1) + enc_key(key_id()).len() + (enc_string(l.id)).len() + 1) == Some((key_name(), (i + 1) + enc_key(key_id()).len() + (enc_string(l.id)).len() + 1 + enc_string(key_name()).len())),
        (i + 1) + enc_key(key_id()).len() + (enc_string(l.id)).len() + 1 < (i + 1) + enc_key(key_id()).len() + (enc_string(l.id)).len() + 1 + enc_string(key_name()).len() < t.len(),
        t[(i + 1) + enc_key(key_id()).len() + (enc_string(l.id)).len() + 1 + enc_string(key_name()).len()] == ':',
        sp_string(t, (i + 1) + enc_key(key_id()).len() + (enc_string(l.id)).len() + 1 + enc_string(key_name()).len() + 1) == Some((l.name, (i + 1) + enc_key(key_id()).len() + (enc_string(l.id)).len() + 1 + enc_key(key_name()).len() + (enc_string(l.name)).len())),
        (i + 1) + enc_key(key_id()).len() + (enc_string(l.id)).len() + 1 + enc_string(key_name()).len() < (i + 1) + enc_key(key_id()).len() + (enc_string(l.id)).len() + 1 + enc_key(key_name()).len() + (enc_string(l.name)).len() <= t.len(),
        (i + 1) + enc_key(key_id()).len() + (enc_string(l.id)).len() + 1 + enc_key(key_name()).len() + (enc_string(l.name)).len() < t.len() && t[(i + 1) + enc_key(key_id()).len() + (enc_string(l.id)).len() + 1 + enc_key(key_name()).len() + (enc_string(l.name)).len()] == ',',
        sp_string(t, (i + 1) + enc_key(key_id()).len() + (enc_string(l.id)).len() + 1 + enc_key(key_name()).len() + (enc_string(l.name)).len() + 1) == Some((key_visible(), (i + 1) + enc_key(key_id()).len() + (enc_string(l.id)).len() + 1 + enc_key(key_name()).len() + (enc_string(l.name)).len() + 1 + enc_string(key_visible()).len())),
        (i + 1) + enc_key(key_id()).len() + (enc_string(l.id)).len() + 1 + enc_key(key_name()).len() + (enc_string(l.name)).len() + 1 < (i + 1) + enc_key(key_id()).len() + (enc_string(l.id)).len() + 1 + enc_key(key_name()).len() + (enc_string(l.name)).len() + 1 + enc_string(key_visible()).len() < t.len(),
        t[(i + 1) + enc_key(key_id()).len() + (enc_string(l.id)).len() + 1 + enc_key(key_name()).len() + (enc_string(l.name)).len() + 1 + enc_string(key_visible()).len()] == ':',
        sp_bool(t, (i + 1) + enc_key(key_id()).len() + (enc_string(l.id)).len() + 1 + enc_key(key_name()).len() + (enc_string(l.name)).len() + 1 + enc_string(key_visible()).len() + 1) == Some((l.visible, (i + 1) + enc_key(key_id()).len() + (enc_string(l.id)).len() + 1 + enc_key(key_name()).len() + (enc_string(l.name)).len() + 1 + enc_key(key_visible()).len() + (enc_bool(l.visible)).len())),
        (i + 1) + enc_key(key_id()).len() + (enc_string(l.id)).len() + 1 + enc_key(key_name()).len() + (enc_string(l.name)).len() + 1 + enc_string(key_visible()).len() < (i + 1) + enc_key(key_id()).len() + (enc_string(l.id)).len() + 1 + enc_key(key_name()).len() + (enc_string(l.name)).len() + 1 + enc_key(key_visible()).len() + (enc_bool(l.visible)).len() <= t.len(),
        (i + 1) + enc_key(key_id()).len() + (enc_string(l.id)).len() + 1 + enc_key(key_name()).len() + (enc_string(l.name)).len() + 1 + enc_key(key_visible()).len() + (enc_bool(l.visible)).len() < t.len() && t[(i + 1) + enc_key(key_id()).len() + (enc_string(l.id)).len() + 1 + enc_key(key_name()).len() + (enc_string(l.name)).len() + 1 + enc_key(key_visible()).len() + (enc_bool(l.visible)).len()] == ',',
        t.skip((i + 1) + enc_key(key_id()).len() + (enc_string(l.id)).len() + 1 + enc_key(key_name()).len() + (enc_string(l.name)).len() + 1 + enc_key(key_visible()).len() + (enc_bool(l.visible)).len() + 1) == (enc_key(key_locked()) + (enc_bool(l.locked) + (seq![','] + (enc_key(key_opacity()) + (l.opacity + (seq![','] + (enc_key(key_stroke_ids()) + (enc_ids(l.stroke_ids) + (seq!['}'] + rest))))))))),
{
    assert(t.skip(i).len() == t.len() - i);
    lemma_layer_shape(t, i, l, rest);
    assert(t.skip(i) == seq!['{'] + (enc_key(key_id()) + (enc_string(l.id) + (seq![','] + (enc_key(key_name()) + (enc_string(l.name) + (seq![','] + (enc_key(key_visible()) + (enc_bool(l.visible) + (seq![','] + (enc_key(key_locked()) + (enc_bool(l.locked) + (seq![','] + (enc_key(key_opacity()) + (l.opacity + (seq![','] + (enc_key(key_stroke_ids()) + (enc_ids(l.stroke_ids) + (seq!['}'] + rest)))))))))))))))))));
    assert(t.skip(i)[0] == t[i]);
    assert(t[i] == '{');
    lemma_skip_split(t, i, seq!['{'], (enc_key(key_id()) + (enc_string(l.id) + (seq![','] + (enc_key(key_name()) + (enc_string(l.name) + (seq![','] + (enc_key(key_visible()) + (enc_bool(l.visible) + (seq![','] + (enc_key(key_locked()) + (enc_bool(l.locked) + (seq![','] + (enc_key(key_opacity()) + (l.opacity + (seq![','] + (enc_key(key_stroke_ids()) + (enc_ids(l.stroke_ids) + (seq!['}'] + rest)))))))))))))))))));
    lemma_member_string(t, (i + 1), key_id(), l.id, (seq![','] + (enc_key(key_name()) + (enc_string(l.name) + (seq![','] + (enc_key(key_visible()) + (enc_bool(l.visible) + (seq![','] + (enc_key(key_locked()) + (enc_bool(l.locked) + (seq![','] + (enc_key(key_opacity()) + (l.opacity + (seq![','] + (enc_key(key_stroke_ids()) + (enc_ids(l.stroke_ids) + (seq!['}'] + rest)))))))))))))))));
    assert(t.skip((i + 1) + enc_key(key_id()).len() + (enc_string(l.id)).len())[0] == t[(i + 1) + enc_key(key_id()).len() + (enc_string(l.id)).len()]);
    assert(t[(i + 1) + enc_key(key_id()).len() + (enc_string(l.id)).len()] == ',');
    lemma_skip_split(t, (i + 1) + enc_key(key_id()).len() + (enc_string(l.id)).len(), seq![','], (enc_key(key_name()) + (enc_string(l.name) + (seq![','] + (enc_key(key_visible()) + (enc_bool(l.visible) + (seq![','] + (enc_key(key_locked()) + (enc_bool(l.locked) + (seq![','] + (enc_key(key_opacity()) + (l.opacity + (seq![','] + (enc_key(key_stroke_ids()) + (enc_ids(l.stroke_ids) + (seq!['}'] + rest))))))))))))))));
    lemma_member_string(t, (i + 1) + enc_key(key_id()).len() + (enc_string(l.id)).len() + 1, key_name(), l.name, (seq![','] + (enc_key(key_visible()) + (enc_bool(l.visible) + (seq![','] + (enc_key(key_locked()) + (enc_bool(l.locked) + (seq![','] + (enc_key(key_opacity()) + (l.opacity + (seq![','] + (enc_key(key_stroke_ids()) + (enc_ids(l.stroke_ids) + (seq!['}'] + rest))))))))))))));
    assert(t.skip((i + 1) + enc_key(key_id()).len() + (enc_string(l.id)).len() + 1 + enc_key(key_name()).len() + (enc_string(l.name)).len())[0] == t[(i + 1) + enc_key(key_id()).len() + (enc_string(l.id)).len() + 1 + enc_key(key_name()).len() + (enc_string(l.name)).len()]);
    assert(t[(i + 1) + enc_key(key_id()).len() + (enc_string(l.id)).len() + 1 + enc_key(key_name()).len() + (enc_string(l.name)).len()] == ',');
    lemma_skip_split(t, (i + 1) + enc_key(key_id()).len() + (enc_string(l.id)).len() + 1 + enc_key(key_name()).len() + (enc_string(l.name)).len(), seq![','], (enc_key(key_visible()) + (enc_bool(l.visible) + (seq![','] + (enc_key(key_locked()) + (enc_bool(l.locked) + (seq![','] + (enc_key(key_opacity()) + (l.opacity + (seq![','] + (enc_key(key_stroke_ids()) + (enc_ids(l.stroke_ids) + (seq!['}'] + rest)))))))))))));
    lemma_member_bool(t, (i + 1) + enc_key(key_id()).len() + (enc_string(l.id)).len() + 1 + enc_key(key_name()).len() + (enc_string(l.name)).len() + 1, key_visible(), l.visible, (seq![','] + (enc_key(key_locked()) + (enc_bool(l.locked) + (seq![','] + (enc_key(key_opacity()) + (l.opacity + (seq![','] + (enc_key(key_stroke_ids()) + (enc_ids(l.stroke_ids) + (seq!['}'] + rest)))))))))));
    assert(t.skip((i + 1) + enc_key(key_id()).len() + (enc_string(l.id)).len() + 1 + enc_key(key_name()).len() + (enc_string(l.name)).len() + 1 + enc_key(key_visible()).len() + (enc_bool(l.visible)).len())[0] == t[(i + 1) + enc_key(key_id()).len() + (enc_string(l.id)).len() + 1 + enc_key(key_name()).len() + (enc_string(l.name)).len() + 1 + enc_key(key_visible()).len() + (enc_bool(l.visible)).len()]);
    assert(t[(i + 1) + enc_key(key_id()).len() + (enc_string(l.id)).len() + 1 + enc_key(key_name()).len() + (enc_string(l.name)).len() + 1 + enc_key(key_visible()).len() + (enc_bool(l.visible)).len()] == ',');
    lemma_skip_split(t, (i + 1) + enc_key(key_id()).len() + (enc_string(l.id)).len() + 1 + enc_key(key_name()).len() + (enc_string(l.name)).len() + 1 + enc_key(key_visible()).len() + (enc_bool(l.visible)).len(), seq![','], (enc_key(key_locked()) + (enc_bool(l.locked) + (seq![','] + (enc_key(key_opacity()) + (l.opacity + (seq![','] + (enc_key(key_stroke_ids()) + (enc_ids(l.stroke_ids) + (seq!['}'] + rest))))))))));
    assert(t[i + 1] == '\"');
}

/// The remaining members of a layer object, from the given position.
#[verifier::rlimit(100)]
#[verifier::spinoff_prover]
proof fn lemma_layer_back(t: Seq<char>, j: int, l: LayerV, rest: Seq<char>)
    requires
        0 <= j <= t.len(),
        layer_wf(l),
        t.skip(j) == (enc_key(key_locked()) + (enc_bool(l.locked) + (seq![','] + (enc_key(key_opacity()) + (l.opacity + (seq![','] + (enc_key(key_stroke_ids()) + (enc_ids(l.stroke_ids) + (seq!['}'] + rest))))))))),
    ensures
        sp_string(t, j) == Some((key_locked(), j + enc_string(key_locked()).len())),
        j < j + enc_string(key_locked()).len() < t.len(),
        t[j + enc_string(key_locked()).len()] == ':',
        sp_bool(t, j + enc_string(key_locked()).len() + 1) == Some((l.locked, j + enc_key(key_locked()).len() + (enc_bool(l.locked)).len())),
        j + enc_string(key_locked()).len() < j + enc_key(key_locked()).len() + (enc_bool(l.locked)).len() <= t.len(),
        j + enc_key(key_locked()).len() + (enc_bool(l.locked)).len() < t.len() && t[j + enc_key(key_locked()).len() + (enc_bool(l.locked)).len()] == ',',
        sp_string(t, j + enc_key(key_locked()).len() + (enc_bool(l.locked)).len() + 1) == Some((key_opacity(), j + enc_key(key_locked()).len() + (enc_bool(l.locked)).len() + 1 + enc_string(key_opacity()).len())),
        j + enc_key(key_locked()).len() + (enc_bool(l.locked)).len() + 1 < j + enc_key(key_locked()).len() + (enc_bool(l.locked)).len() + 1 + enc_string(key_opacity()).len() < t.len(),
        t[j + enc_key(key_locked()).len() + (enc_bool(l.locked)).len() + 1 + enc_string(key_opacity()).len()] == ':',
        sp_num(t, j + enc_key(key_locked()).len() + (enc_bool(l.locked)).len() + 1 + enc_string(key_opacity()).len() + 1) == Some((l.opacity, j + enc_key(key_locked()).len() + (enc_bool(l.locked)).len() + 1 + enc_key(key_opacity()).len() + (l.opacity).len())),
        j + enc_key(key_locked()).len() + (enc_bool(l.locked)).len() + 1 + enc_string(key_opacity()).len() < j + enc_key(key_locked()).len() + (enc_bool(l.locked)).len() + 1 + enc_key(key_opacity()).len() + (l.opacity).len() <= t.len(),
        j + enc_key(key_locked()).len() + (enc_bool(l.locked)).len() + 1 + enc_key(key_opacity()).len() + (l.opacity).len() < t.len() && t[j + enc_key(key_locked()).len() + (enc_bool(l.locked)).len() + 1 + enc_key(key_opacity()).len() + (l.opacity).len()] == ',',
        sp_string(t, j + enc_key(key_locked()).len() + (enc_bool(l.locked)).len() + 1 + enc_key(key_opacity()).len() + (l.opacity).len() + 1) == Some((key_stroke_ids(), j + enc_key(key_locked()).len() + (enc_bool(l.locked)).len() + 1 + enc_key(key_opacity()).len() + (l.opacity).len() + 1 + enc_string(key_stroke_ids()).len())),
        j + enc_key(key_locked()).len() + (enc_bool(l.locked)).len() + 1 + enc_key(key_opacity()).len() + (l.opacity).len() + 1 < j + enc_key(key_locked()).len() + (enc_bool(l.locked)).len() + 1 + enc_key(key_opacity()).len() + (l.opacity).len() + 1 + enc_string(key_stroke_ids()).len() < t.len(),
        t[j + enc_key(key_locked()).len() + (enc_bool(l.locked)).len() + 1 + enc_key(key_opacity()).len() + (l.opacity).len() + 1 + enc_string(key_stroke_ids()).len()] == ':',
        sp_ids(t, j + enc_key(key_locked()).len() + (enc_bool(l.locked)).len() + 1 + enc_key(key_opacity()).len() + (l.opacity).len() + 1 + enc_string(key_stroke_ids()).len() + 1) == Some((l.stroke_ids, j + enc_key(key_locked()).len() + (enc_bool(l.locked)).len() + 1 + enc_key(key_opacity()).len() + (l.opacity).len() + 1 + enc_key(key_stroke_ids()).len() + (enc_ids(l.stroke_ids)).len())),
        j + enc_key(key_locked()).len() + (enc_bool(l.locked)).len() + 1 + enc_key(key_opacity()).len() + (l.opacity).len() + 1 + enc_string(key_stroke_ids()).len() < j + enc_key(key_locked()).len() + (enc_bool(l.locked)).len() + 1 + enc_key(key_opacity()).len() + (l.opacity).len() + 1 + enc_key(key_stroke_ids()).len() + (enc_ids(l.stroke_ids)).len() <= t.len(),
        j + enc_key(key_locked()).len() + (enc_bool(l.locked)).len() + 1 + enc_key(key_opacity()).len() + (l.opacity).len() + 1 + enc_key(key_stroke_ids()).len() + (enc_ids(l.stroke_ids)).len() < t.len() && t[j + enc_key(key_locked()).len() + (enc_bool(l.locked)).len() + 1 + enc_key(key_opacity()).len() + (l.opacity).len() + 1 + enc_key(key_stroke_ids()).len() + (enc_ids(l.stroke_ids)).len()] == '}',
        t.skip(j + enc_key(key_locked()).len() + (enc_bool(l.locked)).len() + 1 + enc_key(key_opacity()).len() + (l.opacity).len() + 1 + enc_key(key_stroke_ids()).len() + (enc_ids(l.stroke_ids)).len() + 1) == rest,
{
    assert(t.skip(j).len() == t.len() - j);
    lemma_member_bool(t, j, key_locked(), l.locked, (seq![','] + (enc_key(key_opacity()) + (l.opacity + (seq![','] + (enc_key(key_stroke_ids()) + (enc_ids(l.stroke_ids) + (seq!['}'] + rest))))))));
    assert(t.skip(j + enc_key(key_locked()).len() + (enc_bool(l.locked)).len())[0] == t[j + enc_key(key_locked()).len() + (enc_bool(l.locked)).len()]);
    assert(t[j + enc_key(key_locked()).len() + (enc_bool(l.locked)).len()] == ',');
    lemma_skip_split(t, j + enc_key(key_locked()).len() + (enc_bool(l.locked)).len(), seq![','], (enc_key(key_opacity()) + (l.opacity + (seq![','] + (enc_key(key_stroke_ids()) + (enc_ids(l.stroke_ids) + (seq!['}'] + rest)))))));
    assert(((seq![','] + (enc_key(key_stroke_ids()) + (enc_ids(l.stroke_ids) + (seq!['}'] + rest)))))[0] == ',');
    assert(!is_num_char(','));
    lemma_member_num(t, j + enc_key(key_locked()).len() + (enc_bool(l.locked)).len() + 1, key_opacity(), l.opacity, (seq![','] + (enc_key(key_stroke_ids()) + (enc_ids(l.stroke_ids) + (seq!['}'] + rest)))));
    assert(t.skip(j + enc_key(key_locked()).len() + (enc_bool(l.locked)).len() + 1 + enc_key(key_opacity()).len() + (l.opacity).len())[0] == t[j + enc_key(key_locked()).len() + (enc_bool(l.locked)).len() + 1 + enc_key(key_opacity()).len() + (l.opacity).len()]);
    assert(t[j + enc_key(key_locked()).len() + (enc_bool(l.locked)).len() + 1 + enc_key(key_opacity()).len() + (l.opacity).len()] == ',');
    lemma_skip_split(t, j + enc_key(key_locked()).len() + (enc_bool(l.locked)).len() + 1 + enc_key(key_opacity()).len() + (l.opacity).len(), seq![','], (enc_key(key_stroke_ids()) + (enc_ids(l.stroke_ids) + (seq!['}'] + rest))));
    lemma_member_ids(t, j + enc_key(key_locked()).len() + (enc_bool(l.locked)).len() + 1 + enc_key(key_opacity()).len() + (l.opacity).len() + 1, key_stroke_ids(), l.stroke_ids, (seq!['}'] + rest));
    assert(t.skip(j + enc_key(key_locked()).len() + (enc_bool(l.locked)).len() + 1 + enc_key(key_opacity()).len() + (l.opacity).len() + 1 + enc_key(key_stroke_ids()).len() + (enc_ids(l.stroke_ids)).len())[0] == t[j + enc_key(key_locked()).len() + (enc_bool(l.locked)).len() + 1 + enc_key(key_opacity()).len() + (l.opacity).len() + 1 + enc_key(key_stroke_ids()).len() + (enc_ids(l.stroke_ids)).len()]);
    assert(t[j + enc_key(key_locked()).len() + (enc_bool(l.locked)).len() + 1 + enc_key(key_opacity()).len() + (l.opacity).len() + 1 + enc_key(key_stroke_ids()).len() + (enc_ids(l.stroke_ids)).len()] == '}');
    lemma_skip_split(t, j + enc_key(key_locked()).len() + (enc_bool(l.locked)).len() + 1 + enc_key(key_opacity()).len() + (l.opacity).len() + 1 + enc_key(key_stroke_ids()).len() + (enc_ids(l.stroke_ids)).len(), seq!['}'], rest);
}

/// Reading a layer object back.
#[verifier::rlimit(100)]
#[verifier::spinoff_prover]
pub proof fn lemma_layer_inv(t: Seq<char>, i: int, l: LayerV, rest: Seq<char>)
    requires
        0 <= i <= t.len(),
        layer_wf(l),
        t.skip(i) == enc_layer(l) + rest,
    ensures
        sp_layer(t, i) == Some((l, i + enc_layer(l).len())),
        i + enc_layer(l).len() <= t.len(),
        t.skip(i + enc_layer(l).len()) == rest,
        enc_layer(l).len() >= 2,
{
    assert(t.skip(i).len() == t.len() - i);
    lemma_layer_front(t, i, l, rest);
    let j4 = (i + 1) + enc_key(key_id()).len() + (enc_string(l.id)).len() + 1 + enc_key(key_name()).len() + (enc_string(l.name)).len() + 1 + enc_key(key_visible()).len() + (enc_bool(l.visible)).len() + 1;
    lemma_layer_back(t, j4, l, rest);
    lemma_layer_eval(
        t,
        i,
        l,
        (i + 1) + enc_string(key_id()).len(),
        (i + 1) + enc_key(key_id()).len() + (enc_string(l.id)).len(),
        (i + 1) + enc_key(key_id()).len() + (enc_string(l.id)).len() + 1 + enc_string(key_name()).len(),
        (i + 1) + enc_key(key_id()).len() + (enc_string(l.id)).len() + 1 + enc_key(key_name()).len() + (enc_string(l.name)).len(),
        (i + 1) + enc_key(key_id()).len() + (enc_string(l.id)).len() + 1 + enc_key(key_name()).len() + (enc_string(l.name)).len() + 1 + enc_string(key_visible()).len(),
        (i + 1) + enc_key(key_id()).len() + (enc_string(l.id)).len() + 1 + enc_key(key_name()).len() + (enc_string(l.name)).len() + 1 + enc_key(key_visible()).len() + (enc_bool(l.visible)).len(),
        j4 + enc_string(key_locked()).len(),
        j4 + enc_key(key_locked()).len() + (enc_bool(l.locked)).len(),
        j4 + enc_key(key_locked()).len() + (enc_bool(l.locked)).len() + 1 + enc_string(key_opacity()).len(),
        j4 + enc_key(key_locked()).len() + (enc_bool(l.locked)).len() + 1 + enc_key(key_opacity()).len() + (l.opacity).len(),
        j4 + enc_key(key_locked()).len() + (enc_bool(l.locked)).len() + 1 + enc_key(key_opacity()).len() + (l.opacity).len() + 1 + enc_string(key_stroke_ids()).len(),
        j4 + enc_key(key_locked()).len() + (enc_bool(l.locked)).len() + 1 + enc_key(key_opacity()).len() + (l.opacity).len() + 1 + enc_key(key_stroke_ids()).len() + (enc_ids(l.stroke_ids)).len(),
    );
    let endpos = (j4 + enc_key(key_locked()).len() + (enc_bool(l.locked)).len() + 1 + enc_key(key_opacity()).len() + (l.opacity).len() + 1 + enc_key(key_stroke_ids()).len() + (enc_ids(l.stroke_ids)).len()) + 1;
    assert(t.skip(endpos).len() == rest.len());
    assert(t.skip(i).len() == enc_layer(l).len() + rest.len());
    assert(endpos == i + enc_layer(l).len());
}

/// Reading the items of a layer array back.
#[verifier::rlimit(100)]
#[verifier::spinoff_prover]
proof fn lemma_layers_items_inv(
    t: Seq<char>,
    i: int,
    acc: Seq<LayerV>,
    ls: Seq<LayerV>,
    rest: Seq<char>,
)
    requires
        0 <= i <= t.len(),
        ls.len() >= 1,
        forall|k: int| 0 <= k < ls.len() ==> layer_wf(#[trigger] ls[k]),
        t.skip(i) == join_comma(ls.map_values(|l: LayerV| enc_layer(l))) + (seq![']'] + rest),
    ensures
        sp_layers_items(t, i, acc) == Some(
            (acc + ls, i + join_comma(ls.map_values(|l: LayerV| enc_layer(l))).len() + 1),
        ),
        i + join_comma(ls.map_values(|l: LayerV| enc_layer(l))).len() + 1 <= t.len(),
        t.skip(i + join_comma(ls.map_values(|l: LayerV| enc_layer(l))).len() + 1) == rest,
    decreases ls.len(),
{
    assert(t.skip(i).len() == t.len() - i);
    let es = ls.map_values(|l: LayerV| enc_layer(l));
    if ls.len() == 1 {
        assert(join_comma(es) == es[0]);
        assert(es[0] == enc_layer(ls[0]));
        assert(t.skip(i) =~= enc_layer(ls[0]) + (seq![']'] + rest));
        lemma_layer_inv(t, i, ls[0], seq![']'] + rest);
        let j = i + enc_layer(ls[0]).len();
        assert(t.skip(j)[0] == t[j]);
        assert(t[j] == ']');
        lemma_skip_split(t, j, seq![']'], rest);
        assert(sp_layers_items(t, i, acc) == Some((acc.push(ls[0]), j + 1)));
        assert(acc.push(ls[0]) =~= acc + ls);
    } else {
        assert(join_comma(es) == es[0] + seq![','] + join_comma(es.skip(1)));
        assert(es[0] == enc_layer(ls[0]));
        assert(es.skip(1) =~= ls.skip(1).map_values(|l: LayerV| enc_layer(l)));
        let tail_join = join_comma(ls.skip(1).map_values(|l: LayerV| enc_layer(l)));
        let r2 = tail_join + (seq![']'] + rest);
        let r1 = seq![','] + r2;
        assert(t.skip(i) =~= enc_layer(ls[0]) + r1);
        lemma_layer_inv(t, i, ls[0], r1);
        let j = i + enc_layer(ls[0]).len();
        assert(t.skip(j)[0] == t[j]);
        assert(t[j] == ',');
        lemma_skip_split(t, j, seq![','], r2);
        assert(forall|k: int| 0 <= k < ls.skip(1).len() ==> layer_wf(#[trigger] ls.skip(1)[k]));
        assert(t.skip(j + 1) =~= tail_join + (seq![']'] + rest));
        lemma_layers_items_inv(t, j + 1, acc.push(ls[0]), ls.skip(1), rest);
        assert(acc.push(ls[0]) + ls.skip(1) =~= acc + ls);
        assert(sp_layers_items(t, i, acc) == sp_layers_items(t, j + 1, acc.push(ls[0])));
    }
}

/// Reading a layer array back.
#[verifier::rlimit(100)]
#[verifier::spinoff_prover]
pub proof fn lemma_layers_inv(t: Seq<char>, i: int, ls: Seq<LayerV>, rest: Seq<char>)
    requires
        0 <= i <= t.len(),
        forall|k: int| 0 <= k < ls.len() ==> layer_wf(#[trigger] ls[k]),
        t.skip(i) == enc_layers(ls) + rest,
    ensures
        sp_layers(t, i) == Some((ls, i + enc_layers(ls).len())),
        i + enc_layers(ls).len() <= t.len(),
        t.skip(i + enc_layers(ls).len()) == rest,
        enc_layers(ls).len() >= 2,
{
    reveal(crate::encode::enc_layers);
    assert(t.skip(i).len() == t.len() - i);
    let es = ls.map_values(|l: LayerV| enc_layer(l));
    let r1 = join_comma(es) + (seq![']'] + rest);
    assert(t.skip(i) =~= seq!['['] + r1);
    assert(t.skip(i)[0] == t[i]);
    assert(t[i] == '[');
    lemma_skip_split(t, i, seq!['['], r1);
    if ls.len() == 0 {
        assert(join_comma(es) == Seq::<char>::empty());
        assert(t.skip(i + 1) =~= seq![']'] + rest);
        assert(t.skip(i + 1)[0] == t[i + 1]);
        assert(t[i + 1] == ']');
        lemma_skip_split(t, i + 1, seq![']'], rest);
        assert(sp_layers(t, i) == Some((Seq::<LayerV>::empty(), i + 2)));
        assert(ls =~= Seq::<LayerV>::empty());
    } else {
        assert(t.skip(i + 1) == r1);
        assert(es[0] == enc_layer(ls[0]));
        assert(join_comma(es)[0] == enc_layer(ls[0])[0]) by {
            if es.len() == 1 {
            } else {
                assert(join_comma(es) == es[0] + seq![','] + join_comma(es.skip(1)));
                assert(enc_layer(ls[0]).len() >= 1) by {
                    reveal(crate::encode::enc_layer);
                }
            }
        }
        assert(enc_layer(ls[0])[0] == '{') by {
            reveal(crate::encode::enc_layer);
        }
        assert(enc_layer(ls[0]).len() >= 1) by {
            reveal(crate::encode::enc_layer);
        }
        assert(join_comma(es).len() >= 1);
        assert(t.skip(i + 1)[0] == t[i + 1]);
        assert(t[i + 1] == '{');
        lemma_layers_items_inv(t, i + 1, Seq::empty(), ls, rest);
        assert(Seq::empty() + ls =~= ls);
    }
}

/// Reading one member of the stroke mapping back: its key string, colon,
/// and stroke value.
#[verifier::rlimit(100)]
#[verifier::spinoff_prover]
proof fn lemma_pair_inv(t: Seq<char>, i: int, kv: (Seq<char>, StrokeV), rest: Seq<char>)
    requires
        0 <= i <= t.len(),
        stroke_wf(kv.1),
        t.skip(i) == enc_pair(kv) + rest,
    ensures
        sp_string(t, i) == Some((kv.0, i + enc_string(kv.0).len())),
        i < i + enc_string(kv.0).len() < t.len(),
        t[i + enc_string(kv.0).len()] == ':',
        sp_stroke(t, i + enc_string(kv.0).len() + 1) == Some((kv.1, i + enc_pair(kv).len())),
        i + enc_string(kv.0).len() + 1 < i + enc_pair(kv).len() <= t.len(),
        t.skip(i + enc_pair(kv).len()) == rest,
{
    assert(t.skip(i).len() == t.len() - i);
    let r2 = enc_stroke(kv.1) + rest;
    let r1 = seq![':'] + r2;
    assert(t.skip(i) =~= enc_string(kv.0) + r1);
    lemma_string_inv(t, i, kv.0, r1);
    let c = i + enc_string(kv.0).len();
    assert(t.skip(c)[0] == t[c]);
    assert(t[c] == ':');
    lemma_skip_split(t, c, seq![':'], r2);
    lemma_stroke_inv(t, c + 1, kv.1, rest);
    assert(c + 1 + enc_stroke(kv.1).len() == i + enc_pair(kv).len());
}

/// Reading the members of the stroke mapping back.
#[verifier::rlimit(100)]
#[verifier::spinoff_prover]
proof fn lemma_strokes_items_inv(
    t: Seq<char>,
    i: int,
    acc: Seq<(Seq<char>, StrokeV)>,
    ss: Seq<(Seq<char>, StrokeV)>,
    rest: Seq<char>,
)
    requires
        0 <= i <= t.len(),
        ss.len() >= 1,
        forall|k: int| 0 <= k < ss.len() ==> stroke_wf(#[trigger] ss[k].1),
        t.skip(i) == join_comma(ss.map_values(|kv: (Seq<char>, StrokeV)| enc_pair(kv))) + (
        seq!['}'] + rest),
    ensures
        sp_strokes_items(t, i, acc) == Some(
            (
                acc + ss,
                i + join_comma(ss.map_values(|kv: (Seq<char>, StrokeV)| enc_pair(kv))).len() + 1,
            ),
        ),
        i + join_comma(ss.map_values(|kv: (Seq<char>, StrokeV)| enc_pair(kv))).len() + 1
            <= t.len(),
        t.skip(i + join_comma(ss.map_values(|kv: (Seq<char>, StrokeV)| enc_pair(kv))).len() + 1)
            == rest,
    decreases ss.len(),
{
    assert(t.skip(i).len() == t.len() - i);
    let es = ss.map_values(|kv: (Seq<char>, StrokeV)| enc_pair(kv));
    let kv0 = ss[0];
    assert(es[0] == enc_pair(kv0));
    if ss.len() == 1 {
        assert(join_comma(es) == es[0]);
        assert(t.skip(i) =~= enc_pair(kv0) + (seq!['}'] + rest));
        lemma_pair_inv(t, i, kv0, seq!['}'] + rest);
        let m = i + enc_pair(kv0).len();
        assert(t.skip(m)[0] == t[m]);
        assert(t[m] == '}');
        lemma_skip_split(t, m, seq!['}'], rest);
        assert(sp_strokes_items(t, i, acc) == Some((acc.push((kv0.0, kv0.1)), m + 1)));
        assert((kv0.0, kv0.1) == kv0);
        assert(acc.push(kv0) =~= acc + ss);
    } else {
        assert(join_comma(es) == es[0] + seq![','] + join_comma(es.skip(1)));
        assert(es.skip(1) =~= ss.skip(1).map_values(|kv: (Seq<char>, StrokeV)| enc_pair(kv)));
        let tail_join = join_comma(ss.skip(1).map_values(|kv: (Seq<char>, StrokeV)| enc_pair(kv)));
        let r1 = seq![','] + (tail_join + (seq!['}'] + rest));
        assert(t.skip(i) =~= enc_pair(kv0) + r1);
        lemma_pair_inv(t, i, kv0, r1);
        let m = i + enc_pair(kv0).len();
        assert(t.skip(m)[0] == t[m]);
        assert(t[m] == ',');
        lemma_skip_split(t, m, seq![','], tail_join + (seq!['}'] + rest));
        assert(forall|k: int| 0 <= k < ss.skip(1).len() ==> stroke_wf(#[trigger] ss.skip(1)[k].1));
        lemma_strokes_items_inv(t, m + 1, acc.push(kv0), ss.skip(1), rest);
        assert((kv0.0, kv0.1) == kv0);
        assert(acc.push(kv0) + ss.skip(1) =~= acc + ss);
        assert(sp_strokes_items(t, i, acc) == sp_strokes_items(t, m + 1, acc.push(kv0)));
    }
}

/// Reading the stroke mapping back.
#[verifier::rlimit(100)]
#[verifier::spinoff_prover]
pub proof fn lemma_strokes_inv(t: Seq<char>, i: int, ss: Seq<(Seq<char>, StrokeV)>, rest: Seq<char>)
    requires
        0 <= i <= t.len(),
        forall|k: int| 0 <= k < ss.len() ==> stroke_wf(#[trigger] ss[k].1),
        t.skip(i) == enc_strokes(ss) + rest,
    ensures
        sp_strokes(t, i) == Some((ss, i + enc_strokes(ss).len())),
        i + enc_strokes(ss).len() <= t.len(),
        t.skip(i + enc_strokes(ss).len()) == rest,
        enc_strokes(ss).len() >= 2,
{
    reveal(crate::encode::enc_strokes);
    assert(t.skip(i).len() == t.len() - i);
    let es = ss.map_values(|kv: (Seq<char>, StrokeV)| enc_pair(kv));
    let r1 = join_comma(es) + (seq!['}'] + rest);
    assert(t.skip(i) =~= seq!['{'] + r1);
    assert(t.skip(i)[0] == t[i]);
    assert(t[i] == '{');
    lemma_skip_split(t, i, seq!['{'], r1);
    if ss.len() == 0 {
        assert(join_comma(es) == Seq::<char>::empty());
        assert(t.skip(i + 1) =~= seq!['}'] + rest);
        assert(t.skip(i + 1)[0] == t[i + 1]);
        assert(t[i + 1] == '}');
        lemma_skip_split(t, i + 1, seq!['}'], rest);
        assert(sp_strokes(t, i) == Some((Seq::<(Seq<char>, StrokeV)>::empty(), i + 2)));
        assert(ss =~= Seq::<(Seq<char>, StrokeV)>::empty());
    } else {
        assert(t.skip(i + 1) == r1);
        assert(es[0] == enc_pair(ss[0]));
        assert(join_comma(es)[0] == enc_pair(ss[0])[0]) by {
            if es.len() == 1 {
            } else {
                assert(join_comma(es) == es[0] + seq![','] + join_comma(es.skip(1)));
                assert(enc_pair(ss[0]).len() >= 1);
            }
        }
        assert(enc_pair(ss[0])[0] == '\"') by {
            assert(enc_pair(ss[0]) == enc_string(ss[0].0) + seq![':'] + enc_stroke(ss[0].1));
            assert(enc_string(ss[0].0)[0] == '\"');
        }
        assert(t.skip(i + 1)[0] == t[i + 1]);
        assert(t[i + 1] == '\"');
        lemma_strokes_items_inv(t, i + 1, Seq::empty(), ss, rest);
        assert(Seq::empty() + ss =~= ss);
    }
}

/// One object member whose value is of the layer-array kind.
#[verifier::rlimit(100)]
proof fn lemma_member_layers(t: Seq<char>, j: int, k: Seq<char>, v: Seq<LayerV>, after: Seq<char>)
    requires
        0 <= j <= t.len(),
        forall|q: int| 0 <= q < v.len() ==> layer_wf(#[trigger] v[q]),
        t.skip(j) == enc_key(k) + (enc_layers(v) + after),
    ensures
        sp_string(t, j) == Some((k, j + enc_string(k).len())),
        j < j + enc_string(k).len() < t.len(),
        t[j + enc_string(k).len()] == ':',
        sp_layers(t, j + enc_key(k).len()) == Some((v, j + enc_key(k).len() + (enc_layers(v)).len())),
        j + enc_string(k).len() < j + enc_key(k).len() + (enc_layers(v)).len() <= t.len(),
        t.skip(j + enc_key(k).len() + (enc_layers(v)).len()) == after,
        t[j] == '\"',
{
    assert(t.skip(j).len() == t.len() - j);
    lemma_key_step(t, j, k, enc_layers(v) + after);
    let c = j + enc_string(k).len();
    lemma_layers_inv(t, c + 1, v, after);
    lemma_skip_split(t, c + 1, enc_layers(v), after);
}

/// One object member whose value is of the stroke-mapping kind.
#[verifier::rlimit(100)]
proof fn lemma_member_strokes(
    t: Seq<char>,
    j: int,
    k: Seq<char>,
    v: Seq<(Seq<char>, StrokeV)>,
    after: Seq<char>,
)
    requires
        0 <= j <= t.len(),
        forall|q: int| 0 <= q < v.len() ==> stroke_wf(#[trigger] v[q].1),
        t.skip(j) == enc_key(k) + (enc_strokes(v) + after),
    ensures
        sp_string(t, j) == Some((k, j + enc_string(k).len())),
        j < j + enc_string(k).len() < t.len(),
        t[j + enc_string(k).len()] == ':',
        sp_strokes(t, j + enc_key(k).len()) == Some(
            (v, j + enc_key(k).len() + (enc_strokes(v)).len()),
        ),
        j + enc_string(k).len() < j + enc_key(k).len() + (enc_strokes(v)).len() <= t.len(),
        t.skip(j + enc_key(k).len() + (enc_strokes(v)).len()) == after,
        t[j] == '\"',
{
    assert(t.skip(j).len() == t.len() - j);
    lemma_key_step(t, j, k, enc_strokes(v) + after);
    let c = j + enc_string(k).len();
    lemma_strokes_inv(t, c + 1, v, after);
    lemma_skip_split(t, c + 1, enc_strokes(v), after);
}

/// One object member whose value is of the camera kind.
#[verifier::rlimit(100)]
proof fn lemma_member_camera(t: Seq<char>, j: int, k: Seq<char>, v: CameraV, after: Seq<char>)
    requires
        0 <= j <= t.len(),
        camera_wf(v),
        t.skip(j) == enc_key(k) + (enc_camera(v) + after),
    ensures
        sp_string(t, j) == Some((k, j + enc_string(k).len())),
        j < j + enc_string(k).len() < t.len(),
        t[j + enc_string(k).len()] == ':',
        sp_camera(t, j + enc_key(k).len()) == Some((v, j + enc_key(k).len() + (enc_camera(v)).len())),
        j + enc_string(k).len() < j + enc_key(k).len() + (enc_camera(v)).len() <= t.len(),
        t.skip(j + enc_key(k).len() + (enc_camera(v)).len()) == after,
        t[j] == '\"',
{
    assert(t.skip(j).len() == t.len() - j);
    lemma_key_step(t, j, k, enc_camera(v) + after);
    let c = j + enc_string(k).len();
    lemma_camera_inv(t, c + 1, v, after);
    lemma_skip_split(t, c + 1, enc_camera(v), after);
}

/// The decoder's member loop, stepped through a canvas object whose
/// fields stand in canonical order at the given positions.
#[verifier::rlimit(100)]
#[verifier::spinoff_prover]
proof fn lemma_canvas_eval(t: Seq<char>, i: int, v: CanvasV, k1: int, m1: int, k2: int, m2: int, k3: int, m3: int, k4: int, m4: int, k5: int, m5: int, k6: int, m6: int, k7: int, m7: int)
    requires
        0 <= i && i + 1 < t.len() && t[i] == '{' && t[i + 1] == '\"',
        sp_string(t, i + 1) == Some((key_layers(), k1)),
        i + 1 < k1 < t.len() && t[k1] == ':',
        sp_layers(t, k1 + 1) == Some((v.layers, m1)),
        k1 < m1 < t.len() && t[m1] == ',',
        sp_string(t, m1 + 1) == Some((key_strokes(), k2)),
        m1 + 1 < k2 < t.len() && t[k2] == ':',
        sp_strokes(t, k2 + 1) == Some((v.strokes, m2)),
        k2 < m2 < t.len() && t[m2] == ',',
        sp_string(t, m2 + 1) == Some((key_camera(), k3)),
        m2 + 1 < k3 < t.len() && t[k3] == ':',
        sp_camera(t, k3 + 1) == Some((v.camera, m3)),
        k3 < m3 < t.len() && t[m3] == ',',
        sp_string(t, m3 + 1) == Some((key_active_layer_id(), k4)),
        m3 + 1 < k4 < t.len() && t[k4] == ':',
        sp_string(t, k4 + 1) == Some((v.active_layer_id, m4)),
        k4 < m4 < t.len() && t[m4] == ',',
        sp_string(t, m4 + 1) == Some((key_active_tool(), k5)),
        m4 + 1 < k5 < t.len() && t[k5] == ':',
        sp_string(t, k5 + 1) == Some((v.active_tool, m5)),
        k5 < m5 < t.len() && t[m5] == ',',
        sp_string(t, m5 + 1) == Some((key_active_color(), k6)),
        m5 + 1 < k6 < t.len() && t[k6] == ':',
        sp_string(t, k6 + 1) == Some((v.active_color, m6)),
        k6 < m6 < t.len() && t[m6] == ',',
        sp_string(t, m6 + 1) == Some((key_active_width(), k7)),
        m6 + 1 < k7 < t.len() && t[k7] == ':',
        sp_num(t, k7 + 1) == Some((v.active_width, m7)),
        k7 < m7 < t.len() && t[m7] == '}',
    ensures
        sp_canvas(t, i) == Some((v, m7 + 1)),
{
    lemma_keys_distinct();
    let n0: Option<Seq<char>> = None;
    let nl: Option<Seq<LayerV>> = None;
    let ns: Option<Seq<(Seq<char>, StrokeV)>> = None;
    let nc: Option<CameraV> = None;
    assert(sp_canvas(t, i) == sp_canvas_fields(t, i + 1, nl, ns, nc, n0, n0, n0, n0));
    assert(sp_canvas_fields(t, i + 1, nl, ns, nc, n0, n0, n0, n0) == sp_canvas_next(t, m1, Some(v.layers), ns, nc, n0, n0, n0, n0));
    assert(sp_canvas_next(t, m1, Some(v.layers), ns, nc, n0, n0, n0, n0) == sp_canvas_fields(t, m1 + 1, Some(v.layers), ns, nc, n0, n0, n0, n0));
    assert(sp_canvas_fields(t, m1 + 1, Some(v.layers), ns, nc, n0, n0, n0, n0) == sp_canvas_next(t, m2, Some(v.layers), Some(v.strokes), nc, n0, n0, n0, n0));
    assert(sp_canvas_next(t, m2, Some(v.layers), Some(v.strokes), nc, n0, n0, n0, n0) == sp_canvas_fields(t, m2 + 1, Some(v.layers), Some(v.strokes), nc, n0, n0, n0, n0));
    assert(sp_canvas_fields(t, m2 + 1, Some(v.layers), Some(v.strokes), nc, n0, n0, n0, n0) == sp_canvas_next(t, m3, Some(v.layers), Some(v.strokes), Some(v.camera), n0, n0, n0, n0));
    assert(sp_canvas_next(t, m3, Some(v.layers), Some(v.strokes), Some(v.camera), n0, n0, n0, n0) == sp_canvas_fields(t, m3 + 1, Some(v.layers), Some(v.strokes), Some(v.camera), n0, n0, n0, n0));
    assert(sp_canvas_fields(t, m3 + 1, Some(v.layers), Some(v.strokes), Some(v.camera), n0, n0, n0, n0) == sp_canvas_next(t, m4, Some(v.layers), Some(v.strokes), Some(v.camera), Some(v.active_layer_id), n0, n0, n0));
    assert(sp_canvas_next(t, m4, Some(v.layers), Some(v.strokes), Some(v.camera), Some(v.active_layer_id), n0, n0, n0) == sp_canvas_fields(t, m4 + 1, Some(v.layers), Some(v.strokes), Some(v.camera), Some(v.active_layer_id), n0, n0, n0));
    assert(sp_canvas_fields(t, m4 + 1, Some(v.layers), Some(v.strokes), Some(v.camera), Some(v.active_layer_id), n0, n0, n0) == sp_canvas_next(t, m5, Some(v.layers), Some(v.strokes), Some(v.camera), Some(v.active_layer_id), Some(v.active_tool), n0, n0));
    assert(sp_canvas_next(t, m5, Some(v.layers), Some(v.strokes), Some(v.camera), Some(v.active_layer_id), Some(v.active_tool), n0, n0) == sp_canvas_fields(t, m5 + 1, Some(v.layers), Some(v.strokes), Some(v.camera), Some(v.active_layer_id), Some(v.active_tool), n0, n0));
    assert(sp_canvas_fields(t, m5 + 1, Some(v.layers), Some(v.strokes), Some(v.camera), Some(v.active_layer_id), Some(v.active_tool), n0, n0) == sp_canvas_next(t, m6, Some(v.layers), Some(v.strokes), Some(v.camera), Some(v.active_layer_id), Some(v.active_tool), Some(v.active_color), n0));
    assert(sp_canvas_next(t, m6, Some(v.layers), Some(v.strokes), Some(v.camera), Some(v.active_layer_id), Some(v.active_tool), Some(v.active_color), n0) == sp_canvas_fields(t, m6 + 1, Some(v.layers), Some(v.strokes), Some(v.camera), Some(v.active_layer_id), Some(v.active_tool), Some(v.active_color), n0));
    assert(sp_canvas_fields(t, m6 + 1, Some(v.layers), Some(v.strokes), Some(v.camera), Some(v.active_layer_id), Some(v.active_tool), Some(v.active_color), n0) == sp_canvas_next(t, m7, Some(v.layers), Some(v.strokes), Some(v.camera), Some(v.active_layer_id), Some(v.active_tool), Some(v.active_color), Some(v.active_width)));
    assert(sp_canvas_next(t, m7, Some(v.layers), Some(v.strokes), Some(v.camera), Some(v.active_layer_id), Some(v.active_tool), Some(v.active_color), Some(v.active_width)) == Some((CanvasV { layers: v.layers, strokes: v.strokes, camera: v.camera, active_layer_id: v.active_layer_id, active_tool: v.active_tool, active_color: v.active_color, active_width: v.active_width }, m7 + 1)));
    assert(CanvasV { layers: v.layers, strokes: v.strokes, camera: v.camera, active_layer_id: v.active_layer_id, active_tool: v.active_tool, active_color: v.active_color, active_width: v.active_width } == v);
}

/// The canvas encoding, reassociated into the walk's shape.
#[verifier::rlimit(100)]
#[verifier::spinoff_prover]
proof fn lemma_canvas_shape(t: Seq<char>, i: int, v: CanvasV, rest: Seq<char>)
    requires
        0 <= i <= t.len(),
        t.skip(i) == enc_canvas(v) + rest,
    ensures
        t.skip(i) == seq!['{'] + (enc_key(key_layers()) + (enc_layers(v.layers) + (seq![','] + (enc_key(key_strokes()) + (enc_strokes(v.strokes) + (seq![','] + (enc_key(key_camera()) + (enc_camera(v.camera) + (seq![','] + (enc_key(key_active_layer_id()) + (enc_string(v.active_layer_id) + (seq![','] + (enc_key(key_active_tool()) + (enc_string(v.active_tool) + (seq![','] + (enc_key(key_active_color()) + (enc_string(v.active_color) + (seq![','] + (enc_key(key_active_width()) + (v.active_width + (seq!['}'] + rest))))))))))))))))))))),
{
    let p1 = seq!['{'];
    let p2 = enc_key(key_layers());
    let p3 = enc_layers(v.layers);
    let p4 = seq![','];
    let p5 = enc_key(key_strokes());
    let p6 = enc_strokes(v.strokes);
    let p7 = seq![','];
    let p8 = enc_key(key_camera());
    let p9 = enc_camera(v.camera);
    let p10 = seq![','];
    let p11 = enc_key(key_active_layer_id());
    let p12 = enc_string(v.active_layer_id);
    let p13 = seq![','];
    let p14 = enc_key(key_active_tool());
    let p15 = enc_string(v.active_tool);
    let p16 = seq![','];
    let p17 = enc_key(key_active_color());
    let p18 = enc_string(v.active_color);
    let p19 = seq![','];
    let p20 = enc_key(key_active_width());
    let p21 = v.active_width;
    let p22 = seq!['}'];
    let a1 = p1;
    let a2 = a1 + p2;
    let a3 = a2 + p3;
    let a4 = a3 + p4;
    let a5 = a4 + p5;
    let a6 = a5 + p6;
    let a7 = a6 + p7;
    let a8 = a7 + p8;
    let a9 = a8 + p9;
    let a10 = a9 + p10;
    let a11 = a10 + p11;
    let a12 = a11 + p12;
    let a13 = a12 + p13;
    let a14 = a13 + p14;
    let a15 = a14 + p15;
    let a16 = a15 + p16;
    let a17 = a16 + p17;
    let a18 = a17 + p18;
    let a19 = a18 + p19;
    let a20 = a19 + p20;
    let a21 = a20 + p21;
    let a22 = a21 + p22;
    let w23 = rest;
    let w22 = p22 + w23;
    let w21 = p21 + w22;
    let w20 = p20 + w21;
    let w19 = p19 + w20;
    let w18 = p18 + w19;
    let w17 = p17 + w18;
    let w16 = p16 + w17;
    let w15 = p15 + w16;
    let w14 = p14 + w15;
    let w13 = p13 + w14;
    let w12 = p12 + w13;
    let w11 = p11 + w12;
    let w10 = p10 + w11;
    let w9 = p9 + w10;
    let w8 = p8 + w9;
    let w7 = p7 + w8;
    let w6 = p6 + w7;
    let w5 = p5 + w6;
    let w4 = p4 + w5;
    let w3 = p3 + w4;
    let w2 = p2 + w3;
    assert(enc_canvas(v) == a22) by {
        reveal(crate::encode::enc_canvas);
    }
    lemma_assoc(a21, p22, w23);
    lemma_assoc(a20, p21, w22);
    lemma_assoc(a19, p20, w21);
    lemma_assoc(a18, p19, w20);
    lemma_assoc(a17, p18, w19);
    lemma_assoc(a16, p17, w18);
    lemma_assoc(a15, p16, w17);
    lemma_assoc(a14, p15, w16);
    lemma_assoc(a13, p14, w15);
    lemma_assoc(a12, p13, w14);
    lemma_assoc(a11, p12, w13);
    lemma_assoc(a10, p11, w12);
    lemma_assoc(a9, p10, w11);
    lemma_assoc(a8, p9, w10);
    lemma_assoc(a7, p8, w9);
    lemma_assoc(a6, p7, w8);
    lemma_assoc(a5, p6, w7);
    lemma_assoc(a4, p5, w6);
    lemma_assoc(a3, p4, w5);
    lemma_assoc(a2, p3, w4);
    lemma_assoc(a1, p2, w3);
    assert(t.skip(i) == p1 + w2);
}

/// The first members of a canvas object, read at their positions.
#[verifier::rlimit(100)]
#[verifier::spinoff_prover]
proof fn lemma_canvas_front(t: Seq<char>, i: int, v: CanvasV, rest: Seq<char>)
    requires
        0 <= i <= t.len(),
        canvas_wf(v),
        t.skip(i) == enc_canvas(v) + rest,
    ensures
        i + 1 < t.len() && t[i] == '{' && t[i + 1] == '\"',
        sp_string(t, (i + 1)) == Some((key_layers(), (i + 1) + enc_string(key_layers()).len())),
        (i + 1) < (i + 1) + enc_string(key_layers()).len() < t.len(),
        t[(i + 1) + enc_string(key_layers()).len()] == ':',
        sp_layers(t, (i + 1) + enc_string(key_layers()).len() + 1) == Some((v.layers, (i + 1) + enc_key(key_layers()).len() + (enc_layers(v.layers)).len())),
        (i + 1) + enc_string(key_layers()).len() < (i + 1) + enc_key(key_layers()).len() + (enc_layers(v.layers)).len() <= t.len(),
        (i + 1) + enc_key(key_layers()).len() + (enc_layers(v.layers)).len() < t.len() && t[(i + 1) + enc_key(key_layers()).len() + (enc_layers(v.layers)).len()] == ',',
        sp_string(t, (i + 1) + enc_key(key_layers()).len() + (enc_layers(v.layers)).len() + 1) == Some((key_strokes(), (i + 1) + enc_key(key_layers()).len() + (enc_layers(v.layers)).len() + 1 + enc_string(key_strokes()).len())),
        (i + 1) + enc_key(key_layers()).len() + (enc_layers(v.layers)).len() + 1 < (i + 1) + enc_key(key_layers()).len() + (enc_layers(v.layers)).len() + 1 + enc_string(key_strokes()).len() < t.len(),
        t[(i + 1) + enc_key(key_layers()).len() + (enc_layers(v.layers)).len() + 1 + enc_string(key_strokes()).len()] == ':',
        sp_strokes(t, (i + 1) + enc_key(key_layers()).len() + (enc_layers(v.layers)).len() + 1 + enc_string(key_strokes()).len() + 1) == Some((v.strokes, (i + 1) + enc_key(key_layers()).len() + (enc_layers(v.layers)).len() + 1 + enc_key(key_strokes()).len() + (enc_strokes(v.strokes)).len())),
        (i + 1) + enc_key(key_layers()).len() + (enc_layers(v.layers)).len() + 1 + enc_string(key_strokes()).len() < (i + 1) + enc_key(key_layers()).len() + (enc_layers(v.layers)).len() + 1 + enc_key(key_strokes()).len() + (enc_strokes(v.strokes)).len() <= t.len(),
        (i + 1) + enc_key(key_layers()).len() + (enc_layers(v.layers)).len() + 1 + enc_key(key_strokes()).len() + (enc_strokes(v.strokes)).len() < t.len() && t[(i + 1) + enc_key(key_layers()).len() + (enc_layers(v.layers)).len() + 1 + enc_key(key_strokes()).len() + (enc_strokes(v.strokes)).len()] == ',',
        sp_string(t, (i + 1) + enc_key(key_layers()).len() + (enc_layers(v.layers)).len() + 1 + enc_key(key_strokes()).len() + (enc_strokes(v.strokes)).len() + 1) == Some((key_camera(), (i + 1) + enc_key(key_layers()).len() + (enc_layers(v.layers)).len() + 1 + enc_key(key_strokes()).len() + (enc_strokes(v.strokes)).len() + 1 + enc_string(key_camera()).len())),
        (i + 1) + enc_key(key_layers()).len() + (enc_layers(v.layers)).len() + 1 + enc_key(key_strokes()).len() + (enc_strokes(v.strokes)).len() + 1 < (i + 1) + enc_key(key_layers()).len() + (enc_layers(v.layers)).len() + 1 + enc_key(key_strokes()).len() + (enc_strokes(v.strokes)).len() + 1 + enc_string(key_camera()).len() < t.len(),
        t[(i + 1) + enc_key(key_layers()).len() + (enc_layers(v.layers)).len() + 1 + enc_key(key_strokes()).len() + (enc_strokes(v.strokes)).len() + 1 + enc_string(key_camera()).len()] == ':',
        sp_camera(t, (i + 1) + enc_key(key_layers()).len() + (enc_layers(v.layers)).len() + 1 + enc_key(key_strokes()).len() + (enc_strokes(v.strokes)).len() + 1 + enc_string(key_camera()).len() + 1) == Some((v.camera, (i + 1) + enc_key(key_layers()).len() + (enc_layers(v.layers)).len() + 1 + enc_key(key_strokes()).len() + (enc_strokes(v.strokes)).len() + 1 + enc_key(key_camera()).len() + (enc_camera(v.camera)).len())),
        (i + 1) + enc_key(key_layers()).len() + (enc_layers(v.layers)).len() + 1 + enc_key(key_strokes()).len() + (enc_strokes(v.strokes)).len() + 1 + enc_string(key_camera()).len() < (i + 1) + enc_key(key_layers()).len() + (enc_layers(v.layers)).len() + 1 + enc_key(key_strokes()).len() + (enc_strokes(v.strokes)).len() + 1 + enc_key(key_camera()).len() + (enc_camera(v.camera)).len() <= t.len(),
        (i + 1) + enc_key(key_layers()).len() + (enc_layers(v.layers)).len() + 1 + enc_key(key_strokes()).len() + (enc_strokes(v.strokes)).len() + 1 + enc_key(key_camera()).len() + (enc_camera(v.camera)).len() < t.len() && t[(i + 1) + enc_key(key_layers()).len() + (enc_layers(v.layers)).len() + 1 + enc_key(key_strokes()).len() + (enc_strokes(v.strokes)).len() + 1 + enc_key(key_camera()).len() + (enc_camera(v.camera)).len()] == ',',
        t.skip((i + 1) + enc_key(key_layers()).len() + (enc_layers(v.layers)).len() + 1 + enc_key(key_strokes()).len() + (enc_strokes(v.strokes)).len() + 1 + enc_key(key_camera()).len() + (enc_camera(v.camera)).len() + 1) == (enc_key(key_active_layer_id()) + (enc_string(v.active_layer_id) + (seq![','] + (enc_key(key_active_tool()) + (enc_string(v.active_tool) + (seq![','] + (enc_key(key_active_color()) + (enc_string(v.active_color) + (seq![','] + (enc_key(key_active_width()) + (v.active_width + (seq!['}'] + rest)))))))))))),
{
    assert(t.skip(i).len() == t.len() - i);
    lemma_canvas_shape(t, i, v, rest);
    assert(t.skip(i) == seq!['{'] + (enc_key(key_layers()) + (enc_layers(v.layers) + (seq![','] + (enc_key(key_strokes()) + (enc_strokes(v.strokes) + (seq![','] + (enc_key(key_camera()) + (enc_camera(v.camera) + (seq![','] + (enc_key(key_active_layer_id()) + (enc_string(v.active_layer_id) + (seq![','] + (enc_key(key_active_tool()) + (enc_string(v.active_tool) + (seq![','] + (enc_key(key_active_color()) + (enc_string(v.active_color) + (seq![','] + (enc_key(key_active_width()) + (v.active_width + (seq!['}'] + rest))))))))))))))))))))));
    assert(t.skip(i)[0] == t[i]);
    assert(t[i] == '{');
    lemma_skip_split(t, i, seq!['{'], (enc_key(key_layers()) + (enc_layers(v.layers) + (seq![','] + (enc_key(key_strokes()) + (enc_strokes(v.strokes) + (seq![','] + (enc_key(key_camera()) + (enc_camera(v.camera) + (seq![','] + (enc_key(key_active_layer_id()) + (enc_string(v.active_layer_id) + (seq![','] + (enc_key(key_active_tool()) + (enc_string(v.active_tool) + (seq![','] + (enc_key(key_active_color()) + (enc_string(v.active_color) + (seq![','] + (enc_key(key_active_width()) + (v.active_width + (seq!['}'] + rest))))))))))))))))))))));
    lemma_member_layers(t, (i + 1), key_layers(), v.layers, (seq![','] + (enc_key(key_strokes()) + (enc_strokes(v.strokes) + (seq![','] + (enc_key(key_camera()) + (enc_camera(v.camera) + (seq![','] + (enc_key(key_active_layer_id()) + (enc_string(v.active_layer_id) + (seq![','] + (enc_key(key_active_tool()) + (enc_string(v.active_tool) + (seq![','] + (enc_key(key_active_color()) + (enc_string(v.active_color) + (seq![','] + (enc_key(key_active_width()) + (v.active_width + (seq!['}'] + rest))))))))))))))))))));
    assert(t.skip((i + 1) + enc_key(key_layers()).len() + (enc_layers(v.layers)).len())[0] == t[(i + 1) + enc_key(key_layers()).len() + (enc_layers(v.layers)).len()]);
    assert(t[(i + 1) + enc_key(key_layers()).len() + (enc_layers(v.layers)).len()] == ',');
    lemma_skip_split(t, (i + 1) + enc_key(key_layers()).len() + (enc_layers(v.layers)).len(), seq![','], (enc_key(key_strokes()) + (enc_strokes(v.strokes) + (seq![','] + (enc_key(key_camera()) + (enc_camera(v.camera) + (seq![','] + (enc_key(key_active_layer_id()) + (enc_string(v.active_layer_id) + (seq![','] + (enc_key(key_active_tool()) + (enc_string(v.active_tool) + (seq![','] + (enc_key(key_active_color()) + (enc_string(v.active_color) + (seq![','] + (enc_key(key_active_width()) + (v.active_width + (seq!['}'] + rest)))))))))))))))))));
    lemma_member_strokes(t, (i + 1) + enc_key(key_layers()).len() + (enc_layers(v.layers)).len() + 1, key_strokes(), v.strokes, (seq![','] + (enc_key(key_camera()) + (enc_camera(v.camera) + (seq![','] + (enc_key(key_active_layer_id()) + (enc_string(v.active_layer_id) + (seq![','] + (enc_key(key_active_tool()) + (enc_string(v.active_tool) + (seq![','] + (enc_key(key_active_color()) + (enc_string(v.active_color) + (seq![','] + (enc_key(key_active_width()) + (v.active_width + (seq!['}'] + rest)))))))))))))))));
    assert(t.skip((i + 1) + enc_key(key_layers()).len() + (enc_layers(v.layers)).len() + 1 + enc_key(key_strokes()).len() + (enc_strokes(v.strokes)).len())[0] == t[(i + 1) + enc_key(key_layers()).len() + (enc_layers(v.layers)).len() + 1 + enc_key(key_strokes()).len() + (enc_strokes(v.strokes)).len()]);
    assert(t[(i + 1) + enc_key(key_layers()).len() + (enc_layers(v.layers)).len() + 1 + enc_key(key_strokes()).len() + (enc_strokes(v.strokes)).len()] == ',');
    lemma_skip_split(t, (i + 1) + enc_key(key_layers()).len() + (enc_layers(v.layers)).len() + 1 + enc_key(key_strokes()).len() + (enc_strokes(v.strokes)).len(), seq![','], (enc_key(key_camera()) + (enc_camera(v.camera) + (seq![','] + (enc_key(key_active_layer_id()) + (enc_string(v.active_layer_id) + (seq![','] + (enc_key(key_active_tool()) + (enc_string(v.active_tool) + (seq![','] + (enc_key(key_active_color()) + (enc_string(v.active_color) + (seq![','] + (enc_key(key_active_width()) + (v.active_width + (seq!['}'] + rest))))))))))))))));
    lemma_member_camera(t, (i + 1) + enc_key(key_layers()).len() + (enc_layers(v.layers)).len() + 1 + enc_key(key_strokes()).len() + (enc_strokes(v.strokes)).len() + 1, key_camera(), v.camera, (seq![','] + (enc_key(key_active_layer_id()) + (enc_string(v.active_layer_id) + (seq![','] + (enc_key(key_active_tool()) + (enc_string(v.active_tool) + (seq![','] + (enc_key(key_active_color()) + (enc_string(v.active_color) + (seq![','] + (enc_key(key_active_width()) + (v.active_width + (seq!['}'] + rest))))))))))))));
    assert(t.skip((i + 1) + enc_key(key_layers()).len() + (enc_layers(v.layers)).len() + 1 + enc_key(key_strokes()).len() + (enc_strokes(v.strokes)).len() + 1 + enc_key(key_camera()).len() + (enc_camera(v.camera)).len())[0] == t[(i + 1) + enc_key(key_layers()).len() + (enc_layers(v.layers)).len() + 1 + enc_key(key_strokes()).len() + (enc_strokes(v.strokes)).len() + 1 + enc_key(key_camera()).len() + (enc_camera(v.camera)).len()]);
    assert(t[(i + 1) + enc_key(key_layers()).len() + (enc_layers(v.layers)).len() + 1 + enc_key(key_strokes()).len() + (enc_strokes(v.strokes)).len() + 1 + enc_key(key_camera()).len() + (enc_camera(v.camera)).len()] == ',');
    lemma_skip_split(t, (i + 1) + enc_key(key_layers()).len() + (enc_layers(v.layers)).len() + 1 + enc_key(key_strokes()).len() + (enc_strokes(v.strokes)).len() + 1 + enc_key(key_camera()).len() + (enc_camera(v.camera)).len(), seq![','], (enc_key(key_active_layer_id()) + (enc_string(v.active_layer_id) + (seq![','] + (enc_key(key_active_tool()) + (enc_string(v.active_tool) + (seq![','] + (enc_key(key_active_color()) + (enc_string(v.active_color) + (seq![','] + (enc_key(key_active_width()) + (v.active_width + (seq!['}'] + rest)))))))))))));
    assert(t[i + 1] == '\"');
}

/// Members of a canvas object from position `j`, in canonical order.
#[verifier::rlimit(100)]
#[verifier::spinoff_prover]
proof fn lemma_canvas_mid(t: Seq<char>, j: int, v: CanvasV, rest: Seq<char>)
    requires
        0 <= j <= t.len(),
        canvas_wf(v),
        t.skip(j) == (enc_key(key_active_layer_id()) + (enc_string(v.active_layer_id) + (seq![','] + (enc_key(key_active_tool()) + (enc_string(v.active_tool) + (seq![','] + (enc_key(key_active_color()) + (enc_string(v.active_color) + (seq![','] + (enc_key(key_active_width()) + (v.active_width + (seq!['}'] + rest)))))))))))),
    ensures
        sp_string(t, j) == Some((key_active_layer_id(), j + enc_string(key_active_layer_id()).len())),
        j < j + enc_string(key_active_layer_id()).len() < t.len(),
        t[j + enc_string(key_active_layer_id()).len()] == ':',
        sp_string(t, j + enc_string(key_active_layer_id()).len() + 1) == Some((v.active_layer_id, j + enc_key(key_active_layer_id()).len() + (enc_string(v.active_layer_id)).len())),
        j + enc_string(key_active_layer_id()).len() < j + enc_key(key_active_layer_id()).len() + (enc_string(v.active_layer_id)).len() <= t.len(),
        j + enc_key(key_active_layer_id()).len() + (enc_string(v.active_layer_id)).len() < t.len() && t[j + enc_key(key_active_layer_id()).len() + (enc_string(v.active_layer_id)).len()] == ',',
        t.skip(j + enc_key(key_active_layer_id()).len() + (enc_string(v.active_layer_id)).len() + 1) == (enc_key(key_active_tool()) + (enc_string(v.active_tool) + (seq![','] + (enc_key(key_active_color()) + (enc_string(v.active_color) + (seq![','] + (enc_key(key_active_width()) + (v.active_width + (seq!['}'] + rest))))))))),
{
    assert(t.skip(j).len() == t.len() - j);
    lemma_member_string(t, j, key_active_layer_id(), v.active_layer_id, (seq![','] + (enc_key(key_active_tool()) + (enc_string(v.active_tool) + (seq![','] + (enc_key(key_active_color()) + (enc_string(v.active_color) + (seq![','] + (enc_key(key_active_width()) + (v.active_width + (seq!['}'] + rest)))))))))));
    assert(t.skip(j + enc_key(key_active_layer_id()).len() + (enc_string(v.active_layer_id)).len())[0] == t[j + enc_key(key_active_layer_id()).len() + (enc_string(v.active_layer_id)).len()]);
    assert(t[j + enc_key(key_active_layer_id()).len() + (enc_string(v.active_layer_id)).len()] == ',');
    lemma_skip_split(t, j + enc_key(key_active_layer_id()).len() + (enc_string(v.active_layer_id)).len(), seq![','], (enc_key(key_active_tool()) + (enc_string(v.active_tool) + (seq![','] + (enc_key(key_active_color()) + (enc_string(v.active_color) + (seq![','] + (enc_key(key_active_width()) + (v.active_width + (seq!['}'] + rest))))))))));
}

/// Members of a canvas object from position `j`, in canonical order.
#[verifier::rlimit(100)]
#[verifier::spinoff_prover]
proof fn lemma_canvas_tail(t: Seq<char>, j: int, v: CanvasV, rest: Seq<char>)
    requires
        0 <= j <= t.len(),
        canvas_wf(v),
        t.skip(j) == (enc_key(key_active_tool()) + (enc_string(v.active_tool) + (seq![','] + (enc_key(key_active_color()) + (enc_string(v.active_color) + (seq![','] + (enc_key(key_active_width()) + (v.active_width + (seq!['}'] + rest))))))))),
    ensures
        sp_string(t, j) == Some((key_active_tool(), j + enc_string(key_active_tool()).len())),
        j < j + enc_string(key_active_tool()).len() < t.len(),
        t[j + enc_string(key_active_tool()).len()] == ':',
        sp_string(t, j + enc_string(key_active_tool()).len() + 1) == Some((v.active_tool, j + enc_key(key_active_tool()).len() + (enc_string(v.active_tool)).len())),
        j + enc_string(key_active_tool()).len() < j + enc_key(key_active_tool()).len() + (enc_string(v.active_tool)).len() <= t.len(),
        j + enc_key(key_active_tool()).len() + (enc_string(v.active_tool)).len() < t.len() && t[j + enc_key(key_active_tool()).len() + (enc_string(v.active_tool)).len()] == ',',
        sp_string(t, j + enc_key(key_active_tool()).len() + (enc_string(v.active_tool)).len() + 1) == Some((key_active_color(), j + enc_key(key_active_tool()).len() + (enc_string(v.active_tool)).len() + 1 + enc_string(key_active_color()).len())),
        j + enc_key(key_active_tool()).len() + (enc_string(v.active_tool)).len() + 1 < j + enc_key(key_active_tool()).len() + (enc_string(v.active_tool)).len() + 1 + enc_string(key_active_color()).len() < t.len(),
        t[j + enc_key(key_active_tool()).len() + (enc_string(v.active_tool)).len() + 1 + enc_string(key_active_color()).len()] == ':',
        sp_string(t, j + enc_key(key_active_tool()).len() + (enc_string(v.active_tool)).len() + 1 + enc_string(key_active_color()).len() + 1) == Some((v.active_color, j + enc_key(key_active_tool()).len() + (enc_string(v.active_tool)).len() + 1 + enc_key(key_active_color()).len() + (enc_string(v.active_color)).len())),
        j + enc_key(key_active_tool()).len() + (enc_string(v.active_tool)).len() + 1 + enc_string(key_active_color()).len() < j + enc_key(key_active_tool()).len() + (enc_string(v.active_tool)).len() + 1 + enc_key(key_active_color()).len() + (enc_string(v.active_color)).len() <= t.len(),
        j + enc_key(key_active_tool()).len() + (enc_string(v.active_tool)).len() + 1 + enc_key(key_active_color()).len() + (enc_string(v.active_color)).len() < t.len() && t[j + enc_key(key_active_tool()).len() + (enc_string(v.active_tool)).len() + 1 + enc_key(key_active_color()).len() + (enc_string(v.active_color)).len()] == ',',
        sp_string(t, j + enc_key(key_active_tool()).len() + (enc_string(v.active_tool)).len() + 1 + enc_key(key_active_color()).len() + (enc_string(v.active_color)).len() + 1) == Some((key_active_width(), j + enc_key(key_active_tool()).len() + (enc_string(v.active_tool)).len() + 1 + enc_key(key_active_color()).len() + (enc_string(v.active_color)).len() + 1 + enc_string(key_active_width()).len())),
        j + enc_key(key_active_tool()).len() + (enc_string(v.active_tool)).len() + 1 + enc_key(key_active_color()).len() + (enc_string(v.active_color)).len() + 1 < j + enc_key(key_active_tool()).len() + (enc_string(v.active_tool)).len() + 1 + enc_key(key_active_color()).len() + (enc_string(v.active_color)).len() + 1 + enc_string(key_active_width()).len() < t.len(),
        t[j + enc_key(key_active_tool()).len() + (enc_string(v.active_tool)).len() + 1 + enc_key(key_active_color()).len() + (enc_string(v.active_color)).len() + 1 + enc_string(key_active_width()).len()] == ':',
        sp_num(t, j + enc_key(key_active_tool()).len() + (enc_string(v.active_tool)).len() + 1 + enc_key(key_active_color()).len() + (enc_string(v.active_color)).len() + 1 + enc_string(key_active_width()).len() + 1) == Some((v.active_width, j + enc_key(key_active_tool()).len() + (enc_string(v.active_tool)).len() + 1 + enc_key(key_active_color()).len() + (enc_string(v.active_color)).len() + 1 + enc_key(key_active_width()).len() + (v.active_width).len())),
        j + enc_key(key_active_tool()).len() + (enc_string(v.active_tool)).len() + 1 + enc_key(key_active_color()).len() + (enc_string(v.active_color)).len() + 1 + enc_string(key_active_width()).len() < j + enc_key(key_active_tool()).len() + (enc_string(v.active_tool)).len() + 1 + enc_key(key_active_color()).len() + (enc_string(v.active_color)).len() + 1 + enc_key(key_active_width()).len() + (v.active_width).len() <= t.len(),
        j + enc_key(key_active_tool()).len() + (enc_string(v.active_tool)).len() + 1 + enc_key(key_active_color()).len() + (enc_string(v.active_color)).len() + 1 + enc_key(key_active_width()).len() + (v.active_width).len() < t.len() && t[j + enc_key(key_active_tool()).len() + (enc_string(v.active_tool)).len() + 1 + enc_key(key_active_color()).len() + (enc_string(v.active_color)).len() + 1 + enc_key(key_active_width()).len() + (v.active_width).len()] == '}',
        t.skip(j + enc_key(key_active_tool()).len() + (enc_string(v.active_tool)).len() + 1 + enc_key(key_active_color()).len() + (enc_string(v.active_color)).len() + 1 + enc_key(key_active_width()).len() + (v.active_width).len() + 1) == rest,
{
    assert(t.skip(j).len() == t.len() - j);
    lemma_member_string(t, j, key_active_tool(), v.active_tool, (seq![','] + (enc_key(key_active_color()) + (enc_string(v.active_color) + (seq![','] + (enc_key(key_active_width()) + (v.active_width + (seq!['}'] + rest))))))));
    assert(t.skip(j + enc_key(key_active_tool()).len() + (enc_string(v.active_tool)).len())[0] == t[j + enc_key(key_active_tool()).len() + (enc_string(v.active_tool)).len()]);
    assert(t[j + enc_key(key_active_tool()).len() + (enc_string(v.active_tool)).len()] == ',');
    lemma_skip_split(t, j + enc_key(key_active_tool()).len() + (enc_string(v.active_tool)).len(), seq![','], (enc_key(key_active_color()) + (enc_string(v.active_color) + (seq![','] + (enc_key(key_active_width()) + (v.active_width + (seq!['}'] + rest)))))));
    lemma_member_string(t, j + enc_key(key_active_tool()).len() + (enc_string(v.active_tool)).len() + 1, key_active_color(), v.active_color, (seq![','] + (enc_key(key_active_width()) + (v.active_width + (seq!['}'] + rest)))));
    assert(t.skip(j + enc_key(key_active_tool()).len() + (enc_string(v.active_tool)).len() + 1 + enc_key(key_active_color()).len() + (enc_string(v.active_color)).len())[0] == t[j + enc_key(key_active_tool()).len() + (enc_string(v.active_tool)).len() + 1 + enc_key(key_active_color()).len() + (enc_string(v.active_color)).len()]);
    assert(t[j + enc_key(key_active_tool()).len() + (enc_string(v.active_tool)).len() + 1 + enc_key(key_active_color()).len() + (enc_string(v.active_color)).len()] == ',');
    lemma_skip_split(t, j + enc_key(key_active_tool()).len() + (enc_string(v.active_tool)).len() + 1 + enc_key(key_active_color()).len() + (enc_string(v.active_color)).len(), seq![','], (enc_key(key_active_width()) + (v.active_width + (seq!['}'] + rest))));
    assert(((seq!['}'] + rest))[0] == '}');
    assert(!is_num_char('}'));
    lemma_member_num(t, j + enc_key(key_active_tool()).len() + (enc_string(v.active_tool)).len() + 1 + enc_key(key_active_color()).len() + (enc_string(v.active_color)).len() + 1, key_active_width(), v.active_width, (seq!['}'] + rest));
    assert(t.skip(j + enc_key(key_active_tool()).len() + (enc_string(v.active_tool)).len() + 1 + enc_key(key_active_color()).len() + (enc_string(v.active_color)).len() + 1 + enc_key(key_active_width()).len() + (v.active_width).len())[0] == t[j + enc_key(key_active_tool()).len() + (enc_string(v.active_tool)).len() + 1 + enc_key(key_active_color()).len() + (enc_string(v.active_color)).len() + 1 + enc_key(key_active_width()).len() + (v.active_width).len()]);
    assert(t[j + enc_key(key_active_tool()).len() + (enc_string(v.active_tool)).len() + 1 + enc_key(key_active_color()).len() + (enc_string(v.active_color)).len() + 1 + enc_key(key_active_width()).len() + (v.active_width).len()] == '}');
    lemma_skip_split(t, j + enc_key(key_active_tool()).len() + (enc_string(v.active_tool)).len() + 1 + enc_key(key_active_color()).len() + (enc_string(v.active_color)).len() + 1 + enc_key(key_active_width()).len() + (v.active_width).len(), seq!['}'], rest);
}

/// Reading a whole document object back.
#[verifier::rlimit(100)]
#[verifier::spinoff_prover]
proof fn lemma_canvas_inv(t: Seq<char>, i: int, v: CanvasV, rest: Seq<char>)
    requires
        0 <= i <= t.len(),
        canvas_wf(v),
        t.skip(i) == enc_canvas(v) + rest,
    ensures
        sp_canvas(t, i) == Some((v, i + enc_canvas(v).len())),
        i + enc_canvas(v).len() <= t.len(),
        t.skip(i + enc_canvas(v).len()) == rest,
{
    assert(t.skip(i).len() == t.len() - i);
    lemma_canvas_front(t, i, v, rest);
    let j4 = (i + 1) + enc_key(key_layers()).len() + (enc_layers(v.layers)).len() + 1 + enc_key(key_strokes()).len() + (enc_strokes(v.strokes)).len() + 1 + enc_key(key_camera()).len() + (enc_camera(v.camera)).len() + 1;
    lemma_canvas_mid(t, j4, v, rest);
    let j5 = j4 + enc_key(key_active_layer_id()).len() + (enc_string(v.active_layer_id)).len() + 1;
    lemma_canvas_tail(t, j5, v, rest);
    lemma_canvas_eval(
        t,
        i,
        v,
        (i + 1) + enc_string(key_layers()).len(),
        (i + 1) + enc_key(key_layers()).len() + (enc_layers(v.layers)).len(),
        (i + 1) + enc_key(key_layers()).len() + (enc_layers(v.layers)).len() + 1 + enc_string(key_strokes()).len(),
        (i + 1) + enc_key(key_layers()).len() + (enc_layers(v.layers)).len() + 1 + enc_key(key_strokes()).len() + (enc_strokes(v.strokes)).len(),
        (i + 1) + enc_key(key_layers()).len() + (enc_layers(v.layers)).len() + 1 + enc_key(key_strokes()).len() + (enc_strokes(v.strokes)).len() + 1 + enc_string(key_camera()).len(),
        (i + 1) + enc_key(key_layers()).len() + (enc_layers(v.layers)).len() + 1 + enc_key(key_strokes()).len() + (enc_strokes(v.strokes)).len() + 1 + enc_key(key_camera()).len() + (enc_camera(v.camera)).len(),
        j4 + enc_string(key_active_layer_id()).len(),
        j4 + enc_key(key_active_layer_id()).len() + (enc_string(v.active_layer_id)).len(),
        j5 + enc_string(key_active_tool()).len(),
        j5 + enc_key(key_active_tool()).len() + (enc_string(v.active_tool)).len(),
        j5 + enc_key(key_active_tool()).len() + (enc_string(v.active_tool)).len() + 1 + enc_string(key_active_color()).len(),
        j5 + enc_key(key_active_tool()).len() + (enc_string(v.active_tool)).len() + 1 + enc_key(key_active_color()).len() + (enc_string(v.active_color)).len(),
        j5 + enc_key(key_active_tool()).len() + (enc_string(v.active_tool)).len() + 1 + enc_key(key_active_color()).len() + (enc_string(v.active_color)).len() + 1 + enc_string(key_active_width()).len(),
        j5 + enc_key(key_active_tool()).len() + (enc_string(v.active_tool)).len() + 1 + enc_key(key_active_color()).len() + (enc_string(v.active_color)).len() + 1 + enc_key(key_active_width()).len() + (v.active_width).len(),
    );
    let endpos = (j5 + enc_key(key_active_tool()).len() + (enc_string(v.active_tool)).len() + 1 + enc_key(key_active_color()).len() + (enc_string(v.active_color)).len() + 1 + enc_key(key_active_width()).len() + (v.active_width).len()) + 1;
    assert(t.skip(endpos).len() == rest.len());
    assert(t.skip(i).len() == enc_canvas(v).len() + rest.len());
    assert(endpos == i + enc_canvas(v).len());
}

/// The round-trip law of the document model: decoding the encoded text of
/// any well-formed document yields exactly that document.
pub proof fn lemma_canvas_round_trip(v: CanvasV)
    requires
        canvas_wf(v),
    ensures
        sp_canvas_doc(enc_canvas(v)) == Some(v),
{
    let t = enc_canvas(v);
    assert(t.skip(0) =~= enc_canvas(v) + Seq::<char>::empty());
    lemma_canvas_inv(t, 0, v, Seq::empty());
}

/// The save-then-load law: a file whose bytes decompress to the encoded
/// text of a well-formed document loads back to exactly that document.
/// The bytes a save writes satisfy the premise, so a load right after a
/// save returns what was saved.
#[verifier::rlimit(100)]
pub proof fn lemma_save_load(file: Seq<u8>, v: CanvasV)
    requires
        canvas_wf(v),
        decompressed_of(file) == Some(vstd::utf8::encode_utf8(enc_canvas(v))),
    ensures
        spec_load(file) == Result::<CanvasV, StoreError>::Ok(v),
{
    vstd::utf8::encode_utf8_valid_utf8(enc_canvas(v));
    vstd::utf8::encode_utf8_decode_utf8(enc_canvas(v));
    lemma_canvas_round_trip(v);
}

} // verus!
