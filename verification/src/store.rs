//! The project store rules: the naming scheme that maps a project name to a
//! file path, the recognition and stripping of the fixed project extension,
//! and the listing order of stored projects.
use crate::codec::compress_to_file_str;
use crate::codec::decompress_from_file;
use crate::codec::decompressed_of;
use crate::decode::sp_canvas_doc;
use crate::encode::enc_canvas;
use crate::encode::encode_canvas;
use crate::errors::StoreError;
use crate::model::CanvasState;
use crate::model::CanvasV;
use crate::parse::decode_canvas;
use vstd::prelude::*;

verus! {

use vstd::string::StrSliceExecFns;
use vstd::string::StringExecFns;
use vstd::string::StringSliceAdditionalSpecFns;
use vstd::utf8::decode_utf8;
use vstd::utf8::encode_utf8;
use vstd::utf8::valid_utf8;

/// The fixed extension suffix, with its leading dot, that marks a stored
/// project file. Changing it is a format-breaking change.
pub open spec fn ext_suffix() -> Seq<char> {
    seq!['.', 'f', 's', 'k']
}

/// True when a filename carries the project extension.
pub open spec fn has_project_ext(name: Seq<char>) -> bool {
    name.len() >= 4 && name.skip(name.len() - 4) == ext_suffix()
}

/// The filename with its project extension removed: exactly one trailing
/// suffix goes, since the naming rule appends exactly one.
pub open spec fn strip_ext(name: Seq<char>) -> Seq<char> {
    if has_project_ext(name) {
        name.take(name.len() - 4)
    } else {
        name
    }
}

/// The path of the file that stores the project of the given name: the base
/// directory, a separating slash, the name verbatim, and the extension.
pub open spec fn project_path(dir: Seq<char>, name: Seq<char>) -> Seq<char> {
    dir + seq!['/'] + name + ext_suffix()
}

/// The fixed filename extension, without its dot.
pub fn project_extension() -> (r: &'static str)
    ensures
        r@ == ext_suffix().skip(1),
{
    proof {
        reveal_strlit("fsk");
        assert("fsk"@ =~= ext_suffix().skip(1));
    }
    "fsk"
}

/// Checks whether a directory entry's filename looks like a project file.
pub fn is_project_file(name: &str) -> (r: bool)
    ensures
        r == has_project_ext(name@),
{
    let n = name.unicode_len();
    if n < 4 {
        return false;
    }
    let c0 = name.get_char(n - 4);
    let c1 = name.get_char(n - 3);
    let c2 = name.get_char(n - 2);
    let c3 = name.get_char(n - 1);
    let r = c0 == '.' && c1 == 'f' && c2 == 's' && c3 == 'k';
    proof {
        let tail = name@.skip(n - 4);
        assert(tail.len() == 4);
        assert(tail[0] == c0 && tail[1] == c1 && tail[2] == c2 && tail[3] == c3);
        if r {
            assert(tail =~= ext_suffix());
        } else {
            assert(tail != ext_suffix());
        }
    }
    r
}

/// Removes the project extension from a filename, if it carries one.
pub fn strip_project_extension(name: &str) -> (r: String)
    ensures
        r@ == strip_ext(name@),
{
    if is_project_file(name) {
        let n = name.unicode_len();
        let stripped = name.substring_char(0, n - 4);
        proof {
            assert(stripped@ =~= name@.take(name@.len() - 4));
        }
        String::from_str(stripped)
    } else {
        String::from_str(name)
    }
}

/// Builds the full path for the project of the given name under the base
/// directory, joining with a slash and appending the fixed extension.
pub fn canvas_file_path(canvas_dir: &str, filename: &str) -> (r: String)
    ensures
        r@ == project_path(canvas_dir@, filename@),
{
    let mut r = String::from_str(canvas_dir);
    r.append("/");
    r.append(filename);
    r.append(".fsk");
    proof {
        reveal_strlit("/");
        reveal_strlit(".fsk");
        assert(r@ =~= project_path(canvas_dir@, filename@));
    }
    r
}

/// What loading a project file's raw bytes yields, stage by stage: the
/// bytes are decompressed (`Codec` error on a corrupt or truncated stream),
/// read as UTF-8 text (`Encoding` error otherwise), and decoded against the
/// document grammar (`Format` error otherwise).
pub open spec fn spec_load(file: Seq<u8>) -> Result<CanvasV, StoreError> {
    match decompressed_of(file) {
        None => Err(StoreError::Codec),
        Some(bytes) => if !valid_utf8(bytes) {
            Err(StoreError::Encoding)
        } else {
            match sp_canvas_doc(decode_utf8(bytes)) {
                None => Err(StoreError::Format),
                Some(v) => Ok(v),
            }
        },
    }
}

/// The computing part of a save: resolves the project's path and turns the
/// document into the compressed bytes to be written there. The bytes
/// decompress back to exactly the document's encoded text, and for a
/// well-formed document, loading them returns exactly the document saved.
pub fn save_canvas(canvas_dir: &str, filename: &str, canvas: &CanvasState) -> (r: (
    String,
    Vec<u8>,
))
    ensures
        r.0@ == project_path(canvas_dir@, filename@),
        decompressed_of(r.1@) == Some(encode_utf8(enc_canvas(canvas@))),
        spec_load(r.1@) == match sp_canvas_doc(enc_canvas(canvas@)) {
            Some(v) => Result::<CanvasV, StoreError>::Ok(v),
            None => Result::<CanvasV, StoreError>::Err(StoreError::Format),
        },
        crate::model::canvas_wf(canvas@) ==> spec_load(r.1@) == Result::<CanvasV, StoreError>::Ok(
            canvas@,
        ),
{
    let path = canvas_file_path(canvas_dir, filename);
    let text = encode_canvas(canvas);
    let bytes = compress_to_file_str(text.as_str());
    proof {
        vstd::utf8::encode_utf8_valid_utf8(enc_canvas(canvas@));
        vstd::utf8::encode_utf8_decode_utf8(enc_canvas(canvas@));
        if crate::model::canvas_wf(canvas@) {
            crate::round_trip::lemma_save_load(bytes@, canvas@);
        }
    }
    (path, bytes)
}

/// The computing part of a load: `None` stands for a missing file and is
/// reported as `NotFound` with nothing read; otherwise the raw file bytes
/// are decompressed and decoded exactly as `spec_load` says.
pub fn load_canvas(file: Option<&[u8]>) -> (r: Result<CanvasState, StoreError>)
    ensures
        match file {
            None => r == Result::<CanvasState, StoreError>::Err(StoreError::NotFound),
            Some(b) => match r {
                Ok(d) => spec_load(b@) == Result::<CanvasV, StoreError>::Ok(d@),
                Err(e) => spec_load(b@) == Result::<CanvasV, StoreError>::Err(e),
            },
        },
{
    let b = match file {
        None => {
            return Err(StoreError::NotFound);
        },
        Some(b) => b,
    };
    let text = decompress_from_file(b)?;
    match decode_canvas(text.as_str()) {
        Ok(d) => Ok(d),
        Err(e) => Err(e),
    }
}

/// Character sequences ordered by scalar value, shorter prefixes first: the
/// ascending lexicographic order in which projects are listed.
pub open spec fn chars_le(a: Seq<char>, b: Seq<char>) -> bool
    decreases a.len(),
{
    if a.len() == 0 {
        true
    } else if b.len() == 0 {
        false
    } else if (a[0] as u32) < (b[0] as u32) {
        true
    } else if (a[0] as u32) > (b[0] as u32) {
        false
    } else {
        chars_le(a.skip(1), b.skip(1))
    }
}

/// The name inserted in front of the first listed name it precedes.
pub open spec fn insert_sorted(x: Seq<char>, s: Seq<Seq<char>>) -> Seq<Seq<char>>
    decreases s.len(),
{
    if s.len() == 0 {
        seq![x]
    } else if chars_le(x, s[0]) {
        seq![x] + s
    } else {
        seq![s[0]] + insert_sorted(x, s.skip(1))
    }
}

/// The names rearranged into ascending order by repeated insertion.
pub open spec fn sort_names(s: Seq<Seq<char>>) -> Seq<Seq<char>>
    decreases s.len(),
{
    if s.len() == 0 {
        Seq::empty()
    } else {
        insert_sorted(s.last(), sort_names(s.drop_last()))
    }
}

/// The project names among the given directory entries, in entry order:
/// entries that carry the extension, with the extension stripped.
pub open spec fn project_names(es: Seq<Seq<char>>) -> Seq<Seq<char>>
    decreases es.len(),
{
    if es.len() == 0 {
        Seq::empty()
    } else {
        let rest = project_names(es.drop_last());
        if has_project_ext(es.last()) {
            rest.push(strip_ext(es.last()))
        } else {
            rest
        }
    }
}

/// What a directory listing yields: the project names, sorted ascending.
pub open spec fn listed_names(es: Seq<Seq<char>>) -> Seq<Seq<char>> {
    sort_names(project_names(es))
}

/// The views of a vector of strings.
pub open spec fn names_view(v: Seq<String>) -> Seq<Seq<char>> {
    v.map_values(|s: String| s@)
}

/// Compares two strings in the listing order.
pub fn str_le(a: &str, b: &str) -> (r: bool)
    ensures
        r == chars_le(a@, b@),
{
    let na = a.unicode_len();
    let nb = b.unicode_len();
    let mut i: usize = 0;
    proof {
        assert(a@.skip(0) =~= a@);
        assert(b@.skip(0) =~= b@);
    }
    loop
        invariant
            na == a@.len(),
            nb == b@.len(),
            i <= na,
            i <= nb,
            chars_le(a@, b@) == chars_le(a@.skip(i as int), b@.skip(i as int)),
        decreases na - i,
    {
        if i >= na {
            return true;
        }
        if i >= nb {
            return false;
        }
        let ca = a.get_char(i);
        let cb = b.get_char(i);
        if (ca as u32) < (cb as u32) {
            return true;
        }
        if (ca as u32) > (cb as u32) {
            return false;
        }
        proof {
            assert(a@.skip(i as int).skip(1) =~= a@.skip(i + 1));
            assert(b@.skip(i as int).skip(1) =~= b@.skip(i + 1));
        }
        i = i + 1;
    }
}

/// Inserting into the sorted prefix at the first position whose name does
/// not precede the new one yields the specified insertion.
proof fn lemma_insert_at(x: Seq<char>, s: Seq<Seq<char>>, k: int)
    requires
        0 <= k <= s.len(),
        forall|idx: int| 0 <= idx < k ==> !chars_le(x, s[idx]),
        k < s.len() ==> chars_le(x, s[k]),
    ensures
        insert_sorted(x, s) == s.take(k) + seq![x] + s.skip(k),
    decreases k,
{
    if s.len() == 0 {
        assert(insert_sorted(x, s) =~= s.take(k) + seq![x] + s.skip(k));
    } else if k == 0 {
        assert(insert_sorted(x, s) =~= s.take(0) + seq![x] + s.skip(0));
    } else {
        lemma_insert_at(x, s.skip(1), k - 1);
        assert(s.skip(1).take(k - 1) =~= s.take(k).skip(1));
        assert(s.skip(1).skip(k - 1) =~= s.skip(k));
        assert(seq![s[0]] + (s.skip(1).take(k - 1) + seq![x] + s.skip(1).skip(k - 1)) =~= s.take(
            k,
        ) + seq![x] + s.skip(k));
    }
}

/// Inserts a name into an already sorted vector of names.
fn insert_name(out: &mut Vec<String>, x: String)
    ensures
        names_view(final(out)@) == insert_sorted(x@, names_view(old(out)@)),
{
    let ghost s = names_view(old(out)@);
    let mut k: usize = 0;
    let n = out.len();
    while k < n && !str_le(x.as_str(), out[k].as_str())
        invariant
            s == names_view(out@),
            n == out@.len(),
            k <= n,
            forall|idx: int| 0 <= idx < k ==> !chars_le(x@, s[idx]),
        decreases n - k,
    {
        proof {
            assert(s[k as int] == out@[k as int]@);
        }
        k = k + 1;
    }
    proof {
        if k < n {
            assert(s[k as int] == out@[k as int]@);
        }
        lemma_insert_at(x@, s, k as int);
    }
    out.insert(k, x);
    proof {
        assert(names_view(out@) =~= s.take(k as int) + seq![x@] + s.skip(k as int));
    }
}

/// Scans the given directory entries, keeps those that look like project
/// files, strips their extension, and returns the names sorted ascending.
/// Entries without the extension are silently skipped.
pub fn list_canvases(entries: &Vec<String>) -> (r: Vec<String>)
    ensures
        names_view(r@) == listed_names(names_view(entries@)),
{
    let mut out: Vec<String> = Vec::new();
    let mut i: usize = 0;
    proof {
        assert(names_view(entries@).take(0) =~= Seq::<Seq<char>>::empty());
        assert(names_view(out@) =~= Seq::<Seq<char>>::empty());
        assert(project_names(Seq::<Seq<char>>::empty()) =~= Seq::<Seq<char>>::empty());
    }
    while i < entries.len()
        invariant
            i <= entries@.len(),
            names_view(out@) == listed_names(names_view(entries@).take(i as int)),
        decreases entries@.len() - i,
    {
        let ghost prefix = names_view(entries@).take(i as int);
        let ghost next = names_view(entries@).take(i + 1);
        proof {
            assert(next.drop_last() =~= prefix);
            assert(next.last() == entries@[i as int]@);
        }
        let entry = &entries[i];
        if is_project_file(entry.as_str()) {
            let name = strip_project_extension(entry.as_str());
            let ghost before = names_view(out@);
            insert_name(&mut out, name);
            proof {
                assert(project_names(next) =~= project_names(prefix).push(
                    strip_ext(entries@[i as int]@),
                ));
                let p = project_names(next);
                assert(p.drop_last() =~= project_names(prefix));
                assert(sort_names(p) == insert_sorted(strip_ext(entries@[i as int]@), before));
            }
        } else {
            proof {
                assert(project_names(next) =~= project_names(prefix));
            }
        }
        i = i + 1;
    }
    proof {
        assert(names_view(entries@).take(entries@.len() as int) =~= names_view(entries@));
    }
    out
}

} // verus!
