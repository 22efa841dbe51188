//! Naming of the files the converter reads and writes: which files of a
//! directory are taken as input images, and the default name of an output.
//!
//! File names are the bytes of a path's final component, as
//! `OsStr::as_encoded_bytes` gives them. A name splits as a standard library
//! `Path` splits its final component: its
//! *prefix* ends before the first `.` that is not its first character, its
//! *extension* follows the last `.` that is not its first character, and the
//! name `..` has neither a split nor an extension.

use image::ImageFormat;
use vstd::prelude::*;

verus! {

/// The byte of `.`.
pub const DOT: u8 = 0x2e;

/// The bytes of `_output`.
pub open spec fn output_tag() -> Seq<u8> {
    seq![0x5fu8, 0x6f, 0x75, 0x74, 0x70, 0x75, 0x74]
}

/// The name `..`.
pub open spec fn is_parent_name(name: Seq<u8>) -> bool {
    name =~= seq![DOT, DOT]
}

/// The position of the first `.` in `name` at or after position `i`, or the
/// length of `name` when there is none.
pub open spec fn first_dot_from(name: Seq<u8>, i: int) -> int
    decreases name.len() - i,
{
    if i >= name.len() {
        name.len() as int
    } else if name[i] == DOT {
        i
    } else {
        first_dot_from(name, i + 1)
    }
}

/// The position of the last `.` in `name` before position `i`, or `-1` when
/// there is none.
pub open spec fn last_dot_before(name: Seq<u8>, i: int) -> int
    decreases i,
{
    if i <= 0 {
        -1
    } else if name[i - 1] == DOT {
        i - 1
    } else {
        last_dot_before(name, i - 1)
    }
}

/// The part of a file name before its first `.` that is not its first
/// character; the whole name when there is no such `.` or the name is `..`.
pub open spec fn file_prefix(name: Seq<u8>) -> Seq<u8> {
    if is_parent_name(name) || name.len() == 0 {
        name
    } else {
        name.take(first_dot_from(name, 1))
    }
}

/// The part of a file name after its last `.`, when that `.` is not the
/// first character and the name is not `..`.
pub open spec fn file_extension(name: Seq<u8>) -> Option<Seq<u8>> {
    let k = last_dot_before(name, name.len() as int);
    if is_parent_name(name) || k < 1 {
        None
    } else {
        Some(name.skip(k + 1))
    }
}

/// The name of the output written for input file `name` when no output path
/// is given: the input's prefix followed by `_output`, then a `.` and the
/// input's extension when that extension is not empty.
pub open spec fn output_name(name: Seq<u8>) -> Seq<u8> {
    let base = file_prefix(name) + output_tag();
    match file_extension(name) {
        Some(ext) => if ext.len() > 0 { base + seq![DOT] + ext } else { base },
        None => base,
    }
}

/// What `first_dot_from` finds: the first `.` at or after `i`, if any.
proof fn lemma_first_dot_from(name: Seq<u8>, i: int)
    requires
        0 <= i,
    ensures
        i <= first_dot_from(name, i) || (i > name.len() && first_dot_from(name, i) == name.len()),
        first_dot_from(name, i) <= name.len() || first_dot_from(name, i) == i,
        first_dot_from(name, i) < name.len() ==> name[first_dot_from(name, i)] == DOT,
        forall|j: int| i <= j < first_dot_from(name, i) && j < name.len() ==> name[j] != DOT,
    decreases name.len() - i,
{
    if i < name.len() && name[i] != DOT {
        lemma_first_dot_from(name, i + 1);
    }
}

/// What `last_dot_before` finds: the last `.` before `i`, if any.
proof fn lemma_last_dot_before(name: Seq<u8>, i: int)
    requires
        0 <= i <= name.len(),
    ensures
        -1 <= last_dot_before(name, i) < i,
        last_dot_before(name, i) >= 0 ==> name[last_dot_before(name, i)] == DOT,
        forall|j: int| last_dot_before(name, i) < j < i ==> name[j] != DOT,
    decreases i,
{
    if i > 0 && name[i - 1] != DOT {
        lemma_last_dot_before(name, i - 1);
    }
}

/// A `.` at `k` with no `.` after it before `i` is the last one before `i`.
proof fn lemma_last_dot_is(name: Seq<u8>, i: int, k: int)
    requires
        -1 <= k < i <= name.len(),
        k >= 0 ==> name[k] == DOT,
        forall|j: int| k < j < i ==> name[j] != DOT,
    ensures
        last_dot_before(name, i) == k,
    decreases i,
{
    if i - 1 > k {
        lemma_last_dot_is(name, i - 1, k);
    }
}

/// The default output name never equals the input name, so writing it never
/// overwrites the input.
pub proof fn lemma_output_name_differs(name: Seq<u8>)
    ensures
        output_name(name) != name,
{
    let out = output_name(name);
    let p = file_prefix(name);
    if is_parent_name(name) || name.len() == 0 {
        assert(out.len() > name.len());
    } else {
        lemma_first_dot_from(name, 1);
        let f = first_dot_from(name, 1);
        if f < name.len() {
            assert(out[f] == 0x5f);
            assert(name[f] == DOT);
        } else {
            assert(p =~= name);
            assert(out.len() > name.len());
        }
    }
}

/// The default output name keeps the input's extension, so the output is
/// written in the input's format; an input without an extension, or with an
/// empty one, gives an output without one. The name `..` is left out: its
/// output name `.._output` reads as having the extension `_output`.
pub proof fn lemma_output_name_extension(name: Seq<u8>)
    requires
        !is_parent_name(name),
    ensures
        match file_extension(name) {
            Some(ext) => if ext.len() > 0 {
                file_extension(output_name(name)) == Some(ext)
            } else {
                file_extension(output_name(name)) is None
            },
            None => file_extension(output_name(name)) is None,
        },
        is_image_file_name(output_name(name)) == is_image_file_name(name),
{
    let out = output_name(name);
    let p = file_prefix(name);
    let base = p + output_tag();
    lemma_last_dot_before(name, name.len() as int);
    let k = last_dot_before(name, name.len() as int);
    if name.len() > 0 {
        lemma_first_dot_from(name, 1);
    }
    // the prefix holds no `.` after its first character
    assert forall|j: int| 1 <= j < p.len() implies p[j] != DOT by {
        assert(p[j] == name[j]);
    }
    assert(!is_parent_name(out)) by {
        assert(out.len() >= 7);
    }
    match file_extension(name) {
        Some(ext) => {
            if ext.len() > 0 {
                let q = base.len() as int;
                assert(out =~= base + seq![DOT] + ext);
                assert forall|j: int| q < j < out.len() implies out[j] != DOT by {
                    assert(out[j] == name[k + 1 + (j - q - 1)]);
                }
                lemma_last_dot_is(out, out.len() as int, q);
                assert(out.skip(q + 1) =~= ext);
            } else {
                assert(out =~= base);
                self::lemma_base_has_no_extension(p, out);
                if is_known_image_extension(ext) {
                    lemma_known_extension_not_empty(ext);
                }
            }
        },
        None => {
            assert(out =~= base);
            self::lemma_base_has_no_extension(p, out);
        },
    }
}

/// A prefix followed by `_output` has no extension.
proof fn lemma_base_has_no_extension(p: Seq<u8>, out: Seq<u8>)
    requires
        forall|j: int| 1 <= j < p.len() ==> p[j] != DOT,
        out =~= p + output_tag(),
    ensures
        file_extension(out) is None,
{
    if p.len() > 0 && p[0] == DOT {
        lemma_last_dot_is(out, out.len() as int, 0);
    } else {
        lemma_last_dot_is(out, out.len() as int, -1);
    }
}

/// Scans for the first `.` at or after position `from`.
fn find_first_dot(name: &[u8], from: usize) -> (i: usize)
    requires
        from <= name@.len(),
    ensures
        i == first_dot_from(name@, from as int),
        from <= i <= name@.len(),
    decreases name@.len() - from,
{
    if from >= name.len() {
        name.len()
    } else if name[from] == DOT {
        from
    } else {
        find_first_dot(name, from + 1)
    }
}

/// Scans back for the last `.` before position `before`.
fn find_last_dot(name: &[u8], before: usize) -> (k: Option<usize>)
    requires
        before <= name@.len(),
    ensures
        match k {
            Some(k) => k == last_dot_before(name@, before as int) && k < before,
            None => last_dot_before(name@, before as int) == -1,
        },
    decreases before,
{
    if before == 0 {
        None
    } else if name[before - 1] == DOT {
        Some(before - 1)
    } else {
        find_last_dot(name, before - 1)
    }
}

/// Whether the name is `..`.
fn is_parent(name: &[u8]) -> (b: bool)
    ensures
        b == is_parent_name(name@),
{
    if name.len() == 2 && name[0] == DOT && name[1] == DOT {
        assert(name@ =~= seq![DOT, DOT]);
        true
    } else {
        false
    }
}

/// The prefix of a file name, as a slice of it.
pub fn prefix_of(name: &[u8]) -> (p: &[u8])
    ensures
        p@ == file_prefix(name@),
{
    let len = name.len();
    if len == 0 || is_parent(name) {
        proof {
            assert(name@.subrange(0, len as int) =~= name@);
        }
        &name[0..len]
    } else {
        let end = find_first_dot(name, 1);
        &name[0..end]
    }
}

/// The extension of a file name, as a slice of it.
pub fn extension_of(name: &[u8]) -> (e: Option<&[u8]>)
    ensures
        match e {
            Some(e) => file_extension(name@) == Some(e@),
            None => file_extension(name@) is None,
        },
{
    let len = name.len();
    if is_parent(name) {
        return None;
    }
    match find_last_dot(name, len) {
        Some(k) => {
            if k >= 1 {
                proof {
                    assert(name@.subrange(k + 1, len as int) =~= name@.skip(k + 1));
                }
                Some(&name[k + 1..len])
            } else {
                None
            }
        },
        None => None,
    }
}

/// Appends `bytes` to `out`.
fn push_all(out: &mut Vec<u8>, bytes: &[u8])
    ensures
        final(out)@ == old(out)@ + bytes@,
{
    let mut i: usize = 0;
    while i < bytes.len()
        invariant
            i <= bytes@.len(),
            out@ == old(out)@ + bytes@.take(i as int),
        decreases bytes@.len() - i,
    {
        out.push(bytes[i]);
        i = i + 1;
        assert(out@ =~= old(out)@ + bytes@.take(i as int));
    }
    assert(bytes@.take(bytes@.len() as int) =~= bytes@);
}

/// Names the output file for input file `file_name`: the input's prefix,
/// then `_output`, then the input's extension, if any, after a `.`.
pub fn output_file_name(file_name: &[u8]) -> (out: Vec<u8>)
    ensures
        out@ == output_name(file_name@),
{
    let mut out: Vec<u8> = Vec::new();
    push_all(&mut out, prefix_of(file_name));
    out.push(0x5f);
    out.push(0x6f);
    out.push(0x75);
    out.push(0x74);
    out.push(0x70);
    out.push(0x75);
    out.push(0x74);
    assert(out@ =~= file_prefix(file_name@) + output_tag());
    match extension_of(file_name) {
        Some(ext) => {
            if ext.len() > 0 {
                out.push(DOT);
                push_all(&mut out, ext);
            }
        },
        None => {},
    }
    out
}

#[verifier::external_type_specification]
#[verifier::external_body]
pub struct ExImageFormat(ImageFormat);

/// `ext` with the ASCII capitals `A` to `Z` made small.
pub open spec fn ascii_lowercase(ext: Seq<u8>) -> Seq<u8> {
    ext.map_values(|c: u8| if 0x41 <= c && c <= 0x5a { (c + 32) as u8 } else { c })
}

/// The bytes of an ASCII text.
pub open spec fn ascii_bytes(text: Seq<char>) -> Seq<u8> {
    text.map_values(|c: char| c as u8)
}

/// The extensions, in any ASCII case, that name an image format the image
/// library knows.
pub open spec fn is_known_image_extension(ext: Seq<u8>) -> bool {
    let e = ascii_lowercase(ext);
    ||| e == ascii_bytes("avif"@)
    ||| e == ascii_bytes("jpg"@) || e == ascii_bytes("jpeg"@) || e == ascii_bytes("jfif"@)
    ||| e == ascii_bytes("png"@) || e == ascii_bytes("apng"@)
    ||| e == ascii_bytes("gif"@)
    ||| e == ascii_bytes("webp"@)
    ||| e == ascii_bytes("tif"@) || e == ascii_bytes("tiff"@)
    ||| e == ascii_bytes("tga"@)
    ||| e == ascii_bytes("dds"@)
    ||| e == ascii_bytes("bmp"@)
    ||| e == ascii_bytes("ico"@)
    ||| e == ascii_bytes("hdr"@)
    ||| e == ascii_bytes("exr"@)
    ||| e == ascii_bytes("pbm"@) || e == ascii_bytes("pam"@) || e == ascii_bytes("ppm"@) || e == ascii_bytes("pgm"@) || e == ascii_bytes("pnm"@)
    ||| e == ascii_bytes("ff"@)
    ||| e == ascii_bytes("qoi"@)
}

/// No known image extension is empty.
proof fn lemma_known_extension_not_empty(ext: Seq<u8>)
    requires
        is_known_image_extension(ext),
    ensures
        ext.len() > 0,
{
    reveal_strlit("avif");
    reveal_strlit("jpg");
    reveal_strlit("jpeg");
    reveal_strlit("jfif");
    reveal_strlit("png");
    reveal_strlit("apng");
    reveal_strlit("gif");
    reveal_strlit("webp");
    reveal_strlit("tif");
    reveal_strlit("tiff");
    reveal_strlit("tga");
    reveal_strlit("dds");
    reveal_strlit("bmp");
    reveal_strlit("ico");
    reveal_strlit("hdr");
    reveal_strlit("exr");
    reveal_strlit("pbm");
    reveal_strlit("pam");
    reveal_strlit("ppm");
    reveal_strlit("pgm");
    reveal_strlit("pnm");
    reveal_strlit("ff");
    reveal_strlit("qoi");
    assert(ascii_lowercase(ext).len() == ext.len());
    assert(forall|t: Seq<char>| #[trigger] ascii_bytes(t).len() == t.len());
}

/// Calls `image::ImageFormat::from_extension` on the extension bytes read as
/// text, with `String::from_utf8_lossy`. The contract claims what the crate's
/// table shows: a format comes back exactly for the extensions of
/// `is_known_image_extension`, compared after ASCII lowercasing. Bytes that are
/// not UTF-8 read as text holding U+FFFD, which no entry of the table holds, as
/// `from_extension` gives nothing for an `OsStr` that is not UTF-8. Which
/// format comes back is not stated.
#[verifier::external_body]
pub(crate) fn image_format_from_extension(ext: &[u8]) -> (f: Option<ImageFormat>)
    ensures
        f is Some <==> is_known_image_extension(ext@),
{
    ImageFormat::from_extension(&*String::from_utf8_lossy(ext))
}

/// Whether a file name has an extension that names a known image format.
pub open spec fn is_image_file_name(name: Seq<u8>) -> bool {
    match file_extension(name) {
        Some(ext) => is_known_image_extension(ext),
        None => false,
    }
}

/// Decides whether a file with this name is taken as an input image.
pub fn is_image_file(file_name: &[u8]) -> (b: bool)
    ensures
        b == is_image_file_name(file_name@),
{
    match extension_of(file_name) {
        Some(ext) => image_format_from_extension(ext).is_some(),
        None => false,
    }
}

/// The positions, in increasing order, of the names in `names` that are
/// taken as input images.
pub fn select_image_files(names: &Vec<Vec<u8>>) -> (picked: Vec<usize>)
    ensures
        forall|a: int, b: int| 0 <= a < b < picked@.len() ==> picked@[a] < picked@[b],
        forall|a: int| 0 <= a < picked@.len() ==> #[trigger] picked@[a] < names@.len()
            && is_image_file_name(names@[picked@[a] as int]@),
        forall|i: int| 0 <= i < names@.len() && is_image_file_name(#[trigger] names@[i]@)
            ==> picked@.contains(i as usize),
{
    let mut picked: Vec<usize> = Vec::new();
    let mut i: usize = 0;
    while i < names.len()
        invariant
            i <= names@.len(),
            forall|a: int, b: int| 0 <= a < b < picked@.len() ==> picked@[a] < picked@[b],
            forall|a: int| 0 <= a < picked@.len() ==> #[trigger] picked@[a] < i
                && is_image_file_name(names@[picked@[a] as int]@),
            forall|j: int| 0 <= j < i && is_image_file_name(#[trigger] names@[j]@)
                ==> picked@.contains(j as usize),
        decreases names@.len() - i,
    {
        if is_image_file(names[i].as_slice()) {
            let ghost before = picked@;
            picked.push(i);
            proof {
                assert forall|j: int| 0 <= j < i + 1 && is_image_file_name(#[trigger] names@[j]@)
                    implies picked@.contains(j as usize) by {
                    if j < i {
                        let w = choose|w: int| 0 <= w < before.len() && before[w] == j as usize;
                        assert(picked@[w] == j as usize);
                    } else {
                        assert(picked@[picked@.len() - 1] == i);
                    }
                }
            }
        }
        i = i + 1;
    }
    picked
}

/// A `.` at `f`, with none from `i` up to it, is the first one from `i`; with
/// none from `i` to the end, the search ends at the length.
proof fn lemma_first_dot_is(name: Seq<u8>, i: int, f: int)
    requires
        0 <= i <= f <= name.len(),
        f < name.len() ==> name[f] == 0x2e,
        forall|j: int| i <= j < f ==> name[j] != 0x2e,
    ensures
        first_dot_from(name, i) == f,
    decreases f - i,
{
    if i < f {
        lemma_first_dot_is(name, i + 1, f);
    }
}

/// The extension of a file name is every byte after its last `.`, whatever
/// those bytes are, when that `.` is not the name's first byte.
pub proof fn lemma_extension_follows_last_dot(name: Seq<u8>, k: int)
    requires
        1 <= k < name.len(),
        name[k] == 0x2e,
        forall|j: int| k < j < name.len() ==> name[j] != 0x2e,
        name != seq![0x2eu8, 0x2e],
    ensures
        file_extension(name) == Some(name.skip(k + 1)),
{
    lemma_last_dot_is(name, name.len() as int, k);
}

/// A file name with no `.` after its first byte has no extension, and its
/// prefix is the whole name.
pub proof fn lemma_no_dot_no_extension(name: Seq<u8>)
    requires
        forall|j: int| 1 <= j < name.len() ==> name[j] != 0x2e,
    ensures
        file_extension(name) is None,
        file_prefix(name) == name,
{
    lemma_last_dot_before(name, name.len() as int);
    if name.len() > 0 {
        lemma_first_dot_is(name, 1, name.len() as int);
        assert(name.take(name.len() as int) =~= name);
    }
}

/// The prefix of a file name is every byte before its first `.` that is not
/// its first byte.
pub proof fn lemma_prefix_precedes_first_dot(name: Seq<u8>, f: int)
    requires
        1 <= f < name.len(),
        name[f] == 0x2e,
        forall|j: int| 1 <= j < f ==> name[j] != 0x2e,
        name != seq![0x2eu8, 0x2e],
    ensures
        file_prefix(name) == name.take(f),
{
    lemma_first_dot_is(name, 1, f);
}

/// For any stem `p` without a `.` after its first byte and any non-empty
/// extension `e` without a `.`, the input `p.e` is written to `p_output.e`:
/// the extension is kept whatever it is.
pub proof fn lemma_output_name_of_stem_and_extension(p: Seq<u8>, e: Seq<u8>)
    requires
        p.len() >= 1,
        forall|j: int| 1 <= j < p.len() ==> p[j] != 0x2e,
        e.len() >= 1,
        forall|j: int| 0 <= j < e.len() ==> e[j] != 0x2e,
    ensures
        output_name(p + seq![0x2eu8] + e) == p + seq![0x5fu8, 0x6f, 0x75, 0x74, 0x70, 0x75, 0x74, 0x2e] + e,
        file_extension(p + seq![0x2eu8] + e) == Some(e),
{
    let name = p + seq![0x2eu8] + e;
    let k = p.len() as int;
    assert(name[k] == 0x2e);
    assert forall|j: int| k < j < name.len() implies name[j] != 0x2e by {
        assert(name[j] == e[j - k - 1]);
    }
    assert forall|j: int| 1 <= j < k implies name[j] != 0x2e by {
        assert(name[j] == p[j]);
    }
    assert(name != seq![0x2eu8, 0x2e]) by {
        assert(name.len() >= 3);
    }
    lemma_extension_follows_last_dot(name, k);
    lemma_prefix_precedes_first_dot(name, k);
    assert(name.skip(k + 1) =~= e);
    assert(name.take(k) =~= p);
    assert(output_name(name) =~= p + seq![0x5fu8, 0x6f, 0x75, 0x74, 0x70, 0x75, 0x74, 0x2e] + e);
}

/// For any name without a `.` after its first byte, other than `..`, the
/// output is the name followed by `_output`.
pub proof fn lemma_output_name_without_extension(p: Seq<u8>)
    requires
        forall|j: int| 1 <= j < p.len() ==> p[j] != 0x2e,
    ensures
        output_name(p) == p + seq![0x5fu8, 0x6f, 0x75, 0x74, 0x70, 0x75, 0x74],
{
    lemma_no_dot_no_extension(p);
    assert(output_name(p) =~= p + seq![0x5fu8, 0x6f, 0x75, 0x74, 0x70, 0x75, 0x74]);
}

/// A name is taken as an input image exactly when it has an extension and the
/// image library knows that extension; nothing else filters it.
pub proof fn lemma_image_file_iff_known_extension(name: Seq<u8>)
    ensures
        is_image_file_name(name) <==> exists|ext: Seq<u8>|
            file_extension(name) == Some(ext) && #[trigger] is_known_image_extension(ext),
{
    if let Some(ext) = file_extension(name) {
        if is_known_image_extension(ext) {
            assert(file_extension(name) == Some(ext) && is_known_image_extension(ext));
        }
    }
}

/// A name whose last `.` is not its first byte is taken as an input image
/// exactly when the bytes after that `.` are a known extension.
pub proof fn lemma_image_file_by_last_dot(name: Seq<u8>, k: int)
    requires
        1 <= k < name.len(),
        name[k] == 0x2e,
        forall|j: int| k < j < name.len() ==> name[j] != 0x2e,
        name != seq![0x2eu8, 0x2e],
    ensures
        is_image_file_name(name) == is_known_image_extension(name.skip(k + 1)),
{
    lemma_extension_follows_last_dot(name, k);
}

/// A name without a `.` after its first byte is never taken as an input image.
pub proof fn lemma_no_dot_no_image(name: Seq<u8>)
    requires
        forall|j: int| 1 <= j < name.len() ==> name[j] != 0x2e,
    ensures
        !is_image_file_name(name),
{
    lemma_no_dot_no_extension(name);
}

/// Lowercasing ASCII twice changes nothing more.
proof fn lemma_ascii_lowercase_idempotent(ext: Seq<u8>)
    ensures
        ascii_lowercase(ascii_lowercase(ext)) == ascii_lowercase(ext),
{
    assert(ascii_lowercase(ascii_lowercase(ext)) =~= ascii_lowercase(ext));
}

/// Whether an extension is known does not depend on the ASCII case of its
/// letters.
pub proof fn lemma_known_extension_ignores_case(ext: Seq<u8>)
    ensures
        is_known_image_extension(ext) == is_known_image_extension(ascii_lowercase(ext)),
{
    lemma_ascii_lowercase_idempotent(ext);
}

/// The extensions of the formats the image library reads and writes, in any
/// ASCII case, are known: after any stem, a name ending in one of them is
/// taken as an input image.
pub proof fn lemma_common_formats_are_images(p: Seq<u8>, e: Seq<u8>)
    requires
        p.len() >= 1,
        forall|j: int| 1 <= j < p.len() ==> p[j] != 0x2e,
        forall|j: int| 0 <= j < e.len() ==> e[j] != 0x2e,
        ({
            let l = ascii_lowercase(e);
            ||| l == seq![0x70u8, 0x6e, 0x67]
            ||| l == seq![0x6au8, 0x70, 0x67]
            ||| l == seq![0x6au8, 0x70, 0x65, 0x67]
            ||| l == seq![0x67u8, 0x69, 0x66]
            ||| l == seq![0x77u8, 0x65, 0x62, 0x70]
            ||| l == seq![0x62u8, 0x6d, 0x70]
            ||| l == seq![0x74u8, 0x69, 0x66, 0x66]
            ||| l == seq![0x74u8, 0x67, 0x61]
            ||| l == seq![0x71u8, 0x6f, 0x69]
            ||| l == seq![0x69u8, 0x63, 0x6f]
            ||| l == seq![0x61u8, 0x76, 0x69, 0x66]
        }),
    ensures
        is_image_file_name(p + seq![0x2eu8] + e),
{
    reveal_strlit("png");
    reveal_strlit("jpg");
    reveal_strlit("jpeg");
    reveal_strlit("gif");
    reveal_strlit("webp");
    reveal_strlit("bmp");
    reveal_strlit("tiff");
    reveal_strlit("tga");
    reveal_strlit("qoi");
    reveal_strlit("ico");
    reveal_strlit("avif");
    let l = ascii_lowercase(e);
    assert(l.len() == e.len());
    assert(e.len() >= 3);
    lemma_output_name_of_stem_and_extension(p, e);
    assert(ascii_bytes("png"@) =~= seq![0x70u8, 0x6e, 0x67]);
    assert(ascii_bytes("jpg"@) =~= seq![0x6au8, 0x70, 0x67]);
    assert(ascii_bytes("jpeg"@) =~= seq![0x6au8, 0x70, 0x65, 0x67]);
    assert(ascii_bytes("gif"@) =~= seq![0x67u8, 0x69, 0x66]);
    assert(ascii_bytes("webp"@) =~= seq![0x77u8, 0x65, 0x62, 0x70]);
    assert(ascii_bytes("bmp"@) =~= seq![0x62u8, 0x6d, 0x70]);
    assert(ascii_bytes("tiff"@) =~= seq![0x74u8, 0x69, 0x66, 0x66]);
    assert(ascii_bytes("tga"@) =~= seq![0x74u8, 0x67, 0x61]);
    assert(ascii_bytes("qoi"@) =~= seq![0x71u8, 0x6f, 0x69]);
    assert(ascii_bytes("ico"@) =~= seq![0x69u8, 0x63, 0x6f]);
    assert(ascii_bytes("avif"@) =~= seq![0x61u8, 0x76, 0x69, 0x66]);
}

} // verus!
