//! The content classifier: decides, by file extension and by sampling the
//! leading bytes, whether a file should be treated as text or as binary.

use vstd::prelude::*;
use vstd::string::StrSliceExecFns;
use crate::strutil::{chars_vec, last_pos, last_pos_exec};

verus! {

/// How many leading bytes of a file the classifier samples.
pub const SAMPLE_LIMIT: usize = 8192;

/// The file-name part of a path: everything after the last `'/'`.
pub open spec fn file_name_part(path: Seq<char>) -> Seq<char> {
    match last_pos(path, '/') {
        Option::None => path,
        Option::Some(k) => path.skip(k + 1),
    }
}

/// The extension of a file name: everything after the last `'.'`, unless the
/// only `'.'` opens a hidden name.
pub open spec fn extension_part(name: Seq<char>) -> Option<Seq<char>> {
    match last_pos(name, '.') {
        Option::None => Option::None,
        Option::Some(k) => if k == 0 {
            Option::None
        } else {
            Option::Some(name.skip(k + 1))
        },
    }
}

/// The code point of `c` with an ASCII capital letter folded to lower case.
pub open spec fn lower_code(c: char) -> u32 {
    if 65 <= c as u32 && c as u32 <= 90 {
        (c as u32 + 32) as u32
    } else {
        c as u32
    }
}

/// Equality of character sequences up to ASCII case.
pub open spec fn eq_ascii_ci(a: Seq<char>, b: Seq<char>) -> bool {
    a.len() == b.len() && forall|i: int| 0 <= i < a.len() ==> lower_code(a[i]) == lower_code(b[i])
}

/// Compare a character vector against a string slice up to ASCII case.
fn eq_chars_ci(a: &Vec<char>, b: &str) -> (r: bool)
    ensures
        r == eq_ascii_ci(a@, b@),
{
    let n = b.unicode_len();
    if a.len() != n {
        return false;
    }
    for i in 0..n
        invariant
            n == b@.len() == a@.len(),
            forall|j: int| 0 <= j < i ==> lower_code(a@[j]) == lower_code(b@[j]),
        decreases n - i,
    {
        let ca = a[i] as u32;
        let cb = b.get_char(i) as u32;
        let la = if 65 <= ca && ca <= 90 {
            ca + 32
        } else {
            ca
        };
        let lb = if 65 <= cb && cb <= 90 {
            cb + 32
        } else {
            cb
        };
        if la != lb {
            return false;
        }
    }
    true
}

/// The fixed denylist of extensions of known binary formats: executables and
/// object code, images, audio and video, archives, and office documents.
/// Extensions are compared up to ASCII case.
pub open spec fn is_binary_extension(ext: Seq<char>) -> bool {
    ||| eq_ascii_ci(ext, "exe"@)
    ||| eq_ascii_ci(ext, "dll"@)
    ||| eq_ascii_ci(ext, "so"@)
    ||| eq_ascii_ci(ext, "dylib"@)
    ||| eq_ascii_ci(ext, "bin"@)
    ||| eq_ascii_ci(ext, "obj"@)
    ||| eq_ascii_ci(ext, "o"@)
    ||| eq_ascii_ci(ext, "a"@)
    ||| eq_ascii_ci(ext, "lib"@)
    ||| eq_ascii_ci(ext, "png"@)
    ||| eq_ascii_ci(ext, "jpg"@)
    ||| eq_ascii_ci(ext, "jpeg"@)
    ||| eq_ascii_ci(ext, "gif"@)
    ||| eq_ascii_ci(ext, "bmp"@)
    ||| eq_ascii_ci(ext, "tiff"@)
    ||| eq_ascii_ci(ext, "ico"@)
    ||| eq_ascii_ci(ext, "mp3"@)
    ||| eq_ascii_ci(ext, "mp4"@)
    ||| eq_ascii_ci(ext, "avi"@)
    ||| eq_ascii_ci(ext, "mov"@)
    ||| eq_ascii_ci(ext, "wmv"@)
    ||| eq_ascii_ci(ext, "flv"@)
    ||| eq_ascii_ci(ext, "wav"@)
    ||| eq_ascii_ci(ext, "zip"@)
    ||| eq_ascii_ci(ext, "tar"@)
    ||| eq_ascii_ci(ext, "gz"@)
    ||| eq_ascii_ci(ext, "bz2"@)
    ||| eq_ascii_ci(ext, "xz"@)
    ||| eq_ascii_ci(ext, "7z"@)
    ||| eq_ascii_ci(ext, "rar"@)
    ||| eq_ascii_ci(ext, "pdf"@)
    ||| eq_ascii_ci(ext, "doc"@)
    ||| eq_ascii_ci(ext, "docx"@)
    ||| eq_ascii_ci(ext, "xls"@)
    ||| eq_ascii_ci(ext, "xlsx"@)
    ||| eq_ascii_ci(ext, "ppt"@)
    ||| eq_ascii_ci(ext, "pptx"@)
}

/// The extension of `path`'s file name is on the binary denylist.
pub open spec fn spec_likely_binary(path: Seq<char>) -> bool {
    match extension_part(file_name_part(path)) {
        Option::None => false,
        Option::Some(e) => is_binary_extension(e),
    }
}

/// Check whether a path names a probable binary file by its extension alone.
pub fn is_likely_binary_by_extension(path: &str) -> (r: bool)
    ensures
        r == spec_likely_binary(path@),
{
    let cs = chars_vec(path);
    let name: Vec<char> = match last_pos_exec(&cs, '/') {
        Option::None => cs,
        Option::Some(k) => {
            let mut name: Vec<char> = Vec::new();
            proof {
                assert(cs@.subrange(k as int + 1, k as int + 1) =~= Seq::<char>::empty());
            }
            for i in (k + 1)..cs.len()
                invariant
                    k < i <= cs@.len(),
                    cs@ == path@,
                    name@ == cs@.subrange(k as int + 1, i as int),
                decreases cs.len() - i,
            {
                name.push(cs[i]);
                proof {
                    assert(cs@.subrange(k as int + 1, i as int).push(cs@[i as int])
                        =~= cs@.subrange(k as int + 1, i as int + 1));
                }
            }
            proof {
                assert(name@ =~= path@.skip(k as int + 1));
            }
            name
        },
    };
    let ext: Vec<char> = match last_pos_exec(&name, '.') {
        Option::None => {
            return false;
        },
        Option::Some(k) => {
            if k == 0 {
                return false;
            }
            let mut ext: Vec<char> = Vec::new();
            proof {
                assert(name@.subrange(k as int + 1, k as int + 1) =~= Seq::<char>::empty());
            }
            for i in (k + 1)..name.len()
                invariant
                    k < i <= name@.len(),
                    ext@ == name@.subrange(k as int + 1, i as int),
                decreases name.len() - i,
            {
                ext.push(name[i]);
                proof {
                    assert(name@.subrange(k as int + 1, i as int).push(name@[i as int])
                        =~= name@.subrange(k as int + 1, i as int + 1));
                }
            }
            proof {
                assert(ext@ =~= name@.skip(k as int + 1));
            }
            ext
        },
    };
    is_binary_extension_exec(&ext)
}

/// Check a candidate extension against the binary denylist.
fn is_binary_extension_exec(ext: &Vec<char>) -> (r: bool)
    ensures
        r == is_binary_extension(ext@),
{
    eq_chars_ci(ext, "exe") || eq_chars_ci(ext, "dll") || eq_chars_ci(ext, "so") || eq_chars_ci(
        ext,
        "dylib",
    ) || eq_chars_ci(ext, "bin") || eq_chars_ci(ext, "obj") || eq_chars_ci(ext, "o") || eq_chars_ci(
        ext,
        "a",
    ) || eq_chars_ci(ext, "lib") || eq_chars_ci(ext, "png") || eq_chars_ci(ext, "jpg")
        || eq_chars_ci(ext, "jpeg") || eq_chars_ci(ext, "gif") || eq_chars_ci(ext, "bmp")
        || eq_chars_ci(ext, "tiff") || eq_chars_ci(ext, "ico") || eq_chars_ci(ext, "mp3")
        || eq_chars_ci(ext, "mp4") || eq_chars_ci(ext, "avi") || eq_chars_ci(ext, "mov")
        || eq_chars_ci(ext, "wmv") || eq_chars_ci(ext, "flv") || eq_chars_ci(ext, "wav")
        || eq_chars_ci(ext, "zip") || eq_chars_ci(ext, "tar") || eq_chars_ci(ext, "gz")
        || eq_chars_ci(ext, "bz2") || eq_chars_ci(ext, "xz") || eq_chars_ci(ext, "7z")
        || eq_chars_ci(ext, "rar") || eq_chars_ci(ext, "pdf") || eq_chars_ci(ext, "doc")
        || eq_chars_ci(ext, "docx") || eq_chars_ci(ext, "xls") || eq_chars_ci(ext, "xlsx")
        || eq_chars_ci(ext, "ppt") || eq_chars_ci(ext, "pptx")
}

/// The number of zero bytes in `s`.
pub open spec fn count_nulls(s: Seq<u8>) -> int
    decreases s.len(),
{
    if s.len() == 0 {
        0
    } else {
        count_nulls(s.drop_last()) + if s.last() == 0 {
            1int
        } else {
            0int
        }
    }
}

/// The number of bytes in `s` with the high bit set.
pub open spec fn count_high(s: Seq<u8>) -> int
    decreases s.len(),
{
    if s.len() == 0 {
        0
    } else {
        count_high(s.drop_last()) + if s.last() > 127 {
            1int
        } else {
            0int
        }
    }
}

/// The sampling verdict on a sequence of sampled bytes: an empty sample is
/// text; more than one percent zero bytes is binary; more than thirty
/// percent bytes outside ASCII is text only when the sample is valid UTF-8;
/// anything else is text.
pub open spec fn is_text_sample(s: Seq<u8>) -> bool {
    if s.len() == 0 {
        true
    } else if count_nulls(s) > s.len() / 100 {
        false
    } else if count_high(s) > (s.len() * 3) / 10 {
        vstd::utf8::valid_utf8(s)
    } else {
        true
    }
}

/// Relies on `core::str::from_utf8`: succeeds exactly on the byte sequences
/// that are valid UTF-8, the property `vstd::utf8::valid_utf8` captures.
#[verifier::external_body]
fn check_utf8(s: &Vec<u8>) -> (r: bool)
    ensures
        r == vstd::utf8::valid_utf8(s@),
{
    core::str::from_utf8(s.as_slice()).is_ok()
}

/// Apply the sampling verdict to a vector of sampled bytes.
pub fn is_text_bytes(s: &Vec<u8>) -> (r: bool)
    ensures
        r == is_text_sample(s@),
{
    let n = s.len();
    if n == 0 {
        return true;
    }
    let mut nulls: usize = 0;
    let mut high: usize = 0;
    for i in 0..n
        invariant
            n == s@.len(),
            nulls == count_nulls(s@.take(i as int)),
            high == count_high(s@.take(i as int)),
            nulls <= i,
            high <= i,
        decreases n - i,
    {
        proof {
            assert(s@.take(i as int + 1).drop_last() =~= s@.take(i as int));
            assert(s@.take(i as int + 1).last() == s@[i as int]);
        }
        if s[i] == 0 {
            nulls = nulls + 1;
        } else if s[i] > 127 {
            high = high + 1;
        }
    }
    proof {
        assert(s@.take(n as int) =~= s@);
    }
    if nulls > n / 100 {
        return false;
    }
    if (high as u128) > ((n as u128) * 3) / 10 {
        return check_utf8(s);
    }
    true
}

} // verus!
