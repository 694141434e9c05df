use vstd::prelude::*;

use crate::tree::index_of_from;
use crate::tree::lemma_index_of_from;

verus! {

/// What `path_clean::clean` returns for a path text.
pub uninterp spec fn clean_of(s: Seq<char>) -> Seq<char>;

/// Relies on `path_clean::clean`: lexical cleaning of a path (repeated `/`, `.` and `..`
/// elements), which depends on the text alone.
#[verifier::external_body]
pub(crate) fn clean_path(path: &str) -> (r: String)
    ensures
        r@ == clean_of(path@),
{
    path_clean::clean(path)
}

/// Index of the last `c` in `s` before position `to`, or -1.
pub open spec fn last_index_before(s: Seq<char>, c: char, to: int) -> int
    decreases to,
{
    if to <= 0 {
        -1
    } else if s[to - 1] == c {
        to - 1
    } else {
        last_index_before(s, c, to - 1)
    }
}

/// The directory part of a path: the text before its last `/` (`/` itself for a file at the
/// root, empty for a bare file name).
pub open spec fn parent_spec(p: Seq<char>) -> Seq<char> {
    let k = last_index_before(p, '/', p.len() as int);
    if k < 0 {
        Seq::empty()
    } else if k == 0 {
        seq!['/']
    } else {
        p.subrange(0, k)
    }
}

/// `f` taken relative to directory `dir`; an absolute `f` stands for itself.
pub open spec fn join_spec(dir: Seq<char>, f: Seq<char>) -> Seq<char> {
    if f.len() > 0 && f[0] == '/' {
        f
    } else if dir.len() == 0 {
        f
    } else if dir.last() == '/' {
        dir + f
    } else {
        dir + seq!['/'] + f
    }
}

/// The path that `path` names when it appears in the file at `base`, cleaned.
pub open spec fn normalized_spec(path: Seq<char>, base: Seq<char>) -> Seq<char> {
    clean_of(join_spec(parent_spec(base), path))
}

/// The file that a raw reference found in the file at `base` points into.
pub open spec fn target_path_spec(raw: Seq<char>, base: Seq<char>) -> Seq<char> {
    let h = index_of_from(raw, '#', 0);
    if 0 < h < raw.len() {
        normalized_spec(raw.subrange(0, h), base)
    } else {
        base
    }
}

/// The in-document pointer of a raw reference, always starting with `/`.
pub open spec fn pointer_text_spec(raw: Seq<char>) -> Seq<char> {
    let h = index_of_from(raw, '#', 0);
    let text = if h < raw.len() {
        raw.subrange(h + 1, raw.len() as int)
    } else {
        raw
    };
    if text.len() == 0 {
        seq!['/']
    } else if text[0] != '/' {
        seq!['/'] + text
    } else {
        text
    }
}

fn parent_dir(p: &str) -> (r: String)
    ensures
        r@ == parent_spec(p@),
{
    let len = p.unicode_len();
    let mut k: usize = len;
    while k > 0
        invariant
            k <= len,
            len == p@.len(),
            last_index_before(p@, '/', k as int) == last_index_before(p@, '/', len as int),
        decreases k,
    {
        if p.get_char(k - 1) == '/' {
            if k - 1 == 0 {
                let r = String::from_str("/");
                proof {
                    reveal_strlit("/");
                    assert(r@ =~= seq!['/']);
                }
                return r;
            }
            return String::from_str(p.substring_char(0, k - 1));
        }
        k = k - 1;
    }
    String::new()
}

fn join(dir: &str, f: &str) -> (r: String)
    ensures
        r@ == join_spec(dir@, f@),
{
    let flen = f.unicode_len();
    if flen > 0 && f.get_char(0) == '/' {
        return String::from_str(f);
    }
    let dlen = dir.unicode_len();
    if dlen == 0 {
        return String::from_str(f);
    }
    let mut r = String::from_str(dir);
    if dir.get_char(dlen - 1) != '/' {
        r.append("/");
        proof {
            reveal_strlit("/");
        }
    }
    r.append(f);
    proof {
        if dir@.last() != '/' {
            assert(r@ =~= dir@ + seq!['/'] + f@);
        }
    }
    r
}

/// # The descriptor of a reference
///
/// Derived once from the raw `$ref` text and the path of the file in which it appears.
#[derive(Debug)]
pub struct SparseRefUtils {
    /// The version of the target document when the reference was last resolved.
    pub version: u64,
    /// The path of the document the reference points into.
    pub pfile_path: String,
    /// The reference, as written in the document.
    pub raw_pointer: String,
    /// The in-document pointer, always starting with `/`.
    pub pointer: String,
}

impl SparseRefUtils {
    /// The path that `path` names when it appears in the file at `base_path`: relative paths
    /// are taken from the directory of `base_path`; the result is cleaned.
    pub fn normalize_path(path: &str, base_path: &str) -> (r: String)
        ensures
            r@ == normalized_spec(path@, base_path@),
    {
        let dir = parent_dir(base_path);
        let joined = join(dir.as_str(), path);
        clean_path(joined.as_str())
    }

    /// Splits a raw reference at its first `#` into the target file and the in-document
    /// pointer.
    pub fn parse_pointer(raw_pointer: &str, base_path: &str) -> (r: (String, String))
        ensures
            r.0@ == target_path_spec(raw_pointer@, base_path@),
            r.1@ == pointer_text_spec(raw_pointer@),
    {
        let len = raw_pointer.unicode_len();
        let h = find_hash(raw_pointer, len);
        let text: &str = if h < len {
            raw_pointer.substring_char(h + 1, len)
        } else {
            raw_pointer
        };
        let tlen = text.unicode_len();
        let pointer: String = if tlen == 0 {
            let r = String::from_str("/");
            proof {
                reveal_strlit("/");
                assert(r@ =~= seq!['/']);
            }
            r
        } else if text.get_char(0) != '/' {
            let r = String::from_str("/").concat(text);
            proof {
                reveal_strlit("/");
                assert(r@ =~= seq!['/'] + text@);
            }
            r
        } else {
            String::from_str(text)
        };
        let file: String = if 0 < h && h < len {
            SparseRefUtils::normalize_path(raw_pointer.substring_char(0, h), base_path)
        } else {
            String::from_str(base_path)
        };
        (file, pointer)
    }

    /// Creates the descriptor of the reference `raw_text` found in the file at `path`.
    pub fn new(raw_text: String, path: &str) -> (r: Self)
        ensures
            r.raw_pointer == raw_text,
            r.pfile_path@ == target_path_spec(raw_text@, path@),
            r.pointer@ == pointer_text_spec(raw_text@),
            r.version == 0,
    {
        let (pfile_path, pointer) = SparseRefUtils::parse_pointer(raw_text.as_str(), path);
        SparseRefUtils { version: 0, pfile_path, raw_pointer: raw_text, pointer }
    }
}

fn find_hash(s: &str, len: usize) -> (r: usize)
    requires
        len == s@.len(),
    ensures
        r == index_of_from(s@, '#', 0),
        r <= len,
{
    proof {
        lemma_index_of_from(s@, '#', 0);
    }
    crate::tree::find_char_from(s, '#', 0, len)
}

} // verus!
