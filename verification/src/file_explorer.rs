use vstd::prelude::*;

verus! {

/// The lower-case form of a text, as std's `str::to_lowercase` gives it.
pub uninterp spec fn lowercase(s: Seq<char>) -> Seq<char>;

/// `str::to_lowercase`: the text with every character mapped to its lower
/// case.
#[verifier::external_body]
fn to_lowercase(s: &str) -> (r: String)
    ensures
        r@ == lowercase(s@),
{
    s.to_lowercase()
}

/// The extension of the file that `path` names, as std's `Path::extension`
/// gives it (converted to text). Where there is one, it is part of the
/// path, right after a '.'. For a path written with '/' only, with no '\\'
/// or ':' and not starting with "//" (so with no platform prefix), it is what
/// std documents: the file name is the last component, separators and "."
/// components aside, and none when that is ".." or there is none; the
/// extension follows its last '.', unless that '.' starts the name. For
/// other paths it is left to the platform's path rules and not stated.
#[verifier::external_body]
fn path_extension(path: &str) -> (r: Option<String>)
    ensures
        r matches Some(e) ==> occurs_after_dot(path@, e@),
        slash_path(path@) ==> match r {
            Some(e) => path_ext(path@) == Some(e@),
            None => path_ext(path@) is None,
        },
{
    std::path::Path::new(path).extension().and_then(|e| e.to_str()).map(|e| e.to_string())
}

/// A path written with '/' as its only separator: no '\\', no ':', and not
/// starting with "//".
pub open spec fn slash_path(p: Seq<char>) -> bool {
    &&& forall|k: int| 0 <= k < p.len() ==> (#[trigger] p[k] != '\\' && p[k] != ':')
    &&& !(p.len() >= 2 && p[0] == '/' && p[1] == '/')
}

/// Where the component of `p` that ends at `end` starts: after the last '/'
/// before `end`, or at 0.
pub open spec fn piece_start(p: Seq<char>, end: int) -> int
    decreases end,
{
    if end <= 0 || p[end - 1] == '/' {
        end
    } else {
        piece_start(p, end - 1)
    }
}

/// A component starts no later than it ends.
pub proof fn lemma_piece_start(p: Seq<char>, end: int)
    requires
        0 <= end,
    ensures
        0 <= piece_start(p, end) <= end,
    decreases end,
{
    if end > 0 && p[end - 1] != '/' {
        lemma_piece_start(p, end - 1);
    }
}

/// The file name of the path `p[..end]`: its last component, separators and
/// "." components aside; none when that is ".." or there is none.
pub open spec fn file_name_at(p: Seq<char>, end: int) -> Option<Seq<char>>
    decreases end,
{
    if end <= 0 {
        None
    } else if p[end - 1] == '/' {
        file_name_at(p, end - 1)
    } else {
        proof {
            lemma_piece_start(p, end - 1);
        }
        let start = piece_start(p, end - 1);
        let piece = p.subrange(start, end);
        if piece == seq!['.'] {
            file_name_at(p, start)
        } else if piece == seq!['.', '.'] {
            None
        } else {
            Some(piece)
        }
    }
}

/// The extension of the file that a '/'-only path names.
pub open spec fn path_ext(p: Seq<char>) -> Option<Seq<char>> {
    match file_name_at(p, p.len() as int) {
        Some(n) => plain_extension(n),
        None => None,
    }
}

/// The position of the last '.' in `p`, if any.
pub open spec fn last_dot(p: Seq<char>) -> Option<int>
    decreases p.len(),
{
    if p.len() == 0 {
        None
    } else if p.last() == '.' {
        Some(p.len() - 1)
    } else {
        last_dot(p.drop_last())
    }
}

/// The extension of a file name: what follows its last '.', unless that '.'
/// starts the name or the name is "..".
pub open spec fn plain_extension(p: Seq<char>) -> Option<Seq<char>> {
    if p == seq!['.', '.'] {
        None
    } else {
        match last_dot(p) {
            Some(k) => if k > 0 { Some(p.subrange(k + 1, p.len() as int)) } else { None },
            None => None,
        }
    }
}

/// `e`, right after a '.', is part of `path`.
pub open spec fn occurs_after_dot(path: Seq<char>, e: Seq<char>) -> bool {
    exists|i: int| 0 <= i && i + e.len() < path.len() && #[trigger] path.subrange(i, i + e.len() + 1) == seq!['.'] + e
}

/// Whether the extension `ext` (if any) is one of `extensions`, letter case
/// aside.
pub fn extension_matches(ext: &Option<String>, extensions: &Vec<String>) -> (b: bool)
    ensures
        b == match ext {
            Some(e) => exists|k: int| 0 <= k < extensions@.len() && lowercase(e@) == lowercase(#[trigger] extensions@[k]@),
            None => false,
        },
{
    match ext {
        None => false,
        Some(e) => {
            let lower = to_lowercase(e.as_str());
            let mut k: usize = 0;
            while k < extensions.len()
                invariant
                    k <= extensions@.len(),
                    lower@ == lowercase(e@),
                    *ext == Some(*e),
                    forall|j: int| 0 <= j < k ==> lowercase(e@) != lowercase(#[trigger] extensions@[j]@),
                decreases extensions@.len() - k,
            {
                let other = to_lowercase(extensions[k].as_str());
                if lower == other {
                    assert(lowercase(e@) == lowercase(extensions@[k as int]@));
                    return true;
                }
                k = k + 1;
            }
            false
        },
    }
}

/// Whether the file that `path` names has one of `extensions`, letter case
/// aside. The extension is read with std's path rules (see `path_extension`).
pub fn has_extension(path: &str, extensions: &Vec<String>) -> (b: bool)
    ensures
        b ==> exists|e: Seq<char>, k: int| #![trigger lowercase(e), extensions@[k]]
            occurs_after_dot(path@, e) && 0 <= k < extensions@.len() && lowercase(e) == lowercase(extensions@[k]@),
        slash_path(path@) ==> (b <==> match path_ext(path@) {
            Some(e) => exists|k: int| 0 <= k < extensions@.len() && lowercase(e) == lowercase(#[trigger] extensions@[k]@),
            None => false,
        }),
{
    let ext = path_extension(path);
    let b = extension_matches(&ext, extensions);
    proof {
        if b {
            let e = ext->0;
            let k = choose|k: int| 0 <= k < extensions@.len() && lowercase(e@) == lowercase(#[trigger] extensions@[k]@);
            assert(lowercase(e@) == lowercase(extensions@[k]@));
        }
    }
    b
}

} // verus!
