//! The path builtins `basename`, `dirname`, `extname` and `path_join`, on
//! paths given as text. How a path splits into components is the
//! platform's (`std::path`); what the builtins make of the parts is here.
use vstd::prelude::*;

verus! {

/// What `std::path::Path::file_name` gives for the path `p`, as text.
pub uninterp spec fn spec_file_name(p: Seq<char>) -> Option<Seq<char>>;

/// What `std::path::Path::parent` gives for the path `p`, as text.
pub uninterp spec fn spec_parent(p: Seq<char>) -> Option<Seq<char>>;

/// What `std::path::PathBuf::push` makes of the path `base` with `part`
/// pushed onto it, as text.
pub uninterp spec fn spec_push(base: Seq<char>, part: Seq<char>) -> Seq<char>;

/// `std::path::Path::file_name`: the final component of `p` when it is a
/// file or directory name; its result depends on `p` alone. A path built
/// from text reads back as the same text, so the conversion loses nothing.
#[verifier::external_body]
fn file_name_of(p: &str) -> (r: Option<String>)
    ensures
        match r {
            Some(f) => spec_file_name(p@) == Some(f@),
            None => spec_file_name(p@) is None,
        },
{
    std::path::Path::new(p).file_name().map(|x| x.to_string_lossy().into_owned())
}

/// `std::path::Path::parent`: `p` without its final component, if it has
/// one; its result depends on `p` alone.
#[verifier::external_body]
fn parent_of(p: &str) -> (r: Option<String>)
    ensures
        match r {
            Some(d) => spec_parent(p@) == Some(d@),
            None => spec_parent(p@) is None,
        },
{
    std::path::Path::new(p).parent().map(|x| x.to_string_lossy().into_owned())
}

/// `std::path::PathBuf::push`: `part` joined onto `base` (replacing it when
/// `part` is absolute); its result depends on the two paths alone.
#[verifier::external_body]
fn pushed(base: &str, part: &str) -> (r: String)
    ensures
        r@ == spec_push(base@, part@),
{
    let mut b = std::path::PathBuf::from(base);
    b.push(part);
    b.to_string_lossy().into_owned()
}

/// The position of the last `.` in `f`, if any.
pub open spec fn last_dot(f: Seq<char>) -> Option<int>
    decreases f.len(),
{
    if f.len() == 0 {
        None
    } else if f.last() == '.' {
        Some(f.len() - 1)
    } else {
        last_dot(f.drop_last())
    }
}

/// The extension of a file name, as `Path::extension` documents it: the
/// part after the final `.`; none when there is no `.`, or when the only
/// `.` is the first character (a dotfile such as `.gitignore`).
pub open spec fn extension_of(f: Seq<char>) -> Option<Seq<char>> {
    match last_dot(f) {
        Some(i) => if i == 0 {
            None
        } else {
            Some(f.skip(i + 1))
        },
        None => None,
    }
}

fn find_last_dot(f: &Vec<char>) -> (r: Option<usize>)
    ensures
        match last_dot(f@) {
            Some(i) => r matches Some(j) && j == i,
            None => r is None,
        },
        r matches Some(i) ==> i < f@.len(),
{
    let mut k: usize = f.len();
    assert(f@.subrange(0, k as int) =~= f@);
    while k > 0
        invariant
            k <= f@.len(),
            last_dot(f@.subrange(0, k as int)) == last_dot(f@),
        decreases k,
    {
        if f[k - 1] == '.' {
            assert(f@.subrange(0, k as int).last() == '.');
            return Some(k - 1);
        }
        assert(f@.subrange(0, k as int).drop_last() =~= f@.subrange(0, k - 1));
        k = k - 1;
    }
    None
}

/// The extension of the file name `f` with its leading dot, or the empty
/// text when it has none.
pub open spec fn dotted_extension(f: Seq<char>) -> Seq<char> {
    match extension_of(f) {
        Some(e) => seq!['.'] + e,
        None => Seq::empty(),
    }
}

/// The extension of a file name, with its leading dot: what `extname`
/// makes of the final component of a path.
pub fn extension_text(file_name: &str) -> (r: String)
    ensures
        r@ == dotted_extension(file_name@),
{
    let cs = crate::text::chars_of(file_name);
    match find_last_dot(&cs) {
        Some(i) => {
            if i == 0 {
                String::new()
            } else {
                let mut r = String::new();
                crate::text::string_push(&mut r, '.');
                let mut j = i + 1;
                while j < cs.len()
                    invariant
                        i + 1 <= j <= cs@.len(),
                        r@ == seq!['.'] + cs@.subrange(i + 1, j as int),
                    decreases cs@.len() - j,
                {
                    crate::text::string_push(&mut r, cs[j]);
                    assert(cs@.subrange(i + 1, j + 1) =~= cs@.subrange(i + 1, j as int).push(cs@[j as int]));
                    j = j + 1;
                }
                assert(cs@.subrange(i + 1, cs@.len() as int) =~= cs@.skip(i + 1));
                r
            }
        },
        None => String::new(),
    }
}

/// What `extname(p)` gives: the extension of the final component of `p`
/// with its leading dot, or the empty text when there is none.
pub open spec fn extname_text(p: Seq<char>) -> Seq<char> {
    match spec_file_name(p) {
        Some(f) => dotted_extension(f),
        None => Seq::empty(),
    }
}

/// The builtin `extname(path)`.
pub fn extname(path: &str) -> (r: String)
    ensures
        r@ == extname_text(path@),
{
    match file_name_of(path) {
        Some(f) => extension_text(f.as_str()),
        None => String::new(),
    }
}

/// What `basename(p)` gives: the final component of `p`, or the empty
/// text when it has none.
pub open spec fn basename_text(p: Seq<char>) -> Seq<char> {
    match spec_file_name(p) {
        Some(f) => f,
        None => Seq::empty(),
    }
}

/// The builtin `basename(path)`.
pub fn basename(path: &str) -> (r: String)
    ensures
        r@ == basename_text(path@),
{
    match file_name_of(path) {
        Some(f) => f,
        None => String::new(),
    }
}

/// What `dirname(p)` gives: `p` without its final component, or the empty
/// text when it has none to remove.
pub open spec fn dirname_text(p: Seq<char>) -> Seq<char> {
    match spec_parent(p) {
        Some(d) => d,
        None => Seq::empty(),
    }
}

/// The builtin `dirname(path)`.
pub fn dirname(path: &str) -> (r: String)
    ensures
        r@ == dirname_text(path@),
{
    match parent_of(path) {
        Some(d) => d,
        None => String::new(),
    }
}

/// The path that pushing each of `parts` in turn onto the empty path
/// builds.
pub open spec fn joined_path(parts: Seq<Seq<char>>) -> Seq<char>
    decreases parts.len(),
{
    if parts.len() == 0 {
        Seq::empty()
    } else {
        spec_push(joined_path(parts.drop_last()), parts.last())
    }
}

/// The builtin `path_join(parts...)`, its arguments given as text.
pub fn path_join(parts: &[String]) -> (r: String)
    ensures
        r@ == joined_path(crate::interpreter::strings_view(parts@)),
{
    let ghost sv = crate::interpreter::strings_view(parts@);
    let mut r = String::new();
    let mut i: usize = 0;
    assert(sv.take(0) =~= Seq::<Seq<char>>::empty());
    while i < parts.len()
        invariant
            i <= parts@.len(),
            sv == crate::interpreter::strings_view(parts@),
            r@ == joined_path(sv.take(i as int)),
        decreases parts@.len() - i,
    {
        assert(sv.take(i + 1).drop_last() =~= sv.take(i as int));
        r = pushed(r.as_str(), parts[i].as_str());
        i = i + 1;
    }
    assert(sv.take(parts@.len() as int) =~= sv);
    r
}

} // verus!
