//! Unix path components, as `std::path::Path` reads a path written as text:
//! components are the pieces between `/`, empty pieces and `.` pieces after
//! the first are skipped, a leading `/` is the root and a leading `.` piece is
//! the current directory.
use vstd::prelude::*;
use crate::text;

verus! {

pub open spec fn is_cur_dir(seg: Seq<char>) -> bool {
    seg == seq!['.']
}

pub open spec fn is_parent_dir(seg: Seq<char>) -> bool {
    seg == seq!['.', '.']
}

/// The last component of a path, given its `/`-separated pieces, when that
/// component is a normal name.
pub open spec fn file_name_of_pieces(pieces: Seq<Seq<char>>) -> Option<Seq<char>>
    decreases pieces.len(),
{
    if pieces.len() == 0 {
        None
    } else {
        let l = pieces.last();
        if l.len() == 0 || is_cur_dir(l) {
            file_name_of_pieces(pieces.drop_last())
        } else if is_parent_dir(l) {
            None
        } else {
            Some(l)
        }
    }
}

/// `Path::file_name`: the final component if it is a normal name.
pub open spec fn file_name(path: Seq<char>) -> Option<Seq<char>> {
    file_name_of_pieces(text::split_char(path, '/'))
}

/// The path is not empty and every component `Path::components` yields is a
/// normal name: no root, no leading `.`, no `..` anywhere.
pub open spec fn all_components_normal(path: Seq<char>) -> bool {
    let pieces = text::split_char(path, '/');
    &&& path.len() > 0
    &&& path[0] != '/'
    &&& !is_cur_dir(pieces[0])
    &&& forall|k: int| 0 <= k < pieces.len() ==> !is_parent_dir(#[trigger] pieces[k])
}

fn chars_is_cur_dir(seg: &Vec<char>) -> (r: bool)
    ensures
        r == is_cur_dir(seg@),
{
    let r = seg.len() == 1 && seg[0] == '.';
    assert(r ==> seg@ =~= seq!['.']);
    r
}

fn chars_is_parent_dir(seg: &Vec<char>) -> (r: bool)
    ensures
        r == is_parent_dir(seg@),
{
    let r = seg.len() == 2 && seg[0] == '.' && seg[1] == '.';
    assert(r ==> seg@ =~= seq!['.', '.']);
    r
}

/// The final normal component of a path (`Path::file_name`).
pub fn file_name_chars(path: &Vec<char>) -> (r: Option<Vec<char>>)
    ensures
        match r {
            Some(n) => file_name(path@) == Some(n@),
            None => file_name(path@) is None,
        },
{
    let pieces = text::split_on_char(path, '/');
    let ghost p = text::split_char(path@, '/');
    let mut k = pieces.len();
    assert(p.take(k as int) =~= p);
    while k > 0
        invariant
            k <= pieces.len(),
            text::views(pieces@) == p,
            p.len() == pieces.len(),
            p == text::split_char(path@, '/'),
            file_name_of_pieces(p) == file_name_of_pieces(p.take(k as int)),
        decreases k,
    {
        let l = &pieces[k - 1];
        assert(p[k - 1] == pieces@[k - 1]@);
        assert(p.take(k as int).last() == l@);
        assert(p.take(k as int).drop_last() =~= p.take(k - 1));
        if l.len() == 0 || chars_is_cur_dir(l) {
            k = k - 1;
        } else if chars_is_parent_dir(l) {
            return None;
        } else {
            let n = text::slice_chars(l, 0, l.len());
            assert(n@ =~= l@);
            return Some(n);
        }
    }
    None
}

/// Whether every component of the path is a normal name.
pub fn components_all_normal(path: &Vec<char>) -> (r: bool)
    ensures
        r == all_components_normal(path@),
{
    if path.len() == 0 || path[0] == '/' {
        return false;
    }
    let pieces = text::split_on_char(path, '/');
    let ghost p = text::split_char(path@, '/');
    proof {
        text::lemma_split_char_nonempty(path@, '/');
    }
    assert(pieces@[0]@ == p[0]);
    if chars_is_cur_dir(&pieces[0]) {
        return false;
    }
    let mut k: usize = 0;
    while k < pieces.len()
        invariant
            k <= pieces.len(),
            text::views(pieces@) == p,
            p.len() == pieces.len(),
            p == text::split_char(path@, '/'),
            forall|m: int| 0 <= m < k ==> !is_parent_dir(#[trigger] p[m]),
        decreases pieces.len() - k,
    {
        assert(pieces@[k as int]@ == p[k as int]);
        if chars_is_parent_dir(&pieces[k]) {
            assert(is_parent_dir(p[k as int]));
            return false;
        }
        k = k + 1;
    }
    true
}

/// The name shown for a project directory: its final component, or the
/// whole path where it has none.
pub open spec fn project_name_spec(path: Seq<char>) -> Seq<char> {
    match file_name(path) {
        Some(n) => n,
        None => path,
    }
}

pub fn project_name(path: &str) -> (r: String)
    ensures
        r@ == project_name_spec(path@),
{
    let chars = text::chars_of(path);
    match file_name_chars(&chars) {
        Some(n) => text::string_from_chars(n.as_slice()),
        None => text::string_from_chars(chars.as_slice()),
    }
}

/// The pieces that name a component: neither empty nor `.`.
pub open spec fn kept_pieces(pieces: Seq<Seq<char>>) -> Seq<Seq<char>>
    decreases pieces.len(),
{
    if pieces.len() == 0 {
        pieces
    } else {
        let k = kept_pieces(pieces.drop_last());
        let l = pieces.last();
        if l.len() == 0 || is_cur_dir(l) {
            k
        } else {
            k.push(l)
        }
    }
}

/// `Path::components` of a Unix path, each written as its text: `/` for the
/// root where the path starts with `/`, `.` for the current directory where
/// its first piece is `.`, then each piece between slashes that is neither
/// empty nor `.`. (A normal name holds no `/` and is never `.`, so two paths
/// have equal components exactly where these sequences are equal.)
pub open spec fn components(path: Seq<char>) -> Seq<Seq<char>> {
    let pieces = text::split_char(path, '/');
    let head = if path.len() > 0 && path[0] == '/' {
        seq![seq!['/']]
    } else if is_cur_dir(pieces[0]) {
        seq![seq!['.']]
    } else {
        Seq::<Seq<char>>::empty()
    };
    head + kept_pieces(pieces)
}

/// Two paths are equal as `Path`s compare them: component by component.
pub open spec fn same_path(a: Seq<char>, b: Seq<char>) -> bool {
    components(a) == components(b)
}

/// The components of a path (see `components`).
pub fn path_components(path: &Vec<char>) -> (r: Vec<Vec<char>>)
    ensures
        text::views(r@) == components(path@),
{
    let pieces = text::split_on_char(path, '/');
    let ghost p = text::split_char(path@, '/');
    proof {
        text::lemma_split_char_nonempty(path@, '/');
    }
    assert(pieces@[0]@ == p[0]);
    let mut out: Vec<Vec<char>> = Vec::new();
    let ghost head: Seq<Seq<char>> = if path@.len() > 0 && path@[0] == '/' {
        seq![seq!['/']]
    } else if is_cur_dir(p[0]) {
        seq![seq!['.']]
    } else {
        Seq::<Seq<char>>::empty()
    };
    if path.len() > 0 && path[0] == '/' {
        let root = vec!['/'];
        assert(root@ =~= seq!['/']);
        out.push(root);
    } else if chars_is_cur_dir(&pieces[0]) {
        let cur = vec!['.'];
        assert(cur@ =~= seq!['.']);
        out.push(cur);
    }
    assert(text::views(out@) =~= head);
    assert(p.take(0) =~= Seq::<Seq<char>>::empty());
    let mut k: usize = 0;
    while k < pieces.len()
        invariant
            k <= pieces.len(),
            text::views(pieces@) == p,
            p.len() == pieces.len(),
            text::views(out@) == head + kept_pieces(p.take(k as int)),
        decreases pieces.len() - k,
    {
        let ghost before = out@;
        assert(p.take(k + 1).drop_last() =~= p.take(k as int));
        assert(p.take(k + 1).last() == pieces@[k as int]@);
        let l = &pieces[k];
        if !(l.len() == 0 || chars_is_cur_dir(l)) {
            let c = text::slice_chars(l, 0, l.len());
            assert(c@ =~= l@);
            out.push(c);
            assert(text::views(out@) =~= text::views(before).push(c@));
        }
        k = k + 1;
    }
    assert(p.take(pieces.len() as int) =~= p);
    assert(text::views(out@) =~= components(path@));
    out
}

/// Whether two paths are equal component by component (`Path`'s `==`).
pub fn same_path_str(a: &str, b: &str) -> (r: bool)
    ensures
        r == same_path(a@, b@),
{
    let ach = text::chars_of(a);
    let bch = text::chars_of(b);
    let ca = path_components(&ach);
    let cb = path_components(&bch);
    let ghost va = text::views(ca@);
    let ghost vb = text::views(cb@);
    assert(va == components(a@));
    assert(vb == components(b@));
    if ca.len() != cb.len() {
        assert(va.len() != vb.len());
        return false;
    }
    let mut k: usize = 0;
    while k < ca.len()
        invariant
            k <= ca.len(),
            ca.len() == cb.len(),
            va == text::views(ca@),
            vb == text::views(cb@),
            va == components(a@),
            vb == components(b@),
            forall|m: int| 0 <= m < k ==> #[trigger] va[m] == vb[m],
        decreases ca.len() - k,
    {
        assert(va[k as int] == ca@[k as int]@);
        assert(vb[k as int] == cb@[k as int]@);
        if !text::chars_equal(&ca[k], &cb[k]) {
            assert(va[k as int] != vb[k as int]);
            assert(va != vb);
            return false;
        }
        k = k + 1;
    }
    assert(va =~= vb);
    true
}

} // verus!
