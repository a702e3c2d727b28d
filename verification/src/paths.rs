//! `/`-separated paths, as plain strings.
//!
//! The rules are those of `std::path` on Unix for the cases this crate meets:
//! joining a relative name onto a directory, taking a path's final
//! component, and ordering paths component by component as `PathBuf` does.

use vstd::prelude::*;

use crate::order::{lemma_lex_irreflexive, lemma_lex_total, lemma_lex_transitive, lex_lt, str_lt};
use crate::text::{chars_of, nonempty_piece_ranges, nonempty_pieces, string_of, str_eq};

verus! {

broadcast use vstd::string::group_string_axioms;

/// `base` joined with the relative name `name`: `name` itself when `base` is
/// empty, else `base` and `name` with one `/` between them.
pub open spec fn path_join(base: Seq<char>, name: Seq<char>) -> Seq<char> {
    if base.len() == 0 {
        name
    } else if base.last() == '/' {
        base + name
    } else {
        base + "/"@ + name
    }
}

/// Joins a relative name onto a directory path.
pub fn join_path(base: &str, name: &str) -> (r: String)
    ensures
        r@ == path_join(base@, name@),
{
    let bv = chars_of(base);
    let mut r = String::new();
    crate::text::push_all(&mut r, base);
    if bv.len() > 0 && bv[bv.len() - 1] != '/' {
        r.push('/');
        proof {
            reveal_strlit("/");
        }
    }
    crate::text::push_all(&mut r, name);
    assert(Seq::<char>::empty() + base@ =~= base@);
    proof {
        reveal_strlit("/");
        if bv.len() > 0 && bv@.last() != '/' {
            assert(base@.push('/') + name@ =~= base@ + "/"@ + name@);
        }
    }
    r
}

/// The meaningful components of a path: its non-empty `/`-separated pieces
/// other than `.`.
pub open spec fn path_components(p: Seq<char>) -> Seq<Seq<char>> {
    nonempty_pieces(p, '/').filter(|c: Seq<char>| c != "."@)
}

/// `Path::file_name`: the final component, unless there is none or it is `..`.
pub open spec fn path_file_name(p: Seq<char>) -> Option<Seq<char>> {
    let cs = path_components(p);
    if cs.len() == 0 || cs.last() == ".."@ {
        None
    } else {
        Some(cs.last())
    }
}

/// The final component of a path, if it has one that is not `..`.
pub fn file_name(p: &str) -> (r: Option<String>)
    ensures
        match r {
            Some(s) => path_file_name(p@) == Some(s@),
            None => path_file_name(p@) is None,
        },
{
    let v = chars_of(p);
    let pieces = nonempty_piece_ranges(&v, 0, v.len(), '/');
    assert(v@.subrange(0, v@.len() as int) =~= v@);
    let ghost ps = nonempty_pieces(v@, '/');
    let ghost pred = |c: Seq<char>| c != "."@;
    let mut last: Option<(usize, usize)> = None;
    let mut k: usize = 0;
    let dot = chars_of(".");
    let dotdot = chars_of("..");
    while k < pieces.len()
        invariant
            v@ == p@,
            ps == nonempty_pieces(v@, '/'),
            pred == (|c: Seq<char>| c != "."@),
            dot@ == "."@,
            dotdot@ == ".."@,
            pieces.len() == ps.len(),
            forall|j: int|
                0 <= j < pieces.len() ==> 0 <= (#[trigger] pieces@[j]).0 <= pieces@[j].1 <= v.len()
                    && v@.subrange(pieces@[j].0 as int, pieces@[j].1 as int) == ps[j],
            k <= pieces.len(),
            match last {
                None => ps.take(k as int).filter(pred).len() == 0,
                Some((a, b)) => a <= b <= v.len() && ps.take(k as int).filter(pred).len() > 0
                    && v@.subrange(a as int, b as int) == ps.take(k as int).filter(pred).last(),
            },
        decreases pieces.len() - k,
    {
        let (a, b) = pieces[k];
        assert(pieces@[k as int] == (a, b));
        let piece = string_of(&v, a, b);
        let is_dot = str_eq(piece.as_str(), ".");
        proof {
            reveal(Seq::filter);
            assert(ps.take(k + 1).drop_last() =~= ps.take(k as int));
            assert(ps.take(k + 1).last() == ps[k as int]);
        }
        if !is_dot {
            last = Some((a, b));
        }
        k = k + 1;
    }
    assert(ps.take(pieces.len() as int) =~= ps);
    match last {
        None => None,
        Some((a, b)) => {
            let name = string_of(&v, a, b);
            if str_eq(name.as_str(), "..") {
                None
            } else {
                Some(name)
            }
        },
    }
}

/// `p` with every `\` replaced by `/`.
pub open spec fn forward_slashes(p: Seq<char>) -> Seq<char> {
    p.map_values(|c: char| if c == '\\' { '/' } else { c })
}

/// Replaces every `\` in `p` by `/`.
pub fn to_forward_slashes(p: &str) -> (r: String)
    ensures
        r@ == forward_slashes(p@),
{
    let v = chars_of(p);
    let mut r = String::new();
    let mut i: usize = 0;
    while i < v.len()
        invariant
            v@ == p@,
            i <= v.len(),
            r@ == forward_slashes(v@.take(i as int)),
        decreases v.len() - i,
    {
        let c = v[i];
        if c == '\\' {
            r.push('/');
        } else {
            r.push(c);
        }
        assert(forward_slashes(v@.take(i + 1)) =~= forward_slashes(v@.take(i as int)).push(
            if c == '\\' {
                '/'
            } else {
                c
            },
        ));
        i = i + 1;
    }
    assert(v@.take(v.len() as int) =~= v@);
    r
}

// ---------------------------------------------------------------------------
// The order of paths
// ---------------------------------------------------------------------------

/// A component of a path as `std::path::Component` has it on Unix: its kind
/// (`1` the root, `2` a leading `.`, `3` a `..`, `4` a normal name) and, for a
/// normal name, the name. The kinds are numbered in the order in which the
/// variants of `Component` are declared.
pub type PathComponent = (u8, Seq<char>);

/// The component that a non-empty piece other than `.` stands for.
pub open spec fn component_of(piece: Seq<char>) -> PathComponent {
    if piece == ".."@ {
        (3u8, Seq::empty())
    } else {
        (4u8, piece)
    }
}

/// The path starts with the root `/`.
pub open spec fn has_root(p: Seq<char>) -> bool {
    p.len() > 0 && p[0] == '/'
}

/// The path is `.` or starts with `./`: `Path::components` then yields a
/// leading `CurDir`.
pub open spec fn has_leading_cur_dir(p: Seq<char>) -> bool {
    p == "."@ || (p.len() >= 2 && p[0] == '.' && p[1] == '/')
}

/// `Path::components` on Unix: the root when the path starts with `/`, a
/// `CurDir` when it starts with `./` or is `.`, then one component for each
/// non-empty piece other than `.`.
pub open spec fn std_components(p: Seq<char>) -> Seq<PathComponent> {
    let root: Seq<PathComponent> = if has_root(p) {
        seq![(1u8, Seq::<char>::empty())]
    } else {
        Seq::empty()
    };
    let cur: Seq<PathComponent> = if has_leading_cur_dir(p) {
        seq![(2u8, Seq::<char>::empty())]
    } else {
        Seq::empty()
    };
    root + cur + path_components(p).map_values(|c: Seq<char>| component_of(c))
}

/// One component comes before another: by kind, then by name.
pub open spec fn component_lt(x: PathComponent, y: PathComponent) -> bool {
    x.0 < y.0 || (x.0 == y.0 && lex_lt(x.1, y.1))
}

/// Lexicographic order on component sequences: at the first difference the
/// smaller component, or a proper prefix first.
pub open spec fn components_lt(a: Seq<PathComponent>, b: Seq<PathComponent>) -> bool
    decreases a.len(),
{
    if b.len() == 0 {
        false
    } else if a.len() == 0 {
        true
    } else if component_lt(a[0], b[0]) {
        true
    } else if a[0] == b[0] {
        components_lt(a.drop_first(), b.drop_first())
    } else {
        false
    }
}

/// The order of `PathBuf`: `a` comes strictly before `b`.
pub open spec fn path_lt(a: Seq<char>, b: Seq<char>) -> bool {
    components_lt(std_components(a), std_components(b))
}

/// `a` comes before `b` or has the same components.
pub open spec fn path_le(a: Seq<char>, b: Seq<char>) -> bool {
    !path_lt(b, a)
}

/// The component order is irreflexive.
pub proof fn lemma_components_irreflexive(a: Seq<PathComponent>)
    ensures
        !components_lt(a, a),
    decreases a.len(),
{
    if a.len() > 0 {
        lemma_lex_irreflexive(a[0].1);
        lemma_components_irreflexive(a.drop_first());
    }
}

/// Two different component sequences are ordered one way or the other, never
/// both.
pub proof fn lemma_components_total(a: Seq<PathComponent>, b: Seq<PathComponent>)
    ensures
        a != b ==> components_lt(a, b) || components_lt(b, a),
        !(components_lt(a, b) && components_lt(b, a)),
    decreases a.len(),
{
    if a.len() == 0 && b.len() == 0 {
        assert(a =~= b);
    } else if a.len() == 0 || b.len() == 0 {
    } else {
        lemma_lex_total(a[0].1, b[0].1);
        if a[0] == b[0] {
            lemma_components_total(a.drop_first(), b.drop_first());
            if a != b {
                assert(a =~= seq![a[0]] + a.drop_first());
                assert(b =~= seq![b[0]] + b.drop_first());
            }
        }
    }
}

/// The component order is transitive.
pub proof fn lemma_components_transitive(
    a: Seq<PathComponent>,
    b: Seq<PathComponent>,
    c: Seq<PathComponent>,
)
    requires
        components_lt(a, b),
        components_lt(b, c),
    ensures
        components_lt(a, c),
    decreases a.len(),
{
    if a.len() > 0 && b.len() > 0 && c.len() > 0 {
        if a[0].0 == b[0].0 && b[0].0 == c[0].0 && lex_lt(a[0].1, b[0].1) && lex_lt(b[0].1, c[0].1) {
            lemma_lex_transitive(a[0].1, b[0].1, c[0].1);
        }
        if a[0] == b[0] && b[0] == c[0] {
            lemma_lex_irreflexive(a[0].1);
            lemma_components_transitive(a.drop_first(), b.drop_first(), c.drop_first());
        }
    }
}

/// `path_le` is transitive.
pub proof fn lemma_path_le_transitive(a: Seq<char>, b: Seq<char>, c: Seq<char>)
    requires
        path_le(a, b),
        path_le(b, c),
    ensures
        path_le(a, c),
{
    let (x, y, z) = (std_components(a), std_components(b), std_components(c));
    if components_lt(z, x) {
        lemma_components_total(x, y);
        lemma_components_total(y, z);
        if x == y {
        } else if y == z {
        } else {
            lemma_components_transitive(x, y, z);
            lemma_components_total(x, z);
        }
    }
}

/// The components that a vector of `(kind, name)` pairs holds.
pub open spec fn components_view(v: Seq<(u8, String)>) -> Seq<PathComponent> {
    v.map_values(|c: (u8, String)| (c.0, c.1@))
}

/// The components of a path, as `Path::components` yields them on Unix.
pub fn components_of(p: &str) -> (r: Vec<(u8, String)>)
    ensures
        components_view(r@) == std_components(p@),
{
    let v = chars_of(p);
    let pieces = nonempty_piece_ranges(&v, 0, v.len(), '/');
    assert(v@.subrange(0, v@.len() as int) =~= v@);
    let ghost ps = nonempty_pieces(v@, '/');
    let ghost pred = |c: Seq<char>| c != "."@;
    let ghost f = |c: Seq<char>| component_of(c);
    let mut r: Vec<(u8, String)> = Vec::new();
    if v.len() > 0 && v[0] == '/' {
        r.push((1u8, String::new()));
    }
    if (v.len() == 1 && v[0] == '.') || (v.len() >= 2 && v[0] == '.' && v[1] == '/') {
        r.push((2u8, String::new()));
    }
    let ghost head = components_view(r@);
    proof {
        reveal_strlit(".");
        let root: Seq<PathComponent> = if has_root(p@) {
            seq![(1u8, Seq::<char>::empty())]
        } else {
            Seq::empty()
        };
        let cur: Seq<PathComponent> = if has_leading_cur_dir(p@) {
            seq![(2u8, Seq::<char>::empty())]
        } else {
            Seq::empty()
        };
        if v@.len() == 1 && v@[0] == '.' {
            assert(p@ =~= "."@);
        }
        assert(head =~= root + cur);
        assert(ps.take(0).filter(pred) =~= Seq::<Seq<char>>::empty()) by {
            reveal(Seq::filter);
        }
        assert(head + ps.take(0).filter(pred).map_values(f) =~= head);
    }
    let dot = chars_of(".");
    let dotdot = chars_of("..");
    let mut k: usize = 0;
    while k < pieces.len()
        invariant
            v@ == p@,
            ps == nonempty_pieces(v@, '/'),
            pred == (|c: Seq<char>| c != "."@),
            f == (|c: Seq<char>| component_of(c)),
            dot@ == "."@,
            dotdot@ == ".."@,
            pieces.len() == ps.len(),
            forall|j: int|
                0 <= j < pieces.len() ==> 0 <= (#[trigger] pieces@[j]).0 <= pieces@[j].1 <= v.len()
                    && v@.subrange(pieces@[j].0 as int, pieces@[j].1 as int) == ps[j],
            k <= pieces.len(),
            components_view(r@) == head + ps.take(k as int).filter(pred).map_values(f),
        decreases pieces.len() - k,
    {
        let (a, b) = pieces[k];
        assert(pieces@[k as int] == (a, b));
        let piece = string_of(&v, a, b);
        let is_dot = str_eq(piece.as_str(), ".");
        let ghost old_r = r@;
        let ghost fl = ps.take(k as int).filter(pred);
        proof {
            reveal(Seq::filter);
            assert(ps.take(k + 1).drop_last() =~= ps.take(k as int));
            assert(ps.take(k + 1).last() == ps[k as int]);
        }
        if !is_dot {
            let is_parent = str_eq(piece.as_str(), "..");
            if is_parent {
                r.push((3u8, String::new()));
            } else {
                r.push((4u8, piece));
            }
            proof {
                assert(ps.take(k + 1).filter(pred) == fl.push(ps[k as int]));
                assert(fl.push(ps[k as int]).map_values(f) =~= fl.map_values(f).push(
                    component_of(ps[k as int]),
                ));
                assert(components_view(r@) =~= components_view(old_r).push(
                    component_of(ps[k as int]),
                ));
            }
        } else {
            assert(ps.take(k + 1).filter(pred) == fl);
        }
        k = k + 1;
    }
    assert(ps.take(pieces.len() as int) =~= ps);
    r
}

/// Whether the components `a` come strictly before the components `b`.
pub fn components_before(a: &Vec<(u8, String)>, b: &Vec<(u8, String)>) -> (r: bool)
    ensures
        r == components_lt(components_view(a@), components_view(b@)),
{
    let ghost va = components_view(a@);
    let ghost vb = components_view(b@);
    let mut i: usize = 0;
    assert(va.skip(0) =~= va);
    assert(vb.skip(0) =~= vb);
    loop
        invariant
            va == components_view(a@),
            vb == components_view(b@),
            i <= a.len(),
            i <= b.len(),
            components_lt(va, vb) == components_lt(va.skip(i as int), vb.skip(i as int)),
        decreases a.len() - i,
    {
        if i == b.len() {
            return false;
        }
        if i == a.len() {
            return true;
        }
        assert(va.skip(i as int)[0] == (a@[i as int].0, a@[i as int].1@));
        assert(vb.skip(i as int)[0] == (b@[i as int].0, b@[i as int].1@));
        let ka = a[i].0;
        let kb = b[i].0;
        if ka < kb {
            return true;
        }
        if ka > kb {
            return false;
        }
        if str_lt(a[i].1.as_str(), b[i].1.as_str()) {
            return true;
        }
        if !str_eq(a[i].1.as_str(), b[i].1.as_str()) {
            return false;
        }
        assert(va.skip(i as int).drop_first() =~= va.skip(i + 1));
        assert(vb.skip(i as int).drop_first() =~= vb.skip(i + 1));
        i = i + 1;
    }
}

/// Whether path `a` comes strictly before path `b` in the order of
/// `PathBuf`.
pub fn path_before(a: &str, b: &str) -> (r: bool)
    ensures
        r == path_lt(a@, b@),
{
    let ca = components_of(a);
    let cb = components_of(b);
    components_before(&ca, &cb)
}

/// The components of the path at position `i` of `paths`.
pub open spec fn key_at(paths: Seq<String>, i: int) -> Seq<PathComponent> {
    std_components(paths[i]@)
}

/// `order` lists each position of `paths` once, the paths taken in that
/// order are ascending in the order of `PathBuf`, and positions whose paths
/// have the same components keep their relative order: the order in which a
/// stable sort of the paths puts them.
pub open spec fn stable_path_order(paths: Seq<String>, order: Seq<usize>) -> bool {
    &&& order.len() == paths.len()
    &&& forall|i: int| 0 <= i < order.len() ==> (#[trigger] order[i]) < paths.len()
    &&& forall|i: int, j: int| 0 <= i < j < order.len() ==> #[trigger] order[i] != #[trigger] order[j]
    &&& forall|i: int, j: int|
        0 <= i < j < order.len() ==> path_le(
            paths[#[trigger] order[i] as int]@,
            paths[#[trigger] order[j] as int]@,
        )
    &&& forall|i: int, j: int|
        0 <= i < j < order.len() && key_at(paths, #[trigger] order[i] as int) == key_at(
            paths,
            #[trigger] order[j] as int,
        ) ==> order[i] < order[j]
}

/// The order in which a stable sort by `PathBuf`'s order puts `paths`: the
/// position in `paths` of the first path, then of the second, and so on.
pub fn path_sort_order(paths: &Vec<String>) -> (order: Vec<usize>)
    ensures
        stable_path_order(paths@, order@),
{
    let n = paths.len();
    let mut keys: Vec<Vec<(u8, String)>> = Vec::new();
    let mut k: usize = 0;
    while k < n
        invariant
            n == paths.len(),
            k <= n,
            keys.len() == k,
            forall|j: int| 0 <= j < k ==> components_view(#[trigger] keys@[j]@) == key_at(paths@, j),
        decreases n - k,
    {
        keys.push(components_of(paths[k].as_str()));
        k = k + 1;
    }
    let mut order: Vec<usize> = Vec::new();
    k = 0;
    while k < n
        invariant
            n == paths.len(),
            keys.len() == n,
            forall|j: int| 0 <= j < n ==> components_view(#[trigger] keys@[j]@) == key_at(paths@, j),
            k <= n,
            order.len() == k,
            forall|i: int| 0 <= i < order.len() ==> (#[trigger] order@[i]) < k,
            forall|i: int, j: int|
                0 <= i < j < order.len() ==> #[trigger] order@[i] != #[trigger] order@[j],
            forall|i: int, j: int|
                0 <= i < j < order.len() ==> path_le(
                    paths@[#[trigger] order@[i] as int]@,
                    paths@[#[trigger] order@[j] as int]@,
                ),
            forall|i: int, j: int|
                0 <= i < j < order.len() && key_at(paths@, #[trigger] order@[i] as int) == key_at(
                    paths@,
                    #[trigger] order@[j] as int,
                ) ==> order@[i] < order@[j],
        decreases n - k,
    {
        let ghost kk = key_at(paths@, k as int);
        let mut pos = order.len();
        while pos > 0 && components_before(&keys[k], &keys[order[pos - 1]])
            invariant
                n == paths.len(),
                keys.len() == n,
                forall|j: int| 0 <= j < n ==> components_view(#[trigger] keys@[j]@) == key_at(paths@, j),
                k < n,
                kk == key_at(paths@, k as int),
                order.len() == k,
                forall|i: int| 0 <= i < order.len() ==> (#[trigger] order@[i]) < k,
                pos <= order.len(),
                forall|j: int| pos <= j < order.len() ==> components_lt(kk, key_at(paths@, #[trigger] order@[j] as int)),
            decreases pos,
        {
            pos = pos - 1;
        }
        let ghost old_o = order@;
        order.insert(pos, k);
        proof {
            assert(order@ == old_o.insert(pos as int, k));
            assert forall|i: int, j: int| 0 <= i < j < order@.len() implies path_le(
                paths@[#[trigger] order@[i] as int]@,
                paths@[#[trigger] order@[j] as int]@,
            ) by {
                if i < pos && j == pos {
                    let a = paths@[old_o[i] as int]@;
                    let b = paths@[old_o[pos - 1] as int]@;
                    let c = paths@[k as int]@;
                    if i < pos - 1 {
                        assert(path_le(a, b));
                    } else {
                        lemma_components_irreflexive(std_components(a));
                    }
                    assert(path_le(b, c));
                    lemma_path_le_transitive(a, b, c);
                } else if i == pos && j > pos {
                    lemma_components_total(kk, key_at(paths@, old_o[j - 1] as int));
                } else if i < pos && j > pos {
                    assert(path_le(paths@[old_o[i] as int]@, paths@[old_o[j - 1] as int]@));
                } else if i > pos {
                    assert(path_le(paths@[old_o[i - 1] as int]@, paths@[old_o[j - 1] as int]@));
                } else {
                    assert(path_le(paths@[old_o[i] as int]@, paths@[old_o[j] as int]@));
                }
            }
            assert forall|i: int, j: int| 0 <= i < j < order@.len() implies #[trigger] order@[i]
                != #[trigger] order@[j] by {
                if i < pos && j < pos {
                    assert(old_o[i] != old_o[j]);
                } else if i > pos && j > pos {
                    assert(old_o[i - 1] != old_o[j - 1]);
                } else if i < pos && j > pos {
                    assert(old_o[i] != old_o[j - 1]);
                } else if i == pos {
                    assert(old_o[j - 1] < k);
                } else {
                    assert(old_o[i] < k);
                }
            }
            assert forall|i: int, j: int|
                0 <= i < j < order@.len() && key_at(paths@, #[trigger] order@[i] as int) == key_at(
                    paths@,
                    #[trigger] order@[j] as int,
                ) implies order@[i] < order@[j] by {
                if i < pos && j < pos {
                    assert(old_o[i] == order@[i] && old_o[j] == order@[j]);
                } else if i > pos && j > pos {
                    assert(old_o[i - 1] == order@[i] && old_o[j - 1] == order@[j]);
                } else if i < pos && j > pos {
                    assert(old_o[i] == order@[i] && old_o[j - 1] == order@[j]);
                } else if i == pos {
                    assert(components_lt(kk, key_at(paths@, old_o[j - 1] as int)));
                    lemma_components_irreflexive(kk);
                } else {
                    assert(old_o[i] < k);
                }
            }
        }
        k = k + 1;
    }
    order
}

} // verus!
