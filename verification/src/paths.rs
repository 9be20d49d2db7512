//! Unix path syntax as `std::path` reads it: a path is the sequence of its
//! components, the root first for an absolute path, repeated and trailing
//! separators and inner `.` pieces dropped.
use vstd::prelude::*;
use crate::text::{eq_chars, split_on, split_on_char, views};

verus! {

/// `s` starts at the root.
pub open spec fn is_abs(s: Seq<char>) -> bool {
    s.len() > 0 && s[0] == '/'
}

/// The component standing for the root.
pub open spec fn root_comp() -> Seq<char> {
    seq!['/']
}

/// The component standing for a leading `.` (current directory).
pub open spec fn cur_comp() -> Seq<char> {
    seq!['.']
}

/// The component standing for `..` (parent directory).
pub open spec fn parent_comp() -> Seq<char> {
    seq!['.', '.']
}

/// The pieces of `ps` that name something: neither empty nor `.`.
pub open spec fn normal_parts(ps: Seq<Seq<char>>) -> Seq<Seq<char>>
    decreases ps.len(),
{
    if ps.len() == 0 {
        Seq::empty()
    } else if ps.last().len() > 0 && ps.last() != cur_comp() {
        normal_parts(ps.drop_last()).push(ps.last())
    } else {
        normal_parts(ps.drop_last())
    }
}

/// The components of path `s` (`Path::components`): the root for an
/// absolute path, a leading `.` for a relative path that starts with one,
/// then every piece between separators that is neither empty nor `.`.
pub open spec fn components(s: Seq<char>) -> Seq<Seq<char>> {
    let ps = split_on(s, '/');
    let head = if is_abs(s) {
        seq![root_comp()]
    } else if ps[0] == cur_comp() {
        seq![cur_comp()]
    } else {
        Seq::empty()
    };
    head + normal_parts(ps)
}

/// `Path::starts_with`: the components of `base` begin those of `p`.
pub open spec fn path_starts_with(p: Seq<char>, base: Seq<char>) -> bool {
    let b = components(base);
    let c = components(p);
    b.len() <= c.len() && c.take(b.len() as int) == b
}

/// `Path::file_name`: the last component when it names something (not the
/// root, `.` or `..`).
pub open spec fn file_name(p: Seq<char>) -> Option<Seq<char>> {
    let c = components(p);
    if c.len() > 0 && c.last() != root_comp() && c.last() != cur_comp() && c.last() != parent_comp() {
        Some(c.last())
    } else {
        None
    }
}

/// `p` names the root directory.
pub open spec fn is_root(p: Seq<char>) -> bool {
    components(p) == seq![root_comp()]
}

proof fn lemma_split_first(s: Seq<char>)
    ensures
        split_on(s, '/').len() >= 1,
{
    crate::text::lemma_split_on_nonempty(s, '/');
}

/// `components(v)` computed.
pub fn components_of(v: &[char]) -> (r: Vec<Vec<char>>)
    ensures
        views(r@) == components(v@),
{
    let ps = split_on_char(v, '/');
    let ghost pv = views(ps@);
    proof {
        lemma_split_first(v@);
    }
    let mut r: Vec<Vec<char>> = Vec::new();
    let dot: Vec<char> = vec!['.'];
    let root: Vec<char> = vec!['/'];
    assert(dot@ =~= cur_comp());
    assert(root@ =~= root_comp());
    if v.len() > 0 && v[0] == '/' {
        r.push(root);
    } else if eq_chars(&ps[0], &dot) {
        r.push(dot.clone());
    }
    assert(pv[0] == ps@[0]@);
    let ghost head = views(r@);
    assert(head =~= (if is_abs(v@) {
        seq![root_comp()]
    } else if pv[0] == cur_comp() {
        seq![cur_comp()]
    } else {
        Seq::empty()
    }));
    let mut i: usize = 0;
    assert(pv.take(0) =~= Seq::<Seq<char>>::empty());
    assert(views(r@) =~= head + normal_parts(pv.take(0)));
    while i < ps.len()
        invariant
            i <= ps@.len(),
            pv == views(ps@),
            dot@ == cur_comp(),
            views(r@) == head + normal_parts(pv.take(i as int)),
        decreases ps@.len() - i,
    {
        assert(pv.take(i + 1).drop_last() =~= pv.take(i as int));
        assert(pv.take(i + 1).last() == ps@[i as int]@);
        let p = &ps[i];
        if p.len() > 0 && !eq_chars(p, &dot) {
            let ghost before = views(r@);
            r.push(p.clone());
            assert(views(r@) =~= before.push(p@));
        }
        i = i + 1;
    }
    assert(pv.take(ps@.len() as int) =~= pv);
    r
}

/// `path_starts_with(p, base)` computed.
pub fn path_starts_with_chars(p: &[char], base: &[char]) -> (b: bool)
    ensures
        b == path_starts_with(p@, base@),
{
    let c = components_of(p);
    let bc = components_of(base);
    if bc.len() > c.len() {
        return false;
    }
    let mut i: usize = 0;
    while i < bc.len()
        invariant
            i <= bc@.len(),
            bc@.len() <= c@.len(),
            views(c@) == components(p@),
            views(bc@) == components(base@),
            forall|j: int| 0 <= j < i ==> views(c@)[j] == views(bc@)[j],
        decreases bc@.len() - i,
    {
        if !eq_chars(&c[i], &bc[i]) {
            assert(views(c@)[i as int] == c@[i as int]@);
            assert(views(bc@)[i as int] == bc@[i as int]@);
            assert(views(c@).take(bc@.len() as int)[i as int] != views(bc@)[i as int]);
            return false;
        }
        assert(views(c@)[i as int] == c@[i as int]@);
        assert(views(bc@)[i as int] == bc@[i as int]@);
        i = i + 1;
    }
    assert(views(c@).take(bc@.len() as int) =~= views(bc@));
    true
}

/// `file_name(p)` computed.
pub fn file_name_of(p: &[char]) -> (r: Option<Vec<char>>)
    ensures
        match file_name(p@) {
            Some(n) => r matches Some(v) && v@ == n,
            None => r is None,
        },
{
    let c = components_of(p);
    if c.len() == 0 {
        return None;
    }
    let last = &c[c.len() - 1];
    assert(views(c@).last() == last@);
    let root: Vec<char> = vec!['/'];
    let dot: Vec<char> = vec!['.'];
    let dotdot: Vec<char> = vec!['.', '.'];
    assert(root@ =~= root_comp());
    assert(dot@ =~= cur_comp());
    assert(dotdot@ =~= parent_comp());
    if eq_chars(last, &root) || eq_chars(last, &dot) || eq_chars(last, &dotdot) {
        None
    } else {
        Some(last.clone())
    }
}

/// Whether `p` names the root directory.
pub fn is_root_path(p: &[char]) -> (b: bool)
    ensures
        b == is_root(p@),
{
    let c = components_of(p);
    let root: Vec<char> = vec!['/'];
    assert(root@ =~= root_comp());
    if c.len() != 1 {
        assert(views(c@).len() != 1);
        return false;
    }
    let b = eq_chars(&c[0], &root);
    assert(views(c@)[0] == c@[0]@);
    if b {
        assert(views(c@) =~= seq![root_comp()]);
    } else {
        assert(views(c@)[0] != seq![root_comp()][0]);
    }
    b
}

} // verus!
