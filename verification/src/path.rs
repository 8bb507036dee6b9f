//! File paths as text: joining, and equality by components.
use vstd::prelude::*;
use vstd::string::*;

use crate::text::{
    law_split_join, lemma_split_concat, lemma_split_whole, split, split_at_char, views,
};

verus! {

/// `name` below `base`: an absolute `name` stands for itself, otherwise one
/// slash separates the two.
pub open spec fn joined_path(base: Seq<char>, name: Seq<char>) -> Seq<char> {
    if name.len() > 0 && name[0] == '/' {
        name
    } else if base.len() == 0 || base.last() == '/' {
        base + name
    } else {
        base.push('/') + name
    }
}

/// Joins two paths.
pub fn join(base: &str, name: &str) -> (r: String)
    ensures
        r@ == joined_path(base@, name@),
{
    let n: usize = name.unicode_len();
    if n > 0 && name.get_char(0) == '/' {
        return name.to_owned();
    }
    let mut out = base.to_owned();
    let b: usize = base.unicode_len();
    if b > 0 && base.get_char(b - 1) != '/' {
        out.push('/');
    }
    out.append(name);
    out
}

/// Whether a part between two slashes is a component: empty parts are not,
/// and `.` is one only in front of a relative path.
pub open spec fn is_component(part: Seq<char>, in_front: bool) -> bool {
    part.len() > 0 && (part != seq!['.'] || in_front)
}

/// The components among the parts of a path.
pub open spec fn components_of(parts: Seq<Seq<char>>, rooted: bool) -> Seq<Seq<char>>
    decreases parts.len(),
{
    if parts.len() == 0 {
        Seq::empty()
    } else {
        let init = components_of(parts.drop_last(), rooted);
        if is_component(parts.last(), parts.len() == 1 && !rooted) {
            init.push(parts.last())
        } else {
            init
        }
    }
}

/// Whether a path starts at the root directory.
pub open spec fn is_rooted(p: Seq<char>) -> bool {
    p.len() > 0 && p[0] == '/'
}

/// The components of a path.
pub open spec fn components(p: Seq<char>) -> Seq<Seq<char>> {
    components_of(split(p, '/'), is_rooted(p))
}

/// Whether two paths are equal: both start at the root or neither does, and
/// their components are the same.
pub open spec fn same_path(a: Seq<char>, b: Seq<char>) -> bool {
    is_rooted(a) == is_rooted(b) && components(a) == components(b)
}

fn rooted(p: &str) -> (r: bool)
    ensures
        r == is_rooted(p@),
{
    p.unicode_len() > 0 && p.get_char(0) == '/'
}

fn path_components(p: &str) -> (r: Vec<Vec<char>>)
    ensures
        views(r@) == components(p@),
{
    let root: bool = rooted(p);
    let parts = split_at_char(p, '/');
    let ghost all = views(parts@);
    let mut out: Vec<Vec<char>> = Vec::new();
    let mut i: usize = 0;
    assert(views(out@) =~= components_of(all.take(0), root));
    while i < parts.len()
        invariant
            i <= parts@.len(),
            all == views(parts@),
            views(out@) == components_of(all.take(i as int), root),
        decreases parts@.len() - i,
    {
        let part: &Vec<char> = &parts[i];
        let dot: bool = part.len() == 1 && part[0] == '.';
        assert(dot == (part@ == seq!['.'])) by {
            if dot {
                assert(part@ =~= seq!['.']);
            }
        }
        assert(all.take(i + 1).drop_last() =~= all.take(i as int));
        assert(all.take(i + 1).last() == part@);
        let ghost before = views(out@);
        if part.len() > 0 && (!dot || (i == 0 && !root)) {
            let copy = part.clone();
            assert(copy@ =~= part@);
            out.push(copy);
            assert(views(out@) =~= before.push(part@));
        }
        i += 1;
    }
    assert(all.take(i as int) =~= all);
    out
}

fn same_chars(a: &Vec<char>, b: &Vec<char>) -> (r: bool)
    ensures
        r == (a@ == b@),
{
    if a.len() != b.len() {
        return false;
    }
    let mut i: usize = 0;
    while i < a.len()
        invariant
            i <= a@.len(),
            a@.len() == b@.len(),
            forall|k: int| 0 <= k < i ==> a@[k] == b@[k],
        decreases a@.len() - i,
    {
        if a[i] != b[i] {
            return false;
        }
        i += 1;
    }
    assert(a@ =~= b@);
    true
}

/// Whether two paths are equal, component by component.
pub fn path_eq(a: &str, b: &str) -> (r: bool)
    ensures
        r == same_path(a@, b@),
{
    if rooted(a) != rooted(b) {
        return false;
    }
    let x = path_components(a);
    let y = path_components(b);
    if x.len() != y.len() {
        assert(views(x@).len() != views(y@).len());
        return false;
    }
    let mut i: usize = 0;
    while i < x.len()
        invariant
            i <= x@.len(),
            x@.len() == y@.len(),
            views(x@) == components(a@),
            views(y@) == components(b@),
            forall|k: int| 0 <= k < i ==> x@[k]@ == y@[k]@,
        decreases x@.len() - i,
    {
        if !same_chars(&x[i], &y[i]) {
            assert(views(x@)[i as int] != views(y@)[i as int]);
            return false;
        }
        i += 1;
    }
    assert(views(x@) =~= views(y@));
    true
}

/// A relative name is put behind the base, which stays as it is, with one
/// slash between them unless the base is empty or ends with one. An absolute
/// name replaces the base.
pub proof fn law_join_text(base: Seq<char>, name: Seq<char>)
    ensures
        name.len() > 0 && name[0] == '/' ==> joined_path(base, name) == name,
        name.len() == 0 || name[0] != '/' ==> {
            let j = joined_path(base, name);
            let n = base.len() as int;
            &&& j.take(n) == base
            &&& j.skip(j.len() - name.len()) == name
            &&& n == 0 || base[n - 1] == '/' ==> j.len() == n + name.len()
            &&& n > 0 && base[n - 1] != '/' ==> j.len() == n + 1 + name.len() && j[n] == '/'
        },
{
    let j = joined_path(base, name);
    let n = base.len() as int;
    if name.len() == 0 || name[0] != '/' {
        assert(j.take(n) =~= base);
        assert(j.skip(j.len() - name.len()) =~= name);
    }
}

/// A path without slashes is its own only component, if it is not empty, and
/// does not start at the root.
pub proof fn law_components_without_slash(p: Seq<char>)
    requires
        !p.contains('/'),
    ensures
        components(p) == (if p.len() == 0 {
            Seq::empty()
        } else {
            seq![p]
        }),
        !is_rooted(p),
{
    lemma_split_whole(p, '/');
    if p.len() > 0 {
        assert(p.contains(p[0]));
    }
    reveal_with_fuel(components_of, 2);
    assert(seq![p].drop_last() =~= Seq::<Seq<char>>::empty());
    assert(Seq::<Seq<char>>::empty().push(p) =~= seq![p]);
}

/// What follows a further slash is one more component, unless it is empty or
/// a dot; where the path starts does not change. A slash in front makes a
/// path start at the root.
pub proof fn law_components_after_slash(p: Seq<char>, part: Seq<char>)
    requires
        !part.contains('/'),
    ensures
        components(p.push('/') + part) == (if part.len() == 0 || part == seq!['.'] {
            components(p)
        } else {
            components(p).push(part)
        }),
        p.len() > 0 ==> is_rooted(p.push('/') + part) == is_rooted(p),
        p.len() == 0 ==> is_rooted(p.push('/') + part),
{
    let q = p.push('/') + part;
    lemma_split_concat(p, part, '/');
    lemma_split_whole(part, '/');
    law_split_join(p, '/');
    let parts = split(p, '/');
    assert(split(q, '/') =~= parts.push(part));
    assert(split(q, '/').drop_last() =~= parts);
    if p.len() > 0 {
        assert(q[0] == p[0]);
    } else {
        reveal_with_fuel(components_of, 2);
        assert(parts =~= seq![Seq::<char>::empty()]);
        assert(parts.drop_last() =~= Seq::<Seq<char>>::empty());
        assert(components_of(parts, true) =~= Seq::<Seq<char>>::empty());
        assert(components(p) =~= Seq::<Seq<char>>::empty());
    }
}

/// Paths are equal exactly if they start at the same place and have the same
/// components; so two names below one base are equal only if they are the
/// same name.
pub proof fn law_equal_paths(a: Seq<char>, b: Seq<char>, n: Seq<char>, m: Seq<char>)
    ensures
        same_path(a, b) <==> is_rooted(a) == is_rooted(b) && components(a) == components(b),
        a.len() > 0 && n.len() > 0 && m.len() > 0 && !n.contains('/') && !m.contains('/') && n
            != seq!['.'] && m != seq!['.'] ==> (same_path(joined_path(a, n), joined_path(a, m))
            <==> n == m),
{
    if a.len() > 0 && n.len() > 0 && m.len() > 0 && !n.contains('/') && !m.contains('/') && n
        != seq!['.'] && m != seq!['.'] {
        law_join_adds_a_component(a, n);
        law_join_adds_a_component(a, m);
        let c = components(a);
        assert(c.push(n).last() == n && c.push(m).last() == m);
    }
}

/// A slash at the end makes no difference.
pub proof fn law_trailing_slash(p: Seq<char>)
    requires
        p.len() > 0,
    ensures
        same_path(p.push('/'), p),
{
    let q = p.push('/');
    assert(q.drop_last() =~= p);
    let parts = split(p, '/');
    assert(split(q, '/') == parts.push(Seq::empty()));
    assert(split(q, '/').drop_last() =~= parts);
}

/// Joining adds one component at the end, whether or not the base ends with a
/// slash.
pub proof fn law_join_adds_a_component(base: Seq<char>, name: Seq<char>)
    requires
        base.len() > 0,
        name.len() > 0,
        !name.contains('/'),
        name != seq!['.'],
    ensures
        components(joined_path(base, name)) == components(base).push(name),
        is_rooted(joined_path(base, name)) == is_rooted(base),
{
    assert(name.contains(name[0]));
    lemma_split_whole(name, '/');
    let whole = joined_path(base, name);
    if base.last() == '/' {
        let b = base.drop_last();
        assert(base =~= b.push('/'));
        lemma_split_concat(b, name, '/');
        assert(split(whole, '/') =~= split(b, '/').push(name));
        assert(split(base, '/') == split(b, '/').push(Seq::empty()));
        assert(split(whole, '/').drop_last() =~= split(b, '/'));
        assert(split(base, '/').drop_last() =~= split(b, '/'));
        law_split_join(b, '/');
    } else {
        lemma_split_concat(base, name, '/');
        assert(split(whole, '/') =~= split(base, '/').push(name));
        assert(split(whole, '/').drop_last() =~= split(base, '/'));
        law_split_join(base, '/');
    }
}

} // verus!
