//! Path strings: joining a component onto a directory and taking the last
//! component of a path.

use vstd::prelude::*;
use vstd::string::*;

verus! {

/// `base` joined with the relative component `name`, with exactly one
/// separator between them.
pub open spec fn joined(base: Seq<char>, name: Seq<char>) -> Seq<char> {
    if base.len() == 0 {
        name
    } else if base.last() == '/' {
        base + name
    } else {
        base + seq!['/'] + name
    }
}

/// The characters of `p` after its last separator (all of `p` when it has
/// none).
pub open spec fn last_component(p: Seq<char>) -> Seq<char>
    decreases p.len(),
{
    if p.len() == 0 {
        p
    } else if p.last() == '/' {
        Seq::empty()
    } else {
        last_component(p.drop_last()).push(p.last())
    }
}

/// Two names joined onto one directory give one path only if they are equal.
pub proof fn lemma_joined_injective(base: Seq<char>, a: Seq<char>, b: Seq<char>)
    requires
        joined(base, a) == joined(base, b),
    ensures
        a == b,
{
    let k: int = if base.len() == 0 {
        0int
    } else if base.last() == '/' {
        base.len() as int
    } else {
        base.len() + 1int
    };
    assert(a =~= joined(base, a).subrange(k, joined(base, a).len() as int));
    assert(b =~= joined(base, b).subrange(k, joined(base, b).len() as int));
}

/// Whether some string of `v` equals `s`.
pub fn list_contains(v: &Vec<String>, s: &String) -> (r: bool)
    ensures
        r == exists|k: int| 0 <= k < v@.len() && v@[k]@ == s@,
{
    let mut k: usize = 0;
    while k < v.len()
        invariant
            k <= v@.len(),
            forall|m: int| 0 <= m < k ==> v@[m]@ != s@,
        decreases v@.len() - k,
    {
        if v[k] == *s {
            return true;
        }
        k = k + 1;
    }
    false
}

/// Joins the relative component `name` onto `base`.
pub fn join_path(base: &str, name: &str) -> (r: String)
    ensures
        r@ == joined(base@, name@),
{
    let n = base.unicode_len();
    let mut r = String::from_str(base);
    if n > 0 && base.get_char(n - 1) != '/' {
        r.append("/");
    }
    r.append(name);
    proof {
        reveal_strlit("/");
    }
    r
}

/// The last component of `path`: what follows its last `/`.
pub fn basename(path: &str) -> (r: String)
    ensures
        r@ == last_component(path@),
{
    let n = path.unicode_len();
    let mut start: usize = n;
    proof {
        assert(path@.subrange(0, n as int) =~= path@);
        assert(last_component(path@) + path@.subrange(n as int, n as int) =~= last_component(path@));
    }
    while start > 0 && path.get_char(start - 1) != '/'
        invariant
            start <= n,
            n == path@.len(),
            last_component(path@) == last_component(path@.subrange(0, start as int))
                + path@.subrange(start as int, n as int),
        decreases start,
    {
        proof {
            let s = path@.subrange(0, start as int);
            assert(s.drop_last() =~= path@.subrange(0, start - 1));
            assert(path@.subrange(start - 1, n as int) =~= seq![s.last()]
                + path@.subrange(start as int, n as int));
            assert(last_component(s) == last_component(s.drop_last()).push(s.last()));
            assert(last_component(s.drop_last()).push(s.last()) + path@.subrange(start as int, n as int)
                =~= last_component(s.drop_last()) + path@.subrange(start - 1, n as int));
        }
        start = start - 1;
    }
    proof {
        if start > 0 {
            assert(path@.subrange(0, start as int).last() == '/');
        }
        assert(path@.subrange(0, 0) =~= Seq::<char>::empty());
    }
    let r = path.substring_char(start, n);
    String::from_str(r)
}

} // verus!
