//! The library's path model: a path is a string of `/`-separated segments,
//! absolute when it starts with `/`. A segment `.` names the current
//! directory and `..` the parent. The tracked paths handed to the library
//! name one entry per segment and carry no trailing separator.

use vstd::prelude::*;

verus! {

/// Is `s` an absolute path?
pub open spec fn is_absolute(s: Seq<char>) -> bool {
    s.len() > 0 && s[0] == '/'
}

/// What joining `p` onto base `b` yields: an absolute `p` stands alone, an
/// empty base adds nothing, and otherwise exactly one separator stands
/// between the two.
pub open spec fn join_spec(b: Seq<char>, p: Seq<char>) -> Seq<char> {
    if is_absolute(p) {
        p
    } else if b.len() == 0 {
        p
    } else if b.last() == '/' {
        b + p
    } else {
        b + seq!['/'] + p
    }
}

/// Join a path onto a base path.
pub fn join(base: &String, path: &String) -> (r: String)
    ensures
        r@ == join_spec(base@, path@),
{
    let bl = base.as_str().unicode_len();
    let pl = path.as_str().unicode_len();
    if pl > 0 && path.as_str().get_char(0) == '/' {
        return path.clone();
    }
    if bl == 0 {
        return path.clone();
    }
    let mut r = base.clone();
    if base.as_str().get_char(bl - 1) != '/' {
        r.append("/");
        proof {
            reveal_strlit("/");
            assert(("/")@ =~= seq!['/']);
        }
    }
    r.append(path.as_str());
    r
}

/// How far the first segment of `s` reaches: the index of the first `/`, or
/// the whole length when there is none.
pub open spec fn first_sep(s: Seq<char>) -> nat
    decreases s.len(),
{
    if s.len() == 0 {
        0
    } else if s[0] == '/' {
        0
    } else {
        1 + first_sep(s.subrange(1, s.len() as int))
    }
}

/// `first_sep` is pinned by a scan: no separator before `k`, and one at `k`
/// unless `k` is the whole length.
pub proof fn lemma_first_sep_at(s: Seq<char>, k: int)
    requires
        0 <= k <= s.len(),
        forall|m: int| 0 <= m < k ==> s[m] != '/',
        k < s.len() ==> s[k] == '/',
    ensures
        first_sep(s) == k,
    decreases s.len(),
{
    if s.len() > 0 && s[0] != '/' {
        let sub = s.subrange(1, s.len() as int);
        assert(k >= 1);
        lemma_first_sep_at(sub, k - 1);
    }
}

/// One path component.
#[derive(Debug, PartialEq, Eq)]
pub enum PathComponent {
    RootDir,
    CurDir,
    ParentDir,
    Normal(String),
}

/// A path component as an abstract value.
pub enum Comp {
    Root,
    Cur,
    Parent,
    Normal(Seq<char>),
}

impl View for PathComponent {
    type V = Comp;

    open spec fn view(&self) -> Comp {
        match self {
            PathComponent::RootDir => Comp::Root,
            PathComponent::CurDir => Comp::Cur,
            PathComponent::ParentDir => Comp::Parent,
            PathComponent::Normal(n) => Comp::Normal(n@),
        }
    }
}

/// What one non-empty segment stands for.
pub open spec fn comp_of_seg(seg: Seq<char>) -> Comp {
    if seg == seq!['.'] {
        Comp::Cur
    } else if seg == seq!['.', '.'] {
        Comp::Parent
    } else {
        Comp::Normal(seg)
    }
}

/// The components of the segments of `s`: empty segments (repeated
/// separators) vanish, the rest classify as `.` / `..` / a name.
pub open spec fn seg_comps(s: Seq<char>) -> Seq<Comp>
    decreases s.len(),
{
    if s.len() == 0 {
        Seq::<Comp>::empty()
    } else if s[0] == '/' {
        seg_comps(s.subrange(1, s.len() as int))
    } else {
        let k = first_sep(s);
        if 1 <= k <= s.len() {
            seq![comp_of_seg(s.subrange(0, k as int))] + seg_comps(
                s.subrange(k as int, s.len() as int),
            )
        } else {
            Seq::<Comp>::empty()
        }
    }
}

/// All components of `s`: a leading separator contributes the root, then the
/// segments follow.
pub open spec fn components_of(s: Seq<char>) -> Seq<Comp> {
    if is_absolute(s) {
        seq![Comp::Root] + seg_comps(s)
    } else {
        seg_comps(s)
    }
}

/// The components as abstract values.
pub open spec fn comps_view(v: Seq<PathComponent>) -> Seq<Comp> {
    v.map_values(|c: PathComponent| c@)
}

/// Split a path into its components.
pub fn split_components(path: &String) -> (v: Vec<PathComponent>)
    ensures
        comps_view(v@) == components_of(path@),
{
    let s = path.as_str();
    let n = s.unicode_len();
    let ghost sv = path@;
    let mut v: Vec<PathComponent> = Vec::new();
    if n > 0 && s.get_char(0) == '/' {
        v.push(PathComponent::RootDir);
    }
    proof {
        assert(sv.subrange(0, n as int) =~= sv);
        if n > 0 && sv[0] == '/' {
            assert(comps_view(v@) =~= seq![Comp::Root]);
        } else {
            assert(comps_view(v@) =~= Seq::<Comp>::empty());
        }
    }
    let mut i: usize = 0;
    while i < n
        invariant
            s@ == sv,
            n == sv.len(),
            i <= n,
            components_of(sv) =~= comps_view(v@) + seg_comps(sv.subrange(i as int, n as int)),
        decreases n - i,
    {
        let ghost v0 = v@;
        let ghost rem = sv.subrange(i as int, n as int);
        if s.get_char(i) == '/' {
            proof {
                assert(rem.subrange(1, rem.len() as int) =~= sv.subrange(i + 1, n as int));
            }
            i += 1;
        } else {
            let mut j: usize = i + 1;
            while j < n && s.get_char(j) != '/'
                invariant
                    s@ == sv,
                    n == sv.len(),
                    i < j <= n,
                    forall|m: int| i < m < j ==> sv[m] != '/',
                    sv[i as int] != '/',
                decreases n - j,
            {
                j += 1;
            }
            proof {
                assert(j == n || sv[j as int] == '/');
                assert forall|m: int| 0 <= m < j - i implies rem[m] != '/' by {
                    assert(rem[m] == sv[i + m]);
                }
                if j < n {
                    assert(rem[j - i] == sv[j as int]);
                }
                lemma_first_sep_at(rem, j - i);
                assert(rem.subrange(0, j - i) =~= sv.subrange(i as int, j as int));
                assert(rem.subrange(j - i, rem.len() as int) =~= sv.subrange(j as int, n as int));
            }
            let seg = s.substring_char(i, j);
            let ghost segv = sv.subrange(i as int, j as int);
            let c: PathComponent;
            if j - i == 1 && s.get_char(i) == '.' {
                c = PathComponent::CurDir;
                proof {
                    assert(segv =~= seq!['.']);
                }
            } else if j - i == 2 && s.get_char(i) == '.' && s.get_char(i + 1) == '.' {
                c = PathComponent::ParentDir;
                proof {
                    assert(segv =~= seq!['.', '.']);
                }
            } else {
                c = PathComponent::Normal(seg.to_owned());
                proof {
                    if segv == seq!['.'] {
                        assert(segv.len() == 1 && segv[0] == '.');
                    }
                    if segv == seq!['.', '.'] {
                        assert(segv.len() == 2 && segv[0] == '.' && segv[1] == '.');
                    }
                    assert(comp_of_seg(segv) == Comp::Normal(segv));
                }
            }
            v.push(c);
            proof {
                assert(comps_view(v@) =~= comps_view(v0).push(c@));
                assert(c@ == comp_of_seg(segv));
                assert(seg_comps(rem) =~= seq![comp_of_seg(segv)] + seg_comps(
                    sv.subrange(j as int, n as int),
                ));
                assert(comps_view(v0) + seg_comps(rem) =~= comps_view(v@) + seg_comps(
                    sv.subrange(j as int, n as int),
                ));
            }
            i = j;
        }
    }
    proof {
        assert(sv.subrange(n as int, n as int) =~= Seq::<char>::empty());
        assert(comps_view(v@) + Seq::<Comp>::empty() =~= comps_view(v@));
    }
    v
}

/// The index of the last separator in `s`, or `-1` when there is none.
pub open spec fn last_slash(s: Seq<char>) -> int
    decreases s.len(),
{
    if s.len() == 0 {
        -1
    } else if s.last() == '/' {
        s.len() - 1
    } else {
        last_slash(s.drop_last())
    }
}

pub proof fn lemma_last_slash(s: Seq<char>)
    ensures
        -1 <= last_slash(s) < s.len(),
        last_slash(s) >= 0 ==> s[last_slash(s)] == '/',
        forall|m: int| last_slash(s) < m < s.len() ==> s[m] != '/',
    decreases s.len(),
{
    if s.len() > 0 && s.last() != '/' {
        lemma_last_slash(s.drop_last());
        assert forall|m: int| last_slash(s) < m < s.len() implies s[m] != '/' by {
            if m < s.len() - 1 {
                assert(s.drop_last()[m] != '/');
            }
        }
    }
}

/// `last_slash` is pinned by a scan from the end: a separator at `k` with
/// none after it.
pub proof fn lemma_last_slash_at(s: Seq<char>, k: int)
    requires
        0 <= k < s.len(),
        s[k] == '/',
        forall|m: int| k < m < s.len() ==> s[m] != '/',
    ensures
        last_slash(s) == k,
    decreases s.len(),
{
    if s.last() != '/' {
        assert(k < s.len() - 1);
        lemma_last_slash_at(s.drop_last(), k);
    }
}

/// What `..`-free navigation treats as the containing directory: everything
/// before the last separator, `/` when that separator leads the path, the
/// empty path when there is no separator, and nothing for the root or the
/// empty path themselves.
pub open spec fn parent_spec(s: Seq<char>) -> Option<Seq<char>> {
    if s.len() == 0 || s == seq!['/'] {
        None
    } else {
        let k = last_slash(s);
        if k < 0 {
            Some(Seq::<char>::empty())
        } else if k == 0 {
            Some(seq!['/'])
        } else {
            Some(s.subrange(0, k))
        }
    }
}

/// The entry a path names inside its directory: the part after the last
/// separator, unless that part is empty, `.` or `..`.
pub open spec fn file_name_spec(s: Seq<char>) -> Option<Seq<char>> {
    let name = s.subrange(last_slash(s) + 1, s.len() as int);
    if name.len() == 0 || name == seq!['.'] || name == seq!['.', '.'] {
        None
    } else {
        Some(name)
    }
}

/// Scan for the separator splitting directory from entry name: the index
/// one past the last `/`, or zero when there is none.
fn find_name_start(path: &String) -> (k: usize)
    ensures
        k == last_slash(path@) + 1,
{
    let s = path.as_str();
    let n = s.unicode_len();
    let mut k: usize = n;
    while k > 0
        invariant
            s@ == path@,
            n == path@.len(),
            k <= n,
            forall|m: int| k <= m < n ==> path@[m] != '/',
        decreases k,
    {
        if s.get_char(k - 1) == '/' {
            proof {
                lemma_last_slash_at(path@, k - 1);
            }
            return k;
        }
        k -= 1;
    }
    proof {
        lemma_last_slash(path@);
        if last_slash(path@) >= 0 {
            assert(path@[last_slash(path@)] == '/');
        }
    }
    0
}

/// The entry a path names inside its directory.
pub fn file_name(path: &String) -> (r: Option<String>)
    ensures
        match r {
            Some(name) => file_name_spec(path@) == Some(name@),
            None => file_name_spec(path@) is None,
        },
{
    let s = path.as_str();
    let n = s.unicode_len();
    let k = find_name_start(path);
    let ghost name = path@.subrange(last_slash(path@) + 1, path@.len() as int);
    proof {
        lemma_last_slash(path@);
        assert(name.len() == n - k);
        assert forall|m: int| 0 <= m < name.len() implies name[m] == path@[k + m] by {}
    }
    if k == n {
        return None;
    }
    if n - k == 1 && s.get_char(k) == '.' {
        proof {
            assert(name =~= seq!['.']);
        }
        return None;
    }
    if n - k == 2 && s.get_char(k) == '.' && s.get_char(k + 1) == '.' {
        proof {
            assert(name =~= seq!['.', '.']);
        }
        return None;
    }
    let r = s.substring_char(k, n).to_owned();
    proof {
        assert(r@ =~= name);
        if name == seq!['.'] {
            assert(name.len() == 1 && name[0] == '.');
        }
        if name == seq!['.', '.'] {
            assert(name.len() == 2 && name[0] == '.' && name[1] == '.');
        }
    }
    Some(r)
}

/// The containing directory of a path.
pub fn parent(path: &String) -> (r: Option<String>)
    ensures
        match r {
            Some(dir) => parent_spec(path@) == Some(dir@),
            None => parent_spec(path@) is None,
        },
{
    let s = path.as_str();
    let n = s.unicode_len();
    if n == 0 {
        return None;
    }
    if n == 1 && s.get_char(0) == '/' {
        proof {
            assert(path@ =~= seq!['/']);
        }
        return None;
    }
    proof {
        if path@ == seq!['/'] {
            assert(path@.len() == 1 && path@[0] == '/');
        }
    }
    let k = find_name_start(path);
    if k == 0 {
        let empty = String::new();
        proof {
            assert(empty@ =~= Seq::<char>::empty());
        }
        return Some(empty);
    }
    if k == 1 {
        let r = s.substring_char(0, 1).to_owned();
        proof {
            lemma_last_slash(path@);
            assert(path@[0] == '/');
            assert(r@ =~= seq!['/']);
        }
        return Some(r);
    }
    proof {
        lemma_last_slash(path@);
    }
    let r = s.substring_char(0, k - 1).to_owned();
    Some(r)
}

} // verus!
