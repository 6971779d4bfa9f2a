//! Views of `Option`, `Result` and lists, for contracts that speak of both
//! the value and the error a function may return.
use vstd::prelude::*;

verus! {

/// The view of what a `Result` holds, on either side.
pub open spec fn result_view<T: View, E: View>(r: Result<T, E>) -> Result<T::V, E::V> {
    match r {
        Ok(t) => Ok(t@),
        Err(e) => Err(e@),
    }
}

/// The view of what an `Option` holds.
pub open spec fn option_view<T: View>(o: Option<T>) -> Option<T::V> {
    match o {
        Some(t) => Some(t@),
        None => None,
    }
}

/// The views of the items of a list.
pub open spec fn list_view<T: View>(s: Seq<T>) -> Seq<T::V> {
    Seq::new(s.len(), |i: int| s[i]@)
}

/// The position of the first `x` in `s`, or `s.len()` when `s` holds none.
pub open spec fn position<T>(s: Seq<T>, x: T) -> int
    decreases s.len(),
{
    if s.len() == 0 || s[0] == x {
        0
    } else {
        1 + position(s.drop_first(), x)
    }
}

/// `position` is the one index before which no `x` stands and which is
/// either the end of `s` or holds `x`.
pub proof fn lemma_position<T>(s: Seq<T>, x: T, i: int)
    requires
        0 <= i <= s.len(),
        forall|j: int| 0 <= j < i ==> s[j] != x,
        i < s.len() ==> s[i] == x,
    ensures
        position(s, x) == i,
        i < s.len() <==> s.contains(x),
    decreases s.len(),
{
    if s.len() == 0 || s[0] == x {
    } else {
        let t = s.drop_first();
        assert forall|j: int| 0 <= j < i - 1 implies t[j] != x by {
            assert(t[j] == s[j + 1]);
        }
        lemma_position(t, x, i - 1);
    }
}

/// What `position` gives is in range and is the first occurrence.
pub proof fn lemma_position_bounds<T>(s: Seq<T>, x: T)
    ensures
        0 <= position(s, x) <= s.len(),
        forall|j: int| 0 <= j < position(s, x) ==> s[j] != x,
        position(s, x) < s.len() ==> s[position(s, x)] == x,
        position(s, x) < s.len() <==> s.contains(x),
    decreases s.len(),
{
    if s.len() == 0 || s[0] == x {
    } else {
        let t = s.drop_first();
        lemma_position_bounds(t, x);
        assert forall|j: int| 0 <= j < position(s, x) implies s[j] != x by {
            if j > 0 {
                assert(t[j - 1] == s[j]);
            }
        }
        if position(s, x) < s.len() {
            assert(s[position(s, x)] == x);
        } else {
            assert forall|j: int| 0 <= j < s.len() implies s[j] != x by {}
        }
    }
}

/// The texts of a list of strings.
pub open spec fn texts(v: Seq<String>) -> Seq<Seq<char>> {
    Seq::new(v.len(), |i: int| v[i]@)
}

/// The position of the first string of `names` that reads `name`, or
/// `names.len()` when there is none.
pub fn position_of(names: &Vec<String>, name: &str) -> (i: usize)
    ensures
        i == position(texts(names@), name@),
        i <= names.len(),
        i < names.len() <==> texts(names@).contains(name@),
{
    let wanted = name.to_owned();
    let mut i: usize = 0;
    while i < names.len() && names[i] != wanted
        invariant
            i <= names.len(),
            wanted@ == name@,
            forall|j: int| 0 <= j < i ==> texts(names@)[j] != name@,
        decreases names.len() - i,
    {
        i += 1;
    }
    proof {
        lemma_position(texts(names@), name@, i as int);
    }
    i
}

/// Whether one of `names` reads `name`.
pub fn has_name(names: &Vec<String>, name: &str) -> (b: bool)
    ensures
        b == texts(names@).contains(name@),
{
    position_of(names, name) < names.len()
}

/// The test for a text that is among `names`, or is not.
pub open spec fn among(names: Seq<Seq<char>>, present: bool) -> spec_fn(Seq<char>) -> bool {
    |name: Seq<char>| names.contains(name) == present
}

/// Those of `all` that are among `names`, or those that are not, in the
/// order of `all`.
pub fn pick(all: &Vec<String>, names: &Vec<String>, present: bool) -> (kept: Vec<String>)
    ensures
        texts(kept@) == texts(all@).filter(among(texts(names@), present)),
{
    let ghost views = texts(all@);
    let ghost test = among(texts(names@), present);
    let mut kept: Vec<String> = Vec::new();
    let mut i: usize = 0;
    proof {
        reveal(Seq::filter);
        assert(views.take(0).filter(test) =~= Seq::empty());
        assert(texts(kept@) =~= Seq::empty());
    }
    while i < all.len()
        invariant
            i <= all.len(),
            views == texts(all@),
            test == among(texts(names@), present),
            texts(kept@) == views.take(i as int).filter(test),
        decreases all.len() - i,
    {
        proof {
            assert(views.take(i + 1) == views.take(i as int).push(views[i as int]));
            views.take(i as int).lemma_filter_push(views[i as int], test);
        }
        if has_name(names, all[i].as_str()) == present {
            let ghost before = texts(kept@);
            kept.push(all[i].clone());
            assert(texts(kept@) == before.push(views[i as int]));
        }
        i += 1;
    }
    assert(views.take(i as int) == views);
    kept
}

} // verus!
